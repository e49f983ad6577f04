use cissp_coach::text::{decimal, truncate};

#[test]
fn decimal_writes_numbers() {
    assert_eq!(decimal(0), "0");
    assert_eq!(decimal(7), "7");
    assert_eq!(decimal(1234567890), "1234567890");
    assert_eq!(decimal(u64::MAX), u64::MAX.to_string());
}

#[test]
fn truncate_cuts_at_a_byte_limit() {
    assert_eq!(truncate("short", 10), "short");
    assert_eq!(truncate("exactly", 7), "exactly");
    assert_eq!(truncate("abcdef", 3), "abc…");
    assert_eq!(truncate("héllo", 3), "hé…");
    assert_eq!(truncate("", 0), "");
}
