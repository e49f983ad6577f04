use cissp_coach::pdf::{
    after_probe, check_render_output, pick_script, split_words, start_python_search, PdfError,
    PythonStep,
};

/// Runs the interpreter search with `probe` standing in for launching
/// `candidate` with (`true`) or without (`false`) the reportlab import.
fn locate_with(override_var: Option<&str>, probe: impl Fn(usize, bool) -> bool) -> Result<Vec<String>, PdfError> {
    let mut step = start_python_search(override_var.map(|s| s.to_string()));
    loop {
        match step {
            PythonStep::Use(cmd) => return Ok(cmd),
            PythonStep::NotFound => return Err(PdfError::PythonNotFound),
            PythonStep::Probe { candidate, needs_reportlab } => {
                let ok = probe(candidate, needs_reportlab);
                step = after_probe(candidate, needs_reportlab, ok);
            }
        }
    }
}

#[test]
fn locate_python_returns_something_or_python_not_found() {
    // Whatever the machine has, the search ends in a launcher or in
    // `PythonNotFound`.
    let machines: Vec<Box<dyn Fn(usize, bool) -> bool>> = vec![
        Box::new(|_, _| false),
        Box::new(|c, r| c == 1 && !r),
        Box::new(|c, r| c == 2 && r),
        Box::new(|_, _| true),
    ];
    for probe in machines {
        match locate_with(None, probe) {
            Ok(cmd) => {
                assert!(!cmd.is_empty());
                let first = &cmd[0];
                assert!(
                    first == "python3" || first == "python" || first == "py" || !first.is_empty(),
                    "unexpected python launcher: {first:?}"
                );
            }
            Err(PdfError::PythonNotFound) => {}
            Err(other) => panic!("unexpected error: {}", other.message()),
        }
    }
}

#[test]
fn python_search_prefers_reportlab_then_any_python() {
    assert_eq!(locate_with(None, |c, r| c == 2 && r).unwrap(), vec!["py", "-3"]);
    assert_eq!(locate_with(None, |c, r| r && c >= 1).unwrap(), vec!["python"]);
    assert_eq!(locate_with(None, |c, r| !r && c == 1).unwrap(), vec!["python"]);
    assert_eq!(locate_with(None, |_, _| true).unwrap(), vec!["python3"]);
    assert!(matches!(locate_with(None, |_, _| false), Err(PdfError::PythonNotFound)));
    assert_eq!(
        locate_with(Some("  py   -3.14 "), |_, _| false).unwrap(),
        vec!["py", "-3.14"]
    );
    assert_eq!(locate_with(Some("   "), |c, r| c == 0 && r).unwrap(), vec!["python3"]);
}

#[test]
fn split_words_on_whitespace() {
    assert_eq!(split_words(" a\tb  c\n"), vec!["a", "b", "c"]);
    assert!(split_words("   ").is_empty());
    assert_eq!(split_words("C:\\Python314\\python.exe"), vec!["C:\\Python314\\python.exe"]);
}

#[test]
fn pick_script_takes_first_existing() {
    let r = pick_script(vec![
        ("/opt/app/scripts/study_guide.py".to_string(), false),
        ("/opt/scripts/study_guide.py".to_string(), true),
        ("scripts/study_guide.py".to_string(), true),
    ]);
    assert_eq!(r.unwrap(), "/opt/scripts/study_guide.py");
    match pick_script(vec![
        ("/a/scripts/study_guide.py".to_string(), false),
        ("scripts/study_guide.py".to_string(), false),
    ]) {
        Err(PdfError::ScriptNotFound(p)) => assert_eq!(p, "/a/scripts/study_guide.py"),
        _ => panic!("expected ScriptNotFound"),
    }
    match pick_script(vec![]) {
        Err(PdfError::ScriptNotFound(p)) => assert_eq!(p, "."),
        _ => panic!("expected ScriptNotFound"),
    }
}

#[test]
fn render_output_is_checked() {
    let pdf = b"%PDF-1.7 rest".to_vec();
    assert_eq!(check_render_output(true, Some(0), pdf.clone(), String::new()).unwrap(), pdf);
    match check_render_output(false, Some(2), pdf.clone(), "boom".to_string()) {
        Err(PdfError::NonZero { code, stderr }) => {
            assert_eq!(code, Some(2));
            assert_eq!(stderr, "boom");
        }
        _ => panic!("expected NonZero"),
    }
    match check_render_output(true, Some(0), b"hello".to_vec(), "warn".to_string()) {
        Err(PdfError::NonZero { code, stderr }) => {
            assert_eq!(code, Some(0));
            assert_eq!(stderr, "script returned 5 bytes but no PDF magic. stderr: warn");
        }
        _ => panic!("expected NonZero"),
    }
    assert!(check_render_output(true, None, b"%PDF".to_vec(), String::new()).is_err());
}

#[test]
fn pdf_error_messages() {
    assert_eq!(
        PdfError::PythonNotFound.message(),
        "Python not found on PATH. Install Python 3.10+ and reportlab (pip install -r requirements.txt) to use the study-guide PDF feature."
    );
    assert_eq!(
        PdfError::ScriptNotFound("scripts/study_guide.py".to_string()).message(),
        "study_guide.py not found (looked near scripts/study_guide.py). Make sure scripts/study_guide.py ships alongside the binary or is in the project root."
    );
    assert_eq!(PdfError::Spawn("wait: gone".to_string()).message(), "subprocess error: wait: gone");
    assert_eq!(
        PdfError::NonZero { code: Some(-3), stderr: "  Traceback\n".to_string() }.message(),
        "study_guide.py exited -3: Traceback"
    );
    assert_eq!(
        PdfError::NonZero { code: None, stderr: "x".to_string() }.message(),
        "study_guide.py exited ?: x"
    );
}
