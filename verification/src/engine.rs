//! Adaptive question distribution and per-domain difficulty progression.
//!
//! Accuracies are exact ratios of integers and every weight, target and score
//! is a fixed-point integer, so each number the planner produces is stated by
//! a spec function below and proved equal to it.
use std::collections::BTreeMap;
use vstd::prelude::*;

verus! {

broadcast use vstd::std_specs::btree::group_btree_axioms;

/// Size of the per-domain window of recent outcomes.
pub const ROLLING_WINDOW: usize = 10;
/// Rolling accuracy (in percent) at or above which a domain is promoted.
pub const PROMOTE_THRESHOLD_PCT: u32 = 80;
/// Rolling accuracy (in percent) at or below which a domain is demoted.
pub const DEMOTE_THRESHOLD_PCT: u32 = 40;
/// Number of questions in a regular batch.
pub const BATCH_SIZE: u32 = 50;
/// Fewest questions any domain receives in a batch.
pub const COUNT_FLOOR: u32 = 2;
/// Most questions any domain receives in a batch.
pub const COUNT_CEIL: u32 = 15;
/// Number of CISSP domains.
pub const NUM_DOMAINS: u8 = 8;
/// Highest difficulty tier.
pub const TOP_TIER: u8 = 4;
/// Fixed-point unit of a domain weight (weight 1.0 == `W_SCALE`).
pub const W_SCALE: u64 = 1_000_000;
/// Fixed-point unit of a raw (unrounded) question count.
pub const RAW_SCALE: u64 = 1_000_000;
/// Weight given to a mastered domain at the top tier (0.001).
pub const MASTERED_WEIGHT: u64 = 1_000;
/// Additive weight every domain receives (0.10).
pub const BASE_WEIGHT: u64 = 100_000;

// ─── Domain and tier tables ────────────────────────────────────────────────

/// Whether `d` names one of the eight CISSP domains.
pub open spec fn is_domain(d: int) -> bool {
    1 <= d <= 8
}

pub open spec fn domain_name_text(d: u8) -> Seq<char> {
    if d == 1 {
        "Security & Risk Management"@
    } else if d == 2 {
        "Asset Security"@
    } else if d == 3 {
        "Security Architecture & Engineering"@
    } else if d == 4 {
        "Communication & Network Security"@
    } else if d == 5 {
        "Identity & Access Management"@
    } else if d == 6 {
        "Security Assessment & Testing"@
    } else if d == 7 {
        "Security Operations"@
    } else if d == 8 {
        "Software Development Security"@
    } else {
        "Unknown"@
    }
}

pub open spec fn domain_short_text(d: u8) -> Seq<char> {
    if d == 1 {
        "Risk Mgmt"@
    } else if d == 2 {
        "Asset Sec"@
    } else if d == 3 {
        "Arch / Eng"@
    } else if d == 4 {
        "Network"@
    } else if d == 5 {
        "IAM"@
    } else if d == 6 {
        "Assess"@
    } else if d == 7 {
        "SecOps"@
    } else if d == 8 {
        "SDLC"@
    } else {
        "?"@
    }
}

pub open spec fn tier_name_text(t: u8) -> Seq<char> {
    if t == 1 {
        "Easy"@
    } else if t == 2 {
        "Moderate"@
    } else if t == 3 {
        "Hard"@
    } else if t == 4 {
        "Expert"@
    } else {
        "?"@
    }
}

/// Full name of a CISSP domain, `"Unknown"` for any other number.
pub fn domain_name(d: u8) -> (name: &'static str)
    ensures
        name@ == domain_name_text(d),
{
    match d {
        1 => "Security & Risk Management",
        2 => "Asset Security",
        3 => "Security Architecture & Engineering",
        4 => "Communication & Network Security",
        5 => "Identity & Access Management",
        6 => "Security Assessment & Testing",
        7 => "Security Operations",
        8 => "Software Development Security",
        _ => "Unknown",
    }
}

/// Short label of a CISSP domain, `"?"` for any other number.
pub fn domain_short(d: u8) -> (name: &'static str)
    ensures
        name@ == domain_short_text(d),
{
    match d {
        1 => "Risk Mgmt",
        2 => "Asset Sec",
        3 => "Arch / Eng",
        4 => "Network",
        5 => "IAM",
        6 => "Assess",
        7 => "SecOps",
        8 => "SDLC",
        _ => "?",
    }
}

/// Name of a difficulty tier, `"?"` outside 1..=4.
pub fn tier_name(t: u8) -> (name: &'static str)
    ensures
        name@ == tier_name_text(t),
{
    match t {
        1 => "Easy",
        2 => "Moderate",
        3 => "Hard",
        4 => "Expert",
        _ => "?",
    }
}



pub open spec fn tier_desc_text(t: u8) -> Seq<char> {
    if t == 1 {
        "Recall / definitions phrased in a one-sentence business context (e.g. \"Which control type is a security awareness program?\"). One clearly correct answer; distractors share the same category but are easy to rule out. Still uses CISSP vocabulary, not technician trivia."@
    } else if t == 2 {
        "Two-to-four sentence scenario with a single decision point. Two of four distractors are close in topic but wrong in scope; uses softer qualifiers (\"BEST\", \"PRIMARY\"). Requires picking the manager-level concern rather than the technical detail."@
    } else if t == 3 {
        "Multi-sentence scenario with competing pressures (cost, time, regulation, executive demand). At least two distractors are technically correct but solve a different problem; the right answer addresses ROOT CAUSE or the FIRST step in a lifecycle. Uses \"MOST\", \"FIRST\", \"NEXT\" qualifiers; references real frameworks (NIST RMF, ISO 27001, BCP/DR phases, OWASP, Saltzer & Schroeder, STRIDE) where relevant."@
    } else if t == 4 {
        "Real-exam-style scenario, typically 4-7 sentences with at least one piece of misdirecting context (urgent breach, angry executive, sensitive data type that ISN'T the pillar under attack). Two distractors are seductive technician answers; one is the obvious-but-wrong manager answer; the correct option reflects CISO judgement, balances CIA against business impact, and is the FIRST/MOST/BEST action in the lifecycle phase implied by the stem."@
    } else {
        ""@
    }
}

/// What questions of a tier look like, `""` outside 1..=4.
pub fn tier_desc(t: u8) -> (desc: &'static str)
    ensures
        desc@ == tier_desc_text(t),
{
    match t {
        1 => "Recall / definitions phrased in a one-sentence business context (e.g. \"Which control type is a security awareness program?\"). One clearly correct answer; distractors share the same category but are easy to rule out. Still uses CISSP vocabulary, not technician trivia.",
        2 => "Two-to-four sentence scenario with a single decision point. Two of four distractors are close in topic but wrong in scope; uses softer qualifiers (\"BEST\", \"PRIMARY\"). Requires picking the manager-level concern rather than the technical detail.",
        3 => "Multi-sentence scenario with competing pressures (cost, time, regulation, executive demand). At least two distractors are technically correct but solve a different problem; the right answer addresses ROOT CAUSE or the FIRST step in a lifecycle. Uses \"MOST\", \"FIRST\", \"NEXT\" qualifiers; references real frameworks (NIST RMF, ISO 27001, BCP/DR phases, OWASP, Saltzer & Schroeder, STRIDE) where relevant.",
        4 => "Real-exam-style scenario, typically 4-7 sentences with at least one piece of misdirecting context (urgent breach, angry executive, sensitive data type that ISN'T the pillar under attack). Two distractors are seductive technician answers; one is the obvious-but-wrong manager answer; the correct option reflects CISO judgement, balances CIA against business impact, and is the FIRST/MOST/BEST action in the lifecycle phase implied by the stem.",
        _ => "",
    }
}

pub open spec fn domain_anchors_text(d: u8) -> Seq<Seq<char>> {
    if d == 1 {
        seq![
            "risk management lifecycle (identify, assess, respond, monitor)"@,
            "qualitative vs quantitative risk (ALE, SLE, ARO)"@,
            "security governance, policies vs standards vs procedures"@,
            "due care vs due diligence"@,
            "laws & regs (GDPR, HIPAA, SOX, PCI-DSS, GLBA)"@,
            "intellectual property (trade secret, patent, copyright, trademark)"@,
            "professional ethics (ISC2 code, organizational ethics)"@,
            "BCP scope, BIA (RTO, RPO, MTD, WRT)"@,
            "third-party / supply-chain risk"@,
            "security awareness, training, education"@,
        ]
    } else if d == 2 {
        seq![
            "data classification & labeling"@,
            "data owner vs data custodian vs data steward roles"@,
            "data states (at rest, in transit, in use) and protection mappings"@,
            "data retention, archival, and secure disposal"@,
            "media sanitization (clear, purge, destroy; NIST SP 800-88)"@,
            "asset inventory & lifecycle"@,
            "DRM and IRM controls"@,
            "PII / PHI / PCI handling"@,
            "data minimization & masking / tokenization"@,
            "cloud shared-responsibility for data"@,
        ]
    } else if d == 3 {
        seq![
            "security models (Bell-LaPadula, Biba, Clark-Wilson, Brewer-Nash)"@,
            "Saltzer & Schroeder secure-design principles"@,
            "trusted computing base, reference monitor, security kernel"@,
            "cryptography fundamentals (symmetric, asymmetric, hashing, MAC)"@,
            "PKI, certificate lifecycle, key management"@,
            "common cryptographic attacks (replay, birthday, side-channel, padding)"@,
            "secure system architecture (rings, layering, abstraction)"@,
            "vulnerabilities in mobile / IoT / embedded / ICS-SCADA"@,
            "physical & environmental security (CPTED, fire suppression, HVAC)"@,
            "virtualization, containers, and cloud architecture risks"@,
        ]
    } else if d == 4 {
        seq![
            "OSI vs TCP/IP model layer responsibilities"@,
            "secure protocols (TLS 1.3, IPsec AH/ESP, SSH, DNSSEC, S/MIME)"@,
            "network segmentation (VLAN, subnets, microsegmentation, zero trust)"@,
            "firewalls (stateful, NGFW), IDS/IPS, WAF placement"@,
            "VPN topologies (site-to-site, remote access, split tunnel)"@,
            "wireless security (WPA3, EAP variants, rogue AP)"@,
            "DDoS mitigation & egress filtering"@,
            "network attacks (ARP poisoning, DNS poisoning, session hijack, MITM)"@,
            "converged protocols (FCoE, iSCSI, VoIP/SIP) and risks"@,
            "CDN, SD-WAN, SASE concepts"@,
        ]
    } else if d == 5 {
        seq![
            "identification, authentication, authorization, accountability (IAAA)"@,
            "authentication factors and MFA design"@,
            "federation (SAML, OIDC, OAuth2, WS-Fed)"@,
            "SSO, Kerberos, LDAP"@,
            "access control models (DAC, MAC, RBAC, ABAC, RuBAC)"@,
            "privileged access management (PAM), JIT, break-glass"@,
            "identity lifecycle (provision, recertify, deprovision)"@,
            "directory services and trust relationships"@,
            "biometrics (FAR, FRR, CER, enrollment)"@,
            "session management & token security"@,
        ]
    } else if d == 6 {
        seq![
            "audit strategies (internal, external, third-party)"@,
            "control assessment vs control testing"@,
            "vulnerability management lifecycle"@,
            "penetration testing types (black/grey/white box, red/blue/purple team)"@,
            "SOC reports (SOC 1 / 2 / 3, Type I vs Type II)"@,
            "log management & SIEM strategy"@,
            "KPIs vs KRIs vs metrics"@,
            "code review (static, dynamic, IAST, fuzzing)"@,
            "disaster recovery testing (read-through, walkthrough, simulation, parallel, full interruption)"@,
            "continuous monitoring (NIST SP 800-137)"@,
        ]
    } else if d == 7 {
        seq![
            "investigation types (admin, criminal, civil, regulatory)"@,
            "chain of custody, evidence handling, forensics order of volatility"@,
            "incident response phases (NIST SP 800-61)"@,
            "detection engineering, threat hunting"@,
            "backup strategies (full, differential, incremental, 3-2-1)"@,
            "DR strategies (hot/warm/cold/mobile/cloud sites)"@,
            "patch & change management"@,
            "configuration baselines, hardening, CIS benchmarks"@,
            "physical security operations (badging, mantraps, visitor mgmt)"@,
            "egress filtering, DLP operations, insider-threat program"@,
        ]
    } else if d == 8 {
        seq![
            "SDLC phases & security activities at each phase"@,
            "secure coding (input validation, output encoding, parameterized queries)"@,
            "OWASP Top 10 (current) and ASVS"@,
            "threat modeling (STRIDE, DREAD, PASTA, attack trees)"@,
            "static vs dynamic vs interactive testing"@,
            "DevSecOps, CI/CD pipeline security"@,
            "software supply chain (SBOM, signing, dependency mgmt)"@,
            "API security (REST, GraphQL, authn/authz)"@,
            "database security (views, polyinstantiation, ACID)"@,
            "maturity models (CMMI, BSIMM, SAMM)"@,
        ]
    } else {
        seq![]
    }
}

/// Curated topic anchors per CISSP domain (empty outside 1..=8). The prompt
/// lists them so each batch covers a domain broadly.
pub fn domain_anchors(d: u8) -> (anchors: &'static [&'static str])
    ensures
        anchors@.map_values(|s: &str| s@) == domain_anchors_text(d),
        is_domain(d as int) ==> anchors@.len() == 10,
        !is_domain(d as int) ==> anchors@.len() == 0,
{
    match d {
        1 => &[
            "risk management lifecycle (identify, assess, respond, monitor)",
            "qualitative vs quantitative risk (ALE, SLE, ARO)",
            "security governance, policies vs standards vs procedures",
            "due care vs due diligence",
            "laws & regs (GDPR, HIPAA, SOX, PCI-DSS, GLBA)",
            "intellectual property (trade secret, patent, copyright, trademark)",
            "professional ethics (ISC2 code, organizational ethics)",
            "BCP scope, BIA (RTO, RPO, MTD, WRT)",
            "third-party / supply-chain risk",
            "security awareness, training, education",
        ],
        2 => &[
            "data classification & labeling",
            "data owner vs data custodian vs data steward roles",
            "data states (at rest, in transit, in use) and protection mappings",
            "data retention, archival, and secure disposal",
            "media sanitization (clear, purge, destroy; NIST SP 800-88)",
            "asset inventory & lifecycle",
            "DRM and IRM controls",
            "PII / PHI / PCI handling",
            "data minimization & masking / tokenization",
            "cloud shared-responsibility for data",
        ],
        3 => &[
            "security models (Bell-LaPadula, Biba, Clark-Wilson, Brewer-Nash)",
            "Saltzer & Schroeder secure-design principles",
            "trusted computing base, reference monitor, security kernel",
            "cryptography fundamentals (symmetric, asymmetric, hashing, MAC)",
            "PKI, certificate lifecycle, key management",
            "common cryptographic attacks (replay, birthday, side-channel, padding)",
            "secure system architecture (rings, layering, abstraction)",
            "vulnerabilities in mobile / IoT / embedded / ICS-SCADA",
            "physical & environmental security (CPTED, fire suppression, HVAC)",
            "virtualization, containers, and cloud architecture risks",
        ],
        4 => &[
            "OSI vs TCP/IP model layer responsibilities",
            "secure protocols (TLS 1.3, IPsec AH/ESP, SSH, DNSSEC, S/MIME)",
            "network segmentation (VLAN, subnets, microsegmentation, zero trust)",
            "firewalls (stateful, NGFW), IDS/IPS, WAF placement",
            "VPN topologies (site-to-site, remote access, split tunnel)",
            "wireless security (WPA3, EAP variants, rogue AP)",
            "DDoS mitigation & egress filtering",
            "network attacks (ARP poisoning, DNS poisoning, session hijack, MITM)",
            "converged protocols (FCoE, iSCSI, VoIP/SIP) and risks",
            "CDN, SD-WAN, SASE concepts",
        ],
        5 => &[
            "identification, authentication, authorization, accountability (IAAA)",
            "authentication factors and MFA design",
            "federation (SAML, OIDC, OAuth2, WS-Fed)",
            "SSO, Kerberos, LDAP",
            "access control models (DAC, MAC, RBAC, ABAC, RuBAC)",
            "privileged access management (PAM), JIT, break-glass",
            "identity lifecycle (provision, recertify, deprovision)",
            "directory services and trust relationships",
            "biometrics (FAR, FRR, CER, enrollment)",
            "session management & token security",
        ],
        6 => &[
            "audit strategies (internal, external, third-party)",
            "control assessment vs control testing",
            "vulnerability management lifecycle",
            "penetration testing types (black/grey/white box, red/blue/purple team)",
            "SOC reports (SOC 1 / 2 / 3, Type I vs Type II)",
            "log management & SIEM strategy",
            "KPIs vs KRIs vs metrics",
            "code review (static, dynamic, IAST, fuzzing)",
            "disaster recovery testing (read-through, walkthrough, simulation, parallel, full interruption)",
            "continuous monitoring (NIST SP 800-137)",
        ],
        7 => &[
            "investigation types (admin, criminal, civil, regulatory)",
            "chain of custody, evidence handling, forensics order of volatility",
            "incident response phases (NIST SP 800-61)",
            "detection engineering, threat hunting",
            "backup strategies (full, differential, incremental, 3-2-1)",
            "DR strategies (hot/warm/cold/mobile/cloud sites)",
            "patch & change management",
            "configuration baselines, hardening, CIS benchmarks",
            "physical security operations (badging, mantraps, visitor mgmt)",
            "egress filtering, DLP operations, insider-threat program",
        ],
        8 => &[
            "SDLC phases & security activities at each phase",
            "secure coding (input validation, output encoding, parameterized queries)",
            "OWASP Top 10 (current) and ASVS",
            "threat modeling (STRIDE, DREAD, PASTA, attack trees)",
            "static vs dynamic vs interactive testing",
            "DevSecOps, CI/CD pipeline security",
            "software supply chain (SBOM, signing, dependency mgmt)",
            "API security (REST, GraphQL, authn/authz)",
            "database security (views, polyinstantiation, ACID)",
            "maturity models (CMMI, BSIMM, SAMM)",
        ],
        _ => &[],
    }
}

/// The eight CISSP domains: number, full name and short label.
pub const DOMAINS: [(u8, &'static str, &'static str); 8] = [
    (1, "Security & Risk Management", "Risk Mgmt"),
    (2, "Asset Security", "Asset Sec"),
    (3, "Security Architecture & Engineering", "Arch / Eng"),
    (4, "Communication & Network Security", "Network"),
    (5, "Identity & Access Management", "IAM"),
    (6, "Security Assessment & Testing", "Assess"),
    (7, "Security Operations", "SecOps"),
    (8, "Software Development Security", "SDLC"),
];


// ─── Per-domain statistics ─────────────────────────────────────────────────

/// Answer history of one domain: totals and the window of recent outcomes
/// (1 = correct, 0 = wrong), oldest first.
#[derive(Debug, Clone)]
pub struct DomainStat {
    pub attempted: u32,
    pub correct: u32,
    pub recent_correct: Vec<u8>,
}

/// An accuracy as the exact fraction `num / den` (`den > 0`).
#[derive(Debug, Clone, Copy, PartialEq, Eq)]
pub struct Accuracy {
    pub num: u128,
    pub den: u128,
}

/// Sum of a window of outcomes.
pub open spec fn outcome_sum(s: Seq<u8>) -> nat
    decreases s.len(),
{
    if s.len() == 0 {
        0
    } else {
        outcome_sum(s.drop_last()) + s.last() as nat
    }
}

/// Rolling accuracy as `(num, den)`: one half until five answers were given,
/// then the mean of the recent window, or the lifetime ratio when the window
/// is empty.
pub open spec fn rolling_parts(attempted: u32, correct: u32, recent: Seq<u8>) -> (nat, nat) {
    if attempted < 5 {
        (1, 2)
    } else if recent.len() == 0 {
        if attempted > 0 {
            (correct as nat, attempted as nat)
        } else {
            (1, 2)
        }
    } else {
        (outcome_sum(recent), recent.len())
    }
}

pub open spec fn stat_rolling(s: DomainStat) -> (nat, nat) {
    rolling_parts(s.attempted, s.correct, s.recent_correct@)
}

/// The statistics a domain has when none were recorded yet.
pub open spec fn is_empty_stat(s: DomainStat) -> bool {
    s.attempted == 0 && s.correct == 0 && s.recent_correct@.len() == 0
}

proof fn lemma_outcome_sum_bound(s: Seq<u8>)
    ensures
        outcome_sum(s) <= 255 * s.len(),
    decreases s.len(),
{
    if s.len() > 0 {
        lemma_outcome_sum_bound(s.drop_last());
    }
}

impl DomainStat {
    /// Statistics of a domain with no answers.
    pub fn empty() -> (s: DomainStat)
        ensures
            is_empty_stat(s),
    {
        DomainStat { attempted: 0, correct: 0, recent_correct: Vec::new() }
    }

    /// Rolling accuracy, used to weight the next batch and to move tiers.
    pub fn rolling_accuracy(&self) -> (acc: Accuracy)
        ensures
            (acc.num as nat, acc.den as nat) == stat_rolling(*self),
            0 < acc.den <= u64::MAX,
            acc.num <= 255 * (u64::MAX as u128),
    {
        if self.attempted < 5 {
            return Accuracy { num: 1, den: 2 };
        }
        if self.recent_correct.len() == 0 {
            return if self.attempted > 0 {
                Accuracy { num: self.correct as u128, den: self.attempted as u128 }
            } else {
                Accuracy { num: 1, den: 2 }
            };
        }
        let n = self.recent_correct.len();
        let mut sum: u128 = 0;
        let mut i: usize = 0;
        while i < n
            invariant
                n == self.recent_correct@.len(),
                i <= n,
                sum as nat == outcome_sum(self.recent_correct@.take(i as int)),
            decreases n - i,
        {
            proof {
                lemma_outcome_sum_bound(self.recent_correct@.take(i as int));
                assert(self.recent_correct@.take(i + 1).drop_last() =~= self.recent_correct@.take(
                    i as int,
                ));
            }
            sum = sum + self.recent_correct[i] as u128;
            i = i + 1;
        }
        proof {
            assert(self.recent_correct@.take(n as int) =~= self.recent_correct@);
            lemma_outcome_sum_bound(self.recent_correct@);
        }
        Accuracy { num: sum, den: n as u128 }
    }

    /// Lifetime accuracy `correct / attempted`, or `None` before any answer.
    pub fn lifetime_accuracy(&self) -> (acc: Option<Accuracy>)
        ensures
            self.attempted == 0 ==> acc is None,
            self.attempted > 0 ==> acc == Some(
                Accuracy { num: self.correct as u128, den: self.attempted as u128 },
            ),
    {
        if self.attempted == 0 {
            None
        } else {
            Some(Accuracy { num: self.correct as u128, den: self.attempted as u128 })
        }
    }
}


// ─── Domain weights ────────────────────────────────────────────────────────

/// Integer square root: the largest `r` with `r * r <= n`.
pub open spec fn isqrt(n: nat) -> nat
    decreases n,
{
    if n == 0 {
        0
    } else {
        let r = isqrt((n - 1) as nat);
        if (r + 1) * (r + 1) <= n {
            r + 1
        } else {
            r
        }
    }
}

/// `isqrt(n)` is the integer square root: its square is at most `n` and
/// the square of the next integer exceeds `n`.
pub proof fn lemma_isqrt(n: nat)
    ensures
        isqrt(n) * isqrt(n) <= n,
        n < (isqrt(n) + 1) * (isqrt(n) + 1),
    decreases n,
{
    if n > 0 {
        lemma_isqrt((n - 1) as nat);
        let r = isqrt((n - 1) as nat);
        let sq = (r + 1) * (r + 1);
        assert((r + 2) * (r + 2) == sq + 2 * r + 3) by (nonlinear_arith)
            requires
                sq == (r + 1) * (r + 1),
        ;
        let s = isqrt(n);
        if sq <= n {
            assert(s == r + 1);
            assert(s * s == sq);
            assert((s + 1) * (s + 1) == (r + 2) * (r + 2));
            assert(n < (s + 1) * (s + 1));
        } else {
            assert(s == r);
            assert(s * s <= n);
            assert(n < (s + 1) * (s + 1));
        }
    } else {
        let s = isqrt(n);
        assert(s == 0);
        assert(s * s == 0 && (s + 1) * (s + 1) == 1) by (nonlinear_arith)
            requires
                s == 0,
        ;
    }
}

/// The integer square root is the one `r` with `r * r <= n < (r + 1) * (r + 1)`.
pub proof fn lemma_isqrt_unique(n: nat, r: nat)
    requires
        r * r <= n,
        n < (r + 1) * (r + 1),
    ensures
        r == isqrt(n),
{
    lemma_isqrt(n);
    let s = isqrt(n);
    if r < s {
        assert((r + 1) * (r + 1) <= s * s) by (nonlinear_arith)
            requires
                r + 1 <= s,
        ;
    } else if s < r {
        assert((s + 1) * (s + 1) <= r * r) by (nonlinear_arith)
            requires
                s + 1 <= r,
        ;
    }
}

fn isqrt_exec(n: u128) -> (r: u128)
    requires
        n <= u64::MAX,
    ensures
        r == isqrt(n as nat),
{
    let mut lo: u128 = 0;
    let mut hi: u128 = 0x1_0000_0000;
    assert(n < hi * hi);
    while hi - lo > 1
        invariant
            lo < hi <= 0x1_0000_0000,
            lo * lo <= n,
            n < hi * hi,
        decreases hi - lo,
    {
        let mid = lo + (hi - lo) / 2;
        assert(mid * mid <= 0x1_0000_0000 * 0x1_0000_0000) by (nonlinear_arith)
            requires
                mid <= 0x1_0000_0000,
        ;
        if mid * mid <= n {
            lo = mid;
        } else {
            hi = mid;
        }
    }
    proof {
        assert(hi == lo + 1);
        lemma_isqrt_unique(n as nat, lo as nat);
    }
    lo
}

/// `floor((1 - num / den) * W_SCALE)`, taken as 0 when `num >= den`.
pub open spec fn error_share(num: nat, den: nat) -> nat {
    if num >= den {
        0
    } else {
        (((den - num) * W_SCALE) as nat / den) as nat
    }
}

/// `(1 - acc)^1.5 + 0.10` in units of `1 / W_SCALE`, rounded down:
/// with `c = (1 - acc) * W_SCALE`, `(1 - acc)^1.5 * W_SCALE = sqrt(c^3 / W_SCALE)`.
pub open spec fn base_weight(num: nat, den: nat) -> nat {
    let c = error_share(num, den);
    isqrt(c * c * c / (W_SCALE as nat)) + BASE_WEIGHT as nat
}

/// Rolling accuracy of at least 85 %.
pub open spec fn is_mastered(num: nat, den: nat) -> bool {
    20 * num >= 17 * den
}

/// Accuracy of domain `d`; a domain without statistics counts as one half.
pub open spec fn domain_acc(stats: Map<u8, DomainStat>, d: u8) -> (nat, nat) {
    if stats.contains_key(d) {
        stat_rolling(stats[d])
    } else {
        (1, 2)
    }
}

/// Tier of domain `d` as stored, 1 when none is stored.
pub open spec fn stored_tier(diff: Map<u8, u8>, d: u8) -> u8 {
    if diff.contains_key(d) {
        diff[d]
    } else {
        1
    }
}

/// Weight of domain `d`: weaker domains weigh more; a mastered domain at the
/// top tier gets almost no weight.
pub open spec fn domain_weight(stats: Map<u8, DomainStat>, diff: Map<u8, u8>, d: u8) -> nat {
    let acc = domain_acc(stats, d);
    if is_mastered(acc.0, acc.1) && stored_tier(diff, d) == TOP_TIER {
        MASTERED_WEIGHT as nat
    } else {
        base_weight(acc.0, acc.1)
    }
}

proof fn lemma_isqrt_monotone(a: nat, b: nat)
    requires
        a <= b,
    ensures
        isqrt(a) <= isqrt(b),
{
    lemma_isqrt(a);
    lemma_isqrt(b);
    let x = isqrt(a);
    let y = isqrt(b);
    if x > y {
        assert((y + 1) * (y + 1) <= x * x) by (nonlinear_arith)
            requires
                y + 1 <= x,
        ;
    }
}

proof fn lemma_error_share_monotone(n1: nat, d1: nat, n2: nat, d2: nat)
    requires
        d1 > 0,
        d2 > 0,
        n1 * d2 <= n2 * d1,
    ensures
        error_share(n2, d2) <= error_share(n1, d1),
{
    if n2 >= d2 {
    } else if n1 >= d1 {
        assert(n1 * d2 >= d1 * d2) by (nonlinear_arith)
            requires
                n1 >= d1,
        ;
        assert(n2 * d1 < d2 * d1) by (nonlinear_arith)
            requires
                n2 < d2,
                d1 > 0,
        ;
    } else {
        let s = W_SCALE as nat;
        let x1 = ((d1 - n1) * s) as nat;
        let x2 = ((d2 - n2) * s) as nat;
        let q2 = x2 / d2;
        assert(x2 * d1 <= x1 * d2) by (nonlinear_arith)
            requires
                x1 == (d1 - n1) * s,
                x2 == (d2 - n2) * s,
                n1 * d2 <= n2 * d1,
                s > 0,
        ;
        assert(q2 * d2 <= x2) by (nonlinear_arith)
            requires
                q2 == x2 / d2,
                d2 > 0,
        ;
        assert(q2 * d1 <= x1) by (nonlinear_arith)
            requires
                q2 * d2 <= x2,
                x2 * d1 <= x1 * d2,
                d1 > 0,
                d2 > 0,
        ;
        assert(q2 <= x1 / d1) by (nonlinear_arith)
            requires
                q2 * d1 <= x1,
                d1 > 0,
        ;
    }
}

proof fn lemma_base_weight_monotone(n1: nat, d1: nat, n2: nat, d2: nat)
    requires
        d1 > 0,
        d2 > 0,
        n1 * d2 <= n2 * d1,
    ensures
        base_weight(n2, d2) <= base_weight(n1, d1),
{
    lemma_error_share_monotone(n1, d1, n2, d2);
    let c1 = error_share(n1, d1);
    let c2 = error_share(n2, d2);
    assert(c2 * c2 * c2 <= c1 * c1 * c1) by (nonlinear_arith)
        requires
            c2 <= c1,
    ;
    vstd::arithmetic::div_mod::lemma_div_is_ordered(
        (c2 * c2 * c2) as int,
        (c1 * c1 * c1) as int,
        W_SCALE as int,
    );
    lemma_isqrt_monotone(c2 * c2 * c2 / (W_SCALE as nat), c1 * c1 * c1 / (W_SCALE as nat));
}

/// Weaker domains weigh more: a domain whose rolling accuracy is at most
/// another's never gets less weight, unless it is itself mastered at the
/// top tier.
pub proof fn lemma_weaker_domain_weighs_more(stats: Map<u8, DomainStat>, diff: Map<u8, u8>, weak: u8, strong: u8)
    requires
        domain_acc(stats, weak).0 * domain_acc(stats, strong).1 <= domain_acc(stats, strong).0
            * domain_acc(stats, weak).1,
        !(is_mastered(domain_acc(stats, weak).0, domain_acc(stats, weak).1) && stored_tier(diff, weak)
            == TOP_TIER),
    ensures
        domain_weight(stats, diff, strong) <= domain_weight(stats, diff, weak),
{
    let a1 = domain_acc(stats, weak);
    let a2 = domain_acc(stats, strong);
    assert(a1.1 > 0 && a2.1 > 0);
    lemma_base_weight_monotone(a1.0, a1.1, a2.0, a2.1);
}

fn base_weight_exec(acc: Accuracy) -> (w: u64)
    requires
        0 < acc.den <= u64::MAX,
    ensures
        w == base_weight(acc.num as nat, acc.den as nat),
        BASE_WEIGHT <= w <= BASE_WEIGHT + W_SCALE,
{
    let c: u128 = if acc.num >= acc.den {
        0
    } else {
        let d = acc.den - acc.num;
        proof {
            vstd::arithmetic::div_mod::lemma_div_is_ordered(
                (d * 1_000_000) as int,
                (acc.den * 1_000_000) as int,
                acc.den as int,
            );
            vstd::arithmetic::div_mod::lemma_div_multiples_vanish(1_000_000, acc.den as int);
            assert(acc.den * 1_000_000 == 1_000_000 * acc.den) by (nonlinear_arith);
        }
        d * 1_000_000 / acc.den
    };
    assert(c <= 1_000_000);
    assert(c * c <= 1_000_000_000_000) by (nonlinear_arith)
        requires
            c <= 1_000_000,
    ;
    assert(c * c * c <= 1_000_000_000_000_000_000) by (nonlinear_arith)
        requires
            c <= 1_000_000,
    ;
    let cube = c * c * c;
    let q = cube / 1_000_000;
    let r = isqrt_exec(q);
    proof {
        lemma_isqrt(q as nat);
        assert(r * r <= 1_000_000_000_000);
        if r > 1_000_000 {
            assert(r * r > 1_000_000 * 1_000_000) by (nonlinear_arith)
                requires
                    r > 1_000_000,
            ;
        }
    }
    (r + 100_000) as u64
}

fn domain_weight_exec(stats: &BTreeMap<u8, DomainStat>, diff: &BTreeMap<u8, u8>, d: u8) -> (w: u64)
    ensures
        w == domain_weight(stats@, diff@, d),
        MASTERED_WEIGHT <= w <= BASE_WEIGHT + W_SCALE,
{
    let acc = match stats.get(&d) {
        Some(s) => s.rolling_accuracy(),
        None => Accuracy { num: 1, den: 2 },
    };
    let tier = match diff.get(&d) {
        Some(t) => *t,
        None => 1,
    };
    if 20 * acc.num >= 17 * acc.den && tier == TOP_TIER {
        MASTERED_WEIGHT
    } else {
        base_weight_exec(acc)
    }
}


// ─── Distribution of a batch over the domains ──────────────────────────────

/// Per-domain statistics, keyed by domain number.
pub type Stats = BTreeMap<u8, DomainStat>;
/// Per-domain difficulty tier, keyed by domain number.
pub type Difficulty = BTreeMap<u8, u8>;

pub open spec fn sum_ints(s: Seq<int>) -> int
    decreases s.len(),
{
    if s.len() == 0 {
        0
    } else {
        sum_ints(s.drop_last()) + s.last()
    }
}

/// Weights of domains 1..=8, in domain order.
pub open spec fn weights_seq(stats: Map<u8, DomainStat>, diff: Map<u8, u8>) -> Seq<int> {
    Seq::new(8, |i: int| domain_weight(stats, diff, (i + 1) as u8) as int)
}

/// Unrounded share of `target` for each domain, in units of `1 / RAW_SCALE`:
/// `weight / total weight * target`, rounded down.
pub open spec fn raw_counts(stats: Map<u8, DomainStat>, diff: Map<u8, u8>, target: u32) -> Seq<int> {
    let w = weights_seq(stats, diff);
    let total = sum_ints(w);
    Seq::new(8, |i: int| w[i] * target * RAW_SCALE / total)
}

pub open spec fn clamp_count(x: int) -> int {
    if x < COUNT_FLOOR {
        COUNT_FLOOR as int
    } else if x > COUNT_CEIL {
        COUNT_CEIL as int
    } else {
        x
    }
}

/// Each share rounded to the nearest count (halves up) and clamped to
/// `[COUNT_FLOOR, COUNT_CEIL]`.
pub open spec fn initial_counts(raw: Seq<int>) -> Seq<int> {
    Seq::new(8, |i: int| clamp_count((raw[i] + RAW_SCALE / 2) / (RAW_SCALE as int)))
}

/// Whether domain slot `i` may still grow (`up`) or shrink.
pub open spec fn can_move(v: Seq<int>, i: int, up: bool) -> bool {
    if up {
        v[i] < COUNT_CEIL
    } else {
        v[i] > COUNT_FLOOR
    }
}

/// How far slot `i` lies below its drift key (`key_scale` units per
/// question).
pub open spec fn drift_score(raw: Seq<int>, v: Seq<int>, i: int) -> int {
    raw[i] - v[i] * key_scale()
}

/// Units of a drift key per question: a share counts 16 times, leaving room
/// below one share unit to order domains by accuracy.
pub open spec fn key_scale() -> int {
    RAW_SCALE * 16
}

/// Whether the accuracy of slot `i` is below that of slot `j` (as exact
/// fractions).
pub open spec fn weaker(accs: Seq<(nat, nat)>, i: int, j: int) -> bool {
    accs[i].0 * accs[j].1 < accs[j].0 * accs[i].1
}

/// How many of the first `k` slots are weaker than slot `i`.
pub open spec fn weaker_count(accs: Seq<(nat, nat)>, i: int, k: int) -> int
    decreases k,
{
    if k <= 0 {
        0
    } else {
        weaker_count(accs, i, k - 1) + if weaker(accs, k - 1, i) { 1int } else { 0int }
    }
}

/// Rolling accuracies of domains 1..=8, in domain order.
pub open spec fn domain_accs(stats: Map<u8, DomainStat>) -> Seq<(nat, nat)> {
    Seq::new(8, |i: int| domain_acc(stats, (i + 1) as u8))
}

/// The key the drift correction orders domains by: the unrounded share,
/// then, between equal shares, the weaker accuracy first.
pub open spec fn drift_keys(raw: Seq<int>, accs: Seq<(nat, nat)>) -> Seq<int> {
    Seq::new(8, |i: int| raw[i] * 16 + (8 - weaker_count(accs, i, 8)))
}

/// Among the first `k` slots that may move, the one furthest below its key
/// (growing) or above it (shrinking); the first such slot on a tie.
pub open spec fn best_candidate(raw: Seq<int>, v: Seq<int>, up: bool, k: nat) -> Option<int>
    decreases k,
{
    if k == 0 {
        None
    } else {
        let prev = best_candidate(raw, v, up, (k - 1) as nat);
        let i = k - 1;
        if !can_move(v, i, up) {
            prev
        } else {
            match prev {
                None => Some(i),
                Some(b) => {
                    let better = if up {
                        drift_score(raw, v, i) > drift_score(raw, v, b)
                    } else {
                        drift_score(raw, v, i) < drift_score(raw, v, b)
                    };
                    if better {
                        Some(i)
                    } else {
                        prev
                    }
                },
            }
        }
    }
}

/// Move the counts one question at a time toward `target`, for at most
/// `fuel` steps, stopping early when no slot can move.
pub open spec fn settle(raw: Seq<int>, v: Seq<int>, target: int, fuel: nat) -> Seq<int>
    decreases fuel,
{
    if fuel == 0 || sum_ints(v) == target {
        v
    } else {
        let up = sum_ints(v) < target;
        match best_candidate(raw, v, up, 8) {
            None => v,
            Some(i) => settle(
                raw,
                v.update(i, if up { v[i] + 1 } else { v[i] - 1 }),
                target,
                (fuel - 1) as nat,
            ),
        }
    }
}

/// Step budget of the drift correction.
pub open spec fn settle_fuel() -> nat {
    200
}

/// Questions per domain (slot `i` is domain `i + 1`) for a batch of `target`.
pub open spec fn planned_counts(stats: Map<u8, DomainStat>, diff: Map<u8, u8>, target: u32) -> Seq<int> {
    let raw = raw_counts(stats, diff, target);
    settle(drift_keys(raw, domain_accs(stats)), initial_counts(raw), target as int, settle_fuel())
}

/// The distribution as a map from domain number to count.
pub open spec fn distribution_map(stats: Map<u8, DomainStat>, diff: Map<u8, u8>, target: u32) -> Map<u8, u32> {
    Map::new(|k: u8| is_domain(k as int), |k: u8| planned_counts(stats, diff, target)[k - 1] as u32)
}

/// Counts of domains 1..=8 in a distribution map, in domain order.
pub open spec fn domain_counts(m: Map<u8, u32>) -> Seq<int> {
    Seq::new(8, |i: int| m[(i + 1) as u8] as int)
}

pub open spec fn as_ints32(v: Seq<u32>) -> Seq<int> {
    Seq::new(v.len(), |i: int| v[i] as int)
}

proof fn lemma_sum_take_push(s: Seq<int>, i: int)
    requires
        0 <= i < s.len(),
    ensures
        sum_ints(s.take(i + 1)) == sum_ints(s.take(i)) + s[i],
{
    assert(s.take(i + 1).drop_last() =~= s.take(i));
}

proof fn lemma_sum_update(s: Seq<int>, i: int, x: int)
    requires
        0 <= i < s.len(),
    ensures
        sum_ints(s.update(i, x)) == sum_ints(s) - s[i] + x,
    decreases s.len(),
{
    if i < s.len() - 1 {
        assert(s.update(i, x).drop_last() =~= s.drop_last().update(i, x));
        lemma_sum_update(s.drop_last(), i, x);
    } else {
        assert(s.update(i, x).drop_last() =~= s.drop_last());
    }
}

proof fn lemma_sum_bounds(s: Seq<int>, lo: int, hi: int)
    requires
        forall|j: int| 0 <= j < s.len() ==> lo <= #[trigger] s[j] <= hi,
    ensures
        lo * s.len() <= sum_ints(s) <= hi * s.len(),
    decreases s.len(),
{
    if s.len() > 0 {
        lemma_sum_bounds(s.drop_last(), lo, hi);
        assert(lo * s.len() == lo * (s.len() - 1) + lo) by (nonlinear_arith);
        assert(hi * s.len() == hi * (s.len() - 1) + hi) by (nonlinear_arith);
    }
}

proof fn lemma_best_candidate_movable(raw: Seq<int>, v: Seq<int>, up: bool, k: nat)
    ensures
        best_candidate(raw, v, up, k) matches Some(i) ==> 0 <= i < k && can_move(v, i, up),
    decreases k,
{
    if k > 0 {
        lemma_best_candidate_movable(raw, v, up, (k - 1) as nat);
    }
}

proof fn lemma_best_candidate_exists(raw: Seq<int>, v: Seq<int>, up: bool, k: nat, j: int)
    requires
        0 <= j < k,
        can_move(v, j, up),
    ensures
        best_candidate(raw, v, up, k) is Some,
    decreases k,
{
    if j < k - 1 {
        lemma_best_candidate_exists(raw, v, up, (k - 1) as nat, j);
    }
}

/// Counts between the floor and the ceiling, one per domain.
pub open spec fn counts_in_range(v: Seq<int>) -> bool {
    &&& v.len() == 8
    &&& forall|j: int| 0 <= j < 8 ==> COUNT_FLOOR <= #[trigger] v[j] <= COUNT_CEIL
}

/// The batch size that the drift correction reaches: `target`, kept within
/// what eight domains between floor and ceiling can hold.
pub open spec fn reachable_total(target: int) -> int {
    if target < 8 * COUNT_FLOOR {
        8 * COUNT_FLOOR
    } else if target > 8 * COUNT_CEIL {
        8 * COUNT_CEIL
    } else {
        target
    }
}

proof fn lemma_settle_range(raw: Seq<int>, v: Seq<int>, target: int, fuel: nat)
    requires
        counts_in_range(v),
    ensures
        counts_in_range(settle(raw, v, target, fuel)),
    decreases fuel,
{
    if fuel > 0 && sum_ints(v) != target {
        let up = sum_ints(v) < target;
        lemma_best_candidate_movable(raw, v, up, 8);
        if let Some(i) = best_candidate(raw, v, up, 8) {
            let w = v.update(i, if up { v[i] + 1 } else { v[i] - 1 });
            assert(counts_in_range(w));
            lemma_settle_range(raw, w, target, (fuel - 1) as nat);
        }
    }
}

proof fn lemma_settle_total(raw: Seq<int>, v: Seq<int>, target: int, fuel: nat)
    requires
        counts_in_range(v),
        fuel >= sum_ints(v) - reachable_total(target),
        fuel >= reachable_total(target) - sum_ints(v),
    ensures
        sum_ints(settle(raw, v, target, fuel)) == reachable_total(target),
    decreases fuel,
{
    lemma_sum_bounds(v, 2, 15);
    if fuel > 0 && sum_ints(v) != target {
        let up = sum_ints(v) < target;
        lemma_best_candidate_movable(raw, v, up, 8);
        match best_candidate(raw, v, up, 8) {
            Some(i) => {
                let w = v.update(i, if up { v[i] + 1 } else { v[i] - 1 });
                lemma_sum_update(v, i, w[i]);
                assert(counts_in_range(w));
                if up {
                    assert(w =~= v.update(i, v[i] + 1));
                    assert forall|j: int| 0 <= j < 8 implies #[trigger] w[j] <= 15 by {}
                    lemma_sum_bounds(w, 2, 15);
                } else {
                    lemma_sum_bounds(w, 2, 15);
                }
                lemma_settle_total(raw, w, target, (fuel - 1) as nat);
            },
            None => {
                if up {
                    assert forall|j: int| 0 <= j < 8 implies v[j] == 15 by {
                        if v[j] < 15 {
                            lemma_best_candidate_exists(raw, v, up, 8, j);
                        }
                    }
                    lemma_sum_bounds(v, 15, 15);
                } else {
                    assert forall|j: int| 0 <= j < 8 implies v[j] == 2 by {
                        if v[j] > 2 {
                            lemma_best_candidate_exists(raw, v, up, 8, j);
                        }
                    }
                    lemma_sum_bounds(v, 2, 2);
                }
            },
        }
    }
}

/// Every domain of a distribution lies between the floor and the ceiling,
/// and the counts add up to `target` whenever eight such counts can.
pub proof fn lemma_planned_counts(stats: Map<u8, DomainStat>, diff: Map<u8, u8>, target: u32)
    ensures
        counts_in_range(planned_counts(stats, diff, target)),
        sum_ints(planned_counts(stats, diff, target)) == reachable_total(target as int),
{
    let raw = raw_counts(stats, diff, target);
    let v = initial_counts(raw);
    assert(counts_in_range(v));
    lemma_sum_bounds(v, 2, 15);
    lemma_settle_range(drift_keys(raw, domain_accs(stats)), v, target as int, settle_fuel());
    lemma_settle_total(drift_keys(raw, domain_accs(stats)), v, target as int, settle_fuel());
}

/// The slot that moves next in the drift correction, if any may move.
proof fn lemma_best_candidate_extreme(raw: Seq<int>, v: Seq<int>, up: bool, k: nat, m: int)
    requires
        0 <= m < k,
        can_move(v, m, up),
    ensures
        best_candidate(raw, v, up, k) matches Some(c) && (if up {
            drift_score(raw, v, m) <= drift_score(raw, v, c)
        } else {
            drift_score(raw, v, c) <= drift_score(raw, v, m)
        }),
    decreases k,
{
    lemma_best_candidate_exists(raw, v, up, k, m);
    if m < k - 1 {
        lemma_best_candidate_extreme(raw, v, up, (k - 1) as nat, m);
    } else if k > 1 {
        lemma_best_candidate_movable(raw, v, up, (k - 1) as nat);
    }
}

/// A smaller unrounded share never comes with more questions.
pub open spec fn follows_shares(raw: Seq<int>, v: Seq<int>) -> bool {
    forall|i: int, j: int|
        0 <= i < 8 && 0 <= j < 8 && raw[i] < raw[j] ==> #[trigger] v[i] <= #[trigger] v[j]
}

proof fn lemma_weaker_count_bounds(accs: Seq<(nat, nat)>, i: int, k: int)
    requires
        0 <= k,
    ensures
        0 <= weaker_count(accs, i, k) <= k,
    decreases k,
{
    if k > 0 {
        lemma_weaker_count_bounds(accs, i, k - 1);
    }
}

proof fn lemma_weaker_transitive(accs: Seq<(nat, nat)>, x: int, y: int, z: int)
    requires
        accs[x].1 > 0,
        accs[y].1 > 0,
        weaker(accs, x, y),
        weaker(accs, y, z),
    ensures
        weaker(accs, x, z),
{
    let (x0, x1) = accs[x];
    let (y0, y1) = accs[y];
    let (z0, z1) = accs[z];
    assert(x0 * y1 * z1 <= y0 * x1 * z1) by (nonlinear_arith)
        requires
            x0 * y1 < y0 * x1,
    ;
    assert(y0 * z1 * x1 < z0 * y1 * x1) by (nonlinear_arith)
        requires
            y0 * z1 < z0 * y1,
            x1 > 0,
    ;
    assert(x0 * z1 * y1 < z0 * x1 * y1) by (nonlinear_arith)
        requires
            x0 * y1 * z1 <= y0 * x1 * z1,
            y0 * z1 * x1 < z0 * y1 * x1,
    ;
    assert(x0 * z1 < z0 * x1) by (nonlinear_arith)
        requires
            x0 * z1 * y1 < z0 * x1 * y1,
            y1 > 0,
    ;
}

/// A slot weaker than another has fewer slots weaker than it.
proof fn lemma_weaker_count_less(accs: Seq<(nat, nat)>, a: int, b: int, k: int)
    requires
        0 <= k <= accs.len(),
        0 <= a < accs.len(),
        forall|j: int| 0 <= j < accs.len() ==> (#[trigger] accs[j]).1 > 0,
        weaker(accs, a, b),
    ensures
        weaker_count(accs, b, k) >= weaker_count(accs, a, k) + if a < k { 1int } else { 0int },
    decreases k,
{
    if k > 0 {
        lemma_weaker_count_less(accs, a, b, k - 1);
        let j = k - 1;
        if weaker(accs, j, a) {
            lemma_weaker_transitive(accs, j, a, b);
        }
    }
}

proof fn lemma_initial_follows_keys(raw: Seq<int>, accs: Seq<(nat, nat)>)
    ensures
        follows_shares(drift_keys(raw, accs), initial_counts(raw)),
{
    let v = initial_counts(raw);
    let keys = drift_keys(raw, accs);
    assert forall|i: int, j: int| 0 <= i < 8 && 0 <= j < 8 && keys[i] < keys[j] implies #[trigger] v[i] <= #[trigger] v[j] by {
        lemma_weaker_count_bounds(accs, i, 8);
        lemma_weaker_count_bounds(accs, j, 8);
        assert(raw[i] <= raw[j]);
        let s = RAW_SCALE as int;
        vstd::arithmetic::div_mod::lemma_div_is_ordered(raw[i] + s / 2, raw[j] + s / 2, s);
    }
}

proof fn lemma_settle_follows_shares(raw: Seq<int>, v: Seq<int>, target: int, fuel: nat)
    requires
        v.len() == 8,
        follows_shares(raw, v),
    ensures
        follows_shares(raw, settle(raw, v, target, fuel)),
    decreases fuel,
{
    if fuel > 0 && sum_ints(v) != target {
        let up = sum_ints(v) < target;
        lemma_best_candidate_movable(raw, v, up, 8);
        if let Some(c) = best_candidate(raw, v, up, 8) {
            let w = v.update(c, if up { v[c] + 1 } else { v[c] - 1 });
            assert forall|i: int, j: int| 0 <= i < 8 && 0 <= j < 8 && raw[i] < raw[j] implies #[trigger] w[i] <= #[trigger] w[j] by {
                assert(v[i] <= v[j]);
                if up && c == i && i != j && v[i] == v[j] {
                    lemma_best_candidate_extreme(raw, v, up, 8, j);
                }
                if !up && c == j && i != j && v[i] == v[j] {
                    lemma_best_candidate_extreme(raw, v, up, 8, i);
                }
            }
            lemma_settle_follows_shares(raw, w, target, (fuel - 1) as nat);
        }
    }
}

/// Weaker domains get more questions: a domain whose unrounded share of
/// the batch is smaller than another's never gets more questions than it.
pub proof fn lemma_smaller_share_no_more_questions(stats: Map<u8, DomainStat>, diff: Map<u8, u8>, target: u32, i: int, j: int)
    requires
        0 <= i < 8,
        0 <= j < 8,
        raw_counts(stats, diff, target)[i] < raw_counts(stats, diff, target)[j],
    ensures
        planned_counts(stats, diff, target)[i] <= planned_counts(stats, diff, target)[j],
{
    let raw = raw_counts(stats, diff, target);
    let keys = drift_keys(raw, domain_accs(stats));
    lemma_initial_follows_keys(raw, domain_accs(stats));
    lemma_settle_follows_shares(keys, initial_counts(raw), target as int, settle_fuel());
    lemma_weaker_count_bounds(domain_accs(stats), i, 8);
    lemma_weaker_count_bounds(domain_accs(stats), j, 8);
    assert(keys[i] < keys[j]);
    let p = planned_counts(stats, diff, target);
    assert(p[i] <= p[j]);
}

/// Whether accuracy `a` is below accuracy `b`, as exact fractions.
pub open spec fn acc_below(a: (nat, nat), b: (nat, nat)) -> bool {
    a.0 * b.1 < b.0 * a.1
}

/// Weaker domains get at least as many questions: a domain whose rolling
/// accuracy is below another's never gets fewer questions than it, unless
/// it is itself mastered at the top tier.
pub proof fn lemma_weaker_domain_no_fewer_questions(stats: Map<u8, DomainStat>, diff: Map<u8, u8>, target: u32, weak: u8, strong: u8)
    requires
        is_domain(weak as int),
        is_domain(strong as int),
        acc_below(domain_acc(stats, weak), domain_acc(stats, strong)),
        !(is_mastered(domain_acc(stats, weak).0, domain_acc(stats, weak).1) && stored_tier(diff, weak)
            == TOP_TIER),
    ensures
        planned_counts(stats, diff, target)[strong - 1] <= planned_counts(stats, diff, target)[weak - 1],
{
    let accs = domain_accs(stats);
    let a = weak - 1;
    let b = strong - 1;
    assert(accs[a] == domain_acc(stats, weak));
    assert(accs[b] == domain_acc(stats, strong));
    assert forall|j: int| 0 <= j < accs.len() implies (#[trigger] accs[j]).1 > 0 by {
        assert(accs[j] == domain_acc(stats, (j + 1) as u8));
    }
    lemma_weaker_domain_weighs_more(stats, diff, weak, strong);
    let w = weights_seq(stats, diff);
    let total = sum_ints(w);
    assert forall|k: int| 0 <= k < 8 implies 0 < #[trigger] w[k] <= BASE_WEIGHT + W_SCALE by {
        lemma_domain_weight_bound(stats, diff, (k + 1) as u8);
    }
    lemma_sum_bounds(w, 1, (BASE_WEIGHT + W_SCALE) as int);
    assert(w[a] == domain_weight(stats, diff, weak));
    assert(w[b] == domain_weight(stats, diff, strong));
    let xa = w[a] * target * RAW_SCALE;
    let xb = w[b] * target * RAW_SCALE;
    assert(xb <= xa) by (nonlinear_arith)
        requires
            w[b] <= w[a],
            xa == w[a] * target * RAW_SCALE,
            xb == w[b] * target * RAW_SCALE,
            target >= 0,
    ;
    vstd::arithmetic::div_mod::lemma_div_is_ordered(xb, xa, total);
    let raw = raw_counts(stats, diff, target);
    assert(raw[b] <= raw[a]);
    lemma_weaker_count_less(accs, a, b, 8);
    let keys = drift_keys(raw, accs);
    assert(keys[b] < keys[a]);
    lemma_initial_follows_keys(raw, accs);
    lemma_settle_follows_shares(keys, initial_counts(raw), target as int, settle_fuel());
    let p = planned_counts(stats, diff, target);
    assert(p[b] <= p[a]);
}

proof fn lemma_domain_weight_bound(stats: Map<u8, DomainStat>, diff: Map<u8, u8>, d: u8)
    ensures
        0 < domain_weight(stats, diff, d) <= BASE_WEIGHT + W_SCALE,
{
    let acc = domain_acc(stats, d);
    let s = W_SCALE as nat;
    let c = error_share(acc.0, acc.1);
    assert(acc.1 > 0);
    if acc.0 < acc.1 {
        let x = ((acc.1 - acc.0) * s) as nat;
        assert(x <= acc.1 * s) by (nonlinear_arith)
            requires
                x == (acc.1 - acc.0) * s,
                acc.0 < acc.1,
        ;
        vstd::arithmetic::div_mod::lemma_div_is_ordered(x as int, (acc.1 * s) as int, acc.1 as int);
        vstd::arithmetic::div_mod::lemma_div_multiples_vanish(s as int, acc.1 as int);
        assert(acc.1 * s == s * acc.1) by (nonlinear_arith);
    }
    assert(c <= s);
    assert(c * c * c <= s * s * s) by (nonlinear_arith)
        requires
            c <= s,
    ;
    vstd::arithmetic::div_mod::lemma_div_is_ordered((c * c * c) as int, (s * s * s) as int, s as int);
    vstd::arithmetic::div_mod::lemma_div_multiples_vanish((s * s) as int, s as int);
    assert(s * s * s == s * (s * s)) by (nonlinear_arith);
    lemma_isqrt_monotone(c * c * c / s, s * s);
    assert(s * s < (s + 1) * (s + 1)) by (nonlinear_arith);
    lemma_isqrt_unique(s * s, s);
}

/// A domain with more weight than another gets at least as many questions
/// in a batch of 9 or more (the weights then differ by at least a whole
/// question's share).
pub proof fn lemma_heavier_domain_no_fewer_questions(stats: Map<u8, DomainStat>, diff: Map<u8, u8>, target: u32, heavy: u8, light: u8)
    requires
        is_domain(heavy as int),
        is_domain(light as int),
        target >= 9,
        domain_weight(stats, diff, light) < domain_weight(stats, diff, heavy),
    ensures
        planned_counts(stats, diff, target)[light - 1] <= planned_counts(stats, diff, target)[heavy - 1],
{
    let w = weights_seq(stats, diff);
    let total = sum_ints(w);
    let ts = target * RAW_SCALE;
    assert forall|k: int| 0 <= k < 8 implies 0 < #[trigger] w[k] <= BASE_WEIGHT + W_SCALE by {
        lemma_domain_weight_bound(stats, diff, (k + 1) as u8);
    }
    lemma_sum_bounds(w, 1, (BASE_WEIGHT + W_SCALE) as int);
    let a = w[light - 1] * target * RAW_SCALE;
    let b = w[heavy - 1] * target * RAW_SCALE;
    assert(w[light - 1] == domain_weight(stats, diff, light));
    assert(w[heavy - 1] == domain_weight(stats, diff, heavy));
    assert(b - a >= ts) by (nonlinear_arith)
        requires
            w[light - 1] + 1 <= w[heavy - 1],
            a == w[light - 1] * target * RAW_SCALE,
            b == w[heavy - 1] * target * RAW_SCALE,
            ts == target * RAW_SCALE,
            ts >= 0,
    ;
    assert(a + total <= b);
    vstd::arithmetic::div_mod::lemma_div_is_ordered(a + total, b, total);
    vstd::arithmetic::div_mod::lemma_fundamental_div_mod(a, total);
    vstd::arithmetic::div_mod::lemma_div_plus_one(a, total);
    let raw = raw_counts(stats, diff, target);
    assert(raw[light - 1] == a / total);
    assert(raw[heavy - 1] == b / total);
    lemma_smaller_share_no_more_questions(stats, diff, target, light - 1, heavy - 1);
}

proof fn lemma_compare_fractions(n1: int, d1: int, n2: int, d2: int)
    requires
        d1 > 0,
        d2 > 0,
        n1 >= 0,
        n2 >= 0,
    ensures
        (n1 * d2 < n2 * d1) == (n1 / d1 < n2 / d2 || (n1 / d1 == n2 / d2 && (n1 % d1) * d2 < (n2
            % d2) * d1)),
{
    let q1 = n1 / d1;
    let r1 = n1 % d1;
    let q2 = n2 / d2;
    let r2 = n2 % d2;
    vstd::arithmetic::div_mod::lemma_fundamental_div_mod(n1, d1);
    vstd::arithmetic::div_mod::lemma_fundamental_div_mod(n2, d2);
    vstd::arithmetic::div_mod::lemma_mod_bound(n1, d1);
    vstd::arithmetic::div_mod::lemma_mod_bound(n2, d2);
    assert(n1 * d2 - n2 * d1 == (q1 - q2) * d1 * d2 + (r1 * d2 - r2 * d1)) by (nonlinear_arith)
        requires
            n1 == d1 * q1 + r1,
            n2 == d2 * q2 + r2,
    ;
    assert(r1 * d2 < d1 * d2) by (nonlinear_arith)
        requires
            0 <= r1 < d1,
            d2 > 0,
    ;
    assert(r2 * d1 < d1 * d2) by (nonlinear_arith)
        requires
            0 <= r2 < d2,
            d1 > 0,
    ;
    assert(r1 * d2 >= 0 && r2 * d1 >= 0) by (nonlinear_arith)
        requires
            r1 >= 0,
            r2 >= 0,
            d1 > 0,
            d2 > 0,
    ;
    if q1 < q2 {
        assert((q1 - q2) * d1 * d2 <= -(d1 * d2)) by (nonlinear_arith)
            requires
                q1 - q2 <= -1,
                d1 * d2 > 0,
        ;
    } else if q1 > q2 {
        assert((q1 - q2) * d1 * d2 >= d1 * d2) by (nonlinear_arith)
            requires
                q1 - q2 >= 1,
                d1 * d2 > 0,
        ;
    } else {
        assert((q1 - q2) * d1 * d2 == 0) by (nonlinear_arith)
            requires
                q1 == q2,
        ;
    }
}

/// Whether accuracy `a` is below accuracy `b`, compared without overflow.
fn acc_below_exec(a: Accuracy, b: Accuracy) -> (r: bool)
    requires
        0 < a.den <= u64::MAX,
        0 < b.den <= u64::MAX,
    ensures
        r == acc_below((a.num as nat, a.den as nat), (b.num as nat, b.den as nat)),
{
    proof {
        lemma_compare_fractions(a.num as int, a.den as int, b.num as int, b.den as int);
    }
    let qa = a.num / a.den;
    let ra = a.num % a.den;
    let qb = b.num / b.den;
    let rb = b.num % b.den;
    if qa != qb {
        return qa < qb;
    }
    assert(ra * b.den <= 0xFFFF_FFFF_FFFF_FFFF * 0xFFFF_FFFF_FFFF_FFFF) by (nonlinear_arith)
        requires
            ra < a.den <= 0xFFFF_FFFF_FFFF_FFFF,
            b.den <= 0xFFFF_FFFF_FFFF_FFFF,
    ;
    assert(rb * a.den <= 0xFFFF_FFFF_FFFF_FFFF * 0xFFFF_FFFF_FFFF_FFFF) by (nonlinear_arith)
        requires
            rb < b.den <= 0xFFFF_FFFF_FFFF_FFFF,
            a.den <= 0xFFFF_FFFF_FFFF_FFFF,
    ;
    ra * b.den < rb * a.den
}

fn pick_candidate(raw: &Vec<u128>, v: &Vec<u32>, up: bool, Ghost(raw_s): Ghost<Seq<int>>) -> (best: Option<usize>)
    requires
        v@.len() == 8,
        raw@.len() == 8,
        forall|j: int| 0 <= j < 8 ==> raw@[j] as int == raw_s[j],
        forall|j: int| 0 <= j < 8 ==> raw@[j] <= 0x100_0000_0000_0000_0000_0000,
        forall|j: int| 0 <= j < 8 ==> #[trigger] v@[j] <= COUNT_CEIL,
    ensures
        match best {
            None => best_candidate(raw_s, as_ints32(v@), up, 8) is None,
            Some(b) => best_candidate(raw_s, as_ints32(v@), up, 8) == Some(b as int) && b < 8,
        },
{
    let ghost vs = as_ints32(v@);
    let mut best: Option<usize> = None;
    let mut best_score: i128 = 0;
    let mut k: usize = 0;
    while k < 8
        invariant
            k <= 8,
            v@.len() == 8,
            raw@.len() == 8,
            vs == as_ints32(v@),
            forall|j: int| 0 <= j < 8 ==> raw@[j] as int == raw_s[j],
            forall|j: int| 0 <= j < 8 ==> raw@[j] <= 0x100_0000_0000_0000_0000_0000,
            forall|j: int| 0 <= j < 8 ==> #[trigger] v@[j] <= COUNT_CEIL,
            match best {
                None => best_candidate(raw_s, vs, up, k as nat) is None,
                Some(b) => best_candidate(raw_s, vs, up, k as nat) == Some(b as int) && b < k
                    && best_score as int == drift_score(raw_s, vs, b as int),
            },
        decreases 8 - k,
    {
        let vk = v[k];
        let movable = if up {
            vk < COUNT_CEIL
        } else {
            vk > COUNT_FLOOR
        };
        if movable {
            let score: i128 = raw[k] as i128 - (vk as i128) * 16_000_000;
            let take = match best {
                None => true,
                Some(_) => if up {
                    score > best_score
                } else {
                    score < best_score
                },
            };
            if take {
                best = Some(k);
                best_score = score;
            }
        }
        k = k + 1;
    }
    best
}

/// Compute per-domain question counts for the next batch: weight each
/// domain, share `target` out by weight, round and clamp every share to
/// `[COUNT_FLOOR, COUNT_CEIL]`, then move single questions between domains
/// until the counts add up to `target` or no domain can move; among equal
/// shares the weaker domain gains first and the stronger one gives first.
/// A domain whose rolling accuracy is below another's never gets fewer
/// questions, unless it is mastered at the top tier.
pub fn compute_distribution(stats: &Stats, diff: &Difficulty, target: u32) -> (dist: BTreeMap<u8, u32>)
    ensures
        dist@ == distribution_map(stats@, diff@, target),
        forall|d: u8| is_domain(d as int) ==> COUNT_FLOOR <= #[trigger] dist@[d] <= COUNT_CEIL,
        sum_ints(domain_counts(dist@)) == reachable_total(target as int),
        forall|weak: u8, strong: u8|
            is_domain(weak as int) && is_domain(strong as int) && acc_below(
                domain_acc(stats@, weak),
                domain_acc(stats@, strong),
            ) && !(is_mastered(domain_acc(stats@, weak).0, domain_acc(stats@, weak).1)
                && stored_tier(diff@, weak) == TOP_TIER) ==> #[trigger] dist@[strong]
            <= #[trigger] dist@[weak],
{
    let ghost wspec = weights_seq(stats@, diff@);
    let mut weights: Vec<u64> = Vec::new();
    let mut total_w: u64 = 0;
    let mut d: u8 = 1;
    while d <= 8
        invariant
            1 <= d <= 9,
            weights@.len() == d - 1,
            wspec == weights_seq(stats@, diff@),
            forall|j: int| 0 <= j < d - 1 ==> weights@[j] as int == wspec[j],
            total_w as int == sum_ints(wspec.take(d - 1)),
            forall|j: int| 0 <= j < d - 1 ==> 1_000 <= #[trigger] weights@[j] <= 1_100_000,
            total_w >= 1_000 * (d - 1),
            total_w <= 1_100_000 * (d - 1),
        decreases 9 - d,
    {
        let w = domain_weight_exec(stats, diff, d);
        proof {
            lemma_sum_take_push(wspec, d - 1);
        }
        weights.push(w);
        assert(weights@[d - 1] as int == wspec[d - 1]);
        total_w = total_w + w;
        d = d + 1;
    }
    proof {
        assert(wspec.take(8) =~= wspec);
    }
    let ghost raw_s = raw_counts(stats@, diff@, target);
    let mut raw: Vec<u128> = Vec::new();
    let mut i: usize = 0;
    while i < 8
        invariant
            i <= 8,
            raw@.len() == i,
            weights@.len() == 8,
            forall|j: int| 0 <= j < 8 ==> weights@[j] as int == wspec[j],
            forall|j: int| 0 <= j < 8 ==> 1_000 <= #[trigger] weights@[j] <= 1_100_000,
            wspec == weights_seq(stats@, diff@),
            total_w as int == sum_ints(wspec),
            total_w >= 8000,
            total_w <= 8 * (BASE_WEIGHT + W_SCALE),
            raw_s == raw_counts(stats@, diff@, target),
            forall|j: int| 0 <= j < i ==> raw@[j] as int == raw_s[j],
            forall|j: int| 0 <= j < i ==> raw@[j] <= 0x1_0000_0000_0000_0000_0000,
        decreases 8 - i,
    {
        let w = weights[i] as u128;
        assert(w * (target as u128) <= 5_000_000_000_000_000) by (nonlinear_arith)
            requires
                w <= 1_100_000,
                target <= u32::MAX,
        ;
        let num = w * (target as u128) * 1_000_000;
        let r = num / (total_w as u128);
        assert(r <= num) by (nonlinear_arith)
            requires
                r == num / (total_w as u128),
                total_w >= 1,
        ;
        raw.push(r);
        assert(raw@[i as int] as int == raw_s[i as int]);
        i = i + 1;
    }
    let ghost accs_s = domain_accs(stats@);
    let mut accs: Vec<Accuracy> = Vec::new();
    let mut d: u8 = 1;
    while d <= 8
        invariant
            1 <= d <= 9,
            accs@.len() == d - 1,
            accs_s == domain_accs(stats@),
            forall|j: int|
                0 <= j < d - 1 ==> ((#[trigger] accs@[j]).num as nat, accs@[j].den as nat) == accs_s[j]
                    && 0 < accs@[j].den <= u64::MAX,
        decreases 9 - d,
    {
        let acc = match stats.get(&d) {
            Some(st) => st.rolling_accuracy(),
            None => Accuracy { num: 1, den: 2 },
        };
        assert((acc.num as nat, acc.den as nat) == accs_s[d - 1]);
        accs.push(acc);
        d = d + 1;
    }
    let ghost keys_s = drift_keys(raw_s, accs_s);
    let mut keys: Vec<u128> = Vec::new();
    let mut i: usize = 0;
    while i < 8
        invariant
            i <= 8,
            keys@.len() == i,
            raw@.len() == 8,
            accs@.len() == 8,
            forall|j: int| 0 <= j < 8 ==> raw@[j] as int == raw_s[j],
            forall|j: int| 0 <= j < 8 ==> raw@[j] <= 0x1_0000_0000_0000_0000_0000,
            forall|j: int|
                0 <= j < 8 ==> ((#[trigger] accs@[j]).num as nat, accs@[j].den as nat) == accs_s[j]
                    && 0 < accs@[j].den <= u64::MAX,
            keys_s == drift_keys(raw_s, accs_s),
            forall|j: int| 0 <= j < i ==> keys@[j] as int == keys_s[j],
            forall|j: int| 0 <= j < i ==> keys@[j] <= 0x100_0000_0000_0000_0000_0000,
        decreases 8 - i,
    {
        let mut c: u128 = 0;
        let mut j: usize = 0;
        while j < 8
            invariant
                i < 8,
                j <= 8,
                accs@.len() == 8,
                forall|m: int|
                    0 <= m < 8 ==> ((#[trigger] accs@[m]).num as nat, accs@[m].den as nat) == accs_s[m]
                        && 0 < accs@[m].den <= u64::MAX,
                c as int == weaker_count(accs_s, i as int, j as int),
                c <= j,
            decreases 8 - j,
        {
            if acc_below_exec(accs[j], accs[i]) {
                c = c + 1;
            }
            j = j + 1;
        }
        keys.push(raw[i] * 16 + (8 - c));
        i = i + 1;
    }
    let mut v: Vec<u32> = Vec::new();
    let mut i: usize = 0;
    while i < 8
        invariant
            i <= 8,
            v@.len() == i,
            raw@.len() == 8,
            forall|j: int| 0 <= j < 8 ==> raw@[j] as int == raw_s[j],
            forall|j: int| 0 <= j < 8 ==> raw@[j] <= 0x1_0000_0000_0000_0000_0000,
            forall|j: int| 0 <= j < i ==> v@[j] as int == initial_counts(raw_s)[j],
            forall|j: int| 0 <= j < i ==> COUNT_FLOOR <= #[trigger] v@[j] <= COUNT_CEIL,
        decreases 8 - i,
    {
        let rounded = (raw[i] + 500_000) / 1_000_000;
        let c: u32 = if rounded < 2 {
            2
        } else if rounded > 15 {
            15
        } else {
            rounded as u32
        };
        assert(c as int == initial_counts(raw_s)[i as int]);
        v.push(c);
        i = i + 1;
    }
    let mut total: u32 = 0;
    let mut i: usize = 0;
    while i < 8
        invariant
            i <= 8,
            v@.len() == 8,
            forall|j: int| 0 <= j < 8 ==> COUNT_FLOOR <= #[trigger] v@[j] <= COUNT_CEIL,
            total as int == sum_ints(as_ints32(v@).take(i as int)),
            total <= 15 * i,
        decreases 8 - i,
    {
        proof {
            lemma_sum_take_push(as_ints32(v@), i as int);
        }
        total = total + v[i];
        i = i + 1;
    }
    proof {
        assert(as_ints32(v@).take(8) =~= as_ints32(v@));
        assert(as_ints32(v@) =~= initial_counts(raw_s));
    }
    let ghost goal = settle(keys_s, as_ints32(v@), target as int, settle_fuel());
    let mut safety: u32 = 200;
    loop
        invariant_except_break
            v@.len() == 8,
            keys@.len() == 8,
            forall|j: int| 0 <= j < 8 ==> keys@[j] as int == keys_s[j],
            forall|j: int| 0 <= j < 8 ==> keys@[j] <= 0x100_0000_0000_0000_0000_0000,
            forall|j: int| 0 <= j < 8 ==> COUNT_FLOOR <= #[trigger] v@[j] <= COUNT_CEIL,
            total as int == sum_ints(as_ints32(v@)),
            total <= 120,
            safety <= 200,
            settle(keys_s, as_ints32(v@), target as int, safety as nat) == goal,
        ensures
            v@.len() == 8,
            as_ints32(v@) == goal,
        decreases safety,
    {
        if total == target || safety == 0 {
            break;
        }
        let up = total < target;
        let ghost vs = as_ints32(v@);
        let best = pick_candidate(&keys, &v, up, Ghost(keys_s));
        match best {
            Some(b) => {
                proof {
                    lemma_best_candidate_movable(keys_s, vs, up, 8);
                }
                let cur = v[b];
                let next = if up {
                    cur + 1
                } else {
                    cur - 1
                };
                proof {
                    lemma_sum_update(vs, b as int, next as int);
                    assert(as_ints32(v@.update(b as int, next)) =~= vs.update(b as int, next as int));
                }
                v.set(b, next);
                proof {
                    assert forall|j: int| 0 <= j < 8 implies COUNT_FLOOR <= #[trigger] as_ints32(
                        v@,
                    )[j] <= COUNT_CEIL by {}
                    lemma_sum_bounds(as_ints32(v@), 2, 15);
                }
                total = if up {
                    total + 1
                } else {
                    total - 1
                };
                safety = safety - 1;
            },
            None => {
                break ;
            },
        }
    }
    let mut dist: BTreeMap<u8, u32> = BTreeMap::new();
    proof {
        assert(dist@ =~= Map::new(|k: u8| 1 <= k < 1, |k: u8| goal[k - 1] as u32));
    }
    let mut d: u8 = 1;
    while d <= 8
        invariant
            1 <= d <= 9,
            v@.len() == 8,
            forall|j: int| 0 <= j < 8 ==> v@[j] as int == goal[j],
            dist@ == Map::new(|k: u8| 1 <= k < d, |k: u8| goal[k - 1] as u32),
        decreases 9 - d,
    {
        dist.insert(d, v[(d - 1) as usize]);
        proof {
            assert(dist@ =~= Map::new(|k: u8| 1 <= k < d + 1, |k: u8| goal[k - 1] as u32));
        }
        d = d + 1;
    }
    proof {
        assert(dist@ =~= distribution_map(stats@, diff@, target));
        lemma_planned_counts(stats@, diff@, target);
        let p = planned_counts(stats@, diff@, target);
        assert(domain_counts(dist@) =~= p);
        assert forall|weak: u8, strong: u8|
            is_domain(weak as int) && is_domain(strong as int) && acc_below(
                domain_acc(stats@, weak),
                domain_acc(stats@, strong),
            ) && !(is_mastered(domain_acc(stats@, weak).0, domain_acc(stats@, weak).1)
                && stored_tier(diff@, weak) == TOP_TIER) implies #[trigger] dist@[strong]
            <= #[trigger] dist@[weak] by {
            lemma_weaker_domain_no_fewer_questions(stats@, diff@, target, weak, strong);
        }
    }
    dist
}


// ─── Batch plan ─────────────────────────────────────────────────────────────

/// Questions one domain gets in a batch: `count` at its own tier, plus
/// optional stretch questions one tier higher.
#[derive(Debug, Clone)]
pub struct DomainPlan {
    pub domain: u8,
    pub tier: u8,
    pub count: u32,
    pub stretch: Option<StretchPlan>,
}

/// Stretch questions of a domain plan.
#[derive(Debug, Clone, Copy, PartialEq, Eq)]
pub struct StretchPlan {
    pub tier: u8,
    pub count: u32,
}

/// All questions of a domain plan.
pub open spec fn plan_total(p: DomainPlan) -> int {
    p.count + match p.stretch {
        Some(s) => s.count as int,
        None => 0,
    }
}

impl DomainPlan {
    /// All questions of this domain, stretch included.
    pub fn total(&self) -> (t: u32)
        requires
            plan_total(*self) <= u32::MAX,
        ensures
            t == plan_total(*self),
    {
        self.count + match &self.stretch {
            Some(s) => s.count,
            None => 0,
        }
    }
}

pub open spec fn clamp_tier(t: u8) -> u8 {
    if t < 1 {
        1
    } else if t > TOP_TIER {
        TOP_TIER
    } else {
        t
    }
}

/// Tier a domain is planned and judged at: the stored tier kept in 1..=4.
pub open spec fn current_tier(diff: Map<u8, u8>, d: u8) -> u8 {
    clamp_tier(stored_tier(diff, d))
}

/// `round(total * 0.2)`, at least one.
pub open spec fn stretch_share(total: int) -> int {
    let r = (2 * total + 5) / 10;
    if r < 1 {
        1
    } else {
        r
    }
}

/// Whether a domain with `total` questions at tier `tier` gets stretch questions.
pub open spec fn gets_stretch(total: int, tier: u8) -> bool {
    total >= 6 && tier < TOP_TIER
}

/// The plan of slot `i` (domain `i + 1`) for the given distribution.
pub open spec fn plan_matches(p: DomainPlan, diff: Map<u8, u8>, i: int, total: int) -> bool {
    let tier = current_tier(diff, (i + 1) as u8);
    &&& p.domain == i + 1
    &&& p.tier == tier
    &&& if gets_stretch(total, tier) {
        &&& p.stretch == Some(StretchPlan { tier: (tier + 1) as u8, count: stretch_share(total) as u32 })
        &&& p.count == total - stretch_share(total)
    } else {
        &&& p.stretch is None
        &&& p.count == total
    }
}

/// Totals of the plans, in order.
pub open spec fn plan_totals(plan: Seq<DomainPlan>) -> Seq<int> {
    Seq::new(plan.len(), |i: int| plan_total(plan[i]))
}

/// Build the per-domain plan for a batch: the distribution of
/// `compute_distribution`, with about a fifth of a domain's questions moved
/// one tier up when it has at least 6 questions and is below the top tier.
pub fn build_batch_plan(stats: &Stats, diff: &Difficulty, target: u32) -> (plan: Vec<DomainPlan>)
    ensures
        plan@.len() == 8,
        forall|i: int|
            0 <= i < 8 ==> plan_matches(
                #[trigger] plan@[i],
                diff@,
                i,
                planned_counts(stats@, diff@, target)[i],
            ),
        forall|i: int|
            0 <= i < 8 ==> plan_total(#[trigger] plan@[i]) == planned_counts(stats@, diff@, target)[i],
        sum_ints(plan_totals(plan@)) == reachable_total(target as int),
        forall|i: int|
            0 <= i < 8 && planned_counts(stats@, diff@, target)[i] >= 6 && (#[trigger] plan@[i]).tier
                < 4 ==> (plan@[i].stretch matches Some(st) && {
                &&& st.tier == plan@[i].tier + 1
                &&& 2 * planned_counts(stats@, diff@, target)[i] - 5 < 10 * st.count
                    <= 2 * planned_counts(stats@, diff@, target)[i] + 5
                &&& plan@[i].count + st.count == planned_counts(stats@, diff@, target)[i]
            }),
{
    let dist = compute_distribution(stats, diff, target);
    let ghost p = planned_counts(stats@, diff@, target);
    proof {
        lemma_planned_counts(stats@, diff@, target);
    }
    let mut out: Vec<DomainPlan> = Vec::new();
    let mut d: u8 = 1;
    while d <= 8
        invariant
            1 <= d <= 9,
            out@.len() == d - 1,
            dist@ == distribution_map(stats@, diff@, target),
            p == planned_counts(stats@, diff@, target),
            counts_in_range(p),
            forall|i: int| 0 <= i < d - 1 ==> plan_matches(#[trigger] out@[i], diff@, i, p[i]),
            forall|i: int| 0 <= i < d - 1 ==> plan_total(#[trigger] out@[i]) == p[i],
        decreases 9 - d,
    {
        let stored = match diff.get(&d) {
            Some(t) => *t,
            None => 1,
        };
        let tier = if stored < 1 {
            1
        } else if stored > TOP_TIER {
            TOP_TIER
        } else {
            stored
        };
        let total = match dist.get(&d) {
            Some(c) => *c,
            None => 0,
        };
        assert(total as int == p[d - 1]);
        let mut count = total;
        let mut stretch = None;
        if total >= 6 && tier < TOP_TIER {
            let r = (2 * total + 5) / 10;
            let sc = if r < 1 {
                1
            } else {
                r
            };
            stretch = Some(StretchPlan { tier: tier + 1, count: sc });
            count = total - sc;
        }
        let dp = DomainPlan { domain: d, tier, count, stretch };
        assert(plan_matches(dp, diff@, d - 1, p[d - 1]));
        out.push(dp);
        d = d + 1;
    }
    proof {
        assert(plan_totals(out@) =~= p);
        assert forall|i: int| 0 <= i < 8 && p[i] >= 6 && (#[trigger] out@[i]).tier < 4 implies (
        out@[i].stretch matches Some(st) && {
            &&& st.tier == out@[i].tier + 1
            &&& 2 * p[i] - 5 < 10 * st.count <= 2 * p[i] + 5
            &&& out@[i].count + st.count == p[i]
        }) by {
            lemma_stretch_questions(out@[i], diff@, i, p[i]);
        }
    }
    out
}

/// Stretch questions: a domain planned for at least six questions below the
/// top tier 4 (tiers 1, 2 and 3 alike) asks for `round(total / 5)` of them
/// one tier up and the rest at its own tier; any other domain asks for all
/// of its questions at its own tier, which lies in 1..=4.
pub proof fn lemma_stretch_questions(p: DomainPlan, diff: Map<u8, u8>, i: int, total: int)
    requires
        0 <= i < 8,
        0 <= total <= 15,
        plan_matches(p, diff, i, total),
    ensures
        1 <= p.tier <= 4,
        total >= 6 && p.tier < 4 ==> (p.stretch matches Some(st) && {
            &&& st.tier == p.tier + 1
            &&& 2 * total - 5 < 10 * st.count <= 2 * total + 5
            &&& st.count >= 1
            &&& p.count + st.count == total
        }),
        total < 6 || p.tier == 4 ==> p.stretch is None && p.count == total,
{
}

proof fn lemma_plan_prefix_sum(plan: Seq<DomainPlan>, i: int)
    requires
        0 <= i <= plan.len(),
    ensures
        0 <= sum_ints(plan_totals(plan.take(i))) <= sum_ints(plan_totals(plan)),
    decreases plan.len(),
{
    if plan.len() > 0 {
        let shorter = plan.drop_last();
        assert(plan_totals(plan).drop_last() =~= plan_totals(shorter));
        if i == plan.len() {
            assert(plan.take(i) =~= plan);
            lemma_plan_prefix_sum(shorter, shorter.len() as int);
            assert(shorter.take(shorter.len() as int) =~= shorter);
        } else {
            lemma_plan_prefix_sum(shorter, i);
            assert(shorter.take(i) =~= plan.take(i));
        }
    }
}

/// Number of questions a plan asks for, stretch questions included.
pub fn planned_questions(plan: &[DomainPlan]) -> (n: u32)
    requires
        sum_ints(plan_totals(plan@)) <= u32::MAX,
    ensures
        n == sum_ints(plan_totals(plan@)),
{
    let mut n: u32 = 0;
    let mut i: usize = 0;
    while i < plan.len()
        invariant
            i <= plan@.len(),
            sum_ints(plan_totals(plan@)) <= u32::MAX,
            n == sum_ints(plan_totals(plan@.take(i as int))),
        decreases plan@.len() - i,
    {
        proof {
            assert(plan_totals(plan@.take(i + 1)).drop_last() =~= plan_totals(plan@.take(i as int)));
            assert(plan@.take(i + 1).last() == plan@[i as int]);
            lemma_plan_prefix_sum(plan@, i + 1);
        }
        n = n + plan[i].total();
        i = i + 1;
    }
    proof {
        assert(plan@.take(i as int) =~= plan@);
    }
    n
}

// ─── Difficulty progression ────────────────────────────────────────────────

/// A domain's tier before and after a progression step.
#[derive(Debug, Clone, Copy, PartialEq, Eq)]
pub struct TierChange {
    pub from: u8,
    pub to: u8,
}

/// Length of the recent window of domain `d`.
pub open spec fn recent_len(stats: Map<u8, DomainStat>, d: u8) -> nat {
    if stats.contains_key(d) {
        stats[d].recent_correct@.len()
    } else {
        0
    }
}

/// Whether domain `d` has the five recent answers a tier move needs.
pub open spec fn calibrated(stats: Map<u8, DomainStat>, d: u8) -> bool {
    recent_len(stats, d) >= 5
}

/// The tier after a progression step: one up at 80 % rolling accuracy or
/// more, one down at 40 % or less, held otherwise, never outside 1..=4.
pub open spec fn next_tier(stats: Map<u8, DomainStat>, diff: Map<u8, u8>, d: u8) -> u8 {
    let cur = current_tier(diff, d);
    let acc = domain_acc(stats, d);
    if !calibrated(stats, d) {
        cur
    } else if 100 * acc.0 >= PROMOTE_THRESHOLD_PCT * acc.1 && cur < TOP_TIER {
        (cur + 1) as u8
    } else if 100 * acc.0 <= DEMOTE_THRESHOLD_PCT * acc.1 && cur > 1 {
        (cur - 1) as u8
    } else {
        cur
    }
}

/// The stored tiers after a progression step.
pub open spec fn progressed_difficulty(stats: Map<u8, DomainStat>, diff: Map<u8, u8>) -> Map<u8, u8> {
    diff.union_prefer_right(
        Map::new(
            |k: u8| is_domain(k as int) && calibrated(stats, k),
            |k: u8| next_tier(stats, diff, k),
        ),
    )
}

/// The reported tier changes of a progression step.
pub open spec fn tier_changes(stats: Map<u8, DomainStat>, diff: Map<u8, u8>) -> Map<u8, TierChange> {
    Map::new(
        |k: u8| is_domain(k as int),
        |k: u8| TierChange { from: current_tier(diff, k), to: next_tier(stats, diff, k) },
    )
}

/// Move each calibrated domain's tier by rolling accuracy; returns the change
/// of every domain and updates `diff` for the calibrated ones.
pub fn apply_difficulty_progression(stats: &Stats, diff: &mut Difficulty) -> (changes: BTreeMap<u8, TierChange>)
    ensures
        changes@ == tier_changes(stats@, old(diff)@),
        final(diff)@ == progressed_difficulty(stats@, old(diff)@),
        forall|d: u8|
            is_domain(d as int) ==> {
                let c = #[trigger] changes@[d];
                &&& 1 <= c.from <= TOP_TIER
                &&& 1 <= c.to <= TOP_TIER
                &&& c.from - 1 <= c.to <= c.from + 1
                &&& !calibrated(stats@, d) ==> c.to == c.from
            },
        forall|d: u8|
            is_domain(d as int) && recent_len(stats@, d) >= 5 && 100 * domain_acc(stats@, d).0 >= 80
                * domain_acc(stats@, d).1 && (#[trigger] changes@[d]).from < 4 ==> changes@[d].to
                == changes@[d].from + 1 && final(diff)@[d] == changes@[d].to,
        forall|d: u8|
            is_domain(d as int) && recent_len(stats@, d) >= 5 && 100 * domain_acc(stats@, d).0 <= 40
                * domain_acc(stats@, d).1 && (#[trigger] changes@[d]).from > 1 ==> changes@[d].to
                == changes@[d].from - 1 && final(diff)@[d] == changes@[d].to,
{
    let ghost old_diff = diff@;
    let mut out: BTreeMap<u8, TierChange> = BTreeMap::new();
    proof {
        assert(out@ =~= Map::new(
            |k: u8| 1 <= k < 1,
            |k: u8| TierChange { from: current_tier(old_diff, k), to: next_tier(stats@, old_diff, k) },
        ));
        assert(diff@ =~= old_diff.union_prefer_right(
            Map::new(
                |k: u8| 1 <= k < 1 && calibrated(stats@, k),
                |k: u8| next_tier(stats@, old_diff, k),
            ),
        ));
    }
    let mut d: u8 = 1;
    while d <= 8
        invariant
            1 <= d <= 9,
            out@ == Map::new(
                |k: u8| 1 <= k < d,
                |k: u8| TierChange { from: current_tier(old_diff, k), to: next_tier(stats@, old_diff, k) },
            ),
            diff@ == old_diff.union_prefer_right(
                Map::new(
                    |k: u8| 1 <= k < d && calibrated(stats@, k),
                    |k: u8| next_tier(stats@, old_diff, k),
                ),
            ),
        decreases 9 - d,
    {
        let stored = match diff.get(&d) {
            Some(t) => *t,
            None => 1,
        };
        assert(stored == stored_tier(old_diff, d));
        let cur = if stored < 1 {
            1
        } else if stored > TOP_TIER {
            TOP_TIER
        } else {
            stored
        };
        let (n, acc) = match stats.get(&d) {
            Some(s) => (s.recent_correct.len(), s.rolling_accuracy()),
            None => (0, Accuracy { num: 1, den: 2 }),
        };
        if n < 5 {
            out.insert(d, TierChange { from: cur, to: cur });
        } else {
            let mut next = cur;
            if 100 * acc.num >= 80 * acc.den && cur < TOP_TIER {
                next = cur + 1;
            } else if 100 * acc.num <= 40 * acc.den && cur > 1 {
                next = cur - 1;
            }
            diff.insert(d, next);
            out.insert(d, TierChange { from: cur, to: next });
        }
        proof {
            assert(out@ =~= Map::new(
                |k: u8| 1 <= k < d + 1,
                |k: u8| TierChange { from: current_tier(old_diff, k), to: next_tier(stats@, old_diff, k) },
            ));
            assert(diff@ =~= old_diff.union_prefer_right(
                Map::new(
                    |k: u8| 1 <= k < d + 1 && calibrated(stats@, k),
                    |k: u8| next_tier(stats@, old_diff, k),
                ),
            ));
        }
        d = d + 1;
    }
    proof {
        assert(out@ =~= tier_changes(stats@, old_diff));
        assert(diff@ =~= progressed_difficulty(stats@, old_diff));
        assert forall|d: u8| is_domain(d as int) implies #[trigger] out@.contains_key(d) by {
            lemma_progression_step(stats@, old_diff, d);
        }
        assert forall|d: u8|
            is_domain(d as int) && recent_len(stats@, d) >= 5 && 100 * domain_acc(stats@, d).0
                >= 80 * domain_acc(stats@, d).1 && (#[trigger] out@[d]).from < 4 implies out@[d].to
                == out@[d].from + 1 && diff@[d] == out@[d].to by {
            lemma_progression_step(stats@, old_diff, d);
        }
        assert forall|d: u8|
            is_domain(d as int) && recent_len(stats@, d) >= 5 && 100 * domain_acc(stats@, d).0
                <= 40 * domain_acc(stats@, d).1 && (#[trigger] out@[d]).from > 1 implies out@[d].to
                == out@[d].from - 1 && diff@[d] == out@[d].to by {
            lemma_progression_step(stats@, old_diff, d);
        }
    }
    out
}

/// A progression step moves a calibrated domain (five or more recent
/// answers) one tier up at 80 % rolling accuracy or more unless it is at
/// the top tier 4, one tier down at 40 % or less unless it is at tier 1,
/// and leaves it otherwise; an uncalibrated domain keeps its tier. The
/// stored tier of a calibrated domain becomes the new tier; an
/// uncalibrated domain's stored tier is left alone.
pub proof fn lemma_progression_step(stats: Map<u8, DomainStat>, diff: Map<u8, u8>, d: u8)
    requires
        is_domain(d as int),
    ensures
        ({
            let c = tier_changes(stats, diff)[d];
            let acc = domain_acc(stats, d);
            let moved = progressed_difficulty(stats, diff);
            &&& tier_changes(stats, diff).contains_key(d)
            &&& 1 <= c.from <= 4
            &&& c.from == current_tier(diff, d)
            &&& recent_len(stats, d) >= 5 && 100 * acc.0 >= 80 * acc.1 && c.from < 4 ==> c.to
                == c.from + 1
            &&& recent_len(stats, d) >= 5 && 100 * acc.0 >= 80 * acc.1 && c.from == 4 ==> c.to
                == 4
            &&& recent_len(stats, d) >= 5 && 100 * acc.0 <= 40 * acc.1 && c.from > 1 ==> c.to
                == c.from - 1
            &&& recent_len(stats, d) >= 5 && 100 * acc.0 <= 40 * acc.1 && c.from == 1 ==> c.to
                == 1
            &&& recent_len(stats, d) >= 5 && 40 * acc.1 < 100 * acc.0 < 80 * acc.1 ==> c.to
                == c.from
            &&& recent_len(stats, d) < 5 ==> c.to == c.from
            &&& recent_len(stats, d) >= 5 ==> moved.contains_key(d) && moved[d] == c.to
            &&& recent_len(stats, d) < 5 ==> moved.contains_key(d) == diff.contains_key(d) && (
            diff.contains_key(d) ==> moved[d] == diff[d])
        }),
{
    let acc = domain_acc(stats, d);
    if stats.contains_key(d) {
        let st = stats[d];
        assert(acc.1 > 0);
    }
}

// ─── Recording an answer ───────────────────────────────────────────────────

/// The last `ROLLING_WINDOW` outcomes of `s`.
pub open spec fn last_window(s: Seq<u8>) -> Seq<u8> {
    if s.len() > ROLLING_WINDOW {
        s.skip(s.len() - ROLLING_WINDOW)
    } else {
        s
    }
}

impl DomainStat {
    /// Count one more answer: totals grow, the outcome joins the recent
    /// window, and the window keeps only its last `ROLLING_WINDOW` entries.
    pub fn record_answer(&mut self, is_correct: bool)
        requires
            old(self).attempted < u32::MAX,
            is_correct ==> old(self).correct < u32::MAX,
        ensures
            final(self).attempted == old(self).attempted + 1,
            final(self).correct == old(self).correct + if is_correct { 1int } else { 0int },
            final(self).recent_correct@ == last_window(
                old(self).recent_correct@.push(if is_correct { 1u8 } else { 0u8 }),
            ),
            final(self).recent_correct@.len() <= ROLLING_WINDOW,
            final(self).recent_correct@.last() == if is_correct { 1u8 } else { 0u8 },
    {
        let outcome: u8 = if is_correct { 1 } else { 0 };
        self.attempted = self.attempted + 1;
        self.correct = self.correct + if is_correct { 1 } else { 0 };
        let ghost full = self.recent_correct@.push(outcome);
        let ghost att = self.attempted;
        let ghost cor = self.correct;
        self.recent_correct.push(outcome);
        let ghost mut dropped: int = 0;
        while self.recent_correct.len() > ROLLING_WINDOW
            invariant
                0 <= dropped < full.len(),
                self.attempted == att,
                self.correct == cor,
                self.recent_correct@ == full.skip(dropped),
                dropped <= full.len() - self.recent_correct@.len(),
                full.len() > ROLLING_WINDOW ==> dropped <= full.len() - ROLLING_WINDOW,
                full.len() <= ROLLING_WINDOW ==> dropped == 0,
            decreases self.recent_correct@.len(),
        {
            self.recent_correct.remove(0);
            proof {
                dropped = dropped + 1;
                assert(self.recent_correct@ =~= full.skip(dropped));
            }
        }
        proof {
            assert(self.recent_correct@ =~= last_window(full));
            let w = self.recent_correct@;
            assert(w.len() > 0);
            assert(w[w.len() - 1] == full[full.len() - 1]);
        }
    }
}

} // verus!
