use bid_review::risk_taxonomy::{is_actionable, normalize_finding, FindingEvidence};
use bid_review::types::RiskSeverity;

fn finding(code: &str, quote: &str) -> FindingEvidence {
    FindingEvidence {
        no_risk: false,
        severity: RiskSeverity::High,
        is_critical: true,
        critical_reason: "model decision".into(),
        risk_type: code.into(),
        category_code: code.into(),
        source_quote: quote.into(),
    }
}

#[test]
fn alias_and_evidence_are_canonicalized() {
    let mut f = finding(
        "UNRELATED_CERTIFICATE",
        "供应商必须提供诚信示范企业荣誉证书，否则资格审查不通过。",
    );
    normalize_finding(&mut f);
    assert_eq!(f.category_code, "UNRELATED_CERT");
    assert_eq!(f.risk_type, "设置与履约无关的资格条件");
    assert!(f.is_critical);
}

#[test]
fn ordinary_high_is_not_critical() {
    let mut f = finding("EXCESSIVE_DEPOSIT", "供应商须缴纳相当于采购预算5%的投标保证金。");
    normalize_finding(&mut f);
    assert!(!f.is_critical);
    assert!(f.critical_reason.is_empty());
}

#[test]
fn empty_evidence_is_not_actionable() {
    let f = finding("OTHER", "");
    assert!(!is_actionable(&f));
}

#[test]
fn heading_only_is_not_actionable_evidence() {
    let f = finding("OEM_AUTHORIZATION", "将厂家授权作为资格条件");
    assert!(!is_actionable(&f));
}

#[test]
fn date_and_time_aliases_use_canonical_codes() {
    let mut date = finding(
        "DATE_CONFLICT",
        "投标截止时间为[日期]9时，同时规定[日期]17时后提交的文件一律拒收。",
    );
    normalize_finding(&mut date);
    assert_eq!(date.category_code, "CONFLICTING_DATES");

    let mut deadline = finding(
        "TIME_LIMIT",
        "供应商须在获取本条款后10日内递交投标文件，该期限不作顺延。",
    );
    normalize_finding(&mut deadline);
    assert_eq!(deadline.category_code, "SHORT_DEADLINE");
}

#[test]
fn critical_finding_gets_high_severity_and_reason() {
    let mut f = finding(
        "UNRELATED_CERTIFICATE",
        "供应商必须提供诚信示范企业荣誉证书，否则资格审查不通过。",
    );
    f.severity = RiskSeverity::Low;
    normalize_finding(&mut f);
    assert!(f.is_critical);
    assert_eq!(f.severity, RiskSeverity::High);
    assert_eq!(f.critical_reason, "命中重大问题分类 UNRELATED_CERT，且原文证据满足红线判定条件。");
}

#[test]
fn no_risk_findings_are_actionable_and_never_critical() {
    let mut f = finding("UNRELATED_CERTIFICATE", "");
    f.no_risk = true;
    assert!(is_actionable(&f));
    normalize_finding(&mut f);
    assert!(!f.is_critical);
}

#[test]
fn obligation_wording_makes_short_quotes_actionable() {
    let f = finding("OEM_AUTHORIZATION", "投标人必须提供原厂授权");
    assert!(is_actionable(&f));
    let mut info = finding("OTHER", "招标文件未提及付款方式，需要进一步确认具体安排以及条款。");
    info.severity = RiskSeverity::Info;
    assert!(!is_actionable(&info));
}
