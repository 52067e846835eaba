use bid_review::legal_verify::{
    format_single_legal_verify_task, legal_verify_clause, needs_legal_verify, verified_risk_id, LegalVerifyInput,
};
use bid_review::types::RiskTier;

fn input(quote: &str) -> LegalVerifyInput {
    LegalVerifyInput {
        risk_id: "R_007".into(),
        risk_type: "地域限制".into(),
        agent: "SemanticRiskAgent".into(),
        no_risk: false,
        source_quote: quote.into(),
        legal_basis: vec!["《政府采购法》第22条".into(), "《实施条例》第20条".into()],
        reason: "限定本地机构".into(),
    }
}

#[test]
fn legal_verify_tasks_carry_the_finding() {
    let f = input("投标人须在东莞设有常驻服务机构");
    let task = format_single_legal_verify_task(&f);
    assert!(task.starts_with("## 法条验证任务\n\n"));
    assert!(task.contains("risk_id=R_007 | risk_type=地域限制 | agent=SemanticRiskAgent\n"));
    assert!(task.contains("条款文本: 投标人须在东莞设有常驻服务机构\n"));
    assert!(task.contains("法条引用: 《政府采购法》第22条; 《实施条例》第20条\n"));
    assert!(task.contains("推理: 限定本地机构\n\n"));
    assert!(task.ends_with("禁止输出纯文本法条名。"));

    let long = input(&"长".repeat(600));
    let task = format_single_legal_verify_task(&long);
    assert!(task.contains(&format!("条款文本: {}\n", "长".repeat(500))));
    assert!(!task.contains(&"长".repeat(501)));
}

#[test]
fn legal_verify_clauses_round_trip_the_finding_id() {
    let f = input("q");
    let c = legal_verify_clause(&f);
    assert_eq!(c.chunk_id, "legal_verify_R_007");
    assert_eq!(c.section_path, vec!["法条验证", "R_007"]);
    assert_eq!(c.tier, RiskTier::Medium);
    assert_eq!(c.tier_max_turns, 6);
    assert_eq!(verified_risk_id(&c.chunk_id), "R_007");
    assert_eq!(verified_risk_id("ch_001"), "");
    assert!(needs_legal_verify(&f));
    let mut none = input("q");
    none.legal_basis.clear();
    assert!(!needs_legal_verify(&none));
    let mut safe = input("q");
    safe.no_risk = true;
    assert!(!needs_legal_verify(&safe));
}
