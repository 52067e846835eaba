use bid_review::coordination::severity_str;
use bid_review::read_section::Chunk;
use bid_review::types::{AgentId, CoordinatorConfig, ReviewClause, RiskSeverity, RiskTier};
use std::collections::HashSet;

#[test]
fn test_risk_tier_l3_keywords() {
    let l3_cases = [
        "本项目指定采用华为品牌设备",
        "投标人须在东莞地区设有常驻服务机构",
        "须取得原厂商针对本项目的唯一授权函",
        "★ 核心产品不接受替代方案",
        "本项目指定品牌为某厂商",
        "须提供制造商授权函原件",
        "不接受替代方案的专利技术",
        "本市注册企业优先",
    ];
    for case in &l3_cases {
        assert_eq!(RiskTier::from_clause_text(case), RiskTier::High, "应返回 L3 但未返回: {}", case);
    }
}

#[test]
fn test_risk_tier_l1_keywords() {
    let l1_cases = [
        "投标文件封面格式要求见附件一",
        "响应文件须密封并在封口处加盖公章",
        "竞争性磋商文件 采购项目编号: ZC2024-001",
        "投标邀请函 致各潜在供应商",
        "文件份数要求：正本一份副本三份",
        "字体字号：正文采用小四号宋体",
    ];
    for case in &l1_cases {
        assert_eq!(RiskTier::from_clause_text(case), RiskTier::Low, "应返回 L1 但未返回: {}", case);
    }
}

#[test]
fn test_risk_tier_l2_default() {
    let l2_cases = [
        "供应商须具备依法缴纳税收和社会保障资金的良好记录",
        "项目工期为合同签订后60个日历日内完成",
        "验收标准按照国家和行业相关规范执行",
    ];
    for case in &l2_cases {
        assert_eq!(RiskTier::from_clause_text(case), RiskTier::Medium, "应返回 L2 (默认) 但未返回: {}", case);
    }
}

#[test]
fn test_risk_tier_l3_priority_over_l1() {
    assert_eq!(
        RiskTier::from_clause_text("本项目指定品牌为华为，封面格式见附件"),
        RiskTier::High,
        "L3 应优先于 L1"
    );
}

#[test]
fn test_risk_tier_max_turns() {
    assert_eq!(RiskTier::Low.max_turns(), 8);
    assert_eq!(RiskTier::Medium.max_turns(), 12);
    assert_eq!(RiskTier::High.max_turns(), 14);
}

#[test]
fn test_risk_tier_display() {
    assert_eq!(RiskTier::Low.to_string(), "L1");
    assert_eq!(RiskTier::Medium.to_string(), "L2");
    assert_eq!(RiskTier::High.to_string(), "L3");
}

#[test]
fn test_risk_tier_default_is_medium() {
    assert_eq!(RiskTier::default(), RiskTier::Medium);
}

#[test]
fn test_agent_id_display_all_variants() {
    assert_eq!(AgentId::FactCheck.to_string(), "FactCheckAgent");
    assert_eq!(AgentId::Procedure.to_string(), "ProcedureAgent");
    assert_eq!(AgentId::RuleEngine.to_string(), "RuleEngineAgent");
    assert_eq!(AgentId::SemanticRisk.to_string(), "SemanticRiskAgent");
    assert_eq!(AgentId::Scoring.to_string(), "ScoringAgent");
    assert_eq!(AgentId::Demand.to_string(), "DemandAgent");
    assert_eq!(AgentId::Contract.to_string(), "ContractAgent");
    assert_eq!(AgentId::BlindSpot.to_string(), "BlindSpotAgent");
    assert_eq!(AgentId::LegalVerify.to_string(), "LegalVerifyAgent");
    assert_eq!(AgentId::Debate.to_string(), "DebateAgent");
}

#[test]
fn test_agent_id_dynamic_display_uses_name_only() {
    let id = AgentId::Dynamic("BrandComboDetector".into());
    assert_eq!(id.to_string(), "BrandComboDetector");
}

#[test]
fn test_agent_id_from_str_all_builtin() {
    assert_eq!(AgentId::from_str("factcheck"), Some(AgentId::FactCheck));
    assert_eq!(AgentId::from_str("FactCheckAgent"), Some(AgentId::FactCheck));
    assert_eq!(AgentId::from_str("fact_check"), Some(AgentId::FactCheck));
    assert_eq!(AgentId::from_str("blindspot"), Some(AgentId::BlindSpot));
    assert_eq!(AgentId::from_str("blind_spot"), Some(AgentId::BlindSpot));
    assert_eq!(AgentId::from_str("legalverify"), Some(AgentId::LegalVerify));
    assert_eq!(AgentId::from_str("debate"), Some(AgentId::Debate));
}

#[test]
fn test_agent_id_from_str_dynamic_prefix() {
    assert_eq!(
        AgentId::from_str("dynamic_BrandDetector"),
        Some(AgentId::Dynamic("dynamic_BrandDetector".into()))
    );
}

#[test]
fn test_agent_id_from_str_unknown_returns_none() {
    assert_eq!(AgentId::from_str("nonexistent"), None);
    assert_eq!(AgentId::from_str(""), None);
}

#[test]
fn test_agent_id_hash_eq() {
    let mut set = HashSet::new();
    set.insert(AgentId::FactCheck);
    set.insert(AgentId::FactCheck);
    assert_eq!(set.len(), 1);

    let a = AgentId::Dynamic("Test".into());
    let b = AgentId::Dynamic("Test".into());
    assert_eq!(a, b);
    set.insert(a);
    set.insert(b);
    assert_eq!(set.len(), 2);
}

#[test]
fn test_agent_id_all_reviewers_count() {
    let reviewers = AgentId::all_reviewers();
    assert_eq!(reviewers.len(), 7);
    assert!(!reviewers.contains(&AgentId::BlindSpot));
    assert!(!reviewers.contains(&AgentId::LegalVerify));
    assert!(!reviewers.contains(&AgentId::Debate));
}

#[test]
fn test_risk_severity_ordering() {
    assert!(RiskSeverity::High > RiskSeverity::Medium);
    assert!(RiskSeverity::Medium > RiskSeverity::Low);
    assert!(RiskSeverity::Low > RiskSeverity::Info);
}

#[test]
fn test_effective_max_turns_caps_at_agent_default() {
    let clause = ReviewClause {
        chunk_id: "ch_test".into(),
        section_path: vec![],
        text: "测试文本".into(),
        page_start: 0,
        page_end: 0,
        tier: RiskTier::High,
        tier_max_turns: 14,
    };
    assert_eq!(clause.effective_max_turns(4), 4);
    assert_eq!(clause.effective_max_turns(20), 14);
}

#[test]
fn test_coordinator_config_defaults() {
    let config = CoordinatorConfig::default();
    assert_eq!(config.enabled_agents.len(), 7);
    assert!(config.enable_legal_verify);
    assert_eq!(config.legal_verify_max_turns, 3);
    assert_eq!(config.blind_spot_max_turns, 10);
    assert!(config.blind_spot_fallback_enabled);
}

#[test]
fn severity_labels_are_plain() {
    assert_eq!(severity_str(&RiskSeverity::High), "high");
    assert_eq!(severity_str(&RiskSeverity::Medium), "medium");
    assert_eq!(severity_str(&RiskSeverity::Low), "low");
    assert_eq!(severity_str(&RiskSeverity::Info), "info");
}

#[test]
fn clause_from_chunk_takes_tier_from_text() {
    let chunk = Chunk {
        chunk_id: "ch_007".into(),
        section_path: vec!["第二章".into(), "资格要求".into()],
        text: "原文".into(),
        page_start: 3,
        page_end: 4,
        source_block_ids: vec!["b_3_1".into()],
    };
    let clause = ReviewClause::from_chunk(&chunk, "投标人须在东莞地区设有常驻服务机构".into());
    assert_eq!(clause.chunk_id, "ch_007");
    assert_eq!(clause.section_path, vec!["第二章".to_string(), "资格要求".to_string()]);
    assert_eq!(clause.tier, RiskTier::High);
    assert_eq!(clause.tier_max_turns, 14);
    assert_eq!((clause.page_start, clause.page_end), (3, 4));
}

#[test]
fn test_agent_id_from_str_dynamic_prefix_any_case() {
    assert_eq!(
        AgentId::from_str("Dynamic_BrandDetector"),
        Some(AgentId::Dynamic("Dynamic_BrandDetector".into()))
    );
    assert_eq!(AgentId::from_str("DYNAMIC_x"), Some(AgentId::Dynamic("DYNAMIC_x".into())));
    assert_eq!(AgentId::from_str("dynamicx"), None);
}

#[test]
fn test_risk_tier_locality_keyword_is_l3() {
    assert_eq!(RiskTier::from_clause_text("存在地域限制条款"), RiskTier::High);
}
