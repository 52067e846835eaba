use bid_review::headings::split_inline_at;
use bid_review::routing::keywords_match_lowered;
use bid_review::types::{tier_from_lowered, AgentId, RiskTier};

fn words(ws: &[&str]) -> Vec<String> {
    ws.iter().map(|w| w.to_string()).collect()
}

#[test]
fn test_tier_from_lowered_prefers_l3() {
    let l3 = words(&["品牌", "brand"]);
    let l1 = words(&["格式"]);
    assert_eq!(tier_from_lowered("指定 brand 且格式统一", &l3, &l1), RiskTier::High);
    assert_eq!(tier_from_lowered("格式要求", &l3, &l1), RiskTier::Low);
    assert_eq!(tier_from_lowered("付款方式", &l3, &l1), RiskTier::Medium);
    // The text is taken as given: "BRAND" is not "brand".
    assert_eq!(tier_from_lowered("BRAND", &l3, &l1), RiskTier::Medium);
}

#[test]
fn test_agent_from_lowered_name_table() {
    assert_eq!(AgentId::from_lowered("semanticriskagent", "SemanticRiskAgent"), Some(AgentId::SemanticRisk));
    assert_eq!(AgentId::from_lowered("fact_check", "Fact_Check"), Some(AgentId::FactCheck));
    assert_eq!(
        AgentId::from_lowered("dynamic_branddetector", "Dynamic_BrandDetector"),
        Some(AgentId::Dynamic("Dynamic_BrandDetector".to_string()))
    );
    assert_eq!(AgentId::from_lowered("SemanticRiskAgent", "SemanticRiskAgent"), None);
}

#[test]
fn test_keywords_match_lowered() {
    assert!(keywords_match_lowered("付款方式 payment", &words(&["payment"])));
    assert!(!keywords_match_lowered("付款方式", &words(&["评分"])));
    assert!(keywords_match_lowered("任何文本", &Vec::new()));
}

#[test]
fn test_split_inline_at_given_starts() {
    // Cuts after the character at each start.
    let line = "资格要求）1.具有独立法人资格）2.具有良好信誉";
    let starts: Vec<usize> = line.char_indices().filter(|(_, c)| *c == '）').map(|(i, _)| line[..i].chars().count()).collect();
    assert_eq!(
        split_inline_at(line, &starts),
        vec!["资格要求）".to_string(), "1.具有独立法人资格）".to_string(), "2.具有良好信誉".to_string()]
    );
    assert_eq!(split_inline_at(line, &Vec::new()), vec![line.to_string()]);
}
