use bid_review::links::{derive_cross_agent_links, LinkInput};

fn finding(clause: &str, agent: &str, risk_type: &str) -> LinkInput {
    LinkInput { no_risk: false, risk_type: risk_type.into(), agent: agent.into(), clause_ids: vec![clause.into()] }
}

fn linked(links: &[bid_review::links::ClauseLink], a: &str, b: &str) -> bool {
    links.iter().any(|l| (l.from == a && l.to == b) || (l.from == b && l.to == a))
}

#[test]
fn test_derive_cross_agent_links_same_risk_type_different_agents() {
    let f1 = finding("ch_001", "SemanticRiskAgent", "品牌排他");
    let f2 = finding("ch_005", "DemandAgent", "品牌排他");
    let f3 = finding("ch_010", "FactCheckAgent", "付款风险");
    let links = derive_cross_agent_links(&vec![f1, f2, f3]);
    assert!(linked(&links, "ch_001", "ch_005"), "跨 Agent 同类型风险应产生 linked_to 边");
    assert_eq!(links.len(), 1);
    assert_eq!(links[0].reason, "跨 Agent 同类型风险: 品牌排他 (2 个 Agent 独立发现)");
}

#[test]
fn test_derive_cross_agent_links_same_agent_no_link() {
    let f1 = finding("ch_001", "FactCheckAgent", "品牌排他");
    let f2 = finding("ch_005", "FactCheckAgent", "品牌排他");
    let links = derive_cross_agent_links(&vec![f1, f2]);
    assert!(links.is_empty(), "同一 Agent 不应产生 linked_to 边");
}

#[test]
fn links_pair_every_differing_clause_and_skip_risk_free_findings() {
    let mut safe = finding("ch_9", "ContractAgent", "品牌排他");
    safe.no_risk = true;
    let mut multi = finding("ch_1", "AgentA", "品牌排他");
    multi.clause_ids.push("ch_2".into());
    let links = derive_cross_agent_links(&vec![
        multi,
        safe,
        finding("ch_1", "AgentB", "品牌排他"),
        finding("ch_3", "AgentB", "品牌排他"),
    ]);
    let pairs: Vec<(&str, &str)> = links.iter().map(|l| (l.from.as_str(), l.to.as_str())).collect();
    assert_eq!(
        pairs,
        vec![("ch_1", "ch_2"), ("ch_1", "ch_3"), ("ch_2", "ch_1"), ("ch_2", "ch_3"), ("ch_1", "ch_3")]
    );
    assert!(links.iter().all(|l| l.reason.ends_with("(2 个 Agent 独立发现)")));
}
