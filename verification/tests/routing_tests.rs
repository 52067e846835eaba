use bid_review::routing::{route_clauses, RouteRule, Routed};
use bid_review::types::{AgentId, ReviewClause, RiskTier};

fn clause(id: &str, text: &str) -> ReviewClause {
    let tier = RiskTier::from_clause_text(text);
    ReviewClause {
        chunk_id: id.to_string(),
        section_path: vec!["测试章节".to_string()],
        text: text.to_string(),
        page_start: 0,
        page_end: 0,
        tier,
        tier_max_turns: tier.max_turns(),
    }
}

fn rule(agent: AgentId, kws: &[&str]) -> RouteRule {
    RouteRule { agent, keywords: kws.iter().map(|s| s.to_string()).collect() }
}

fn routed_to<'a>(routing: &'a [Routed], agent: &AgentId) -> Option<&'a Routed> {
    routing.iter().find(|r| r.agent == *agent)
}

fn has(routing: &[Routed], agent: &AgentId, id: &str) -> bool {
    routed_to(routing, agent).map(|r| r.clauses.iter().any(|c| c.chunk_id == id)).unwrap_or(false)
}

#[test]
fn test_route_clauses_keyword_match() {
    let rules = vec![
        rule(AgentId::FactCheck, &["格式", "封面"]),
        rule(AgentId::SemanticRisk, &["品牌"]),
        rule(AgentId::Contract, &["付款"]),
    ];
    let clauses = vec![
        clause("ch_001", "封面格式要求见附件"),
        clause("ch_002", "本项目指定华为品牌交换机"),
        clause("ch_003", "付款方式和结算条件"),
    ];
    let routing = route_clauses(&clauses, &rules);
    assert!(has(&routing, &AgentId::FactCheck, "ch_001"));
    assert!(has(&routing, &AgentId::SemanticRisk, "ch_002"));
    assert!(has(&routing, &AgentId::Contract, "ch_003"));
}

#[test]
fn test_route_one_clause_to_multi_agents() {
    let rules = vec![rule(AgentId::Scoring, &["评分"]), rule(AgentId::Demand, &["技术"])];
    let clauses = vec![clause("ch_004", "评分权重价格分30%技术分50%商务分20%")];
    let routing = route_clauses(&clauses, &rules);
    assert!(has(&routing, &AgentId::Scoring, "ch_004"));
    assert!(has(&routing, &AgentId::Demand, "ch_004"));
}

#[test]
fn test_route_empty_keywords_skip() {
    let rules = vec![rule(AgentId::BlindSpot, &[]), rule(AgentId::LegalVerify, &[]), rule(AgentId::Debate, &[])];
    let clauses = vec![clause("ch_001", "任意文本")];
    let routing = route_clauses(&clauses, &rules);
    assert!(!routing.is_empty());
}

#[test]
fn test_route_fallback_to_factcheck() {
    let rules = vec![rule(AgentId::SemanticRisk, &["品牌"])];
    let clauses = vec![clause("ch_006", "本文件为竞争性磋商文件的组成部分")];
    let routing = route_clauses(&clauses, &rules);
    assert!(has(&routing, &AgentId::FactCheck, "ch_006"), "无匹配条款应 fallback 到 FactCheckAgent");
}

#[test]
fn test_route_dynamic_agent_keywords() {
    let dynamic_id = AgentId::Dynamic("Dynamic_BrandDetector".into());
    let rules = vec![rule(AgentId::FactCheck, &["格式"]), rule(dynamic_id.clone(), &["品牌组合", "多品牌"])];
    let clauses = vec![clause("ch_007", "本项目采用多品牌组合策略排他")];
    let routing = route_clauses(&clauses, &rules);
    assert!(has(&routing, &dynamic_id, "ch_007"), "动态 Agent 应通过其 section_keywords 接收条款");
}

#[test]
fn routing_is_case_blind_and_grouped_by_agent_in_first_use_order() {
    let rules = vec![rule(AgentId::Contract, &["PAYMENT"]), rule(AgentId::FactCheck, &["x"])];
    let clauses = vec![clause("a", "no match"), clause("b", "Payment terms"), clause("c", "more payment"), clause("a", "dup id")];
    let routing = route_clauses(&clauses, &rules);
    let agents: Vec<String> = routing.iter().map(|r| r.agent.to_string()).collect();
    assert_eq!(agents, vec!["ContractAgent", "FactCheckAgent"]);
    let contract: Vec<&str> = routing[0].clauses.iter().map(|c| c.chunk_id.as_str()).collect();
    assert_eq!(contract, vec!["b", "c"]);
    // the second clause with id "a" is not routed again: its id is already held
    let fact: Vec<&str> = routing[1].clauses.iter().map(|c| c.text.as_str()).collect();
    assert_eq!(fact, vec!["no match"]);
}
