use bid_review::coordination::{agent_node, chunk_nodes};
use bid_review::types::{AgentComplexity, AgentDefinition, AgentId, ReviewClause, RiskSeverity, RiskTier};

fn clause(id: &str, text: &str) -> ReviewClause {
    ReviewClause {
        chunk_id: id.to_string(),
        section_path: vec!["第一章".to_string(), "1.1 资格要求".to_string()],
        text: text.to_string(),
        page_start: 3,
        page_end: 4,
        tier: RiskTier::Medium,
        tier_max_turns: 6,
    }
}

#[test]
fn test_agent_node_roles() {
    let n = agent_node(&AgentId::BlindSpot);
    assert!(n.agent_id == AgentId::BlindSpot);
    assert_eq!(n.display_name, "BlindSpotAgent");
    assert_eq!(n.role, "兜底扫描");

    assert_eq!(agent_node(&AgentId::LegalVerify).role, "法条验证");
    assert_eq!(agent_node(&AgentId::Debate).role, "正反辩论");
    assert_eq!(agent_node(&AgentId::FactCheck).role, "标准审查");

    let d = agent_node(&AgentId::Dynamic("dyn_ip".to_string()));
    assert_eq!(d.role, "动态补充");
    assert!(d.agent_id == AgentId::Dynamic("dyn_ip".to_string()));
    assert_eq!(d.display_name, "dyn_ip");
}

#[test]
fn test_chunk_nodes_keep_fields_and_cut_preview() {
    let long: String = std::iter::repeat('条').take(250).collect();
    let clauses = vec![clause("c1", "短文本"), clause("c2", &long)];
    let nodes = chunk_nodes(&clauses);
    assert_eq!(nodes.len(), 2);
    assert_eq!(nodes[0].chunk_id, "c1");
    assert_eq!(nodes[0].text_preview, "短文本");
    assert_eq!(nodes[0].section_path, vec!["第一章".to_string(), "1.1 资格要求".to_string()]);
    assert_eq!(nodes[0].page_start, 3);
    assert_eq!(nodes[0].page_end, 4);
    assert_eq!(nodes[0].tier, RiskTier::Medium);
    assert_eq!(nodes[1].chunk_id, "c2");
    assert_eq!(nodes[1].text_preview.chars().count(), 200);
    assert!(long.starts_with(&nodes[1].text_preview));
}

#[test]
fn test_chunk_nodes_preview_of_exactly_two_hundred_chars() {
    let exact: String = std::iter::repeat('a').take(200).collect();
    let nodes = chunk_nodes(&vec![clause("c", &exact)]);
    assert_eq!(nodes[0].text_preview, exact);
}

#[test]
fn test_severity_rank_order() {
    assert_eq!(RiskSeverity::Info.rank(), 0);
    assert_eq!(RiskSeverity::Low.rank(), 1);
    assert_eq!(RiskSeverity::Medium.rank(), 2);
    assert_eq!(RiskSeverity::High.rank(), 3);
}

#[test]
fn test_agent_definition_to_agent_config() {
    let def = AgentDefinition {
        id: AgentId::Procedure,
        display_name: "程序合规",
        system_prompt: "你是程序合规审查员",
        default_max_turns: 8,
        complexity: AgentComplexity::Medium,
        section_keywords: &["评标", "开标"],
        tool_names: &["read_section", "output_finding"],
    };
    let cfg = def.to_agent_config();
    assert_eq!(cfg.name, "ProcedureAgent");
    assert_eq!(cfg.system_prompt, "你是程序合规审查员");
    assert_eq!(cfg.default_max_turns, 8);
    assert_eq!(cfg.tool_names, vec!["read_section".to_string(), "output_finding".to_string()]);
}
