use bid_review::dynamic_agents::{add_to_manifest, dynamic_agent_from_suggestion, load_dynamic_agents, register_dynamic_agents};
use bid_review::types::{AgentComplexity, DynamicAgentDefinition, DynamicAgentManifest, SuggestedAgent};

fn suggestion(name: &str, prompt: &str, kws: &[&str]) -> SuggestedAgent {
    SuggestedAgent {
        agent_name: name.to_string(),
        agent_prompt: prompt.to_string(),
        section_keywords: kws.iter().map(|s| s.to_string()).collect(),
        reason: "现有SemanticRisk只看单个品牌指定".to_string(),
    }
}

fn def(id: &str, created_at: &str, kws: &[&str], active: bool) -> DynamicAgentDefinition {
    DynamicAgentDefinition {
        id: id.to_string(),
        display_name: id.to_string(),
        system_prompt: "你是测试Agent".to_string(),
        default_max_turns: 8,
        complexity: AgentComplexity::Medium,
        section_keywords: kws.iter().map(|s| s.to_string()).collect(),
        tool_names: vec!["web_search".to_string()],
        created_at: created_at.to_string(),
        created_by: "BlindSpotAgent".to_string(),
        reason: "test".to_string(),
        active,
    }
}

#[test]
fn test_register_dynamic_agents_from_findings() {
    let s = suggestion("品牌组合排他检测", "你是品牌组合排他检测Agent，负责...", &["品牌组合", "多品牌", "捆绑"]);
    let defs = register_dynamic_agents(&vec![s], "2026-01-01T00:00:00Z");
    assert_eq!(defs.len(), 1, "应注册 1 个动态 Agent");
    let mut manifest = DynamicAgentManifest { version: 1, agents: vec![] };
    add_to_manifest(&mut manifest, defs[0].clone());
    assert_eq!(manifest.agents.len(), 1);
    assert!(!manifest.agents[0].active, "新 Agent 的 active 应为 false");
    assert_eq!(manifest.agents[0].created_by, "BlindSpotAgent");
    assert_eq!(manifest.agents[0].default_max_turns, 8);
    assert_eq!(manifest.agents[0].tool_names.len(), 4);
}

#[test]
fn test_register_dynamic_agents_empty_suggested_agent() {
    let registered = register_dynamic_agents(&vec![], "2026-01-01T00:00:00Z");
    assert_eq!(registered.len(), 0);
}

#[test]
fn test_register_dynamic_agents_empty_prompt_skipped() {
    let s = suggestion("测试", "", &["测试"]);
    let registered = register_dynamic_agents(&vec![s], "2026-01-01T00:00:00Z");
    assert_eq!(registered.len(), 0, "空 prompt 应被跳过");
}

#[test]
fn test_load_dynamic_agents_inactive_skipped() {
    let manifest = DynamicAgentManifest { version: 1, agents: vec![def("Dynamic_Inactive", "2026-01-01T00:00:00Z", &["测试"], false)] };
    assert_eq!(load_dynamic_agents(&manifest).len(), 0, "active=false 的 Agent 不应被加载");
}

#[test]
fn suggested_definitions_are_filled_in() {
    let s = suggestion("品牌Brand检测", "提示", &["品牌"]);
    let d = dynamic_agent_from_suggestion(&s, "2026-02-03T04:05:06Z").unwrap();
    assert_eq!(d.id, "Dynamic_Brand");
    assert_eq!(d.display_name, "品牌Brand检测Agent");
    assert_eq!(d.tool_names, vec!["web_search", "search_document", "read_section", "output_finding"]);
    assert_eq!(d.created_at, "2026-02-03T04:05:06Z");
    assert_eq!(d.complexity, AgentComplexity::Medium);
    assert!(dynamic_agent_from_suggestion(&suggestion("x", "p", &[]), "t").is_none());
}

#[test]
fn manifest_replaces_same_id_and_evicts_the_oldest_past_twenty() {
    let mut manifest = DynamicAgentManifest { version: 1, agents: vec![] };
    add_to_manifest(&mut manifest, def("A", "2026-01-05", &["a"], false));
    add_to_manifest(&mut manifest, def("B", "2026-01-02", &["b"], false));
    add_to_manifest(&mut manifest, def("A", "2026-01-09", &["c"], false));
    let ids: Vec<&str> = manifest.agents.iter().map(|d| d.id.as_str()).collect();
    assert_eq!(ids, vec!["B", "A"]);
    assert_eq!(manifest.agents[1].created_at, "2026-01-09");

    let mut full = DynamicAgentManifest { version: 1, agents: vec![] };
    for k in 0..20 {
        add_to_manifest(&mut full, def(&format!("D{:02}", k), &format!("2026-01-{:02}", 28 - k), &["k"], false));
    }
    assert_eq!(full.agents.len(), 20);
    add_to_manifest(&mut full, def("NEW", "2026-02-01", &["n"], false));
    assert_eq!(full.agents.len(), 20);
    // D19 was created first and leaves; the rest are ordered by creation time
    assert!(full.agents.iter().all(|d| d.id != "D19"));
    assert_eq!(full.agents[0].id, "D18");
    assert_eq!(full.agents[19].id, "NEW");
    assert_eq!(full.version, 1);
}

#[test]
fn loading_skips_invalid_and_overlapping_agents() {
    let manifest = DynamicAgentManifest {
        version: 1,
        agents: vec![
            def("Dynamic_A", "t1", &["品牌", "指定", "独家"], true),
            def("Dynamic_B", "t2", &["品牌", "指定"], true),
            def("Dynamic_C", "t3", &["付款"], true),
            def("Dynamic_D", "t4", &[], true),
        ],
    };
    let loaded = load_dynamic_agents(&manifest);
    let ids: Vec<&str> = loaded.iter().map(|d| d.id.as_str()).collect();
    assert_eq!(ids, vec!["Dynamic_A", "Dynamic_C"]);
}
