use bid_review::blind_spot::{blind_spot_step, BlindSpotStage, BlindSpotStep};
use bid_review::read_section::locate_finding;
use bid_review::blind_spot::{coverage_entries, FindingRef, ReviewedBy};
use bid_review::types::ReviewClause;
use bid_review::api::collect_all_block_ids;
use bid_review::blind_spot::{blind_spot_candidates, blind_spot_fallback, sweep_clauses, CoverageEntry};
use bid_review::coordination::{is_duplicate_dynamic_agent, is_frontmatter_section, sanitize_agent_id};
use bid_review::knowledge::{deterministic_id, normalize_article_no, parse_legal_basis};
use bid_review::rag::{diversify_hits, score_key, SearchHit};
use bid_review::read_section::{neighbor_from_chunk, Chunk, ReadSectionTool};
use bid_review::risk_taxonomy::review_candidates_for_agent;
use bid_review::sectionize::Section;
use bid_review::tools::OutputFindingTool;
use bid_review::types::{AgentComplexity, ChunkNode, DynamicAgentDefinition, RiskTier};

fn make_hit(chunk_id: &str, title: &str, score: f32) -> SearchHit {
    SearchHit {
        chunk_id: chunk_id.to_string(),
        title: title.to_string(),
        score_key: score_key(score.to_bits()),
        snippet: format!("snippet of {}", chunk_id),
        page_start: 0,
    }
}

#[test]
fn test_diversify_hits_empty() {
    let result = diversify_hits(&vec![], 5);
    assert!(result.is_empty());
}

#[test]
fn test_diversify_hits_fewer_than_max() {
    let hits = vec![make_hit("ch_001", "项目概况", 0.9), make_hit("ch_002", "项目概况", 0.8)];
    let result = diversify_hits(&hits, 5);
    assert_eq!(result.len(), 2);
}

#[test]
fn test_diversify_hits_groups_by_title() {
    let hits = vec![
        make_hit("ch_027", "资格条件承诺函", 0.85),
        make_hit("ch_028", "资格条件承诺函", 0.72),
        make_hit("ch_029", "资格条件承诺函", 0.65),
        make_hit("ch_138", "合同文本", 0.71),
        make_hit("ch_158", "合同文本", 0.68),
        make_hit("ch_200", "技术需求", 0.60),
    ];
    let result = diversify_hits(&hits, 5);
    let ids: Vec<&str> = result.iter().map(|h| h.chunk_id.as_str()).collect();
    assert_eq!(result.len(), 5, "应填满 5 条，实际: {:?}", ids);
    assert!(ids.contains(&"ch_027"), "{:?}", ids);
    assert!(ids.contains(&"ch_138"), "{:?}", ids);
    assert!(ids.contains(&"ch_200"), "{:?}", ids);
    assert!(!ids.contains(&"ch_029"), "{:?}", ids);
    assert_eq!(result[0].chunk_id, "ch_027", "最高分应排第一");
}

#[test]
fn test_diversify_hits_all_same_group() {
    let hits = vec![
        make_hit("ch_001", "项目概况", 0.9),
        make_hit("ch_002", "项目概况", 0.8),
        make_hit("ch_003", "项目概况", 0.7),
        make_hit("ch_004", "项目概况", 0.6),
        make_hit("ch_005", "项目概况", 0.5),
    ];
    let result = diversify_hits(&hits, 3);
    assert_eq!(result.len(), 3);
    assert_eq!(result[0].chunk_id, "ch_001");
}

#[test]
fn diversify_orders_winners_then_fills_by_score() {
    let hits = vec![
        make_hit("ch_027", "资格条件承诺函", 0.85),
        make_hit("ch_028", "资格条件承诺函", 0.72),
        make_hit("ch_029", "资格条件承诺函", 0.65),
        make_hit("ch_138", "合同文本", 0.71),
        make_hit("ch_158", "合同文本", 0.68),
        make_hit("ch_200", "技术需求", 0.60),
    ];
    let ids: Vec<String> = diversify_hits(&hits, 5).into_iter().map(|h| h.chunk_id).collect();
    assert_eq!(ids, vec!["ch_027", "ch_138", "ch_200", "ch_028", "ch_158"]);
}

#[test]
fn score_keys_follow_score_order() {
    let xs = [-3.5f32, -0.25, 0.0, 0.1, 0.5, 2.0];
    for w in xs.windows(2) {
        assert!(score_key(w[0].to_bits()) < score_key(w[1].to_bits()));
    }
}

#[test]
fn multi_issue_chunk_routes_candidates_to_owners() {
    let text = "供应商须提供采购人所在区县的同类服务案例，跨区域案例不作为有效业绩。\n\
                投标人必须提交生产厂家针对本项目出具的授权函，否则投标无效。";
    assert_eq!(review_candidates_for_agent(text, "SemanticRiskAgent"), vec!["REGIONAL_PERFORMANCE"]);
    assert_eq!(review_candidates_for_agent(text, "ProcedureAgent"), vec!["OEM_AUTHORIZATION"]);
}

#[test]
fn deterministic_ids_are_short_sha256_prefixes() {
    assert_eq!(deterministic_id("abc"), "ba7816bf");
    assert_eq!(deterministic_id(""), "e3b0c442");
    assert_eq!(deterministic_id("risk:品牌指定"), deterministic_id("risk:品牌指定"));
    assert_ne!(deterministic_id("risk:品牌指定"), deterministic_id("risk:地域歧视"));
}

#[test]
fn article_numbers_are_written_in_digits() {
    assert_eq!(normalize_article_no("第二十二条"), "第22条");
    assert_eq!(normalize_article_no("第十条"), "第10条");
    assert_eq!(normalize_article_no("第一百零五条"), "第105条");
    assert_eq!(normalize_article_no(" 第22条 "), "第22条");
    assert_eq!(normalize_article_no("附则"), "附则");
}

#[test]
fn legal_basis_splits_into_law_and_article() {
    assert_eq!(
        parse_legal_basis("《政府采购法实施条例》第二十条"),
        ("政府采购法实施条例".to_string(), Some("第20条".to_string()))
    );
    assert_eq!(parse_legal_basis("《政府采购法》"), ("政府采购法".to_string(), None));
    assert_eq!(parse_legal_basis("招标投标法第三十五条"), ("招标投标法".to_string(), Some("第35条".to_string())));
}

fn chunk(id: &str, text: &str) -> Chunk {
    Chunk { chunk_id: id.into(), section_path: vec!["第一章".into()], text: text.into(), page_start: 1, page_end: 2, source_block_ids: vec![] }
}

#[test]
fn read_section_returns_text_and_neighbours() {
    let long: String = std::iter::repeat('字').take(250).collect();
    let tool = ReadSectionTool::new(
        vec![chunk("ch_1", "甲"), chunk("ch_2", "乙条款"), chunk("ch_3", &long)],
        vec!["ch_1".into(), "ch_2".into(), "ch_3".into()],
    );
    assert_eq!(tool.name(), "read_section");
    let d = tool.read_one("ch_2").unwrap();
    assert_eq!(d.text, "乙条款");
    assert_eq!(d.char_count, 3);
    assert_eq!(d.prev_chunk.as_ref().unwrap().chunk_id, "ch_1");
    let next = d.next_chunk.unwrap();
    assert_eq!(next.chunk_id, "ch_3");
    assert_eq!(next.text_snippet.chars().count(), 200);
    let first = tool.read_one("ch_1").unwrap();
    assert!(first.prev_chunk.is_none());
    assert_eq!(tool.read_one("ch_9").err(), Some("chunk_id 不存在: ch_9".to_string()));
    let (found, errors) = tool.read_many(&vec!["ch_3".into(), "ch_x".into()]);
    assert_eq!(found.len(), 1);
    assert_eq!(errors, vec!["ch_x: chunk_id 不存在: ch_x".to_string()]);
    assert_eq!(neighbor_from_chunk(&chunk("c", "短")).text_snippet, "短");
}

#[test]
fn test_is_frontmatter_section() {
    assert!(is_frontmatter_section(&vec!["磋商邀请".into()]));
    assert!(is_frontmatter_section(&vec!["第一章".into(), "投标邀请".into()]));
    assert!(is_frontmatter_section(&vec!["目录".into()]));
    assert!(!is_frontmatter_section(&vec!["第二章".into(), "采购需求".into()]));
    assert!(!is_frontmatter_section(&vec!["第四章".into(), "合同条款".into()]));
}

#[test]
fn test_sanitize_agent_id_removes_non_ascii() {
    assert_eq!(sanitize_agent_id("品牌组合排他检测"), "Unknown");
    assert_eq!(sanitize_agent_id("BrandComboDetector"), "BrandComboDetector");
    assert_eq!(sanitize_agent_id("品牌Brand检测"), "Brand");
    assert_eq!(sanitize_agent_id(""), "Unknown");
}

fn dyn_agent(id: &str, kws: &[&str], active: bool) -> DynamicAgentDefinition {
    DynamicAgentDefinition {
        id: id.into(),
        display_name: "测试".into(),
        system_prompt: "test".into(),
        default_max_turns: 8,
        complexity: AgentComplexity::Medium,
        section_keywords: kws.iter().map(|s| s.to_string()).collect(),
        tool_names: vec![],
        created_at: "2026-01-01T00:00:00Z".into(),
        created_by: "BlindSpotAgent".into(),
        reason: "test".into(),
        active,
    }
}

#[test]
fn test_is_duplicate_dynamic_agent_jaccard_below_threshold() {
    // overlap {品牌, 指定} over union of five: 0.4, not a duplicate
    let existing = vec![dyn_agent("Dynamic_Existing", &["品牌", "指定", "独家", "原厂"], true)];
    let new_def = dyn_agent("Dynamic_New", &["品牌", "指定", "授权"], false);
    assert!(!is_duplicate_dynamic_agent(&new_def, &existing), "Jaccard=0.4 不应判定为重复");
}

#[test]
fn test_is_duplicate_dynamic_agent_jaccard_above_threshold() {
    // overlap {品牌, 指定} over union of three: 0.67, a duplicate
    let existing = vec![dyn_agent("Dynamic_Existing", &["品牌", "指定", "独家"], true)];
    let new_def = dyn_agent("Dynamic_Existing", &["品牌", "指定"], true);
    assert!(is_duplicate_dynamic_agent(&new_def, &existing), "Jaccard=0.67 应判定为重复");
}

#[test]
fn test_is_duplicate_no_existing_agents() {
    let new_def = dyn_agent("Dynamic_First", &["测试"], false);
    assert!(!is_duplicate_dynamic_agent(&new_def, &vec![]));
}

#[test]
fn duplicate_agents_need_more_than_half_in_common() {
    let existing = vec![dyn_agent("a", &["品牌", "型号", "授权"], true)];
    assert!(is_duplicate_dynamic_agent(&dyn_agent("b", &["品牌", "型号", "授权", "原厂"], false), &existing));
    assert!(!is_duplicate_dynamic_agent(&dyn_agent("c", &["品牌", "付款"], false), &existing));
    // exactly one half is not enough
    let four = vec![dyn_agent("e", &["品牌", "型号", "授权", "原厂"], true)];
    assert!(!is_duplicate_dynamic_agent(&dyn_agent("d", &["品牌", "型号"], false), &four));
}

#[test]
fn block_ids_are_collected_in_preorder() {
    let leaf = |ids: &[&str]| Section {
        level: 2,
        title: "t".into(),
        pattern: "cjk_numbered".into(),
        page_start: 0,
        page_end: 0,
        block_ids: ids.iter().map(|s| s.to_string()).collect(),
        body_page_start: 0,
        body_page_end: 0,
        body_text: String::new(),
        children: vec![],
    };
    let mut root = leaf(&["a", "b"]);
    root.children = vec![leaf(&["c"]), leaf(&["d", "e"])];
    assert_eq!(collect_all_block_ids(&root), vec!["a", "b", "c", "d", "e"]);
    assert_eq!(OutputFindingTool.name(), "output_finding");
}

fn coverage(id: &str, path: &[&str], tier: RiskTier, reviewers: usize, has_risk: bool) -> CoverageEntry {
    CoverageEntry {
        chunk_id: id.to_string(),
        chunk: ChunkNode {
            chunk_id: id.to_string(),
            section_path: path.iter().map(|s| s.to_string()).collect(),
            page_start: 3,
            page_end: 4,
            text_preview: format!("条款{}", id),
            tier,
        },
        reviewer_count: reviewers,
        has_risk,
        risk_count: if has_risk { 1 } else { 0 },
    }
}

#[test]
fn blind_spots_flag_unreviewed_then_thinly_reviewed_clauses() {
    let entries = vec![
        coverage("ch_1", &["第二章", "采购需求"], RiskTier::Medium, 0, false),
        coverage("ch_2", &["第三章"], RiskTier::High, 1, false),
        coverage("ch_3", &["目录"], RiskTier::High, 1, false),
        coverage("ch_4", &["第四章"], RiskTier::Low, 0, false),
        coverage("ch_5", &["第五章"], RiskTier::High, 2, false),
        coverage("ch_6", &["第六章"], RiskTier::High, 1, true),
    ];
    let flags = blind_spot_fallback(&entries);
    let ids: Vec<&str> = flags.iter().map(|f| f.risk_id.as_str()).collect();
    assert_eq!(ids, vec!["BLIND_ch_1", "BLIND_ch_4", "BLIND_NO_RISK_ch_2"]);
    assert_eq!(flags[0].reason, "条款 ch_1 未被任何 Agent 审查，建议人工复核。章节: 第二章 > 采购需求");
    assert_eq!(flags[0].risk_type, "审查盲点");
    assert!(!flags[0].no_risk);
    assert_eq!(flags[0].page_number, 4);
    assert_eq!(flags[2].reason, "条款 ch_2 仅被 1 个 Agent 审查且无风险发现，建议人工确认。");
    assert_eq!(flags[2].risk_type, "潜在遗漏");
    assert!(flags[2].no_risk);
    assert_eq!(flags[2].context, "条款ch_2");
}

#[test]
fn blind_spots_are_skipped_when_everything_was_reviewed() {
    let entries = vec![
        coverage("ch_1", &["第二章"], RiskTier::High, 1, false),
        coverage("ch_2", &["第三章"], RiskTier::Medium, 2, true),
        coverage("ch_3", &["封面"], RiskTier::High, 1, false),
    ];
    assert!(blind_spot_fallback(&entries).is_empty());
    assert!(blind_spot_fallback(&vec![]).is_empty());
}

#[test]
fn blind_spot_agent_gets_thinly_reviewed_clauses_then_a_quick_sweep() {
    let entries = vec![
        coverage("ch_1", &["第二章"], RiskTier::Medium, 0, false),
        coverage("ch_2", &["第三章"], RiskTier::High, 1, false),
        coverage("ch_3", &["目录"], RiskTier::High, 0, false),
        coverage("ch_4", &["第四章"], RiskTier::Low, 0, false),
        coverage("ch_5", &["第五章"], RiskTier::High, 1, true),
        coverage("ch_6", &["第六章"], RiskTier::High, 2, false),
    ];
    let cands = blind_spot_candidates(&entries);
    let ids: Vec<&str> = cands.iter().map(|c| c.chunk_id.as_str()).collect();
    assert_eq!(ids, vec!["ch_1", "ch_2"]);
    assert_eq!(cands[0].text, "条款ch_1");
    assert_eq!(cands[0].tier_max_turns, 12);
    assert_eq!(cands[1].tier_max_turns, 14);
    let sweep = sweep_clauses(&cands, &vec!["ch_2".to_string()]);
    assert_eq!(sweep.len(), 1);
    assert_eq!(sweep[0].chunk_id, "ch_1");
    assert_eq!(sweep[0].tier_max_turns, 2);

    let many: Vec<CoverageEntry> = (0..60).map(|k| coverage(&format!("c{}", k), &["第二章"], RiskTier::Medium, 0, false)).collect();
    let capped = blind_spot_candidates(&many);
    assert_eq!(capped.len(), 50);
    assert_eq!(capped[49].chunk_id, "c49");
}

#[test]
fn test_diversify_hits_groups_by_two_title_characters() {
    let hits = vec![
        make_hit("ch_001", "资格条件", 0.9),
        make_hit("ch_002", "资格审查", 0.8),
        make_hit("ch_003", "合同文本", 0.7),
    ];
    let ids: Vec<String> = diversify_hits(&hits, 2).into_iter().map(|h| h.chunk_id).collect();
    assert_eq!(ids, vec!["ch_001".to_string(), "ch_003".to_string()]);
}

#[test]
fn test_coverage_entries_counts_reviewers_and_risks() {
    let clause = |id: &str| ReviewClause {
        chunk_id: id.to_string(),
        section_path: vec!["第二章".to_string()],
        text: "条款".to_string(),
        page_start: 1,
        page_end: 2,
        tier: RiskTier::Medium,
        tier_max_turns: 6,
    };
    let clauses = vec![clause("c1"), clause("c2"), clause("c3")];
    let reviewed = vec![
        ReviewedBy { chunk_id: "c1".to_string(), agents: vec!["A".to_string(), "B".to_string()] },
        ReviewedBy { chunk_id: "c2".to_string(), agents: vec!["A".to_string()] },
        ReviewedBy { chunk_id: "c1".to_string(), agents: vec!["C".to_string()] },
    ];
    let findings = vec![
        FindingRef { no_risk: false, clause_ids: vec!["c1".to_string(), "c2".to_string()] },
        FindingRef { no_risk: true, clause_ids: vec!["c2".to_string()] },
        FindingRef { no_risk: false, clause_ids: vec!["c1".to_string()] },
    ];
    let e = coverage_entries(&clauses, &reviewed, &findings);
    let got: Vec<(usize, usize, bool)> = e.iter().map(|x| (x.reviewer_count, x.risk_count, x.has_risk)).collect();
    assert_eq!(got, vec![(2, 2, true), (1, 1, true), (0, 0, false)]);
    assert_eq!(e[2].chunk.chunk_id, "c3");
    assert_eq!(e[0].chunk.text_preview, "条款");
}

#[test]
fn test_locate_finding_from_first_clause_chunk() {
    let long: String = std::iter::repeat('字').take(600).collect();
    let chunks = vec![
        Chunk { chunk_id: "c1".into(), section_path: vec!["第一章".into()], text: "甲".into(), page_start: 2, page_end: 2, source_block_ids: vec!["b_2_0".into()] },
        Chunk { chunk_id: "c2".into(), section_path: vec!["第二章".into(), "2.1".into()], text: long.clone(), page_start: 5, page_end: 6, source_block_ids: vec!["b_5_1".into(), "b_5_2".into()] },
    ];
    let l = locate_finding(&vec!["c2".into(), "c1".into()], &chunks).expect("located");
    assert_eq!(l.page_number, 5);
    assert_eq!(l.section_path, vec!["第二章".to_string(), "2.1".to_string()]);
    assert_eq!(l.context.chars().count(), 500);
    assert!(long.starts_with(&l.context));
    assert_eq!(l.block_ids, vec!["b_5_1".to_string(), "b_5_2".to_string()]);
    assert!(locate_finding(&vec![], &chunks).is_none());
    assert!(locate_finding(&vec!["c9".into()], &chunks).is_none());
}

#[test]
fn test_locate_finding_takes_last_chunk_with_the_id() {
    let chunks = vec![
        Chunk { chunk_id: "c1".into(), section_path: vec![], text: "旧".into(), page_start: 1, page_end: 1, source_block_ids: vec!["b_1_0".into()] },
        Chunk { chunk_id: "c1".into(), section_path: vec![], text: "新".into(), page_start: 7, page_end: 7, source_block_ids: vec!["b_7_0".into()] },
    ];
    let l = locate_finding(&vec!["c1".into()], &chunks).unwrap();
    assert_eq!(l.page_number, 7);
    assert_eq!(l.block_ids, vec!["b_7_0".to_string()]);
}

#[test]
fn test_blind_spot_step_decisions() {
    let chosen = |n: usize, reg: bool| BlindSpotStage::Chosen { candidates: n, agent_registered: reg };
    assert_eq!(blind_spot_step(chosen(0, true), true), BlindSpotStep::Stop);
    assert_eq!(blind_spot_step(chosen(3, false), true), BlindSpotStep::Fallback);
    assert_eq!(blind_spot_step(chosen(3, false), false), BlindSpotStep::Stop);
    assert_eq!(blind_spot_step(chosen(3, true), false), BlindSpotStep::Review);
    assert_eq!(blind_spot_step(BlindSpotStage::Reviewed { risks: 0 }, true), BlindSpotStep::Fallback);
    assert_eq!(blind_spot_step(BlindSpotStage::Reviewed { risks: 0 }, false), BlindSpotStep::Stop);
    assert_eq!(blind_spot_step(BlindSpotStage::Reviewed { risks: 2 }, true), BlindSpotStep::Sweep);
}

#[test]
fn test_law_diversified_count() {
    let hits = vec![
        make_hit("ch_001", "项目概况", 0.9),
        make_hit("ch_002", "合同条款", 0.8),
        make_hit("ch_003", "项目需求", 0.7),
        make_hit("ch_004", "合同条款", 0.6),
        make_hit("ch_005", "评分标准", 0.5),
        make_hit("ch_006", "项目概况", 0.4),
    ];
    for m in 0..8 {
        let result = diversify_hits(&hits, m);
        assert_eq!(result.len(), m.min(hits.len()));
        let ids: Vec<&str> = result.iter().map(|h| h.chunk_id.as_str()).collect();
        for (i, id) in ids.iter().enumerate() {
            assert!(!ids[i + 1..].contains(id), "{:?}", ids);
        }
    }
    let all = diversify_hits(&hits, 6);
    let ids: Vec<&str> = all.iter().map(|h| h.chunk_id.as_str()).collect();
    assert_eq!(ids, vec!["ch_001", "ch_002", "ch_003", "ch_004", "ch_005", "ch_006"]);
}
