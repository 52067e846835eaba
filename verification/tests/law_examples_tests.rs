use bid_review::candidates::{validate_numbering_chains, HeadingCandidate};
use bid_review::headings::HeadingKind;
use bid_review::risk_taxonomy::{candidate_categories, display_name, owner_agent};
use bid_review::routing::{route_clauses, RouteRule};
use bid_review::types::{AgentId, ReviewClause, RiskTier};
use bid_review::chat::{AnswerReference, ChatAgent};
use bid_review::api::collect_all_block_ids;
use bid_review::document::{BlockType, RawBlock, RawDocument, RawPage};
use bid_review::orphans::orphan_sections;
use bid_review::sectionize::{sectionize, Section};
use bid_review::tables::{detect_pipe_tables, merge_cross_page_tables};
use bid_review::document::RawTable;
use bid_review::timeline::CalculateTimelineTool;

fn block(id: &str, kind: BlockType, text: &str) -> RawBlock {
    RawBlock { id: id.to_string(), block_type: kind, text: text.to_string() }
}

fn sample_document() -> RawDocument {
    RawDocument {
        document_id: "d".into(),
        source_path: "d.pdf".into(),
        pages: vec![
            RawPage {
                page_index: 0,
                blocks: vec![
                    block("b0", BlockType::Paragraph, "招标文件封面"),
                    block("b1", BlockType::Heading, "第一章 总则"),
                    block("b2", BlockType::Heading, "一、项目概况"),
                    block("b3", BlockType::Paragraph, "项目位于东莞。"),
                    block("b4", BlockType::Heading, "（一）建设内容"),
                    block("b5", BlockType::Paragraph, "建设教室十间。"),
                ],
                tables: vec![],
            },
            RawPage {
                page_index: 1,
                blocks: vec![
                    block("b6", BlockType::Heading, "第二章 采购需求"),
                    block("b7", BlockType::Paragraph, "品目 | 数量 | 单位"),
                    block("b8", BlockType::Paragraph, "电脑 | 10 | 台"),
                    block("b9", BlockType::Paragraph, "桌椅 | 40 | 套"),
                ],
                tables: vec![],
            },
        ],
    }
}

fn check_deeper(secs: &[Section]) {
    for s in secs {
        for c in &s.children {
            assert!(c.level > s.level, "{} 的子章节 {} 层级不更深", s.title, c.title);
        }
        check_deeper(&s.children);
    }
}

#[test]
fn children_are_always_deeper_than_their_parent() {
    let out = sectionize(&sample_document());
    assert!(!out.sections.is_empty());
    check_deeper(&out.sections);
}

#[test]
fn every_block_is_owned_or_gathered() {
    let doc = sample_document();
    let out = sectionize(&doc);
    let orphans = orphan_sections(&doc, &out.sections);
    let mut kept: Vec<String> = out.sections.iter().flat_map(collect_all_block_ids).collect();
    kept.extend(orphans.iter().flat_map(|s| s.block_ids.clone()));
    for p in &doc.pages {
        for b in &p.blocks {
            assert!(kept.contains(&b.id), "{} 丢失", b.id);
        }
    }
}

#[test]
fn pipe_tables_have_rows_of_equal_width() {
    let mut doc = sample_document();
    let n = detect_pipe_tables(&mut doc);
    assert_eq!(n, 1);
    let t = &doc.pages[1].tables[0];
    assert!(t.rows.len() >= 2);
    assert!(t.rows.iter().all(|r| r.len() == 3));
}

#[test]
fn day_counts_across_a_year_end() {
    let a = (2024, 12, 25);
    let b = (2025, 3, 1);
    let c = (2025, 3, 2);
    let ab = CalculateTimelineTool::calendar_days_between(a, b);
    assert_eq!(ab, -CalculateTimelineTool::calendar_days_between(b, a));
    assert_eq!(CalculateTimelineTool::calendar_days_between(a, c), ab + CalculateTimelineTool::calendar_days_between(b, c));
    assert_eq!(CalculateTimelineTool::calendar_days_between(b, c), 1);
    assert_eq!(ab, 66);
}

#[test]
fn test_law_cited_blocks_are_listed_once() {
    let agent = ChatAgent::new(String::new(), String::new(), String::new(), None);
    let listed = vec![
        AnswerReference { block_id: "b_2_0".to_string(), quote: None },
        AnswerReference { block_id: "b_1_1".to_string(), quote: Some("甲".to_string()) },
        AnswerReference { block_id: "b_5_5".to_string(), quote: None },
    ];
    let (_, refs) = agent.check_answer("[b_1_1] 与 [b_2_0]，又见 [b_1_1]。", &listed);
    let ids: Vec<&str> = refs.iter().map(|r| r.block_id.as_str()).collect();
    assert_eq!(ids, vec!["b_1_1", "b_2_0", "b_5_5"]);
}

#[test]
fn test_law_every_clause_is_routed() {
    let clause = |id: &str, text: &str| ReviewClause {
        chunk_id: id.to_string(),
        section_path: Vec::new(),
        text: text.to_string(),
        page_start: 0,
        page_end: 0,
        tier: RiskTier::Medium,
        tier_max_turns: 6,
    };
    let clauses = vec![clause("c1", "付款方式"), clause("c2", "无关键词"), clause("c3", "PAYMENT terms")];
    let rules = vec![
        RouteRule { agent: AgentId::Contract, keywords: vec!["付款".to_string(), "payment".to_string()] },
        RouteRule { agent: AgentId::Scoring, keywords: vec!["评分".to_string()] },
    ];
    let routing = route_clauses(&clauses, &rules);
    for c in &clauses {
        assert!(routing.iter().any(|r| r.clauses.iter().any(|x| x.chunk_id == c.chunk_id)), "{} not routed", c.chunk_id);
    }
    let fact = routing.iter().find(|r| r.agent == AgentId::FactCheck).expect("fact-check entry");
    let ids: Vec<&str> = fact.clauses.iter().map(|c| c.chunk_id.as_str()).collect();
    assert_eq!(ids, vec!["c2"]);
}

#[test]
fn test_law_keyword_matched_clauses_are_routed() {
    let clause = |id: &str, text: &str| ReviewClause {
        chunk_id: id.to_string(),
        section_path: Vec::new(),
        text: text.to_string(),
        page_start: 0,
        page_end: 0,
        tier: RiskTier::Medium,
        tier_max_turns: 6,
    };
    let clauses = vec![clause("c1", "评分办法与付款条件"), clause("c2", "Payment schedule")];
    let rules = vec![
        RouteRule { agent: AgentId::Contract, keywords: vec!["付款".to_string(), "PAYMENT".to_string()] },
        RouteRule { agent: AgentId::Scoring, keywords: vec!["评分".to_string()] },
    ];
    let routing = route_clauses(&clauses, &rules);
    let ids_of = |a: AgentId| -> Vec<String> {
        routing.iter().find(|r| r.agent == a).map(|r| r.clauses.iter().map(|c| c.chunk_id.clone()).collect()).unwrap_or_default()
    };
    assert_eq!(ids_of(AgentId::Contract), vec!["c1".to_string(), "c2".to_string()]);
    assert_eq!(ids_of(AgentId::Scoring), vec!["c1".to_string()]);
}

#[test]
fn test_law_candidate_categories_are_named_and_distinct() {
    let r = candidate_categories("投标截止日期为6月1日\n另一处规定为6月8日");
    assert_eq!(r, vec!["CONFLICTING_DATES"]);
    let r = candidate_categories("须在本地注册。投标人须在本地注册；指定品牌，不接受同等产品");
    for (i, c) in r.iter().enumerate() {
        assert!(display_name(c).is_some());
        assert!(!r[i + 1..].contains(c));
    }
}

#[test]
fn test_law_empty_document_has_no_sections() {
    let doc = RawDocument { document_id: "d0".to_string(), source_path: "x.pdf".to_string(), pages: Vec::new() };
    let out = sectionize(&doc);
    assert!(out.sections.is_empty());
    assert_eq!(out.stats.total_sections, 0);
    assert_eq!(out.stats.orphan_blocks, 0);
    assert!(out.stats.level_counts.is_empty());
}

fn all_rows_of(doc: &RawDocument) -> Vec<Vec<Option<String>>> {
    doc.pages.iter().flat_map(|p| p.tables.iter().flat_map(|t| t.rows.clone())).collect()
}

fn table_count(doc: &RawDocument) -> usize {
    doc.pages.iter().map(|p| p.tables.len()).sum()
}

#[test]
fn test_law_merging_keeps_rows() {
    let row = |a: &str, b: &str| vec![Some(a.to_string()), Some(b.to_string())];
    let mut doc = RawDocument {
        document_id: "m".into(),
        source_path: "".into(),
        pages: vec![
            RawPage { page_index: 0, blocks: vec![], tables: vec![
                RawTable { id: "t_0_0".into(), rows: vec![row("品目", "数量")] },
                RawTable { id: "t_0_1".into(), rows: vec![row("时间", "30日")] },
            ] },
            RawPage { page_index: 1, blocks: vec![], tables: vec![RawTable { id: "t_1_0".into(), rows: vec![row("付款", "分期"), row("验收", "合格")] }] },
            RawPage { page_index: 2, blocks: vec![], tables: vec![RawTable { id: "t_2_0".into(), rows: vec![row("质保", "2年")] }] },
        ],
    };
    let rows_before = all_rows_of(&doc);
    let count_before = table_count(&doc);
    let joins = merge_cross_page_tables(&mut doc);
    assert_eq!(all_rows_of(&doc), rows_before);
    assert_eq!(table_count(&doc) + joins.len(), count_before);
    assert!(!joins.is_empty());
}

#[test]
fn test_law_detection_count_is_tables_added() {
    let mut doc = sample_document();
    let before = table_count(&doc);
    let found = detect_pipe_tables(&mut doc);
    assert_eq!(table_count(&doc), before + found);
}

#[test]
fn test_law_numbering_chains_keep_a_subsequence() {
    let cand = |kind: HeadingKind, title: &str, id: &str| HeadingCandidate {
        kind,
        title: title.to_string(),
        page: 0,
        block_id: id.to_string(),
    };
    let cs = vec![
        cand(HeadingKind::Chapter, "第一章 总则", "b0"),
        cand(HeadingKind::DigitDot, "1. 投标人应具备以下条件：具有独立承担民事责任的能力", "b1"),
        cand(HeadingKind::Article, "第一条 适用范围", "b2"),
        cand(HeadingKind::ParenDigit, "（1）资格要求", "b3"),
    ];
    let kept: Vec<String> = validate_numbering_chains(cs).into_iter().map(|c| c.block_id).collect();
    // The lone "1." holds a colon and goes; the lone "（1）" is short and stays.
    assert_eq!(kept, vec!["b0".to_string(), "b2".to_string(), "b3".to_string()]);
}

#[test]
fn test_law_every_category_has_its_owner() {
    let owned = [
        ("SHORT_DEADLINE", "ProcedureAgent"),
        ("LOCAL_AWARD", "ScoringAgent"),
        ("UNRELATED_CERT", "DemandAgent"),
        ("UNCLEAR_PENALTY", "ContractAgent"),
        ("REGIONAL_PERFORMANCE", "SemanticRiskAgent"),
        ("CONFLICTING_DATES", "FactCheckAgent"),
    ];
    for (code, owner) in owned {
        assert_eq!(owner_agent(code), owner);
        assert!(display_name(code).is_some());
    }
    assert_eq!(owner_agent("NOT_A_CODE"), "RuleEngineAgent");
    assert!(display_name("NOT_A_CODE").is_none());
}

#[test]
fn test_display_names_parse_back() {
    let ids = [
        AgentId::FactCheck,
        AgentId::Procedure,
        AgentId::RuleEngine,
        AgentId::SemanticRisk,
        AgentId::Scoring,
        AgentId::Demand,
        AgentId::Contract,
        AgentId::BlindSpot,
        AgentId::LegalVerify,
        AgentId::Debate,
    ];
    for id in ids {
        assert_eq!(AgentId::from_str(&id.to_string()), Some(id.clone()));
    }
    assert_eq!(AgentId::from_str("SEMANTICRISKAGENT"), Some(AgentId::SemanticRisk));
}
