use bid_review::review_loop::{
    check_tier_escalation, cite_sources, extract_citations, format_clause_prompt, is_search_tool, truncation_summary,
    turn_directive, SearchGuard, SearchNote,
};
use bid_review::tools::ToolChoice;
use bid_review::types::{Citation, ReviewClause, RiskTier};

fn urls(v: &[&str]) -> Vec<String> {
    v.iter().map(|s| s.to_string()).collect()
}

#[test]
fn the_last_turns_force_a_conclusion() {
    let (c, n) = turn_directive(5, "ch_1");
    assert!(matches!(c, ToolChoice::Auto));
    assert!(n.is_none());
    let (c, n) = turn_directive(3, "ch_1");
    assert!(matches!(c, ToolChoice::Auto));
    assert_eq!(
        n.unwrap(),
        "⏳ 剩余 3 轮审查机会（条款 ch_1）。请开始汇总已收集的信息，减少探索性搜索。\n如果已有足够证据判定风险（或无风险），即可准备调用 output_finding。"
    );
    let (c, n) = turn_directive(2, "ch_1");
    assert!(matches!(c, ToolChoice::Required));
    assert!(n.unwrap().starts_with("⚠️ 剩余 2 轮审查机会（条款 ch_1）"));
    for remaining in [0u32, 1] {
        let (c, n) = turn_directive(remaining, "ch_9");
        match c {
            ToolChoice::Specific { name } => assert_eq!(name, "output_finding"),
            _ => panic!("the last turn must name output_finding"),
        }
        assert!(n.unwrap().starts_with("🛑 这是对条款 ch_9 的最后一轮审查！"));
    }
}

#[test]
fn empty_searches_escalate_step_by_step() {
    let mut g = SearchGuard::new();
    let v = g.after_result("web_search", 0, vec![]);
    assert_eq!(v.note, Some(SearchNote::FirstEmpty));
    assert!(!v.result_again);
    let v = g.after_result("search_document", 0, vec![]);
    assert_eq!(v.note, Some(SearchNote::SecondEmpty));
    let v = g.after_result("web_search", 0, vec![]);
    assert_eq!(v.note, Some(SearchNote::LaterEmpty));
    assert!(v.result_again);
    assert_eq!(g.consecutive_empty, 3);
    // a result with hits resets the streak
    let v = g.after_result("search_document", 2, vec![]);
    assert_eq!(v.note, None);
    assert_eq!(g.consecutive_empty, 0);
    assert_eq!(g.web_searches, 0);
    // other tools do not count
    let v = g.after_result("read_section", 0, vec![]);
    assert_eq!(v.note, None);
    assert_eq!(g.consecutive_empty, 0);
    assert!(SearchNote::FirstEmpty.text().starts_with("搜索返回 0 条结果。"));
}

#[test]
fn repeated_sources_and_the_search_limit_stop_searching() {
    let mut g = SearchGuard::new();
    assert_eq!(g.after_result("web_search", 3, urls(&["a", "b", "c"])).note, None);
    assert_eq!(g.after_result("web_search", 3, urls(&["a", "b", "c"])).note, None);
    assert_eq!(g.consecutive_duplicates, 1);
    assert_eq!(g.after_result("web_search", 3, urls(&["a", "b", "c"])).note, Some(SearchNote::Repeated));
    assert_eq!(g.web_searches, 2);

    let mut g = SearchGuard::new();
    for k in 0..4 {
        let v = g.after_result("search_knowledge", 1, urls(&[&format!("u{}", k)]));
        assert_eq!(v.note, None);
    }
    let v = g.after_result("web_search", 1, urls(&["u9"]));
    assert_eq!(v.note, Some(SearchNote::LimitReached));
    assert_eq!(g.web_searches, 5);
    assert!(is_search_tool("search_knowledge"));
    assert!(!is_search_tool("search_document"));
}

#[test]
fn the_second_turn_escalates_or_relaxes_the_tier() {
    let texts = vec!["先读条款。".to_string(), "该条款疑似限定品牌".to_string()];
    assert_eq!(check_tier_escalation(&texts, RiskTier::Medium, false), (RiskTier::High, true));
    assert_eq!(check_tier_escalation(&texts, RiskTier::Low, false), (RiskTier::High, true));
    let calm = vec!["条款合规。".to_string()];
    assert_eq!(check_tier_escalation(&calm, RiskTier::High, false), (RiskTier::Medium, false));
    assert_eq!(check_tier_escalation(&calm, RiskTier::Medium, false), (RiskTier::Medium, false));
    assert_eq!(check_tier_escalation(&calm, RiskTier::High, true), (RiskTier::High, true));
    assert_eq!(check_tier_escalation(&texts, RiskTier::High, false), (RiskTier::High, false));
}

#[test]
fn clause_prompts_carry_the_tier_hint_and_clause() {
    let clause = ReviewClause {
        chunk_id: "ch_007".into(),
        section_path: vec!["第三章".into(), "评分".into()],
        text: "价格分30分".into(),
        page_start: 4,
        page_end: 5,
        tier: RiskTier::Medium,
        tier_max_turns: 10,
    };
    assert_eq!(
        format_clause_prompt(&clause),
        "【L2 - 标准审查】请按标准流程审查：精读条款 → 搜索法规 → 搜索案例（如需要）→ 输出结论。\n\n【条款信息】\nchunk_id: ch_007\n章节路径: 第三章 > 评分\n页码: 5-6\n\n【条款文本】\n价格分30分"
    );
    assert_eq!(
        truncation_summary(8, 8, "FactCheckAgent", "ch_007"),
        "执行了 8 轮审查（上限 8 轮），Agent: FactCheckAgent，条款: ch_007"
    );
}

fn cite(title: &str, url: &str, site: &str) -> Citation {
    Citation { title: title.into(), url: url.into(), site_name: site.into() }
}

#[test]
fn citations_keep_each_url_once_and_are_listed_after_the_reason() {
    let sources = vec![
        cite("政府采购法", "https://a", "中国政府网"),
        cite("无链接", "", ""),
        cite("重复", "https://a", "x"),
        cite("条例", "https://b", ""),
    ];
    let cs = extract_citations(&sources);
    assert_eq!(cs.len(), 2);
    assert_eq!(cs[0].title, "政府采购法");
    assert_eq!(cs[1].url, "https://b");
    assert_eq!(
        cite_sources("理由", &cs),
        "理由\n\n📎 搜索来源:\n[1] 政府采购法 — https://a (中国政府网)\n[2] 条例 — https://b"
    );
    assert_eq!(cite_sources("理由", &vec![]), "理由");
}
