use bid_review::review_step::{review_start, review_step, truncated_finding, LoopAction, LoopEvent, LoopMessage, LoopState};
use bid_review::tools::ToolChoice;
use bid_review::types::{ReviewClause, RiskSeverity, RiskTier};

fn clause(tier: RiskTier, turns: usize) -> ReviewClause {
    ReviewClause {
        chunk_id: "ch_007".to_string(),
        section_path: vec!["第三章".to_string(), "评分标准".to_string()],
        text: "投标人须具备本地服务能力。".to_string(),
        page_start: 4,
        page_end: 5,
        tier,
        tier_max_turns: turns,
    }
}

fn choice_code(a: &LoopAction) -> Option<(u8, String)> {
    match a {
        LoopAction::CallModel { choice: ToolChoice::Auto, .. } => Some((0, String::new())),
        LoopAction::CallModel { choice: ToolChoice::Required, .. } => Some((1, String::new())),
        LoopAction::CallModel { choice: ToolChoice::Specific { name }, .. } => Some((2, name.clone())),
        _ => None,
    }
}

#[test]
fn test_truncated_finding_fields() {
    let f = truncated_finding("R_002", "ch_002", "TestAgent", RiskTier::High, RiskTier::High, "已搜索法规但未完成分析");
    assert!(f.truncated);
    assert!(f.no_risk);
    assert_eq!(f.risk_type, "审查截断");
    assert!(f.reason.contains("已搜索法规但未完成分析"));
    assert_eq!(f.reason, "max_turns 耗尽，审查不完整。已完成的审查步骤：已搜索法规但未完成分析");
    assert_eq!(f.suggestion, "建议人工复核此条款。");
    assert_eq!(f.severity, RiskSeverity::Info);
    assert_eq!(f.clause_ids, vec!["ch_002".to_string()]);
    assert!(!f.tier_escalated);
}

#[test]
fn test_review_without_finding_runs_out_of_turns() {
    // Budget: the clause's 4 turns, under the agent's 12.
    let c = clause(RiskTier::Medium, 4);
    let (mut s, mut a) = review_start(&c, "FactCheckAgent", "R_001", 12);
    let mut choices = Vec::new();
    loop {
        match choice_code(&a) {
            Some(ch) => choices.push(ch),
            None => break,
        }
        let (s2, a2) = review_step(&s, LoopEvent::NoToolCalls);
        s = s2;
        a = a2;
    }
    assert_eq!(
        choices,
        vec![(0, String::new()), (1, String::new()), (2, "output_finding".to_string()), (2, "output_finding".to_string())]
    );
    match a {
        LoopAction::Conclude(f) => {
            assert!(f.truncated);
            assert_eq!(f.reason, "max_turns 耗尽，审查不完整。已完成的审查步骤：执行了 4 轮审查（上限 4 轮），Agent: FactCheckAgent，条款: ch_007");
            assert_eq!(f.risk_id, "R_001");
        }
        _ => panic!("expected the truncated finding"),
    }
}

#[test]
fn test_review_step_budget_notes_and_continue_prompt() {
    let c = clause(RiskTier::Medium, 4);
    let (s, a) = review_start(&c, "A", "R_001", 12);
    // Turn 1 of 4: 3 turns left, so the 3-turn note comes first.
    match &a {
        LoopAction::CallModel { messages, .. } => {
            assert_eq!(messages.len(), 1);
            assert!(matches!(&messages[0], LoopMessage::System(t) if t.contains("剩余 3 轮")));
        }
        _ => panic!("expected a model call"),
    }
    let (_, a) = review_step(&s, LoopEvent::NoToolCalls);
    match &a {
        LoopAction::CallModel { messages, .. } => {
            assert!(matches!(&messages[0], LoopMessage::Reply));
            assert!(matches!(&messages[1], LoopMessage::User(t) if t.starts_with("请继续审查")));
            assert!(matches!(&messages[2], LoopMessage::System(t) if t.contains("剩余 2 轮")));
        }
        _ => panic!("expected a model call"),
    }
}

#[test]
fn test_review_step_parsed_finding_is_completed() {
    let c = clause(RiskTier::High, 14);
    let (s, _) = review_start(&c, "SemanticRiskAgent", "R_009", 8);
    assert_eq!(s.limit, 8);
    match review_step(&s, LoopEvent::FindingParsed).1 {
        LoopAction::Complete(fc) => {
            assert_eq!(fc.risk_id, "R_009");
            assert_eq!(fc.clause_ids, vec!["ch_007".to_string()]);
            assert_eq!(fc.agent, "SemanticRiskAgent");
            assert_eq!(fc.page_number, 5);
            assert_eq!(fc.section_path, c.section_path);
            assert_eq!(fc.context, c.text);
            assert_eq!(fc.initial_tier, RiskTier::High);
            assert_eq!(fc.final_tier, RiskTier::High);
        }
        _ => panic!("expected the completion"),
    }
}

#[test]
fn test_review_step_model_failure_and_parse_error() {
    let c = clause(RiskTier::Medium, 6);
    let (s, _) = review_start(&c, "A", "R_001", 12);
    match review_step(&s, LoopEvent::ModelFailed { error: "timeout".to_string() }).1 {
        LoopAction::Conclude(f) => {
            assert_eq!(f.risk_type, "LLM调用失败");
            assert_eq!(f.reason, "LLM API 调用失败: timeout");
            assert!(f.no_risk && !f.truncated);
        }
        _ => panic!("expected the failure finding"),
    }
    let (s2, a) = review_step(&s, LoopEvent::FindingUnparsed { error: "missing field".to_string() });
    assert_eq!(s2.turn, 2);
    match a {
        LoopAction::CallModel { messages, .. } => match &messages[0] {
            LoopMessage::Tool { tool_call_id, content } => {
                assert_eq!(tool_call_id, "output_finding");
                assert!(content.starts_with("output_finding 参数解析错误: missing field\n"));
            }
            _ => panic!("expected the parse error"),
        },
        _ => panic!("expected a model call"),
    }
}

#[test]
fn test_review_step_escalates_after_second_turn() {
    let c = clause(RiskTier::Medium, 6);
    let (s1, _) = review_start(&c, "A", "R_001", 12);
    let (s1, a) = review_step(&s1, LoopEvent::ToolCallsMade);
    assert!(matches!(a, LoopAction::RunTools));
    let (s2, _) = review_step(&s1, LoopEvent::ToolsRan { assistant_texts: vec!["先搜索".to_string()] });
    assert_eq!(s2.tier, RiskTier::Medium);
    let texts = vec!["先搜索".to_string(), "该条款可能存在地域限制".to_string()];
    let (s3, _) = review_step(&s2, LoopEvent::ToolsRan { assistant_texts: texts });
    assert_eq!(s3.tier, RiskTier::High);
    assert!(s3.escalated);
    let _: &LoopState = &s3;
}
