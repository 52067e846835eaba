use bid_review::timeline::{
    CalculateTimelineArgs, CalculateTimelineTool, DateError, DateEvent, TimelineConstraint, TimelineStatus,
};

fn ev(label: &str, date: &str, kind: &str) -> DateEvent {
    DateEvent { label: label.to_string(), date_str: date.to_string(), event_type: Some(kind.to_string()) }
}

#[test]
fn test_parse_date() {
    let (y, m, d) = CalculateTimelineTool::parse_date("2025-06-22").unwrap();
    assert_eq!(y, 2025);
    assert_eq!(m, 6);
    assert_eq!(d, 22);
}

#[test]
fn test_parse_date_slash_format() {
    let (y, m, d) = CalculateTimelineTool::parse_date("2025/06/22").unwrap();
    assert_eq!(y, 2025);
    assert_eq!(m, 6);
    assert_eq!(d, 22);
}

#[test]
fn test_parse_date_invalid() {
    assert!(CalculateTimelineTool::parse_date("invalid").is_err());
    assert!(CalculateTimelineTool::parse_date("2025-13-01").is_err());
}

#[test]
fn test_calendar_days_between() {
    let days = CalculateTimelineTool::calendar_days_between((2025, 6, 1), (2025, 6, 22));
    assert_eq!(days, 21);
}

#[test]
fn test_calendar_days_across_months() {
    let days = CalculateTimelineTool::calendar_days_between((2025, 5, 15), (2025, 6, 15));
    assert_eq!(days, 31);
}

#[test]
fn test_bid_opening_after_deadline_contradiction() {
    let events_map = vec![("投标截止".to_string(), (2025, 6, 22)), ("开标".to_string(), (2025, 6, 20))];
    let event_list = vec![ev("投标截止", "2025-06-22", "deadline"), ev("开标", "2025-06-20", "bid_opening")];
    let contradictions = CalculateTimelineTool::detect_contradictions(&events_map, &event_list);
    assert!(!contradictions.is_empty());
    assert!(contradictions[0].description.contains("开标"));
}

#[test]
fn test_no_contradictions_when_timeline_correct() {
    let events_map = vec![
        ("公告发布".to_string(), (2025, 6, 1)),
        ("投标截止".to_string(), (2025, 6, 22)),
        ("开标".to_string(), (2025, 6, 23)),
        ("中标".to_string(), (2025, 7, 10)),
    ];
    let event_list = vec![
        ev("公告发布", "2025-06-01", "announcement"),
        ev("投标截止", "2025-06-22", "deadline"),
        ev("开标", "2025-06-23", "bid_opening"),
        ev("中标", "2025-07-10", "award"),
    ];
    let contradictions = CalculateTimelineTool::detect_contradictions(&events_map, &event_list);
    assert!(contradictions.is_empty());
}

#[test]
fn test_infer_constraints_auto_adds_announcement_period() {
    let events = vec![ev("公告发布", "2025-06-01", "announcement"), ev("投标截止", "2025-06-22", "deadline")];
    let inferred = CalculateTimelineTool::infer_constraints(&events, &vec![]);
    assert!(!inferred.is_empty());
    assert!(inferred.iter().any(|c| c.from == "公告发布" && c.to == "投标截止" && c.min_days == Some(20)));
}

#[test]
fn test_announcement_period_pass() {
    let days = CalculateTimelineTool::calendar_days_between((2025, 6, 1), (2025, 6, 22));
    assert!(days >= 20);
    let tool = CalculateTimelineTool;
    let args = CalculateTimelineArgs {
        dates: vec![ev("公告发布", "2025-06-01", "announcement"), ev("投标截止", "2025-06-22", "deadline")],
        constraints: vec![TimelineConstraint {
            from: "公告发布".into(),
            to: "投标截止".into(),
            min_days: Some(20),
            max_days: None,
            legal_basis: Some("《政府采购法》第35条".into()),
        }],
    };
    let r = tool.execute(&args).unwrap();
    assert_eq!(r.checks.len(), 1);
    assert_eq!(r.checks[0].status, TimelineStatus::Pass);
    assert_eq!(r.checks[0].actual_days, 21);
    assert_eq!(r.checks[0].detail, "实际 21 天 ≥ 法定最低 20 天，合规。多出 1 天");
    assert_eq!(r.summary, "✅ 时间线合规：1 项校验全部通过，无逻辑矛盾。");
}

#[test]
fn date_errors_name_the_field() {
    assert_eq!(CalculateTimelineTool::parse_date("2025-13-01"), Err(DateError::Month(13)));
    assert_eq!(CalculateTimelineTool::parse_date("2025-02-32"), Err(DateError::Day(32)));
    assert_eq!(CalculateTimelineTool::parse_date("2025-0x-01"), Err(DateError::Number));
    assert_eq!(CalculateTimelineTool::parse_date("2025-06"), Err(DateError::Format));
    assert_eq!(CalculateTimelineTool::parse_date("  2024/1/5 "), Ok((2024, 1, 5)));
}

#[test]
fn day_counts_are_antisymmetric_and_add_up() {
    let a = (2024, 2, 27);
    let b = (2024, 3, 2);
    let c = (2025, 1, 1);
    let ab = CalculateTimelineTool::calendar_days_between(a, b);
    assert_eq!(ab, 4);
    assert_eq!(CalculateTimelineTool::calendar_days_between(b, a), -4);
    let bc = CalculateTimelineTool::calendar_days_between(b, c);
    assert_eq!(CalculateTimelineTool::calendar_days_between(a, c), ab + bc);
}

#[test]
fn execute_rejects_empty_dates() {
    let tool = CalculateTimelineTool;
    let args = CalculateTimelineArgs { dates: vec![], constraints: vec![] };
    assert_eq!(tool.execute(&args).err(), Some("dates 不能为空".to_string()));
    assert_eq!(tool.name(), "calculate_timeline");
}

#[test]
fn execute_reports_failures_contradictions_and_bad_dates() {
    let tool = CalculateTimelineTool;
    let args = CalculateTimelineArgs {
        dates: vec![
            ev("公告发布", "2025-06-10", "announcement"),
            ev("投标截止", "2025-06-22", "deadline"),
            ev("开标", "2025-06-21", "bid_opening"),
            ev("中标", "2025-13-40", "award"),
        ],
        constraints: vec![TimelineConstraint {
            from: "投标截止".into(),
            to: "中标".into(),
            min_days: None,
            max_days: Some(30),
            legal_basis: None,
        }],
    };
    let r = tool.execute(&args).unwrap();
    assert_eq!(r.events.len(), 4);
    assert!(!r.events[3].parsed);
    // user constraint first, then the inferred announcement period
    assert_eq!(r.checks.len(), 2);
    assert_eq!(r.checks[0].status, TimelineStatus::Uncertain);
    assert_eq!(r.checks[0].detail, "日期解析失败，无法计算");
    assert_eq!(r.checks[0].to_date, "");
    assert_eq!(r.checks[1].constraint, "公告发布 → 投标截止");
    assert_eq!(r.checks[1].from_date, "2025-06-10");
    assert_eq!(r.checks[1].actual_days, 12);
    assert_eq!(r.checks[1].status, TimelineStatus::Fail);
    assert_eq!(r.checks[1].detail, "实际 12 天 < 法定最低 20 天，差 8 天");
    assert_eq!(r.contradictions.len(), 1);
    assert_eq!(r.contradictions[0].detail, "开标日期(2025-06-21) ≤ 投标截止(2025-06-22)，时序矛盾");
    assert_eq!(r.summary, "⚠️ 1 项校验未通过，1 处逻辑矛盾，1 个日期解析失败");
}
