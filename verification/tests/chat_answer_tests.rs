use bid_review::api::TextSelection;
use bid_review::chat::{chat_start, chat_step, chat_tool_choice, AnswerReference, ChatAction, ChatAgent, ChatEvent};
use bid_review::read_section::Chunk;
use bid_review::tools::ToolChoice;

fn agent(chunks: Option<Vec<Chunk>>) -> ChatAgent {
    ChatAgent::new("你是 AI 助手。".to_string(), String::new(), String::new(), chunks)
}

fn block(id: &str, text: &str) -> Chunk {
    Chunk { chunk_id: id.to_string(), section_path: Vec::new(), text: text.to_string(), page_start: 3, page_end: 3, source_block_ids: vec![] }
}

fn reference(id: &str, quote: Option<&str>) -> AnswerReference {
    AnswerReference { block_id: id.to_string(), quote: quote.map(|q| q.to_string()) }
}

#[test]
fn test_parse_answer_user_block_ref_extraction() {
    let agent = agent(None);
    let (_, refs) = agent.check_answer(
        "[b_3_7]投标人须在东莞设有常驻服务机构。\n关联条款 [b_10_5] 也有问题。\n详见 [b_12_0]。",
        &Vec::new(),
    );
    assert_eq!(refs.len(), 3);
    assert_eq!(refs[0].block_id, "b_3_7");
    assert_eq!(refs[1].block_id, "b_10_5");
    assert_eq!(refs[2].block_id, "b_12_0");
}

#[test]
fn test_parse_answer_user_no_block_refs_in_text() {
    let agent = agent(None);
    let (_, refs) = agent.check_answer("这条条款合规，没有问题。", &Vec::new());
    assert!(refs.is_empty());
}

#[test]
fn test_check_answer_empty_answer() {
    let (answer, refs) = agent(None).check_answer("", &Vec::new());
    assert!(answer.is_empty());
    assert!(refs.is_empty());
}

#[test]
fn test_check_answer_cited_and_listed_block_counted_once() {
    let agent = agent(None);
    let (answer, refs) = agent.check_answer(
        "这条有合规风险。[b_3_7]原文片段有问题。",
        &vec![reference("b_3_7", Some("常驻服务机构"))],
    );
    assert!(answer.contains("合规风险"));
    assert!(answer.contains("[b_3_7]"));
    assert_eq!(refs.len(), 1);
    assert_eq!(refs[0].block_id, "b_3_7");
    // The id was first seen in the text, which carries no quote.
    assert_eq!(refs[0].quote, "");
    assert_eq!(refs[0].snippet, "");
    assert_eq!(refs[0].page, 0);
}

#[test]
fn test_check_answer_listed_reference_keeps_quote() {
    let agent = agent(None);
    let (_, refs) = agent.check_answer(
        "见 [b_1_2]。",
        &vec![reference("b_4_0", Some("评分标准")), reference("b_1_2", Some("x")), reference("b_4_0", None)],
    );
    let ids: Vec<&str> = refs.iter().map(|r| r.block_id.as_str()).collect();
    assert_eq!(ids, vec!["b_1_2", "b_4_0"]);
    assert_eq!(refs[0].quote, "");
    assert_eq!(refs[1].quote, "评分标准");
}

#[test]
fn test_check_answer_warns_about_unknown_block() {
    let agent = agent(Some(vec![block("b_3_7", "投标人须在东莞设有常驻服务机构")]));
    let (answer, refs) = agent.check_answer("回答", &vec![reference("b_9_9", Some("任何"))]);
    assert_eq!(
        answer,
        "回答\n\n── 系统验证警告 ──\n⚠️ 引用的 block_id 'b_9_9' 在文档中不存在，可能是 LLM 编造的"
    );
    assert_eq!(refs.len(), 1);
    assert_eq!(refs[0].block_id, "b_9_9");
}

#[test]
fn test_check_answer_warns_about_unmatched_quote() {
    let agent = agent(Some(vec![block("b_3_7", "投标人须在东莞设有常驻服务机构")]));
    let (answer, refs) = agent.check_answer("回答", &vec![reference("b_3_7", Some("本地注册"))]);
    assert_eq!(
        answer,
        "回答\n\n── 系统验证警告 ──\n⚠️ 对 [b_3_7] 的引用文字在原文中未找到精确匹配，请人工核实"
    );
    // The warning cites the block, so it is collected from the text first.
    assert_eq!(refs.len(), 1);
    assert_eq!(refs[0].quote, "");
}

#[test]
fn test_check_answer_quote_matches_ignoring_whitespace() {
    let agent = agent(Some(vec![block("b_3_7", "投标人须在 东莞\n设有常驻服务机构")]));
    let (answer, _) = agent.check_answer(
        "回答",
        &vec![reference("b_3_7", Some("东莞 设有")), reference("b_3_7", Some("常驻服务机构")), reference("b_3_7", Some(""))],
    );
    assert_eq!(answer, "回答");
}

#[test]
fn test_check_answer_two_warnings_joined_by_newline() {
    let agent = agent(Some(vec![block("b_1_1", "甲乙丙")]));
    let (answer, _) = agent.check_answer("答", &vec![reference("b_0_0", None), reference("b_1_1", Some("丁"))]);
    assert_eq!(
        answer,
        "答\n\n── 系统验证警告 ──\n⚠️ 引用的 block_id 'b_0_0' 在文档中不存在，可能是 LLM 编造的\n⚠️ 对 [b_1_1] 的引用文字在原文中未找到精确匹配，请人工核实"
    );
}

#[test]
fn test_check_answer_without_blocks_gives_no_warning() {
    let (answer, _) = agent(None).check_answer("答", &vec![reference("b_0_0", Some("丁"))]);
    assert_eq!(answer, "答");
}

#[test]
fn test_chat_tool_choice_by_turn() {
    assert!(matches!(chat_tool_choice(1, 3), ToolChoice::Required));
    assert!(matches!(chat_tool_choice(2, 3), ToolChoice::Auto));
    match chat_tool_choice(3, 3) {
        ToolChoice::Specific { name } => assert_eq!(name, "answer_user"),
        other => panic!("unexpected {:?}", other),
    }
    // With a single turn, the first-turn rule wins.
    assert!(matches!(chat_tool_choice(1, 1), ToolChoice::Required));
}

fn selected(text: &str) -> Option<TextSelection> {
    Some(TextSelection { text: text.to_string(), block_ids: vec!["b_3_7".to_string()], page: 3 })
}

#[test]
fn test_rag_query_joins_selection_and_question() {
    let a = agent(None);
    assert_eq!(a.rag_query(&selected("常驻服务机构"), "合规吗？"), Some("常驻服务机构 合规吗？".to_string()));
    assert_eq!(a.rag_query(&selected("常驻服务机构"), ""), Some("常驻服务机构".to_string()));
    assert_eq!(a.rag_query(&selected(""), "评分标准是什么"), Some("评分标准是什么".to_string()));
    assert_eq!(a.rag_query(&None, "  评分标准是什么\n"), Some("评分标准是什么".to_string()));
}

#[test]
fn test_rag_query_skips_short_queries() {
    let a = agent(None);
    assert_eq!(a.rag_query(&None, "你好"), None);
    assert_eq!(a.rag_query(&None, "  谢谢  "), None);
    assert_eq!(a.rag_query(&None, ""), None);
    assert_eq!(a.rag_query(&None, "资格？"), Some("资格？".to_string()));
}

fn code(a: &ChatAction) -> String {
    match a {
        ChatAction::CallModel { run_tools, choice } => format!("call({},{:?})", run_tools, choice),
        ChatAction::AnswerFromCall => "answer_call".to_string(),
        ChatAction::AnswerFromText => "answer_text".to_string(),
        ChatAction::GiveUp { run_tools, answer, suggestion } => format!("give_up({},{},{})", run_tools, answer, suggestion),
    }
}

#[test]
fn test_chat_steps_until_out_of_turns() {
    let (s, a) = chat_start(2);
    assert_eq!(code(&a), "call(false,Required)");
    let (s, a) = chat_step(&s, ChatEvent::Replied { has_content: true, has_tool_calls: true });
    assert_eq!(code(&a), "call(true,Specific { name: \"answer_user\" })");
    let (_, a) = chat_step(&s, ChatEvent::Replied { has_content: false, has_tool_calls: true });
    assert_eq!(code(&a), "give_up(true,抱歉，我在审查该问题时达到了分析上限。请尝试用更具体的问题重新提问。,尝试将问题拆分为更小的子问题)");
}

#[test]
fn test_chat_steps_answers_and_failures() {
    let (s, _) = chat_start(3);
    assert_eq!(code(&chat_step(&s, ChatEvent::AnsweredUser).1), "answer_call");
    assert_eq!(code(&chat_step(&s, ChatEvent::Replied { has_content: true, has_tool_calls: false }).1), "answer_text");
    assert_eq!(
        code(&chat_step(&s, ChatEvent::ModelFailed { error: "API 连接超时".to_string() }).1),
        "give_up(false,抱歉，LLM 调用失败: API 连接超时,检查 API 配置后重试)"
    );
    let (_, a) = chat_start(0);
    assert!(matches!(a, ChatAction::GiveUp { run_tools: false, .. }));
}
