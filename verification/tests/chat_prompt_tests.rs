use bid_review::api::TextSelection;
use bid_review::chat::ChatAgent;

fn agent() -> ChatAgent {
    ChatAgent::new("你是 AI 助手。".to_string(), String::new(), String::new(), None)
}

fn selection(text: &str, page: usize) -> TextSelection {
    TextSelection { text: text.to_string(), block_ids: vec!["b_3_7".to_string()], page }
}

#[test]
fn test_build_system_prompt_with_config() {
    let mut agent = agent();
    agent.project_config_content = "项目: 测试项目\n审查立场: 供应商视角".to_string();
    agent.user_preferences_content = "回答格式: 表格".to_string();
    let prompt = agent.build_system_prompt(&None);
    assert!(prompt.contains("review-config.md"));
    assert!(prompt.contains("测试项目"));
    assert!(prompt.contains("user-preferences.md"));
    assert!(prompt.contains("回答格式: 表格"));
}

#[test]
fn test_build_system_prompt_with_selection() {
    let agent = agent();
    let prompt = agent.build_system_prompt(&Some(selection("投标人须在东莞设有常驻服务机构", 3)));
    assert!(prompt.contains("用户当前在 PDF 第 4 页"));
    assert!(prompt.contains("投标人须在东莞设有常驻服务机构"));
    assert!(prompt.contains("b_3_7"));
}

#[test]
fn test_build_user_message_no_selection() {
    let msg = agent().build_user_message(&None, "这条有问题吗？");
    assert_eq!(msg, "这条有问题吗？");
}

#[test]
fn test_build_user_message_with_selection() {
    let msg = agent().build_user_message(&Some(selection("常驻服务机构", 2)), "这条有问题吗？");
    assert!(msg.contains("PDF 第 3 页"));
    assert!(msg.contains("常驻服务机构"));
    assert!(msg.contains("b_3_7"));
    assert!(msg.contains("用户提问: 这条有问题吗？"));
}

#[test]
fn test_build_user_message_selection_empty_input() {
    let msg = agent().build_user_message(&Some(selection("常驻服务机构", 0)), "");
    assert!(msg.contains("请分析这段文字的合规性"));
}

#[test]
fn system_prompt_without_extras_is_the_base_prompt() {
    let prompt = agent().build_system_prompt(&None);
    assert_eq!(prompt, "你是 AI 助手。");
    assert!(!prompt.contains("review-config.md"));
    assert!(!prompt.contains("用户当前在 PDF"));
}

#[test]
fn selection_block_is_written_in_full() {
    let prompt = agent().build_system_prompt(&Some(selection("甲", 9)));
    assert_eq!(
        prompt,
        "你是 AI 助手。\n\n用户当前在 PDF 第 10 页选中了以下文字:\n> 甲\n(block_ids: [\"b_3_7\"])\n你可以在回答中引用 block_id 让前端渲染高亮。"
    );
    let msg = agent().build_user_message(&Some(selection("甲", 0)), "问");
    assert_eq!(msg, "用户在 PDF 第 1 页选中了以下文字:\n> 甲\n(block_ids: [\"b_3_7\"])\n\n用户提问: 问");
}
