use bid_review::desensitize::desensitize;
use bid_review::layout::clean_layout_text;

#[test]
fn test_phone_replacement() {
    let output = desensitize("联系人张三，电话13812345678。");
    assert!(!output.contains("13812345678"));
    assert!(output.contains("[联系电话]"));
}

#[test]
fn test_landline_replacement() {
    let output = desensitize("咨询电话：0769-22812345。");
    assert!(!output.contains("0769-22812345"));
    assert!(output.contains("[联系电话]"));
}

#[test]
fn test_date_replacement() {
    let output = desensitize("投标截止日期：2024年06月15日。");
    assert!(!output.contains("2024年06月15日"));
    assert!(output.contains("[日期]"));
}

#[test]
fn test_amount_replacement() {
    let output = desensitize("投标保证金：贰万元整（20000元）。");
    assert!(output.contains("[金额]"));
}

#[test]
fn test_email_replacement() {
    let output = desensitize("电子邮箱：contact@example.com。");
    assert!(!output.contains("contact@example.com"));
    assert!(output.contains("[邮箱]"));
}

#[test]
fn test_id_card_replacement() {
    let output = desensitize("法定代表人身份证号：440106199001011234。");
    assert!(!output.contains("440106199001011234"));
    assert!(output.contains("[证件号]"));
}

#[test]
fn test_semantic_preservation() {
    let output = desensitize("供应商应具备本地服务机构，提供7×24小时技术支持。");
    assert!(output.contains("本地服务机构"));
    assert!(output.contains("技术支持"));
    assert!(output.contains("7×24小时"));
    assert!(!output.contains("[联系电话]"));
}

#[test]
fn desensitize_documented_example() {
    let output = desensitize("联系人张三，电话13812345678，投标截止2024年6月15日。");
    assert_eq!(output, "联系人张三，电话[联系电话]，投标截止[日期]。");
}

#[test]
fn desensitize_keeps_text_without_sensitive_data() {
    let input = "采购需求详见第三章技术要求";
    assert_eq!(desensitize(input), input);
}

#[test]
fn test_clean_layout_text_merges_cjk_spaces() {
    let input = "投  标  人  须  在  东  莞  地  区  设  有  常  驻  服  务  机  构";
    assert_eq!(clean_layout_text(input), "投标人须在东莞地区设有常驻服务机构");
}

#[test]
fn test_clean_layout_text_preserves_cjk_between_lines() {
    let input = "第一章  总  则\n第二条  合  同  标  的";
    assert_eq!(clean_layout_text(input), "第一章总则\n第二条合同标的");
}

#[test]
fn test_clean_layout_text_compresses_multiple_spaces() {
    let input = "符合    以下    条件";
    assert_eq!(clean_layout_text(input), "符合以下条件");
}

#[test]
fn test_clean_layout_text_empty_input() {
    assert_eq!(clean_layout_text(""), "");
    assert_eq!(clean_layout_text("   \n   \n  "), "");
}

#[test]
fn test_clean_layout_text_pure_ascii() {
    let input = "The bidder shall comply with the requirements.";
    assert_eq!(clean_layout_text(input), "The bidder shall comply with the requirements.");
}

#[test]
fn test_clean_layout_text_mixed_cjk_and_ascii() {
    let input = "项目编号  ABC-2024  投标  人";
    assert_eq!(clean_layout_text(input), "项目编号  ABC-2024  投标人");
}

#[test]
fn clean_layout_text_shortens_space_runs_and_drops_blank_lines() {
    assert_eq!(clean_layout_text("  a     b  \r\n\n c "), "a  b\nc");
}
