use bid_review::document::{BlockType, RawBlock, RawDocument, RawPage, RawTable};
use bid_review::headings::{
    is_page_noise, split_inline_headings, ARTICLE_PATTERN, CHAPTER_PATTERN, CJK_NUMBERED_PATTERN, DIGIT_DOT_PATTERN,
    PAREN_CJK_PATTERN, PAREN_DIGIT_PATTERN, PART_PATTERN,
};
use regex::Regex;
use bid_review::sectionize::{sectionize, Section};
use bid_review::tables::{detect_pipe_tables, format_table_as_markdown, merge_cross_page_tables};

fn is_match(pattern: &str, hay: &str) -> bool {
    Regex::new(pattern).unwrap().is_match(hay)
}

fn check_page_noise() {
    assert!(is_page_noise("1"));
    assert!(is_page_noise("92"));
    assert!(is_page_noise(" 5 "));
    assert!(is_page_noise("第1页共78页"));
    assert!(is_page_noise("第11页共78页"));
    assert!(is_page_noise("第2页共78页温馨提示"));
    assert!(is_page_noise("78第72页共页"));
    assert!(is_page_noise("系统架构要求应用系统采用浏览器/服务器架构，如无特殊原因，禁止要求终端用户安装客\u{F06E}"));
    assert!(!is_page_noise("第一章"));
    assert!(!is_page_noise("1. 供应商资格"));
    assert!(!is_page_noise("1234"));
    assert!(!is_page_noise("供应商应具备以下条件："));
}

#[test]
fn test_is_page_noise() {
    check_page_noise();
}

#[test]
fn sectionize_service_test_is_page_noise() {
    check_page_noise();
}

fn check_part() {
    assert!(is_match(PART_PATTERN, "第一部分投标邀请函"));
    assert!(is_match(PART_PATTERN, "第五部分投标文件格式"));
    assert!(!is_match(PART_PATTERN, "第一章磋商邀请"));
    assert!(!is_match(PART_PATTERN, "一、项目概况"));
}

fn check_chapter() {
    assert!(is_match(CHAPTER_PATTERN, "第一章磋商邀请"));
    assert!(is_match(CHAPTER_PATTERN, "第五章合同文本"));
    assert!(!is_match(CHAPTER_PATTERN, "一、项目概况"));
    assert!(!is_match(CHAPTER_PATTERN, "1. 供应商资格"));
}

fn check_cjk_numbered() {
    assert!(is_match(CJK_NUMBERED_PATTERN, "一、项目概况"));
    assert!(is_match(CJK_NUMBERED_PATTERN, "二.供应商的资格要求"));
    assert!(!is_match(CJK_NUMBERED_PATTERN, "第一章"));
}

fn check_paren_cjk() {
    assert!(is_match(PAREN_CJK_PATTERN, "（一）资格要求"));
    assert!(is_match(PAREN_CJK_PATTERN, "(二) 评审标准"));
}

fn check_digit_dot() {
    assert!(is_match(DIGIT_DOT_PATTERN, "1. 供应商资格"));
    assert!(is_match(DIGIT_DOT_PATTERN, "2、项目概况"));
    assert!(is_match(DIGIT_DOT_PATTERN, "3)其他要求"));
}

fn check_paren_digit() {
    assert!(is_match(PAREN_DIGIT_PATTERN, "（1）营业执照副本"));
    assert!(is_match(PAREN_DIGIT_PATTERN, "(2) 法定代表人证明"));
}

fn check_article() {
    assert!(is_match(ARTICLE_PATTERN, "第九条工程的支付、结算"));
}

#[test]
fn test_part_pattern() {
    check_part();
}

#[test]
fn sectionize_service_test_part_pattern() {
    check_part();
}

#[test]
fn test_chapter_pattern() {
    check_chapter();
}

#[test]
fn sectionize_service_test_chapter_pattern() {
    check_chapter();
}

#[test]
fn test_cjk_numbered_pattern() {
    check_cjk_numbered();
}

#[test]
fn sectionize_service_test_cjk_numbered_pattern() {
    check_cjk_numbered();
}

#[test]
fn test_paren_cjk_pattern() {
    check_paren_cjk();
}

#[test]
fn sectionize_service_test_paren_cjk_pattern() {
    check_paren_cjk();
}

#[test]
fn test_digit_dot_pattern() {
    check_digit_dot();
}

#[test]
fn sectionize_service_test_digit_dot_pattern() {
    check_digit_dot();
}

#[test]
fn test_paren_digit_pattern() {
    check_paren_digit();
}

#[test]
fn sectionize_service_test_paren_digit_pattern() {
    check_paren_digit();
}

#[test]
fn test_article_pattern() {
    check_article();
}

#[test]
fn sectionize_service_test_article_pattern() {
    check_article();
}

#[test]
fn test_split_inline_headings_no_match() {
    let result = split_inline_headings("普通的正文内容");
    assert_eq!(result.len(), 1);
    assert_eq!(result[0], "普通的正文内容");
}

#[test]
fn test_split_inline_headings_basic() {
    let result = split_inline_headings("采购包1（东莞理工学院松山湖校区智慧教室环境改造工程（二期））1.主要商务要求");
    assert_eq!(result.len(), 2, "应拆分为前缀和标题两部分，实际: {:?}", result);
    assert!(result[0].contains("（二期））"), "前缀应包含右括号，实际: {}", result[0]);
    assert_eq!(result[1], "1.主要商务要求", "标题应从数字开始，实际: {}", result[1]);
}

#[test]
fn test_split_inline_headings_heading_already_at_start() {
    let result = split_inline_headings("1.具有良好的商业信誉和健全的财务会计制度；");
    assert_eq!(result.len(), 1);
    assert_eq!(result[0], "1.具有良好的商业信誉和健全的财务会计制度；");
}

#[test]
fn test_split_inline_headings_plain_text_no_paren() {
    let result = split_inline_headings("条件包括：1.具有良好的商业信誉");
    assert_eq!(result.len(), 1, "冒号不是右括号，不应拆分");
}

#[test]
fn test_split_inline_headings_empty_line() {
    let result = split_inline_headings("");
    assert_eq!(result.len(), 1);
    assert!(result[0].is_empty());
}

fn block(id: &str, kind: BlockType, text: &str) -> RawBlock {
    RawBlock { id: id.to_string(), block_type: kind, text: text.to_string() }
}

fn make_raw_doc_with_inline_heading() -> RawDocument {
    RawDocument {
        document_id: "test_inline".to_string(),
        source_path: String::new(),
        pages: vec![RawPage {
            page_index: 0,
            blocks: vec![
                block("b_0_0", BlockType::Heading, "六、《资格条件承诺函》格式"),
                block("b_0_1", BlockType::Paragraph, "采购包1（东莞理工学院）1.主要商务要求"),
            ],
            tables: vec![],
        }],
    }
}

fn collect_all_titles(sections: &[Section]) -> Vec<String> {
    let mut titles = Vec::new();
    for s in sections {
        titles.push(s.title.clone());
        titles.extend(collect_all_titles(&s.children));
    }
    titles
}

#[test]
fn test_sectionize_detects_inline_heading() {
    let doc = make_raw_doc_with_inline_heading();
    let output = sectionize(&doc);
    let titles = collect_all_titles(&output.sections);
    assert!(titles.iter().any(|t| t.contains("1.主要商务要求")), "实际标题: {:?}", titles);
}

#[test]
fn test_sectionize_detects_plain_heading() {
    let doc = make_raw_doc_with_inline_heading();
    let output = sectionize(&doc);
    assert!(output.stats.orphan_blocks <= 1, "实际: {}", output.stats.orphan_blocks);
}

#[test]
fn sectionize_nests_by_level_and_extracts_bodies() {
    let doc = RawDocument {
        document_id: "d1".into(),
        source_path: "x.pdf".into(),
        pages: vec![
            RawPage {
                page_index: 0,
                blocks: vec![
                    block("b0", BlockType::Heading, "第一章 总则"),
                    block("b1", BlockType::Paragraph, "本章说明采购概况。\n1"),
                    block("b2", BlockType::Heading, "一、项目概况"),
                    block("b3", BlockType::Paragraph, "项目位于东莞\n市松山湖。"),
                ],
                tables: vec![],
            },
            RawPage {
                page_index: 1,
                blocks: vec![
                    block("b4", BlockType::Heading, "第二章 采购需求"),
                    block("b5", BlockType::Paragraph, "技术要求如下。"),
                ],
                tables: vec![],
            },
        ],
    };
    let out = sectionize(&doc);
    assert_eq!(out.document_id, "d1");
    assert_eq!(out.stats.total_sections, 3);
    assert_eq!(out.stats.orphan_blocks, 0);
    assert_eq!(out.stats.level_counts.get(&1), Some(&2));
    assert_eq!(out.stats.level_counts.get(&2), Some(&1));
    assert_eq!(out.sections.len(), 2);
    let ch1 = &out.sections[0];
    assert_eq!(ch1.title, "第一章 总则");
    assert_eq!(ch1.pattern, "chapter");
    assert_eq!(ch1.block_ids, vec!["b0", "b1", "b2", "b3"]);
    assert_eq!(ch1.body_text, "本章说明采购概况。");
    assert_eq!(ch1.children.len(), 1);
    let sub = &ch1.children[0];
    assert_eq!(sub.title, "一、项目概况");
    assert_eq!(sub.level, 2);
    assert_eq!(sub.body_text, "项目位于东莞市松山湖。");
    assert_eq!(sub.block_ids, vec!["b2", "b3"]);
    let ch2 = &out.sections[1];
    assert_eq!((ch2.page_start, ch2.page_end), (1, 1));
    assert_eq!(ch2.body_text, "技术要求如下。");
}

#[test]
fn sectionize_of_empty_document_is_empty() {
    let doc = RawDocument { document_id: "e".into(), source_path: "".into(), pages: vec![] };
    let out = sectionize(&doc);
    assert!(out.sections.is_empty());
    assert_eq!(out.stats.total_sections, 0);
    assert_eq!(out.stats.orphan_blocks, 0);
    assert!(out.stats.level_counts.is_empty());
}

#[test]
fn pipe_tables_are_detected_and_formatted() {
    let mut doc = RawDocument {
        document_id: "t".into(),
        source_path: "".into(),
        pages: vec![RawPage {
            page_index: 3,
            blocks: vec![
                block("p0", BlockType::Paragraph, "品目 | 数量"),
                block("p1", BlockType::Paragraph, "电脑 | 10"),
                block("p2", BlockType::Paragraph, "普通段落"),
            ],
            tables: vec![],
        }],
    };
    let n = detect_pipe_tables(&mut doc);
    assert_eq!(n, 1);
    let t = &doc.pages[0].tables[0];
    assert_eq!(t.id, "t_3_0");
    assert_eq!(t.rows, vec![vec![Some("品目".to_string()), Some("数量".to_string())], vec![Some("电脑".to_string()), Some("10".to_string())]]);
    assert_eq!(
        format_table_as_markdown(t).unwrap(),
        "| 品目 | 数量 |\n| --- | --- |\n| 电脑 | 10 |"
    );
    let empty = RawTable { id: "x".into(), rows: vec![] };
    assert!(format_table_as_markdown(&empty).is_none());
}

#[test]
fn tables_split_by_a_page_break_are_joined() {
    let row = |a: &str, b: &str| vec![Some(a.to_string()), Some(b.to_string())];
    let mut doc = RawDocument {
        document_id: "m".into(),
        source_path: "".into(),
        pages: vec![
            RawPage { page_index: 0, blocks: vec![], tables: vec![RawTable { id: "t_0_0".into(), rows: vec![row("时间", "30日")] }] },
            RawPage { page_index: 1, blocks: vec![], tables: vec![RawTable { id: "t_1_0".into(), rows: vec![row("付款", "分期")] }] },
            RawPage { page_index: 2, blocks: vec![], tables: vec![RawTable { id: "t_2_0".into(), rows: vec![row("付款", "x")] }] },
        ],
    };
    let merged = merge_cross_page_tables(&mut doc);
    assert_eq!(merged, vec![0]);
    assert_eq!(doc.pages[0].tables[0].rows.len(), 2);
    assert!(doc.pages[1].tables.is_empty());
    assert_eq!(doc.pages[2].tables.len(), 1);
}
