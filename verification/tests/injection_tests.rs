use bid_review::document::{RawDocument, RawPage, RawTable};
use bid_review::injection::inject_tables_into_sections;
use bid_review::orphans::orphan_sections;
use bid_review::sectionize::Section;

fn table(id: &str, cell: &str) -> RawTable {
    RawTable { id: id.to_string(), rows: vec![vec![Some(cell.to_string())]] }
}

fn page(index: usize, tables: Vec<RawTable>) -> RawPage {
    RawPage { page_index: index, blocks: vec![], tables }
}

fn section(title: &str, pages: (usize, usize), body_pages: (usize, usize), body: &str, ids: &[&str]) -> Section {
    Section {
        level: 2,
        title: title.to_string(),
        pattern: "cjk_numbered".to_string(),
        page_start: pages.0,
        page_end: pages.1,
        block_ids: ids.iter().map(|s| s.to_string()).collect(),
        body_page_start: body_pages.0,
        body_page_end: body_pages.1,
        body_text: body.to_string(),
        children: vec![],
    }
}

fn doc(pages: Vec<RawPage>) -> RawDocument {
    RawDocument { document_id: "d".to_string(), source_path: "d.pdf".to_string(), pages }
}

#[test]
fn tables_go_to_the_deepest_section_and_containers_pick_up_the_rest() {
    let d = doc(vec![
        page(0, vec![table("t0", "零")]),
        page(2, vec![table("t1", "甲")]),
        page(5, vec![table("t2", "乙"), RawTable { id: "t_empty".to_string(), rows: vec![] }]),
        page(7, vec![table("t3", "丙")]),
    ]);
    let mut root = section("第一章", (0, 9), (0, 0), "", &["r1"]);
    root.level = 1;
    root.children = vec![
        section("二、A", (5, 6), (5, 5), "A text", &["a1"]),
        section("一、B", (2, 3), (2, 3), "B text", &["b1"]),
    ];
    let mut secs = vec![root];
    inject_tables_into_sections(&mut secs, &d);
    let root = &secs[0];
    // children are ordered by the page their text starts on
    assert_eq!(root.children[0].title, "一、B");
    assert_eq!(root.children[1].title, "二、A");
    assert_eq!(root.children[0].body_text, "B text\n\n| 甲 |\n| --- |");
    assert_eq!(root.children[0].block_ids, vec!["b1", "t1"]);
    assert_eq!(root.children[1].body_text, "A text\n\n| 乙 |\n| --- |");
    assert_eq!(root.children[1].block_ids, vec!["a1", "t2"]);
    // the container takes the table of its own text page, then what its
    // children left on its pages; the empty table is skipped
    assert_eq!(root.body_text, "| 零 |\n| --- |\n\n| 丙 |\n| --- |");
    assert_eq!(root.block_ids, vec!["r1", "t0", "t3"]);
}

#[test]
fn each_table_is_taken_once_and_ids_are_not_repeated() {
    let d = doc(vec![page(4, vec![table("t9", "表"), table("t8", "二")])]);
    let mut secs = vec![
        section("一、", (4, 4), (4, 4), "正文", &["t9"]),
        section("二、", (4, 4), (4, 4), "又一段", &[]),
    ];
    inject_tables_into_sections(&mut secs, &d);
    // the first section takes both tables; its block ids already held t9
    assert_eq!(secs[0].body_text, "正文\n\n| 表 |\n| --- |\n\n| 二 |\n| --- |");
    assert_eq!(secs[0].block_ids, vec!["t9", "t8"]);
    // nothing is left for the second
    assert_eq!(secs[1].body_text, "又一段");
    assert!(secs[1].block_ids.is_empty());
}

#[test]
fn a_section_with_text_does_not_take_tables_beyond_its_text_pages() {
    let d = doc(vec![page(3, vec![table("t1", "x")])]);
    let mut parent = section("第一章", (0, 5), (0, 0), "导言", &[]);
    parent.children = vec![section("一、", (1, 1), (1, 1), "子", &[])];
    let mut secs = vec![parent];
    inject_tables_into_sections(&mut secs, &d);
    assert_eq!(secs[0].body_text, "导言");
    assert_eq!(secs[0].children[0].body_text, "子");
}

#[test]
fn a_later_page_with_the_same_index_hides_an_earlier_one() {
    let d = doc(vec![page(1, vec![table("old", "旧")]), page(1, vec![table("new", "新")])]);
    let mut secs = vec![section("一、", (1, 1), (1, 1), "", &[])];
    inject_tables_into_sections(&mut secs, &d);
    assert_eq!(secs[0].body_text, "| 新 |\n| --- |");
    assert_eq!(secs[0].block_ids, vec!["new"]);
}

fn block(id: &str, text: &str) -> bid_review::document::RawBlock {
    bid_review::document::RawBlock {
        id: id.to_string(),
        block_type: bid_review::document::BlockType::Paragraph,
        text: text.to_string(),
    }
}

#[test]
fn unowned_blocks_become_sections_by_runs_of_pages() {
    let d = doc(vec![
        RawPage { page_index: 0, blocks: vec![block("b0", "封面"), block("b1", "正文一")], tables: vec![] },
        RawPage { page_index: 1, blocks: vec![block("b2", "附言")], tables: vec![] },
        RawPage { page_index: 3, blocks: vec![block("b3", "附件"), block("b4", "尾页")], tables: vec![] },
    ]);
    let owner = section("一、", (0, 0), (0, 0), "正文一", &["b1"]);
    let mut secs = vec![owner];
    secs[0].children = vec![section("（一）", (3, 3), (3, 3), "尾页", &["b4"])];
    let orphans = orphan_sections(&d, &secs);
    assert_eq!(orphans.len(), 2);
    assert_eq!(orphans[0].title, "未归类内容 (第1-2页)");
    assert_eq!(orphans[0].pattern, "orphan");
    assert_eq!(orphans[0].level, 0);
    assert_eq!(orphans[0].block_ids, vec!["b0", "b2"]);
    assert_eq!(orphans[0].body_text, "封面\n附言");
    assert_eq!((orphans[0].page_start, orphans[0].page_end), (0, 1));
    assert_eq!((orphans[0].body_page_start, orphans[0].body_page_end), (0, 1));
    assert_eq!(orphans[1].title, "未归类内容 (第4-4页)");
    assert_eq!(orphans[1].block_ids, vec!["b3"]);
    assert!(orphans[1].children.is_empty());
}

#[test]
fn a_fully_owned_document_has_no_orphan_sections() {
    let d = doc(vec![RawPage { page_index: 0, blocks: vec![block("b0", "x")], tables: vec![] }]);
    let secs = vec![section("一、", (0, 0), (0, 0), "x", &["b0"])];
    assert!(orphan_sections(&d, &secs).is_empty());
    assert!(orphan_sections(&doc(vec![]), &vec![]).is_empty());
}

#[test]
fn orphan_blocks_are_ordered_by_the_page_their_id_is_filed_under() {
    // a repeated id is filed under the last page that has it
    let d = doc(vec![
        RawPage { page_index: 5, blocks: vec![block("dup", "甲"), block("a", "乙")], tables: vec![] },
        RawPage { page_index: 2, blocks: vec![block("c", "丙")], tables: vec![] },
        RawPage { page_index: 6, blocks: vec![block("dup", "丁")], tables: vec![] },
    ]);
    let orphans = orphan_sections(&d, &vec![]);
    assert_eq!(orphans.len(), 2);
    assert_eq!(orphans[0].block_ids, vec!["c"]);
    assert_eq!(orphans[1].block_ids, vec!["a", "dup", "dup"]);
    assert_eq!(orphans[1].body_text, "乙\n甲\n丁");
    assert_eq!((orphans[1].page_start, orphans[1].page_end), (5, 6));
}
