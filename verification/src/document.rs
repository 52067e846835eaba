//! The extracted form of a bid document: pages of text blocks and tables.
use vstd::prelude::*;

verus! {

/// What the extractor took a block to be.
#[derive(Debug, Clone, Copy, PartialEq, Eq, Structural)]
pub enum BlockType {
    Heading,
    Paragraph,
}

/// A block of text on a page, with a document-unique id.
#[derive(Debug)]
pub struct RawBlock {
    pub id: String,
    pub block_type: BlockType,
    pub text: String,
}

/// A table: rows of cells, `None` for an empty or merged cell.
#[derive(Debug)]
pub struct RawTable {
    pub id: String,
    pub rows: Vec<Vec<Option<String>>>,
}

/// One page: its 0-based index, its blocks in reading order, its tables.
#[derive(Debug)]
pub struct RawPage {
    pub page_index: usize,
    pub blocks: Vec<RawBlock>,
    pub tables: Vec<RawTable>,
}

/// A whole extracted document.
#[derive(Debug)]
pub struct RawDocument {
    pub document_id: String,
    pub source_path: String,
    pub pages: Vec<RawPage>,
}

} // verus!
