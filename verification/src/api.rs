//! Request and response records of the HTTP API, and the block ids a
//! section tree covers.
use vstd::prelude::*;
use crate::sectionize::Section;
use crate::text::string_views;

verus! {

/// Body of a review request.
#[derive(Debug, Clone)]
pub struct ReviewRequest {
    pub chunk_ids: Vec<String>,
    pub max_clauses: Option<usize>,
    pub enabled_agents: Option<Vec<String>>,
}

/// Text the user selected in the PDF viewer.
#[derive(Debug, Clone)]
pub struct TextSelection {
    pub text: String,
    /// Ids of the blocks the selection covers.
    pub block_ids: Vec<String>,
    /// 0-based page of the selection.
    pub page: usize,
}

/// Body of a chat request.
#[derive(Debug, Clone)]
pub struct ChatRequest {
    pub user_input: String,
    pub selection: Option<TextSelection>,
    pub history: Option<Vec<ChatMessageDto>>,
    pub max_turns: Option<usize>,
}

/// One message of a chat history.
#[derive(Debug, Clone)]
pub struct ChatMessageDto {
    pub role: String,
    pub content: Option<String>,
    pub tool_call_id: Option<String>,
}

/// Body of a document search request.
#[derive(Debug, Clone)]
pub struct SearchRequest {
    pub queries: Vec<String>,
    pub top_k: Option<usize>,
}

/// Summary of a processed document.
#[derive(Debug, Clone)]
pub struct DocumentInfo {
    pub document_id: String,
    pub filename: String,
    pub total_pages: usize,
    pub total_chunks: usize,
    pub vector_count: usize,
}

/// Answer to a review request that was started.
#[derive(Debug, Clone)]
pub struct ReviewAccepted {
    pub status: String,
    pub document_id: String,
    pub message: String,
}

/// An error answer.
#[derive(Debug, Clone)]
pub struct ErrorResponse {
    pub error: String,
    pub detail: String,
}

/// Query of the block-box endpoint: comma-separated block ids.
#[derive(Debug, Clone)]
pub struct BlockQuery {
    pub ids: String,
}

/// The block ids of a forest of sections in preorder: each section's own
/// ids, then those of its children.
pub open spec fn forest_block_ids(secs: Seq<Section>) -> Seq<Seq<char>>
    decreases secs,
{
    if secs.len() == 0 {
        Seq::<Seq<char>>::empty()
    } else {
        string_views(secs[0].block_ids@) + forest_block_ids(secs[0].children@)
            + forest_block_ids(secs.subrange(1, secs.len() as int))
    }
}

pub(crate) fn push_ids(out: &mut Vec<String>, secs: &Vec<Section>)
    ensures
        string_views(final(out)@) == string_views(old(out)@) + forest_block_ids(secs@),
    decreases secs@,
{
    let n = secs.len();
    let ghost start = string_views(out@);
    let mut i: usize = 0;
    assert(secs@.subrange(0, n as int) =~= secs@);
    assert(start + forest_block_ids(secs@) == string_views(out@) + forest_block_ids(secs@.subrange(0, n as int)));
    while i < n
        invariant
            i <= n,
            n == secs@.len(),
            string_views(out@) + forest_block_ids(secs@.subrange(i as int, n as int)) == start + forest_block_ids(secs@),
        decreases n - i,
    {
        let s = &secs[i];
        let ghost tail = forest_block_ids(secs@.subrange(i as int + 1, n as int));
        let ghost kids = forest_block_ids(s.children@);
        let ghost before = string_views(out@);
        let mut k: usize = 0;
        while k < s.block_ids.len()
            invariant
                k <= s.block_ids@.len(),
                string_views(out@) == before + string_views(s.block_ids@).subrange(0, k as int),
            decreases s.block_ids@.len() - k,
        {
            let ghost b = string_views(out@);
            out.push(s.block_ids[k].clone());
            assert(string_views(out@) =~= b.push(s.block_ids@[k as int]@));
            assert(string_views(s.block_ids@).subrange(0, k as int + 1) =~= string_views(s.block_ids@).subrange(0, k as int).push(s.block_ids@[k as int]@));
            k = k + 1;
        }
        assert(string_views(s.block_ids@).subrange(0, s.block_ids@.len() as int) =~= string_views(s.block_ids@));
        push_ids(out, &s.children);
        proof {
            let a = secs@.subrange(i as int, n as int);
            assert(a[0] == *s);
            assert(a.subrange(1, a.len() as int) =~= secs@.subrange(i as int + 1, n as int));
            assert(forest_block_ids(secs@.subrange(i as int, n as int)) == string_views(s.block_ids@) + kids + tail);
            assert(string_views(out@) + tail =~= before + (string_views(s.block_ids@) + kids + tail));
        }
        i = i + 1;
    }
    assert(secs@.subrange(n as int, n as int) =~= Seq::<Section>::empty());
    assert(string_views(out@) + Seq::<Seq<char>>::empty() =~= string_views(out@));
}

/// All block ids of a section and its descendants, in preorder.
pub fn collect_all_block_ids(section: &Section) -> (r: Vec<String>)
    ensures
        string_views(r@) == string_views(section.block_ids@) + forest_block_ids(section.children@),
{
    let mut out: Vec<String> = Vec::new();
    let mut k: usize = 0;
    while k < section.block_ids.len()
        invariant
            k <= section.block_ids@.len(),
            string_views(out@) == string_views(section.block_ids@).subrange(0, k as int),
        decreases section.block_ids@.len() - k,
    {
        let ghost b = string_views(out@);
        out.push(section.block_ids[k].clone());
        assert(string_views(out@) =~= b.push(section.block_ids@[k as int]@));
        assert(string_views(section.block_ids@).subrange(0, k as int + 1) =~= string_views(section.block_ids@).subrange(0, k as int).push(section.block_ids@[k as int]@));
        k = k + 1;
    }
    assert(string_views(section.block_ids@).subrange(0, section.block_ids@.len() as int) =~= string_views(section.block_ids@));
    push_ids(&mut out, &section.children);
    out
}

} // verus!
