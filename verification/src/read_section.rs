//! The `read_section` tool: a chunk's full text by id, with a short view of
//! the chunks before and after it in document order.
use vstd::prelude::*;
use crate::legal_verify::{head500, head500_exec};
use crate::text::{chars_of, copy_strings, eq_str, extend_str, string_of, string_views};

verus! {

/// A chunk of the document that the review agents read.
#[derive(Debug, Clone)]
pub struct Chunk {
    pub chunk_id: String,
    /// Titles of the enclosing sections, outermost first.
    pub section_path: Vec<String>,
    pub text: String,
    pub page_start: usize,
    pub page_end: usize,
    /// The blocks the chunk was made from, for highlighting in the PDF.
    pub source_block_ids: Vec<String>,
}

/// A neighbouring chunk: id, path, the first 200 characters, pages.
#[derive(Debug)]
pub struct NeighborChunk {
    pub chunk_id: String,
    pub section_path: Vec<String>,
    pub text_snippet: String,
    pub page_start: usize,
    pub page_end: usize,
}

/// A chunk as read, with its neighbours.
#[derive(Debug)]
pub struct SectionDetail {
    pub chunk_id: String,
    pub section_path: Vec<String>,
    pub text: String,
    pub page_start: usize,
    pub page_end: usize,
    /// Characters in the text.
    pub char_count: usize,
    pub prev_chunk: Option<NeighborChunk>,
    pub next_chunk: Option<NeighborChunk>,
}

/// The tool: the chunks, and their ids in document order.
pub struct ReadSectionTool {
    pub chunks: Vec<Chunk>,
    pub chunk_order: Vec<String>,
}

/// The chunk stored under an id: the last one with that id (later chunks
/// replace earlier ones, as in a map filled in order).
pub open spec fn chunk_index(chunks: Seq<Chunk>, id: Seq<char>, k: int) -> Option<int>
    decreases k,
{
    if k <= 0 {
        None
    } else if chunks[k - 1].chunk_id@ == id {
        Some(k - 1)
    } else {
        chunk_index(chunks, id, k - 1)
    }
}

pub open spec fn lookup_chunk(chunks: Seq<Chunk>, id: Seq<char>) -> Option<Chunk> {
    match chunk_index(chunks, id, chunks.len() as int) {
        Some(i) => Some(chunks[i]),
        None => None,
    }
}

/// First position of an id in the document order.
pub open spec fn order_pos(order: Seq<Seq<char>>, id: Seq<char>, k: int) -> Option<int>
    decreases order.len() - k,
{
    if k < 0 || k >= order.len() {
        None
    } else if order[k] == id {
        Some(k)
    } else {
        order_pos(order, id, k + 1)
    }
}

/// The neighbour view of a chunk.
pub open spec fn neighbor_of(c: Chunk, n: NeighborChunk) -> bool {
    &&& n.chunk_id@ == c.chunk_id@
    &&& string_views(n.section_path@) == string_views(c.section_path@)
    &&& n.text_snippet@ == c.text@.take(if c.text@.len() < 200 { c.text@.len() as int } else { 200 })
    &&& n.page_start == c.page_start
    &&& n.page_end == c.page_end
}

pub open spec fn neighbor_matches(chunks: Seq<Chunk>, id: Option<Seq<char>>, n: Option<NeighborChunk>) -> bool {
    match id {
        None => n is None,
        Some(x) => match lookup_chunk(chunks, x) {
            None => n is None,
            Some(c) => n is Some && neighbor_of(c, n.unwrap()),
        },
    }
}

/// The id before / after `id` in document order.
pub open spec fn order_neighbor(order: Seq<Seq<char>>, id: Seq<char>, delta: int) -> Option<Seq<char>> {
    match order_pos(order, id, 0) {
        Some(p) => if 0 <= p + delta < order.len() { Some(order[p + delta]) } else { None },
        None => None,
    }
}

pub open spec fn not_found_message(id: Seq<char>) -> Seq<char> {
    "chunk_id 不存在: "@ + id
}

/// What reading `id` gives: the chunk stored under it, its character count,
/// and its neighbours in document order.
pub open spec fn detail_of(chunks: Seq<Chunk>, order: Seq<Seq<char>>, id: Seq<char>, d: SectionDetail) -> bool {
    let c = lookup_chunk(chunks, id).unwrap();
    &&& d.chunk_id@ == c.chunk_id@
    &&& string_views(d.section_path@) == string_views(c.section_path@)
    &&& d.text@ == c.text@
    &&& d.page_start == c.page_start
    &&& d.page_end == c.page_end
    &&& d.char_count == c.text@.len()
    &&& neighbor_matches(chunks, order_neighbor(order, id, -1), d.prev_chunk)
    &&& neighbor_matches(chunks, order_neighbor(order, id, 1), d.next_chunk)
}

/// The chunk stored under an id has that id.
proof fn lemma_index_has_id(chunks: Seq<Chunk>, id: Seq<char>, k: int)
    requires
        k <= chunks.len(),
    ensures
        chunk_index(chunks, id, k) matches Some(i) ==> 0 <= i < k && chunks[i].chunk_id@ == id,
    decreases k,
{
    if k > 0 {
        lemma_index_has_id(chunks, id, k - 1);
    }
}

/// A neighbour view of a chunk: the first 200 characters of its text.
pub fn neighbor_from_chunk(chunk: &Chunk) -> (r: NeighborChunk)
    ensures
        neighbor_of(*chunk, r),
{
    let tc = chars_of(chunk.text.as_str());
    let take: usize = if tc.len() < 200 { tc.len() } else { 200 };
    let mut snip: Vec<char> = Vec::new();
    let mut i: usize = 0;
    while i < take
        invariant
            i <= take <= tc@.len(),
            snip@ =~= tc@.take(i as int),
        decreases take - i,
    {
        snip.push(tc[i]);
        i = i + 1;
    }
    NeighborChunk {
        chunk_id: chunk.chunk_id.clone(),
        section_path: copy_strings(&chunk.section_path),
        text_snippet: string_of(snip.as_slice()),
        page_start: chunk.page_start,
        page_end: chunk.page_end,
    }
}

/// Where the chunk stored under an id is: the last chunk with that id.
pub(crate) fn chunk_position(chunks: &Vec<Chunk>, id: &str) -> (r: Option<usize>)
    ensures
        match r {
            Some(i) => chunk_index(chunks@, id@, chunks@.len() as int) == Some(i as int) && i < chunks@.len(),
            None => chunk_index(chunks@, id@, chunks@.len() as int) is None,
        },
{
    let mut k: usize = chunks.len();
    while k > 0
        invariant
            k <= chunks@.len(),
            chunk_index(chunks@, id@, chunks@.len() as int) == chunk_index(chunks@, id@, k as int),
        decreases k,
    {
        let c = chars_of(chunks[k - 1].chunk_id.as_str());
        if eq_str(c.as_slice(), id) {
            return Some(k - 1);
        }
        k = k - 1;
    }
    None
}

impl ReadSectionTool {
    pub fn new(chunks: Vec<Chunk>, chunk_order: Vec<String>) -> (r: Self)
        ensures
            r.chunks@ == chunks@,
            r.chunk_order@ == chunk_order@,
    {
        ReadSectionTool { chunks, chunk_order }
    }

    /// The tool's name.
    pub fn name(&self) -> (r: &'static str)
        ensures
            r@ == "read_section"@,
    {
        "read_section"
    }

    fn find(&self, id: &str) -> (r: Option<usize>)
        ensures
            match r {
                Some(i) => chunk_index(self.chunks@, id@, self.chunks@.len() as int) == Some(i as int) && i < self.chunks@.len(),
                None => chunk_index(self.chunks@, id@, self.chunks@.len() as int) is None,
            },
    {
        chunk_position(&self.chunks, id)
    }

    fn neighbor_at(&self, id: &String) -> (r: Option<NeighborChunk>)
        ensures
            neighbor_matches(self.chunks@, Some(id@), r),
    {
        match self.find(id.as_str()) {
            Some(i) => Some(neighbor_from_chunk(&self.chunks[i])),
            None => None,
        }
    }

    /// Reads one chunk with its neighbours; fails when no chunk has the id.
    pub fn read_one(&self, chunk_id: &str) -> (r: Result<SectionDetail, String>)
        ensures
            r is Err <==> lookup_chunk(self.chunks@, chunk_id@) is None,
            r matches Err(e) ==> e@ == not_found_message(chunk_id@),
            r matches Ok(d) ==> detail_of(self.chunks@, string_views(self.chunk_order@), chunk_id@, d),
    {
        let idx = match self.find(chunk_id) {
            Some(i) => i,
            None => {
                let mut m: Vec<char> = Vec::new();
                extend_str(&mut m, "chunk_id 不存在: ");
                extend_str(&mut m, chunk_id);
                return Err(string_of(m.as_slice()));
            },
        };
        let chunk = &self.chunks[idx];
        let ghost order = string_views(self.chunk_order@);
        let n = self.chunk_order.len();
        let mut p: usize = 0;
        while p < n && !eq_str(chars_of(self.chunk_order[p].as_str()).as_slice(), chunk_id)
            invariant
                p <= n,
                n == self.chunk_order@.len(),
                order == string_views(self.chunk_order@),
                order_pos(order, chunk_id@, 0) == order_pos(order, chunk_id@, p as int),
            decreases n - p,
        {
            p = p + 1;
        }
        let (prev_chunk, next_chunk) = if p < n {
            assert(order[p as int] == chunk_id@);
            assert(order_pos(order, chunk_id@, 0) == Some(p as int));
            let prev = if p > 0 { self.neighbor_at(&self.chunk_order[p - 1]) } else { None };
            let next = if p + 1 < n { self.neighbor_at(&self.chunk_order[p + 1]) } else { None };
            (prev, next)
        } else {
            (None, None)
        };
        let tc = chars_of(chunk.text.as_str());
        Ok(SectionDetail {
            chunk_id: chunk.chunk_id.clone(),
            section_path: copy_strings(&chunk.section_path),
            text: chunk.text.clone(),
            page_start: chunk.page_start,
            page_end: chunk.page_end,
            char_count: tc.len(),
            prev_chunk,
            next_chunk,
        })
    }

    /// Reads several chunks; each failure is reported as `"{id}: {error}"`.
    pub fn read_many(&self, ids: &Vec<String>) -> (r: (Vec<SectionDetail>, Vec<String>))
        ensures
            string_views(r.1@) == read_errors(self.chunks@, string_views(ids@)),
            r.0@.map_values(|d: SectionDetail| d.chunk_id@) == read_ids(self.chunks@, string_views(ids@)),
            forall|k: int| 0 <= k < r.0@.len() ==> detail_of(self.chunks@, string_views(self.chunk_order@),
                read_ids(self.chunks@, string_views(ids@))[k], #[trigger] r.0@[k]),
    {
        let ghost iv = string_views(ids@);
        let mut found: Vec<SectionDetail> = Vec::new();
        let mut errors: Vec<String> = Vec::new();
        let mut i: usize = 0;
        while i < ids.len()
            invariant
                i <= ids@.len(),
                iv == string_views(ids@),
                string_views(errors@) == read_errors(self.chunks@, iv.subrange(0, i as int)),
                found@.map_values(|d: SectionDetail| d.chunk_id@) == read_ids(self.chunks@, iv.subrange(0, i as int)),
                forall|k: int| 0 <= k < found@.len() ==> detail_of(self.chunks@, string_views(self.chunk_order@),
                    read_ids(self.chunks@, iv.subrange(0, i as int))[k], #[trigger] found@[k]),
            decreases ids@.len() - i,
        {
            proof {
                let nxt = iv.subrange(0, i as int + 1);
                assert(nxt.drop_last() =~= iv.subrange(0, i as int));
                assert(nxt.last() == ids@[i as int]@);
            }
            match self.read_one(ids[i].as_str()) {
                Ok(d) => {
                    proof {
                        lemma_index_has_id(self.chunks@, ids@[i as int]@, self.chunks@.len() as int);
                    }
                    let ghost before = found@.map_values(|d: SectionDetail| d.chunk_id@);
                    found.push(d);
                    assert(found@.map_values(|d: SectionDetail| d.chunk_id@) =~= before.push(d.chunk_id@));
                },
                Err(e) => {
                    let mut m: Vec<char> = chars_of(ids[i].as_str());
                    extend_str(&mut m, ": ");
                    extend_str(&mut m, e.as_str());
                    let s = string_of(m.as_slice());
                    let ghost before = string_views(errors@);
                    errors.push(s);
                    assert(string_views(errors@) =~= before.push(s@));
                },
            }
            i = i + 1;
        }
        assert(iv.subrange(0, iv.len() as int) =~= iv);
        (found, errors)
    }
}

/// The failure lines of a batch read, in order.
pub open spec fn read_errors(chunks: Seq<Chunk>, ids: Seq<Seq<char>>) -> Seq<Seq<char>>
    decreases ids.len(),
{
    if ids.len() == 0 {
        Seq::<Seq<char>>::empty()
    } else {
        let p = read_errors(chunks, ids.drop_last());
        let id = ids.last();
        if lookup_chunk(chunks, id) is None { p.push(id + ": "@ + not_found_message(id)) } else { p }
    }
}

/// The ids of the chunks read by a batch read, in order.
pub open spec fn read_ids(chunks: Seq<Chunk>, ids: Seq<Seq<char>>) -> Seq<Seq<char>>
    decreases ids.len(),
{
    if ids.len() == 0 {
        Seq::<Seq<char>>::empty()
    } else {
        let p = read_ids(chunks, ids.drop_last());
        match lookup_chunk(chunks, ids.last()) {
            Some(c) => p.push(c.chunk_id@),
            None => p,
        }
    }
}


// ─── where a finding points ─────────────────────────────────────

/// Where a finding is in the document: taken from the chunk of its first
/// clause.
#[derive(Debug, Clone)]
pub struct FindingLocation {
    pub page_number: usize,
    pub section_path: Vec<String>,
    /// The first 500 characters of the chunk text.
    pub context: String,
    /// The blocks to highlight.
    pub block_ids: Vec<String>,
}

proof fn lemma_index_none(chunks: Seq<Chunk>, id: Seq<char>, n: int)
    requires
        0 <= n <= chunks.len(),
    ensures
        chunk_index(chunks, id, n) is None <==> forall|k: int| 0 <= k < n ==> #[trigger] chunks[k].chunk_id@ != id,
    decreases n,
{
    if n > 0 {
        lemma_index_none(chunks, id, n - 1);
    }
}

/// The location of a finding with these clause ids: from the chunk stored
/// under the first id (the last chunk with that id), its page, section
/// path, first 500 characters and source blocks; none without clauses or
/// without such a chunk.
pub fn locate_finding(clause_ids: &Vec<String>, chunks: &Vec<Chunk>) -> (r: Option<FindingLocation>)
    ensures
        r is None <==> (clause_ids@.len() == 0
            || forall|k: int| 0 <= k < chunks@.len() ==> #[trigger] chunks@[k].chunk_id@ != clause_ids@[0]@),
        r is None <==> (clause_ids@.len() == 0 || lookup_chunk(chunks@, clause_ids@[0]@) is None),
        r matches Some(l) ==> {
            let c = lookup_chunk(chunks@, clause_ids@[0]@).unwrap();
            &&& l.page_number == c.page_start
            &&& string_views(l.section_path@) == string_views(c.section_path@)
            &&& l.context@ == head500(c.text@)
            &&& string_views(l.block_ids@) == string_views(c.source_block_ids@)
        },
{
    if clause_ids.len() == 0 {
        return None;
    }
    proof {
        lemma_index_none(chunks@, clause_ids@[0]@, chunks@.len() as int);
    }
    match chunk_position(chunks, clause_ids[0].as_str()) {
        None => None,
        Some(i) => {
            let c = &chunks[i];
            let ctx = head500_exec(c.text.as_str());
            Some(FindingLocation {
                page_number: c.page_start,
                section_path: copy_strings(&c.section_path),
                context: string_of(ctx.as_slice()),
                block_ids: copy_strings(&c.source_block_ids),
            })
        },
    }
}

} // verus!
