//! The section tree of a bid document.
//!
//! Every heading candidate becomes a section. A section owns the blocks from
//! its heading's block up to the next heading of the same or a higher level,
//! and its children are the sections that follow it up to that heading.
use vstd::prelude::*;
use std::collections::HashMap;
use crate::body_text::{merge_truncated_title, merged_title, title_truncated, is_title_truncated};
use crate::candidates::{
    block_views, cand_view, cand_views, chain_filtered, filter_pseudo_section_candidates,
    filter_toc_page_candidates, flat_blocks, flatten_blocks, level_of, pseudo_filtered, scan,
    scan_candidates, toc_filtered, validate_numbering_chains, BlockView, CandView, FlatBlock,
    HeadingCandidate,
};
use crate::document::RawDocument;
use crate::headings::{has_sentence_end, has_sentence_end_exec, kind_name};
use crate::section_body::{
    assigned_after, block_ids_of, collect_blocks_between, collected, extract_section_body, id_set,
    max_page, last_page_of_blocks, next_boundary, section_body, boundary_from,
};
use crate::text::{copy_strings, chars_of, string_views};

verus! {

/// A section: its heading, the pages and blocks it covers, its body text
/// (without the heading line, stopping at the first sub-heading), and its
/// sub-sections.
#[derive(Debug)]
pub struct Section {
    /// Depth (1 = chapter, 2 = section, ...).
    pub level: u8,
    pub title: String,
    /// Name of the heading kind that matched.
    pub pattern: String,
    /// Page of the heading (0-based).
    pub page_start: usize,
    /// Last page of the blocks the section owns.
    pub page_end: usize,
    /// Ids of the blocks the section owns.
    pub block_ids: Vec<String>,
    /// Pages the body text came from.
    pub body_page_start: usize,
    pub body_page_end: usize,
    pub body_text: String,
    pub children: Vec<Section>,
}

/// Counts of the result.
#[derive(Debug)]
pub struct SectionizeStats {
    /// Sections in the whole tree.
    pub total_sections: usize,
    /// Sections per level.
    pub level_counts: HashMap<u8, usize>,
    /// Blocks that no section owns.
    pub orphan_blocks: usize,
}

/// The result of sectionizing a document.
#[derive(Debug)]
pub struct SectionizeOutput {
    pub document_id: String,
    pub source_path: String,
    pub sections: Vec<Section>,
    pub stats: SectionizeStats,
}

/// A section without its children, as values: level, title, pattern, first
/// page, last page, block ids, first and last body page, body text.
pub type NodeView = (u8, Seq<char>, Seq<char>, usize, usize, Seq<Seq<char>>, usize, usize, Seq<char>);

pub open spec fn section_node(s: Section) -> NodeView {
    (s.level, s.title@, s.pattern@, s.page_start, s.page_end, string_views(s.block_ids@), s.body_page_start, s.body_page_end, s.body_text@)
}

// ─── the node of each candidate ─────────────────────────────────

pub open spec fn boundary_title(cs: Seq<CandView>, i: int) -> Option<Seq<char>> {
    match next_boundary(cs, i) {
        Some(k) => Some(cs[k].1),
        None => None,
    }
}

pub open spec fn boundary_block(cs: Seq<CandView>, i: int) -> Option<Seq<char>> {
    match next_boundary(cs, i) {
        Some(k) => Some(cs[k].3),
        None => None,
    }
}

/// The blocks section `i` owns.
pub open spec fn node_ids(cs: Seq<CandView>, bv: Seq<BlockView>, i: int) -> Seq<Seq<char>> {
    collected(bv, cs[i].3, boundary_block(cs, i))
}

/// The title and body of section `i`, a wrapped title (level 3 and deeper)
/// repaired unless the repair would make it a sentence.
pub open spec fn title_and_body(cs: Seq<CandView>, bv: Seq<BlockView>, i: int) -> (Seq<char>, Seq<char>) {
    let body = section_body(cs[i], boundary_title(cs, i), bv, node_ids(cs, bv, i)).0;
    let t = cs[i].1;
    if level_of(cs[i]) >= 3 && title_truncated(t, body) {
        let m = merged_title(t, body);
        if has_sentence_end(m.0) { (t, body) } else { m }
    } else {
        (t, body)
    }
}

/// The section made from candidate `i`.
pub open spec fn node_of(cs: Seq<CandView>, bv: Seq<BlockView>, i: int) -> NodeView {
    let ids = node_ids(cs, bv, i);
    let b = section_body(cs[i], boundary_title(cs, i), bv, ids);
    let tb = title_and_body(cs, bv, i);
    let page_end = match max_page(bv, ids) {
        Some(p) => p,
        None => cs[i].2,
    };
    (level_of(cs[i]), tb.0, kind_name(cs[i].0), cs[i].2, page_end, ids, b.1, b.2, tb.1)
}

pub open spec fn nodes_of(cs: Seq<CandView>, bv: Seq<BlockView>) -> Seq<NodeView> {
    Seq::new(cs.len(), |i: int| node_of(cs, bv, i))
}

/// The set of owned block ids after the first `k` sections.
pub open spec fn assigned_upto(cs: Seq<CandView>, bv: Seq<BlockView>, k: int) -> Set<Seq<char>>
    decreases k,
{
    if k <= 0 {
        Set::<Seq<char>>::empty()
    } else {
        assigned_after(assigned_upto(cs, bv, k - 1), bv, cs[k - 1].3, boundary_block(cs, k - 1))
    }
}

// ─── the tree ───────────────────────────────────────────────────

/// End of the subtree rooted at `i` within `[.., hi)`: the first later
/// node, from `k` on, whose level is at most `i`'s.
pub open spec fn subtree_end_from(nodes: Seq<NodeView>, i: int, k: int, hi: int) -> int
    decreases hi - k,
{
    if k >= hi {
        hi
    } else if nodes[k].0 <= nodes[i].0 {
        k
    } else {
        subtree_end_from(nodes, i, k + 1, hi)
    }
}

pub open spec fn subtree_end(nodes: Seq<NodeView>, i: int, hi: int) -> int {
    subtree_end_from(nodes, i, i + 1, hi)
}

pub proof fn lemma_subtree_end_bounds(nodes: Seq<NodeView>, i: int, k: int, hi: int)
    requires
        i < k,
        k <= hi,
    ensures
        k <= subtree_end_from(nodes, i, k, hi) <= hi,
    decreases hi - k,
{
    if k < hi && !(nodes[k].0 <= nodes[i].0) {
        lemma_subtree_end_bounds(nodes, i, k + 1, hi);
    }
}

/// `secs` is the forest of the nodes in `[lo, hi)`: the first node is the
/// first root, the nodes up to the next one of the same or a higher level
/// are its subtree, and the rest form the following trees.
pub open spec fn forest_ok(secs: Seq<Section>, nodes: Seq<NodeView>, lo: int, hi: int) -> bool
    decreases hi - lo,
{
    if lo >= hi {
        secs.len() == 0
    } else {
        let e = subtree_end(nodes, lo, hi);
        proof {
            lemma_subtree_end_bounds(nodes, lo, lo + 1, hi);
        }
        &&& secs.len() > 0
        &&& section_node(secs[0]) == nodes[lo]
        &&& forest_ok(secs[0].children@, nodes, lo + 1, e)
        &&& forest_ok(secs.subrange(1, secs.len() as int), nodes, e, hi)
    }
}

fn copy_node(s: &Section, children: Vec<Section>) -> (r: Section)
    ensures
        section_node(r) == section_node(*s),
        r.children@ == children@,
{
    Section {
        level: s.level,
        title: s.title.clone(),
        pattern: s.pattern.clone(),
        page_start: s.page_start,
        page_end: s.page_end,
        block_ids: copy_strings(&s.block_ids),
        body_page_start: s.body_page_start,
        body_page_end: s.body_page_end,
        body_text: s.body_text.clone(),
        children,
    }
}

fn subtree_end_exec(flat: &Vec<Section>, i: usize, hi: usize) -> (r: usize)
    requires
        i < hi <= flat@.len(),
    ensures
        r == subtree_end(flat@.map_values(|s: Section| section_node(s)), i as int, hi as int),
        i < r <= hi,
{
    let ghost nodes = flat@.map_values(|s: Section| section_node(s));
    let mut k: usize = i + 1;
    while k < hi && flat[k].level > flat[i].level
        invariant
            i < k <= hi <= flat@.len(),
            nodes == flat@.map_values(|s: Section| section_node(s)),
            subtree_end(nodes, i as int, hi as int) == subtree_end_from(nodes, i as int, k as int, hi as int),
        decreases hi - k,
    {
        k = k + 1;
    }
    k
}

/// Builds the forest of the flat sections in `[lo, hi)`.
fn build_forest(flat: &Vec<Section>, lo: usize, hi: usize) -> (r: Vec<Section>)
    requires
        lo <= hi <= flat@.len(),
    ensures
        forest_ok(r@, flat@.map_values(|s: Section| section_node(s)), lo as int, hi as int),
    decreases hi - lo,
{
    let ghost nodes = flat@.map_values(|s: Section| section_node(s));
    if lo >= hi {
        return Vec::new();
    }
    let e = subtree_end_exec(flat, lo, hi);
    let children = build_forest(flat, lo + 1, e);
    let mut rest = build_forest(flat, e, hi);
    let first = copy_node(&flat[lo], children);
    let ghost rv = rest@;
    rest.insert(0, first);
    proof {
        assert(rest@.subrange(1, rest@.len() as int) =~= rv);
        assert(rest@[0] == first);
        assert(section_node(first) == nodes[lo as int]);
    }
    rest
}

fn find_next_boundary(cs: &Vec<HeadingCandidate>, i: usize) -> (r: Option<usize>)
    requires
        i < cs@.len(),
    ensures
        match r {
            Some(k) => next_boundary(cand_views(cs@), i as int) == Some(k as int) && i < k < cs@.len(),
            None => next_boundary(cand_views(cs@), i as int) is None,
        },
{
    let ghost cv = cand_views(cs@);
    let lv = cs[i].level();
    let n = cs.len();
    let mut k: usize = i + 1;
    while k < cs.len() && cs[k].level() > lv
        invariant
            i < k <= cs@.len(),
            cv == cand_views(cs@),
            lv == level_of(cv[i as int]),
            next_boundary(cv, i as int) == boundary_from(cv, i as int, k as int),
        decreases cs@.len() - k,
    {
        k = k + 1;
    }
    if k < cs.len() { Some(k) } else { None }
}

proof fn lemma_orphans_fit(assigned: Seq<String>, bv: Seq<BlockView>)
    requires
        string_views(assigned).no_duplicates(),
        id_set(assigned).subset_of(block_ids_of(bv).to_set()),
    ensures
        assigned.len() <= bv.len(),
        assigned.len() == id_set(assigned).len(),
{
    string_views(assigned).unique_seq_to_set();
    block_ids_of(bv).lemma_cardinality_of_set();
    vstd::set_lib::lemma_len_subset(id_set(assigned), block_ids_of(bv).to_set());
}

/// Builds the section tree of the candidates and counts the blocks that no
/// section owns.
pub fn build_section_tree(cs: &Vec<HeadingCandidate>, blocks: &Vec<FlatBlock>) -> (r: (Vec<Section>, usize))
    ensures
        forest_ok(r.0@, nodes_of(cand_views(cs@), block_views(blocks@)), 0, cs@.len() as int),
        r.1 == blocks@.len() - assigned_upto(cand_views(cs@), block_views(blocks@), cs@.len() as int).len(),
{
    let ghost cv = cand_views(cs@);
    let ghost bv = block_views(blocks@);
    let n = cs.len();
    if n == 0 {
        assert(assigned_upto(cv, bv, 0).len() == 0);
        return (Vec::new(), blocks.len());
    }
    let mut flat: Vec<Section> = Vec::new();
    let mut assigned: Vec<String> = Vec::new();
    assert(id_set(assigned@) =~= Set::<Seq<char>>::empty());
    let mut i: usize = 0;
    while i < n
        invariant
            i <= n,
            n == cs@.len(),
            cv == cand_views(cs@),
            bv == block_views(blocks@),
            flat@.len() == i,
            forall|k: int| 0 <= k < i ==> section_node(#[trigger] flat@[k]) == node_of(cv, bv, k),
            string_views(assigned@).no_duplicates(),
            id_set(assigned@).subset_of(block_ids_of(bv).to_set()),
            id_set(assigned@) == assigned_upto(cv, bv, i as int),
        decreases n - i,
    {
        let c = &cs[i];
        assert(cv[i as int] == cand_view(*c));
        let next = find_next_boundary(cs, i);
        let end: Option<&HeadingCandidate> = match next {
            Some(k) => Some(&cs[k]),
            None => None,
        };
        let next_title: Option<&String> = match next {
            Some(k) => Some(&cs[k].title),
            None => None,
        };
        proof {
            match next {
                Some(k) => {
                    assert(cv[k as int] == cand_view(cs@[k as int]));
                },
                None => {},
            }
        }
        let block_ids = collect_blocks_between(blocks, c, end, &mut assigned);
        let page_end = match last_page_of_blocks(blocks, &block_ids) {
            Some(p) => p,
            None => c.page,
        };
        let (body, bps, bpe) = extract_section_body(c, next_title, blocks, &block_ids);
        let tc = chars_of(c.title.as_str());
        let bc = chars_of(body.as_str());
        let (title, body_text) = if c.level() >= 3 && is_title_truncated(tc.as_slice(), bc.as_slice()) {
            let (mt, rb) = merge_truncated_title(c.title.as_str(), body.as_str());
            let mc = chars_of(mt.as_str());
            if has_sentence_end_exec(mc.as_slice()) {
                (c.title.clone(), body)
            } else {
                (mt, rb)
            }
        } else {
            (c.title.clone(), body)
        };
        let sec = Section {
            level: c.level(),
            title,
            pattern: String::from_str(c.kind.name()),
            page_start: c.page,
            page_end,
            block_ids,
            body_page_start: bps,
            body_page_end: bpe,
            body_text,
            children: Vec::new(),
        };
        assert(section_node(sec) == node_of(cv, bv, i as int));
        flat.push(sec);
        i = i + 1;
    }
    proof {
        lemma_orphans_fit(assigned@, bv);
        assert(flat@.map_values(|s: Section| section_node(s)) =~= nodes_of(cv, bv));
    }
    let roots = build_forest(&flat, 0, n);
    (roots, blocks.len() - assigned.len())
}

// ─── counting ───────────────────────────────────────────────────

/// Sections in a forest, children included.
pub open spec fn section_count(secs: Seq<Section>) -> nat
    decreases secs,
{
    if secs.len() == 0 {
        0
    } else {
        1 + section_count(secs[0].children@) + section_count(secs.subrange(1, secs.len() as int))
    }
}

/// Sections of level `lv` in a forest, children included.
pub open spec fn level_tally(secs: Seq<Section>, lv: u8) -> nat
    decreases secs,
{
    if secs.len() == 0 {
        0
    } else {
        (if secs[0].level == lv { 1nat } else { 0nat }) + level_tally(secs[0].children@, lv)
            + level_tally(secs.subrange(1, secs.len() as int), lv)
    }
}

/// Nodes of level `lv` in `[lo, hi)`.
pub open spec fn nodes_at_level(nodes: Seq<NodeView>, lv: u8, lo: int, hi: int) -> nat
    decreases hi - lo,
{
    if lo >= hi {
        0
    } else {
        (if nodes[lo].0 == lv { 1nat } else { 0nat }) + nodes_at_level(nodes, lv, lo + 1, hi)
    }
}

proof fn lemma_nodes_at_level_split(nodes: Seq<NodeView>, lv: u8, a: int, b: int, c: int)
    requires
        a <= b <= c,
    ensures
        nodes_at_level(nodes, lv, a, c) == nodes_at_level(nodes, lv, a, b) + nodes_at_level(nodes, lv, b, c),
    decreases b - a,
{
    if a < b {
        lemma_nodes_at_level_split(nodes, lv, a + 1, b, c);
    }
}

/// A forest built from `[lo, hi)` holds each of those nodes once.
pub proof fn lemma_forest_counts(secs: Seq<Section>, nodes: Seq<NodeView>, lo: int, hi: int)
    requires
        lo <= hi,
        forest_ok(secs, nodes, lo, hi),
    ensures
        section_count(secs) == hi - lo,
        forall|lv: u8| #[trigger] level_tally(secs, lv) == nodes_at_level(nodes, lv, lo, hi),
    decreases hi - lo,
{
    if lo < hi {
        let e = subtree_end(nodes, lo, hi);
        lemma_subtree_end_bounds(nodes, lo, lo + 1, hi);
        let rest = secs.subrange(1, secs.len() as int);
        lemma_forest_counts(secs[0].children@, nodes, lo + 1, e);
        lemma_forest_counts(rest, nodes, e, hi);
        assert(section_node(secs[0]) == nodes[lo]);
        assert forall|lv: u8| #[trigger] level_tally(secs, lv) == nodes_at_level(nodes, lv, lo, hi) by {
            lemma_nodes_at_level_split(nodes, lv, lo + 1, e, hi);
            assert(level_tally(secs[0].children@, lv) == nodes_at_level(nodes, lv, lo + 1, e));
            assert(level_tally(rest, lv) == nodes_at_level(nodes, lv, e, hi));
            assert(secs[0].level == nodes[lo].0);
        }
    }
}

proof fn lemma_count_suffix(secs: Seq<Section>, i: int)
    requires
        0 <= i <= secs.len(),
    ensures
        section_count(secs.subrange(i, secs.len() as int)) <= section_count(secs),
        forall|lv: u8| #[trigger] level_tally(secs.subrange(i, secs.len() as int), lv) <= level_tally(secs, lv),
    decreases i,
{
    if i == 0 {
        assert(secs.subrange(0, secs.len() as int) =~= secs);
    } else {
        lemma_count_suffix(secs, i - 1);
        let a = secs.subrange(i - 1, secs.len() as int);
        assert(a.subrange(1, a.len() as int) =~= secs.subrange(i, secs.len() as int));
        assert forall|lv: u8| #[trigger] level_tally(secs.subrange(i, secs.len() as int), lv) <= level_tally(secs, lv) by {
            assert(level_tally(a, lv) <= level_tally(secs, lv));
        }
    }
}

proof fn lemma_tally_le_count(secs: Seq<Section>, lv: u8)
    ensures
        level_tally(secs, lv) <= section_count(secs),
    decreases secs,
{
    if secs.len() > 0 {
        lemma_tally_le_count(secs[0].children@, lv);
        lemma_tally_le_count(secs.subrange(1, secs.len() as int), lv);
    }
}

/// Counts the sections of a forest, children included.
pub fn count_sections(sections: &Vec<Section>) -> (r: usize)
    requires
        section_count(sections@) <= usize::MAX,
    ensures
        r == section_count(sections@),
    decreases sections@,
{
    let n = sections.len();
    let mut total: usize = 0;
    let mut i: usize = n;
    assert(sections@.subrange(n as int, n as int) =~= Seq::<Section>::empty());
    while i > 0
        invariant
            i <= n,
            n == sections@.len(),
            section_count(sections@) <= usize::MAX,
            total == section_count(sections@.subrange(i as int, n as int)),
        decreases i,
    {
        i = i - 1;
        let ghost a = sections@.subrange(i as int, n as int);
        proof {
            assert(a.subrange(1, a.len() as int) =~= sections@.subrange(i as int + 1, n as int));
            assert(a[0] == sections@[i as int]);
            lemma_count_suffix(sections@, i as int);
        }
        let c = count_sections(&sections[i].children);
        total = total + c + 1;
    }
    assert(sections@.subrange(0, n as int) =~= sections@);
    total
}

/// The count held for a level before counting (0 when absent).
pub open spec fn held(m: Map<u8, usize>, lv: u8) -> int {
    if m.contains_key(lv) { m[lv] as int } else { 0 }
}

/// Adds the sections of a forest to the per-level counts.
pub fn count_levels(sections: &Vec<Section>, counts: &mut HashMap<u8, usize>)
    requires
        forall|lv: u8| #[trigger] held(old(counts)@, lv) + section_count(sections@) <= usize::MAX,
    ensures
        forall|lv: u8| #[trigger] final(counts)@.contains_key(lv) <==> (old(counts)@.contains_key(lv) || level_tally(sections@, lv) > 0),
        forall|lv: u8| #[trigger] held(final(counts)@, lv) == held(old(counts)@, lv) + level_tally(sections@, lv),
    decreases sections@,
{
    broadcast use vstd::std_specs::hash::group_hash_axioms;
    let n = sections.len();
    let ghost start = counts@;
    let mut i: usize = n;
    assert(sections@.subrange(n as int, n as int) =~= Seq::<Section>::empty());
    while i > 0
        invariant
            i <= n,
            n == sections@.len(),
            forall|lv: u8| #[trigger] held(start, lv) + section_count(sections@) <= usize::MAX,
            forall|lv: u8| #[trigger] counts@.contains_key(lv) <==> (start.contains_key(lv) || level_tally(sections@.subrange(i as int, n as int), lv) > 0),
            forall|lv: u8| #[trigger] held(counts@, lv) == held(start, lv) + level_tally(sections@.subrange(i as int, n as int), lv),
        decreases i,
    {
        i = i - 1;
        let ghost a = sections@.subrange(i as int, n as int);
        let ghost b = sections@.subrange(i as int + 1, n as int);
        let ghost before = counts@;
        proof {
            assert(a.subrange(1, a.len() as int) =~= b);
            assert(a[0] == sections@[i as int]);
            lemma_count_suffix(sections@, i as int);
        }
        let sec = &sections[i];
        let lv = sec.level;
        proof {
            lemma_tally_le_count(b, lv);
            assert(held(before, lv) == held(start, lv) + level_tally(b, lv));
            assert(held(start, lv) + section_count(sections@) <= usize::MAX);
        }
        let cur: usize = match counts.get(&lv) {
            Some(v) => *v,
            None => 0,
        };
        assert(cur == held(before, lv));
        counts.insert(lv, cur + 1);
        proof {
            assert forall|x: u8| #[trigger] held(counts@, x) + section_count(sec.children@) <= usize::MAX by {
                lemma_tally_le_count(b, x);
                assert(held(before, x) == held(start, x) + level_tally(b, x));
                assert(held(start, x) + section_count(sections@) <= usize::MAX);
            }
        }
        let ghost mid = counts@;
        count_levels(&sec.children, counts);
        proof {
            assert forall|x: u8| #[trigger] held(counts@, x) == held(start, x) + level_tally(a, x) by {
                assert(held(before, x) == held(start, x) + level_tally(b, x));
                assert(held(mid, x) == held(before, x) + if x == lv { 1int } else { 0int });
            }
            assert forall|x: u8| #[trigger] counts@.contains_key(x) <==> (start.contains_key(x) || level_tally(a, x) > 0) by {
                assert(before.contains_key(x) <==> (start.contains_key(x) || level_tally(b, x) > 0));
                assert(mid.contains_key(x) <==> (before.contains_key(x) || x == lv));
            }
        }
    }
    assert(sections@.subrange(0, n as int) =~= sections@);
}

// ─── the whole pipeline ─────────────────────────────────────────

/// The candidates that survive the three filters, in reading order.
pub open spec fn accepted_candidates(bv: Seq<BlockView>) -> Seq<CandView> {
    toc_filtered(chain_filtered(pseudo_filtered(scan(bv))), bv)
}

/// Builds the section tree of a document: scans every line of every block
/// for headings, drops list items before the first chapter, unchained
/// numbering and table-of-contents entries, then nests the sections by level.
/// The counts are those of the tree: every section at every depth, and how
/// many there are of each level.
pub fn sectionize(raw: &RawDocument) -> (r: SectionizeOutput)
    ensures
        r.document_id@ == raw.document_id@,
        r.source_path@ == raw.source_path@,
        ({
            let bv = flat_blocks(raw.pages@);
            let cs = accepted_candidates(bv);
            let nodes = nodes_of(cs, bv);
            &&& forest_ok(r.sections@, nodes, 0, cs.len() as int)
            &&& r.stats.total_sections == cs.len()
            &&& r.stats.orphan_blocks == bv.len() - assigned_upto(cs, bv, cs.len() as int).len()
            &&& forall|lv: u8| #[trigger] r.stats.level_counts@.contains_key(lv) <==> nodes_at_level(nodes, lv, 0, cs.len() as int) > 0
            &&& forall|lv: u8| #[trigger] held(r.stats.level_counts@, lv) == nodes_at_level(nodes, lv, 0, cs.len() as int)
        }),
        r.stats.total_sections == section_count(r.sections@),
        forall|lv: u8| #[trigger] held(r.stats.level_counts@, lv) == level_tally(r.sections@, lv),
{
    broadcast use vstd::std_specs::hash::group_hash_axioms;
    let blocks = flatten_blocks(raw);
    let ghost bv = block_views(blocks@);
    let candidates = scan_candidates(&blocks);
    let candidates = filter_pseudo_section_candidates(candidates);
    let candidates = validate_numbering_chains(candidates);
    let candidates = filter_toc_page_candidates(candidates, &blocks);
    let ghost cs = cand_views(candidates@);
    assert(cs == accepted_candidates(bv));
    let (sections, orphan_blocks) = build_section_tree(&candidates, &blocks);
    let ghost nodes = nodes_of(cs, bv);
    proof {
        lemma_forest_counts(sections@, nodes, 0, cs.len() as int);
    }
    let total_sections = count_sections(&sections);
    let mut level_counts: HashMap<u8, usize> = HashMap::new();
    proof {
        assert forall|lv: u8| #[trigger] held(level_counts@, lv) + section_count(sections@) <= usize::MAX by {
            assert(!level_counts@.contains_key(lv));
        }
    }
    count_levels(&sections, &mut level_counts);
    proof {
        assert forall|lv: u8| #[trigger] level_counts@.contains_key(lv) <==> nodes_at_level(nodes, lv, 0, cs.len() as int) > 0 by {
            assert(level_tally(sections@, lv) == nodes_at_level(nodes, lv, 0, cs.len() as int));
        }
        assert forall|lv: u8| #[trigger] held(level_counts@, lv) == nodes_at_level(nodes, lv, 0, cs.len() as int) by {
            assert(level_tally(sections@, lv) == nodes_at_level(nodes, lv, 0, cs.len() as int));
        }
    }
    SectionizeOutput {
        document_id: raw.document_id.clone(),
        source_path: raw.source_path.clone(),
        sections,
        stats: SectionizeStats { total_sections, level_counts, orphan_blocks },
    }
}

} // verus!
