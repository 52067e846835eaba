//! Puts the tables of a document into the body text of the sections whose
//! pages hold them, each table into one section only.
use vstd::prelude::*;
use crate::document::{RawDocument, RawPage, RawTable};
use crate::sectionize::Section;
use crate::tables::{format_table_as_markdown, markdown, rows_view};
use crate::text::{chars_of, contains_string, extend_chars, join, join_chars, string_of, string_views, views};

verus! {

// ─── sizes ──────────────────────────────────────────────────────

/// How many sections a tree holds, counted at every depth.
pub open spec fn tree_size(s: Section) -> nat
    decreases s,
{
    1 + forest_size(s.children@)
}

/// How many sections a forest holds, counted at every depth.
pub open spec fn forest_size(ss: Seq<Section>) -> nat
    decreases ss,
{
    if ss.len() == 0 {
        0
    } else {
        forest_size(ss.subrange(0, ss.len() - 1)) + tree_size(ss[ss.len() - 1])
    }
}

// ─── ordering children by the page their text starts on ────────

/// Where a section whose text starts on page `k` goes among `ss`: before
/// the first one that starts on a later page.
pub open spec fn slot(ss: Seq<Section>, k: usize) -> int
    decreases ss.len(),
{
    if ss.len() == 0 {
        0
    } else if ss[0].body_page_start > k {
        0
    } else {
        1 + slot(ss.subrange(1, ss.len() as int), k)
    }
}

/// The sections ordered by the page their text starts on; those that start
/// on the same page keep their order.
pub open spec fn by_start(ss: Seq<Section>) -> Seq<Section>
    decreases ss.len(),
{
    if ss.len() == 0 {
        ss
    } else {
        let r = by_start(ss.drop_last());
        r.insert(slot(r, ss.last().body_page_start), ss.last())
    }
}

proof fn lemma_slot_bounds(ss: Seq<Section>, k: usize)
    ensures
        0 <= slot(ss, k) <= ss.len(),
    decreases ss.len(),
{
    if ss.len() > 0 && ss[0].body_page_start <= k {
        lemma_slot_bounds(ss.subrange(1, ss.len() as int), k);
    }
}

proof fn lemma_slot_at(ss: Seq<Section>, k: usize, j: int)
    requires
        0 <= j <= ss.len(),
        forall|m: int| 0 <= m < j ==> #[trigger] ss[m].body_page_start <= k,
        j < ss.len() ==> ss[j].body_page_start > k,
    ensures
        slot(ss, k) == j,
    decreases ss.len(),
{
    if ss.len() > 0 && j > 0 {
        let rest = ss.subrange(1, ss.len() as int);
        assert forall|m: int| 0 <= m < j - 1 implies #[trigger] rest[m].body_page_start <= k by {
            assert(rest[m] == ss[m + 1]);
        }
        if j < ss.len() {
            assert(rest[j - 1] == ss[j]);
        }
        lemma_slot_at(rest, k, j - 1);
    }
}

proof fn lemma_forest_size_push(ss: Seq<Section>, x: Section)
    ensures
        forest_size(ss.push(x)) == forest_size(ss) + tree_size(x),
{
    let p = ss.push(x);
    assert(p.subrange(0, p.len() - 1) =~= ss);
}

proof fn lemma_forest_size_insert(ss: Seq<Section>, j: int, x: Section)
    requires
        0 <= j <= ss.len(),
    ensures
        forest_size(ss.insert(j, x)) == forest_size(ss) + tree_size(x),
    decreases ss.len(),
{
    if j == ss.len() {
        assert(ss.insert(j, x) =~= ss.push(x));
        lemma_forest_size_push(ss, x);
    } else {
        let front = ss.subrange(0, ss.len() - 1);
        let last = ss[ss.len() - 1];
        assert(ss.insert(j, x) =~= front.insert(j, x).push(last));
        assert(ss =~= front.push(last));
        lemma_forest_size_insert(front, j, x);
        lemma_forest_size_push(front.insert(j, x), last);
        lemma_forest_size_push(front, last);
    }
}

pub proof fn lemma_by_start_size(ss: Seq<Section>)
    ensures
        forest_size(by_start(ss)) == forest_size(ss),
        by_start(ss).len() == ss.len(),
    decreases ss.len(),
{
    if ss.len() > 0 {
        let r = by_start(ss.drop_last());
        lemma_by_start_size(ss.drop_last());
        lemma_slot_bounds(r, ss.last().body_page_start);
        lemma_forest_size_insert(r, slot(r, ss.last().body_page_start), ss.last());
        assert(ss.drop_last() =~= ss.subrange(0, ss.len() - 1));
    }
}

proof fn lemma_prefix_size(ss: Seq<Section>, j: int)
    requires
        0 <= j <= ss.len(),
    ensures
        forest_size(ss.subrange(0, j)) <= forest_size(ss),
    decreases ss.len() - j,
{
    if j < ss.len() {
        lemma_prefix_size(ss, j + 1);
        let p = ss.subrange(0, j + 1);
        assert(p.subrange(0, p.len() - 1) =~= ss.subrange(0, j));
    } else {
        assert(ss.subrange(0, j) =~= ss);
    }
}

proof fn lemma_member_size(ss: Seq<Section>, i: int)
    requires
        0 <= i < ss.len(),
    ensures
        tree_size(ss[i]) < forest_size(ss) + 1,
{
    lemma_prefix_size(ss, i + 1);
    let p = ss.subrange(0, i + 1);
    assert(p.subrange(0, p.len() - 1) =~= ss.subrange(0, i));
    assert(p[p.len() - 1] == ss[i]);
}

/// Orders sections by the page their text starts on, keeping the order of
/// those that start on the same page.
fn sort_by_start(v: Vec<Section>) -> (r: Vec<Section>)
    ensures
        r@ == by_start(v@),
{
    let ghost orig = v@;
    let n = v.len();
    let mut rest = v;
    let mut r: Vec<Section> = Vec::new();
    let mut i: usize = 0;
    while rest.len() > 0
        invariant
            i <= orig.len(),
            n == orig.len(),
            rest@ == orig.subrange(i as int, orig.len() as int),
            r@ == by_start(orig.subrange(0, i as int)),
        decreases rest@.len(),
    {
        assert(i < orig.len());
        let x = rest.remove(0);
        let k = x.body_page_start;
        let mut j: usize = 0;
        while j < r.len() && r[j].body_page_start <= k
            invariant
                j <= r@.len(),
                forall|m: int| 0 <= m < j ==> #[trigger] r@[m].body_page_start <= k,
            decreases r@.len() - j,
        {
            j = j + 1;
        }
        proof {
            lemma_slot_at(r@, k, j as int);
            let nxt = orig.subrange(0, i as int + 1);
            assert(nxt.drop_last() =~= orig.subrange(0, i as int));
            assert(nxt.last() == x);
            assert(rest@ =~= orig.subrange(i as int + 1, orig.len() as int));
        }
        r.insert(j, x);
        i = i + 1;
    }
    assert(orig.subrange(0, orig.len() as int) =~= orig);
    r
}

// ─── claiming tables ────────────────────────────────────────────

/// The tables filed under page `p`: those of the last page with that
/// index, none if no page has it.
pub open spec fn tables_at(pages: Seq<RawPage>, p: int) -> Seq<RawTable>
    decreases pages.len(),
{
    if pages.len() == 0 {
        Seq::<RawTable>::empty()
    } else if pages.last().page_index == p {
        pages.last().tables@
    } else {
        tables_at(pages.drop_last(), p)
    }
}

/// What claiming gathers: the Markdown texts taken so far, the section's
/// block ids, and the ids of the tables already claimed by any section.
pub type Claim = (Seq<Seq<char>>, Seq<Seq<char>>, Seq<Seq<char>>);

/// Claims one table: a table no section has taken yet and that has a
/// Markdown form gives its text, its id joins the block ids (once) and the
/// claimed ids.
pub open spec fn claim_table(c: Claim, t: RawTable) -> Claim {
    if c.2.contains(t.id@) {
        c
    } else {
        match markdown(rows_view(t.rows@)) {
            Some(md) => (
                c.0.push(md),
                if c.1.contains(t.id@) { c.1 } else { c.1.push(t.id@) },
                c.2.push(t.id@),
            ),
            None => c,
        }
    }
}

/// Claims the tables in order.
pub open spec fn claim_tables(c: Claim, ts: Seq<RawTable>) -> Claim
    decreases ts.len(),
{
    if ts.len() == 0 {
        c
    } else {
        claim_table(claim_tables(c, ts.drop_last()), ts.last())
    }
}

/// Claims the tables of pages `lo` to `hi`, both included, page by page.
pub open spec fn claim_pages(c: Claim, pages: Seq<RawPage>, lo: int, hi: int) -> Claim
    decreases hi - lo + 1,
{
    if hi < lo {
        c
    } else {
        claim_tables(claim_pages(c, pages, lo, hi - 1), tables_at(pages, hi))
    }
}

/// The body text with the claimed tables after it, separated by blank lines.
pub open spec fn attach(body: Seq<char>, texts: Seq<Seq<char>>) -> Seq<char> {
    let sep = seq!['\n', '\n'];
    if texts.len() == 0 {
        body
    } else if body.len() == 0 {
        join(texts, sep)
    } else {
        body + sep + join(texts, sep)
    }
}

// ─── the whole tree ─────────────────────────────────────────────

/// What a section claims, given the tables claimed before it: its children
/// (ordered by start page) claim first, then the section takes the tables on
/// the pages of its own text; a section with children and no text of its own
/// then also takes what is left on all its pages.
pub open spec fn node_claim(s: Section, pages: Seq<RawPage>, taken: Seq<Seq<char>>) -> Claim
    decreases tree_size(s), 0int,
{
    proof {
        lemma_by_start_size(s.children@);
    }
    let vk = forest_taken(by_start(s.children@), pages, taken);
    let c1 = claim_pages(
        (Seq::<Seq<char>>::empty(), string_views(s.block_ids@), vk),
        pages,
        s.body_page_start as int,
        s.body_page_end as int,
    );
    if s.children@.len() > 0 && s.body_text@.len() == 0 {
        claim_pages(c1, pages, s.page_start as int, s.page_end as int)
    } else {
        c1
    }
}

/// The table ids claimed once a forest has been processed, in order.
pub open spec fn forest_taken(ss: Seq<Section>, pages: Seq<RawPage>, taken: Seq<Seq<char>>) -> Seq<Seq<char>>
    decreases forest_size(ss), 1int,
{
    if ss.len() == 0 {
        taken
    } else {
        let front = ss.subrange(0, ss.len() - 1);
        node_claim(ss[ss.len() - 1], pages, forest_taken(front, pages, taken)).2
    }
}

/// `r` is section `s` with its tables put in: the same heading and pages,
/// the claimed ids among its block ids, the claimed tables after its text,
/// and its children (ordered by start page) with their tables put in.
pub open spec fn node_injected(s: Section, r: Section, pages: Seq<RawPage>, taken: Seq<Seq<char>>) -> bool
    decreases tree_size(s), 0int,
{
    proof {
        lemma_by_start_size(s.children@);
    }
    let c = node_claim(s, pages, taken);
    &&& r.level == s.level
    &&& r.title@ == s.title@
    &&& r.pattern@ == s.pattern@
    &&& r.page_start == s.page_start
    &&& r.page_end == s.page_end
    &&& r.body_page_start == s.body_page_start
    &&& r.body_page_end == s.body_page_end
    &&& string_views(r.block_ids@) == c.1
    &&& r.body_text@ == attach(s.body_text@, c.0)
    &&& forest_injected(by_start(s.children@), r.children@, pages, taken)
}

/// `rs` is the forest `ss` with its tables put in, section after section.
pub open spec fn forest_injected(ss: Seq<Section>, rs: Seq<Section>, pages: Seq<RawPage>, taken: Seq<Seq<char>>) -> bool
    decreases forest_size(ss), 1int,
{
    if ss.len() != rs.len() {
        false
    } else if ss.len() == 0 {
        true
    } else {
        let front = ss.subrange(0, ss.len() - 1);
        proof {
            assert(forest_size(ss) == forest_size(front) + tree_size(ss[ss.len() - 1]));
        }
        &&& forest_injected(front, rs.subrange(0, rs.len() - 1), pages, taken)
        &&& node_injected(ss[ss.len() - 1], rs[rs.len() - 1], pages, forest_taken(front, pages, taken))
    }
}


// ─── executable parts ───────────────────────────────────────────

/// The position of the page whose tables are filed under page `p`.
fn page_of(pages: &Vec<RawPage>, p: usize) -> (r: Option<usize>)
    ensures
        match r {
            Some(i) => i < pages@.len() && tables_at(pages@, p as int) == pages@[i as int].tables@,
            None => tables_at(pages@, p as int) == Seq::<RawTable>::empty(),
        },
{
    let mut k: usize = pages.len();
    assert(pages@.subrange(0, k as int) =~= pages@);
    while k > 0
        invariant
            k <= pages@.len(),
            tables_at(pages@, p as int) == tables_at(pages@.subrange(0, k as int), p as int),
        decreases k,
    {
        let ghost pre = pages@.subrange(0, k as int);
        assert(pre.last() == pages@[k - 1]);
        assert(pre.drop_last() =~= pages@.subrange(0, k - 1));
        if pages[k - 1].page_index == p {
            return Some(k - 1);
        }
        k = k - 1;
    }
    None
}

fn push_string(v: &mut Vec<String>, s: String)
    ensures
        string_views(final(v)@) == string_views(old(v)@).push(s@),
{
    v.push(s);
    assert(string_views(v@) =~= string_views(old(v)@).push(s@));
}

/// Claims the tables of one page.
fn claim_page_tables(ts: &Vec<RawTable>, texts: &mut Vec<String>, ids: &mut Vec<String>, taken: &mut Vec<String>)
    ensures
        (string_views(final(texts)@), string_views(final(ids)@), string_views(final(taken)@))
            == claim_tables((string_views(old(texts)@), string_views(old(ids)@), string_views(old(taken)@)), ts@),
{
    let ghost c0: Claim = (string_views(texts@), string_views(ids@), string_views(taken@));
    let mut i: usize = 0;
    while i < ts.len()
        invariant
            i <= ts@.len(),
            (string_views(texts@), string_views(ids@), string_views(taken@)) == claim_tables(c0, ts@.subrange(0, i as int)),
        decreases ts@.len() - i,
    {
        let t = &ts[i];
        proof {
            let nxt = ts@.subrange(0, i as int + 1);
            assert(nxt.drop_last() =~= ts@.subrange(0, i as int));
            assert(nxt.last() == *t);
        }
        if !contains_string(taken, t.id.as_str()) {
            match format_table_as_markdown(t) {
                Some(md) => {
                    push_string(texts, md);
                    push_string(taken, t.id.clone());
                    if !contains_string(ids, t.id.as_str()) {
                        push_string(ids, t.id.clone());
                    }
                },
                None => {},
            }
        }
        i = i + 1;
    }
    assert(ts@.subrange(0, ts@.len() as int) =~= ts@);
}

/// Claims the tables of pages `lo` to `hi`, both included.
fn claim_range(pages: &Vec<RawPage>, lo: usize, hi: usize, texts: &mut Vec<String>, ids: &mut Vec<String>, taken: &mut Vec<String>)
    ensures
        (string_views(final(texts)@), string_views(final(ids)@), string_views(final(taken)@))
            == claim_pages((string_views(old(texts)@), string_views(old(ids)@), string_views(old(taken)@)), pages@, lo as int, hi as int),
{
    let ghost c0: Claim = (string_views(texts@), string_views(ids@), string_views(taken@));
    if lo <= hi {
        let mut p: usize = lo;
        loop
            invariant_except_break
                lo <= p <= hi,
                (string_views(texts@), string_views(ids@), string_views(taken@)) == claim_pages(c0, pages@, lo as int, p - 1),
            ensures
                (string_views(texts@), string_views(ids@), string_views(taken@)) == claim_pages(c0, pages@, lo as int, hi as int),
            decreases hi - p,
        {
            match page_of(pages, p) {
                Some(k) => claim_page_tables(&pages[k].tables, texts, ids, taken),
                None => {},
            }
            if p == hi {
                break;
            }
            p = p + 1;
        }
    }
}

/// The body text with the tables after it.
fn attach_tables(body: String, texts: &Vec<String>) -> (r: String)
    ensures
        r@ == attach(body@, string_views(texts@)),
{
    if texts.len() == 0 {
        return body;
    }
    let mut parts: Vec<Vec<char>> = Vec::new();
    let mut i: usize = 0;
    while i < texts.len()
        invariant
            i <= texts@.len(),
            views(parts@) == string_views(texts@).subrange(0, i as int),
        decreases texts@.len() - i,
    {
        let c = chars_of(texts[i].as_str());
        let ghost before = views(parts@);
        parts.push(c);
        assert(views(parts@) =~= before.push(texts@[i as int]@));
        assert(string_views(texts@).subrange(0, i as int + 1) =~= string_views(texts@).subrange(0, i as int).push(texts@[i as int]@));
        i = i + 1;
    }
    assert(string_views(texts@).subrange(0, texts@.len() as int) =~= string_views(texts@));
    let sep: Vec<char> = vec!['\n', '\n'];
    assert(sep@ =~= seq!['\n', '\n']);
    let joined = join_chars(&parts, sep.as_slice());
    if body.as_str().is_empty() {
        string_of(joined.as_slice())
    } else {
        let mut all = chars_of(body.as_str());
        extend_chars(&mut all, sep.as_slice());
        extend_chars(&mut all, joined.as_slice());
        string_of(all.as_slice())
    }
}

/// Puts the tables into one section and its sub-sections.
fn inject_node(s: Section, pages: &Vec<RawPage>, taken: &mut Vec<String>) -> (r: Section)
    ensures
        node_injected(s, r, pages@, string_views(old(taken)@)),
        string_views(final(taken)@) == node_claim(s, pages@, string_views(old(taken)@)).2,
    decreases tree_size(s), 0int,
{
    let ghost t0 = string_views(taken@);
    let ghost s0 = s;
    let Section {
        level,
        title,
        pattern,
        page_start,
        page_end,
        block_ids,
        body_page_start,
        body_page_end,
        body_text,
        children,
    } = s;
    let kids = sort_by_start(children);
    proof {
        lemma_by_start_size(s0.children@);
    }
    let kids = inject_forest(kids, pages, taken);
    let mut texts: Vec<String> = Vec::new();
    let mut ids = block_ids;
    assert(string_views(texts@) =~= Seq::<Seq<char>>::empty());
    claim_range(pages, body_page_start, body_page_end, &mut texts, &mut ids, taken);
    if kids.len() > 0 && body_text.as_str().is_empty() {
        claim_range(pages, page_start, page_end, &mut texts, &mut ids, taken);
    }
    let body = attach_tables(body_text, &texts);
    Section {
        level,
        title,
        pattern,
        page_start,
        page_end,
        block_ids: ids,
        body_page_start,
        body_page_end,
        body_text: body,
        children: kids,
    }
}

/// Puts the tables into each section of a forest, in order.
fn inject_forest(secs: Vec<Section>, pages: &Vec<RawPage>, taken: &mut Vec<String>) -> (r: Vec<Section>)
    ensures
        forest_injected(secs@, r@, pages@, string_views(old(taken)@)),
        string_views(final(taken)@) == forest_taken(secs@, pages@, string_views(old(taken)@)),
    decreases forest_size(secs@), 1int,
{
    let ghost orig = secs@;
    let ghost t0 = string_views(taken@);
    let n = secs.len();
    let mut rest = secs;
    let mut r: Vec<Section> = Vec::new();
    let mut i: usize = 0;
    assert(orig.subrange(0, 0) =~= Seq::<Section>::empty());
    while rest.len() > 0
        invariant
            i <= orig.len(),
            n == orig.len(),
            orig == secs@,
            rest@ == orig.subrange(i as int, orig.len() as int),
            r@.len() == i,
            forest_injected(orig.subrange(0, i as int), r@, pages@, t0),
            string_views(taken@) == forest_taken(orig.subrange(0, i as int), pages@, t0),
        decreases rest@.len(),
    {
        assert(i < orig.len());
        let x = rest.remove(0);
        proof {
            assert(x == orig[i as int]);
            lemma_member_size(orig, i as int);
            assert(rest@ =~= orig.subrange(i as int + 1, orig.len() as int));
        }
        let ghost tb = string_views(taken@);
        let ghost rb = r@;
        let y = inject_node(x, pages, taken);
        r.push(y);
        proof {
            let nxt = orig.subrange(0, i as int + 1);
            assert(nxt.subrange(0, nxt.len() - 1) =~= orig.subrange(0, i as int));
            assert(nxt[nxt.len() - 1] == x);
            assert(r@.subrange(0, r@.len() - 1) =~= rb);
            assert(r@[r@.len() - 1] == y);
        }
        i = i + 1;
    }
    assert(orig.subrange(0, orig.len() as int) =~= orig);
    r
}

/// Puts the tables of the document into the body text of the sections:
/// children are ordered by the page their text starts on and served first,
/// so that each table goes to the deepest section whose text lies on its
/// page, and only once.
pub fn inject_tables_into_sections(sections: &mut Vec<Section>, raw_doc: &RawDocument)
    ensures
        forest_injected(old(sections)@, final(sections)@, raw_doc.pages@, Seq::<Seq<char>>::empty()),
{
    let mut taken: Vec<String> = Vec::new();
    assert(string_views(taken@) =~= Seq::<Seq<char>>::empty());
    let mut secs: Vec<Section> = Vec::new();
    std::mem::swap(&mut secs, sections);
    let done = inject_forest(secs, &raw_doc.pages, &mut taken);
    *sections = done;
}

} // verus!
