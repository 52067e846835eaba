//! Blocks that no section owns: grouped by runs of consecutive pages into
//! sections of their own, so that no text of the document is lost.
use vstd::prelude::*;
use crate::api::{forest_block_ids, push_ids};
use crate::document::RawDocument;
use crate::numbers::{dec, fmt_int_exec};
use crate::sectionize::Section;
use crate::text::{contains_string, extend_chars, extend_str, join, join_strings, string_of, string_views};

verus! {

/// A block as values: id, text, page.
pub type OrphanView = (Seq<char>, Seq<char>, usize);

/// The page a block id is filed under: the index of the last page that has a
/// block with that id (none if no page has).
pub open spec fn page_of_id(doc: RawDocument, id: Seq<char>, n: int) -> Option<usize>
    decreases n,
{
    if n <= 0 {
        None
    } else if exists|k: int| 0 <= k < doc.pages@[n - 1].blocks@.len() && #[trigger] doc.pages@[n - 1].blocks@[k].id@ == id {
        Some(doc.pages@[n - 1].page_index)
    } else {
        page_of_id(doc, id, n - 1)
    }
}

/// The blocks of the first `p` pages (and the first `b` blocks of page `p`)
/// whose ids no section owns, in reading order, each with its page.
pub open spec fn orphans_upto(doc: RawDocument, owned: Seq<Seq<char>>, p: int, b: int) -> Seq<OrphanView>
    decreases p, b,
{
    if p <= 0 && b <= 0 {
        Seq::<OrphanView>::empty()
    } else if b <= 0 {
        orphans_upto(doc, owned, p - 1, doc.pages@[p - 1].blocks@.len() as int)
    } else {
        let prev = orphans_upto(doc, owned, p, b - 1);
        let blk = doc.pages@[p].blocks@[b - 1];
        if owned.contains(blk.id@) {
            prev
        } else {
            prev.push((blk.id@, blk.text@, page_of_id(doc, blk.id@, doc.pages@.len() as int).unwrap()))
        }
    }
}

/// The orphan blocks of the whole document, in reading order.
pub open spec fn orphans_of(doc: RawDocument, owned: Seq<Seq<char>>) -> Seq<OrphanView> {
    orphans_upto(doc, owned, doc.pages@.len() as int, 0)
}

/// Where a block of page `pg` goes among `os`: after all blocks of pages
/// up to `pg`.
pub open spec fn page_slot(os: Seq<OrphanView>, pg: usize) -> int
    decreases os.len(),
{
    if os.len() == 0 {
        0
    } else if os[0].2 > pg {
        0
    } else {
        1 + page_slot(os.subrange(1, os.len() as int), pg)
    }
}

/// The blocks ordered by page, keeping the reading order within a page.
pub open spec fn by_page(os: Seq<OrphanView>) -> Seq<OrphanView>
    decreases os.len(),
{
    if os.len() == 0 {
        os
    } else {
        let r = by_page(os.drop_last());
        r.insert(page_slot(r, os.last().2), os.last())
    }
}

/// A group of orphan blocks: first page, last page, ids, texts.
pub type GroupView = (usize, usize, Seq<Seq<char>>, Seq<Seq<char>>);

/// The blocks (ordered by page) split into runs of consecutive pages.
pub open spec fn page_groups(os: Seq<OrphanView>) -> Seq<GroupView>
    decreases os.len(),
{
    if os.len() == 0 {
        Seq::<GroupView>::empty()
    } else {
        let g = page_groups(os.drop_last());
        let x = os.last();
        if g.len() > 0 && x.2 <= g.last().1 + 1 {
            let l = g.last();
            g.update(g.len() - 1, (l.0, x.2, l.2.push(x.0), l.3.push(x.1)))
        } else {
            g.push((x.2, x.2, seq![x.0], seq![x.1]))
        }
    }
}

/// The title of a group of pages `s..=e` (shown 1-based).
pub open spec fn group_title(s: usize, e: usize) -> Seq<char> {
    "未归类内容 (第"@ + dec((s + 1) as nat) + "-"@ + dec((e + 1) as nat) + "页)"@
}

/// Section `r` holds group `g`: level 0, the group's pages, ids and texts.
pub open spec fn group_section(r: Section, g: GroupView) -> bool {
    &&& r.level == 0
    &&& r.title@ == group_title(g.0, g.1)
    &&& r.pattern@ == "orphan"@
    &&& r.page_start == g.0
    &&& r.page_end == g.1
    &&& string_views(r.block_ids@) == g.2
    &&& r.body_text@ == join(g.3, "\n"@)
    &&& r.children@.len() == 0
    &&& r.body_page_start == g.0
    &&& r.body_page_end == g.1
}

/// All page indexes leave room for a 1-based page number.
pub open spec fn pages_numbered(doc: RawDocument) -> bool {
    forall|q: int| 0 <= q < doc.pages@.len() ==> #[trigger] doc.pages@[q].page_index < usize::MAX
}

/// The page a block id is filed under.
fn page_for_id(doc: &RawDocument, id: &String) -> (r: Option<usize>)
    ensures
        r == page_of_id(*doc, id@, doc.pages@.len() as int),
{
    let mut n: usize = doc.pages.len();
    while n > 0
        invariant
            n <= doc.pages@.len(),
            page_of_id(*doc, id@, doc.pages@.len() as int) == page_of_id(*doc, id@, n as int),
        decreases n,
    {
        let pg = &doc.pages[n - 1];
        let mut k: usize = 0;
        while k < pg.blocks.len()
            invariant
                0 < n <= doc.pages@.len(),
                *pg == doc.pages@[n - 1],
                page_of_id(*doc, id@, doc.pages@.len() as int) == page_of_id(*doc, id@, n as int),
                k <= pg.blocks@.len(),
                forall|m: int| 0 <= m < k ==> pg.blocks@[m].id@ != id@,
            decreases pg.blocks@.len() - k,
        {
            if pg.blocks[k].id == *id {
                assert(doc.pages@[n - 1].blocks@[k as int].id@ == id@);
                return Some(pg.page_index);
            }
            k = k + 1;
        }
        n = n - 1;
    }
    None
}

proof fn lemma_page_of_id_found(doc: RawDocument, id: Seq<char>, p: int, k: int)
    requires
        0 <= p < doc.pages@.len(),
        0 <= k < doc.pages@[p].blocks@.len(),
        doc.pages@[p].blocks@[k].id@ == id,
    ensures
        page_of_id(doc, id, doc.pages@.len() as int) is Some,
    decreases doc.pages@.len() - p,
{
    lemma_found_from(doc, id, p, k, doc.pages@.len() as int);
}

proof fn lemma_found_from(doc: RawDocument, id: Seq<char>, p: int, k: int, n: int)
    requires
        0 <= p < n <= doc.pages@.len(),
        0 <= k < doc.pages@[p].blocks@.len(),
        doc.pages@[p].blocks@[k].id@ == id,
    ensures
        page_of_id(doc, id, n) is Some,
    decreases n,
{
    if !(exists|j: int| 0 <= j < doc.pages@[n - 1].blocks@.len() && #[trigger] doc.pages@[n - 1].blocks@[j].id@ == id) {
        if n - 1 == p {
            assert(doc.pages@[n - 1].blocks@[k].id@ == id);
        } else {
            lemma_found_from(doc, id, p, k, n - 1);
        }
    }
}

proof fn lemma_page_slot_at(os: Seq<OrphanView>, pg: usize, j: int)
    requires
        0 <= j <= os.len(),
        forall|m: int| 0 <= m < j ==> (#[trigger] os[m]).2 <= pg,
        j < os.len() ==> os[j].2 > pg,
    ensures
        page_slot(os, pg) == j,
    decreases os.len(),
{
    if os.len() > 0 && j > 0 {
        let rest = os.subrange(1, os.len() as int);
        assert forall|m: int| 0 <= m < j - 1 implies (#[trigger] rest[m]).2 <= pg by {
            assert(rest[m] == os[m + 1]);
        }
        if j < os.len() {
            assert(rest[j - 1] == os[j]);
        }
        lemma_page_slot_at(rest, pg, j - 1);
    }
}

pub open spec fn zipped(ids: Seq<String>, texts: Seq<String>, pages: Seq<usize>) -> Seq<OrphanView> {
    Seq::new(ids.len(), |m: int| (ids[m]@, texts[m]@, pages[m]))
}

proof fn lemma_page_of_id_bound(doc: RawDocument, id: Seq<char>, n: int)
    requires
        pages_numbered(doc),
        n <= doc.pages@.len(),
    ensures
        page_of_id(doc, id, n) matches Some(x) ==> x < usize::MAX,
    decreases n,
{
    if n > 0 {
        lemma_page_of_id_bound(doc, id, n - 1);
    }
}

/// The orphan blocks ordered by page, as three parallel lists.
fn sorted_orphans(raw_doc: &RawDocument, owned: &Vec<String>) -> (r: (Vec<String>, Vec<String>, Vec<usize>))
    requires
        pages_numbered(*raw_doc),
    ensures
        r.0@.len() == r.1@.len(),
        r.0@.len() == r.2@.len(),
        zipped(r.0@, r.1@, r.2@) == by_page(orphans_of(*raw_doc, string_views(owned@))),
{
    let ghost ov = string_views(owned@);
    let ghost doc = *raw_doc;
    let mut ids: Vec<String> = Vec::new();
    let mut texts: Vec<String> = Vec::new();
    let mut pages: Vec<usize> = Vec::new();
    let ghost mut all: Seq<OrphanView> = Seq::empty();
    assert(zipped(ids@, texts@, pages@) =~= by_page(all));
    let mut p: usize = 0;
    while p < raw_doc.pages.len()
        invariant
            p <= raw_doc.pages@.len(),
            ov == string_views(owned@),
            doc == *raw_doc,
            pages_numbered(doc),
            all == orphans_upto(doc, ov, p as int, 0),
            ids@.len() == texts@.len(),
            ids@.len() == pages@.len(),
            zipped(ids@, texts@, pages@) == by_page(all),
        decreases raw_doc.pages@.len() - p,
    {
        let pg = &raw_doc.pages[p];
        let mut b: usize = 0;
        while b < pg.blocks.len()
            invariant
                p < raw_doc.pages@.len(),
                b <= pg.blocks@.len(),
                *pg == raw_doc.pages@[p as int],
                ov == string_views(owned@),
                doc == *raw_doc,
                pages_numbered(doc),
                all == orphans_upto(doc, ov, p as int, b as int),
                ids@.len() == texts@.len(),
                ids@.len() == pages@.len(),
                zipped(ids@, texts@, pages@) == by_page(all),
            decreases pg.blocks@.len() - b,
        {
            let blk = &pg.blocks[b];
            if !contains_string(owned, blk.id.as_str()) {
                proof {
                    lemma_page_of_id_found(doc, blk.id@, p as int, b as int);
                    lemma_page_of_id_bound(doc, blk.id@, doc.pages@.len() as int);
                }
                let at = match page_for_id(raw_doc, &blk.id) {
                    Some(x) => x,
                    None => 0,
                };
                let ghost x: OrphanView = (blk.id@, blk.text@, at);
                let ghost sorted = by_page(all);
                let mut j: usize = 0;
                while j < pages.len() && pages[j] <= at
                    invariant
                        j <= pages@.len(),
                        forall|m: int| 0 <= m < j ==> #[trigger] pages@[m] <= at,
                    decreases pages@.len() - j,
                {
                    j = j + 1;
                }
                proof {
                    assert forall|m: int| 0 <= m < j implies (#[trigger] sorted[m]).2 <= at by {
                        assert(sorted[m] == zipped(ids@, texts@, pages@)[m]);
                    }
                    if j < sorted.len() {
                        assert(sorted[j as int] == zipped(ids@, texts@, pages@)[j as int]);
                    }
                    lemma_page_slot_at(sorted, at, j as int);
                }
                let ghost zb = zipped(ids@, texts@, pages@);
                ids.insert(j, blk.id.clone());
                texts.insert(j, blk.text.clone());
                pages.insert(j, at);
                proof {
                    all = all.push(x);
                    assert(all.drop_last() =~= orphans_upto(doc, ov, p as int, b as int));
                    assert(all.last() == x);
                    assert(zipped(ids@, texts@, pages@) =~= zb.insert(j as int, x));
                }
            }
            b = b + 1;
        }
        p = p + 1;
    }
    (ids, texts, pages)
}

/// The exec form of a group.
pub open spec fn group_view(s: usize, e: usize, ids: Seq<String>, texts: Seq<String>) -> GroupView {
    (s, e, string_views(ids), string_views(texts))
}

fn group_section_exec(s: usize, e: usize, ids: Vec<String>, texts: &Vec<String>) -> (r: Section)
    requires
        s < usize::MAX,
        e < usize::MAX,
    ensures
        group_section(r, group_view(s, e, ids@, texts@)),
{
    let mut title: Vec<char> = Vec::new();
    extend_str(&mut title, "未归类内容 (第");
    let a = fmt_int_exec((s + 1) as i128, 0);
    extend_chars(&mut title, a.as_slice());
    extend_str(&mut title, "-");
    let b = fmt_int_exec((e + 1) as i128, 0);
    extend_chars(&mut title, b.as_slice());
    extend_str(&mut title, "页)");
    assert(title@ =~= group_title(s, e));
    let body = join_strings(texts, "\n");
    Section {
        level: 0,
        title: string_of(title.as_slice()),
        pattern: String::from_str("orphan"),
        page_start: s,
        page_end: e,
        block_ids: ids,
        body_page_start: s,
        body_page_end: e,
        body_text: string_of(body.as_slice()),
        children: Vec::new(),
    }
}

/// The sections for the blocks that no section of `sections` owns: one per
/// run of consecutive pages, titled by its pages, holding the blocks' ids
/// and their texts one per line.
pub fn orphan_sections(raw_doc: &RawDocument, sections: &Vec<Section>) -> (r: Vec<Section>)
    requires
        pages_numbered(*raw_doc),
    ensures
        ({
            let gs = page_groups(by_page(orphans_of(*raw_doc, forest_block_ids(sections@))));
            &&& r@.len() == gs.len()
            &&& forall|k: int| 0 <= k < r@.len() ==> group_section(#[trigger] r@[k], gs[k])
        }),
{
    let mut owned: Vec<String> = Vec::new();
    push_ids(&mut owned, sections);
    assert(string_views(owned@) =~= forest_block_ids(sections@));
    let (ids, texts, pages) = sorted_orphans(raw_doc, &owned);
    let ghost os = zipped(ids@, texts@, pages@);
    proof {
        lemma_pages_bounded(*raw_doc, string_views(owned@));
    }
    let mut out: Vec<Section> = Vec::new();
    let n = ids.len();
    let mut i: usize = 0;
    // the group being filled: first and last page, ids, texts
    let mut open = false;
    let mut gs: usize = 0;
    let mut ge: usize = 0;
    let mut gids: Vec<String> = Vec::new();
    let mut gtexts: Vec<String> = Vec::new();
    while i < n
        invariant
            i <= n,
            n == ids@.len(),
            n == texts@.len(),
            n == pages@.len(),
            os == zipped(ids@, texts@, pages@),
            forall|m: int| 0 <= m < n ==> (#[trigger] os[m]).2 < usize::MAX,
            open <==> i > 0,
            open ==> gs < usize::MAX && ge < usize::MAX,
            ({
                let g = page_groups(os.subrange(0, i as int));
                &&& if open {
                        g.len() == out@.len() + 1 && g.last() == group_view(gs, ge, gids@, gtexts@)
                    } else {
                        g.len() == 0 && out@.len() == 0
                    }
                &&& forall|k: int| 0 <= k < out@.len() ==> group_section(#[trigger] out@[k], g[k])
            }),
        decreases n - i,
    {
        let ghost prev = page_groups(os.subrange(0, i as int));
        proof {
            let nxt = os.subrange(0, i as int + 1);
            assert(nxt.drop_last() =~= os.subrange(0, i as int));
            assert(nxt.last() == os[i as int]);
            assert(os[i as int] == (ids@[i as int]@, texts@[i as int]@, pages@[i as int]));
        }
        let pg = pages[i];
        if open && pg <= ge + 1 {
            gids.push(ids[i].clone());
            gtexts.push(texts[i].clone());
            ge = pg;
            proof {
                let g = page_groups(os.subrange(0, i as int + 1));
                assert(string_views(gids@) =~= prev.last().2.push(ids@[i as int]@));
                assert(string_views(gtexts@) =~= prev.last().3.push(texts@[i as int]@));
                assert forall|k: int| 0 <= k < out@.len() implies group_section(#[trigger] out@[k], g[k]) by {
                    assert(g[k] == prev[k]);
                }
            }
        } else {
            if open {
                let sec = group_section_exec(gs, ge, gids, &gtexts);
                out.push(sec);
            }
            gs = pg;
            ge = pg;
            gids = Vec::new();
            gids.push(ids[i].clone());
            gtexts = Vec::new();
            gtexts.push(texts[i].clone());
            open = true;
            proof {
                let g = page_groups(os.subrange(0, i as int + 1));
                assert(string_views(gids@) =~= seq![ids@[i as int]@]);
                assert(string_views(gtexts@) =~= seq![texts@[i as int]@]);
                assert forall|k: int| 0 <= k < out@.len() implies group_section(#[trigger] out@[k], g[k]) by {
                    assert(g[k] == prev[k]);
                }
            }
        }
        i = i + 1;
    }
    if open {
        let sec = group_section_exec(gs, ge, gids, &gtexts);
        out.push(sec);
    }
    assert(os.subrange(0, n as int) =~= os);
    out
}

proof fn lemma_orphans_bounded(doc: RawDocument, owned: Seq<Seq<char>>, p: int, b: int)
    requires
        pages_numbered(doc),
        0 <= p <= doc.pages@.len(),
        0 <= b,
        p < doc.pages@.len() ==> b <= doc.pages@[p].blocks@.len(),
        p == doc.pages@.len() ==> b == 0,
    ensures
        forall|m: int| 0 <= m < orphans_upto(doc, owned, p, b).len() ==> (#[trigger] orphans_upto(doc, owned, p, b)[m]).2 < usize::MAX,
    decreases p, b,
{
    if p <= 0 && b <= 0 {
    } else if b <= 0 {
        lemma_orphans_bounded(doc, owned, p - 1, doc.pages@[p - 1].blocks@.len() as int);
        assert(orphans_upto(doc, owned, p, b) == orphans_upto(doc, owned, p - 1, doc.pages@[p - 1].blocks@.len() as int));
    } else {
        lemma_orphans_bounded(doc, owned, p, b - 1);
        let blk = doc.pages@[p].blocks@[b - 1];
        lemma_page_of_id_found(doc, blk.id@, p, b - 1);
        lemma_page_of_id_bound(doc, blk.id@, doc.pages@.len() as int);
        let prev = orphans_upto(doc, owned, p, b - 1);
        let cur = orphans_upto(doc, owned, p, b);
        assert forall|m: int| 0 <= m < cur.len() implies (#[trigger] cur[m]).2 < usize::MAX by {
            if m < prev.len() {
                assert(cur[m] == prev[m]);
            }
        }
    }
}

proof fn lemma_by_page_bounded(os: Seq<OrphanView>)
    requires
        forall|m: int| 0 <= m < os.len() ==> (#[trigger] os[m]).2 < usize::MAX,
    ensures
        by_page(os).len() == os.len(),
        forall|m: int| 0 <= m < by_page(os).len() ==> (#[trigger] by_page(os)[m]).2 < usize::MAX,
    decreases os.len(),
{
    if os.len() > 0 {
        lemma_by_page_bounded(os.drop_last());
        let r = by_page(os.drop_last());
        lemma_slot_fits(r, os.last().2);
        let j = page_slot(r, os.last().2);
        assert forall|m: int| 0 <= m < by_page(os).len() implies (#[trigger] by_page(os)[m]).2 < usize::MAX by {
            if m < j {
                assert(by_page(os)[m] == r[m]);
            } else if m > j {
                assert(by_page(os)[m] == r[m - 1]);
            }
        }
    }
}

pub proof fn lemma_slot_fits(os: Seq<OrphanView>, pg: usize)
    ensures
        0 <= page_slot(os, pg) <= os.len(),
    decreases os.len(),
{
    if os.len() > 0 && os[0].2 <= pg {
        lemma_slot_fits(os.subrange(1, os.len() as int), pg);
    }
}

proof fn lemma_pages_bounded(doc: RawDocument, owned: Seq<Seq<char>>)
    requires
        pages_numbered(doc),
    ensures
        forall|m: int| 0 <= m < by_page(orphans_of(doc, owned)).len() ==> (#[trigger] by_page(orphans_of(doc, owned))[m]).2 < usize::MAX,
{
    lemma_orphans_bounded(doc, owned, doc.pages@.len() as int, 0);
    lemma_by_page_bounded(orphans_of(doc, owned));
}

} // verus!
