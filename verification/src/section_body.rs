//! What a heading candidate owns: the blocks from its own up to the next
//! heading of the same or a higher level, the pages they span, and the body
//! text below the heading line.
use vstd::prelude::*;
use crate::body_text::{smart_join_body, smart_joined};
use crate::candidates::{block_view, block_views, level_of, BlockView, CandView, FlatBlock, HeadingCandidate, cand_view};
use crate::headings::{is_noise, is_page_noise, kind_from, matches_heading_pattern};
use crate::text::{chars_of, contains_string, eq_str, lines, lines_of, string_of, string_views, trim, trim_chars, views};

verus! {

// ─── sets of block ids ──────────────────────────────────────────

/// The ids held, as a set.
pub open spec fn id_set(v: Seq<String>) -> Set<Seq<char>> {
    string_views(v).to_set()
}

/// Adds an id unless it is already held.
pub fn insert_id(v: &mut Vec<String>, id: &String)
    requires
        string_views(old(v)@).no_duplicates(),
    ensures
        string_views(final(v)@).no_duplicates(),
        id_set(final(v)@) == id_set(old(v)@).insert(id@),
{
    if contains_string(v, id.as_str()) {
        assert(id_set(v@) =~= id_set(v@).insert(id@));
        return;
    }
    let ghost before = string_views(v@);
    v.push(id.clone());
    assert(string_views(v@) =~= before.push(id@));
    assert(id_set(v@) =~= id_set(old(v)@).insert(id@)) by {
        assert forall|x: Seq<char>| id_set(v@).contains(x) <==> id_set(old(v)@).insert(id@).contains(x) by {
            if id_set(v@).contains(x) {
                let k = choose|k: int| 0 <= k < string_views(v@).len() && string_views(v@)[k] == x;
                if k < before.len() {
                    assert(before[k] == x);
                }
            }
            if before.contains(x) {
                let k = choose|k: int| 0 <= k < before.len() && before[k] == x;
                assert(string_views(v@)[k] == x);
            }
            if x == id@ {
                assert(string_views(v@)[before.len() as int] == x);
            }
        }
    }
}

proof fn lemma_remove_unique(s: Seq<Seq<char>>, idx: int)
    requires
        s.no_duplicates(),
        0 <= idx < s.len(),
    ensures
        s.remove(idx).no_duplicates(),
        s.remove(idx).to_set() == s.to_set().remove(s[idx]),
{
    let r = s.remove(idx);
    assert forall|a: int, b: int| 0 <= a < r.len() && 0 <= b < r.len() && a != b implies r[a] != r[b] by {
        let a2 = if a < idx { a } else { a + 1 };
        let b2 = if b < idx { b } else { b + 1 };
        assert(r[a] == s[a2] && r[b] == s[b2]);
    }
    assert forall|y: Seq<char>| r.to_set().contains(y) <==> s.to_set().remove(s[idx]).contains(y) by {
        if r.contains(y) {
            let a = choose|a: int| 0 <= a < r.len() && r[a] == y;
            let a2 = if a < idx { a } else { a + 1 };
            assert(s[a2] == y);
            assert(s.contains(y));
        }
        if s.contains(y) && y != s[idx] {
            let a = choose|a: int| 0 <= a < s.len() && s[a] == y;
            assert(a != idx);
            let a2 = if a < idx { a } else { a - 1 };
            assert(r[a2] == y);
            assert(r.contains(y));
        }
    }
    assert(r.to_set() =~= s.to_set().remove(s[idx]));
}

pub proof fn lemma_push_to_set(s: Seq<Seq<char>>, x: Seq<char>)
    ensures
        s.push(x).to_set() == s.to_set().insert(x),
{
    assert forall|y: Seq<char>| s.push(x).to_set().contains(y) <==> s.to_set().insert(x).contains(y) by {
        if s.push(x).contains(y) {
            let a = choose|a: int| 0 <= a < s.push(x).len() && s.push(x)[a] == y;
            if a < s.len() {
                assert(s[a] == y);
                assert(s.contains(y));
            }
        }
        if s.contains(y) {
            let a = choose|a: int| 0 <= a < s.len() && s[a] == y;
            assert(s.push(x)[a] == y);
        }
        if y == x {
            assert(s.push(x)[s.len() as int] == y);
        }
    }
    assert(s.push(x).to_set() =~= s.to_set().insert(x));
}

/// Removes an id.
pub fn remove_id(v: &mut Vec<String>, id: &str)
    requires
        string_views(old(v)@).no_duplicates(),
    ensures
        string_views(final(v)@).no_duplicates(),
        id_set(final(v)@) == id_set(old(v)@).remove(id@),
{
    let ghost sv = string_views(v@);
    let mut i: usize = 0;
    while i < v.len()
        invariant
            i <= v@.len(),
            sv == string_views(v@),
            v@ == old(v)@,
            sv.no_duplicates(),
            forall|k: int| 0 <= k < i ==> sv[k] != id@,
        decreases v@.len() - i,
    {
        let c = chars_of(v[i].as_str());
        if eq_str(c.as_slice(), id) {
            assert(sv[i as int] == id@);
            proof {
                lemma_remove_unique(sv, i as int);
            }
            v.remove(i);
            assert(string_views(v@) =~= sv.remove(i as int));
            assert(id_set(v@) == sv.to_set().remove(id@));
            return;
        }
        i = i + 1;
    }
    assert(!sv.contains(id@));
    assert(id_set(v@) =~= id_set(v@).remove(id@));
}

// ─── the blocks a heading owns ──────────────────────────────────

/// Index of the first candidate after `i`, from `k` on, whose level is at
/// most that of `i` (the heading that ends `i`'s section).
pub open spec fn boundary_from(cs: Seq<CandView>, i: int, k: int) -> Option<int>
    decreases cs.len() - k,
{
    if k < 0 || k >= cs.len() {
        None
    } else if level_of(cs[k]) <= level_of(cs[i]) {
        Some(k)
    } else {
        boundary_from(cs, i, k + 1)
    }
}

pub open spec fn next_boundary(cs: Seq<CandView>, i: int) -> Option<int> {
    boundary_from(cs, i, i + 1)
}

/// Scans the blocks from `k`: the ids from the start block on, and whether
/// the end block was met (the scan stops there).
pub open spec fn collect_scan(bv: Seq<BlockView>, k: int, started: bool, s: Seq<char>, e: Option<Seq<char>>) -> (Seq<Seq<char>>, bool)
    decreases bv.len() - k,
{
    if k < 0 || k >= bv.len() {
        (Seq::<Seq<char>>::empty(), false)
    } else {
        let id = bv[k].0;
        let st = started || id == s;
        let here = if st { seq![id] } else { Seq::<Seq<char>>::empty() };
        if e is Some && id == e.unwrap() {
            (here, true)
        } else {
            let rest = collect_scan(bv, k + 1, st, s, e);
            (here + rest.0, rest.1)
        }
    }
}

/// The ids of the blocks from the start block up to the end block; the end
/// block itself is left to the next section unless it is the start block.
pub open spec fn collected(bv: Seq<BlockView>, s: Seq<char>, e: Option<Seq<char>>) -> Seq<Seq<char>> {
    let r = collect_scan(bv, 0, false, s, e);
    if r.1 && e.unwrap() != s && r.0.len() > 0 { r.0.drop_last() } else { r.0 }
}

/// The set of assigned ids after collecting for one section.
pub open spec fn assigned_after(before: Set<Seq<char>>, bv: Seq<BlockView>, s: Seq<char>, e: Option<Seq<char>>) -> Set<Seq<char>> {
    let r = collect_scan(bv, 0, false, s, e);
    let added = before + r.0.to_set();
    if r.1 && e.unwrap() != s { added.remove(e.unwrap()) } else { added }
}

pub open spec fn block_ids_of(bv: Seq<BlockView>) -> Seq<Seq<char>> {
    bv.map_values(|b: BlockView| b.0)
}

proof fn lemma_scan_hit_needs_end(bv: Seq<BlockView>, k: int, started: bool, s: Seq<char>, e: Option<Seq<char>>)
    ensures
        collect_scan(bv, k, started, s, e).1 ==> e is Some,
    decreases bv.len() - k,
{
    if 0 <= k < bv.len() {
        let st = started || bv[k].0 == s;
        lemma_scan_hit_needs_end(bv, k + 1, st, s, e);
    }
}

/// Collects the ids of the blocks of a section and records them as assigned.
pub fn collect_blocks_between(
    blocks: &Vec<FlatBlock>,
    start: &HeadingCandidate,
    end: Option<&HeadingCandidate>,
    assigned: &mut Vec<String>,
) -> (r: Vec<String>)
    requires
        string_views(old(assigned)@).no_duplicates(),
        id_set(old(assigned)@).subset_of(block_ids_of(block_views(blocks@)).to_set()),
    ensures
        string_views(final(assigned)@).no_duplicates(),
        id_set(final(assigned)@).subset_of(block_ids_of(block_views(blocks@)).to_set()),
        string_views(r@) == collected(block_views(blocks@), start.block_id@, match end { Some(c) => Some(c.block_id@), None => None }),
        id_set(final(assigned)@) == assigned_after(id_set(old(assigned)@), block_views(blocks@), start.block_id@, match end { Some(c) => Some(c.block_id@), None => None }),
{
    let ghost bv = block_views(blocks@);
    let ghost e: Option<Seq<char>> = match end { Some(c) => Some(c.block_id@), None => None };
    let ghost s = start.block_id@;
    let ghost all_ids = block_ids_of(bv).to_set();
    let ghost whole = collect_scan(bv, 0, false, s, e);
    let mut ids: Vec<String> = Vec::new();
    let mut started = false;
    let mut hit = false;
    let mut k: usize = 0;
    while k < blocks.len() && !hit
        invariant
            k <= blocks@.len(),
            bv == block_views(blocks@),
            all_ids == block_ids_of(bv).to_set(),
            whole == collect_scan(bv, 0, false, s, e),
            e == (match end { Some(c) => Some(c.block_id@), None => None::<Seq<char>> }),
            s == start.block_id@,
            string_views(assigned@).no_duplicates(),
            id_set(assigned@).subset_of(all_ids),
            hit ==> whole == (string_views(ids@), true),
            !hit ==> whole == ({
                let rest = collect_scan(bv, k as int, started, s, e);
                (string_views(ids@) + rest.0, rest.1)
            }),
            id_set(assigned@) == id_set(old(assigned)@) + string_views(ids@).to_set(),
        decreases blocks@.len() - k,
    {
        let b = &blocks[k];
        let bc = chars_of(b.id.as_str());
        let ghost st0 = started;
        let ghost rest0 = collect_scan(bv, k as int, st0, s, e);
        assert(bv[k as int].0 == b.id@);
        if eq_str(bc.as_slice(), start.block_id.as_str()) {
            started = true;
        }
        assert(started == (st0 || b.id@ == s));
        let ghost old_ids = string_views(ids@);
        let ghost old_set = id_set(assigned@);
        if started {
            ids.push(b.id.clone());
            insert_id(assigned, &b.id);
            proof {
                assert(string_views(ids@) =~= old_ids.push(b.id@));
                lemma_push_to_set(old_ids, b.id@);
                assert(block_ids_of(bv)[k as int] == b.id@);
                assert(all_ids.contains(b.id@));
                assert(id_set(assigned@) =~= id_set(old(assigned)@) + string_views(ids@).to_set());
            }
        }
        let at_end = match end {
            Some(c) => eq_str(bc.as_slice(), c.block_id.as_str()),
            None => false,
        };
        proof {
            let here = if started { seq![b.id@] } else { Seq::<Seq<char>>::empty() };
            assert(string_views(ids@) =~= old_ids + here);
            if at_end {
                assert(rest0 == (here, true));
                assert(whole == (old_ids + rest0.0, rest0.1));
                assert(whole.0 =~= string_views(ids@));
            } else {
                let rest1 = collect_scan(bv, k as int + 1, started, s, e);
                assert(rest0 == (here + rest1.0, rest1.1));
                assert(old_ids + (here + rest1.0) =~= string_views(ids@) + rest1.0);
            }
        }
        if at_end {
            hit = true;
        }
        k = k + 1;
    }
    if !hit {
        assert(collect_scan(bv, k as int, started, s, e) == (Seq::<Seq<char>>::empty(), false));
        assert(string_views(ids@) + Seq::<Seq<char>>::empty() =~= string_views(ids@));
    }
    proof {
        lemma_scan_hit_needs_end(bv, 0, false, s, e);
    }
    if hit {
        match end {
            Some(c) => {
                let sc = chars_of(start.block_id.as_str());
                if !eq_str(sc.as_slice(), c.block_id.as_str()) {
                    let ghost before = string_views(ids@);
                    if ids.len() > 0 {
                        ids.pop();
                        assert(string_views(ids@) =~= before.drop_last());
                    }
                    remove_id(assigned, c.block_id.as_str());
                    assert(id_set(assigned@).subset_of(all_ids));
                } else {
                    assert(e.unwrap() == s);
                }
            },
            None => {
                assert(false);
            },
        }
    }
    ids
}

// ─── pages ──────────────────────────────────────────────────────

/// The page of the first block with this id, from `k` on.
pub open spec fn page_of(bv: Seq<BlockView>, id: Seq<char>, k: int) -> Option<usize>
    decreases bv.len() - k,
{
    if k < 0 || k >= bv.len() {
        None
    } else if bv[k].0 == id {
        Some(bv[k].3)
    } else {
        page_of(bv, id, k + 1)
    }
}

/// The largest page among the blocks with these ids, if any is found.
pub open spec fn max_page(bv: Seq<BlockView>, ids: Seq<Seq<char>>) -> Option<usize>
    decreases ids.len(),
{
    if ids.len() == 0 {
        None
    } else {
        let p = max_page(bv, ids.drop_last());
        match page_of(bv, ids.last(), 0) {
            Some(x) => Some(match p {
                Some(y) => if x >= y { x } else { y },
                None => x,
            }),
            None => p,
        }
    }
}

/// The page of a block, looked up by id.
pub fn find_block_page(blocks: &Vec<FlatBlock>, id: &str) -> (r: Option<usize>)
    ensures
        r == page_of(block_views(blocks@), id@, 0),
{
    let ghost bv = block_views(blocks@);
    let mut k: usize = 0;
    while k < blocks.len()
        invariant
            k <= blocks@.len(),
            bv == block_views(blocks@),
            page_of(bv, id@, 0) == page_of(bv, id@, k as int),
        decreases blocks@.len() - k,
    {
        let c = chars_of(blocks[k].id.as_str());
        assert(bv[k as int].0 == blocks@[k as int].id@);
        if eq_str(c.as_slice(), id) {
            return Some(blocks[k].page);
        }
        k = k + 1;
    }
    None
}

/// The highest page among the blocks with the given ids, none if no block
/// has one of them.
pub fn last_page_of_blocks(blocks: &Vec<FlatBlock>, ids: &Vec<String>) -> (r: Option<usize>)
    ensures
        r == max_page(block_views(blocks@), string_views(ids@)),
{
    let ghost iv = string_views(ids@);
    let mut best: Option<usize> = None;
    let mut i: usize = 0;
    while i < ids.len()
        invariant
            i <= ids@.len(),
            iv == string_views(ids@),
            best == max_page(block_views(blocks@), iv.subrange(0, i as int)),
        decreases ids@.len() - i,
    {
        proof {
            let nxt = iv.subrange(0, i as int + 1);
            assert(nxt.drop_last() =~= iv.subrange(0, i as int));
            assert(nxt.last() == ids@[i as int]@);
        }
        match find_block_page(blocks, ids[i].as_str()) {
            Some(x) => {
                best = Some(match best {
                    Some(y) => if x >= y { x } else { y },
                    None => x,
                });
            },
            None => {},
        }
        i = i + 1;
    }
    assert(iv.subrange(0, iv.len() as int) =~= iv);
    best
}

// ─── body text ──────────────────────────────────────────────────

/// A body line with the page it is on.
pub type PagedLine = (Seq<char>, usize);

/// The trimmed lines of a text that are neither blank nor noise.
pub open spec fn kept_lines(ls: Seq<Seq<char>>, page: usize) -> Seq<PagedLine>
    decreases ls.len(),
{
    if ls.len() == 0 {
        Seq::<PagedLine>::empty()
    } else {
        let p = kept_lines(ls.drop_last(), page);
        let t = trim(ls.last());
        if is_noise(t) { p } else { p.push((t, page)) }
    }
}

/// The kept lines of the blocks whose id is among `ids`, in reading order.
pub open spec fn section_lines(bv: Seq<BlockView>, ids: Set<Seq<char>>) -> Seq<PagedLine>
    decreases bv.len(),
{
    if bv.len() == 0 {
        Seq::<PagedLine>::empty()
    } else {
        let p = section_lines(bv.drop_last(), ids);
        let b = bv.last();
        if ids.contains(b.0) { p + kept_lines(lines_of(b.2), b.3) } else { p }
    }
}

/// First index at or after `k` whose line is `t`.
pub open spec fn line_index(items: Seq<PagedLine>, t: Seq<char>, k: int) -> Option<int>
    decreases items.len() - k,
{
    if k < 0 || k >= items.len() {
        None
    } else if items[k].0 == t {
        Some(k)
    } else {
        line_index(items, t, k + 1)
    }
}

/// The body stops at a line that starts like a heading or is the next
/// section's title.
pub open spec fn stops_body(l: Seq<char>, next: Option<Seq<char>>) -> bool {
    kind_from(l, l, 0) is Some || (next is Some && l == trim(next.unwrap()))
}

/// First index at or after `k` where the body stops (`items.len()` if none).
pub open spec fn body_stop(items: Seq<PagedLine>, next: Option<Seq<char>>, k: int) -> int
    decreases items.len() - k,
{
    if k < 0 || k >= items.len() {
        items.len() as int
    } else if stops_body(items[k].0, next) {
        k
    } else {
        body_stop(items, next, k + 1)
    }
}

/// The lines after the title line up to where the body stops.
pub open spec fn body_items(items: Seq<PagedLine>, title: Seq<char>, next: Option<Seq<char>>) -> Seq<PagedLine> {
    match line_index(items, trim(title), 0) {
        Some(t) => items.subrange(t + 1, body_stop(items, next, t + 1)),
        None => Seq::<PagedLine>::empty(),
    }
}

/// A section's body text and the pages it came from (the heading's page
/// when there is no body).
pub open spec fn section_body(c: CandView, next_title: Option<Seq<char>>, bv: Seq<BlockView>, ids: Seq<Seq<char>>) -> (Seq<char>, usize, usize) {
    let items = body_items(section_lines(bv, ids.to_set()), c.1, next_title);
    if items.len() == 0 {
        (Seq::<char>::empty(), c.2, c.2)
    } else {
        (smart_joined(items.map_values(|x: PagedLine| x.0)), items[0].1, items.last().1)
    }
}

pub open spec fn paged_views(v: Seq<(Vec<char>, usize)>) -> Seq<PagedLine> {
    v.map_values(|x: (Vec<char>, usize)| (x.0@, x.1))
}

fn kept_lines_exec(text: &str, page: usize, out: &mut Vec<(Vec<char>, usize)>)
    ensures
        paged_views(final(out)@) == paged_views(old(out)@) + kept_lines(lines_of(text@), page),
{
    let tc = chars_of(text);
    let ls = lines(tc.as_slice());
    let ghost lv = views(ls@);
    let ghost start = paged_views(out@);
    let mut i: usize = 0;
    while i < ls.len()
        invariant
            i <= ls@.len(),
            lv == views(ls@),
            paged_views(out@) == start + kept_lines(lv.subrange(0, i as int), page),
        decreases ls@.len() - i,
    {
        proof {
            let nxt = lv.subrange(0, i as int + 1);
            assert(nxt.drop_last() =~= lv.subrange(0, i as int));
            assert(nxt.last() == ls@[i as int]@);
        }
        let t = trim_chars(ls[i].as_slice());
        let ts = string_of(t.as_slice());
        if !is_page_noise(ts.as_str()) {
            let ghost before = paged_views(out@);
            out.push((t, page));
            proof {
                assert(paged_views(out@) =~= before.push((t@, page)));
                assert(trim(t@) == t@) by {
                    crate::text::lemma_trim_idempotent(ls@[i as int]@);
                }
            }
        } else {
            proof {
                crate::text::lemma_trim_idempotent(ls@[i as int]@);
            }
        }
        i = i + 1;
    }
    assert(lv.subrange(0, lv.len() as int) =~= lv);
}

fn section_lines_exec(blocks: &Vec<FlatBlock>, ids: &Vec<String>) -> (r: Vec<(Vec<char>, usize)>)
    ensures
        paged_views(r@) == section_lines(block_views(blocks@), string_views(ids@).to_set()),
{
    let ghost bv = block_views(blocks@);
    let ghost idset = string_views(ids@).to_set();
    let mut out: Vec<(Vec<char>, usize)> = Vec::new();
    let mut k: usize = 0;
    while k < blocks.len()
        invariant
            k <= blocks@.len(),
            bv == block_views(blocks@),
            idset == string_views(ids@).to_set(),
            paged_views(out@) == section_lines(bv.subrange(0, k as int), idset),
        decreases blocks@.len() - k,
    {
        proof {
            let nxt = bv.subrange(0, k as int + 1);
            assert(nxt.drop_last() =~= bv.subrange(0, k as int));
            assert(nxt.last() == block_view(blocks@[k as int]));
        }
        let b = &blocks[k];
        if contains_string(ids, b.id.as_str()) {
            kept_lines_exec(b.text.as_str(), b.page, &mut out);
        }
        k = k + 1;
    }
    assert(bv.subrange(0, bv.len() as int) =~= bv);
    out
}

/// Extracts a section's body text: the lines after its title line up to the
/// next heading-like line or the next section's title, joined, with the
/// pages they came from.
pub fn extract_section_body(
    c: &HeadingCandidate,
    next_title: Option<&String>,
    blocks: &Vec<FlatBlock>,
    ids: &Vec<String>,
) -> (r: (String, usize, usize))
    ensures
        (r.0@, r.1, r.2) == section_body(cand_view(*c), match next_title { Some(t) => Some(t@), None => None }, block_views(blocks@), string_views(ids@)),
{
    let ghost nt: Option<Seq<char>> = match next_title { Some(t) => Some(t@), None => None };
    let items = section_lines_exec(blocks, ids);
    let ghost iv = paged_views(items@);
    let tc = chars_of(c.title.as_str());
    let title = trim_chars(tc.as_slice());
    let mut t: usize = 0;
    while t < items.len() && !eq_str(items[t].0.as_slice(), string_of(title.as_slice()).as_str())
        invariant
            t <= items@.len(),
            iv == paged_views(items@),
            line_index(iv, trim(c.title@), 0) == line_index(iv, trim(c.title@), t as int),
            title@ == trim(c.title@),
        decreases items@.len() - t,
    {
        t = t + 1;
    }
    if t >= items.len() {
        return (String::new(), c.page, c.page);
    }
    assert(iv[t as int].0 == title@);
    let next_trim: Option<Vec<char>> = match next_title {
        Some(s) => {
            let sc = chars_of(s.as_str());
            Some(trim_chars(sc.as_slice()))
        },
        None => None,
    };
    let mut e: usize = t + 1;
    while e < items.len() && !stops_exec(items[e].0.as_slice(), &next_trim)
        invariant
            t < e <= items@.len(),
            iv == paged_views(items@),
            match next_trim { Some(x) => nt is Some && x@ == trim(nt.unwrap()), None => nt is None },
            body_stop(iv, nt, t as int + 1) == body_stop(iv, nt, e as int),
        decreases items@.len() - e,
    {
        e = e + 1;
    }
    let ghost body = iv.subrange(t as int + 1, e as int);
    if e == t + 1 {
        return (String::new(), c.page, c.page);
    }
    let mut lines_v: Vec<Vec<char>> = Vec::new();
    let mut k: usize = t + 1;
    while k < e
        invariant
            t < k <= e <= items@.len(),
            iv == paged_views(items@),
            views(lines_v@) == iv.subrange(t as int + 1, k as int).map_values(|x: PagedLine| x.0),
        decreases e - k,
    {
        let ghost before = views(lines_v@);
        lines_v.push(items[k].0.clone());
        proof {
            assert(views(lines_v@) =~= before.push(iv[k as int].0));
            assert(iv.subrange(t as int + 1, k as int + 1).map_values(|x: PagedLine| x.0)
                =~= iv.subrange(t as int + 1, k as int).map_values(|x: PagedLine| x.0).push(iv[k as int].0));
        }
        k = k + 1;
    }
    let joined = smart_join_body(&lines_v);
    (string_of(joined.as_slice()), items[t + 1].1, items[e - 1].1)
}

fn stops_exec(l: &[char], next: &Option<Vec<char>>) -> (r: bool)
    ensures
        r == (kind_from(l@, l@, 0) is Some || (next is Some && l@ == next.unwrap()@)),
{
    let ls = string_of(l);
    if matches_heading_pattern(ls.as_str()) {
        return true;
    }
    match next {
        Some(x) => {
            let xs = string_of(x.as_slice());
            eq_str(l, xs.as_str())
        },
        None => false,
    }
}

} // verus!
