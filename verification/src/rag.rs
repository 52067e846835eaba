//! Diversifying vector-search hits before they are put into a prompt: one
//! hit per region of the document first, then the best of the rest.
use vstd::prelude::*;
use crate::text::{chars_of, eq_str, slice_range, string_of};

verus! {

/// A vector-search hit. Its score is carried as `score_key`, an integer
/// that orders hits as their scores do (see `score_key`).
#[derive(Debug, Clone)]
pub struct SearchHit {
    pub chunk_id: String,
    pub title: String,
    pub score_key: u32,
    pub snippet: String,
    pub page_start: usize,
}

/// The order key of an `f32` score given by its bits: the bits of a
/// non-negative score with the top bit set, the complemented bits of a
/// negative one, so that integer order is score order.
pub open spec fn score_order(bits: u32) -> u32 {
    if bits >= 0x8000_0000 { (0xFFFF_FFFFu32 - bits) as u32 } else { (bits + 0x8000_0000u32) as u32 }
}

/// Maps the bits of an `f32` score to its order key.
pub fn score_key(bits: u32) -> (r: u32)
    ensures
        r == score_order(bits),
{
    if bits >= 0x8000_0000 { 0xFFFF_FFFF - bits } else { bits + 0x8000_0000 }
}

/// The first `n` characters (all of them when shorter).
pub open spec fn prefix(s: Seq<char>, n: int) -> Seq<char> {
    if s.len() <= n { s } else { s.subrange(0, n) }
}

/// Without the first `n` characters (nothing when shorter).
pub open spec fn suffix_from(s: Seq<char>, n: int) -> Seq<char> {
    if s.len() <= n { Seq::<char>::empty() } else { s.subrange(n, s.len() as int) }
}

/// The region of a hit: the first 2 characters of its title, or, without a
/// title, the 2 characters after the `ch_` of its chunk id.
pub open spec fn group_key(h: SearchHit) -> Seq<char> {
    if h.title@.len() == 0 { prefix(suffix_from(h.chunk_id@, 3), 2) } else { prefix(h.title@, 2) }
}

/// The regions of the first `n` hits in order of first appearance.
pub open spec fn region_order(hs: Seq<SearchHit>, n: int) -> Seq<Seq<char>>
    decreases n,
{
    if n <= 0 {
        Seq::<Seq<char>>::empty()
    } else {
        let p = region_order(hs, n - 1);
        if p.contains(group_key(hs[n - 1])) { p } else { p.push(group_key(hs[n - 1])) }
    }
}

/// The best hit of region `g` among the first `n` (the last of equal best).
pub open spec fn best_of(hs: Seq<SearchHit>, g: Seq<char>, n: int) -> Option<int>
    decreases n,
{
    if n <= 0 {
        None
    } else {
        let b = best_of(hs, g, n - 1);
        if group_key(hs[n - 1]) == g {
            match b {
                None => Some(n - 1),
                Some(x) => if hs[n - 1].score_key >= hs[x].score_key { Some(n - 1) } else { Some(x) },
            }
        } else {
            b
        }
    }
}

/// The hits of region `g` among the first `n`, except `b`, in order.
pub open spec fn others_of(hs: Seq<SearchHit>, g: Seq<char>, b: int, n: int) -> Seq<int>
    decreases n,
{
    if n <= 0 {
        Seq::<int>::empty()
    } else {
        let p = others_of(hs, g, b, n - 1);
        if group_key(hs[n - 1]) == g && n - 1 != b { p.push(n - 1) } else { p }
    }
}

/// The best hit of each region, regions in order of appearance.
pub open spec fn region_bests(hs: Seq<SearchHit>) -> Seq<int> {
    region_order(hs, hs.len() as int).map_values(|g: Seq<char>| best_of(hs, g, hs.len() as int).unwrap())
}

/// The other hits, region by region.
pub open spec fn region_rest(hs: Seq<SearchHit>, k: int) -> Seq<int>
    decreases k,
{
    if k <= 0 {
        Seq::<int>::empty()
    } else {
        let g = region_order(hs, hs.len() as int)[k - 1];
        region_rest(hs, k - 1) + others_of(hs, g, best_of(hs, g, hs.len() as int).unwrap(), hs.len() as int)
    }
}

/// `x` put after every element scoring at least as much.
pub open spec fn insert_desc(hs: Seq<SearchHit>, s: Seq<int>, x: int) -> Seq<int>
    decreases s.len(),
{
    if s.len() == 0 {
        seq![x]
    } else if hs[s.last()].score_key >= hs[x].score_key {
        s.push(x)
    } else {
        insert_desc(hs, s.drop_last(), x).push(s.last())
    }
}

/// Stable sort by descending score.
pub open spec fn sort_desc(hs: Seq<SearchHit>, s: Seq<int>) -> Seq<int>
    decreases s.len(),
{
    if s.len() == 0 {
        Seq::<int>::empty()
    } else {
        insert_desc(hs, sort_desc(hs, s.drop_last()), s.last())
    }
}

/// The indices of the diversified hits: up to `m` region bests by score,
/// then the best of the other hits to fill up to `m`.
pub open spec fn diversified(hs: Seq<SearchHit>, m: int) -> Seq<int> {
    if hs.len() <= m {
        Seq::new(hs.len(), |i: int| i)
    } else {
        let sel = sort_desc(hs, region_bests(hs));
        let rest = sort_desc(hs, region_rest(hs, region_order(hs, hs.len() as int).len() as int));
        let first = if sel.len() <= m { sel } else { sel.subrange(0, m) };
        let fill = m - first.len();
        first + (if rest.len() <= fill { rest } else { rest.subrange(0, fill) })
    }
}

fn chars_eq(a: &Vec<char>, b: &Vec<char>) -> (r: bool)
    ensures
        r == (a@ == b@),
{
    let bs = string_of(b.as_slice());
    eq_str(a.as_slice(), bs.as_str())
}

fn group_key_exec(h: &SearchHit) -> (r: Vec<char>)
    ensures
        r@ == group_key(*h),
{
    let t = chars_of(h.title.as_str());
    if t.len() == 0 {
        let c = chars_of(h.chunk_id.as_str());
        let rest = if c.len() <= 3 { Vec::new() } else { slice_range(c.as_slice(), 3, c.len()) };
        if rest.len() <= 2 { rest } else { slice_range(rest.as_slice(), 0, 2) }
    } else {
        if t.len() <= 2 { t } else { slice_range(t.as_slice(), 0, 2) }
    }
}

fn copy_hit(h: &SearchHit) -> (r: SearchHit)
    ensures
        r == *h,
{
    SearchHit {
        chunk_id: h.chunk_id.clone(),
        title: h.title.clone(),
        score_key: h.score_key,
        snippet: h.snippet.clone(),
        page_start: h.page_start,
    }
}

/// Stable sort of hit indices by descending score.
fn sort_by_score(hits: &Vec<SearchHit>, idx: &Vec<usize>) -> (r: Vec<usize>)
    requires
        forall|k: int| 0 <= k < idx@.len() ==> #[trigger] idx@[k] < hits@.len(),
    ensures
        r@.map_values(|x: usize| x as int) == sort_desc(hits@, idx@.map_values(|x: usize| x as int)),
        forall|k: int| 0 <= k < r@.len() ==> #[trigger] r@[k] < hits@.len(),
{
    let ghost iv = idx@.map_values(|x: usize| x as int);
    let mut out: Vec<usize> = Vec::new();
    let mut i: usize = 0;
    while i < idx.len()
        invariant
            i <= idx@.len(),
            iv == idx@.map_values(|x: usize| x as int),
            forall|k: int| 0 <= k < idx@.len() ==> #[trigger] idx@[k] < hits@.len(),
            forall|k: int| 0 <= k < out@.len() ==> #[trigger] out@[k] < hits@.len(),
            out@.map_values(|x: usize| x as int) == sort_desc(hits@, iv.subrange(0, i as int)),
        decreases idx@.len() - i,
    {
        let x = idx[i];
        let ghost s = out@.map_values(|x: usize| x as int);
        let mut pos: usize = out.len();
        proof {
            assert(s.subrange(0, s.len() as int) =~= s);
            assert(s.subrange(s.len() as int, s.len() as int) =~= Seq::<int>::empty());
            assert(insert_desc(hits@, s, x as int) + Seq::<int>::empty() =~= insert_desc(hits@, s, x as int));
        }
        while pos > 0 && hits[out[pos - 1]].score_key < hits[x].score_key
            invariant
                pos <= out@.len(),
                x < hits@.len(),
                s == out@.map_values(|x: usize| x as int),
                forall|k: int| 0 <= k < out@.len() ==> #[trigger] out@[k] < hits@.len(),
                insert_desc(hits@, s, x as int) == insert_desc(hits@, s.subrange(0, pos as int), x as int) + s.subrange(pos as int, s.len() as int),
            decreases pos,
        {
            proof {
                let a = s.subrange(0, pos as int);
                assert(a.drop_last() =~= s.subrange(0, pos as int - 1));
                assert(a.last() == out@[pos - 1] as int);
                assert(s.subrange(pos as int - 1, s.len() as int) =~= seq![a.last()] + s.subrange(pos as int, s.len() as int));
                assert(insert_desc(hits@, a, x as int) == insert_desc(hits@, a.drop_last(), x as int).push(a.last()));
                assert(insert_desc(hits@, a.drop_last(), x as int).push(a.last()) + s.subrange(pos as int, s.len() as int)
                    =~= insert_desc(hits@, a.drop_last(), x as int) + s.subrange(pos as int - 1, s.len() as int));
            }
            pos = pos - 1;
        }
        proof {
            let a = s.subrange(0, pos as int);
            if pos > 0 {
                assert(a.last() == out@[pos - 1] as int);
            }
            assert(insert_desc(hits@, a, x as int) == a.push(x as int));
        }
        out.insert(pos, x);
        proof {
            let nxt = iv.subrange(0, i as int + 1);
            assert(nxt.drop_last() =~= iv.subrange(0, i as int));
            assert(nxt.last() == x as int);
            assert(out@.map_values(|x: usize| x as int) =~= s.subrange(0, pos as int).push(x as int) + s.subrange(pos as int, s.len() as int));
        }
        i = i + 1;
    }
    assert(iv.subrange(0, iv.len() as int) =~= iv);
    out
}

pub open spec fn key_views(v: Seq<Vec<char>>) -> Seq<Seq<char>> {
    v.map_values(|k: Vec<char>| k@)
}

fn contains_key(v: &Vec<Vec<char>>, k: &Vec<char>) -> (r: bool)
    ensures
        r == key_views(v@).contains(k@),
{
    let mut i: usize = 0;
    while i < v.len()
        invariant
            i <= v@.len(),
            forall|j: int| 0 <= j < i ==> key_views(v@)[j] != k@,
        decreases v@.len() - i,
    {
        if chars_eq(&v[i], k) {
            assert(key_views(v@)[i as int] == k@);
            return true;
        }
        i = i + 1;
    }
    false
}

/// Keeps the search results diverse: the best hit of each region of the
/// document first (by score), then the best remaining hits, `max_results`
/// in all. With no more hits than that, all of them, as they are.
pub fn diversify_hits(hits: &Vec<SearchHit>, max_results: usize) -> (r: Vec<SearchHit>)
    ensures
        r@ == diversified(hits@, max_results as int).map_values(|i: int| hits@[i]),
{
    let n = hits.len();
    if n <= max_results {
        let mut out: Vec<SearchHit> = Vec::new();
        let mut i: usize = 0;
        while i < n
            invariant
                i <= n,
                n == hits@.len(),
                out@ =~= Seq::new(i as nat, |k: int| k).map_values(|k: int| hits@[k]),
            decreases n - i,
        {
            out.push(copy_hit(&hits[i]));
            i = i + 1;
        }
        return out;
    }
    let mut keys: Vec<Vec<char>> = Vec::new();
    let mut i: usize = 0;
    while i < n
        invariant
            i <= n,
            n == hits@.len(),
            keys@.len() == i,
            forall|k: int| 0 <= k < i ==> #[trigger] keys@[k]@ == group_key(hits@[k]),
        decreases n - i,
    {
        keys.push(group_key_exec(&hits[i]));
        i = i + 1;
    }
    let mut order: Vec<Vec<char>> = Vec::new();
    let mut i: usize = 0;
    while i < n
        invariant
            i <= n,
            n == hits@.len(),
            keys@.len() == n,
            forall|k: int| 0 <= k < n ==> #[trigger] keys@[k]@ == group_key(hits@[k]),
            key_views(order@) == region_order(hits@, i as int),
        decreases n - i,
    {
        if !contains_key(&order, &keys[i]) {
            let ghost before = key_views(order@);
            order.push(keys[i].clone());
            assert(key_views(order@) =~= before.push(keys@[i as int]@));
        }
        i = i + 1;
    }
    let ghost ord = region_order(hits@, n as int);
    let mut bests: Vec<usize> = Vec::new();
    let mut rest: Vec<usize> = Vec::new();
    let mut g: usize = 0;
    while g < order.len()
        invariant
            g <= order@.len(),
            n == hits@.len(),
            keys@.len() == n,
            forall|k: int| 0 <= k < n ==> #[trigger] keys@[k]@ == group_key(hits@[k]),
            key_views(order@) == ord,
            ord == region_order(hits@, n as int),
            bests@.map_values(|x: usize| x as int) == ord.subrange(0, g as int).map_values(|r: Seq<char>| best_of(hits@, r, n as int).unwrap()),
            rest@.map_values(|x: usize| x as int) == region_rest(hits@, g as int),
            forall|k: int| 0 <= k < bests@.len() ==> #[trigger] bests@[k] < n,
            forall|k: int| 0 <= k < rest@.len() ==> #[trigger] rest@[k] < n,
        decreases order@.len() - g,
    {
        let gk = &order[g];
        let ghost gv = gk@;
        assert(ord[g as int] == gv);
        // the best hit of the region: the last of equal best scores
        let mut best: Option<usize> = None;
        let mut i: usize = 0;
        while i < n
            invariant
                i <= n,
                n == hits@.len(),
                keys@.len() == n,
                forall|k: int| 0 <= k < n ==> #[trigger] keys@[k]@ == group_key(hits@[k]),
                gv == gk@,
                ord == region_order(hits@, n as int),
                g < ord.len(),
                ord[g as int] == gv,
                match best { Some(b) => best_of(hits@, gv, i as int) == Some(b as int) && b < i, None => best_of(hits@, gv, i as int) is None },
            decreases n - i,
        {
            if chars_eq(&keys[i], gk) {
                best = match best {
                    None => Some(i),
                    Some(b) => if hits[i].score_key >= hits[b].score_key { Some(i) } else { Some(b) },
                };
            }
            i = i + 1;
        }
        let b = match best {
            Some(b) => b,
            None => {
                proof {
                    assert(ord.contains(gv)) by {
                        assert(ord[g as int] == gv);
                    }
                    lemma_region_has_best(hits@, gv, n as int);
                }
                0
            },
        };
        let ghost bb = best_of(hits@, gv, n as int).unwrap();
        assert(b as int == bb);
        let ghost before_b = bests@.map_values(|x: usize| x as int);
        bests.push(b);
        proof {
            assert(bests@.map_values(|x: usize| x as int) =~= before_b.push(b as int));
            assert(ord.subrange(0, g as int + 1).map_values(|r: Seq<char>| best_of(hits@, r, n as int).unwrap())
                =~= ord.subrange(0, g as int).map_values(|r: Seq<char>| best_of(hits@, r, n as int).unwrap()).push(bb));
        }
        // the other hits of the region, in order
        let ghost rest0 = rest@.map_values(|x: usize| x as int);
        let mut i: usize = 0;
        while i < n
            invariant
                i <= n,
                n == hits@.len(),
                b < n,
                keys@.len() == n,
                forall|k: int| 0 <= k < n ==> #[trigger] keys@[k]@ == group_key(hits@[k]),
                gv == gk@,
                ord == region_order(hits@, n as int),
                g < ord.len(),
                ord[g as int] == gv,
                b as int == best_of(hits@, gv, n as int).unwrap(),
                rest@.map_values(|x: usize| x as int) == rest0 + others_of(hits@, gv, b as int, i as int),
                forall|k: int| 0 <= k < rest@.len() ==> #[trigger] rest@[k] < n,
            decreases n - i,
        {
            if chars_eq(&keys[i], gk) && i != b {
                let ghost before = rest@.map_values(|x: usize| x as int);
                rest.push(i);
                assert(rest@.map_values(|x: usize| x as int) =~= before.push(i as int));
            }
            i = i + 1;
        }
        proof {
            assert(region_rest(hits@, g as int + 1) == region_rest(hits@, g as int) + others_of(hits@, ord[g as int], bb, n as int));
        }
        g = g + 1;
    }
    proof {
        assert(ord.subrange(0, ord.len() as int) =~= ord);
        assert(bests@.map_values(|x: usize| x as int) =~= region_bests(hits@));
    }
    let sel = sort_by_score(hits, &bests);
    let rem = sort_by_score(hits, &rest);
    let ghost selv = sel@.map_values(|x: usize| x as int);
    let ghost remv = rem@.map_values(|x: usize| x as int);
    let take1: usize = if sel.len() <= max_results { sel.len() } else { max_results };
    let mut out: Vec<SearchHit> = Vec::new();
    let mut k: usize = 0;
    while k < take1
        invariant
            k <= take1 <= sel@.len(),
            forall|q: int| 0 <= q < sel@.len() ==> #[trigger] sel@[q] < hits@.len(),
            selv == sel@.map_values(|x: usize| x as int),
            out@ =~= selv.subrange(0, k as int).map_values(|i: int| hits@[i]),
        decreases take1 - k,
    {
        out.push(copy_hit(&hits[sel[k]]));
        k = k + 1;
    }
    let fill = max_results - take1;
    let take2: usize = if rem.len() <= fill { rem.len() } else { fill };
    let mut k: usize = 0;
    while k < take2
        invariant
            k <= take2 <= rem@.len(),
            take1 <= sel@.len(),
            selv == sel@.map_values(|x: usize| x as int),
            forall|q: int| 0 <= q < rem@.len() ==> #[trigger] rem@[q] < hits@.len(),
            remv == rem@.map_values(|x: usize| x as int),
            out@ =~= selv.subrange(0, take1 as int).map_values(|i: int| hits@[i]) + remv.subrange(0, k as int).map_values(|i: int| hits@[i]),
        decreases take2 - k,
    {
        out.push(copy_hit(&hits[rem[k]]));
        k = k + 1;
    }
    proof {
        let first = if selv.len() <= max_results { selv } else { selv.subrange(0, max_results as int) };
        assert(first =~= selv.subrange(0, take1 as int));
        let tail = if remv.len() <= fill { remv } else { remv.subrange(0, fill as int) };
        assert(tail =~= remv.subrange(0, take2 as int));
        assert(diversified(hits@, max_results as int) == first + tail);
        assert((first + tail).map_values(|i: int| hits@[i]) =~= first.map_values(|i: int| hits@[i]) + tail.map_values(|i: int| hits@[i]));
    }
    out
}

proof fn lemma_region_has_best(hs: Seq<SearchHit>, g: Seq<char>, n: int)
    requires
        0 <= n <= hs.len(),
        region_order(hs, n).contains(g),
    ensures
        best_of(hs, g, n) is Some,
    decreases n,
{
    if n > 0 {
        if group_key(hs[n - 1]) != g {
            let p = region_order(hs, n - 1);
            if !p.contains(group_key(hs[n - 1])) {
                assert(region_order(hs, n) == p.push(group_key(hs[n - 1])));
                let k = choose|k: int| 0 <= k < region_order(hs, n).len() && region_order(hs, n)[k] == g;
                if k < p.len() {
                    assert(p[k] == g);
                }
            }
            lemma_region_has_best(hs, g, n - 1);
        }
    }
}

} // verus!
