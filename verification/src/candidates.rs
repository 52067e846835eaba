//! Heading candidates: every line of every block that looks like a heading,
//! then three filters that drop what only looks like one.
use vstd::prelude::*;
use crate::document::{BlockType, RawDocument, RawPage};
use crate::headings::{
    heading_of_line, is_noise, is_page_noise, kind_level, line_heading, split_inline,
    split_inline_headings, HeadingKind,
};
use crate::numbers::{parse_u32, parse_u32_spec};
use crate::text::{
    chars_of, eq_str, has_char, has_char_exec, is_ascii_digit, lines, lines_of, slice_range, split_chars,
    split_on, string_of, string_views, trim, trim_chars, views,
};

verus! {

// ─── blocks in reading order ────────────────────────────────────

/// A block with the index of the page it is on.
#[derive(Debug)]
pub struct FlatBlock {
    pub id: String,
    pub block_type: BlockType,
    pub text: String,
    pub page: usize,
}

/// A block as values: id, type, text, page.
pub type BlockView = (Seq<char>, BlockType, Seq<char>, usize);

pub open spec fn block_view(b: FlatBlock) -> BlockView {
    (b.id@, b.block_type, b.text@, b.page)
}

pub open spec fn block_views(v: Seq<FlatBlock>) -> Seq<BlockView> {
    v.map_values(|b: FlatBlock| block_view(b))
}

/// The blocks of one page, each with the page's index.
pub open spec fn page_blocks(p: RawPage) -> Seq<BlockView> {
    p.blocks@.map_values(|b: crate::document::RawBlock| (b.id@, b.block_type, b.text@, p.page_index))
}

/// All blocks of the document in page order.
pub open spec fn flat_blocks(pages: Seq<RawPage>) -> Seq<BlockView>
    decreases pages.len(),
{
    if pages.len() == 0 {
        Seq::<BlockView>::empty()
    } else {
        flat_blocks(pages.drop_last()) + page_blocks(pages.last())
    }
}

/// Lists every block of the document with its page index.
pub fn flatten_blocks(doc: &RawDocument) -> (r: Vec<FlatBlock>)
    ensures
        block_views(r@) == flat_blocks(doc.pages@),
{
    let mut out: Vec<FlatBlock> = Vec::new();
    let mut p: usize = 0;
    while p < doc.pages.len()
        invariant
            p <= doc.pages@.len(),
            block_views(out@) == flat_blocks(doc.pages@.subrange(0, p as int)),
        decreases doc.pages@.len() - p,
    {
        let page = &doc.pages[p];
        let ghost start = block_views(out@);
        let mut b: usize = 0;
        while b < page.blocks.len()
            invariant
                b <= page.blocks@.len(),
                *page == doc.pages@[p as int],
                block_views(out@) == start + page_blocks(*page).subrange(0, b as int),
            decreases page.blocks@.len() - b,
        {
            let blk = &page.blocks[b];
            let fb = FlatBlock { id: blk.id.clone(), block_type: blk.block_type, text: blk.text.clone(), page: page.page_index };
            let ghost before = block_views(out@);
            out.push(fb);
            proof {
                assert(block_views(out@) =~= before.push(block_view(fb)));
                assert(page_blocks(*page).subrange(0, b as int + 1) =~= page_blocks(*page).subrange(0, b as int).push(block_view(fb)));
            }
            b = b + 1;
        }
        proof {
            let pre = doc.pages@.subrange(0, p as int + 1);
            assert(pre.drop_last() =~= doc.pages@.subrange(0, p as int));
            assert(page_blocks(*page).subrange(0, page.blocks@.len() as int) =~= page_blocks(*page));
        }
        p = p + 1;
    }
    assert(doc.pages@.subrange(0, doc.pages@.len() as int) =~= doc.pages@);
    out
}

// ─── candidates ─────────────────────────────────────────────────

/// A line recognised as a heading, with where it was found.
#[derive(Debug)]
pub struct HeadingCandidate {
    pub kind: HeadingKind,
    pub title: String,
    pub page: usize,
    pub block_id: String,
}

impl HeadingCandidate {
    pub fn level(&self) -> (r: u8)
        ensures
            r == kind_level(self.kind),
    {
        self.kind.level()
    }
}

/// A candidate as values: kind, title, page, block id.
pub type CandView = (HeadingKind, Seq<char>, usize, Seq<char>);

pub open spec fn cand_view(c: HeadingCandidate) -> CandView {
    (c.kind, c.title@, c.page, c.block_id@)
}

pub open spec fn cand_views(v: Seq<HeadingCandidate>) -> Seq<CandView> {
    v.map_values(|c: HeadingCandidate| cand_view(c))
}

pub open spec fn level_of(c: CandView) -> u8 {
    kind_level(c.0)
}

fn copy_cand(c: &HeadingCandidate) -> (r: HeadingCandidate)
    ensures
        cand_view(r) == cand_view(*c),
{
    HeadingCandidate { kind: c.kind, title: c.title.clone(), page: c.page, block_id: c.block_id.clone() }
}

/// The lines of a block's text, each split at inline headings.
pub open spec fn expanded(ls: Seq<Seq<char>>) -> Seq<Seq<char>>
    decreases ls.len(),
{
    if ls.len() == 0 {
        Seq::<Seq<char>>::empty()
    } else {
        expanded(ls.drop_last()) + split_inline(ls.last())
    }
}

/// The numbered headings among the lines: (kind, trimmed line).
pub open spec fn line_cands(ls: Seq<Seq<char>>) -> Seq<(HeadingKind, Seq<char>)>
    decreases ls.len(),
{
    if ls.len() == 0 {
        Seq::<(HeadingKind, Seq<char>)>::empty()
    } else {
        let p = line_cands(ls.drop_last());
        let t = trim(ls.last());
        if !is_noise(t) && line_heading(t) is Some {
            p.push((line_heading(t).unwrap(), t))
        } else {
            p
        }
    }
}

/// The first trimmed line that is neither blank nor noise.
pub open spec fn first_text_line(ls: Seq<Seq<char>>) -> Option<Seq<char>>
    decreases ls.len(),
{
    if ls.len() == 0 {
        None
    } else if !is_noise(trim(ls[0])) {
        Some(trim(ls[0]))
    } else {
        first_text_line(ls.drop_first())
    }
}

/// The candidates of one block: its numbered heading lines; failing those,
/// for a block marked as a heading, its first text line when it holds 2 to
/// 30 characters.
pub open spec fn block_cands(b: BlockView) -> Seq<CandView> {
    let found = line_cands(expanded(lines_of(b.2)));
    if found.len() == 0 && b.1 == BlockType::Heading {
        match first_text_line(lines_of(b.2)) {
            Some(t) => if 2 <= t.len() <= 30 {
                seq![(HeadingKind::PlainHeading, t, b.3, b.0)]
            } else {
                Seq::<CandView>::empty()
            },
            None => Seq::<CandView>::empty(),
        }
    } else {
        found.map_values(|x: (HeadingKind, Seq<char>)| (x.0, x.1, b.3, b.0))
    }
}

/// The candidates of all blocks, in reading order.
pub open spec fn scan(blocks: Seq<BlockView>) -> Seq<CandView>
    decreases blocks.len(),
{
    if blocks.len() == 0 {
        Seq::<CandView>::empty()
    } else {
        scan(blocks.drop_last()) + block_cands(blocks.last())
    }
}

fn expand_lines(text: &str) -> (r: Vec<Vec<char>>)
    ensures
        views(r@) == expanded(lines_of(text@)),
{
    let tc = chars_of(text);
    let ls = lines(tc.as_slice());
    let ghost lv = views(ls@);
    let mut out: Vec<Vec<char>> = Vec::new();
    let mut i: usize = 0;
    while i < ls.len()
        invariant
            i <= ls@.len(),
            lv == views(ls@),
            lv == lines_of(text@),
            views(out@) == expanded(lv.subrange(0, i as int)),
        decreases ls@.len() - i,
    {
        proof {
            let nxt = lv.subrange(0, i as int + 1);
            assert(nxt.drop_last() =~= lv.subrange(0, i as int));
            assert(nxt.last() == ls@[i as int]@);
        }
        let s = string_of(ls[i].as_slice());
        let parts = split_inline_headings(s.as_str());
        let ghost start = views(out@);
        let mut k: usize = 0;
        while k < parts.len()
            invariant
                k <= parts@.len(),
                views(out@) == start + string_views(parts@).subrange(0, k as int),
            decreases parts@.len() - k,
        {
            let ghost before = views(out@);
            out.push(chars_of(parts[k].as_str()));
            proof {
                assert(views(out@) =~= before.push(parts@[k as int]@));
                assert(string_views(parts@).subrange(0, k as int + 1) =~= string_views(parts@).subrange(0, k as int).push(parts@[k as int]@));
            }
            k = k + 1;
        }
        assert(string_views(parts@).subrange(0, parts@.len() as int) =~= string_views(parts@));
        i = i + 1;
    }
    assert(lv.subrange(0, lv.len() as int) =~= lv);
    out
}

fn first_text_line_exec(ls: &Vec<Vec<char>>) -> (r: Option<Vec<char>>)
    ensures
        match r {
            Some(t) => first_text_line(views(ls@)) == Some(t@),
            None => first_text_line(views(ls@)) is None,
        },
{
    let ghost lv = views(ls@);
    let mut i: usize = 0;
    assert(lv.subrange(0, lv.len() as int) =~= lv);
    while i < ls.len()
        invariant
            i <= ls@.len(),
            lv == views(ls@),
            first_text_line(lv) == first_text_line(lv.subrange(i as int, lv.len() as int)),
        decreases ls@.len() - i,
    {
        let ghost rest = lv.subrange(i as int, lv.len() as int);
        proof {
            assert(rest.drop_first() =~= lv.subrange(i as int + 1, lv.len() as int));
            assert(rest[0] == ls@[i as int]@);
        }
        let t = trim_chars(ls[i].as_slice());
        let ts = string_of(t.as_slice());
        if !is_page_noise(ts.as_str()) {
            proof {
                assert(trim(rest[0]) == t@);
            }
            return Some(t);
        }
        i = i + 1;
    }
    proof {
        assert(lv.subrange(lv.len() as int, lv.len() as int) =~= Seq::<Seq<char>>::empty());
    }
    None
}

/// The candidates of one block, appended to `out`.
fn scan_block(b: &FlatBlock, out: &mut Vec<HeadingCandidate>)
    ensures
        cand_views(final(out)@) == cand_views(old(out)@) + block_cands(block_view(*b)),
{
    let ghost start = cand_views(out@);
    let exp = expand_lines(b.text.as_str());
    let ghost ev = views(exp@);
    let mut found: bool = false;
    let mut i: usize = 0;
    while i < exp.len()
        invariant
            i <= exp@.len(),
            ev == views(exp@),
            ev == expanded(lines_of(b.text@)),
            found == (line_cands(ev.subrange(0, i as int)).len() > 0),
            cand_views(out@) == start + line_cands(ev.subrange(0, i as int)).map_values(|x: (HeadingKind, Seq<char>)| (x.0, x.1, b.page, b.id@)),
        decreases exp@.len() - i,
    {
        let ghost pre = ev.subrange(0, i as int);
        let ghost nxt = ev.subrange(0, i as int + 1);
        proof {
            assert(nxt.drop_last() =~= pre);
            assert(nxt.last() == exp@[i as int]@);
        }
        let t = trim_chars(exp[i].as_slice());
        let ts = string_of(t.as_slice());
        if !is_page_noise(ts.as_str()) {
            match heading_of_line(t.as_slice()) {
                Some(k) => {
                    let c = HeadingCandidate { kind: k, title: string_of(t.as_slice()), page: b.page, block_id: b.id.clone() };
                    let ghost before = cand_views(out@);
                    out.push(c);
                    found = true;
                    proof {
                        assert(cand_views(out@) =~= before.push(cand_view(c)));
                        assert(line_cands(nxt) == line_cands(pre).push((k, t@)));
                        assert(line_cands(nxt).map_values(|x: (HeadingKind, Seq<char>)| (x.0, x.1, b.page, b.id@))
                            =~= line_cands(pre).map_values(|x: (HeadingKind, Seq<char>)| (x.0, x.1, b.page, b.id@)).push(cand_view(c)));
                    }
                },
                None => {},
            }
        }
        i = i + 1;
    }
    assert(ev.subrange(0, ev.len() as int) =~= ev);
    if !found && b.block_type == BlockType::Heading {
        let tc = chars_of(b.text.as_str());
        let ls = lines(tc.as_slice());
        match first_text_line_exec(&ls) {
            Some(t) => {
                if 2 <= t.len() && t.len() <= 30 {
                    let c = HeadingCandidate { kind: HeadingKind::PlainHeading, title: string_of(t.as_slice()), page: b.page, block_id: b.id.clone() };
                    let ghost before = cand_views(out@);
                    out.push(c);
                    assert(cand_views(out@) =~= before + seq![cand_view(c)]);
                } else {
                    assert(start + Seq::<CandView>::empty() =~= start);
                }
            },
            None => {
                assert(start + Seq::<CandView>::empty() =~= start);
            },
        }
    }
}

/// Scans every block for heading candidates.
pub fn scan_candidates(blocks: &Vec<FlatBlock>) -> (r: Vec<HeadingCandidate>)
    ensures
        cand_views(r@) == scan(block_views(blocks@)),
{
    let ghost bv = block_views(blocks@);
    let mut out: Vec<HeadingCandidate> = Vec::new();
    let mut i: usize = 0;
    while i < blocks.len()
        invariant
            i <= blocks@.len(),
            bv == block_views(blocks@),
            cand_views(out@) == scan(bv.subrange(0, i as int)),
        decreases blocks@.len() - i,
    {
        proof {
            let nxt = bv.subrange(0, i as int + 1);
            assert(nxt.drop_last() =~= bv.subrange(0, i as int));
            assert(nxt.last() == block_view(blocks@[i as int]));
        }
        scan_block(&blocks[i], &mut out);
        i = i + 1;
    }
    assert(bv.subrange(0, bv.len() as int) =~= bv);
    out
}


// ─── selecting by index ─────────────────────────────────────────

/// The elements among the first `n` whose index satisfies `keep`, in order.
pub open spec fn keep_where<A>(s: Seq<A>, keep: spec_fn(int) -> bool, n: int) -> Seq<A>
    decreases n,
{
    if n <= 0 {
        Seq::<A>::empty()
    } else if keep(n - 1) {
        keep_where(s, keep, n - 1).push(s[n - 1])
    } else {
        keep_where(s, keep, n - 1)
    }
}

fn keep_marked(cs: &Vec<HeadingCandidate>, removed: &Vec<bool>, keep: Ghost<spec_fn(int) -> bool>) -> (r: Vec<HeadingCandidate>)
    requires
        removed@.len() == cs@.len(),
        forall|k: int| 0 <= k < cs@.len() ==> removed@[k] == !(keep@)(k),
    ensures
        cand_views(r@) == keep_where(cand_views(cs@), keep@, cs@.len() as int),
{
    let ghost cv = cand_views(cs@);
    let mut out: Vec<HeadingCandidate> = Vec::new();
    let mut i: usize = 0;
    while i < cs.len()
        invariant
            i <= cs@.len(),
            removed@.len() == cs@.len(),
            cv == cand_views(cs@),
            forall|k: int| 0 <= k < cs@.len() ==> removed@[k] == !(keep@)(k),
            cand_views(out@) == keep_where(cv, keep@, i as int),
        decreases cs@.len() - i,
    {
        if !removed[i] {
            let c = copy_cand(&cs[i]);
            let ghost before = cand_views(out@);
            out.push(c);
            assert(cand_views(out@) =~= before.push(cv[i as int]));
        }
        i = i + 1;
    }
    out
}

// ─── filter: legal clause lists before the first chapter ────────

/// Index of the first level-1 candidate at or after `i` (`cs.len()` if none).
pub open spec fn first_level_one(cs: Seq<CandView>, i: int) -> int
    decreases cs.len() - i,
{
    if i < 0 || i >= cs.len() {
        cs.len() as int
    } else if level_of(cs[i]) == 1 {
        i
    } else {
        first_level_one(cs, i + 1)
    }
}

/// The trimmed title ends with a clause mark (`；` or `。`).
pub open spec fn ends_clause(t: Seq<char>) -> bool {
    let u = trim(t);
    u.len() > 0 && (u.last() == '；' || u.last() == '。')
}

/// The trimmed title ends with a sentence mark (`。`, `！` or `？`).
pub open spec fn ends_sentence(t: Seq<char>) -> bool {
    let u = trim(t);
    u.len() > 0 && (u.last() == '。' || u.last() == '！' || u.last() == '？')
}

/// Start of the run of `paren_cjk` candidates that ends just before `j`.
pub open spec fn run_start(cs: Seq<CandView>, j: int) -> int
    decreases j,
{
    if j <= 0 || cs[j - 1].0 != HeadingKind::ParenCjk {
        j
    } else {
        run_start(cs, j - 1)
    }
}

/// End of the run of `paren_cjk` candidates from `j` on, bounded by `f`.
pub open spec fn run_end(cs: Seq<CandView>, j: int, f: int) -> int
    decreases f - j,
{
    if j >= f || cs[j].0 != HeadingKind::ParenCjk {
        j
    } else {
        run_end(cs, j + 1, f)
    }
}

/// How many candidates in `[a, b)` end with a clause mark.
pub open spec fn clause_count(cs: Seq<CandView>, a: int, b: int) -> nat
    decreases b - a,
{
    if b <= a {
        0
    } else {
        clause_count(cs, a, b - 1) + if ends_clause(cs[b - 1].1) { 1nat } else { 0nat }
    }
}

/// Candidate `i`, before the first chapter at `f`, is a list item: one of
/// three or more consecutive `（一）` items of which at least 70% end like a
/// legal clause, or a `一、` item that ends like a sentence.
pub open spec fn pseudo_removed(cs: Seq<CandView>, f: int, i: int) -> bool {
    &&& 0 <= i < f
    &&& {
        ||| (cs[i].0 == HeadingKind::ParenCjk && {
            let gs = run_start(cs, i);
            let ge = run_end(cs, i, f);
            ge - gs >= 3 && 10 * clause_count(cs, gs, ge) >= 7 * (ge - gs)
        })
        ||| (cs[i].0 == HeadingKind::CjkNumbered && ends_sentence(cs[i].1))
    }
}

/// The candidates without the list items before the first chapter; all of
/// them when there is no chapter or the first candidate is one.
pub open spec fn pseudo_filtered(cs: Seq<CandView>) -> Seq<CandView> {
    let f = first_level_one(cs, 0);
    if f >= cs.len() || f == 0 {
        cs
    } else {
        keep_where(cs, |i: int| !pseudo_removed(cs, f, i), cs.len() as int)
    }
}

proof fn lemma_run_start(cs: Seq<CandView>, i: int, k: int)
    requires
        0 <= i <= k < cs.len(),
        i == 0 || cs[i - 1].0 != HeadingKind::ParenCjk,
        forall|m: int| i <= m <= k ==> #[trigger] cs[m].0 == HeadingKind::ParenCjk,
    ensures
        run_start(cs, k) == i,
    decreases k - i,
{
    if k > i {
        lemma_run_start(cs, i, k - 1);
    }
}

proof fn lemma_run_end(cs: Seq<CandView>, k: int, ge: int, f: int)
    requires
        0 <= k <= ge <= f <= cs.len(),
        ge >= f || cs[ge].0 != HeadingKind::ParenCjk,
        forall|m: int| k <= m < ge ==> #[trigger] cs[m].0 == HeadingKind::ParenCjk,
    ensures
        run_end(cs, k, f) == ge,
    decreases ge - k,
{
    if k < ge {
        lemma_run_end(cs, k + 1, ge, f);
    }
}

fn ends_with_one_of(t: &[char], a: char, b: char, c: char) -> (r: bool)
    ensures
        r == ({ let u = trim(t@); u.len() > 0 && (u.last() == a || u.last() == b || u.last() == c) }),
{
    let u = trim_chars(t);
    if u.len() == 0 {
        return false;
    }
    let l = u[u.len() - 1];
    l == a || l == b || l == c
}

fn ends_clause_exec(t: &[char]) -> (r: bool)
    ensures
        r == ends_clause(t@),
{
    ends_with_one_of(t, '；', '。', '。')
}

fn ends_sentence_exec(t: &[char]) -> (r: bool)
    ensures
        r == ends_sentence(t@),
{
    ends_with_one_of(t, '。', '！', '？')
}

/// Rule one of the pseudo-section filter for candidate `m`.
pub open spec fn in_clause_run(cs: Seq<CandView>, f: int, m: int) -> bool {
    cs[m].0 == HeadingKind::ParenCjk && {
        let gs = run_start(cs, m);
        let ge = run_end(cs, m, f);
        ge - gs >= 3 && 10 * clause_count(cs, gs, ge) >= 7 * (ge - gs)
    }
}

/// Drops the numbered lists (legal clauses, notices) that precede the first
/// chapter and only look like sections.
pub fn filter_pseudo_section_candidates(cs: Vec<HeadingCandidate>) -> (r: Vec<HeadingCandidate>)
    ensures
        cand_views(r@) == pseudo_filtered(cand_views(cs@)),
{
    let ghost cv = cand_views(cs@);
    let n = cs.len();
    let mut f: usize = 0;
    while f < n && cs[f].level() != 1
        invariant
            f <= n,
            n == cs@.len(),
            cv == cand_views(cs@),
            first_level_one(cv, 0) == first_level_one(cv, f as int),
        decreases n - f,
    {
        f = f + 1;
    }
    if f >= n || f == 0 {
        return cs;
    }
    assert(first_level_one(cv, 0) == f);
    let mut removed: Vec<bool> = Vec::new();
    let mut k: usize = 0;
    while k < n
        invariant
            k <= n,
            removed@.len() == k,
            forall|m: int| 0 <= m < k ==> removed@[m] == false,
        decreases n - k,
    {
        removed.push(false);
        k = k + 1;
    }
    // rule one: runs of paren_cjk items that end like legal clauses
    let mut i: usize = 0;
    while i < f
        invariant
            i <= f < n,
            n == cs@.len(),
            cv == cand_views(cs@),
            removed@.len() == n,
            i < f && cv[i as int].0 == HeadingKind::ParenCjk ==> (i == 0 || cv[i - 1].0 != HeadingKind::ParenCjk),
            forall|m: int| 0 <= m < i ==> removed@[m] == in_clause_run(cv, f as int, m),
            forall|m: int| i <= m < n ==> removed@[m] == false,
        decreases f - i,
    {
        if cs[i].kind == HeadingKind::ParenCjk {
            let mut ge: usize = i;
            let mut count: usize = 0;
            while ge < f && cs[ge].kind == HeadingKind::ParenCjk
                invariant
                    i <= ge <= f < n,
                    n == cs@.len(),
                    cv == cand_views(cs@),
                    count == clause_count(cv, i as int, ge as int),
                    count <= ge - i,
                    forall|m: int| i <= m < ge ==> #[trigger] cv[m].0 == HeadingKind::ParenCjk,
                decreases f - ge,
            {
                let tc = chars_of(cs[ge].title.as_str());
                if ends_clause_exec(tc.as_slice()) {
                    count = count + 1;
                }
                ge = ge + 1;
            }
            let size = ge - i;
            let hit = size >= 3 && (count as u128) * 10 >= (size as u128) * 7;
            proof {
                assert forall|m: int| i <= m < ge implies in_clause_run(cv, f as int, m) == hit by {
                    lemma_run_start(cv, i as int, m);
                    lemma_run_end(cv, m, ge as int, f as int);
                    assert(cv[m].0 == HeadingKind::ParenCjk);
                }
            }
            let mut m: usize = i;
            while m < ge
                invariant
                    i <= m <= ge <= f < n,
                    removed@.len() == n,
                    forall|q: int| 0 <= q < i ==> removed@[q] == in_clause_run(cv, f as int, q),
                    forall|q: int| i <= q < ge ==> in_clause_run(cv, f as int, q) == hit,
                    forall|q: int| i <= q < m ==> removed@[q] == hit,
                    forall|q: int| m <= q < n ==> removed@[q] == false,
                decreases ge - m,
            {
                removed.set(m, hit);
                m = m + 1;
            }
            i = ge;
        } else {
            i = i + 1;
        }
    }
    // rule two: `一、` items that end like a sentence
    let mut j: usize = 0;
    while j < f
        invariant
            j <= f < n,
            n == cs@.len(),
            cv == cand_views(cs@),
            removed@.len() == n,
            forall|m: int| 0 <= m < j ==> removed@[m] == pseudo_removed(cv, f as int, m),
            forall|m: int| j <= m < f ==> removed@[m] == in_clause_run(cv, f as int, m),
            forall|m: int| f <= m < n ==> removed@[m] == false,
        decreases f - j,
    {
        if cs[j].kind == HeadingKind::CjkNumbered {
            let tc = chars_of(cs[j].title.as_str());
            if ends_sentence_exec(tc.as_slice()) {
                removed.set(j, true);
            }
        }
        j = j + 1;
    }
    let ghost keep = |m: int| !pseudo_removed(cv, f as int, m);
    keep_marked(&cs, &removed, Ghost(keep))
}

// ─── filter: numbering chains ───────────────────────────────────

/// The leading run of ASCII digits and dots.
pub open spec fn lead_num_chars(t: Seq<char>) -> Seq<char>
    decreases t.len(),
{
    if t.len() > 0 && (is_ascii_digit(t[0]) || t[0] == '.') {
        seq![t[0]] + lead_num_chars(t.drop_first())
    } else {
        Seq::<char>::empty()
    }
}

/// The leading run of ASCII digits.
pub open spec fn lead_digits(t: Seq<char>) -> Seq<char>
    decreases t.len(),
{
    if t.len() > 0 && is_ascii_digit(t[0]) {
        seq![t[0]] + lead_digits(t.drop_first())
    } else {
        Seq::<char>::empty()
    }
}

/// The pieces that parse as `u32`, in order.
pub open spec fn parsed_parts(ps: Seq<Seq<char>>) -> Seq<u32>
    decreases ps.len(),
{
    if ps.len() == 0 {
        Seq::<u32>::empty()
    } else {
        let p = parsed_parts(ps.drop_last());
        match parse_u32_spec(ps.last()) {
            Some(v) => p.push(v),
            None => p,
        }
    }
}

/// Index of the first `（` or `(` at or after `i` (`t.len()` if none).
pub open spec fn first_paren(t: Seq<char>, i: int) -> int
    decreases t.len() - i,
{
    if i < 0 || i >= t.len() {
        t.len() as int
    } else if t[i] == '（' || t[i] == '(' {
        i
    } else {
        first_paren(t, i + 1)
    }
}

/// A title's numbering: depth and numbers. `1.2.3` is depth 3, numbers
/// 1, 2, 3; `（2）` is depth 2, number 2 (0 when it has none).
pub open spec fn numbering(k: HeadingKind, title: Seq<char>) -> (nat, Seq<u32>) {
    if k == HeadingKind::DigitDot {
        let nums = parsed_parts(split_on(lead_num_chars(title), '.'));
        (nums.len(), nums)
    } else if k == HeadingKind::ParenDigit {
        let p = first_paren(title, 0);
        let after = if p < title.len() { title.subrange(p + 1, title.len() as int) } else { Seq::<char>::empty() };
        let num = match parse_u32_spec(lead_digits(after)) {
            Some(v) => v,
            None => 0u32,
        };
        (2, seq![num])
    } else {
        (1, seq![0u32])
    }
}

pub open spec fn chained(k: HeadingKind) -> bool {
    k == HeadingKind::DigitDot || k == HeadingKind::ParenDigit
}

/// Candidates `i` and `j` number at the same kind and depth.
pub open spec fn same_group(cs: Seq<CandView>, i: int, j: int) -> bool {
    cs[i].0 == cs[j].0 && numbering(cs[i].0, cs[i].1).0 == numbering(cs[j].0, cs[j].1).0
}

/// How many of the first `n` candidates are in `j`'s group.
pub open spec fn group_size(cs: Seq<CandView>, j: int, n: int) -> nat
    decreases n,
{
    if n <= 0 {
        0
    } else {
        group_size(cs, j, n - 1) + if chained(cs[n - 1].0) && same_group(cs, n - 1, j) { 1nat } else { 0nat }
    }
}

/// An earlier candidate of the same kind carries the same numbers.
pub open spec fn has_earlier_twin(cs: Seq<CandView>, j: int) -> bool {
    exists|i: int| 0 <= i < j && cs[i].0 == cs[j].0 && #[trigger] numbering(cs[i].0, cs[i].1).1 == numbering(cs[j].0, cs[j].1).1
}

pub open spec fn too_long_alone(k: HeadingKind, len: nat) -> bool {
    (k == HeadingKind::DigitDot && len > 35) || (k == HeadingKind::ParenDigit && len > 50)
}

pub open spec fn too_long_in_chain(k: HeadingKind, len: nat) -> bool {
    (k == HeadingKind::DigitDot && len > 40) || (k == HeadingKind::ParenDigit && len > 55)
}

/// A `1.`/`（1）` candidate that is body text: alone in its group and long
/// or holding a colon; or repeating an earlier number and ending like a
/// sentence or being long.
pub open spec fn chain_removed(cs: Seq<CandView>, j: int) -> bool {
    let t = cs[j].1;
    &&& chained(cs[j].0)
    &&& if group_size(cs, j, cs.len() as int) < 2 {
        too_long_alone(cs[j].0, t.len()) || has_char(t, '：') || has_char(t, ':')
    } else {
        has_earlier_twin(cs, j) && (ends_sentence(t) || too_long_in_chain(cs[j].0, t.len()))
    }
}

pub open spec fn chain_filtered(cs: Seq<CandView>) -> Seq<CandView> {
    keep_where(cs, |j: int| !chain_removed(cs, j), cs.len() as int)
}

fn lead_chars_exec(t: &[char], dots: bool) -> (r: Vec<char>)
    ensures
        r@ == if dots { lead_num_chars(t@) } else { lead_digits(t@) },
{
    let mut i: usize = 0;
    while i < t.len() && (('0' <= t[i] && t[i] <= '9') || (dots && t[i] == '.'))
        invariant
            i <= t@.len(),
            forall|k: int| 0 <= k < i ==> (is_ascii_digit(#[trigger] t@[k]) || (dots && t@[k] == '.')),
        decreases t@.len() - i,
    {
        i = i + 1;
    }
    proof {
        lemma_lead(t@, i as int, dots);
    }
    slice_range(t, 0, i)
}

proof fn lemma_lead(t: Seq<char>, i: int, dots: bool)
    requires
        0 <= i <= t.len(),
        forall|k: int| 0 <= k < i ==> (is_ascii_digit(#[trigger] t[k]) || (dots && t[k] == '.')),
        i == t.len() || !(is_ascii_digit(t[i]) || (dots && t[i] == '.')),
    ensures
        t.subrange(0, i) == if dots { lead_num_chars(t) } else { lead_digits(t) },
    decreases i,
{
    if i > 0 {
        let u = t.drop_first();
        assert forall|k: int| 0 <= k < i - 1 implies (is_ascii_digit(#[trigger] u[k]) || (dots && u[k] == '.')) by {
            assert(u[k] == t[k + 1]);
        }
        lemma_lead(u, i - 1, dots);
        assert(t.subrange(0, i) =~= seq![t[0]] + u.subrange(0, i - 1));
    } else {
        assert(t.subrange(0, 0) =~= Seq::<char>::empty());
    }
}

/// The numbering of a title, as `numbering` states it.
pub fn extract_numbering_info(title: &[char], k: HeadingKind) -> (r: (usize, Vec<u32>))
    ensures
        r.0 == numbering(k, title@).0,
        r.1@ == numbering(k, title@).1,
{
    if k == HeadingKind::DigitDot {
        let lead = lead_chars_exec(title, true);
        let parts = split_chars(lead.as_slice(), '.');
        let ghost pv = views(parts@);
        let mut nums: Vec<u32> = Vec::new();
        let mut i: usize = 0;
        while i < parts.len()
            invariant
                i <= parts@.len(),
                pv == views(parts@),
                nums@ == parsed_parts(pv.subrange(0, i as int)),
                nums@.len() <= i,
            decreases parts@.len() - i,
        {
            proof {
                let nxt = pv.subrange(0, i as int + 1);
                assert(nxt.drop_last() =~= pv.subrange(0, i as int));
                assert(nxt.last() == parts@[i as int]@);
            }
            match parse_u32(parts[i].as_slice()) {
                Some(v) => nums.push(v),
                None => {},
            }
            i = i + 1;
        }
        assert(pv.subrange(0, pv.len() as int) =~= pv);
        (nums.len(), nums)
    } else if k == HeadingKind::ParenDigit {
        let mut p: usize = 0;
        while p < title.len() && title[p] != '（' && title[p] != '('
            invariant
                p <= title@.len(),
                first_paren(title@, 0) == first_paren(title@, p as int),
            decreases title@.len() - p,
        {
            p = p + 1;
        }
        let after = if p < title.len() { slice_range(title, p + 1, title.len()) } else { Vec::new() };
        assert(after@ == (if p < title@.len() { title@.subrange(p + 1, title@.len() as int) } else { Seq::<char>::empty() }));
        let digits = lead_chars_exec(after.as_slice(), false);
        let num: u32 = match parse_u32(digits.as_slice()) {
            Some(v) => v,
            None => 0,
        };
        let mut nums: Vec<u32> = Vec::new();
        nums.push(num);
        assert(nums@ =~= seq![num]);
        (2, nums)
    } else {
        let mut nums: Vec<u32> = Vec::new();
        nums.push(0);
        assert(nums@ =~= seq![0u32]);
        (1, nums)
    }
}

fn nums_eq(a: &Vec<u32>, b: &Vec<u32>) -> (r: bool)
    ensures
        r == (a@ == b@),
{
    if a.len() != b.len() {
        return false;
    }
    let mut i: usize = 0;
    while i < a.len()
        invariant
            i <= a@.len(),
            a@.len() == b@.len(),
            forall|k: int| 0 <= k < i ==> a@[k] == b@[k],
        decreases a@.len() - i,
    {
        if a[i] != b[i] {
            return false;
        }
        i = i + 1;
    }
    assert(a@ =~= b@);
    true
}

/// Drops `1.`/`（1）` candidates whose numbering does not form a chain with
/// the other candidates of their kind and depth and that read like body text.
pub fn validate_numbering_chains(cs: Vec<HeadingCandidate>) -> (r: Vec<HeadingCandidate>)
    ensures
        cand_views(r@) == chain_filtered(cand_views(cs@)),
{
    let ghost cv = cand_views(cs@);
    let n = cs.len();
    let mut info: Vec<(usize, Vec<u32>)> = Vec::new();
    let mut i: usize = 0;
    while i < n
        invariant
            i <= n,
            n == cs@.len(),
            cv == cand_views(cs@),
            info@.len() == i,
            forall|m: int| 0 <= m < i ==> (#[trigger] info@[m]).0 == numbering(cv[m].0, cv[m].1).0
                && info@[m].1@ == numbering(cv[m].0, cv[m].1).1,
        decreases n - i,
    {
        let tc = chars_of(cs[i].title.as_str());
        let x = extract_numbering_info(tc.as_slice(), cs[i].kind);
        info.push(x);
        i = i + 1;
    }
    let mut removed: Vec<bool> = Vec::new();
    let mut j: usize = 0;
    while j < n
        invariant
            j <= n,
            n == cs@.len(),
            cv == cand_views(cs@),
            info@.len() == n,
            forall|m: int| 0 <= m < n ==> (#[trigger] info@[m]).0 == numbering(cv[m].0, cv[m].1).0
                && info@[m].1@ == numbering(cv[m].0, cv[m].1).1,
            removed@.len() == j,
            forall|m: int| 0 <= m < j ==> removed@[m] == chain_removed(cv, m),
        decreases n - j,
    {
        let kj = cs[j].kind;
        let mut rm = false;
        if kj == HeadingKind::DigitDot || kj == HeadingKind::ParenDigit {
            let mut size: usize = 0;
            let mut q: usize = 0;
            while q < n
                invariant
                    q <= n,
                    j < n,
                    kj == cs@[j as int].kind,
                    n == cs@.len(),
                    cv == cand_views(cs@),
                    info@.len() == n,
                    forall|m: int| 0 <= m < n ==> (#[trigger] info@[m]).0 == numbering(cv[m].0, cv[m].1).0
                        && info@[m].1@ == numbering(cv[m].0, cv[m].1).1,
                    size == group_size(cv, j as int, q as int),
                    size <= q,
                decreases n - q,
            {
                let kq = cs[q].kind;
                proof {
                    let iq = info@[q as int];
                    let ij = info@[j as int];
                    assert(cv[q as int] == cand_view(cs@[q as int]));
                    assert(cv[j as int] == cand_view(cs@[j as int]));
                    assert(same_group(cv, q as int, j as int) == (kq == kj && iq.0 == ij.0));
                }
                if (kq == HeadingKind::DigitDot || kq == HeadingKind::ParenDigit) && kq == kj && info[q].0 == info[j].0 {
                    size = size + 1;
                }
                q = q + 1;
            }
            let tc = chars_of(cs[j].title.as_str());
            let len = tc.len();
            if size < 2 {
                let long = (kj == HeadingKind::DigitDot && len > 35) || (kj == HeadingKind::ParenDigit && len > 50);
                rm = long || has_char_exec(tc.as_slice(), '：') || has_char_exec(tc.as_slice(), ':');
            } else {
                let mut twin = false;
                let mut p: usize = 0;
                while p < j
                    invariant
                        p <= j < n,
                        kj == cs@[j as int].kind,
                        n == cs@.len(),
                        cv == cand_views(cs@),
                        info@.len() == n,
                        forall|m: int| 0 <= m < n ==> (#[trigger] info@[m]).0 == numbering(cv[m].0, cv[m].1).0
                            && info@[m].1@ == numbering(cv[m].0, cv[m].1).1,
                        twin == exists|i: int| 0 <= i < p && cv[i].0 == cv[j as int].0
                            && #[trigger] numbering(cv[i].0, cv[i].1).1 == numbering(cv[j as int].0, cv[j as int].1).1,
                    decreases j - p,
                {
                    let ghost ip = info@[p as int];
                    let ghost ij = info@[j as int];
                    let same = cs[p].kind == kj && nums_eq(&info[p].1, &info[j].1);
                    assert(cv[p as int] == cand_view(cs@[p as int]));
                    assert(cv[j as int] == cand_view(cs@[j as int]));
                    assert(same == (cv[p as int].0 == cv[j as int].0 && numbering(cv[p as int].0, cv[p as int].1).1 == numbering(cv[j as int].0, cv[j as int].1).1));
                    if same {
                        twin = true;
                    }
                    p = p + 1;
                }
                if twin {
                    let long = (kj == HeadingKind::DigitDot && len > 40) || (kj == HeadingKind::ParenDigit && len > 55);
                    rm = ends_sentence_exec(tc.as_slice()) || long;
                }
            }
        }
        removed.push(rm);
        j = j + 1;
    }
    let ghost keep = |m: int| !chain_removed(cv, m);
    keep_marked(&cs, &removed, Ghost(keep))
}

// ─── filter: table-of-contents pages ────────────────────────────

/// Some block with this id is a paragraph.
pub open spec fn is_paragraph_id(blocks: Seq<BlockView>, id: Seq<char>) -> bool {
    exists|q: int| 0 <= q < blocks.len() && blocks[q].0 == id && #[trigger] blocks[q].1 == BlockType::Paragraph
}

/// First block at or after `k` on page `p` with this id.
pub open spec fn first_on_page(blocks: Seq<BlockView>, p: usize, id: Seq<char>, k: int) -> Option<int>
    decreases blocks.len() - k,
{
    if k < 0 || k >= blocks.len() {
        None
    } else if blocks[k].3 == p && blocks[k].0 == id {
        Some(k)
    } else {
        first_on_page(blocks, p, id, k + 1)
    }
}

/// Nothing of paragraph kind follows the candidate's block on its page.
pub open spec fn isolated(blocks: Seq<BlockView>, c: CandView) -> bool {
    match first_on_page(blocks, c.2, c.3, 0) {
        Some(k) => !exists|q: int| k <= q < blocks.len() && blocks[q].3 == c.2 && #[trigger] is_paragraph_id(blocks, blocks[q].0),
        None => true,
    }
}

/// How many of the first `n` candidates are isolated level-1 candidates on page `p`.
pub open spec fn isolated_l1_count(cs: Seq<CandView>, blocks: Seq<BlockView>, p: usize, n: int) -> nat
    decreases n,
{
    if n <= 0 {
        0
    } else {
        isolated_l1_count(cs, blocks, p, n - 1) + if level_of(cs[n - 1]) == 1 && cs[n - 1].2 == p && isolated(blocks, cs[n - 1]) { 1nat } else { 0nat }
    }
}

/// A level-1 candidate on a page with three or more isolated level-1
/// candidates: a table of contents.
pub open spec fn toc_removed(cs: Seq<CandView>, blocks: Seq<BlockView>, i: int) -> bool {
    level_of(cs[i]) == 1 && isolated_l1_count(cs, blocks, cs[i].2, cs.len() as int) >= 3
}

pub open spec fn toc_filtered(cs: Seq<CandView>, blocks: Seq<BlockView>) -> Seq<CandView> {
    keep_where(cs, |i: int| !toc_removed(cs, blocks, i), cs.len() as int)
}

fn is_paragraph_id_exec(blocks: &Vec<FlatBlock>, id: &str) -> (r: bool)
    ensures
        r == is_paragraph_id(block_views(blocks@), id@),
{
    let ghost bv = block_views(blocks@);
    let mut q: usize = 0;
    while q < blocks.len()
        invariant
            q <= blocks@.len(),
            bv == block_views(blocks@),
            forall|m: int| 0 <= m < q ==> !(bv[m].0 == id@ && #[trigger] bv[m].1 == BlockType::Paragraph),
        decreases blocks@.len() - q,
    {
        let bc = chars_of(blocks[q].id.as_str());
        if blocks[q].block_type == BlockType::Paragraph && eq_str(bc.as_slice(), id) {
            assert(bv[q as int].0 == id@ && bv[q as int].1 == BlockType::Paragraph);
            return true;
        }
        q = q + 1;
    }
    false
}

fn block_is_at(blocks: &Vec<FlatBlock>, k: usize, page: usize, id: &str) -> (r: bool)
    requires
        k < blocks@.len(),
    ensures
        r == (block_views(blocks@)[k as int].3 == page && block_views(blocks@)[k as int].0 == id@),
{
    let bc = chars_of(blocks[k].id.as_str());
    blocks[k].page == page && eq_str(bc.as_slice(), id)
}

fn isolated_exec(blocks: &Vec<FlatBlock>, c: &HeadingCandidate) -> (r: bool)
    ensures
        r == isolated(block_views(blocks@), cand_view(*c)),
{
    let ghost bv = block_views(blocks@);
    let n = blocks.len();
    let mut k: usize = 0;
    while k < n && !block_is_at(blocks, k, c.page, c.block_id.as_str())
        invariant
            k <= n,
            n == blocks@.len(),
            bv == block_views(blocks@),
            first_on_page(bv, c.page, c.block_id@, 0) == first_on_page(bv, c.page, c.block_id@, k as int),
        decreases n - k,
    {
        k = k + 1;
    }
    if k >= n {
        return true;
    }
    assert(first_on_page(bv, c.page, c.block_id@, 0) == Some(k as int));
    let mut q: usize = k;
    while q < n
        invariant
            k <= q <= n,
            n == blocks@.len(),
            bv == block_views(blocks@),
            first_on_page(bv, c.page, c.block_id@, 0) == Some(k as int),
            forall|m: int| k <= m < q ==> !(bv[m].3 == c.page && #[trigger] is_paragraph_id(bv, bv[m].0)),
        decreases n - q,
    {
        if blocks[q].page == c.page && is_paragraph_id_exec(blocks, blocks[q].id.as_str()) {
            assert(bv[q as int].3 == c.page && is_paragraph_id(bv, bv[q as int].0));
            return false;
        }
        q = q + 1;
    }
    true
}

/// Drops the level-1 candidates of table-of-contents pages.
pub fn filter_toc_page_candidates(cs: Vec<HeadingCandidate>, blocks: &Vec<FlatBlock>) -> (r: Vec<HeadingCandidate>)
    ensures
        cand_views(r@) == toc_filtered(cand_views(cs@), block_views(blocks@)),
{
    let ghost cv = cand_views(cs@);
    let ghost bv = block_views(blocks@);
    let n = cs.len();
    let mut iso: Vec<bool> = Vec::new();
    let mut i: usize = 0;
    while i < n
        invariant
            i <= n,
            n == cs@.len(),
            cv == cand_views(cs@),
            bv == block_views(blocks@),
            iso@.len() == i,
            forall|m: int| 0 <= m < i ==> iso@[m] == (level_of(cv[m]) == 1 && isolated(bv, cv[m])),
        decreases n - i,
    {
        let x = cs[i].level() == 1 && isolated_exec(blocks, &cs[i]);
        iso.push(x);
        i = i + 1;
    }
    let mut removed: Vec<bool> = Vec::new();
    let mut j: usize = 0;
    while j < n
        invariant
            j <= n,
            n == cs@.len(),
            cv == cand_views(cs@),
            bv == block_views(blocks@),
            iso@.len() == n,
            forall|m: int| 0 <= m < n ==> iso@[m] == (level_of(cv[m]) == 1 && isolated(bv, cv[m])),
            removed@.len() == j,
            forall|m: int| 0 <= m < j ==> removed@[m] == toc_removed(cv, bv, m),
        decreases n - j,
    {
        let mut rm = false;
        if cs[j].level() == 1 {
            let mut count: usize = 0;
            let mut q: usize = 0;
            while q < n
                invariant
                    q <= n,
                    j < n,
                    n == cs@.len(),
                    cv == cand_views(cs@),
                    iso@.len() == n,
                    forall|m: int| 0 <= m < n ==> iso@[m] == (level_of(cv[m]) == 1 && isolated(bv, cv[m])),
                    count == isolated_l1_count(cv, bv, cv[j as int].2, q as int),
                    count <= q,
                decreases n - q,
            {
                if iso[q] && cs[q].page == cs[j].page {
                    count = count + 1;
                }
                q = q + 1;
            }
            rm = count >= 3;
        }
        removed.push(rm);
        j = j + 1;
    }
    let ghost keep = |m: int| !toc_removed(cv, bv, m);
    keep_marked(&cs, &removed, Ghost(keep))
}

} // verus!
