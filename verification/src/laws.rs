//! Properties that hold across the library's functions.
use vstd::prelude::*;

use crate::chat::{first_by_id, pair_ids};
use crate::routing::{
    id_routed, keyword_routes, lemma_fallback_keeps, lemma_fallback_routes_all, lemma_grouped_keeps, lemma_keyword_routes_has, routes_to,
    routing_of, with_fallback, RouteRule,
};
use crate::types::{agent_id_eq, AgentId};
use crate::candidates::{chain_filtered, chain_removed, chained, flat_blocks, group_size, keep_where, too_long_alone, CandView};
use crate::text::has_char;
use crate::risk_taxonomy::{code_index, owner_of, add_unique, candidates_of, category_codes, display_name_of, evidence_category, segment_categories, segment_separators};
use crate::text::split_any;
use crate::text::string_views;
use crate::coordination::{agent_id_of, distinct, id_char, id_chars, overlapping, shared};
use crate::document::{BlockType, RawBlock, RawDocument, RawPage, RawTable};
use crate::dynamic_agents::{manifest_after, without_id, DefView};
use crate::headings::{kind_level, split_inline, HeadingKind};
use crate::desensitize::masked;
use crate::patterns::regex_replaced;
use crate::risk_taxonomy::{is_regional, rule_local_award, rule_local_registration, rule_regional_performance, rule_scale_threshold};
use crate::text::contains;
use crate::orphans::{by_page, orphans_of, orphans_upto, page_groups, page_slot, GroupView, OrphanView};
use crate::injection::{
    by_start, claim_pages, claim_table, claim_tables, forest_size, forest_taken, lemma_by_start_size, node_claim, tree_size, Claim,
};
use crate::knowledge::{hex_digit, hex_of, id_of, sha256_digest};
use crate::sectionize::{accepted_candidates, nodes_at_level, nodes_of, assigned_upto, forest_ok, section_node, subtree_end, subtree_end_from, lemma_subtree_end_bounds, NodeView, Section};
use crate::tables::{can_join, joined_at, lemma_merge_len, merge_upto, merged_tables, page_tables, table_views, detected_count, TableView, cells_of, detected, pipe_cols, pipe_runs, pipe_table, same_run_end, lemma_same_run_end};
use crate::timeline::{
    all_hits, event_hits, has_type, julian, lookup, tdiv, parse_date_spec, rule_description, rule_detail, rule_hits, rule_other_type,
    rule_own_type, rule_violated, ContradictionView, Date, DateError, DateEvent, DatedLabel,
    add_all, add_pair, add_row, announcement_basis, constraint_views, inferred, ConstraintView, TimelineConstraint,
};
use crate::numbers::{parse_i32_spec, parse_u32_spec};
use crate::text::{replace_char, split_on, trim};
use crate::types::{l1_keywords, l3_keywords, lowered_hit, tier_of_text, ReviewClause, RiskTier};
use crate::text::lowercase;
use crate::rag::{best_of, diversified, group_key, insert_desc, others_of, region_bests, region_order, region_rest, sort_desc, SearchHit};

verus! {

// ─── section trees ──────────────────────────────────────────────

/// Every section of the forest has a lower level than each of its
/// children, at every depth.
pub open spec fn nested_deeper(secs: Seq<Section>) -> bool
    decreases secs,
{
    if secs.len() == 0 {
        true
    } else {
        &&& forall|k: int| 0 <= k < secs[0].children@.len() ==> #[trigger] secs[0].children@[k].level > secs[0].level
        &&& nested_deeper(secs[0].children@)
        &&& nested_deeper(secs.subrange(1, secs.len() as int))
    }
}

/// Every root of the forest has a level above `lv`.
pub open spec fn roots_above(secs: Seq<Section>, lv: u8) -> bool {
    forall|k: int| 0 <= k < secs.len() ==> #[trigger] secs[k].level > lv
}

proof fn lemma_subtree_levels(nodes: Seq<NodeView>, i: int, k: int, hi: int, m: int)
    requires
        i < k <= m < subtree_end_from(nodes, i, k, hi),
        k <= hi,
    ensures
        nodes[m].0 > nodes[i].0,
    decreases hi - k,
{
    if k < hi && !(nodes[k].0 <= nodes[i].0) && m > k {
        lemma_subtree_end_bounds(nodes, i, k + 1, hi);
        lemma_subtree_levels(nodes, i, k + 1, hi, m);
    }
}

proof fn lemma_forest_nested(secs: Seq<Section>, nodes: Seq<NodeView>, lo: int, hi: int, lv: u8, bounded: bool)
    requires
        lo <= hi,
        forest_ok(secs, nodes, lo, hi),
        bounded ==> forall|m: int| lo <= m < hi ==> #[trigger] nodes[m].0 > lv,
    ensures
        nested_deeper(secs),
        bounded ==> roots_above(secs, lv),
    decreases hi - lo,
{
    if lo < hi {
        let e = subtree_end(nodes, lo, hi);
        lemma_subtree_end_bounds(nodes, lo, lo + 1, hi);
        let rest = secs.subrange(1, secs.len() as int);
        assert forall|m: int| lo + 1 <= m < e implies #[trigger] nodes[m].0 > nodes[lo].0 by {
            lemma_subtree_levels(nodes, lo, lo + 1, hi, m);
        }
        assert(section_node(secs[0]) == nodes[lo]);
        lemma_forest_nested(secs[0].children@, nodes, lo + 1, e, nodes[lo].0, true);
        lemma_forest_nested(rest, nodes, e, hi, lv, bounded);
        if bounded {
            assert forall|k: int| 0 <= k < secs.len() implies #[trigger] secs[k].level > lv by {
                if k > 0 {
                    assert(rest[k - 1] == secs[k]);
                }
            }
        }
    }
}

/// In a section tree, a section's children are always of a deeper level
/// than the section itself (a chapter holds sections, a section holds
/// sub-sections, and so on), at every depth.
pub proof fn law_children_are_deeper(secs: Seq<Section>, nodes: Seq<NodeView>, n: int)
    requires
        0 <= n,
        forest_ok(secs, nodes, 0, n),
    ensures
        nested_deeper(secs),
{
    lemma_forest_nested(secs, nodes, 0, n, 0, false);
}

// ─── tables written with `|` ────────────────────────────────────

proof fn lemma_run_end_blocks(bs: Seq<RawBlock>, cols: nat, j: int, m: int)
    requires
        0 <= j <= m < same_run_end(bs, cols, j),
        j <= bs.len(),
    ensures
        bs[m].block_type == BlockType::Paragraph,
        pipe_cols(bs[m].text@) == cols,
    decreases bs.len() - j,
{
    if m > j {
        lemma_run_end_blocks(bs, cols, j + 1, m);
    }
}

proof fn lemma_runs_regular(bs: Seq<RawBlock>, i: int, k: int)
    requires
        0 <= i <= bs.len(),
        0 <= k < pipe_runs(bs, i).len(),
    ensures
        ({
            let run = pipe_runs(bs, i)[k];
            &&& i <= run.0
            &&& run.1 - run.0 >= 2
            &&& run.1 <= bs.len()
            &&& pipe_cols(bs[run.0].text@) >= 2
            &&& forall|m: int| run.0 <= m < run.1 ==> #[trigger] pipe_cols(bs[m].text@) == pipe_cols(bs[run.0].text@)
        }),
    decreases bs.len() - i,
{
    if i < bs.len() {
        if bs[i].block_type != BlockType::Paragraph || pipe_cols(bs[i].text@) < 2 {
            lemma_runs_regular(bs, i + 1, k);
        } else {
            let cols = pipe_cols(bs[i].text@);
            let j = same_run_end(bs, cols, i);
            lemma_same_run_end(bs, cols, i + 1);
            if j - i < 2 {
                lemma_runs_regular(bs, j, k);
            } else if k == 0 {
                assert forall|m: int| i <= m < j implies #[trigger] pipe_cols(bs[m].text@) == cols by {
                    lemma_run_end_blocks(bs, cols, i, m);
                }
            } else {
                assert(pipe_runs(bs, i) == seq![(i, j)] + pipe_runs(bs, j));
                lemma_runs_regular(bs, j, k - 1);
            }
        }
    }
}

/// A table found among `|`-separated paragraphs has at least two rows, and
/// every row has the same number of cells, at least two.
pub proof fn law_pipe_tables_are_regular(p: RawPage, k: int)
    requires
        0 <= k < detected(p).len(),
    ensures
        detected(p)[k].1.len() >= 2,
        detected(p)[k].1[0].len() >= 2,
        forall|r: int| 0 <= r < detected(p)[k].1.len() ==> #[trigger] detected(p)[k].1[r].len() == detected(p)[k].1[0].len(),
{
    let bs = p.blocks@;
    lemma_runs_regular(bs, 0, k);
    let run = pipe_runs(bs, 0)[k];
    let t = detected(p)[k];
    assert(t == pipe_table(bs, p.page_index, p.tables@.len() as int, k));
    assert forall|r: int| 0 <= r < t.1.len() implies #[trigger] t.1[r].len() == pipe_cols(bs[run.0].text@) by {
        assert(t.1[r] == cells_of(bs[run.0 + r].text@));
        assert(pipe_cols(bs[run.0 + r].text@) == pipe_cols(bs[run.0].text@));
    }
}

// ─── dates ──────────────────────────────────────────────────────

/// Counting days from `a` to `b` is the negation of counting from `b` to `a`.
pub proof fn law_days_antisymmetric(a: Date, b: Date)
    ensures
        julian(b) - julian(a) == -(julian(a) - julian(b)),
{
}

/// Day counts add up: from `a` to `c` is from `a` to `b` plus from `b` to `c`.
pub proof fn law_days_add_up(a: Date, b: Date, c: Date)
    ensures
        julian(c) - julian(a) == (julian(b) - julian(a)) + (julian(c) - julian(b)),
{
}

/// The next day of the same month is one calendar day later.
pub proof fn law_next_day_is_one_day_later(y: i32, m: u32, d: u32)
    requires
        d < u32::MAX,
    ensures
        julian((y, m, (d + 1) as u32)) == julian((y, m, d)) + 1,
{
}

// ─── ids and names ──────────────────────────────────────────────

proof fn lemma_hex_len(bytes: Seq<u8>)
    ensures
        hex_of(bytes).len() == 2 * bytes.len(),
        forall|i: int| 0 <= i < hex_of(bytes).len() ==> {
            let c = #[trigger] hex_of(bytes)[i];
            ('0' <= c && c <= '9') || ('a' <= c && c <= 'f')
        },
    decreases bytes.len(),
{
    if bytes.len() > 0 {
        lemma_hex_len(bytes.drop_last());
        let b = bytes.last();
        let h = hex_of(bytes.drop_last());
        assert(hex_of(bytes) == h + seq![hex_digit(b / 16), hex_digit(b % 16)]);
        assert forall|i: int| 0 <= i < hex_of(bytes).len() implies {
            let c = #[trigger] hex_of(bytes)[i];
            ('0' <= c && c <= '9') || ('a' <= c && c <= 'f')
        } by {
            if i >= h.len() {
                let n: u8 = if i == h.len() { b / 16 } else { b % 16 };
                assert(n < 16);
                assert(hex_of(bytes)[i] == hex_digit(n));
                assert(n < 10 ==> (n + 48) as u32 == (n + 48) as u8 as u32);
            }
        }
    }
}

/// A deterministic id is eight lower-case hex digits.
pub proof fn law_ids_are_eight_hex_digits(text: Seq<char>)
    requires
        sha256_digest(text).len() == 32,
    ensures
        id_of(text).len() == 8,
        forall|i: int| 0 <= i < 8 ==> {
            let c = #[trigger] id_of(text)[i];
            ('0' <= c && c <= '9') || ('a' <= c && c <= 'f')
        },
{
    lemma_hex_len(sha256_digest(text).subrange(0, 4));
}

proof fn lemma_id_chars_valid(s: Seq<char>)
    ensures
        forall|i: int| 0 <= i < id_chars(s).len() ==> id_char(#[trigger] id_chars(s)[i]),
    decreases s.len(),
{
    if s.len() > 0 {
        lemma_id_chars_valid(s.drop_last());
        let prev = id_chars(s.drop_last());
        assert forall|i: int| 0 <= i < id_chars(s).len() implies id_char(#[trigger] id_chars(s)[i]) by {
            if i < prev.len() {
                assert(id_chars(s)[i] == prev[i]);
            }
        }
    }
}

/// An agent id is never empty and holds only ASCII letters, digits and
/// underscores.
pub proof fn law_agent_ids_are_valid(name: Seq<char>)
    ensures
        agent_id_of(name).len() > 0,
        forall|i: int| 0 <= i < agent_id_of(name).len() ==> id_char(#[trigger] agent_id_of(name)[i]),
{
    lemma_id_chars_valid(name);
    if id_chars(name).len() == 0 {
        reveal_strlit("Unknown");
    }
}

// ─── risk tiers ─────────────────────────────────────────────────

/// A clause with a high-risk keyword is `High`, whatever else it holds.
pub proof fn law_high_risk_keyword_wins(text: Seq<char>)
    requires
        lowered_hit(lowercase(text), l3_keywords()),
    ensures
        tier_of_text(text) == RiskTier::High,
{
}

/// A clause with no keyword of either list is `Medium`.
pub proof fn law_no_keyword_is_medium(text: Seq<char>)
    requires
        !lowered_hit(lowercase(text), l3_keywords()),
        !lowered_hit(lowercase(text), l1_keywords()),
    ensures
        tier_of_text(text) == RiskTier::Medium,
{
}

// ─── inline headings ────────────────────────────────────────────

/// Splitting a line at inline headings always gives at least one piece.
pub proof fn law_split_inline_is_never_empty(line: Seq<char>)
    ensures
        split_inline(line).len() >= 1,
{
}

// ─── tables put into sections ───────────────────────────────────

proof fn lemma_claim_table_once(c: Claim, t: RawTable)
    requires
        c.2.no_duplicates(),
    ensures
        claim_table(c, t).2.no_duplicates(),
{
    let r = claim_table(c, t).2;
    if r != c.2 {
        assert forall|i: int, j: int| 0 <= i < r.len() && 0 <= j < r.len() && i != j implies r[i] != r[j] by {
            if i == c.2.len() && j < c.2.len() {
                assert(c.2[j] == r[j]);
            } else if j == c.2.len() && i < c.2.len() {
                assert(c.2[i] == r[i]);
            }
        }
    }
}

proof fn lemma_claim_tables_once(c: Claim, ts: Seq<RawTable>)
    requires
        c.2.no_duplicates(),
    ensures
        claim_tables(c, ts).2.no_duplicates(),
    decreases ts.len(),
{
    if ts.len() > 0 {
        lemma_claim_tables_once(c, ts.drop_last());
        lemma_claim_table_once(claim_tables(c, ts.drop_last()), ts.last());
    }
}

proof fn lemma_claim_pages_once(c: Claim, pages: Seq<RawPage>, lo: int, hi: int)
    requires
        c.2.no_duplicates(),
    ensures
        claim_pages(c, pages, lo, hi).2.no_duplicates(),
    decreases hi - lo + 1,
{
    if hi >= lo {
        lemma_claim_pages_once(c, pages, lo, hi - 1);
        lemma_claim_tables_once(claim_pages(c, pages, lo, hi - 1), crate::injection::tables_at(pages, hi));
    }
}

proof fn lemma_node_once(s: Section, pages: Seq<RawPage>, taken: Seq<Seq<char>>)
    requires
        taken.no_duplicates(),
    ensures
        node_claim(s, pages, taken).2.no_duplicates(),
    decreases tree_size(s), 0int,
{
    lemma_by_start_size(s.children@);
    let kids = by_start(s.children@);
    lemma_forest_once(kids, pages, taken);
    let vk = forest_taken(kids, pages, taken);
    let c0: Claim = (Seq::<Seq<char>>::empty(), crate::text::string_views(s.block_ids@), vk);
    lemma_claim_pages_once(c0, pages, s.body_page_start as int, s.body_page_end as int);
    let c1 = claim_pages(c0, pages, s.body_page_start as int, s.body_page_end as int);
    lemma_claim_pages_once(c1, pages, s.page_start as int, s.page_end as int);
}

proof fn lemma_forest_once(ss: Seq<Section>, pages: Seq<RawPage>, taken: Seq<Seq<char>>)
    requires
        taken.no_duplicates(),
    ensures
        forest_taken(ss, pages, taken).no_duplicates(),
    decreases forest_size(ss), 1int,
{
    if ss.len() > 0 {
        let front = ss.subrange(0, ss.len() - 1);
        assert(forest_size(ss) == forest_size(front) + tree_size(ss[ss.len() - 1]));
        lemma_forest_once(front, pages, taken);
        lemma_node_once(ss[ss.len() - 1], pages, forest_taken(front, pages, taken));
    }
}

/// When the tables of a document are put into a section tree, no table is
/// put in twice: the ids of the tables taken, over the whole tree, are all
/// different.
pub proof fn law_each_table_is_injected_once(ss: Seq<Section>, pages: Seq<RawPage>)
    ensures
        forest_taken(ss, pages, Seq::<Seq<char>>::empty()).no_duplicates(),
{
    assert(Seq::<Seq<char>>::empty().no_duplicates());
    lemma_forest_once(ss, pages, Seq::<Seq<char>>::empty());
}

// ─── dynamic agents ─────────────────────────────────────────────

proof fn lemma_without_id_len(ds: Seq<DefView>, id: Seq<char>)
    ensures
        without_id(ds, id).len() <= ds.len(),
    decreases ds.len(),
{
    if ds.len() > 0 {
        lemma_without_id_len(ds.drop_last(), id);
    }
}

/// The manifest of dynamic agents never grows past twenty: adding a
/// definition to a manifest of at most twenty leaves at most twenty.
pub proof fn law_manifest_keeps_at_most_twenty(ds: Seq<DefView>, d: DefView)
    requires
        ds.len() <= 20,
    ensures
        manifest_after(ds, d).len() <= 20,
{
    lemma_without_id_len(ds, d.0);
    let kept = without_id(ds, d.0).push(d);
    if kept.len() > 20 {
        crate::dynamic_agents::lemma_by_created_len(kept);
    }
}

// ─── blocks no section owns ─────────────────────────────────────

pub open spec fn lists_id(os: Seq<OrphanView>, id: Seq<char>) -> bool {
    exists|i: int| 0 <= i < os.len() && (#[trigger] os[i]).0 == id
}

pub open spec fn grouped(gs: Seq<GroupView>, id: Seq<char>) -> bool {
    exists|i: int| 0 <= i < gs.len() && (#[trigger] gs[i]).2.contains(id)
}

proof fn lemma_orphan_listed(doc: RawDocument, owned: Seq<Seq<char>>, p: int, b: int, q: int, k: int)
    requires
        0 <= q < doc.pages@.len(),
        0 <= k < doc.pages@[q].blocks@.len(),
        0 <= p <= doc.pages@.len(),
        0 <= b,
        p < doc.pages@.len() ==> b <= doc.pages@[p].blocks@.len(),
        p == doc.pages@.len() ==> b == 0,
        q < p || (q == p && k < b),
        !owned.contains(doc.pages@[q].blocks@[k].id@),
    ensures
        lists_id(orphans_upto(doc, owned, p, b), doc.pages@[q].blocks@[k].id@),
    decreases p, b,
{
    let id = doc.pages@[q].blocks@[k].id@;
    if b <= 0 {
        lemma_orphan_listed(doc, owned, p - 1, doc.pages@[p - 1].blocks@.len() as int, q, k);
        assert(orphans_upto(doc, owned, p, b) == orphans_upto(doc, owned, p - 1, doc.pages@[p - 1].blocks@.len() as int));
    } else {
        let prev = orphans_upto(doc, owned, p, b - 1);
        let cur = orphans_upto(doc, owned, p, b);
        if q == p && k == b - 1 {
            assert(cur[cur.len() - 1].0 == id);
        } else {
            lemma_orphan_listed(doc, owned, p, b - 1, q, k);
            let i = choose|i: int| 0 <= i < prev.len() && (#[trigger] prev[i]).0 == id;
            assert(cur[i] == prev[i]);
        }
    }
}

proof fn lemma_by_page_lists(os: Seq<OrphanView>, id: Seq<char>)
    requires
        lists_id(os, id),
    ensures
        lists_id(by_page(os), id),
    decreases os.len(),
{
    let r = by_page(os.drop_last());
    crate::orphans::lemma_slot_fits(r, os.last().2);
    let j = page_slot(r, os.last().2);
    let out = by_page(os);
    if os.last().0 == id {
        assert(out[j].0 == id);
    } else {
        let i = choose|i: int| 0 <= i < os.len() && (#[trigger] os[i]).0 == id;
        assert(os.drop_last()[i].0 == id);
        lemma_by_page_lists(os.drop_last(), id);
        let m = choose|m: int| 0 <= m < r.len() && (#[trigger] r[m]).0 == id;
        if m < j {
            assert(out[m] == r[m]);
        } else {
            assert(out[m + 1] == r[m]);
        }
    }
}

proof fn lemma_groups_hold(os: Seq<OrphanView>, id: Seq<char>)
    requires
        lists_id(os, id),
    ensures
        grouped(page_groups(os), id),
    decreases os.len(),
{
    let g = page_groups(os.drop_last());
    let x = os.last();
    let out = page_groups(os);
    if x.0 == id {
        if g.len() > 0 && x.2 <= g.last().1 + 1 {
            assert(out[g.len() - 1].2 == g.last().2.push(x.0));
            assert(out[g.len() - 1].2[g.last().2.len() as int] == id);
        } else {
            assert(out[g.len() as int].2 == seq![x.0]);
            assert(out[g.len() as int].2[0] == id);
        }
    } else {
        let i = choose|i: int| 0 <= i < os.len() && (#[trigger] os[i]).0 == id;
        assert(os.drop_last()[i].0 == id);
        lemma_groups_hold(os.drop_last(), id);
        let m = choose|m: int| 0 <= m < g.len() && (#[trigger] g[m]).2.contains(id);
        let w = choose|w: int| 0 <= w < g[m].2.len() && g[m].2[w] == id;
        if g.len() > 0 && x.2 <= g.last().1 + 1 && m == g.len() - 1 {
            assert(out[m].2 == g[m].2.push(x.0));
            assert(out[m].2[w] == id);
        } else {
            assert(out[m] == g[m]);
        }
    }
}

/// No text of a document is lost: every block is owned by some section of
/// the tree, or it is held by one of the sections made for blocks no section
/// owns.
pub proof fn law_every_block_is_kept(doc: RawDocument, owned: Seq<Seq<char>>, q: int, k: int)
    requires
        0 <= q < doc.pages@.len(),
        0 <= k < doc.pages@[q].blocks@.len(),
    ensures
        owned.contains(doc.pages@[q].blocks@[k].id@)
            || grouped(page_groups(by_page(orphans_of(doc, owned))), doc.pages@[q].blocks@[k].id@),
{
    let id = doc.pages@[q].blocks@[k].id@;
    if !owned.contains(id) {
        lemma_orphan_listed(doc, owned, doc.pages@.len() as int, 0, q, k);
        lemma_by_page_lists(orphans_of(doc, owned), id);
        lemma_groups_hold(by_page(orphans_of(doc, owned)), id);
    }
}


// ─── answers of the chat agent ──────────────────────────────────

/// The blocks an answer cites name each block id once, and every id that
/// the answer's text or its listed references cite is among them.
pub proof fn law_cited_blocks_are_listed_once(ps: Seq<(Seq<char>, Seq<char>)>)
    ensures
        pair_ids(first_by_id(ps)).no_duplicates(),
        forall|id: Seq<char>| pair_ids(first_by_id(ps)).contains(id) <==> pair_ids(ps).contains(id),
    decreases ps.len(),
{
    if ps.len() > 0 {
        let rest = ps.drop_last();
        law_cited_blocks_are_listed_once(rest);
        let p = first_by_id(rest);
        let last = ps.last();
        assert(pair_ids(ps) =~= pair_ids(rest).push(last.0));
        if !pair_ids(p).contains(last.0) {
            assert(pair_ids(p.push(last)) =~= pair_ids(p).push(last.0));
        }
        assert forall|id: Seq<char>| pair_ids(first_by_id(ps)).contains(id) <==> pair_ids(ps).contains(id) by {
            if pair_ids(ps).contains(id) && id != last.0 {
                let j = choose|j: int| 0 <= j < pair_ids(ps).len() && pair_ids(ps)[j] == id;
                assert(pair_ids(rest)[j] == id);
            }
            if pair_ids(rest).contains(id) {
                let j = choose|j: int| 0 <= j < pair_ids(rest).len() && pair_ids(rest)[j] == id;
                assert(pair_ids(ps)[j] == id);
            }
            if id == last.0 {
                assert(pair_ids(ps)[ps.len() - 1] == id);
            }
            if pair_ids(p).contains(id) && !pair_ids(p).contains(last.0) {
                let j = choose|j: int| 0 <= j < pair_ids(p).len() && pair_ids(p)[j] == id;
                assert(pair_ids(p.push(last))[j] == id);
            }
            if !pair_ids(p).contains(last.0) && id == last.0 {
                assert(pair_ids(p.push(last))[p.len() as int] == id);
            }
        }
    }
}


// ─── routing ────────────────────────────────────────────────────

/// Every clause is reviewed by some agent: the routing holds, under some
/// agent, a clause with its id (the fact-check agent takes the clauses that
/// no keyword routes).
pub proof fn law_every_clause_is_routed(cs: Seq<ReviewClause>, rules: Seq<RouteRule>, i: int)
    requires
        0 <= i < cs.len(),
    ensures
        exists|e: int, m: int| 0 <= e < routing_of(cs, rules).len() && 0 <= m < routing_of(cs, rules)[e].1.len()
            && #[trigger] cs[routing_of(cs, rules)[e].1[m]].chunk_id@ == cs[i].chunk_id@,
{
    let ps = with_fallback(cs, keyword_routes(cs, rules, cs.len() as int), cs.len() as int);
    lemma_fallback_routes_all(cs, keyword_routes(cs, rules, cs.len() as int), cs.len() as int);
    assert(crate::routing::id_routed(cs, ps, i));
    let k = choose|k: int| 0 <= k < ps.len() && #[trigger] cs[ps[k].1].chunk_id@ == cs[i].chunk_id@;
    lemma_grouped_keeps(ps, k);
    let g = routing_of(cs, rules);
    let (e, m) = choose|e: int, m: int| 0 <= e < g.len() && 0 <= m < g[e].1.len() && #[trigger] g[e].1[m] == ps[k].1;
    assert(cs[g[e].1[m]].chunk_id@ == cs[i].chunk_id@);
}


proof fn lemma_fallback_tail(cs: Seq<ReviewClause>, ps: Seq<(AgentId, int)>, n: int)
    ensures
        ps.len() <= with_fallback(cs, ps, n).len(),
        forall|k: int| ps.len() <= k < with_fallback(cs, ps, n).len() ==> #[trigger] with_fallback(cs, ps, n)[k].0 == AgentId::FactCheck,
    decreases n,
{
    if n > 0 {
        lemma_fallback_tail(cs, ps, n - 1);
    }
}

proof fn lemma_fallback_catches(cs: Seq<ReviewClause>, ps: Seq<(AgentId, int)>, n: int, i: int)
    requires
        0 <= i < n <= cs.len(),
        !id_routed(cs, ps, i),
    ensures
        exists|k: int| 0 <= k < with_fallback(cs, ps, n).len() && with_fallback(cs, ps, n)[k].0 == AgentId::FactCheck
            && #[trigger] cs[with_fallback(cs, ps, n)[k].1].chunk_id@ == cs[i].chunk_id@,
    decreases n,
{
    let p = with_fallback(cs, ps, n - 1);
    let q = with_fallback(cs, ps, n);
    if i < n - 1 {
        lemma_fallback_catches(cs, ps, n - 1, i);
        let k = choose|k: int| 0 <= k < p.len() && p[k].0 == AgentId::FactCheck && #[trigger] cs[p[k].1].chunk_id@ == cs[i].chunk_id@;
        assert(q[k] == p[k]);
        assert(cs[q[k].1].chunk_id@ == cs[i].chunk_id@);
    } else if id_routed(cs, p, n - 1) {
        let k = choose|k: int| 0 <= k < p.len() && #[trigger] cs[p[k].1].chunk_id@ == cs[n - 1].chunk_id@;
        lemma_fallback_tail(cs, ps, n - 1);
        if k < ps.len() {
            lemma_fallback_keeps(cs, ps, n - 1, k);
            assert(cs[ps[k].1].chunk_id@ == cs[i].chunk_id@);
        }
        assert(q[k] == p[k]);
        assert(cs[q[k].1].chunk_id@ == cs[i].chunk_id@);
    } else {
        assert(q[p.len() as int] == (AgentId::FactCheck, n - 1));
        assert(cs[q[p.len() as int].1].chunk_id@ == cs[i].chunk_id@);
    }
}

/// A clause that no keyword routes (nor any clause with its id) goes to the
/// fact-check agent, whether or not that agent is among the enabled ones.
pub proof fn law_unmatched_clauses_go_to_fact_check(cs: Seq<ReviewClause>, rules: Seq<RouteRule>, i: int)
    requires
        0 <= i < cs.len(),
        !id_routed(cs, keyword_routes(cs, rules, cs.len() as int), i),
    ensures
        exists|e: int, m: int| 0 <= e < routing_of(cs, rules).len() && 0 <= m < routing_of(cs, rules)[e].1.len()
            && routing_of(cs, rules)[e].0 == AgentId::FactCheck
            && #[trigger] cs[routing_of(cs, rules)[e].1[m]].chunk_id@ == cs[i].chunk_id@,
{
    let kw = keyword_routes(cs, rules, cs.len() as int);
    let ps = with_fallback(cs, kw, cs.len() as int);
    lemma_fallback_catches(cs, kw, cs.len() as int, i);
    let k = choose|k: int| 0 <= k < ps.len() && ps[k].0 == AgentId::FactCheck && #[trigger] cs[ps[k].1].chunk_id@ == cs[i].chunk_id@;
    lemma_grouped_keeps(ps, k);
    let g = routing_of(cs, rules);
    let (e, m) = choose|e: int, m: int| 0 <= e < g.len() && 0 <= m < g[e].1.len() && #[trigger] g[e].1[m] == ps[k].1
        && agent_id_eq(g[e].0, ps[k].0);
    assert(cs[g[e].1[m]].chunk_id@ == cs[i].chunk_id@);
}


/// A clause whose lower-cased text holds a lower-cased keyword of an
/// enabled agent (or that agent has no keywords) is in that agent's list.
pub proof fn law_keyword_matched_clauses_are_routed(cs: Seq<ReviewClause>, rules: Seq<RouteRule>, i: int, j: int)
    requires
        0 <= i < cs.len(),
        0 <= j < rules.len(),
        routes_to(cs[i].text@, string_views(rules[j].keywords@)),
    ensures
        exists|e: int, m: int| 0 <= e < routing_of(cs, rules).len() && 0 <= m < routing_of(cs, rules)[e].1.len()
            && #[trigger] routing_of(cs, rules)[e].1[m] == i && agent_id_eq(routing_of(cs, rules)[e].0, rules[j].agent),
{
    let kw = keyword_routes(cs, rules, cs.len() as int);
    lemma_keyword_routes_has(cs, rules, cs.len() as int, i, j);
    let k = choose|k: int| 0 <= k < kw.len() && #[trigger] kw[k] == (rules[j].agent, i);
    let ps = with_fallback(cs, kw, cs.len() as int);
    lemma_fallback_keeps(cs, kw, cs.len() as int, k);
    lemma_grouped_keeps(ps, k);
    let g = routing_of(cs, rules);
    let (e, m) = choose|e: int, m: int| 0 <= e < g.len() && 0 <= m < g[e].1.len() && #[trigger] g[e].1[m] == ps[k].1
        && agent_id_eq(g[e].0, ps[k].0);
    assert(g[e].1[m] == i);
}


// ─── risk categories ────────────────────────────────────────────

/// No category occurs twice, and every category has a display name.
pub open spec fn named_and_distinct(cs: Seq<&'static str>) -> bool {
    &&& forall|i: int, j: int| 0 <= i < j < cs.len() ==> (#[trigger] cs[i])@ != (#[trigger] cs[j])@
    &&& forall|i: int| 0 <= i < cs.len() ==> display_name_of((#[trigger] cs[i])@) is Some
}

proof fn lemma_evidence_is_named(t: Seq<char>)
    ensures
        evidence_category(t) matches Some(x) ==> display_name_of(x@) is Some,
{
    let c = category_codes();
    assert(c[0]@ == "LOCAL_REGISTRATION"@ && c[1]@ == "BRAND_LOCK"@ && c[2]@ == "UNRELATED_CERT"@
        && c[3]@ == "REGIONAL_PERFORMANCE"@ && c[4]@ == "SCALE_THRESHOLD"@ && c[5]@ == "SHORT_DEADLINE"@
        && c[6]@ == "EXCESSIVE_DEPOSIT"@ && c[7]@ == "OEM_AUTHORIZATION"@ && c[8]@ == "SUBJECTIVE_SCORING"@
        && c[9]@ == "LOCAL_AWARD"@ && c[10]@ == "VAGUE_ACCEPTANCE"@ && c[11]@ == "UNBOUNDED_IP"@
        && c[12]@ == "UNILATERAL_CHANGE"@ && c[13]@ == "CONFLICTING_DATES"@ && c[14]@ == "UNCLEAR_PENALTY"@);
}

proof fn lemma_add_unique_keeps(acc: Seq<&'static str>, c: Option<&'static str>)
    requires
        named_and_distinct(acc),
        c matches Some(x) ==> display_name_of(x@) is Some,
    ensures
        named_and_distinct(add_unique(acc, c)),
{
    if let Some(x) = c {
        if !(exists|i: int| 0 <= i < acc.len() && acc[i]@ == x@) {
            let r = acc.push(x);
            assert forall|i: int, j: int| 0 <= i < j < r.len() implies (#[trigger] r[i])@ != (#[trigger] r[j])@ by {
                if j == acc.len() {
                    assert(r[i] == acc[i]);
                } else {
                    assert(r[i] == acc[i] && r[j] == acc[j]);
                }
            }
            assert forall|i: int| 0 <= i < r.len() implies display_name_of((#[trigger] r[i])@) is Some by {
                if i < acc.len() {
                    assert(r[i] == acc[i]);
                }
            }
        }
    }
}

proof fn lemma_segments_named(segs: Seq<Seq<char>>)
    ensures
        named_and_distinct(segment_categories(segs)),
    decreases segs.len(),
{
    if segs.len() > 0 {
        lemma_segments_named(segs.drop_last());
        lemma_evidence_is_named(segs.last());
        lemma_add_unique_keeps(segment_categories(segs.drop_last()), evidence_category(segs.last()));
    }
}

/// The candidate categories of a text name no category twice, and each of
/// them has a display name.
pub proof fn law_candidate_categories_are_named_and_distinct(text: Seq<char>)
    ensures
        named_and_distinct(candidates_of(text)),
{
    let segs = split_any(text, segment_separators());
    lemma_segments_named(segs);
    lemma_evidence_is_named(text);
    lemma_add_unique_keeps(segment_categories(segs), evidence_category(text));
}


// ─── duplicate dynamic agents ───────────────────────────────────

proof fn lemma_push_to_set(q: Seq<Seq<char>>, x: Seq<char>)
    ensures
        q.push(x).to_set() == q.to_set().insert(x),
{
    assert forall|z: Seq<char>| q.push(x).to_set().contains(z) <==> q.to_set().insert(x).contains(z) by {
        if q.push(x).contains(z) && z != x {
            let i = choose|i: int| 0 <= i < q.push(x).len() && q.push(x)[i] == z;
            assert(q[i] == z);
        }
        if q.contains(z) {
            let i = choose|i: int| 0 <= i < q.len() && q[i] == z;
            assert(q.push(x)[i] == z);
        }
        if z == x {
            assert(q.push(x)[q.len() as int] == z);
        }
    }
    assert(q.push(x).to_set() =~= q.to_set().insert(x));
}

proof fn lemma_distinct_props(s: Seq<Seq<char>>)
    ensures
        distinct(s).no_duplicates(),
        distinct(s).to_set() == s.to_set(),
    decreases s.len(),
{
    if s.len() > 0 {
        let d = s.drop_last();
        lemma_distinct_props(d);
        let p = distinct(d);
        assert(s =~= d.push(s.last()));
        lemma_push_to_set(d, s.last());
        if p.contains(s.last()) {
            assert(p.to_set().contains(s.last()));
            assert(s.to_set() =~= p.to_set());
        } else {
            lemma_push_to_set(p, s.last());
            let q = p.push(s.last());
            assert forall|i: int, j: int| 0 <= i < q.len() && 0 <= j < q.len() && i != j implies q[i] != q[j] by {
                if i == p.len() as int {
                    assert(!p.contains(q[j]) || q[j] != s.last());
                } else if j == p.len() as int {
                    assert(p[i] == q[i]);
                }
            }
        }
    }
}

proof fn lemma_shared_is_intersection(x: Seq<Seq<char>>, y: Seq<Seq<char>>)
    requires
        x.no_duplicates(),
    ensures
        shared(x, y) == x.to_set().intersect(y.to_set()).len(),
    decreases x.len(),
{
    broadcast use vstd::seq_lib::seq_to_set_is_finite;
    if x.len() == 0 {
        assert(x.to_set().intersect(y.to_set()) =~= Set::<Seq<char>>::empty());
    } else {
        let d = x.drop_last();
        let l = x.last();
        assert(d.no_duplicates());
        lemma_shared_is_intersection(d, y);
        assert(x =~= d.push(l));
        lemma_push_to_set(d, l);
        assert(!d.contains(l)) by {
            if d.contains(l) {
                let i = choose|i: int| 0 <= i < d.len() && d[i] == l;
                assert(x[i] == x[x.len() - 1]);
            }
        }
        let di = d.to_set().intersect(y.to_set());
        assert(di.finite());
        if y.contains(l) {
            assert(y.to_set().contains(l));
            assert(x.to_set().intersect(y.to_set()) =~= di.insert(l));
            assert(!di.contains(l));
        } else {
            assert(!y.to_set().contains(l));
            assert(x.to_set().intersect(y.to_set()) =~= di);
        }
    }
}

/// Two keyword lists make duplicate agents exactly when, as sets K and E,
/// |K ∩ E| / |K ∪ E| > 0.5 (with K ∪ E not empty).
pub proof fn law_duplicate_agents_by_jaccard(a: Seq<Seq<char>>, b: Seq<Seq<char>>)
    ensures
        overlapping(a, b) <==> ({
            let k = a.to_set();
            let e = b.to_set();
            (k + e).len() > 0 && 2 * k.intersect(e).len() > (k + e).len()
        }),
{
    broadcast use vstd::seq_lib::seq_to_set_is_finite;
    let x = distinct(a);
    let y = distinct(b);
    lemma_distinct_props(a);
    lemma_distinct_props(b);
    x.unique_seq_to_set();
    y.unique_seq_to_set();
    lemma_shared_is_intersection(x, y);
    vstd::set_lib::lemma_set_intersect_union_lens(a.to_set(), b.to_set());
}


// ─── empty documents ────────────────────────────────────────────

/// A document without blocks has no heading candidates, so sectionizing it
/// gives no sections, no orphan blocks and no level counts.
pub proof fn law_empty_document_has_no_sections(pages: Seq<RawPage>)
    requires
        flat_blocks(pages).len() == 0,
    ensures ({
        let bv = flat_blocks(pages);
        let cs = accepted_candidates(bv);
        &&& cs.len() == 0
        &&& forall|secs: Seq<Section>| forest_ok(secs, nodes_of(cs, bv), 0, cs.len() as int) ==> secs.len() == 0
        &&& bv.len() - assigned_upto(cs, bv, cs.len() as int).len() == 0
        &&& forall|lv: u8| nodes_at_level(nodes_of(cs, bv), lv, 0, cs.len() as int) == 0
    }),
{
    let bv = flat_blocks(pages);
    assert(accepted_candidates(bv).len() == 0);
}


// ─── tables across pages ────────────────────────────────────────

/// The rows of a page's tables, table after table.
pub open spec fn table_rows(ts: Seq<TableView>) -> Seq<Seq<Option<Seq<char>>>>
    decreases ts.len(),
{
    if ts.len() == 0 {
        Seq::<Seq<Option<Seq<char>>>>::empty()
    } else {
        table_rows(ts.drop_last()) + ts.last().1
    }
}

/// The rows of all tables, page after page.
pub open spec fn all_rows(ps: Seq<Seq<TableView>>) -> Seq<Seq<Option<Seq<char>>>>
    decreases ps.len(),
{
    if ps.len() == 0 {
        Seq::<Seq<Option<Seq<char>>>>::empty()
    } else {
        all_rows(ps.drop_last()) + table_rows(ps.last())
    }
}

/// How many tables all pages hold.
pub open spec fn table_total(ps: Seq<Seq<TableView>>) -> nat
    decreases ps.len(),
{
    if ps.len() == 0 {
        0
    } else {
        table_total(ps.drop_last()) + ps.last().len()
    }
}

proof fn lemma_rows_first(u: Seq<TableView>)
    requires
        u.len() > 0,
    ensures
        table_rows(u) == u[0].1 + table_rows(u.drop_first()),
    decreases u.len(),
{
    if u.len() == 1 {
        let e = u.drop_last();
        assert(e =~= Seq::<TableView>::empty());
        assert(table_rows(e) == Seq::<Seq<Option<Seq<char>>>>::empty());
        assert(table_rows(u) == table_rows(e) + u.last().1);
        let d = u.drop_first();
        assert(d =~= Seq::<TableView>::empty());
        assert(table_rows(d) == Seq::<Seq<Option<Seq<char>>>>::empty());
        assert(table_rows(u) =~= u[0].1 + table_rows(d));
    } else {
        lemma_rows_first(u.drop_last());
        assert(u.drop_last().drop_first() =~= u.drop_first().drop_last());
        assert(u.drop_first().last() == u.last());
        assert(table_rows(u) =~= u[0].1 + table_rows(u.drop_first()));
    }
}

proof fn lemma_two_updates(ps: Seq<Seq<TableView>>, n: int, x: Seq<TableView>, y: Seq<TableView>)
    requires
        0 <= n,
        n + 1 < ps.len(),
        table_rows(x) + table_rows(y) == table_rows(ps[n]) + table_rows(ps[n + 1]),
        x.len() + y.len() + 1 == ps[n].len() + ps[n + 1].len(),
    ensures
        all_rows(ps.update(n, x).update(n + 1, y)) == all_rows(ps),
        table_total(ps.update(n, x).update(n + 1, y)) + 1 == table_total(ps),
    decreases ps.len(),
{
    let q = ps.update(n, x).update(n + 1, y);
    if n + 1 < ps.len() - 1 {
        lemma_two_updates(ps.drop_last(), n, x, y);
        assert(q.drop_last() =~= ps.drop_last().update(n, x).update(n + 1, y));
        assert(q.last() == ps.last());
    } else {
        let b = ps.drop_last().drop_last();
        assert(q.drop_last().drop_last() =~= b);
        assert(q.drop_last().last() == x);
        assert(q.last() == y);
        assert(ps.drop_last().last() == ps[n]);
        assert(all_rows(q) == all_rows(q.drop_last()) + table_rows(q.last()));
        assert(all_rows(q.drop_last()) == all_rows(q.drop_last().drop_last()) + table_rows(q.drop_last().last()));
        assert(all_rows(ps) == all_rows(ps.drop_last()) + table_rows(ps.last()));
        assert(all_rows(ps.drop_last()) == all_rows(ps.drop_last().drop_last()) + table_rows(ps.drop_last().last()));
        assert(table_total(q) == table_total(q.drop_last()) + q.last().len());
        assert(table_total(q.drop_last()) == table_total(q.drop_last().drop_last()) + q.drop_last().last().len());
        assert(table_total(ps) == table_total(ps.drop_last()) + ps.last().len());
        assert(table_total(ps.drop_last()) == table_total(ps.drop_last().drop_last()) + ps.drop_last().last().len());
        assert(all_rows(q) =~= all_rows(b) + table_rows(x) + table_rows(y));
        assert(all_rows(ps) =~= all_rows(b) + table_rows(ps[n]) + table_rows(ps[n + 1]));
        assert(all_rows(b) + table_rows(x) + table_rows(y) =~= all_rows(b) + (table_rows(x) + table_rows(y)));
        assert(all_rows(b) + table_rows(ps[n]) + table_rows(ps[n + 1]) =~= all_rows(b) + (table_rows(ps[n]) + table_rows(ps[n + 1])));
    }
}

proof fn lemma_join_keeps(ts: Seq<Seq<TableView>>, n: int)
    requires
        0 <= n,
        n + 1 < ts.len(),
        can_join(ts, n),
    ensures
        all_rows(joined_at(ts, n)) == all_rows(ts),
        table_total(joined_at(ts, n)) + 1 == table_total(ts),
        joined_at(ts, n).len() == ts.len(),
{
    let a = ts[n].last();
    let b = ts[n + 1][0];
    let x = ts[n].update(ts[n].len() - 1, (a.0, a.1 + b.1));
    let y = ts[n + 1].drop_first();
    assert(x.drop_last() =~= ts[n].drop_last());
    assert(table_rows(x) =~= table_rows(ts[n]) + b.1);
    lemma_rows_first(ts[n + 1]);
    assert(table_rows(x) + table_rows(y) =~= table_rows(ts[n]) + table_rows(ts[n + 1]));
    lemma_two_updates(ts, n, x, y);
}

proof fn lemma_merge_upto_keeps(ts: Seq<Seq<TableView>>, k: int)
    requires
        0 <= k < ts.len(),
    ensures
        all_rows(merge_upto(ts, k).0) == all_rows(ts),
        table_total(merge_upto(ts, k).0) + merge_upto(ts, k).1.len() == table_total(ts),
    decreases k,
{
    if k > 0 {
        lemma_merge_upto_keeps(ts, k - 1);
        lemma_merge_len(ts, k - 1);
        let prev = merge_upto(ts, k - 1);
        if can_join(prev.0, k - 1) {
            lemma_join_keeps(prev.0, k - 1);
        }
    }
}

/// Joining tables split by a page break keeps every row, in order, and
/// removes one table per join.
pub proof fn law_merging_keeps_rows(pages: Seq<RawPage>)
    ensures
        all_rows(merged_tables(pages).0) == all_rows(page_tables(pages)),
        table_total(merged_tables(pages).0) + merged_tables(pages).1.len() == table_total(page_tables(pages)),
{
    if pages.len() >= 2 {
        lemma_merge_upto_keeps(page_tables(pages), pages.len() - 1);
    }
}

proof fn lemma_detect_total(o: Seq<RawPage>, f: Seq<Seq<TableView>>, n: int)
    requires
        0 <= n <= o.len(),
        f.len() == o.len(),
        forall|q: int| 0 <= q < o.len() ==> #[trigger] f[q] == table_views(o[q].tables@) + detected(o[q]),
    ensures
        table_total(f.subrange(0, n)) == table_total(page_tables(o).subrange(0, n)) + detected_count(o, n),
    decreases n,
{
    if n > 0 {
        lemma_detect_total(o, f, n - 1);
        assert(f.subrange(0, n).drop_last() =~= f.subrange(0, n - 1));
        assert(page_tables(o).subrange(0, n).drop_last() =~= page_tables(o).subrange(0, n - 1));
        assert(f.subrange(0, n).last() == f[n - 1]);
        assert(page_tables(o).subrange(0, n).last() == table_views(o[n - 1].tables@));
    }
}

/// Detection adds, over all pages, exactly as many tables as it reports.
pub proof fn law_detection_count_is_tables_added(o: Seq<RawPage>, f: Seq<RawPage>)
    requires
        f.len() == o.len(),
        forall|q: int| 0 <= q < o.len() ==> #[trigger] table_views(f[q].tables@) == table_views(o[q].tables@) + detected(o[q]),
    ensures
        table_total(page_tables(f)) == table_total(page_tables(o)) + detected_count(o, o.len() as int),
{
    let pf = page_tables(f);
    assert forall|q: int| 0 <= q < o.len() implies #[trigger] pf[q] == table_views(o[q].tables@) + detected(o[q]) by {
        assert(pf[q] == table_views(f[q].tables@));
    }
    lemma_detect_total(o, pf, o.len() as int);
    assert(pf.subrange(0, o.len() as int) =~= pf);
    assert(page_tables(o).subrange(0, o.len() as int) =~= page_tables(o));
}


// ─── numbering chains ───────────────────────────────────────────

/// The indices below `n` that `keep` keeps, in increasing order.
pub open spec fn kept_indices(keep: spec_fn(int) -> bool, n: int) -> Seq<int>
    decreases n,
{
    if n <= 0 {
        Seq::<int>::empty()
    } else if keep(n - 1) {
        kept_indices(keep, n - 1).push(n - 1)
    } else {
        kept_indices(keep, n - 1)
    }
}

proof fn lemma_keep_where<A>(s: Seq<A>, keep: spec_fn(int) -> bool, n: int)
    requires
        0 <= n <= s.len(),
    ensures ({
        let ix = kept_indices(keep, n);
        &&& keep_where(s, keep, n).len() == ix.len()
        &&& forall|k: int| 0 <= k < ix.len() ==> 0 <= #[trigger] ix[k] < n && keep_where(s, keep, n)[k] == s[ix[k]]
        &&& forall|k1: int, k2: int| 0 <= k1 < k2 < ix.len() ==> #[trigger] ix[k1] < #[trigger] ix[k2]
        &&& forall|j: int| 0 <= j < n ==> (ix.contains(j) <==> keep(j))
    }),
    decreases n,
{
    if n > 0 {
        lemma_keep_where(s, keep, n - 1);
        let p = kept_indices(keep, n - 1);
        if keep(n - 1) {
            let ix = p.push(n - 1);
            assert forall|j: int| 0 <= j < n implies (ix.contains(j) <==> keep(j)) by {
                if j < n - 1 {
                    if p.contains(j) {
                        let k = choose|k: int| 0 <= k < p.len() && p[k] == j;
                        assert(ix[k] == j);
                    }
                    if ix.contains(j) {
                        let k = choose|k: int| 0 <= k < ix.len() && ix[k] == j;
                        if k == p.len() as int {
                            assert(ix[k] == n - 1);
                        } else {
                            assert(p[k] == j);
                        }
                    }
                } else {
                    assert(ix[p.len() as int] == n - 1);
                }
            }
        } else {
            assert forall|j: int| 0 <= j < n implies (p.contains(j) <==> keep(j)) by {
                if j == n - 1 && p.contains(j) {
                    let k = choose|k: int| 0 <= k < p.len() && p[k] == j;
                    assert(p[k] < n - 1);
                }
            }
        }
    }
}

/// Checking numbering chains keeps a subsequence of the candidates, in
/// order: every candidate not numbered `1.` or `（1）` stays, and such a
/// candidate alone in its group goes exactly when its title holds a colon
/// or is longer than 35 (`1.`) or 50 (`（1）`) characters.
pub proof fn law_numbering_chains_keep_a_subsequence(cs: Seq<CandView>)
    ensures ({
        let keep = |j: int| !chain_removed(cs, j);
        let ix = kept_indices(keep, cs.len() as int);
        &&& chain_filtered(cs).len() == ix.len()
        &&& forall|k: int| 0 <= k < ix.len() ==> 0 <= #[trigger] ix[k] < cs.len() && chain_filtered(cs)[k] == cs[ix[k]]
        &&& forall|k1: int, k2: int| 0 <= k1 < k2 < ix.len() ==> #[trigger] ix[k1] < #[trigger] ix[k2]
        &&& forall|j: int| 0 <= j < cs.len() && !chained(cs[j].0) ==> #[trigger] ix.contains(j)
        &&& forall|j: int| 0 <= j < cs.len() && chained(cs[j].0) && group_size(cs, j, cs.len() as int) < 2 ==>
            (!(#[trigger] ix.contains(j)) <==> (too_long_alone(cs[j].0, cs[j].1.len()) || has_char(cs[j].1, '：') || has_char(cs[j].1, ':')))
    }),
{
    let keep = |j: int| !chain_removed(cs, j);
    lemma_keep_where(cs, keep, cs.len() as int);
    assert(chain_filtered(cs) == keep_where(cs, keep, cs.len() as int));
}


// ─── dates ──────────────────────────────────────────────────────

/// A date string is read as the three `-`-separated fields of the trimmed
/// string with `/` taken as `-`: it is a date exactly when the fields are a
/// year, a month in 1..=12 and a day in 1..=31 written as integers, and the
/// date is those three numbers.
pub proof fn law_dates_are_read_field_by_field(s: Seq<char>)
    ensures ({
        let parts = split_on(replace_char(trim(s), '/', '-'), '-');
        &&& parse_date_spec(s) is Ok <==> (parts.len() == 3
            && parse_i32_spec(parts[0]) is Some && parse_u32_spec(parts[1]) is Some && parse_u32_spec(parts[2]) is Some
            && 1 <= parse_u32_spec(parts[1]).unwrap() <= 12 && 1 <= parse_u32_spec(parts[2]).unwrap() <= 31)
        &&& parse_date_spec(s) matches Ok(d) ==> d == (parse_i32_spec(parts[0]).unwrap(), parse_u32_spec(parts[1]).unwrap(),
            parse_u32_spec(parts[2]).unwrap())
        &&& parts.len() != 3 ==> parse_date_spec(s) == Err::<Date, DateError>(DateError::Format)
    }),
{
}


// ─── timeline contradictions ────────────────────────────────────

/// The rule an event starts from: opening, else announcement, else award.
pub open spec fn rule_of(e: DateEvent) -> Option<int> {
    if has_type(e, rule_own_type(0)) {
        Some(0)
    } else if has_type(e, rule_own_type(1)) {
        Some(1)
    } else if has_type(e, rule_own_type(2)) {
        Some(2)
    } else {
        None
    }
}

/// Events `e` and `o`, both dated, break the rule of `e`'s type against
/// `o`'s type: an opening not after a deadline, an announcement not before
/// a deadline, an award before an opening.
pub open spec fn pair_breaks(evs: Seq<DatedLabel>, e: DateEvent, o: DateEvent) -> bool {
    &&& rule_of(e) is Some
    &&& lookup(evs, e.label@) is Some
    &&& has_type(o, rule_other_type(rule_of(e).unwrap()))
    &&& lookup(evs, o.label@) is Some
    &&& rule_violated(rule_of(e).unwrap(), julian(lookup(evs, e.label@).unwrap()), julian(lookup(evs, o.label@).unwrap()))
}

/// The contradiction reported for such a pair.
pub open spec fn pair_hit(e: DateEvent, o: DateEvent) -> ContradictionView {
    let k = rule_of(e).unwrap();
    (rule_description(k), e.label@, o.label@, rule_detail(k, e.date_str@, o.date_str@))
}

proof fn lemma_rule_hits(evs: Seq<DatedLabel>, list: Seq<DateEvent>, e: DateEvent, date: Date, k: int, m: int)
    requires
        0 <= m <= list.len(),
        rule_of(e) == Some(k),
        lookup(evs, e.label@) == Some(date),
    ensures
        forall|j: int| 0 <= j < m && #[trigger] pair_breaks(evs, e, list[j]) ==> rule_hits(evs, list, e, date, k, m).contains(pair_hit(e, list[j])),
        forall|h: ContradictionView| #[trigger] rule_hits(evs, list, e, date, k, m).contains(h) ==>
            exists|j: int| 0 <= j < m && #[trigger] pair_breaks(evs, e, list[j]) && h == pair_hit(e, list[j]),
    decreases m,
{
    if m > 0 {
        lemma_rule_hits(evs, list, e, date, k, m - 1);
        let prev = rule_hits(evs, list, e, date, k, m - 1);
        let o = list[m - 1];
        let cur = rule_hits(evs, list, e, date, k, m);
        if pair_breaks(evs, e, o) {
            assert(cur == prev.push(pair_hit(e, o)));
            assert(cur[prev.len() as int] == pair_hit(e, o));
            assert forall|j: int| 0 <= j < m && #[trigger] pair_breaks(evs, e, list[j]) implies cur.contains(pair_hit(e, list[j])) by {
                if j < m - 1 {
                    let x = choose|x: int| 0 <= x < prev.len() && prev[x] == pair_hit(e, list[j]);
                    assert(cur[x] == prev[x]);
                }
            }
            assert forall|h: ContradictionView| #[trigger] cur.contains(h) implies
                exists|j: int| 0 <= j < m && #[trigger] pair_breaks(evs, e, list[j]) && h == pair_hit(e, list[j]) by {
                let x = choose|x: int| 0 <= x < cur.len() && cur[x] == h;
                if x < prev.len() {
                    assert(prev[x] == h);
                    assert(prev.contains(h));
                } else {
                    assert(pair_breaks(evs, e, list[m - 1]));
                }
            }
        } else {
            assert(cur == prev);
        }
    }
}

proof fn lemma_all_hits(evs: Seq<DatedLabel>, list: Seq<DateEvent>, n: int)
    requires
        0 <= n <= list.len(),
    ensures
        forall|i: int, j: int| 0 <= i < n && 0 <= j < list.len() && #[trigger] pair_breaks(evs, list[i], list[j]) ==>
            all_hits(evs, list, n).contains(pair_hit(list[i], list[j])),
        forall|h: ContradictionView| #[trigger] all_hits(evs, list, n).contains(h) ==>
            exists|i: int, j: int| 0 <= i < n && 0 <= j < list.len() && #[trigger] pair_breaks(evs, list[i], list[j])
                && h == pair_hit(list[i], list[j]),
    decreases n,
{
    if n > 0 {
        lemma_all_hits(evs, list, n - 1);
        let prev = all_hits(evs, list, n - 1);
        let e = list[n - 1];
        let eh = event_hits(evs, list, e);
        let cur = all_hits(evs, list, n);
        assert(cur == prev + eh);
        if rule_of(e) is Some && lookup(evs, e.label@) is Some {
            lemma_rule_hits(evs, list, e, lookup(evs, e.label@).unwrap(), rule_of(e).unwrap(), list.len() as int);
        }
        assert forall|i: int, j: int| 0 <= i < n && 0 <= j < list.len() && #[trigger] pair_breaks(evs, list[i], list[j]) implies
            cur.contains(pair_hit(list[i], list[j])) by {
            if i < n - 1 {
                let x = choose|x: int| 0 <= x < prev.len() && prev[x] == pair_hit(list[i], list[j]);
                assert(cur[x] == prev[x]);
            } else {
                assert(eh.contains(pair_hit(list[i], list[j])));
                let x = choose|x: int| 0 <= x < eh.len() && eh[x] == pair_hit(list[i], list[j]);
                assert(cur[prev.len() + x] == eh[x]);
            }
        }
        assert forall|h: ContradictionView| #[trigger] cur.contains(h) implies
            exists|i: int, j: int| 0 <= i < n && 0 <= j < list.len() && #[trigger] pair_breaks(evs, list[i], list[j])
                && h == pair_hit(list[i], list[j]) by {
            let x = choose|x: int| 0 <= x < cur.len() && cur[x] == h;
            if x < prev.len() {
                assert(prev[x] == h);
                assert(prev.contains(h));
            } else {
                assert(eh[x - prev.len()] == h);
                assert(eh.contains(h));
                let j = choose|j: int| 0 <= j < list.len() && #[trigger] pair_breaks(evs, e, list[j]) && h == pair_hit(e, list[j]);
                assert(pair_breaks(evs, list[n - 1], list[j]));
            }
        }
    }
}

/// The contradictions found are exactly those of the ordered pairs of
/// listed, dated events that break a rule: an opening not after a deadline,
/// an announcement not before a deadline, an award before an opening.
pub proof fn law_contradictions_are_the_broken_pairs(evs: Seq<DatedLabel>, list: Seq<DateEvent>)
    ensures
        forall|i: int, j: int| 0 <= i < list.len() && 0 <= j < list.len() && #[trigger] pair_breaks(evs, list[i], list[j]) ==>
            all_hits(evs, list, list.len() as int).contains(pair_hit(list[i], list[j])),
        forall|h: ContradictionView| #[trigger] all_hits(evs, list, list.len() as int).contains(h) ==>
            exists|i: int, j: int| 0 <= i < list.len() && 0 <= j < list.len() && #[trigger] pair_breaks(evs, list[i], list[j])
                && h == pair_hit(list[i], list[j]),
{
    lemma_all_hits(evs, list, list.len() as int);
}


// ─── inferred constraints ───────────────────────────────────────

/// `b` starts with `a`.
pub open spec fn extends(b: Seq<ConstraintView>, a: Seq<ConstraintView>) -> bool {
    a.len() <= b.len() && forall|k: int| 0 <= k < a.len() ==> #[trigger] b[k] == a[k]
}

/// Some constraint runs from `f` to `t`.
pub open spec fn links(cs: Seq<ConstraintView>, f: Seq<char>, t: Seq<char>) -> bool {
    exists|k: int| 0 <= k < cs.len() && #[trigger] cs[k].0 == f && cs[k].1 == t
}

/// The 20-day announcement period from an announcement to a deadline of
/// the event list.
pub open spec fn announcement_period(evs: Seq<DateEvent>, c: ConstraintView) -> bool {
    exists|i: int, j: int| 0 <= i < evs.len() && 0 <= j < evs.len()
        && has_type(#[trigger] evs[i], "announcement"@) && has_type(#[trigger] evs[j], "deadline"@)
        && c == (evs[i].label@, evs[j].label@, Some(20i64), None::<i64>, Some(announcement_basis()))
}

/// Past the first `u` constraints, every one is an announcement period.
pub open spec fn periods_after(evs: Seq<DateEvent>, cs: Seq<ConstraintView>, u: int) -> bool {
    forall|k: int| u <= k < cs.len() ==> announcement_period(evs, #[trigger] cs[k])
}

proof fn lemma_extends_links(a: Seq<ConstraintView>, b: Seq<ConstraintView>, f: Seq<char>, t: Seq<char>)
    requires
        extends(b, a),
        links(a, f, t),
    ensures
        links(b, f, t),
{
    let k = choose|k: int| 0 <= k < a.len() && #[trigger] a[k].0 == f && a[k].1 == t;
    assert(b[k] == a[k]);
}

proof fn lemma_add_row(cs: Seq<ConstraintView>, a: DateEvent, ai: int, evs: Seq<DateEvent>, m: int, u: int)
    requires
        0 <= m <= evs.len(),
        0 <= ai < evs.len(),
        evs[ai] == a,
        has_type(a, "announcement"@),
        0 <= u <= cs.len(),
        periods_after(evs, cs, u),
    ensures
        extends(add_row(cs, a, evs, m), cs),
        periods_after(evs, add_row(cs, a, evs, m), u),
        forall|j: int| 0 <= j < m && has_type(#[trigger] evs[j], "deadline"@) ==> links(add_row(cs, a, evs, m), a.label@, evs[j].label@),
    decreases m,
{
    if m > 0 {
        lemma_add_row(cs, a, ai, evs, m - 1, u);
        let p = add_row(cs, a, evs, m - 1);
        let d = evs[m - 1];
        if has_type(d, "deadline"@) {
            let r = add_pair(p, a.label@, d.label@);
            if !(exists|i: int| 0 <= i < p.len() && p[i].0 == a.label@ && p[i].1 == d.label@) {
                let c = (a.label@, d.label@, Some(20i64), None::<i64>, Some(announcement_basis()));
                assert(r == p.push(c));
                assert(announcement_period(evs, c)) by {
                    assert(has_type(evs[ai], "announcement"@) && has_type(evs[m - 1], "deadline"@));
                }
                assert(r[p.len() as int] == c);
            } else {
                assert(r == p);
            }
            assert(extends(r, p));
            assert forall|j: int| 0 <= j < m && has_type(#[trigger] evs[j], "deadline"@) implies links(r, a.label@, evs[j].label@) by {
                if j < m - 1 {
                    lemma_extends_links(p, r, a.label@, evs[j].label@);
                } else if r == p {
                    let i = choose|i: int| 0 <= i < p.len() && p[i].0 == a.label@ && p[i].1 == d.label@;
                    assert(r[i].0 == a.label@ && r[i].1 == evs[j].label@);
                } else {
                    assert(r[p.len() as int].0 == a.label@ && r[p.len() as int].1 == evs[j].label@);
                }
            }
        }
    }
}

proof fn lemma_add_all(cs: Seq<ConstraintView>, evs: Seq<DateEvent>, n: int, u: int)
    requires
        0 <= n <= evs.len(),
        0 <= u <= cs.len(),
        periods_after(evs, cs, u),
    ensures
        extends(add_all(cs, evs, n), cs),
        periods_after(evs, add_all(cs, evs, n), u),
        forall|i: int, j: int| 0 <= i < n && 0 <= j < evs.len() && has_type(#[trigger] evs[i], "announcement"@)
            && has_type(#[trigger] evs[j], "deadline"@) ==> links(add_all(cs, evs, n), evs[i].label@, evs[j].label@),
    decreases n,
{
    if n > 0 {
        lemma_add_all(cs, evs, n - 1, u);
        let p = add_all(cs, evs, n - 1);
        let a = evs[n - 1];
        if has_type(a, "announcement"@) {
            lemma_add_row(p, a, n - 1, evs, evs.len() as int, u);
            let r = add_row(p, a, evs, evs.len() as int);
            assert forall|i: int, j: int| 0 <= i < n && 0 <= j < evs.len() && has_type(#[trigger] evs[i], "announcement"@)
                && has_type(#[trigger] evs[j], "deadline"@) implies links(r, evs[i].label@, evs[j].label@) by {
                if i < n - 1 {
                    lemma_extends_links(p, r, evs[i].label@, evs[j].label@);
                }
            }
        }
    }
}

/// The constraints checked are the user's, unchanged and first, then 20-day
/// announcement periods: one from every announcement to every deadline that
/// no constraint links yet, and nothing else.
pub proof fn law_inferred_constraints(events: Seq<DateEvent>, user: Seq<TimelineConstraint>)
    ensures ({
        let r = inferred(events, user);
        let u = constraint_views(user);
        &&& extends(r, u)
        &&& periods_after(events, r, u.len() as int)
        &&& forall|i: int, j: int| 0 <= i < events.len() && 0 <= j < events.len()
            && has_type(#[trigger] events[i], "announcement"@) && has_type(#[trigger] events[j], "deadline"@)
            ==> links(r, events[i].label@, events[j].label@)
    }),
{
    lemma_add_all(constraint_views(user), events, events.len() as int, constraint_views(user).len() as int);
}


/// Each canonical category has a specialist owner; every other code falls
/// to the rule engine.
pub proof fn law_every_category_has_its_owner(code: Seq<char>)
    ensures
        owner_of(code)@ != "RuleEngineAgent"@ <==> display_name_of(code) is Some,
{
    let c = category_codes();
    assert(c[0]@ == "LOCAL_REGISTRATION"@ && c[1]@ == "BRAND_LOCK"@ && c[2]@ == "UNRELATED_CERT"@
        && c[3]@ == "REGIONAL_PERFORMANCE"@ && c[4]@ == "SCALE_THRESHOLD"@ && c[5]@ == "SHORT_DEADLINE"@
        && c[6]@ == "EXCESSIVE_DEPOSIT"@ && c[7]@ == "OEM_AUTHORIZATION"@ && c[8]@ == "SUBJECTIVE_SCORING"@
        && c[9]@ == "LOCAL_AWARD"@ && c[10]@ == "VAGUE_ACCEPTANCE"@ && c[11]@ == "UNBOUNDED_IP"@
        && c[12]@ == "UNILATERAL_CHANGE"@ && c[13]@ == "CONFLICTING_DATES"@ && c[14]@ == "UNCLEAR_PENALTY"@);
    reveal_strlit("RuleEngineAgent");
    reveal_strlit("ProcedureAgent");
    reveal_strlit("ScoringAgent");
    reveal_strlit("DemandAgent");
    reveal_strlit("ContractAgent");
    reveal_strlit("SemanticRiskAgent");
    reveal_strlit("FactCheckAgent");
    if display_name_of(code) is Some {
        assert(exists|i: int| 0 <= i < 15 && category_codes()[i]@ == code);
        let i = choose|i: int| 0 <= i < 15 && category_codes()[i]@ == code;
        assert(code == c[i]@);
        assert("ProcedureAgent"@ != "RuleEngineAgent"@ && "ScoringAgent"@ != "RuleEngineAgent"@
            && "DemandAgent"@ != "RuleEngineAgent"@ && "ContractAgent"@ != "RuleEngineAgent"@
            && "SemanticRiskAgent"@ != "RuleEngineAgent"@ && "FactCheckAgent"@ != "RuleEngineAgent"@) by {
            assert("ProcedureAgent"@.len() != "RuleEngineAgent"@.len());
            assert("ScoringAgent"@.len() != "RuleEngineAgent"@.len());
            assert("DemandAgent"@.len() != "RuleEngineAgent"@.len());
            assert("ContractAgent"@.len() != "RuleEngineAgent"@.len());
            assert("SemanticRiskAgent"@.len() != "RuleEngineAgent"@.len());
            assert("FactCheckAgent"@.len() != "RuleEngineAgent"@.len());
        }
        if i == 0 { assert(code == "LOCAL_REGISTRATION"@); }
        else if i == 1 { assert(code == "BRAND_LOCK"@); }
        else if i == 2 { assert(code == "UNRELATED_CERT"@); }
        else if i == 3 { assert(code == "REGIONAL_PERFORMANCE"@); }
        else if i == 4 { assert(code == "SCALE_THRESHOLD"@); }
        else if i == 5 { assert(code == "SHORT_DEADLINE"@); }
        else if i == 6 { assert(code == "EXCESSIVE_DEPOSIT"@); }
        else if i == 7 { assert(code == "OEM_AUTHORIZATION"@); }
        else if i == 8 { assert(code == "SUBJECTIVE_SCORING"@); }
        else if i == 9 { assert(code == "LOCAL_AWARD"@); }
        else if i == 10 { assert(code == "VAGUE_ACCEPTANCE"@); }
        else if i == 11 { assert(code == "UNBOUNDED_IP"@); }
        else if i == 12 { assert(code == "UNILATERAL_CHANGE"@); }
        else if i == 13 { assert(code == "CONFLICTING_DATES"@); }
        else { assert(code == "UNCLEAR_PENALTY"@); }
        assert(owner_of(code)@ != "RuleEngineAgent"@);
    }
    if owner_of(code)@ != "RuleEngineAgent"@ {
        assert(code == c[0]@ || code == c[1]@ || code == c[2]@ || code == c[3]@ || code == c[4]@ || code == c[5]@
            || code == c[6]@ || code == c[7]@ || code == c[8]@ || code == c[9]@ || code == c[10]@ || code == c[11]@
            || code == c[12]@ || code == c[13]@ || code == c[14]@);
        assert(exists|i: int| 0 <= i < 15 && category_codes()[i]@ == code);
        assert(code_index(code) is Some);
    }
}


// ─── diversified search hits ────────────────────────────────────

/// The number of the first `n` hits in region `g`.
spec fn count_key(hs: Seq<SearchHit>, g: Seq<char>, n: int) -> int
    decreases n,
{
    if n <= 0 { 0 } else { count_key(hs, g, n - 1) + if group_key(hs[n - 1]) == g { 1int } else { 0int } }
}

/// The number of the first `n` hits in the regions `keys`, region by region.
spec fn sum_counts(hs: Seq<SearchHit>, keys: Seq<Seq<char>>, n: int) -> int
    decreases keys.len(),
{
    if keys.len() == 0 { 0 } else { sum_counts(hs, keys.drop_last(), n) + count_key(hs, keys.last(), n) }
}

proof fn lemma_insert_desc_len(hs: Seq<SearchHit>, s: Seq<int>, x: int)
    ensures
        insert_desc(hs, s, x).len() == s.len() + 1,
    decreases s.len(),
{
    if s.len() > 0 && !(hs[s.last()].score_key >= hs[x].score_key) {
        lemma_insert_desc_len(hs, s.drop_last(), x);
    }
}

proof fn lemma_sort_desc_len(hs: Seq<SearchHit>, s: Seq<int>)
    ensures
        sort_desc(hs, s).len() == s.len(),
    decreases s.len(),
{
    if s.len() > 0 {
        lemma_sort_desc_len(hs, s.drop_last());
        lemma_insert_desc_len(hs, sort_desc(hs, s.drop_last()), s.last());
    }
}

proof fn lemma_count_key(hs: Seq<SearchHit>, g: Seq<char>, n: int)
    requires
        0 <= n <= hs.len(),
    ensures
        count_key(hs, g, n) >= 0,
        count_key(hs, g, n) > 0 <==> exists|i: int| 0 <= i < n && group_key(hs[i]) == g,
    decreases n,
{
    if n > 0 {
        lemma_count_key(hs, g, n - 1);
        if exists|i: int| 0 <= i < n && group_key(hs[i]) == g {
            let i = choose|i: int| 0 <= i < n && group_key(hs[i]) == g;
            if i < n - 1 {
                assert(exists|j: int| 0 <= j < n - 1 && group_key(hs[j]) == g);
            }
        }
        if exists|i: int| 0 <= i < n - 1 && group_key(hs[i]) == g {
            let i = choose|i: int| 0 <= i < n - 1 && group_key(hs[i]) == g;
            assert(0 <= i < n && group_key(hs[i]) == g);
        }
        if group_key(hs[n - 1]) == g {
            assert(0 <= n - 1 < n && group_key(hs[n - 1]) == g);
        }
    }
}

proof fn lemma_region_order(hs: Seq<SearchHit>, n: int)
    requires
        0 <= n <= hs.len(),
    ensures
        forall|a: int, b: int| 0 <= a < b < region_order(hs, n).len() ==> region_order(hs, n)[a] != region_order(hs, n)[b],
        forall|g: Seq<char>| region_order(hs, n).contains(g) <==> exists|i: int| 0 <= i < n && group_key(hs[i]) == g,
    decreases n,
{
    if n > 0 {
        lemma_region_order(hs, n - 1);
        let p = region_order(hs, n - 1);
        let k = group_key(hs[n - 1]);
        assert forall|g: Seq<char>| region_order(hs, n).contains(g) <==> exists|i: int| 0 <= i < n && group_key(hs[i]) == g by {
            if region_order(hs, n).contains(g) {
                if p.contains(g) {
                    let i = choose|i: int| 0 <= i < n - 1 && group_key(hs[i]) == g;
                    assert(0 <= i < n && group_key(hs[i]) == g);
                } else {
                    let j = choose|j: int| 0 <= j < region_order(hs, n).len() && region_order(hs, n)[j] == g;
                    assert(j == p.len());
                    assert(0 <= n - 1 < n && group_key(hs[n - 1]) == g);
                }
            }
            if exists|i: int| 0 <= i < n && group_key(hs[i]) == g {
                let i = choose|i: int| 0 <= i < n && group_key(hs[i]) == g;
                if i < n - 1 {
                    assert(0 <= i < n - 1 && group_key(hs[i]) == g);
                    assert(p.contains(g));
                    if !p.contains(k) {
                        let j = choose|j: int| 0 <= j < p.len() && p[j] == g;
                        assert(region_order(hs, n)[j] == g);
                    }
                } else if !p.contains(k) {
                    assert(region_order(hs, n)[p.len() as int] == g);
                }
            }
        }
    }
}

proof fn lemma_best_of(hs: Seq<SearchHit>, g: Seq<char>, n: int)
    requires
        0 <= n <= hs.len(),
        exists|i: int| 0 <= i < n && group_key(hs[i]) == g,
    ensures
        best_of(hs, g, n) is Some,
        0 <= best_of(hs, g, n).unwrap() < n,
        group_key(hs[best_of(hs, g, n).unwrap()]) == g,
    decreases n,
{
    if exists|i: int| 0 <= i < n - 1 && group_key(hs[i]) == g {
        lemma_best_of(hs, g, n - 1);
    } else {
        let i = choose|i: int| 0 <= i < n && group_key(hs[i]) == g;
        assert(i == n - 1);
        if n > 1 {
            lemma_best_of_none(hs, g, n - 1);
        }
    }
}

proof fn lemma_best_of_none(hs: Seq<SearchHit>, g: Seq<char>, n: int)
    requires
        0 <= n <= hs.len(),
        !exists|i: int| 0 <= i < n && group_key(hs[i]) == g,
    ensures
        best_of(hs, g, n) is None,
    decreases n,
{
    if n > 0 {
        assert(!exists|i: int| 0 <= i < n - 1 && group_key(hs[i]) == g) by {
            if exists|i: int| 0 <= i < n - 1 && group_key(hs[i]) == g {
                let i = choose|i: int| 0 <= i < n - 1 && group_key(hs[i]) == g;
                assert(0 <= i < n && group_key(hs[i]) == g);
            }
        }
        lemma_best_of_none(hs, g, n - 1);
        assert(group_key(hs[n - 1]) != g) by {
            if group_key(hs[n - 1]) == g {
                assert(0 <= n - 1 < n && group_key(hs[n - 1]) == g);
            }
        }
    }
}

proof fn lemma_others_len(hs: Seq<SearchHit>, g: Seq<char>, b: int, n: int)
    requires
        0 <= n <= hs.len(),
    ensures
        others_of(hs, g, b, n).len() == count_key(hs, g, n) - if 0 <= b < n && group_key(hs[b]) == g { 1int } else { 0int },
    decreases n,
{
    if n > 0 {
        lemma_others_len(hs, g, b, n - 1);
    }
}

proof fn lemma_sum_counts_step(hs: Seq<SearchHit>, keys: Seq<Seq<char>>, n: int)
    requires
        1 <= n <= hs.len(),
        forall|a: int, b: int| 0 <= a < b < keys.len() ==> keys[a] != keys[b],
    ensures
        sum_counts(hs, keys, n) == sum_counts(hs, keys, n - 1) + if keys.contains(group_key(hs[n - 1])) { 1int } else { 0int },
    decreases keys.len(),
{
    if keys.len() > 0 {
        let d = keys.drop_last();
        lemma_sum_counts_step(hs, d, n);
        let k = group_key(hs[n - 1]);
        if keys.contains(k) {
            let j = choose|j: int| 0 <= j < keys.len() && keys[j] == k;
            if j < keys.len() - 1 {
                assert(d[j] == k);
            }
        }
        if d.contains(k) {
            let j = choose|j: int| 0 <= j < d.len() && d[j] == k;
            assert(keys[j] == k);
            assert(keys.last() != k);
        }
        if keys.last() == k {
            assert(keys[keys.len() - 1] == k);
        }
    }
}

proof fn lemma_sum_counts_all(hs: Seq<SearchHit>, n: int)
    requires
        0 <= n <= hs.len(),
    ensures
        sum_counts(hs, region_order(hs, n), n) == n,
    decreases n,
{
    if n > 0 {
        lemma_sum_counts_all(hs, n - 1);
        lemma_region_order(hs, n - 1);
        lemma_region_order(hs, n);
        let p = region_order(hs, n - 1);
        let k = group_key(hs[n - 1]);
        lemma_sum_counts_step(hs, p, n);
        if !p.contains(k) {
            assert(region_order(hs, n).drop_last() =~= p);
            lemma_count_key(hs, k, n - 1);
        }
    }
}

proof fn lemma_region_rest_len(hs: Seq<SearchHit>, k: int)
    requires
        0 <= k <= region_order(hs, hs.len() as int).len(),
    ensures
        region_rest(hs, k).len() == sum_counts(hs, region_order(hs, hs.len() as int).take(k), hs.len() as int) - k,
    decreases k,
{
    let o = region_order(hs, hs.len() as int);
    let n = hs.len() as int;
    if k > 0 {
        lemma_region_rest_len(hs, k - 1);
        lemma_region_order(hs, n);
        let g = o[k - 1];
        assert(o.contains(g));
        lemma_best_of(hs, g, n);
        lemma_others_len(hs, g, best_of(hs, g, n).unwrap(), n);
        assert(o.take(k).drop_last() =~= o.take(k - 1));
    }
}

/// No index occurs twice.
spec fn no_dup(s: Seq<int>) -> bool {
    forall|a: int, b: int| 0 <= a < b < s.len() ==> s[a] != s[b]
}

proof fn lemma_insert_desc_keeps(hs: Seq<SearchHit>, s: Seq<int>, x: int)
    requires
        no_dup(s),
        !s.contains(x),
    ensures
        no_dup(insert_desc(hs, s, x)),
        forall|y: int| insert_desc(hs, s, x).contains(y) <==> (s.contains(y) || y == x),
    decreases s.len(),
{
    let r = insert_desc(hs, s, x);
    if s.len() == 0 {
        assert(r =~= seq![x]);
        assert forall|y: int| r.contains(y) <==> (s.contains(y) || y == x) by {
            if y == x {
                assert(r[0] == y);
            }
        }
    } else if hs[s.last()].score_key >= hs[x].score_key {
        assert forall|y: int| r.contains(y) <==> (s.contains(y) || y == x) by {
            if s.contains(y) {
                let j = choose|j: int| 0 <= j < s.len() && s[j] == y;
                assert(r[j] == y);
            }
            if y == x {
                assert(r[s.len() as int] == y);
            }
        }
    } else {
        let d = s.drop_last();
        assert(no_dup(d));
        assert(!d.contains(x)) by {
            if d.contains(x) {
                let j = choose|j: int| 0 <= j < d.len() && d[j] == x;
                assert(s[j] == x);
            }
        }
        lemma_insert_desc_keeps(hs, d, x);
        let q = insert_desc(hs, d, x);
        assert(!q.contains(s.last())) by {
            if d.contains(s.last()) {
                let j = choose|j: int| 0 <= j < d.len() && d[j] == s.last();
                assert(s[j] == s[s.len() - 1]);
            }
            assert(s[s.len() - 1] != x);
        }
        assert forall|y: int| r.contains(y) <==> (s.contains(y) || y == x) by {
            if r.contains(y) {
                let j = choose|j: int| 0 <= j < r.len() && r[j] == y;
                if j < q.len() {
                    assert(q[j] == y);
                    if d.contains(y) {
                        let i = choose|i: int| 0 <= i < d.len() && d[i] == y;
                        assert(s[i] == y);
                    }
                } else {
                    assert(s[s.len() - 1] == y);
                }
            }
            if s.contains(y) {
                let j = choose|j: int| 0 <= j < s.len() && s[j] == y;
                if j < s.len() - 1 {
                    assert(d[j] == y);
                    assert(d.contains(y));
                    assert(q.contains(y));
                    let i = choose|i: int| 0 <= i < q.len() && q[i] == y;
                    assert(r[i] == y);
                } else {
                    assert(r[q.len() as int] == y);
                }
            }
            if y == x {
                assert(q.contains(y));
                let i = choose|i: int| 0 <= i < q.len() && q[i] == y;
                assert(r[i] == y);
            }
        }
        assert forall|a: int, b: int| 0 <= a < b < r.len() implies r[a] != r[b] by {
            if b == q.len() {
                assert(r[a] == q[a]);
            }
        }
    }
}

proof fn lemma_sort_desc_keeps(hs: Seq<SearchHit>, s: Seq<int>)
    requires
        no_dup(s),
    ensures
        no_dup(sort_desc(hs, s)),
        forall|y: int| sort_desc(hs, s).contains(y) <==> s.contains(y),
    decreases s.len(),
{
    if s.len() > 0 {
        let d = s.drop_last();
        assert(no_dup(d));
        lemma_sort_desc_keeps(hs, d);
        assert(!sort_desc(hs, d).contains(s.last())) by {
            if d.contains(s.last()) {
                let j = choose|j: int| 0 <= j < d.len() && d[j] == s.last();
                assert(s[j] == s[s.len() - 1]);
            }
        }
        lemma_insert_desc_keeps(hs, sort_desc(hs, d), s.last());
        assert forall|y: int| sort_desc(hs, s).contains(y) <==> s.contains(y) by {
            if s.contains(y) {
                let j = choose|j: int| 0 <= j < s.len() && s[j] == y;
                if j < s.len() - 1 {
                    assert(d[j] == y);
                }
            }
            if d.contains(y) {
                let j = choose|j: int| 0 <= j < d.len() && d[j] == y;
                assert(s[j] == y);
            }
        }
    }
}

proof fn lemma_others_of(hs: Seq<SearchHit>, g: Seq<char>, b: int, n: int)
    requires
        0 <= n <= hs.len(),
    ensures
        no_dup(others_of(hs, g, b, n)),
        forall|y: int| others_of(hs, g, b, n).contains(y) ==> 0 <= y < n && group_key(hs[y]) == g && y != b,
    decreases n,
{
    if n > 0 {
        lemma_others_of(hs, g, b, n - 1);
        let p = others_of(hs, g, b, n - 1);
        let r = others_of(hs, g, b, n);
        assert forall|y: int| r.contains(y) implies 0 <= y < n && group_key(hs[y]) == g && y != b by {
            let j = choose|j: int| 0 <= j < r.len() && r[j] == y;
            if j < p.len() {
                assert(p[j] == y);
                assert(p.contains(y));
            }
        }
        assert forall|a: int, c: int| 0 <= a < c < r.len() implies r[a] != r[c] by {
            if c == p.len() {
                assert(p.contains(p[a]));
            }
        }
    }
}

/// Hit `y` is the best of the `t`-th region.
spec fn best_in_region(hs: Seq<SearchHit>, y: int, t: int) -> bool {
    let o = region_order(hs, hs.len() as int);
    &&& 0 <= y < hs.len()
    &&& y == best_of(hs, o[t], hs.len() as int).unwrap()
    &&& group_key(hs[y]) == o[t]
}

/// Hit `y` is in the `t`-th region and not its best.
spec fn other_in_region(hs: Seq<SearchHit>, y: int, t: int) -> bool {
    let o = region_order(hs, hs.len() as int);
    &&& 0 <= y < hs.len()
    &&& group_key(hs[y]) == o[t]
    &&& y != best_of(hs, o[t], hs.len() as int).unwrap()
}

/// The regions' best hits: distinct, in range, each the best of its region.
proof fn lemma_region_bests(hs: Seq<SearchHit>)
    ensures
        no_dup(region_bests(hs)),
        forall|t: int| 0 <= t < region_bests(hs).len() ==> #[trigger] best_in_region(hs, region_bests(hs)[t], t),
{
    let n = hs.len() as int;
    let o = region_order(hs, n);
    let bs = region_bests(hs);
    lemma_region_order(hs, n);
    assert forall|t: int| 0 <= t < bs.len() implies #[trigger] best_in_region(hs, bs[t], t) by {
        assert(o.contains(o[t]));
        lemma_best_of(hs, o[t], n);
    }
    assert forall|a: int, b: int| 0 <= a < b < bs.len() implies bs[a] != bs[b] by {
        assert(best_in_region(hs, bs[a], a));
        assert(best_in_region(hs, bs[b], b));
    }
}

/// Every index of the other hits of the first `k` regions is in range, in
/// one of those regions and not its best; none occurs twice.
proof fn lemma_region_rest(hs: Seq<SearchHit>, k: int)
    requires
        0 <= k <= region_order(hs, hs.len() as int).len(),
    ensures
        no_dup(region_rest(hs, k)),
        forall|y: int| region_rest(hs, k).contains(y) ==> exists|t: int| 0 <= t < k && #[trigger] other_in_region(hs, y, t),
    decreases k,
{
    let n = hs.len() as int;
    let o = region_order(hs, n);
    if k > 0 {
        lemma_region_rest(hs, k - 1);
        lemma_region_order(hs, n);
        let g = o[k - 1];
        let b = best_of(hs, g, n).unwrap();
        lemma_others_of(hs, g, b, n);
        let p = region_rest(hs, k - 1);
        let q = others_of(hs, g, b, n);
        let r = region_rest(hs, k);
        assert(r =~= p + q);
        assert forall|y: int| r.contains(y) implies exists|t: int| 0 <= t < k && #[trigger] other_in_region(hs, y, t) by {
            let j = choose|j: int| 0 <= j < r.len() && r[j] == y;
            if j < p.len() {
                assert(p[j] == y);
                assert(p.contains(y));
            } else {
                assert(q[j - p.len()] == y);
                assert(q.contains(y));
                assert(other_in_region(hs, y, k - 1));
            }
        }
        assert forall|a: int, c: int| 0 <= a < c < r.len() implies r[a] != r[c] by {
            if a < p.len() && c >= p.len() {
                assert(p.contains(r[a]));
                assert(q[c - p.len()] == r[c]);
                assert(q.contains(r[c]));
                let t = choose|t: int| 0 <= t < k - 1 && #[trigger] other_in_region(hs, r[a], t);
                if r[a] == r[c] {
                    assert(o[t] == o[k - 1]);
                }
            } else if a >= p.len() {
                assert(q[a - p.len()] == r[a] && q[c - p.len()] == r[c]);
            } else {
                assert(p[a] == r[a] && p[c] == r[c]);
            }
        }
    }
}

proof fn lemma_prefix_keeps(s: Seq<int>, k: int)
    requires
        no_dup(s),
        0 <= k <= s.len(),
    ensures
        no_dup(s.subrange(0, k)),
        forall|y: int| s.subrange(0, k).contains(y) ==> s.contains(y),
{
    assert forall|y: int| s.subrange(0, k).contains(y) implies s.contains(y) by {
        let j = choose|j: int| 0 <= j < k && s.subrange(0, k)[j] == y;
        assert(s[j] == y);
    }
}

/// Diversifying keeps `max_results` hits, or all of them when there are no
/// more; with no more hits than that, it keeps them all as they are; and it
/// never picks a hit twice.
pub proof fn law_diversified_count(hs: Seq<SearchHit>, m: int)
    requires
        m >= 0,
    ensures
        diversified(hs, m).len() == if hs.len() <= m { hs.len() as int } else { m },
        hs.len() <= m ==> forall|i: int| 0 <= i < hs.len() ==> diversified(hs, m)[i] == i,
        forall|i: int| 0 <= i < diversified(hs, m).len() ==> 0 <= #[trigger] diversified(hs, m)[i] < hs.len(),
        forall|a: int, b: int| 0 <= a < b < diversified(hs, m).len() ==> diversified(hs, m)[a] != diversified(hs, m)[b],
{
    let n = hs.len() as int;
    if n > m {
        let o = region_order(hs, n);
        let bs = region_bests(hs);
        let rs = region_rest(hs, o.len() as int);
        lemma_sort_desc_len(hs, bs);
        lemma_sort_desc_len(hs, rs);
        lemma_region_rest_len(hs, o.len() as int);
        assert(o.take(o.len() as int) =~= o);
        lemma_sum_counts_all(hs, n);
        lemma_region_order(hs, n);
        lemma_region_bests(hs);
        lemma_region_rest(hs, o.len() as int);
        lemma_sort_desc_keeps(hs, bs);
        lemma_sort_desc_keeps(hs, rs);
        let sel = sort_desc(hs, bs);
        let rest = sort_desc(hs, rs);
        let fl = if sel.len() <= m { sel.len() as int } else { m };
        let first = sel.subrange(0, fl);
        assert(first =~= (if sel.len() <= m { sel } else { sel.subrange(0, m) }));
        let fill = m - first.len();
        let rl = if rest.len() <= fill { rest.len() as int } else { fill };
        let tail = rest.subrange(0, rl);
        assert(tail =~= (if rest.len() <= fill { rest } else { rest.subrange(0, fill) }));
        lemma_prefix_keeps(sel, fl);
        lemma_prefix_keeps(rest, rl);
        let r = diversified(hs, m);
        assert(r =~= first + tail);
        assert forall|y: int| first.contains(y) implies 0 <= y < n && !tail.contains(y) by {
            assert(bs.contains(y));
            let t = choose|t: int| 0 <= t < bs.len() && bs[t] == y;
            assert(best_in_region(hs, bs[t], t));
            if tail.contains(y) {
                assert(rs.contains(y));
                let u = choose|u: int| 0 <= u < o.len() && #[trigger] other_in_region(hs, y, u);
                assert(o[t] == o[u]);
            }
        }
        assert forall|y: int| tail.contains(y) implies 0 <= y < n by {
            assert(rs.contains(y));
        }
        assert forall|i: int| 0 <= i < r.len() implies 0 <= #[trigger] r[i] < n by {
            if i < first.len() {
                assert(first[i] == r[i]);
                assert(first.contains(r[i]));
            } else {
                assert(tail[i - first.len()] == r[i]);
                assert(tail.contains(r[i]));
            }
        }
        assert forall|a: int, b: int| 0 <= a < b < r.len() implies r[a] != r[b] by {
            if a < first.len() && b >= first.len() {
                assert(first[a] == r[a]);
                assert(first.contains(r[a]));
                assert(tail[b - first.len()] == r[b]);
                assert(tail.contains(r[b]));
            } else if a >= first.len() {
                assert(tail[a - first.len()] == r[a] && tail[b - first.len()] == r[b]);
            } else {
                assert(first[a] == r[a] && first[b] == r[b]);
            }
        }
    }
}


// ─── heading levels ─────────────────────────────────────────────

/// Heading levels follow the numbering hierarchy of a bid document: parts
/// and chapters (level 1) hold sections and `一、` items (2), which hold
/// `（一）` items (3), which hold `1.` items and articles (4), which hold
/// `（1）` items and unnumbered headings (5). So a `（1）` heading after a
/// `1.` heading is nested under it.
pub proof fn law_heading_levels_nest(k: HeadingKind)
    ensures
        kind_level(HeadingKind::Part) == 1 && kind_level(HeadingKind::Chapter) == 1,
        kind_level(HeadingKind::Section) == 2 && kind_level(HeadingKind::CjkNumbered) == 2,
        kind_level(HeadingKind::ParenCjk) == 3,
        kind_level(HeadingKind::DigitDot) == 4 && kind_level(HeadingKind::Article) == 4,
        kind_level(HeadingKind::ParenDigit) == 5 && kind_level(HeadingKind::PlainHeading) == 5,
        kind_level(HeadingKind::ParenDigit) > kind_level(HeadingKind::DigitDot),
        kind_level(HeadingKind::DigitDot) > kind_level(HeadingKind::ParenCjk),
        kind_level(HeadingKind::ParenCjk) > kind_level(HeadingKind::CjkNumbered),
        kind_level(HeadingKind::CjkNumbered) > kind_level(HeadingKind::Chapter),
        1 <= kind_level(k) <= 5,
{
}

// ─── calendar days ──────────────────────────────────────────────

/// A Gregorian leap year.
pub open spec fn leap_year(y: int) -> bool {
    y % 4 == 0 && (y % 100 != 0 || y % 400 == 0)
}

/// The number of days of month `m` of year `y`.
pub open spec fn month_days(y: int, m: int) -> int {
    if m == 2 {
        if leap_year(y) { 29 } else { 28 }
    } else if m == 4 || m == 6 || m == 9 || m == 11 {
        30
    } else {
        31
    }
}

proof fn lemma_div_step(n: int, b: int)
    requires
        n >= 1,
        b > 0,
    ensures
        n / b - (n - 1) / b == if n % b == 0 { 1int } else { 0int },
{
    assert(n / b - (n - 1) / b == if n % b == 0 { 1int } else { 0int }) by (nonlinear_arith)
        requires n >= 1, b > 0;
}

/// The first day of a month is one day after the last day of the month
/// before it (so counting days across a month end counts one per day).
pub proof fn law_month_end_is_one_day_before_next_month(y: i32, m: u32)
    requires
        1 <= m <= 11,
        y >= -4798,
    ensures
        julian((y, (m + 1) as u32, 1u32)) == julian((y, m, month_days(y as int, m as int) as u32)) + 1,
{
    let yy = y as int;
    if m == 2 {
        let n = yy + 4800;
        lemma_div_step(n, 4);
        lemma_div_step(n, 100);
        lemma_div_step(n, 400);
        assert(n % 4 == yy % 4 && n % 100 == yy % 100 && n % 400 == yy % 400) by (nonlinear_arith)
            requires n == yy + 4800;
        assert(tdiv(n, 4) == n / 4 && tdiv(n - 1, 4) == (n - 1) / 4);
        assert(tdiv(n, 100) == n / 100 && tdiv(n - 1, 100) == (n - 1) / 100);
        assert(tdiv(n, 400) == n / 400 && tdiv(n - 1, 400) == (n - 1) / 400);
    }
}

/// The first day of a year is one day after the last day of the year before.
pub proof fn law_year_end_is_one_day_before_new_year(y: i32)
    requires
        -4798 <= y < i32::MAX,
    ensures
        julian(((y + 1) as i32, 1u32, 1u32)) == julian((y, 12u32, 31u32)) + 1,
{
}

// ─── evidence categories ────────────────────────────────────────

/// Evidence that names a brand, trademark or model together with a word that
/// restricts it (only, sole, designated, no substitute, no deviation) shows
/// a brand lock, unless an earlier rule (local registration, regional
/// performance, local award, scale threshold) already applies; and the
/// chunk's candidate categories then include brand lock.
pub proof fn law_restricted_brand_is_brand_lock(t: Seq<char>)
    requires
        contains(t, "品牌"@) || contains(t, "商标"@) || contains(t, "型号"@),
        contains(t, "仅"@) || contains(t, "只能"@) || contains(t, "唯一"@) || contains(t, "指定"@)
            || contains(t, "不接受"@) || contains(t, "不得偏离"@),
        !(is_regional(t) && rule_local_registration(t)),
        !(is_regional(t) && rule_regional_performance(t)),
        !(is_regional(t) && rule_local_award(t)),
        !rule_scale_threshold(t),
    ensures
        evidence_category(t) == Some("BRAND_LOCK"),
        exists|i: int| 0 <= i < candidates_of(t).len() && #[trigger] candidates_of(t)[i]@ == "BRAND_LOCK"@,
{
    let w0 = seq!["品牌", "商标", "型号"];
    let w1 = seq!["仅", "只能", "唯一", "指定", "不接受", "不得偏离"];
    if contains(t, "品牌"@) { assert(contains(t, w0[0]@)); }
    if contains(t, "商标"@) { assert(contains(t, w0[1]@)); }
    if contains(t, "型号"@) { assert(contains(t, w0[2]@)); }
    if contains(t, "仅"@) { assert(contains(t, w1[0]@)); }
    if contains(t, "只能"@) { assert(contains(t, w1[1]@)); }
    if contains(t, "唯一"@) { assert(contains(t, w1[2]@)); }
    if contains(t, "指定"@) { assert(contains(t, w1[3]@)); }
    if contains(t, "不接受"@) { assert(contains(t, w1[4]@)); }
    if contains(t, "不得偏离"@) { assert(contains(t, w1[5]@)); }
    assert(evidence_category(t) == Some("BRAND_LOCK"));
    let acc = segment_categories(split_any(t, segment_separators()));
    let c = candidates_of(t);
    if exists|i: int| 0 <= i < acc.len() && acc[i]@ == "BRAND_LOCK"@ {
        let i = choose|i: int| 0 <= i < acc.len() && acc[i]@ == "BRAND_LOCK"@;
        assert(c[i]@ == "BRAND_LOCK"@);
    } else {
        assert(c[acc.len() as int]@ == "BRAND_LOCK"@);
    }
}

// ─── risk tier keywords ─────────────────────────────────────────

/// The trigger words of the highest tier: brand and model, designation,
/// patents and the original maker, locality (本地, 东莞, 深圳, 本市, 所在地,
/// 分支机构, 常驻, 地域), exclusivity (唯一, 独家, 排他, 不接受替代),
/// maker authorisations, and the ★ mark of a mandatory item.
pub open spec fn documented_l3_words() -> Seq<&'static str> {
    seq![
        "品牌", "型号", "指定", "必须采用", "原厂", "专利", "专有技术",
        "本地", "东莞", "深圳", "本市", "所在地", "分支机构", "常驻",
        "唯一", "独家", "排他", "不接受替代", "原厂商授权",
        "制造商授权函", "项目授权", "★", "地域",
    ]
}

/// A clause whose (lower-cased) text holds any documented high-tier trigger
/// word is `High`, whatever else it holds.
pub proof fn law_documented_trigger_word_is_high(text: Seq<char>, i: int)
    requires
        0 <= i < documented_l3_words().len(),
        contains(lowercase(text), lowercase(documented_l3_words()[i]@)),
    ensures
        tier_of_text(text) == RiskTier::High,
{
    assert(l3_keywords() =~= documented_l3_words());
    assert(lowered_hit(lowercase(text), l3_keywords()));
}

/// The documented trigger words, one law each for the exclusivity words.
pub proof fn law_exclusivity_is_high(text: Seq<char>)
    requires
        contains(lowercase(text), lowercase("排他"@)) || contains(lowercase(text), lowercase("独家"@))
            || contains(lowercase(text), lowercase("唯一"@)),
    ensures
        tier_of_text(text) == RiskTier::High,
{
    let w = documented_l3_words();
    if contains(lowercase(text), lowercase("排他"@)) {
        assert(w[16]@ == "排他"@);
        law_documented_trigger_word_is_high(text, 16);
    } else if contains(lowercase(text), lowercase("独家"@)) {
        assert(w[15]@ == "独家"@);
        law_documented_trigger_word_is_high(text, 15);
    } else {
        assert(w[14]@ == "唯一"@);
        law_documented_trigger_word_is_high(text, 14);
    }
}

/// The trigger words of the lowest tier: formatting and binding, seals and
/// signatures, copies, cover, contents, page numbers, fonts and spacing,
/// and the procurement file's identifying header items.
pub open spec fn documented_l1_words() -> Seq<&'static str> {
    seq![
        "格式", "装订", "密封", "签字", "盖章", "份数", "封面",
        "目录", "页码", "字体", "字号", "行距",
        "采购计划编号", "采购项目编号", "竞争性磋商文件",
        "磋商邀请", "投标邀请函",
    ]
}

/// A clause with no documented high-tier trigger word but a documented
/// low-tier one is `Low`; with neither it is `Medium`.
pub proof fn law_documented_low_and_medium(text: Seq<char>)
    requires
        forall|i: int| 0 <= i < documented_l3_words().len()
            ==> !contains(lowercase(text), lowercase(#[trigger] documented_l3_words()[i]@)),
    ensures
        (exists|j: int| 0 <= j < documented_l1_words().len()
            && contains(lowercase(text), lowercase(#[trigger] documented_l1_words()[j]@))) ==> tier_of_text(text) == RiskTier::Low,
        (forall|j: int| 0 <= j < documented_l1_words().len()
            ==> !contains(lowercase(text), lowercase(#[trigger] documented_l1_words()[j]@))) ==> tier_of_text(text) == RiskTier::Medium,
{
    assert(l3_keywords() =~= documented_l3_words());
    assert(l1_keywords() =~= documented_l1_words());
}

// ─── masking order ──────────────────────────────────────────────

/// Masking runs e-mail addresses first, then identity numbers, then mobile
/// and landline numbers, then dates, then amounts: each step sees the text
/// that the more specific steps before it have already masked, so a broad
/// pattern never cuts into an e-mail address or an identity number, and a
/// year never passes for an amount.
pub proof fn law_masking_order(t: Seq<char>)
    ensures
        masked(t, 6) == regex_replaced(r"\d+(?:\.\d{1,2})?\s*[万元亿]"@,
            regex_replaced(r"\d{4}\s*年\s*\d{1,2}\s*月\s*\d{1,2}\s*日"@,
                regex_replaced(r"0\d{2,3}[-\s]?\d{7,8}"@,
                    regex_replaced(r"1[3-9]\d-?\d{4}-?\d{4}"@,
                        regex_replaced(r"\b\d{17}[\dXx]\b"@,
                            regex_replaced(r"[\w.\-+]+@[\w.\-]+\.[a-zA-Z]{2,}"@, t, "[邮箱]"@),
                            "[证件号]"@),
                        "[联系电话]"@),
                    "[联系电话]"@),
                "[日期]"@),
            "[金额]"@),
{
    reveal_with_fuel(masked, 7);
}

} // verus!
