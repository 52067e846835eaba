//! The fallback blind-spot scan: without a model, flag the clauses that no
//! agent reviewed, and the risk-free clauses that at most one agent looked at.
use vstd::prelude::*;
use crate::coordination::{chunk_node, is_frontmatter, is_frontmatter_section, preview_of};
use crate::numbers::{dec, fmt_int_exec};
use crate::text::{contains_string, copy_strings, chars_of, extend_chars, extend_str, join, join_chars, string_of, string_views, views};
use crate::types::{tier_max_turns, ChunkNode, ReviewClause, RiskTier};

verus! {

/// Review coverage of one clause of the session graph.
#[derive(Debug, Clone)]
pub struct CoverageEntry {
    pub chunk_id: String,
    pub chunk: ChunkNode,
    /// How many agents reviewed the clause (0 when none is recorded).
    pub reviewer_count: usize,
    /// The graph has a `has_risk` entry for the clause.
    pub has_risk: bool,
    /// How many risks that entry lists (0 when there is none).
    pub risk_count: usize,
}

/// A blind spot to report as an informational finding.
#[derive(Debug, Clone)]
pub struct BlindSpotFinding {
    pub risk_id: String,
    pub chunk_id: String,
    /// Set for a clause that was reviewed but found risk-free.
    pub no_risk: bool,
    pub risk_type: String,
    pub source_quote: String,
    pub reason: String,
    pub suggestion: String,
    /// 1-based page of the clause.
    pub page_number: usize,
    pub section_path: Vec<String>,
    /// The first 500 characters of the clause preview.
    pub context: String,
}

pub open spec fn unreviewed(e: CoverageEntry) -> bool {
    e.reviewer_count == 0
}

/// A risk-free clause worth a second look: not of the formatting tier and
/// not front matter.
pub open spec fn worth_rechecking(e: CoverageEntry) -> bool {
    &&& !e.has_risk
    &&& e.chunk.tier != RiskTier::Low
    &&& !is_frontmatter(string_views(e.chunk.section_path@))
}

pub open spec fn count_where(es: Seq<CoverageEntry>, p: spec_fn(CoverageEntry) -> bool, n: int) -> nat
    decreases n,
{
    if n <= 0 { 0 } else { count_where(es, p, n - 1) + if p(es[n - 1]) { 1nat } else { 0nat } }
}

/// Nothing to report: every clause was reviewed and at most one risk-free
/// clause would be worth a second look.
pub open spec fn nothing_to_flag(es: Seq<CoverageEntry>) -> bool {
    count_where(es, |e: CoverageEntry| unreviewed(e), es.len() as int) == 0
        && count_where(es, |e: CoverageEntry| worth_rechecking(e), es.len() as int) <= 1
}

/// A blind-spot finding as values: risk id, chunk id, no-risk flag, type,
/// quote, reason, suggestion, page, path, context.
pub type FlagView = (Seq<char>, Seq<char>, bool, Seq<char>, Seq<char>, Seq<char>, Seq<char>, int, Seq<Seq<char>>, Seq<char>);

pub open spec fn flag_view(f: BlindSpotFinding) -> FlagView {
    (f.risk_id@, f.chunk_id@, f.no_risk, f.risk_type@, f.source_quote@, f.reason@, f.suggestion@, f.page_number as int,
        string_views(f.section_path@), f.context@)
}

pub open spec fn preview_context(e: CoverageEntry) -> Seq<char> {
    let t = e.chunk.text_preview@;
    if t.len() <= 500 { t } else { t.subrange(0, 500) }
}

/// The finding for a clause that no agent reviewed.
pub open spec fn unreviewed_flag(e: CoverageEntry) -> FlagView {
    let cid = e.chunk_id@;
    let path = string_views(e.chunk.section_path@);
    ("BLIND_"@ + cid, cid, false, "审查盲点"@, e.chunk.text_preview@,
        "条款 "@ + cid + " 未被任何 Agent 审查，建议人工复核。章节: "@ + join(path, " > "@),
        "建议指派 Agent 重新审查或人工复核。"@, e.chunk.page_start + 1, path, preview_context(e))
}

/// The finding for a risk-free clause that at most one agent reviewed.
pub open spec fn omission_flag(e: CoverageEntry) -> FlagView {
    let cid = e.chunk_id@;
    ("BLIND_NO_RISK_"@ + cid, cid, true, "潜在遗漏"@, e.chunk.text_preview@,
        "条款 "@ + cid + " 仅被 "@ + dec(e.reviewer_count as nat) + " 个 Agent 审查且无风险发现，建议人工确认。"@,
        "建议人工快速复核确认无风险。"@, e.chunk.page_start + 1, string_views(e.chunk.section_path@), preview_context(e))
}

/// The unreviewed clauses among the first `n`, flagged in order.
pub open spec fn unreviewed_flags(es: Seq<CoverageEntry>, n: int) -> Seq<FlagView>
    decreases n,
{
    if n <= 0 {
        Seq::<FlagView>::empty()
    } else {
        let p = unreviewed_flags(es, n - 1);
        if unreviewed(es[n - 1]) { p.push(unreviewed_flag(es[n - 1])) } else { p }
    }
}

/// The reviewed, risk-free clauses worth a second look among the first
/// `n` that at most one agent reviewed, flagged in order.
pub open spec fn omission_flags(es: Seq<CoverageEntry>, n: int) -> Seq<FlagView>
    decreases n,
{
    if n <= 0 {
        Seq::<FlagView>::empty()
    } else {
        let p = omission_flags(es, n - 1);
        let e = es[n - 1];
        if worth_rechecking(e) && !unreviewed(e) && e.reviewer_count <= 1 { p.push(omission_flag(e)) } else { p }
    }
}

pub open spec fn blind_spots(es: Seq<CoverageEntry>) -> Seq<FlagView> {
    if nothing_to_flag(es) {
        Seq::<FlagView>::empty()
    } else {
        unreviewed_flags(es, es.len() as int) + omission_flags(es, es.len() as int)
    }
}

fn context_of(e: &CoverageEntry) -> (r: String)
    ensures
        r@ == preview_context(*e),
{
    let t = chars_of(e.chunk.text_preview.as_str());
    if t.len() <= 500 {
        string_of(t.as_slice())
    } else {
        let head = crate::text::slice_range(t.as_slice(), 0, 500);
        string_of(head.as_slice())
    }
}

fn make_unreviewed(e: &CoverageEntry) -> (r: BlindSpotFinding)
    requires
        e.chunk.page_start < usize::MAX,
    ensures
        flag_view(r) == unreviewed_flag(*e),
{
    let mut rid: Vec<char> = Vec::new();
    extend_str(&mut rid, "BLIND_");
    extend_str(&mut rid, e.chunk_id.as_str());
    let mut parts: Vec<Vec<char>> = Vec::new();
    let mut i: usize = 0;
    while i < e.chunk.section_path.len()
        invariant
            i <= e.chunk.section_path@.len(),
            views(parts@) == string_views(e.chunk.section_path@).subrange(0, i as int),
        decreases e.chunk.section_path@.len() - i,
    {
        let ghost before = views(parts@);
        parts.push(chars_of(e.chunk.section_path[i].as_str()));
        assert(views(parts@) =~= before.push(e.chunk.section_path@[i as int]@));
        assert(string_views(e.chunk.section_path@).subrange(0, i as int + 1)
            =~= string_views(e.chunk.section_path@).subrange(0, i as int).push(e.chunk.section_path@[i as int]@));
        i = i + 1;
    }
    assert(string_views(e.chunk.section_path@).subrange(0, e.chunk.section_path@.len() as int) =~= string_views(e.chunk.section_path@));
    let sep = chars_of(" > ");
    let path = join_chars(&parts, sep.as_slice());
    let mut reason: Vec<char> = Vec::new();
    extend_str(&mut reason, "条款 ");
    extend_str(&mut reason, e.chunk_id.as_str());
    extend_str(&mut reason, " 未被任何 Agent 审查，建议人工复核。章节: ");
    extend_chars(&mut reason, path.as_slice());
    BlindSpotFinding {
        risk_id: string_of(rid.as_slice()),
        chunk_id: e.chunk_id.clone(),
        no_risk: false,
        risk_type: String::from_str("审查盲点"),
        source_quote: e.chunk.text_preview.clone(),
        reason: string_of(reason.as_slice()),
        suggestion: String::from_str("建议指派 Agent 重新审查或人工复核。"),
        page_number: e.chunk.page_start + 1,
        section_path: copy_strings(&e.chunk.section_path),
        context: context_of(e),
    }
}

fn make_omission(e: &CoverageEntry) -> (r: BlindSpotFinding)
    requires
        e.chunk.page_start < usize::MAX,
    ensures
        flag_view(r) == omission_flag(*e),
{
    let mut rid: Vec<char> = Vec::new();
    extend_str(&mut rid, "BLIND_NO_RISK_");
    extend_str(&mut rid, e.chunk_id.as_str());
    let mut reason: Vec<char> = Vec::new();
    extend_str(&mut reason, "条款 ");
    extend_str(&mut reason, e.chunk_id.as_str());
    extend_str(&mut reason, " 仅被 ");
    let n = fmt_int_exec(e.reviewer_count as i128, 0);
    extend_chars(&mut reason, n.as_slice());
    extend_str(&mut reason, " 个 Agent 审查且无风险发现，建议人工确认。");
    BlindSpotFinding {
        risk_id: string_of(rid.as_slice()),
        chunk_id: e.chunk_id.clone(),
        no_risk: true,
        risk_type: String::from_str("潜在遗漏"),
        source_quote: e.chunk.text_preview.clone(),
        reason: string_of(reason.as_slice()),
        suggestion: String::from_str("建议人工快速复核确认无风险。"),
        page_number: e.chunk.page_start + 1,
        section_path: copy_strings(&e.chunk.section_path),
        context: context_of(e),
    }
}

fn worth_rechecking_exec(e: &CoverageEntry) -> (r: bool)
    ensures
        r == worth_rechecking(*e),
{
    !e.has_risk && e.chunk.tier != RiskTier::Low && !is_frontmatter_section(&e.chunk.section_path)
}

pub open spec fn flag_views(v: Seq<BlindSpotFinding>) -> Seq<FlagView> {
    v.map_values(|f: BlindSpotFinding| flag_view(f))
}

/// The blind spots of the review, found without a model: every clause no
/// agent reviewed, then every risk-free clause worth a second look that at
/// most one agent reviewed; nothing when every clause was reviewed and at
/// most one would be worth a second look.
pub fn blind_spot_fallback(entries: &Vec<CoverageEntry>) -> (r: Vec<BlindSpotFinding>)
    requires
        forall|k: int| 0 <= k < entries@.len() ==> #[trigger] entries@[k].chunk.page_start < usize::MAX,
    ensures
        flag_views(r@) == blind_spots(entries@),
{
    let ghost es = entries@;
    let n = entries.len();
    let mut unrev: usize = 0;
    let mut worth: usize = 0;
    let mut i: usize = 0;
    while i < n
        invariant
            i <= n,
            n == es.len(),
            es == entries@,
            unrev == count_where(es, |e: CoverageEntry| unreviewed(e), i as int),
            worth == count_where(es, |e: CoverageEntry| worth_rechecking(e), i as int),
            unrev <= i,
            worth <= i,
        decreases n - i,
    {
        if entries[i].reviewer_count == 0 {
            unrev = unrev + 1;
        }
        if worth_rechecking_exec(&entries[i]) {
            worth = worth + 1;
        }
        i = i + 1;
    }
    let mut out: Vec<BlindSpotFinding> = Vec::new();
    if unrev == 0 && worth <= 1 {
        return out;
    }
    let mut i: usize = 0;
    while i < n
        invariant
            i <= n,
            n == es.len(),
            es == entries@,
            forall|k: int| 0 <= k < n ==> #[trigger] es[k].chunk.page_start < usize::MAX,
            flag_views(out@) == unreviewed_flags(es, i as int),
        decreases n - i,
    {
        if entries[i].reviewer_count == 0 {
            let f = make_unreviewed(&entries[i]);
            let ghost before = flag_views(out@);
            out.push(f);
            assert(flag_views(out@) =~= before.push(flag_view(f)));
        }
        i = i + 1;
    }
    let ghost head = flag_views(out@);
    let mut i: usize = 0;
    while i < n
        invariant
            i <= n,
            n == es.len(),
            es == entries@,
            forall|k: int| 0 <= k < n ==> #[trigger] es[k].chunk.page_start < usize::MAX,
            flag_views(out@) == head + omission_flags(es, i as int),
        decreases n - i,
    {
        let e = &entries[i];
        if worth_rechecking_exec(e) && e.reviewer_count != 0 && e.reviewer_count <= 1 {
            let f = make_omission(e);
            let ghost before = flag_views(out@);
            out.push(f);
            assert(flag_views(out@) =~= before.push(flag_view(f)));
        }
        i = i + 1;
    }
    out
}

// ─── the model-driven scan ──────────────────────────────────────

/// A clause for the blind-spot agent to look at: not of the formatting tier,
/// not front matter, and either unreviewed or reviewed by at most one agent
/// without any risk found.
pub open spec fn scan_candidate(e: CoverageEntry) -> bool {
    &&& e.chunk.tier != RiskTier::Low
    &&& !is_frontmatter(string_views(e.chunk.section_path@))
    &&& (e.reviewer_count == 0 || (e.reviewer_count <= 1 && e.risk_count == 0))
}

/// The candidate entries, in order.
pub open spec fn scan_candidates(es: Seq<CoverageEntry>) -> Seq<CoverageEntry>
    decreases es.len(),
{
    if es.len() == 0 {
        es
    } else if scan_candidate(es.last()) {
        scan_candidates(es.drop_last()).push(es.last())
    } else {
        scan_candidates(es.drop_last())
    }
}

/// The clause handed to the blind-spot agent for an entry: the clause's
/// preview stands for its text, and its tier gives the turns.
pub open spec fn candidate_clause(c: ReviewClause, e: CoverageEntry) -> bool {
    &&& c.chunk_id@ == e.chunk.chunk_id@
    &&& string_views(c.section_path@) == string_views(e.chunk.section_path@)
    &&& c.text@ == e.chunk.text_preview@
    &&& c.page_start == e.chunk.page_start
    &&& c.page_end == e.chunk.page_end
    &&& c.tier == e.chunk.tier
    &&& c.tier_max_turns == tier_max_turns(e.chunk.tier)
}

/// The clauses for the blind-spot agent: the first fifty candidates.
pub fn blind_spot_candidates(entries: &Vec<CoverageEntry>) -> (r: Vec<ReviewClause>)
    ensures
        r@.len() == if scan_candidates(entries@).len() <= 50 { scan_candidates(entries@).len() } else { 50 },
        forall|k: int| 0 <= k < r@.len() ==> candidate_clause(#[trigger] r@[k], scan_candidates(entries@)[k]),
{
    let mut out: Vec<ReviewClause> = Vec::new();
    let mut i: usize = 0;
    while i < entries.len()
        invariant
            i <= entries@.len(),
            out@.len() == if scan_candidates(entries@.subrange(0, i as int)).len() <= 50 {
                scan_candidates(entries@.subrange(0, i as int)).len()
            } else {
                50
            },
            forall|k: int| 0 <= k < out@.len() ==> candidate_clause(#[trigger] out@[k], scan_candidates(entries@.subrange(0, i as int))[k]),
        decreases entries@.len() - i,
    {
        let e = &entries[i];
        let ghost prev = scan_candidates(entries@.subrange(0, i as int));
        proof {
            let nxt = entries@.subrange(0, i as int + 1);
            assert(nxt.drop_last() =~= entries@.subrange(0, i as int));
            assert(nxt.last() == *e);
        }
        let low = match e.chunk.tier {
            RiskTier::Low => true,
            _ => false,
        };
        let ok = !low && !is_frontmatter_section(&e.chunk.section_path)
            && (e.reviewer_count == 0 || (e.reviewer_count <= 1 && e.risk_count == 0));
        if ok && out.len() < 50 {
            out.push(ReviewClause {
                chunk_id: e.chunk.chunk_id.clone(),
                section_path: copy_strings(&e.chunk.section_path),
                text: e.chunk.text_preview.clone(),
                page_start: e.chunk.page_start,
                page_end: e.chunk.page_end,
                tier: e.chunk.tier,
                tier_max_turns: e.chunk.tier.max_turns(),
            });
        }
        i = i + 1;
    }
    assert(entries@.subrange(0, entries@.len() as int) =~= entries@);
    out
}

pub open spec fn covered_by(ids: Seq<Seq<char>>, c: ReviewClause) -> bool {
    ids.contains(c.chunk_id@)
}

/// The candidates no finding covers, in order.
pub open spec fn missed(cs: Seq<ReviewClause>, ids: Seq<Seq<char>>) -> Seq<ReviewClause>
    decreases cs.len(),
{
    if cs.len() == 0 {
        cs
    } else if covered_by(ids, cs.last()) {
        missed(cs.drop_last(), ids)
    } else {
        missed(cs.drop_last(), ids).push(cs.last())
    }
}

/// The second, quick pass of the blind-spot agent: the candidates that no
/// finding covers (`covered` holds the clause ids of the findings), each with
/// two turns.
pub fn sweep_clauses(candidates: &Vec<ReviewClause>, covered: &Vec<String>) -> (r: Vec<ReviewClause>)
    ensures
        r@.len() == missed(candidates@, string_views(covered@)).len(),
        forall|k: int| 0 <= k < r@.len() ==> {
            let m = missed(candidates@, string_views(covered@))[k];
            &&& (#[trigger] r@[k]).chunk_id@ == m.chunk_id@
            &&& string_views(r@[k].section_path@) == string_views(m.section_path@)
            &&& r@[k].text@ == m.text@
            &&& r@[k].page_start == m.page_start
            &&& r@[k].page_end == m.page_end
            &&& r@[k].tier == m.tier
            &&& r@[k].tier_max_turns == 2
        },
{
    let ghost cv = string_views(covered@);
    let mut out: Vec<ReviewClause> = Vec::new();
    let mut i: usize = 0;
    while i < candidates.len()
        invariant
            i <= candidates@.len(),
            cv == string_views(covered@),
            out@.len() == missed(candidates@.subrange(0, i as int), cv).len(),
            forall|k: int| 0 <= k < out@.len() ==> {
                let m = missed(candidates@.subrange(0, i as int), cv)[k];
                &&& (#[trigger] out@[k]).chunk_id@ == m.chunk_id@
                &&& string_views(out@[k].section_path@) == string_views(m.section_path@)
                &&& out@[k].text@ == m.text@
                &&& out@[k].page_start == m.page_start
                &&& out@[k].page_end == m.page_end
                &&& out@[k].tier == m.tier
                &&& out@[k].tier_max_turns == 2
            },
        decreases candidates@.len() - i,
    {
        let c = &candidates[i];
        proof {
            let nxt = candidates@.subrange(0, i as int + 1);
            assert(nxt.drop_last() =~= candidates@.subrange(0, i as int));
            assert(nxt.last() == *c);
        }
        if !contains_string(covered, c.chunk_id.as_str()) {
            out.push(ReviewClause {
                chunk_id: c.chunk_id.clone(),
                section_path: copy_strings(&c.section_path),
                text: c.text.clone(),
                page_start: c.page_start,
                page_end: c.page_end,
                tier: c.tier,
                tier_max_turns: 2,
            });
        }
        i = i + 1;
    }
    assert(candidates@.subrange(0, candidates@.len() as int) =~= candidates@);
    out
}


// ─── coverage of the clauses ────────────────────────────────────

/// The agents that reviewed a clause.
#[derive(Debug, Clone)]
pub struct ReviewedBy {
    pub chunk_id: String,
    pub agents: Vec<String>,
}

/// What coverage reads of a finding: whether it reports a risk, and its
/// clauses.
#[derive(Debug, Clone)]
pub struct FindingRef {
    pub no_risk: bool,
    pub clause_ids: Vec<String>,
}

/// How many agents reviewed the clause: those of the first record for its
/// id, or none.
pub open spec fn reviewers_of(rb: Seq<ReviewedBy>, id: Seq<char>) -> nat
    decreases rb.len(),
{
    if rb.len() == 0 {
        0
    } else if rb[0].chunk_id@ == id {
        rb[0].agents@.len()
    } else {
        reviewers_of(rb.subrange(1, rb.len() as int), id)
    }
}

/// How many findings report a risk on the clause.
pub open spec fn risks_of(fs: Seq<FindingRef>, id: Seq<char>) -> nat
    decreases fs.len(),
{
    if fs.len() == 0 {
        0
    } else {
        risks_of(fs.drop_last(), id) + if !fs.last().no_risk && string_views(fs.last().clause_ids@).contains(id) { 1nat } else { 0nat }
    }
}

/// The coverage entry of a clause.
pub open spec fn entry_of_clause(e: CoverageEntry, c: ReviewClause, rb: Seq<ReviewedBy>, fs: Seq<FindingRef>) -> bool {
    &&& e.chunk_id@ == c.chunk_id@
    &&& e.chunk.chunk_id@ == c.chunk_id@
    &&& string_views(e.chunk.section_path@) == string_views(c.section_path@)
    &&& e.chunk.page_start == c.page_start
    &&& e.chunk.page_end == c.page_end
    &&& e.chunk.text_preview@ == preview_of(c.text@)
    &&& e.chunk.tier == c.tier
    &&& e.reviewer_count == reviewers_of(rb, c.chunk_id@)
    &&& e.risk_count == risks_of(fs, c.chunk_id@)
    &&& e.has_risk == (risks_of(fs, c.chunk_id@) > 0)
}

fn reviewers_exec(rb: &Vec<ReviewedBy>, id: &String) -> (r: usize)
    ensures
        r == reviewers_of(rb@, id@),
{
    let mut i: usize = 0;
    assert(rb@.subrange(0, rb@.len() as int) =~= rb@);
    while i < rb.len()
        invariant
            i <= rb@.len(),
            reviewers_of(rb@, id@) == reviewers_of(rb@.subrange(i as int, rb@.len() as int), id@),
        decreases rb@.len() - i,
    {
        let ghost rest = rb@.subrange(i as int, rb@.len() as int);
        assert(rest[0] == rb@[i as int]);
        assert(rest.subrange(1, rest.len() as int) =~= rb@.subrange(i as int + 1, rb@.len() as int));
        if rb[i].chunk_id == *id {
            return rb[i].agents.len();
        }
        i = i + 1;
    }
    0
}

fn risks_exec(fs: &Vec<FindingRef>, id: &String) -> (r: usize)
    ensures
        r == risks_of(fs@, id@),
{
    let mut n: usize = 0;
    let mut i: usize = 0;
    while i < fs.len()
        invariant
            i <= fs@.len(),
            n <= i,
            n == risks_of(fs@.subrange(0, i as int), id@),
        decreases fs@.len() - i,
    {
        assert(fs@.subrange(0, i as int + 1).drop_last() =~= fs@.subrange(0, i as int));
        if !fs[i].no_risk && contains_string(&fs[i].clause_ids, id.as_str()) {
            n = n + 1;
        }
        i = i + 1;
    }
    assert(fs@.subrange(0, fs@.len() as int) =~= fs@);
    n
}

/// The coverage of each clause, in order: its graph node, how many agents
/// reviewed it, and how many findings report a risk on it.
pub fn coverage_entries(clauses: &Vec<ReviewClause>, reviewed_by: &Vec<ReviewedBy>, findings: &Vec<FindingRef>) -> (r: Vec<CoverageEntry>)
    ensures
        r@.len() == clauses@.len(),
        forall|k: int| 0 <= k < r@.len() ==> entry_of_clause(#[trigger] r@[k], clauses@[k], reviewed_by@, findings@),
{
    let mut out: Vec<CoverageEntry> = Vec::new();
    let mut i: usize = 0;
    while i < clauses.len()
        invariant
            i <= clauses@.len(),
            out@.len() == i,
            forall|k: int| 0 <= k < i ==> entry_of_clause(#[trigger] out@[k], clauses@[k], reviewed_by@, findings@),
        decreases clauses@.len() - i,
    {
        let c = &clauses[i];
        let rc = reviewers_exec(reviewed_by, &c.chunk_id);
        let kc = risks_exec(findings, &c.chunk_id);
        out.push(CoverageEntry {
            chunk_id: c.chunk_id.clone(),
            chunk: chunk_node(c),
            reviewer_count: rc,
            has_risk: kc > 0,
            risk_count: kc,
        });
        i = i + 1;
    }
    out
}


// ─── the course of a blind-spot scan ────────────────────────────

/// Where a blind-spot scan stands.
pub enum BlindSpotStage {
    /// Candidates are chosen; whether a blind-spot agent is registered.
    Chosen { candidates: usize, agent_registered: bool },
    /// The agent reviewed the candidates and reported this many risks.
    Reviewed { risks: usize },
}

/// What the scan does next.
#[derive(Debug, Clone, Copy, PartialEq, Eq, Structural)]
pub enum BlindSpotStep {
    /// End with no finding.
    Stop,
    /// End with the static scan of `blind_spot_fallback`.
    Fallback,
    /// Let the agent review the candidates.
    Review,
    /// Keep the agent's risks and sweep the candidates they do not cover.
    Sweep,
}

pub open spec fn blind_spot_step_spec(stage: BlindSpotStage, fallback_enabled: bool) -> BlindSpotStep {
    let fallback = if fallback_enabled { BlindSpotStep::Fallback } else { BlindSpotStep::Stop };
    match stage {
        BlindSpotStage::Chosen { candidates, agent_registered } => if candidates == 0 {
            BlindSpotStep::Stop
        } else if !agent_registered {
            fallback
        } else {
            BlindSpotStep::Review
        },
        BlindSpotStage::Reviewed { risks } => if risks == 0 { fallback } else { BlindSpotStep::Sweep },
    }
}

/// The next step of a blind-spot scan: no candidates end it; without an
/// agent, or when the agent reports no risk, the static scan takes over if
/// it is enabled; otherwise the agent reviews, then its risks are kept and
/// the uncovered candidates swept.
pub fn blind_spot_step(stage: BlindSpotStage, fallback_enabled: bool) -> (r: BlindSpotStep)
    ensures
        r == blind_spot_step_spec(stage, fallback_enabled),
{
    let fallback = if fallback_enabled { BlindSpotStep::Fallback } else { BlindSpotStep::Stop };
    match stage {
        BlindSpotStage::Chosen { candidates, agent_registered } => {
            if candidates == 0 {
                BlindSpotStep::Stop
            } else if !agent_registered {
                fallback
            } else {
                BlindSpotStep::Review
            }
        },
        BlindSpotStage::Reviewed { risks } => if risks == 0 { fallback } else { BlindSpotStep::Sweep },
    }
}

} // verus!
