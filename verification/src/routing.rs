//! Routing clauses to the enabled agents by their section keywords, with
//! the fact-check agent taking every clause that no agent took.
use vstd::prelude::*;
use crate::text::{any_contained, any_in, contains, copy_strings, lowercase, lowercase_each, lowercase_strings, string_views, to_lowercase};
use crate::types::{agent_id_eq, AgentId, ReviewClause, RiskTier};

verus! {

/// An enabled agent and the keywords that route a clause to it (none: it
/// takes every clause).
pub struct RouteRule {
    pub agent: AgentId,
    pub keywords: Vec<String>,
}

/// The clauses routed to one agent, in the order they were routed.
pub struct Routed {
    pub agent: AgentId,
    pub clauses: Vec<ReviewClause>,
}

/// A clause as values: id, path, text, pages, tier, turns.
pub type ClauseView = (Seq<char>, Seq<Seq<char>>, Seq<char>, usize, usize, RiskTier, usize);

pub open spec fn clause_view(c: ReviewClause) -> ClauseView {
    (c.chunk_id@, string_views(c.section_path@), c.text@, c.page_start, c.page_end, c.tier, c.tier_max_turns)
}

/// A clause's text matches an agent's keywords: there are none, or one of
/// them occurs in the text, both lower-cased.
pub open spec fn routes_to(text: Seq<char>, kws: Seq<Seq<char>>) -> bool {
    kws.len() == 0 || exists|k: int| 0 <= k < kws.len() && #[trigger] contains(lowercase(text), lowercase(kws[k]))
}

/// The routings of clause `i` by the first `j` rules: (agent, clause index).
pub open spec fn clause_routes(c: ReviewClause, i: int, rules: Seq<RouteRule>, j: int) -> Seq<(AgentId, int)>
    decreases j,
{
    if j <= 0 {
        Seq::<(AgentId, int)>::empty()
    } else {
        let p = clause_routes(c, i, rules, j - 1);
        if routes_to(c.text@, string_views(rules[j - 1].keywords@)) { p.push((rules[j - 1].agent, i)) } else { p }
    }
}

/// The routings of the first `n` clauses, clause by clause.
pub open spec fn keyword_routes(cs: Seq<ReviewClause>, rules: Seq<RouteRule>, n: int) -> Seq<(AgentId, int)>
    decreases n,
{
    if n <= 0 {
        Seq::<(AgentId, int)>::empty()
    } else {
        keyword_routes(cs, rules, n - 1) + clause_routes(cs[n - 1], n - 1, rules, rules.len() as int)
    }
}

/// Some routing holds a clause with the id of clause `i`.
pub open spec fn id_routed(cs: Seq<ReviewClause>, ps: Seq<(AgentId, int)>, i: int) -> bool {
    exists|k: int| 0 <= k < ps.len() && #[trigger] cs[ps[k].1].chunk_id@ == cs[i].chunk_id@
}

/// The routings after the fallback has looked at the first `n` clauses: a
/// clause whose id no routing holds yet goes to the fact-check agent.
pub open spec fn with_fallback(cs: Seq<ReviewClause>, ps: Seq<(AgentId, int)>, n: int) -> Seq<(AgentId, int)>
    decreases n,
{
    if n <= 0 {
        ps
    } else {
        let p = with_fallback(cs, ps, n - 1);
        if id_routed(cs, p, n - 1) { p } else { p.push((AgentId::FactCheck, n - 1)) }
    }
}

/// Where the entry of agent `a` is among `g`, or -1.
pub open spec fn entry_of(g: Seq<(AgentId, Seq<int>)>, a: AgentId) -> int
    decreases g.len(),
{
    if g.len() == 0 {
        -1
    } else if agent_id_eq(g.last().0, a) && entry_of(g.drop_last(), a) == -1 {
        g.len() - 1
    } else {
        entry_of(g.drop_last(), a)
    }
}

/// The routings grouped by agent: one entry per agent, in the order the
/// agents were first routed to, each with its clauses in routing order.
pub open spec fn grouped(ps: Seq<(AgentId, int)>) -> Seq<(AgentId, Seq<int>)>
    decreases ps.len(),
{
    if ps.len() == 0 {
        Seq::<(AgentId, Seq<int>)>::empty()
    } else {
        let g = grouped(ps.drop_last());
        let (a, i) = ps.last();
        let k = entry_of(g, a);
        if k >= 0 { g.update(k, (g[k].0, g[k].1.push(i))) } else { g.push((a, seq![i])) }
    }
}

/// The routing of the clauses.
pub open spec fn routing_of(cs: Seq<ReviewClause>, rules: Seq<RouteRule>) -> Seq<(AgentId, Seq<int>)> {
    grouped(with_fallback(cs, keyword_routes(cs, rules, cs.len() as int), cs.len() as int))
}

/// `r` is the entry `g` of the routing of `cs`.
pub open spec fn entry_matches(r: Routed, g: (AgentId, Seq<int>), cs: Seq<ReviewClause>) -> bool {
    &&& agent_id_eq(r.agent, g.0)
    &&& r.clauses@.len() == g.1.len()
    &&& forall|m: int| 0 <= m < g.1.len() ==> clause_view(#[trigger] r.clauses@[m]) == clause_view(cs[g.1[m]])
}

proof fn lemma_entry_of_range(g: Seq<(AgentId, Seq<int>)>, a: AgentId)
    ensures
        -1 <= entry_of(g, a) < g.len(),
        entry_of(g, a) >= 0 ==> agent_id_eq(g[entry_of(g, a)].0, a),
        entry_of(g, a) == -1 ==> forall|k: int| 0 <= k < g.len() ==> !agent_id_eq(#[trigger] g[k].0, a),
    decreases g.len(),
{
    if g.len() > 0 {
        lemma_entry_of_range(g.drop_last(), a);
        assert forall|k: int| 0 <= k < g.len() - 1 implies #[trigger] g[k] == g.drop_last()[k] by {}
    }
}

/// After the fallback has looked at the first `n` clauses, each of them has
/// its id routed.
pub(crate) proof fn lemma_fallback_routes_all(cs: Seq<ReviewClause>, ps: Seq<(AgentId, int)>, n: int)
    requires
        n <= cs.len(),
    ensures
        forall|i: int| 0 <= i < n ==> id_routed(cs, with_fallback(cs, ps, n), i),
    decreases n,
{
    if n > 0 {
        lemma_fallback_routes_all(cs, ps, n - 1);
        let p = with_fallback(cs, ps, n - 1);
        if !id_routed(cs, p, n - 1) {
            let q = p.push((AgentId::FactCheck, n - 1));
            assert forall|i: int| 0 <= i < n implies id_routed(cs, q, i) by {
                if i < n - 1 {
                    assert(id_routed(cs, p, i));
                    let k = choose|k: int| 0 <= k < p.len() && #[trigger] cs[p[k].1].chunk_id@ == cs[i].chunk_id@;
                    assert(q[k] == p[k]);
                    assert(cs[q[k].1].chunk_id@ == cs[i].chunk_id@);
                } else {
                    assert(q[p.len() as int].1 == i);
                    assert(cs[q[p.len() as int].1].chunk_id@ == cs[i].chunk_id@);
                }
            }
        }
    }
}

/// A rule whose keywords match the clause routes it to the rule's agent.
proof fn lemma_clause_routes_has(c: ReviewClause, i: int, rules: Seq<RouteRule>, j: int, jj: int)
    requires
        0 <= jj < j <= rules.len(),
        routes_to(c.text@, string_views(rules[jj].keywords@)),
    ensures
        exists|k: int| 0 <= k < clause_routes(c, i, rules, j).len() && #[trigger] clause_routes(c, i, rules, j)[k] == (rules[jj].agent, i),
    decreases j,
{
    let p = clause_routes(c, i, rules, j - 1);
    if jj < j - 1 {
        lemma_clause_routes_has(c, i, rules, j - 1, jj);
        let k = choose|k: int| 0 <= k < p.len() && #[trigger] p[k] == (rules[jj].agent, i);
        if routes_to(c.text@, string_views(rules[j - 1].keywords@)) {
            assert(clause_routes(c, i, rules, j) == p.push((rules[j - 1].agent, i)));
            assert(clause_routes(c, i, rules, j)[k] == p[k]);
        } else {
            assert(clause_routes(c, i, rules, j) == p);
        }
        assert(k < clause_routes(c, i, rules, j).len() && clause_routes(c, i, rules, j)[k] == (rules[jj].agent, i));
    } else {
        assert(clause_routes(c, i, rules, j)[p.len() as int] == (rules[jj].agent, i));
    }
}

/// Keyword routing of the first `n` clauses holds every match among them.
pub(crate) proof fn lemma_keyword_routes_has(cs: Seq<ReviewClause>, rules: Seq<RouteRule>, n: int, i: int, jj: int)
    requires
        0 <= i < n <= cs.len(),
        0 <= jj < rules.len(),
        routes_to(cs[i].text@, string_views(rules[jj].keywords@)),
    ensures
        exists|k: int| 0 <= k < keyword_routes(cs, rules, n).len() && #[trigger] keyword_routes(cs, rules, n)[k] == (rules[jj].agent, i),
    decreases n,
{
    let p = keyword_routes(cs, rules, n - 1);
    let q = clause_routes(cs[n - 1], n - 1, rules, rules.len() as int);
    assert(keyword_routes(cs, rules, n) == p + q);
    if i < n - 1 {
        lemma_keyword_routes_has(cs, rules, n - 1, i, jj);
        let k = choose|k: int| 0 <= k < p.len() && #[trigger] p[k] == (rules[jj].agent, i);
        assert((p + q)[k] == p[k]);
    } else {
        lemma_clause_routes_has(cs[n - 1], n - 1, rules, rules.len() as int, jj);
        let k = choose|k: int| 0 <= k < q.len() && #[trigger] q[k] == (rules[jj].agent, i);
        assert((p + q)[p.len() + k] == q[k]);
    }
}

/// The fallback only adds routings after the given ones.
pub(crate) proof fn lemma_fallback_keeps(cs: Seq<ReviewClause>, ps: Seq<(AgentId, int)>, n: int, k: int)
    requires
        0 <= k < ps.len(),
    ensures
        k < with_fallback(cs, ps, n).len(),
        with_fallback(cs, ps, n)[k] == ps[k],
    decreases n,
{
    if n > 0 {
        lemma_fallback_keeps(cs, ps, n - 1, k);
    }
}

/// Grouping keeps every routing: each routed clause index is in the entry
/// of some agent.
pub(crate) proof fn lemma_grouped_keeps(ps: Seq<(AgentId, int)>, k: int)
    requires
        0 <= k < ps.len(),
    ensures
        exists|e: int, m: int| 0 <= e < grouped(ps).len() && 0 <= m < grouped(ps)[e].1.len()
            && #[trigger] grouped(ps)[e].1[m] == ps[k].1 && agent_id_eq(grouped(ps)[e].0, ps[k].0),
    decreases ps.len(),
{
    let g = grouped(ps.drop_last());
    let (a, i) = ps.last();
    let x = entry_of(g, a);
    lemma_entry_of_range(g, a);
    if k < ps.len() - 1 {
        lemma_grouped_keeps(ps.drop_last(), k);
        assert(ps.drop_last()[k] == ps[k]);
        let (e, m) = choose|e: int, m: int| 0 <= e < g.len() && 0 <= m < g[e].1.len() && #[trigger] g[e].1[m] == ps[k].1
            && agent_id_eq(g[e].0, ps[k].0);
        if x >= 0 {
            let h = g.update(x, (g[x].0, g[x].1.push(i)));
            assert(h == grouped(ps));
            if e == x {
                assert(h[e].1[m] == g[e].1[m]);
            } else {
                assert(h[e] == g[e]);
            }
            assert(h[e].1[m] == ps[k].1);
            assert(h[e].0 == g[e].0);
        } else {
            let h = g.push((a, seq![i]));
            assert(h == grouped(ps));
            assert(h[e] == g[e]);
            assert(h[e].1[m] == ps[k].1);
        }
    } else {
        if x >= 0 {
            let h = g.update(x, (g[x].0, g[x].1.push(i)));
            assert(h == grouped(ps));
            assert(h[x].1[g[x].1.len() as int] == i);
            assert(h[x].0 == g[x].0);
        } else {
            let h = g.push((a, seq![i]));
            assert(h == grouped(ps));
            assert(h[g.len() as int].1[0] == i);
        }
    }
}

fn copy_agent(a: &AgentId) -> (r: AgentId)
    ensures
        agent_id_eq(r, *a),
{
    match a {
        AgentId::Dynamic(n) => AgentId::Dynamic(n.clone()),
        AgentId::FactCheck => AgentId::FactCheck,
        AgentId::Procedure => AgentId::Procedure,
        AgentId::RuleEngine => AgentId::RuleEngine,
        AgentId::SemanticRisk => AgentId::SemanticRisk,
        AgentId::Scoring => AgentId::Scoring,
        AgentId::Demand => AgentId::Demand,
        AgentId::Contract => AgentId::Contract,
        AgentId::BlindSpot => AgentId::BlindSpot,
        AgentId::LegalVerify => AgentId::LegalVerify,
        AgentId::Debate => AgentId::Debate,
    }
}

pub(crate) fn copy_clause(c: &ReviewClause) -> (r: ReviewClause)
    ensures
        clause_view(r) == clause_view(*c),
{
    ReviewClause {
        chunk_id: c.chunk_id.clone(),
        section_path: copy_strings(&c.section_path),
        text: c.text.clone(),
        page_start: c.page_start,
        page_end: c.page_end,
        tier: c.tier,
        tier_max_turns: c.tier_max_turns,
    }
}

/// The view of the routing built so far.
pub open spec fn built(out: Seq<Routed>, g: Seq<(AgentId, Seq<int>)>, cs: Seq<ReviewClause>) -> bool {
    &&& out.len() == g.len()
    &&& forall|k: int| 0 <= k < out.len() ==> entry_matches(#[trigger] out[k], g[k], cs)
}

/// Adds one routing: clause `i` to agent `a`.
fn add_route(out: &mut Vec<Routed>, a: &AgentId, cs: &Vec<ReviewClause>, i: usize, Ghost(ps): Ghost<Seq<(AgentId, int)>>)
    requires
        i < cs@.len(),
        built(old(out)@, grouped(ps), cs@),
    ensures
        built(final(out)@, grouped(ps.push((*a, i as int))), cs@),
{
    let ghost g = grouped(ps);
    proof {
        lemma_entry_of_range(g, *a);
        let q = ps.push((*a, i as int));
        assert(q.drop_last() =~= ps);
        assert(q.last() == (*a, i as int));
    }
    let mut k: usize = 0;
    while k < out.len()
        invariant
            k <= out@.len(),
            i < cs@.len(),
            out@ == old(out)@,
            g == grouped(ps),
            built(out@, g, cs@),
            forall|m: int| 0 <= m < k ==> !agent_id_eq(#[trigger] g[m].0, *a),
        decreases out@.len() - k,
    {
        assert(entry_matches(out@[k as int], g[k as int], cs@));
        if out[k].agent == *a {
            proof {
                assert(agent_id_eq(g[k as int].0, *a));
                lemma_first_entry(g, *a, k as int);
            }
            let mut e = out.remove(k);
            let c = copy_clause(&cs[i]);
            e.clauses.push(c);
            out.insert(k, e);
            proof {
                let q = ps.push((*a, i as int));
                assert(q.drop_last() =~= ps);
                assert(q.last() == (*a, i as int));
                assert(entry_of(g, *a) == k as int);
                let g2 = grouped(q);
                assert(g2 == g.update(k as int, (g[k as int].0, g[k as int].1.push(i as int))));
                assert forall|m: int| 0 <= m < out@.len() implies entry_matches(#[trigger] out@[m], g2[m], cs@) by {
                    if m == k {
                        let gk = g2[m];
                        assert forall|t: int| 0 <= t < gk.1.len() implies clause_view(#[trigger] out@[m].clauses@[t]) == clause_view(cs@[gk.1[t]]) by {
                            if t < g[k as int].1.len() {
                                assert(out@[m].clauses@[t] == old(out)@[m].clauses@[t]);
                            }
                        }
                    } else {
                        assert(out@[m] == old(out)@[m]);
                    }
                }
            }
            return;
        }
        k = k + 1;
    }
    proof {
        assert forall|m: int| 0 <= m < g.len() implies !agent_id_eq(#[trigger] g[m].0, *a) by {}
        lemma_no_entry(g, *a);
    }
    let mut list: Vec<ReviewClause> = Vec::new();
    list.push(copy_clause(&cs[i]));
    out.push(Routed { agent: copy_agent(a), clauses: list });
    proof {
        let q = ps.push((*a, i as int));
        assert(q.drop_last() =~= ps);
        assert(q.last() == (*a, i as int));
        let g2 = grouped(q);
        assert(g2 == g.push((*a, seq![i as int])));
        assert forall|m: int| 0 <= m < out@.len() implies entry_matches(#[trigger] out@[m], g2[m], cs@) by {
            if m < g.len() {
                assert(out@[m] == old(out)@[m]);
            }
        }
    }
}

proof fn lemma_first_entry(g: Seq<(AgentId, Seq<int>)>, a: AgentId, k: int)
    requires
        0 <= k < g.len(),
        agent_id_eq(g[k].0, a),
        forall|m: int| 0 <= m < k ==> !agent_id_eq(#[trigger] g[m].0, a),
    ensures
        entry_of(g, a) == k,
    decreases g.len(),
{
    if g.len() - 1 > k {
        let d = g.drop_last();
        assert forall|m: int| 0 <= m < k implies !agent_id_eq(#[trigger] d[m].0, a) by {
            assert(d[m] == g[m]);
        }
        assert(d[k] == g[k]);
        lemma_first_entry(d, a, k);
    } else {
        lemma_no_entry_below(g.drop_last(), a);
    }
}

proof fn lemma_no_entry_below(g: Seq<(AgentId, Seq<int>)>, a: AgentId)
    requires
        forall|m: int| 0 <= m < g.len() ==> !agent_id_eq(#[trigger] g[m].0, a),
    ensures
        entry_of(g, a) == -1,
    decreases g.len(),
{
    if g.len() > 0 {
        let d = g.drop_last();
        assert forall|m: int| 0 <= m < d.len() implies !agent_id_eq(#[trigger] d[m].0, a) by {
            assert(d[m] == g[m]);
        }
        lemma_no_entry_below(d, a);
        assert(!agent_id_eq(g[g.len() - 1].0, a));
    }
}

proof fn lemma_no_entry(g: Seq<(AgentId, Seq<int>)>, a: AgentId)
    requires
        forall|m: int| 0 <= m < g.len() ==> !agent_id_eq(#[trigger] g[m].0, a),
    ensures
        entry_of(g, a) == -1,
{
    lemma_no_entry_below(g, a);
}

/// Whether a clause goes to an agent, from the clause text and the agent's
/// keywords, both lower-cased: always when there are no keywords, else when
/// the text holds one of them.
pub fn keywords_match_lowered(lowered_text: &str, lowered_keywords: &Vec<String>) -> (r: bool)
    ensures
        r == (lowered_keywords@.len() == 0 || any_in(lowered_text@, string_views(lowered_keywords@))),
{
    lowered_keywords.len() == 0 || any_contained(lowered_text, lowered_keywords)
}

fn routes_exec(lower_text: &String, kws: &Vec<String>, Ghost(text): Ghost<Seq<char>>) -> (r: bool)
    requires
        lower_text@ == lowercase(text),
    ensures
        r == routes_to(text, string_views(kws@)),
{
    let lk = lowercase_strings(kws);
    let r = keywords_match_lowered(lower_text.as_str(), &lk);
    proof {
        let v = string_views(kws@);
        let lv = lowercase_each(v);
        assert(string_views(lk@).len() == v.len());
        if any_in(lowercase(text), lv) {
            let k = choose|k: int| 0 <= k < lv.len() && #[trigger] contains(lowercase(text), lv[k]);
            assert(contains(lowercase(text), lowercase(v[k])));
        }
        if exists|k: int| 0 <= k < v.len() && #[trigger] contains(lowercase(text), lowercase(v[k])) {
            let k = choose|k: int| 0 <= k < v.len() && #[trigger] contains(lowercase(text), lowercase(v[k]));
            assert(lv[k] == lowercase(v[k]));
            assert(contains(lowercase(text), lv[k]));
        }
    }
    r
}

/// Routes the clauses to the enabled agents: each agent takes, in order, the
/// clauses whose lower-cased text holds one of its lower-cased keywords (all
/// clauses when it has none); then each clause whose id no agent holds yet
/// goes to the fact-check agent.
pub fn route_clauses(clauses: &Vec<ReviewClause>, rules: &Vec<RouteRule>) -> (r: Vec<Routed>)
    ensures
        r@.len() == routing_of(clauses@, rules@).len(),
        forall|k: int| 0 <= k < r@.len() ==> entry_matches(#[trigger] r@[k], routing_of(clauses@, rules@)[k], clauses@),
{
    let ghost cs = clauses@;
    let ghost rs = rules@;
    let mut out: Vec<Routed> = Vec::new();
    let ghost mut ps: Seq<(AgentId, int)> = Seq::empty();
    let mut i: usize = 0;
    while i < clauses.len()
        invariant
            i <= cs.len(),
            cs == clauses@,
            rs == rules@,
            ps == keyword_routes(cs, rs, i as int),
            built(out@, grouped(ps), cs),
        decreases cs.len() - i,
    {
        let lower = to_lowercase(clauses[i].text.as_str());
        let lc = lower.clone();
        let ghost base = ps;
        let mut j: usize = 0;
        while j < rules.len()
            invariant
                i < cs.len(),
                j <= rs.len(),
                cs == clauses@,
                rs == rules@,
                lc@ == lowercase(cs[i as int].text@),
                ps == base + clause_routes(cs[i as int], i as int, rs, j as int),
                built(out@, grouped(ps), cs),
            decreases rs.len() - j,
        {
            if routes_exec(&lc, &rules[j].keywords, Ghost(cs[i as int].text@)) {
                add_route(&mut out, &rules[j].agent, clauses, i, Ghost(ps));
                proof {
                    ps = ps.push((rs[j as int].agent, i as int));
                    assert(base + clause_routes(cs[i as int], i as int, rs, j as int + 1)
                        =~= (base + clause_routes(cs[i as int], i as int, rs, j as int)).push((rs[j as int].agent, i as int)));
                }
            } else {
                assert(base + clause_routes(cs[i as int], i as int, rs, j as int + 1)
                    =~= base + clause_routes(cs[i as int], i as int, rs, j as int));
            }
            j = j + 1;
        }
        i = i + 1;
    }
    proof {
        lemma_routes_in_range(cs, rs, cs.len() as int);
    }
    let ghost kr = ps;
    let mut f: usize = 0;
    while f < clauses.len()
        invariant
            f <= cs.len(),
            cs == clauses@,
            ps == with_fallback(cs, kr, f as int),
            built(out@, grouped(ps), cs),
            forall|k: int| 0 <= k < ps.len() ==> 0 <= #[trigger] ps[k].1 < cs.len(),
        decreases cs.len() - f,
    {
        let held = id_held(&out, &clauses[f].chunk_id);
        proof {
            lemma_held_iff(ps, out@, cs, f as int);
        }
        if !held {
            let fc = AgentId::FactCheck;
            add_route(&mut out, &fc, clauses, f, Ghost(ps));
            proof {
                ps = ps.push((AgentId::FactCheck, f as int));
            }
        }
        f = f + 1;
    }
    out
}

/// Some routed clause has the id.
pub open spec fn held_id(out: Seq<Routed>, id: Seq<char>) -> bool {
    exists|e: int, t: int| 0 <= e < out.len() && 0 <= t < out[e].clauses@.len() && #[trigger] out[e].clauses@[t].chunk_id@ == id
}

fn id_held(out: &Vec<Routed>, id: &String) -> (r: bool)
    ensures
        r == held_id(out@, id@),
{
    let mut e: usize = 0;
    while e < out.len()
        invariant
            e <= out@.len(),
            forall|x: int, t: int| 0 <= x < e && 0 <= t < out@[x].clauses@.len() ==> #[trigger] out@[x].clauses@[t].chunk_id@ != id@,
        decreases out@.len() - e,
    {
        let mut t: usize = 0;
        while t < out[e].clauses.len()
            invariant
                e < out@.len(),
                t <= out@[e as int].clauses@.len(),
                forall|x: int, u: int| 0 <= x < e && 0 <= u < out@[x].clauses@.len() ==> #[trigger] out@[x].clauses@[u].chunk_id@ != id@,
                forall|u: int| 0 <= u < t ==> #[trigger] out@[e as int].clauses@[u].chunk_id@ != id@,
            decreases out@[e as int].clauses@.len() - t,
        {
            if out[e].clauses[t].chunk_id == *id {
                assert(out@[e as int].clauses@[t as int].chunk_id@ == id@);
                return true;
            }
            t = t + 1;
        }
        e = e + 1;
    }
    false
}

proof fn lemma_clause_routes_in_range(c: ReviewClause, i: int, rules: Seq<RouteRule>, j: int)
    ensures
        forall|k: int| 0 <= k < clause_routes(c, i, rules, j).len() ==> (#[trigger] clause_routes(c, i, rules, j)[k]).1 == i,
    decreases j,
{
    if j > 0 {
        lemma_clause_routes_in_range(c, i, rules, j - 1);
        let p = clause_routes(c, i, rules, j - 1);
        let q = clause_routes(c, i, rules, j);
        assert forall|k: int| 0 <= k < q.len() implies (#[trigger] q[k]).1 == i by {
            if k < p.len() {
                assert(q[k] == p[k]);
            }
        }
    }
}

proof fn lemma_routes_in_range(cs: Seq<ReviewClause>, rules: Seq<RouteRule>, n: int)
    requires
        n <= cs.len(),
    ensures
        forall|k: int| 0 <= k < keyword_routes(cs, rules, n).len() ==> 0 <= (#[trigger] keyword_routes(cs, rules, n)[k]).1 < n,
    decreases n,
{
    if n > 0 {
        lemma_routes_in_range(cs, rules, n - 1);
        lemma_clause_routes_in_range(cs[n - 1], n - 1, rules, rules.len() as int);
        let p = keyword_routes(cs, rules, n - 1);
        let c = clause_routes(cs[n - 1], n - 1, rules, rules.len() as int);
        let q = keyword_routes(cs, rules, n);
        assert forall|k: int| 0 <= k < q.len() implies 0 <= (#[trigger] q[k]).1 < n by {
            if k < p.len() {
                assert(q[k] == p[k]);
            } else {
                assert(q[k] == c[k - p.len()]);
            }
        }
    }
}

/// Every clause in an entry was routed, and every routing is in an entry.
proof fn lemma_grouped_members(ps: Seq<(AgentId, int)>)
    ensures
        forall|e: int, t: int| 0 <= e < grouped(ps).len() && 0 <= t < grouped(ps)[e].1.len() ==>
            exists|k: int| 0 <= k < ps.len() && ps[k].1 == #[trigger] grouped(ps)[e].1[t],
        forall|k: int| 0 <= k < ps.len() ==>
            exists|e: int, t: int| 0 <= e < grouped(ps).len() && 0 <= t < grouped(ps)[e].1.len() && #[trigger] ps[k].1 == grouped(ps)[e].1[t],
    decreases ps.len(),
{
    if ps.len() > 0 {
        let d = ps.drop_last();
        lemma_grouped_members(d);
        let g = grouped(d);
        let (a, i) = ps.last();
        lemma_entry_of_range(g, a);
        let x = entry_of(g, a);
        let g2 = grouped(ps);
        assert forall|e: int, t: int| 0 <= e < g2.len() && 0 <= t < g2[e].1.len() implies
            exists|k: int| 0 <= k < ps.len() && ps[k].1 == #[trigger] g2[e].1[t] by {
            if x >= 0 && e == x && t == g[e].1.len() {
                assert(ps[ps.len() - 1].1 == g2[e].1[t]);
            } else if x < 0 && e == g.len() {
                assert(ps[ps.len() - 1].1 == g2[e].1[t]);
            } else {
                assert(g2[e].1[t] == g[e].1[t]);
                let k = choose|k: int| 0 <= k < d.len() && d[k].1 == g[e].1[t];
                assert(ps[k] == d[k]);
            }
        }
        assert forall|k: int| 0 <= k < ps.len() implies
            exists|e: int, t: int| 0 <= e < g2.len() && 0 <= t < g2[e].1.len() && #[trigger] ps[k].1 == g2[e].1[t] by {
            if k == ps.len() - 1 {
                if x >= 0 {
                    assert(ps[k].1 == g2[x].1[g[x].1.len() as int]);
                } else {
                    assert(ps[k].1 == g2[g.len() as int].1[0]);
                }
            } else {
                assert(ps[k] == d[k]);
                let (e, t) = choose|e: int, t: int| 0 <= e < g.len() && 0 <= t < g[e].1.len() && d[k].1 == g[e].1[t];
                assert(g2[e].1[t] == g[e].1[t]);
            }
        }
    }
}

proof fn lemma_held_iff(ps: Seq<(AgentId, int)>, out: Seq<Routed>, cs: Seq<ReviewClause>, f: int)
    requires
        0 <= f < cs.len(),
        built(out, grouped(ps), cs),
        forall|k: int| 0 <= k < ps.len() ==> 0 <= #[trigger] ps[k].1 < cs.len(),
    ensures
        held_id(out, cs[f].chunk_id@) <==> id_routed(cs, ps, f),
{
    lemma_grouped_members(ps);
    let g = grouped(ps);
    if held_id(out, cs[f].chunk_id@) {
        let (e, t) = choose|e: int, t: int| 0 <= e < out.len() && 0 <= t < out[e].clauses@.len()
            && #[trigger] out[e].clauses@[t].chunk_id@ == cs[f].chunk_id@;
        assert(entry_matches(out[e], g[e], cs));
        assert(clause_view(out[e].clauses@[t]) == clause_view(cs[g[e].1[t]]));
        let k = choose|k: int| 0 <= k < ps.len() && ps[k].1 == g[e].1[t];
        assert(cs[ps[k].1].chunk_id@ == cs[f].chunk_id@);
    }
    if id_routed(cs, ps, f) {
        let k = choose|k: int| 0 <= k < ps.len() && #[trigger] cs[ps[k].1].chunk_id@ == cs[f].chunk_id@;
        let (e, t) = choose|e: int, t: int| 0 <= e < g.len() && 0 <= t < g[e].1.len() && #[trigger] ps[k].1 == g[e].1[t];
        assert(entry_matches(out[e], g[e], cs));
        assert(clause_view(out[e].clauses@[t]) == clause_view(cs[g[e].1[t]]));
        assert(out[e].clauses@[t].chunk_id@ == cs[f].chunk_id@);
    }
}

} // verus!
