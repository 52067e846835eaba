//! Links between clauses in which different agents found the same type of
//! risk.
use vstd::prelude::*;
use crate::coordination::{distinct, distinct_exec};
use crate::numbers::{dec, fmt_int_exec};
use crate::text::{extend_chars, extend_str, string_of, string_views};

verus! {

/// What linking reads of a finding.
#[derive(Debug, Clone)]
pub struct LinkInput {
    pub no_risk: bool,
    pub risk_type: String,
    pub agent: String,
    pub clause_ids: Vec<String>,
}

/// A `linked_to` edge between two clauses, with its reason.
#[derive(Debug, Clone)]
pub struct ClauseLink {
    pub from: String,
    pub to: String,
    pub reason: String,
}

/// Where the group of risk type `t` is among `g`, or -1.
pub open spec fn group_of(g: Seq<(Seq<char>, Seq<int>)>, t: Seq<char>) -> int
    decreases g.len(),
{
    if g.len() == 0 {
        -1
    } else if group_of(g.drop_last(), t) >= 0 {
        group_of(g.drop_last(), t)
    } else if g.last().0 == t {
        g.len() - 1
    } else {
        -1
    }
}

/// The findings that report a risk, grouped by risk type (in the order the
/// types first occur), each group listing its findings in order.
pub open spec fn type_groups(fs: Seq<LinkInput>) -> Seq<(Seq<char>, Seq<int>)>
    decreases fs.len(),
{
    if fs.len() == 0 {
        Seq::<(Seq<char>, Seq<int>)>::empty()
    } else {
        let g = type_groups(fs.drop_last());
        let f = fs.last();
        let i = fs.len() - 1;
        if f.no_risk {
            g
        } else {
            let k = group_of(g, f.risk_type@);
            if k >= 0 { g.update(k, (g[k].0, g[k].1.push(i))) } else { g.push((f.risk_type@, seq![i])) }
        }
    }
}

/// The agents of the findings `ms`, in order.
pub open spec fn agents_of(fs: Seq<LinkInput>, ms: Seq<int>) -> Seq<Seq<char>> {
    ms.map_values(|m: int| fs[m].agent@)
}

/// The clause ids of the findings `ms`, in order.
pub open spec fn ids_of(fs: Seq<LinkInput>, ms: Seq<int>) -> Seq<Seq<char>>
    decreases ms.len(),
{
    if ms.len() == 0 {
        Seq::<Seq<char>>::empty()
    } else {
        ids_of(fs, ms.drop_last()) + string_views(fs[ms.last()].clause_ids@)
    }
}

/// A link as values: from, to, reason.
pub type LinkView = (Seq<char>, Seq<char>, Seq<char>);

/// The reason of the links of a risk type found by `n` agents.
pub open spec fn link_reason(t: Seq<char>, n: nat) -> Seq<char> {
    "跨 Agent 同类型风险: "@ + t + " ("@ + dec(n) + " 个 Agent 独立发现)"@
}

/// The links from id `i` to the ids `i + 1 .. j` that differ from it.
pub open spec fn row_links(ids: Seq<Seq<char>>, i: int, j: int, why: Seq<char>) -> Seq<LinkView>
    decreases j - i,
{
    if j <= i + 1 {
        Seq::<LinkView>::empty()
    } else {
        let p = row_links(ids, i, j - 1, why);
        if ids[i] != ids[j - 1] { p.push((ids[i], ids[j - 1], why)) } else { p }
    }
}

/// The links between every two differing ids, the first taken from the
/// first `i` ids, in order.
pub open spec fn pair_links(ids: Seq<Seq<char>>, i: int, why: Seq<char>) -> Seq<LinkView>
    decreases i,
{
    if i <= 0 {
        Seq::<LinkView>::empty()
    } else {
        pair_links(ids, i - 1, why) + row_links(ids, i - 1, ids.len() as int, why)
    }
}

/// The links of one group: none unless it has at least two findings by at
/// least two agents; then every two differing clause ids of its findings.
pub open spec fn group_links(fs: Seq<LinkInput>, g: (Seq<char>, Seq<int>)) -> Seq<LinkView> {
    let n = distinct(agents_of(fs, g.1)).len();
    if g.1.len() < 2 || n < 2 {
        Seq::<LinkView>::empty()
    } else {
        let ids = ids_of(fs, g.1);
        pair_links(ids, ids.len() as int, link_reason(g.0, n))
    }
}

/// The links of the first `k` groups.
pub open spec fn links_upto(fs: Seq<LinkInput>, gs: Seq<(Seq<char>, Seq<int>)>, k: int) -> Seq<LinkView>
    decreases k,
{
    if k <= 0 {
        Seq::<LinkView>::empty()
    } else {
        links_upto(fs, gs, k - 1) + group_links(fs, gs[k - 1])
    }
}

pub open spec fn link_views(ls: Seq<ClauseLink>) -> Seq<LinkView> {
    ls.map_values(|l: ClauseLink| (l.from@, l.to@, l.reason@))
}

proof fn lemma_group_of_range(g: Seq<(Seq<char>, Seq<int>)>, t: Seq<char>)
    ensures
        -1 <= group_of(g, t) < g.len(),
        group_of(g, t) >= 0 ==> g[group_of(g, t)].0 == t,
        group_of(g, t) == -1 ==> forall|k: int| 0 <= k < g.len() ==> (#[trigger] g[k]).0 != t,
        forall|k: int| 0 <= k < g.len() && (#[trigger] g[k]).0 == t ==> group_of(g, t) <= k,
    decreases g.len(),
{
    if g.len() > 0 {
        lemma_group_of_range(g.drop_last(), t);
        assert forall|k: int| 0 <= k < g.len() - 1 implies #[trigger] g[k] == g.drop_last()[k] by {}
    }
}

proof fn lemma_groups_in_range(fs: Seq<LinkInput>)
    ensures
        forall|k: int, t: int| 0 <= k < type_groups(fs).len() && 0 <= t < type_groups(fs)[k].1.len()
            ==> 0 <= #[trigger] type_groups(fs)[k].1[t] < fs.len(),
    decreases fs.len(),
{
    if fs.len() > 0 {
        lemma_groups_in_range(fs.drop_last());
        let g = type_groups(fs.drop_last());
        lemma_group_of_range(g, fs.last().risk_type@);
        let g2 = type_groups(fs);
        assert forall|k: int, t: int| 0 <= k < g2.len() && 0 <= t < g2[k].1.len() implies 0 <= #[trigger] g2[k].1[t] < fs.len() by {
            if k < g.len() && t < g[k].1.len() {
                assert(g2[k].1[t] == g[k].1[t]);
            }
        }
    }
}

/// Groups the findings that report a risk by risk type.
fn group_by_type(fs: &Vec<LinkInput>) -> (r: Vec<(String, Vec<usize>)>)
    ensures
        r@.len() == type_groups(fs@).len(),
        forall|k: int| 0 <= k < r@.len() ==> {
            &&& (#[trigger] r@[k]).0@ == type_groups(fs@)[k].0
            &&& r@[k].1@.len() == type_groups(fs@)[k].1.len()
            &&& forall|t: int| 0 <= t < r@[k].1@.len() ==> r@[k].1@[t] as int == type_groups(fs@)[k].1[t]
        },
{
    let mut out: Vec<(String, Vec<usize>)> = Vec::new();
    let mut i: usize = 0;
    while i < fs.len()
        invariant
            i <= fs@.len(),
            out@.len() == type_groups(fs@.subrange(0, i as int)).len(),
            forall|k: int| 0 <= k < out@.len() ==> {
                let g = type_groups(fs@.subrange(0, i as int));
                &&& (#[trigger] out@[k]).0@ == g[k].0
                &&& out@[k].1@.len() == g[k].1.len()
                &&& forall|t: int| 0 <= t < out@[k].1@.len() ==> out@[k].1@[t] as int == g[k].1[t]
            },
        decreases fs@.len() - i,
    {
        let ghost pre = fs@.subrange(0, i as int);
        let ghost nxt = fs@.subrange(0, i as int + 1);
        let ghost g = type_groups(pre);
        proof {
            assert(nxt.drop_last() =~= pre);
            assert(nxt.last() == fs@[i as int]);
            lemma_group_of_range(g, fs@[i as int].risk_type@);
        }
        if !fs[i].no_risk {
            let mut k: usize = 0;
            let mut found = false;
            while k < out.len() && !found
                invariant
                    i < fs@.len(),
                    k <= out@.len(),
                    out@.len() == g.len(),
                    forall|m: int| 0 <= m < out@.len() ==> (#[trigger] out@[m]).0@ == g[m].0,
                    !found ==> forall|m: int| 0 <= m < k ==> (#[trigger] g[m]).0 != fs@[i as int].risk_type@,
                    found ==> k > 0 && g[k - 1].0 == fs@[i as int].risk_type@
                        && forall|m: int| 0 <= m < k - 1 ==> (#[trigger] g[m]).0 != fs@[i as int].risk_type@,
                decreases out@.len() - k + if found { 0int } else { 1int },
            {
                if out[k].0 == fs[i].risk_type {
                    found = true;
                }
                k = k + 1;
            }
            if found {
                let x = k - 1;
                proof {
                    lemma_first_group(g, fs@[i as int].risk_type@, x as int);
                }
                let mut e = out.remove(x);
                e.1.push(i);
                out.insert(x, e);
                proof {
                    let g2 = type_groups(nxt);
                    assert(g2 == g.update(x as int, (g[x as int].0, g[x as int].1.push(i as int))));
                }
            } else {
                let mut v: Vec<usize> = Vec::new();
                v.push(i);
                out.push((fs[i].risk_type.clone(), v));
                proof {
                    let g2 = type_groups(nxt);
                    assert(group_of(g, fs@[i as int].risk_type@) == -1);
                    assert(g2 == g.push((fs@[i as int].risk_type@, seq![i as int])));
                }
            }
        }
        i = i + 1;
    }
    assert(fs@.subrange(0, fs@.len() as int) =~= fs@);
    out
}

proof fn lemma_first_group(g: Seq<(Seq<char>, Seq<int>)>, t: Seq<char>, x: int)
    requires
        0 <= x < g.len(),
        g[x].0 == t,
        forall|m: int| 0 <= m < x ==> (#[trigger] g[m]).0 != t,
    ensures
        group_of(g, t) == x,
{
    lemma_group_of_range(g, t);
}

fn reason_text(t: &String, n: usize) -> (r: String)
    ensures
        r@ == link_reason(t@, n as nat),
{
    let mut v: Vec<char> = Vec::new();
    extend_str(&mut v, "跨 Agent 同类型风险: ");
    extend_str(&mut v, t.as_str());
    extend_str(&mut v, " (");
    let d = fmt_int_exec(n as i128, 0);
    extend_chars(&mut v, d.as_slice());
    extend_str(&mut v, " 个 Agent 独立发现)");
    assert(v@ =~= link_reason(t@, n as nat));
    string_of(v.as_slice())
}

/// Links every two clauses in which at least two different agents found the
/// same type of risk: for each risk type (in the order types first occur)
/// with at least two findings by at least two agents, every two differing
/// clause ids of those findings, in order.
pub fn derive_cross_agent_links(findings: &Vec<LinkInput>) -> (r: Vec<ClauseLink>)
    ensures
        link_views(r@) == links_upto(findings@, type_groups(findings@), type_groups(findings@).len() as int),
{
    let ghost fs = findings@;
    let ghost gs = type_groups(fs);
    let groups = group_by_type(findings);
    proof {
        lemma_groups_in_range(fs);
    }
    let mut out: Vec<ClauseLink> = Vec::new();
    let mut k: usize = 0;
    while k < groups.len()
        invariant
            fs == findings@,
            gs == type_groups(fs),
            k <= groups@.len(),
            groups@.len() == gs.len(),
            forall|q: int| 0 <= q < groups@.len() ==> {
                &&& (#[trigger] groups@[q]).0@ == gs[q].0
                &&& groups@[q].1@.len() == gs[q].1.len()
                &&& forall|t: int| 0 <= t < groups@[q].1@.len() ==> groups@[q].1@[t] as int == gs[q].1[t]
            },
            forall|q: int, t: int| 0 <= q < gs.len() && 0 <= t < gs[q].1.len() ==> 0 <= #[trigger] gs[q].1[t] < fs.len(),
            link_views(out@) == links_upto(fs, gs, k as int),
        decreases groups@.len() - k,
    {
        let ghost gk = gs[k as int];
        let members = &groups[k].1;
        assert(members@.len() == gk.1.len());
        let mut agents: Vec<String> = Vec::new();
        let mut t: usize = 0;
        while t < members.len()
            invariant
                fs == findings@,
                k < gs.len(),
                gk == gs[k as int],
                *members == groups@[k as int].1,
                members@.len() == gk.1.len(),
                forall|u: int| 0 <= u < members@.len() ==> members@[u] as int == gk.1[u],
                forall|u: int| 0 <= u < gk.1.len() ==> 0 <= #[trigger] gk.1[u] < fs.len(),
                t <= members@.len(),
                string_views(agents@) == agents_of(fs, gk.1.subrange(0, t as int)),
            decreases members@.len() - t,
        {
            let m = members[t];
            let ghost before = string_views(agents@);
            agents.push(findings[m].agent.clone());
            proof {
                assert(string_views(agents@) =~= before.push(fs[m as int].agent@));
                assert(m as int == gk.1[t as int]);
                assert(agents_of(fs, gk.1.subrange(0, t as int + 1)) =~= agents_of(fs, gk.1.subrange(0, t as int)).push(fs[gk.1[t as int]].agent@));
            }
            t = t + 1;
        }
        assert(gk.1.subrange(0, gk.1.len() as int) =~= gk.1);
        let d = distinct_exec(&agents);
        let n = d.len();
        assert(string_views(d@).len() == d@.len());
        if members.len() >= 2 && n >= 2 {
            let mut ids: Vec<String> = Vec::new();
            let mut t: usize = 0;
            while t < members.len()
                invariant
                    fs == findings@,
                    k < gs.len(),
                    gk == gs[k as int],
                    *members == groups@[k as int].1,
                    members@.len() == gk.1.len(),
                    forall|u: int| 0 <= u < members@.len() ==> members@[u] as int == gk.1[u],
                    forall|u: int| 0 <= u < gk.1.len() ==> 0 <= #[trigger] gk.1[u] < fs.len(),
                    t <= members@.len(),
                    string_views(ids@) == ids_of(fs, gk.1.subrange(0, t as int)),
                decreases members@.len() - t,
            {
                let m = members[t];
                let cids = &findings[m].clause_ids;
                let ghost start = string_views(ids@);
                let mut c: usize = 0;
                while c < cids.len()
                    invariant
                        c <= cids@.len(),
                        string_views(ids@) == start + string_views(cids@).subrange(0, c as int),
                    decreases cids@.len() - c,
                {
                    let ghost b = string_views(ids@);
                    ids.push(cids[c].clone());
                    assert(string_views(ids@) =~= b.push(cids@[c as int]@));
                    assert(string_views(cids@).subrange(0, c as int + 1) =~= string_views(cids@).subrange(0, c as int).push(cids@[c as int]@));
                    c = c + 1;
                }
                proof {
                    assert(string_views(cids@).subrange(0, cids@.len() as int) =~= string_views(cids@));
                    let nxt = gk.1.subrange(0, t as int + 1);
                    assert(nxt.drop_last() =~= gk.1.subrange(0, t as int));
                    assert(nxt.last() == m as int);
                }
                t = t + 1;
            }
            let ghost iv = string_views(ids@);
            assert(iv == ids_of(fs, gk.1));
            let why = reason_text(&groups[k].0, n);
            let ghost base = link_views(out@);
            let mut i: usize = 0;
            while i < ids.len()
                invariant
                    iv == string_views(ids@),
                    i <= ids@.len(),
                    link_views(out@) == base + pair_links(iv, i as int, why@),
                decreases ids@.len() - i,
            {
                let ghost row_base = link_views(out@);
                let mut j: usize = i + 1;
                while j < ids.len()
                    invariant
                        iv == string_views(ids@),
                        i < ids@.len(),
                        i + 1 <= j <= ids@.len(),
                        link_views(out@) == row_base + row_links(iv, i as int, j as int, why@),
                    decreases ids@.len() - j,
                {
                    if ids[i] != ids[j] {
                        let ghost b = link_views(out@);
                        out.push(ClauseLink { from: ids[i].clone(), to: ids[j].clone(), reason: why.clone() });
                        assert(link_views(out@) =~= b.push((iv[i as int], iv[j as int], why@)));
                    }
                    j = j + 1;
                }
                assert(link_views(out@) =~= base + pair_links(iv, i as int + 1, why@));
                i = i + 1;
            }
            proof {
                assert(group_links(fs, gk) == pair_links(iv, iv.len() as int, link_reason(gk.0, n as nat)));
                assert(links_upto(fs, gs, k as int + 1) == links_upto(fs, gs, k as int) + group_links(fs, gk));
            }
        } else {
            proof {
                assert(group_links(fs, gk) =~= Seq::<LinkView>::empty());
                assert(links_upto(fs, gs, k as int + 1) =~= links_upto(fs, gs, k as int));
            }
        }
        k = k + 1;
    }
    out
}

} // verus!
