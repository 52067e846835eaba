//! Decisions the review coordinator takes without a model: severity labels,
//! which sections are front matter, and dynamic-agent ids and duplicates.
use vstd::prelude::*;
use crate::text::{chars_of, contains_string, contains, contains_any, contains_any_exec, copy_strings, string_of, string_views};
use crate::types::{agent_id_eq, agent_name, severity_label, AgentId, AgentNode, ChunkNode, DynamicAgentDefinition, ReviewClause, RiskSeverity};

verus! {

/// The plain label of a severity, without emoji.
pub fn severity_str(s: &RiskSeverity) -> (r: &'static str)
    ensures
        r@ == severity_label(*s)@,
{
    s.as_str()
}

/// Sections that only introduce the document (invitations, tables of
/// contents, notices): a blind-spot review skips them.
pub open spec fn frontmatter_keywords() -> Seq<&'static str> {
    seq![
        "磋商邀请", "磋商公告", "招标公告", "投标邀请",
        "未归类", "封面", "目录", "前附表", "须知前附表",
        "采购公告", "竞争性谈判", "询价公告", "单一来源",
    ]
}

/// Some title of the path holds a front-matter keyword.
pub open spec fn is_frontmatter(path: Seq<Seq<char>>) -> bool {
    exists|i: int| 0 <= i < path.len() && #[trigger] contains_any(path[i], frontmatter_keywords())
}

/// Whether a section (by its path of titles) is front matter.
pub fn is_frontmatter_section(section_path: &Vec<String>) -> (r: bool)
    ensures
        r == is_frontmatter(string_views(section_path@)),
{
    let kws: [&'static str; 13] = [
        "磋商邀请", "磋商公告", "招标公告", "投标邀请",
        "未归类", "封面", "目录", "前附表", "须知前附表",
        "采购公告", "竞争性谈判", "询价公告", "单一来源",
    ];
    assert(kws@ == frontmatter_keywords());
    let ghost pv = string_views(section_path@);
    let mut i: usize = 0;
    while i < section_path.len()
        invariant
            i <= section_path@.len(),
            pv == string_views(section_path@),
            kws@ == frontmatter_keywords(),
            forall|k: int| 0 <= k < i ==> !#[trigger] contains_any(pv[k], frontmatter_keywords()),
        decreases section_path@.len() - i,
    {
        let t = chars_of(section_path[i].as_str());
        if contains_any_exec(t.as_slice(), kws.as_slice()) {
            assert(contains_any(pv[i as int], frontmatter_keywords()));
            return true;
        }
        i = i + 1;
    }
    false
}

pub open spec fn id_char(c: char) -> bool {
    ('0' <= c && c <= '9') || ('a' <= c && c <= 'z') || ('A' <= c && c <= 'Z') || c == '_'
}

/// The ASCII letters, digits and underscores of a name, in order.
pub open spec fn id_chars(s: Seq<char>) -> Seq<char>
    decreases s.len(),
{
    if s.len() == 0 {
        Seq::<char>::empty()
    } else if id_char(s.last()) {
        id_chars(s.drop_last()).push(s.last())
    } else {
        id_chars(s.drop_last())
    }
}

/// An agent id made from a name: its ASCII letters, digits and
/// underscores, or "Unknown" when it has none.
pub open spec fn agent_id_of(name: Seq<char>) -> Seq<char> {
    if id_chars(name).len() == 0 { "Unknown"@ } else { id_chars(name) }
}

/// Makes a valid agent id from a (Chinese) agent name.
pub fn sanitize_agent_id(name: &str) -> (r: String)
    ensures
        r@ == agent_id_of(name@),
{
    let nc = chars_of(name);
    let mut out: Vec<char> = Vec::new();
    let mut i: usize = 0;
    while i < nc.len()
        invariant
            i <= nc@.len(),
            out@ == id_chars(nc@.subrange(0, i as int)),
        decreases nc@.len() - i,
    {
        proof {
            let nxt = nc@.subrange(0, i as int + 1);
            assert(nxt.drop_last() =~= nc@.subrange(0, i as int));
            assert(nxt.last() == nc@[i as int]);
        }
        let c = nc[i];
        if ('0' <= c && c <= '9') || ('a' <= c && c <= 'z') || ('A' <= c && c <= 'Z') || c == '_' {
            out.push(c);
        }
        i = i + 1;
    }
    assert(nc@.subrange(0, nc@.len() as int) =~= nc@);
    if out.len() == 0 {
        String::from_str("Unknown")
    } else {
        string_of(out.as_slice())
    }
}

// ─── duplicate dynamic agents ───────────────────────────────────

/// The keywords without repeats, first occurrences kept.
pub open spec fn distinct(s: Seq<Seq<char>>) -> Seq<Seq<char>>
    decreases s.len(),
{
    if s.len() == 0 {
        Seq::<Seq<char>>::empty()
    } else {
        let p = distinct(s.drop_last());
        if p.contains(s.last()) { p } else { p.push(s.last()) }
    }
}

/// How many of `a` occur in `b`.
pub open spec fn shared(a: Seq<Seq<char>>, b: Seq<Seq<char>>) -> nat
    decreases a.len(),
{
    if a.len() == 0 {
        0
    } else {
        shared(a.drop_last(), b) + if b.contains(a.last()) { 1nat } else { 0nat }
    }
}

/// The keyword sets overlap by more than half (Jaccard index > 0.5).
pub open spec fn overlapping(a: Seq<Seq<char>>, b: Seq<Seq<char>>) -> bool {
    let x = distinct(a);
    let y = distinct(b);
    let inter = shared(x, y);
    let union = x.len() + y.len() - inter;
    union > 0 && 2 * inter > union
}

pub(crate) fn distinct_exec(v: &Vec<String>) -> (r: Vec<String>)
    ensures
        string_views(r@) == distinct(string_views(v@)),
{
    let ghost sv = string_views(v@);
    let mut out: Vec<String> = Vec::new();
    let mut i: usize = 0;
    while i < v.len()
        invariant
            i <= v@.len(),
            sv == string_views(v@),
            string_views(out@) == distinct(sv.subrange(0, i as int)),
        decreases v@.len() - i,
    {
        proof {
            let nxt = sv.subrange(0, i as int + 1);
            assert(nxt.drop_last() =~= sv.subrange(0, i as int));
            assert(nxt.last() == v@[i as int]@);
        }
        if !contains_string(&out, v[i].as_str()) {
            let ghost before = string_views(out@);
            out.push(v[i].clone());
            assert(string_views(out@) =~= before.push(v@[i as int]@));
        }
        i = i + 1;
    }
    assert(sv.subrange(0, sv.len() as int) =~= sv);
    out
}

proof fn lemma_shared_le(a: Seq<Seq<char>>, b: Seq<Seq<char>>)
    ensures
        shared(a, b) <= a.len(),
    decreases a.len(),
{
    if a.len() > 0 {
        lemma_shared_le(a.drop_last(), b);
    }
}

fn overlapping_exec(a: &Vec<String>, b: &Vec<String>) -> (r: bool)
    ensures
        r == overlapping(string_views(a@), string_views(b@)),
{
    let x = distinct_exec(a);
    let y = distinct_exec(b);
    let ghost xv = string_views(x@);
    let ghost yv = string_views(y@);
    let mut inter: usize = 0;
    let mut i: usize = 0;
    while i < x.len()
        invariant
            i <= x@.len(),
            xv == string_views(x@),
            yv == string_views(y@),
            inter == shared(xv.subrange(0, i as int), yv),
            inter <= i,
        decreases x@.len() - i,
    {
        proof {
            let nxt = xv.subrange(0, i as int + 1);
            assert(nxt.drop_last() =~= xv.subrange(0, i as int));
            assert(nxt.last() == x@[i as int]@);
        }
        if contains_string(&y, x[i].as_str()) {
            inter = inter + 1;
        }
        i = i + 1;
    }
    assert(xv.subrange(0, xv.len() as int) =~= xv);
    let union: u128 = x.len() as u128 + y.len() as u128 - inter as u128;
    union > 0 && 2 * (inter as u128) > union
}

/// A proposed dynamic agent duplicates an existing one when their section
/// keywords overlap by more than half.
pub fn is_duplicate_dynamic_agent(def: &DynamicAgentDefinition, existing: &Vec<DynamicAgentDefinition>) -> (r: bool)
    ensures
        r == exists|k: int| 0 <= k < existing@.len()
            && #[trigger] overlapping(string_views(def.section_keywords@), string_views(existing@[k].section_keywords@)),
{
    let mut k: usize = 0;
    while k < existing.len()
        invariant
            k <= existing@.len(),
            forall|j: int| 0 <= j < k ==> !#[trigger] overlapping(string_views(def.section_keywords@), string_views(existing@[j].section_keywords@)),
        decreases existing@.len() - k,
    {
        if overlapping_exec(&def.section_keywords, &existing[k].section_keywords) {
            return true;
        }
        k = k + 1;
    }
    false
}

} // verus!

verus! {

// ─── session graph nodes ────────────────────────────────────────

/// The role an agent plays in a review.
pub open spec fn agent_role(id: AgentId) -> Seq<char> {
    match id {
        AgentId::BlindSpot => "兜底扫描"@,
        AgentId::LegalVerify => "法条验证"@,
        AgentId::Debate => "正反辩论"@,
        AgentId::Dynamic(_) => "动态补充"@,
        _ => "标准审查"@,
    }
}

fn copy_agent_id(id: &AgentId) -> (r: AgentId)
    ensures
        agent_id_eq(r, *id),
        agent_name(r) == agent_name(*id),
{
    match id {
        AgentId::FactCheck => AgentId::FactCheck,
        AgentId::Procedure => AgentId::Procedure,
        AgentId::RuleEngine => AgentId::RuleEngine,
        AgentId::SemanticRisk => AgentId::SemanticRisk,
        AgentId::Scoring => AgentId::Scoring,
        AgentId::Demand => AgentId::Demand,
        AgentId::Contract => AgentId::Contract,
        AgentId::BlindSpot => AgentId::BlindSpot,
        AgentId::LegalVerify => AgentId::LegalVerify,
        AgentId::Debate => AgentId::Debate,
        AgentId::Dynamic(n) => AgentId::Dynamic(n.clone()),
    }
}

/// The graph node of an enabled agent: its id, display name and role.
pub fn agent_node(id: &AgentId) -> (r: AgentNode)
    ensures
        agent_id_eq(r.agent_id, *id),
        r.display_name@ == agent_name(*id),
        r.role@ == agent_role(*id),
{
    let role = match id {
        AgentId::BlindSpot => String::from_str("兜底扫描"),
        AgentId::LegalVerify => String::from_str("法条验证"),
        AgentId::Debate => String::from_str("正反辩论"),
        AgentId::Dynamic(_) => String::from_str("动态补充"),
        _ => String::from_str("标准审查"),
    };
    AgentNode { agent_id: copy_agent_id(id), display_name: id.to_string(), role }
}

/// The first 200 characters of a clause text.
pub open spec fn preview_of(text: Seq<char>) -> Seq<char> {
    if text.len() <= 200 { text } else { text.subrange(0, 200) }
}

/// The graph node of a clause: its id, path, pages and tier, and the first
/// 200 characters of its text.
pub fn chunk_node(clause: &ReviewClause) -> (r: ChunkNode)
    ensures
        r.chunk_id@ == clause.chunk_id@,
        string_views(r.section_path@) == string_views(clause.section_path@),
        r.page_start == clause.page_start,
        r.page_end == clause.page_end,
        r.text_preview@ == preview_of(clause.text@),
        r.tier == clause.tier,
{
    let tc = chars_of(clause.text.as_str());
    let n: usize = if tc.len() <= 200 { tc.len() } else { 200 };
    let mut p: Vec<char> = Vec::new();
    let mut i: usize = 0;
    while i < n
        invariant
            i <= n,
            n <= tc@.len(),
            p@ == tc@.subrange(0, i as int),
        decreases n - i,
    {
        p.push(tc[i]);
        assert(tc@.subrange(0, i as int + 1) =~= tc@.subrange(0, i as int).push(tc@[i as int]));
        i = i + 1;
    }
    assert(tc@.len() <= 200 ==> tc@.subrange(0, n as int) =~= tc@);
    ChunkNode {
        chunk_id: clause.chunk_id.clone(),
        section_path: copy_strings(&clause.section_path),
        page_start: clause.page_start,
        page_end: clause.page_end,
        text_preview: string_of(p.as_slice()),
        tier: clause.tier,
    }
}

/// The graph nodes of the clauses under review, in order.
pub fn chunk_nodes(clauses: &Vec<ReviewClause>) -> (r: Vec<ChunkNode>)
    ensures
        r@.len() == clauses@.len(),
        forall|k: int| 0 <= k < r@.len() ==> {
            &&& (#[trigger] r@[k]).chunk_id@ == clauses@[k].chunk_id@
            &&& string_views(r@[k].section_path@) == string_views(clauses@[k].section_path@)
            &&& r@[k].page_start == clauses@[k].page_start
            &&& r@[k].page_end == clauses@[k].page_end
            &&& r@[k].text_preview@ == preview_of(clauses@[k].text@)
            &&& r@[k].tier == clauses@[k].tier
        },
{
    let mut out: Vec<ChunkNode> = Vec::new();
    let mut i: usize = 0;
    while i < clauses.len()
        invariant
            i <= clauses@.len(),
            out@.len() == i,
            forall|k: int| 0 <= k < i ==> {
                &&& (#[trigger] out@[k]).chunk_id@ == clauses@[k].chunk_id@
                &&& string_views(out@[k].section_path@) == string_views(clauses@[k].section_path@)
                &&& out@[k].page_start == clauses@[k].page_start
                &&& out@[k].page_end == clauses@[k].page_end
                &&& out@[k].text_preview@ == preview_of(clauses@[k].text@)
                &&& out@[k].tier == clauses@[k].tier
            },
        decreases clauses@.len() - i,
    {
        out.push(chunk_node(&clauses[i]));
        i = i + 1;
    }
    out
}

} // verus!
