//! The life of dynamic agents: definitions made from the agents that a
//! blind-spot review suggests, the manifest they are kept in (at most twenty,
//! the oldest leaving first), and which of them are loaded at start-up.
use vstd::prelude::*;
use crate::coordination::{agent_id_of, is_duplicate_dynamic_agent, overlapping, sanitize_agent_id};
use crate::text::{chars_of, copy_strings, extend_str, string_of, string_views};
use crate::types::{AgentComplexity, DynamicAgentDefinition, DynamicAgentManifest, SuggestedAgent};

verus! {

/// A definition as values: id, display name, prompt, turns, complexity,
/// keywords, tools, creation time, creator, reason, active.
pub type DefView = (
    Seq<char>,
    Seq<char>,
    Seq<char>,
    usize,
    AgentComplexity,
    Seq<Seq<char>>,
    Seq<Seq<char>>,
    Seq<char>,
    Seq<char>,
    Seq<char>,
    bool,
);

pub open spec fn def_view(d: DynamicAgentDefinition) -> DefView {
    (
        d.id@,
        d.display_name@,
        d.system_prompt@,
        d.default_max_turns,
        d.complexity,
        string_views(d.section_keywords@),
        string_views(d.tool_names@),
        d.created_at@,
        d.created_by@,
        d.reason@,
        d.active,
    )
}

pub open spec fn def_views(ds: Seq<DynamicAgentDefinition>) -> Seq<DefView> {
    ds.map_values(|d: DynamicAgentDefinition| def_view(d))
}

fn copy_def(d: &DynamicAgentDefinition) -> (r: DynamicAgentDefinition)
    ensures
        def_view(r) == def_view(*d),
{
    DynamicAgentDefinition {
        id: d.id.clone(),
        display_name: d.display_name.clone(),
        system_prompt: d.system_prompt.clone(),
        default_max_turns: d.default_max_turns,
        complexity: d.complexity,
        section_keywords: copy_strings(&d.section_keywords),
        tool_names: copy_strings(&d.tool_names),
        created_at: d.created_at.clone(),
        created_by: d.created_by.clone(),
        reason: d.reason.clone(),
        active: d.active,
    }
}

// ─── suggestions ────────────────────────────────────────────────

/// A suggestion worth registering: it has a prompt and keywords.
pub open spec fn usable(s: SuggestedAgent) -> bool {
    s.agent_prompt@.len() > 0 && s.section_keywords@.len() > 0
}

/// The tools every dynamic agent gets.
pub open spec fn dynamic_tools() -> Seq<Seq<char>> {
    seq!["web_search"@, "search_document"@, "read_section"@, "output_finding"@]
}

/// The definition made from a suggestion at time `created_at`: an id made
/// of the name's ASCII letters, digits and underscores, eight turns, medium
/// complexity, the four review tools, created by the blind-spot agent, and
/// inactive until someone approves it.
pub open spec fn suggested_def(s: SuggestedAgent, created_at: Seq<char>) -> DefView {
    (
        "Dynamic_"@ + agent_id_of(s.agent_name@),
        s.agent_name@ + "Agent"@,
        s.agent_prompt@,
        8,
        AgentComplexity::Medium,
        string_views(s.section_keywords@),
        dynamic_tools(),
        created_at,
        "BlindSpotAgent"@,
        s.reason@,
        false,
    )
}

/// The definition for a suggestion, none when it has no prompt or no
/// keywords.
pub fn dynamic_agent_from_suggestion(s: &SuggestedAgent, created_at: &str) -> (r: Option<DynamicAgentDefinition>)
    ensures
        match r {
            Some(d) => usable(*s) && def_view(d) == suggested_def(*s, created_at@),
            None => !usable(*s),
        },
{
    if s.agent_prompt.as_str().is_empty() || s.section_keywords.len() == 0 {
        return None;
    }
    let mut id: Vec<char> = Vec::new();
    extend_str(&mut id, "Dynamic_");
    let clean = sanitize_agent_id(s.agent_name.as_str());
    extend_str(&mut id, clean.as_str());
    let mut name = chars_of(s.agent_name.as_str());
    extend_str(&mut name, "Agent");
    let mut tools: Vec<String> = Vec::new();
    tools.push(String::from_str("web_search"));
    tools.push(String::from_str("search_document"));
    tools.push(String::from_str("read_section"));
    tools.push(String::from_str("output_finding"));
    assert(string_views(tools@) =~= dynamic_tools());
    Some(DynamicAgentDefinition {
        id: string_of(id.as_slice()),
        display_name: string_of(name.as_slice()),
        system_prompt: s.agent_prompt.clone(),
        default_max_turns: 8,
        complexity: AgentComplexity::Medium,
        section_keywords: copy_strings(&s.section_keywords),
        tool_names: tools,
        created_at: String::from_str(created_at),
        created_by: String::from_str("BlindSpotAgent"),
        reason: s.reason.clone(),
        active: false,
    })
}

/// The usable suggestions, in order.
pub open spec fn usable_ones(ss: Seq<SuggestedAgent>) -> Seq<SuggestedAgent>
    decreases ss.len(),
{
    if ss.len() == 0 {
        ss
    } else if usable(ss.last()) {
        usable_ones(ss.drop_last()).push(ss.last())
    } else {
        usable_ones(ss.drop_last())
    }
}

/// The definitions to register for the suggestions that findings carry,
/// one per usable suggestion, in order.
pub fn register_dynamic_agents(suggestions: &Vec<SuggestedAgent>, created_at: &str) -> (r: Vec<DynamicAgentDefinition>)
    ensures
        r@.len() == usable_ones(suggestions@).len(),
        forall|k: int| 0 <= k < r@.len() ==> #[trigger] def_view(r@[k]) == suggested_def(usable_ones(suggestions@)[k], created_at@),
{
    let mut out: Vec<DynamicAgentDefinition> = Vec::new();
    let mut i: usize = 0;
    while i < suggestions.len()
        invariant
            i <= suggestions@.len(),
            out@.len() == usable_ones(suggestions@.subrange(0, i as int)).len(),
            forall|k: int| 0 <= k < out@.len() ==> #[trigger] def_view(out@[k])
                == suggested_def(usable_ones(suggestions@.subrange(0, i as int))[k], created_at@),
        decreases suggestions@.len() - i,
    {
        let ghost prev = suggestions@.subrange(0, i as int);
        proof {
            let nxt = suggestions@.subrange(0, i as int + 1);
            assert(nxt.drop_last() =~= prev);
            assert(nxt.last() == suggestions@[i as int]);
        }
        match dynamic_agent_from_suggestion(&suggestions[i], created_at) {
            Some(d) => {
                out.push(d);
            },
            None => {},
        }
        i = i + 1;
    }
    assert(suggestions@.subrange(0, suggestions@.len() as int) =~= suggestions@);
    out
}

// ─── the manifest ───────────────────────────────────────────────

/// Lexicographic order of texts (character by character, a prefix first).
pub open spec fn text_le(a: Seq<char>, b: Seq<char>) -> bool
    decreases a.len(),
{
    if a.len() == 0 {
        true
    } else if b.len() == 0 {
        false
    } else if a[0] != b[0] {
        (a[0] as u32) < (b[0] as u32)
    } else {
        text_le(a.subrange(1, a.len() as int), b.subrange(1, b.len() as int))
    }
}

fn text_le_exec(a: &Vec<char>, b: &Vec<char>) -> (r: bool)
    ensures
        r == text_le(a@, b@),
{
    let mut i: usize = 0;
    assert(a@.subrange(0, a@.len() as int) =~= a@);
    assert(b@.subrange(0, b@.len() as int) =~= b@);
    while i < a.len() && i < b.len() && a[i] == b[i]
        invariant
            i <= a@.len(),
            i <= b@.len(),
            text_le(a@, b@) == text_le(a@.subrange(i as int, a@.len() as int), b@.subrange(i as int, b@.len() as int)),
        decreases a@.len() - i,
    {
        proof {
            let sa = a@.subrange(i as int, a@.len() as int);
            let sb = b@.subrange(i as int, b@.len() as int);
            assert(sa.subrange(1, sa.len() as int) =~= a@.subrange(i as int + 1, a@.len() as int));
            assert(sb.subrange(1, sb.len() as int) =~= b@.subrange(i as int + 1, b@.len() as int));
        }
        i = i + 1;
    }
    if i == a.len() {
        true
    } else if i == b.len() {
        false
    } else {
        (a[i] as u32) < (b[i] as u32)
    }
}

/// The definitions other than those with id `id`, in order.
pub open spec fn without_id(ds: Seq<DefView>, id: Seq<char>) -> Seq<DefView>
    decreases ds.len(),
{
    if ds.len() == 0 {
        ds
    } else if ds.last().0 == id {
        without_id(ds.drop_last(), id)
    } else {
        without_id(ds.drop_last(), id).push(ds.last())
    }
}

/// Where a definition created at `t` goes among `ds`: after all created no
/// later than it.
pub open spec fn created_slot(ds: Seq<DefView>, t: Seq<char>) -> int
    decreases ds.len(),
{
    if ds.len() == 0 {
        0
    } else if !text_le(ds[0].7, t) {
        0
    } else {
        1 + created_slot(ds.subrange(1, ds.len() as int), t)
    }
}

/// The definitions ordered by creation time; those created at the same time
/// keep their order.
pub open spec fn by_created(ds: Seq<DefView>) -> Seq<DefView>
    decreases ds.len(),
{
    if ds.len() == 0 {
        ds
    } else {
        let r = by_created(ds.drop_last());
        r.insert(created_slot(r, ds.last().7), ds.last())
    }
}

/// The manifest's definitions after adding one: a definition with the same
/// id is replaced (the new one goes last); past twenty, the definitions are
/// ordered by creation time and the oldest leaves.
pub open spec fn manifest_after(ds: Seq<DefView>, d: DefView) -> Seq<DefView> {
    let kept = without_id(ds, d.0).push(d);
    if kept.len() > 20 {
        let sorted = by_created(kept);
        sorted.subrange(1, sorted.len() as int)
    } else {
        kept
    }
}

proof fn lemma_created_slot_at(ds: Seq<DefView>, t: Seq<char>, j: int)
    requires
        0 <= j <= ds.len(),
        forall|m: int| 0 <= m < j ==> text_le(#[trigger] ds[m].7, t),
        j < ds.len() ==> !text_le(ds[j].7, t),
    ensures
        created_slot(ds, t) == j,
    decreases ds.len(),
{
    if ds.len() > 0 && j > 0 {
        let rest = ds.subrange(1, ds.len() as int);
        assert forall|m: int| 0 <= m < j - 1 implies text_le(#[trigger] rest[m].7, t) by {
            assert(rest[m] == ds[m + 1]);
        }
        if j < ds.len() {
            assert(rest[j - 1] == ds[j]);
        }
        lemma_created_slot_at(rest, t, j - 1);
    }
}

pub proof fn lemma_by_created_len(ds: Seq<DefView>)
    ensures
        by_created(ds).len() == ds.len(),
    decreases ds.len(),
{
    if ds.len() > 0 {
        lemma_by_created_len(ds.drop_last());
        lemma_slot_in_range(by_created(ds.drop_last()), ds.last().7);
    }
}

proof fn lemma_slot_in_range(ds: Seq<DefView>, t: Seq<char>)
    ensures
        0 <= created_slot(ds, t) <= ds.len(),
    decreases ds.len(),
{
    if ds.len() > 0 && text_le(ds[0].7, t) {
        lemma_slot_in_range(ds.subrange(1, ds.len() as int), t);
    }
}

fn created_no_later(d: &DynamicAgentDefinition, key: &Vec<char>) -> (r: bool)
    ensures
        r == text_le(d.created_at@, key@),
{
    let c = chars_of(d.created_at.as_str());
    text_le_exec(&c, key)
}

/// Orders definitions by creation time, keeping the order of those created
/// at the same time.
fn sort_by_created(v: Vec<DynamicAgentDefinition>) -> (r: Vec<DynamicAgentDefinition>)
    ensures
        def_views(r@) == by_created(def_views(v@)),
{
    let ghost orig = def_views(v@);
    let n = v.len();
    let mut rest = v;
    let mut r: Vec<DynamicAgentDefinition> = Vec::new();
    let mut i: usize = 0;
    while rest.len() > 0
        invariant
            i <= orig.len(),
            n == orig.len(),
            def_views(rest@) == orig.subrange(i as int, orig.len() as int),
            def_views(r@) == by_created(orig.subrange(0, i as int)),
        decreases rest@.len(),
    {
        assert(i < orig.len()) by {
            assert(def_views(rest@).len() == rest@.len());
        }
        let ghost rest_before = rest@;
        let x = rest.remove(0);
        proof {
            assert(def_view(x) == def_views(rest_before)[0]);
            assert(def_views(rest@) =~= def_views(rest_before).subrange(1, rest_before.len() as int));
            let tail = orig.subrange(i as int, orig.len() as int);
            assert(def_views(rest_before) == tail);
            assert(def_views(rest_before).len() == rest_before.len());
            assert(tail.len() == orig.len() - i);
            assert(rest@.len() == rest_before.len() - 1);
            assert(def_views(rest@).len() == rest@.len());
            assert(def_views(rest@).len() == orig.len() - i - 1);
            assert forall|k: int| 0 <= k < orig.len() - i - 1 implies #[trigger] def_views(rest@)[k] == orig[i + 1 + k] by {
                assert(def_views(rest@)[k] == def_views(rest_before)[k + 1]);
                assert(tail[k + 1] == orig[i + 1 + k]);
            }
            assert(def_views(rest@) =~= orig.subrange(i as int + 1, orig.len() as int));
        }
        let key = chars_of(x.created_at.as_str());
        let mut j: usize = 0;
        while j < r.len() && created_no_later(&r[j], &key)
            invariant
                j <= r@.len(),
                key@ == def_view(x).7,
                forall|m: int| 0 <= m < j ==> text_le(#[trigger] def_views(r@)[m].7, key@),
            decreases r@.len() - j,
        {
            assert(def_views(r@)[j as int] == def_view(r@[j as int]));
            j = j + 1;
        }
        proof {
            if j < r@.len() {
                assert(def_views(r@)[j as int] == def_view(r@[j as int]));
            }
            lemma_created_slot_at(def_views(r@), key@, j as int);
            let nxt = orig.subrange(0, i as int + 1);
            assert(nxt.drop_last() =~= orig.subrange(0, i as int));
            assert(nxt.last() == def_view(x));
        }
        let ghost before = def_views(r@);
        r.insert(j, x);
        assert(def_views(r@) =~= before.insert(j as int, def_view(x)));
        i = i + 1;
    }
    assert(orig.subrange(0, orig.len() as int) =~= orig);
    r
}

/// Adds a definition to the manifest as `manifest_after` says.
pub fn add_to_manifest(manifest: &mut DynamicAgentManifest, def: DynamicAgentDefinition)
    ensures
        def_views(final(manifest).agents@) == manifest_after(def_views(old(manifest).agents@), def_view(def)),
        final(manifest).version == old(manifest).version,
{
    let ghost orig = def_views(manifest.agents@);
    let mut kept: Vec<DynamicAgentDefinition> = Vec::new();
    let mut i: usize = 0;
    while i < manifest.agents.len()
        invariant
            i <= manifest.agents@.len(),
            orig == def_views(manifest.agents@),
            def_views(kept@) == without_id(orig.subrange(0, i as int), def.id@),
        decreases manifest.agents@.len() - i,
    {
        proof {
            let nxt = orig.subrange(0, i as int + 1);
            assert(nxt.drop_last() =~= orig.subrange(0, i as int));
            assert(nxt.last() == def_view(manifest.agents@[i as int]));
        }
        if manifest.agents[i].id != def.id {
            let ghost before = def_views(kept@);
            let c = copy_def(&manifest.agents[i]);
            kept.push(c);
            assert(def_views(kept@) =~= before.push(def_view(manifest.agents@[i as int])));
        }
        i = i + 1;
    }
    assert(orig.subrange(0, orig.len() as int) =~= orig);
    let ghost before = def_views(kept@);
    let ghost dv = def_view(def);
    kept.push(def);
    assert(def_views(kept@) =~= before.push(dv));
    if kept.len() > 20 {
        let mut sorted = sort_by_created(kept);
        proof {
            lemma_by_created_len(before.push(dv));
        }
        let ghost sv = def_views(sorted@);
        sorted.remove(0);
        assert(def_views(sorted@) =~= sv.subrange(1, sv.len() as int));
        manifest.agents = sorted;
    } else {
        manifest.agents = kept;
    }
}

// ─── loading ────────────────────────────────────────────────────

/// A manifest entry that may be loaded: active, with a prompt and keywords.
pub open spec fn loadable(d: DefView) -> bool {
    d.10 && d.2.len() > 0 && d.5.len() > 0
}

/// Whether `d` overlaps one of the loaded definitions.
pub open spec fn overlaps_any(d: DefView, loaded: Seq<DefView>) -> bool {
    exists|k: int| 0 <= k < loaded.len() && #[trigger] overlapping(d.5, loaded[k].5)
}

/// Loading the first `n` entries: the definitions held by id (a later one
/// with the same id replaces an earlier), and those loaded, in order. An
/// entry is loaded when it is loadable and does not overlap by more than
/// half the keywords of a definition held so far.
pub open spec fn load_upto(ds: Seq<DefView>, n: int) -> (Seq<DefView>, Seq<DefView>)
    decreases n,
{
    if n <= 0 {
        (Seq::<DefView>::empty(), Seq::<DefView>::empty())
    } else {
        let p = load_upto(ds, n - 1);
        let d = ds[n - 1];
        if loadable(d) && !overlaps_any(d, p.0) {
            (without_id(p.0, d.0).push(d), p.1.push(d))
        } else {
            p
        }
    }
}

/// The manifest entries to load at start-up, in order.
pub fn load_dynamic_agents(manifest: &DynamicAgentManifest) -> (r: Vec<DynamicAgentDefinition>)
    ensures
        def_views(r@) == load_upto(def_views(manifest.agents@), manifest.agents@.len() as int).1,
{
    let ghost dv = def_views(manifest.agents@);
    let mut held: Vec<DynamicAgentDefinition> = Vec::new();
    let mut loaded: Vec<DynamicAgentDefinition> = Vec::new();
    let mut i: usize = 0;
    while i < manifest.agents.len()
        invariant
            i <= manifest.agents@.len(),
            dv == def_views(manifest.agents@),
            def_views(held@) == load_upto(dv, i as int).0,
            def_views(loaded@) == load_upto(dv, i as int).1,
        decreases manifest.agents@.len() - i,
    {
        let d = &manifest.agents[i];
        assert(dv[i as int] == def_view(*d));
        let ok = d.active && !d.system_prompt.as_str().is_empty() && d.section_keywords.len() > 0;
        proof {
            assert(string_views(d.section_keywords@).len() == d.section_keywords@.len());
        }
        if ok {
            let dup = is_duplicate_dynamic_agent(d, &held);
            proof {
                let hv = def_views(held@);
                if dup {
                    let k = choose|k: int| 0 <= k < held@.len()
                        && #[trigger] overlapping(string_views(d.section_keywords@), string_views(held@[k].section_keywords@));
                    assert(hv[k] == def_view(held@[k]));
                    assert(overlapping(def_view(*d).5, hv[k].5));
                } else {
                    assert forall|k: int| 0 <= k < hv.len() implies !#[trigger] overlapping(def_view(*d).5, hv[k].5) by {
                        assert(hv[k] == def_view(held@[k]));
                    }
                }
            }
            if !dup {
                let mut next: Vec<DynamicAgentDefinition> = Vec::new();
                let ghost hv = def_views(held@);
                let mut k: usize = 0;
                while k < held.len()
                    invariant
                        k <= held@.len(),
                        hv == def_views(held@),
                        def_views(next@) == without_id(hv.subrange(0, k as int), d.id@),
                    decreases held@.len() - k,
                {
                    proof {
                        let nxt = hv.subrange(0, k as int + 1);
                        assert(nxt.drop_last() =~= hv.subrange(0, k as int));
                        assert(nxt.last() == def_view(held@[k as int]));
                    }
                    if held[k].id != d.id {
                        let ghost b = def_views(next@);
                        let c = copy_def(&held[k]);
                        next.push(c);
                        assert(def_views(next@) =~= b.push(def_view(held@[k as int])));
                    }
                    k = k + 1;
                }
                assert(hv.subrange(0, hv.len() as int) =~= hv);
                let ghost b1 = def_views(next@);
                next.push(copy_def(d));
                assert(def_views(next@) =~= b1.push(def_view(*d)));
                held = next;
                let ghost b2 = def_views(loaded@);
                loaded.push(copy_def(d));
                assert(def_views(loaded@) =~= b2.push(def_view(*d)));
            }
        }
        i = i + 1;
    }
    loaded
}

} // verus!
