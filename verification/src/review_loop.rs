//! The decisions of a clause review loop: how each turn may use tools, what
//! the agent is told as its turn budget runs out, how repeated or fruitless
//! searches are cut short, when a clause's tier changes after the second
//! turn, and the texts the loop hands the model and the finding.
//!
//! The loop itself (model calls, tool calls, events) runs outside the
//! library; it asks these functions what to do at each step.
use vstd::prelude::*;
use crate::numbers::{dec, fmt_int_exec};
use crate::text::{chars_of, contains_any, contains_any_exec, extend_chars, extend_str, join, join_strings, string_of, string_views};
use crate::tools::ToolChoice;
use crate::types::{Citation, ReviewClause, RiskTier};

verus! {

// ─── the turn budget ────────────────────────────────────────────

/// What the agent is told when `remaining` turns are left after this one.
pub open spec fn budget_note(remaining: int, cid: Seq<char>) -> Option<Seq<char>> {
    if remaining == 3 {
        Some("⏳ 剩余 3 轮审查机会（条款 "@ + cid
            + "）。请开始汇总已收集的信息，减少探索性搜索。\n如果已有足够证据判定风险（或无风险），即可准备调用 output_finding。"@)
    } else if remaining == 2 {
        Some("⚠️ 剩余 2 轮审查机会（条款 "@ + cid
            + "）。请汇总已收集的信息，准备调用 output_finding。\n不要再开启新的搜索方向——基于已有信息做出判定即可。"@)
    } else if remaining <= 1 {
        Some("🛑 这是对条款 "@ + cid
            + " 的最后一轮审查！本轮**只能**调用 output_finding 输出结论。\nno_risk=true 也比被截断好——截断会丢失所有已完成的审查工作。\n立即基于已收集的信息 + 条款原文 + 已知法规常识，调用 output_finding。"@)
    } else {
        None
    }
}

pub open spec fn note_view(n: Option<String>) -> Option<Seq<char>> {
    match n {
        Some(s) => Some(s@),
        None => None,
    }
}

/// The tool choice for a turn after which `remaining` turns are left, and
/// the budget note for it: the last turn must conclude with
/// `output_finding`, the one before must call some tool, earlier turns are
/// free.
pub fn turn_directive(remaining: u32, chunk_id: &str) -> (r: (ToolChoice, Option<String>))
    ensures
        match r.0 {
            ToolChoice::Specific { name } => remaining <= 1 && name@ == "output_finding"@,
            ToolChoice::Required => remaining == 2,
            ToolChoice::Auto => remaining > 2,
        },
        note_view(r.1) == budget_note(remaining as int, chunk_id@),
{
    let choice = if remaining <= 1 {
        ToolChoice::Specific { name: String::from_str("output_finding") }
    } else if remaining == 2 {
        ToolChoice::Required
    } else {
        ToolChoice::Auto
    };
    let note = if remaining == 3 {
        let mut v: Vec<char> = Vec::new();
        extend_str(&mut v, "⏳ 剩余 3 轮审查机会（条款 ");
        extend_str(&mut v, chunk_id);
        extend_str(&mut v, "）。请开始汇总已收集的信息，减少探索性搜索。\n如果已有足够证据判定风险（或无风险），即可准备调用 output_finding。");
        Some(string_of(v.as_slice()))
    } else if remaining == 2 {
        let mut v: Vec<char> = Vec::new();
        extend_str(&mut v, "⚠️ 剩余 2 轮审查机会（条款 ");
        extend_str(&mut v, chunk_id);
        extend_str(&mut v, "）。请汇总已收集的信息，准备调用 output_finding。\n不要再开启新的搜索方向——基于已有信息做出判定即可。");
        Some(string_of(v.as_slice()))
    } else if remaining <= 1 {
        let mut v: Vec<char> = Vec::new();
        extend_str(&mut v, "🛑 这是对条款 ");
        extend_str(&mut v, chunk_id);
        extend_str(&mut v, " 的最后一轮审查！本轮**只能**调用 output_finding 输出结论。\nno_risk=true 也比被截断好——截断会丢失所有已完成的审查工作。\n立即基于已收集的信息 + 条款原文 + 已知法规常识，调用 output_finding。");
        Some(string_of(v.as_slice()))
    } else {
        None
    };
    (choice, note)
}

// ─── searches ───────────────────────────────────────────────────

/// Whether a tool searches the web (under its new or its old name).
pub open spec fn search_tool(name: Seq<char>) -> bool {
    name == "web_search"@ || name == "search_knowledge"@
}

/// Whether a tool searches the web (under its new or its old name).
pub fn is_search_tool(name: &str) -> (r: bool)
    ensures
        r == search_tool(name@),
{
    let c = chars_of(name);
    crate::text::eq_str(c.as_slice(), "web_search") || crate::text::eq_str(c.as_slice(), "search_knowledge")
}

/// What the loop tells the agent after a search result.
#[derive(Debug, Clone, Copy, PartialEq, Eq, Structural)]
pub enum SearchNote {
    /// First empty result: try other words.
    FirstEmpty,
    /// Second empty result in a row: stop searching.
    SecondEmpty,
    /// Third or later empty result in a row: conclude now.
    LaterEmpty,
    /// The same top sources came back twice more: stop searching.
    Repeated,
    /// The fifth web search: the hard limit.
    LimitReached,
}

impl SearchNote {
    /// The text of the note.
    pub fn text(&self) -> (r: &'static str)
        ensures
            r@ == note_text(*self),
    {
        match self {
            SearchNote::FirstEmpty => "搜索返回 0 条结果。换一组关键词或换 category 再试一次。若下次仍为空，必须基于已读原文+已知法规常识直接 output_finding。",
            SearchNote::SecondEmpty => "🛑 连续 2 次搜索返回空结果。你已用完搜索机会。\n禁止调用 web_search 或 search_document。\n基于已读的条款原文 + 已知的法规常识，立即调用 output_finding 输出结论。\n在 reason 开头标注：『搜索未返回结果，以下判定基于已知法规常识。』\n不要再搜索了。现在调用 output_finding。",
            SearchNote::LaterEmpty => "⛔ 这是第 3 次空搜索。你的下一个动作必须是 output_finding。\n不调用 output_finding 将导致 max_turns 耗尽、审查截断。\n立即输出 output_finding，no_risk 设为 true 亦可。",
            SearchNote::Repeated => "🛑 连续 2 次搜索返回相同的结果列表，搜索引擎对不同 query 返回了相同内容。\n你已用完有效的搜索机会。禁止再调用 web_search。\n基于已搜索到的信息 + 条款原文 + 已知法规常识，立即调用 output_finding 输出结论。\n在 reason 开头标注：『联网搜索未返回差异化结果，以下判定基于已知法规常识。』\n不要再搜索了。现在调用 output_finding。",
            SearchNote::LimitReached => "🛑 你已调用 web_search 5 次，达到硬性上限。\n禁止再调用 web_search。\n基于已搜索到的信息 + 条款原文 + 已知法规常识，立即调用 output_finding 输出结论。\n不要再搜索了。现在调用 output_finding。",
        }
    }
}

pub open spec fn note_text(n: SearchNote) -> Seq<char> {
    match n {
        SearchNote::FirstEmpty => "搜索返回 0 条结果。换一组关键词或换 category 再试一次。若下次仍为空，必须基于已读原文+已知法规常识直接 output_finding。"@,
        SearchNote::SecondEmpty => "🛑 连续 2 次搜索返回空结果。你已用完搜索机会。\n禁止调用 web_search 或 search_document。\n基于已读的条款原文 + 已知的法规常识，立即调用 output_finding 输出结论。\n在 reason 开头标注：『搜索未返回结果，以下判定基于已知法规常识。』\n不要再搜索了。现在调用 output_finding。"@,
        SearchNote::LaterEmpty => "⛔ 这是第 3 次空搜索。你的下一个动作必须是 output_finding。\n不调用 output_finding 将导致 max_turns 耗尽、审查截断。\n立即输出 output_finding，no_risk 设为 true 亦可。"@,
        SearchNote::Repeated => "🛑 连续 2 次搜索返回相同的结果列表，搜索引擎对不同 query 返回了相同内容。\n你已用完有效的搜索机会。禁止再调用 web_search。\n基于已搜索到的信息 + 条款原文 + 已知法规常识，立即调用 output_finding 输出结论。\n在 reason 开头标注：『联网搜索未返回差异化结果，以下判定基于已知法规常识。』\n不要再搜索了。现在调用 output_finding。"@,
        SearchNote::LimitReached => "🛑 你已调用 web_search 5 次，达到硬性上限。\n禁止再调用 web_search。\n基于已搜索到的信息 + 条款原文 + 已知法规常识，立即调用 output_finding 输出结论。\n不要再搜索了。现在调用 output_finding。"@,
    }
}

/// What the loop does with a tool result: it always appends the result,
/// then the note if there is one, then, if `result_again`, the result once
/// more.
#[derive(Debug, Clone, Copy)]
pub struct SearchVerdict {
    pub note: Option<SearchNote>,
    pub result_again: bool,
}

/// The search counters of one clause review.
#[derive(Debug)]
pub struct SearchGuard {
    /// Searches in a row that found nothing.
    pub consecutive_empty: u32,
    /// Web searches that found something.
    pub web_searches: u32,
    /// Web searches in a row whose top sources repeated the previous ones.
    pub consecutive_duplicates: u32,
    /// The top source URLs of the last web search.
    pub last_urls: Vec<String>,
}

/// The counters as values: empty streak, web searches, duplicate streak,
/// last top URLs.
pub type GuardView = (int, int, int, Seq<Seq<char>>);

pub open spec fn guard_view(g: SearchGuard) -> GuardView {
    (g.consecutive_empty as int, g.web_searches as int, g.consecutive_duplicates as int, string_views(g.last_urls@))
}

/// Counting a web search that found something: the fifth reaches the limit.
pub open spec fn count_search(g: GuardView) -> (GuardView, Option<SearchNote>) {
    let n = g.1 + 1;
    (
        (g.0, n, g.2, g.3),
        if n >= 5 { Some(SearchNote::LimitReached) } else { None },
    )
}

/// The counters and note after a tool result with `hits` results and top
/// URLs `urls`: only web searches and document searches count; empty
/// results escalate step by step; a non-empty result resets the empty
/// streak, and for web searches, the same non-empty top URLs twice more in
/// a row stop the searching, else the search counts toward the limit.
pub open spec fn guard_step(g: GuardView, name: Seq<char>, hits: int, urls: Seq<Seq<char>>) -> (GuardView, Option<SearchNote>, bool) {
    if !(search_tool(name) || name == "search_document"@) {
        (g, None, false)
    } else if hits == 0 {
        let e = g.0 + 1;
        let g1 = (e, g.1, g.2, g.3);
        if e == 1 {
            (g1, Some(SearchNote::FirstEmpty), false)
        } else if e == 2 {
            (g1, Some(SearchNote::SecondEmpty), false)
        } else {
            (g1, Some(SearchNote::LaterEmpty), true)
        }
    } else if !search_tool(name) {
        ((0, g.1, g.2, g.3), None, false)
    } else if urls.len() > 0 && urls == g.3 {
        let d = g.2 + 1;
        if d >= 2 {
            ((0, g.1, d, g.3), Some(SearchNote::Repeated), false)
        } else {
            let c = count_search((0, g.1, d, g.3));
            (c.0, c.1, false)
        }
    } else {
        let c = count_search((0, g.1, 0, urls));
        (c.0, c.1, false)
    }
}

fn same_strings(a: &Vec<String>, b: &Vec<String>) -> (r: bool)
    ensures
        r == (string_views(a@) == string_views(b@)),
{
    if a.len() != b.len() {
        assert(string_views(a@).len() != string_views(b@).len());
        return false;
    }
    let mut i: usize = 0;
    while i < a.len()
        invariant
            i <= a@.len(),
            a@.len() == b@.len(),
            forall|k: int| 0 <= k < i ==> a@[k]@ == b@[k]@,
        decreases a@.len() - i,
    {
        if a[i] != b[i] {
            assert(string_views(a@)[i as int] != string_views(b@)[i as int]);
            return false;
        }
        i = i + 1;
    }
    assert(string_views(a@) =~= string_views(b@));
    true
}

impl SearchGuard {
    /// No search made yet.
    pub fn new() -> (r: Self)
        ensures
            guard_view(r) == (0int, 0int, 0int, Seq::<Seq<char>>::empty()),
    {
        let r = SearchGuard { consecutive_empty: 0, web_searches: 0, consecutive_duplicates: 0, last_urls: Vec::new() };
        assert(string_views(r.last_urls@) =~= Seq::<Seq<char>>::empty());
        r
    }

    /// Takes note of a tool result: `hits` results, `top_urls` the URLs of
    /// the first three sources (of a web search).
    pub fn after_result(&mut self, tool_name: &str, hits: usize, top_urls: Vec<String>) -> (r: SearchVerdict)
        requires
            old(self).consecutive_empty < u32::MAX,
            old(self).web_searches < u32::MAX,
            old(self).consecutive_duplicates < u32::MAX,
        ensures
            ({
                let s = guard_step(guard_view(*old(self)), tool_name@, hits as int, string_views(top_urls@));
                &&& guard_view(*final(self)) == s.0
                &&& r.note == s.1
                &&& r.result_again == s.2
            }),
    {
        let search = is_search_tool(tool_name);
        let nc = chars_of(tool_name);
        let doc = crate::text::eq_str(nc.as_slice(), "search_document");
        if !(search || doc) {
            return SearchVerdict { note: None, result_again: false };
        }
        if hits == 0 {
            self.consecutive_empty = self.consecutive_empty + 1;
            if self.consecutive_empty == 1 {
                return SearchVerdict { note: Some(SearchNote::FirstEmpty), result_again: false };
            } else if self.consecutive_empty == 2 {
                return SearchVerdict { note: Some(SearchNote::SecondEmpty), result_again: false };
            } else {
                return SearchVerdict { note: Some(SearchNote::LaterEmpty), result_again: true };
            }
        }
        self.consecutive_empty = 0;
        if !search {
            return SearchVerdict { note: None, result_again: false };
        }
        if top_urls.len() > 0 && same_strings(&top_urls, &self.last_urls) {
            self.consecutive_duplicates = self.consecutive_duplicates + 1;
            if self.consecutive_duplicates >= 2 {
                return SearchVerdict { note: Some(SearchNote::Repeated), result_again: false };
            }
        } else {
            self.consecutive_duplicates = 0;
            self.last_urls = top_urls;
        }
        self.web_searches = self.web_searches + 1;
        if self.web_searches >= 5 {
            SearchVerdict { note: Some(SearchNote::LimitReached), result_again: false }
        } else {
            SearchVerdict { note: None, result_again: false }
        }
    }
}

// ─── the tier after the second turn ─────────────────────────────

/// Wording by which an agent voices a suspicion.
pub open spec fn suspicious_phrases() -> Seq<&'static str> {
    seq!["可能存在", "值得深挖", "需要进一步", "不排除", "疑似", "涉嫌", "潜在风险", "值得关注", "需进一步核实"]
}

/// The tier after the second turn: an agent that voiced a suspicion takes a
/// low or medium clause to high (escalated); a high clause without any
/// suspicion goes down to medium; an escalation is never undone.
pub open spec fn tier_after(texts: Seq<Seq<char>>, current: RiskTier, escalated: bool) -> (RiskTier, bool) {
    if escalated {
        (current, true)
    } else {
        let sus = contains_any(join(texts, " "@), suspicious_phrases());
        match (current, sus) {
            (RiskTier::Low, true) => (RiskTier::High, true),
            (RiskTier::Medium, true) => (RiskTier::High, true),
            (RiskTier::High, false) => (RiskTier::Medium, false),
            _ => (current, false),
        }
    }
}

/// Decides the tier after the second turn from what the agent wrote so far
/// (its messages, in order).
pub fn check_tier_escalation(assistant_texts: &Vec<String>, current_tier: RiskTier, already_escalated: bool) -> (r: (RiskTier, bool))
    ensures
        r == tier_after(string_views(assistant_texts@), current_tier, already_escalated),
{
    if already_escalated {
        return (current_tier, true);
    }
    let combined = join_strings(assistant_texts, " ");
    let phrases: [&'static str; 9] = ["可能存在", "值得深挖", "需要进一步", "不排除", "疑似", "涉嫌", "潜在风险", "值得关注", "需进一步核实"];
    assert(phrases@ == suspicious_phrases());
    let sus = contains_any_exec(combined.as_slice(), &phrases);
    match (current_tier, sus) {
        (RiskTier::Low, true) => (RiskTier::High, true),
        (RiskTier::Medium, true) => (RiskTier::High, true),
        (RiskTier::High, false) => (RiskTier::Medium, false),
        _ => (current_tier, false),
    }
}

// ─── texts ──────────────────────────────────────────────────────

/// The review instruction for a clause of the given tier.
pub open spec fn tier_hint(t: RiskTier) -> Seq<char> {
    match t {
        RiskTier::Low => "【L1 - 快速扫描】此条款为格式/信息类，风险极低。请在 2-6 轮内提取关键事实、与阈值对照后输出结论（no_risk=true 或若有格式缺失则标记）。"@,
        RiskTier::Medium => "【L2 - 标准审查】请按标准流程审查：精读条款 → 搜索法规 → 搜索案例（如需要）→ 输出结论。"@,
        RiskTier::High => "【L3 - 深度审查】此条款含高风险关键词（品牌/地域/排他性），请深度审查：web_search(法规→案例) → search_document(跨条款联动) → read_section(精读确认) → 输出结论。"@,
    }
}

/// The prompt that hands a clause to an agent: the instruction for its tier,
/// its id, section path, pages (1-based) and text.
pub open spec fn clause_prompt(c: ReviewClause) -> Seq<char> {
    tier_hint(c.tier) + "\n\n【条款信息】\nchunk_id: "@ + c.chunk_id@ + "\n章节路径: "@ + join(string_views(c.section_path@), " > "@)
        + "\n页码: "@ + dec((c.page_start + 1) as nat) + "-"@ + dec((c.page_end + 1) as nat) + "\n\n【条款文本】\n"@ + c.text@
}

fn push_page(v: &mut Vec<char>, page: usize)
    requires
        page < usize::MAX,
    ensures
        final(v)@ == old(v)@ + dec((page + 1) as nat),
{
    let d = fmt_int_exec((page + 1) as i128, 0);
    assert(d@ == dec((page + 1) as nat));
    extend_chars(v, d.as_slice());
}

/// Builds the prompt that hands a clause to an agent.
pub fn format_clause_prompt(clause: &ReviewClause) -> (r: String)
    requires
        clause.page_start < usize::MAX,
        clause.page_end < usize::MAX,
    ensures
        r@ == clause_prompt(*clause),
{
    let mut v: Vec<char> = Vec::new();
    match clause.tier {
        RiskTier::Low => extend_str(&mut v, "【L1 - 快速扫描】此条款为格式/信息类，风险极低。请在 2-6 轮内提取关键事实、与阈值对照后输出结论（no_risk=true 或若有格式缺失则标记）。"),
        RiskTier::Medium => extend_str(&mut v, "【L2 - 标准审查】请按标准流程审查：精读条款 → 搜索法规 → 搜索案例（如需要）→ 输出结论。"),
        RiskTier::High => extend_str(&mut v, "【L3 - 深度审查】此条款含高风险关键词（品牌/地域/排他性），请深度审查：web_search(法规→案例) → search_document(跨条款联动) → read_section(精读确认) → 输出结论。"),
    }
    extend_str(&mut v, "\n\n【条款信息】\nchunk_id: ");
    extend_str(&mut v, clause.chunk_id.as_str());
    extend_str(&mut v, "\n章节路径: ");
    let path = join_strings(&clause.section_path, " > ");
    extend_chars(&mut v, path.as_slice());
    extend_str(&mut v, "\n页码: ");
    push_page(&mut v, clause.page_start);
    extend_str(&mut v, "-");
    push_page(&mut v, clause.page_end);
    extend_str(&mut v, "\n\n【条款文本】\n");
    extend_str(&mut v, clause.text.as_str());
    assert(v@ =~= clause_prompt(*clause));
    string_of(v.as_slice())
}

/// The summary of a review that ran out of turns.
pub open spec fn truncation_text(turn: int, max_turns: int, agent: Seq<char>, cid: Seq<char>) -> Seq<char> {
    "执行了 "@ + dec(turn as nat) + " 轮审查（上限 "@ + dec(max_turns as nat) + " 轮），Agent: "@ + agent + "，条款: "@ + cid
}

/// Describes a review that ran out of turns.
pub fn truncation_summary(turn: u32, max_turns: usize, agent_name: &str, chunk_id: &str) -> (r: String)
    ensures
        r@ == truncation_text(turn as int, max_turns as int, agent_name@, chunk_id@),
{
    let mut v: Vec<char> = Vec::new();
    extend_str(&mut v, "执行了 ");
    let t = fmt_int_exec(turn as i128, 0);
    extend_chars(&mut v, t.as_slice());
    extend_str(&mut v, " 轮审查（上限 ");
    let m = fmt_int_exec(max_turns as i128, 0);
    extend_chars(&mut v, m.as_slice());
    extend_str(&mut v, " 轮），Agent: ");
    extend_str(&mut v, agent_name);
    extend_str(&mut v, "，条款: ");
    extend_str(&mut v, chunk_id);
    assert(v@ =~= truncation_text(turn as int, max_turns as int, agent_name@, chunk_id@));
    string_of(v.as_slice())
}

// ─── citations ──────────────────────────────────────────────────

/// A citation as values: title, URL, site name.
pub type CiteView = (Seq<char>, Seq<char>, Seq<char>);

pub open spec fn cite_view(c: Citation) -> CiteView {
    (c.title@, c.url@, c.site_name@)
}

pub open spec fn cite_views(cs: Seq<Citation>) -> Seq<CiteView> {
    cs.map_values(|c: Citation| cite_view(c))
}

pub open spec fn urls_of(cs: Seq<CiteView>) -> Seq<Seq<char>> {
    cs.map_values(|c: CiteView| c.1)
}

/// The search sources as citations, in order: those with a URL, each URL
/// once (its first source).
pub open spec fn citations_of(srcs: Seq<CiteView>) -> Seq<CiteView>
    decreases srcs.len(),
{
    if srcs.len() == 0 {
        Seq::<CiteView>::empty()
    } else {
        let p = citations_of(srcs.drop_last());
        let s = srcs.last();
        if s.1.len() == 0 || urls_of(p).contains(s.1) { p } else { p.push(s) }
    }
}

fn seen_url(cs: &Vec<Citation>, url: &String) -> (r: bool)
    ensures
        r == urls_of(cite_views(cs@)).contains(url@),
{
    let mut i: usize = 0;
    while i < cs.len()
        invariant
            i <= cs@.len(),
            forall|k: int| 0 <= k < i ==> cs@[k].url@ != url@,
        decreases cs@.len() - i,
    {
        if cs[i].url == *url {
            assert(urls_of(cite_views(cs@))[i as int] == url@);
            return true;
        }
        i = i + 1;
    }
    proof {
        if urls_of(cite_views(cs@)).contains(url@) {
            let k = choose|k: int| 0 <= k < urls_of(cite_views(cs@)).len() && urls_of(cite_views(cs@))[k] == url@;
            assert(cs@[k].url@ == url@);
        }
    }
    false
}

/// The citations of a finding from the sources its searches returned (in
/// the order the searches ran): sources without a URL are skipped, and a URL
/// is cited once.
pub fn extract_citations(sources: &Vec<Citation>) -> (r: Vec<Citation>)
    ensures
        cite_views(r@) == citations_of(cite_views(sources@)),
{
    let mut out: Vec<Citation> = Vec::new();
    let mut i: usize = 0;
    while i < sources.len()
        invariant
            i <= sources@.len(),
            cite_views(out@) == citations_of(cite_views(sources@).subrange(0, i as int)),
        decreases sources@.len() - i,
    {
        let s = &sources[i];
        proof {
            let nxt = cite_views(sources@).subrange(0, i as int + 1);
            assert(nxt.drop_last() =~= cite_views(sources@).subrange(0, i as int));
            assert(nxt.last() == cite_view(*s));
        }
        if !s.url.as_str().is_empty() && !seen_url(&out, &s.url) {
            let ghost before = cite_views(out@);
            out.push(Citation { title: s.title.clone(), url: s.url.clone(), site_name: s.site_name.clone() });
            assert(cite_views(out@) =~= before.push(cite_view(*s)));
        }
        i = i + 1;
    }
    assert(cite_views(sources@).subrange(0, sources@.len() as int) =~= cite_views(sources@));
    out
}

/// One line of the source list: number, title, URL and site name when known.
pub open spec fn cite_line(k: int, c: CiteView) -> Seq<char> {
    "["@ + dec(k as nat) + "] "@ + c.0 + " — "@ + c.1 + if c.2.len() == 0 { Seq::<char>::empty() } else { " ("@ + c.2 + ")"@ }
}

pub open spec fn cite_lines(cs: Seq<CiteView>) -> Seq<Seq<char>> {
    Seq::new(cs.len(), |i: int| cite_line(i + 1, cs[i]))
}

/// A finding's reason with its search sources listed after it (unchanged
/// when there are none).
pub open spec fn cited_reason(reason: Seq<char>, cs: Seq<CiteView>) -> Seq<char> {
    if cs.len() == 0 {
        reason
    } else {
        reason + "\n\n📎 搜索来源:\n"@ + join(cite_lines(cs), "\n"@)
    }
}

/// Lists the search sources after a finding's reason.
pub fn cite_sources(reason: &str, citations: &Vec<Citation>) -> (r: String)
    ensures
        r@ == cited_reason(reason@, cite_views(citations@)),
{
    let ghost cs = cite_views(citations@);
    if citations.len() == 0 {
        let c = chars_of(reason);
        return string_of(c.as_slice());
    }
    let mut lines: Vec<String> = Vec::new();
    let mut i: usize = 0;
    while i < citations.len()
        invariant
            i <= citations@.len(),
            cs == cite_views(citations@),
            string_views(lines@) == cite_lines(cs).subrange(0, i as int),
        decreases citations@.len() - i,
    {
        let c = &citations[i];
        let mut v: Vec<char> = Vec::new();
        extend_str(&mut v, "[");
        let n = fmt_int_exec((i + 1) as i128, 0);
        extend_chars(&mut v, n.as_slice());
        extend_str(&mut v, "] ");
        extend_str(&mut v, c.title.as_str());
        extend_str(&mut v, " — ");
        extend_str(&mut v, c.url.as_str());
        if !c.site_name.as_str().is_empty() {
            extend_str(&mut v, " (");
            extend_str(&mut v, c.site_name.as_str());
            extend_str(&mut v, ")");
        }
        assert(v@ =~= cite_line(i + 1, cs[i as int]));
        let ghost before = string_views(lines@);
        lines.push(string_of(v.as_slice()));
        assert(string_views(lines@) =~= before.push(v@));
        assert(cite_lines(cs).subrange(0, i as int + 1) =~= cite_lines(cs).subrange(0, i as int).push(cite_line(i + 1, cs[i as int])));
        i = i + 1;
    }
    assert(cite_lines(cs).subrange(0, citations@.len() as int) =~= cite_lines(cs));
    let mut out = chars_of(reason);
    extend_str(&mut out, "\n\n📎 搜索来源:\n");
    let joined = join_strings(&lines, "\n");
    extend_chars(&mut out, joined.as_slice());
    string_of(out.as_slice())
}

} // verus!
