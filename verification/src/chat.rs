//! The interactive chat agent: its system prompt, with the project's review
//! configuration, the user's preferences and the current PDF selection; the
//! user message built around a selection; the tool choice of each turn; and
//! the check of a final answer against the document it cites.
use vstd::prelude::*;
use crate::api::TextSelection;
use crate::numbers::{dec, fmt_int_exec};
use crate::patterns::{group1s, opt_views, regex_group1s};
use crate::read_section::{lookup_chunk, Chunk};
use crate::text::{
    chars_of, contains, contains_chars, eq_str, extend_chars, extend_str, is_whitespace, is_ws, join,
    string_of, string_views, trim, trim_chars,
};
use crate::tools::ToolChoice;

verus! {

/// What `format!("{:?}", v)` prints for a list of strings.
pub uninterp spec fn debug_strings(v: Seq<Seq<char>>) -> Seq<char>;

/// Prints a list of strings with `{:?}`; the text is named by
/// `debug_strings`, a function of the strings alone.
#[verifier::external_body]
fn debug_list(v: &Vec<String>) -> (r: String)
    ensures
        r@ == debug_strings(string_views(v@)),
{
    format!("{:?}", v)
}

/// The parts of the chat agent that its prompts are made of.
pub struct ChatAgent {
    /// The agent's base system prompt.
    pub system_prompt: String,
    /// The project's review configuration (empty when there is none).
    pub project_config_content: String,
    /// The user's preferences (empty when there are none).
    pub user_preferences_content: String,
    /// The document's blocks that answers may cite, by block id (none: the
    /// citations are not checked).
    pub chunks: Option<Vec<Chunk>>,
}

/// The review configuration block of the system prompt.
pub open spec fn config_part(config: Seq<char>) -> Seq<char> {
    if config.len() == 0 {
        Seq::<char>::empty()
    } else {
        "\n\n── 项目审查配置 (review-config.md) ──\n"@ + config
    }
}

/// The preferences block of the system prompt.
pub open spec fn prefs_part(prefs: Seq<char>) -> Seq<char> {
    if prefs.len() == 0 {
        Seq::<char>::empty()
    } else {
        "\n\n── 用户偏好 (user-preferences.md) ──\n"@ + prefs
    }
}

/// The selection block of the system prompt: the page (1-based), the
/// selected text and the block ids.
pub open spec fn selection_part(sel: Option<TextSelection>) -> Seq<char> {
    match sel {
        None => Seq::<char>::empty(),
        Some(s) => "\n\n用户当前在 PDF 第 "@ + dec((s.page + 1) as nat) + " 页选中了以下文字:\n> "@ + s.text@
            + "\n(block_ids: "@ + debug_strings(string_views(s.block_ids@))
            + ")\n你可以在回答中引用 block_id 让前端渲染高亮。"@,
    }
}

/// The user message: the question as typed, or, with a selection, the page,
/// the selected text, the block ids and the question (a default question
/// when none was typed).
pub open spec fn user_message(sel: Option<TextSelection>, input: Seq<char>) -> Seq<char> {
    match sel {
        None => input,
        Some(s) => "用户在 PDF 第 "@ + dec((s.page + 1) as nat) + " 页选中了以下文字:\n> "@ + s.text@
            + "\n(block_ids: "@ + debug_strings(string_views(s.block_ids@)) + ")\n\n用户提问: "@
            + if input.len() == 0 { "请分析这段文字的合规性"@ } else { input },
    }
}

pub open spec fn page_fits(sel: Option<TextSelection>) -> bool {
    match sel {
        Some(s) => s.page < usize::MAX,
        None => true,
    }
}

/// The 1-based page number as text.
fn page_text(page: usize) -> (r: Vec<char>)
    requires
        page < usize::MAX,
    ensures
        r@ == dec((page + 1) as nat),
{
    let p = page + 1;
    let r = fmt_int_exec(p as i128, 0);
    assert(r@ == dec(p as nat));
    r
}

impl ChatAgent {
    /// A chat agent with the given base prompt, configuration, preferences
    /// and citable blocks.
    pub fn new(
        system_prompt: String,
        project_config_content: String,
        user_preferences_content: String,
        chunks: Option<Vec<Chunk>>,
    ) -> (r: Self)
        ensures
            r.system_prompt@ == system_prompt@,
            r.project_config_content@ == project_config_content@,
            r.user_preferences_content@ == user_preferences_content@,
            r.chunks == chunks,
    {
        ChatAgent { system_prompt, project_config_content, user_preferences_content, chunks }
    }

    /// The full system prompt: the base prompt, then the review
    /// configuration, the preferences and the selection, each when present.
    pub fn build_system_prompt(&self, selection: &Option<TextSelection>) -> (r: String)
        requires
            page_fits(*selection),
        ensures
            r@ == self.system_prompt@ + config_part(self.project_config_content@)
                + prefs_part(self.user_preferences_content@) + selection_part(*selection),
    {
        let mut out = chars_of(self.system_prompt.as_str());
        if !self.project_config_content.as_str().is_empty() {
            extend_str(&mut out, "\n\n── 项目审查配置 (review-config.md) ──\n");
            let c = chars_of(self.project_config_content.as_str());
            extend_chars(&mut out, c.as_slice());
        }
        let ghost after_config = out@;
        if !self.user_preferences_content.as_str().is_empty() {
            extend_str(&mut out, "\n\n── 用户偏好 (user-preferences.md) ──\n");
            let c = chars_of(self.user_preferences_content.as_str());
            extend_chars(&mut out, c.as_slice());
        }
        let ghost after_prefs = out@;
        match selection {
            Some(sel) => {
                extend_str(&mut out, "\n\n用户当前在 PDF 第 ");
                let p = page_text(sel.page);
                extend_chars(&mut out, p.as_slice());
                extend_str(&mut out, " 页选中了以下文字:\n> ");
                let t = chars_of(sel.text.as_str());
                extend_chars(&mut out, t.as_slice());
                extend_str(&mut out, "\n(block_ids: ");
                let d = debug_list(&sel.block_ids);
                let dc = chars_of(d.as_str());
                extend_chars(&mut out, dc.as_slice());
                extend_str(&mut out, ")\n你可以在回答中引用 block_id 让前端渲染高亮。");
                assert(out@ =~= after_prefs + selection_part(*selection));
            },
            None => {
                assert(out@ =~= after_prefs + selection_part(*selection));
            },
        }
        assert(after_config =~= self.system_prompt@ + config_part(self.project_config_content@));
        assert(after_prefs =~= after_config + prefs_part(self.user_preferences_content@));
        string_of(out.as_slice())
    }

    /// The user message for the given selection and input.
    pub fn build_user_message(&self, selection: &Option<TextSelection>, user_input: &str) -> (r: String)
        requires
            page_fits(*selection),
        ensures
            r@ == user_message(*selection, user_input@),
    {
        match selection {
            Some(sel) => {
                let mut out: Vec<char> = Vec::new();
                extend_str(&mut out, "用户在 PDF 第 ");
                let p = page_text(sel.page);
                extend_chars(&mut out, p.as_slice());
                extend_str(&mut out, " 页选中了以下文字:\n> ");
                let t = chars_of(sel.text.as_str());
                extend_chars(&mut out, t.as_slice());
                extend_str(&mut out, "\n(block_ids: ");
                let d = debug_list(&sel.block_ids);
                let dc = chars_of(d.as_str());
                extend_chars(&mut out, dc.as_slice());
                extend_str(&mut out, ")\n\n用户提问: ");
                if user_input.is_empty() {
                    extend_str(&mut out, "请分析这段文字的合规性");
                } else {
                    extend_str(&mut out, user_input);
                }
                assert(out@ =~= user_message(*selection, user_input@));
                string_of(out.as_slice())
            },
            None => {
                let c = chars_of(user_input);
                string_of(c.as_slice())
            },
        }
    }
}


// ─── the turns of a chat ────────────────────────────────────────

/// The tool choice of a chat turn (counted from 1): the first turn must call
/// some tool, the last must answer with `answer_user`, the others are free.
pub fn chat_tool_choice(turn: usize, max_turns: usize) -> (r: ToolChoice)
    ensures
        match r {
            ToolChoice::Required => turn == 1,
            ToolChoice::Specific { name } => turn != 1 && turn == max_turns && name@ == "answer_user"@,
            ToolChoice::Auto => turn != 1 && turn != max_turns,
        },
{
    if turn == 1 {
        ToolChoice::Required
    } else if turn == max_turns {
        ToolChoice::Specific { name: String::from_str("answer_user") }
    } else {
        ToolChoice::Auto
    }
}

// ─── checking an answer ─────────────────────────────────────────

/// A block id cited in an answer's text: `[b_<page>_<index>]`.
pub const BLOCK_REF_PATTERN: &'static str = r"\[(b_\d+_\d+)\]";

/// A reference that an answer lists: a block id and, when given, the
/// quoted text.
#[derive(Debug, Clone)]
pub struct AnswerReference {
    pub block_id: String,
    pub quote: Option<String>,
}

/// A block that an answer cites, for the front end to highlight.
#[derive(Debug, Clone)]
pub struct BlockRef {
    pub block_id: String,
    pub quote: String,
    pub snippet: String,
    pub page: usize,
}

/// The text with its whitespace removed (what joining the pieces of
/// `split_whitespace` gives).
pub open spec fn without_ws(s: Seq<char>) -> Seq<char>
    decreases s.len(),
{
    if s.len() == 0 {
        Seq::<char>::empty()
    } else if is_ws(s.last()) {
        without_ws(s.drop_last())
    } else {
        without_ws(s.drop_last()).push(s.last())
    }
}

/// A quote is found in a text as it stands, or once both lose their
/// whitespace.
pub open spec fn quote_found(text: Seq<char>, quote: Seq<char>) -> bool {
    contains(text, quote) || contains(without_ws(text), without_ws(quote))
}

/// The warning for one listed reference: its block does not exist, or its
/// (non-empty) quote is not found in the block's text.
pub open spec fn reference_warning(chunks: Seq<Chunk>, r: AnswerReference) -> Option<Seq<char>> {
    match lookup_chunk(chunks, r.block_id@) {
        None => Some("⚠️ 引用的 block_id '"@ + r.block_id@ + "' 在文档中不存在，可能是 LLM 编造的"@),
        Some(c) => match r.quote {
            Some(q) => if q@.len() > 0 && !quote_found(c.text@, q@) {
                Some("⚠️ 对 ["@ + r.block_id@ + "] 的引用文字在原文中未找到精确匹配，请人工核实"@)
            } else {
                None
            },
            None => None,
        },
    }
}

/// The warnings for the listed references, in order.
pub open spec fn reference_warnings(chunks: Seq<Chunk>, refs: Seq<AnswerReference>) -> Seq<Seq<char>>
    decreases refs.len(),
{
    if refs.len() == 0 {
        Seq::<Seq<char>>::empty()
    } else {
        let p = reference_warnings(chunks, refs.drop_last());
        match reference_warning(chunks, refs.last()) {
            Some(w) => p.push(w),
            None => p,
        }
    }
}

pub open spec fn chunks_view(chunks: Option<Vec<Chunk>>) -> Option<Seq<Chunk>> {
    match chunks {
        Some(v) => Some(v@),
        None => None,
    }
}

/// The answer, followed by the warnings about its references when there are
/// blocks to check them against and some warning.
pub open spec fn checked_answer(chunks: Option<Seq<Chunk>>, answer: Seq<char>, refs: Seq<AnswerReference>) -> Seq<char> {
    let w = match chunks {
        Some(cs) => reference_warnings(cs, refs),
        None => Seq::<Seq<char>>::empty(),
    };
    if w.len() == 0 {
        answer
    } else {
        answer + "\n\n── 系统验证警告 ──\n"@ + join(w, "\n"@)
    }
}

/// The block ids cited in a text, each with no quote.
pub open spec fn cited_ids(gs: Seq<Option<Seq<char>>>) -> Seq<(Seq<char>, Seq<char>)>
    decreases gs.len(),
{
    if gs.len() == 0 {
        Seq::<(Seq<char>, Seq<char>)>::empty()
    } else {
        let p = cited_ids(gs.drop_last());
        match gs.last() {
            Some(id) => p.push((id, Seq::<char>::empty())),
            None => p,
        }
    }
}

/// The listed references as block ids with their quotes (empty when none).
pub open spec fn listed_refs(refs: Seq<AnswerReference>) -> Seq<(Seq<char>, Seq<char>)> {
    refs.map_values(|r: AnswerReference| (r.block_id@, match r.quote {
        Some(q) => q@,
        None => Seq::<char>::empty(),
    }))
}

pub open spec fn pair_ids(ps: Seq<(Seq<char>, Seq<char>)>) -> Seq<Seq<char>> {
    ps.map_values(|p: (Seq<char>, Seq<char>)| p.0)
}

/// The first entry for each block id, in order.
pub open spec fn first_by_id(ps: Seq<(Seq<char>, Seq<char>)>) -> Seq<(Seq<char>, Seq<char>)>
    decreases ps.len(),
{
    if ps.len() == 0 {
        Seq::<(Seq<char>, Seq<char>)>::empty()
    } else {
        let p = first_by_id(ps.drop_last());
        if pair_ids(p).contains(ps.last().0) {
            p
        } else {
            p.push(ps.last())
        }
    }
}

pub open spec fn ref_views(v: Seq<BlockRef>) -> Seq<(Seq<char>, Seq<char>)> {
    v.map_values(|b: BlockRef| (b.block_id@, b.quote@))
}

/// The text without its whitespace.
fn remove_ws(s: &[char]) -> (r: Vec<char>)
    ensures
        r@ == without_ws(s@),
{
    let mut out: Vec<char> = Vec::new();
    let mut i: usize = 0;
    while i < s.len()
        invariant
            i <= s@.len(),
            out@ == without_ws(s@.subrange(0, i as int)),
        decreases s@.len() - i,
    {
        assert(s@.subrange(0, i as int + 1).drop_last() =~= s@.subrange(0, i as int));
        if !is_whitespace(s[i]) {
            out.push(s[i]);
        }
        i = i + 1;
    }
    assert(s@.subrange(0, s@.len() as int) =~= s@);
    out
}

/// The warning for one listed reference.
fn warning_for(chunks: &Vec<Chunk>, r: &AnswerReference) -> (w: Option<String>)
    ensures
        match w {
            Some(x) => reference_warning(chunks@, *r) == Some(x@),
            None => reference_warning(chunks@, *r) is None,
        },
{
    match crate::read_section::chunk_position(chunks, r.block_id.as_str()) {
        None => {
            let mut m: Vec<char> = Vec::new();
            extend_str(&mut m, "⚠️ 引用的 block_id '");
            extend_str(&mut m, r.block_id.as_str());
            extend_str(&mut m, "' 在文档中不存在，可能是 LLM 编造的");
            Some(string_of(m.as_slice()))
        },
        Some(i) => match &r.quote {
            Some(q) => {
                if q.as_str().is_empty() {
                    return None;
                }
                let t = chars_of(chunks[i].text.as_str());
                let qc = chars_of(q.as_str());
                if contains_chars(t.as_slice(), qc.as_slice()) {
                    return None;
                }
                let nt = remove_ws(t.as_slice());
                let nq = remove_ws(qc.as_slice());
                if contains_chars(nt.as_slice(), nq.as_slice()) {
                    return None;
                }
                let mut m: Vec<char> = Vec::new();
                extend_str(&mut m, "⚠️ 对 [");
                extend_str(&mut m, r.block_id.as_str());
                extend_str(&mut m, "] 的引用文字在原文中未找到精确匹配，请人工核实");
                Some(string_of(m.as_slice()))
            },
            None => None,
        },
    }
}

/// Whether some block reference has this id.
fn has_ref_id(v: &Vec<BlockRef>, id: &str) -> (r: bool)
    ensures
        r == pair_ids(ref_views(v@)).contains(id@),
{
    let mut k: usize = 0;
    while k < v.len()
        invariant
            k <= v@.len(),
            forall|j: int| 0 <= j < k ==> v@[j].block_id@ != id@,
        decreases v@.len() - k,
    {
        let c = chars_of(v[k].block_id.as_str());
        if eq_str(c.as_slice(), id) {
            assert(pair_ids(ref_views(v@))[k as int] == id@);
            return true;
        }
        k = k + 1;
    }
    assert forall|j: int| 0 <= j < pair_ids(ref_views(v@)).len() implies pair_ids(ref_views(v@))[j] != id@ by {
        assert(pair_ids(ref_views(v@))[j] == v@[j].block_id@);
    }
    false
}

/// Adds a reference unless one with its id is there already.
fn add_ref(out: &mut Vec<BlockRef>, id: &String, quote: String)
    requires
        forall|k: int| 0 <= k < old(out)@.len() ==> (#[trigger] old(out)@[k]).snippet@.len() == 0 && old(out)@[k].page == 0,
    ensures
        ref_views(final(out)@) == if pair_ids(ref_views(old(out)@)).contains(id@) {
            ref_views(old(out)@)
        } else {
            ref_views(old(out)@).push((id@, quote@))
        },
        forall|k: int| 0 <= k < final(out)@.len() ==> (#[trigger] final(out)@[k]).snippet@.len() == 0 && final(out)@[k].page == 0,
{
    if !has_ref_id(out, id.as_str()) {
        let b = BlockRef { block_id: id.clone(), quote, snippet: String::new(), page: 0 };
        let ghost before = ref_views(out@);
        out.push(b);
        assert(ref_views(out@) =~= before.push((id@, quote@)));
    }
}

impl ChatAgent {
    /// Checks a final answer against the document: each listed reference to
    /// a block that does not exist, or whose quote is not in the block (also
    /// once whitespace is ignored), adds a warning after the answer. Then
    /// collects the cited blocks: those written `[b_..]` in the checked
    /// answer, then the listed ones, each id once.
    pub fn check_answer(&self, answer: &str, references: &Vec<AnswerReference>) -> (r: (String, Vec<BlockRef>))
        ensures
            r.0@ == checked_answer(chunks_view(self.chunks), answer@, references@),
            ref_views(r.1@) == first_by_id(cited_ids(regex_group1s(BLOCK_REF_PATTERN@, r.0@)) + listed_refs(references@)),
            forall|k: int| 0 <= k < r.1@.len() ==> (#[trigger] r.1@[k]).snippet@.len() == 0 && r.1@[k].page == 0,
    {
        let mut warnings: Vec<String> = Vec::new();
        match &self.chunks {
            Some(cs) => {
                let mut k: usize = 0;
                while k < references.len()
                    invariant
                        k <= references@.len(),
                        string_views(warnings@) == reference_warnings(cs@, references@.subrange(0, k as int)),
                    decreases references@.len() - k,
                {
                    assert(references@.subrange(0, k as int + 1).drop_last() =~= references@.subrange(0, k as int));
                    match warning_for(cs, &references[k]) {
                        Some(w) => {
                            let ghost before = string_views(warnings@);
                            warnings.push(w);
                            assert(string_views(warnings@) =~= before.push(w@));
                        },
                        None => {},
                    }
                    k = k + 1;
                }
                assert(references@.subrange(0, references@.len() as int) =~= references@);
            },
            None => {},
        }
        let mut text = chars_of(answer);
        if warnings.len() > 0 {
            extend_str(&mut text, "\n\n── 系统验证警告 ──\n");
            let joined = crate::text::join_strings(&warnings, "\n");
            extend_chars(&mut text, joined.as_slice());
        }
        let checked = string_of(text.as_slice());

        let groups = group1s(BLOCK_REF_PATTERN, checked.as_str());
        let ghost gv = opt_views(groups@);
        let mut out: Vec<BlockRef> = Vec::new();
        let mut i: usize = 0;
        while i < groups.len()
            invariant
                i <= groups@.len(),
                gv == opt_views(groups@),
                ref_views(out@) == first_by_id(cited_ids(gv.subrange(0, i as int))),
                forall|k: int| 0 <= k < out@.len() ==> (#[trigger] out@[k]).snippet@.len() == 0 && out@[k].page == 0,
            decreases groups@.len() - i,
        {
            let ghost sub = gv.subrange(0, i as int);
            assert(gv.subrange(0, i as int + 1).drop_last() =~= sub);
            match &groups[i] {
                Some(id) => {
                    assert(cited_ids(gv.subrange(0, i as int + 1)) == cited_ids(sub).push((id@, Seq::<char>::empty())));
                    assert(cited_ids(sub).push((id@, Seq::<char>::empty())).drop_last() =~= cited_ids(sub));
                    add_ref(&mut out, id, String::new());
                },
                None => {
                    assert(cited_ids(gv.subrange(0, i as int + 1)) == cited_ids(sub));
                },
            }
            i = i + 1;
        }
        assert(gv.subrange(0, gv.len() as int) =~= gv);
        let ghost cited = cited_ids(gv);
        let mut k: usize = 0;
        while k < references.len()
            invariant
                k <= references@.len(),
                ref_views(out@) == first_by_id(cited + listed_refs(references@.subrange(0, k as int))),
                forall|j: int| 0 <= j < out@.len() ==> (#[trigger] out@[j]).snippet@.len() == 0 && out@[j].page == 0,
            decreases references@.len() - k,
        {
            let ghost prev = cited + listed_refs(references@.subrange(0, k as int));
            let quote = match &references[k].quote {
                Some(q) => q.clone(),
                None => String::new(),
            };
            assert(listed_refs(references@.subrange(0, k as int + 1))
                =~= listed_refs(references@.subrange(0, k as int)).push((references@[k as int].block_id@, quote@)));
            assert(cited + listed_refs(references@.subrange(0, k as int + 1)) =~= prev.push((references@[k as int].block_id@, quote@)));
            assert(prev.push((references@[k as int].block_id@, quote@)).drop_last() =~= prev);
            add_ref(&mut out, &references[k].block_id, quote);
            k = k + 1;
        }
        assert(references@.subrange(0, references@.len() as int) =~= references@);
        (checked, out)
    }
}


// ─── searching the document for a question ──────────────────────

/// The text searched for a question: the selected text and the question
/// joined by a space, or whichever of them is not empty.
pub open spec fn search_text(selection: Option<TextSelection>, input: Seq<char>) -> Seq<char> {
    match selection {
        Some(s) => if s.text@.len() > 0 && input.len() > 0 {
            s.text@ + " "@ + input
        } else if s.text@.len() > 0 {
            s.text@
        } else {
            input
        },
        None => input,
    }
}

/// The query searched before a question is answered: the search text
/// trimmed, unless that is shorter than three characters (a greeting, a
/// thank-you), when nothing is searched.
pub open spec fn rag_query_of(selection: Option<TextSelection>, input: Seq<char>) -> Option<Seq<char>> {
    let t = trim(search_text(selection, input));
    if t.len() < 3 { None } else { Some(t) }
}

impl ChatAgent {
    /// The query to search the document with before answering, if any.
    pub fn rag_query(&self, selection: &Option<TextSelection>, user_input: &str) -> (r: Option<String>)
        ensures
            match r {
                Some(q) => rag_query_of(*selection, user_input@) == Some(q@),
                None => rag_query_of(*selection, user_input@) is None,
            },
    {
        let mut q: Vec<char> = Vec::new();
        match selection {
            Some(sel) => {
                if !sel.text.as_str().is_empty() {
                    extend_str(&mut q, sel.text.as_str());
                    if !user_input.is_empty() {
                        extend_str(&mut q, " ");
                        extend_str(&mut q, user_input);
                    }
                } else {
                    extend_str(&mut q, user_input);
                }
            },
            None => {
                extend_str(&mut q, user_input);
            },
        }
        assert(q@ =~= search_text(*selection, user_input@));
        let t = trim_chars(q.as_slice());
        if t.len() < 3 {
            None
        } else {
            Some(string_of(t.as_slice()))
        }
    }
}


// ─── the chat loop ──────────────────────────────────────────────

/// What happened on the last model call of a chat.
pub enum ChatEvent {
    /// The call failed with this error.
    ModelFailed { error: String },
    /// The reply called `answer_user`.
    AnsweredUser,
    /// Another reply: whether it has text, and whether it called tools.
    Replied { has_content: bool, has_tool_calls: bool },
}

/// What to do next in a chat.
pub enum ChatAction {
    /// Run the last reply's tool calls when `run_tools`, then call the model
    /// with this choice.
    CallModel { run_tools: bool, choice: ToolChoice },
    /// Answer with the arguments of the `answer_user` call.
    AnswerFromCall,
    /// Answer with the reply's text.
    AnswerFromText,
    /// Answer with this text and suggestion: the call failed, or no turn is
    /// left (after running the last reply's tool calls when `run_tools`).
    GiveUp { run_tools: bool, answer: String, suggestion: String },
}

/// The turn under way and the turn limit.
pub struct ChatState {
    pub turn: usize,
    pub max_turns: usize,
}

pub enum ChatEventView {
    ModelFailed(Seq<char>),
    AnsweredUser,
    Replied(bool, bool),
}

pub enum ChatActionView {
    CallModel(bool, (int, Seq<char>)),
    AnswerFromCall,
    AnswerFromText,
    GiveUp(bool, Seq<char>, Seq<char>),
}

pub open spec fn chat_event_view(e: ChatEvent) -> ChatEventView {
    match e {
        ChatEvent::ModelFailed { error } => ChatEventView::ModelFailed(error@),
        ChatEvent::AnsweredUser => ChatEventView::AnsweredUser,
        ChatEvent::Replied { has_content, has_tool_calls } => ChatEventView::Replied(has_content, has_tool_calls),
    }
}

pub open spec fn tool_choice_view(c: ToolChoice) -> (int, Seq<char>) {
    match c {
        ToolChoice::Auto => (0, Seq::<char>::empty()),
        ToolChoice::Required => (1, Seq::<char>::empty()),
        ToolChoice::Specific { name } => (2, name@),
    }
}

pub open spec fn chat_action_view(a: ChatAction) -> ChatActionView {
    match a {
        ChatAction::CallModel { run_tools, choice } => ChatActionView::CallModel(run_tools, tool_choice_view(choice)),
        ChatAction::AnswerFromCall => ChatActionView::AnswerFromCall,
        ChatAction::AnswerFromText => ChatActionView::AnswerFromText,
        ChatAction::GiveUp { run_tools, answer, suggestion } => ChatActionView::GiveUp(run_tools, answer@, suggestion@),
    }
}

/// The tool choice of turn `t` of `m`: some tool on the first, `answer_user`
/// on the last, free otherwise.
pub open spec fn chat_choice(t: int, m: int) -> (int, Seq<char>) {
    if t == 1 {
        (1, Seq::<char>::empty())
    } else if t == m {
        (2, "answer_user"@)
    } else {
        (0, Seq::<char>::empty())
    }
}

pub open spec fn out_of_turns(run_tools: bool) -> ChatActionView {
    ChatActionView::GiveUp(run_tools, "抱歉，我在审查该问题时达到了分析上限。请尝试用更具体的问题重新提问。"@,
        "尝试将问题拆分为更小的子问题"@)
}

/// The first turn of a chat allowed `m` turns.
pub open spec fn chat_start_spec(m: usize) -> ((usize, usize), ChatActionView) {
    if m >= 1 {
        ((1usize, m), ChatActionView::CallModel(false, chat_choice(1, m as int)))
    } else {
        ((0usize, m), out_of_turns(false))
    }
}

/// The next step of a chat after an event.
pub open spec fn chat_step_spec(s: (usize, usize), ev: ChatEventView) -> ((usize, usize), ChatActionView) {
    match ev {
        ChatEventView::ModelFailed(e) => (s, ChatActionView::GiveUp(false, "抱歉，LLM 调用失败: "@ + e, "检查 API 配置后重试"@)),
        ChatEventView::AnsweredUser => (s, ChatActionView::AnswerFromCall),
        ChatEventView::Replied(c, t) => if c && !t {
            (s, ChatActionView::AnswerFromText)
        } else if s.0 < s.1 {
            (((s.0 + 1) as usize, s.1), ChatActionView::CallModel(t, chat_choice(s.0 + 1, s.1 as int)))
        } else {
            (s, out_of_turns(t))
        },
    }
}

fn give_up_out_of_turns(run_tools: bool) -> (r: ChatAction)
    ensures
        chat_action_view(r) == out_of_turns(run_tools),
{
    ChatAction::GiveUp {
        run_tools,
        answer: String::from_str("抱歉，我在审查该问题时达到了分析上限。请尝试用更具体的问题重新提问。"),
        suggestion: String::from_str("尝试将问题拆分为更小的子问题"),
    }
}

/// Starts a chat allowed `max_turns` turns.
pub fn chat_start(max_turns: usize) -> (r: (ChatState, ChatAction))
    ensures
        ((r.0.turn, r.0.max_turns), chat_action_view(r.1)) == chat_start_spec(max_turns),
{
    if max_turns >= 1 {
        let c = chat_tool_choice(1, max_turns);
        (ChatState { turn: 1, max_turns }, ChatAction::CallModel { run_tools: false, choice: c })
    } else {
        (ChatState { turn: 0, max_turns }, give_up_out_of_turns(false))
    }
}

/// One step of a chat: the next state and what to do after an event.
pub fn chat_step(s: &ChatState, ev: ChatEvent) -> (r: (ChatState, ChatAction))
    ensures
        ((r.0.turn, r.0.max_turns), chat_action_view(r.1)) == chat_step_spec((s.turn, s.max_turns), chat_event_view(ev)),
{
    match ev {
        ChatEvent::ModelFailed { error } => {
            let mut t: Vec<char> = Vec::new();
            extend_str(&mut t, "抱歉，LLM 调用失败: ");
            extend_str(&mut t, error.as_str());
            let a = ChatAction::GiveUp { run_tools: false, answer: string_of(t.as_slice()), suggestion: String::from_str("检查 API 配置后重试") };
            (ChatState { turn: s.turn, max_turns: s.max_turns }, a)
        },
        ChatEvent::AnsweredUser => (ChatState { turn: s.turn, max_turns: s.max_turns }, ChatAction::AnswerFromCall),
        ChatEvent::Replied { has_content, has_tool_calls } => {
            if has_content && !has_tool_calls {
                (ChatState { turn: s.turn, max_turns: s.max_turns }, ChatAction::AnswerFromText)
            } else if s.turn < s.max_turns {
                let t = s.turn + 1;
                let c = chat_tool_choice(t, s.max_turns);
                (ChatState { turn: t, max_turns: s.max_turns }, ChatAction::CallModel { run_tools: has_tool_calls, choice: c })
            } else {
                (ChatState { turn: s.turn, max_turns: s.max_turns }, give_up_out_of_turns(has_tool_calls))
            }
        },
    }
}

} // verus!
