//! The clause review loop as a state machine. The caller calls the model
//! and runs the tools; after each of these it reports what happened, and
//! `review_step` answers with the next state and what to do next: call the
//! model (with the messages to add first and the tool choice), run the
//! reply's tools, complete a parsed finding, or return a finding that the
//! loop writes itself (a failed model call, a review out of turns).
use vstd::prelude::*;
use crate::legal_verify::{head500, head500_exec};
use crate::review_loop::{budget_note, check_tier_escalation, note_view, tier_after, truncation_summary, truncation_text, turn_directive};
use crate::routing::{clause_view, copy_clause, ClauseView};
use crate::text::{copy_strings, extend_str, string_of, string_views};
use crate::tools::ToolChoice;
use crate::types::{ReviewClause, RiskSeverity, RiskTier};

verus! {

// ─── what the caller reports and is told ────────────────────────

/// What happened since the last step.
pub enum LoopEvent {
    /// The model call failed with this error.
    ModelFailed { error: String },
    /// The reply called `output_finding` with arguments that parse.
    FindingParsed,
    /// The reply called `output_finding` with arguments that do not parse.
    FindingUnparsed { error: String },
    /// The reply called no tool.
    NoToolCalls,
    /// The reply called tools (and not `output_finding`).
    ToolCallsMade,
    /// The tools ran; the texts of the agent's messages so far, in order.
    ToolsRan { assistant_texts: Vec<String> },
}

/// A message to add to the conversation.
pub enum LoopMessage {
    System(String),
    User(String),
    Tool { tool_call_id: String, content: String },
    /// The model's last reply, as it came.
    Reply,
}

/// A finding that the loop writes itself. Its confidence is not among its
/// fields: the caller sets 0.0 for a failed model call and 0.3 for a review
/// out of turns.
#[derive(Debug, Clone)]
pub struct LoopFinding {
    pub risk_id: String,
    pub clause_ids: Vec<String>,
    pub agent: String,
    pub no_risk: bool,
    pub severity: RiskSeverity,
    pub risk_type: String,
    pub reason: String,
    pub suggestion: String,
    pub initial_tier: RiskTier,
    pub final_tier: RiskTier,
    pub tier_escalated: bool,
    pub truncated: bool,
}

/// The fields the loop sets on a finding that the model output: the rest
/// is the model's.
#[derive(Debug, Clone)]
pub struct FindingCompletion {
    pub risk_id: String,
    pub clause_ids: Vec<String>,
    pub agent: String,
    pub initial_tier: RiskTier,
    pub final_tier: RiskTier,
    pub tier_escalated: bool,
    /// 1-based page of the clause.
    pub page_number: usize,
    pub section_path: Vec<String>,
    /// The first 500 characters of the clause text.
    pub context: String,
}

/// What to do next.
pub enum LoopAction {
    /// Add the messages, then call the model with this tool choice.
    CallModel { messages: Vec<LoopMessage>, choice: ToolChoice },
    /// Add the reply to the conversation and run its tool calls.
    RunTools,
    /// Set these fields on the parsed finding and return it.
    Complete(FindingCompletion),
    /// Return this finding.
    Conclude(LoopFinding),
}

/// The state of one clause review.
pub struct LoopState {
    pub risk_id: String,
    pub agent: String,
    pub clause: ReviewClause,
    /// The turn limit as the loop counts it.
    pub limit: u32,
    /// The clause's turn budget.
    pub max_turns: usize,
    /// Turns started so far.
    pub turn: u32,
    pub tier: RiskTier,
    pub escalated: bool,
}

// ─── views ──────────────────────────────────────────────────────

pub enum EventView {
    ModelFailed(Seq<char>),
    FindingParsed,
    FindingUnparsed(Seq<char>),
    NoToolCalls,
    ToolCallsMade,
    ToolsRan(Seq<Seq<char>>),
}

pub enum MessageView {
    System(Seq<char>),
    User(Seq<char>),
    Tool(Seq<char>, Seq<char>),
    Reply,
}

/// Risk id, clause ids, agent, no risk, severity, risk type, reason,
/// suggestion, initial tier, final tier, escalated, truncated.
pub type FindingView = (
    Seq<char>, Seq<Seq<char>>, Seq<char>, bool, RiskSeverity, Seq<char>, Seq<char>, Seq<char>,
    RiskTier, RiskTier, bool, bool,
);

/// Risk id, clause ids, agent, initial tier, final tier, escalated, page,
/// section path, context.
pub type CompletionView = (Seq<char>, Seq<Seq<char>>, Seq<char>, RiskTier, RiskTier, bool, usize, Seq<Seq<char>>, Seq<char>);

pub enum ActionView {
    CallModel(Seq<MessageView>, (int, Seq<char>)),
    RunTools,
    Complete(CompletionView),
    Conclude(FindingView),
}

/// Risk id, agent, clause, limit, turn budget, turn, tier, escalated.
pub type StateView = (Seq<char>, Seq<char>, ClauseView, u32, usize, u32, RiskTier, bool);

pub open spec fn event_view(e: LoopEvent) -> EventView {
    match e {
        LoopEvent::ModelFailed { error } => EventView::ModelFailed(error@),
        LoopEvent::FindingParsed => EventView::FindingParsed,
        LoopEvent::FindingUnparsed { error } => EventView::FindingUnparsed(error@),
        LoopEvent::NoToolCalls => EventView::NoToolCalls,
        LoopEvent::ToolCallsMade => EventView::ToolCallsMade,
        LoopEvent::ToolsRan { assistant_texts } => EventView::ToolsRan(string_views(assistant_texts@)),
    }
}

pub open spec fn message_view(m: LoopMessage) -> MessageView {
    match m {
        LoopMessage::System(s) => MessageView::System(s@),
        LoopMessage::User(s) => MessageView::User(s@),
        LoopMessage::Tool { tool_call_id, content } => MessageView::Tool(tool_call_id@, content@),
        LoopMessage::Reply => MessageView::Reply,
    }
}

pub open spec fn messages_view(ms: Seq<LoopMessage>) -> Seq<MessageView> {
    ms.map_values(|m: LoopMessage| message_view(m))
}

/// A tool choice as a code (0 free, 1 some tool, 2 this tool) and a name.
pub open spec fn choice_view(c: ToolChoice) -> (int, Seq<char>) {
    match c {
        ToolChoice::Auto => (0, Seq::<char>::empty()),
        ToolChoice::Required => (1, Seq::<char>::empty()),
        ToolChoice::Specific { name } => (2, name@),
    }
}

pub open spec fn finding_view(f: LoopFinding) -> FindingView {
    (f.risk_id@, string_views(f.clause_ids@), f.agent@, f.no_risk, f.severity, f.risk_type@, f.reason@, f.suggestion@,
        f.initial_tier, f.final_tier, f.tier_escalated, f.truncated)
}

pub open spec fn completion_view(c: FindingCompletion) -> CompletionView {
    (c.risk_id@, string_views(c.clause_ids@), c.agent@, c.initial_tier, c.final_tier, c.tier_escalated, c.page_number,
        string_views(c.section_path@), c.context@)
}

pub open spec fn action_view(a: LoopAction) -> ActionView {
    match a {
        LoopAction::CallModel { messages, choice } => ActionView::CallModel(messages_view(messages@), choice_view(choice)),
        LoopAction::RunTools => ActionView::RunTools,
        LoopAction::Complete(c) => ActionView::Complete(completion_view(c)),
        LoopAction::Conclude(f) => ActionView::Conclude(finding_view(f)),
    }
}

pub open spec fn state_view(s: LoopState) -> StateView {
    (s.risk_id@, s.agent@, clause_view(s.clause), s.limit, s.max_turns, s.turn, s.tier, s.escalated)
}

// ─── the rules ──────────────────────────────────────────────────

/// The tool choice of a turn after which `rem` turns are left: the last
/// turn must call `output_finding`, the one before must call some tool.
pub open spec fn directive_choice(rem: int) -> (int, Seq<char>) {
    if rem <= 1 {
        (2, "output_finding"@)
    } else if rem == 2 {
        (1, Seq::<char>::empty())
    } else {
        (0, Seq::<char>::empty())
    }
}

pub open spec fn continue_text() -> Seq<char> {
    "请继续审查——调用工具搜索证据或输出结论。如果证据已充分，请调用 output_finding。"@
}

pub open spec fn parse_error_text(e: Seq<char>) -> Seq<char> {
    "output_finding 参数解析错误: "@ + e
        + "\n请检查是否包含全部 8 个必填字段:\nno_risk, severity, risk_type, source_quote,\nlegal_basis, reason, suggestion, confidence\nlegal_basis 必须是数组（即使为空写 []）。\nclause_ids 必须是字符串数组，如 [\"ch_000\"]。\n请修正后重新调用 output_finding。"@
}

/// The finding of a review that ran out of turns.
pub open spec fn truncated_view(
    risk_id: Seq<char>,
    clause_id: Seq<char>,
    agent: Seq<char>,
    initial: RiskTier,
    fin: RiskTier,
    summary: Seq<char>,
) -> FindingView {
    (risk_id, seq![clause_id], agent, true, RiskSeverity::Info, "审查截断"@,
        "max_turns 耗尽，审查不完整。已完成的审查步骤："@ + summary, "建议人工复核此条款。"@, initial, fin, false, true)
}

/// The finding of a review whose model call failed with error `e`.
pub open spec fn failed_view(s: StateView, e: Seq<char>) -> FindingView {
    (s.0, seq![s.2.0], s.1, true, RiskSeverity::Info, "LLM调用失败"@, "LLM API 调用失败: "@ + e,
        "请检查 API 配置后重试。"@, s.2.5, s.6, s.7, false)
}

/// The fields set on a parsed finding.
pub open spec fn completion_of(s: StateView) -> CompletionView {
    (s.0, seq![s.2.0], s.1, s.2.5, s.6, s.7, (s.2.3 + 1) as usize, s.2.1, head500(s.2.2))
}

pub open spec fn with_turn(s: StateView, t: u32) -> StateView {
    (s.0, s.1, s.2, s.3, s.4, t, s.6, s.7)
}

/// The next turn after the messages `msgs`: a model call with the turn's
/// budget note and tool choice, or, when no turn is left, the truncated
/// finding.
pub open spec fn next_turn(s: StateView, msgs: Seq<MessageView>) -> (StateView, ActionView) {
    if s.5 < s.3 {
        let t = (s.5 + 1) as u32;
        let rem = s.3 - t;
        let m = match budget_note(rem, s.2.0) {
            Some(n) => msgs.push(MessageView::System(n)),
            None => msgs,
        };
        (with_turn(s, t), ActionView::CallModel(m, directive_choice(rem)))
    } else {
        (s, ActionView::Conclude(truncated_view(s.0, s.2.0, s.1, s.2.5, s.6, truncation_text(s.5 as int, s.4 as int, s.1, s.2.0))))
    }
}

/// The step of the loop on an event.
pub open spec fn step_spec(s: StateView, ev: EventView) -> (StateView, ActionView) {
    match ev {
        EventView::ModelFailed(e) => (s, ActionView::Conclude(failed_view(s, e))),
        EventView::FindingParsed => (s, ActionView::Complete(completion_of(s))),
        EventView::FindingUnparsed(e) => next_turn(s, seq![MessageView::Tool("output_finding"@, parse_error_text(e))]),
        EventView::NoToolCalls => next_turn(s, seq![MessageView::Reply, MessageView::User(continue_text())]),
        EventView::ToolCallsMade => (s, ActionView::RunTools),
        EventView::ToolsRan(texts) => {
            let s2 = if s.5 == 2 {
                let e = tier_after(texts, s.2.5, s.7);
                (s.0, s.1, s.2, s.3, s.4, s.5, e.0, e.1)
            } else {
                s
            };
            next_turn(s2, Seq::<MessageView>::empty())
        },
    }
}

/// The turn budget of a clause for an agent: the clause's, capped by the
/// agent's default.
pub open spec fn budget_of(c: ReviewClause, agent_default: usize) -> usize {
    if c.tier_max_turns <= agent_default { c.tier_max_turns } else { agent_default }
}

/// The start of a review: no turn yet, the clause's tier, then the first
/// turn.
pub open spec fn start_spec(c: ReviewClause, agent: Seq<char>, risk_id: Seq<char>, agent_default: usize) -> (StateView, ActionView) {
    let m = budget_of(c, agent_default);
    next_turn((risk_id, agent, clause_view(c), m as u32, m, 0u32, c.tier, false), Seq::<MessageView>::empty())
}

// ─── the loop's own findings ────────────────────────────────────

/// The finding of a review that ran out of turns: no risk, severity info,
/// type 审查截断, the summary in the reason, marked truncated and not
/// escalated.
pub fn truncated_finding(
    risk_id: &str,
    clause_id: &str,
    agent: &str,
    initial_tier: RiskTier,
    final_tier: RiskTier,
    conversation_summary: &str,
) -> (r: LoopFinding)
    ensures
        finding_view(r) == truncated_view(risk_id@, clause_id@, agent@, initial_tier, final_tier, conversation_summary@),
{
    let mut reason: Vec<char> = Vec::new();
    extend_str(&mut reason, "max_turns 耗尽，审查不完整。已完成的审查步骤：");
    extend_str(&mut reason, conversation_summary);
    let ids = vec![String::from_str(clause_id)];
    let r = LoopFinding {
        risk_id: String::from_str(risk_id),
        clause_ids: ids,
        agent: String::from_str(agent),
        no_risk: true,
        severity: RiskSeverity::Info,
        risk_type: String::from_str("审查截断"),
        reason: string_of(reason.as_slice()),
        suggestion: String::from_str("建议人工复核此条款。"),
        initial_tier,
        final_tier,
        tier_escalated: false,
        truncated: true,
    };
    assert(string_views(r.clause_ids@) =~= seq![clause_id@]);
    r
}

fn failed_finding(s: &LoopState, error: &str) -> (r: LoopFinding)
    ensures
        finding_view(r) == failed_view(state_view(*s), error@),
{
    let mut reason: Vec<char> = Vec::new();
    extend_str(&mut reason, "LLM API 调用失败: ");
    extend_str(&mut reason, error);
    let ids = vec![s.clause.chunk_id.clone()];
    let r = LoopFinding {
        risk_id: s.risk_id.clone(),
        clause_ids: ids,
        agent: s.agent.clone(),
        no_risk: true,
        severity: RiskSeverity::Info,
        risk_type: String::from_str("LLM调用失败"),
        reason: string_of(reason.as_slice()),
        suggestion: String::from_str("请检查 API 配置后重试。"),
        initial_tier: s.clause.tier,
        final_tier: s.tier,
        tier_escalated: s.escalated,
        truncated: false,
    };
    assert(string_views(r.clause_ids@) =~= seq![s.clause.chunk_id@]);
    r
}

fn completion(s: &LoopState) -> (r: FindingCompletion)
    requires
        s.clause.page_start < usize::MAX,
    ensures
        completion_view(r) == completion_of(state_view(*s)),
{
    let ids = vec![s.clause.chunk_id.clone()];
    let ctx = head500_exec(s.clause.text.as_str());
    let r = FindingCompletion {
        risk_id: s.risk_id.clone(),
        clause_ids: ids,
        agent: s.agent.clone(),
        initial_tier: s.clause.tier,
        final_tier: s.tier,
        tier_escalated: s.escalated,
        page_number: s.clause.page_start + 1,
        section_path: copy_strings(&s.clause.section_path),
        context: string_of(ctx.as_slice()),
    };
    assert(string_views(r.clause_ids@) =~= seq![s.clause.chunk_id@]);
    r
}

fn copy_state(s: &LoopState, turn: u32, tier: RiskTier, escalated: bool) -> (r: LoopState)
    ensures
        state_view(r) == (state_view(*s).0, state_view(*s).1, state_view(*s).2, s.limit, s.max_turns, turn, tier, escalated),
        r.clause.page_start == s.clause.page_start,
{
    LoopState {
        risk_id: s.risk_id.clone(),
        agent: s.agent.clone(),
        clause: copy_clause(&s.clause),
        limit: s.limit,
        max_turns: s.max_turns,
        turn,
        tier,
        escalated,
    }
}

fn next_turn_exec(s: LoopState, msgs: Vec<LoopMessage>) -> (r: (LoopState, LoopAction))
    ensures
        state_view(r.0) == next_turn(state_view(s), messages_view(msgs@)).0,
        action_view(r.1) == next_turn(state_view(s), messages_view(msgs@)).1,
        r.0.clause.page_start == s.clause.page_start,
{
    if s.turn < s.limit {
        let t = s.turn + 1;
        let rem = s.limit - t;
        let (choice, note) = turn_directive(rem, s.clause.chunk_id.as_str());
        let mut m = msgs;
        let ghost before = messages_view(m@);
        match note {
            Some(n) => {
                let ghost nv = n@;
                m.push(LoopMessage::System(n));
                assert(messages_view(m@) =~= before.push(MessageView::System(nv)));
            },
            None => {},
        }
        assert(choice_view(choice) == directive_choice(rem as int));
        let s2 = LoopState { turn: t, ..s };
        (s2, LoopAction::CallModel { messages: m, choice })
    } else {
        let summary = truncation_summary(s.turn, s.max_turns, s.agent.as_str(), s.clause.chunk_id.as_str());
        let f = truncated_finding(
            s.risk_id.as_str(),
            s.clause.chunk_id.as_str(),
            s.agent.as_str(),
            s.clause.tier,
            s.tier,
            summary.as_str(),
        );
        (s, LoopAction::Conclude(f))
    }
}

// ─── the loop ───────────────────────────────────────────────────

/// Starts the review of a clause: no turn yet, the clause's tier, then the
/// first turn.
pub fn review_start(clause: &ReviewClause, agent: &str, risk_id: &str, agent_default: usize) -> (r: (LoopState, LoopAction))
    requires
        clause.page_start < usize::MAX,
    ensures
        state_view(r.0) == start_spec(*clause, agent@, risk_id@, agent_default).0,
        action_view(r.1) == start_spec(*clause, agent@, risk_id@, agent_default).1,
        r.0.clause.page_start == clause.page_start,
{
    let m = clause.effective_max_turns(agent_default);
    let s = LoopState {
        risk_id: String::from_str(risk_id),
        agent: String::from_str(agent),
        clause: copy_clause(clause),
        limit: #[verifier::truncate] (m as u32),
        max_turns: m,
        turn: 0,
        tier: clause.tier,
        escalated: false,
    };
    let empty: Vec<LoopMessage> = Vec::new();
    assert(messages_view(empty@) =~= Seq::<MessageView>::empty());
    next_turn_exec(s, empty)
}

/// One step of the review: the next state and what to do, given what
/// happened since the last step.
pub fn review_step(s: &LoopState, ev: LoopEvent) -> (r: (LoopState, LoopAction))
    requires
        s.clause.page_start < usize::MAX,
    ensures
        state_view(r.0) == step_spec(state_view(*s), event_view(ev)).0,
        action_view(r.1) == step_spec(state_view(*s), event_view(ev)).1,
        r.0.clause.page_start == s.clause.page_start,
{
    match ev {
        LoopEvent::ModelFailed { error } => {
            let f = failed_finding(s, error.as_str());
            (copy_state(s, s.turn, s.tier, s.escalated), LoopAction::Conclude(f))
        },
        LoopEvent::FindingParsed => {
            let c = completion(s);
            (copy_state(s, s.turn, s.tier, s.escalated), LoopAction::Complete(c))
        },
        LoopEvent::FindingUnparsed { error } => {
            let mut t: Vec<char> = Vec::new();
            extend_str(&mut t, "output_finding 参数解析错误: ");
            extend_str(&mut t, error.as_str());
            extend_str(&mut t, "\n请检查是否包含全部 8 个必填字段:\nno_risk, severity, risk_type, source_quote,\nlegal_basis, reason, suggestion, confidence\nlegal_basis 必须是数组（即使为空写 []）。\nclause_ids 必须是字符串数组，如 [\"ch_000\"]。\n请修正后重新调用 output_finding。");
            let msg = LoopMessage::Tool { tool_call_id: String::from_str("output_finding"), content: string_of(t.as_slice()) };
            let msgs = vec![msg];
            assert(messages_view(msgs@) =~= seq![MessageView::Tool("output_finding"@, parse_error_text(error@))]);
            next_turn_exec(copy_state(s, s.turn, s.tier, s.escalated), msgs)
        },
        LoopEvent::NoToolCalls => {
            let msgs = vec![LoopMessage::Reply, LoopMessage::User(String::from_str("请继续审查——调用工具搜索证据或输出结论。如果证据已充分，请调用 output_finding。"))];
            assert(messages_view(msgs@) =~= seq![MessageView::Reply, MessageView::User(continue_text())]);
            next_turn_exec(copy_state(s, s.turn, s.tier, s.escalated), msgs)
        },
        LoopEvent::ToolCallsMade => (copy_state(s, s.turn, s.tier, s.escalated), LoopAction::RunTools),
        LoopEvent::ToolsRan { assistant_texts } => {
            let (tier, esc) = if s.turn == 2 {
                check_tier_escalation(&assistant_texts, s.clause.tier, s.escalated)
            } else {
                (s.tier, s.escalated)
            };
            let empty: Vec<LoopMessage> = Vec::new();
            assert(messages_view(empty@) =~= Seq::<MessageView>::empty());
            next_turn_exec(copy_state(s, s.turn, tier, esc), empty)
        },
    }
}


// ─── a review that never concludes ──────────────────────────────

/// The loop's answer to a model reply that outputs no finding: a reply
/// without tool calls (`None`), or one whose tool calls ran (`Some` of the
/// agent's texts so far).
pub open spec fn answer(s: StateView, reply: Option<Seq<Seq<char>>>) -> (StateView, ActionView) {
    match reply {
        None => step_spec(s, EventView::NoToolCalls),
        Some(t) => step_spec(step_spec(s, EventView::ToolCallsMade).0, EventView::ToolsRan(t)),
    }
}

/// Runs the loop from state `s` and action `a` on replies that output no
/// finding, one per model call, and collects the tool choices of the model
/// calls made; it ends at the first action that is not a model call.
pub open spec fn run_without_finding(
    s: StateView,
    a: ActionView,
    replies: Seq<Option<Seq<Seq<char>>>>,
    calls: Seq<(int, Seq<char>)>,
) -> (StateView, ActionView, Seq<(int, Seq<char>)>)
    decreases replies.len(),
{
    match a {
        ActionView::CallModel(_, ch) => if replies.len() == 0 {
            (s, a, calls.push(ch))
        } else {
            let n = answer(s, replies[0]);
            run_without_finding(n.0, n.1, replies.subrange(1, replies.len() as int), calls.push(ch))
        },
        _ => (s, a, calls),
    }
}

proof fn lemma_run_from_call(
    s: StateView,
    msgs: Seq<MessageView>,
    replies: Seq<Option<Seq<Seq<char>>>>,
    calls: Seq<(int, Seq<char>)>,
)
    requires
        1 <= s.5 <= s.3,
        replies.len() >= s.3 - s.5 + 1,
    ensures ({
        let r = run_without_finding(s, ActionView::CallModel(msgs, directive_choice(s.3 - s.5)), replies, calls);
        &&& r.2.len() == calls.len() + s.3 - s.5 + 1
        &&& r.2.last() == directive_choice(0)
        &&& r.0.5 == s.3
        &&& r.1 == ActionView::Conclude(truncated_view(s.0, s.2.0, s.1, s.2.5, r.0.6, truncation_text(s.3 as int, s.4 as int, s.1, s.2.0)))
    }),
    decreases s.3 - s.5,
{
    let ch = directive_choice(s.3 - s.5);
    let n = answer(s, replies[0]);
    let s2 = match replies[0] {
        None => s,
        Some(t) => if s.5 == 2 {
            let e = tier_after(t, s.2.5, s.7);
            (s.0, s.1, s.2, s.3, s.4, s.5, e.0, e.1)
        } else {
            s
        },
    };
    let m = match replies[0] {
        None => seq![MessageView::Reply, MessageView::User(continue_text())],
        Some(_) => Seq::<MessageView>::empty(),
    };
    assert(n == next_turn(s2, m));
    let rest = replies.subrange(1, replies.len() as int);
    assert(run_without_finding(s, ActionView::CallModel(msgs, ch), replies, calls)
        == run_without_finding(n.0, n.1, rest, calls.push(ch)));
    assert(s2.0 == s.0 && s2.1 == s.1 && s2.2 == s.2 && s2.3 == s.3 && s2.4 == s.4 && s2.5 == s.5);
    if s.5 < s.3 {
        let t = (s.5 + 1) as u32;
        let m2 = match budget_note(s.3 - t, s.2.0) {
            Some(x) => m.push(MessageView::System(x)),
            None => m,
        };
        assert(n.1 == ActionView::CallModel(m2, directive_choice(s.3 - t)));
        assert(n.0 == with_turn(s2, t));
        lemma_run_from_call(with_turn(s2, t), m2, rest, calls.push(ch));
    } else {
        assert(n.0 == s2);
        assert(n.1 == ActionView::Conclude(truncated_view(s2.0, s2.2.0, s2.1, s2.2.5, s2.6, truncation_text(s2.5 as int, s2.4 as int, s2.1, s2.2.0))));
        assert(run_without_finding(n.0, n.1, rest, calls.push(ch)) == (n.0, n.1, calls.push(ch)));
        assert(ch == directive_choice(0));
    }
}

/// A review in which the model never outputs a finding calls the model as
/// many times as the clause's turn budget, forces `output_finding` at the
/// last call, and ends with the truncated finding of a review that ran all
/// its turns.
pub proof fn law_out_of_turns_gives_truncated_finding(
    c: ReviewClause,
    agent: Seq<char>,
    risk_id: Seq<char>,
    agent_default: usize,
    replies: Seq<Option<Seq<Seq<char>>>>,
)
    requires
        budget_of(c, agent_default) <= u32::MAX,
        replies.len() >= budget_of(c, agent_default),
    ensures ({
        let b = budget_of(c, agent_default);
        let st = start_spec(c, agent, risk_id, agent_default);
        let r = run_without_finding(st.0, st.1, replies, Seq::<(int, Seq<char>)>::empty());
        &&& r.2.len() == b
        &&& b > 0 ==> r.2.last() == (2int, "output_finding"@)
        &&& r.1 == ActionView::Conclude(truncated_view(risk_id, c.chunk_id@, agent, c.tier, r.0.6,
                truncation_text(b as int, b as int, agent, c.chunk_id@)))
    }),
{
    let b = budget_of(c, agent_default);
    let s0: StateView = (risk_id, agent, clause_view(c), b as u32, b, 0u32, c.tier, false);
    assert(b as u32 == b);
    if b > 0 {
        let s1 = with_turn(s0, 1u32);
        let m = match budget_note(s0.3 - 1, s0.2.0) {
            Some(x) => Seq::<MessageView>::empty().push(MessageView::System(x)),
            None => Seq::<MessageView>::empty(),
        };
        assert(start_spec(c, agent, risk_id, agent_default) == (s1, ActionView::CallModel(m, directive_choice(s1.3 - s1.5))));
        lemma_run_from_call(s1, m, replies, Seq::<(int, Seq<char>)>::empty());
    }
}

} // verus!
