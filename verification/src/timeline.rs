//! The `calculate_timeline` tool: date parsing, calendar-day differences,
//! statutory time-limit checks and date-order contradictions.
use vstd::prelude::*;
use crate::numbers::{fmt_int, fmt_int_exec, parse_i32, parse_i32_spec, parse_u32, parse_u32_spec};
use crate::text::{replace_char, chars_of, eq_str, extend_chars, extend_str, join, join_chars, split_chars, split_on, string_of, trim, trim_chars, views};

verus! {

/// A calendar date `(year, month, day)`.
pub type Date = (i32, u32, u32);

// ─── input and output records ───────────────────────────────────

/// One dated event.
#[derive(Debug)]
pub struct DateEvent {
    pub label: String,
    pub date_str: String,
    pub event_type: Option<String>,
}

/// A statutory constraint between two events.
#[derive(Debug)]
pub struct TimelineConstraint {
    pub from: String,
    pub to: String,
    pub min_days: Option<i64>,
    pub max_days: Option<i64>,
    pub legal_basis: Option<String>,
}

/// The tool's arguments.
#[derive(Debug)]
pub struct CalculateTimelineArgs {
    pub dates: Vec<DateEvent>,
    pub constraints: Vec<TimelineConstraint>,
}

/// The `calculate_timeline` tool.
pub struct CalculateTimelineTool;

/// An event with the outcome of parsing its date.
#[derive(Debug)]
pub struct ResolvedEvent {
    pub label: String,
    pub date_str: String,
    pub parsed: bool,
    pub event_type: Option<String>,
}

/// Outcome of one constraint check.
#[derive(Debug, Clone, Copy, PartialEq, Eq, Structural)]
pub enum TimelineStatus {
    Pass,
    Fail,
    Uncertain,
}

/// One constraint check.
#[derive(Debug)]
pub struct TimelineCheck {
    pub constraint: String,
    pub from_label: String,
    pub to_label: String,
    pub from_date: String,
    pub to_date: String,
    pub actual_days: i64,
    pub required_min_days: Option<i64>,
    pub required_max_days: Option<i64>,
    pub status: TimelineStatus,
    pub legal_ref: Option<String>,
    pub detail: String,
}

/// A date-order contradiction between two events.
#[derive(Debug)]
pub struct TimelineContradiction {
    pub description: String,
    pub event_a: String,
    pub event_b: String,
    pub detail: String,
}

/// The full result of a timeline evaluation.
#[derive(Debug)]
pub struct TimelineResult {
    pub events: Vec<ResolvedEvent>,
    pub checks: Vec<TimelineCheck>,
    pub contradictions: Vec<TimelineContradiction>,
    pub summary: String,
}

/// Why a date string was rejected.
#[derive(Debug, Clone, Copy, PartialEq, Eq, Structural)]
pub enum DateError {
    /// Not three `-`/`/`-separated fields.
    Format,
    /// A field is not a number in range.
    Number,
    /// Month outside 1..=12.
    Month(u32),
    /// Day outside 1..=31.
    Day(u32),
}

pub open spec fn opt_view(o: Option<String>) -> Option<Seq<char>> {
    match o {
        Some(s) => Some(s@),
        None => None,
    }
}

fn clone_opt(o: &Option<String>) -> (r: Option<String>)
    ensures
        opt_view(r) == opt_view(*o),
{
    match o {
        Some(s) => Some(s.clone()),
        None => None,
    }
}

// ─── dates ──────────────────────────────────────────────────────

/// How a date string is read: trimmed, `/` read as `-`, three fields
/// year-month-day parsed as integers, month in 1..=12, day in 1..=31.
pub open spec fn parse_date_spec(s: Seq<char>) -> Result<Date, DateError> {
    let parts = split_on(replace_char(trim(s), '/', '-'), '-');
    if parts.len() != 3 {
        Err(DateError::Format)
    } else {
        match (parse_i32_spec(parts[0]), parse_u32_spec(parts[1]), parse_u32_spec(parts[2])) {
            (Some(y), Some(m), Some(d)) => {
                if m == 0 || m > 12 {
                    Err(DateError::Month(m))
                } else if d == 0 || d > 31 {
                    Err(DateError::Day(d))
                } else {
                    Ok((y, m, d))
                }
            },
            _ => Err(DateError::Number),
        }
    }
}

/// Division rounding toward zero, as machine division does.
pub open spec fn tdiv(a: int, b: int) -> int {
    if a >= 0 {
        a / b
    } else {
        -((-a) / b)
    }
}

/// The (simplified) Julian day number of a date.
pub open spec fn julian(d: Date) -> int {
    let y = d.0 as int;
    let m = d.1 as int;
    let day = d.2 as int;
    let a = tdiv(14 - m, 12);
    let y2 = y + 4800 - a;
    let m2 = m + 12 * a - 3;
    day + tdiv(153 * m2 + 2, 5) + 365 * y2 + tdiv(y2, 4) - tdiv(y2, 100) + tdiv(y2, 400) - 32045
}

fn tdiv_exec(a: i64, b: i64) -> (r: i64)
    requires
        b > 0,
        a > i64::MIN,
    ensures
        r == tdiv(a as int, b as int),
{
    if a >= 0 {
        a / b
    } else {
        0 - ((0 - a) / b)
    }
}

/// Julian day number of a date.
pub fn date_to_julian(date: Date) -> (r: i64)
    ensures
        r == julian(date),
{
    let y = date.0 as i64;
    let m = date.1 as i64;
    let d = date.2 as i64;
    let a = tdiv_exec(14 - m, 12);
    assert(-400_000_000 <= a <= 2);
    let y2 = y + 4800 - a;
    let m2 = m + 12 * a - 3;
    assert(-20 <= m2 <= 30) by {
        assert(a == tdiv(14 - m as int, 12));
        if 14 - m < 0 {
            let q = (m - 14) / 12;
            assert(q * 12 <= m - 14 < q * 12 + 12);
            assert(a == -q);
        } else {
            let q = (14 - m) / 12;
            assert(q * 12 <= 14 - m < q * 12 + 12);
            assert(a == q);
        }
    }
    let t1 = tdiv_exec(153 * m2 + 2, 5);
    let t2 = tdiv_exec(y2, 4);
    let t3 = tdiv_exec(y2, 100);
    let t4 = tdiv_exec(y2, 400);
    d + t1 + 365 * y2 + t2 - t3 + t4 - 32045
}

/// The result type of a year-month-day date format (`{:04}-{:02}-{:02}`).
pub open spec fn date_text(d: Date) -> Seq<char> {
    fmt_int(d.0 as int, 4) + "-"@ + fmt_int(d.1 as int, 2) + "-"@ + fmt_int(d.2 as int, 2)
}

/// Formats a date as `YYYY-MM-DD`.
pub fn format_date(date: &Date) -> (r: String)
    ensures
        r@ == date_text(*date),
{
    let mut v = fmt_int_exec(date.0 as i128, 4);
    extend_str(&mut v, "-");
    let m = fmt_int_exec(date.1 as i128, 2);
    extend_chars(&mut v, m.as_slice());
    extend_str(&mut v, "-");
    let d = fmt_int_exec(date.2 as i128, 2);
    extend_chars(&mut v, d.as_slice());
    string_of(v.as_slice())
}

impl CalculateTimelineTool {
    /// Parses `YYYY-MM-DD` or `YYYY/MM/DD`.
    pub fn parse_date(date_str: &str) -> (r: Result<Date, DateError>)
        ensures
            r == parse_date_spec(date_str@),
    {
        let sc = chars_of(date_str);
        let t = trim_chars(sc.as_slice());
        let mut cleaned: Vec<char> = Vec::new();
        let mut i: usize = 0;
        while i < t.len()
            invariant
                i <= t@.len(),
                cleaned@ =~= replace_char(t@, '/', '-').subrange(0, i as int),
            decreases t@.len() - i,
        {
            let c = t[i];
            if c == '/' {
                cleaned.push('-');
            } else {
                cleaned.push(c);
            }
            i = i + 1;
        }
        assert(cleaned@ =~= replace_char(trim(date_str@), '/', '-'));
        let parts = split_chars(cleaned.as_slice(), '-');
        if parts.len() != 3 {
            return Err(DateError::Format);
        }
        assert(parts[0]@ == views(parts@)[0]);
        assert(parts[1]@ == views(parts@)[1]);
        assert(parts[2]@ == views(parts@)[2]);
        let y = parse_i32(parts[0].as_slice());
        let m = parse_u32(parts[1].as_slice());
        let d = parse_u32(parts[2].as_slice());
        match (y, m, d) {
            (Some(y), Some(m), Some(d)) => {
                if m == 0 || m > 12 {
                    Err(DateError::Month(m))
                } else if d == 0 || d > 31 {
                    Err(DateError::Day(d))
                } else {
                    Ok((y, m, d))
                }
            },
            _ => Err(DateError::Number),
        }
    }

    /// Calendar days from one date to another.
    pub fn calendar_days_between(from: Date, to: Date) -> (r: i64)
        ensures
            r == julian(to) - julian(from),
    {
        let f = date_to_julian(from);
        let t = date_to_julian(to);
        t - f
    }
}


// ─── resolved dates ─────────────────────────────────────────────

/// A label with its parsed date.
pub type DatedLabel = (Seq<char>, Date);

pub open spec fn dated_views(v: Seq<(String, Date)>) -> Seq<DatedLabel> {
    v.map_values(|p: (String, Date)| (p.0@, p.1))
}

/// The date of a label; a later entry for the same label wins.
pub open spec fn lookup(evs: Seq<DatedLabel>, label: Seq<char>) -> Option<Date>
    decreases evs.len(),
{
    if evs.len() == 0 {
        None
    } else if evs.last().0 == label {
        Some(evs.last().1)
    } else {
        lookup(evs.drop_last(), label)
    }
}

fn lookup_exec(evs: &Vec<(String, Date)>, label: &str) -> (r: Option<Date>)
    ensures
        r == lookup(dated_views(evs@), label@),
{
    let lc = chars_of(label);
    let ghost dv = dated_views(evs@);
    let mut i: usize = evs.len();
    assert(dv.subrange(0, i as int) =~= dv);
    while i > 0
        invariant
            i <= evs@.len(),
            dv == dated_views(evs@),
            lookup(dv, label@) == lookup(dv.subrange(0, i as int), label@),
        decreases i,
    {
        let ghost pre = dv.subrange(0, i as int);
        proof {
            assert(pre.drop_last() =~= dv.subrange(0, i as int - 1));
            assert(pre.last() == dv[i as int - 1]);
        }
        let k = &evs[i - 1];
        let kc = chars_of(k.0.as_str());
        if eq_str(kc.as_slice(), label) {
            return Some(k.1);
        }
        i = i - 1;
    }
    None
}

/// The labels whose dates parse, in event order, with their dates.
pub open spec fn date_map(dates: Seq<DateEvent>) -> Seq<DatedLabel>
    decreases dates.len(),
{
    if dates.len() == 0 {
        Seq::<DatedLabel>::empty()
    } else {
        let p = date_map(dates.drop_last());
        match parse_date_spec(dates.last().date_str@) {
            Ok(d) => p.push((dates.last().label@, d)),
            Err(_) => p,
        }
    }
}

/// How many event dates fail to parse.
pub open spec fn parse_failures(dates: Seq<DateEvent>) -> nat
    decreases dates.len(),
{
    if dates.len() == 0 {
        0
    } else {
        parse_failures(dates.drop_last()) + if parse_date_spec(dates.last().date_str@) is Ok { 0nat } else { 1nat }
    }
}

// ─── contradictions ─────────────────────────────────────────────

/// A contradiction as text: description, first event, second event, detail.
pub type ContradictionView = (Seq<char>, Seq<char>, Seq<char>, Seq<char>);

pub open spec fn contradiction_view(c: TimelineContradiction) -> ContradictionView {
    (c.description@, c.event_a@, c.event_b@, c.detail@)
}

/// Event type that a rule starts from (0: opening, 1: announcement, 2: award).
pub open spec fn rule_own_type(k: int) -> Seq<char> {
    if k == 0 { "bid_opening"@ } else if k == 1 { "announcement"@ } else { "award"@ }
}

/// Event type that a rule compares with.
pub open spec fn rule_other_type(k: int) -> Seq<char> {
    if k == 0 { "deadline"@ } else if k == 1 { "deadline"@ } else { "bid_opening"@ }
}

/// The rule is broken by these Julian days (own event, other event).
pub open spec fn rule_violated(k: int, own: int, other: int) -> bool {
    if k == 0 { own <= other } else if k == 1 { own >= other } else { own < other }
}

pub open spec fn rule_description(k: int) -> Seq<char> {
    if k == 0 {
        "开标日期应在投标截止之后"@
    } else if k == 1 {
        "公告发布日期应在投标截止之前"@
    } else {
        "中标日期应在开标之后"@
    }
}

pub open spec fn rule_detail(k: int, a: Seq<char>, b: Seq<char>) -> Seq<char> {
    if k == 0 {
        "开标日期("@ + a + ") ≤ 投标截止("@ + b + ")，时序矛盾"@
    } else if k == 1 {
        "公告日期("@ + a + ") ≥ 投标截止("@ + b + ")，时序矛盾"@
    } else {
        "中标日期("@ + a + ") < 开标日期("@ + b + ")，时序矛盾"@
    }
}

pub open spec fn has_type(ev: DateEvent, t: Seq<char>) -> bool {
    ev.event_type matches Some(x) && x@ == t
}

/// Contradictions of rule `k` for event `ev` (dated `date`) against the
/// first `m` events of the list.
pub open spec fn rule_hits(evs: Seq<DatedLabel>, list: Seq<DateEvent>, ev: DateEvent, date: Date, k: int, m: int) -> Seq<ContradictionView>
    decreases m,
{
    if m <= 0 {
        Seq::<ContradictionView>::empty()
    } else {
        let prev = rule_hits(evs, list, ev, date, k, m - 1);
        let o = list[m - 1];
        if has_type(o, rule_other_type(k)) && lookup(evs, o.label@) is Some
            && rule_violated(k, julian(date), julian(lookup(evs, o.label@).unwrap())) {
            prev.push((rule_description(k), ev.label@, o.label@, rule_detail(k, ev.date_str@, o.date_str@)))
        } else {
            prev
        }
    }
}

/// Contradictions found for one event of the list.
pub open spec fn event_hits(evs: Seq<DatedLabel>, list: Seq<DateEvent>, ev: DateEvent) -> Seq<ContradictionView> {
    match lookup(evs, ev.label@) {
        Some(date) => if has_type(ev, rule_own_type(0)) {
            rule_hits(evs, list, ev, date, 0, list.len() as int)
        } else if has_type(ev, rule_own_type(1)) {
            rule_hits(evs, list, ev, date, 1, list.len() as int)
        } else if has_type(ev, rule_own_type(2)) {
            rule_hits(evs, list, ev, date, 2, list.len() as int)
        } else {
            Seq::<ContradictionView>::empty()
        },
        None => Seq::<ContradictionView>::empty(),
    }
}

/// Contradictions found for the first `n` events of the list, in order.
pub open spec fn all_hits(evs: Seq<DatedLabel>, list: Seq<DateEvent>, n: int) -> Seq<ContradictionView>
    decreases n,
{
    if n <= 0 {
        Seq::<ContradictionView>::empty()
    } else {
        all_hits(evs, list, n - 1) + event_hits(evs, list, list[n - 1])
    }
}

pub open spec fn contradiction_views(v: Seq<TimelineContradiction>) -> Seq<ContradictionView> {
    v.map_values(|c: TimelineContradiction| contradiction_view(c))
}

fn type_is(ev: &DateEvent, t: &str) -> (r: bool)
    ensures
        r == has_type(*ev, t@),
{
    match &ev.event_type {
        Some(x) => {
            let xc = chars_of(x.as_str());
            eq_str(xc.as_slice(), t)
        },
        None => false,
    }
}

fn build_detail(k: u8, a: &str, b: &str) -> (r: String)
    requires
        k <= 2,
    ensures
        r@ == rule_detail(k as int, a@, b@),
{
    let mut v: Vec<char> = Vec::new();
    if k == 0 {
        extend_str(&mut v, "开标日期(");
        extend_str(&mut v, a);
        extend_str(&mut v, ") ≤ 投标截止(");
        extend_str(&mut v, b);
    } else if k == 1 {
        extend_str(&mut v, "公告日期(");
        extend_str(&mut v, a);
        extend_str(&mut v, ") ≥ 投标截止(");
        extend_str(&mut v, b);
    } else {
        extend_str(&mut v, "中标日期(");
        extend_str(&mut v, a);
        extend_str(&mut v, ") < 开标日期(");
        extend_str(&mut v, b);
    }
    extend_str(&mut v, ")，时序矛盾");
    string_of(v.as_slice())
}

fn scan_rule(
    events: &Vec<(String, Date)>,
    list: &Vec<DateEvent>,
    ev: &DateEvent,
    date: Date,
    k: u8,
    out: &mut Vec<TimelineContradiction>,
)
    requires
        k <= 2,
    ensures
        contradiction_views(final(out)@) == contradiction_views(old(out)@) + rule_hits(dated_views(events@), list@, *ev, date, k as int, list@.len() as int),
{
    let ghost base = contradiction_views(out@);
    let own_jd = date_to_julian(date);
    let other = if k == 0 { "deadline" } else if k == 1 { "deadline" } else { "bid_opening" };
    assert(other@ == rule_other_type(k as int));
    let mut j: usize = 0;
    while j < list.len()
        invariant
            j <= list@.len(),
            k <= 2,
            own_jd == julian(date),
            other@ == rule_other_type(k as int),
            contradiction_views(out@) == base + rule_hits(dated_views(events@), list@, *ev, date, k as int, j as int),
        decreases list@.len() - j,
    {
        let o = &list[j];
        if type_is(o, other) {
            if let Some(d2) = lookup_exec(events, o.label.as_str()) {
                let jd2 = date_to_julian(d2);
                let violated = if k == 0 { own_jd <= jd2 } else if k == 1 { own_jd >= jd2 } else { own_jd < jd2 };
                if violated {
                    let desc = if k == 0 {
                        String::from_str("开标日期应在投标截止之后")
                    } else if k == 1 {
                        String::from_str("公告发布日期应在投标截止之前")
                    } else {
                        String::from_str("中标日期应在开标之后")
                    };
                    let c = TimelineContradiction {
                        description: desc,
                        event_a: ev.label.clone(),
                        event_b: o.label.clone(),
                        detail: build_detail(k, ev.date_str.as_str(), o.date_str.as_str()),
                    };
                    let ghost cv = contradiction_view(c);
                    let ghost before = out@;
                    out.push(c);
                    proof {
                        assert(out@ == before.push(c));
                        assert(contradiction_views(out@) =~= contradiction_views(before).push(cv));
                    }
                }
            }
        }
        j = j + 1;
    }
}

impl CalculateTimelineTool {
    /// Date-order contradictions: an opening not after a deadline, an
    /// announcement not before a deadline, an award before an opening.
    pub fn detect_contradictions(events: &Vec<(String, Date)>, event_list: &Vec<DateEvent>) -> (r: Vec<TimelineContradiction>)
        ensures
            contradiction_views(r@) == all_hits(dated_views(events@), event_list@, event_list@.len() as int),
    {
        let mut out: Vec<TimelineContradiction> = Vec::new();
        let mut i: usize = 0;
        while i < event_list.len()
            invariant
                i <= event_list@.len(),
                contradiction_views(out@) == all_hits(dated_views(events@), event_list@, i as int),
            decreases event_list@.len() - i,
        {
            let ev = &event_list[i];
            if let Some(date) = lookup_exec(events, ev.label.as_str()) {
                if type_is(ev, "bid_opening") {
                    scan_rule(events, event_list, ev, date, 0, &mut out);
                } else if type_is(ev, "announcement") {
                    scan_rule(events, event_list, ev, date, 1, &mut out);
                } else if type_is(ev, "award") {
                    scan_rule(events, event_list, ev, date, 2, &mut out);
                }
            }
            proof {
                assert(contradiction_views(out@) =~= all_hits(dated_views(events@), event_list@, i as int + 1));
            }
            i = i + 1;
        }
        out
    }
}

// ─── constraints ────────────────────────────────────────────────

/// A constraint as values: from, to, min days, max days, legal basis.
pub type ConstraintView = (Seq<char>, Seq<char>, Option<i64>, Option<i64>, Option<Seq<char>>);

pub open spec fn constraint_view(c: TimelineConstraint) -> ConstraintView {
    (c.from@, c.to@, c.min_days, c.max_days, opt_view(c.legal_basis))
}

pub open spec fn constraint_views(v: Seq<TimelineConstraint>) -> Seq<ConstraintView> {
    v.map_values(|c: TimelineConstraint| constraint_view(c))
}

pub open spec fn announcement_basis() -> Seq<char> {
    "《政府采购法》第35条：公开招标公告期不少于20日"@
}

/// `cs` with a 20-day announcement constraint from `f` to `t`, unless a
/// constraint between these labels is already present.
pub open spec fn add_pair(cs: Seq<ConstraintView>, f: Seq<char>, t: Seq<char>) -> Seq<ConstraintView> {
    if exists|i: int| 0 <= i < cs.len() && cs[i].0 == f && cs[i].1 == t {
        cs
    } else {
        cs.push((f, t, Some(20i64), None, Some(announcement_basis())))
    }
}

/// Pairs announcement `a` with the deadlines among the first `m` events.
pub open spec fn add_row(cs: Seq<ConstraintView>, a: DateEvent, evs: Seq<DateEvent>, m: int) -> Seq<ConstraintView>
    decreases m,
{
    if m <= 0 {
        cs
    } else {
        let p = add_row(cs, a, evs, m - 1);
        if has_type(evs[m - 1], "deadline"@) {
            add_pair(p, a.label@, evs[m - 1].label@)
        } else {
            p
        }
    }
}

/// Adds the inferred constraints for the announcements among the first `n` events.
pub open spec fn add_all(cs: Seq<ConstraintView>, evs: Seq<DateEvent>, n: int) -> Seq<ConstraintView>
    decreases n,
{
    if n <= 0 {
        cs
    } else {
        let p = add_all(cs, evs, n - 1);
        if has_type(evs[n - 1], "announcement"@) {
            add_row(p, evs[n - 1], evs, evs.len() as int)
        } else {
            p
        }
    }
}

/// The user's constraints followed by the inferred announcement periods.
pub open spec fn inferred(events: Seq<DateEvent>, user: Seq<TimelineConstraint>) -> Seq<ConstraintView> {
    add_all(constraint_views(user), events, events.len() as int)
}

fn copy_constraint(c: &TimelineConstraint) -> (r: TimelineConstraint)
    ensures
        constraint_view(r) == constraint_view(*c),
{
    TimelineConstraint {
        from: c.from.clone(),
        to: c.to.clone(),
        min_days: c.min_days,
        max_days: c.max_days,
        legal_basis: clone_opt(&c.legal_basis),
    }
}

fn push_pair(cs: &mut Vec<TimelineConstraint>, f: &String, t: &String)
    ensures
        constraint_views(final(cs)@) == add_pair(constraint_views(old(cs)@), f@, t@),
{
    let ghost cv = constraint_views(cs@);
    let mut i: usize = 0;
    while i < cs.len()
        invariant
            i <= cs@.len(),
            cs@ == old(cs)@,
            cv == constraint_views(cs@),
            forall|k: int| 0 <= k < i ==> !(cv[k].0 == f@ && cv[k].1 == t@),
        decreases cs@.len() - i,
    {
        let a = chars_of(cs[i].from.as_str());
        let b = chars_of(cs[i].to.as_str());
        if eq_str(a.as_slice(), f.as_str()) && eq_str(b.as_slice(), t.as_str()) {
            assert(cv[i as int].0 == f@ && cv[i as int].1 == t@);
            return;
        }
        i = i + 1;
    }
    let c = TimelineConstraint {
        from: f.clone(),
        to: t.clone(),
        min_days: Some(20),
        max_days: None,
        legal_basis: Some(String::from_str("《政府采购法》第35条：公开招标公告期不少于20日")),
    };
    let ghost before = cs@;
    cs.push(c);
    assert(constraint_views(cs@) =~= constraint_views(before).push(constraint_view(c)));
}

impl CalculateTimelineTool {
    /// The user's constraints plus, for every (announcement, deadline) pair
    /// not yet constrained, a 20-day announcement period.
    pub fn infer_constraints(events: &Vec<DateEvent>, user_constraints: &Vec<TimelineConstraint>) -> (r: Vec<TimelineConstraint>)
        ensures
            constraint_views(r@) == inferred(events@, user_constraints@),
    {
        let mut cs: Vec<TimelineConstraint> = Vec::new();
        let mut u: usize = 0;
        while u < user_constraints.len()
            invariant
                u <= user_constraints@.len(),
                constraint_views(cs@) =~= constraint_views(user_constraints@.subrange(0, u as int)),
            decreases user_constraints@.len() - u,
        {
            let c = copy_constraint(&user_constraints[u]);
            let ghost before = cs@;
            cs.push(c);
            proof {
                assert(user_constraints@.subrange(0, u as int + 1) =~= user_constraints@.subrange(0, u as int).push(user_constraints@[u as int]));
                assert(constraint_views(cs@) =~= constraint_views(before).push(constraint_view(c)));
                assert(constraint_views(user_constraints@.subrange(0, u as int + 1)) =~= constraint_views(user_constraints@.subrange(0, u as int)).push(constraint_view(user_constraints@[u as int])));
            }
            u = u + 1;
        }
        assert(user_constraints@.subrange(0, user_constraints@.len() as int) =~= user_constraints@);
        let mut i: usize = 0;
        while i < events.len()
            invariant
                i <= events@.len(),
                constraint_views(cs@) == add_all(constraint_views(user_constraints@), events@, i as int),
            decreases events@.len() - i,
        {
            let a = &events[i];
            if type_is(a, "announcement") {
                let ghost start = constraint_views(cs@);
                let mut j: usize = 0;
                while j < events.len()
                    invariant
                        j <= events@.len(),
                        i < events@.len(),
                        *a == events@[i as int],
                        constraint_views(cs@) == add_row(start, *a, events@, j as int),
                    decreases events@.len() - j,
                {
                    let d = &events[j];
                    if type_is(d, "deadline") {
                        push_pair(&mut cs, &a.label, &d.label);
                    }
                    j = j + 1;
                }
            }
            i = i + 1;
        }
        cs
    }
}

// ─── checks ─────────────────────────────────────────────────────

/// Pass/fail of the actual day count against the bounds.
pub open spec fn status_of(a: int, min: Option<i64>, max: Option<i64>) -> TimelineStatus {
    match (min, max) {
        (Some(lo), Some(hi)) => if a >= lo && a <= hi { TimelineStatus::Pass } else { TimelineStatus::Fail },
        (Some(lo), None) => if a >= lo { TimelineStatus::Pass } else { TimelineStatus::Fail },
        (None, Some(hi)) => if a <= hi { TimelineStatus::Pass } else { TimelineStatus::Fail },
        (None, None) => TimelineStatus::Uncertain,
    }
}

pub open spec fn num(v: int) -> Seq<char> {
    fmt_int(v, 0)
}

/// The explanation of a check outcome.
pub open spec fn detail_of(st: TimelineStatus, a: int, min: Option<i64>, max: Option<i64>) -> Seq<char> {
    match st {
        TimelineStatus::Pass => match (min, max) {
            (Some(lo), Some(hi)) => "实际 "@ + num(a) + " 天，满足 "@ + num(lo as int) + " ≤ "@ + num(a) + " ≤ "@ + num(hi as int) + " 的要求"@,
            (Some(lo), None) => "实际 "@ + num(a) + " 天 ≥ 法定最低 "@ + num(lo as int) + " 天，合规。多出 "@ + num(a - lo) + " 天"@,
            (None, Some(hi)) => "实际 "@ + num(a) + " 天 ≤ 法定最高 "@ + num(hi as int) + " 天，合规。剩余 "@ + num(hi - a) + " 天"@,
            (None, None) => "实际 "@ + num(a) + " 天"@,
        },
        TimelineStatus::Fail => match (min, max) {
            (Some(lo), Some(_)) => "实际 "@ + num(a) + " 天，不足法定最低 "@ + num(lo as int) + " 天，差 "@ + num(lo - a) + " 天"@,
            (Some(lo), None) => "实际 "@ + num(a) + " 天 < 法定最低 "@ + num(lo as int) + " 天，差 "@ + num(lo - a) + " 天"@,
            (None, Some(hi)) => "实际 "@ + num(a) + " 天 > 法定最高 "@ + num(hi as int) + " 天，超出 "@ + num(a - hi) + " 天"@,
            (None, None) => "实际 "@ + num(a) + " 天"@,
        },
        TimelineStatus::Uncertain => "实际 "@ + num(a) + " 天，无明确法定约束"@,
    }
}

pub open spec fn opt_date_text(d: Option<Date>) -> Seq<char> {
    match d {
        Some(x) => date_text(x),
        None => Seq::<char>::empty(),
    }
}

/// `ch` is the check of constraint `c` against the resolved dates.
pub open spec fn check_matches(ch: TimelineCheck, evs: Seq<DatedLabel>, c: ConstraintView) -> bool {
    let f = lookup(evs, c.0);
    let t = lookup(evs, c.1);
    &&& ch.constraint@ == c.0 + " → "@ + c.1
    &&& ch.from_label@ == c.0
    &&& ch.to_label@ == c.1
    &&& ch.required_min_days == c.2
    &&& ch.required_max_days == c.3
    &&& opt_view(ch.legal_ref) == c.4
    &&& ch.from_date@ == opt_date_text(f)
    &&& ch.to_date@ == opt_date_text(t)
    &&& if f is Some && t is Some {
        let a = julian(t.unwrap()) - julian(f.unwrap());
        &&& ch.actual_days == a
        &&& ch.status == status_of(a, c.2, c.3)
        &&& ch.detail@ == detail_of(ch.status, a, c.2, c.3)
    } else {
        &&& ch.actual_days == 0
        &&& ch.status == TimelineStatus::Uncertain
        &&& ch.detail@ == "日期解析失败，无法计算"@
    }
}

fn push_num(v: &mut Vec<char>, x: i128)
    requires
        x > i128::MIN,
    ensures
        final(v)@ == old(v)@ + num(x as int),
{
    let d = fmt_int_exec(x, 0);
    extend_chars(v, d.as_slice());
}

fn build_check_detail(st: TimelineStatus, a: i64, min: Option<i64>, max: Option<i64>) -> (r: String)
    ensures
        r@ == detail_of(st, a as int, min, max),
{
    let a = a as i128;
    let mut v: Vec<char> = Vec::new();
    extend_str(&mut v, "实际 ");
    push_num(&mut v, a);
    match st {
        TimelineStatus::Pass => match (min, max) {
            (Some(lo), Some(hi)) => {
                extend_str(&mut v, " 天，满足 ");
                push_num(&mut v, lo as i128);
                extend_str(&mut v, " ≤ ");
                push_num(&mut v, a);
                extend_str(&mut v, " ≤ ");
                push_num(&mut v, hi as i128);
                extend_str(&mut v, " 的要求");
            },
            (Some(lo), None) => {
                extend_str(&mut v, " 天 ≥ 法定最低 ");
                push_num(&mut v, lo as i128);
                extend_str(&mut v, " 天，合规。多出 ");
                push_num(&mut v, a - lo as i128);
                extend_str(&mut v, " 天");
            },
            (None, Some(hi)) => {
                extend_str(&mut v, " 天 ≤ 法定最高 ");
                push_num(&mut v, hi as i128);
                extend_str(&mut v, " 天，合规。剩余 ");
                push_num(&mut v, hi as i128 - a);
                extend_str(&mut v, " 天");
            },
            (None, None) => {
                extend_str(&mut v, " 天");
            },
        },
        TimelineStatus::Fail => match (min, max) {
            (Some(lo), Some(_)) => {
                extend_str(&mut v, " 天，不足法定最低 ");
                push_num(&mut v, lo as i128);
                extend_str(&mut v, " 天，差 ");
                push_num(&mut v, lo as i128 - a);
                extend_str(&mut v, " 天");
            },
            (Some(lo), None) => {
                extend_str(&mut v, " 天 < 法定最低 ");
                push_num(&mut v, lo as i128);
                extend_str(&mut v, " 天，差 ");
                push_num(&mut v, lo as i128 - a);
                extend_str(&mut v, " 天");
            },
            (None, Some(hi)) => {
                extend_str(&mut v, " 天 > 法定最高 ");
                push_num(&mut v, hi as i128);
                extend_str(&mut v, " 天，超出 ");
                push_num(&mut v, a - hi as i128);
                extend_str(&mut v, " 天");
            },
            (None, None) => {
                extend_str(&mut v, " 天");
            },
        },
        TimelineStatus::Uncertain => {
            extend_str(&mut v, " 天，无明确法定约束");
        },
    }
    string_of(v.as_slice())
}

fn check_one(events: &Vec<(String, Date)>, c: &TimelineConstraint) -> (r: TimelineCheck)
    ensures
        check_matches(r, dated_views(events@), constraint_view(*c)),
{
    let from_date = lookup_exec(events, c.from.as_str());
    let to_date = lookup_exec(events, c.to.as_str());
    let mut name: Vec<char> = chars_of(c.from.as_str());
    extend_str(&mut name, " → ");
    extend_str(&mut name, c.to.as_str());
    let fd_text = match &from_date {
        Some(d) => format_date(d),
        None => String::new(),
    };
    let td_text = match &to_date {
        Some(d) => format_date(d),
        None => String::new(),
    };
    match (from_date, to_date) {
        (Some(f), Some(t)) => {
            let actual = CalculateTimelineTool::calendar_days_between(f, t);
            let status = match (c.min_days, c.max_days) {
                (Some(lo), Some(hi)) => if actual >= lo && actual <= hi { TimelineStatus::Pass } else { TimelineStatus::Fail },
                (Some(lo), None) => if actual >= lo { TimelineStatus::Pass } else { TimelineStatus::Fail },
                (None, Some(hi)) => if actual <= hi { TimelineStatus::Pass } else { TimelineStatus::Fail },
                (None, None) => TimelineStatus::Uncertain,
            };
            let detail = build_check_detail(status, actual, c.min_days, c.max_days);
            TimelineCheck {
                constraint: string_of(name.as_slice()),
                from_label: c.from.clone(),
                to_label: c.to.clone(),
                from_date: fd_text,
                to_date: td_text,
                actual_days: actual,
                required_min_days: c.min_days,
                required_max_days: c.max_days,
                status,
                legal_ref: clone_opt(&c.legal_basis),
                detail,
            }
        },
        _ => TimelineCheck {
            constraint: string_of(name.as_slice()),
            from_label: c.from.clone(),
            to_label: c.to.clone(),
            from_date: fd_text,
            to_date: td_text,
            actual_days: 0,
            required_min_days: c.min_days,
            required_max_days: c.max_days,
            status: TimelineStatus::Uncertain,
            legal_ref: clone_opt(&c.legal_basis),
            detail: String::from_str("日期解析失败，无法计算"),
        },
    }
}


// ─── the whole evaluation ───────────────────────────────────────

/// An event with its parse outcome, as values.
pub type ResolvedView = (Seq<char>, Seq<char>, bool, Option<Seq<char>>);

pub open spec fn resolved_view(e: ResolvedEvent) -> ResolvedView {
    (e.label@, e.date_str@, e.parsed, opt_view(e.event_type))
}

pub open spec fn resolved_views(v: Seq<ResolvedEvent>) -> Seq<ResolvedView> {
    v.map_values(|e: ResolvedEvent| resolved_view(e))
}

/// Every event, with whether its date parses.
pub open spec fn resolved_of(dates: Seq<DateEvent>) -> Seq<ResolvedView> {
    dates.map_values(|ev: DateEvent| (ev.label@, ev.date_str@, parse_date_spec(ev.date_str@) is Ok, opt_view(ev.event_type)))
}

/// How many of the checks have status `st`.
pub open spec fn count_status(checks: Seq<TimelineCheck>, st: TimelineStatus) -> nat
    decreases checks.len(),
{
    if checks.len() == 0 {
        0
    } else {
        count_status(checks.drop_last(), st) + if checks.last().status == st { 1nat } else { 0nat }
    }
}

/// The pieces of a non-compliant summary.
pub open spec fn summary_parts(fails: nat, contras: nat, bad: nat) -> Seq<Seq<char>> {
    let p0 = if fails > 0 { seq![num(fails as int) + " 项校验未通过"@] } else { Seq::<Seq<char>>::empty() };
    let p1 = if contras > 0 { p0.push(num(contras as int) + " 处逻辑矛盾"@) } else { p0 };
    if bad > 0 { p1.push(num(bad as int) + " 个日期解析失败"@) } else { p1 }
}

/// The overview line.
pub open spec fn summary_text(fails: nat, passes: nat, contras: nat, bad: nat) -> Seq<char> {
    if contras == 0 && fails == 0 {
        "✅ 时间线合规："@ + num(passes as int) + " 项校验全部通过，无逻辑矛盾。"@
    } else {
        "⚠️ "@ + join(summary_parts(fails, contras, bad), "，"@)
    }
}

pub open spec fn empty_dates_message() -> Seq<char> {
    "dates 不能为空"@
}

/// The checks of `r` are those of the constraints `cs`, one by one.
pub open spec fn checks_match(r: Seq<TimelineCheck>, evs: Seq<DatedLabel>, cs: Seq<ConstraintView>) -> bool {
    &&& r.len() == cs.len()
    &&& forall|i: int| 0 <= i < r.len() ==> #[trigger] check_matches(r[i], evs, cs[i])
}

/// What a successful evaluation holds.
pub open spec fn result_matches(res: TimelineResult, args: CalculateTimelineArgs) -> bool {
    let evs = date_map(args.dates@);
    let cs = inferred(args.dates@, args.constraints@);
    &&& resolved_views(res.events@) == resolved_of(args.dates@)
    &&& checks_match(res.checks@, evs, cs)
    &&& contradiction_views(res.contradictions@) == all_hits(evs, args.dates@, args.dates@.len() as int)
    &&& res.summary@ == summary_text(
        count_status(res.checks@, TimelineStatus::Fail),
        count_status(res.checks@, TimelineStatus::Pass),
        res.contradictions@.len(),
        parse_failures(args.dates@),
    )
}

fn count_exec(checks: &Vec<TimelineCheck>, st: TimelineStatus) -> (r: usize)
    ensures
        r == count_status(checks@, st),
{
    let mut n: usize = 0;
    let mut i: usize = 0;
    while i < checks.len()
        invariant
            i <= checks@.len(),
            n == count_status(checks@.subrange(0, i as int), st),
            n <= i,
        decreases checks@.len() - i,
    {
        proof {
            assert(checks@.subrange(0, i as int + 1).drop_last() =~= checks@.subrange(0, i as int));
        }
        if checks[i].status == st {
            n = n + 1;
        }
        i = i + 1;
    }
    assert(checks@.subrange(0, checks@.len() as int) =~= checks@);
    n
}

fn summary_exec(fails: usize, passes: usize, contras: usize, bad: usize) -> (r: String)
    ensures
        r@ == summary_text(fails as nat, passes as nat, contras as nat, bad as nat),
{
    let mut v: Vec<char> = Vec::new();
    if contras == 0 && fails == 0 {
        extend_str(&mut v, "✅ 时间线合规：");
        push_num(&mut v, passes as i128);
        extend_str(&mut v, " 项校验全部通过，无逻辑矛盾。");
        return string_of(v.as_slice());
    }
    let mut parts: Vec<Vec<char>> = Vec::new();
    if fails > 0 {
        let mut p: Vec<char> = Vec::new();
        push_num(&mut p, fails as i128);
        extend_str(&mut p, " 项校验未通过");
        parts.push(p);
    }
    if contras > 0 {
        let mut p: Vec<char> = Vec::new();
        push_num(&mut p, contras as i128);
        extend_str(&mut p, " 处逻辑矛盾");
        parts.push(p);
    }
    if bad > 0 {
        let mut p: Vec<char> = Vec::new();
        push_num(&mut p, bad as i128);
        extend_str(&mut p, " 个日期解析失败");
        parts.push(p);
    }
    assert(views(parts@) =~= summary_parts(fails as nat, contras as nat, bad as nat));
    let sep = chars_of("，");
    let body = join_chars(&parts, sep.as_slice());
    extend_str(&mut v, "⚠️ ");
    extend_chars(&mut v, body.as_slice());
    string_of(v.as_slice())
}

impl CalculateTimelineTool {
    /// The tool's name.
    pub fn name(&self) -> (r: &'static str)
        ensures
            r@ == "calculate_timeline"@,
    {
        "calculate_timeline"
    }

    /// Runs the whole evaluation: parse every date, add the inferred
    /// constraints, check each constraint, detect contradictions, summarise.
    /// Fails only when no dates are given.
    pub fn execute(&self, args: &CalculateTimelineArgs) -> (r: Result<TimelineResult, String>)
        ensures
            r is Err <==> args.dates@.len() == 0,
            r matches Err(e) ==> e@ == empty_dates_message(),
            r matches Ok(res) ==> result_matches(res, *args),
    {
        if args.dates.len() == 0 {
            return Err(String::from_str("dates 不能为空"));
        }
        let dates = &args.dates;
        let mut events_map: Vec<(String, Date)> = Vec::new();
        let mut resolved: Vec<ResolvedEvent> = Vec::new();
        let mut bad: usize = 0;
        let mut i: usize = 0;
        while i < dates.len()
            invariant
                i <= dates@.len(),
                dated_views(events_map@) == date_map(dates@.subrange(0, i as int)),
                resolved_views(resolved@) == resolved_of(dates@.subrange(0, i as int)),
                bad == parse_failures(dates@.subrange(0, i as int)),
                bad <= i,
            decreases dates@.len() - i,
        {
            let ev = &dates[i];
            let ghost pre = dates@.subrange(0, i as int);
            let ghost nxt = dates@.subrange(0, i as int + 1);
            let ghost em = events_map@;
            let ghost rs = resolved@;
            proof {
                assert(nxt.drop_last() =~= pre);
                assert(nxt.last() == *ev);
            }
            let parsed = CalculateTimelineTool::parse_date(ev.date_str.as_str());
            let ok = parsed.is_ok();
            match parsed {
                Ok(d) => {
                    events_map.push((ev.label.clone(), d));
                    assert(dated_views(events_map@) =~= dated_views(em).push((ev.label@, d)));
                },
                Err(_) => {
                    bad = bad + 1;
                },
            }
            let re = ResolvedEvent {
                label: ev.label.clone(),
                date_str: ev.date_str.clone(),
                parsed: ok,
                event_type: clone_opt(&ev.event_type),
            };
            resolved.push(re);
            proof {
                assert(resolved_views(resolved@) =~= resolved_views(rs).push(resolved_view(re)));
                assert(resolved_of(nxt) =~= resolved_of(pre).push(resolved_view(re)));
            }
            i = i + 1;
        }
        assert(dates@.subrange(0, dates@.len() as int) =~= dates@);
        let all_constraints = CalculateTimelineTool::infer_constraints(&args.dates, &args.constraints);
        let ghost cs = inferred(args.dates@, args.constraints@);
        let ghost evs = dated_views(events_map@);
        let mut checks: Vec<TimelineCheck> = Vec::new();
        let mut k: usize = 0;
        while k < all_constraints.len()
            invariant
                k <= all_constraints@.len(),
                constraint_views(all_constraints@) == cs,
                evs == dated_views(events_map@),
                checks@.len() == k,
                forall|j: int| 0 <= j < k ==> #[trigger] check_matches(checks@[j], evs, cs[j]),
            decreases all_constraints@.len() - k,
        {
            let ch = check_one(&events_map, &all_constraints[k]);
            assert(cs[k as int] == constraint_view(all_constraints@[k as int]));
            checks.push(ch);
            k = k + 1;
        }
        let contradictions = CalculateTimelineTool::detect_contradictions(&events_map, &args.dates);
        let fails = count_exec(&checks, TimelineStatus::Fail);
        let passes = count_exec(&checks, TimelineStatus::Pass);
        let summary = summary_exec(fails, passes, contradictions.len(), bad);
        Ok(TimelineResult { events: resolved, checks, contradictions, summary })
    }
}

} // verus!
