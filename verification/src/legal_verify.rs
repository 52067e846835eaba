//! The legal-basis check of findings: which findings are checked, the task
//! handed to the checking agent for each, and how its answers find their way
//! back to the findings they concern.
use vstd::prelude::*;
use crate::text::{chars_of, extend_chars, extend_str, join, join_strings, starts_with, starts_with_str, string_of, string_views};
use crate::types::{ReviewClause, RiskTier};

verus! {

/// What the check reads of a finding.
#[derive(Debug, Clone)]
pub struct LegalVerifyInput {
    pub risk_id: String,
    pub risk_type: String,
    pub agent: String,
    pub no_risk: bool,
    pub source_quote: String,
    pub legal_basis: Vec<String>,
    pub reason: String,
}

/// A finding is checked when it reports a risk and cites some law.
pub open spec fn needs_check(f: LegalVerifyInput) -> bool {
    !f.no_risk && f.legal_basis@.len() > 0
}

/// Whether a finding is checked.
pub fn needs_legal_verify(f: &LegalVerifyInput) -> (r: bool)
    ensures
        r == needs_check(*f),
{
    !f.no_risk && f.legal_basis.len() > 0
}

/// The first 500 characters.
pub open spec fn head500(s: Seq<char>) -> Seq<char> {
    if s.len() <= 500 { s } else { s.subrange(0, 500) }
}

pub(crate) fn head500_exec(s: &str) -> (r: Vec<char>)
    ensures
        r@ == head500(s@),
{
    let c = chars_of(s);
    if c.len() <= 500 {
        return c;
    }
    let mut out: Vec<char> = Vec::new();
    let mut i: usize = 0;
    while i < 500
        invariant
            i <= 500,
            500 < c@.len(),
            out@ == c@.subrange(0, i as int),
        decreases 500 - i,
    {
        out.push(c[i]);
        assert(c@.subrange(0, i as int + 1) =~= c@.subrange(0, i as int).push(c@[i as int]));
        i = i + 1;
    }
    out
}

/// The task text for one finding: its id, type and agent, the first 500
/// characters of its quote, its legal basis, the first 500 characters of its
/// reasoning, and what the checking agent must do.
pub open spec fn task_text(f: LegalVerifyInput) -> Seq<char> {
    "## 法条验证任务\n\n请验证以下风险发现中的法条引用是否真实、准确、适用：\n\n"@
        + "risk_id="@ + f.risk_id@ + " | risk_type="@ + f.risk_type@ + " | agent="@ + f.agent@ + "\n"@
        + "条款文本: "@ + head500(f.source_quote@) + "\n"@
        + "法条引用: "@ + join(string_views(f.legal_basis@), "; "@) + "\n"@
        + "推理: "@ + head500(f.reason@) + "\n\n"@
        + "请对上述法条引用进行对抗性验证，使用 output_finding 输出验证结论。\n\n"@
        + "🛑 无论验证通过或修正，每条 legal_basis 必须包含可验证的 URL 链接（Markdown 格式: [法条名](URL)），禁止输出纯文本法条名。"@
}

/// Writes the task text for one finding.
pub fn format_single_legal_verify_task(f: &LegalVerifyInput) -> (r: String)
    ensures
        r@ == task_text(*f),
{
    let mut v: Vec<char> = Vec::new();
    extend_str(&mut v, "## 法条验证任务\n\n请验证以下风险发现中的法条引用是否真实、准确、适用：\n\n");
    extend_str(&mut v, "risk_id=");
    extend_str(&mut v, f.risk_id.as_str());
    extend_str(&mut v, " | risk_type=");
    extend_str(&mut v, f.risk_type.as_str());
    extend_str(&mut v, " | agent=");
    extend_str(&mut v, f.agent.as_str());
    extend_str(&mut v, "\n");
    extend_str(&mut v, "条款文本: ");
    let q = head500_exec(f.source_quote.as_str());
    extend_chars(&mut v, q.as_slice());
    extend_str(&mut v, "\n");
    extend_str(&mut v, "法条引用: ");
    let lb = join_strings(&f.legal_basis, "; ");
    extend_chars(&mut v, lb.as_slice());
    extend_str(&mut v, "\n");
    extend_str(&mut v, "推理: ");
    let rs = head500_exec(f.reason.as_str());
    extend_chars(&mut v, rs.as_slice());
    extend_str(&mut v, "\n\n");
    extend_str(&mut v, "请对上述法条引用进行对抗性验证，使用 output_finding 输出验证结论。\n\n");
    extend_str(&mut v, "🛑 无论验证通过或修正，每条 legal_basis 必须包含可验证的 URL 链接（Markdown 格式: [法条名](URL)），禁止输出纯文本法条名。");
    assert(v@ =~= task_text(*f));
    string_of(v.as_slice())
}

/// The clause that carries the task for one finding: its id is the
/// finding's id after `legal_verify_`, medium tier, six turns.
pub fn legal_verify_clause(f: &LegalVerifyInput) -> (r: ReviewClause)
    ensures
        r.chunk_id@ == "legal_verify_"@ + f.risk_id@,
        string_views(r.section_path@) == seq!["法条验证"@, f.risk_id@],
        r.text@ == task_text(*f),
        r.page_start == 0,
        r.page_end == 0,
        r.tier == RiskTier::Medium,
        r.tier_max_turns == 6,
{
    let mut id: Vec<char> = Vec::new();
    extend_str(&mut id, "legal_verify_");
    extend_str(&mut id, f.risk_id.as_str());
    let mut path: Vec<String> = Vec::new();
    path.push(String::from_str("法条验证"));
    path.push(f.risk_id.clone());
    assert(string_views(path@) =~= seq!["法条验证"@, f.risk_id@]);
    ReviewClause {
        chunk_id: string_of(id.as_slice()),
        section_path: path,
        text: format_single_legal_verify_task(f),
        page_start: 0,
        page_end: 0,
        tier: RiskTier::Medium,
        tier_max_turns: 6,
    }
}

/// The finding id that a checking clause id carries: what follows
/// `legal_verify_`, empty when the id does not start with it.
pub open spec fn verified_id(clause_id: Seq<char>) -> Seq<char> {
    if starts_with(clause_id, "legal_verify_"@) {
        clause_id.subrange("legal_verify_"@.len() as int, clause_id.len() as int)
    } else {
        Seq::<char>::empty()
    }
}

/// Reads the finding id back from a checking clause id.
pub fn verified_risk_id(clause_id: &str) -> (r: String)
    ensures
        r@ == verified_id(clause_id@),
{
    let c = chars_of(clause_id);
    if starts_with_str(c.as_slice(), "legal_verify_") {
        let p = chars_of("legal_verify_");
        let mut out: Vec<char> = Vec::new();
        let mut i: usize = p.len();
        while i < c.len()
            invariant
                p@ == "legal_verify_"@,
                p@.len() <= i <= c@.len(),
                out@ == c@.subrange(p@.len() as int, i as int),
            decreases c@.len() - i,
        {
            out.push(c[i]);
            assert(c@.subrange(p@.len() as int, i as int + 1) =~= c@.subrange(p@.len() as int, i as int).push(c@[i as int]));
            i = i + 1;
        }
        string_of(out.as_slice())
    } else {
        String::new()
    }
}

} // verus!
