//! Core types of the multi-agent compliance review: clause risk tiers,
//! review clauses, severities, agent identities and configurations.
use vstd::prelude::*;
use std::collections::HashMap;
use crate::text::{all_ascii, ascii_lower, any_contained, any_in, chars_of, contains, eq_str, lowercase, lowercase_each, lowercase_strings, starts_with, starts_with_str, string_views, to_lowercase};

verus! {

// ─── risk tiers ─────────────────────────────────────────────────

/// Clause risk tier; decides the review depth (max turns) and routing.
#[derive(Debug, Clone, Copy, PartialEq, Eq, Structural)]
pub enum RiskTier {
    /// L1: formatting / purely informational clauses.
    Low,
    /// L2: standard review.
    Medium,
    /// L3: brand, locality or exclusivity signals.
    High,
}

/// Keywords that put a clause into tier L3.
pub open spec fn l3_keywords() -> Seq<&'static str> {
    seq![
        "品牌", "型号", "指定", "必须采用", "原厂", "专利", "专有技术",
        "本地", "东莞", "深圳", "本市", "所在地", "分支机构", "常驻",
        "唯一", "独家", "排他", "不接受替代", "原厂商授权",
        "制造商授权函", "项目授权", "★", "地域",
    ]
}

/// Keywords that put a clause into tier L1 (when no L3 keyword occurs).
pub open spec fn l1_keywords() -> Seq<&'static str> {
    seq![
        "格式", "装订", "密封", "签字", "盖章", "份数", "封面",
        "目录", "页码", "字体", "字号", "行距",
        "采购计划编号", "采购项目编号", "竞争性磋商文件",
        "磋商邀请", "投标邀请函",
    ]
}

/// Some keyword of `kws`, lower-cased, occurs in the lower-cased text `lt`.
pub open spec fn lowered_hit(lt: Seq<char>, kws: Seq<&'static str>) -> bool {
    exists|i: int| 0 <= i < kws.len() && contains(lt, lowercase(kws[i]@))
}

/// The tier of a lower-cased text against lower-cased L3 and L1 keywords:
/// `High` when it holds an L3 keyword, else `Low` when it holds an L1
/// keyword, else `Medium`.
pub open spec fn tier_of_lowered(lt: Seq<char>, l3: Seq<Seq<char>>, l1: Seq<Seq<char>>) -> RiskTier {
    if any_in(lt, l3) {
        RiskTier::High
    } else if any_in(lt, l1) {
        RiskTier::Low
    } else {
        RiskTier::Medium
    }
}

pub open spec fn word_views(ws: Seq<&'static str>) -> Seq<Seq<char>> {
    ws.map_values(|w: &'static str| w@)
}

proof fn lemma_lowered_hit(lt: Seq<char>, kws: Seq<&'static str>)
    ensures
        lowered_hit(lt, kws) == any_in(lt, lowercase_each(word_views(kws))),
{
    let lv = lowercase_each(word_views(kws));
    if lowered_hit(lt, kws) {
        let i = choose|i: int| 0 <= i < kws.len() && contains(lt, lowercase(kws[i]@));
        assert(lv[i] == lowercase(kws[i]@));
    }
    if any_in(lt, lv) {
        let i = choose|i: int| 0 <= i < lv.len() && #[trigger] contains(lt, lv[i]);
        assert(lv[i] == lowercase(kws[i]@));
    }
}

fn strings_of(ws: &[&'static str]) -> (r: Vec<String>)
    ensures
        string_views(r@) == word_views(ws@),
{
    let mut out: Vec<String> = Vec::new();
    let mut i: usize = 0;
    while i < ws.len()
        invariant
            i <= ws@.len(),
            string_views(out@) == word_views(ws@).subrange(0, i as int),
        decreases ws@.len() - i,
    {
        let w = String::from_str(ws[i]);
        let ghost before = string_views(out@);
        out.push(w);
        assert(string_views(out@) =~= before.push(ws@[i as int]@));
        assert(word_views(ws@).subrange(0, i as int + 1) =~= word_views(ws@).subrange(0, i as int).push(ws@[i as int]@));
        i = i + 1;
    }
    assert(word_views(ws@).subrange(0, ws@.len() as int) =~= word_views(ws@));
    out
}

/// The tier from a lower-cased clause text and the lower-cased L3 and L1
/// keywords.
pub fn tier_from_lowered(lowered_text: &str, lowered_l3: &Vec<String>, lowered_l1: &Vec<String>) -> (r: RiskTier)
    ensures
        r == tier_of_lowered(lowered_text@, string_views(lowered_l3@), string_views(lowered_l1@)),
{
    if any_contained(lowered_text, lowered_l3) {
        RiskTier::High
    } else if any_contained(lowered_text, lowered_l1) {
        RiskTier::Low
    } else {
        RiskTier::Medium
    }
}

/// The tier that keyword scanning assigns to a clause text.
pub open spec fn tier_of_text(text: Seq<char>) -> RiskTier {
    let lt = lowercase(text);
    if lowered_hit(lt, l3_keywords()) {
        RiskTier::High
    } else if lowered_hit(lt, l1_keywords()) {
        RiskTier::Low
    } else {
        RiskTier::Medium
    }
}

pub open spec fn tier_max_turns(t: RiskTier) -> usize {
    match t {
        RiskTier::Low => 8,
        RiskTier::Medium => 12,
        RiskTier::High => 14,
    }
}

impl RiskTier {
    /// Default max turns of the tier.
    pub fn max_turns(&self) -> (r: usize)
        ensures
            r == tier_max_turns(*self),
    {
        match self {
            RiskTier::Low => 8,
            RiskTier::Medium => 12,
            RiskTier::High => 14,
        }
    }

    /// Classifies a clause by keyword scanning of its lower-cased text:
    /// any L3 keyword gives `High`, otherwise any L1 keyword gives `Low`,
    /// otherwise `Medium`.
    pub fn from_clause_text(text: &str) -> (r: RiskTier)
        ensures
            r == tier_of_text(text@),
    {
        let lower = to_lowercase(text);
        let l3: [&'static str; 23] = [
            "品牌", "型号", "指定", "必须采用", "原厂", "专利", "专有技术",
            "本地", "东莞", "深圳", "本市", "所在地", "分支机构", "常驻",
            "唯一", "独家", "排他", "不接受替代", "原厂商授权",
            "制造商授权函", "项目授权", "★", "地域",
        ];
        let l1: [&'static str; 17] = [
            "格式", "装订", "密封", "签字", "盖章", "份数", "封面",
            "目录", "页码", "字体", "字号", "行距",
            "采购计划编号", "采购项目编号", "竞争性磋商文件",
            "磋商邀请", "投标邀请函",
        ];
        assert(l3@ == l3_keywords());
        assert(l1@ == l1_keywords());
        let k3 = lowercase_strings(&strings_of(l3.as_slice()));
        let k1 = lowercase_strings(&strings_of(l1.as_slice()));
        proof {
            lemma_lowered_hit(lower@, l3_keywords());
            lemma_lowered_hit(lower@, l1_keywords());
        }
        tier_from_lowered(lower.as_str(), &k3, &k1)
    }

    /// The tier's label: "L1", "L2" or "L3".
    pub fn to_string(&self) -> (r: String)
        ensures
            r@ == tier_label(*self)@,
    {
        match self {
            RiskTier::Low => String::from_str("L1"),
            RiskTier::Medium => String::from_str("L2"),
            RiskTier::High => String::from_str("L3"),
        }
    }
}

pub open spec fn tier_label(t: RiskTier) -> &'static str {
    match t {
        RiskTier::Low => "L1",
        RiskTier::Medium => "L2",
        RiskTier::High => "L3",
    }
}

impl Default for RiskTier {
    fn default() -> (r: Self)
        ensures
            r == RiskTier::Medium,
    {
        RiskTier::Medium
    }
}

// ─── review clauses ─────────────────────────────────────────────

/// The smallest unit routed to an agent: one chunk with its tier.
#[derive(Debug, Clone)]
pub struct ReviewClause {
    pub chunk_id: String,
    pub section_path: Vec<String>,
    pub text: String,
    pub page_start: usize,
    pub page_end: usize,
    pub tier: RiskTier,
    pub tier_max_turns: usize,
}

impl ReviewClause {
    /// A clause for a chunk, reviewed by the given text (the chunk's text
    /// with its section context); the tier comes from keyword scanning.
    pub fn from_chunk(chunk: &crate::read_section::Chunk, text: String) -> (r: ReviewClause)
        ensures
            r.chunk_id@ == chunk.chunk_id@,
            crate::text::string_views(r.section_path@) == crate::text::string_views(chunk.section_path@),
            r.text@ == text@,
            r.page_start == chunk.page_start,
            r.page_end == chunk.page_end,
            r.tier == tier_of_text(text@),
            r.tier_max_turns == tier_max_turns(tier_of_text(text@)),
    {
        let tier = RiskTier::from_clause_text(text.as_str());
        let tier_max_turns = tier.max_turns();
        let mut path: Vec<String> = Vec::new();
        let mut i: usize = 0;
        while i < chunk.section_path.len()
            invariant
                i <= chunk.section_path@.len(),
                crate::text::string_views(path@) == crate::text::string_views(chunk.section_path@).subrange(0, i as int),
            decreases chunk.section_path@.len() - i,
        {
            let ghost before = crate::text::string_views(path@);
            path.push(chunk.section_path[i].clone());
            assert(crate::text::string_views(path@) =~= before.push(chunk.section_path@[i as int]@));
            assert(crate::text::string_views(chunk.section_path@).subrange(0, i as int + 1)
                =~= crate::text::string_views(chunk.section_path@).subrange(0, i as int).push(chunk.section_path@[i as int]@));
            i = i + 1;
        }
        assert(crate::text::string_views(chunk.section_path@).subrange(0, chunk.section_path@.len() as int)
            =~= crate::text::string_views(chunk.section_path@));
        ReviewClause {
            chunk_id: chunk.chunk_id.clone(),
            section_path: path,
            text,
            page_start: chunk.page_start,
            page_end: chunk.page_end,
            tier,
            tier_max_turns,
        }
    }

    /// The turn budget for an agent: the tier's budget capped by the
    /// agent's own default.
    pub fn effective_max_turns(&self, agent_default: usize) -> (r: usize)
        ensures
            r == if self.tier_max_turns <= agent_default { self.tier_max_turns } else { agent_default },
    {
        if self.tier_max_turns <= agent_default {
            self.tier_max_turns
        } else {
            agent_default
        }
    }
}

// ─── severities ─────────────────────────────────────────────────

/// Severity of a finding, ordered `Info < Low < Medium < High`.
#[derive(Debug, Clone, Copy, PartialEq, Eq, Structural, PartialOrd, Ord)]
pub enum RiskSeverity {
    Info,
    Low,
    Medium,
    High,
}

pub open spec fn severity_rank(s: RiskSeverity) -> int {
    match s {
        RiskSeverity::Info => 0,
        RiskSeverity::Low => 1,
        RiskSeverity::Medium => 2,
        RiskSeverity::High => 3,
    }
}

pub open spec fn severity_label(s: RiskSeverity) -> &'static str {
    match s {
        RiskSeverity::High => "high",
        RiskSeverity::Medium => "medium",
        RiskSeverity::Low => "low",
        RiskSeverity::Info => "info",
    }
}

impl RiskSeverity {
    /// The severity's position in the order `Info < Low < Medium < High`.
    pub fn rank(&self) -> (r: u8)
        ensures
            r == severity_rank(*self),
    {
        match self {
            RiskSeverity::Info => 0,
            RiskSeverity::Low => 1,
            RiskSeverity::Medium => 2,
            RiskSeverity::High => 3,
        }
    }

    /// The lower-case label used in serialized findings.
    pub fn as_str(&self) -> (r: &'static str)
        ensures
            r@ == severity_label(*self)@,
    {
        match self {
            RiskSeverity::High => "high",
            RiskSeverity::Medium => "medium",
            RiskSeverity::Low => "low",
            RiskSeverity::Info => "info",
        }
    }
}

// ─── supporting records ─────────────────────────────────────────

/// A search source cited by a finding.
#[derive(Debug, Clone)]
pub struct Citation {
    pub title: String,
    pub url: String,
    pub site_name: String,
}

/// A new review agent that the blind-spot agent proposes.
#[derive(Debug, Clone)]
pub struct SuggestedAgent {
    pub agent_name: String,
    pub agent_prompt: String,
    pub section_keywords: Vec<String>,
    pub reason: String,
}

/// A law node of the session graph.
#[derive(Debug, Clone)]
pub struct LawNode {
    pub law_id: String,
    pub article_no: String,
    pub title: String,
}

/// A case node of the session graph.
#[derive(Debug, Clone)]
pub struct CaseNode {
    pub case_id: String,
    pub title: String,
    pub summary: String,
}

/// An agent node of the session graph.
#[derive(Debug, Clone)]
pub struct AgentNode {
    pub agent_id: AgentId,
    pub display_name: String,
    pub role: String,
}

/// Static configuration of one agent.
#[derive(Debug, Clone)]
pub struct AgentConfig {
    pub name: String,
    pub system_prompt: String,
    pub default_max_turns: usize,
    pub tool_names: Vec<String>,
}

/// The coordinator's review plan.
#[derive(Debug)]
pub struct ReviewPlan {
    pub document_id: String,
    pub parts: Vec<DocumentPart>,
}

/// One part of the document with its routing decision.
#[derive(Debug)]
pub struct DocumentPart {
    pub part_title: String,
    pub page_range: (usize, usize),
    pub clauses: Vec<ReviewClause>,
    pub assigned_agents: Vec<String>,
    pub skip_agents: Vec<String>,
    pub route_reason: String,
}

/// Outcome of the adversarial legal-basis check.
#[derive(Debug, Clone)]
pub struct LegalVerifyResult {
    pub verified: bool,
    pub correction: Option<String>,
    pub reason: String,
}

// ─── agent identities ───────────────────────────────────────────

/// Agent identity: the ten built-in agents and dynamic ones.
#[derive(Debug, Clone, Hash)]
pub enum AgentId {
    FactCheck,
    Procedure,
    RuleEngine,
    SemanticRisk,
    Scoring,
    Demand,
    Contract,
    BlindSpot,
    LegalVerify,
    Debate,
    Dynamic(String),
}

/// Identity of agents as values: same variant, and the same name for
/// dynamic agents.
pub open spec fn agent_id_eq(a: AgentId, b: AgentId) -> bool {
    match (a, b) {
        (AgentId::Dynamic(x), AgentId::Dynamic(y)) => x@ == y@,
        (AgentId::Dynamic(_), _) => false,
        (_, AgentId::Dynamic(_)) => false,
        _ => a == b,
    }
}

impl PartialEq for AgentId {
    fn eq(&self, other: &Self) -> (r: bool) {
        match (self, other) {
            (AgentId::FactCheck, AgentId::FactCheck) => true,
            (AgentId::Procedure, AgentId::Procedure) => true,
            (AgentId::RuleEngine, AgentId::RuleEngine) => true,
            (AgentId::SemanticRisk, AgentId::SemanticRisk) => true,
            (AgentId::Scoring, AgentId::Scoring) => true,
            (AgentId::Demand, AgentId::Demand) => true,
            (AgentId::Contract, AgentId::Contract) => true,
            (AgentId::BlindSpot, AgentId::BlindSpot) => true,
            (AgentId::LegalVerify, AgentId::LegalVerify) => true,
            (AgentId::Debate, AgentId::Debate) => true,
            (AgentId::Dynamic(x), AgentId::Dynamic(y)) => x.eq(y),
            _ => false,
        }
    }
}

impl vstd::std_specs::cmp::PartialEqSpecImpl for AgentId {
    open spec fn obeys_eq_spec() -> bool {
        true
    }

    open spec fn eq_spec(&self, other: &AgentId) -> bool {
        agent_id_eq(*self, *other)
    }
}

impl Eq for AgentId {}

/// The display name of an agent.
pub open spec fn agent_name(a: AgentId) -> Seq<char> {
    match a {
        AgentId::FactCheck => "FactCheckAgent"@,
        AgentId::Procedure => "ProcedureAgent"@,
        AgentId::RuleEngine => "RuleEngineAgent"@,
        AgentId::SemanticRisk => "SemanticRiskAgent"@,
        AgentId::Scoring => "ScoringAgent"@,
        AgentId::Demand => "DemandAgent"@,
        AgentId::Contract => "ContractAgent"@,
        AgentId::BlindSpot => "BlindSpotAgent"@,
        AgentId::LegalVerify => "LegalVerifyAgent"@,
        AgentId::Debate => "DebateAgent"@,
        AgentId::Dynamic(name) => name@,
    }
}

/// The agent that a name denotes, compared after lower-casing; names that
/// match no built-in agent denote a dynamic agent when they start with
/// `Dynamic_` (in any case), and the dynamic agent keeps the name as given.
pub open spec fn agent_of_name(s: Seq<char>) -> Option<AgentId> {
    agent_of_lowered(lowercase(s))
}

/// The agent that a lower-cased name denotes (the dynamic agent's name is
/// the name as given, which this does not see).
pub open spec fn agent_of_lowered(l: Seq<char>) -> Option<AgentId> {
    if l == "factcheck"@ || l == "fact_check"@ || l == "factcheckagent"@ {
        Some(AgentId::FactCheck)
    } else if l == "procedure"@ || l == "procedureagent"@ {
        Some(AgentId::Procedure)
    } else if l == "ruleengine"@ || l == "rule_engine"@ || l == "ruleengineagent"@ {
        Some(AgentId::RuleEngine)
    } else if l == "semanticrisk"@ || l == "semantic_risk"@ || l == "semanticriskagent"@ {
        Some(AgentId::SemanticRisk)
    } else if l == "scoring"@ || l == "scoringagent"@ {
        Some(AgentId::Scoring)
    } else if l == "demand"@ || l == "demandagent"@ {
        Some(AgentId::Demand)
    } else if l == "contract"@ || l == "contractagent"@ {
        Some(AgentId::Contract)
    } else if l == "blindspot"@ || l == "blind_spot"@ || l == "blindspotagent"@ {
        Some(AgentId::BlindSpot)
    } else if l == "legalverify"@ || l == "legal_verify"@ || l == "legalverifyagent"@ {
        Some(AgentId::LegalVerify)
    } else if l == "debate"@ || l == "debateagent"@ {
        Some(AgentId::Debate)
    } else if starts_with(l, "dynamic_"@) {
        Some(AgentId::Dynamic(arbitrary()))
    } else {
        None
    }
}

/// The display name of a built-in agent is ASCII, and lower-cased it is one
/// of the names that denote that agent.
proof fn lemma_display_name_lowered(a: AgentId)
    requires
        !(a is Dynamic),
    ensures
        all_ascii(agent_name(a)),
        agent_of_lowered(ascii_lower(agent_name(a))) == Some(a),
{
    match a {
        AgentId::FactCheck => {
            assert(ascii_lower("FactCheckAgent"@) =~= "factcheckagent"@ && all_ascii("FactCheckAgent"@)) by {
                reveal_strlit("FactCheckAgent");
                reveal_strlit("factcheckagent");
            }
            assert(agent_of_lowered("factcheckagent"@) == Some(AgentId::FactCheck)) by {
                reveal_strlit("factcheckagent");
                reveal_strlit("factcheck");
                reveal_strlit("fact_check");
            }
        },
        AgentId::Procedure => {
            assert(ascii_lower("ProcedureAgent"@) =~= "procedureagent"@ && all_ascii("ProcedureAgent"@)) by {
                reveal_strlit("ProcedureAgent");
                reveal_strlit("procedureagent");
            }
            assert(agent_of_lowered("procedureagent"@) == Some(AgentId::Procedure)) by {
                reveal_strlit("procedureagent");
                reveal_strlit("factcheck");
                reveal_strlit("fact_check");
                reveal_strlit("factcheckagent");
                assert("factcheckagent"@[0] != "procedureagent"@[0]);
                reveal_strlit("procedure");
            }
        },
        AgentId::RuleEngine => {
            assert(ascii_lower("RuleEngineAgent"@) =~= "ruleengineagent"@ && all_ascii("RuleEngineAgent"@)) by {
                reveal_strlit("RuleEngineAgent");
                reveal_strlit("ruleengineagent");
            }
            assert(agent_of_lowered("ruleengineagent"@) == Some(AgentId::RuleEngine)) by {
                reveal_strlit("ruleengineagent");
                reveal_strlit("factcheck");
                reveal_strlit("fact_check");
                reveal_strlit("factcheckagent");
                reveal_strlit("procedure");
                reveal_strlit("procedureagent");
                reveal_strlit("ruleengine");
                reveal_strlit("rule_engine");
            }
        },
        AgentId::SemanticRisk => {
            assert(ascii_lower("SemanticRiskAgent"@) =~= "semanticriskagent"@ && all_ascii("SemanticRiskAgent"@)) by {
                reveal_strlit("SemanticRiskAgent");
                reveal_strlit("semanticriskagent");
            }
            assert(agent_of_lowered("semanticriskagent"@) == Some(AgentId::SemanticRisk)) by {
                reveal_strlit("semanticriskagent");
                reveal_strlit("factcheck");
                reveal_strlit("fact_check");
                reveal_strlit("factcheckagent");
                reveal_strlit("procedure");
                reveal_strlit("procedureagent");
                reveal_strlit("ruleengine");
                reveal_strlit("rule_engine");
                reveal_strlit("ruleengineagent");
                reveal_strlit("semanticrisk");
                reveal_strlit("semantic_risk");
            }
        },
        AgentId::Scoring => {
            assert(ascii_lower("ScoringAgent"@) =~= "scoringagent"@ && all_ascii("ScoringAgent"@)) by {
                reveal_strlit("ScoringAgent");
                reveal_strlit("scoringagent");
            }
            assert(agent_of_lowered("scoringagent"@) == Some(AgentId::Scoring)) by {
                reveal_strlit("scoringagent");
                reveal_strlit("factcheck");
                reveal_strlit("fact_check");
                reveal_strlit("factcheckagent");
                reveal_strlit("procedure");
                reveal_strlit("procedureagent");
                reveal_strlit("ruleengine");
                reveal_strlit("rule_engine");
                reveal_strlit("ruleengineagent");
                reveal_strlit("semanticrisk");
                assert("semanticrisk"@[1] != "scoringagent"@[1]);
                reveal_strlit("semantic_risk");
                reveal_strlit("semanticriskagent");
                reveal_strlit("scoring");
            }
        },
        AgentId::Demand => {
            assert(ascii_lower("DemandAgent"@) =~= "demandagent"@ && all_ascii("DemandAgent"@)) by {
                reveal_strlit("DemandAgent");
                reveal_strlit("demandagent");
            }
            assert(agent_of_lowered("demandagent"@) == Some(AgentId::Demand)) by {
                reveal_strlit("demandagent");
                reveal_strlit("factcheck");
                reveal_strlit("fact_check");
                reveal_strlit("factcheckagent");
                reveal_strlit("procedure");
                reveal_strlit("procedureagent");
                reveal_strlit("ruleengine");
                reveal_strlit("rule_engine");
                assert("rule_engine"@[0] != "demandagent"@[0]);
                reveal_strlit("ruleengineagent");
                reveal_strlit("semanticrisk");
                reveal_strlit("semantic_risk");
                reveal_strlit("semanticriskagent");
                reveal_strlit("scoring");
                reveal_strlit("scoringagent");
                reveal_strlit("demand");
            }
        },
        AgentId::Contract => {
            assert(ascii_lower("ContractAgent"@) =~= "contractagent"@ && all_ascii("ContractAgent"@)) by {
                reveal_strlit("ContractAgent");
                reveal_strlit("contractagent");
            }
            assert(agent_of_lowered("contractagent"@) == Some(AgentId::Contract)) by {
                reveal_strlit("contractagent");
                reveal_strlit("factcheck");
                reveal_strlit("fact_check");
                reveal_strlit("factcheckagent");
                reveal_strlit("procedure");
                reveal_strlit("procedureagent");
                reveal_strlit("ruleengine");
                reveal_strlit("rule_engine");
                reveal_strlit("ruleengineagent");
                reveal_strlit("semanticrisk");
                reveal_strlit("semantic_risk");
                assert("semantic_risk"@[0] != "contractagent"@[0]);
                reveal_strlit("semanticriskagent");
                reveal_strlit("scoring");
                reveal_strlit("scoringagent");
                reveal_strlit("demand");
                reveal_strlit("demandagent");
                reveal_strlit("contract");
            }
        },
        AgentId::BlindSpot => {
            assert(ascii_lower("BlindSpotAgent"@) =~= "blindspotagent"@ && all_ascii("BlindSpotAgent"@)) by {
                reveal_strlit("BlindSpotAgent");
                reveal_strlit("blindspotagent");
            }
            assert(agent_of_lowered("blindspotagent"@) == Some(AgentId::BlindSpot)) by {
                reveal_strlit("blindspotagent");
                reveal_strlit("factcheck");
                reveal_strlit("fact_check");
                reveal_strlit("factcheckagent");
                assert("factcheckagent"@[0] != "blindspotagent"@[0]);
                reveal_strlit("procedure");
                reveal_strlit("procedureagent");
                assert("procedureagent"@[0] != "blindspotagent"@[0]);
                reveal_strlit("ruleengine");
                reveal_strlit("rule_engine");
                reveal_strlit("ruleengineagent");
                reveal_strlit("semanticrisk");
                reveal_strlit("semantic_risk");
                reveal_strlit("semanticriskagent");
                reveal_strlit("scoring");
                reveal_strlit("scoringagent");
                reveal_strlit("demand");
                reveal_strlit("demandagent");
                reveal_strlit("contract");
                reveal_strlit("contractagent");
                reveal_strlit("blindspot");
                reveal_strlit("blind_spot");
            }
        },
        AgentId::LegalVerify => {
            assert(ascii_lower("LegalVerifyAgent"@) =~= "legalverifyagent"@ && all_ascii("LegalVerifyAgent"@)) by {
                reveal_strlit("LegalVerifyAgent");
                reveal_strlit("legalverifyagent");
            }
            assert(agent_of_lowered("legalverifyagent"@) == Some(AgentId::LegalVerify)) by {
                reveal_strlit("legalverifyagent");
                reveal_strlit("factcheck");
                reveal_strlit("fact_check");
                reveal_strlit("factcheckagent");
                reveal_strlit("procedure");
                reveal_strlit("procedureagent");
                reveal_strlit("ruleengine");
                reveal_strlit("rule_engine");
                reveal_strlit("ruleengineagent");
                reveal_strlit("semanticrisk");
                reveal_strlit("semantic_risk");
                reveal_strlit("semanticriskagent");
                reveal_strlit("scoring");
                reveal_strlit("scoringagent");
                reveal_strlit("demand");
                reveal_strlit("demandagent");
                reveal_strlit("contract");
                reveal_strlit("contractagent");
                reveal_strlit("blindspot");
                reveal_strlit("blind_spot");
                reveal_strlit("blindspotagent");
                reveal_strlit("legalverify");
                reveal_strlit("legal_verify");
            }
        },
        AgentId::Debate => {
            assert(ascii_lower("DebateAgent"@) =~= "debateagent"@ && all_ascii("DebateAgent"@)) by {
                reveal_strlit("DebateAgent");
                reveal_strlit("debateagent");
            }
            assert(agent_of_lowered("debateagent"@) == Some(AgentId::Debate)) by {
                reveal_strlit("debateagent");
                reveal_strlit("factcheck");
                reveal_strlit("fact_check");
                reveal_strlit("factcheckagent");
                reveal_strlit("procedure");
                reveal_strlit("procedureagent");
                reveal_strlit("ruleengine");
                reveal_strlit("rule_engine");
                assert("rule_engine"@[0] != "debateagent"@[0]);
                reveal_strlit("ruleengineagent");
                reveal_strlit("semanticrisk");
                reveal_strlit("semantic_risk");
                reveal_strlit("semanticriskagent");
                reveal_strlit("scoring");
                reveal_strlit("scoringagent");
                reveal_strlit("demand");
                reveal_strlit("demandagent");
                assert("demandagent"@[2] != "debateagent"@[2]);
                reveal_strlit("contract");
                reveal_strlit("contractagent");
                reveal_strlit("blindspot");
                reveal_strlit("blind_spot");
                reveal_strlit("blindspotagent");
                reveal_strlit("legalverify");
                assert("legalverify"@[0] != "debateagent"@[0]);
                reveal_strlit("legal_verify");
                reveal_strlit("legalverifyagent");
                reveal_strlit("debate");
            }
        },
        AgentId::Dynamic(_) => {},
    }
}

/// The seven standard review agents.
pub open spec fn reviewers() -> Seq<AgentId> {
    seq![
        AgentId::FactCheck,
        AgentId::Procedure,
        AgentId::RuleEngine,
        AgentId::SemanticRisk,
        AgentId::Scoring,
        AgentId::Demand,
        AgentId::Contract,
    ]
}

impl AgentId {
    /// The seven review agents (all built-in agents but blind-spot, legal
    /// verification and debate).
    pub fn all_reviewers() -> (r: Vec<AgentId>)
        ensures
            r@ == reviewers(),
    {
        let r = vec![
            AgentId::FactCheck,
            AgentId::Procedure,
            AgentId::RuleEngine,
            AgentId::SemanticRisk,
            AgentId::Scoring,
            AgentId::Demand,
            AgentId::Contract,
        ];
        assert(r@ =~= reviewers());
        r
    }

    /// Parses an agent name (case-insensitively for the built-in names).
    /// The display name of every built-in agent parses back to that agent.
    pub fn from_str(s: &str) -> (r: Option<AgentId>)
        ensures
            match agent_of_name(s@) {
                None => r is None,
                Some(AgentId::Dynamic(_)) => r matches Some(AgentId::Dynamic(n)) && n@ == s@,
                Some(a) => r == Some(a),
            },
            forall|a: AgentId| !(a is Dynamic) && s@ == agent_name(a) ==> r == Some(a),
    {
        let lower = to_lowercase(s);
        proof {
            assert forall|a: AgentId| !(a is Dynamic) && s@ == agent_name(a) implies agent_of_lowered(lower@) == Some(a) by {
                lemma_display_name_lowered(a);
            }
        }
        AgentId::from_lowered(lower.as_str(), s)
    }

    /// Parses an agent name given lower-cased: `lowered` is the name
    /// lower-cased, `name` the name as given (a dynamic agent keeps it).
    pub fn from_lowered(lowered: &str, name: &str) -> (r: Option<AgentId>)
        ensures
            match agent_of_lowered(lowered@) {
                None => r is None,
                Some(AgentId::Dynamic(_)) => r matches Some(AgentId::Dynamic(n)) && n@ == name@,
                Some(a) => r == Some(a),
            },
    {
        let l = chars_of(lowered);
        let l = l.as_slice();
        if eq_str(l, "factcheck") || eq_str(l, "fact_check") || eq_str(l, "factcheckagent") {
            Some(AgentId::FactCheck)
        } else if eq_str(l, "procedure") || eq_str(l, "procedureagent") {
            Some(AgentId::Procedure)
        } else if eq_str(l, "ruleengine") || eq_str(l, "rule_engine") || eq_str(l, "ruleengineagent") {
            Some(AgentId::RuleEngine)
        } else if eq_str(l, "semanticrisk") || eq_str(l, "semantic_risk") || eq_str(l, "semanticriskagent") {
            Some(AgentId::SemanticRisk)
        } else if eq_str(l, "scoring") || eq_str(l, "scoringagent") {
            Some(AgentId::Scoring)
        } else if eq_str(l, "demand") || eq_str(l, "demandagent") {
            Some(AgentId::Demand)
        } else if eq_str(l, "contract") || eq_str(l, "contractagent") {
            Some(AgentId::Contract)
        } else if eq_str(l, "blindspot") || eq_str(l, "blind_spot") || eq_str(l, "blindspotagent") {
            Some(AgentId::BlindSpot)
        } else if eq_str(l, "legalverify") || eq_str(l, "legal_verify") || eq_str(l, "legalverifyagent") {
            Some(AgentId::LegalVerify)
        } else if eq_str(l, "debate") || eq_str(l, "debateagent") {
            Some(AgentId::Debate)
        } else {
            if starts_with_str(l, "dynamic_") {
                Some(AgentId::Dynamic(String::from_str(name)))
            } else {
                None
            }
        }
    }

    /// The agent's display name (`FactCheckAgent`, ..., or the dynamic name).
    pub fn to_string(&self) -> (r: String)
        ensures
            r@ == agent_name(*self),
    {
        match self {
            AgentId::FactCheck => String::from_str("FactCheckAgent"),
            AgentId::Procedure => String::from_str("ProcedureAgent"),
            AgentId::RuleEngine => String::from_str("RuleEngineAgent"),
            AgentId::SemanticRisk => String::from_str("SemanticRiskAgent"),
            AgentId::Scoring => String::from_str("ScoringAgent"),
            AgentId::Demand => String::from_str("DemandAgent"),
            AgentId::Contract => String::from_str("ContractAgent"),
            AgentId::BlindSpot => String::from_str("BlindSpotAgent"),
            AgentId::LegalVerify => String::from_str("LegalVerifyAgent"),
            AgentId::Debate => String::from_str("DebateAgent"),
            AgentId::Dynamic(name) => name.clone(),
        }
    }
}

/// Agent complexity class.
#[derive(Debug, Clone, Copy, PartialEq, Eq, Structural)]
pub enum AgentComplexity {
    Low,
    Medium,
    High,
}

/// Static definition of an agent (strategy pattern).
#[derive(Debug, Clone)]
pub struct AgentDefinition {
    pub id: AgentId,
    pub display_name: &'static str,
    pub system_prompt: &'static str,
    pub default_max_turns: usize,
    pub complexity: AgentComplexity,
    pub section_keywords: &'static [&'static str],
    pub tool_names: &'static [&'static str],
}

impl AgentDefinition {
    /// The runtime configuration of this agent.
    pub fn to_agent_config(&self) -> (r: AgentConfig)
        ensures
            r.name@ == agent_name(self.id),
            r.system_prompt@ == self.system_prompt@,
            r.default_max_turns == self.default_max_turns,
            r.tool_names@.len() == self.tool_names@.len(),
            forall|i: int| 0 <= i < r.tool_names@.len() ==> #[trigger] r.tool_names@[i]@ == self.tool_names@[i]@,
    {
        let mut tools: Vec<String> = Vec::new();
        let mut i: usize = 0;
        while i < self.tool_names.len()
            invariant
                i <= self.tool_names@.len(),
                tools@.len() == i,
                forall|k: int| 0 <= k < i ==> #[trigger] tools@[k]@ == self.tool_names@[k]@,
            decreases self.tool_names@.len() - i,
        {
            tools.push(String::from_str(self.tool_names[i]));
            i = i + 1;
        }
        AgentConfig {
            name: self.id.to_string(),
            system_prompt: String::from_str(self.system_prompt),
            default_max_turns: self.default_max_turns,
            tool_names: tools,
        }
    }
}

/// Runtime configuration of the coordinator.
#[derive(Debug, Clone)]
pub struct CoordinatorConfig {
    pub enabled_agents: Vec<AgentId>,
    pub enable_legal_verify: bool,
    pub legal_verify_max_turns: usize,
    pub blind_spot_max_turns: usize,
    pub blind_spot_fallback_enabled: bool,
}

impl Default for CoordinatorConfig {
    fn default() -> (r: Self)
        ensures
            r.enabled_agents@ == reviewers(),
            r.enable_legal_verify,
            r.legal_verify_max_turns == 3,
            r.blind_spot_max_turns == 10,
            r.blind_spot_fallback_enabled,
    {
        CoordinatorConfig {
            enabled_agents: AgentId::all_reviewers(),
            enable_legal_verify: true,
            legal_verify_max_turns: 3,
            blind_spot_max_turns: 10,
            blind_spot_fallback_enabled: true,
        }
    }
}

/// A dynamic agent definition as persisted by the coordinator.
#[derive(Debug, Clone)]
pub struct DynamicAgentDefinition {
    pub id: String,
    pub display_name: String,
    pub system_prompt: String,
    pub default_max_turns: usize,
    pub complexity: AgentComplexity,
    pub section_keywords: Vec<String>,
    pub tool_names: Vec<String>,
    pub created_at: String,
    pub created_by: String,
    pub reason: String,
    pub active: bool,
}

/// The manifest of dynamic agents.
#[derive(Debug, Clone)]
pub struct DynamicAgentManifest {
    pub version: u32,
    pub agents: Vec<DynamicAgentDefinition>,
}

/// Routing and review statistics.
#[derive(Debug, Clone)]
pub struct RoutingSummary {
    pub total_clauses: usize,
    pub agent_clause_counts: HashMap<String, usize>,
    pub high_risk_count: usize,
    pub legal_verify_count: usize,
    pub blind_spot_findings: usize,
}

/// A clause node of the session graph.
#[derive(Debug, Clone)]
pub struct ChunkNode {
    pub chunk_id: String,
    pub section_path: Vec<String>,
    pub page_start: usize,
    pub page_end: usize,
    pub text_preview: String,
    pub tier: RiskTier,
}

/// Target of a `linked_to` edge with its reason.
#[derive(Debug, Clone)]
pub struct LinkedChunk {
    pub chunk_id: String,
    pub reason: String,
}

} // verus!
