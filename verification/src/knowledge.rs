//! The knowledge base's entities: risks and the laws and articles they cite,
//! with deterministic ids so that the same entity found twice is one node.
use vstd::prelude::*;
use sha2::{Digest, Sha256};
use crate::numbers::{dec, fmt_int_exec};
use crate::text::{chars_of, extend_chars, slice_range, string_of, trim, trim_chars};

verus! {

/// Whether an entity is new to the knowledge base.
#[derive(Debug, Clone, Copy, PartialEq, Eq, Structural)]
pub enum Decision {
    /// Not stored yet: to be written.
    New,
    /// Already stored: skipped.
    Exists,
}

/// A risk, identified by its type.
#[derive(Debug, Clone)]
pub struct RiskEntity {
    /// `deterministic_id("risk:" + risk_type)`.
    pub id: String,
    pub name: String,
    /// "high" / "medium" / "low" / "info".
    pub severity: String,
}

/// A law, and optionally one of its articles.
#[derive(Debug, Clone)]
pub struct LawArticleEntity {
    /// `deterministic_id(law_name)`.
    pub law_id: String,
    pub law_name: String,
    /// `deterministic_id(law_id + ":" + article_no)` when there is an article.
    pub article_id: Option<String>,
    /// Normalised article number ("第20条").
    pub article_no: Option<String>,
}

/// What to do with one candidate.
#[derive(Debug, Clone)]
pub struct EntityDecision {
    pub candidate_id: String,
    pub decision: Decision,
    pub risk: RiskEntity,
    pub laws: Vec<LawArticleEntity>,
    /// Evidence quote shown with the risk.
    pub snippet: String,
}

/// A risk found in the knowledge base.
#[derive(Debug, Clone)]
pub struct SearchHit {
    pub risk: RiskEntity,
    pub laws: Vec<LawArticleEntity>,
    /// Candidates (from past reviews) that reported this risk.
    pub candidate_ids: Vec<String>,
    pub snippet: String,
}

// ─── deterministic ids ──────────────────────────────────────────

/// The SHA-256 digest of the UTF-8 encoding of a text.
pub uninterp spec fn sha256_digest(text: Seq<char>) -> Seq<u8>;

/// `Sha256::digest` of the text's bytes.
///
/// Claimed: the digest is a function of the text, and is 32 bytes long.
#[verifier::external_body]
fn sha256_of(text: &str) -> (r: Vec<u8>)
    ensures
        r@ == sha256_digest(text@),
        r@.len() == 32,
{
    Sha256::digest(text.as_bytes()).to_vec()
}

pub open spec fn hex_digit(n: u8) -> char
    recommends
        n < 16,
{
    if n < 10 { ((n + 48) as u32) as char } else { ((n + 87) as u32) as char }
}

/// Lower-case hex of the given bytes.
pub open spec fn hex_of(bytes: Seq<u8>) -> Seq<char>
    decreases bytes.len(),
{
    if bytes.len() == 0 {
        Seq::<char>::empty()
    } else {
        hex_of(bytes.drop_last()) + seq![hex_digit(bytes.last() / 16), hex_digit(bytes.last() % 16)]
    }
}

/// The first 8 hex digits of the text's SHA-256 digest.
pub open spec fn id_of(text: Seq<char>) -> Seq<char> {
    hex_of(sha256_digest(text).subrange(0, 4))
}

fn hex_digit_exec(n: u8) -> (c: char)
    requires
        n < 16,
    ensures
        c == hex_digit(n),
{
    if n < 10 { (n + 48) as char } else { (n + 87) as char }
}

/// Deterministic id: the first 8 hex digits of SHA-256 of the input.
pub fn deterministic_id(input: &str) -> (r: String)
    ensures
        r@ == id_of(input@),
        sha256_digest(input@).len() == 32,
        r@.len() == 8,
        forall|i: int| 0 <= i < 8 ==> {
            let c = #[trigger] r@[i];
            ('0' <= c && c <= '9') || ('a' <= c && c <= 'f')
        },
{
    let d = sha256_of(input);
    proof {
        crate::laws::law_ids_are_eight_hex_digits(input@);
    }
    let mut v: Vec<char> = Vec::new();
    let mut i: usize = 0;
    while i < 4
        invariant
            i <= 4,
            d@.len() == 32,
            v@ == hex_of(d@.subrange(0, i as int)),
        decreases 4 - i,
    {
        let b = d[i];
        v.push(hex_digit_exec(b / 16));
        v.push(hex_digit_exec(b % 16));
        proof {
            let nxt = d@.subrange(0, i as int + 1);
            assert(nxt.drop_last() =~= d@.subrange(0, i as int));
            assert(nxt.last() == b);
            assert(v@ =~= hex_of(d@.subrange(0, i as int)) + seq![hex_digit(b / 16), hex_digit(b % 16)]);
        }
        i = i + 1;
    }
    string_of(v.as_slice())
}

// ─── article numbers ────────────────────────────────────────────

pub open spec fn cn_digit(c: char) -> Option<u128> {
    if c == '零' || c == '〇' { Some(0) }
    else if c == '一' { Some(1) }
    else if c == '二' || c == '两' { Some(2) }
    else if c == '三' { Some(3) }
    else if c == '四' { Some(4) }
    else if c == '五' { Some(5) }
    else if c == '六' { Some(6) }
    else if c == '七' { Some(7) }
    else if c == '八' { Some(8) }
    else if c == '九' { Some(9) }
    else { None }
}

pub open spec fn cn_unit(c: char) -> Option<u128> {
    if c == '十' { Some(10) } else if c == '百' { Some(100) } else if c == '千' { Some(1000) } else { None }
}

pub open spec fn cn_numeral(c: char) -> bool {
    cn_digit(c) is Some || cn_unit(c) is Some
}

/// Reading a Chinese numeral left to right: (total so far, pending digit).
pub open spec fn cn_fold(s: Seq<char>, k: int) -> (nat, nat)
    decreases k,
{
    if k <= 0 {
        (0, 0)
    } else {
        let p = cn_fold(s, k - 1);
        let c = s[k - 1];
        match cn_digit(c) {
            Some(d) => (p.0, d as nat),
            None => match cn_unit(c) {
                Some(u) => ((p.0 + (if p.1 == 0 { 1nat } else { p.1 }) * (u as nat)) as nat, 0),
                None => p,
            },
        }
    }
}

/// The value of a Chinese numeral ("二十二" is 22, "十二" is 12, "一百零五" is 105).
pub open spec fn cn_value(s: Seq<char>) -> nat {
    let p = cn_fold(s, s.len() as int);
    p.0 + p.1
}

/// An article number with its Chinese numeral written in digits; any other
/// text is only trimmed.
pub open spec fn normalized_article(no: Seq<char>) -> Seq<char> {
    let t = trim(no);
    if t.len() >= 3 && t[0] == '第' && t.last() == '条'
        && forall|i: int| 1 <= i < t.len() - 1 ==> #[trigger] cn_numeral(t[i]) {
        seq!['第'] + dec(cn_value(t.subrange(1, t.len() - 1))) + seq!['条']
    } else {
        t
    }
}

fn cn_digit_exec(c: char) -> (r: Option<u128>)
    ensures
        r == cn_digit(c),
{
    if c == '零' || c == '〇' { Some(0) }
    else if c == '一' { Some(1) }
    else if c == '二' || c == '两' { Some(2) }
    else if c == '三' { Some(3) }
    else if c == '四' { Some(4) }
    else if c == '五' { Some(5) }
    else if c == '六' { Some(6) }
    else if c == '七' { Some(7) }
    else if c == '八' { Some(8) }
    else if c == '九' { Some(9) }
    else { None }
}

fn cn_unit_exec(c: char) -> (r: Option<u128>)
    ensures
        r == cn_unit(c),
{
    if c == '十' { Some(10) } else if c == '百' { Some(100) } else if c == '千' { Some(1000) } else { None }
}

proof fn lemma_cn_fold_bound(s: Seq<char>, k: int)
    requires
        0 <= k <= s.len(),
    ensures
        cn_fold(s, k).0 <= 9000 * k,
        cn_fold(s, k).1 <= 9,
    decreases k,
{
    if k > 0 {
        lemma_cn_fold_bound(s, k - 1);
        let p = cn_fold(s, k - 1);
        match cn_unit(s[k - 1]) {
            Some(u) => {
                assert((if p.1 == 0 { 1 } else { p.1 }) * u <= 9000) by (nonlinear_arith)
                    requires p.1 <= 9, u <= 1000;
            },
            None => {},
        }
    }
}

/// Writes an article number's Chinese numeral in digits: "第二十二条" is
/// "第22条".
pub fn normalize_article_no(no: &str) -> (r: String)
    ensures
        r@ == normalized_article(no@),
{
    let nc = chars_of(no);
    let t = trim_chars(nc.as_slice());
    let n = t.len();
    if !(n >= 3 && t[0] == '第' && t[n - 1] == '条') {
        return string_of(t.as_slice());
    }
    let mut total: u128 = 0;
    let mut cur: u128 = 0;
    let mut i: usize = 1;
    let ghost inner = t@.subrange(1, n - 1);
    while i < n - 1
        invariant
            1 <= i <= n - 1,
            n == t@.len(),
            t@ == trim(no@),
            t@[0] == '第' && t@[n - 1] == '条',
            n >= 3,
            inner == t@.subrange(1, n - 1),
            forall|k: int| 1 <= k < i ==> #[trigger] cn_numeral(t@[k]),
            (total as nat, cur as nat) == cn_fold(inner, i - 1),
            total <= 9000 * (i - 1),
            cur <= 9,
        decreases n - 1 - i,
    {
        let c = t[i];
        assert(inner[i - 1] == c);
        proof {
            lemma_cn_fold_bound(inner, i as int);
        }
        match cn_digit_exec(c) {
            Some(d) => {
                cur = d;
            },
            None => match cn_unit_exec(c) {
                Some(u) => {
                    let m: u128 = if cur == 0 { 1 } else { cur };
                    assert(m * u <= 9000) by (nonlinear_arith)
                        requires m <= 9, u <= 1000;
                    total = total + m * u;
                    cur = 0;
                },
                None => {
                    assert(!cn_numeral(t@[i as int]));
                    return string_of(t.as_slice());
                },
            },
        }
        i = i + 1;
    }
    let value = total + cur;
    let mut v: Vec<char> = Vec::new();
    v.push('第');
    let digits = fmt_int_exec(value as i128, 0);
    extend_chars(&mut v, digits.as_slice());
    v.push('条');
    proof {
        assert(cn_value(inner) == value);
        assert(v@ =~= seq!['第'] + dec(cn_value(inner)) + seq!['条']);
    }
    string_of(v.as_slice())
}

// ─── legal references ───────────────────────────────────────────

/// First index of `c` at or after `k` (`s.len()` if none).
pub open spec fn index_of(s: Seq<char>, c: char, k: int) -> int
    decreases s.len() - k,
{
    if k < 0 || k >= s.len() {
        s.len() as int
    } else if s[k] == c {
        k
    } else {
        index_of(s, c, k + 1)
    }
}

/// The article cited in a text: from its first `第` to the first `条` after it.
pub open spec fn cited_article(rest: Seq<char>) -> Option<Seq<char>> {
    let i = index_of(rest, '第', 0);
    let j = index_of(rest, '条', i);
    if i < rest.len() && j < rest.len() {
        Some(normalized_article(rest.subrange(i, j + 1)))
    } else {
        None
    }
}

/// A legal reference split into law name and normalised article number:
/// the name inside `《》` when there is one, else the text before `第`.
pub open spec fn legal_basis_parts(quote: Seq<char>) -> (Seq<char>, Option<Seq<char>>) {
    let t = trim(quote);
    let a = index_of(t, '《', 0);
    let b = index_of(t, '》', a);
    if a < t.len() && b < t.len() {
        (t.subrange(a + 1, b), cited_article(t.subrange(b + 1, t.len() as int)))
    } else {
        let f = index_of(t, '第', 0);
        (trim(t.subrange(0, f)), cited_article(t.subrange(f, t.len() as int)))
    }
}

fn index_of_exec(s: &[char], c: char, k: usize) -> (r: usize)
    requires
        k <= s@.len(),
    ensures
        r == index_of(s@, c, k as int),
        k <= r <= s@.len(),
        r < s@.len() ==> s@[r as int] == c,
{
    let mut i = k;
    while i < s.len() && s[i] != c
        invariant
            k <= i <= s@.len(),
            index_of(s@, c, k as int) == index_of(s@, c, i as int),
        decreases s@.len() - i,
    {
        i = i + 1;
    }
    i
}

fn cited_article_exec(rest: &[char]) -> (r: Option<String>)
    ensures
        match r {
            Some(x) => cited_article(rest@) == Some(x@),
            None => cited_article(rest@) is None,
        },
{
    let i = index_of_exec(rest, '第', 0);
    if i >= rest.len() {
        return None;
    }
    let j = index_of_exec(rest, '条', i);
    if j >= rest.len() {
        return None;
    }
    let part = slice_range(rest, i, j + 1);
    let ps = string_of(part.as_slice());
    Some(normalize_article_no(ps.as_str()))
}

/// Splits a legal reference into law name and article:
/// "《政府采购法实施条例》第二十条" is ("政府采购法实施条例", "第20条").
pub fn parse_legal_basis(quote: &str) -> (r: (String, Option<String>))
    ensures
        r.0@ == legal_basis_parts(quote@).0,
        match r.1 {
            Some(x) => legal_basis_parts(quote@).1 == Some(x@),
            None => legal_basis_parts(quote@).1 is None,
        },
{
    let qc = chars_of(quote);
    let t = trim_chars(qc.as_slice());
    let n = t.len();
    let a = index_of_exec(t.as_slice(), '《', 0);
    let b = if a < n { index_of_exec(t.as_slice(), '》', a) } else { n };
    assert(a >= n ==> index_of(t@, '》', a as int) == n);
    if a < n && b < n {
        let name = slice_range(t.as_slice(), a + 1, b);
        let rest = slice_range(t.as_slice(), b + 1, n);
        (string_of(name.as_slice()), cited_article_exec(rest.as_slice()))
    } else {
        let f = index_of_exec(t.as_slice(), '第', 0);
        let head = slice_range(t.as_slice(), 0, f);
        let name = trim_chars(head.as_slice());
        let rest = slice_range(t.as_slice(), f, n);
        (string_of(name.as_slice()), cited_article_exec(rest.as_slice()))
    }
}

} // verus!
