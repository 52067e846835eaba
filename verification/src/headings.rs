//! Recognition of numbered headings on single lines of a bid document.
//!
//! | kind           | level | example          |
//! |----------------|-------|------------------|
//! | `part`         | 1     | 第一部分投标邀请 |
//! | `chapter`      | 1     | 第一章 磋商邀请  |
//! | `section`      | 2     | 第一节 项目概况  |
//! | `cjk_numbered` | 2     | 一、项目概述     |
//! | `paren_cjk`    | 3     | （一）资格要求   |
//! | `digit_dot`    | 4     | 1. 供应商资格    |
//! | `paren_digit`  | 5     | （1）营业执照    |
//! | `article`      | 4     | 第九条 工程支付  |
use vstd::prelude::*;
use crate::patterns::{is_match, match_starts, regex_match_starts, regex_matches};
use crate::text::{chars_of, has_char, has_char_exec, string_views, is_ascii_digit, slice_range, string_of, trim, trim_chars, trim_start, trim_start_chars};

verus! {

pub const PART_PATTERN: &'static str = r"^第[一二三四五六七八九十百千]+部分";
pub const CHAPTER_PATTERN: &'static str = r"^第[一二三四五六七八九十百千]+章";
pub const SECTION_PATTERN: &'static str = r"^第[一二三四五六七八九十百千]+节";
pub const CJK_NUMBERED_PATTERN: &'static str = r"^[一二三四五六七八九十百千]+[、.．]\s*\S";
pub const PAREN_CJK_PATTERN: &'static str = r"^[（(][一二三四五六七八九十百千]+[）)]\s*\S";
pub const DIGIT_DOT_PATTERN: &'static str = r"^\d+[.、)）]\s*\S";
pub const PAREN_DIGIT_PATTERN: &'static str = r"^[（(]\d+[）)]\s*\S";
pub const ARTICLE_PATTERN: &'static str = r"^第[一二三四五六七八九十百千]+条";
/// A closing parenthesis directly followed by a number and a separator.
pub const INLINE_HEADING_PATTERN: &'static str = r"[)）](\d+[.、)）])";

/// The kinds of heading; the first eight are tried in this order.
#[derive(Debug, Clone, Copy, PartialEq, Eq, Structural)]
pub enum HeadingKind {
    Part,
    Chapter,
    Section,
    CjkNumbered,
    ParenCjk,
    DigitDot,
    ParenDigit,
    Article,
    /// An unnumbered block that the extractor marked as a heading.
    PlainHeading,
}

pub open spec fn kind_level(k: HeadingKind) -> u8 {
    match k {
        HeadingKind::Part => 1,
        HeadingKind::Chapter => 1,
        HeadingKind::Section => 2,
        HeadingKind::CjkNumbered => 2,
        HeadingKind::ParenCjk => 3,
        HeadingKind::DigitDot => 4,
        HeadingKind::ParenDigit => 5,
        HeadingKind::Article => 4,
        HeadingKind::PlainHeading => 5,
    }
}

pub open spec fn kind_name(k: HeadingKind) -> Seq<char> {
    match k {
        HeadingKind::Part => "part"@,
        HeadingKind::Chapter => "chapter"@,
        HeadingKind::Section => "section"@,
        HeadingKind::CjkNumbered => "cjk_numbered"@,
        HeadingKind::ParenCjk => "paren_cjk"@,
        HeadingKind::DigitDot => "digit_dot"@,
        HeadingKind::ParenDigit => "paren_digit"@,
        HeadingKind::Article => "article"@,
        HeadingKind::PlainHeading => "plain_heading"@,
    }
}

pub open spec fn kind_pattern(k: HeadingKind) -> Seq<char> {
    match k {
        HeadingKind::Part => PART_PATTERN@,
        HeadingKind::Chapter => CHAPTER_PATTERN@,
        HeadingKind::Section => SECTION_PATTERN@,
        HeadingKind::CjkNumbered => CJK_NUMBERED_PATTERN@,
        HeadingKind::ParenCjk => PAREN_CJK_PATTERN@,
        HeadingKind::DigitDot => DIGIT_DOT_PATTERN@,
        HeadingKind::ParenDigit => PAREN_DIGIT_PATTERN@,
        HeadingKind::Article => ARTICLE_PATTERN@,
        HeadingKind::PlainHeading => ""@,
    }
}

/// The numbered kinds in the order they are tried.
pub open spec fn numbered_kinds() -> Seq<HeadingKind> {
    seq![
        HeadingKind::Part,
        HeadingKind::Chapter,
        HeadingKind::Section,
        HeadingKind::CjkNumbered,
        HeadingKind::ParenCjk,
        HeadingKind::DigitDot,
        HeadingKind::ParenDigit,
        HeadingKind::Article,
    ]
}

impl HeadingKind {
    /// Depth in the section tree (1 = chapter).
    pub fn level(&self) -> (r: u8)
        ensures
            r == kind_level(*self),
    {
        match self {
            HeadingKind::Part => 1,
            HeadingKind::Chapter => 1,
            HeadingKind::Section => 2,
            HeadingKind::CjkNumbered => 2,
            HeadingKind::ParenCjk => 3,
            HeadingKind::DigitDot => 4,
            HeadingKind::ParenDigit => 5,
            HeadingKind::Article => 4,
            HeadingKind::PlainHeading => 5,
        }
    }

    /// The kind's name as it appears in a section's `pattern`.
    pub fn name(&self) -> (r: &'static str)
        ensures
            r@ == kind_name(*self),
    {
        match self {
            HeadingKind::Part => "part",
            HeadingKind::Chapter => "chapter",
            HeadingKind::Section => "section",
            HeadingKind::CjkNumbered => "cjk_numbered",
            HeadingKind::ParenCjk => "paren_cjk",
            HeadingKind::DigitDot => "digit_dot",
            HeadingKind::ParenDigit => "paren_digit",
            HeadingKind::Article => "article",
            HeadingKind::PlainHeading => "plain_heading",
        }
    }

    /// The regular expression of a numbered kind.
    pub fn pattern(&self) -> (r: &'static str)
        ensures
            r@ == kind_pattern(*self),
    {
        match self {
            HeadingKind::Part => PART_PATTERN,
            HeadingKind::Chapter => CHAPTER_PATTERN,
            HeadingKind::Section => SECTION_PATTERN,
            HeadingKind::CjkNumbered => CJK_NUMBERED_PATTERN,
            HeadingKind::ParenCjk => PAREN_CJK_PATTERN,
            HeadingKind::DigitDot => DIGIT_DOT_PATTERN,
            HeadingKind::ParenDigit => PAREN_DIGIT_PATTERN,
            HeadingKind::Article => ARTICLE_PATTERN,
            HeadingKind::PlainHeading => "",
        }
    }
}

fn kind_at(i: usize) -> (k: HeadingKind)
    requires
        i < 8,
    ensures
        k == numbered_kinds()[i as int],
{
    if i == 0 {
        HeadingKind::Part
    } else if i == 1 {
        HeadingKind::Chapter
    } else if i == 2 {
        HeadingKind::Section
    } else if i == 3 {
        HeadingKind::CjkNumbered
    } else if i == 4 {
        HeadingKind::ParenCjk
    } else if i == 5 {
        HeadingKind::DigitDot
    } else if i == 6 {
        HeadingKind::ParenDigit
    } else {
        HeadingKind::Article
    }
}

// ─── noise, emphasis ────────────────────────────────────────────

pub open spec fn ascii_digit_or_space(c: char) -> bool {
    is_ascii_digit(c) || c == ' '
}

pub open spec fn private_use(c: char) -> bool {
    '\u{E000}' <= c && c <= '\u{F8FF}'
}

/// A line that is extraction noise: blank, a short page number, a
/// "第X页共Y页" page footer, or one holding private-use glyphs.
pub open spec fn is_noise(line: Seq<char>) -> bool {
    let t = trim(line);
    ||| t.len() == 0
    ||| (t.len() <= 3 && forall|i: int| 0 <= i < t.len() ==> #[trigger] ascii_digit_or_space(t[i]))
    ||| (has_char(t, '第') && has_char(t, '页') && has_char(t, '共') && t.len() <= 20)
    ||| exists|i: int| 0 <= i < t.len() && #[trigger] private_use(t[i])
}

/// Whether a line is page-number or glyph noise.
pub fn is_page_noise(line: &str) -> (r: bool)
    ensures
        r == is_noise(line@),
{
    let lc = chars_of(line);
    let t = trim_chars(lc.as_slice());
    assert(t@ == trim(line@));
    if t.len() == 0 {
        return true;
    }
    if t.len() <= 3 {
        let mut all = true;
        let mut i: usize = 0;
        while i < t.len()
            invariant
                i <= t@.len(),
                all == forall|k: int| 0 <= k < i ==> #[trigger] ascii_digit_or_space(t@[k]),
            decreases t@.len() - i,
        {
            let c = t[i];
            if !(('0' <= c && c <= '9') || c == ' ') {
                assert(!ascii_digit_or_space(t@[i as int]));
                all = false;
            }
            i = i + 1;
        }
        if all {
            return true;
        }
    }
    if has_char_exec(t.as_slice(), '第') && has_char_exec(t.as_slice(), '页') && has_char_exec(t.as_slice(), '共') && t.len() <= 20 {
        return true;
    }
    let mut i: usize = 0;
    while i < t.len()
        invariant
            i <= t@.len(),
            t@ == trim(line@),
            forall|k: int| 0 <= k < i ==> !#[trigger] private_use(t@[k]),
        decreases t@.len() - i,
    {
        let c = t[i];
        if '\u{E000}' <= c && c <= '\u{F8FF}' {
            assert(private_use(t@[i as int]));
            return true;
        }
        i = i + 1;
    }
    false
}

/// Emphasis marks that bid documents put before important items.
pub open spec fn is_emphasis(c: char) -> bool {
    ||| c == '★' ||| c == '▲' ||| c == '●' ||| c == '■' ||| c == '◆' ||| c == '◎'
    ||| c == '☆' ||| c == '△' ||| c == '▽' ||| c == '◁' ||| c == '▷' ||| c == '◇'
    ||| c == '□' ||| c == '○' ||| c == '✔' ||| c == '☑' ||| c == '❗' ||| c == '✓'
}

/// The trimmed line without one leading emphasis mark (and the spaces after it).
pub open spec fn emphasis_stripped(s: Seq<char>) -> Seq<char> {
    let t = trim(s);
    if t.len() > 0 && is_emphasis(t[0]) {
        trim_start(t.drop_first())
    } else {
        t
    }
}

fn emphasis_exec(c: char) -> (r: bool)
    ensures
        r == is_emphasis(c),
{
    c == '★' || c == '▲' || c == '●' || c == '■' || c == '◆' || c == '◎' || c == '☆' || c == '△'
        || c == '▽' || c == '◁' || c == '▷' || c == '◇' || c == '□' || c == '○' || c == '✔'
        || c == '☑' || c == '❗' || c == '✓'
}

/// Strips a leading emphasis mark so that the numbering behind it can be seen.
pub fn strip_emphasis_prefix(s: &[char]) -> (r: Vec<char>)
    ensures
        r@ == emphasis_stripped(s@),
{
    let t = trim_chars(s);
    if t.len() > 0 && emphasis_exec(t[0]) {
        let rest = slice_range(t.as_slice(), 1, t.len());
        assert(rest@ =~= t@.drop_first());
        trim_start_chars(rest.as_slice())
    } else {
        t
    }
}

// ─── heading patterns ───────────────────────────────────────────

/// Longest title (in characters) that a kind accepts; longer lines are
/// body text that happens to start like a heading.
pub open spec fn max_title_len(k: HeadingKind) -> nat {
    let lv = kind_level(k);
    if lv == 1 {
        40
    } else if lv == 2 {
        if k == HeadingKind::CjkNumbered { 25 } else { 40 }
    } else if lv == 3 {
        60
    } else {
        40
    }
}

/// The text holds a sentence-ending mark.
pub open spec fn has_sentence_end(t: Seq<char>) -> bool {
    has_char(t, '。') || has_char(t, '！') || has_char(t, '？')
}

/// A match of kind `k` is kept with this title.
pub open spec fn accepts(k: HeadingKind, title: Seq<char>) -> bool {
    &&& title.len() <= max_title_len(k)
    &&& !(k == HeadingKind::DigitDot && has_sentence_end(title))
}

/// The first numbered kind, from position `i` on, whose pattern matches
/// `test` and which accepts `title`.
pub open spec fn kind_from(test: Seq<char>, title: Seq<char>, i: int) -> Option<HeadingKind>
    decreases 8 - i,
{
    if i < 0 || i >= 8 {
        None
    } else {
        let k = numbered_kinds()[i];
        if regex_matches(kind_pattern(k), test) && accepts(k, title) {
            Some(k)
        } else {
            kind_from(test, title, i + 1)
        }
    }
}

/// The heading kind of a trimmed line: tried as it is, then without a
/// leading emphasis mark (the title keeps the mark).
pub open spec fn line_heading(t: Seq<char>) -> Option<HeadingKind> {
    match kind_from(t, t, 0) {
        Some(k) => Some(k),
        None => kind_from(emphasis_stripped(t), t, 0),
    }
}

pub fn has_sentence_end_exec(t: &[char]) -> (r: bool)
    ensures
        r == has_sentence_end(t@),
{
    has_char_exec(t, '。') || has_char_exec(t, '！') || has_char_exec(t, '？')
}

fn accepts_exec(k: HeadingKind, title: &[char]) -> (r: bool)
    ensures
        r == accepts(k, title@),
{
    let lv = k.level();
    let max: usize = if lv == 1 {
        40
    } else if lv == 2 {
        if k == HeadingKind::CjkNumbered { 25 } else { 40 }
    } else if lv == 3 {
        60
    } else {
        40
    };
    if title.len() > max {
        return false;
    }
    !(k == HeadingKind::DigitDot && has_sentence_end_exec(title))
}

fn kind_from_exec(test: &str, title: &[char]) -> (r: Option<HeadingKind>)
    ensures
        r == kind_from(test@, title@, 0),
{
    let mut i: usize = 0;
    while i < 8
        invariant
            i <= 8,
            kind_from(test@, title@, 0) == kind_from(test@, title@, i as int),
        decreases 8 - i,
    {
        let k = kind_at(i);
        if is_match(k.pattern(), test) && accepts_exec(k, title) {
            return Some(k);
        }
        i = i + 1;
    }
    None
}

/// The heading kind of a trimmed line, if it is one.
pub fn heading_of_line(t: &[char]) -> (r: Option<HeadingKind>)
    ensures
        r == line_heading(t@),
{
    let ts = string_of(t);
    match kind_from_exec(ts.as_str(), t) {
        Some(k) => Some(k),
        None => {
            let stripped = strip_emphasis_prefix(t);
            let ss = string_of(stripped.as_slice());
            kind_from_exec(ss.as_str(), t)
        },
    }
}

/// Whether a line starts like a heading of some numbered kind, with the
/// same length and sentence filters as the scan uses.
pub fn matches_heading_pattern(line: &str) -> (r: bool)
    ensures
        r == kind_from(line@, line@, 0) is Some,
{
    let lc = chars_of(line);
    match kind_from_exec(line, lc.as_slice()) {
        Some(_) => true,
        None => false,
    }
}


// ─── inline headings ────────────────────────────────────────────

/// The cut after the closing parenthesis of an inline match at `p`.
pub open spec fn cut_of(p: usize, n: nat) -> int {
    if p < n { p + 1 } else { n as int }
}

/// The pieces cut off before each of the first `k` inline matches, and the
/// position of the last cut. A piece is kept only when it is not blank.
pub open spec fn inline_pieces(line: Seq<char>, starts: Seq<usize>, k: int) -> (Seq<Seq<char>>, int)
    decreases k,
{
    if k <= 0 {
        (Seq::<Seq<char>>::empty(), 0)
    } else {
        let prev = inline_pieces(line, starts, k - 1);
        let c = cut_of(starts[k - 1], line.len());
        let piece = line.subrange(prev.1, c);
        (if c > prev.1 && trim(piece).len() > 0 { prev.0.push(piece) } else { prev.0 }, c)
    }
}

/// A line split before every number that directly follows a closing
/// parenthesis (a heading that extraction glued to the text before it).
/// Without such a number, or when every piece is blank, the line itself.
pub open spec fn split_inline(line: Seq<char>) -> Seq<Seq<char>> {
    split_at_starts(line, regex_match_starts(INLINE_HEADING_PATTERN@, line))
}

/// A line split at the given inline match starts: the non-blank pieces
/// before each cut and the trimmed rest; the line itself without starts or
/// when every piece is blank.
pub open spec fn split_at_starts(line: Seq<char>, starts: Seq<usize>) -> Seq<Seq<char>> {
    if starts.len() == 0 {
        seq![line]
    } else {
        let cut = inline_pieces(line, starts, starts.len() as int);
        let rest = trim(line.subrange(cut.1, line.len() as int));
        let all = if cut.1 < line.len() && rest.len() > 0 { cut.0.push(rest) } else { cut.0 };
        if all.len() == 0 { seq![line] } else { all }
    }
}

/// Splits inline headings off the text before them.
pub fn split_inline_headings(line: &str) -> (r: Vec<String>)
    ensures
        string_views(r@) == split_inline(line@),
{
    let starts = match_starts(INLINE_HEADING_PATTERN, line);
    split_inline_at(line, &starts)
}

/// Splits a line at the given starts of inline headings.
pub fn split_inline_at(line: &str, starts: &Vec<usize>) -> (r: Vec<String>)
    ensures
        string_views(r@) == split_at_starts(line@, starts@),
{
    let lc = chars_of(line);
    let n = lc.len();
    if starts.len() == 0 {
        let mut one: Vec<String> = Vec::new();
        one.push(string_of(lc.as_slice()));
        assert(string_views(one@) =~= seq![line@]);
        return one;
    }
    let mut out: Vec<String> = Vec::new();
    let mut last: usize = 0;
    let mut j: usize = 0;
    while j < starts.len()
        invariant
            j <= starts@.len(),
            n == lc@.len(),
            lc@ == line@,
            last <= n,
            (string_views(out@), last as int) == inline_pieces(line@, starts@, j as int),
        decreases starts@.len() - j,
    {
        let p = starts[j];
        let c: usize = if p < n { p + 1 } else { n };
        let ghost ov = string_views(out@);
        if c > last {
            let piece = slice_range(lc.as_slice(), last, c);
            let t = trim_chars(piece.as_slice());
            if t.len() > 0 {
                out.push(string_of(piece.as_slice()));
                assert(string_views(out@) =~= ov.push(piece@));
            }
        }
        last = c;
        j = j + 1;
    }
    if last < n {
        let tail = slice_range(lc.as_slice(), last, n);
        let rest = trim_chars(tail.as_slice());
        if rest.len() > 0 {
            let ghost ov = string_views(out@);
            out.push(string_of(rest.as_slice()));
            assert(string_views(out@) =~= ov.push(rest@));
        }
    }
    if out.len() == 0 {
        let mut one: Vec<String> = Vec::new();
        one.push(string_of(lc.as_slice()));
        assert(string_views(one@) =~= seq![line@]);
        return one;
    }
    out
}

} // verus!
