//! Joining the body lines of a section, and repairing titles that PDF line
//! wrapping cut in two.
use vstd::prelude::*;
use crate::headings::{kind_from, matches_heading_pattern};
use crate::text::{chars_of, extend_chars, is_ascii_digit, is_ascii_lower, is_whitespace, is_ws, lines, lines_of, slice_range, string_of, trim, trim_chars, views};

verus! {

// ─── joining body lines ─────────────────────────────────────────

/// A line that starts a new unit: a digit, an opening parenthesis, or one
/// of the marks ▲ ★ ● ■ ◆.
pub open spec fn new_unit(s: Seq<char>) -> bool {
    s.len() > 0 && {
        let c = s[0];
        ||| is_ascii_digit(c)
        ||| c == '（' ||| c == '('
        ||| c == '▲' ||| c == '★' ||| c == '●' ||| c == '■' ||| c == '◆'
    }
}

/// The text ends (after trimming) with `。`, `！` or `？`.
pub open spec fn ends_sentence_mark(s: Seq<char>) -> bool {
    let t = trim(s);
    t.len() > 0 && (t.last() == '。' || t.last() == '！' || t.last() == '？')
}

/// A line break goes between `prev` and `curr`: `curr` starts a new unit,
/// or `prev` ends a sentence. Otherwise the two are one wrapped line.
pub open spec fn breaks_before(prev: Seq<char>, curr: Seq<char>) -> bool {
    let c = trim(curr);
    c.len() > 0 && (new_unit(c) || ends_sentence_mark(prev))
}

/// The lines joined: `'\n'` where a break goes, nothing elsewhere.
pub open spec fn smart_joined(ls: Seq<Seq<char>>) -> Seq<char>
    decreases ls.len(),
{
    if ls.len() == 0 {
        Seq::<char>::empty()
    } else if ls.len() == 1 {
        ls[0]
    } else {
        let prev = smart_joined(ls.drop_last());
        if breaks_before(ls[ls.len() - 2], ls.last()) {
            prev + seq!['\n'] + ls.last()
        } else {
            prev + ls.last()
        }
    }
}

pub fn is_new_semantic_unit(s: &[char]) -> (r: bool)
    ensures
        r == new_unit(s@),
{
    if s.len() == 0 {
        return false;
    }
    let c = s[0];
    ('0' <= c && c <= '9') || c == '（' || c == '(' || c == '▲' || c == '★' || c == '●' || c == '■' || c == '◆'
}

fn ends_sentence_mark_exec(s: &[char]) -> (r: bool)
    ensures
        r == ends_sentence_mark(s@),
{
    let t = trim_chars(s);
    if t.len() == 0 {
        return false;
    }
    let l = t[t.len() - 1];
    l == '。' || l == '！' || l == '？'
}

/// Whether a line break goes between two body lines.
pub fn should_break_before(prev: &[char], curr: &[char]) -> (r: bool)
    ensures
        r == breaks_before(prev@, curr@),
{
    let c = trim_chars(curr);
    if c.len() == 0 {
        return false;
    }
    if is_new_semantic_unit(c.as_slice()) {
        return true;
    }
    ends_sentence_mark_exec(prev)
}

/// Joins body lines, keeping breaks only where a new unit or sentence starts.
pub fn smart_join_body(ls: &Vec<Vec<char>>) -> (r: Vec<char>)
    ensures
        r@ == smart_joined(views(ls@)),
{
    let ghost lv = views(ls@);
    let mut r: Vec<char> = Vec::new();
    let mut i: usize = 0;
    while i < ls.len()
        invariant
            i <= ls@.len(),
            lv == views(ls@),
            r@ == smart_joined(lv.subrange(0, i as int)),
        decreases ls@.len() - i,
    {
        let ghost pre = lv.subrange(0, i as int);
        let ghost nxt = lv.subrange(0, i as int + 1);
        proof {
            assert(nxt.drop_last() =~= pre);
            assert(nxt.last() == ls@[i as int]@);
            if i > 0 {
                assert(nxt[nxt.len() - 2] == ls@[i - 1]@);
            } else {
                assert(nxt =~= seq![ls@[0]@]);
            }
        }
        if i > 0 && should_break_before(ls[i - 1].as_slice(), ls[i].as_slice()) {
            r.push('\n');
        }
        extend_chars(&mut r, ls[i].as_slice());
        i = i + 1;
    }
    assert(lv.subrange(0, lv.len() as int) =~= lv);
    r
}

/// The line starts with an ASCII digit directly followed by a CJK character.
pub open spec fn digit_cjk_start(s: Seq<char>) -> bool {
    s.len() >= 2 && is_ascii_digit(s[0]) && '\u{4E00}' <= s[1] && s[1] <= '\u{9FFF}'
}

pub fn is_digit_cjk_start(s: &[char]) -> (r: bool)
    ensures
        r == digit_cjk_start(s@),
{
    s.len() >= 2 && '0' <= s[0] && s[0] <= '9' && '\u{4E00}' <= s[1] && s[1] <= '\u{9FFF}'
}

// ─── titles cut by line wrapping ────────────────────────────────

pub open spec fn sentence_mark(c: char) -> bool {
    c == '。' || c == '！' || c == '？'
}

/// Index of the first sentence mark at or after `i` (`s.len()` if none).
pub open spec fn first_sentence_mark(s: Seq<char>, i: int) -> int
    decreases s.len() - i,
{
    if i < 0 || i >= s.len() {
        s.len() as int
    } else if sentence_mark(s[i]) {
        i
    } else {
        first_sentence_mark(s, i + 1)
    }
}

/// The first non-whitespace character, if any.
pub open spec fn first_non_ws(s: Seq<char>, i: int) -> Option<char>
    decreases s.len() - i,
{
    if i < 0 || i >= s.len() {
        None
    } else if !is_ws(s[i]) {
        Some(s[i])
    } else {
        first_non_ws(s, i + 1)
    }
}

/// A character that continues a wrapped title: CJK, lower-case ASCII or digit.
pub open spec fn continues_title(c: char) -> bool {
    ||| ('\u{4E00}' <= c && c <= '\u{9FFF}')
    ||| ('\u{3400}' <= c && c <= '\u{4DBF}')
    ||| is_ascii_lower(c)
    ||| is_ascii_digit(c)
}

/// The title looks cut by a line wrap: it is at least 15 characters, does
/// not end with a closing mark, the body's first sentence would not complete
/// it within 120 characters, and the body continues it.
pub open spec fn title_truncated(title: Seq<char>, body: Seq<char>) -> bool {
    &&& body.len() > 0
    &&& title.len() >= 15
    &&& {
        let l = title.last();
        !(l == '。' || l == '！' || l == '？' || l == '）' || l == ')' || l == '：' || l == ':')
    }
    &&& {
        let e = first_sentence_mark(body, 0);
        !(e < body.len() && title.len() + e + 1 <= 120)
    }
    &&& match first_non_ws(body, 0) {
        Some(c) => c != '\0' && continues_title(c),
        None => false,
    }
}

fn first_sentence_mark_exec(s: &[char]) -> (r: usize)
    ensures
        r == first_sentence_mark(s@, 0),
{
    let mut i: usize = 0;
    while i < s.len() && !(s[i] == '。' || s[i] == '！' || s[i] == '？')
        invariant
            i <= s@.len(),
            first_sentence_mark(s@, 0) == first_sentence_mark(s@, i as int),
        decreases s@.len() - i,
    {
        i = i + 1;
    }
    i
}

/// Whether a title was cut by a PDF line wrap and continues in the body.
pub fn is_title_truncated(title: &[char], body: &[char]) -> (r: bool)
    ensures
        r == title_truncated(title@, body@),
{
    if body.len() == 0 {
        return false;
    }
    if title.len() < 15 {
        return false;
    }
    let l = title[title.len() - 1];
    if l == '。' || l == '！' || l == '？' || l == '）' || l == ')' || l == '：' || l == ':' {
        return false;
    }
    let e = first_sentence_mark_exec(body);
    if e < body.len() && (title.len() as u128) + (e as u128) + 1 <= 120 {
        return false;
    }
    let mut i: usize = 0;
    while i < body.len() && is_whitespace(body[i])
        invariant
            i <= body@.len(),
            first_non_ws(body@, 0) == first_non_ws(body@, i as int),
        decreases body@.len() - i,
    {
        i = i + 1;
    }
    if i >= body.len() {
        return false;
    }
    let c = body[i];
    c != '\0' && (('\u{4E00}' <= c && c <= '\u{9FFF}') || ('\u{3400}' <= c && c <= '\u{4DBF}') || ('a' <= c && c <= 'z') || ('0' <= c && c <= '9'))
}

/// Merging state: the title so far, the body pieces left, and whether
/// merging has stopped.
pub type MergeState = (Seq<char>, Seq<Seq<char>>, bool);

/// At most 60 body characters are merged into a title.
pub open spec fn merge_cap(title_len: nat, merged_len: nat) -> int {
    title_len + 60 - merged_len
}

/// One body line's effect on the merge.
pub open spec fn merge_step(title_len: nat, st: MergeState, line: Seq<char>) -> MergeState {
    let m = st.0;
    let rem = st.1;
    if st.2 {
        (m, rem.push(line), true)
    } else {
        let t = trim(line);
        if t.len() == 0 {
            st
        } else if kind_from(t, t, 0) is Some || digit_cjk_start(t) {
            (m, rem.push(line), true)
        } else {
            let cap = merge_cap(title_len, m.len());
            if cap <= 0 {
                (m, rem.push(line), true)
            } else {
                let q = first_sentence_mark(t, 0);
                if q < t.len() {
                    let mt = t.subrange(0, q + 1);
                    let take = if q + 1 <= cap { q + 1 } else { cap };
                    let rem2 = if take < q + 1 { rem.push(trim(mt.subrange(take, q + 1))) } else { rem };
                    let rest = trim(t.subrange(q + 1, t.len() as int));
                    (m + mt.subrange(0, take), if rest.len() > 0 { rem2.push(rest) } else { rem2 }, true)
                } else {
                    let take = if line.len() <= cap { line.len() as int } else { cap };
                    if take < line.len() {
                        let rest = trim(line.subrange(take, line.len() as int));
                        (m + line.subrange(0, take), if rest.len() > 0 { rem.push(rest) } else { rem }, true)
                    } else {
                        (m + line, rem, false)
                    }
                }
            }
        }
    }
}

/// The merge state after the first `k` body lines.
pub open spec fn merge_state(title: Seq<char>, ls: Seq<Seq<char>>, k: int) -> MergeState
    decreases k,
{
    if k <= 0 {
        (title, Seq::<Seq<char>>::empty(), false)
    } else {
        merge_step(title.len(), merge_state(title, ls, k - 1), ls[k - 1])
    }
}

pub open spec fn concat(ps: Seq<Seq<char>>) -> Seq<char>
    decreases ps.len(),
{
    if ps.len() == 0 {
        Seq::<char>::empty()
    } else {
        concat(ps.drop_last()) + ps.last()
    }
}

/// A cut title with the body's continuation merged back, up to the first
/// sentence mark, the next heading or numbered item, or 60 characters; and
/// what is left of the body.
pub open spec fn merged_title(title: Seq<char>, body: Seq<char>) -> (Seq<char>, Seq<char>) {
    if body.len() == 0 {
        (title, Seq::<char>::empty())
    } else {
        let ls = lines_of(body);
        let st = merge_state(title, ls, ls.len() as int);
        (st.0, concat(st.1))
    }
}

fn push_piece(rem: &mut Vec<Vec<char>>, p: Vec<char>)
    ensures
        views(final(rem)@) == views(old(rem)@).push(p@),
{
    let ghost before = views(rem@);
    rem.push(p);
    assert(views(rem@) =~= before.push(p@));
}

/// Merges the continuation of a wrapped title back into it.
pub fn merge_truncated_title(title: &str, body: &str) -> (r: (String, String))
    ensures
        (r.0@, r.1@) == merged_title(title@, body@),
{
    let tc = chars_of(title);
    let bc = chars_of(body);
    if bc.len() == 0 {
        return (string_of(tc.as_slice()), String::new());
    }
    let title_len = tc.len();
    let ls = lines(bc.as_slice());
    let ghost lv = views(ls@);
    let mut merged: Vec<char> = tc;
    let mut rem: Vec<Vec<char>> = Vec::new();
    let mut done = false;
    let mut i: usize = 0;
    while i < ls.len()
        invariant
            i <= ls@.len(),
            lv == views(ls@),
            title_len == title@.len(),
            merged@.len() <= title_len + 60,
            merged@.len() >= title_len,
            (merged@, views(rem@), done) == merge_state(title@, lv, i as int),
        decreases ls@.len() - i,
    {
        let line = &ls[i];
        assert(lv[i as int] == line@);
        if done {
            push_piece(&mut rem, line.clone());
        } else {
            let t = trim_chars(line.as_slice());
            if t.len() == 0 {
            } else {
                let ts = string_of(t.as_slice());
                if matches_heading_pattern(ts.as_str()) || is_digit_cjk_start(t.as_slice()) {
                    push_piece(&mut rem, line.clone());
                    done = true;
                } else {
                    let grown = merged.len() - title_len;
                    let cap: usize = 60 - grown;
                    if cap == 0 {
                        push_piece(&mut rem, line.clone());
                        done = true;
                    } else {
                        let q = first_sentence_mark_exec(t.as_slice());
                        if q < t.len() {
                            let take = if q + 1 <= cap { q + 1 } else { cap };
                            let head = slice_range(t.as_slice(), 0, take);
                            extend_chars(&mut merged, head.as_slice());
                            if take < q + 1 {
                                let left = slice_range(t.as_slice(), take, q + 1);
                                assert(left@ == t@.subrange(0, q + 1).subrange(take as int, q + 1));
                                push_piece(&mut rem, trim_chars(left.as_slice()));
                            }
                            assert(head@ == t@.subrange(0, q + 1).subrange(0, take as int));
                            let tail = slice_range(t.as_slice(), q + 1, t.len());
                            let rest = trim_chars(tail.as_slice());
                            if rest.len() > 0 {
                                push_piece(&mut rem, rest);
                            }
                            done = true;
                        } else {
                            let take = if line.len() <= cap { line.len() } else { cap };
                            if take < line.len() {
                                let head = slice_range(line.as_slice(), 0, take);
                                extend_chars(&mut merged, head.as_slice());
                                let tail = slice_range(line.as_slice(), take, line.len());
                                let rest = trim_chars(tail.as_slice());
                                if rest.len() > 0 {
                                    push_piece(&mut rem, rest);
                                }
                                done = true;
                            } else {
                                extend_chars(&mut merged, line.as_slice());
                            }
                        }
                    }
                }
            }
        }
        i = i + 1;
    }
    let mut out: Vec<char> = Vec::new();
    let mut k: usize = 0;
    while k < rem.len()
        invariant
            k <= rem@.len(),
            out@ == concat(views(rem@).subrange(0, k as int)),
        decreases rem@.len() - k,
    {
        proof {
            let nxt = views(rem@).subrange(0, k as int + 1);
            assert(nxt.drop_last() =~= views(rem@).subrange(0, k as int));
        }
        extend_chars(&mut out, rem[k].as_slice());
        k = k + 1;
    }
    assert(views(rem@).subrange(0, rem@.len() as int) =~= views(rem@));
    assert(lv.len() == ls@.len());
    (string_of(merged.as_slice()), string_of(out.as_slice()))
}

} // verus!
