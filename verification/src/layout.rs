//! Clean-up of layout text extracted from PDF pages: spaces that absolute
//! positioning put between Chinese characters are closed, runs of spaces are
//! shortened, blank lines are dropped.
use vstd::prelude::*;
use crate::patterns::{regex_replaced, replace_all};
use crate::text::{chars_of, eq_str, join, join_chars, lines, lines_of, string_of, trim, trim_chars, views};

verus! {

/// A CJK character, whitespace, another CJK character.
pub const CJK_SPACE_PATTERN: &'static str = r"([一-鿿])\s+([一-鿿])";
/// Two or more spaces.
pub const MULTI_SPACE_PATTERN: &'static str = r" {2,}";

/// Closes CJK gaps repeatedly, at most `rounds` times, stopping early once a
/// round changes nothing.
pub open spec fn close_cjk_gaps(line: Seq<char>, rounds: nat) -> Seq<char>
    decreases rounds,
{
    if rounds == 0 {
        line
    } else {
        let next = regex_replaced(CJK_SPACE_PATTERN@, line, "$1$2"@);
        if next == line {
            line
        } else {
            close_cjk_gaps(next, (rounds - 1) as nat)
        }
    }
}

/// One cleaned line.
pub open spec fn clean_line(line: Seq<char>) -> Seq<char> {
    regex_replaced(MULTI_SPACE_PATTERN@, close_cjk_gaps(line, 5), "  "@)
}

/// The trimmed lines that are not blank, in order.
pub open spec fn nonblank(ls: Seq<Seq<char>>) -> Seq<Seq<char>>
    decreases ls.len(),
{
    if ls.len() == 0 {
        Seq::<Seq<char>>::empty()
    } else {
        let p = nonblank(ls.drop_last());
        let t = trim(ls.last());
        if t.len() > 0 {
            p.push(t)
        } else {
            p
        }
    }
}

/// The cleaned text: every non-blank trimmed line cleaned, joined by `'\n'`.
pub open spec fn cleaned(text: Seq<char>) -> Seq<char> {
    join(nonblank(lines_of(text)).map_values(|l: Seq<char>| clean_line(l)), "\n"@)
}

fn close_gaps_exec(line: String) -> (r: String)
    ensures
        r@ == close_cjk_gaps(line@, 5),
{
    let mut cur = line;
    let mut k: usize = 0;
    while k < 5
        invariant
            k <= 5,
            close_cjk_gaps(line@, 5) == close_cjk_gaps(cur@, (5 - k) as nat),
        decreases 5 - k,
    {
        let next = replace_all(CJK_SPACE_PATTERN, cur.as_str(), "$1$2");
        let nc = chars_of(next.as_str());
        if eq_str(nc.as_slice(), cur.as_str()) {
            return cur;
        }
        cur = next;
        k = k + 1;
    }
    cur
}

/// Cleans PDF layout text line by line.
pub fn clean_layout_text(text: &str) -> (r: String)
    ensures
        r@ == cleaned(text@),
{
    let tc = chars_of(text);
    let ls = lines(tc.as_slice());
    let ghost lv = views(ls@);
    let mut parts: Vec<Vec<char>> = Vec::new();
    let mut i: usize = 0;
    while i < ls.len()
        invariant
            i <= ls@.len(),
            lv == views(ls@),
            views(parts@) == nonblank(lv.subrange(0, i as int)).map_values(|l: Seq<char>| clean_line(l)),
        decreases ls@.len() - i,
    {
        let ghost pre = lv.subrange(0, i as int);
        let ghost nxt = lv.subrange(0, i as int + 1);
        proof {
            assert(nxt.drop_last() =~= pre);
            assert(nxt.last() == ls@[i as int]@);
        }
        let t = trim_chars(ls[i].as_slice());
        if t.len() > 0 {
            let s = string_of(t.as_slice());
            let c = close_gaps_exec(s);
            let m = replace_all(MULTI_SPACE_PATTERN, c.as_str(), "  ");
            let mc = chars_of(m.as_str());
            let ghost before = views(parts@);
            parts.push(mc);
            proof {
                assert(views(parts@) =~= before.push(clean_line(t@)));
                assert(nonblank(nxt).map_values(|l: Seq<char>| clean_line(l)) =~= nonblank(pre).map_values(|l: Seq<char>| clean_line(l)).push(clean_line(t@)));
            }
        } else {
            proof {
                assert(nonblank(nxt) == nonblank(pre));
            }
        }
        i = i + 1;
    }
    assert(lv.subrange(0, lv.len() as int) =~= lv);
    let nl = chars_of("\n");
    let joined = join_chars(&parts, nl.as_slice());
    string_of(joined.as_slice())
}

} // verus!
