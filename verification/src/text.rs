//! Character-level text utilities shared by the document pipeline.
//!
//! Text is handled as sequences of `char`; every operation here is stated
//! over `Seq<char>` so that the callers' contracts can speak of lines,
//! trimmed lines and substrings directly.
use vstd::prelude::*;

verus! {

// ─── whitespace ─────────────────────────────────────────────────

/// Unicode `White_Space`, the property that `char::is_whitespace` tests.
pub open spec fn is_ws(c: char) -> bool {
    ||| c == '\t'
    ||| c == '\n'
    ||| c == '\u{B}'
    ||| c == '\u{C}'
    ||| c == '\r'
    ||| c == ' '
    ||| c == '\u{85}'
    ||| c == '\u{A0}'
    ||| c == '\u{1680}'
    ||| ('\u{2000}' <= c && c <= '\u{200A}')
    ||| c == '\u{2028}'
    ||| c == '\u{2029}'
    ||| c == '\u{202F}'
    ||| c == '\u{205F}'
    ||| c == '\u{3000}'
}

pub fn is_whitespace(c: char) -> (r: bool)
    ensures
        r == is_ws(c),
{
    c == '\t' || c == '\n' || c == '\u{B}' || c == '\u{C}' || c == '\r' || c == ' ' || c
        == '\u{85}' || c == '\u{A0}' || c == '\u{1680}' || ('\u{2000}' <= c && c <= '\u{200A}')
        || c == '\u{2028}' || c == '\u{2029}' || c == '\u{202F}' || c == '\u{205F}' || c
        == '\u{3000}'
}

pub open spec fn is_ascii_digit(c: char) -> bool {
    '0' <= c && c <= '9'
}

pub open spec fn is_ascii_lower(c: char) -> bool {
    'a' <= c && c <= 'z'
}

// ─── trimming ───────────────────────────────────────────────────

/// `s` without its leading whitespace.
pub open spec fn trim_start(s: Seq<char>) -> Seq<char>
    decreases s.len(),
{
    if s.len() > 0 && is_ws(s[0]) {
        trim_start(s.drop_first())
    } else {
        s
    }
}

/// `s` without its trailing whitespace.
pub open spec fn trim_end(s: Seq<char>) -> Seq<char>
    decreases s.len(),
{
    if s.len() > 0 && is_ws(s.last()) {
        trim_end(s.drop_last())
    } else {
        s
    }
}

/// `s` without leading and trailing whitespace (what `str::trim` returns).
pub open spec fn trim(s: Seq<char>) -> Seq<char> {
    trim_end(trim_start(s))
}

proof fn lemma_trim_start_skip(s: Seq<char>, i: int)
    requires
        0 <= i <= s.len(),
        forall|k: int| 0 <= k < i ==> is_ws(#[trigger] s[k]),
    ensures
        trim_start(s) == trim_start(s.subrange(i, s.len() as int)),
    decreases i,
{
    if i > 0 {
        assert(s.drop_first() =~= s.subrange(1, s.len() as int));
        let t = s.drop_first();
        assert forall|k: int| 0 <= k < i - 1 implies is_ws(#[trigger] t[k]) by {
            assert(t[k] == s[k + 1]);
        }
        lemma_trim_start_skip(t, i - 1);
        assert(t.subrange(i - 1, t.len() as int) =~= s.subrange(i, s.len() as int));
    } else {
        assert(s.subrange(0, s.len() as int) =~= s);
    }
}

proof fn lemma_trim_end_skip(s: Seq<char>, j: int)
    requires
        0 <= j <= s.len(),
        forall|k: int| j <= k < s.len() ==> is_ws(#[trigger] s[k]),
    ensures
        trim_end(s) == trim_end(s.subrange(0, j)),
    decreases s.len() - j,
{
    if j < s.len() {
        let t = s.drop_last();
        assert forall|k: int| j <= k < t.len() implies is_ws(#[trigger] t[k]) by {
            assert(t[k] == s[k]);
        }
        lemma_trim_end_skip(t, j);
        assert(t.subrange(0, j) =~= s.subrange(0, j));
    } else {
        assert(s.subrange(0, j) =~= s);
    }
}

proof fn lemma_trim_start_shape(s: Seq<char>)
    ensures
        trim_start(s).len() == 0 || !is_ws(trim_start(s)[0]),
    decreases s.len(),
{
    if s.len() > 0 && is_ws(s[0]) {
        lemma_trim_start_shape(s.drop_first());
    }
}

proof fn lemma_trim_end_shape(s: Seq<char>)
    ensures
        trim_end(s).len() <= s.len(),
        trim_end(s) == s.subrange(0, trim_end(s).len() as int),
        trim_end(s).len() == 0 || !is_ws(trim_end(s).last()),
    decreases s.len(),
{
    if s.len() > 0 && is_ws(s.last()) {
        lemma_trim_end_shape(s.drop_last());
        assert(s.drop_last().subrange(0, trim_end(s).len() as int) =~= s.subrange(0, trim_end(s).len() as int));
    } else {
        assert(s.subrange(0, s.len() as int) =~= s);
    }
}

/// Trimming twice is trimming once.
pub proof fn lemma_trim_idempotent(s: Seq<char>)
    ensures
        trim(trim(s)) == trim(s),
{
    let u = trim_start(s);
    let t = trim_end(u);
    lemma_trim_start_shape(s);
    lemma_trim_end_shape(u);
    if t.len() > 0 {
        assert(t[0] == u[0]);
    }
    assert(trim_start(t) == t);
    assert(trim_end(t) == t);
}

/// Trims whitespace from both ends.
pub fn trim_chars(s: &[char]) -> (r: Vec<char>)
    ensures
        r@ == trim(s@),
{
    let n = s.len();
    let mut i: usize = 0;
    while i < n && is_whitespace(s[i])
        invariant
            i <= n,
            n == s@.len(),
            forall|k: int| 0 <= k < i ==> is_ws(#[trigger] s@[k]),
        decreases n - i,
    {
        i = i + 1;
    }
    proof {
        lemma_trim_start_skip(s@, i as int);
    }
    let ghost mid = s@.subrange(i as int, n as int);
    assert(trim_start(mid) == mid);
    let mut j: usize = n;
    while j > i && is_whitespace(s[j - 1])
        invariant
            i <= j <= n,
            n == s@.len(),
            forall|k: int| j <= k < n ==> is_ws(#[trigger] s@[k]),
        decreases j,
    {
        j = j - 1;
    }
    proof {
        let m = mid;
        assert forall|k: int| j - i <= k < m.len() implies is_ws(#[trigger] m[k]) by {
            assert(m[k] == s@[k + i]);
        }
        lemma_trim_end_skip(m, j - i);
        assert(m.subrange(0, j - i) =~= s@.subrange(i as int, j as int));
    }
    let mut r: Vec<char> = Vec::new();
    let mut k: usize = i;
    while k < j
        invariant
            i <= k <= j <= n,
            n == s@.len(),
            r@ =~= s@.subrange(i as int, k as int),
        decreases j - k,
    {
        r.push(s[k]);
        k = k + 1;
    }
    r
}

/// Trims leading whitespace only.
pub fn trim_start_chars(s: &[char]) -> (r: Vec<char>)
    ensures
        r@ == trim_start(s@),
{
    let n = s.len();
    let mut i: usize = 0;
    while i < n && is_whitespace(s[i])
        invariant
            i <= n,
            n == s@.len(),
            forall|k: int| 0 <= k < i ==> is_ws(#[trigger] s@[k]),
        decreases n - i,
    {
        i = i + 1;
    }
    proof {
        lemma_trim_start_skip(s@, i as int);
    }
    let ghost mid = s@.subrange(i as int, n as int);
    assert(trim_start(mid) == mid);
    slice_range(s, i, n)
}

/// A copy of `s[from..to]`.
pub fn slice_range(s: &[char], from: usize, to: usize) -> (r: Vec<char>)
    requires
        from <= to <= s@.len(),
    ensures
        r@ == s@.subrange(from as int, to as int),
{
    let mut r: Vec<char> = Vec::new();
    let mut k: usize = from;
    while k < to
        invariant
            from <= k <= to <= s@.len(),
            r@ =~= s@.subrange(from as int, k as int),
        decreases to - k,
    {
        r.push(s[k]);
        k = k + 1;
    }
    r
}

/// The character sequences held by a vector of character vectors.
pub open spec fn views(v: Seq<Vec<char>>) -> Seq<Seq<char>> {
    v.map_values(|x: Vec<char>| x@)
}

// ─── splitting into lines ───────────────────────────────────────

/// The pieces of `s` between occurrences of `sep` (what `str::split` yields
/// for a single-character separator): always at least one piece.
pub open spec fn split_on(s: Seq<char>, sep: char) -> Seq<Seq<char>>
    decreases s.len(),
{
    if s.len() == 0 {
        seq![Seq::<char>::empty()]
    } else {
        let prev = split_on(s.drop_last(), sep);
        if s.last() == sep {
            prev.push(Seq::<char>::empty())
        } else {
            prev.update(prev.len() - 1, prev.last().push(s.last()))
        }
    }
}

pub proof fn lemma_split_on_nonempty(s: Seq<char>, sep: char)
    ensures
        split_on(s, sep).len() >= 1,
    decreases s.len(),
{
    if s.len() > 0 {
        lemma_split_on_nonempty(s.drop_last(), sep);
    }
}

/// Removes one trailing carriage return.
pub open spec fn strip_cr(line: Seq<char>) -> Seq<char> {
    if line.len() > 0 && line.last() == '\r' {
        line.drop_last()
    } else {
        line
    }
}

/// The lines of `s` as `str::lines` yields them: pieces between `'\n'`,
/// a `'\r'` before a `'\n'` removed, and no final empty piece.
pub open spec fn lines_of(s: Seq<char>) -> Seq<Seq<char>> {
    let parts = split_on(s, '\n');
    let n = parts.len();
    let body = parts.subrange(0, n - 1).map_values(|p: Seq<char>| strip_cr(p));
    if parts[n - 1].len() == 0 {
        body
    } else {
        body.push(parts[n - 1])
    }
}

/// `s` with every `a` replaced by `b`.
pub open spec fn replace_char(s: Seq<char>, a: char, b: char) -> Seq<char> {
    s.map_values(|c: char| if c == a { b } else { c })
}

pub open spec fn string_views(v: Seq<String>) -> Seq<Seq<char>> {
    v.map_values(|s: String| s@)
}

/// Splits on a single separator character.
pub fn split_chars(s: &[char], sep: char) -> (r: Vec<Vec<char>>)
    ensures
        views(r@) == split_on(s@, sep),
{
    let mut r: Vec<Vec<char>> = Vec::new();
    let mut cur: Vec<char> = Vec::new();
    let n = s.len();
    let mut i: usize = 0;
    while i < n
        invariant
            i <= n,
            n == s@.len(),
            views(r@).push(cur@) =~= split_on(s@.subrange(0, i as int), sep),
        decreases n - i,
    {
        let c = s[i];
        proof {
            let p = s@.subrange(0, i as int + 1);
            assert(p.drop_last() =~= s@.subrange(0, i as int));
            assert(p.last() == c);
        }
        let ghost old_r = views(r@);
        let ghost old_cur = cur@;
        let ghost prev = split_on(s@.subrange(0, i as int), sep);
        if c == sep {
            let done = cur;
            r.push(done);
            cur = Vec::new();
            proof {
                assert(views(r@) =~= old_r.push(old_cur));
                assert(views(r@).push(cur@) =~= prev.push(Seq::<char>::empty()));
            }
        } else {
            cur.push(c);
            proof {
                assert(prev =~= old_r.push(old_cur));
                assert(prev.len() - 1 == old_r.len());
                assert(views(r@).push(cur@) =~= prev.update(prev.len() - 1, prev.last().push(c)));
            }
        }
        i = i + 1;
    }
    assert(s@.subrange(0, n as int) =~= s@);
    let ghost old_r = views(r@);
    let ghost last = cur@;
    r.push(cur);
    assert(views(r@) =~= old_r.push(last));
    r
}

/// Splits into lines the way `str::lines` does.
pub fn lines(s: &[char]) -> (r: Vec<Vec<char>>)
    ensures
        views(r@) == lines_of(s@),
{
    let parts = split_chars(s, '\n');
    proof {
        lemma_split_on_nonempty(s@, '\n');
    }
    let n = parts.len();
    let ghost pv = views(parts@);
    let mut r: Vec<Vec<char>> = Vec::new();
    let mut i: usize = 0;
    while i + 1 < n
        invariant
            0 < n,
            i <= n - 1,
            n == pv.len(),
            pv == views(parts@),
            views(r@) =~= pv.subrange(0, i as int).map_values(|p: Seq<char>| strip_cr(p)),
        decreases n - i,
    {
        let p = &parts[i];
        let len = p.len();
        let line = if len > 0 && p[len - 1] == '\r' {
            slice_range(p.as_slice(), 0, len - 1)
        } else {
            slice_range(p.as_slice(), 0, len)
        };
        proof {
            assert(p@ == pv[i as int]);
            assert(p@.drop_last() =~= p@.subrange(0, len - 1));
            assert(p@.subrange(0, len as int) =~= p@);
            assert(line@ == strip_cr(pv[i as int]));
        }
        let ghost old_r = views(r@);
        let ghost lv = line@;
        r.push(line);
        proof {
            assert(views(r@) =~= old_r.push(lv));
            assert(pv.subrange(0, i as int + 1) =~= pv.subrange(0, i as int).push(pv[i as int]));
            assert(pv.subrange(0, i as int + 1).map_values(|p: Seq<char>| strip_cr(p)) =~=
                pv.subrange(0, i as int).map_values(|p: Seq<char>| strip_cr(p)).push(strip_cr(pv[i as int])));
        }
        i = i + 1;
    }
    let last = &parts[n - 1];
    assert(pv.subrange(0, n - 1) =~= pv.subrange(0, i as int));
    assert(last@ == pv[n - 1]);
    if last.len() > 0 {
        let l = slice_range(last.as_slice(), 0, last.len());
        proof {
            assert(last@.subrange(0, last@.len() as int) =~= last@);
        }
        let ghost old_r = views(r@);
        let ghost lv = l@;
        r.push(l);
        assert(views(r@) =~= old_r.push(lv));
    }
    r
}

// ─── substrings ─────────────────────────────────────────────────

/// `w` occurs in `s` starting at index `i`.
pub open spec fn occurs_at(s: Seq<char>, w: Seq<char>, i: int) -> bool {
    0 <= i && i + w.len() <= s.len() && s.subrange(i, i + w.len()) == w
}

/// `w` is a substring of `s` (what `str::contains` tests).
pub open spec fn contains(s: Seq<char>, w: Seq<char>) -> bool {
    exists|i: int| occurs_at(s, w, i)
}

/// `s` contains the character `c`.
pub open spec fn has_char(s: Seq<char>, c: char) -> bool {
    exists|i: int| 0 <= i < s.len() && s[i] == c
}

fn occurs_at_exec(s: &[char], w: &[char], i: usize) -> (r: bool)
    requires
        i + w@.len() <= s@.len(),
    ensures
        r == occurs_at(s@, w@, i as int),
{
    let mut k: usize = 0;
    while k < w.len()
        invariant
            k <= w@.len(),
            i + w@.len() <= s@.len(),
            forall|t: int| 0 <= t < k ==> s@[i + t] == w@[t],
        decreases w@.len() - k,
    {
        assert(i + k < s.len());
        if s[i + k] != w[k] {
            proof {
                assert(s@.subrange(i as int, i + w@.len())[k as int] != w@[k as int]);
            }
            return false;
        }
        k = k + 1;
    }
    assert(s@.subrange(i as int, i + w@.len()) =~= w@);
    true
}

/// Substring search.
pub fn contains_chars(s: &[char], w: &[char]) -> (r: bool)
    ensures
        r == contains(s@, w@),
{
    if w.len() > s.len() {
        return false;
    }
    if w.len() == 0 {
        assert(s@.subrange(0, 0) =~= w@);
        assert(occurs_at(s@, w@, 0));
        return true;
    }
    let last = s.len() - w.len();
    let mut i: usize = 0;
    while i <= last
        invariant
            last == s@.len() - w@.len(),
            last < s.len(),
            i <= last + 1,
            forall|t: int| 0 <= t < i ==> !occurs_at(s@, w@, t),
        decreases last + 1 - i,
    {
        if occurs_at_exec(s, w, i) {
            return true;
        }
        i = i + 1;
    }
    false
}

/// Substring search for a literal needle.
pub fn contains_str(s: &[char], w: &str) -> (r: bool)
    ensures
        r == contains(s@, w@),
{
    let wc = chars_of(w);
    contains_chars(s, wc.as_slice())
}

/// Character search.
pub fn has_char_exec(s: &[char], c: char) -> (r: bool)
    ensures
        r == has_char(s@, c),
{
    let mut i: usize = 0;
    while i < s.len()
        invariant
            i <= s@.len(),
            forall|t: int| 0 <= t < i ==> s@[t] != c,
        decreases s@.len() - i,
    {
        if s[i] == c {
            return true;
        }
        i = i + 1;
    }
    false
}

/// `s` starts with `w`.
pub open spec fn starts_with(s: Seq<char>, w: Seq<char>) -> bool {
    w.len() <= s.len() && s.subrange(0, w.len() as int) == w
}

/// `s` ends with `w`.
pub open spec fn ends_with(s: Seq<char>, w: Seq<char>) -> bool {
    w.len() <= s.len() && s.subrange(s.len() - w.len(), s.len() as int) == w
}

pub fn starts_with_str(s: &[char], w: &str) -> (r: bool)
    ensures
        r == starts_with(s@, w@),
{
    let wc = chars_of(w);
    if wc.len() > s.len() {
        return false;
    }
    let r = occurs_at_exec(s, wc.as_slice(), 0);
    r
}

// ─── conversions ────────────────────────────────────────────────

/// The characters of a string slice, in order.
pub fn chars_of(s: &str) -> (r: Vec<char>)
    ensures
        r@ == s@,
{
    let mut r: Vec<char> = Vec::new();
    for c in it: s.chars()
        invariant
            r@ == it.seq().take(it.index() as int),
    {
        r.push(c);
    }
    r
}

/// Appends one character (`String::push`).
#[verifier::external_body]
pub(crate) fn push_char(s: &mut String, c: char)
    ensures
        final(s)@ == old(s)@.push(c),
{
    s.push(c);
}

/// The string made of the given characters.
pub fn string_of(v: &[char]) -> (r: String)
    ensures
        r@ == v@,
{
    let mut r = String::new();
    let mut i: usize = 0;
    while i < v.len()
        invariant
            i <= v@.len(),
            r@ =~= v@.subrange(0, i as int),
        decreases v@.len() - i,
    {
        push_char(&mut r, v[i]);
        i = i + 1;
    }
    r
}

/// Appends a string slice to a character vector.
pub fn extend_str(v: &mut Vec<char>, s: &str)
    ensures
        final(v)@ == old(v)@ + s@,
{
    let c = chars_of(s);
    extend_chars(v, c.as_slice());
}

/// Appends characters to a character vector.
pub fn extend_chars(v: &mut Vec<char>, s: &[char])
    ensures
        final(v)@ == old(v)@ + s@,
{
    let ghost orig = v@;
    let mut i: usize = 0;
    while i < s.len()
        invariant
            i <= s@.len(),
            v@ =~= orig + s@.subrange(0, i as int),
        decreases s@.len() - i,
    {
        v.push(s[i]);
        i = i + 1;
    }
    assert(s@.subrange(0, s@.len() as int) =~= s@);
}

/// `parts` joined with `sep` between consecutive parts.
pub open spec fn join(parts: Seq<Seq<char>>, sep: Seq<char>) -> Seq<char>
    decreases parts.len(),
{
    if parts.len() == 0 {
        Seq::<char>::empty()
    } else if parts.len() == 1 {
        parts[0]
    } else {
        join(parts.drop_last(), sep) + sep + parts.last()
    }
}

/// Joins character sequences with a separator.
pub fn join_chars(parts: &Vec<Vec<char>>, sep: &[char]) -> (r: Vec<char>)
    ensures
        r@ == join(views(parts@), sep@),
{
    let ghost pv = views(parts@);
    let mut r: Vec<char> = Vec::new();
    let mut i: usize = 0;
    while i < parts.len()
        invariant
            i <= pv.len(),
            pv == views(parts@),
            r@ == join(pv.subrange(0, i as int), sep@),
        decreases pv.len() - i,
    {
        let ghost prev = pv.subrange(0, i as int);
        if i > 0 {
            extend_chars(&mut r, sep);
        }
        extend_chars(&mut r, parts[i].as_slice());
        proof {
            let nxt = pv.subrange(0, i as int + 1);
            assert(nxt.drop_last() =~= prev);
            assert(parts[i as int]@ == pv[i as int]);
            if i == 0 {
                assert(nxt =~= seq![pv[0]]);
            }
        }
        i = i + 1;
    }
    assert(pv.subrange(0, pv.len() as int) =~= pv);
    r
}

/// Whether the list holds the string.
pub fn contains_string(v: &Vec<String>, s: &str) -> (r: bool)
    ensures
        r == string_views(v@).contains(s@),
{
    let ghost sv = string_views(v@);
    let mut i: usize = 0;
    while i < v.len()
        invariant
            i <= v@.len(),
            sv == string_views(v@),
            forall|k: int| 0 <= k < i ==> sv[k] != s@,
        decreases v@.len() - i,
    {
        let c = chars_of(v[i].as_str());
        if eq_str(c.as_slice(), s) {
            assert(sv[i as int] == s@);
            return true;
        }
        i = i + 1;
    }
    false
}

/// A copy of a list of strings.
pub fn copy_strings(v: &Vec<String>) -> (r: Vec<String>)
    ensures
        string_views(r@) == string_views(v@),
{
    let mut r: Vec<String> = Vec::new();
    let mut i: usize = 0;
    while i < v.len()
        invariant
            i <= v@.len(),
            string_views(r@) == string_views(v@).subrange(0, i as int),
        decreases v@.len() - i,
    {
        let ghost before = string_views(r@);
        r.push(v[i].clone());
        assert(string_views(r@) =~= before.push(v@[i as int]@));
        assert(string_views(v@).subrange(0, i as int + 1) =~= string_views(v@).subrange(0, i as int).push(v@[i as int]@));
        i = i + 1;
    }
    assert(string_views(v@).subrange(0, v@.len() as int) =~= string_views(v@));
    r
}

/// Joins strings with a separator.
pub fn join_strings(v: &Vec<String>, sep: &str) -> (r: Vec<char>)
    ensures
        r@ == join(string_views(v@), sep@),
{
    let mut parts: Vec<Vec<char>> = Vec::new();
    let mut i: usize = 0;
    while i < v.len()
        invariant
            i <= v@.len(),
            views(parts@) == string_views(v@).subrange(0, i as int),
        decreases v@.len() - i,
    {
        let ghost before = views(parts@);
        parts.push(chars_of(v[i].as_str()));
        assert(views(parts@) =~= before.push(v@[i as int]@));
        assert(string_views(v@).subrange(0, i as int + 1) =~= string_views(v@).subrange(0, i as int).push(v@[i as int]@));
        i = i + 1;
    }
    assert(string_views(v@).subrange(0, v@.len() as int) =~= string_views(v@));
    let sc = chars_of(sep);
    join_chars(&parts, sc.as_slice())
}

} // verus!

verus! {

/// Character-sequence equality with a literal.
pub fn eq_str(a: &[char], b: &str) -> (r: bool)
    ensures
        r == (a@ == b@),
{
    let bc = chars_of(b);
    if a.len() != bc.len() {
        return false;
    }
    let mut i: usize = 0;
    while i < a.len()
        invariant
            i <= a@.len(),
            a@.len() == bc@.len(),
            bc@ == b@,
            forall|k: int| 0 <= k < i ==> a@[k] == bc@[k],
        decreases a@.len() - i,
    {
        if a[i] != bc[i] {
            return false;
        }
        i = i + 1;
    }
    assert(a@ =~= bc@);
    true
}

/// What `str::to_lowercase` returns for the given characters.
pub uninterp spec fn lowercase(s: Seq<char>) -> Seq<char>;

/// Every character is ASCII.
pub open spec fn all_ascii(s: Seq<char>) -> bool {
    forall|i: int| 0 <= i < s.len() ==> (#[trigger] s[i] as u32) < 128
}

/// The ASCII lower-casing of a character: `A`..`Z` become `a`..`z`, every
/// other character stays as it is.
pub open spec fn ascii_lower_char(c: char) -> char {
    if 'A' <= c && c <= 'Z' { ((c as u32) + 32) as char } else { c }
}

/// The ASCII lower-casing of each character.
pub open spec fn ascii_lower(s: Seq<char>) -> Seq<char> {
    s.map_values(|c: char| ascii_lower_char(c))
}

/// Calls `str::to_lowercase`; the result is named by `lowercase`, a function
/// of the characters alone (Unicode's fixed case tables). Of an all-ASCII
/// text it states the Unicode lower-case mapping of ASCII: the letters `A` to
/// `Z` become `a` to `z` and every other ASCII character stays. What it does
/// to other characters is left unsaid.
#[verifier::external_body]
pub(crate) fn to_lowercase(s: &str) -> (r: String)
    ensures
        r@ == lowercase(s@),
        all_ascii(s@) ==> r@ == ascii_lower(s@),
{
    s.to_lowercase()
}

} // verus!

verus! {

/// Some word of `ws` occurs in `t`.
pub open spec fn contains_any(t: Seq<char>, ws: Seq<&'static str>) -> bool {
    exists|i: int| 0 <= i < ws.len() && contains(t, #[trigger] ws[i]@)
}

/// Tests whether any of the words occurs in the text.
pub fn contains_any_exec(t: &[char], ws: &[&'static str]) -> (r: bool)
    ensures
        r == contains_any(t@, ws@),
{
    let mut i: usize = 0;
    while i < ws.len()
        invariant
            i <= ws@.len(),
            forall|k: int| 0 <= k < i ==> !contains(t@, #[trigger] ws@[k]@),
        decreases ws@.len() - i,
    {
        if contains_str(t, ws[i]) {
            return true;
        }
        i = i + 1;
    }
    false
}

/// The pieces of `s` between characters of `seps` (what `str::split` yields
/// for a set of separator characters): always at least one piece.
pub open spec fn split_any(s: Seq<char>, seps: Seq<char>) -> Seq<Seq<char>>
    decreases s.len(),
{
    if s.len() == 0 {
        seq![Seq::<char>::empty()]
    } else {
        let prev = split_any(s.drop_last(), seps);
        if seps.contains(s.last()) {
            prev.push(Seq::<char>::empty())
        } else {
            prev.update(prev.len() - 1, prev.last().push(s.last()))
        }
    }
}

pub proof fn lemma_split_any_nonempty(s: Seq<char>, seps: Seq<char>)
    ensures
        split_any(s, seps).len() >= 1,
    decreases s.len(),
{
    if s.len() > 0 {
        lemma_split_any_nonempty(s.drop_last(), seps);
    }
}

/// Splits on any of the separator characters.
pub fn split_any_chars(s: &[char], seps: &[char]) -> (r: Vec<Vec<char>>)
    ensures
        views(r@) == split_any(s@, seps@),
{
    let mut r: Vec<Vec<char>> = Vec::new();
    let mut cur: Vec<char> = Vec::new();
    let n = s.len();
    let mut i: usize = 0;
    while i < n
        invariant
            i <= n,
            n == s@.len(),
            views(r@).push(cur@) =~= split_any(s@.subrange(0, i as int), seps@),
        decreases n - i,
    {
        let c = s[i];
        proof {
            let p = s@.subrange(0, i as int + 1);
            assert(p.drop_last() =~= s@.subrange(0, i as int));
            assert(p.last() == c);
        }
        let ghost old_r = views(r@);
        let ghost old_cur = cur@;
        let ghost prev = split_any(s@.subrange(0, i as int), seps@);
        if has_char_exec(seps, c) {
            assert(seps@.contains(c)) by {
                let k = choose|k: int| 0 <= k < seps@.len() && seps@[k] == c;
                assert(seps@[k] == c);
            }
            let done = cur;
            r.push(done);
            cur = Vec::new();
            proof {
                assert(views(r@) =~= old_r.push(old_cur));
                assert(views(r@).push(cur@) =~= prev.push(Seq::<char>::empty()));
            }
        } else {
            assert(!seps@.contains(c));
            cur.push(c);
            proof {
                assert(prev =~= old_r.push(old_cur));
                assert(views(r@).push(cur@) =~= prev.update(prev.len() - 1, prev.last().push(c)));
            }
        }
        i = i + 1;
    }
    assert(s@.subrange(0, n as int) =~= s@);
    let ghost old_r = views(r@);
    let ghost last = cur@;
    r.push(cur);
    assert(views(r@) =~= old_r.push(last));
    r
}


// ─── lowered word lists ─────────────────────────────────────────

/// Some of the words occurs in the text.
pub open spec fn any_in(t: Seq<char>, ws: Seq<Seq<char>>) -> bool {
    exists|k: int| 0 <= k < ws.len() && #[trigger] contains(t, ws[k])
}

pub open spec fn lowercase_each(ws: Seq<Seq<char>>) -> Seq<Seq<char>> {
    ws.map_values(|w: Seq<char>| lowercase(w))
}

/// Whether the text holds one of the words.
pub fn any_contained(t: &str, ws: &Vec<String>) -> (r: bool)
    ensures
        r == any_in(t@, string_views(ws@)),
{
    let tc = chars_of(t);
    let mut k: usize = 0;
    while k < ws.len()
        invariant
            k <= ws@.len(),
            tc@ == t@,
            forall|m: int| 0 <= m < k ==> !contains(t@, #[trigger] string_views(ws@)[m]),
        decreases ws@.len() - k,
    {
        let wc = chars_of(ws[k].as_str());
        assert(string_views(ws@)[k as int] == ws@[k as int]@);
        if contains_chars(tc.as_slice(), wc.as_slice()) {
            return true;
        }
        k = k + 1;
    }
    false
}

/// Each word lower-cased.
pub fn lowercase_strings(ws: &Vec<String>) -> (r: Vec<String>)
    ensures
        string_views(r@) == lowercase_each(string_views(ws@)),
{
    let mut out: Vec<String> = Vec::new();
    let mut k: usize = 0;
    while k < ws.len()
        invariant
            k <= ws@.len(),
            string_views(out@) == lowercase_each(string_views(ws@)).subrange(0, k as int),
        decreases ws@.len() - k,
    {
        let l = to_lowercase(ws[k].as_str());
        let ghost before = string_views(out@);
        out.push(l);
        assert(string_views(out@) =~= before.push(l@));
        assert(lowercase_each(string_views(ws@)).subrange(0, k as int + 1)
            =~= lowercase_each(string_views(ws@)).subrange(0, k as int).push(lowercase(ws@[k as int]@)));
        k = k + 1;
    }
    assert(lowercase_each(string_views(ws@)).subrange(0, ws@.len() as int) =~= lowercase_each(string_views(ws@)));
    out
}

} // verus!
