//! Decimal integers: parsing the way `str::parse` does and printing the way
//! `format!("{}")` / `format!("{:0N}")` do.
use vstd::prelude::*;
use crate::text::is_ascii_digit;

verus! {

pub open spec fn digit_value(c: char) -> int {
    (c as int) - ('0' as int)
}

pub open spec fn all_digits(s: Seq<char>) -> bool {
    forall|i: int| 0 <= i < s.len() ==> is_ascii_digit(#[trigger] s[i])
}

/// The value of a string of decimal digits.
pub open spec fn digits_val(s: Seq<char>) -> int
    decreases s.len(),
{
    if s.len() == 0 {
        0
    } else {
        digits_val(s.drop_last()) * 10 + digit_value(s.last())
    }
}

proof fn lemma_digits_val_nonneg(s: Seq<char>)
    requires
        all_digits(s),
    ensures
        digits_val(s) >= 0,
    decreases s.len(),
{
    if s.len() > 0 {
        assert(all_digits(s.drop_last())) by {
            assert forall|i: int| 0 <= i < s.drop_last().len() implies is_ascii_digit(#[trigger] s.drop_last()[i]) by {
                assert(s.drop_last()[i] == s[i]);
            }
        }
        lemma_digits_val_nonneg(s.drop_last());
        assert(is_ascii_digit(s[s.len() - 1]));
    }
}

proof fn lemma_digits_val_prefix(s: Seq<char>, i: int)
    requires
        all_digits(s),
        0 <= i <= s.len(),
    ensures
        digits_val(s.subrange(0, i)) <= digits_val(s),
    decreases s.len() - i,
{
    if i < s.len() {
        let t = s.subrange(0, i + 1);
        assert(t.drop_last() =~= s.subrange(0, i));
        assert(all_digits(s.subrange(0, i))) by {
            assert forall|k: int| 0 <= k < i implies is_ascii_digit(#[trigger] s.subrange(0, i)[k]) by {
                assert(s.subrange(0, i)[k] == s[k]);
            }
        }
        lemma_digits_val_nonneg(s.subrange(0, i));
        assert(is_ascii_digit(s[i]));
        lemma_digits_val_prefix(s, i + 1);
    } else {
        assert(s.subrange(0, i) =~= s);
    }
}

/// Parses an unsigned magnitude of at most `limit`; `None` when `s` is not
/// all digits, is empty, or exceeds the limit.
fn parse_magnitude(s: &[char], limit: u64) -> (r: Option<u64>)
    requires
        limit <= 0x1_0000_0000,
    ensures
        match r {
            Some(v) => s@.len() > 0 && all_digits(s@) && v == digits_val(s@) && v <= limit,
            None => !(s@.len() > 0 && all_digits(s@) && digits_val(s@) <= limit),
        },
{
    if s.len() == 0 {
        return None;
    }
    let mut acc: u64 = 0;
    let mut i: usize = 0;
    while i < s.len()
        invariant
            i <= s@.len(),
            limit <= 0x1_0000_0000,
            all_digits(s@.subrange(0, i as int)),
            acc == digits_val(s@.subrange(0, i as int)),
            acc <= limit,
        decreases s@.len() - i,
    {
        let c = s[i];
        let ghost p = s@.subrange(0, i as int + 1);
        proof {
            assert(p.drop_last() =~= s@.subrange(0, i as int));
        }
        if !('0' <= c && c <= '9') {
            proof {
                assert(!is_ascii_digit(s@[i as int]));
            }
            return None;
        }
        let d = (c as u32 - '0' as u32) as u64;
        let next = acc * 10 + d;
        proof {
            assert(all_digits(p)) by {
                assert forall|k: int| 0 <= k < p.len() implies is_ascii_digit(#[trigger] p[k]) by {
                    if k < i {
                        assert(p[k] == s@.subrange(0, i as int)[k]);
                    }
                }
            }
        }
        if next > limit {
            proof {
                if all_digits(s@) {
                    lemma_digits_val_prefix(s@, i as int + 1);
                }
            }
            return None;
        }
        acc = next;
        i = i + 1;
    }
    assert(s@.subrange(0, s@.len() as int) =~= s@);
    Some(acc)
}

/// What `str::parse::<u32>` accepts and returns: an optional `+` and at
/// least one ASCII digit, within range.
pub open spec fn parse_u32_spec(s: Seq<char>) -> Option<u32> {
    let body = if s.len() > 0 && s[0] == '+' { s.drop_first() } else { s };
    if body.len() > 0 && all_digits(body) && digits_val(body) <= u32::MAX {
        Some(digits_val(body) as u32)
    } else {
        None
    }
}

/// What `str::parse::<i32>` accepts and returns: an optional sign and at
/// least one ASCII digit, within range.
pub open spec fn parse_i32_spec(s: Seq<char>) -> Option<i32> {
    let neg = s.len() > 0 && s[0] == '-';
    let body = if s.len() > 0 && (s[0] == '+' || s[0] == '-') { s.drop_first() } else { s };
    if body.len() > 0 && all_digits(body) {
        let v = if neg { -digits_val(body) } else { digits_val(body) };
        if i32::MIN <= v <= i32::MAX {
            Some(v as i32)
        } else {
            None
        }
    } else {
        None
    }
}

pub fn parse_u32(s: &[char]) -> (r: Option<u32>)
    ensures
        r == parse_u32_spec(s@),
{
    let body = if s.len() > 0 && s[0] == '+' { crate::text::slice_range(s, 1, s.len()) } else { crate::text::slice_range(s, 0, s.len()) };
    proof {
        assert(s@.subrange(0, s@.len() as int) =~= s@);
        assert(s@.len() > 0 ==> s@.subrange(1, s@.len() as int) =~= s@.drop_first());
    }
    match parse_magnitude(body.as_slice(), 0xFFFF_FFFF) {
        Some(v) => Some(v as u32),
        None => None,
    }
}

pub fn parse_i32(s: &[char]) -> (r: Option<i32>)
    ensures
        r == parse_i32_spec(s@),
{
    let neg = s.len() > 0 && s[0] == '-';
    let body = if s.len() > 0 && (s[0] == '+' || s[0] == '-') {
        crate::text::slice_range(s, 1, s.len())
    } else {
        crate::text::slice_range(s, 0, s.len())
    };
    proof {
        assert(s@.subrange(0, s@.len() as int) =~= s@);
        assert(s@.len() > 0 ==> s@.subrange(1, s@.len() as int) =~= s@.drop_first());
    }
    match parse_magnitude(body.as_slice(), 0x8000_0000) {
        Some(v) => {
            if neg {
                Some((0i64 - v as i64) as i32)
            } else if v <= 0x7FFF_FFFF {
                Some(v as i32)
            } else {
                None
            }
        },
        None => {
            proof {
                if body@.len() > 0 && all_digits(body@) {
                    lemma_digits_val_nonneg(body@);
                }
            }
            None
        },
    }
}

// ─── printing ───────────────────────────────────────────────────

pub open spec fn digit_char(d: int) -> char {
    ((d + 48) as u32) as char
}

/// The decimal digits of `n`, without leading zeros.
pub open spec fn dec(n: nat) -> Seq<char>
    decreases n,
{
    if n < 10 {
        seq![digit_char(n as int)]
    } else {
        dec(n / 10).push(digit_char((n % 10) as int))
    }
}

/// `s` left-padded with zeros to at least `w` characters.
pub open spec fn zero_pad(s: Seq<char>, w: int) -> Seq<char> {
    if s.len() >= w {
        s
    } else {
        Seq::new((w - s.len()) as nat, |_i: int| '0') + s
    }
}

/// `format!("{:0w}", v)`: sign first, zeros between sign and digits.
pub open spec fn fmt_int(v: int, w: int) -> Seq<char> {
    if v < 0 {
        seq!['-'] + zero_pad(dec((-v) as nat), w - 1)
    } else {
        zero_pad(dec(v as nat), w)
    }
}

fn dec_exec(n: u128) -> (r: Vec<char>)
    ensures
        r@ == dec(n as nat),
    decreases n,
{
    if n < 10 {
        let c = ((n as u8) + 48) as char;
        assert(c == digit_char(n as int));
        vec![c]
    } else {
        let mut v = dec_exec(n / 10);
        let c = (((n % 10) as u8) + 48) as char;
        assert(c == digit_char((n % 10) as int));
        v.push(c);
        v
    }
}

/// Decimal text of `v`, zero-padded to width `w` as `{:0w}` does
/// (`w == 0` gives plain `{}`).
pub fn fmt_int_exec(v: i128, w: usize) -> (r: Vec<char>)
    requires
        v > i128::MIN,
    ensures
        r@ == fmt_int(v as int, w as int),
{
    let neg = v < 0;
    let mag: u128 = if neg { (0 - v) as u128 } else { v as u128 };
    let digits = dec_exec(mag);
    let target: usize = if neg { if w > 0 { w - 1 } else { 0 } } else { w };
    let mut r: Vec<char> = Vec::new();
    if neg {
        r.push('-');
    }
    let ghost start = r@;
    let mut k: usize = digits.len();
    while k < target
        invariant
            digits.len() <= k,
            k <= target || digits.len() >= target,
            k > digits.len() ==> k <= target,
            r@ =~= start + Seq::new((k - digits.len()) as nat, |_i: int| '0'),
        decreases target - k,
    {
        r.push('0');
        k = k + 1;
    }
    let ghost pad = r@;
    crate::text::extend_chars(&mut r, digits.as_slice());
    proof {
        if neg {
            assert((-(v as int)) as nat == mag as nat);
            assert(start =~= seq!['-']);
            if digits@.len() >= target {
                assert(r@ =~= seq!['-'] + dec(mag as nat));
            } else {
                assert(r@ =~= seq!['-'] + (Seq::new((target - digits@.len()) as nat, |_i: int| '0') + dec(mag as nat)));
            }
        } else {
            assert(start =~= Seq::<char>::empty());
            if digits@.len() >= target {
                assert(r@ =~= dec(mag as nat));
            } else {
                assert(r@ =~= Seq::new((target - digits@.len()) as nat, |_i: int| '0') + dec(mag as nat));
            }
        }
    }
    r
}

} // verus!
