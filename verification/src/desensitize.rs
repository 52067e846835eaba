//! Masking of structured sensitive data (phone numbers, dates, amounts,
//! e-mail addresses, identity numbers) before text leaves the process.
use vstd::prelude::*;
use crate::patterns::{regex_matches, regex_replaced, replace_all};

verus! {

pub const PHONE_PATTERN: &'static str = r"1[3-9]\d-?\d{4}-?\d{4}";
pub const LANDLINE_PATTERN: &'static str = r"0\d{2,3}[-\s]?\d{7,8}";
pub const AMOUNT_PATTERN: &'static str = r"\d+(?:\.\d{1,2})?\s*[万元亿]";
pub const DATE_PATTERN: &'static str = r"\d{4}\s*年\s*\d{1,2}\s*月\s*\d{1,2}\s*日";
pub const EMAIL_PATTERN: &'static str = r"[\w.\-+]+@[\w.\-]+\.[a-zA-Z]{2,}";
pub const ID_CARD_PATTERN: &'static str = r"\b\d{17}[\dXx]\b";

/// The masking steps in the order they are applied: e-mail and identity
/// numbers first (the most specific), dates before amounts.
pub open spec fn masking_steps() -> Seq<(Seq<char>, Seq<char>)> {
    seq![
        (EMAIL_PATTERN@, "[邮箱]"@),
        (ID_CARD_PATTERN@, "[证件号]"@),
        (PHONE_PATTERN@, "[联系电话]"@),
        (LANDLINE_PATTERN@, "[联系电话]"@),
        (DATE_PATTERN@, "[日期]"@),
        (AMOUNT_PATTERN@, "[金额]"@),
    ]
}

/// The text after the first `n` masking steps.
pub open spec fn masked(text: Seq<char>, n: nat) -> Seq<char>
    decreases n,
{
    if n == 0 {
        text
    } else {
        let step = masking_steps()[n - 1];
        regex_replaced(step.0, masked(text, (n - 1) as nat), step.1)
    }
}

/// No masking step finds anything at its turn.
pub open spec fn nothing_to_mask(text: Seq<char>, n: nat) -> bool
    decreases n,
{
    if n == 0 {
        true
    } else {
        nothing_to_mask(text, (n - 1) as nat) && !regex_matches(masking_steps()[n - 1].0, masked(text, (n - 1) as nat))
    }
}

/// Replaces phone numbers, landlines, dates, amounts, e-mail addresses and
/// identity numbers by placeholders; everything else is kept.
pub fn desensitize(text: &str) -> (r: String)
    ensures
        r@ == masked(text@, 6),
        nothing_to_mask(text@, 6) ==> r@ == text@,
{
    let r1 = replace_all(EMAIL_PATTERN, text, "[邮箱]");
    let r2 = replace_all(ID_CARD_PATTERN, r1.as_str(), "[证件号]");
    let r3 = replace_all(PHONE_PATTERN, r2.as_str(), "[联系电话]");
    let r4 = replace_all(LANDLINE_PATTERN, r3.as_str(), "[联系电话]");
    let r5 = replace_all(DATE_PATTERN, r4.as_str(), "[日期]");
    let r6 = replace_all(AMOUNT_PATTERN, r5.as_str(), "[金额]");
    proof {
        reveal_with_fuel(masked, 7);
        reveal_with_fuel(nothing_to_mask, 7);
    }
    r6
}

} // verus!
