//! Unified risk taxonomy, evidence admission and the critical-issue policy.
//!
//! Free-form risk types from the agents are converged onto fifteen stable
//! category codes before merging; "critical" is decided by the category
//! together with the verbatim evidence, never chosen freely.
use vstd::prelude::*;
use crate::text::{chars_of, contains, contains_any, contains_any_exec, contains_str, eq_str, extend_str, split_any, split_any_chars, string_of, trim, trim_chars, views, is_ascii_digit};
use crate::types::RiskSeverity;

verus! {

// ─── category table ─────────────────────────────────────────────

/// The canonical category codes, in table order.
pub open spec fn category_codes() -> Seq<&'static str> {
    seq![
        "LOCAL_REGISTRATION", "BRAND_LOCK", "UNRELATED_CERT", "REGIONAL_PERFORMANCE",
        "SCALE_THRESHOLD", "SHORT_DEADLINE", "EXCESSIVE_DEPOSIT", "OEM_AUTHORIZATION",
        "SUBJECTIVE_SCORING", "LOCAL_AWARD", "VAGUE_ACCEPTANCE", "UNBOUNDED_IP",
        "UNILATERAL_CHANGE", "CONFLICTING_DATES", "UNCLEAR_PENALTY",
    ]
}

/// The display names of the categories, parallel to `category_codes`.
pub open spec fn category_names() -> Seq<&'static str> {
    seq![
        "地域注册限制", "指定品牌且不接受同等产品", "设置与履约无关的资格条件", "特定区域业绩限制",
        "以经营规模设置资格门槛", "投标准备期不足", "投标保证金比例过高", "将厂家授权作为资格条件",
        "主观评分未细化量化", "本地奖项加分", "验收标准模糊", "知识产权责任无限扩大",
        "采购人可单方无限变更需求", "关键日期相互矛盾", "违约责任口径不清",
    ]
}

fn codes_table() -> (r: [&'static str; 15])
    ensures
        r@ == category_codes(),
{
    let r = [
        "LOCAL_REGISTRATION", "BRAND_LOCK", "UNRELATED_CERT", "REGIONAL_PERFORMANCE",
        "SCALE_THRESHOLD", "SHORT_DEADLINE", "EXCESSIVE_DEPOSIT", "OEM_AUTHORIZATION",
        "SUBJECTIVE_SCORING", "LOCAL_AWARD", "VAGUE_ACCEPTANCE", "UNBOUNDED_IP",
        "UNILATERAL_CHANGE", "CONFLICTING_DATES", "UNCLEAR_PENALTY",
    ];
    assert(r@ == category_codes());
    r
}

fn names_table() -> (r: [&'static str; 15])
    ensures
        r@ == category_names(),
{
    let r = [
        "地域注册限制", "指定品牌且不接受同等产品", "设置与履约无关的资格条件", "特定区域业绩限制",
        "以经营规模设置资格门槛", "投标准备期不足", "投标保证金比例过高", "将厂家授权作为资格条件",
        "主观评分未细化量化", "本地奖项加分", "验收标准模糊", "知识产权责任无限扩大",
        "采购人可单方无限变更需求", "关键日期相互矛盾", "违约责任口径不清",
    ];
    assert(r@ == category_names());
    r
}

/// Index of the first table entry whose code equals `code`.
pub open spec fn code_index(code: Seq<char>) -> Option<int> {
    if exists|i: int| 0 <= i < 15 && category_codes()[i]@ == code {
        Some(choose|i: int| 0 <= i < 15 && category_codes()[i]@ == code && forall|j: int| 0 <= j < i ==> category_codes()[j]@ != code)
    } else {
        None
    }
}

/// The display name of a canonical code.
pub open spec fn display_name_of(code: Seq<char>) -> Option<&'static str> {
    match code_index(code) {
        Some(i) => Some(category_names()[i]),
        None => None,
    }
}

fn find_code(code: &[char]) -> (r: Option<usize>)
    ensures
        match r {
            Some(i) => i < 15 && category_codes()[i as int]@ == code@ && forall|j: int| 0 <= j < i ==> category_codes()[j]@ != code@,
            None => forall|j: int| 0 <= j < 15 ==> category_codes()[j]@ != code@,
        },
{
    let codes = codes_table();
    let mut i: usize = 0;
    while i < 15
        invariant
            i <= 15,
            codes@ == category_codes(),
            forall|j: int| 0 <= j < i ==> category_codes()[j]@ != code@,
        decreases 15 - i,
    {
        if eq_str(code, codes[i]) {
            return Some(i);
        }
        i = i + 1;
    }
    None
}

proof fn lemma_code_index(code: Seq<char>, i: int)
    requires
        0 <= i < 15,
        category_codes()[i]@ == code,
        forall|j: int| 0 <= j < i ==> category_codes()[j]@ != code,
    ensures
        code_index(code) == Some(i),
{
    let k = choose|k: int| 0 <= k < 15 && category_codes()[k]@ == code && forall|j: int| 0 <= j < k ==> category_codes()[j]@ != code;
    assert(exists|k: int| 0 <= k < 15 && category_codes()[k]@ == code && forall|j: int| 0 <= j < k ==> category_codes()[j]@ != code) by {
        assert(0 <= i < 15 && category_codes()[i]@ == code && forall|j: int| 0 <= j < i ==> category_codes()[j]@ != code);
    }
    if k < i {
        assert(category_codes()[k]@ != code);
    } else if k > i {
        assert(category_codes()[i]@ != code);
    }
}

/// The display name of a canonical category code.
pub fn display_name(code: &str) -> (r: Option<&'static str>)
    ensures
        r == display_name_of(code@),
{
    let c = chars_of(code);
    match find_code(c.as_slice()) {
        Some(i) => {
            proof {
                lemma_code_index(code@, i as int);
            }
            let names = names_table();
            Some(names[i])
        },
        None => None,
    }
}

// ─── code normalisation ─────────────────────────────────────────

pub open spec fn is_code_char(c: char) -> bool {
    ('a' <= c && c <= 'z') || ('A' <= c && c <= 'Z') || ('0' <= c && c <= '9') || c == '_'
}

pub open spec fn ascii_upper(c: char) -> char {
    if 'a' <= c && c <= 'z' {
        ((c as u32) - 32) as char
    } else {
        c
    }
}

/// The ASCII letters, digits and underscores of `s`, upper-cased.
pub open spec fn code_chars(s: Seq<char>) -> Seq<char>
    decreases s.len(),
{
    if s.len() == 0 {
        Seq::<char>::empty()
    } else {
        let p = code_chars(s.drop_last());
        if is_code_char(s.last()) {
            p.push(ascii_upper(s.last()))
        } else {
            p
        }
    }
}

/// Index of the first underscore in `u`.
pub open spec fn first_underscore(u: Seq<char>) -> Option<int> {
    if exists|k: int| 0 <= k < u.len() && u[k] == '_' {
        Some(choose|k: int| 0 <= k < u.len() && u[k] == '_' && forall|j: int| 0 <= j < k ==> u[j] != '_')
    } else {
        None
    }
}

/// A prefix such as `R3` or `C12`: a letter followed by at least one digit.
pub open spec fn is_id_prefix(p: Seq<char>) -> bool {
    &&& p.len() >= 2
    &&& (('a' <= p[0] && p[0] <= 'z') || ('A' <= p[0] && p[0] <= 'Z'))
    &&& forall|j: int| 1 <= j < p.len() ==> is_ascii_digit(#[trigger] p[j])
}

/// Upper-cased code characters, with a leading `<letter><digits>_` tag removed.
pub open spec fn normalized(value: Seq<char>) -> Seq<char> {
    let u = code_chars(value);
    match first_underscore(u) {
        Some(k) => if is_id_prefix(u.subrange(0, k)) { u.subrange(k + 1, u.len() as int) } else { u },
        None => u,
    }
}

fn upper_code_chars(v: &[char]) -> (r: Vec<char>)
    ensures
        r@ == code_chars(v@),
{
    let mut r: Vec<char> = Vec::new();
    let mut i: usize = 0;
    while i < v.len()
        invariant
            i <= v@.len(),
            r@ == code_chars(v@.subrange(0, i as int)),
        decreases v@.len() - i,
    {
        let c = v[i];
        proof {
            let p = v@.subrange(0, i as int + 1);
            assert(p.drop_last() =~= v@.subrange(0, i as int));
        }
        if ('a' <= c && c <= 'z') {
            let u = ((c as u32) - 32) as u8 as char;
            assert(u == ascii_upper(c)) by {
                assert((c as u32) - 32 < 256);
            }
            r.push(u);
        } else if ('A' <= c && c <= 'Z') || ('0' <= c && c <= '9') || c == '_' {
            r.push(c);
        }
        i = i + 1;
    }
    assert(v@.subrange(0, v@.len() as int) =~= v@);
    r
}

/// Normalises a free-form code: keeps ASCII letters, digits and `_`,
/// upper-cases them, and drops a leading tag like `R01_`.
pub fn normalized_code(value: &str) -> (r: String)
    ensures
        r@ == normalized(value@),
{
    let vc = chars_of(value);
    let u = upper_code_chars(vc.as_slice());
    let mut k: usize = 0;
    while k < u.len() && u[k] != '_'
        invariant
            k <= u@.len(),
            forall|j: int| 0 <= j < k ==> u@[j] != '_',
        decreases u@.len() - k,
    {
        k = k + 1;
    }
    if k == u.len() {
        assert(first_underscore(u@) is None);
        return string_of(u.as_slice());
    }
    proof {
        let w = choose|w: int| 0 <= w < u@.len() && u@[w] == '_' && forall|j: int| 0 <= j < w ==> u@[j] != '_';
        assert(exists|w: int| 0 <= w < u@.len() && u@[w] == '_' && forall|j: int| 0 <= j < w ==> u@[j] != '_') by {
            assert(0 <= k < u@.len() && u@[k as int] == '_');
        }
        if w < k {
            assert(u@[w] != '_');
        } else if w > k {
            assert(u@[k as int] != '_');
        }
        assert(first_underscore(u@) == Some(k as int));
    }
    let mut ok = k >= 2 && (('a' <= u[0] && u[0] <= 'z') || ('A' <= u[0] && u[0] <= 'Z'));
    let mut j: usize = 1;
    while ok && j < k
        invariant
            1 <= j,
            ok ==> j <= k,
            k < u@.len(),
            ok ==> forall|t: int| 1 <= t < j ==> is_ascii_digit(#[trigger] u@[t]),
            ok ==> k >= 2 && (('a' <= u@[0] && u@[0] <= 'z') || ('A' <= u@[0] && u@[0] <= 'Z')),
            !ok ==> !is_id_prefix(u@.subrange(0, k as int)),
        decreases k - j,
    {
        if !('0' <= u[j] && u[j] <= '9') {
            ok = false;
            assert(u@.subrange(0, k as int)[j as int] == u@[j as int]);
        }
        j = j + 1;
    }
    if ok {
        assert(is_id_prefix(u@.subrange(0, k as int))) by {
            assert forall|t: int| 1 <= t < k implies is_ascii_digit(#[trigger] u@.subrange(0, k as int)[t]) by {
                assert(u@.subrange(0, k as int)[t] == u@[t]);
            }
        }
        let rest = crate::text::slice_range(u.as_slice(), k + 1, u.len());
        string_of(rest.as_slice())
    } else {
        string_of(u.as_slice())
    }
}

// ─── evidence rules ─────────────────────────────────────────────

pub open spec fn regional_words() -> Seq<&'static str> {
    seq!["本市", "本区", "本县", "本省", "当地", "所在地", "所在区县", "采购人所在地"]
}

/// The text names a locality ("本市", "当地", "采购人所在地", ...).
pub open spec fn is_regional(t: Seq<char>) -> bool {
    contains_any(t, regional_words())
}

fn check_regional(t: &[char]) -> (r: bool)
    ensures
        r == is_regional(t@),
{
    let ws: [&'static str; 8] = ["本市", "本区", "本县", "本省", "当地", "所在地", "所在区县", "采购人所在地"];
    assert(ws@ == regional_words());
    contains_any_exec(t, &ws)
}

/// Evidence rule for `LOCAL_REGISTRATION` (applies to regional texts).
pub open spec fn rule_local_registration(t: Seq<char>) -> bool {
    contains_any(t, seq!["注册", "分公司", "分支机构", "经营满"]) && contains_any(t, seq!["须", "必须", "仅限", "不接受", "资格"])
}

fn check_local_registration(t: &[char]) -> (r: bool)
    ensures
        r == rule_local_registration(t@),
{
    let w0: [&'static str; 4] = ["注册", "分公司", "分支机构", "经营满"];
    assert(w0@ == seq!["注册", "分公司", "分支机构", "经营满"]);
    let w1: [&'static str; 5] = ["须", "必须", "仅限", "不接受", "资格"];
    assert(w1@ == seq!["须", "必须", "仅限", "不接受", "资格"]);
    contains_any_exec(t, &w0) && contains_any_exec(t, &w1)
}

/// Evidence rule for `REGIONAL_PERFORMANCE` (applies to regional texts).
pub open spec fn rule_regional_performance(t: Seq<char>) -> bool {
    contains_any(t, seq!["业绩", "案例", "合同"]) && contains_any(t, seq!["须", "必须", "仅限", "不认可", "不予认可", "不得"])
}

fn check_regional_performance(t: &[char]) -> (r: bool)
    ensures
        r == rule_regional_performance(t@),
{
    let w0: [&'static str; 3] = ["业绩", "案例", "合同"];
    assert(w0@ == seq!["业绩", "案例", "合同"]);
    let w1: [&'static str; 6] = ["须", "必须", "仅限", "不认可", "不予认可", "不得"];
    assert(w1@ == seq!["须", "必须", "仅限", "不认可", "不予认可", "不得"]);
    contains_any_exec(t, &w0) && contains_any_exec(t, &w1)
}

/// Evidence rule for `LOCAL_AWARD` (applies to regional texts).
pub open spec fn rule_local_award(t: Seq<char>) -> bool {
    contains_any(t, seq!["奖项", "荣誉", "获奖", "证书", "诚信企业"]) && contains_any(t, seq!["加分", "得分", "评分", "分"])
}

fn check_local_award(t: &[char]) -> (r: bool)
    ensures
        r == rule_local_award(t@),
{
    let w0: [&'static str; 5] = ["奖项", "荣誉", "获奖", "证书", "诚信企业"];
    assert(w0@ == seq!["奖项", "荣誉", "获奖", "证书", "诚信企业"]);
    let w1: [&'static str; 4] = ["加分", "得分", "评分", "分"];
    assert(w1@ == seq!["加分", "得分", "评分", "分"]);
    contains_any_exec(t, &w0) && contains_any_exec(t, &w1)
}

/// Evidence rule for `SCALE_THRESHOLD`.
pub open spec fn rule_scale_threshold(t: Seq<char>) -> bool {
    contains_any(t, seq!["注册资本", "营业收入", "资产总额", "净资产"]) && contains_any(t, seq!["不得低于", "不少于", "以上", "门槛", "资格"])
}

fn check_scale_threshold(t: &[char]) -> (r: bool)
    ensures
        r == rule_scale_threshold(t@),
{
    let w0: [&'static str; 4] = ["注册资本", "营业收入", "资产总额", "净资产"];
    assert(w0@ == seq!["注册资本", "营业收入", "资产总额", "净资产"]);
    let w1: [&'static str; 5] = ["不得低于", "不少于", "以上", "门槛", "资格"];
    assert(w1@ == seq!["不得低于", "不少于", "以上", "门槛", "资格"]);
    contains_any_exec(t, &w0) && contains_any_exec(t, &w1)
}

/// Evidence rule for `BRAND_LOCK`.
pub open spec fn rule_brand_lock(t: Seq<char>) -> bool {
    contains_any(t, seq!["品牌", "商标", "型号"]) && contains_any(t, seq!["仅", "只能", "唯一", "指定", "不接受", "不得偏离"])
}

fn check_brand_lock(t: &[char]) -> (r: bool)
    ensures
        r == rule_brand_lock(t@),
{
    let w0: [&'static str; 3] = ["品牌", "商标", "型号"];
    assert(w0@ == seq!["品牌", "商标", "型号"]);
    let w1: [&'static str; 6] = ["仅", "只能", "唯一", "指定", "不接受", "不得偏离"];
    assert(w1@ == seq!["仅", "只能", "唯一", "指定", "不接受", "不得偏离"]);
    contains_any_exec(t, &w0) && contains_any_exec(t, &w1)
}

/// Evidence rule for `OEM_AUTHORIZATION`.
pub open spec fn rule_oem_authorization(t: Seq<char>) -> bool {
    contains_any(t, seq!["原厂", "厂家", "制造商"]) && contains_any(t, seq!["授权", "承诺函", "证明"]) && contains_any(t, seq!["资格", "无效", "废标", "必须", "须"])
}

fn check_oem_authorization(t: &[char]) -> (r: bool)
    ensures
        r == rule_oem_authorization(t@),
{
    let w0: [&'static str; 3] = ["原厂", "厂家", "制造商"];
    assert(w0@ == seq!["原厂", "厂家", "制造商"]);
    let w1: [&'static str; 3] = ["授权", "承诺函", "证明"];
    assert(w1@ == seq!["授权", "承诺函", "证明"]);
    let w2: [&'static str; 5] = ["资格", "无效", "废标", "必须", "须"];
    assert(w2@ == seq!["资格", "无效", "废标", "必须", "须"]);
    contains_any_exec(t, &w0) && contains_any_exec(t, &w1) && contains_any_exec(t, &w2)
}

/// Evidence rule for `UNRELATED_CERT`.
pub open spec fn rule_unrelated_cert(t: Seq<char>) -> bool {
    contains_any(t, seq!["认证", "证书", "荣誉", "示范企业"]) && contains_any(t, seq!["资格", "无效", "废标", "不通过", "必须", "须提供", "无关"])
}

fn check_unrelated_cert(t: &[char]) -> (r: bool)
    ensures
        r == rule_unrelated_cert(t@),
{
    let w0: [&'static str; 4] = ["认证", "证书", "荣誉", "示范企业"];
    assert(w0@ == seq!["认证", "证书", "荣誉", "示范企业"]);
    let w1: [&'static str; 7] = ["资格", "无效", "废标", "不通过", "必须", "须提供", "无关"];
    assert(w1@ == seq!["资格", "无效", "废标", "不通过", "必须", "须提供", "无关"]);
    contains_any_exec(t, &w0) && contains_any_exec(t, &w1)
}

/// Evidence rule for `EXCESSIVE_DEPOSIT`.
pub open spec fn rule_excessive_deposit(t: Seq<char>) -> bool {
    contains(t, "投标保证金"@) && contains_any(t, seq!["3%", "4%", "5%", "百分之三", "百分之四", "百分之五", "比例过高"])
}

fn check_excessive_deposit(t: &[char]) -> (r: bool)
    ensures
        r == rule_excessive_deposit(t@),
{
    let w1: [&'static str; 7] = ["3%", "4%", "5%", "百分之三", "百分之四", "百分之五", "比例过高"];
    assert(w1@ == seq!["3%", "4%", "5%", "百分之三", "百分之四", "百分之五", "比例过高"]);
    contains_str(t, "投标保证金") && contains_any_exec(t, &w1)
}

/// Evidence rule for `SHORT_DEADLINE`.
pub open spec fn rule_short_deadline(t: Seq<char>) -> bool {
    contains_any(t, seq!["投标截止", "开标", "投标准备", "获取招标文件"]) && contains_any(t, seq!["3日", "5日", "不足", "少于", "仅有", "仅"])
}

fn check_short_deadline(t: &[char]) -> (r: bool)
    ensures
        r == rule_short_deadline(t@),
{
    let w0: [&'static str; 4] = ["投标截止", "开标", "投标准备", "获取招标文件"];
    assert(w0@ == seq!["投标截止", "开标", "投标准备", "获取招标文件"]);
    let w1: [&'static str; 6] = ["3日", "5日", "不足", "少于", "仅有", "仅"];
    assert(w1@ == seq!["3日", "5日", "不足", "少于", "仅有", "仅"]);
    contains_any_exec(t, &w0) && contains_any_exec(t, &w1)
}

/// Evidence rule for `SUBJECTIVE_SCORING`.
pub open spec fn rule_subjective_scoring(t: Seq<char>) -> bool {
    contains_any(t, seq!["评分", "得分", "评委"]) && contains_any(t, seq!["酌情", "自行掌握", "主观", "优良", "满意程度", "综合判断"])
}

fn check_subjective_scoring(t: &[char]) -> (r: bool)
    ensures
        r == rule_subjective_scoring(t@),
{
    let w0: [&'static str; 3] = ["评分", "得分", "评委"];
    assert(w0@ == seq!["评分", "得分", "评委"]);
    let w1: [&'static str; 6] = ["酌情", "自行掌握", "主观", "优良", "满意程度", "综合判断"];
    assert(w1@ == seq!["酌情", "自行掌握", "主观", "优良", "满意程度", "综合判断"]);
    contains_any_exec(t, &w0) && contains_any_exec(t, &w1)
}

/// Evidence rule for `VAGUE_ACCEPTANCE`.
pub open spec fn rule_vague_acceptance(t: Seq<char>) -> bool {
    contains(t, "验收"@) && contains_any(t, seq!["满意", "自行判断", "无异议", "未明确", "不明确", "无需说明"])
}

fn check_vague_acceptance(t: &[char]) -> (r: bool)
    ensures
        r == rule_vague_acceptance(t@),
{
    let w1: [&'static str; 6] = ["满意", "自行判断", "无异议", "未明确", "不明确", "无需说明"];
    assert(w1@ == seq!["满意", "自行判断", "无异议", "未明确", "不明确", "无需说明"]);
    contains_str(t, "验收") && contains_any_exec(t, &w1)
}

/// Evidence rule for `UNBOUNDED_IP`.
pub open spec fn rule_unbounded_ip(t: Seq<char>) -> bool {
    contains_any(t, seq!["知识产权", "侵权", "专利", "既有软件", "权利"]) && contains_any(t, seq!["全部责任", "一切责任", "无限", "无上限", "既有", "永久归"])
}

fn check_unbounded_ip(t: &[char]) -> (r: bool)
    ensures
        r == rule_unbounded_ip(t@),
{
    let w0: [&'static str; 5] = ["知识产权", "侵权", "专利", "既有软件", "权利"];
    assert(w0@ == seq!["知识产权", "侵权", "专利", "既有软件", "权利"]);
    let w1: [&'static str; 6] = ["全部责任", "一切责任", "无限", "无上限", "既有", "永久归"];
    assert(w1@ == seq!["全部责任", "一切责任", "无限", "无上限", "既有", "永久归"]);
    contains_any_exec(t, &w0) && contains_any_exec(t, &w1)
}

/// Evidence rule for `UNILATERAL_CHANGE`.
pub open spec fn rule_unilateral_change(t: Seq<char>) -> bool {
    contains_any(t, seq!["单方", "新增需求", "任意变更", "采购人有权变更"]) && contains_any(t, seq!["不得调整", "不调整", "无条件", "原合同范围", "费用", "工期"])
}

fn check_unilateral_change(t: &[char]) -> (r: bool)
    ensures
        r == rule_unilateral_change(t@),
{
    let w0: [&'static str; 4] = ["单方", "新增需求", "任意变更", "采购人有权变更"];
    assert(w0@ == seq!["单方", "新增需求", "任意变更", "采购人有权变更"]);
    let w1: [&'static str; 6] = ["不得调整", "不调整", "无条件", "原合同范围", "费用", "工期"];
    assert(w1@ == seq!["不得调整", "不调整", "无条件", "原合同范围", "费用", "工期"]);
    contains_any_exec(t, &w0) && contains_any_exec(t, &w1)
}

/// Evidence rule for `CONFLICTING_DATES`.
pub open spec fn rule_conflicting_dates(t: Seq<char>) -> bool {
    contains_any(t, seq!["日期", "截止", "开标时间"]) && contains_any(t, seq!["矛盾", "不一致", "另一处", "分别为", "同时规定"])
}

fn check_conflicting_dates(t: &[char]) -> (r: bool)
    ensures
        r == rule_conflicting_dates(t@),
{
    let w0: [&'static str; 3] = ["日期", "截止", "开标时间"];
    assert(w0@ == seq!["日期", "截止", "开标时间"]);
    let w1: [&'static str; 5] = ["矛盾", "不一致", "另一处", "分别为", "同时规定"];
    assert(w1@ == seq!["矛盾", "不一致", "另一处", "分别为", "同时规定"]);
    contains_any_exec(t, &w0) && contains_any_exec(t, &w1)
}

/// Evidence rule for `UNCLEAR_PENALTY`.
pub open spec fn rule_unclear_penalty(t: Seq<char>) -> bool {
    contains_any(t, seq!["违约金", "违约责任", "处罚"]) && contains_any(t, seq!["重复", "累计", "无上限", "自行决定", "不明确", "不清"])
}

fn check_unclear_penalty(t: &[char]) -> (r: bool)
    ensures
        r == rule_unclear_penalty(t@),
{
    let w0: [&'static str; 3] = ["违约金", "违约责任", "处罚"];
    assert(w0@ == seq!["违约金", "违约责任", "处罚"]);
    let w1: [&'static str; 6] = ["重复", "累计", "无上限", "自行决定", "不明确", "不清"];
    assert(w1@ == seq!["重复", "累计", "无上限", "自行决定", "不明确", "不清"]);
    contains_any_exec(t, &w0) && contains_any_exec(t, &w1)
}

/// The category that the verbatim evidence text shows, rules tried in order.
pub open spec fn evidence_category(t: Seq<char>) -> Option<&'static str> {
    let regional = is_regional(t);
    if regional && rule_local_registration(t) {
        Some("LOCAL_REGISTRATION")
    } else if regional && rule_regional_performance(t) {
        Some("REGIONAL_PERFORMANCE")
    } else if regional && rule_local_award(t) {
        Some("LOCAL_AWARD")
    } else if rule_scale_threshold(t) {
        Some("SCALE_THRESHOLD")
    } else if rule_brand_lock(t) {
        Some("BRAND_LOCK")
    } else if rule_oem_authorization(t) {
        Some("OEM_AUTHORIZATION")
    } else if rule_unrelated_cert(t) {
        Some("UNRELATED_CERT")
    } else if rule_excessive_deposit(t) {
        Some("EXCESSIVE_DEPOSIT")
    } else if rule_short_deadline(t) {
        Some("SHORT_DEADLINE")
    } else if rule_subjective_scoring(t) {
        Some("SUBJECTIVE_SCORING")
    } else if rule_vague_acceptance(t) {
        Some("VAGUE_ACCEPTANCE")
    } else if rule_unbounded_ip(t) {
        Some("UNBOUNDED_IP")
    } else if rule_unilateral_change(t) {
        Some("UNILATERAL_CHANGE")
    } else if rule_conflicting_dates(t) {
        Some("CONFLICTING_DATES")
    } else if rule_unclear_penalty(t) {
        Some("UNCLEAR_PENALTY")
    } else {
        None
    }
}

/// Classifies verbatim evidence text, preferring the evidence over the
/// model's free-form code.
pub fn category_from_evidence(t: &[char]) -> (r: Option<&'static str>)
    ensures
        r == evidence_category(t@),
{
    let regional = check_regional(t);
    if regional && check_local_registration(t) {
        return Some("LOCAL_REGISTRATION");
    }
    if regional && check_regional_performance(t) {
        return Some("REGIONAL_PERFORMANCE");
    }
    if regional && check_local_award(t) {
        return Some("LOCAL_AWARD");
    }
    if check_scale_threshold(t) {
        return Some("SCALE_THRESHOLD");
    }
    if check_brand_lock(t) {
        return Some("BRAND_LOCK");
    }
    if check_oem_authorization(t) {
        return Some("OEM_AUTHORIZATION");
    }
    if check_unrelated_cert(t) {
        return Some("UNRELATED_CERT");
    }
    if check_excessive_deposit(t) {
        return Some("EXCESSIVE_DEPOSIT");
    }
    if check_short_deadline(t) {
        return Some("SHORT_DEADLINE");
    }
    if check_subjective_scoring(t) {
        return Some("SUBJECTIVE_SCORING");
    }
    if check_vague_acceptance(t) {
        return Some("VAGUE_ACCEPTANCE");
    }
    if check_unbounded_ip(t) {
        return Some("UNBOUNDED_IP");
    }
    if check_unilateral_change(t) {
        return Some("UNILATERAL_CHANGE");
    }
    if check_conflicting_dates(t) {
        return Some("CONFLICTING_DATES");
    }
    if check_unclear_penalty(t) {
        return Some("UNCLEAR_PENALTY");
    }
    None
}


// ─── aliases ────────────────────────────────────────────────────

/// The canonical category of a known alias code.
pub open spec fn alias_of(code: Seq<char>) -> Option<&'static str> {
    if code == "UNRELATED_CERTIFICATE"@ || code == "UNRELATED_CERTIFICATION"@ || code == "UNRELATED_QUALIFICATION"@ || code == "IRRELEVANT_CERTIFICATE"@ {
        Some("UNRELATED_CERT")
    } else if code == "SHORT_PREPARATION_PERIOD"@ || code == "UNREASONABLE_TIME_LIMIT"@ || code == "UNREASONABLE_PREPARATION_TIME"@ || code == "SHORT_BIDDING_PERIOD"@ || code == "TIME_LIMIT"@ {
        Some("SHORT_DEADLINE")
    } else if code == "ASSET_THRESHOLD"@ || code == "ASSET_REQUIREMENT"@ || code == "CAPITAL_THRESHOLD"@ {
        Some("SCALE_THRESHOLD")
    } else if code == "MANUFACTURER_AUTHORIZATION"@ || code == "FACTORY_AUTHORIZATION"@ {
        Some("OEM_AUTHORIZATION")
    } else if code == "SCORING_DISCRETION"@ || code == "UNSPECIFIED_SCORING"@ || code == "UNQUANTIFIED_ASSESSMENT"@ {
        Some("SUBJECTIVE_SCORING")
    } else if code == "LOCAL_CERTIFICATE_BONUS"@ || code == "LOCAL_HONOR_BONUS"@ {
        Some("LOCAL_AWARD")
    } else if code == "UNCLEAR_ACCEPTANCE_CRITERIA"@ || code == "ACCEPTANCE_CRITERIA"@ || code == "AMBIGUOUS_ACCEPTANCE"@ || code == "UNCLEAR_ACCEPTANCE"@ {
        Some("VAGUE_ACCEPTANCE")
    } else if code == "UNLIMITED_IP_LIABILITY"@ || code == "IP_LIABILITY"@ {
        Some("UNBOUNDED_IP")
    } else if code == "UNDEFINED_PENALTY"@ || code == "UNLIMITED_PENALTY"@ || code == "UNCLEAR_CONTRACTUAL_RESPONSIBILITY"@ {
        Some("UNCLEAR_PENALTY")
    } else if code == "DATE_CONFLICT"@ || code == "关键日期矛盾"@ {
        Some("CONFLICTING_DATES")
    } else {
        None
    }
}

fn alias_exec(code: &[char]) -> (r: Option<&'static str>)
    ensures
        r == alias_of(code@),
{
    if eq_str(code, "UNRELATED_CERTIFICATE") || eq_str(code, "UNRELATED_CERTIFICATION") || eq_str(code, "UNRELATED_QUALIFICATION") || eq_str(code, "IRRELEVANT_CERTIFICATE") {
        return Some("UNRELATED_CERT");
    }
    if eq_str(code, "SHORT_PREPARATION_PERIOD") || eq_str(code, "UNREASONABLE_TIME_LIMIT") || eq_str(code, "UNREASONABLE_PREPARATION_TIME") || eq_str(code, "SHORT_BIDDING_PERIOD") || eq_str(code, "TIME_LIMIT") {
        return Some("SHORT_DEADLINE");
    }
    if eq_str(code, "ASSET_THRESHOLD") || eq_str(code, "ASSET_REQUIREMENT") || eq_str(code, "CAPITAL_THRESHOLD") {
        return Some("SCALE_THRESHOLD");
    }
    if eq_str(code, "MANUFACTURER_AUTHORIZATION") || eq_str(code, "FACTORY_AUTHORIZATION") {
        return Some("OEM_AUTHORIZATION");
    }
    if eq_str(code, "SCORING_DISCRETION") || eq_str(code, "UNSPECIFIED_SCORING") || eq_str(code, "UNQUANTIFIED_ASSESSMENT") {
        return Some("SUBJECTIVE_SCORING");
    }
    if eq_str(code, "LOCAL_CERTIFICATE_BONUS") || eq_str(code, "LOCAL_HONOR_BONUS") {
        return Some("LOCAL_AWARD");
    }
    if eq_str(code, "UNCLEAR_ACCEPTANCE_CRITERIA") || eq_str(code, "ACCEPTANCE_CRITERIA") || eq_str(code, "AMBIGUOUS_ACCEPTANCE") || eq_str(code, "UNCLEAR_ACCEPTANCE") {
        return Some("VAGUE_ACCEPTANCE");
    }
    if eq_str(code, "UNLIMITED_IP_LIABILITY") || eq_str(code, "IP_LIABILITY") {
        return Some("UNBOUNDED_IP");
    }
    if eq_str(code, "UNDEFINED_PENALTY") || eq_str(code, "UNLIMITED_PENALTY") || eq_str(code, "UNCLEAR_CONTRACTUAL_RESPONSIBILITY") {
        return Some("UNCLEAR_PENALTY");
    }
    if eq_str(code, "DATE_CONFLICT") || eq_str(code, "关键日期矛盾") {
        return Some("CONFLICTING_DATES");
    }
    None
}

/// The category that a free-form code denotes: a canonical code itself,
/// or a known alias of one, after normalisation.
pub open spec fn alias_category(value: Seq<char>) -> Option<&'static str> {
    let code = normalized(value);
    match code_index(code) {
        Some(i) => Some(category_codes()[i]),
        None => alias_of(code),
    }
}

/// Maps a free-form code onto a canonical category, if it denotes one.
pub fn category_from_alias(value: &str) -> (r: Option<&'static str>)
    ensures
        r == alias_category(value@),
{
    let code = normalized_code(value);
    let cc = chars_of(code.as_str());
    match find_code(cc.as_slice()) {
        Some(i) => {
            proof {
                lemma_code_index(cc@, i as int);
            }
            let codes = codes_table();
            Some(codes[i])
        },
        None => alias_exec(cc.as_slice()),
    }
}

// ─── findings ───────────────────────────────────────────────────

/// The fields of a finding that classification reads and writes.
#[derive(Debug, Clone)]
pub struct FindingEvidence {
    pub no_risk: bool,
    pub severity: RiskSeverity,
    pub is_critical: bool,
    pub critical_reason: String,
    pub risk_type: String,
    pub category_code: String,
    pub source_quote: String,
}

/// The canonical category of a finding: from its evidence, else from its
/// category code, else from its risk type; failing all, the normalised
/// code (or risk type when the code is blank).
pub open spec fn canonical_of(f: FindingEvidence) -> Seq<char> {
    match evidence_category(trim(f.source_quote@)) {
        Some(c) => c@,
        None => match alias_category(f.category_code@) {
            Some(c) => c@,
            None => match alias_category(f.risk_type@) {
                Some(c) => c@,
                None => if trim(f.category_code@).len() == 0 { normalized(f.risk_type@) } else { normalized(f.category_code@) },
            },
        },
    }
}

/// The canonical category code of a finding.
pub fn canonical_category(finding: &FindingEvidence) -> (r: String)
    ensures
        r@ == canonical_of(*finding),
{
    let qc = chars_of(finding.source_quote.as_str());
    let quote = trim_chars(qc.as_slice());
    if let Some(c) = category_from_evidence(quote.as_slice()) {
        return String::from_str(c);
    }
    if let Some(c) = category_from_alias(finding.category_code.as_str()) {
        return String::from_str(c);
    }
    if let Some(c) = category_from_alias(finding.risk_type.as_str()) {
        return String::from_str(c);
    }
    let cc = chars_of(finding.category_code.as_str());
    let ct = trim_chars(cc.as_slice());
    if ct.len() == 0 {
        normalized_code(finding.risk_type.as_str())
    } else {
        normalized_code(finding.category_code.as_str())
    }
}

// ─── candidates and routing ─────────────────────────────────────

/// `acc` with `c` appended when it is a category not yet present.
pub open spec fn add_unique(acc: Seq<&'static str>, c: Option<&'static str>) -> Seq<&'static str> {
    match c {
        Some(x) => if exists|i: int| 0 <= i < acc.len() && acc[i]@ == x@ { acc } else { acc.push(x) },
        None => acc,
    }
}

/// Categories shown by the segments, first occurrence order, no repeats.
pub open spec fn segment_categories(segs: Seq<Seq<char>>) -> Seq<&'static str>
    decreases segs.len(),
{
    if segs.len() == 0 {
        Seq::<&'static str>::empty()
    } else {
        add_unique(segment_categories(segs.drop_last()), evidence_category(segs.last()))
    }
}

pub open spec fn segment_separators() -> Seq<char> {
    seq!['\n', '。', '；']
}

/// High-signal categories of a chunk: per line/sentence, then the whole
/// chunk (dates often conflict across lines).
pub open spec fn candidates_of(text: Seq<char>) -> Seq<&'static str> {
    add_unique(segment_categories(split_any(text, segment_separators())), evidence_category(text))
}

fn push_unique(acc: &mut Vec<&'static str>, c: Option<&'static str>)
    ensures
        final(acc)@ == add_unique(old(acc)@, c),
{
    if let Some(x) = c {
        let mut i: usize = 0;
        while i < acc.len()
            invariant
                i <= acc@.len(),
                acc@ == old(acc)@,
                c == Some(x),
                forall|k: int| 0 <= k < i ==> acc@[k]@ != x@,
            decreases acc@.len() - i,
        {
            let a = chars_of(acc[i]);
            if eq_str(a.as_slice(), x) {
                assert(acc@[i as int]@ == x@);
                return;
            }
            i = i + 1;
        }
        acc.push(x);
    }
}

/// Zero-cost pre-check: the high-signal categories that a chunk must be
/// reviewed for (candidates, not conclusions).
pub fn candidate_categories(text: &str) -> (r: Vec<&'static str>)
    ensures
        r@ == candidates_of(text@),
{
    let tc = chars_of(text);
    let seps: [char; 3] = ['\n', '。', '；'];
    assert(seps@ == segment_separators());
    let segs = split_any_chars(tc.as_slice(), &seps);
    let ghost sv = views(segs@);
    let mut result: Vec<&'static str> = Vec::new();
    let mut i: usize = 0;
    while i < segs.len()
        invariant
            i <= segs@.len(),
            sv == views(segs@),
            result@ == segment_categories(sv.subrange(0, i as int)),
        decreases segs@.len() - i,
    {
        let c = category_from_evidence(segs[i].as_slice());
        push_unique(&mut result, c);
        proof {
            assert(sv.subrange(0, i as int + 1).drop_last() =~= sv.subrange(0, i as int));
        }
        i = i + 1;
    }
    assert(sv.subrange(0, sv.len() as int) =~= sv);
    let whole = category_from_evidence(tc.as_slice());
    push_unique(&mut result, whole);
    result
}

/// The agent responsible for a category.
pub open spec fn owner_of(code: Seq<char>) -> &'static str {
    if code == "SHORT_DEADLINE"@ || code == "EXCESSIVE_DEPOSIT"@ || code == "OEM_AUTHORIZATION"@ {
        "ProcedureAgent"
    } else if code == "SUBJECTIVE_SCORING"@ || code == "LOCAL_AWARD"@ {
        "ScoringAgent"
    } else if code == "BRAND_LOCK"@ || code == "UNRELATED_CERT"@ || code == "SCALE_THRESHOLD"@ {
        "DemandAgent"
    } else if code == "VAGUE_ACCEPTANCE"@ || code == "UNBOUNDED_IP"@ || code == "UNILATERAL_CHANGE"@ || code == "UNCLEAR_PENALTY"@ {
        "ContractAgent"
    } else if code == "LOCAL_REGISTRATION"@ || code == "REGIONAL_PERFORMANCE"@ {
        "SemanticRiskAgent"
    } else if code == "CONFLICTING_DATES"@ {
        "FactCheckAgent"
    } else {
        "RuleEngineAgent"
    }
}

/// The agent responsible for a category code.
pub fn owner_agent(code: &str) -> (r: &'static str)
    ensures
        r == owner_of(code@),
{
    let cv = chars_of(code);
    let c = cv.as_slice();
    if eq_str(c, "SHORT_DEADLINE") || eq_str(c, "EXCESSIVE_DEPOSIT") || eq_str(c, "OEM_AUTHORIZATION") {
        return "ProcedureAgent";
    }
    if eq_str(c, "SUBJECTIVE_SCORING") || eq_str(c, "LOCAL_AWARD") {
        return "ScoringAgent";
    }
    if eq_str(c, "BRAND_LOCK") || eq_str(c, "UNRELATED_CERT") || eq_str(c, "SCALE_THRESHOLD") {
        return "DemandAgent";
    }
    if eq_str(c, "VAGUE_ACCEPTANCE") || eq_str(c, "UNBOUNDED_IP") || eq_str(c, "UNILATERAL_CHANGE") || eq_str(c, "UNCLEAR_PENALTY") {
        return "ContractAgent";
    }
    if eq_str(c, "LOCAL_REGISTRATION") || eq_str(c, "REGIONAL_PERFORMANCE") {
        return "SemanticRiskAgent";
    }
    if eq_str(c, "CONFLICTING_DATES") {
        return "FactCheckAgent";
    }
    "RuleEngineAgent"
}

/// The candidates that `agent` owns (the rule engine reviews them all).
pub open spec fn owned_by(cands: Seq<&'static str>, agent: Seq<char>) -> Seq<&'static str>
    decreases cands.len(),
{
    if cands.len() == 0 {
        Seq::<&'static str>::empty()
    } else {
        let p = owned_by(cands.drop_last(), agent);
        let c = cands.last();
        if owner_of(c@)@ == agent || agent == "RuleEngineAgent"@ {
            p.push(c)
        } else {
            p
        }
    }
}

/// The candidate categories of a chunk that a given agent must review.
pub fn review_candidates_for_agent(text: &str, agent: &str) -> (r: Vec<&'static str>)
    ensures
        r@ == owned_by(candidates_of(text@), agent@),
{
    let cands = candidate_categories(text);
    let ac = chars_of(agent);
    let is_rule_engine = eq_str(ac.as_slice(), "RuleEngineAgent");
    let mut r: Vec<&'static str> = Vec::new();
    let mut i: usize = 0;
    while i < cands.len()
        invariant
            i <= cands@.len(),
            cands@ == candidates_of(text@),
            ac@ == agent@,
            is_rule_engine == (agent@ == "RuleEngineAgent"@),
            r@ == owned_by(cands@.subrange(0, i as int), agent@),
        decreases cands@.len() - i,
    {
        let c = cands[i];
        let owner = owner_agent(c);
        let oc = chars_of(owner);
        let same = crate::text::eq_str(ac.as_slice(), owner);
        proof {
            assert(cands@.subrange(0, i as int + 1).drop_last() =~= cands@.subrange(0, i as int));
        }
        if same || is_rule_engine {
            r.push(c);
        }
        i = i + 1;
    }
    assert(cands@.subrange(0, cands@.len() as int) =~= cands@);
    r
}

// ─── critical policy ────────────────────────────────────────────

/// The evidence meets the red-line condition of a critical category.
pub open spec fn critical_evidence_of(code: Seq<char>, q: Seq<char>) -> bool {
    if code == "LOCAL_REGISTRATION"@ {
        contains_any(q, seq!["注册", "分公司", "分支机构"]) && contains_any(q, seq!["本市", "本区", "本县", "所在地", "外地"])
    } else if code == "BRAND_LOCK"@ {
        contains_any(q, seq!["品牌", "商标", "型号"]) && contains_any(q, seq!["仅", "只能", "唯一", "不接受", "指定"])
    } else if code == "UNRELATED_CERT"@ {
        contains_any(q, seq!["认证", "证书", "荣誉", "示范企业"]) && contains_any(q, seq!["资格", "无效", "废标", "不通过", "必须", "须", "无关"])
    } else if code == "REGIONAL_PERFORMANCE"@ {
        contains_any(q, seq!["业绩", "案例", "合同"]) && contains_any(q, seq!["本市", "本区", "本县", "本省", "当地", "所在区县"])
    } else if code == "SCALE_THRESHOLD"@ {
        contains_any(q, seq!["注册资本", "营业收入", "资产总额", "净资产"]) && contains_any(q, seq!["不得低于", "不少于", "以上", "资格"])
    } else {
        false
    }
}

fn critical_evidence(code: &[char], quote: &[char]) -> (r: bool)
    ensures
        r == critical_evidence_of(code@, quote@),
{
    if eq_str(code, "LOCAL_REGISTRATION") {
        let a: [&'static str; 3] = ["注册", "分公司", "分支机构"];
        let b: [&'static str; 5] = ["本市", "本区", "本县", "所在地", "外地"];
        assert(a@ == seq!["注册", "分公司", "分支机构"]);
        assert(b@ == seq!["本市", "本区", "本县", "所在地", "外地"]);
        contains_any_exec(quote, &a) && contains_any_exec(quote, &b)
    } else if eq_str(code, "BRAND_LOCK") {
        let a: [&'static str; 3] = ["品牌", "商标", "型号"];
        let b: [&'static str; 5] = ["仅", "只能", "唯一", "不接受", "指定"];
        assert(a@ == seq!["品牌", "商标", "型号"]);
        assert(b@ == seq!["仅", "只能", "唯一", "不接受", "指定"]);
        contains_any_exec(quote, &a) && contains_any_exec(quote, &b)
    } else if eq_str(code, "UNRELATED_CERT") {
        let a: [&'static str; 4] = ["认证", "证书", "荣誉", "示范企业"];
        let b: [&'static str; 7] = ["资格", "无效", "废标", "不通过", "必须", "须", "无关"];
        assert(a@ == seq!["认证", "证书", "荣誉", "示范企业"]);
        assert(b@ == seq!["资格", "无效", "废标", "不通过", "必须", "须", "无关"]);
        contains_any_exec(quote, &a) && contains_any_exec(quote, &b)
    } else if eq_str(code, "REGIONAL_PERFORMANCE") {
        let a: [&'static str; 3] = ["业绩", "案例", "合同"];
        let b: [&'static str; 6] = ["本市", "本区", "本县", "本省", "当地", "所在区县"];
        assert(a@ == seq!["业绩", "案例", "合同"]);
        assert(b@ == seq!["本市", "本区", "本县", "本省", "当地", "所在区县"]);
        contains_any_exec(quote, &a) && contains_any_exec(quote, &b)
    } else if eq_str(code, "SCALE_THRESHOLD") {
        let a: [&'static str; 4] = ["注册资本", "营业收入", "资产总额", "净资产"];
        let b: [&'static str; 4] = ["不得低于", "不少于", "以上", "资格"];
        assert(a@ == seq!["注册资本", "营业收入", "资产总额", "净资产"]);
        assert(b@ == seq!["不得低于", "不少于", "以上", "资格"]);
        contains_any_exec(quote, &a) && contains_any_exec(quote, &b)
    } else {
        false
    }
}

pub open spec fn obligation_words() -> Seq<&'static str> {
    seq!["须", "必须", "不得", "不接受", "不予", "否则", "仅限", "无上限", "永久归", "承担", "得分", "加分"]
}

pub open spec fn negative_words() -> Seq<&'static str> {
    seq!["未提及", "未发现", "未说明", "需要进一步确认", "建议进一步审查"]
}

/// A finding is actionable when it is a no-risk verdict, or its trimmed
/// evidence is neither empty nor a bare heading (under 20 characters with
/// no obligation wording), and it is not an `Info` finding that only says
/// something was not found.
pub open spec fn actionable(f: FindingEvidence) -> bool {
    let q = trim(f.source_quote@);
    if f.no_risk {
        true
    } else if q.len() == 0 {
        false
    } else if q.len() < 20 && !contains_any(q, obligation_words()) {
        false
    } else {
        !(f.severity == RiskSeverity::Info && contains_any(q, negative_words()))
    }
}

/// Evidence admission: whether a finding may enter merging.
pub fn is_actionable(finding: &FindingEvidence) -> (r: bool)
    ensures
        r == actionable(*finding),
{
    if finding.no_risk {
        return true;
    }
    let qc = chars_of(finding.source_quote.as_str());
    let quote = trim_chars(qc.as_slice());
    if quote.len() == 0 {
        return false;
    }
    let ob: [&'static str; 12] = ["须", "必须", "不得", "不接受", "不予", "否则", "仅限", "无上限", "永久归", "承担", "得分", "加分"];
    assert(ob@ == obligation_words());
    let looks_like_heading = quote.len() < 20 && !contains_any_exec(quote.as_slice(), &ob);
    if looks_like_heading {
        return false;
    }
    let ng: [&'static str; 5] = ["未提及", "未发现", "未说明", "需要进一步确认", "建议进一步审查"];
    assert(ng@ == negative_words());
    let negative = contains_any_exec(quote.as_slice(), &ng);
    let is_info = match finding.severity {
        RiskSeverity::Info => true,
        _ => false,
    };
    !(is_info && negative)
}

/// The reason recorded for a critical finding.
pub open spec fn critical_reason_text(category: Seq<char>) -> Seq<char> {
    "命中重大问题分类 "@ + category + "，且原文证据满足红线判定条件。"@
}

/// Converges a finding onto the taxonomy: canonical code, its display name
/// as risk type, and the critical flag decided by category and evidence
/// (critical findings become `High`; others lose any critical reason).
pub fn normalize_finding(finding: &mut FindingEvidence)
    ensures
        final(finding).category_code@ == canonical_of(*old(finding)),
        final(finding).risk_type@ == match display_name_of(canonical_of(*old(finding))) {
            Some(n) => n@,
            None => old(finding).risk_type@,
        },
        final(finding).is_critical == (!old(finding).no_risk && trim(old(finding).source_quote@).len() > 0
            && critical_evidence_of(canonical_of(*old(finding)), trim(old(finding).source_quote@))),
        final(finding).severity == if final(finding).is_critical { RiskSeverity::High } else { old(finding).severity },
        final(finding).critical_reason@ == if final(finding).is_critical {
            critical_reason_text(canonical_of(*old(finding)))
        } else {
            Seq::<char>::empty()
        },
        final(finding).no_risk == old(finding).no_risk,
        final(finding).source_quote@ == old(finding).source_quote@,
{
    let category = canonical_category(finding);
    let cat_chars = chars_of(category.as_str());
    if let Some(name) = display_name(category.as_str()) {
        finding.risk_type = String::from_str(name);
    }
    let qc = chars_of(finding.source_quote.as_str());
    let quote = trim_chars(qc.as_slice());
    let is_critical = !finding.no_risk && quote.len() > 0 && critical_evidence(cat_chars.as_slice(), quote.as_slice());
    finding.category_code = category;
    finding.is_critical = is_critical;
    if is_critical {
        finding.severity = RiskSeverity::High;
        let mut reason: Vec<char> = Vec::new();
        extend_str(&mut reason, "命中重大问题分类 ");
        crate::text::extend_chars(&mut reason, cat_chars.as_slice());
        extend_str(&mut reason, "，且原文证据满足红线判定条件。");
        finding.critical_reason = string_of(reason.as_slice());
    } else {
        finding.critical_reason = String::new();
    }
}

} // verus!
