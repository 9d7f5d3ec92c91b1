//! The pattern registry: PII categories, matching rules, validators,
//! priorities and masking strategies.
//!
//! Each matcher answers one question: does a match of its pattern start at
//! byte offset `i` of the text, and if so, where does it end?  The spec
//! functions here are the authoritative definitions of the patterns; the
//! executable matchers are proved to decide exactly those definitions.

use vstd::prelude::*;

use crate::chars::CharClass;
use crate::chars::B_0;
use crate::chars::B_AT;
use crate::chars::B_DASH;
use crate::chars::B_DOT;
use crate::chars::B_SPACE;
use crate::chars::byte_in_class;
use crate::chars::check_has_dot;
use crate::chars::check_range;
use crate::chars::class_holds;
use crate::chars::digits_val;
use crate::chars::has_dot;
use crate::chars::lemma_run_len_bounds;
use crate::chars::range_in_class;
use crate::chars::run_end;
use crate::chars::run_len;
use crate::chars::spec_is_alnum;
use crate::chars::spec_is_digit;

verus! {

/// A detectable class of PII.
///
/// The built-in categories are fixed; `Custom(i)` names the `i`-th
/// caller-supplied pattern of the options the configuration was built from.
#[derive(Clone, Copy, PartialEq, Eq, Structural, Debug)]
pub enum Category {
    Ssn,
    CreditCard,
    Email,
    Phone,
    IpAddress,
    Custom(u32),
}

/// How a detected span is rewritten by the masker.
#[derive(Clone, Copy, PartialEq, Eq, Structural, Debug)]
pub enum MaskStrategy {
    /// Replace the whole span with a fixed placeholder.
    Redact,
    /// Keep `prefix` leading and `suffix` trailing bytes, mask the interior.
    Partial { prefix: usize, suffix: usize },
    /// Replace the span with a salted, deterministic digest of its bytes.
    Hash,
    /// Replace the span with a placeholder unique to the detection.
    Tokenize,
    /// Delete the span (and one dangling separator, if any).
    Remove,
}

/// Post-match refinement applied to a raw candidate span.
#[derive(Clone, Copy, PartialEq, Eq, Structural, Debug)]
pub enum Validator {
    /// Accept the candidate at full confidence.
    Pass,
    /// Luhn checksum over the span's digits; failure downgrades confidence.
    Luhn,
}

/// One element of a custom pattern: `count` consecutive bytes of `class`.
#[derive(Clone, Copy, PartialEq, Eq, Structural, Debug)]
pub struct PatItem {
    pub class: CharClass,
    pub count: usize,
}

/// The matching expression of a rule.
#[derive(Debug)]
pub enum Matcher {
    Ssn,
    CreditCard,
    Email,
    Phone,
    Ipv4,
    /// Fixed-length sequence of class runs.
    Custom(Vec<PatItem>),
}

/// Mathematical view of a [`Matcher`]: custom items as a sequence.
pub enum MatcherV {
    Ssn,
    CreditCard,
    Email,
    Phone,
    Ipv4,
    Custom(Seq<PatItem>),
}

impl View for Matcher {
    type V = MatcherV;

    open spec fn view(&self) -> MatcherV {
        match self {
            Matcher::Ssn => MatcherV::Ssn,
            Matcher::CreditCard => MatcherV::CreditCard,
            Matcher::Email => MatcherV::Email,
            Matcher::Phone => MatcherV::Phone,
            Matcher::Ipv4 => MatcherV::Ipv4,
            Matcher::Custom(items) => MatcherV::Custom(items@),
        }
    }
}

/// A registered pattern rule: category, expression, validator, priority and
/// mask strategy.  Immutable once registered.
///
/// In the registry, `strategy` is the rule's default strategy; in a compiled
/// [`crate::config::Configuration`] it is the resolved effective strategy.
#[derive(Debug)]
pub struct PatternRule {
    pub category: Category,
    pub matcher: Matcher,
    pub validator: Validator,
    pub priority: u32,
    pub strategy: MaskStrategy,
}

/// Mathematical view of a [`PatternRule`].
pub struct RuleV {
    pub category: Category,
    pub matcher: MatcherV,
    pub validator: Validator,
    pub priority: u32,
    pub strategy: MaskStrategy,
}

impl View for PatternRule {
    type V = RuleV;

    open spec fn view(&self) -> RuleV {
        RuleV {
            category: self.category,
            matcher: self.matcher@,
            validator: self.validator,
            priority: self.priority,
            strategy: self.strategy,
        }
    }
}

/// The views of a sequence of rules.
pub open spec fn rules_view(rules: Seq<PatternRule>) -> Seq<RuleV> {
    Seq::new(rules.len(), |k: int| rules[k]@)
}

/// A rule is well-formed when its matcher is and a Luhn validator only rides
/// on the credit-card matcher (whose spans are short enough to sum).
pub open spec fn wf_rule(r: RuleV) -> bool {
    wf_matcher(r.matcher) && (r.validator == Validator::Luhn ==> r.matcher is CreditCard)
}

// Overlap tie-breaking ranks of the built-in rules; caller-supplied custom
// rules always rank lowest.
pub const PRIORITY_SSN: u32 = 10;
pub const PRIORITY_CREDIT_CARD: u32 = 9;
pub const PRIORITY_EMAIL: u32 = 8;
pub const PRIORITY_PHONE: u32 = 7;
pub const PRIORITY_IP_ADDRESS: u32 = 6;
pub const PRIORITY_CUSTOM: u32 = 1;

// Confidence scores, in hundredths: 100 is certainty.
pub const CONFIDENCE_FULL: u32 = 100;
pub const CONFIDENCE_CHECKSUM_FAILED: u32 = 50;

pub open spec fn spec_is_phone_sep(b: u8) -> bool {
    b == B_DASH || b == B_DOT || b == B_SPACE
}

pub open spec fn spec_is_cc_sep(b: u8) -> bool {
    b == B_DASH || b == B_SPACE
}

/// Social security number: `ddd-dd-dddd`.
pub open spec fn ssn_end(s: Seq<u8>, i: int) -> Option<int> {
    if i + 11 <= s.len() && range_in_class(s, i, i + 3, CharClass::Digit) && s[i + 3] == B_DASH
        && range_in_class(s, i + 4, i + 6, CharClass::Digit) && s[i + 6] == B_DASH
        && range_in_class(s, i + 7, i + 11, CharClass::Digit) {
        Some(i + 11)
    } else {
        None
    }
}

/// Phone number: `ddd` `sep` `ddd` `sep` `dddd` with `sep` in `- . space`.
pub open spec fn phone_end(s: Seq<u8>, i: int) -> Option<int> {
    if i + 12 <= s.len() && range_in_class(s, i, i + 3, CharClass::Digit)
        && spec_is_phone_sep(s[i + 3]) && range_in_class(s, i + 4, i + 7, CharClass::Digit)
        && spec_is_phone_sep(s[i + 7]) && range_in_class(s, i + 8, i + 12, CharClass::Digit) {
        Some(i + 12)
    } else {
        None
    }
}

/// One further credit-card group after position `j`: four digits, preceded by
/// at most one `-` or space separator.
pub open spec fn cc_after(s: Seq<u8>, j: int) -> Option<int> {
    if j + 5 <= s.len() && spec_is_cc_sep(s[j]) && range_in_class(s, j + 1, j + 5, CharClass::Digit) {
        Some(j + 5)
    } else if j + 4 <= s.len() && range_in_class(s, j, j + 4, CharClass::Digit) {
        Some(j + 4)
    } else {
        None
    }
}

/// Credit card number: four groups of four digits, each consecutive pair of
/// groups separated by at most one `-` or space.
pub open spec fn cc_end(s: Seq<u8>, i: int) -> Option<int> {
    if i + 4 <= s.len() && range_in_class(s, i, i + 4, CharClass::Digit) {
        match cc_after(s, i + 4) {
            Some(j2) => match cc_after(s, j2) {
                Some(j3) => cc_after(s, j3),
                None => None,
            },
            None => None,
        }
    } else {
        None
    }
}

/// Largest `e` in `[lo, e0]` such that `s[e - 1]` is alphanumeric (or `lo`
/// itself): trims trailing `.` and `-` bytes off an email domain run.
pub open spec fn strip_trail(s: Seq<u8>, lo: int, e: int) -> int
    decreases e - lo,
{
    if e > lo && 0 < e <= s.len() && !spec_is_alnum(s[e - 1]) {
        strip_trail(s, lo, e - 1)
    } else {
        e
    }
}

pub proof fn lemma_strip_trail_bounds(s: Seq<u8>, lo: int, e: int)
    requires
        0 <= lo <= e <= s.len(),
    ensures
        lo <= strip_trail(s, lo, e) <= e,
    decreases e - lo,
{
    if e > lo && !spec_is_alnum(s[e - 1]) {
        lemma_strip_trail_bounds(s, lo, e - 1);
    }
}

/// Email address: a non-empty run of local-part bytes, `@`, then a domain
/// that starts alphanumeric, contains a dot, and ends (after trimming
/// trailing punctuation) in an alphanumeric byte.
pub open spec fn email_end(s: Seq<u8>, i: int) -> Option<int> {
    let l = run_len(s, i, CharClass::EmailLocal);
    let a = i + l;  // position of the expected '@'
    if l >= 1 && a + 1 < s.len() && s[a] == B_AT && spec_is_alnum(s[a + 1]) {
        let m = run_len(s, a + 1, CharClass::EmailDomain);
        let e = strip_trail(s, a + 1, a + 1 + m);
        if e > a + 1 && has_dot(s, a + 1, e) {
            Some(e)
        } else {
            None
        }
    } else {
        None
    }
}

/// One IPv4 octet starting at `i`: a maximal run of one to three digits whose
/// value is at most 255.  Yields the offset one past the octet.
pub open spec fn octet_end(s: Seq<u8>, i: int) -> Option<int> {
    let l = run_len(s, i, CharClass::Digit);
    if 1 <= l <= 3 && digits_val(s, i, i + l) <= 255 {
        Some(i + l)
    } else {
        None
    }
}

/// IPv4 address: four octets joined by single dots.
pub open spec fn ipv4_end(s: Seq<u8>, i: int) -> Option<int> {
    match octet_end(s, i) {
        Some(e1) => {
            if e1 < s.len() && s[e1] == B_DOT {
                match octet_end(s, e1 + 1) {
                    Some(e2) => {
                        if e2 < s.len() && s[e2] == B_DOT {
                            match octet_end(s, e2 + 1) {
                                Some(e3) => {
                                    if e3 < s.len() && s[e3] == B_DOT {
                                        octet_end(s, e3 + 1)
                                    } else {
                                        None
                                    }
                                },
                                None => None,
                            }
                        } else {
                            None
                        }
                    },
                    None => None,
                }
            } else {
                None
            }
        },
        None => None,
    }
}

/// Matches the items of a custom pattern from `k` on, starting at `pos`.
pub open spec fn custom_end_from(items: Seq<PatItem>, k: int, s: Seq<u8>, pos: int) -> Option<int>
    decreases items.len() - k,
{
    if k < 0 || k >= items.len() {
        Some(pos)
    } else {
        let it = items[k];
        if pos + it.count <= s.len() && range_in_class(s, pos, pos + it.count, it.class) {
            custom_end_from(items, k + 1, s, pos + it.count)
        } else {
            None
        }
    }
}

pub open spec fn custom_end(items: Seq<PatItem>, s: Seq<u8>, i: int) -> Option<int> {
    custom_end_from(items, 0, s, i)
}

/// Where (if anywhere) a match of `m` starting at offset `i` of `s` ends.
pub open spec fn spec_match_end(m: MatcherV, s: Seq<u8>, i: int) -> Option<int> {
    match m {
        MatcherV::Ssn => ssn_end(s, i),
        MatcherV::CreditCard => cc_end(s, i),
        MatcherV::Email => email_end(s, i),
        MatcherV::Phone => phone_end(s, i),
        MatcherV::Ipv4 => ipv4_end(s, i),
        MatcherV::Custom(items) => custom_end(items, s, i),
    }
}

/// A custom matcher is well-formed when it has at least one item and every
/// item demands at least one byte; built-in matchers always are.
pub open spec fn wf_matcher(m: MatcherV) -> bool {
    match m {
        MatcherV::Custom(items) => items.len() >= 1 && forall|k: int|
            0 <= k < items.len() ==> (#[trigger] items[k]).count >= 1,
        _ => true,
    }
}

pub proof fn lemma_custom_end_bounds(items: Seq<PatItem>, k: int, s: Seq<u8>, pos: int)
    requires
        0 <= k <= items.len(),
        0 <= pos <= s.len(),
        forall|q: int| 0 <= q < items.len() ==> (#[trigger] items[q]).count >= 1,
        custom_end_from(items, k, s, pos) is Some,
    ensures
        pos <= custom_end_from(items, k, s, pos)->Some_0 <= s.len(),
        k < items.len() ==> pos < custom_end_from(items, k, s, pos)->Some_0,
    decreases items.len() - k,
{
    if k < items.len() {
        let it = items[k];
        lemma_custom_end_bounds(items, k + 1, s, pos + it.count);
    }
}

/// Every successful match covers a non-empty, in-bounds span.
pub proof fn lemma_match_end_bounds(m: MatcherV, s: Seq<u8>, i: int)
    requires
        0 <= i <= s.len(),
        wf_matcher(m),
        spec_match_end(m, s, i) is Some,
    ensures
        i < spec_match_end(m, s, i)->Some_0 <= s.len(),
{
    match m {
        MatcherV::Ssn => {},
        MatcherV::CreditCard => {},
        MatcherV::Phone => {},
        MatcherV::Email => {
            let l = run_len(s, i, CharClass::EmailLocal);
            lemma_run_len_bounds(s, i, CharClass::EmailLocal);
            let m2 = run_len(s, i + l + 1, CharClass::EmailDomain);
            lemma_run_len_bounds(s, i + l + 1, CharClass::EmailDomain);
            lemma_strip_trail_bounds(s, i + l + 1, i + l + 1 + m2);
        },
        MatcherV::Ipv4 => {
            lemma_run_len_bounds(s, i, CharClass::Digit);
            let e1 = octet_end(s, i)->Some_0;
            lemma_run_len_bounds(s, e1 + 1, CharClass::Digit);
            let e2 = octet_end(s, e1 + 1)->Some_0;
            lemma_run_len_bounds(s, e2 + 1, CharClass::Digit);
            let e3 = octet_end(s, e2 + 1)->Some_0;
            lemma_run_len_bounds(s, e3 + 1, CharClass::Digit);
        },
        MatcherV::Custom(items) => {
            lemma_custom_end_bounds(items, 0, s, i);
        },
    }
}

/// A credit-card match is at most 19 bytes long (16 digits, 3 separators).
pub proof fn lemma_cc_span(s: Seq<u8>, i: int)
    requires
        cc_end(s, i) is Some,
    ensures
        cc_end(s, i)->Some_0 <= i + 19,
{
}

fn is_phone_sep(b: u8) -> (r: bool)
    ensures
        r == spec_is_phone_sep(b),
{
    b == B_DASH || b == B_DOT || b == B_SPACE
}

fn is_cc_sep(b: u8) -> (r: bool)
    ensures
        r == spec_is_cc_sep(b),
{
    b == B_DASH || b == B_SPACE
}

fn ssn_at(text: &Vec<u8>, i: usize) -> (r: Option<usize>)
    requires
        i <= text@.len(),
    ensures
        r is Some <==> ssn_end(text@, i as int) is Some,
        r matches Some(j) ==> ssn_end(text@, i as int) == Some(j as int) && i <= j <= text@.len(),
{
    if text.len() - i < 11 {
        return None;
    }
    if check_range(text, i, i + 3, CharClass::Digit) && text[i + 3] == B_DASH
        && check_range(text, i + 4, i + 6, CharClass::Digit) && text[i + 6] == B_DASH
        && check_range(text, i + 7, i + 11, CharClass::Digit) {
        Some(i + 11)
    } else {
        None
    }
}

fn phone_at(text: &Vec<u8>, i: usize) -> (r: Option<usize>)
    requires
        i <= text@.len(),
    ensures
        r is Some <==> phone_end(text@, i as int) is Some,
        r matches Some(j) ==> phone_end(text@, i as int) == Some(j as int) && i <= j <= text@.len(),
{
    if text.len() - i < 12 {
        return None;
    }
    if check_range(text, i, i + 3, CharClass::Digit) && is_phone_sep(text[i + 3])
        && check_range(text, i + 4, i + 7, CharClass::Digit) && is_phone_sep(text[i + 7])
        && check_range(text, i + 8, i + 12, CharClass::Digit) {
        Some(i + 12)
    } else {
        None
    }
}

fn cc_group_after(text: &Vec<u8>, j: usize) -> (r: Option<usize>)
    requires
        j <= text@.len(),
    ensures
        r is Some <==> cc_after(text@, j as int) is Some,
        r matches Some(e) ==> cc_after(text@, j as int) == Some(e as int) && j < e <= text@.len(),
{
    if text.len() - j >= 5 && is_cc_sep(text[j]) && check_range(text, j + 1, j + 5, CharClass::Digit) {
        Some(j + 5)
    } else if text.len() - j >= 4 && check_range(text, j, j + 4, CharClass::Digit) {
        Some(j + 4)
    } else {
        None
    }
}

fn cc_at(text: &Vec<u8>, i: usize) -> (r: Option<usize>)
    requires
        i <= text@.len(),
    ensures
        r is Some <==> cc_end(text@, i as int) is Some,
        r matches Some(j) ==> cc_end(text@, i as int) == Some(j as int) && i <= j <= text@.len(),
{
    if text.len() - i < 4 || !check_range(text, i, i + 4, CharClass::Digit) {
        return None;
    }
    match cc_group_after(text, i + 4) {
        Some(j2) => match cc_group_after(text, j2) {
            Some(j3) => cc_group_after(text, j3),
            None => None,
        },
        None => None,
    }
}

fn strip_trail_at(text: &Vec<u8>, lo: usize, e0: usize) -> (e: usize)
    requires
        lo <= e0 <= text@.len(),
    ensures
        lo <= e <= e0,
        e as int == strip_trail(text@, lo as int, e0 as int),
{
    let mut e: usize = e0;
    while e > lo && !byte_in_class(CharClass::Alnum, text[e - 1])
        invariant
            lo <= e <= e0,
            strip_trail(text@, lo as int, e0 as int) == strip_trail(text@, lo as int, e as int),
        decreases e,
    {
        e = e - 1;
    }
    e
}

fn email_at(text: &Vec<u8>, i: usize) -> (r: Option<usize>)
    requires
        i <= text@.len(),
    ensures
        r is Some <==> email_end(text@, i as int) is Some,
        r matches Some(j) ==> email_end(text@, i as int) == Some(j as int) && i <= j <= text@.len(),
{
    let a = run_end(text, i, CharClass::EmailLocal);
    if a == i || text.len() - a < 2 || text[a] != B_AT || !byte_in_class(CharClass::Alnum, text[a + 1]) {
        return None;
    }
    let d = run_end(text, a + 1, CharClass::EmailDomain);
    let e = strip_trail_at(text, a + 1, d);
    if e > a + 1 && check_has_dot(text, a + 1, e) {
        Some(e)
    } else {
        None
    }
}

fn octet_at(text: &Vec<u8>, i: usize) -> (r: Option<usize>)
    requires
        i <= text@.len(),
    ensures
        r is Some <==> octet_end(text@, i as int) is Some,
        r matches Some(j) ==> octet_end(text@, i as int) == Some(j as int) && i < j <= text@.len(),
{
    let j = run_end(text, i, CharClass::Digit);
    let l = j - i;
    if l < 1 || l > 3 {
        return None;
    }
    // the run is all digits, so its value is defined digit by digit
    assert(range_in_class(text@, i as int, j as int, CharClass::Digit)) by {
        lemma_range_of_run(text@, i as int, CharClass::Digit);
    }
    let mut v: u32 = 0;
    let mut k: usize = i;
    while k < j
        invariant
            i <= k <= j,
            j - i <= 3,
            v == digits_val(text@, i as int, k as int),
            v <= 999,
            range_in_class(text@, i as int, j as int, CharClass::Digit),
        decreases j - k,
    {
        assert(class_holds(CharClass::Digit, text@[k as int]));
        assert(digits_val(text@, i as int, k as int) < 100) by {
            lemma_digits_val_bounds(text@, i as int, k as int);
        }
        v = v * 10 + (text[k] - B_0) as u32;
        k = k + 1;
    }
    if v <= 255 {
        Some(j)
    } else {
        None
    }
}

/// The value of at most two digits is below 100 (and never negative).
proof fn lemma_digits_val_bounds(s: Seq<u8>, from: int, to: int)
    requires
        0 <= from <= to <= s.len(),
        to - from <= 2,
        range_in_class(s, from, to, CharClass::Digit),
    ensures
        0 <= digits_val(s, from, to) < 100,
        to == from ==> digits_val(s, from, to) == 0,
        to - from <= 1 ==> digits_val(s, from, to) < 10,
    decreases to - from,
{
    if from < to {
        lemma_digits_val_bounds(s, from, to - 1);
    }
}

/// The maximal run starting at `i` is itself all in class `c`.
proof fn lemma_range_of_run(s: Seq<u8>, i: int, c: CharClass)
    requires
        0 <= i <= s.len(),
    ensures
        range_in_class(s, i, i + run_len(s, i, c), c),
    decreases s.len() - i,
{
    lemma_run_len_bounds(s, i, c);
    if i < s.len() && class_holds(c, s[i]) {
        lemma_range_of_run(s, i + 1, c);
        lemma_run_len_bounds(s, i + 1, c);
    }
}

fn ipv4_at(text: &Vec<u8>, i: usize) -> (r: Option<usize>)
    requires
        i <= text@.len(),
    ensures
        r is Some <==> ipv4_end(text@, i as int) is Some,
        r matches Some(j) ==> ipv4_end(text@, i as int) == Some(j as int) && i <= j <= text@.len(),
{
    proof {
        lemma_run_len_bounds(text@, i as int, CharClass::Digit);
    }
    let e1 = match octet_at(text, i) {
        Some(e) => e,
        None => { return None; },
    };
    proof {
        lemma_run_len_bounds(text@, i as int, CharClass::Digit);
    }
    if text.len() - e1 < 1 || text[e1] != B_DOT {
        return None;
    }
    let e2 = match octet_at(text, e1 + 1) {
        Some(e) => e,
        None => { return None; },
    };
    if text.len() - e2 < 1 || text[e2] != B_DOT {
        return None;
    }
    let e3 = match octet_at(text, e2 + 1) {
        Some(e) => e,
        None => { return None; },
    };
    if text.len() - e3 < 1 || text[e3] != B_DOT {
        return None;
    }
    octet_at(text, e3 + 1)
}

fn custom_at(items: &Vec<PatItem>, text: &Vec<u8>, i: usize) -> (r: Option<usize>)
    requires
        i <= text@.len(),
    ensures
        r is Some <==> custom_end(items@, text@, i as int) is Some,
        r matches Some(j) ==> custom_end(items@, text@, i as int) == Some(j as int) && i <= j <= text@.len(),
{
    let mut pos: usize = i;
    let mut k: usize = 0;
    while k < items.len()
        invariant
            0 <= k <= items@.len(),
            i <= pos <= text@.len(),
            custom_end(items@, text@, i as int) == custom_end_from(
                items@,
                k as int,
                text@,
                pos as int,
            ),
        decreases items@.len() - k,
    {
        let it = items[k];
        if it.count > text.len() - pos || !check_range(text, pos, pos + it.count, it.class) {
            return None;
        }
        pos = pos + it.count;
        k = k + 1;
    }
    Some(pos)
}

/// The digit bytes of `s[from..to]`, in order, separators dropped.
pub open spec fn digits_only(s: Seq<u8>, from: int, to: int) -> Seq<u8>
    decreases to - from,
{
    if from >= to {
        Seq::empty()
    } else if spec_is_digit(s[to - 1]) {
        digits_only(s, from, to - 1).push(s[to - 1])
    } else {
        digits_only(s, from, to - 1)
    }
}

pub proof fn lemma_digits_only_wf(s: Seq<u8>, from: int, to: int)
    requires
        0 <= from <= to <= s.len(),
    ensures
        digits_only(s, from, to).len() <= to - from,
        forall|k: int| 0 <= k < digits_only(s, from, to).len()
            ==> spec_is_digit(#[trigger] digits_only(s, from, to)[k]),
    decreases to - from,
{
    if from < to {
        lemma_digits_only_wf(s, from, to - 1);
    }
}

/// Luhn contribution of digit `k` of `ds`: digits in odd positions counted
/// from the right are doubled, and 9 is subtracted from a doubled value
/// above 9.
pub open spec fn luhn_contrib(ds: Seq<u8>, k: int) -> int {
    let d = ds[k] - B_0;
    if (ds.len() - 1 - k) % 2 == 1 {
        if 2 * d > 9 {
            2 * d - 9
        } else {
            2 * d
        }
    } else {
        d as int
    }
}

pub open spec fn luhn_sum_to(ds: Seq<u8>, n: int) -> int
    decreases n,
{
    if n <= 0 {
        0
    } else {
        luhn_sum_to(ds, n - 1) + luhn_contrib(ds, n - 1)
    }
}

/// A digit sequence passes the Luhn check when it is non-empty and its
/// weighted digit sum is divisible by ten.
pub open spec fn luhn_valid(ds: Seq<u8>) -> bool {
    ds.len() > 0 && luhn_sum_to(ds, ds.len() as int) % 10 == 0
}

proof fn lemma_luhn_sum_bounds(ds: Seq<u8>, n: int)
    requires
        0 <= n <= ds.len(),
        forall|k: int| 0 <= k < ds.len() ==> spec_is_digit(#[trigger] ds[k]),
    ensures
        0 <= luhn_sum_to(ds, n) <= 9 * n,
    decreases n,
{
    if n > 0 {
        lemma_luhn_sum_bounds(ds, n - 1);
    }
}

/// Luhn check over the digits found in `text[from..to]`.
fn luhn_check(text: &Vec<u8>, from: usize, to: usize) -> (r: bool)
    requires
        from <= to <= text@.len(),
        to - from <= 1000,
    ensures
        r == luhn_valid(digits_only(text@, from as int, to as int)),
{
    let mut ds: Vec<u8> = Vec::new();
    let mut k: usize = from;
    while k < to
        invariant
            from <= k <= to,
            ds@ == digits_only(text@, from as int, k as int),
        decreases to - k,
    {
        if byte_in_class(CharClass::Digit, text[k]) {
            ds.push(text[k]);
        }
        k = k + 1;
    }
    proof {
        lemma_digits_only_wf(text@, from as int, to as int);
    }
    if ds.len() == 0 {
        return false;
    }
    let mut sum: u32 = 0;
    let mut n: usize = 0;
    while n < ds.len()
        invariant
            n <= ds@.len(),
            ds@.len() <= 1000,
            forall|q: int| 0 <= q < ds@.len() ==> spec_is_digit(#[trigger] ds@[q]),
            sum == luhn_sum_to(ds@, n as int),
            sum <= 9 * n,
        decreases ds@.len() - n,
    {
        proof {
            lemma_luhn_sum_bounds(ds@, n as int);
        }
        let d = (ds[n] - B_0) as u32;
        let doubled = if (ds.len() - 1 - n) % 2 == 1 {
            if 2 * d > 9 {
                2 * d - 9
            } else {
                2 * d
            }
        } else {
            d
        };
        sum = sum + doubled;
        n = n + 1;
    }
    sum % 10 == 0
}

/// Confidence assigned to a candidate span by a rule's validator.
pub open spec fn confidence_of(v: Validator, s: Seq<u8>, start: int, end: int) -> u32 {
    match v {
        Validator::Pass => CONFIDENCE_FULL,
        Validator::Luhn => if luhn_valid(digits_only(s, start, end)) {
            CONFIDENCE_FULL
        } else {
            CONFIDENCE_CHECKSUM_FAILED
        },
    }
}

/// Executable form of [`confidence_of`].
pub fn apply_validator(v: Validator, text: &Vec<u8>, start: usize, end: usize) -> (c: u32)
    requires
        start <= end <= text@.len(),
        v == Validator::Luhn ==> end - start <= 1000,
    ensures
        c == confidence_of(v, text@, start as int, end as int),
{
    match v {
        Validator::Pass => CONFIDENCE_FULL,
        Validator::Luhn => {
            if luhn_check(text, start, end) {
                CONFIDENCE_FULL
            } else {
                CONFIDENCE_CHECKSUM_FAILED
            }
        },
    }
}

/// The fixed sequence of built-in pattern rules, strongest first.
pub open spec fn spec_builtin_rules() -> Seq<RuleV> {
    seq![
        RuleV {
            category: Category::Ssn,
            matcher: MatcherV::Ssn,
            validator: Validator::Pass,
            priority: PRIORITY_SSN,
            strategy: MaskStrategy::Redact,
        },
        RuleV {
            category: Category::CreditCard,
            matcher: MatcherV::CreditCard,
            validator: Validator::Luhn,
            priority: PRIORITY_CREDIT_CARD,
            strategy: MaskStrategy::Redact,
        },
        RuleV {
            category: Category::Email,
            matcher: MatcherV::Email,
            validator: Validator::Pass,
            priority: PRIORITY_EMAIL,
            strategy: MaskStrategy::Redact,
        },
        RuleV {
            category: Category::Phone,
            matcher: MatcherV::Phone,
            validator: Validator::Pass,
            priority: PRIORITY_PHONE,
            strategy: MaskStrategy::Redact,
        },
        RuleV {
            category: Category::IpAddress,
            matcher: MatcherV::Ipv4,
            validator: Validator::Pass,
            priority: PRIORITY_IP_ADDRESS,
            strategy: MaskStrategy::Redact,
        },
    ]
}

pub const BUILTIN_RULE_COUNT: usize = 5;

/// Builds the `k`-th built-in rule.
pub fn builtin_rule(k: usize) -> (r: PatternRule)
    requires
        k < BUILTIN_RULE_COUNT,
    ensures
        r@ == spec_builtin_rules()[k as int],
{
    if k == 0 {
        PatternRule {
            category: Category::Ssn,
            matcher: Matcher::Ssn,
            validator: Validator::Pass,
            priority: PRIORITY_SSN,
            strategy: MaskStrategy::Redact,
        }
    } else if k == 1 {
        PatternRule {
            category: Category::CreditCard,
            matcher: Matcher::CreditCard,
            validator: Validator::Luhn,
            priority: PRIORITY_CREDIT_CARD,
            strategy: MaskStrategy::Redact,
        }
    } else if k == 2 {
        PatternRule {
            category: Category::Email,
            matcher: Matcher::Email,
            validator: Validator::Pass,
            priority: PRIORITY_EMAIL,
            strategy: MaskStrategy::Redact,
        }
    } else if k == 3 {
        PatternRule {
            category: Category::Phone,
            matcher: Matcher::Phone,
            validator: Validator::Pass,
            priority: PRIORITY_PHONE,
            strategy: MaskStrategy::Redact,
        }
    } else {
        PatternRule {
            category: Category::IpAddress,
            matcher: Matcher::Ipv4,
            validator: Validator::Pass,
            priority: PRIORITY_IP_ADDRESS,
            strategy: MaskStrategy::Redact,
        }
    }
}

/// Copies the items of a custom pattern.
pub fn copy_items(v: &Vec<PatItem>) -> (r: Vec<PatItem>)
    ensures
        r@ == v@,
{
    let mut out: Vec<PatItem> = Vec::new();
    let mut k: usize = 0;
    while k < v.len()
        invariant
            k <= v@.len(),
            out@ == v@.subrange(0, k as int),
        decreases v@.len() - k,
    {
        out.push(v[k]);
        proof {
            assert(v@.subrange(0, k + 1) =~= v@.subrange(0, k as int).push(v@[k as int]));
        }
        k = k + 1;
    }
    proof {
        assert(v@.subrange(0, v@.len() as int) =~= v@);
    }
    out
}

/// Executable form of [`spec_match_end`].
pub fn match_at(m: &Matcher, text: &Vec<u8>, i: usize) -> (r: Option<usize>)
    requires
        i <= text@.len(),
    ensures
        r is Some <==> spec_match_end(m@, text@, i as int) is Some,
        r matches Some(j) ==> spec_match_end(m@, text@, i as int) == Some(j as int) && i <= j
            <= text@.len(),
{
    match m {
        Matcher::Ssn => ssn_at(text, i),
        Matcher::CreditCard => cc_at(text, i),
        Matcher::Email => email_at(text, i),
        Matcher::Phone => phone_at(text, i),
        Matcher::Ipv4 => ipv4_at(text, i),
        Matcher::Custom(items) => custom_at(items, text, i),
    }
}

} // verus!
