//! The detector: one pass over the text gathers candidate spans for every
//! enabled rule; validators score them; overlaps are resolved by priority,
//! length and position; weak candidates are dropped; the survivors come out
//! sorted by span.
//!
//! [`Detector::detect`] is pinned to [`spec_detect`], a function of the
//! compiled rules, the confidence floor and the text alone — so detection is
//! deterministic by construction ([`lemma_detect_deterministic`]).

use vstd::prelude::*;

use crate::chars::push_range;
use crate::config::Configuration;
use crate::config::wf_config;
use crate::patterns::apply_validator;
use crate::patterns::confidence_of;
use crate::patterns::lemma_cc_span;
use crate::patterns::lemma_match_end_bounds;
use crate::patterns::match_at;
use crate::patterns::rules_view;
use crate::patterns::spec_match_end;
use crate::patterns::wf_rule;
use crate::patterns::Category;
use crate::patterns::RuleV;
use crate::patterns::Validator;

verus! {

/// One detected span: category, half-open byte range `[start, end)` into the
/// scanned text, and a confidence score in hundredths.  The matched bytes
/// are not copied; [`detection_value`] re-derives them on demand.
#[derive(Clone, Copy, PartialEq, Eq, Structural, Debug)]
pub struct Detection {
    pub category: Category,
    pub start: usize,
    pub end: usize,
    pub confidence: u32,
}

/// A raw candidate: a detection plus the index and priority of the rule
/// that produced it, used for overlap tie-breaking.
#[derive(Clone, Copy, PartialEq, Eq, Structural, Debug)]
pub struct Cand {
    pub cat: Category,
    pub rule: usize,
    pub start: usize,
    pub end: usize,
    pub prio: u32,
    pub conf: u32,
}

/// A candidate's span is non-empty and inside the text.
pub open spec fn cand_ok(c: Cand, len: int) -> bool {
    c.start < c.end <= len
}

/// The candidate rule `r` contributes at position `i` when its match ends
/// at `e`.
pub open spec fn mk_cand(rules: Seq<RuleV>, s: Seq<u8>, i: int, r: int, e: int) -> Cand {
    Cand {
        cat: rules[r].category,
        rule: r as usize,
        start: i as usize,
        end: e as usize,
        prio: rules[r].priority,
        conf: confidence_of(rules[r].validator, s, i, e),
    }
}

/// Candidates of the first `nr` rules at position `i`, in rule order.
pub open spec fn cands_at(rules: Seq<RuleV>, s: Seq<u8>, i: int, nr: int) -> Seq<Cand>
    decreases nr,
{
    if nr <= 0 {
        Seq::empty()
    } else {
        let pre = cands_at(rules, s, i, nr - 1);
        match spec_match_end(rules[nr - 1].matcher, s, i) {
            Some(e) => pre.push(mk_cand(rules, s, i, nr - 1, e)),
            None => pre,
        }
    }
}

/// All candidates at positions below `n`, in textual order, rule order
/// within a position.
pub open spec fn scan_to(rules: Seq<RuleV>, s: Seq<u8>, n: int) -> Seq<Cand>
    decreases n,
{
    if n <= 0 {
        Seq::empty()
    } else {
        scan_to(rules, s, n - 1) + cands_at(rules, s, n - 1, rules.len() as int)
    }
}

/// One combined pass: every candidate of every rule, already scored.
pub open spec fn spec_scan(rules: Seq<RuleV>, s: Seq<u8>) -> Seq<Cand> {
    scan_to(rules, s, s.len() as int)
}

/// The two orders detection sorts by.
#[derive(Clone, Copy, PartialEq, Eq, Structural, Debug)]
pub enum SortKey {
    /// Higher priority first, then longer span, then earlier start, then
    /// earlier end, then lower rule index: the overlap-resolution order.
    Strength,
    /// Ascending start, then ascending end, then lower rule index: the
    /// output order.
    Span,
}

/// Total comparison `a` before-or-equal `b` under `k`.
pub open spec fn key_le(k: SortKey, a: Cand, b: Cand) -> bool {
    match k {
        SortKey::Strength => {
            let alen = a.end - a.start;
            let blen = b.end - b.start;
            a.prio > b.prio || (a.prio == b.prio && (alen > blen || (alen == blen && (a.start
                < b.start || (a.start == b.start && (a.end < b.end || (a.end == b.end && a.rule
                <= b.rule)))))))
        },
        SortKey::Span => {
            a.start < b.start || (a.start == b.start && (a.end < b.end || (a.end == b.end
                && a.rule <= b.rule)))
        },
    }
}

/// Insertion into a sorted sequence, before the first element not below `x`.
pub open spec fn insert_le(k: SortKey, sorted: Seq<Cand>, x: Cand) -> Seq<Cand>
    decreases sorted.len(),
{
    if sorted.len() == 0 {
        seq![x]
    } else if key_le(k, x, sorted[0]) {
        seq![x] + sorted
    } else {
        seq![sorted[0]] + insert_le(k, sorted.drop_first(), x)
    }
}

/// Insertion sort of the first `n` elements.
pub open spec fn sort_to(k: SortKey, s: Seq<Cand>, n: int) -> Seq<Cand>
    decreases n,
{
    if n <= 0 {
        Seq::empty()
    } else {
        insert_le(k, sort_to(k, s, n - 1), s[n - 1])
    }
}

pub open spec fn spec_sort(k: SortKey, s: Seq<Cand>) -> Seq<Cand> {
    sort_to(k, s, s.len() as int)
}

/// Two spans overlap when they share at least one byte offset.
pub open spec fn overlaps(a: Cand, b: Cand) -> bool {
    a.start < b.end && b.start < a.end
}

pub open spec fn overlaps_any(kept: Seq<Cand>, c: Cand) -> bool {
    exists|q: int| 0 <= q < kept.len() && overlaps(#[trigger] kept[q], c)
}

/// No two candidates at distinct positions share a byte offset.
pub open spec fn pairwise_disjoint(s: Seq<Cand>) -> bool {
    forall|p: int, q: int| 0 <= p < s.len() && 0 <= q < s.len() && p != q
        ==> !overlaps(#[trigger] s[p], #[trigger] s[q])
}

/// No two positions hold the same candidate.
pub open spec fn distinct_vals(s: Seq<Cand>) -> bool {
    forall|p: int, q: int| 0 <= p < s.len() && 0 <= q < s.len() && p != q
        ==> #[trigger] s[p] != #[trigger] s[q]
}

/// Greedy overlap resolution over the first `n` candidates (strongest
/// first): a candidate is kept unless it overlaps one already kept.
pub open spec fn greedy_to(s: Seq<Cand>, n: int) -> Seq<Cand>
    decreases n,
{
    if n <= 0 {
        Seq::empty()
    } else {
        let pre = greedy_to(s, n - 1);
        if overlaps_any(pre, s[n - 1]) {
            pre
        } else {
            pre.push(s[n - 1])
        }
    }
}

pub open spec fn spec_greedy(s: Seq<Cand>) -> Seq<Cand> {
    greedy_to(s, s.len() as int)
}

/// Candidates at or above the confidence floor, in order.
pub open spec fn filter_to(s: Seq<Cand>, min: u32, n: int) -> Seq<Cand>
    decreases n,
{
    if n <= 0 {
        Seq::empty()
    } else {
        let pre = filter_to(s, min, n - 1);
        if s[n - 1].conf >= min {
            pre.push(s[n - 1])
        } else {
            pre
        }
    }
}

pub open spec fn spec_filter(s: Seq<Cand>, min: u32) -> Seq<Cand> {
    filter_to(s, min, s.len() as int)
}

pub open spec fn to_detections(s: Seq<Cand>) -> Seq<Detection> {
    Seq::new(
        s.len(),
        |q: int| Detection {
            category: s[q].cat,
            start: s[q].start,
            end: s[q].end,
            confidence: s[q].conf,
        },
    )
}

/// Everything `detect` returns, as a function of the compiled rules, the
/// confidence floor and the text: scan, score, resolve overlaps strongest
/// first, drop weak candidates, and order the survivors by span.
pub open spec fn spec_detect(rules: Seq<RuleV>, min: u32, s: Seq<u8>) -> Seq<Detection> {
    to_detections(
        spec_sort(
            SortKey::Span,
            spec_filter(spec_greedy(spec_sort(SortKey::Strength, spec_scan(rules, s))), min),
        ),
    )
}

fn cand_le(k: SortKey, a: Cand, b: Cand) -> (r: bool)
    requires
        a.start <= a.end,
        b.start <= b.end,
    ensures
        r == key_le(k, a, b),
{
    match k {
        SortKey::Strength => {
            let alen = a.end - a.start;
            let blen = b.end - b.start;
            a.prio > b.prio || (a.prio == b.prio && (alen > blen || (alen == blen && (a.start
                < b.start || (a.start == b.start && (a.end < b.end || (a.end == b.end && a.rule
                <= b.rule)))))))
        },
        SortKey::Span => {
            a.start < b.start || (a.start == b.start && (a.end < b.end || (a.end == b.end
                && a.rule <= b.rule)))
        },
    }
}

/// `insert_le` is insertion at the first index whose element is not below
/// `x`.
proof fn lemma_insert_le_at(k: SortKey, s: Seq<Cand>, x: Cand, j: int)
    requires
        0 <= j <= s.len(),
        forall|q: int| 0 <= q < j ==> !key_le(k, x, #[trigger] s[q]),
        j < s.len() ==> key_le(k, x, s[j]),
    ensures
        insert_le(k, s, x) =~= s.subrange(0, j) + seq![x] + s.subrange(j, s.len() as int),
    decreases j,
{
    if j == 0 {
        if s.len() == 0 {
            assert(insert_le(k, s, x) =~= s.subrange(0, 0) + seq![x] + s.subrange(0, 0));
        } else {
            assert(insert_le(k, s, x) =~= s.subrange(0, 0) + seq![x] + s.subrange(0, s.len() as int));
        }
    } else {
        assert(!key_le(k, x, s[0]));
        let tail = s.drop_first();
        assert(forall|q: int| 0 <= q < j - 1 ==> !key_le(k, x, #[trigger] tail[q]));
        lemma_insert_le_at(k, tail, x, j - 1);
        assert(insert_le(k, s, x) =~= s.subrange(0, j) + seq![x] + s.subrange(j, s.len() as int));
    }
}

/// Insertion sort under key `k`.  Keeps only elements of the input, and
/// leaves consecutive elements ordered.
fn sort_cands(k: SortKey, input: &Vec<Cand>) -> (out: Vec<Cand>)
    requires
        forall|q: int| 0 <= q < input@.len() ==> (#[trigger] input@[q]).start <= input@[q].end,
    ensures
        out@ == spec_sort(k, input@),
        forall|q: int| 0 <= q < out@.len() ==> exists|p: int|
            0 <= p < input@.len() && #[trigger] out@[q] == input@[p],
        forall|q: int| 0 <= q < out@.len() - 1 ==> key_le(k, #[trigger] out@[q], out@[q + 1]),
        pairwise_disjoint(input@) && distinct_vals(input@) ==> pairwise_disjoint(out@)
            && distinct_vals(out@),
{
    let mut out: Vec<Cand> = Vec::new();
    let mut n: usize = 0;
    while n < input.len()
        invariant
            n <= input@.len(),
            out@ == sort_to(k, input@, n as int),
            forall|q: int| 0 <= q < out@.len() ==> exists|p: int|
                0 <= p < n && #[trigger] out@[q] == input@[p],
            forall|q: int| 0 <= q < out@.len() - 1 ==> key_le(k, #[trigger] out@[q], out@[q + 1]),
            pairwise_disjoint(input@) && distinct_vals(input@) ==> pairwise_disjoint(out@)
                && distinct_vals(out@),
        decreases input@.len() - n,
    {
        let x = input[n];
        let ghost pre = out@;
        let mut j: usize = 0;
        while j < out.len() && !cand_le(k, x, out[j])
            invariant
                0 <= j <= out@.len(),
                out@ == pre,
                forall|q: int| 0 <= q < j ==> !key_le(k, x, #[trigger] out@[q]),
                forall|q: int| 0 <= q < out@.len() ==> exists|p: int|
                    0 <= p < n && #[trigger] out@[q] == input@[p],
            decreases out@.len() - j,
        {
            j = j + 1;
        }
        out.insert(j, x);
        proof {
            lemma_insert_le_at(k, pre, x, j as int);
            assert(out@ =~= pre.subrange(0, j as int) + seq![x] + pre.subrange(
                j as int,
                pre.len() as int,
            ));
            assert(out@ =~= insert_le(k, pre, x));
            // consecutive order is kept around the insertion point
            assert forall|q: int| 0 <= q < out@.len() - 1 implies key_le(
                k,
                #[trigger] out@[q],
                out@[q + 1],
            ) by {
                if q + 1 < j {
                    assert(out@[q] == pre[q] && out@[q + 1] == pre[q + 1]);
                } else if q + 1 == j {
                    assert(out@[q] == pre[q] && out@[q + 1] == x);
                    assert(!key_le(k, x, pre[q]));
                } else if q == j {
                    assert(out@[q] == x && out@[q + 1] == pre[q]);
                } else {
                    assert(out@[q] == pre[q - 1] && out@[q + 1] == pre[q]);
                }
            }
            if pairwise_disjoint(input@) && distinct_vals(input@) {
                // each new position holds either `x` or an earlier element,
                // and all of those come from distinct input positions
                assert forall|a: int, b: int|
                    0 <= a < out@.len() && 0 <= b < out@.len() && a != b implies !overlaps(
                    #[trigger] out@[a],
                    #[trigger] out@[b],
                ) && out@[a] != out@[b] by {
                    lemma_disjoint_after_insert(input@, pre, out@, x, n as int, j as int, a, b);
                }
            }
        }
        n = n + 1;
    }
    out
}

/// After inserting `x == input[n]` at `j`, any two positions of the result
/// hold candidates from distinct input positions, hence disjoint, distinct
/// candidates.
proof fn lemma_disjoint_after_insert(
    input: Seq<Cand>,
    pre: Seq<Cand>,
    cur: Seq<Cand>,
    x: Cand,
    n: int,
    j: int,
    a: int,
    b: int,
)
    requires
        pairwise_disjoint(input),
        distinct_vals(input),
        0 <= n < input.len(),
        x == input[n],
        forall|q: int| 0 <= q < pre.len() ==> exists|p: int|
            0 <= p < n && #[trigger] pre[q] == input[p],
        pairwise_disjoint(pre),
        distinct_vals(pre),
        0 <= j <= pre.len(),
        cur == pre.subrange(0, j) + seq![x] + pre.subrange(j, pre.len() as int),
        0 <= a < cur.len(),
        0 <= b < cur.len(),
        a != b,
    ensures
        !overlaps(cur[a], cur[b]),
        cur[a] != cur[b],
{
    let ia = if a < j { a } else if a == j { -1 } else { a - 1 };
    let ib = if b < j { b } else if b == j { -1 } else { b - 1 };
    if ia == -1 {
        assert(cur[a] == x);
        let pb = choose|p: int| 0 <= p < n && pre[ib] == input[p];
        assert(cur[b] == input[pb]);
        assert(!overlaps(input[n], input[pb]));
    } else if ib == -1 {
        assert(cur[b] == x);
        let pa = choose|p: int| 0 <= p < n && pre[ia] == input[p];
        assert(cur[a] == input[pa]);
        assert(!overlaps(input[pa], input[n]));
    } else {
        assert(cur[a] == pre[ia] && cur[b] == pre[ib] && ia != ib);
    }
}

fn any_overlap(kept: &Vec<Cand>, c: Cand) -> (r: bool)
    ensures
        r == overlaps_any(kept@, c),
{
    let mut q: usize = 0;
    while q < kept.len()
        invariant
            q <= kept@.len(),
            forall|m: int| 0 <= m < q ==> !overlaps(#[trigger] kept@[m], c),
        decreases kept@.len() - q,
    {
        let a = kept[q];
        if a.start < c.end && c.start < a.end {
            return true;
        }
        q = q + 1;
    }
    false
}

/// Greedy overlap resolution: candidates come strongest first; each is kept
/// unless it overlaps one already kept, so the kept spans are pairwise
/// disjoint.
fn resolve_overlaps(input: &Vec<Cand>) -> (out: Vec<Cand>)
    ensures
        out@ == spec_greedy(input@),
        pairwise_disjoint(out@),
        forall|q: int| 0 <= q < out@.len() ==> exists|p: int|
            0 <= p < input@.len() && #[trigger] out@[q] == input@[p],
{
    let mut out: Vec<Cand> = Vec::new();
    let mut n: usize = 0;
    while n < input.len()
        invariant
            n <= input@.len(),
            out@ == greedy_to(input@, n as int),
            pairwise_disjoint(out@),
            forall|q: int| 0 <= q < out@.len() ==> exists|p: int|
                0 <= p < n && #[trigger] out@[q] == input@[p],
        decreases input@.len() - n,
    {
        let x = input[n];
        if !any_overlap(&out, x) {
            out.push(x);
        }
        n = n + 1;
    }
    out
}

/// Drops candidates below the confidence floor.
fn filter_confidence(input: &Vec<Cand>, min: u32) -> (out: Vec<Cand>)
    ensures
        out@ == spec_filter(input@, min),
        forall|q: int| 0 <= q < out@.len() ==> exists|p: int|
            0 <= p < input@.len() && #[trigger] out@[q] == input@[p],
        pairwise_disjoint(input@) && distinct_vals(input@) ==> pairwise_disjoint(out@)
            && distinct_vals(out@),
{
    let mut out: Vec<Cand> = Vec::new();
    let mut n: usize = 0;
    while n < input.len()
        invariant
            n <= input@.len(),
            out@ == filter_to(input@, min, n as int),
            forall|q: int| 0 <= q < out@.len() ==> exists|p: int|
                0 <= p < n && #[trigger] out@[q] == input@[p],
            pairwise_disjoint(input@) && distinct_vals(input@) ==> pairwise_disjoint(out@)
                && distinct_vals(out@),
        decreases input@.len() - n,
    {
        let x = input[n];
        let ghost pre = out@;
        if x.conf >= min {
            out.push(x);
            proof {
                if pairwise_disjoint(input@) && distinct_vals(input@) {
                    assert forall|a: int, b: int|
                        0 <= a < out@.len() && 0 <= b < out@.len() && a != b implies !overlaps(
                        #[trigger] out@[a],
                        #[trigger] out@[b],
                    ) && out@[a] != out@[b] by {
                        if a < pre.len() && b < pre.len() {
                            assert(out@[a] == pre[a] && out@[b] == pre[b]);
                        } else if a < pre.len() {
                            let pa = choose|p: int| 0 <= p < n && pre[a] == input[p];
                            assert(out@[a] == input[pa] && out@[b] == input[n as int]);
                            assert(!overlaps(input[pa], input[n as int]));
                        } else {
                            let pb = choose|p: int| 0 <= p < n && pre[b] == input[p];
                            assert(out@[b] == input[pb] && out@[a] == input[n as int]);
                            assert(!overlaps(input[n as int], input[pb]));
                        }
                    }
                }
            }
        }
        n = n + 1;
    }
    out
}

/// One combined pass over the text: all rules are tried at every offset, in
/// textual order, and each candidate is scored by its rule's validator.
fn scan(rules: &Vec<crate::patterns::PatternRule>, text: &Vec<u8>) -> (out: Vec<Cand>)
    requires
        forall|q: int| 0 <= q < rules@.len() ==> wf_rule(#[trigger] rules_view(rules@)[q]),
    ensures
        out@ == spec_scan(rules_view(rules@), text@),
        forall|q: int| 0 <= q < out@.len() ==> cand_ok(#[trigger] out@[q], text@.len() as int),
{
    let ghost rv = rules_view(rules@);
    let ghost s = text@;
    let mut out: Vec<Cand> = Vec::new();
    let mut i: usize = 0;
    while i < text.len()
        invariant
            i <= s.len(),
            rv == rules_view(rules@),
            s == text@,
            out@ == scan_to(rv, s, i as int),
            forall|q: int| 0 <= q < out@.len() ==> cand_ok(#[trigger] out@[q], s.len() as int),
        decreases s.len() - i,
    {
        let mut r: usize = 0;
        while r < rules.len()
            invariant
                i < s.len(),
                r <= rv.len(),
                rv == rules_view(rules@),
                s == text@,
                out@ == scan_to(rv, s, i as int) + cands_at(rv, s, i as int, r as int),
                forall|q: int| 0 <= q < out@.len() ==> cand_ok(#[trigger] out@[q], s.len() as int),
            decreases rv.len() - r,
        {
            let rule = &rules[r];
            assert(rule@ == rv[r as int]);
            match match_at(&rule.matcher, text, i) {
                Some(e) => {
                    proof {
                        lemma_match_end_bounds(rv[r as int].matcher, s, i as int);
                        if rule@.validator == Validator::Luhn {
                            assert(rv[r as int].matcher is CreditCard);
                            lemma_cc_span(s, i as int);
                        }
                    }
                    let conf = apply_validator(rule.validator, text, i, e);
                    let c = Cand {
                        cat: rule.category,
                        rule: r,
                        start: i,
                        end: e,
                        prio: rule.priority,
                        conf,
                    };
                    out.push(c);
                    proof {
                        assert(c == mk_cand(rv, s, i as int, r as int, e as int));
                        assert(out@ =~= scan_to(rv, s, i as int) + cands_at(
                            rv,
                            s,
                            i as int,
                            r + 1,
                        ));
                    }
                },
                None => {
                    proof {
                        assert(out@ =~= scan_to(rv, s, i as int) + cands_at(
                            rv,
                            s,
                            i as int,
                            r + 1,
                        ));
                    }
                },
            }
            r = r + 1;
        }
        proof {
            assert(out@ =~= scan_to(rv, s, i + 1));
        }
        i = i + 1;
    }
    out
}

/// A compiled detector.  Compilation happens once per configuration; a
/// detector is then read-only and can scan any number of buffers.
pub struct Detector {
    pub config: Configuration,
}

impl Detector {
    /// Wraps a built configuration; the rule list is the compiled matcher.
    pub fn compile(config: Configuration) -> (d: Detector)
        ensures
            d.config@ == config@,
    {
        Detector { config }
    }

    /// Scans `text` once and returns the resolved detections: exactly
    /// [`spec_detect`] of the compiled rules, the confidence floor and the
    /// text.  The result is ordered by ascending start (ties by ascending
    /// end), its spans are non-empty, in bounds, and pairwise disjoint.
    pub fn detect(&self, text: &Vec<u8>) -> (dets: Vec<Detection>)
        requires
            wf_config(self.config@),
        ensures
            dets@ == spec_detect(self.config@.rules, self.config@.minimum_confidence, text@),
            forall|q: int| 0 <= q < dets@.len() ==> (#[trigger] dets@[q]).start < dets@[q].end
                <= text@.len(),
            forall|q: int| 0 <= q < dets@.len() - 1 ==> (#[trigger] dets@[q]).end
                <= dets@[q + 1].start,
    {
        let ghost rv = rules_view(self.config.rules@);
        let ghost s = text@;
        let ghost min = self.config@.minimum_confidence;
        proof {
            assert(rules_view(self.config.rules@) == self.config@.rules);
            assert forall|q: int| 0 <= q < self.config.rules@.len() implies wf_rule(
                #[trigger] rules_view(self.config.rules@)[q],
            ) by {
                assert(wf_rule(self.config@.rules[q]));
            }
        }
        let raw = scan(&self.config.rules, text);
        let by_strength = sort_cands(SortKey::Strength, &raw);
        let kept = resolve_overlaps(&by_strength);
        let confident = filter_confidence(&kept, self.config.minimum_confidence);
        let by_span = sort_cands(SortKey::Span, &confident);
        proof {
            assert(by_span@ == spec_sort(
                SortKey::Span,
                spec_filter(spec_greedy(spec_sort(SortKey::Strength, spec_scan(rv, s))), min),
            ));
            // every surviving candidate is one of the raw candidates
            assert forall|q: int| 0 <= q < kept@.len() implies cand_ok(
                #[trigger] kept@[q],
                s.len() as int,
            ) by {
                let ws = choose|p: int|
                    0 <= p < by_strength@.len() && by_strength@[p] == kept@[q];
                let wr = choose|p: int| 0 <= p < raw@.len() && raw@[p] == by_strength@[ws];
                assert(cand_ok(raw@[wr], s.len() as int));
            }
            // disjoint spans are distinct: a non-empty span overlaps itself
            assert(distinct_vals(kept@)) by {
                assert forall|p: int, q: int|
                    0 <= p < kept@.len() && 0 <= q < kept@.len() && p != q implies (
                #[trigger] kept@[p]) != (#[trigger] kept@[q]) by {
                    assert(!overlaps(kept@[p], kept@[q]));
                    assert(kept@[p].start < kept@[p].end);
                }
            }
            assert(pairwise_disjoint(by_span@) && distinct_vals(by_span@));
            assert forall|q: int| 0 <= q < by_span@.len() implies cand_ok(
                #[trigger] by_span@[q],
                s.len() as int,
            ) by {
                let wc = choose|p: int| 0 <= p < confident@.len() && confident@[p] == by_span@[q];
                let wk = choose|p: int| 0 <= p < kept@.len() && kept@[p] == confident@[wc];
                assert(cand_ok(kept@[wk], s.len() as int));
            }
        }
        let mut dets: Vec<Detection> = Vec::new();
        let mut n: usize = 0;
        while n < by_span.len()
            invariant
                n <= by_span@.len(),
                dets@ == to_detections(by_span@).take(n as int),
                by_span@ == spec_sort(
                    SortKey::Span,
                    spec_filter(
                        spec_greedy(spec_sort(SortKey::Strength, spec_scan(rv, s))),
                        min,
                    ),
                ),
                rv == rules_view(self.config.rules@),
                s == text@,
                min == self.config@.minimum_confidence,
                forall|q: int| 0 <= q < by_span@.len() ==> cand_ok(
                    #[trigger] by_span@[q],
                    s.len() as int,
                ),
                pairwise_disjoint(by_span@),
                forall|q: int| 0 <= q < by_span@.len() - 1 ==> key_le(
                    SortKey::Span,
                    #[trigger] by_span@[q],
                    by_span@[q + 1],
                ),
            decreases by_span@.len() - n,
        {
            let c = by_span[n];
            dets.push(
                Detection { category: c.cat, start: c.start, end: c.end, confidence: c.conf },
            );
            proof {
                assert(dets@ =~= to_detections(by_span@).take(n + 1));
            }
            n = n + 1;
        }
        proof {
            assert(dets@ =~= to_detections(by_span@));
            // ordered and disjoint spans chain: each ends before the next starts
            assert forall|q: int| 0 <= q < dets@.len() - 1 implies (#[trigger] dets@[q]).end
                <= dets@[q + 1].start by {
                let a = by_span@[q];
                let b = by_span@[q + 1];
                assert(key_le(SortKey::Span, a, b));
                assert(!overlaps(a, b));
            }
        }
        dets
    }
}

/// Determinism of detection: the result is a function of the rules, the
/// floor and the text, so two runs over the same input are equal.
pub proof fn lemma_detect_deterministic(
    rules: Seq<RuleV>,
    min: u32,
    s: Seq<u8>,
    r1: Seq<Detection>,
    r2: Seq<Detection>,
)
    requires
        r1 == spec_detect(rules, min, s),
        r2 == spec_detect(rules, min, s),
    ensures
        r1 == r2,
{
}

/// The bytes a detection matched: `text[start..end]`.
pub fn detection_value(text: &Vec<u8>, d: &Detection) -> (v: Vec<u8>)
    requires
        d.start <= d.end <= text@.len(),
    ensures
        v@ == text@.subrange(d.start as int, d.end as int),
{
    let mut v: Vec<u8> = Vec::new();
    push_range(&mut v, text, d.start, d.end);
    v
}

} // verus!
