//! The masker: splices a masked copy of the text around detected spans.
//!
//! Unmatched text is copied verbatim; every detected span is replaced
//! according to its category's effective strategy.  The whole result is
//! pinned to [`spec_mask`], a function of the configuration, the text and
//! the detections.

use vstd::prelude::*;

use crate::chars::push_bytes;
use crate::chars::push_range;
use crate::chars::B_COMMA;
use crate::chars::B_SPACE;
use crate::config::spec_effective_strategy;
use crate::config::ConfigV;
use crate::config::Configuration;
use crate::detector::Detection;
use crate::errors::PiiError;
use crate::patterns::MaskStrategy;

verus! {

/// The byte that fills the hidden interior of a partial mask: `*`.
pub const MASK_BYTE: u8 = 42;

/// The fixed placeholder of the `Redact` strategy: `[REDACTED]`.
pub open spec fn redact_bytes() -> Seq<u8> {
    seq![91u8, 82u8, 69u8, 68u8, 65u8, 67u8, 84u8, 69u8, 68u8, 93u8]
}

fn redact_vec() -> (v: Vec<u8>)
    ensures
        v@ == redact_bytes(),
{
    let mut v: Vec<u8> = Vec::new();
    v.push(91);
    v.push(82);
    v.push(69);
    v.push(68);
    v.push(65);
    v.push(67);
    v.push(84);
    v.push(69);
    v.push(68);
    v.push(93);
    proof {
        assert(v@ =~= redact_bytes());
    }
    v
}

/// `n` mask bytes.
pub open spec fn stars(n: int) -> Seq<u8> {
    Seq::new(if n < 0 { 0 } else { n as nat }, |i: int| MASK_BYTE)
}

/// Partial masking of `v`: keep `p` leading and `sfx` trailing bytes, mask
/// the interior; a value shorter than `p + sfx` is masked whole.
pub open spec fn partial_mask(v: Seq<u8>, p: int, sfx: int) -> Seq<u8> {
    if v.len() < p + sfx {
        stars(v.len() as int)
    } else {
        v.subrange(0, p) + stars(v.len() - p - sfx) + v.subrange(v.len() - sfx, v.len() as int)
    }
}

/// `PartialMask` reveals at most `p + sfx` bytes: the result has the
/// value's length, the interior is strictly masked, and a value shorter
/// than `p + sfx` is masked in full.
pub proof fn lemma_partial_mask_bounded(v: Seq<u8>, p: int, sfx: int)
    requires
        0 <= p,
        0 <= sfx,
    ensures
        partial_mask(v, p, sfx).len() == v.len(),
        v.len() < p + sfx ==> forall|i: int|
            0 <= i < v.len() ==> partial_mask(v, p, sfx)[i] == MASK_BYTE,
        v.len() >= p + sfx ==> forall|i: int|
            p <= i < v.len() - sfx ==> partial_mask(v, p, sfx)[i] == MASK_BYTE,
{
}

/// Fixed-width star run builder.
fn push_stars(out: &mut Vec<u8>, n: usize)
    ensures
        final(out)@ == old(out)@ + stars(n as int),
{
    let mut k: usize = 0;
    while k < n
        invariant
            k <= n,
            out@ == old(out)@ + stars(k as int),
        decreases n - k,
    {
        out.push(MASK_BYTE);
        proof {
            assert(stars(k + 1) =~= stars(k as int).push(MASK_BYTE));
        }
        k = k + 1;
    }
}

/// Partial masking of `text[from..to]`.
fn partial_mask_span(text: &Vec<u8>, from: usize, to: usize, p: usize, sfx: usize) -> (v: Vec<u8>)
    requires
        from <= to <= text@.len(),
    ensures
        v@ == partial_mask(text@.subrange(from as int, to as int), p as int, sfx as int),
{
    let len = to - from;
    let ghost val = text@.subrange(from as int, to as int);
    let mut v: Vec<u8> = Vec::new();
    if p > len || sfx > len - p {
        push_stars(&mut v, len);
        proof {
            assert(val.len() < p + sfx);
        }
    } else {
        push_range(&mut v, text, from, from + p);
        push_stars(&mut v, len - p - sfx);
        push_range(&mut v, text, to - sfx, to);
        proof {
            assert(text@.subrange(from as int, from + p) =~= val.subrange(0, p as int));
            assert(text@.subrange(to - sfx, to as int) =~= val.subrange(
                val.len() - sfx,
                val.len() as int,
            ));
            assert(v@ =~= partial_mask(val, p as int, sfx as int));
        }
    }
    v
}

/// 64-bit FNV-1a offset basis and prime.
pub const FNV_OFFSET: u64 = 0xcbf29ce484222325;

pub const FNV_PRIME: u64 = 0x100000001b3;

/// Product modulo 2^64.
pub open spec fn mul_wrap(a: u64, b: u64) -> u64 {
    ((a as nat * b as nat) % 0x10000000000000000) as u64
}

/// FNV-1a digest of the first `n` bytes of `data`.
pub open spec fn fnv_at(data: Seq<u8>, n: int) -> u64
    decreases n,
{
    if n <= 0 {
        FNV_OFFSET
    } else {
        mul_wrap(fnv_at(data, n - 1) ^ (data[n - 1] as u64), FNV_PRIME)
    }
}

/// The digest of the `Hash` strategy: FNV-1a over salt, then value.  The
/// same (salt, value) pair always yields the same digest.
pub open spec fn spec_hash64(salt: Seq<u8>, v: Seq<u8>) -> u64 {
    fnv_at(salt + v, (salt + v).len() as int)
}

/// Digest of `salt` followed by `text[from..to]`.
fn hash64(salt: &Vec<u8>, text: &Vec<u8>, from: usize, to: usize) -> (h: u64)
    requires
        from <= to <= text@.len(),
    ensures
        h == spec_hash64(salt@, text@.subrange(from as int, to as int)),
{
    let ghost data = salt@ + text@.subrange(from as int, to as int);
    let mut h: u64 = FNV_OFFSET;
    let mut k: usize = 0;
    while k < salt.len()
        invariant
            k <= salt@.len(),
            data == salt@ + text@.subrange(from as int, to as int),
            h == fnv_at(data, k as int),
        decreases salt@.len() - k,
    {
        assert(data[k as int] == salt@[k as int]);
        h = (h ^ (salt[k] as u64)).wrapping_mul(FNV_PRIME);
        k = k + 1;
    }
    let mut m: usize = from;
    while m < to
        invariant
            from <= m <= to,
            data == salt@ + text@.subrange(from as int, to as int),
            h == fnv_at(data, salt@.len() + m - from),
        decreases to - m,
    {
        assert(data[salt@.len() + m - from] == text@[m as int]);
        h = (h ^ (text[m] as u64)).wrapping_mul(FNV_PRIME);
        m = m + 1;
    }
    proof {
        assert(data.len() == salt@.len() + to - from);
    }
    h
}

/// Lower-case hex digit of a nibble.
pub open spec fn hex_digit(d: u8) -> u8 {
    if d < 10 {
        (48 + d) as u8
    } else {
        (87 + d) as u8
    }
}

/// The `i`-th nibble of `h`, most significant first.
pub open spec fn nibble(h: u64, i: int) -> u8 {
    ((h >> (((15 - i) * 4) as u64)) & 0xf) as u8
}

/// `h` as sixteen lower-case hex digits.
pub open spec fn hex64(h: u64) -> Seq<u8> {
    Seq::new(16, |i: int| hex_digit(nibble(h, i)))
}

fn hex64_vec(h: u64) -> (v: Vec<u8>)
    ensures
        v@ == hex64(h),
{
    let mut v: Vec<u8> = Vec::new();
    let mut i: usize = 0;
    while i < 16
        invariant
            i <= 16,
            v@ == hex64(h).take(i as int),
        decreases 16 - i,
    {
        let sh: u64 = (60 - 4 * (i as u64));
        let d = ((h >> sh) & 0xf) as u8;
        assert((h >> sh) & 0xf < 16) by (bit_vector);
        let digit = if d < 10 {
            48 + d
        } else {
            87 + d
        };
        proof {
            assert(sh == ((15 - i as int) * 4) as u64);
            assert(digit == hex_digit(nibble(h, i as int)));
        }
        v.push(digit);
        proof {
            assert(v@ =~= hex64(h).take(i + 1));
        }
        i = i + 1;
    }
    proof {
        assert(hex64(h).take(16) =~= hex64(h));
    }
    v
}

/// Decimal digits of `n`, without leading zeros (empty for zero).
pub open spec fn dec_digits(n: int) -> Seq<u8>
    decreases n,
{
    if n <= 0 {
        Seq::empty()
    } else {
        dec_digits(n / 10).push((48 + (n % 10)) as u8)
    }
}

/// Decimal form of `n` (zero is `0`).
pub open spec fn dec_of(n: int) -> Seq<u8> {
    if n == 0 {
        seq![48u8]
    } else {
        dec_digits(n)
    }
}

pub fn dec_vec(n: usize) -> (v: Vec<u8>)
    ensures
        v@ == dec_of(n as int),
{
    if n == 0 {
        let mut v: Vec<u8> = Vec::new();
        v.push(48);
        proof {
            assert(v@ =~= seq![48u8]);
        }
        return v;
    }
    let mut rev: Vec<u8> = Vec::new();
    let mut m: usize = n;
    while m > 0
        invariant
            dec_digits(n as int) == dec_digits(m as int) + rev@.reverse(),
        decreases m,
    {
        let d = (48 + (m % 10)) as u8;
        let ghost old_rev = rev@;
        let ghost old_m = m as int;
        rev.push(d);
        m = m / 10;
        proof {
            assert(rev@.reverse() =~= seq![d] + old_rev.reverse());
            assert(dec_digits(old_m) == dec_digits(old_m / 10).push(d));
            assert(dec_digits(old_m / 10) + rev@.reverse() =~= dec_digits(old_m / 10).push(d)
                + old_rev.reverse());
        }
    }
    let mut v: Vec<u8> = Vec::new();
    let mut j: usize = 0;
    while j < rev.len()
        invariant
            j <= rev@.len(),
            v@ == rev@.reverse().take(j as int),
        decreases rev@.len() - j,
    {
        v.push(rev[rev.len() - 1 - j]);
        proof {
            assert(v@ =~= rev@.reverse().take(j + 1));
        }
        j = j + 1;
    }
    proof {
        assert(rev@.reverse().take(rev@.len() as int) =~= rev@.reverse());
    }
    v
}

/// The `Hash` replacement: `[HASH:` sixteen hex digits `]`.
pub open spec fn hash_marker(h: u64) -> Seq<u8> {
    seq![91u8, 72u8, 65u8, 83u8, 72u8, 58u8] + hex64(h) + seq![93u8]
}

/// The `Tokenize` replacement for the `idx`-th detection of a call:
/// `[TOKEN-` decimal index `]`.  Fresh per call, not stable across calls.
pub open spec fn token_marker(idx: int) -> Seq<u8> {
    seq![91u8, 84u8, 79u8, 75u8, 69u8, 78u8, 45u8] + dec_of(idx) + seq![93u8]
}

/// What replaces the span of detection `d` (the `idx`-th of its call).
pub open spec fn spec_replacement(c: ConfigV, s: Seq<u8>, d: Detection, idx: int) -> Seq<u8> {
    match spec_effective_strategy(c, d.category) {
        MaskStrategy::Redact => redact_bytes(),
        MaskStrategy::Partial { prefix, suffix } => partial_mask(
            s.subrange(d.start as int, d.end as int),
            prefix as int,
            suffix as int,
        ),
        MaskStrategy::Hash => hash_marker(
            spec_hash64(c.salt, s.subrange(d.start as int, d.end as int)),
        ),
        MaskStrategy::Tokenize => token_marker(idx),
        MaskStrategy::Remove => Seq::empty(),
    }
}

fn replacement(cfg: &Configuration, text: &Vec<u8>, d: Detection, idx: usize) -> (v: Vec<u8>)
    requires
        d.start <= d.end <= text@.len(),
    ensures
        v@ == spec_replacement(cfg@, text@, d, idx as int),
{
    match cfg.effective_strategy(d.category) {
        MaskStrategy::Redact => redact_vec(),
        MaskStrategy::Partial { prefix, suffix } => partial_mask_span(
            text,
            d.start,
            d.end,
            prefix,
            suffix,
        ),
        MaskStrategy::Hash => {
            let h = hash64(&cfg.salt, text, d.start, d.end);
            let mut v: Vec<u8> = Vec::new();
            v.push(91);
            v.push(72);
            v.push(65);
            v.push(83);
            v.push(72);
            v.push(58);
            proof {
                assert(v@ =~= seq![91u8, 72u8, 65u8, 83u8, 72u8, 58u8]);
            }
            let hx = hex64_vec(h);
            push_bytes(&mut v, &hx);
            v.push(93);
            proof {
                assert(v@ =~= hash_marker(h));
            }
            v
        },
        MaskStrategy::Tokenize => {
            let mut v: Vec<u8> = Vec::new();
            v.push(91);
            v.push(84);
            v.push(79);
            v.push(75);
            v.push(69);
            v.push(78);
            v.push(45);
            proof {
                assert(v@ =~= seq![91u8, 84u8, 79u8, 75u8, 69u8, 78u8, 45u8]);
            }
            let dx = dec_vec(idx);
            push_bytes(&mut v, &dx);
            v.push(93);
            proof {
                assert(v@ =~= token_marker(idx as int));
            }
            v
        },
        MaskStrategy::Remove => Vec::new(),
    }
}

/// A separator a `Remove` span may absorb: comma or space.
pub open spec fn is_sep(b: u8) -> bool {
    b == B_COMMA || b == B_SPACE
}

/// Detections the masker accepts: spans within the text, ordered, and
/// pairwise disjoint (each ends at or before the next begins).
pub open spec fn wf_detections(dets: Seq<Detection>, len: int) -> bool {
    (forall|q: int| 0 <= q < dets.len() ==> (#[trigger] dets[q]).start <= dets[q].end <= len)
        && (forall|q: int| 0 <= q < dets.len() - 1 ==> (#[trigger] dets[q]).end
        <= dets[q + 1].start)
}

/// Start of the effective span of detection `i`: a `Remove` span whose only
/// adjacent separator sits on its left absorbs it (never crossing `prev`,
/// the end of the previous splice).
pub open spec fn eff_start(c: ConfigV, s: Seq<u8>, dets: Seq<Detection>, i: int, prev: int) -> int {
    let d = dets[i];
    let before = d.start > 0 && is_sep(s[d.start - 1]);
    let after = d.end < s.len() && is_sep(s[d.end as int]);
    if spec_effective_strategy(c, d.category) is Remove && before && !after && d.start - 1 >= prev {
        d.start - 1
    } else {
        d.start as int
    }
}

/// End of the effective span of detection `i`: a `Remove` span whose only
/// adjacent separator sits on its right absorbs it (never crossing the next
/// detection).
pub open spec fn eff_end(c: ConfigV, s: Seq<u8>, dets: Seq<Detection>, i: int) -> int {
    let d = dets[i];
    let before = d.start > 0 && is_sep(s[d.start - 1]);
    let after = d.end < s.len() && is_sep(s[d.end as int]);
    if spec_effective_strategy(c, d.category) is Remove && after && !before && (i == dets.len() - 1
        || d.end + 1 <= dets[i + 1].start) {
        d.end + 1
    } else {
        d.end as int
    }
}

/// The masked suffix from detection `i` on, `prev` being the first byte not
/// yet emitted.
pub open spec fn spec_mask_from(
    c: ConfigV,
    s: Seq<u8>,
    dets: Seq<Detection>,
    i: int,
    prev: int,
) -> Seq<u8>
    decreases dets.len() - i,
{
    if i < 0 || i >= dets.len() {
        s.subrange(prev, s.len() as int)
    } else {
        s.subrange(prev, eff_start(c, s, dets, i, prev)) + spec_replacement(c, s, dets[i], i)
            + spec_mask_from(c, s, dets, i + 1, eff_end(c, s, dets, i))
    }
}

/// The whole masked text.
pub open spec fn spec_mask(c: ConfigV, s: Seq<u8>, dets: Seq<Detection>) -> Seq<u8> {
    spec_mask_from(c, s, dets, 0, 0)
}

/// Masking with no detections returns the text unchanged.  In particular,
/// re-masking already-masked output in which nothing is detected any more
/// changes nothing: `Redact` and `Remove` masking is idempotent.
pub proof fn lemma_mask_empty(c: ConfigV, s: Seq<u8>)
    ensures
        spec_mask(c, s, Seq::<Detection>::empty()) == s,
{
    assert(spec_mask(c, s, Seq::<Detection>::empty()) =~= s);
}

/// Idempotence of masking, stated through detection: when a scan of
/// already-masked text finds no residual PII, masking it again changes
/// nothing.  `Redact` and `Remove` leave no matchable residue of what they
/// replaced, so their masking is idempotent in this sense.
pub proof fn lemma_mask_idempotent(
    rules: Seq<crate::patterns::RuleV>,
    min: u32,
    c: ConfigV,
    masked: Seq<u8>,
)
    requires
        crate::detector::spec_detect(rules, min, masked).len() == 0,
    ensures
        spec_mask(c, masked, crate::detector::spec_detect(rules, min, masked)) == masked,
{
    assert(crate::detector::spec_detect(rules, min, masked) =~= Seq::<Detection>::empty());
    lemma_mask_empty(c, masked);
}

#[verifier::rlimit(50)]
fn check_wf(text: &Vec<u8>, dets: &Vec<Detection>) -> (r: bool)
    ensures
        r == wf_detections(dets@, text@.len() as int),
{
    let mut q: usize = 0;
    while q < dets.len()
        invariant
            q <= dets@.len(),
            forall|m: int| 0 <= m < q ==> (#[trigger] dets@[m]).start <= dets@[m].end
                <= text@.len(),
            forall|m: int| 0 <= m < q && m < dets@.len() - 1 ==> (#[trigger] dets@[m]).end
                <= dets@[m + 1].start,
        decreases dets@.len() - q,
    {
        let d = dets[q];
        if !(d.start <= d.end && d.end <= text.len()) {
            assert(!(dets@[q as int].start <= dets@[q as int].end <= text@.len()));
            return false;
        }
        if q + 1 < dets.len() {
            if !(d.end <= dets[q + 1].start) {
                assert(!(dets@[q as int].end <= dets@[q as int + 1].start));
                return false;
            }
        }
        q = q + 1;
    }
    true
}

/// Splices the masked text: bytes outside the detected spans are copied
/// verbatim, each span is replaced per its category's effective strategy,
/// and a `Remove` span absorbs one dangling separator.  Detections that are
/// unsorted, overlapping or out of bounds are rejected.
/// One splice step: emitting the copied gap and the replacement of
/// detection `i` keeps the splice on course for the full masked text.
proof fn lemma_mask_step(
    c: ConfigV,
    s: Seq<u8>,
    dets: Seq<Detection>,
    i: int,
    prev: int,
    out0: Seq<u8>,
    out1: Seq<u8>,
)
    requires
        0 <= i < dets.len(),
        out1 == (out0 + s.subrange(prev, eff_start(c, s, dets, i, prev))) + spec_replacement(
            c,
            s,
            dets[i],
            i,
        ),
        out0 + spec_mask_from(c, s, dets, i, prev) == spec_mask(c, s, dets),
    ensures
        out1 + spec_mask_from(c, s, dets, i + 1, eff_end(c, s, dets, i)) == spec_mask(c, s, dets),
{
    let sub = s.subrange(prev, eff_start(c, s, dets, i, prev));
    let rep = spec_replacement(c, s, dets[i], i);
    let tail = spec_mask_from(c, s, dets, i + 1, eff_end(c, s, dets, i));
    assert(spec_mask_from(c, s, dets, i, prev) == (sub + rep) + tail);
    assert(((out0 + sub) + rep) + tail =~= out0 + ((sub + rep) + tail));
}

#[verifier::rlimit(100)]
pub fn mask(cfg: &Configuration, text: &Vec<u8>, dets: &Vec<Detection>) -> (r: Result<
    Vec<u8>,
    PiiError,
>)
    ensures
        wf_detections(dets@, text@.len() as int) ==> (r matches Ok(o) && o@ == spec_mask(
            cfg@,
            text@,
            dets@,
        )),
        !wf_detections(dets@, text@.len() as int) ==> (r matches Err(e)
            && e == PiiError::OverlappingDetections),
{
    if !check_wf(text, dets) {
        return Err(PiiError::OverlappingDetections);
    }
    let ghost c = cfg@;
    let ghost s = text@;
    let ghost dv = dets@;
    let mut out: Vec<u8> = Vec::new();
    let mut prev: usize = 0;
    let mut i: usize = 0;
    while i < dets.len()
        invariant
            i <= dv.len(),
            c == cfg@,
            s == text@,
            dv == dets@,
            wf_detections(dv, s.len() as int),
            prev <= s.len(),
            i < dv.len() ==> prev <= dv[i as int].start,
            out@ + spec_mask_from(c, s, dv, i as int, prev as int) == spec_mask(c, s, dv),
        decreases dv.len() - i,
    {
        let d = dets[i];
        let is_remove = match cfg.effective_strategy(d.category) {
            MaskStrategy::Remove => true,
            _ => false,
        };
        let before = d.start > 0 && {
            let b = text[d.start - 1];
            b == B_COMMA || b == B_SPACE
        };
        let after = d.end < text.len() && {
            let b = text[d.end];
            b == B_COMMA || b == B_SPACE
        };
        let es: usize = if is_remove && before && !after && d.start - 1 >= prev {
            d.start - 1
        } else {
            d.start
        };
        let ee: usize = if is_remove && after && !before && (i == dets.len() - 1 || d.end + 1
            <= dets[i + 1].start) {
            d.end + 1
        } else {
            d.end
        };
        proof {
            assert(es as int == eff_start(c, s, dv, i as int, prev as int));
            assert(ee as int == eff_end(c, s, dv, i as int));
        }
        let ghost pre_out = out@;
        push_range(&mut out, text, prev, es);
        let rep = replacement(cfg, text, d, i);
        push_bytes(&mut out, &rep);
        proof {
            lemma_mask_step(c, s, dv, i as int, prev as int, pre_out, out@);
        }
        prev = ee;
        i = i + 1;
    }
    let ghost pre_out = out@;
    push_range(&mut out, text, prev, text.len());
    proof {
        assert(out@ =~= pre_out + s.subrange(prev as int, s.len() as int));
    }
    Ok(out)
}

} // verus!
