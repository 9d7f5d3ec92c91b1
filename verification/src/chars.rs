//! Byte classification and run-length scanning over byte buffers.
//!
//! Every pattern in this crate is matched over raw bytes; the classes here
//! are the alphabet the matchers are written in.

use vstd::prelude::*;

verus! {

// ASCII codes of the bytes the patterns speak of.
pub const B_0: u8 = 48;
pub const B_9: u8 = 57;
pub const B_UPPER_A: u8 = 65;
pub const B_UPPER_Z: u8 = 90;
pub const B_LOWER_A: u8 = 97;
pub const B_LOWER_Z: u8 = 122;
pub const B_DOT: u8 = 46;
pub const B_DASH: u8 = 45;
pub const B_UNDERSCORE: u8 = 95;
pub const B_PERCENT: u8 = 37;
pub const B_PLUS: u8 = 43;
pub const B_AT: u8 = 64;
pub const B_SPACE: u8 = 32;
pub const B_COMMA: u8 = 44;

/// A class of bytes that a pattern element can require.
#[derive(Clone, Copy, PartialEq, Eq, Structural, Debug)]
pub enum CharClass {
    /// ASCII decimal digit `0..=9`.
    Digit,
    /// ASCII letter.
    Alpha,
    /// ASCII letter or digit.
    Alnum,
    /// Bytes allowed in the local part of an email address.
    EmailLocal,
    /// Bytes allowed in the domain part of an email address.
    EmailDomain,
    /// Exactly the given byte.
    Exact(u8),
}

pub open spec fn spec_is_digit(b: u8) -> bool {
    B_0 <= b && b <= B_9
}

pub open spec fn spec_is_alpha(b: u8) -> bool {
    (B_LOWER_A <= b && b <= B_LOWER_Z) || (B_UPPER_A <= b && b <= B_UPPER_Z)
}

pub open spec fn spec_is_alnum(b: u8) -> bool {
    spec_is_digit(b) || spec_is_alpha(b)
}

/// Local part of an email: letters, digits, and `. _ % + -`.
pub open spec fn spec_is_email_local(b: u8) -> bool {
    spec_is_alnum(b) || b == B_DOT || b == B_UNDERSCORE || b == B_PERCENT || b == B_PLUS
        || b == B_DASH
}

/// Domain part of an email: letters, digits, and `. -`.
pub open spec fn spec_is_email_domain(b: u8) -> bool {
    spec_is_alnum(b) || b == B_DOT || b == B_DASH
}

/// Whether byte `b` belongs to class `c`.
pub open spec fn class_holds(c: CharClass, b: u8) -> bool {
    match c {
        CharClass::Digit => spec_is_digit(b),
        CharClass::Alpha => spec_is_alpha(b),
        CharClass::Alnum => spec_is_alnum(b),
        CharClass::EmailLocal => spec_is_email_local(b),
        CharClass::EmailDomain => spec_is_email_domain(b),
        CharClass::Exact(x) => b == x,
    }
}

pub fn byte_in_class(c: CharClass, b: u8) -> (r: bool)
    ensures
        r == class_holds(c, b),
{
    match c {
        CharClass::Digit => B_0 <= b && b <= B_9,
        CharClass::Alpha => (B_LOWER_A <= b && b <= B_LOWER_Z) || (B_UPPER_A <= b && b <= B_UPPER_Z),
        CharClass::Alnum => {
            (B_0 <= b && b <= B_9) || (B_LOWER_A <= b && b <= B_LOWER_Z)
                || (B_UPPER_A <= b && b <= B_UPPER_Z)
        },
        CharClass::EmailLocal => {
            (B_0 <= b && b <= B_9) || (B_LOWER_A <= b && b <= B_LOWER_Z)
                || (B_UPPER_A <= b && b <= B_UPPER_Z) || b == B_DOT || b == B_UNDERSCORE
                || b == B_PERCENT || b == B_PLUS || b == B_DASH
        },
        CharClass::EmailDomain => {
            (B_0 <= b && b <= B_9) || (B_LOWER_A <= b && b <= B_LOWER_Z)
                || (B_UPPER_A <= b && b <= B_UPPER_Z) || b == B_DOT || b == B_DASH
        },
        CharClass::Exact(x) => b == x,
    }
}

/// Every byte of `s` in `[from, to)` belongs to class `c`.
pub open spec fn range_in_class(s: Seq<u8>, from: int, to: int, c: CharClass) -> bool {
    forall|k: int| from <= k < to ==> class_holds(c, #[trigger] s[k])
}

/// Executable check of [`range_in_class`] over a whole subrange.
pub fn check_range(text: &Vec<u8>, from: usize, to: usize, c: CharClass) -> (r: bool)
    requires
        from <= to <= text@.len(),
    ensures
        r == range_in_class(text@, from as int, to as int, c),
{
    let mut k: usize = from;
    while k < to
        invariant
            from <= k <= to,
            range_in_class(text@, from as int, k as int, c),
        decreases to - k,
    {
        if !byte_in_class(c, text[k]) {
            return false;
        }
        k = k + 1;
    }
    true
}

/// Length of the maximal run of class-`c` bytes starting at `i`.
pub open spec fn run_len(s: Seq<u8>, i: int, c: CharClass) -> int
    decreases s.len() - i,
{
    if 0 <= i < s.len() && class_holds(c, s[i]) {
        1 + run_len(s, i + 1, c)
    } else {
        0
    }
}

pub proof fn lemma_run_len_bounds(s: Seq<u8>, i: int, c: CharClass)
    requires
        0 <= i <= s.len(),
    ensures
        0 <= run_len(s, i, c) <= s.len() - i,
    decreases s.len() - i,
{
    if i < s.len() && class_holds(c, s[i]) {
        lemma_run_len_bounds(s, i + 1, c);
    }
}

/// A run is exactly `j - i` long when `[i, j)` is all in class and the run
/// stops at `j` (end of buffer or a byte outside the class).
pub proof fn lemma_run_len_exact(s: Seq<u8>, i: int, j: int, c: CharClass)
    requires
        0 <= i <= j <= s.len(),
        range_in_class(s, i, j, c),
        j == s.len() || !class_holds(c, s[j]),
    ensures
        run_len(s, i, c) == j - i,
    decreases j - i,
{
    if i < j {
        lemma_run_len_exact(s, i + 1, j, c);
    }
}

/// First index `>= i` whose byte leaves class `c` (or the end of the text).
pub fn run_end(text: &Vec<u8>, i: usize, c: CharClass) -> (j: usize)
    requires
        i <= text@.len(),
    ensures
        i <= j <= text@.len(),
        j - i == run_len(text@, i as int, c),
{
    let mut j: usize = i;
    while j < text.len() && byte_in_class(c, text[j])
        invariant
            i <= j <= text@.len(),
            range_in_class(text@, i as int, j as int, c),
        decreases text@.len() - j,
    {
        j = j + 1;
    }
    proof {
        lemma_run_len_exact(text@, i as int, j as int, c);
    }
    j
}

/// Whether `[from, to)` of `s` contains a `.` byte.
pub open spec fn has_dot(s: Seq<u8>, from: int, to: int) -> bool {
    exists|k: int| from <= k < to && #[trigger] s[k] == B_DOT
}

pub fn check_has_dot(text: &Vec<u8>, from: usize, to: usize) -> (r: bool)
    requires
        from <= to <= text@.len(),
    ensures
        r == has_dot(text@, from as int, to as int),
{
    let mut k: usize = from;
    while k < to
        invariant
            from <= k <= to,
            forall|m: int| from <= m < k ==> #[trigger] text@[m] != B_DOT,
        decreases to - k,
    {
        if text[k] == B_DOT {
            return true;
        }
        k = k + 1;
    }
    false
}

/// Numeric value of the decimal digits `s[from..to]`, most significant first.
pub open spec fn digits_val(s: Seq<u8>, from: int, to: int) -> int
    decreases to - from,
{
    if from >= to {
        0
    } else {
        digits_val(s, from, to - 1) * 10 + (s[to - 1] - B_0)
    }
}

/// Appends `text[from..to]` to `out`.
pub fn push_range(out: &mut Vec<u8>, text: &Vec<u8>, from: usize, to: usize)
    requires
        from <= to <= text@.len(),
    ensures
        final(out)@ == old(out)@ + text@.subrange(from as int, to as int),
{
    let mut k: usize = from;
    while k < to
        invariant
            from <= k <= to,
            out@ == old(out)@ + text@.subrange(from as int, k as int),
        decreases to - k,
    {
        out.push(text[k]);
        proof {
            assert(text@.subrange(from as int, k + 1) =~=
                text@.subrange(from as int, k as int).push(text@[k as int]));
        }
        k = k + 1;
    }
}

/// A fresh copy of a byte vector.
pub fn copy_bytes(v: &Vec<u8>) -> (r: Vec<u8>)
    ensures
        r@ == v@,
{
    let mut out: Vec<u8> = Vec::new();
    push_range(&mut out, v, 0, v.len());
    proof {
        assert(v@.subrange(0, v@.len() as int) =~= v@);
    }
    out
}

/// Appends all of `piece` to `out`.
pub fn push_bytes(out: &mut Vec<u8>, piece: &Vec<u8>)
    ensures
        final(out)@ == old(out)@ + piece@,
{
    let mut k: usize = 0;
    while k < piece.len()
        invariant
            k <= piece@.len(),
            out@ == old(out)@ + piece@.subrange(0, k as int),
        decreases piece@.len() - k,
    {
        out.push(piece[k]);
        proof {
            assert(piece@.subrange(0, k + 1) =~=
                piece@.subrange(0, k as int).push(piece@[k as int]));
        }
        k = k + 1;
    }
    proof {
        assert(piece@.subrange(0, piece@.len() as int) =~= piece@);
    }
}

} // verus!
