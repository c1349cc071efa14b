//! The grammar of a decimal floating-point literal, as accepted by the
//! standard library's conversion from text to a 64-bit float.
//!
//! ```text
//! Float  ::= Sign? ( 'inf' | 'infinity' | 'nan' | Number )
//! Number ::= ( Digit+ | Digit+ '.' Digit* | Digit* '.' Digit+ ) Exp?
//! Exp    ::= 'e' Sign? Digit+
//! Sign   ::= [+-]
//! Digit  ::= [0-9]
//! ```
//!
//! Letters match without regard to case. The grammar is stated over bytes:
//! every byte it admits is ASCII.

use vstd::prelude::*;

verus! {

pub const DIGIT_ZERO: u8 = 0x30;
pub const DIGIT_NINE: u8 = 0x39;
pub const PLUS: u8 = 0x2b;
pub const MINUS: u8 = 0x2d;
pub const DOT: u8 = 0x2e;
pub const UPPER_A: u8 = 0x41;
pub const UPPER_Z: u8 = 0x5a;
/// `e`, which opens an exponent.
pub const LOWER_E: u8 = 0x65;
pub const UPPER_E: u8 = 0x45;

pub open spec fn is_digit(b: u8) -> bool {
    DIGIT_ZERO <= b <= DIGIT_NINE
}

pub open spec fn is_sign(b: u8) -> bool {
    b == PLUS || b == MINUS
}

pub open spec fn to_lower(b: u8) -> u8 {
    if UPPER_A <= b <= UPPER_Z {
        (b + 32) as u8
    } else {
        b
    }
}

pub open spec fn all_digits(s: Seq<u8>) -> bool {
    forall|i: int| 0 <= i < s.len() ==> is_digit(#[trigger] s[i])
}

/// `s` spells `word` (given in lower case) without regard to case.
pub open spec fn spells(s: Seq<u8>, word: Seq<u8>) -> bool {
    s.len() == word.len() && forall|i: int| 0 <= i < s.len() ==> to_lower(#[trigger] s[i]) == word[i]
}

/// `Digit+ | Digit+ '.' Digit* | Digit* '.' Digit+`
pub open spec fn is_mantissa(s: Seq<u8>) -> bool {
    (s.len() > 0 && all_digits(s)) || (s.len() > 1 && exists|d: int|
        0 <= d < s.len() && s[d] == DOT && all_digits(#[trigger] s.take(d)) && all_digits(
            s.skip(d + 1),
        ))
}

/// `'e' Sign? Digit+`
pub open spec fn is_exponent(s: Seq<u8>) -> bool {
    s.len() > 1 && to_lower(s[0]) == LOWER_E && if is_sign(s[1]) {
        s.len() > 2 && all_digits(s.skip(2))
    } else {
        all_digits(s.skip(1))
    }
}

/// `Mantissa Exp?`
pub open spec fn is_number(s: Seq<u8>) -> bool {
    exists|k: int|
        0 <= k <= s.len() && is_mantissa(#[trigger] s.take(k)) && (k == s.len() || is_exponent(
            s.skip(k),
        ))
}

/// The text without its leading sign, if it has one.
pub open spec fn unsigned_part(s: Seq<u8>) -> Seq<u8> {
    if s.len() > 0 && is_sign(s[0]) {
        s.skip(1)
    } else {
        s
    }
}

pub open spec fn word_inf() -> Seq<u8> {
    seq![0x69u8, 0x6eu8, 0x66u8]
}

pub open spec fn word_infinity() -> Seq<u8> {
    seq![0x69u8, 0x6eu8, 0x66u8, 0x69u8, 0x6eu8, 0x69u8, 0x74u8, 0x79u8]
}

pub open spec fn word_nan() -> Seq<u8> {
    seq![0x6eu8, 0x61u8, 0x6eu8]
}

/// `s` is a decimal floating-point literal.
pub open spec fn is_float_literal(s: Seq<u8>) -> bool {
    let u = unsigned_part(s);
    spells(u, word_inf()) || spells(u, word_infinity()) || spells(u, word_nan()) || is_number(u)
}

fn lower_byte(b: u8) -> (r: u8)
    ensures
        r == to_lower(b),
{
    if UPPER_A <= b && b <= UPPER_Z {
        b + 32
    } else {
        b
    }
}

/// Whether `s[lo..hi]` holds only decimal digits.
fn digits_only(s: &[u8], lo: usize, hi: usize) -> (r: bool)
    requires
        lo <= hi <= s@.len(),
    ensures
        r == all_digits(s@.subrange(lo as int, hi as int)),
{
    let mut i: usize = lo;
    while i < hi
        invariant
            lo <= i <= hi <= s@.len(),
            all_digits(s@.subrange(lo as int, i as int)),
        decreases hi - i,
    {
        if !(DIGIT_ZERO <= s[i] && s[i] <= DIGIT_NINE) {
            assert(s@.subrange(lo as int, hi as int)[i - lo] == s@[i as int]);
            return false;
        }
        assert(s@.subrange(lo as int, i + 1 as int) =~= s@.subrange(lo as int, i as int).push(s@[i as int]));
        i = i + 1;
    }
    true
}

/// The first index in `lo..hi` that holds `a` or `b`, or `hi` if none does.
fn find_either(s: &[u8], lo: usize, hi: usize, a: u8, b: u8) -> (r: usize)
    requires
        lo <= hi <= s@.len(),
    ensures
        lo <= r <= hi,
        r < hi ==> s@[r as int] == a || s@[r as int] == b,
        forall|j: int| lo <= j < r ==> s@[j] != a && s@[j] != b,
{
    let mut i: usize = lo;
    while i < hi
        invariant
            lo <= i <= hi <= s@.len(),
            forall|j: int| lo <= j < i ==> s@[j] != a && s@[j] != b,
        decreases hi - i,
    {
        if s[i] == a || s[i] == b {
            return i;
        }
        i = i + 1;
    }
    hi
}

/// Whether `s[lo..hi]` spells `word` without regard to case.
fn spells_at(s: &[u8], lo: usize, hi: usize, word: &[u8]) -> (r: bool)
    requires
        lo <= hi <= s@.len(),
    ensures
        r == spells(s@.subrange(lo as int, hi as int), word@),
{
    if hi - lo != word.len() {
        return false;
    }
    let mut i: usize = 0;
    while i < word.len()
        invariant
            lo <= hi <= s@.len(),
            hi - lo == word@.len(),
            i <= word@.len(),
            forall|j: int| 0 <= j < i ==> to_lower(s@[lo + j]) == word@[j],
        decreases word@.len() - i,
    {
        if lower_byte(s[lo + i]) != word[i] {
            assert(s@.subrange(lo as int, hi as int)[i as int] == s@[lo + i]);
            return false;
        }
        i = i + 1;
    }
    assert forall|j: int| 0 <= j < hi - lo implies to_lower(
        #[trigger] s@.subrange(lo as int, hi as int)[j],
    ) == word@[j] by {
        assert(s@.subrange(lo as int, hi as int)[j] == s@[lo + j]);
    }
    true
}

/// Whether `s[lo..hi]` is a mantissa.
fn mantissa_at(s: &[u8], lo: usize, hi: usize) -> (r: bool)
    requires
        lo <= hi <= s@.len(),
    ensures
        r == is_mantissa(s@.subrange(lo as int, hi as int)),
{
    let ghost m = s@.subrange(lo as int, hi as int);
    let d = find_either(s, lo, hi, DOT, DOT);
    if d == hi {
        let r = lo < hi && digits_only(s, lo, hi);
        assert forall|e: int| 0 <= e < m.len() implies m[e] != DOT by {
            assert(m[e] == s@[lo + e]);
        }
        return r;
    }
    let before = digits_only(s, lo, d);
    let after = digits_only(s, d + 1, hi);
    proof {
        let dd = d - lo;
        assert(m.take(dd) =~= s@.subrange(lo as int, d as int));
        assert(m.skip(dd + 1) =~= s@.subrange(d + 1, hi as int));
        assert(m[dd] == DOT);
        assert(!all_digits(m)) by {
            assert(!is_digit(m[dd]));
        }
        if is_mantissa(m) {
            let e = choose|e: int|
                0 <= e < m.len() && m[e] == DOT && all_digits(#[trigger] m.take(e)) && all_digits(
                    m.skip(e + 1),
                );
            if e > dd {
                assert(m.take(e)[dd] == DOT);
            }
            assert(e >= dd) by {
                if e < dd {
                    assert(m[e] == s@[lo + e]);
                }
            }
            assert(e == dd);
        }
    }
    hi - lo > 1 && before && after
}

/// Whether `s[lo..hi]` is an exponent.
fn exponent_at(s: &[u8], lo: usize, hi: usize) -> (r: bool)
    requires
        lo <= hi <= s@.len(),
    ensures
        r == is_exponent(s@.subrange(lo as int, hi as int)),
{
    let ghost m = s@.subrange(lo as int, hi as int);
    if hi - lo < 2 || lower_byte(s[lo]) != LOWER_E {
        return false;
    }
    assert(m[0] == s@[lo as int] && m[1] == s@[lo + 1]);
    if s[lo + 1] == PLUS || s[lo + 1] == MINUS {
        assert(m.skip(2) =~= s@.subrange(lo + 2, hi as int));
        hi - lo > 2 && digits_only(s, lo + 2, hi)
    } else {
        assert(m.skip(1) =~= s@.subrange(lo + 1, hi as int));
        digits_only(s, lo + 1, hi)
    }
}

/// Whether `s[lo..hi]` is a number: a mantissa, then perhaps an exponent.
fn number_at(s: &[u8], lo: usize, hi: usize) -> (r: bool)
    requires
        lo <= hi <= s@.len(),
    ensures
        r == is_number(s@.subrange(lo as int, hi as int)),
{
    let ghost m = s@.subrange(lo as int, hi as int);
    let k = find_either(s, lo, hi, LOWER_E, UPPER_E);
    let mant = mantissa_at(s, lo, k);
    let exp = k == hi || exponent_at(s, k, hi);
    proof {
        let kk = k - lo;
        assert(m.take(kk) =~= s@.subrange(lo as int, k as int));
        assert(m.skip(kk) =~= s@.subrange(k as int, hi as int));
        if mant && exp {
            assert(is_mantissa(m.take(kk)));
        }
        if is_number(m) {
            let j = choose|j: int|
                0 <= j <= m.len() && is_mantissa(#[trigger] m.take(j)) && (j == m.len()
                    || is_exponent(m.skip(j)));
            if j < kk {
                assert(m.skip(j)[0] == s@[lo + j]);
                assert(to_lower(s@[lo + j]) == LOWER_E);
            }
            if j > kk {
                let t = m.take(j);
                assert(t[kk] == s@[k as int]);
                assert(!is_digit(t[kk]) && t[kk] != DOT);
                if t.len() > 0 && all_digits(t) {
                    assert(is_digit(t[kk]));
                }
                let e = choose|e: int|
                    0 <= e < t.len() && t[e] == DOT && all_digits(#[trigger] t.take(e))
                        && all_digits(t.skip(e + 1));
                if kk < e {
                    assert(t.take(e)[kk] == t[kk]);
                } else {
                    assert(t.skip(e + 1)[kk - e - 1] == t[kk]);
                }
            }
            assert(j == kk);
        }
    }
    mant && exp
}

/// Whether `s` is a decimal floating-point literal.
pub fn is_float_literal_bytes(s: &[u8]) -> (r: bool)
    ensures
        r == is_float_literal(s@),
{
    let lo: usize = if s.len() > 0 && (s[0] == PLUS || s[0] == MINUS) {
        1
    } else {
        0
    };
    let hi = s.len();
    assert(unsigned_part(s@) =~= s@.subrange(lo as int, hi as int));
    let inf: Vec<u8> = vec![0x69u8, 0x6eu8, 0x66u8];
    let infinity: Vec<u8> = vec![0x69u8, 0x6eu8, 0x66u8, 0x69u8, 0x6eu8, 0x69u8, 0x74u8, 0x79u8];
    let nan: Vec<u8> = vec![0x6eu8, 0x61u8, 0x6eu8];
    assert(inf@ =~= word_inf());
    assert(infinity@ =~= word_infinity());
    assert(nan@ =~= word_nan());
    spells_at(s, lo, hi, inf.as_slice()) || spells_at(s, lo, hi, infinity.as_slice()) || spells_at(
        s,
        lo,
        hi,
        nan.as_slice(),
    ) || number_at(s, lo, hi)
}

} // verus!
