//! Which strings `f32::from_str` accepts.
//!
//! The standard library documents the accepted strings by this grammar, applied to the
//! lowercased input (no surrounding whitespace):
//!
//! ```text
//! Float  ::= Sign? ( 'inf' | 'infinity' | 'nan' | Number )
//! Number ::= ( Digit+ | Digit+ '.' Digit* | Digit* '.' Digit+ ) Exp?
//! Exp    ::= 'e' Sign? Digit+
//! Sign   ::= [+-]
//! Digit  ::= [0-9]
//! ```
//!
//! The library decides here which texts denote numbers; turning such a text into a value
//! is left to the caller.
use vstd::prelude::*;

verus! {

pub open spec fn is_digit(b: u8) -> bool {
    48 <= b <= 57
}

pub open spec fn is_sign(b: u8) -> bool {
    b == 43 || b == 45
}

pub open spec fn all_digits(s: Seq<u8>) -> bool {
    forall|i: int| 0 <= i < s.len() ==> is_digit(s[i])
}

/// ASCII lowercase of a byte.
pub open spec fn lower_byte(b: u8) -> u8 {
    if 65 <= b <= 90 {
        (b + 32) as u8
    } else {
        b
    }
}

/// `s` equals the lowercase ASCII word `w` up to ASCII case.
pub open spec fn matches_word(s: Seq<u8>, w: Seq<u8>) -> bool {
    s.len() == w.len() && forall|i: int| 0 <= i < s.len() ==> lower_byte(s[i]) == w[i]
}

/// `Digit+ | Digit+ '.' Digit* | Digit* '.' Digit+`.
pub open spec fn mantissa_ok(m: Seq<u8>) -> bool {
    if exists|p: int| 0 <= p < m.len() && m[p] == 46 {
        exists|p: int|
            0 <= p < m.len() && m[p] == 46 && all_digits(m.take(p)) && all_digits(m.skip(p + 1))
                && m.len() >= 2
    } else {
        m.len() > 0 && all_digits(m)
    }
}

/// `Sign? Digit+`, the part after the exponent marker.
pub open spec fn exponent_ok(x: Seq<u8>) -> bool {
    let d = if x.len() > 0 && is_sign(x[0]) {
        x.drop_first()
    } else {
        x
    };
    d.len() > 0 && all_digits(d)
}

/// `Number` of the grammar: a mantissa, optionally followed by `e`/`E` and an exponent.
pub open spec fn number_ok(b: Seq<u8>) -> bool {
    if exists|p: int| 0 <= p < b.len() && lower_byte(b[p]) == 101 {
        exists|p: int|
            0 <= p < b.len() && lower_byte(b[p]) == 101 && (forall|j: int|
                0 <= j < p ==> lower_byte(b[j]) != 101) && mantissa_ok(b.take(p)) && exponent_ok(
                b.skip(p + 1),
            )
    } else {
        mantissa_ok(b)
    }
}

/// True exactly when `f32::from_str` accepts the UTF-8 text `b`.
pub open spec fn is_float_literal(b: Seq<u8>) -> bool {
    let body = if b.len() > 0 && is_sign(b[0]) {
        b.drop_first()
    } else {
        b
    };
    matches_word(body, seq![105u8, 110, 102]) || matches_word(
        body,
        seq![105u8, 110, 102, 105, 110, 105, 116, 121],
    ) || matches_word(body, seq![110u8, 97, 110]) || number_ok(body)
}

fn all_digits_in(s: &[u8], lo: usize, hi: usize) -> (r: bool)
    requires
        lo <= hi <= s@.len(),
    ensures
        r == all_digits(s@.subrange(lo as int, hi as int)),
{
    let mut i = lo;
    while i < hi
        invariant
            lo <= i <= hi,
            hi <= s@.len(),
            forall|j: int| lo <= j < i ==> is_digit(s@[j]),
        decreases hi - i,
    {
        if !(48 <= s[i] && s[i] <= 57) {
            assert(!is_digit(s@.subrange(lo as int, hi as int)[i - lo]));
            return false;
        }
        i = i + 1;
    }
    true
}

fn matches_word_in(s: &[u8], lo: usize, w: &[u8]) -> (r: bool)
    requires
        lo <= s@.len(),
    ensures
        r == matches_word(s@.skip(lo as int), w@),
{
    let n = s.len();
    if n - lo != w.len() {
        return false;
    }
    let mut i: usize = 0;
    while i < w.len()
        invariant
            i <= w@.len(),
            n == s@.len(),
            lo + w@.len() == s@.len(),
            forall|j: int| 0 <= j < i ==> lower_byte(s@[lo + j]) == w@[j],
        decreases w@.len() - i,
    {
        let b = s[lo + i];
        let lb = if 65 <= b && b <= 90 {
            b + 32
        } else {
            b
        };
        if lb != w[i] {
            return false;
        }
        i = i + 1;
    }
    true
}

fn mantissa_ok_in(s: &[u8], lo: usize, hi: usize) -> (r: bool)
    requires
        lo <= hi <= s@.len(),
    ensures
        r == mantissa_ok(s@.subrange(lo as int, hi as int)),
{
    let ghost m = s@.subrange(lo as int, hi as int);
    let mut i = lo;
    while i < hi
        invariant
            lo <= i <= hi,
            hi <= s@.len(),
            m == s@.subrange(lo as int, hi as int),
            forall|j: int| lo <= j < i ==> s@[j] != 46,
        decreases hi - i,
    {
        if s[i] == 46 {
            let a = all_digits_in(s, lo, i);
            let b = all_digits_in(s, i + 1, hi);
            proof {
                let p = i - lo;
                assert(m.take(p) =~= s@.subrange(lo as int, i as int));
                assert(m.skip(p + 1) =~= s@.subrange(i + 1, hi as int));
                assert(m[p] == 46);
                if exists|q: int|
                    0 <= q < m.len() && m[q] == 46 && all_digits(m.take(q)) && all_digits(
                        m.skip(q + 1),
                    ) && m.len() >= 2 {
                    let q = choose|q: int|
                        0 <= q < m.len() && m[q] == 46 && all_digits(m.take(q)) && all_digits(
                            m.skip(q + 1),
                        ) && m.len() >= 2;
                    if q > p {
                        assert(m.take(q)[p] == 46);
                    } else if q < p {
                        assert(m.skip(q + 1)[p - q - 1] == 46);
                    }
                }
            }
            return a && b && hi - lo >= 2;
        }
        i = i + 1;
    }
    let d = all_digits_in(s, lo, hi);
    d && hi > lo
}

fn exponent_ok_in(s: &[u8], lo: usize) -> (r: bool)
    requires
        lo <= s@.len(),
    ensures
        r == exponent_ok(s@.skip(lo as int)),
{
    let ghost x = s@.skip(lo as int);
    let start = if lo < s.len() && (s[lo] == 43 || s[lo] == 45) {
        lo + 1
    } else {
        lo
    };
    let r = all_digits_in(s, start, s.len());
    proof {
        let d = if x.len() > 0 && is_sign(x[0]) {
            x.drop_first()
        } else {
            x
        };
        assert(d =~= s@.subrange(start as int, s@.len() as int));
    }
    r && start < s.len()
}

fn number_ok_in(s: &[u8], lo: usize) -> (r: bool)
    requires
        lo <= s@.len(),
    ensures
        r == number_ok(s@.skip(lo as int)),
{
    let ghost b = s@.skip(lo as int);
    let mut i = lo;
    while i < s.len()
        invariant
            lo <= i <= s@.len(),
            b == s@.skip(lo as int),
            forall|j: int| lo <= j < i ==> lower_byte(s@[j]) != 101,
        decreases s@.len() - i,
    {
        if s[i] == 101 || s[i] == 69 {
            let m = mantissa_ok_in(s, lo, i);
            let x = exponent_ok_in(s, i + 1);
            proof {
                let p = i - lo;
                assert(b.take(p) =~= s@.subrange(lo as int, i as int));
                assert(b.skip(p + 1) =~= s@.skip(i + 1));
                assert(lower_byte(b[p]) == 101);
                if exists|q: int|
                    0 <= q < b.len() && lower_byte(b[q]) == 101 && (forall|j: int|
                        0 <= j < q ==> lower_byte(b[j]) != 101) && mantissa_ok(b.take(q))
                        && exponent_ok(b.skip(q + 1)) {
                    let q = choose|q: int|
                        0 <= q < b.len() && lower_byte(b[q]) == 101 && (forall|j: int|
                            0 <= j < q ==> lower_byte(b[j]) != 101) && mantissa_ok(b.take(q))
                            && exponent_ok(b.skip(q + 1));
                    if q > p {
                        assert(lower_byte(b[p]) != 101);
                    } else if q < p {
                        assert(lower_byte(b[q]) == 101);
                        assert(lower_byte(s@[lo + q]) == 101);
                    }
                }
            }
            return m && x;
        }
        i = i + 1;
    }
    let r = mantissa_ok_in(s, lo, s.len());
    assert(s@.subrange(lo as int, s@.len() as int) =~= b);
    r
}

/// Decide whether `f32::from_str` accepts the UTF-8 text `b` (see the module grammar).
pub fn float_literal_ok(b: &[u8]) -> (r: bool)
    ensures
        r == is_float_literal(b@),
{
    let lo: usize = if b.len() > 0 && (b[0] == 43 || b[0] == 45) {
        1
    } else {
        0
    };
    let ghost body = if b@.len() > 0 && is_sign(b@[0]) {
        b@.drop_first()
    } else {
        b@
    };
    assert(body =~= b@.skip(lo as int));
    let inf: [u8; 3] = [105, 110, 102];
    let infinity: [u8; 8] = [105, 110, 102, 105, 110, 105, 116, 121];
    let nan: [u8; 3] = [110, 97, 110];
    let r1 = matches_word_in(b, lo, &inf);
    let r2 = matches_word_in(b, lo, &infinity);
    let r3 = matches_word_in(b, lo, &nan);
    let r4 = number_ok_in(b, lo);
    assert(inf@ =~= seq![105u8, 110, 102]);
    assert(infinity@ =~= seq![105u8, 110, 102, 105, 110, 105, 116, 121]);
    assert(nan@ =~= seq![110u8, 97, 110]);
    r1 || r2 || r3 || r4
}

} // verus!
