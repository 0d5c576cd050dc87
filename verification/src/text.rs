//! Character-level helpers: UTF-8 conversion, Unicode case mapping and whitespace,
//! decimal and hexadecimal integers.
use vstd::prelude::*;
use vstd::utf8::{decode_utf8, valid_utf8};

verus! {

/// The characters of `s`, in order.
pub fn chars_of(s: &str) -> (v: Vec<char>)
    ensures
        v@ == s@,
{
    let mut v: Vec<char> = Vec::new();
    for c in it: s.chars()
        invariant
            v@ == it.seq().take(it.index() as int),
    {
        v.push(c);
    }
    assert(v@ =~= s@);
    v
}

/// `str::from_utf8` followed by collecting the characters. Trusted, as the std
/// documentation states: the bytes are accepted exactly when they are valid UTF-8, and
/// then the characters are their decoding.
#[verifier::external_body]
pub(crate) fn decode_utf8_chars(bytes: &[u8]) -> (res: Option<Vec<char>>)
    ensures
        match res {
            Some(v) => valid_utf8(bytes@) && v@ == decode_utf8(bytes@),
            None => !valid_utf8(bytes@),
        },
{
    std::str::from_utf8(bytes).ok().map(|s| s.chars().collect())
}

/// Collecting characters into a `String` (`FromIterator<char>`). Trusted: the string
/// holds exactly these characters.
#[verifier::external_body]
pub(crate) fn string_from_chars(cs: &[char]) -> (s: String)
    ensures
        s@ == cs@,
{
    cs.iter().collect()
}

/// The full Unicode lowercase mapping of a character sequence, as `str::to_lowercase`
/// computes it.
pub uninterp spec fn lowercase_chars(cs: Seq<char>) -> Seq<char>;

/// ASCII lowercase of one character.
pub open spec fn ascii_lower(c: char) -> char {
    if 'A' <= c <= 'Z' {
        ((c as u32) + 32) as char
    } else {
        c
    }
}

/// True when every character is ASCII.
pub open spec fn all_ascii(cs: Seq<char>) -> bool {
    forall|i: int| 0 <= i < cs.len() ==> (cs[i] as u32) < 128
}

/// `str::to_lowercase`. Trusted: the result is [`lowercase_chars`] of the input, and, as the
/// documentation's Unicode `Lowercase` mapping gives for ASCII, an ASCII input is mapped
/// character by character to its ASCII lowercase.
#[verifier::external_body]
pub(crate) fn to_lowercase(cs: &[char]) -> (res: Vec<char>)
    ensures
        res@ == lowercase_chars(cs@),
        all_ascii(cs@) ==> res@ == cs@.map_values(|c: char| ascii_lower(c)),
{
    cs.iter().collect::<String>().to_lowercase().chars().collect()
}

/// `char::eq_ignore_ascii_case` on two characters.
pub open spec fn char_eq_ignore_ascii_case(a: char, b: char) -> bool {
    ascii_lower(a) == ascii_lower(b)
}

/// `str::eq_ignore_ascii_case`: same length and pairwise equal up to ASCII case.
pub open spec fn eq_ignore_ascii_case(a: Seq<char>, b: Seq<char>) -> bool {
    a.len() == b.len() && forall|i: int| 0 <= i < a.len() ==> char_eq_ignore_ascii_case(a[i], b[i])
}

fn ascii_lower_exec(c: char) -> (r: char)
    ensures
        r == ascii_lower(c),
{
    if 'A' <= c && c <= 'Z' {
        let u = (c as u32) + 32;
        assert(u < 0xD800);
        char_from_ascii_code(u)
    } else {
        c
    }
}

fn char_from_ascii_code(u: u32) -> (c: char)
    requires
        u < 128,
    ensures
        c == u as char,
{
    let b = u as u8;
    b as char
}

/// ASCII case-insensitive equality of two character sequences.
pub fn chars_eq_ignore_ascii_case(a: &[char], b: &[char]) -> (r: bool)
    ensures
        r == eq_ignore_ascii_case(a@, b@),
{
    if a.len() != b.len() {
        return false;
    }
    let mut i: usize = 0;
    while i < a.len()
        invariant
            i <= a@.len(),
            a@.len() == b@.len(),
            forall|j: int| 0 <= j < i ==> char_eq_ignore_ascii_case(a@[j], b@[j]),
        decreases a@.len() - i,
    {
        if ascii_lower_exec(a[i]) != ascii_lower_exec(b[i]) {
            return false;
        }
        i = i + 1;
    }
    true
}

/// Exact equality of two character sequences.
pub fn chars_eq(a: &[char], b: &[char]) -> (r: bool)
    ensures
        r == (a@ == b@),
{
    if a.len() != b.len() {
        return false;
    }
    let mut i: usize = 0;
    while i < a.len()
        invariant
            i <= a@.len(),
            a@.len() == b@.len(),
            forall|j: int| 0 <= j < i ==> a@[j] == b@[j],
        decreases a@.len() - i,
    {
        if a[i] != b[i] {
            return false;
        }
        i = i + 1;
    }
    assert(a@ =~= b@);
    true
}

/// Exact equality of two byte sequences.
pub fn bytes_eq(a: &[u8], b: &[u8]) -> (r: bool)
    ensures
        r == (a@ == b@),
{
    if a.len() != b.len() {
        return false;
    }
    let mut i: usize = 0;
    while i < a.len()
        invariant
            i <= a@.len(),
            a@.len() == b@.len(),
            forall|j: int| 0 <= j < i ==> a@[j] == b@[j],
        decreases a@.len() - i,
    {
        if a[i] != b[i] {
            return false;
        }
        i = i + 1;
    }
    assert(a@ =~= b@);
    true
}

/// `char::is_whitespace`: the Unicode `White_Space` property.
pub open spec fn is_unicode_whitespace(c: char) -> bool {
    let u = c as u32;
    (0x09 <= u <= 0x0D) || u == 0x20 || u == 0x85 || u == 0xA0 || u == 0x1680 || (0x2000 <= u
        <= 0x200A) || u == 0x2028 || u == 0x2029 || u == 0x202F || u == 0x205F || u == 0x3000
}

/// Whether `c` is Unicode white space (see [`is_unicode_whitespace`]).
pub fn is_whitespace_char(c: char) -> (r: bool)
    ensures
        r == is_unicode_whitespace(c),
{
    let u = c as u32;
    (0x09 <= u && u <= 0x0D) || u == 0x20 || u == 0x85 || u == 0xA0 || u == 0x1680 || (0x2000
        <= u && u <= 0x200A) || u == 0x2028 || u == 0x2029 || u == 0x202F || u == 0x205F || u
        == 0x3000
}

/// Value of an ASCII decimal digit.
pub open spec fn decimal_digit(c: char) -> Option<nat> {
    if '0' <= c <= '9' {
        Some(((c as u32) - 48) as nat)
    } else {
        None
    }
}

/// Value of an ASCII hexadecimal digit (either case).
pub open spec fn hex_digit(c: char) -> Option<nat> {
    if '0' <= c <= '9' {
        Some(((c as u32) - 48) as nat)
    } else if 'a' <= c <= 'f' {
        Some(((c as u32) - 87) as nat)
    } else if 'A' <= c <= 'F' {
        Some(((c as u32) - 55) as nat)
    } else {
        None
    }
}

/// Value of a digit in base `radix` (10 or 16).
pub open spec fn radix_digit(c: char, radix: nat) -> Option<nat> {
    if radix == 16 {
        hex_digit(c)
    } else {
        decimal_digit(c)
    }
}

/// Value of a digit string in base `radix`, or `None` if some character is not a digit.
pub open spec fn digits_value(cs: Seq<char>, radix: nat) -> Option<nat>
    decreases cs.len(),
{
    if cs.len() == 0 {
        Some(0)
    } else {
        match (digits_value(cs.drop_last(), radix), radix_digit(cs.last(), radix)) {
            (Some(v), Some(d)) => Some(v * radix + d),
            _ => None,
        }
    }
}

/// `from_str_radix` for an unsigned type whose largest value is `max`: an optional `+`
/// then at least one digit, with a value that fits.
pub open spec fn spec_parse_unsigned(cs: Seq<char>, radix: nat, max: nat) -> Option<nat> {
    let body = if cs.len() > 0 && cs[0] == '+' {
        cs.drop_first()
    } else {
        cs
    };
    if body.len() == 0 {
        None
    } else {
        match digits_value(body, radix) {
            Some(v) => if v <= max {
                Some(v)
            } else {
                None
            },
            None => None,
        }
    }
}

proof fn lemma_digits_value_monotone(cs: Seq<char>, radix: nat, k: int)
    requires
        radix >= 2,
        0 <= k <= cs.len(),
        digits_value(cs, radix) is Some,
    ensures
        digits_value(cs.take(k), radix) is Some,
        digits_value(cs.take(k), radix)->0 <= digits_value(cs, radix)->0,
    decreases cs.len(),
{
    if k < cs.len() {
        assert(cs.drop_last().take(k) =~= cs.take(k));
        lemma_digits_value_monotone(cs.drop_last(), radix, k);
        let v = digits_value(cs.drop_last(), radix)->0;
        let d = radix_digit(cs.last(), radix)->0;
        assert(v <= v * radix + d) by (nonlinear_arith)
            requires
                radix >= 2,
        ;
    } else {
        assert(cs.take(k) =~= cs);
    }
}

proof fn lemma_non_digit_stops(body: Seq<char>, radix: nat, k: int)
    requires
        radix == 10 || radix == 16,
        0 <= k < body.len(),
        radix_digit(body[k], radix) is None,
    ensures
        digits_value(body, radix) is None,
{
    if digits_value(body, radix) is Some {
        lemma_digits_value_monotone(body, radix, k + 1);
        assert(body.take(k + 1).drop_last() =~= body.take(k));
        assert(body.take(k + 1).last() == body[k]);
    }
}

/// Parse an unsigned integer in base 10 or 16 whose largest value is `max`, as
/// `u32::from_str_radix` / `u8::from_str_radix` do.
pub fn parse_unsigned(cs: &[char], radix: u32, max: u32) -> (r: Option<u32>)
    requires
        radix == 10 || radix == 16,
        max >= 15,
    ensures
        match r {
            Some(v) => spec_parse_unsigned(cs@, radix as nat, max as nat) == Some(v as nat),
            None => spec_parse_unsigned(cs@, radix as nat, max as nat) is None,
        },
{
    let start: usize = if cs.len() > 0 && cs[0] == '+' {
        1
    } else {
        0
    };
    let ghost body = if cs@.len() > 0 && cs@[0] == '+' {
        cs@.drop_first()
    } else {
        cs@
    };
    assert(body =~= cs@.subrange(start as int, cs@.len() as int));
    if start >= cs.len() {
        return None;
    }
    let mut value: u32 = 0;
    let mut i: usize = start;
    while i < cs.len()
        invariant
            start <= i <= cs@.len(),
            radix == 10 || radix == 16,
            body == cs@.subrange(start as int, cs@.len() as int),
            body == (if cs@.len() > 0 && cs@[0] == '+' {
                cs@.drop_first()
            } else {
                cs@
            }),
            digits_value(cs@.subrange(start as int, i as int), radix as nat) == Some(value as nat),
            value <= max,
            max >= 15,
        decreases cs@.len() - i,
    {
        let c = cs[i];
        let d: u32 = if radix == 16 {
            if '0' <= c && c <= '9' {
                (c as u32) - 48
            } else if 'a' <= c && c <= 'f' {
                (c as u32) - 87
            } else if 'A' <= c && c <= 'F' {
                (c as u32) - 55
            } else {
                proof {
                    lemma_non_digit_stops(body, radix as nat, (i - start) as int);
                }
                return None;
            }
        } else {
            if '0' <= c && c <= '9' {
                (c as u32) - 48
            } else {
                proof {
                    lemma_non_digit_stops(body, radix as nat, (i - start) as int);
                }
                return None;
            }
        };
        assert(cs@.subrange(start as int, i + 1).drop_last() =~= cs@.subrange(
            start as int,
            i as int,
        ));
        assert(digits_value(cs@.subrange(start as int, i + 1), radix as nat) == Some(
            (value as nat) * (radix as nat) + (d as nat),
        ));
        let limit = (max - d) / radix;
        if value > limit {
            proof {
                assert((value as nat) * (radix as nat) + (d as nat) > max) by (nonlinear_arith)
                    requires
                        value > limit,
                        limit as int == (max - d) as int / radix as int,
                        radix >= 10,
                        d <= max,
                ;
                if digits_value(body, radix as nat) is Some {
                    lemma_digits_value_monotone(body, radix as nat, i + 1 - start);
                    assert(body.take(i + 1 - start) =~= cs@.subrange(start as int, i + 1));
                }
            }
            return None;
        }
        proof {
            assert((value as nat) * (radix as nat) + (d as nat) <= max) by (nonlinear_arith)
                requires
                    value <= limit,
                    limit as int == (max - d) as int / radix as int,
                    radix >= 10,
                    d <= max,
            ;
        }
        value = value * radix + d;
        i = i + 1;
    }
    assert(cs@.subrange(start as int, cs@.len() as int) =~= body);
    Some(value)
}

/// The ASCII bytes of the decimal digits of `n` (no sign, no leading zeros; `0` for zero).
pub open spec fn decimal_bytes(n: nat) -> Seq<u8>
    decreases n,
{
    if n < 10 {
        seq![(n + 48) as u8]
    } else {
        decimal_bytes(n / 10) + seq![((n % 10) + 48) as u8]
    }
}

/// Append the ASCII decimal digits of `n` to `buf`.
pub fn push_decimal(buf: &mut Vec<u8>, n: u32)
    ensures
        final(buf)@ == old(buf)@ + decimal_bytes(n as nat),
    decreases n,
{
    if n < 10 {
        buf.push((n + 48) as u8);
    } else {
        push_decimal(buf, n / 10);
        buf.push(((n % 10) + 48) as u8);
    }
    assert(final(buf)@ =~= old(buf)@ + decimal_bytes(n as nat));
}

} // verus!
