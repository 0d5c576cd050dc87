//! Attribute values of 3MF tags: vertex coordinate texts, triangle indices, object ids
//! and transforms.
//!
//! Numbers that 3MF writes as decimal floats are kept as their literal text; the library
//! decides which texts are numbers and the caller converts them.
use crate::floatlit::{float_literal_ok, is_float_literal};
use crate::text::{
    all_ascii, decode_utf8_chars, is_unicode_whitespace, is_whitespace_char, parse_unsigned,
    spec_parse_unsigned,
};
use crate::xml::{attr_named, attr_v, attrs_v, first_attr_value, AttrV, XmlAttr};
use vstd::prelude::*;
use vstd::utf8::{decode_utf8, valid_utf8};

verus! {

/// Coordinate texts of a `<vertex>`: for each axis the last `x`/`y`/`z` attribute whose
/// value is a float literal, or empty when there is none (the coordinate is then 0).
#[derive(Debug)]
pub struct VertexText {
    pub x: Vec<u8>,
    pub y: Vec<u8>,
    pub z: Vec<u8>,
}

/// The value of the last attribute named `local` whose value is a float literal.
pub open spec fn last_float_attr(attrs: Seq<AttrV>, local: Seq<u8>) -> Seq<u8>
    decreases attrs.len(),
{
    if attrs.len() == 0 {
        Seq::empty()
    } else if attr_named(attrs.last(), local) && is_float_literal(attrs.last().1) {
        attrs.last().1
    } else {
        last_float_attr(attrs.drop_last(), local)
    }
}

/// The value of `v1`/`v2`/`v3` as `str::parse::<u32>` reads it from the UTF-8 text.
pub open spec fn attr_u32(value: Seq<u8>) -> Option<nat> {
    if valid_utf8(value) {
        spec_parse_unsigned(decode_utf8(value), 10, u32::MAX as nat)
    } else {
        None
    }
}

/// The value of the last attribute named `local` that reads as a `u32`, or 0.
pub open spec fn last_u32_attr(attrs: Seq<AttrV>, local: Seq<u8>) -> u32
    decreases attrs.len(),
{
    if attrs.len() == 0 {
        0
    } else if attr_named(attrs.last(), local) && attr_u32(attrs.last().1) is Some {
        attr_u32(attrs.last().1)->0 as u32
    } else {
        last_u32_attr(attrs.drop_last(), local)
    }
}

pub(crate) fn copy_bytes(v: &Vec<u8>) -> (r: Vec<u8>)
    ensures
        r@ == v@,
{
    let mut r: Vec<u8> = Vec::new();
    let mut i: usize = 0;
    while i < v.len()
        invariant
            i <= v@.len(),
            r@ == v@.take(i as int),
        decreases v@.len() - i,
    {
        r.push(v[i]);
        i = i + 1;
        assert(r@ =~= v@.take(i as int));
    }
    assert(v@.take(i as int) =~= v@);
    r
}

fn is_named(a: &XmlAttr, local: &[u8]) -> (r: bool)
    ensures
        r == attr_named(attr_v(*a), local@),
{
    crate::xml::local_part_matches(&a.key, local)
}

proof fn lemma_axis_names_differ()
    ensures
        seq![120u8] != seq![121u8],
        seq![120u8] != seq![122u8],
        seq![121u8] != seq![122u8],
        seq![118u8, 49] != seq![118u8, 50],
        seq![118u8, 49] != seq![118u8, 51],
        seq![118u8, 50] != seq![118u8, 51],
{
    assert(seq![120u8][0] != seq![121u8][0]);
    assert(seq![120u8][0] != seq![122u8][0]);
    assert(seq![121u8][0] != seq![122u8][0]);
    assert(seq![118u8, 49][1] != seq![118u8, 50][1]);
    assert(seq![118u8, 49][1] != seq![118u8, 51][1]);
    assert(seq![118u8, 50][1] != seq![118u8, 51][1]);
}

/// The coordinate texts of a `<vertex>` tag (see [`VertexText`]).
pub fn parse_vertex(attrs: &[XmlAttr]) -> (v: VertexText)
    ensures
        v.x@ == last_float_attr(attrs_v(attrs@), seq![120u8]),
        v.y@ == last_float_attr(attrs_v(attrs@), seq![121u8]),
        v.z@ == last_float_attr(attrs_v(attrs@), seq![122u8]),
{
    let xs: [u8; 1] = [120];
    let ys: [u8; 1] = [121];
    let zs: [u8; 1] = [122];
    assert(xs@ =~= seq![120u8]);
    assert(ys@ =~= seq![121u8]);
    assert(zs@ =~= seq![122u8]);
    let mut v = VertexText { x: Vec::new(), y: Vec::new(), z: Vec::new() };
    let mut i: usize = 0;
    while i < attrs.len()
        invariant
            i <= attrs@.len(),
            xs@ == seq![120u8],
            ys@ == seq![121u8],
            zs@ == seq![122u8],
            v.x@ == last_float_attr(attrs_v(attrs@).take(i as int), seq![120u8]),
            v.y@ == last_float_attr(attrs_v(attrs@).take(i as int), seq![121u8]),
            v.z@ == last_float_attr(attrs_v(attrs@).take(i as int), seq![122u8]),
        decreases attrs@.len() - i,
    {
        let a = &attrs[i];
        assert(attrs_v(attrs@).take(i + 1).drop_last() =~= attrs_v(attrs@).take(i as int));
        assert(attrs_v(attrs@).take(i + 1).last() == attr_v(*a));
        proof {
            lemma_axis_names_differ();
        }
        if float_literal_ok(&a.value) {
            if is_named(a, &xs) {
                v.x = copy_bytes(&a.value);
            } else if is_named(a, &ys) {
                v.y = copy_bytes(&a.value);
            } else if is_named(a, &zs) {
                v.z = copy_bytes(&a.value);
            }
        }
        i = i + 1;
    }
    assert(attrs_v(attrs@).take(i as int) =~= attrs_v(attrs@));
    v
}

/// The vertex numbers of a `<triangle>` tag: the last `v1`, `v2` and `v3` attributes that
/// read as `u32` (0 where there is none).
pub fn parse_triangle(attrs: &[XmlAttr]) -> (t: [u32; 3])
    ensures
        t[0] == last_u32_attr(attrs_v(attrs@), seq![118u8, 49]),
        t[1] == last_u32_attr(attrs_v(attrs@), seq![118u8, 50]),
        t[2] == last_u32_attr(attrs_v(attrs@), seq![118u8, 51]),
{
    let n1: [u8; 2] = [118, 49];
    let n2: [u8; 2] = [118, 50];
    let n3: [u8; 2] = [118, 51];
    assert(n1@ =~= seq![118u8, 49]);
    assert(n2@ =~= seq![118u8, 50]);
    assert(n3@ =~= seq![118u8, 51]);
    let mut t: [u32; 3] = [0, 0, 0];
    let mut i: usize = 0;
    while i < attrs.len()
        invariant
            i <= attrs@.len(),
            n1@ == seq![118u8, 49],
            n2@ == seq![118u8, 50],
            n3@ == seq![118u8, 51],
            t[0] == last_u32_attr(attrs_v(attrs@).take(i as int), seq![118u8, 49]),
            t[1] == last_u32_attr(attrs_v(attrs@).take(i as int), seq![118u8, 50]),
            t[2] == last_u32_attr(attrs_v(attrs@).take(i as int), seq![118u8, 51]),
        decreases attrs@.len() - i,
    {
        let a = &attrs[i];
        assert(attrs_v(attrs@).take(i + 1).drop_last() =~= attrs_v(attrs@).take(i as int));
        assert(attrs_v(attrs@).take(i + 1).last() == attr_v(*a));
        proof {
            lemma_axis_names_differ();
        }
        let parsed = match decode_utf8_chars(a.value.as_slice()) {
            Some(cs) => parse_unsigned(&cs, 10, u32::MAX),
            None => None,
        };
        match parsed {
            Some(n) => {
                if is_named(a, &n1) {
                    t[0] = n;
                } else if is_named(a, &n2) {
                    t[1] = n;
                } else if is_named(a, &n3) {
                    t[2] = n;
                }
            },
            None => {},
        }
        i = i + 1;
    }
    assert(attrs_v(attrs@).take(i as int) =~= attrs_v(attrs@));
    t
}

/// The value of an attribute as `str::parse::<u32>` reads it, when the attribute exists and
/// reads.
pub open spec fn spec_attr_u32(attrs: Seq<AttrV>, local: Seq<u8>) -> Option<u32> {
    match first_attr_value(attrs, local) {
        Some(v) => match attr_u32(v) {
            Some(n) => Some(n as u32),
            None => None,
        },
        None => None,
    }
}

/// `get_attr(..).and_then(|v| v.parse::<u32>().ok())`.
pub fn get_attr_u32(attrs: &[XmlAttr], local: &[u8]) -> (r: Option<u32>)
    ensures
        r == spec_attr_u32(attrs_v(attrs@), local@),
{
    match crate::xml::find_attr(attrs, local) {
        Some(v) => match decode_utf8_chars(v.as_slice()) {
            Some(cs) => parse_unsigned(&cs, 10, u32::MAX),
            None => None,
        },
        None => None,
    }
}



/// `str::split_whitespace`: the maximal runs of non-whitespace characters.
pub open spec fn split_whitespace(cs: Seq<char>) -> Seq<Seq<char>>
    decreases cs.len(),
{
    if cs.len() == 0 {
        Seq::empty()
    } else {
        let prev = split_whitespace(cs.drop_last());
        let c = cs.last();
        if is_unicode_whitespace(c) {
            prev
        } else if cs.len() >= 2 && !is_unicode_whitespace(cs[cs.len() - 2]) {
            prev.drop_last().push(prev.last().push(c))
        } else {
            prev.push(seq![c])
        }
    }
}

/// A token `f32::from_str` accepts: ASCII text matching the float grammar.
pub open spec fn float_token(t: Seq<char>) -> bool {
    all_ascii(t) && is_float_literal(t.map_values(|c: char| c as u8))
}

/// The 12 number tokens of a 3MF transform (`m00 m01 m02 m10 ... m22 tx ty tz`): the
/// whitespace-separated tokens that are float literals, when there are exactly 12 of them.
pub open spec fn spec_transform_tokens(cs: Seq<char>) -> Option<Seq<Seq<char>>> {
    let toks = split_whitespace(cs).filter(|t: Seq<char>| float_token(t));
    if toks.len() == 12 {
        Some(toks)
    } else {
        None
    }
}

/// The transform of a component or build item, as number texts: the 12 tokens of its
/// `transform` attribute (see [`spec_transform_tokens`]), or none for the identity.
pub open spec fn spec_attr_transform(attrs: Seq<AttrV>) -> Seq<Seq<u8>> {
    match first_attr_value(attrs, "transform"@.map_values(|c: char| c as u8)) {
        Some(v) => if valid_utf8(v) {
            match spec_transform_tokens(decode_utf8(v)) {
                Some(toks) => toks.map_values(|t: Seq<char>| t.map_values(|c: char| c as u8)),
                None => Seq::empty(),
            }
        } else {
            Seq::empty()
        },
        None => Seq::empty(),
    }
}

fn token_is_float(t: &[char]) -> (r: bool)
    ensures
        r == float_token(t@),
{
    let mut b: Vec<u8> = Vec::new();
    let mut i: usize = 0;
    while i < t.len()
        invariant
            i <= t@.len(),
            all_ascii(t@.take(i as int)),
            b@ == t@.take(i as int).map_values(|c: char| c as u8),
        decreases t@.len() - i,
    {
        let c = t[i];
        if (c as u32) >= 128 {
            assert(!all_ascii(t@));
            return false;
        }
        b.push(c as u8);
        i = i + 1;
        assert(b@ =~= t@.take(i as int).map_values(|c: char| c as u8));
    }
    assert(t@.take(i as int) =~= t@);
    float_literal_ok(&b)
}

fn to_ascii_bytes(t: &[char]) -> (b: Vec<u8>)
    ensures
        b@ == t@.map_values(|c: char| c as u8),
{
    let mut b: Vec<u8> = Vec::new();
    let mut i: usize = 0;
    while i < t.len()
        invariant
            i <= t@.len(),
            b@ == t@.take(i as int).map_values(|c: char| c as u8),
        decreases t@.len() - i,
    {
        b.push(t[i] as u8);
        i = i + 1;
        assert(b@ =~= t@.take(i as int).map_values(|c: char| c as u8));
    }
    assert(t@.take(i as int) =~= t@);
    b
}

/// Split text at Unicode whitespace (see [`split_whitespace`]).
pub fn split_whitespace_exec(cs: &[char]) -> (r: Vec<Vec<char>>)
    ensures
        r@.map_values(|t: Vec<char>| t@) == split_whitespace(cs@),
{
    let mut r: Vec<Vec<char>> = Vec::new();
    let mut i: usize = 0;
    let mut in_token = false;
    while i < cs.len()
        invariant
            i <= cs@.len(),
            r@.map_values(|t: Vec<char>| t@) == split_whitespace(cs@.take(i as int)),
            in_token == (i > 0 && !is_unicode_whitespace(cs@[i - 1])),
            in_token ==> r@.len() > 0,
        decreases cs@.len() - i,
    {
        let c = cs[i];
        let ghost prev = r@.map_values(|t: Vec<char>| t@);
        assert(cs@.take(i + 1).drop_last() =~= cs@.take(i as int));
        assert(cs@.take(i + 1).last() == c);
        if is_whitespace_char(c) {
            in_token = false;
        } else if in_token {
            let last = r.len() - 1;
            let mut t = r.remove(last);
            t.push(c);
            r.push(t);
            assert(cs@.take(i + 1)[i - 1] == cs@[i - 1]);
            assert(r@.map_values(|t: Vec<char>| t@) =~= prev.drop_last().push(prev.last().push(c)));
        } else {
            let mut t: Vec<char> = Vec::new();
            t.push(c);
            r.push(t);
            proof {
                if i >= 1 {
                    assert(cs@.take(i + 1)[i - 1] == cs@[i - 1]);
                }
            }
            assert(r@.map_values(|t: Vec<char>| t@) =~= prev.push(seq![c]));
            in_token = true;
        }
        i = i + 1;
    }
    assert(cs@.take(i as int) =~= cs@);
    r
}

/// The 12 number tokens of transform text, or `None` (see [`spec_transform_tokens`]).
pub fn transform_tokens(cs: &[char]) -> (r: Option<Vec<Vec<char>>>)
    ensures
        match r {
            Some(t) => spec_transform_tokens(cs@) == Some(t@.map_values(|x: Vec<char>| x@)),
            None => spec_transform_tokens(cs@) is None,
        },
{
    let toks = split_whitespace_exec(cs);
    let ghost all = toks@.map_values(|t: Vec<char>| t@);
    let mut kept: Vec<Vec<char>> = Vec::new();
    let mut i: usize = 0;
    let n = toks.len();
    let mut rest = toks;
    while i < n
        invariant
            i <= all.len(),
            n == all.len(),
            rest@.map_values(|t: Vec<char>| t@) == all.skip(i as int),
            kept@.map_values(|t: Vec<char>| t@) == all.take(i as int).filter(
                |t: Seq<char>| float_token(t),
            ),
        decreases n - i,
    {
        assert(rest@.map_values(|t: Vec<char>| t@).len() == rest@.len());
        assert(rest@.map_values(|t: Vec<char>| t@)[0] == rest@[0]@);
        let ghost old_rest = rest@;
        let t = rest.remove(0);
        assert(rest@ =~= old_rest.drop_first());
        assert(t@ == all[i as int]);
        assert(all.take(i + 1).drop_last() =~= all.take(i as int));
        let ghost before = kept@.map_values(|t: Vec<char>| t@);
        if token_is_float(&t) {
            kept.push(t);
            assert(kept@.map_values(|t: Vec<char>| t@) =~= before.push(all[i as int]));
        }
        assert forall|k: int| 0 <= k < rest@.len() implies #[trigger] rest@[k]@ == all[i + 1 + k] by {
            assert(old_rest.map_values(|t: Vec<char>| t@)[k + 1] == old_rest[k + 1]@);
            assert(all.skip(i as int)[k + 1] == all[i + 1 + k]);
        }
        assert(rest@.map_values(|t: Vec<char>| t@) =~= all.skip(i + 1));
        i = i + 1;
        assert(all.take(i as int).drop_last() =~= all.take(i - 1));
        assert(all.take(i as int).last() == all[i - 1]);
        proof {
            reveal_with_fuel(Seq::filter, 1);
        }
    }
    assert(all.take(i as int) =~= all);
    if kept.len() == 12 {
        Some(kept)
    } else {
        None
    }
}

/// The transform of a tag as number texts (see [`spec_attr_transform`]).
pub fn attr_transform(attrs: &[XmlAttr]) -> (r: Vec<Vec<u8>>)
    ensures
        r@.map_values(|t: Vec<u8>| t@) == spec_attr_transform(attrs_v(attrs@)),
{
    let name: [u8; 9] = [116, 114, 97, 110, 115, 102, 111, 114, 109];
    proof {
        reveal_strlit("transform");
        assert(name@ =~= "transform"@.map_values(|c: char| c as u8));
    }
    let mut out: Vec<Vec<u8>> = Vec::new();
    match crate::xml::find_attr(attrs, &name) {
        Some(v) => match decode_utf8_chars(v.as_slice()) {
            Some(cs) => match transform_tokens(&cs) {
                Some(toks) => {
                    let ghost tv = toks@.map_values(|x: Vec<char>| x@);
                    let mut i: usize = 0;
                    while i < toks.len()
                        invariant
                            i <= toks@.len(),
                            tv == toks@.map_values(|x: Vec<char>| x@),
                            out@.map_values(|t: Vec<u8>| t@) == tv.take(i as int).map_values(
                                |t: Seq<char>| t.map_values(|c: char| c as u8),
                            ),
                        decreases toks@.len() - i,
                    {
                        let b = to_ascii_bytes(&toks[i]);
                        assert(tv[i as int] == toks@[i as int]@);
                        let ghost before = out@.map_values(|t: Vec<u8>| t@);
                        out.push(b);
                        assert(out@.map_values(|t: Vec<u8>| t@) =~= before.push(b@));
                        i = i + 1;
                        assert(out@.map_values(|t: Vec<u8>| t@) =~= tv.take(i as int).map_values(
                            |t: Seq<char>| t.map_values(|c: char| c as u8),
                        ));
                    }
                    assert(tv.take(i as int) =~= tv);
                },
                None => {},
            },
            None => {},
        },
        None => {},
    }
    assert(out@.map_values(|t: Vec<u8>| t@) =~= spec_attr_transform(attrs_v(attrs@)));
    out
}

} // verus!
