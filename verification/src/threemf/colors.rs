//! Colours of a 3MF package: `#RRGGBB` text, the filament colours of Bambu/Prusa project
//! settings, and the colour of an extruder. Colours are kept as sRGB bytes; conversion to
//! linear light is left to the caller.
use crate::text::{parse_unsigned, spec_parse_unsigned};
use vstd::prelude::*;

verus! {

/// A vertex colour: the fallback colour, or an sRGB colour given by its three bytes.
#[derive(Debug, Clone, Copy, PartialEq, Eq, Structural)]
pub enum Rgb {
    Default,
    Srgb(u8, u8, u8),
}

/// How `#RRGGBB` colour text reads.
#[derive(Debug, Clone, Copy, PartialEq, Eq, Structural)]
pub enum HexColor {
    Color(u8, u8, u8),
    NotAColor,
    /// Byte offset 2, 4 or 6 of the text after `#` falls inside a multi-byte character, so
    /// that the two-digit fields cannot be cut out of it.
    Unsliceable,
}

/// Byte offset `k` of UTF-8 text `b` is a character boundary.
pub open spec fn is_boundary(b: Seq<u8>, k: int) -> bool {
    k == b.len() || (0 <= k < b.len() && !(0x80 <= b[k] < 0xC0))
}

/// Two bytes read as a hexadecimal `u8` (`u8::from_str_radix(.., 16)`).
pub open spec fn hex_pair(b0: u8, b1: u8) -> Option<nat> {
    if b0 < 128 && b1 < 128 {
        spec_parse_unsigned(seq![b0 as char, b1 as char], 16, 255)
    } else {
        None
    }
}

/// How the UTF-8 text `s` reads as `#RRGGBB` or `#RRGGBBAA` (the alpha channel must be
/// two hexadecimal digits too, and is then ignored); any other length is no colour.
pub open spec fn spec_hex_color(s: Seq<u8>) -> HexColor {
    if s.len() == 0 || s[0] != 35 {
        HexColor::NotAColor
    } else {
        let h = s.drop_first();
        if h.len() != 6 && h.len() != 8 {
            HexColor::NotAColor
        } else if !is_boundary(h, 2) {
            HexColor::Unsliceable
        } else {
            match hex_pair(h[0], h[1]) {
                None => HexColor::NotAColor,
                Some(r) => if !is_boundary(h, 4) {
                    HexColor::Unsliceable
                } else {
                    match hex_pair(h[2], h[3]) {
                        None => HexColor::NotAColor,
                        Some(g) => if !is_boundary(h, 6) {
                            HexColor::Unsliceable
                        } else {
                            match hex_pair(h[4], h[5]) {
                                None => HexColor::NotAColor,
                                Some(b) => if h.len() == 8 && hex_pair(h[6], h[7]) is None {
                                    HexColor::NotAColor
                                } else {
                                    HexColor::Color(r as u8, g as u8, b as u8)
                                },
                            }
                        },
                    }
                },
            }
        }
    }
}

fn boundary_exec(h: &[u8], start: usize, k: usize) -> (r: bool)
    requires
        start <= h@.len(),
        start + k <= h@.len(),
    ensures
        r == is_boundary(h@.skip(start as int), k as int),
{
    let n = h.len();
    k == n - start || !(0x80 <= h[start + k] && h[start + k] < 0xC0)
}

fn hex_pair_exec(b0: u8, b1: u8) -> (r: Option<u8>)
    ensures
        match r {
            Some(v) => hex_pair(b0, b1) == Some(v as nat),
            None => hex_pair(b0, b1) is None,
        },
{
    if b0 < 128 && b1 < 128 {
        let cs: [char; 2] = [b0 as char, b1 as char];
        assert(cs@ =~= seq![b0 as char, b1 as char]);
        match parse_unsigned(&cs, 16, 255) {
            Some(v) => Some(v as u8),
            None => None,
        }
    } else {
        None
    }
}

/// Read `#RRGGBB` or `#RRGGBBAA` colour text (see [`spec_hex_color`]).
pub fn parse_hex_color(s: &[u8]) -> (r: HexColor)
    ensures
        r == spec_hex_color(s@),
{
    if s.len() == 0 || s[0] != 35 {
        return HexColor::NotAColor;
    }
    if s.len() - 1 != 6 && s.len() - 1 != 8 {
        return HexColor::NotAColor;
    }
    let ghost h = s@.drop_first();
    assert(h =~= s@.skip(1));
    if !boundary_exec(s, 1, 2) {
        return HexColor::Unsliceable;
    }
    let r = match hex_pair_exec(s[1], s[2]) {
        Some(v) => v,
        None => return HexColor::NotAColor,
    };
    if !boundary_exec(s, 1, 4) {
        return HexColor::Unsliceable;
    }
    let g = match hex_pair_exec(s[3], s[4]) {
        Some(v) => v,
        None => return HexColor::NotAColor,
    };
    if !boundary_exec(s, 1, 6) {
        return HexColor::Unsliceable;
    }
    let b = match hex_pair_exec(s[5], s[6]) {
        Some(v) => v,
        None => return HexColor::NotAColor,
    };
    if s.len() == 9 && hex_pair_exec(s[7], s[8]).is_none() {
        return HexColor::NotAColor;
    }
    HexColor::Color(r, g, b)
}

/// What a JSON document holds under `key`: the parse of `data` as JSON, the value under
/// `key` when it is an array, and for each element its UTF-8 bytes when it is a string.
/// `None` when the data is not JSON, not an object with `key`, or the value not an array.
pub uninterp spec fn json_string_array(data: Seq<u8>, key: Seq<char>) -> Option<
    Seq<Option<Seq<u8>>>,
>;

pub open spec fn opt_bytes_view(o: Option<Vec<u8>>) -> Option<Seq<u8>> {
    match o {
        Some(v) => Some(v@),
        None => None,
    }
}

/// `serde_json::from_slice::<Value>`, then `Value::get(key)`, `Value::as_array` and
/// `Value::as_str` per element. Trusted: the result is [`json_string_array`] of the
/// arguments.
#[verifier::external_body]
fn json_string_array_field(data: &[u8], key: &str) -> (r: Option<Vec<Option<Vec<u8>>>>)
    ensures
        match r {
            Some(v) => json_string_array(data@, key@) == Some(
                v@.map_values(|o: Option<Vec<u8>>| opt_bytes_view(o)),
            ),
            None => json_string_array(data@, key@) is None,
        },
{
    let value: serde_json::Value = serde_json::from_slice(data).ok()?;
    let items = value.get(key)?.as_array()?;
    Some(items.iter().map(|c| c.as_str().map(|s| s.as_bytes().to_vec())).collect())
}

/// The colour an element of `filament_colour` stands for: its `#RRGGBB` value, or the
/// fallback colour when it is not a string or not such a colour (unsliceable colour text
/// included: reading the colours is best-effort).
pub open spec fn filament_entry_color(o: Option<Seq<u8>>) -> Rgb {
    match o {
        Some(b) => match spec_hex_color(b) {
            HexColor::Color(r, g, bl) => Rgb::Srgb(r, g, bl),
            _ => Rgb::Default,
        },
        None => Rgb::Default,
    }
}

/// The filament colours of a Bambu/Prusa `project_settings.config` (JSON): element `i` of
/// its `filament_colour` array is the colour of extruder `i + 1`. No colours when the
/// document is not JSON or has no such array.
pub open spec fn spec_filament_colors(data: Seq<u8>) -> Seq<Rgb> {
    match json_string_array(data, "filament_colour"@) {
        None => Seq::empty(),
        Some(es) => spec_filament_entries(es),
    }
}

/// The colours that the elements of a `filament_colour` array stand for (each a string's
/// bytes, or `None` for an element that is not a string).
pub open spec fn spec_filament_entries(es: Seq<Option<Seq<u8>>>) -> Seq<Rgb> {
    es.map_values(|o: Option<Seq<u8>>| filament_entry_color(o))
}

/// The colours of the elements of a `filament_colour` array (see
/// [`spec_filament_entries`]).
pub fn filament_colors_of(items: &[Option<Vec<u8>>]) -> (r: Vec<Rgb>)
    ensures
        r@ == spec_filament_entries(items@.map_values(|o: Option<Vec<u8>>| opt_bytes_view(o))),
{
    let ghost es = items@.map_values(|o: Option<Vec<u8>>| opt_bytes_view(o));
    let mut out: Vec<Rgb> = Vec::new();
    let mut i: usize = 0;
    while i < items.len()
        invariant
            i <= items@.len(),
            es == items@.map_values(|o: Option<Vec<u8>>| opt_bytes_view(o)),
            out@ == es.take(i as int).map_values(|o: Option<Seq<u8>>| filament_entry_color(o)),
        decreases items@.len() - i,
    {
        assert(es[i as int] == opt_bytes_view(items@[i as int]));
        let c = match &items[i] {
            Some(b) => match parse_hex_color(b.as_slice()) {
                HexColor::Color(r, g, bl) => Rgb::Srgb(r, g, bl),
                HexColor::NotAColor => Rgb::Default,
                HexColor::Unsliceable => Rgb::Default,
            },
            None => Rgb::Default,
        };
        out.push(c);
        i = i + 1;
        assert(out@ =~= es.take(i as int).map_values(|o: Option<Seq<u8>>| filament_entry_color(o)));
    }
    assert(es.take(i as int) =~= es);
    out
}

/// Read the filament colours of a project settings document (see
/// [`spec_filament_colors`]).
pub fn parse_filament_colors(data: &[u8]) -> (r: Vec<Rgb>)
    ensures
        r@ == spec_filament_colors(data@),
{
    let key = "filament_colour";
    match json_string_array_field(data, key) {
        Some(items) => filament_colors_of(&items),
        None => Vec::new(),
    }
}

/// The colour of an extruder (numbered from 1: extruder `i + 1` has colour `i`): its
/// filament colour, or `fallback` when there is no extruder or no colour for it.
pub open spec fn spec_extruder_color(colors: Seq<Rgb>, extruder: Option<u32>, fallback: Rgb) -> Rgb {
    match extruder {
        Some(e) => if 1 <= e && e - 1 < colors.len() {
            colors[e - 1]
        } else {
            fallback
        },
        None => fallback,
    }
}

/// Resolve an extruder number to a colour (see [`spec_extruder_color`]).
pub fn extruder_color(colors: &[Rgb], extruder: Option<u32>, fallback: Rgb) -> (r: Rgb)
    ensures
        r == spec_extruder_color(colors@, extruder, fallback),
{
    match extruder {
        Some(e) => {
            if e == 0 {
                return fallback;
            }
            let i = (e - 1) as usize;
            if i < colors.len() {
                colors[i]
            } else {
                fallback
            }
        },
        None => fallback,
    }
}

} // verus!
