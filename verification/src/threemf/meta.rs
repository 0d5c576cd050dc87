//! Bambu Studio's per-object colour metadata (`Metadata/model_settings.config`).
use crate::text::chars_of;
use crate::threemf::attrs::{get_attr_u32, spec_attr_u32};
use crate::threemf::model::tag_is;
use crate::xml::{
    attrs_v, event_v, xml_cursor, xml_event_at, xml_next_event, AttrV, XmlAttr, XmlEvent,
    XmlEventV,
};
use std::collections::HashMap;
use vstd::prelude::*;
use vstd::utf8::encode_utf8;

verus! {

broadcast use vstd::std_specs::hash::group_hash_axioms;

/// The extruders assigned to an object in Bambu Studio's `model_settings.config`: a default
/// for the object and overrides for its parts (by part id).
#[derive(Debug)]
pub struct ObjectColorMeta {
    pub default_extruder: Option<u32>,
    pub part_extruders: HashMap<u32, u32>,
}

pub struct ColorMetaV {
    pub default_extruder: Option<u32>,
    pub part_extruders: Map<u32, u32>,
}

pub open spec fn color_meta_v(m: ObjectColorMeta) -> ColorMetaV {
    ColorMetaV { default_extruder: m.default_extruder, part_extruders: m.part_extruders@ }
}

pub open spec fn color_metas_v(m: Map<u32, ObjectColorMeta>) -> Map<u32, ColorMetaV> {
    m.map_values(|c: ObjectColorMeta| color_meta_v(c))
}

pub open spec fn empty_color_meta() -> ColorMetaV {
    ColorMetaV { default_extruder: None, part_extruders: Map::empty() }
}

/// State of the colour metadata scan: the open object and part, and the result so far.
pub struct ColorScanV {
    pub object: Option<u32>,
    pub part: Option<u32>,
    pub metas: Map<u32, ColorMetaV>,
}

/// What a start or empty-element tag does to the colour metadata scan. An `<object>`
/// opens an entry for its id; a `<metadata key="extruder" value=N>` sets the extruder of
/// the open part, or the object's default outside parts.
pub open spec fn color_tag_step(s: ColorScanV, name: Seq<u8>, attrs: Seq<AttrV>) -> ColorScanV {
    if name == encode_utf8("object"@) {
        let obj = spec_attr_u32(attrs, encode_utf8("id"@));
        ColorScanV {
            object: obj,
            part: None,
            metas: match obj {
                Some(id) => if s.metas.contains_key(id) {
                    s.metas
                } else {
                    s.metas.insert(id, empty_color_meta())
                },
                None => s.metas,
            },
        }
    } else if name == encode_utf8("part"@) {
        ColorScanV { part: spec_attr_u32(attrs, encode_utf8("id"@)), ..s }
    } else if name == encode_utf8("metadata"@) {
        if crate::xml::spec_get_attr(attrs, encode_utf8("key"@)) != Some("extruder"@) {
            s
        } else {
            match (spec_attr_u32(attrs, encode_utf8("value"@)), s.object) {
                (Some(e), Some(obj)) => {
                    let entry = if s.metas.contains_key(obj) {
                        s.metas[obj]
                    } else {
                        empty_color_meta()
                    };
                    let updated = match s.part {
                        Some(p) => ColorMetaV {
                            part_extruders: entry.part_extruders.insert(p, e),
                            ..entry
                        },
                        None => ColorMetaV { default_extruder: Some(e), ..entry },
                    };
                    ColorScanV { metas: s.metas.insert(obj, updated), ..s }
                },
                _ => s,
            }
        }
    } else {
        s
    }
}

pub open spec fn color_step(s: ColorScanV, ev: XmlEventV) -> ColorScanV {
    match ev {
        XmlEventV::Start(n, a) => color_tag_step(s, n, a),
        XmlEventV::Empty(n, a) => color_tag_step(s, n, a),
        XmlEventV::End(n) => if n == encode_utf8("object"@) {
            ColorScanV { object: None, part: None, ..s }
        } else if n == encode_utf8("part"@) {
            ColorScanV { part: None, ..s }
        } else {
            s
        },
        _ => s,
    }
}

/// The colour metadata scan from event `k` of `data` on, in state `s`, reading at most
/// `fuel` more events: what was gathered when the document ends, or nothing when the
/// document turns out not to be readable XML.
pub open spec fn color_run(data: Seq<u8>, s: ColorScanV, k: nat, fuel: nat) -> Map<u32, ColorMetaV>
    decreases fuel,
{
    match xml_event_at(data, k) {
        XmlEventV::Eof => s.metas,
        XmlEventV::Error(_) => Map::empty(),
        ev => if fuel == 0 {
            Map::empty()
        } else {
            color_run(data, color_step(s, ev), k + 1, (fuel - 1) as nat)
        },
    }
}

/// What reading the colour metadata of `model_settings.config` gives (within one event per
/// byte: every event consumes input, see [`xml_next_event`]).
pub open spec fn spec_object_color_meta(data: Seq<u8>) -> Map<u32, ColorMetaV> {
    color_run(data, ColorScanV { object: None, part: None, metas: Map::empty() }, 0, data.len())
}

fn is_extruder_key(attrs: &[XmlAttr]) -> (r: bool)
    ensures
        r == (crate::xml::spec_get_attr(attrs_v(attrs@), encode_utf8("key"@)) == Some("extruder"@)),
{
    match crate::xml::get_attr(attrs, "key".as_bytes()) {
        Some(k) => crate::text::chars_eq(&k, &chars_of("extruder")),
        None => false,
    }
}

/// Apply one event to the colour metadata scan (see [`color_step`]).
pub fn color_event(
    object: &mut Option<u32>,
    part: &mut Option<u32>,
    metas: &mut HashMap<u32, ObjectColorMeta>,
    ev: &XmlEvent,
)
    ensures
        color_step(
            ColorScanV { object: *old(object), part: *old(part), metas: color_metas_v(old(metas)@) },
            event_v(*ev),
        ) == (ColorScanV {
            object: *final(object),
            part: *final(part),
            metas: color_metas_v(final(metas)@),
        }),
{
    let (name, attrs) = match ev {
        XmlEvent::Start(t) => (&t.local_name, &t.attrs),
        XmlEvent::Empty(t) => (&t.local_name, &t.attrs),
        XmlEvent::End(n) => {
            if tag_is(n, "object") {
                *object = None;
                *part = None;
            } else if tag_is(n, "part") {
                *part = None;
            }
            return ;
        },
        _ => return ,
    };
    if tag_is(name, "object") {
        let obj = get_attr_u32(attrs, "id".as_bytes());
        *object = obj;
        *part = None;
        match obj {
            Some(id) => {
                if !metas.contains_key(&id) {
                    let ghost before = metas@;
                    let m = ObjectColorMeta { default_extruder: None, part_extruders: HashMap::new() };
                    metas.insert(id, m);
                    assert(color_metas_v(metas@) =~= color_metas_v(before).insert(id, empty_color_meta()));
                }
            },
            None => {},
        }
    } else if tag_is(name, "part") {
        *part = get_attr_u32(attrs, "id".as_bytes());
    } else if tag_is(name, "metadata") {
        if !is_extruder_key(attrs) {
            return ;
        }
        let e = match get_attr_u32(attrs, "value".as_bytes()) {
            Some(e) => e,
            None => return ,
        };
        let obj = match *object {
            Some(o) => o,
            None => return ,
        };
        let ghost before = metas@;
        let mut entry = match metas.remove(&obj) {
            Some(m) => m,
            None => ObjectColorMeta { default_extruder: None, part_extruders: HashMap::new() },
        };
        proof {
            if before.contains_key(obj) {
                assert(color_meta_v(entry) == color_metas_v(before)[obj]);
            } else {
                assert(entry.part_extruders@ =~= Map::<u32, u32>::empty());
            }
        }
        match *part {
            Some(p) => {
                entry.part_extruders.insert(p, e);
            },
            None => {
                entry.default_extruder = Some(e);
            },
        }
        let ghost mid = metas@;
        metas.insert(obj, entry);
        assert(color_metas_v(metas@) =~= color_metas_v(before).insert(obj, color_meta_v(entry)));
    }
}

/// Read Bambu Studio's `model_settings.config` (XML) into colour metadata by object id
/// (see [`spec_object_color_meta`]). Best effort: a document that is not readable XML
/// gives no metadata rather than failing the load.
pub fn parse_object_color_meta(xml: &[u8]) -> (r: HashMap<u32, ObjectColorMeta>)
    ensures
        color_metas_v(r@) == spec_object_color_meta(xml@),
{
    let mut cursor = xml_cursor(xml);
    let mut object: Option<u32> = None;
    let mut part: Option<u32> = None;
    let mut metas: HashMap<u32, ObjectColorMeta> = HashMap::new();
    let limit = xml.len();
    let mut n: usize = 0;
    assert(color_metas_v(metas@) =~= Map::<u32, ColorMetaV>::empty());
    loop
        invariant
            n <= limit,
            limit == xml@.len(),
            cursor.doc() == xml@,
            cursor.events_read() == n,
            spec_object_color_meta(xml@) == color_run(
                xml@,
                ColorScanV { object, part, metas: color_metas_v(metas@) },
                n as nat,
                (limit - n) as nat,
            ),
        decreases limit - n,
    {
        let ev = xml_next_event(&mut cursor);
        match ev {
            XmlEvent::Eof => {
                return metas;
            },
            XmlEvent::Error(_) => {
                let none: HashMap<u32, ObjectColorMeta> = HashMap::new();
                assert(color_metas_v(none@) =~= Map::<u32, ColorMetaV>::empty());
                return none;
            },
            _ => {},
        }
        color_event(&mut object, &mut part, &mut metas, &ev);
        n = n + 1;
    }
}

} // verus!
