//! Model files of a 3MF package: their objects (inline geometry or components) and the
//! build items of the root model.
use crate::text::{chars_of, parse_unsigned, spec_parse_unsigned, string_from_chars};
use crate::threemf::attrs::{
    attr_transform, get_attr_u32, last_float_attr, last_u32_attr, parse_triangle, parse_vertex,
    spec_attr_transform, spec_attr_u32, VertexText,
};
use crate::xml::{
    attrs_v, event_v, xml_cursor, xml_event_at, xml_next_event, AttrV, XmlAttr, XmlEvent,
    XmlEventV,
};
use std::collections::HashMap;
use vstd::prelude::*;
use vstd::utf8::encode_utf8;

verus! {

broadcast use vstd::std_specs::hash::group_hash_axioms;

/// Inline geometry of an object: coordinate texts per vertex and three indices per
/// triangle.
#[derive(Debug)]
pub struct ModelMesh {
    pub vertices: Vec<VertexText>,
    pub indices: Vec<u32>,
}

/// A reference from an object to a part of it.
#[derive(Debug)]
pub struct ComponentRef {
    /// The model file that holds the part (`p:path`), or `None` for the same file.
    pub path: Option<Vec<char>>,
    pub object_id: u32,
    /// The part's transform as 12 number texts, or none for the identity.
    pub transform: Vec<Vec<u8>>,
}

/// A parsed object: inline geometry, or a list of components.
#[derive(Debug)]
pub enum ObjectData {
    MeshData(ModelMesh),
    Components(Vec<ComponentRef>),
}

/// Coordinate texts of a vertex as values.
pub struct VertexV {
    pub x: Seq<u8>,
    pub y: Seq<u8>,
    pub z: Seq<u8>,
}

pub struct ComponentV {
    pub path: Option<Seq<char>>,
    pub object_id: u32,
    pub transform: Seq<Seq<u8>>,
}

pub enum ObjectV {
    Mesh { vertices: Seq<VertexV>, indices: Seq<u32> },
    Components(Seq<ComponentV>),
}

pub open spec fn vertex_v(v: VertexText) -> VertexV {
    VertexV { x: v.x@, y: v.y@, z: v.z@ }
}

pub open spec fn vertices_v(vs: Seq<VertexText>) -> Seq<VertexV> {
    vs.map_values(|v: VertexText| vertex_v(v))
}

pub open spec fn opt_chars_view(o: Option<Vec<char>>) -> Option<Seq<char>> {
    match o {
        Some(v) => Some(v@),
        None => None,
    }
}

pub open spec fn tokens_v(t: Seq<Vec<u8>>) -> Seq<Seq<u8>> {
    t.map_values(|x: Vec<u8>| x@)
}

pub open spec fn component_v(c: ComponentRef) -> ComponentV {
    ComponentV { path: opt_chars_view(c.path), object_id: c.object_id, transform: tokens_v(c.transform@) }
}

pub open spec fn components_v(cs: Seq<ComponentRef>) -> Seq<ComponentV> {
    cs.map_values(|c: ComponentRef| component_v(c))
}

pub open spec fn object_v(o: ObjectData) -> ObjectV {
    match o {
        ObjectData::MeshData(m) => ObjectV::Mesh { vertices: vertices_v(m.vertices@), indices: m.indices@ },
        ObjectData::Components(cs) => ObjectV::Components(components_v(cs@)),
    }
}

pub open spec fn objects_v(m: Map<u32, ObjectData>) -> Map<u32, ObjectV> {
    m.map_values(|o: ObjectData| object_v(o))
}

/// The state of a model parse between events.
pub struct ModelStateV {
    pub objects: Map<u32, ObjectV>,
    pub current_object_id: Option<u32>,
    pub in_mesh: bool,
    pub in_vertices: bool,
    pub in_triangles: bool,
    pub has_mesh: bool,
    pub vertices: Seq<VertexV>,
    pub indices: Seq<u32>,
    pub components: Seq<ComponentV>,
}

pub open spec fn initial_model_state() -> ModelStateV {
    ModelStateV {
        objects: Map::empty(),
        current_object_id: None,
        in_mesh: false,
        in_vertices: false,
        in_triangles: false,
        has_mesh: false,
        vertices: Seq::empty(),
        indices: Seq::empty(),
        components: Seq::empty(),
    }
}

pub open spec fn opt_nat_u32(o: Option<nat>) -> Option<u32> {
    match o {
        Some(n) => Some(n as u32),
        None => None,
    }
}

/// The vertex texts of a `<vertex>` tag's attributes.
pub open spec fn spec_vertex(attrs: Seq<AttrV>) -> VertexV {
    VertexV {
        x: last_float_attr(attrs, seq![120u8]),
        y: last_float_attr(attrs, seq![121u8]),
        z: last_float_attr(attrs, seq![122u8]),
    }
}

/// The component a `<component>` tag references: `objectid` (0 if absent or not a
/// number), the `path` attribute in any namespace, and the transform.
pub open spec fn spec_component(attrs: Seq<AttrV>) -> ComponentV {
    ComponentV {
        path: crate::xml::spec_get_attr(attrs, encode_utf8("path"@)),
        object_id: match spec_attr_u32(attrs, encode_utf8("objectid"@)) {
            Some(n) => n,
            None => 0,
        },
        transform: spec_attr_transform(attrs),
    }
}

/// What a start or empty-element tag does to the parse.
pub open spec fn model_tag_step(s: ModelStateV, name: Seq<u8>, attrs: Seq<AttrV>) -> ModelStateV {
    if name == encode_utf8("object"@) {
        match crate::xml::spec_get_attr(attrs, encode_utf8("id"@)) {
            Some(id) => ModelStateV {
                current_object_id: opt_nat_u32(spec_parse_unsigned(id, 10, u32::MAX as nat)),
                vertices: Seq::empty(),
                indices: Seq::empty(),
                components: Seq::empty(),
                has_mesh: false,
                in_mesh: false,
                ..s
            },
            None => s,
        }
    } else if name == encode_utf8("mesh"@) {
        if s.current_object_id is Some {
            ModelStateV { in_mesh: true, has_mesh: true, ..s }
        } else {
            s
        }
    } else if name == encode_utf8("vertices"@) {
        if s.in_mesh {
            ModelStateV { in_vertices: true, ..s }
        } else {
            s
        }
    } else if name == encode_utf8("vertex"@) {
        if s.in_vertices {
            ModelStateV { vertices: s.vertices.push(spec_vertex(attrs)), ..s }
        } else {
            s
        }
    } else if name == encode_utf8("triangles"@) {
        if s.in_mesh {
            ModelStateV { in_triangles: true, ..s }
        } else {
            s
        }
    } else if name == encode_utf8("triangle"@) {
        if s.in_triangles {
            ModelStateV {
                indices: s.indices + seq![
                    last_u32_attr(attrs, seq![118u8, 49]),
                    last_u32_attr(attrs, seq![118u8, 50]),
                    last_u32_attr(attrs, seq![118u8, 51]),
                ],
                ..s
            }
        } else {
            s
        }
    } else if name == encode_utf8("component"@) && s.current_object_id is Some {
        ModelStateV { components: s.components.push(spec_component(attrs)), ..s }
    } else {
        s
    }
}

/// What an end tag does to the parse. Closing an object files it under its id: its
/// geometry if it had a `<mesh>`, otherwise its components if it had any.
pub open spec fn model_end_step(s: ModelStateV, name: Seq<u8>) -> ModelStateV {
    if name == encode_utf8("object"@) {
        let t = match s.current_object_id {
            Some(id) => if s.has_mesh {
                ModelStateV {
                    objects: s.objects.insert(
                        id,
                        ObjectV::Mesh { vertices: s.vertices, indices: s.indices },
                    ),
                    vertices: Seq::empty(),
                    indices: Seq::empty(),
                    current_object_id: None,
                    ..s
                }
            } else if s.components.len() > 0 {
                ModelStateV {
                    objects: s.objects.insert(id, ObjectV::Components(s.components)),
                    components: Seq::empty(),
                    current_object_id: None,
                    ..s
                }
            } else {
                ModelStateV { current_object_id: None, ..s }
            },
            None => s,
        };
        ModelStateV { in_mesh: false, in_vertices: false, in_triangles: false, ..t }
    } else if name == encode_utf8("mesh"@) {
        ModelStateV { in_mesh: false, ..s }
    } else if name == encode_utf8("vertices"@) {
        ModelStateV { in_vertices: false, ..s }
    } else if name == encode_utf8("triangles"@) {
        ModelStateV { in_triangles: false, ..s }
    } else {
        s
    }
}

/// What one event (other than the end of the document or an error) does to the parse.
pub open spec fn model_step(s: ModelStateV, ev: XmlEventV) -> ModelStateV {
    match ev {
        XmlEventV::Start(n, a) => model_tag_step(s, n, a),
        XmlEventV::Empty(n, a) => model_tag_step(s, n, a),
        XmlEventV::End(n) => model_end_step(s, n),
        _ => s,
    }
}

/// The message of a model that `quick_xml` could not read.
pub open spec fn xml_error_message(m: Seq<char>) -> Seq<char> {
    "XML parse error: "@ + m
}

/// The model parse from event `k` of `data` on, in state `s`, reading at most `fuel` more
/// events before giving up: the objects at the end of the document, or the reader's
/// error message.
pub open spec fn model_run(data: Seq<u8>, s: ModelStateV, k: nat, fuel: nat) -> Result<
    Map<u32, ObjectV>,
    Seq<char>,
>
    decreases fuel,
{
    match xml_event_at(data, k) {
        XmlEventV::Eof => Ok(s.objects),
        XmlEventV::Error(m) => Err(xml_error_message(m)),
        ev => if fuel == 0 {
            Err(xml_error_message("no progress"@))
        } else {
            model_run(data, model_step(s, ev), k + 1, (fuel - 1) as nat)
        },
    }
}

/// What parsing a model file gives: every event consumes input, so the document ends or
/// fails within one event per byte of it, and this fuel never runs out (see
/// [`xml_next_event`]).
pub open spec fn spec_parse_model_xml(data: Seq<u8>) -> Result<Map<u32, ObjectV>, Seq<char>> {
    model_run(data, initial_model_state(), 0, data.len())
}

/// A model parse in progress.
pub struct ModelParser {
    pub objects: HashMap<u32, ObjectData>,
    pub current_object_id: Option<u32>,
    pub in_mesh: bool,
    pub in_vertices: bool,
    pub in_triangles: bool,
    pub has_mesh: bool,
    pub vertices: Vec<VertexText>,
    pub indices: Vec<u32>,
    pub components: Vec<ComponentRef>,
}

impl ModelParser {
    pub open spec fn state(&self) -> ModelStateV {
        ModelStateV {
            objects: objects_v(self.objects@),
            current_object_id: self.current_object_id,
            in_mesh: self.in_mesh,
            in_vertices: self.in_vertices,
            in_triangles: self.in_triangles,
            has_mesh: self.has_mesh,
            vertices: vertices_v(self.vertices@),
            indices: self.indices@,
            components: components_v(self.components@),
        }
    }

    pub fn new() -> (p: ModelParser)
        ensures
            p.state() == initial_model_state(),
    {
        let p = ModelParser {
            objects: HashMap::new(),
            current_object_id: None,
            in_mesh: false,
            in_vertices: false,
            in_triangles: false,
            has_mesh: false,
            vertices: Vec::new(),
            indices: Vec::new(),
            components: Vec::new(),
        };
        assert(objects_v(p.objects@) =~= Map::<u32, ObjectV>::empty());
        assert(vertices_v(p.vertices@) =~= Seq::<VertexV>::empty());
        assert(components_v(p.components@) =~= Seq::<ComponentV>::empty());
        p
    }

    fn tag(&mut self, name: &[u8], attrs: &[XmlAttr])
        ensures
            final(self).state() == model_tag_step(old(self).state(), name@, attrs_v(attrs@)),
    {
        if tag_is(name, "object") {
            match crate::xml::get_attr(attrs, "id".as_bytes()) {
                Some(id) => {
                    self.current_object_id = parse_unsigned(&id, 10, u32::MAX);
                    self.vertices.clear();
                    self.indices.clear();
                    self.components.clear();
                    self.has_mesh = false;
                    self.in_mesh = false;
                    assert(vertices_v(self.vertices@) =~= Seq::<VertexV>::empty());
                    assert(components_v(self.components@) =~= Seq::<ComponentV>::empty());
                },
                None => {},
            }
        } else if tag_is(name, "mesh") {
            if self.current_object_id.is_some() {
                self.in_mesh = true;
                self.has_mesh = true;
            }
        } else if tag_is(name, "vertices") {
            if self.in_mesh {
                self.in_vertices = true;
            }
        } else if tag_is(name, "vertex") {
            if self.in_vertices {
                let ghost before = vertices_v(self.vertices@);
                let v = parse_vertex(attrs);
                self.vertices.push(v);
                assert(vertices_v(self.vertices@) =~= before.push(spec_vertex(attrs_v(attrs@))));
            }
        } else if tag_is(name, "triangles") {
            if self.in_mesh {
                self.in_triangles = true;
            }
        } else if tag_is(name, "triangle") {
            if self.in_triangles {
                let t = parse_triangle(attrs);
                let ghost before = self.indices@;
                self.indices.push(t[0]);
                self.indices.push(t[1]);
                self.indices.push(t[2]);
                assert(self.indices@ =~= before + seq![t[0], t[1], t[2]]);
            }
        } else if tag_is(name, "component") && self.current_object_id.is_some() {
            let ghost before = components_v(self.components@);
            let object_id = match get_attr_u32(attrs, "objectid".as_bytes()) {
                Some(n) => n,
                None => 0,
            };
            let path = crate::xml::get_attr(attrs, "path".as_bytes());
            let transform = attr_transform(attrs);
            let c = ComponentRef { path, object_id, transform };
            assert(component_v(c) == spec_component(attrs_v(attrs@)));
            self.components.push(c);
            assert(components_v(self.components@) =~= before.push(spec_component(attrs_v(attrs@))));
        }
    }

    fn end(&mut self, name: &[u8])
        ensures
            final(self).state() == model_end_step(old(self).state(), name@),
    {
        if tag_is(name, "object") {
            match self.current_object_id {
                Some(id) => {
                    if self.has_mesh {
                        let mut vertices: Vec<VertexText> = Vec::new();
                        std::mem::swap(&mut vertices, &mut self.vertices);
                        let mut indices: Vec<u32> = Vec::new();
                        std::mem::swap(&mut indices, &mut self.indices);
                        let ghost before = self.objects@;
                        let o = ObjectData::MeshData(ModelMesh { vertices, indices });
                        self.objects.insert(id, o);
                        assert(objects_v(self.objects@) =~= objects_v(before).insert(id, object_v(o)));
                        assert(vertices_v(self.vertices@) =~= Seq::<VertexV>::empty());
                    } else if self.components.len() > 0 {
                        let mut components: Vec<ComponentRef> = Vec::new();
                        std::mem::swap(&mut components, &mut self.components);
                        let ghost before = self.objects@;
                        let o = ObjectData::Components(components);
                        self.objects.insert(id, o);
                        assert(objects_v(self.objects@) =~= objects_v(before).insert(id, object_v(o)));
                        assert(components_v(self.components@) =~= Seq::<ComponentV>::empty());
                    }
                    self.current_object_id = None;
                },
                None => {},
            }
            self.in_mesh = false;
            self.in_vertices = false;
            self.in_triangles = false;
        } else if tag_is(name, "mesh") {
            self.in_mesh = false;
        } else if tag_is(name, "vertices") {
            self.in_vertices = false;
        } else if tag_is(name, "triangles") {
            self.in_triangles = false;
        }
    }

    /// Apply one event (see [`model_step`]).
    pub fn step(&mut self, ev: &XmlEvent)
        ensures
            final(self).state() == model_step(old(self).state(), event_v(*ev)),
    {
        match ev {
            XmlEvent::Start(t) => self.tag(&t.local_name, &t.attrs),
            XmlEvent::Empty(t) => self.tag(&t.local_name, &t.attrs),
            XmlEvent::End(n) => self.end(n),
            _ => {},
        }
    }
}

/// The tag or end-tag name `name` is the ASCII word `lit`.
pub fn tag_is(name: &[u8], lit: &str) -> (r: bool)
    ensures
        r == (name@ == encode_utf8(lit@)),
{
    crate::text::bytes_eq(name, lit.as_bytes())
}

/// Text `a` followed by text `b`.
pub fn concat_str(a: &str, b: &str) -> (r: String)
    ensures
        r@ == a@ + b@,
{
    let mut cs = chars_of(a);
    let bs = chars_of(b);
    let ghost start = cs@;
    let mut i: usize = 0;
    while i < bs.len()
        invariant
            i <= bs@.len(),
            cs@ == start + bs@.take(i as int),
        decreases bs@.len() - i,
    {
        cs.push(bs[i]);
        i = i + 1;
        assert(cs@ =~= start + bs@.take(i as int));
    }
    assert(bs@.take(i as int) =~= bs@);
    string_from_chars(&cs)
}

/// Parse a model file (`3D/3dmodel.model` or an external object file) into its objects
/// by id (see [`spec_parse_model_xml`]).
pub fn parse_model_xml(xml: &[u8]) -> (r: Result<HashMap<u32, ObjectData>, String>)
    ensures
        match r {
            Ok(m) => spec_parse_model_xml(xml@) == Ok::<Map<u32, ObjectV>, Seq<char>>(objects_v(m@)),
            Err(e) => spec_parse_model_xml(xml@) == Err::<Map<u32, ObjectV>, Seq<char>>(e@),
        },
{
    let mut cursor = xml_cursor(xml);
    let mut p = ModelParser::new();
    let limit = xml.len();
    let mut n: usize = 0;
    loop
        invariant
            n <= limit,
            limit == xml@.len(),
            cursor.doc() == xml@,
            cursor.events_read() == n,
            spec_parse_model_xml(xml@) == model_run(xml@, p.state(), n as nat, (limit - n) as nat),
        decreases limit - n,
    {
        let ev = xml_next_event(&mut cursor);
        match ev {
            XmlEvent::Eof => {
                return Ok(p.objects);
            },
            XmlEvent::Error(m) => {
                let msg = concat_str("XML parse error: ", m.as_str());
                return Err(msg);
            },
            _ => {},
        }
        p.step(&ev);
        n = n + 1;
    }
}

/// A `<build>` item: the object it places and its transform as number texts (none for the
/// identity).
#[derive(Debug)]
pub struct BuildItem {
    pub object_id: u32,
    pub transform: Vec<Vec<u8>>,
}

pub struct BuildItemV {
    pub object_id: u32,
    pub transform: Seq<Seq<u8>>,
}

pub open spec fn build_item_v(b: BuildItem) -> BuildItemV {
    BuildItemV { object_id: b.object_id, transform: tokens_v(b.transform@) }
}

pub open spec fn build_items_v(bs: Seq<BuildItem>) -> Seq<BuildItemV> {
    bs.map_values(|b: BuildItem| build_item_v(b))
}

/// What one event does to the scan of the `<build>` section: whether we are inside it,
/// and the items found so far (`<item/>` tags inside it).
pub open spec fn build_step(s: (bool, Seq<BuildItemV>), ev: XmlEventV) -> (bool, Seq<BuildItemV>) {
    match ev {
        XmlEventV::Start(name, _) => if name == encode_utf8("build"@) {
            (true, s.1)
        } else {
            s
        },
        XmlEventV::Empty(name, attrs) => if s.0 && name == encode_utf8("item"@) {
            (
                s.0,
                s.1.push(
                    BuildItemV {
                        object_id: match spec_attr_u32(attrs, encode_utf8("objectid"@)) {
                            Some(n) => n,
                            None => 0,
                        },
                        transform: spec_attr_transform(attrs),
                    },
                ),
            )
        } else {
            s
        },
        XmlEventV::End(n) => if n == encode_utf8("build"@) {
            (false, s.1)
        } else {
            s
        },
        _ => s,
    }
}

/// The scan of the `<build>` section from event `k` of `data` on, in state `s`, reading at
/// most `fuel` more events: the items at the end of the document, or the reader's error
/// message.
pub open spec fn build_run(data: Seq<u8>, s: (bool, Seq<BuildItemV>), k: nat, fuel: nat) -> Result<
    Seq<BuildItemV>,
    Seq<char>,
>
    decreases fuel,
{
    match xml_event_at(data, k) {
        XmlEventV::Eof => Ok(s.1),
        XmlEventV::Error(m) => Err(xml_error_message(m)),
        ev => if fuel == 0 {
            Err(xml_error_message("no progress"@))
        } else {
            build_run(data, build_step(s, ev), k + 1, (fuel - 1) as nat)
        },
    }
}

/// What scanning the root model for its build items gives (within one event per byte, as
/// for [`spec_parse_model_xml`]).
pub open spec fn spec_parse_build_items(data: Seq<u8>) -> Result<Seq<BuildItemV>, Seq<char>> {
    build_run(data, (false, Seq::empty()), 0, data.len())
}

/// Apply one event to the scan of the `<build>` section (see [`build_step`]).
pub fn build_event(in_build: &mut bool, items: &mut Vec<BuildItem>, ev: &XmlEvent)
    ensures
        (*final(in_build), build_items_v(final(items)@)) == build_step(
            (*old(in_build), build_items_v(old(items)@)),
            event_v(*ev),
        ),
{
    match ev {
        XmlEvent::Start(t) => {
            if tag_is(&t.local_name, "build") {
                *in_build = true;
            }
        },
        XmlEvent::Empty(t) => {
            if *in_build && tag_is(&t.local_name, "item") {
                let ghost before = build_items_v(items@);
                let object_id = match get_attr_u32(&t.attrs, "objectid".as_bytes()) {
                    Some(n) => n,
                    None => 0,
                };
                let transform = attr_transform(&t.attrs);
                let b = BuildItem { object_id, transform };
                items.push(b);
                assert(build_items_v(items@) =~= before.push(build_item_v(b)));
            }
        },
        XmlEvent::End(n) => {
            if tag_is(n, "build") {
                *in_build = false;
            }
        },
        _ => {},
    }
}

/// The build items of the root model, in document order (see [`spec_parse_build_items`]);
/// the reader's error message when the model is not readable XML.
pub fn parse_build_items(xml: &[u8]) -> (r: Result<Vec<BuildItem>, String>)
    ensures
        match r {
            Ok(items) => spec_parse_build_items(xml@) == Ok::<Seq<BuildItemV>, Seq<char>>(build_items_v(items@)),
            Err(e) => spec_parse_build_items(xml@) == Err::<Seq<BuildItemV>, Seq<char>>(e@),
        },
{
    let mut cursor = xml_cursor(xml);
    let mut in_build = false;
    let mut items: Vec<BuildItem> = Vec::new();
    let limit = xml.len();
    let mut n: usize = 0;
    assert(build_items_v(items@) =~= Seq::<BuildItemV>::empty());
    loop
        invariant
            n <= limit,
            limit == xml@.len(),
            cursor.doc() == xml@,
            cursor.events_read() == n,
            spec_parse_build_items(xml@) == build_run(xml@, (in_build, build_items_v(items@)), n as nat, (limit - n) as nat),
        decreases limit - n,
    {
        let ev = xml_next_event(&mut cursor);
        match ev {
            XmlEvent::Eof => {
                return Ok(items);
            },
            XmlEvent::Error(m) => {
                let msg = concat_str("XML parse error: ", m.as_str());
                return Err(msg);
            },
            _ => {},
        }
        build_event(&mut in_build, &mut items, &ev);
        n = n + 1;
    }
}

/// The parse after the events `evs`, one after another, from state `s`.
pub open spec fn model_steps(s: ModelStateV, evs: Seq<XmlEventV>) -> ModelStateV
    decreases evs.len(),
{
    if evs.len() == 0 {
        s
    } else {
        model_step(model_steps(s, evs.drop_last()), evs.last())
    }
}

/// The event is a start, empty-element or end tag named `name`.
pub open spec fn is_tag_named(ev: XmlEventV, name: Seq<u8>) -> bool {
    match ev {
        XmlEventV::Start(n, _) => n == name,
        XmlEventV::Empty(n, _) => n == name,
        XmlEventV::End(n) => n == name,
        _ => false,
    }
}

/// The components that the `<component>` tags among `evs` reference, in order.
pub open spec fn components_of(evs: Seq<XmlEventV>) -> Seq<ComponentV>
    decreases evs.len(),
{
    if evs.len() == 0 {
        Seq::empty()
    } else {
        let c = components_of(evs.drop_last());
        match evs.last() {
            XmlEventV::Start(n, a) => if n == encode_utf8("component"@) {
                c.push(spec_component(a))
            } else {
                c
            },
            XmlEventV::Empty(n, a) => if n == encode_utf8("component"@) {
                c.push(spec_component(a))
            } else {
                c
            },
            _ => c,
        }
    }
}

/// Distinct tag names have distinct UTF-8 bytes.
proof fn lemma_distinct_names(a: Seq<char>, b: Seq<char>)
    requires
        a != b,
    ensures
        encode_utf8(a) != encode_utf8(b),
{
    vstd::utf8::encode_utf8_decode_utf8(a);
    vstd::utf8::encode_utf8_decode_utf8(b);
}

proof fn lemma_component_name_distinct()
    ensures
        encode_utf8("component"@) != encode_utf8("object"@),
        encode_utf8("component"@) != encode_utf8("mesh"@),
        encode_utf8("component"@) != encode_utf8("vertices"@),
        encode_utf8("component"@) != encode_utf8("vertex"@),
        encode_utf8("component"@) != encode_utf8("triangles"@),
        encode_utf8("component"@) != encode_utf8("triangle"@),
{
    reveal_strlit("component");
    reveal_strlit("object");
    reveal_strlit("mesh");
    reveal_strlit("vertices");
    reveal_strlit("vertex");
    reveal_strlit("triangles");
    reveal_strlit("triangle");
    assert("component"@[0] != "object"@[0]);
    assert("component"@[0] != "mesh"@[0]);
    assert("component"@[0] != "vertices"@[0]);
    assert("component"@[0] != "vertex"@[0]);
    assert("component"@[0] != "triangles"@[0]);
    assert("component"@[0] != "triangle"@[0]);
    lemma_distinct_names("component"@, "object"@);
    lemma_distinct_names("component"@, "mesh"@);
    lemma_distinct_names("component"@, "vertices"@);
    lemma_distinct_names("component"@, "vertex"@);
    lemma_distinct_names("component"@, "triangles"@);
    lemma_distinct_names("component"@, "triangle"@);
}

/// Inside an object with a known id and no `<mesh>` or `<object>` tag, the parse keeps
/// the object open, without geometry, collecting exactly its components.
proof fn lemma_object_body(s: ModelStateV, start: XmlEventV, n: u32, body: Seq<XmlEventV>, j: nat)
    requires
        j <= body.len(),
        model_step(s, start).current_object_id == Some(n),
        !model_step(s, start).has_mesh,
        model_step(s, start).components == Seq::<ComponentV>::empty(),
        forall|i: int|
            0 <= i < body.len() ==> !is_tag_named(#[trigger] body[i], encode_utf8("object"@))
                && !is_tag_named(body[i], encode_utf8("mesh"@)),
    ensures
        model_steps(s, seq![start] + body.take(j as int)).current_object_id == Some(n),
        !model_steps(s, seq![start] + body.take(j as int)).has_mesh,
        model_steps(s, seq![start] + body.take(j as int)).components == components_of(body.take(j as int)),
        model_steps(s, seq![start] + body.take(j as int)).objects == model_step(s, start).objects,
    decreases j,
{
    let evs = seq![start] + body.take(j as int);
    if j == 0 {
        assert(evs =~= seq![start]);
        assert(evs.drop_last() =~= Seq::<XmlEventV>::empty());
        assert(body.take(0) =~= Seq::<XmlEventV>::empty());
        assert(model_steps(s, evs.drop_last()) == s);
        assert(model_steps(s, evs) == model_step(s, start));
    } else {
        lemma_object_body(s, start, n, body, (j - 1) as nat);
        lemma_component_name_distinct();
        assert(evs.drop_last() =~= seq![start] + body.take(j - 1));
        assert(body.take(j as int).drop_last() =~= body.take(j - 1));
        let ev = body[j - 1];
        assert(evs.last() == ev);
        assert(body.take(j as int).last() == ev);
        assert(!is_tag_named(ev, encode_utf8("object"@)) && !is_tag_named(ev, encode_utf8("mesh"@)));
        let t = model_steps(s, seq![start] + body.take(j - 1));
        assert(model_steps(s, evs) == model_step(t, ev));
        match ev {
            XmlEventV::Start(nm, a) => {
                assert(nm != encode_utf8("object"@) && nm != encode_utf8("mesh"@));
                assert(model_tag_step(t, nm, a).current_object_id == t.current_object_id);
                assert(model_tag_step(t, nm, a).has_mesh == t.has_mesh);
            },
            XmlEventV::Empty(nm, a) => {
                assert(nm != encode_utf8("object"@) && nm != encode_utf8("mesh"@));
                assert(model_tag_step(t, nm, a).current_object_id == t.current_object_id);
                assert(model_tag_step(t, nm, a).has_mesh == t.has_mesh);
            },
            XmlEventV::End(nm) => {
                assert(nm != encode_utf8("object"@));
            },
            _ => {},
        }
    }
}

/// Law of objects built from components: an object with an id, holding `<component>` tags
/// and no `<mesh>` of its own, is filed under its id as those components, in order,
/// whatever came before it in the file (an object with neither is not filed). Nothing
/// else is filed by it.
pub proof fn lemma_object_without_mesh_is_components(
    s: ModelStateV,
    attrs: Seq<AttrV>,
    n: u32,
    body: Seq<XmlEventV>,
)
    requires
        crate::xml::spec_get_attr(attrs, encode_utf8("id"@)) matches Some(t) && spec_parse_unsigned(
            t,
            10,
            u32::MAX as nat,
        ) == Some(n as nat),
        forall|i: int|
            0 <= i < body.len() ==> !is_tag_named(#[trigger] body[i], encode_utf8("object"@))
                && !is_tag_named(body[i], encode_utf8("mesh"@)),
    ensures
        components_of(body).len() > 0 ==> model_steps(
            s,
            seq![XmlEventV::Start(encode_utf8("object"@), attrs)] + body + seq![XmlEventV::End(encode_utf8("object"@))],
        ).objects == s.objects.insert(n, ObjectV::Components(components_of(body))),
        components_of(body).len() == 0 ==> model_steps(
            s,
            seq![XmlEventV::Start(encode_utf8("object"@), attrs)] + body + seq![XmlEventV::End(encode_utf8("object"@))],
        ).objects == s.objects,
{
    let start = XmlEventV::Start(encode_utf8("object"@), attrs);
    let end = XmlEventV::End(encode_utf8("object"@));
    lemma_object_body(s, start, n, body, body.len());
    assert(body.take(body.len() as int) =~= body);
    let evs = seq![start] + body + seq![end];
    assert(evs.drop_last() =~= seq![start] + body);
    assert(evs.last() == end);
}

} // verus!
