//! XML events as plain values, read with `quick_xml`, and attribute lookup.
use crate::text::decode_utf8_chars;
use quick_xml::events::{BytesStart, Event};
use quick_xml::Reader;
use vstd::prelude::*;
use vstd::utf8::{decode_utf8, valid_utf8};

verus! {

/// One attribute of a tag: its full (possibly prefixed) name and raw value bytes.
#[derive(Debug)]
pub struct XmlAttr {
    pub key: Vec<u8>,
    pub value: Vec<u8>,
}

/// A start or empty-element tag: its local name and attributes in document order.
#[derive(Debug)]
pub struct XmlTag {
    pub local_name: Vec<u8>,
    pub attrs: Vec<XmlAttr>,
}

/// One event of an XML document, with text trimmed.
#[derive(Debug)]
pub enum XmlEvent {
    Start(XmlTag),
    Empty(XmlTag),
    End(Vec<u8>),
    Eof,
    /// The reader stopped on malformed input; the message describes why.
    Error(String),
    /// Text, comments, declarations and the like.
    Other,
}

#[verifier::external_type_specification]
#[verifier::external_body]
#[verifier::reject_recursive_types(R)]
pub struct ExXmlReader<R>(Reader<R>);

/// An attribute as plain values: its full name and its raw value.
pub type AttrV = (Seq<u8>, Seq<u8>);

/// An XML event as plain values.
pub enum XmlEventV {
    Start(Seq<u8>, Seq<AttrV>),
    Empty(Seq<u8>, Seq<AttrV>),
    End(Seq<u8>),
    Eof,
    Error(Seq<char>),
    Other,
}

pub open spec fn attr_v(a: XmlAttr) -> AttrV {
    (a.key@, a.value@)
}

pub open spec fn attrs_v(attrs: Seq<XmlAttr>) -> Seq<AttrV> {
    attrs.map_values(|a: XmlAttr| attr_v(a))
}

pub open spec fn event_v(ev: XmlEvent) -> XmlEventV {
    match ev {
        XmlEvent::Start(t) => XmlEventV::Start(t.local_name@, attrs_v(t.attrs@)),
        XmlEvent::Empty(t) => XmlEventV::Empty(t.local_name@, attrs_v(t.attrs@)),
        XmlEvent::End(n) => XmlEventV::End(n@),
        XmlEvent::Eof => XmlEventV::Eof,
        XmlEvent::Error(m) => XmlEventV::Error(m@),
        XmlEvent::Other => XmlEventV::Other,
    }
}

/// The event numbered `k` (from 0) that `quick_xml`'s reader, trimming text, reads from
/// the document `data`: start and empty-element tags with their local name and their
/// well-formed attributes in document order, end tags with their local name, the end of
/// the document (read again at every later call), the message of a reader error, or
/// anything else.
pub uninterp spec fn xml_event_at(data: Seq<u8>, k: nat) -> XmlEventV;

/// An XML document being read: `quick_xml`'s reader over it, the document itself, and
/// how many events have been read so far. The fields are private: a cursor is made only
/// by [`xml_cursor`] and advanced only by [`xml_next_event`], so the document and the
/// count always describe the reader.
pub struct XmlCursor<'a> {
    reader: Reader<&'a [u8]>,
    data: Ghost<Seq<u8>>,
    read: Ghost<nat>,
}

impl<'a> XmlCursor<'a> {
    /// The document being read.
    pub closed spec fn doc(&self) -> Seq<u8> {
        self.data@
    }

    /// How many events have been read.
    pub closed spec fn events_read(&self) -> nat {
        self.read@
    }
}

/// `quick_xml::Reader::from_reader` over a byte slice, configured to trim text. Trusted
/// with no claim on the reader.
#[verifier::external_body]
fn xml_reader<'a>(data: &'a [u8]) -> Reader<&'a [u8]> {
    let mut r = Reader::from_reader(data);
    r.config_mut().trim_text(true);
    r
}

/// Start reading a document.
pub fn xml_cursor<'a>(data: &'a [u8]) -> (c: XmlCursor<'a>)
    ensures
        c.doc() == data@,
        c.events_read() == 0,
{
    XmlCursor { reader: xml_reader(data), data: Ghost(data@), read: Ghost(0) }
}

/// `quick_xml::Reader::read_event`, the event turned into plain values: a tag's local name
/// (`BytesStart::local_name`) and attributes (`BytesStart::attributes`, malformed ones
/// skipped), an end tag's local name, an error's message. Trusted: the event is
/// [`xml_event_at`] of the document and of the number of events read before; it counts as
/// read. And, as the reader's source shows, every event consumes input (a text event its
/// text, a markup event at least its closing `>`; a syntax error or the end leaves the
/// reader done, and an ill-formed tag has been consumed), so an event other than the end
/// or an error comes only while fewer events than bytes have been read.
#[verifier::external_body]
pub(crate) fn xml_next_event(c: &mut XmlCursor) -> (ev: XmlEvent)
    ensures
        event_v(ev) == xml_event_at(old(c).doc(), old(c).events_read()),
        final(c).doc() == old(c).doc(),
        final(c).events_read() == old(c).events_read() + 1,
        !(event_v(ev) is Eof) && !(event_v(ev) is Error) ==> old(c).events_read() < old(c).doc().len(),
{
    let tag = |e: &BytesStart| XmlTag {
        local_name: e.local_name().as_ref().to_vec(),
        attrs: e.attributes().flatten().map(|a| XmlAttr { key: a.key.as_ref().to_vec(), value: a.value.to_vec() }).collect(),
    };
    match c.reader.read_event() {
        Ok(Event::Start(e)) => XmlEvent::Start(tag(&e)),
        Ok(Event::Empty(e)) => XmlEvent::Empty(tag(&e)),
        Ok(Event::End(e)) => XmlEvent::End(e.local_name().as_ref().to_vec()),
        Ok(Event::Eof) => XmlEvent::Eof,
        Ok(_) => XmlEvent::Other,
        Err(e) => XmlEvent::Error(e.to_string()),
    }
}

/// The attribute's key has the local name `local`.
pub open spec fn attr_named(a: AttrV, local: Seq<u8>) -> bool {
    local_part_of(a.0) == local
}

/// The local part of a qualified name: what follows its first `:`, or the whole name.
pub open spec fn local_part_of(name: Seq<u8>) -> Seq<u8> {
    if exists|i: int| 0 <= i < name.len() && name[i] == 58 {
        let i = choose|i: int|
            0 <= i < name.len() && name[i] == 58 && forall|j: int| 0 <= j < i ==> name[j] != 58;
        name.skip(i + 1)
    } else {
        name
    }
}

/// The raw value of the first attribute whose local name is `local`.
pub open spec fn first_attr_value(attrs: Seq<AttrV>, local: Seq<u8>) -> Option<Seq<u8>>
    decreases attrs.len(),
{
    if attrs.len() == 0 {
        None
    } else if attr_named(attrs[0], local) {
        Some(attrs[0].1)
    } else {
        first_attr_value(attrs.drop_first(), local)
    }
}

/// The value of the first attribute whose local name is `local`, as text; `None` when
/// there is no such attribute or its value is not UTF-8.
pub open spec fn spec_get_attr(attrs: Seq<AttrV>, local: Seq<u8>) -> Option<Seq<char>> {
    match first_attr_value(attrs, local) {
        Some(v) => if valid_utf8(v) {
            Some(decode_utf8(v))
        } else {
            None
        },
        None => None,
    }
}

pub fn local_part_matches(key: &[u8], local: &[u8]) -> (r: bool)
    ensures
        r == (local_part_of(key@) == local@),
{
    let n = key.len();
    let mut i: usize = 0;
    while i < n && key[i] != 58
        invariant
            n == key@.len(),
            i <= n,
            forall|j: int| 0 <= j < i ==> key@[j] != 58,
        decreases n - i,
    {
        i = i + 1;
    }
    let start = if i < n {
        i + 1
    } else {
        0
    };
    proof {
        if i < n {
            assert(key@[i as int] == 58);
            let c = choose|c: int|
                0 <= c < key@.len() && key@[c] == 58 && forall|j: int| 0 <= j < c ==> key@[j] != 58;
            assert(c == i) by {
                if c < i {
                    assert(key@[c] != 58);
                } else if c > i {
                    assert(key@[i as int] != 58);
                }
            }
        } else {
            assert(key@.skip(0) =~= key@);
        }
        assert(local_part_of(key@) == key@.skip(start as int));
    }
    if n - start != local.len() {
        return false;
    }
    let mut k: usize = 0;
    while k < local.len()
        invariant
            start + local@.len() == n,
            n == key@.len(),
            local_part_of(key@) == key@.skip(start as int),
            k <= local@.len(),
            forall|j: int| 0 <= j < k ==> key@[start + j] == local@[j],
        decreases local@.len() - k,
    {
        if key[start + k] != local[k] {
            proof {
                assert(key@.skip(start as int)[k as int] != local@[k as int]);
            }
            return false;
        }
        k = k + 1;
    }
    assert(key@.skip(start as int) =~= local@);
    true
}

/// The raw value of the first attribute whose local name is `local`.
pub fn find_attr<'a>(attrs: &'a [XmlAttr], local: &[u8]) -> (r: Option<&'a Vec<u8>>)
    ensures
        match r {
            Some(v) => first_attr_value(attrs_v(attrs@), local@) == Some(v@),
            None => first_attr_value(attrs_v(attrs@), local@) is None,
        },
{
    let ghost av = attrs_v(attrs@);
    let mut i: usize = 0;
    assert(av.skip(0) =~= av);
    while i < attrs.len()
        invariant
            i <= attrs@.len(),
            av == attrs_v(attrs@),
            first_attr_value(av, local@) == first_attr_value(av.skip(i as int), local@),
        decreases attrs@.len() - i,
    {
        assert(av.skip(i as int).drop_first() =~= av.skip(i + 1));
        assert(av.skip(i as int)[0] == attr_v(attrs@[i as int]));
        if local_part_matches(&attrs[i].key, local) {
            return Some(&attrs[i].value);
        }
        i = i + 1;
    }
    None
}

/// The value of the first attribute whose local name is `local`, as text (see
/// [`spec_get_attr`]).
pub fn get_attr(attrs: &[XmlAttr], local: &[u8]) -> (r: Option<Vec<char>>)
    ensures
        r matches Some(v) ==> spec_get_attr(attrs_v(attrs@), local@) == Some(v@),
        r is None ==> spec_get_attr(attrs_v(attrs@), local@) is None,
{
    match find_attr(attrs, local) {
        Some(v) => decode_utf8_chars(v.as_slice()),
        None => None,
    }
}

} // verus!
