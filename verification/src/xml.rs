//! Pull-style XML events as plain values, read with `quick_xml`.
//!
//! The parsers that scan raw package parts (`word/document.xml`, relationship
//! parts) see the document as a sequence of `XmlEvent`s: tag names are local
//! names (no namespace prefix), attributes keep their raw value, and
//! `unescape_value` resolves entity references where a caller needs it.

use quick_xml::events::{BytesStart, Event};
use quick_xml::Reader;
use vstd::prelude::*;

verus! {

#[verifier::external_type_specification]
#[verifier::external_body]
#[verifier::reject_recursive_types(R)]
pub struct ExReader<R>(Reader<R>);

#[verifier::external_type_specification]
#[verifier::external_body]
pub struct ExBytesStart<'a>(BytesStart<'a>);

/// One attribute of a tag.
pub struct XmlAttribute {
    /// The attribute's local name.
    pub key: String,
    /// The value as written between the quotes.
    pub raw_value: String,
}

/// A start or empty-element tag.
pub struct XmlTag {
    /// The element's local name.
    pub name: String,
    /// The attributes in document order; `None` stands for a malformed one.
    pub attributes: Vec<Option<XmlAttribute>>,
}

/// One event of the XML reader.
pub enum XmlEvent {
    Start(XmlTag),
    Empty(XmlTag),
    /// An end tag, by local name.
    End(String),
    /// Character data (entity references arrive as `Other` events between texts).
    Text(String),
    Eof,
    /// The reader met malformed markup.
    Error,
    /// Anything else: declarations, comments, CDATA, references, doctypes.
    Other,
}

/// The event with number `index` (from 0) that `quick_xml::Reader` hands out
/// over `xml` with its default configuration, as `next_event` converts it.
/// Parsing depends on the text alone.
pub uninterp spec fn xml_event_at(xml: Seq<char>, index: nat) -> XmlEvent;

/// A `quick_xml` reader over a text, with the text and the number of events
/// it has handed out.
pub struct XmlReader<'a> {
    reader: Reader<&'a [u8]>,
    text: Ghost<Seq<char>>,
    read: Ghost<nat>,
}

impl<'a> XmlReader<'a> {
    /// The text being read.
    pub closed spec fn text(&self) -> Seq<char> {
        self.text@
    }

    /// How many events the reader has handed out.
    pub closed spec fn events_read(&self) -> nat {
        self.read@
    }
}

/// A reader over `xml` (`quick_xml::Reader::from_str`, default configuration)
/// that has handed out no event yet.
#[verifier::external_body]
pub(crate) fn xml_reader(xml: &str) -> (reader: XmlReader)
    ensures
        reader.text() == xml@,
        reader.events_read() == 0,
{
    XmlReader { reader: Reader::from_str(xml), text: Ghost(xml@), read: Ghost(0) }
}

/// A start or empty-element tag as the reader hands it out, with the text
/// being read and the number of the event it came with.
pub struct RawTag<'a> {
    tag: BytesStart<'a>,
    text: Ghost<Seq<char>>,
    index: Ghost<nat>,
}

impl<'a> RawTag<'a> {
    pub closed spec fn text(&self) -> Seq<char> {
        self.text@
    }

    pub closed spec fn index(&self) -> nat {
        self.index@
    }
}

/// An event as the reader hands it out, before its tag is converted.
pub enum RawXmlEvent<'a> {
    Start(RawTag<'a>),
    Empty(RawTag<'a>),
    End(String),
    Text(String),
    Eof,
    Error,
    Other,
}

/// `raw` is event number `index` of `text`, `event`, before its tag is converted.
pub open spec fn raw_event_of(raw: RawXmlEvent, event: XmlEvent, text: Seq<char>, index: nat) -> bool {
    match raw {
        RawXmlEvent::Start(t) => event is Start && t.text() == text && t.index() == index,
        RawXmlEvent::Empty(t) => event is Empty && t.text() == text && t.index() == index,
        RawXmlEvent::End(name) => event == XmlEvent::End(name),
        RawXmlEvent::Text(content) => event == XmlEvent::Text(content),
        RawXmlEvent::Eof => event is Eof,
        RawXmlEvent::Error => event is Error,
        RawXmlEvent::Other => event is Other,
    }
}

/// The next event of the reader (`quick_xml::Reader::read_event`): end-tag
/// names reduced to their local part (`BytesEnd::local_name`), text with
/// XML 1.0 line-end normalisation (`BytesText::xml10_content`); a start or
/// empty-element tag is handed out as it is, for `convert_tag`.
#[verifier::external_body]
fn next_raw_event<'a>(reader: &mut XmlReader<'a>) -> (raw: RawXmlEvent<'a>)
    ensures
        raw_event_of(raw, xml_event_at(old(reader).text(), old(reader).events_read()), old(reader).text(), old(reader).events_read()),
        final(reader).text() == old(reader).text(),
        final(reader).events_read() == old(reader).events_read() + 1,
{
    let (text, index) = (reader.text, reader.read);
    reader.read = Ghost((reader.read@ + 1) as nat);
    let raw = |tag| RawTag { tag, text, index };
    match reader.reader.read_event() {
        Ok(Event::Start(e)) => RawXmlEvent::Start(raw(e)),
        Ok(Event::Empty(e)) => RawXmlEvent::Empty(raw(e)),
        Ok(Event::End(e)) => RawXmlEvent::End(e.local_name().into_inner().to_string()),
        Ok(Event::Text(t)) => RawXmlEvent::Text(t.xml10_content().into_owned()),
        Ok(Event::Eof) => RawXmlEvent::Eof,
        Ok(_) => RawXmlEvent::Other,
        Err(_) => RawXmlEvent::Error,
    }
}

/// A tag as the reader hands it out, converted: its local name
/// (`BytesStart::local_name`) and its attributes (`BytesStart::attributes`)
/// by local name and raw value, `None` for a malformed one. It is the tag of
/// the event it came with.
#[verifier::external_body]
fn convert_tag(raw: &RawTag) -> (tag: XmlTag)
    ensures
        match xml_event_at(raw.text(), raw.index()) {
            XmlEvent::Start(t) => tag == t,
            XmlEvent::Empty(t) => tag == t,
            _ => true,
        },
{
    let e = &raw.tag;
    XmlTag {
        name: e.local_name().into_inner().to_string(),
        attributes: e.attributes().map(|a| a.ok().map(|a| XmlAttribute { key: a.key.local_name().into_inner().to_string(), raw_value: a.value.into_owned() })).collect(),
    }
}

/// The next event of the reader, converted.
pub(crate) fn next_event(reader: &mut XmlReader) -> (event: XmlEvent)
    ensures
        event == xml_event_at(old(reader).text(), old(reader).events_read()),
        final(reader).text() == old(reader).text(),
        final(reader).events_read() == old(reader).events_read() + 1,
{
    match next_raw_event(reader) {
        RawXmlEvent::Start(t) => XmlEvent::Start(convert_tag(&t)),
        RawXmlEvent::Empty(t) => XmlEvent::Empty(convert_tag(&t)),
        RawXmlEvent::End(name) => XmlEvent::End(name),
        RawXmlEvent::Text(content) => XmlEvent::Text(content),
        RawXmlEvent::Eof => XmlEvent::Eof,
        RawXmlEvent::Error => XmlEvent::Error,
        RawXmlEvent::Other => XmlEvent::Other,
    }
}

/// An attribute value with its predefined entity and character references
/// resolved, as `quick_xml::escape::unescape` gives it; `None` where a
/// reference is unterminated or unknown.
pub uninterp spec fn unescaped_of(raw: Seq<char>) -> Option<Seq<char>>;

/// `quick_xml::escape::unescape` of an attribute's raw value. A value without
/// `&` comes back as it is (the function only rewrites `&...;` references).
#[verifier::external_body]
pub(crate) fn unescape_value(raw: &str) -> (value: Option<String>)
    ensures
        match value {
            Some(v) => unescaped_of(raw@) == Some(v@),
            None => unescaped_of(raw@) is None,
        },
        !raw@.contains('&') ==> (value is Some && value->0@ == raw@),
{
    quick_xml::escape::unescape(raw).ok().map(|v| v.into_owned())
}

/// Whether the reader stops after this event.
pub open spec fn ends_reading(event: XmlEvent) -> bool {
    event is Eof || event is Error
}

/// The events from number `i` on: up to and including the first that ends
/// the reading, and at most `left + 1` of them.
pub open spec fn xml_events_from(xml: Seq<char>, i: nat, left: nat) -> Seq<XmlEvent>
    decreases left,
{
    let e = xml_event_at(xml, i);
    if ends_reading(e) || left == 0 {
        seq![e]
    } else {
        seq![e] + xml_events_from(xml, i + 1, (left - 1) as nat)
    }
}

/// The events read from `xml`: up to and including the end of input or the
/// first error, and at most one more than `xml` has characters (every event
/// before the end consumes at least one character of input).
pub open spec fn xml_events_of(xml: Seq<char>) -> Seq<XmlEvent> {
    xml_events_from(xml, 0, xml.len())
}

/// Reads the events of `xml` (see `xml_events_of`).
pub fn read_xml_events(xml: &str) -> (events: Vec<XmlEvent>)
    ensures
        events@ == xml_events_of(xml@),
{
    let mut reader = xml_reader(xml);
    let limit: usize = crate::text::chars_of(xml).len();
    let mut events: Vec<XmlEvent> = Vec::new();
    let mut count: usize = 0;
    loop
        invariant_except_break
            count <= limit,
            limit == xml@.len(),
            reader.text() == xml@,
            reader.events_read() == count,
            events@ + xml_events_from(xml@, count as nat, (limit - count) as nat) == xml_events_of(xml@),
        ensures
            events@ == xml_events_of(xml@),
        decreases limit - count,
    {
        let ghost before = events@;
        let event = next_event(&mut reader);
        let ghost ev = event;
        let stop = match &event {
            XmlEvent::Eof | XmlEvent::Error => true,
            _ => false,
        };
        events.push(event);
        if stop || count == limit {
            assert(events@ == before + xml_events_from(xml@, count as nat, (limit - count) as nat));
            break;
        }
        assert(xml_events_from(xml@, count as nat, (limit - count) as nat)
            == seq![ev] + xml_events_from(xml@, (count + 1) as nat, (limit - count - 1) as nat));
        assert(events@ + xml_events_from(xml@, (count + 1) as nat, (limit - (count + 1)) as nat)
            =~= before + xml_events_from(xml@, count as nat, (limit - count) as nat));
        count = count + 1;
    }
    events
}

/// The first attribute named `key` at or after position `i`.
pub open spec fn attribute_from(attributes: Seq<Option<XmlAttribute>>, key: Seq<char>, i: int) -> Option<XmlAttribute>
    decreases attributes.len() - i,
{
    if i < 0 || i >= attributes.len() {
        None
    } else {
        match attributes[i] {
            Some(a) => if a.key@ == key { Some(a) } else { attribute_from(attributes, key, i + 1) },
            None => attribute_from(attributes, key, i + 1),
        }
    }
}

/// The tag's first well-formed attribute named `key`.
pub open spec fn tag_attribute(tag: XmlTag, key: Seq<char>) -> Option<XmlAttribute> {
    attribute_from(tag.attributes@, key, 0)
}

/// The raw value of the tag's first attribute named `key`.
pub open spec fn raw_attribute(tag: XmlTag, key: Seq<char>) -> Option<Seq<char>> {
    match tag_attribute(tag, key) {
        Some(a) => Some(a.raw_value@),
        None => None,
    }
}

/// The position of the tag's first well-formed attribute named `key`.
pub fn find_attribute(tag: &XmlTag, key: &str) -> (found: Option<usize>)
    ensures
        match found {
            Some(i) => i < tag.attributes@.len() && tag.attributes@[i as int] == tag_attribute(*tag, key@),
            None => tag_attribute(*tag, key@) is None,
        },
{
    let mut i: usize = 0;
    while i < tag.attributes.len()
        invariant
            i <= tag.attributes@.len(),
            attribute_from(tag.attributes@, key@, i as int) == tag_attribute(*tag, key@),
        decreases tag.attributes@.len() - i,
    {
        match &tag.attributes[i] {
            Some(a) => {
                if crate::text::str_eq(a.key.as_str(), key) {
                    return Some(i);
                }
            },
            None => {},
        }
        i = i + 1;
    }
    None
}

/// A copy of the raw value of the tag's first attribute named `key`.
pub fn raw_attribute_value(tag: &XmlTag, key: &str) -> (value: Option<String>)
    ensures
        match value {
            Some(v) => raw_attribute(*tag, key@) == Some(v@),
            None => raw_attribute(*tag, key@) is None,
        },
{
    match find_attribute(tag, key) {
        Some(i) => match &tag.attributes[i] {
            Some(a) => Some(a.raw_value.clone()),
            None => None,
        },
        None => None,
    }
}

} // verus!
