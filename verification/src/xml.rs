//! The elements of an XML document, as `quick_xml` reads them.

use vstd::prelude::*;
use vstd::utf8::{decode_utf8, valid_utf8};

verus! {

/// One attribute of an element: its key and its value, both as written.
#[derive(Debug, PartialEq)]
pub struct XmlAttribute {
    pub key: Vec<u8>,
    pub value: Vec<u8>,
}

/// An element: its name as written, and its attributes in the order in which
/// they are written. An attribute that is not well formed is `None`.
#[derive(Debug, PartialEq)]
pub struct XmlElement {
    pub name: Vec<u8>,
    pub attributes: Vec<Option<XmlAttribute>>,
}

/// The mathematical value of an attribute; `None` for one that is not well
/// formed.
pub type AttributeModel = Option<(Seq<u8>, Seq<u8>)>;

/// The mathematical value of an element.
pub struct ElementModel {
    pub name: Seq<u8>,
    pub attributes: Seq<AttributeModel>,
}

/// The mathematical value of what reading a document gives at one place.
pub enum EventModel {
    /// The end of the document.
    Eof,
    /// An element without content.
    Empty(ElementModel),
    /// Anything else that is well formed.
    Other,
    /// A place where the document is not well formed, with the report of the
    /// reader.
    Fault(Seq<char>),
}

/// The value of an attribute that may be missing.
pub open spec fn attribute_model(attribute: Option<XmlAttribute>) -> AttributeModel {
    match attribute {
        Some(found) => Some((found.key@, found.value@)),
        None => None,
    }
}

impl View for XmlElement {
    type V = ElementModel;

    open spec fn view(&self) -> ElementModel {
        ElementModel {
            name: self.name@,
            attributes: self.attributes@.map_values(
                |attribute: Option<XmlAttribute>| attribute_model(attribute),
            ),
        }
    }
}

/// The reader of `quick_xml`, `quick_xml::Reader`. Nothing is known of what
/// is inside one; it is only handed from call to call.
#[verifier::external_type_specification]
#[verifier::external_body]
#[verifier::reject_recursive_types(R)]
pub struct ExReader<R>(quick_xml::Reader<R>);

/// The tag of an element as `quick_xml` hands it out,
/// `quick_xml::events::BytesStart`. Nothing is known of what is inside one
/// but through the two names below.
#[verifier::external_type_specification]
#[verifier::external_body]
pub struct ExBytesStart<'a>(quick_xml::events::BytesStart<'a>);

/// The name that `quick_xml::events::BytesStart::name` gives for a tag.
pub uninterp spec fn tag_name(tag: quick_xml::events::BytesStart<'static>) -> Seq<u8>;

/// The attributes that `quick_xml::events::BytesStart::attributes` yields for
/// a tag, in its order; `None` where it reports an attribute that is not well
/// formed.
pub uninterp spec fn tag_attributes(tag: quick_xml::events::BytesStart<'static>) -> Seq<
    AttributeModel,
>;

/// What a `quick_xml::Reader` that was made for the document `bytes` returns
/// read after read, up to the first read that reports the end of the document
/// or a fault, that read included.
pub uninterp spec fn document_events(bytes: Seq<u8>) -> Seq<EventModel>;

/// What a reader returns read after read from now on, up to the first read
/// that reports the end of the document or a fault, that read included. A
/// reader that has reported either has nothing left: this is then empty.
pub uninterp spec fn upcoming(reader: quick_xml::Reader<&[u8]>) -> Seq<EventModel>;

/// What a read returned.
pub(crate) enum XmlEvent {
    /// The end of the document.
    Eof,
    /// An element without content, closed where it is opened.
    Empty(quick_xml::events::BytesStart<'static>),
    /// Anything else: a tag that opens or closes, text, a comment.
    Other,
}

/// The value of a tag.
pub open spec fn tag_model(tag: quick_xml::events::BytesStart<'static>) -> ElementModel {
    ElementModel { name: tag_name(tag), attributes: tag_attributes(tag) }
}

/// The value of what a read returned.
pub(crate) open spec fn event_model(event: Result<XmlEvent, String>) -> EventModel {
    match event {
        Ok(XmlEvent::Eof) => EventModel::Eof,
        Ok(XmlEvent::Empty(tag)) => EventModel::Empty(tag_model(tag)),
        Ok(XmlEvent::Other) => EventModel::Other,
        Err(report) => EventModel::Fault(report@),
    }
}

/// Makes a reader for a document with `quick_xml::Reader::from_reader`. What
/// it has yet to return is what the name `document_events` stands for.
#[verifier::external_body]
pub(crate) fn open_document(bytes: &[u8]) -> (reader: quick_xml::Reader<&[u8]>)
    ensures
        upcoming(reader) == document_events(bytes@),
{
    quick_xml::Reader::from_reader(bytes)
}

/// Reads the next event with `quick_xml::Reader::read_event_into`: the tag of
/// an empty element, the end of the document, the report of a fault, or the
/// mere fact that it was something else. The event is the first of those
/// that the reader had yet to return. A reader that has reported the end of
/// the document or a fault reports the end of the document from then on.
#[verifier::external_body]
pub(crate) fn next_event(reader: &mut quick_xml::Reader<&[u8]>) -> (event: Result<XmlEvent, String>)
    ensures
        upcoming(*old(reader)).len() > 0 ==> event_model(event) == upcoming(*old(reader))[0]
            && upcoming(*final(reader)) == upcoming(*old(reader)).skip(1),
        upcoming(*old(reader)).len() == 0 ==> event_model(event) == EventModel::Eof && upcoming(
            *final(reader),
        ) == upcoming(*old(reader)),
{
    let mut buffer = Vec::new();
    match reader.read_event_into(&mut buffer) {
        Err(error) => Err(format!("{error:?}")),
        Ok(quick_xml::events::Event::Eof) => Ok(XmlEvent::Eof),
        Ok(quick_xml::events::Event::Empty(tag)) => Ok(XmlEvent::Empty(tag.into_owned())),
        Ok(_) => Ok(XmlEvent::Other),
    }
}

/// Copies the name of a tag, as `quick_xml::events::BytesStart::name` gives
/// it.
#[verifier::external_body]
fn read_name(tag: &quick_xml::events::BytesStart<'static>) -> (name: Vec<u8>)
    ensures
        name@ == tag_name(*tag),
{
    tag.name().as_ref().to_vec()
}

/// Copies the attributes of a tag, as
/// `quick_xml::events::BytesStart::attributes` yields them: of each its key
/// and its value as written, and `None` in the place of one that is not well
/// formed.
#[verifier::external_body]
fn read_attributes(tag: &quick_xml::events::BytesStart<'static>) -> (attributes: Vec<
    Option<XmlAttribute>,
>)
    ensures
        attributes@.map_values(|attribute: Option<XmlAttribute>| attribute_model(attribute))
            == tag_attributes(*tag),
{
    tag.attributes().map(|item| item.ok().map(|found| XmlAttribute {
        key: found.key.as_ref().to_vec(),
        value: found.value.into_owned(),
    })).collect()
}

/// The element that a tag stands for, as plain values.
pub(crate) fn element_of(tag: &quick_xml::events::BytesStart<'static>) -> (element: XmlElement)
    ensures
        element@ == tag_model(*tag),
{
    XmlElement { name: read_name(tag), attributes: read_attributes(tag) }
}

/// Reads bytes as text with `std::str::from_utf8`: the text that the bytes
/// encode, where they are valid UTF-8, and nothing otherwise.
#[verifier::external_body]
pub(crate) fn decode_text(bytes: &[u8]) -> (text: Option<String>)
    ensures
        text is Some <==> valid_utf8(bytes@),
        text matches Some(decoded) ==> decoded@ == decode_utf8(bytes@),
{
    std::str::from_utf8(bytes).ok().map(|text| text.to_string())
}

/// The text of the first attribute among `attributes` that is well formed
/// and has the key `key`; nothing where there is no such attribute, or where
/// its value is not valid UTF-8.
pub open spec fn attribute_text(attributes: Seq<AttributeModel>, key: Seq<u8>) -> Option<Seq<char>>
    decreases attributes.len(),
{
    if attributes.len() == 0 {
        None
    } else {
        match attributes[0] {
            Some((found, value)) if found == key => if valid_utf8(value) {
                Some(decode_utf8(value))
            } else {
                None
            },
            _ => attribute_text(attributes.skip(1), key),
        }
    }
}

/// Whether two lists of bytes are the same.
pub fn same_bytes(left: &[u8], right: &[u8]) -> (same: bool)
    ensures
        same == (left@ == right@),
{
    if left.len() != right.len() {
        return false;
    }
    let mut i: usize = 0;
    while i < left.len()
        invariant
            i <= left.len(),
            left.len() == right.len(),
            forall|k: int| 0 <= k < i ==> left@[k] == right@[k],
        decreases left.len() - i,
    {
        if left[i] != right[i] {
            return false;
        }
        i += 1;
    }
    assert(left@ =~= right@);
    true
}

/// The text of the attribute `key` of an element: that of the first well
/// formed attribute with this key, if its value is valid UTF-8.
pub fn string_attr(element: &XmlElement, key: &[u8]) -> (text: Option<String>)
    ensures
        match (text, attribute_text(element@.attributes, key@)) {
            (Some(found), Some(expected)) => found@ == expected,
            (None, None) => true,
            _ => false,
        },
{
    let ghost all = element@.attributes;
    let mut i: usize = 0;
    assert(all.skip(0) =~= all);
    while i < element.attributes.len()
        invariant
            i <= element.attributes.len(),
            all == element@.attributes,
            attribute_text(all, key@) == attribute_text(all.skip(i as int), key@),
        decreases element.attributes.len() - i,
    {
        let ghost rest = all.skip(i as int);
        assert(rest.skip(1) =~= all.skip(i + 1));
        match &element.attributes[i] {
            Some(attribute) => {
                if same_bytes(attribute.key.as_slice(), key) {
                    return decode_text(attribute.value.as_slice());
                }
            },
            None => {},
        }
        i += 1;
    }
    None
}

} // verus!
