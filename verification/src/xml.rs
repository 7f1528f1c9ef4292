//! The boundary to the external streaming tokenizer (quick_xml): the reader
//! type, the two calls the library makes into it, and the scan that turns a
//! document held in memory into a plain event sequence.
//!
//! The tokenizer is the pre-existing external collaborator; nothing is
//! assumed about the events it hands back. The verified extraction takes the
//! event sequence as its input and is exact over it.

use quick_xml::events::Event;
use vstd::prelude::*;

use crate::extract::XmlEvent;

verus! {

#[verifier::external_type_specification]
#[verifier::external_body]
#[verifier::reject_recursive_types(R)]
pub struct ExReader<R>(quick_xml::Reader<R>);

/// Relies on quick_xml's Reader::from_str and Reader::trim_text: a streaming
/// tokenizer over the document text, trimming whitespace at text-node edges.
#[verifier::external_body]
fn reader_from_str<'a>(s: &'a str) -> quick_xml::Reader<&'a [u8]> {
    let mut reader = quick_xml::Reader::from_str(s);
    reader.trim_text(true);
    reader
}

/// Relies on quick_xml's Reader::read_event, with BytesText::unescape for a
/// text node's payload: the next low-level token as a plain value, or
/// nothing at end of input. Nothing further is assumed of what comes back.
#[verifier::external_body]
fn read_next_event<'a>(reader: &mut quick_xml::Reader<&'a [u8]>) -> Option<XmlEvent> {
    match reader.read_event() {
        Ok(Event::Eof) => None,
        Ok(Event::Start(s)) => Some(match String::from_utf8(s.name().into_inner().to_vec()) {
            Ok(name) => XmlEvent::Start(name),
            Err(_) => XmlEvent::Malformed,
        }),
        Ok(Event::Text(text)) => Some(match text.unescape() {
            Ok(content) => XmlEvent::Text(content.into_owned()),
            Err(_) => XmlEvent::Malformed,
        }),
        Ok(Event::End(_)) => Some(XmlEvent::End),
        Ok(_) => Some(XmlEvent::Other),
        Err(_) => Some(XmlEvent::Malformed),
    }
}

/// Tokenizes a document held in memory into its primitive events, in
/// document order. The scan stops at end of input, or after one event per
/// character of the document — a bound no token stream reaches, since every
/// token spans at least one character.
pub fn tokenize(s: &str) -> (events: Vec<XmlEvent>) {
    let cap: usize = s.unicode_len();
    let mut reader = reader_from_str(s);
    let mut events: Vec<XmlEvent> = Vec::new();
    let mut pulls: usize = 0;
    while pulls < cap
        invariant
            pulls <= cap,
        decreases cap - pulls,
    {
        match read_next_event(&mut reader) {
            Some(ev) => events.push(ev),
            None => {
                return events;
            },
        }
        pulls = pulls + 1;
    }
    events
}

} // verus!
