//! Reading an XML text into its events with `quick_xml`, and replacing XML escapes.

use crate::xml_events::RawXml::{Cdata, Chars, Close, Lone, Open, Other, Ref, Stop};
use quick_xml::events::Event::{CData, Empty, End, Eof, GeneralRef, Start, Text};
use quick_xml::Reader;
use vstd::prelude::*;

verus! {

/// An XML event as `quick_xml` reads it: the local name (without prefix) of a start, end or
/// empty tag, text as written between tags, CDATA content, the name of a reference such as
/// `amp` in `&amp;`, the end of the document, and any other event.
pub enum RawXml {
    Open(String),
    Close(String),
    Lone(String),
    Chars(String),
    Cdata(String),
    Ref(String),
    Stop,
    Other,
}

/// `RawXml` as a mathematical value.
pub enum RawXmlView {
    Open(Seq<char>),
    Close(Seq<char>),
    Lone(Seq<char>),
    Chars(Seq<char>),
    Cdata(Seq<char>),
    Ref(Seq<char>),
    Stop,
    Other,
}

pub open spec fn raw_view(e: RawXml) -> RawXmlView {
    match e {
        RawXml::Open(n) => RawXmlView::Open(n@),
        RawXml::Close(n) => RawXmlView::Close(n@),
        RawXml::Lone(n) => RawXmlView::Lone(n@),
        RawXml::Chars(t) => RawXmlView::Chars(t@),
        RawXml::Cdata(t) => RawXmlView::Cdata(t@),
        RawXml::Ref(n) => RawXmlView::Ref(n@),
        RawXml::Stop => RawXmlView::Stop,
        RawXml::Other => RawXmlView::Other,
    }
}

pub open spec fn raw_views(v: Seq<RawXml>) -> Seq<RawXmlView> {
    v.map_values(|e: RawXml| raw_view(e))
}

/// The events `quick_xml` reads from a text (`Reader::from_str`, with `trim_text` set as
/// given), up to and including the end of the document; or the message of the first error.
pub uninterp spec fn quick_xml_events(xml: Seq<char>, trim_text: bool) -> Result<Seq<RawXmlView>, Seq<char>>;

/// Reads every event of an XML text with `quick_xml::Reader::read_event` until the end of
/// the document. The contract claims that the events, or the error, are
/// `quick_xml_events` of the text and the flag: what the reader gives depends on them alone.
#[verifier::external_body]
pub(crate) fn read_xml_events(xml: &str, trim_text: bool) -> (r: Result<Vec<RawXml>, String>)
    ensures
        match r {
            Ok(v) => quick_xml_events(xml@, trim_text) == Ok::<Seq<RawXmlView>, Seq<char>>(raw_views(v@)),
            Err(e) => quick_xml_events(xml@, trim_text) == Err::<Seq<RawXmlView>, Seq<char>>(e@),
        },
{
    let mut reader = Reader::from_str(xml);
    reader.config_mut().trim_text(trim_text);
    let mut out = Vec::new();
    while !matches!(out.last(), Some(Stop)) {
        out.push(match reader.read_event().map_err(|e| e.to_string())? {
            Start(b) => Open(b.local_name().as_ref().to_string()),
            End(b) => Close(b.local_name().as_ref().to_string()),
            Empty(b) => Lone(b.local_name().as_ref().to_string()),
            Text(t) => Chars(t.to_string()),
            CData(c) => Cdata(c.to_string()),
            GeneralRef(n) => Ref(n.to_string()),
            Eof => Stop, _ => Other,
        });
    }
    Ok(out)
}

/// What `quick_xml::escape::unescape` makes of a text: the predefined entities and
/// character references replaced, or the message of the first that does not read.
pub uninterp spec fn quick_xml_unescape(s: Seq<char>) -> Result<Seq<char>, Seq<char>>;

/// `quick_xml::escape::unescape`, the error as its message. The contract claims that the
/// result is `quick_xml_unescape` of the text, a function of the text alone.
#[verifier::external_body]
pub(crate) fn unescape_xml(s: &str) -> (r: Result<String, String>)
    ensures
        match r {
            Ok(t) => quick_xml_unescape(s@) == Ok::<Seq<char>, Seq<char>>(t@),
            Err(e) => quick_xml_unescape(s@) == Err::<Seq<char>, Seq<char>>(e@),
        },
{
    quick_xml::escape::unescape(s).map(|c| c.into_owned()).map_err(|e| e.to_string())
}

} // verus!
