//! The events of an XML document, as `quick_xml` reads them.

use quick_xml::events::BytesStart;
use quick_xml::events::Event::{CData, Empty, End, Eof, Start, Text};
use vstd::prelude::*;

use crate::text;
use crate::wire;

verus! {

/// An attribute, undecoded.
#[derive(Debug)]
pub struct XmlAttr {
    pub key: Vec<u8>,
    pub value: Vec<u8>,
}

/// What an attribute holds.
pub struct AttrView {
    pub key: Seq<u8>,
    pub value: Seq<u8>,
}

/// An event. An attribute that is not well formed is `None`; a fault has its reason in words.
#[derive(Debug)]
pub enum XmlEvent {
    Start { name: Vec<u8>, attrs: Vec<Option<XmlAttr>> },
    Empty { name: Vec<u8>, attrs: Vec<Option<XmlAttr>> },
    End { name: Vec<u8> },
    Text { raw: Vec<u8> },
    CData { raw: Vec<u8> },
    Other,
    Fault { reason: String },
    Eof,
}

/// What an event holds.
pub enum EventView {
    Start { name: Seq<u8>, attrs: Seq<Option<AttrView>> },
    Empty { name: Seq<u8>, attrs: Seq<Option<AttrView>> },
    End { name: Seq<u8> },
    Text { raw: Seq<u8> },
    CData { raw: Seq<u8> },
    Other,
    Fault { reason: Seq<char> },
    Eof,
}

impl View for XmlAttr {
    type V = AttrView;

    open spec fn view(&self) -> AttrView {
        AttrView { key: self.key@, value: self.value@ }
    }
}

impl XmlAttr {
    /// An attribute with a copy of its key and its value.
    fn new(key: &[u8], value: &[u8]) -> (r: Self)
        ensures
            r@ == (AttrView { key: key@, value: value@ }),
    {
        XmlAttr { key: crate::wire::copy(key), value: crate::wire::copy(value) }
    }
}

/// What an optional attribute holds.
pub open spec fn opt_attr(a: Option<XmlAttr>) -> Option<AttrView> {
    match a {
        Some(x) => Some(x@),
        None => None,
    }
}

/// What a list of attributes holds.
pub open spec fn attr_views(v: Seq<Option<XmlAttr>>) -> Seq<Option<AttrView>> {
    v.map_values(|a: Option<XmlAttr>| opt_attr(a))
}

impl View for XmlEvent {
    type V = EventView;

    open spec fn view(&self) -> EventView {
        match self {
            XmlEvent::Start { name, attrs } => EventView::Start {
                name: name@,
                attrs: attr_views(attrs@),
            },
            XmlEvent::Empty { name, attrs } => EventView::Empty {
                name: name@,
                attrs: attr_views(attrs@),
            },
            XmlEvent::End { name } => EventView::End { name: name@ },
            XmlEvent::Text { raw } => EventView::Text { raw: raw@ },
            XmlEvent::CData { raw } => EventView::CData { raw: raw@ },
            XmlEvent::Other => EventView::Other,
            XmlEvent::Fault { reason } => EventView::Fault { reason: reason@ },
            XmlEvent::Eof => EventView::Eof,
        }
    }
}

impl XmlEvent {
    /// The start of an element.
    pub fn start(name: &[u8], attrs: Vec<Option<XmlAttr>>) -> (r: Self)
        ensures
            r@ == (EventView::Start { name: name@, attrs: attr_views(attrs@) }),
    {
        XmlEvent::Start { name: wire::copy(name), attrs }
    }

    /// An element without content.
    pub fn empty(name: &[u8], attrs: Vec<Option<XmlAttr>>) -> (r: Self)
        ensures
            r@ == (EventView::Empty { name: name@, attrs: attr_views(attrs@) }),
    {
        XmlEvent::Empty { name: wire::copy(name), attrs }
    }

    /// The end of an element.
    pub fn end(name: &[u8]) -> (r: Self)
        ensures
            r@ == (EventView::End { name: name@ }),
    {
        XmlEvent::End { name: wire::copy(name) }
    }

    /// Text.
    pub fn text(raw: &[u8]) -> (r: Self)
        ensures
            r@ == (EventView::Text { raw: raw@ }),
    {
        XmlEvent::Text { raw: wire::copy(raw) }
    }

    /// Text without references.
    pub fn cdata(raw: &[u8]) -> (r: Self)
        ensures
            r@ == (EventView::CData { raw: raw@ }),
    {
        XmlEvent::CData { raw: wire::copy(raw) }
    }
}

/// A fault.
fn fault(reason: String) -> (r: XmlEvent)
    ensures
        r@ == (EventView::Fault { reason: reason@ }),
{
    XmlEvent::Fault { reason }
}

/// What a list of events holds.
pub open spec fn event_views(v: Seq<XmlEvent>) -> Seq<EventView> {
    v.map_values(|e: XmlEvent| e@)
}

/// `quick_xml::Reader`, which hands out the events of a text one by one. It is only carried from
/// [`open_reader`] to [`next_event`]; what is claimed of it stands there.
#[verifier::external_type_specification]
#[verifier::external_body]
#[verifier::reject_recursive_types(R)]
pub struct ExReader<R>(quick_xml::Reader<R>);

/// The events of a text up to its end, with or without the white space around text events.
pub uninterp spec fn xml_events(s: Seq<char>, trim: bool) -> Seq<EventView>;

/// The events up to the end of the text that a reader has not handed out.
pub uninterp spec fn pending(r: quick_xml::Reader<&[u8]>) -> Seq<EventView>;

/// What XML text means once its references are resolved; `None` where one is unknown.
pub uninterp spec fn xml_unescaped(s: Seq<char>) -> Option<Seq<char>>;

/// Calls `quick_xml::Reader::from_str` and sets `trim_text`. Claimed: the events that the reader
/// will hand out depend on the text and the setting alone.
#[verifier::external_body]
fn open_reader(s: &str, trim: bool) -> (r: quick_xml::Reader<&[u8]>)
    ensures
        pending(r) == xml_events(s@, trim),
{
    let mut reader = quick_xml::Reader::from_str(s);
    reader.config_mut().trim_text(trim);
    reader
}

/// Calls `quick_xml::Reader::read_event`. Claimed: each call hands out the next event, and at
/// the end of the text `Eof`, however often it is called.
#[verifier::external_body]
fn next_event(reader: &mut quick_xml::Reader<&[u8]>) -> (r: XmlEvent)
    ensures
        pending(*old(reader)).len() == 0 ==> r@ == EventView::Eof && pending(*final(reader)).len()
            == 0,
        pending(*old(reader)).len() > 0 ==> r@ == pending(*old(reader))[0] && pending(
            *final(reader),
        ) == pending(*old(reader)).drop_first(),
{
    let attrs = |e: &BytesStart|
        e.attributes().map(|a| a.ok().map(|a| XmlAttr::new(a.key.0, &a.value))).collect();
    match reader.read_event() {
        Ok(Start(e)) => XmlEvent::start(e.name().0, attrs(&e)),
        Ok(Empty(e)) => XmlEvent::empty(e.name().0, attrs(&e)),
        Ok(End(e)) => XmlEvent::end(e.name().0),
        Ok(Text(t)) => XmlEvent::text(&t),
        Ok(CData(t)) => XmlEvent::cdata(&t),
        Ok(Eof) => XmlEvent::Eof,
        Ok(_) => XmlEvent::Other,
        Err(e) => fault(e.to_string()),
    }
}

/// Calls `quick_xml::escape::unescape`; an error becomes `None`. Claimed: the result depends on the
/// text alone.
#[verifier::external_body]
pub(crate) fn unescape(s: &str) -> (r: Option<String>)
    ensures
        text::opt_text(r) == xml_unescaped(s@),
{
    quick_xml::escape::unescape(s).ok().map(|t| t.into_owned())
}

/// Whether reading stops at an event.
pub open spec fn stops(e: EventView) -> bool {
    e is Fault || e is Eof
}

/// The events up to the first at which reading stops, or all with `Eof` behind them.
pub open spec fn read_events(events: Seq<EventView>) -> Seq<EventView>
    decreases events.len(),
{
    if events.len() == 0 {
        seq![EventView::Eof]
    } else if stops(events[0]) {
        seq![events[0]]
    } else {
        seq![events[0]] + read_events(events.drop_first())
    }
}

/// Reads the events of a document up to its end or its first fault.
pub fn read_document(s: &str, trim: bool) -> (r: Vec<XmlEvent>)
    ensures
        event_views(r@) == read_events(xml_events(s@, trim)),
{
    let mut reader = open_reader(s, trim);
    let mut out: Vec<XmlEvent> = Vec::new();
    let ghost all = read_events(xml_events(s@, trim));
    assert(event_views(out@) + all =~= all);
    loop
        invariant
            event_views(out@) + read_events(pending(reader)) == all,
            all == read_events(xml_events(s@, trim)),
        decreases pending(reader).len(),
    {
        let ghost left = pending(reader);
        let ghost before = out@;
        let e: XmlEvent = next_event(&mut reader);
        let stop: bool = match &e {
            XmlEvent::Fault { .. } => true,
            XmlEvent::Eof => true,
            _ => false,
        };
        out.push(e);
        proof {
            assert(event_views(out@) =~= event_views(before).push(e@));
            if stop {
                assert(event_views(out@) =~= event_views(before) + read_events(left));
            } else {
                assert(event_views(out@) + read_events(pending(reader)) =~= event_views(before) + (
                seq![e@] + read_events(pending(reader))));
            }
        }
        if stop {
            return out;
        }
    }
}

} // verus!
