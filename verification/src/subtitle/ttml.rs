//! TTML.

use vstd::prelude::*;

use super::cue;
use super::cue::{Cue, CueView, OFFSET_LIMIT, SHORTEST};
use super::time;
use super::time::TIME_LIMIT;
use crate::text;
use crate::xml;
use crate::xml::{AttrView, EventView, XmlAttr, XmlEvent};

verus! {

/// A name without its prefix.
pub open spec fn local(name: Seq<u8>) -> Seq<char> {
    text::after_last(text::lossy_text(name), ':')
}

/// What has been read of a TTML document.
pub struct TtmlState {
    pub in_p: bool,
    pub begin: Option<int>,
    pub end: Option<int>,
    pub dur: Option<int>,
    pub text: Seq<char>,
    pub cues: Seq<CueView>,
}

impl TtmlState {
    pub open spec fn start() -> Self {
        TtmlState {
            in_p: false,
            begin: None,
            end: None,
            dur: None,
            text: Seq::empty(),
            cues: Seq::empty(),
        }
    }

    /// After an attribute of a paragraph.
    pub open spec fn with_attr(self, a: Option<AttrView>) -> Self {
        match a {
            None => self,
            Some(x) => {
                let v = time::time_expression(text::lossy_text(x.value));
                if local(x.key) == "begin"@ {
                    TtmlState { begin: v, ..self }
                } else if local(x.key) == "end"@ {
                    TtmlState { end: v, ..self }
                } else if local(x.key) == "dur"@ {
                    TtmlState { dur: v, ..self }
                } else {
                    self
                }
            },
        }
    }

    /// After the first `n` attributes of a paragraph.
    pub open spec fn with_attrs(self, a: Seq<Option<AttrView>>, n: int) -> Self
        decreases n,
    {
        if n <= 0 {
            self
        } else {
            self.with_attrs(a, n - 1).with_attr(a[n - 1])
        }
    }

    /// At the start of a paragraph.
    pub open spec fn opened(self) -> Self {
        TtmlState {
            in_p: true,
            begin: None,
            end: None,
            dur: None,
            text: Seq::empty(),
            ..self
        }
    }

    /// After text inside a paragraph.
    pub open spec fn with_text(self, t: Seq<char>) -> Self {
        if self.in_p {
            TtmlState { text: self.text + t, ..self }
        } else {
            self
        }
    }

    /// When a paragraph that starts at `start` ends.
    pub open spec fn end_of(self, start: int, default_ns: int) -> int {
        match self.end {
            Some(e) => e,
            None => match self.dur {
                Some(d) => start + d,
                None => start + cue::max_int(default_ns, SHORTEST as int),
            },
        }
    }

    /// At the end of a paragraph: a cue, where it has a start, an end behind it and text.
    pub open spec fn closed(self, default_ns: int) -> Self {
        let t = text::trimmed(self.text);
        match self.begin {
            Some(start) => if t.len() > 0 && self.end_of(start, default_ns) > start {
                TtmlState {
                    in_p: false,
                    cues: self.cues.push(
                        CueView {
                            start,
                            end: self.end_of(start, default_ns),
                            text: t,
                            settings: Seq::empty(),
                            id: None,
                        },
                    ),
                    ..self
                }
            } else {
                TtmlState { in_p: false, ..self }
            },
            None => TtmlState { in_p: false, ..self },
        }
    }

    /// After an event.
    pub open spec fn with_event(self, e: EventView, default_ns: int) -> Self {
        match e {
            EventView::Start { name, attrs } => if local(name) == "p"@ {
                self.opened().with_attrs(attrs, attrs.len() as int)
            } else if local(name) == "br"@ {
                self.with_text(seq!['\n'])
            } else {
                self
            },
            EventView::Empty { name, attrs } => if local(name) == "br"@ {
                self.with_text(seq!['\n'])
            } else {
                self
            },
            EventView::Text { raw } => match xml::xml_unescaped(text::lossy_text(raw)) {
                Some(t) => self.with_text(text::trimmed(t)),
                None => self,
            },
            EventView::CData { raw } => self.with_text(text::trimmed(text::lossy_text(raw))),
            EventView::End { name } => if local(name) == "p"@ && self.in_p {
                self.closed(default_ns)
            } else {
                self
            },
            _ => self,
        }
    }

    /// After the first `n` events.
    pub open spec fn with_events(events: Seq<EventView>, n: int, default_ns: int) -> Self
        decreases n,
    {
        if n <= 0 {
            TtmlState::start()
        } else {
            TtmlState::with_events(events, n - 1, default_ns).with_event(events[n - 1], default_ns)
        }
    }
}

/// The body that the events of a TTML document make in a fragment that starts at `offset`.
pub open spec fn events_body(events: Seq<EventView>, offset: int, default_ns: int) -> Seq<char> {
    cue::body_of(
        TtmlState::with_events(events, events.len() as int, default_ns).cues,
        offset,
        default_ns,
    )
}

/// The body of a TTML document in a fragment that starts at `offset`.
pub open spec fn ttml_body(s: Seq<char>, offset: int, default_ns: int) -> Seq<char> {
    events_body(xml::read_events(xml::xml_events(s, false)), offset, default_ns)
}

/// Whether a text is likely TTML.
pub open spec fn is_ttml(s: Seq<char>) -> bool {
    s.len() > 0 && s[0] == '<' && (text::contains(s, "<tt"@) || text::contains(s, ":tt"@)
        || text::contains(s, "<p"@))
}

/// Whether a text is likely TTML.
pub fn looks_like_ttml(s: &[char]) -> (r: bool)
    ensures
        r == is_ttml(s@),
{
    s.len() > 0 && s[0] == '<' && (text::has(s, "<tt") || text::has(s, ":tt") || text::has(
        s,
        "<p",
    ))
}

/// A name without its prefix.
pub fn local_name(name: &[u8]) -> (r: Vec<char>)
    ensures
        r@ == local(name@),
{
    text::behind_last(text::to_chars(text::from_utf8_lossy(name).as_str()).as_slice(), ':')
}

/// A time that may be missing.
pub open spec fn opt_int(v: Option<i128>) -> Option<int> {
    match v {
        Some(x) => Some(x as int),
        None => None,
    }
}

struct TtmlReader {
    in_p: bool,
    begin: Option<i128>,
    end: Option<i128>,
    dur: Option<i128>,
    text: Vec<char>,
    cues: Vec<Cue>,
}

spec fn below_limit(v: Option<i128>) -> bool {
    v matches Some(x) ==> -TIME_LIMIT < x < TIME_LIMIT
}

impl View for TtmlReader {
    type V = TtmlState;

    closed spec fn view(&self) -> TtmlState {
        TtmlState {
            in_p: self.in_p,
            begin: opt_int(self.begin),
            end: opt_int(self.end),
            dur: opt_int(self.dur),
            text: self.text@,
            cues: cue::cue_views(self.cues@),
        }
    }
}

impl TtmlReader {
    spec fn wf(self) -> bool {
        below_limit(self.begin) && below_limit(self.end) && below_limit(self.dur) && cue::in_range(
            cue::cue_views(self.cues@),
        )
    }

    fn add_attr(&mut self, a: &Option<XmlAttr>)
        requires
            old(self).wf(),
        ensures
            final(self).wf(),
            final(self)@ == old(self)@.with_attr(xml::opt_attr(*a)),
    {
        if let Some(x) = a {
            let key: Vec<char> = local_name(x.key.as_slice());
            let value: String = text::from_utf8_lossy(x.value.as_slice());
            if text::is(key.as_slice(), "begin") {
                self.begin = time::parse_time_expression(value.as_str());
            } else if text::is(key.as_slice(), "end") {
                self.end = time::parse_time_expression(value.as_str());
            } else if text::is(key.as_slice(), "dur") {
                self.dur = time::parse_time_expression(value.as_str());
            }
        }
    }

    fn open(&mut self, attrs: &[Option<XmlAttr>])
        requires
            old(self).wf(),
        ensures
            final(self).wf(),
            final(self)@ == old(self)@.opened().with_attrs(
                xml::attr_views(attrs@),
                attrs@.len() as int,
            ),
    {
        let ghost opened = self@.opened();
        let ghost all = xml::attr_views(attrs@);
        self.in_p = true;
        self.begin = None;
        self.end = None;
        self.dur = None;
        self.text = Vec::new();
        assert(self.text@ =~= Seq::<char>::empty());
        for i in 0..attrs.len()
            invariant
                self.wf(),
                all == xml::attr_views(attrs@),
                self@ == opened.with_attrs(all, i as int),
        {
            assert(all[i as int] == xml::opt_attr(attrs@[i as int]));
            self.add_attr(&attrs[i]);
        }
    }

    fn add_text(&mut self, t: &[char])
        requires
            old(self).wf(),
        ensures
            final(self).wf(),
            final(self)@ == old(self)@.with_text(t@),
    {
        if self.in_p {
            text::append(&mut self.text, t);
        }
    }

    fn close(&mut self, default_ns: u64)
        requires
            old(self).wf(),
        ensures
            final(self).wf(),
            final(self)@ == old(self)@.closed(default_ns as int),
    {
        self.in_p = false;
        let t: Vec<char> = text::trim(self.text.as_slice());
        if let Some(start) = self.begin {
            let end: i128 = match self.end {
                Some(e) => e,
                None => match self.dur {
                    Some(d) => start + d,
                    None => if default_ns as i128 >= SHORTEST {
                        start + default_ns as i128
                    } else {
                        start + SHORTEST
                    },
                },
            };
            if t.len() > 0 && end > start {
                let ghost before = cue::cue_views(self.cues@);
                let c = Cue {
                    start,
                    end,
                    text: text::from_chars(t.as_slice()),
                    settings: String::new(),
                    id: None,
                };
                assert(c@.settings =~= Seq::<char>::empty());
                self.cues.push(c);
                assert(cue::cue_views(self.cues@) =~= before.push(c@));
            }
        }
    }

    fn add_event(&mut self, e: &XmlEvent, default_ns: u64)
        requires
            old(self).wf(),
        ensures
            final(self).wf(),
            final(self)@ == old(self)@.with_event(e@, default_ns as int),
    {
        match e {
            XmlEvent::Start { name, attrs } => {
                let tag: Vec<char> = local_name(name.as_slice());
                if text::is(tag.as_slice(), "p") {
                    self.open(attrs.as_slice());
                } else if text::is(tag.as_slice(), "br") {
                    self.line_break();
                }
            },
            XmlEvent::Empty { name, .. } => {
                if text::is(local_name(name.as_slice()).as_slice(), "br") {
                    self.line_break();
                }
            },
            XmlEvent::Text { raw } => {
                let decoded: String = text::from_utf8_lossy(raw.as_slice());
                if let Some(t) = xml::unescape(decoded.as_str()) {
                    self.add_text(text::trim(text::to_chars(t.as_str()).as_slice()).as_slice());
                }
            },
            XmlEvent::CData { raw } => {
                let decoded: String = text::from_utf8_lossy(raw.as_slice());
                self.add_text(text::trim(text::to_chars(decoded.as_str()).as_slice()).as_slice());
            },
            XmlEvent::End { name } => {
                if text::is(local_name(name.as_slice()).as_slice(), "p") && self.in_p {
                    self.close(default_ns);
                }
            },
            _ => {},
        }
    }

    fn line_break(&mut self)
        requires
            old(self).wf(),
        ensures
            final(self).wf(),
            final(self)@ == old(self)@.with_text(seq!['\n']),
    {
        if self.in_p {
            let ghost before = self.text@;
            self.text.push('\n');
            assert(self.text@ =~= before + seq!['\n']);
        }
    }
}

/// The body that the events of a TTML document make.
pub fn events_to_body(events: &[XmlEvent], offset: i128, default_ns: u64) -> (r: String)
    requires
        -OFFSET_LIMIT < offset < OFFSET_LIMIT,
    ensures
        r@ == events_body(xml::event_views(events@), offset as int, default_ns as int),
{
    let ghost all = xml::event_views(events@);
    let mut reader = TtmlReader {
        in_p: false,
        begin: None,
        end: None,
        dur: None,
        text: Vec::new(),
        cues: Vec::new(),
    };
    assert(reader@.text =~= Seq::<char>::empty());
    assert(reader@.cues =~= Seq::<CueView>::empty());
    for i in 0..events.len()
        invariant
            reader.wf(),
            all == xml::event_views(events@),
            reader@ == TtmlState::with_events(all, i as int, default_ns as int),
    {
        assert(all[i as int] == events@[i as int]@);
        reader.add_event(&events[i], default_ns);
    }
    cue::normalize_and_format_cues(reader.cues.as_slice(), offset, default_ns)
}

/// The body of a TTML document in a fragment that starts at `offset`.
pub fn ttml_to_body(s: &str, offset: i128, default_ns: u64) -> (r: String)
    requires
        -OFFSET_LIMIT < offset < OFFSET_LIMIT,
    ensures
        r@ == ttml_body(s@, offset as int, default_ns as int),
{
    let events: Vec<XmlEvent> = xml::read_document(s, false);
    events_to_body(events.as_slice(), offset, default_ns)
}

} // verus!
