use vstd::prelude::*;

verus! {

/// An attribute of a start tag: its local name and its value.
#[derive(Debug)]
pub struct Attribute {
    pub name: String,
    pub value: String,
}

/// A namespace binding active on a start tag: a prefix and the URI it maps to.
#[derive(Debug)]
pub struct Namespace {
    pub prefix: String,
    pub uri: String,
}

/// One parse event, as a tokenizer hands it out.
#[derive(Debug)]
pub enum Event {
    StartElement { name: String, attributes: Vec<Attribute>, namespaces: Vec<Namespace> },
    EndElement { name: String },
    Characters(String),
    /// Any event of another kind, such as the end of the document.
    Other,
}

pub enum EventModel {
    StartElement {
        name: Seq<char>,
        attributes: Seq<(Seq<char>, Seq<char>)>,
        namespaces: Seq<(Seq<char>, Seq<char>)>,
    },
    EndElement { name: Seq<char> },
    Characters(Seq<char>),
    Other,
}

pub open spec fn attributes_view(a: Seq<Attribute>) -> Seq<(Seq<char>, Seq<char>)> {
    a.map_values(|x: Attribute| (x.name@, x.value@))
}

pub open spec fn namespaces_view(a: Seq<Namespace>) -> Seq<(Seq<char>, Seq<char>)> {
    a.map_values(|x: Namespace| (x.prefix@, x.uri@))
}

impl View for Event {
    type V = EventModel;

    open spec fn view(&self) -> EventModel {
        match self {
            Event::StartElement { name, attributes, namespaces } => EventModel::StartElement {
                name: name@,
                attributes: attributes_view(attributes@),
                namespaces: namespaces_view(namespaces@),
            },
            Event::EndElement { name } => EventModel::EndElement { name: name@ },
            Event::Characters(t) => EventModel::Characters(t@),
            Event::Other => EventModel::Other,
        }
    }
}

pub open spec fn events_view(e: Seq<Event>) -> Seq<EventModel> {
    e.map_values(|x: Event| x@)
}

/// A forward-only source of events with one event of lookahead.
pub struct EventCursor {
    events: Vec<Event>,
    pos: usize,
}

impl EventCursor {
    /// All events of the stream, those already consumed included.
    pub closed spec fn events(&self) -> Seq<EventModel> {
        events_view(self.events@)
    }

    /// How many events have been consumed.
    pub closed spec fn position(&self) -> nat {
        self.pos as nat
    }

    pub closed spec fn wf(&self) -> bool {
        self.pos <= self.events@.len()
    }

    /// A well-formed cursor has consumed no more events than the stream holds.
    pub proof fn lemma_position_bound(&self)
        requires
            self.wf(),
        ensures
            self.position() <= self.events().len(),
    {
    }

    /// A cursor at the start of the given events.
    pub fn new(events: Vec<Event>) -> (r: EventCursor)
        ensures
            r.wf(),
            r.events() == events_view(events@),
            r.position() == 0,
    {
        EventCursor { events, pos: 0 }
    }

    /// The next event, without consuming it; `None` once the stream is spent.
    pub fn peek(&self) -> (r: Option<&Event>)
        requires
            self.wf(),
        ensures
            self.events().len() <= usize::MAX,
            match r {
                Some(e) => self.position() < self.events().len() && e@ == self.events()[
                    self.position() as int],
                None => self.position() == self.events().len(),
            },
    {
        if self.pos < self.events.len() {
            Some(&self.events[self.pos])
        } else {
            None
        }
    }

    /// Consumes the next event, if there is one.
    pub fn advance(&mut self)
        requires
            old(self).wf(),
        ensures
            final(self).wf(),
            final(self).events() == old(self).events(),
            final(self).position() == if old(self).position() < old(self).events().len() {
                old(self).position() + 1
            } else {
                old(self).position()
            },
    {
        if self.pos < self.events.len() {
            self.pos = self.pos + 1;
        }
    }
}

} // verus!
