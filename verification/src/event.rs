//! The events that a tokenizer reports, with names and values already decoded.

use vstd::prelude::*;

verus! {

/// The model of an [`XmlEvent`].
pub enum EventView {
    StartTag { name: Seq<char>, attributes: Seq<(Seq<char>, Seq<char>)> },
    EndTag,
    Text { content: Seq<char> },
    EndOfInput,
}

/// One step of a document, in document order.
#[derive(Debug, PartialEq, Eq)]
pub enum XmlEvent {
    /// An element opens. The attributes stand in the order in which they were written.
    StartTag { name: String, attributes: Vec<(String, String)> },
    /// The innermost open element closes.
    EndTag,
    /// Character data, with references resolved and nothing trimmed.
    Text { content: String },
    /// Nothing follows.
    EndOfInput,
}

/// The model of a list of attributes.
pub open spec fn attributes_view(attributes: Seq<(String, String)>) -> Seq<(Seq<char>, Seq<char>)> {
    Seq::new(attributes.len(), |i: int| (attributes[i].0@, attributes[i].1@))
}

/// The model of a list of events.
pub open spec fn events_view(events: Seq<XmlEvent>) -> Seq<EventView> {
    Seq::new(events.len(), |i: int| events[i]@)
}

impl View for XmlEvent {
    type V = EventView;

    open spec fn view(&self) -> EventView {
        match *self {
            XmlEvent::StartTag { name, attributes } => EventView::StartTag {
                name: name@,
                attributes: attributes_view(attributes@),
            },
            XmlEvent::EndTag => EventView::EndTag,
            XmlEvent::Text { content } => EventView::Text { content: content@ },
            XmlEvent::EndOfInput => EventView::EndOfInput,
        }
    }
}

} // verus!
