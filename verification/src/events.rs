//! Structural events: heading starts carry a nesting level, every other
//! token of a document is opaque and passes through the engine unchanged.

use vstd::prelude::*;

verus! {

/// Declares pulldown_cmark's event type so that event tokens can be carried
/// through the engine; their contents stay opaque to verification.
#[verifier::external_type_specification]
#[verifier::external_body]
pub struct ExEvent<'a>(pulldown_cmark::Event<'a>);

/// One structural event of a document stream, as the numbering engine sees
/// it: a heading start with its nesting level and its original token, a
/// number text spliced in by the engine, or any other token.
pub enum DocEvent {
    /// A heading-start token, with its nesting level (1 = top level).
    Heading(u32, pulldown_cmark::Event<'static>),
    /// Number text spliced in by the engine; never produced by parsing.
    Inserted(String),
    /// Any other token: opaque, passes through unchanged.
    Other(pulldown_cmark::Event<'static>),
}

/// The mathematical image of one event: inserted text is a sequence of
/// characters, everything else stands as it is.
pub ghost enum EventModel {
    Heading(u32, pulldown_cmark::Event<'static>),
    Inserted(Seq<char>),
    Other(pulldown_cmark::Event<'static>),
}

impl View for DocEvent {
    type V = EventModel;

    open spec fn view(&self) -> EventModel {
        match self {
            DocEvent::Heading(level, raw) => EventModel::Heading(*level, *raw),
            DocEvent::Inserted(text) => EventModel::Inserted(text@),
            DocEvent::Other(raw) => EventModel::Other(*raw),
        }
    }
}

/// The image of a whole stream.
pub open spec fn stream_view(events: Seq<DocEvent>) -> Seq<EventModel> {
    Seq::new(events.len(), |i: int| events[i]@)
}

/// The level of a heading that receives a number: within the numbered depth
/// and at least 1. Deeper headings, and anything that is not a heading
/// start, receive none.
pub open spec fn numbered_level(e: EventModel, max_depth: int) -> Option<u32> {
    match e {
        EventModel::Heading(level, _) => if 1 <= level && level <= max_depth {
            Option::Some(level)
        } else {
            Option::None
        },
        _ => Option::None,
    }
}

/// True of the events the engine splices in.
pub open spec fn is_inserted(e: EventModel) -> bool {
    e matches EventModel::Inserted(_)
}

} // verus!
