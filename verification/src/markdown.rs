//! The markdown boundary: a document's text is tokenized into events by
//! pulldown_cmark, numbered by the engine, and re-serialized by
//! pulldown_cmark_to_cmark. Only the two calls at the boundary are trusted;
//! the pass in between is verified.

use vstd::prelude::*;
use crate::engine::{number_doc, number_events, DEEPEST_NUMBERED_SECTIONS};
use crate::events::{DocEvent, stream_view};

verus! {

/// Declares pulldown_cmark_to_cmark's error type so that a failed
/// re-serialization can be handed back to the caller.
#[verifier::external_type_specification]
#[verifier::external_body]
pub struct ExCmarkError(pulldown_cmark_to_cmark::Error);

/// Why a document could not be numbered.
#[derive(Debug)]
pub enum NumberingError {
    /// The stream holds so many events that a counter could outgrow its
    /// width.
    TooManyEvents,
    /// Re-serializing the numbered stream failed.
    Render(pulldown_cmark_to_cmark::Error),
}

/// The event stream that markdown text tokenizes to.
pub uninterp spec fn parse_model(content: Seq<char>) -> Seq<crate::events::EventModel>;

/// What re-serializing an event stream returns: the markdown text, or
/// nothing where the serializer rejects the stream. Both are a function of
/// the events alone.
pub uninterp spec fn render_model(events: Seq<crate::events::EventModel>) -> Option<Seq<char>>;

/// Relies on pulldown_cmark::Parser: tokenizes markdown text into events,
/// a function of the text alone; each heading-start event carries its level.
#[verifier::external_body]
fn parse_markdown(content: &str) -> (r: Vec<DocEvent>)
    ensures
        stream_view(r@) == parse_model(content@),
{
    let mut out: Vec<DocEvent> = Vec::new();
    for ev in pulldown_cmark::Parser::new(content) {
        let lvl: Option<u32> = match &ev {
            pulldown_cmark::Event::Start(pulldown_cmark::Tag::Heading { level, .. }) => {
                Some(*level as u32)
            },
            _ => None,
        };
        out.push(match lvl {
            Some(l) => DocEvent::Heading(l, ev.into_static()),
            None => DocEvent::Other(ev.into_static()),
        });
    }
    out
}

/// Relies on pulldown_cmark_to_cmark::cmark: re-serializes an event stream
/// to markdown text. Whether it succeeds, and with what text, depends on
/// the events alone: a rejected stream gets an error, never a panic, and
/// writing into a String cannot fail.
#[verifier::external_body]
fn render_markdown(events: Vec<DocEvent>) -> (r: Result<
    String,
    pulldown_cmark_to_cmark::Error,
>)
    ensures
        r is Ok <==> render_model(stream_view(events@)) is Some,
        r matches Ok(s) ==> Option::Some(s@) == render_model(stream_view(events@)),
{
    let mut raw: Vec<pulldown_cmark::Event<'static>> = Vec::new();
    for e in events {
        raw.push(match e {
            DocEvent::Heading(_, ev) => ev,
            DocEvent::Inserted(s) => pulldown_cmark::Event::Text(pulldown_cmark::CowStr::from(s)),
            DocEvent::Other(ev) => ev,
        });
    }
    let mut buf = String::new();
    match pulldown_cmark_to_cmark::cmark(raw.into_iter(), &mut buf, pulldown_cmark::Options::empty())
    {
        Ok(_) => Ok(buf),
        Err(e) => Err(e),
    }
}

/// The counters can take one increment per event without outgrowing their
/// width.
pub open spec fn counters_fit(starting: Seq<u32>, n_events: int) -> bool {
    n_events <= u32::MAX && (forall|i: int|
        0 <= i < starting.len() ==> starting[i] + n_events <= u32::MAX)
}

/// Numbers the headings of one document's markdown text. An empty starting
/// number disables numbering and returns the text unchanged; otherwise the
/// text is tokenized, numbered by the engine, and re-serialized.
pub fn add_section_numbers(content: &str, starting: &Vec<u32>) -> (r: Result<
    String,
    NumberingError,
>)
    ensures
        starting@.len() == 0 ==> (r matches Ok(s) && s@ == content@),
        starting@.len() > 0 ==> (r matches Ok(s) ==> Option::Some(s@) == render_model(
            number_doc(
                starting@,
                parse_model(content@),
                DEEPEST_NUMBERED_SECTIONS as int,
            ),
        )),
        (r matches Err(e) && e is TooManyEvents) <==> (starting@.len() > 0 && !counters_fit(
            starting@,
            parse_model(content@).len() as int,
        )),
        (r matches Err(e) && e is Render) <==> (starting@.len() > 0 && counters_fit(
            starting@,
            parse_model(content@).len() as int,
        ) && render_model(
            number_doc(starting@, parse_model(content@), DEEPEST_NUMBERED_SECTIONS as int),
        ) is None),
{
    if starting.len() == 0 {
        return Ok(content.to_owned());
    }
    let events = parse_markdown(content);
    proof {
        assert(events@.len() == parse_model(content@).len());
    }
    let n: usize = events.len();
    if n > u32::MAX as usize {
        proof {
            assert(u32::MAX as usize == u32::MAX as int);
            assert(!counters_fit(starting@, parse_model(content@).len() as int));
        }
        return Err(NumberingError::TooManyEvents);
    }
    let n32: u32 = n as u32;
    let mut i: usize = 0;
    while i < starting.len()
        invariant
            i <= starting@.len(),
            n == events@.len(),
            n == parse_model(content@).len(),
            n <= u32::MAX,
            n32 == n,
            forall|j: int| 0 <= j < i ==> starting@[j] + n <= u32::MAX,
        decreases starting@.len() - i,
    {
        if starting[i] > u32::MAX - n32 {
            proof {
                assert(starting@[i as int] + parse_model(content@).len() > u32::MAX);
                assert(!counters_fit(starting@, parse_model(content@).len() as int));
            }
            return Err(NumberingError::TooManyEvents);
        }
        i += 1;
    }
    let out = number_events(starting, events, DEEPEST_NUMBERED_SECTIONS);
    match render_markdown(out) {
        Ok(s) => Ok(s),
        Err(e) => Err(NumberingError::Render(e)),
    }
}

} // verus!
