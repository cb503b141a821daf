//! The numbering engine: a single forward pass over a document's event
//! stream that splices a number text after each heading within the numbered
//! depth and leaves everything else untouched.

use vstd::prelude::*;
use crate::counters::{step_counters, update_section_numbers};
use crate::events::{DocEvent, EventModel, numbered_level, stream_view};
use crate::format::{format_spec, format_section_numbers};

verus! {

/// Headings nested deeper than this many levels are never numbered.
pub const DEEPEST_NUMBERED_SECTIONS: usize = 3;

/// A starting component one less, so that the first heading's increment
/// restores it; clamped at zero.
pub open spec fn sat_dec(n: u32) -> u32 {
    if n == 0 {
        0u32
    } else {
        ((n - 1) as u32)
    }
}

/// The working length of the counters: comfortably past the starting
/// number's own components and never shorter than the numbered depth.
pub open spec fn working_len(starting_len: int, max_depth: int) -> int {
    if starting_len + 8 >= max_depth {
        starting_len + 8
    } else {
        max_depth
    }
}

/// The counters a document starts from: the starting number with its last
/// component decremented (clamped at zero), right-padded with zeros.
pub open spec fn init_spec(starting: Seq<u32>, max_depth: int) -> Seq<u32>
    recommends
        starting.len() > 0,
{
    Seq::new(
        working_len(starting.len() as int, max_depth) as nat,
        |i: int|
            if i == starting.len() - 1 {
                sat_dec(starting[i])
            } else if i < starting.len() {
                starting[i]
            } else {
                0u32
            },
    )
}

/// Builds the counters a document starts from.
pub fn init_counters(starting: &Vec<u32>, max_depth: usize) -> (nums: Vec<u32>)
    requires
        starting@.len() > 0,
    ensures
        nums@ == init_spec(starting@, max_depth as int),
{
    let mut nums: Vec<u32> = Vec::new();
    let n: usize = starting.len();
    let mut i: usize = 0;
    while i < n
        invariant
            i <= n == starting@.len(),
            nums@.len() == i,
            forall|j: int|
                0 <= j < i ==> nums@[j] == (if j == n - 1 {
                    sat_dec(starting@[j])
                } else {
                    starting@[j]
                }),
        decreases n - i,
    {
        let v: u32 = starting[i];
        if i + 1 == n {
            nums.push(if v == 0 { 0 } else { v - 1 });
        } else {
            nums.push(v);
        }
        i += 1;
    }
    let mut pushed: usize = 0;
    while pushed < 8
        invariant
            pushed <= 8,
            nums@.len() == n + pushed,
            n == starting@.len(),
            forall|j: int| n <= j < nums@.len() ==> nums@[j] == 0,
            forall|j: int|
                0 <= j < n ==> nums@[j] == (if j == n - 1 {
                    sat_dec(starting@[j])
                } else {
                    starting@[j]
                }),
        decreases 8 - pushed,
    {
        nums.push(0);
        pushed += 1;
    }
    while nums.len() < max_depth
        invariant
            nums@.len() >= n + 8,
            nums@.len() == n + 8 || nums@.len() <= max_depth,
            n == starting@.len(),
            forall|j: int| n <= j < nums@.len() ==> nums@[j] == 0,
            forall|j: int|
                0 <= j < n ==> nums@[j] == (if j == n - 1 {
                    sat_dec(starting@[j])
                } else {
                    starting@[j]
                }),
        decreases max_depth - nums@.len(),
    {
        nums.push(0);
    }
    proof {
        assert(nums@ =~= init_spec(starting@, max_depth as int));
    }
    nums
}

/// The text spliced in after a heading at `level`: its number and a
/// separating space.
pub open spec fn inserted_text(nums: Seq<u32>, level: int) -> Seq<char> {
    format_spec(nums, level) + " "@
}

/// The numbered stream: every event passes through; a heading within the
/// numbered depth first steps the counters and is then followed by its
/// number text.
pub open spec fn number_stream(nums: Seq<u32>, events: Seq<EventModel>, max_depth: int) -> Seq<
    EventModel,
>
    decreases events.len(),
{
    if events.len() == 0 {
        Seq::empty()
    } else {
        let e = events.first();
        let rest = events.drop_first();
        match numbered_level(e, max_depth) {
            Option::Some(level) => {
                let stepped = step_counters(nums, level as int);
                seq![e, EventModel::Inserted(inserted_text(stepped, level as int))]
                    + number_stream(stepped, rest, max_depth)
            },
            Option::None => seq![e] + number_stream(nums, rest, max_depth),
        }
    }
}

/// What one document's stream becomes: unchanged when numbering is disabled
/// (an empty starting number), else numbered from the initial counters.
pub open spec fn number_doc(starting: Seq<u32>, events: Seq<EventModel>, max_depth: int) -> Seq<
    EventModel,
> {
    if starting.len() == 0 {
        events
    } else {
        number_stream(init_spec(starting, max_depth), events, max_depth)
    }
}

/// The nesting level of a heading-start event; zero for anything else.
fn heading_level(e: &DocEvent) -> (lvl: u32)
    ensures
        lvl == (match e@ {
            EventModel::Heading(l, _) => l,
            _ => 0u32,
        }),
{
    match e {
        DocEvent::Heading(l, _) => *l,
        _ => 0,
    }
}

/// Numbers one document's events: every event passes through in order, and
/// each heading no deeper than `max_depth` is followed by its number text.
/// An empty starting number disables numbering and returns the stream
/// unchanged.
pub fn number_events(starting: &Vec<u32>, events: Vec<DocEvent>, max_depth: usize) -> (out: Vec<
    DocEvent,
>)
    requires
        starting@.len() > 0 ==> events@.len() <= u32::MAX && (forall|i: int|
            0 <= i < starting@.len() ==> starting@[i] + events@.len() <= u32::MAX),
    ensures
        stream_view(out@) == number_doc(starting@, stream_view(events@), max_depth as int),
{
    if starting.len() == 0 {
        return events;
    }
    let mut nums = init_counters(starting, max_depth);
    let mut rest = events;
    let mut out: Vec<DocEvent> = Vec::new();
    let ghost orig = stream_view(rest@);
    let ghost nums0 = nums@;
    proof {
        assert(forall|i: int|
            0 <= i < nums@.len() ==> nums@[i] + rest@.len() <= u32::MAX);
        assert(stream_view(out@) + number_stream(nums@, stream_view(rest@), max_depth as int)
            =~= number_stream(nums0, orig, max_depth as int));
    }
    while rest.len() > 0
        invariant
            max_depth <= nums@.len(),
            nums0 == init_spec(starting@, max_depth as int),
            forall|i: int| 0 <= i < nums@.len() ==> nums@[i] + rest@.len() <= u32::MAX,
            number_stream(nums0, orig, max_depth as int) == stream_view(out@) + number_stream(
                nums@,
                stream_view(rest@),
                max_depth as int,
            ),
        decreases rest@.len(),
    {
        let ghost rest_before = stream_view(rest@);
        let ghost nums_before = nums@;
        let e = rest.remove(0);
        let ghost em = e@;
        proof {
            assert(rest_before =~= seq![em] + stream_view(rest@));
            assert(rest_before.first() == em);
            assert(rest_before.drop_first() =~= stream_view(rest@));
        }
        let lvl = heading_level(&e);
        let ghost out_before = stream_view(out@);
        out.push(e);
        if 1 <= lvl && lvl as usize <= max_depth {
            update_section_numbers(&mut nums, lvl as usize);
            let mut txt = format_section_numbers(nums.as_slice(), lvl as usize);
            txt.append(" ");
            let ins = DocEvent::Inserted(txt);
            let ghost insm = ins@;
            out.push(ins);
            proof {
                assert(numbered_level(em, max_depth as int) == Option::Some(lvl));
                assert(nums@ == step_counters(nums_before, lvl as int));
                assert(insm == EventModel::Inserted(inserted_text(nums@, lvl as int)));
                assert(stream_view(out@) =~= out_before + seq![em, insm]);
                assert(number_stream(nums_before, rest_before, max_depth as int) == seq![
                    em,
                    insm,
                ] + number_stream(nums@, stream_view(rest@), max_depth as int));
                assert(stream_view(out@) + number_stream(nums@, stream_view(rest@), max_depth as int)
                    =~= number_stream(nums0, orig, max_depth as int));
                assert(forall|i: int|
                    0 <= i < nums@.len() ==> nums@[i] + rest@.len() <= u32::MAX);
            }
        } else {
            proof {
                assert(numbered_level(em, max_depth as int) is None);
                assert(stream_view(out@) =~= out_before + seq![em]);
                assert(number_stream(nums_before, rest_before, max_depth as int) == seq![em]
                    + number_stream(nums@, stream_view(rest@), max_depth as int));
                assert(stream_view(out@) + number_stream(nums@, stream_view(rest@), max_depth as int)
                    =~= number_stream(nums0, orig, max_depth as int));
            }
        }
    }
    proof {
        assert(stream_view(rest@) =~= Seq::<EventModel>::empty());
        assert(number_stream(nums@, stream_view(rest@), max_depth as int)
            =~= Seq::<EventModel>::empty());
        assert(stream_view(out@) =~= number_stream(nums0, orig, max_depth as int));
    }
    out
}

} // verus!
