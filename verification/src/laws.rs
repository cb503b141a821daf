//! What the numbering engine guarantees, stated once and proved: siblings
//! count up one by one, a shallower heading restarts everything below it,
//! deep headings are invisible to the counters, and the input events survive
//! the pass untouched and in order.

use vstd::prelude::*;
use crate::counters::step_counters;
use crate::events::{EventModel, numbered_level, is_inserted};
use crate::engine::{number_stream, number_doc};

verus! {

/// The counters after a stream of events is processed.
pub open spec fn counters_after(nums: Seq<u32>, events: Seq<EventModel>, max_depth: int) -> Seq<
    u32,
>
    decreases events.len(),
{
    if events.len() == 0 {
        nums
    } else {
        match numbered_level(events.first(), max_depth) {
            Option::Some(level) => counters_after(
                step_counters(nums, level as int),
                events.drop_first(),
                max_depth,
            ),
            Option::None => counters_after(nums, events.drop_first(), max_depth),
        }
    }
}

/// Processing a stream never changes how many counter slots there are.
pub proof fn lemma_counters_after_len(nums: Seq<u32>, events: Seq<EventModel>, max_depth: int)
    ensures
        counters_after(nums, events, max_depth).len() == nums.len(),
    decreases events.len(),
{
    if events.len() > 0 {
        match numbered_level(events.first(), max_depth) {
            Option::Some(level) => {
                lemma_counters_after_len(
                    step_counters(nums, level as int),
                    events.drop_first(),
                    max_depth,
                );
            },
            Option::None => {
                lemma_counters_after_len(nums, events.drop_first(), max_depth);
            },
        }
    }
}

/// Processing one stream after another is processing their concatenation.
pub proof fn lemma_counters_after_concat(
    nums: Seq<u32>,
    a: Seq<EventModel>,
    b: Seq<EventModel>,
    max_depth: int,
)
    ensures
        counters_after(nums, a + b, max_depth) == counters_after(
            counters_after(nums, a, max_depth),
            b,
            max_depth,
        ),
    decreases a.len(),
{
    if a.len() == 0 {
        assert(a + b =~= b);
    } else {
        assert((a + b).first() == a.first());
        assert((a + b).drop_first() =~= a.drop_first() + b);
        match numbered_level(a.first(), max_depth) {
            Option::Some(level) => {
                lemma_counters_after_concat(
                    step_counters(nums, level as int),
                    a.drop_first(),
                    b,
                    max_depth,
                );
            },
            Option::None => {
                lemma_counters_after_concat(nums, a.drop_first(), b, max_depth);
            },
        }
    }
}

/// A stream whose numbered headings are all deeper than `cap` leaves the
/// first `cap` counter slots alone.
pub proof fn lemma_shallow_preserved(
    nums: Seq<u32>,
    events: Seq<EventModel>,
    max_depth: int,
    cap: int,
)
    requires
        forall|i: int|
            0 <= i < events.len() ==> (numbered_level(#[trigger] events[i], max_depth) matches Some(
                l,
            ) ==> l > cap),
    ensures
        forall|j: int|
            0 <= j < cap && j < nums.len() ==> counters_after(nums, events, max_depth)[j]
                == nums[j],
    decreases events.len(),
{
    lemma_counters_after_len(nums, events, max_depth);
    if events.len() > 0 {
        assert(forall|i: int|
            0 <= i < events.drop_first().len() ==> (numbered_level(
                #[trigger] events.drop_first()[i],
                max_depth,
            ) matches Some(l) ==> l > cap)) by {
            assert(forall|i: int|
                0 <= i < events.drop_first().len() ==> events.drop_first()[i] == events[i + 1]);
        }
        match numbered_level(events.first(), max_depth) {
            Option::Some(level) => {
                assert(level > cap);
                let stepped = step_counters(nums, level as int);
                assert(forall|j: int| 0 <= j < cap && j < nums.len() ==> stepped[j] == nums[j]);
                lemma_shallow_preserved(stepped, events.drop_first(), max_depth, cap);
            },
            Option::None => {
                lemma_shallow_preserved(nums, events.drop_first(), max_depth, cap);
            },
        }
    }
}

/// One event steps the counters once, or not at all.
proof fn lemma_counters_after_one(nums: Seq<u32>, e: EventModel, max_depth: int)
    ensures
        counters_after(nums, seq![e], max_depth) == (match numbered_level(e, max_depth) {
            Option::Some(level) => step_counters(nums, level as int),
            Option::None => nums,
        }),
{
    assert(seq![e].first() == e);
    assert(seq![e].drop_first() =~= Seq::<EventModel>::empty());
    match numbered_level(e, max_depth) {
        Option::Some(level) => {
            assert(counters_after(
                step_counters(nums, level as int),
                Seq::<EventModel>::empty(),
                max_depth,
            ) == step_counters(nums, level as int));
        },
        Option::None => {
            assert(counters_after(nums, Seq::<EventModel>::empty(), max_depth) == nums);
        },
    }
}

/// Law: same-level siblings are numbered consecutively. A numbered heading
/// at `level` and the next heading at that level — every numbered heading
/// between them being strictly deeper — get level-`level` counter values `c`
/// and `c + 1`, in document order.
pub proof fn lemma_sibling_numbers_increment(
    nums: Seq<u32>,
    pre: Seq<EventModel>,
    mid: Seq<EventModel>,
    h1: EventModel,
    h2: EventModel,
    max_depth: int,
    level: u32,
)
    requires
        numbered_level(h1, max_depth) == Option::Some(level),
        numbered_level(h2, max_depth) == Option::Some(level),
        level <= nums.len(),
        counters_after(nums, pre.push(h1), max_depth)[level - 1] < u32::MAX,
        forall|i: int|
            0 <= i < mid.len() ==> (numbered_level(#[trigger] mid[i], max_depth) matches Some(l)
                ==> l > level),
    ensures
        counters_after(nums, pre.push(h1) + mid + seq![h2], max_depth)[level - 1]
            == counters_after(nums, pre.push(h1), max_depth)[level - 1] + 1,
{
    let c1 = counters_after(nums, pre.push(h1), max_depth);
    lemma_counters_after_len(nums, pre.push(h1), max_depth);
    lemma_counters_after_concat(nums, pre.push(h1), mid, max_depth);
    let c2 = counters_after(c1, mid, max_depth);
    lemma_shallow_preserved(c1, mid, max_depth, level as int);
    lemma_counters_after_len(c1, mid, max_depth);
    assert(c2[level - 1] == c1[level - 1]);
    lemma_counters_after_concat(nums, pre.push(h1) + mid, seq![h2], max_depth);
    assert(counters_after(nums, pre.push(h1) + mid, max_depth) == c2);
    let fin = counters_after(c2, seq![h2], max_depth);
    lemma_counters_after_one(c2, h2, max_depth);
    assert(fin == step_counters(c2, level as int));
    assert(fin[level - 1] == c2[level - 1] + 1);
}

/// Law: numbering restarts below a heading. After a numbered heading at
/// `level`, the next numbered heading at a deeper level `sub` — every
/// numbered heading between them being deeper than `sub` — gets level-`sub`
/// counter value 1, whatever was counted below an earlier sibling.
pub proof fn lemma_descendant_restarts(
    nums: Seq<u32>,
    pre: Seq<EventModel>,
    mid: Seq<EventModel>,
    h1: EventModel,
    h2: EventModel,
    max_depth: int,
    level: u32,
    sub: u32,
)
    requires
        numbered_level(h1, max_depth) == Option::Some(level),
        numbered_level(h2, max_depth) == Option::Some(sub),
        level < sub <= nums.len(),
        forall|i: int|
            0 <= i < mid.len() ==> (numbered_level(#[trigger] mid[i], max_depth) matches Some(l)
                ==> l > sub),
    ensures
        counters_after(nums, pre.push(h1) + mid + seq![h2], max_depth)[sub - 1] == 1,
{
    let c0 = counters_after(nums, pre, max_depth);
    lemma_counters_after_len(nums, pre, max_depth);
    assert(pre.push(h1) =~= pre + seq![h1]);
    lemma_counters_after_concat(nums, pre, seq![h1], max_depth);
    lemma_counters_after_one(c0, h1, max_depth);
    let c1 = counters_after(nums, pre + seq![h1], max_depth);
    assert(c1 == step_counters(c0, level as int));
    assert(c1[sub - 1] == 0);
    lemma_counters_after_concat(nums, pre.push(h1), mid, max_depth);
    assert(counters_after(nums, pre.push(h1), max_depth) == c1);
    let c2 = counters_after(c1, mid, max_depth);
    lemma_shallow_preserved(c1, mid, max_depth, sub as int);
    lemma_counters_after_len(c1, mid, max_depth);
    assert(c2[sub - 1] == 0);
    lemma_counters_after_concat(nums, pre.push(h1) + mid, seq![h2], max_depth);
    assert(counters_after(nums, pre.push(h1) + mid, max_depth) == c2);
    lemma_counters_after_one(c2, h2, max_depth);
    assert(counters_after(c2, seq![h2], max_depth) == step_counters(c2, sub as int));
    assert(step_counters(c2, sub as int)[sub - 1] == 1);
}

/// Splitting a stream splits its numbering: the tail is numbered from the
/// counters the head leaves behind.
pub proof fn lemma_number_stream_concat(
    nums: Seq<u32>,
    a: Seq<EventModel>,
    b: Seq<EventModel>,
    max_depth: int,
)
    ensures
        number_stream(nums, a + b, max_depth) == number_stream(nums, a, max_depth)
            + number_stream(counters_after(nums, a, max_depth), b, max_depth),
    decreases a.len(),
{
    if a.len() == 0 {
        assert(a + b =~= b);
        assert(number_stream(nums, a, max_depth) + number_stream(nums, b, max_depth)
            =~= number_stream(nums, b, max_depth));
    } else {
        assert((a + b).first() == a.first());
        assert((a + b).drop_first() =~= a.drop_first() + b);
        match numbered_level(a.first(), max_depth) {
            Option::Some(level) => {
                let stepped = step_counters(nums, level as int);
                lemma_number_stream_concat(stepped, a.drop_first(), b, max_depth);
                assert(number_stream(nums, a + b, max_depth) =~= number_stream(nums, a, max_depth)
                    + number_stream(counters_after(nums, a, max_depth), b, max_depth));
            },
            Option::None => {
                lemma_number_stream_concat(nums, a.drop_first(), b, max_depth);
                assert(number_stream(nums, a + b, max_depth) =~= number_stream(nums, a, max_depth)
                    + number_stream(counters_after(nums, a, max_depth), b, max_depth));
            },
        }
    }
}

/// Law: the text a numbered heading receives is its number — formatted from
/// the counters just after the heading is counted — and it stands alone,
/// directly after the heading.
pub proof fn lemma_heading_number_text(
    nums: Seq<u32>,
    pre: Seq<EventModel>,
    h: EventModel,
    rest: Seq<EventModel>,
    max_depth: int,
    level: u32,
)
    requires
        numbered_level(h, max_depth) == Option::Some(level),
    ensures
        ({
            let stepped = step_counters(counters_after(nums, pre, max_depth), level as int);
            number_stream(nums, pre + seq![h] + rest, max_depth) == number_stream(
                nums,
                pre,
                max_depth,
            ) + seq![
                h,
                EventModel::Inserted(crate::engine::inserted_text(stepped, level as int)),
            ] + number_stream(stepped, rest, max_depth)
        }),
{
    let c0 = counters_after(nums, pre, max_depth);
    let stepped = step_counters(c0, level as int);
    lemma_number_stream_concat(nums, pre, seq![h] + rest, max_depth);
    assert(pre + seq![h] + rest =~= pre + (seq![h] + rest));
    assert((seq![h] + rest).first() == h);
    assert((seq![h] + rest).drop_first() =~= rest);
    assert(number_stream(c0, seq![h] + rest, max_depth) == seq![
        h,
        EventModel::Inserted(crate::engine::inserted_text(stepped, level as int)),
    ] + number_stream(stepped, rest, max_depth));
    assert(number_stream(nums, pre + seq![h] + rest, max_depth) =~= number_stream(
        nums,
        pre,
        max_depth,
    ) + seq![
        h,
        EventModel::Inserted(crate::engine::inserted_text(stepped, level as int)),
    ] + number_stream(stepped, rest, max_depth));
}

/// Law: a heading deeper than the numbered depth receives no inserted text
/// and leaves every counter untouched, so the numbering around it is exactly
/// what it would be without it.
pub proof fn lemma_deep_heading_inert(
    nums: Seq<u32>,
    e: EventModel,
    rest: Seq<EventModel>,
    max_depth: int,
)
    requires
        e is Heading,
        numbered_level(e, max_depth) is None,
    ensures
        number_stream(nums, seq![e] + rest, max_depth) == seq![e] + number_stream(
            nums,
            rest,
            max_depth,
        ),
        counters_after(nums, seq![e] + rest, max_depth) == counters_after(nums, rest, max_depth),
{
    assert((seq![e] + rest).first() == e);
    assert((seq![e] + rest).drop_first() =~= rest);
}

/// Insertions mark headings, positionally: every inserted event stands
/// directly after a heading within the numbered depth, and every such
/// heading is directly followed by an inserted event. Together the two
/// clauses also make the insertion unique — a second inserted event in a
/// row would need the first to be a heading — and leave deeper headings,
/// and everything else, followed by none.
pub open spec fn insertions_mark_headings(out: Seq<EventModel>, max_depth: int) -> bool {
    &&& forall|j: int|
        0 <= j < out.len() && is_inserted(#[trigger] out[j]) ==> j >= 1 && numbered_level(
            out[j - 1],
            max_depth,
        ) is Some
    &&& forall|j: int|
        0 <= j < out.len() && numbered_level(#[trigger] out[j], max_depth) is Some ==> j + 1
            < out.len() && is_inserted(out[j + 1])
}

/// Law: for a stream that holds no inserted events, the numbered stream
/// gains exactly one inserted text directly after each heading within the
/// numbered depth, and nowhere else.
pub proof fn lemma_insertion_points(nums: Seq<u32>, events: Seq<EventModel>, max_depth: int)
    requires
        forall|i: int| 0 <= i < events.len() ==> !is_inserted(#[trigger] events[i]),
    ensures
        insertions_mark_headings(number_stream(nums, events, max_depth), max_depth),
    decreases events.len(),
{
    let out = number_stream(nums, events, max_depth);
    if events.len() > 0 {
        let e = events.first();
        let rest = events.drop_first();
        assert(!is_inserted(e));
        assert(forall|i: int| 0 <= i < rest.len() ==> !is_inserted(#[trigger] rest[i])) by {
            assert(forall|i: int| 0 <= i < rest.len() ==> rest[i] == events[i + 1]);
        }
        match numbered_level(e, max_depth) {
            Option::Some(level) => {
                let stepped = step_counters(nums, level as int);
                let ins = EventModel::Inserted(
                    crate::engine::inserted_text(stepped, level as int),
                );
                let tail = number_stream(stepped, rest, max_depth);
                lemma_insertion_points(stepped, rest, max_depth);
                assert(out == seq![e, ins] + tail);
                assert forall|j: int| 0 <= j < out.len() && is_inserted(out[j]) implies j >= 1
                    && numbered_level(out[j - 1], max_depth) is Some by {
                    if j >= 2 {
                        assert(out[j] == tail[j - 2]);
                        assert(is_inserted(tail[j - 2]));
                        assert(j - 2 >= 1 && numbered_level(tail[j - 3], max_depth) is Some);
                        assert(out[j - 1] == tail[j - 3]);
                    }
                }
                assert forall|j: int|
                    0 <= j < out.len() && numbered_level(out[j], max_depth) is Some implies j + 1
                    < out.len() && is_inserted(out[j + 1]) by {
                    if j >= 2 {
                        assert(out[j] == tail[j - 2]);
                        assert(numbered_level(tail[j - 2], max_depth) is Some);
                        assert(j - 2 + 1 < tail.len() && is_inserted(tail[j - 1]));
                        assert(out[j + 1] == tail[j - 1]);
                    }
                }
            },
            Option::None => {
                let tail = number_stream(nums, rest, max_depth);
                lemma_insertion_points(nums, rest, max_depth);
                assert(out == seq![e] + tail);
                assert forall|j: int| 0 <= j < out.len() && is_inserted(out[j]) implies j >= 1
                    && numbered_level(out[j - 1], max_depth) is Some by {
                    if j >= 1 {
                        assert(out[j] == tail[j - 1]);
                        assert(is_inserted(tail[j - 1]));
                        assert(j - 1 >= 1 && numbered_level(tail[j - 2], max_depth) is Some);
                        assert(out[j - 1] == tail[j - 2]);
                    }
                }
                assert forall|j: int|
                    0 <= j < out.len() && numbered_level(out[j], max_depth) is Some implies j + 1
                    < out.len() && is_inserted(out[j + 1]) by {
                    if j >= 1 {
                        assert(out[j] == tail[j - 1]);
                        assert(numbered_level(tail[j - 1], max_depth) is Some);
                        assert(j - 1 + 1 < tail.len() && is_inserted(tail[j]));
                        assert(out[j + 1] == tail[j]);
                    }
                }
            },
        }
    }
}

/// Law: a heading deeper than the numbered depth can be spliced in anywhere
/// without changing the sequence of numbers the other headings receive.
pub proof fn lemma_deep_heading_leaves_numbers(
    nums: Seq<u32>,
    a: Seq<EventModel>,
    b: Seq<EventModel>,
    e: EventModel,
    max_depth: int,
)
    requires
        e is Heading,
        numbered_level(e, max_depth) is None,
    ensures
        number_stream(nums, a + seq![e] + b, max_depth).filter(|x: EventModel| is_inserted(x))
            == number_stream(nums, a + b, max_depth).filter(|x: EventModel| is_inserted(x)),
{
    let p = |x: EventModel| is_inserted(x);
    let ca = counters_after(nums, a, max_depth);
    let head = number_stream(nums, a, max_depth);
    let tail = number_stream(ca, b, max_depth);
    lemma_number_stream_concat(nums, a, seq![e] + b, max_depth);
    lemma_deep_heading_inert(ca, e, b, max_depth);
    lemma_number_stream_concat(nums, a, b, max_depth);
    assert(a + seq![e] + b =~= a + (seq![e] + b));
    assert(number_stream(nums, a + seq![e] + b, max_depth) == head + (seq![e] + tail));
    Seq::filter_distributes_over_add(head, seq![e] + tail, p);
    Seq::filter_distributes_over_add(seq![e], tail, p);
    Seq::filter_distributes_over_add(head, tail, p);
    reveal_with_fuel(Seq::filter, 2);
    assert(seq![e].drop_last() =~= Seq::<EventModel>::empty());
    assert(seq![e].filter(p) =~= Seq::<EventModel>::empty());
    assert(number_stream(nums, a + seq![e] + b, max_depth).filter(p) =~= number_stream(
        nums,
        a + b,
        max_depth,
    ).filter(p));
}

/// Law: an empty starting number disables the pass; the output stream is the
/// input stream, element for element.
pub proof fn lemma_disabled_passthrough(events: Seq<EventModel>, max_depth: int)
    ensures
        number_doc(Seq::empty(), events, max_depth) == events,
{
}

/// A filter that every element passes changes nothing.
proof fn lemma_filter_keeps_all(s: Seq<EventModel>, pred: spec_fn(EventModel) -> bool)
    requires
        forall|i: int| 0 <= i < s.len() ==> pred(#[trigger] s[i]),
    ensures
        s.filter(pred) == s,
    decreases s.len(),
{
    reveal(Seq::filter);
    if s.len() > 0 {
        lemma_filter_keeps_all(s.drop_last(), pred);
        assert(s.filter(pred) =~= s);
    }
}

/// Law: every input event — headings included — appears unchanged and in
/// order in the output; dropping the spliced-in number texts gives back the
/// input exactly.
pub proof fn lemma_round_trip_unrelated(
    nums: Seq<u32>,
    events: Seq<EventModel>,
    max_depth: int,
)
    requires
        forall|i: int| 0 <= i < events.len() ==> !is_inserted(#[trigger] events[i]),
    ensures
        number_stream(nums, events, max_depth).filter(|e: EventModel| !is_inserted(e)) == events,
    decreases events.len(),
{
    reveal_with_fuel(Seq::filter, 4);
    let pred = |e: EventModel| !is_inserted(e);
    if events.len() == 0 {
        assert(number_stream(nums, events, max_depth).filter(pred) =~= events);
    } else {
        let e = events.first();
        let rest = events.drop_first();
        assert(!is_inserted(e));
        assert(forall|i: int| 0 <= i < rest.len() ==> !is_inserted(#[trigger] rest[i])) by {
            assert(forall|i: int| 0 <= i < rest.len() ==> rest[i] == events[i + 1]);
        }
        match numbered_level(e, max_depth) {
            Option::Some(level) => {
                let stepped = step_counters(nums, level as int);
                let ins = EventModel::Inserted(
                    crate::engine::inserted_text(stepped, level as int),
                );
                let tail = number_stream(stepped, rest, max_depth);
                lemma_round_trip_unrelated(stepped, rest, max_depth);
                Seq::filter_distributes_over_add(seq![e, ins], tail, pred);
                assert(seq![e, ins].drop_last() =~= seq![e]);
                assert(seq![e].drop_last() =~= Seq::<EventModel>::empty());
                assert(seq![e, ins].filter(pred) =~= seq![e]);
                assert(number_stream(nums, events, max_depth) == seq![e, ins] + tail);
                assert(number_stream(nums, events, max_depth).filter(pred) =~= events);
            },
            Option::None => {
                let tail = number_stream(nums, rest, max_depth);
                lemma_round_trip_unrelated(nums, rest, max_depth);
                Seq::filter_distributes_over_add(seq![e], tail, pred);
                assert(seq![e].drop_last() =~= Seq::<EventModel>::empty());
                assert(seq![e].filter(pred) =~= seq![e]);
                assert(number_stream(nums, events, max_depth) == seq![e] + tail);
                assert(number_stream(nums, events, max_depth).filter(pred) =~= events);
            },
        }
    }
}

/// Law: the round trip holds for a whole document, numbering enabled or not.
pub proof fn lemma_round_trip_doc(
    starting: Seq<u32>,
    events: Seq<EventModel>,
    max_depth: int,
)
    requires
        forall|i: int| 0 <= i < events.len() ==> !is_inserted(#[trigger] events[i]),
    ensures
        number_doc(starting, events, max_depth).filter(|e: EventModel| !is_inserted(e)) == events,
{
    if starting.len() == 0 {
        lemma_filter_keeps_all(events, |e: EventModel| !is_inserted(e));
    } else {
        lemma_round_trip_unrelated(
            crate::engine::init_spec(starting, max_depth),
            events,
            max_depth,
        );
    }
}

} // verus!
