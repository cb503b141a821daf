use pulldown_cmark::{CowStr, Event, HeadingLevel, Tag};
use section_numbers::engine::{init_counters, number_events, DEEPEST_NUMBERED_SECTIONS};
use section_numbers::events::DocEvent;

fn heading_level(n: u32) -> HeadingLevel {
    match n {
        1 => HeadingLevel::H1,
        2 => HeadingLevel::H2,
        3 => HeadingLevel::H3,
        4 => HeadingLevel::H4,
        5 => HeadingLevel::H5,
        _ => HeadingLevel::H6,
    }
}

fn h(level: u32) -> DocEvent {
    DocEvent::Heading(
        level,
        Event::Start(Tag::Heading {
            level: heading_level(level),
            id: None,
            classes: vec![],
            attrs: vec![],
        }),
    )
}

fn txt(s: &str) -> DocEvent {
    DocEvent::Other(Event::Text(CowStr::from(s.to_string())))
}

/// The inserted number texts of an output stream, in order.
fn inserted(out: &[DocEvent]) -> Vec<String> {
    out.iter()
        .filter_map(|e| match e {
            DocEvent::Inserted(s) => Some(s.clone()),
            _ => None,
        })
        .collect()
}

/// The level of each heading event of a stream, in order.
fn heading_levels(out: &[DocEvent]) -> Vec<u32> {
    out.iter()
        .filter_map(|e| match e {
            DocEvent::Heading(l, _) => Some(*l),
            _ => None,
        })
        .collect()
}

#[test]
fn siblings_and_reset() {
    // headings H1, H2, H2, H1, H2 with starting number [1]
    let events = vec![h(1), h(2), h(2), h(1), h(2)];
    let out = number_events(&vec![1], events, DEEPEST_NUMBERED_SECTIONS);
    assert_eq!(
        inserted(&out),
        vec![" ", "1.1 ", "1.2 ", "Chapter 2:  ", "2.1 "]
    );
    assert_eq!(heading_levels(&out), vec![1, 2, 2, 1, 2]);
}

#[test]
fn level_jump_skips_middle() {
    // headings H1, H3, H2 with starting number [1]: the H3 numbers under a
    // level 2 that was never visited, and the later H2 is unaffected by it
    let events = vec![h(1), h(3), h(2)];
    let out = number_events(&vec![1], events, DEEPEST_NUMBERED_SECTIONS);
    assert_eq!(inserted(&out), vec![" ", "1.0.1 ", "1.1 "]);
}

#[test]
fn non_one_starting_value_never_elides() {
    let events = vec![h(1)];
    let out = number_events(&vec![3], events, DEEPEST_NUMBERED_SECTIONS);
    assert_eq!(inserted(&out), vec!["Chapter 3:  "]);
}

#[test]
fn beyond_depth_inserts_nothing() {
    let events = vec![h(4)];
    let out = number_events(&vec![1], events, DEEPEST_NUMBERED_SECTIONS);
    assert_eq!(out.len(), 1);
    assert_eq!(inserted(&out), Vec::<String>::new());
    assert_eq!(heading_levels(&out), vec![4]);
}

#[test]
fn beyond_depth_leaves_counters_alone() {
    // an H4 between two H2 siblings does not disturb their numbering
    let events = vec![h(1), h(2), h(4), h(2)];
    let out = number_events(&vec![1], events, DEEPEST_NUMBERED_SECTIONS);
    assert_eq!(inserted(&out), vec![" ", "1.1 ", "1.2 "]);
}

#[test]
fn empty_starting_number_passes_through() {
    let events = vec![h(1), txt("hello"), h(2)];
    let out = number_events(&Vec::new(), events, DEEPEST_NUMBERED_SECTIONS);
    assert_eq!(out.len(), 3);
    assert_eq!(inserted(&out), Vec::<String>::new());
    assert_eq!(heading_levels(&out), vec![1, 2]);
    assert!(matches!(&out[1], DocEvent::Other(Event::Text(s)) if &**s == "hello"));
}

#[test]
fn unrelated_content_survives_in_order() {
    let events = vec![txt("a"), h(1), txt("b"), h(2), txt("c")];
    let out = number_events(&vec![1], events, DEEPEST_NUMBERED_SECTIONS);
    let texts: Vec<String> = out
        .iter()
        .filter_map(|e| match e {
            DocEvent::Other(Event::Text(s)) => Some(s.to_string()),
            _ => None,
        })
        .collect();
    assert_eq!(texts, vec!["a", "b", "c"]);
    // non-inserted events come out exactly as they went in
    let kept: Vec<&DocEvent> = out
        .iter()
        .filter(|e| !matches!(e, DocEvent::Inserted(_)))
        .collect();
    assert_eq!(kept.len(), 5);
}

#[test]
fn deeper_sibling_restarts_after_parent() {
    // H2 under the second H1 restarts at x.1
    let events = vec![h(1), h(2), h(2), h(3), h(1), h(2), h(3)];
    let out = number_events(&vec![1], events, DEEPEST_NUMBERED_SECTIONS);
    assert_eq!(
        inserted(&out),
        vec![" ", "1.1 ", "1.2 ", "1.2.1 ", "Chapter 2:  ", "2.1 ", "2.1.1 "]
    );
}

#[test]
fn multi_component_starting_number() {
    // a starting number [2, 1]: the last component seeds level 2
    let events = vec![h(2), h(2)];
    let out = number_events(&vec![2, 1], events, DEEPEST_NUMBERED_SECTIONS);
    assert_eq!(inserted(&out), vec!["2.1 ", "2.2 "]);
}

#[test]
fn zero_starting_component_clamps() {
    // a starting component of zero decrements no further
    let nums = init_counters(&vec![0], DEEPEST_NUMBERED_SECTIONS);
    assert_eq!(nums[0], 0);
    assert_eq!(nums.len(), 9);
    let out = number_events(&vec![0], vec![h(1)], DEEPEST_NUMBERED_SECTIONS);
    assert_eq!(inserted(&out), vec![" "]);
}

#[test]
fn init_counters_pads_and_decrements() {
    let nums = init_counters(&vec![3], DEEPEST_NUMBERED_SECTIONS);
    assert_eq!(nums, vec![2, 0, 0, 0, 0, 0, 0, 0, 0]);
    let nums = init_counters(&vec![4, 2], DEEPEST_NUMBERED_SECTIONS);
    assert_eq!(nums, vec![4, 1, 0, 0, 0, 0, 0, 0, 0, 0]);
}

#[test]
fn insertions_stand_directly_after_numbered_headings() {
    let events = vec![txt("a"), h(1), h(4), txt("b"), h(2), h(6)];
    let out = number_events(&vec![1], events, DEEPEST_NUMBERED_SECTIONS);
    for j in 0..out.len() {
        if matches!(out[j], DocEvent::Inserted(_)) {
            assert!(j >= 1);
            assert!(matches!(out[j - 1], DocEvent::Heading(l, _) if (1..=3).contains(&l)));
        }
        if let DocEvent::Heading(l, _) = out[j] {
            if (1..=3).contains(&l) {
                assert!(matches!(out.get(j + 1), Some(DocEvent::Inserted(_))));
            } else {
                assert!(!matches!(out.get(j + 1), Some(DocEvent::Inserted(_))));
            }
        }
    }
}

#[test]
fn deep_heading_insertion_changes_no_numbers() {
    let without = number_events(&vec![1], vec![h(1), h(2), h(2)], DEEPEST_NUMBERED_SECTIONS);
    let with_deep = number_events(
        &vec![1],
        vec![h(1), h(4), h(2), h(5), h(2)],
        DEEPEST_NUMBERED_SECTIONS,
    );
    assert_eq!(inserted(&without), inserted(&with_deep));
}

#[test]
fn configurable_depth_numbers_deeper_headings() {
    let events = vec![h(1), h(4)];
    let out = number_events(&vec![1], events, 4);
    assert_eq!(inserted(&out), vec![" ", "1.0.0.1 "]);
}
