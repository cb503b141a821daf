use section_numbers::counters::update_section_numbers;
use section_numbers::format::format_section_numbers;

#[test]
fn first_top_level_heading_elides() {
    let nums = vec![1, 0, 0];
    assert_eq!(format_section_numbers(&nums, 1), "");
}

#[test]
fn later_top_level_headings_get_a_chapter_label() {
    let nums = vec![2, 0, 0];
    assert_eq!(format_section_numbers(&nums, 1), "Chapter 2: ");
    let nums = vec![12, 0, 0];
    assert_eq!(format_section_numbers(&nums, 1), "Chapter 12: ");
}

#[test]
fn deeper_levels_join_with_dots() {
    let nums = vec![1, 2, 0];
    assert_eq!(format_section_numbers(&nums, 2), "1.2");
    let nums = vec![1, 0, 1];
    assert_eq!(format_section_numbers(&nums, 3), "1.0.1");
    let nums = vec![10, 23, 456];
    assert_eq!(format_section_numbers(&nums, 3), "10.23.456");
}

#[test]
fn elision_is_only_for_counter_one_at_level_one() {
    // level 2 renders even when its slot is 1
    let nums = vec![1, 1, 0];
    assert_eq!(format_section_numbers(&nums, 2), "1.1");
}

#[test]
fn update_increments_and_resets_deeper_levels() {
    let mut nums = vec![1, 2, 3, 0];
    update_section_numbers(&mut nums, 1);
    assert_eq!(nums, vec![2, 0, 0, 0]);

    let mut nums = vec![1, 2, 3, 4];
    update_section_numbers(&mut nums, 2);
    assert_eq!(nums, vec![1, 3, 0, 0]);

    let mut nums = vec![1, 2, 3, 4];
    update_section_numbers(&mut nums, 4);
    assert_eq!(nums, vec![1, 2, 3, 5]);
}

#[test]
fn update_counts_unvisited_levels_from_zero() {
    // a jump from level 1 straight to level 3: level 2 stays 0
    let mut nums = vec![1, 0, 0];
    update_section_numbers(&mut nums, 3);
    assert_eq!(nums, vec![1, 0, 1]);
}
