use section_numbers::markdown::add_section_numbers;

#[test]
fn empty_starting_number_returns_content_unchanged() {
    let content = "# Alpha\n\ntext with *emphasis* and `code`\n\n## Beta\n";
    let out = add_section_numbers(content, &Vec::new()).unwrap();
    assert_eq!(out, content);
}

#[test]
fn numbers_are_spliced_into_headings() {
    let content = "# Alpha\n\nintro text\n\n## Beta\n\nmore text\n\n## Gamma\n";
    let out = add_section_numbers(content, &vec![1]).unwrap();
    // the serializer escapes the dots of a number at the start of a line
    assert!(out.contains("1\\.1 Beta"), "got: {out}");
    assert!(out.contains("1\\.2 Gamma"), "got: {out}");
    // the first top-level heading gets no number
    assert!(!out.contains("Chapter"), "got: {out}");
    // unrelated content still reads the same
    assert!(out.contains("intro text"), "got: {out}");
    assert!(out.contains("more text"), "got: {out}");
}

#[test]
fn second_chapter_heading_is_labelled() {
    let content = "# Alpha\n\n# Omega\n";
    let out = add_section_numbers(content, &vec![1]).unwrap();
    assert!(out.contains("Chapter 2:"), "got: {out}");
}

#[test]
fn starting_number_seeds_the_chapter_label() {
    let content = "# Alpha\n\n## Beta\n";
    let out = add_section_numbers(content, &vec![3]).unwrap();
    assert!(out.contains("Chapter 3:"), "got: {out}");
    assert!(out.contains("3\\.1 Beta"), "got: {out}");
}

#[test]
fn headings_beyond_the_depth_stay_bare() {
    let content = "#### Deep\n";
    let out = add_section_numbers(content, &vec![1]).unwrap();
    assert!(out.contains("Deep"), "got: {out}");
    assert!(!out.contains("1"), "got: {out}");
}

#[test]
fn code_blocks_round_trip() {
    let content = "# Alpha\n\n```\nlet x = 1;\n```\n";
    let out = add_section_numbers(content, &vec![2]).unwrap();
    assert!(out.contains("let x = 1;"), "got: {out}");
    assert!(out.contains("Chapter 2:"), "got: {out}");
}
