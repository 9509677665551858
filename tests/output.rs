use proverb::output::format_for_output;

#[test]
fn non_interactive_output_is_unchanged() {
    let long = "word ".repeat(500);
    assert_eq!(format_for_output(&long, false, Some(20)), long);
    assert_eq!(format_for_output("  a\n b  ", false, None), "  a\n b  ");
}

#[test]
fn unknown_width_is_unchanged() {
    let text = "Memory safety without garbage collection.";
    assert_eq!(format_for_output(text, true, None), text);
}

#[test]
fn interactive_output_is_wrapped() {
    let text = "Memory safety without garbage collection.";
    let out = format_for_output(text, true, Some(15));
    assert_eq!(out, "Memory safety\nwithout garbage\ncollection.");
    for line in out.lines() {
        assert!(line.chars().count() <= 15);
    }
}

#[test]
fn long_words_are_not_broken() {
    let text = "a supercalifragilistic word";
    let out = format_for_output(text, true, Some(10));
    assert_eq!(out, "a\nsupercalifragilistic\nword");
}

#[test]
fn wrapping_is_greedy() {
    // First fit fills each line as far as it goes; an optimal fit would
    // balance the lines as "aaa bb" / "cc ddd" instead.
    let out = format_for_output("aaa bb cc ddd", true, Some(9));
    assert_eq!(out, "aaa bb cc\nddd");
    for line in out.lines() {
        assert!(line.chars().count() <= 9);
    }
}
