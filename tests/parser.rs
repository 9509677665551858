use proverb::parser::parse_proverbs;

fn parse(text: &str) -> Vec<String> {
    parse_proverbs(text)
}

#[test]
fn trims_only_surrounding_whitespace() {
    assert_eq!(parse("  hello world  "), vec!["hello world".to_string()]);
}

#[test]
fn three_entries_on_their_own_lines() {
    assert_eq!(
        parse("A\n%\nB\n%\nC"),
        vec!["A".to_string(), "B".to_string(), "C".to_string()]
    );
}

#[test]
fn no_delimiter_is_one_entry() {
    assert_eq!(
        parse("\n  A proverb\nover two lines.\n\n"),
        vec!["A proverb\nover two lines.".to_string()]
    );
}

#[test]
fn only_delimiters_and_whitespace_is_empty() {
    assert!(parse(" %\n%\n\t% \r\n%%").is_empty());
    assert!(parse("").is_empty());
    assert!(parse("   \n").is_empty());
}

#[test]
fn leading_and_trailing_delimiters_are_optional() {
    let expected = vec!["one".to_string(), "two".to_string()];
    assert_eq!(parse("%\none\n%\ntwo\n%\n"), expected);
    assert_eq!(parse("one\n%\ntwo"), expected);
}

#[test]
fn percent_inside_a_sentence_splits() {
    assert_eq!(
        parse("It is 100% true"),
        vec!["It is 100".to_string(), "true".to_string()]
    );
}

#[test]
fn unicode_whitespace_is_trimmed() {
    assert_eq!(
        parse("\u{3000}\u{a0}wise words\u{2003}\n%\u{85}"),
        vec!["wise words".to_string()]
    );
}

#[test]
fn interior_whitespace_is_kept() {
    assert_eq!(
        parse("%  a \t b\n\nc  %"),
        vec!["a \t b\n\nc".to_string()]
    );
}

#[test]
fn non_ascii_text_survives() {
    assert_eq!(
        parse("— the author\n%\nÆsop ✓"),
        vec!["— the author".to_string(), "Æsop ✓".to_string()]
    );
}

#[test]
fn reparsing_joined_entries_gives_the_same_entries() {
    let texts = [
        "A\n%\nB\n%\nC",
        "%%  x  %\n\n% y z %",
        "",
        " % ",
        "single",
    ];
    for text in texts {
        let first = parse(text);
        let rejoined = first.join("%");
        assert_eq!(parse(&rejoined), first);
    }
}
