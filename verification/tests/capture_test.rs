use jarvish::capture::{
    ends_with_no_space_rune, parse_capture_line, parse_capture_output, strip_ansi,
    unquote_backslashes, Candidate,
};
use jarvish::escape::zsh_escape_span;

#[test]
fn zsh_bridge_parse_simple_value_no_description() {
    let stdout = "checkout\r\ncheckout-index\r\n";
    let candidates = parse_capture_output(stdout);
    let values: Vec<&str> = candidates.iter().map(|c| c.value.as_str()).collect();
    assert_eq!(values, vec!["checkout", "checkout-index"]);
    assert!(candidates.iter().all(|c| c.description.is_none()));
}

#[test]
fn zsh_bridge_parse_value_with_description() {
    let stdout = "--oneline -- shorthand for --pretty=oneline --abbrev-commit\r\n";
    let candidates = parse_capture_output(stdout);
    assert_eq!(candidates.len(), 1);
    assert_eq!(candidates[0].value, "--oneline");
    assert_eq!(
        candidates[0].description.as_deref(),
        Some("shorthand for --pretty=oneline --abbrev-commit")
    );
}

#[test]
fn zsh_bridge_parse_trailing_empty_element_dropped() {
    let stdout = "foo\r\nbar\r\n";
    let candidates = parse_capture_output(stdout);
    assert_eq!(candidates.len(), 2);
}

#[test]
fn zsh_bridge_parse_empty_stdout_yields_no_candidates() {
    assert!(parse_capture_output("").is_empty());
}

#[test]
fn zsh_bridge_parse_strips_ansi_codes() {
    let stdout = "\u{1b}[34mmain\u{1b}[0m -- local branch\r\n";
    let candidates = parse_capture_output(stdout);
    assert_eq!(candidates.len(), 1);
    assert_eq!(candidates[0].value, "main");
    assert_eq!(candidates[0].description.as_deref(), Some("local branch"));
}

#[test]
fn zsh_bridge_parse_value_containing_double_dash_separator_uses_first_occurrence() {
    let stdout = "foo -- first -- second\r\n";
    let candidates = parse_capture_output(stdout);
    assert_eq!(candidates.len(), 1);
    assert_eq!(candidates[0].value, "foo");
    assert_eq!(
        candidates[0].description.as_deref(),
        Some("first -- second")
    );
}

#[test]
fn zsh_bridge_parse_unquotes_escaped_special_chars() {
    let stdout = "foo\\ bar.txt\\#1\r\n";
    let candidates = parse_capture_output(stdout);
    assert_eq!(candidates.len(), 1);
    assert_eq!(candidates[0].value, "foo bar.txt#1");
}

#[test]
fn zsh_bridge_parse_empty_line_between_entries_is_skipped() {
    let stdout = "foo\r\n\r\nbar\r\n";
    let candidates = parse_capture_output(stdout);
    let values: Vec<&str> = candidates.iter().map(|c| c.value.as_str()).collect();
    assert_eq!(values, vec!["foo", "bar"]);
}

#[test]
fn zsh_bridge_append_whitespace_false_for_no_space_rune_suffix() {
    let stdout = "subdir/\r\nfoo=\r\nplain\r\n";
    let candidates = parse_capture_output(stdout);
    let plain = candidates.iter().find(|c| c.value == "plain").unwrap();
    let dir = candidates.iter().find(|c| c.value == "subdir/").unwrap();
    let eq = candidates.iter().find(|c| c.value == "foo=").unwrap();
    assert!(plain.append_whitespace);
    assert!(!dir.append_whitespace);
    assert!(!eq.append_whitespace);
}

#[test]
fn zsh_bridge_unquote_backslashes_handles_full_table() {
    let input = r#"a\\b\&c\<d\>e\`f\'g\"h\{i\}j\$k\#l\|m\?n\(o\)p\;q\ r\[s\]t\*u\~v"#;
    let out = unquote_backslashes(input);
    assert_eq!(out, "a\\b&c<d>e`f'g\"h{i}j$k#l|m?n(o)p;q r[s]t*u~v");
}

#[test]
fn zsh_bridge_strip_ansi_removes_csi_sequences() {
    assert_eq!(strip_ansi("\u{1b}[1;34mtext\u{1b}[0m"), "text");
}

#[test]
fn zsh_bridge_strip_ansi_no_escape_is_unchanged() {
    assert_eq!(strip_ansi("plain text"), "plain text");
}

#[test]
fn tests_parse_simple_value_no_description() {
    let stdout = "checkout\r\ncheckout-index\r\n";
    let candidates = parse_capture_output(stdout);
    let values: Vec<&str> = candidates.iter().map(|c| c.value.as_str()).collect();
    assert_eq!(values, vec!["checkout", "checkout-index"]);
    assert!(candidates.iter().all(|c| c.description.is_none()));
}

#[test]
fn tests_parse_value_with_description() {
    let stdout = "--oneline -- shorthand for --pretty=oneline --abbrev-commit\r\n";
    let candidates = parse_capture_output(stdout);
    assert_eq!(candidates.len(), 1);
    assert_eq!(candidates[0].value, "--oneline");
    assert_eq!(
        candidates[0].description.as_deref(),
        Some("shorthand for --pretty=oneline --abbrev-commit")
    );
}

#[test]
fn tests_parse_trailing_empty_element_dropped() {
    let stdout = "foo\r\nbar\r\n";
    let candidates = parse_capture_output(stdout);
    assert_eq!(candidates.len(), 2);
}

#[test]
fn tests_parse_empty_stdout_yields_no_candidates() {
    assert!(parse_capture_output("").is_empty());
}

#[test]
fn tests_parse_strips_ansi_codes() {
    let stdout = "\u{1b}[34mmain\u{1b}[0m -- local branch\r\n";
    let candidates = parse_capture_output(stdout);
    assert_eq!(candidates.len(), 1);
    assert_eq!(candidates[0].value, "main");
    assert_eq!(candidates[0].description.as_deref(), Some("local branch"));
}

#[test]
fn tests_parse_value_containing_double_dash_separator_uses_first_occurrence() {
    let stdout = "foo -- first -- second\r\n";
    let candidates = parse_capture_output(stdout);
    assert_eq!(candidates.len(), 1);
    assert_eq!(candidates[0].value, "foo");
    assert_eq!(
        candidates[0].description.as_deref(),
        Some("first -- second")
    );
}

#[test]
fn tests_parse_unquotes_escaped_special_chars() {
    let stdout = "foo\\ bar.txt\\#1\r\n";
    let candidates = parse_capture_output(stdout);
    assert_eq!(candidates.len(), 1);
    assert_eq!(candidates[0].value, "foo bar.txt#1");
}

#[test]
fn tests_parse_empty_line_between_entries_is_skipped() {
    let stdout = "foo\r\n\r\nbar\r\n";
    let candidates = parse_capture_output(stdout);
    let values: Vec<&str> = candidates.iter().map(|c| c.value.as_str()).collect();
    assert_eq!(values, vec!["foo", "bar"]);
}

#[test]
fn tests_append_whitespace_false_for_no_space_rune_suffix() {
    let stdout = "subdir/\r\nfoo=\r\nplain\r\n";
    let candidates = parse_capture_output(stdout);
    let plain = candidates.iter().find(|c| c.value == "plain").unwrap();
    let dir = candidates.iter().find(|c| c.value == "subdir/").unwrap();
    let eq = candidates.iter().find(|c| c.value == "foo=").unwrap();
    assert!(plain.append_whitespace);
    assert!(!dir.append_whitespace);
    assert!(!eq.append_whitespace);
}

#[test]
fn tests_unquote_backslashes_handles_full_table() {
    let input = r#"a\\b\&c\<d\>e\`f\'g\"h\{i\}j\$k\#l\|m\?n\(o\)p\;q\ r\[s\]t\*u\~v"#;
    let out = unquote_backslashes(input);
    assert_eq!(out, "a\\b&c<d>e`f'g\"h{i}j$k#l|m?n(o)p;q r[s]t*u~v");
}

#[test]
fn tests_strip_ansi_removes_csi_sequences() {
    assert_eq!(strip_ansi("\u{1b}[1;34mtext\u{1b}[0m"), "text");
}

#[test]
fn tests_strip_ansi_no_escape_is_unchanged() {
    assert_eq!(strip_ansi("plain text"), "plain text");
}

#[test]
fn colour_code_without_an_end_takes_the_rest() {
    assert_eq!(strip_ansi("ab\u{1b}[12"), "ab");
    assert_eq!(strip_ansi("ab\u{1b}c"), "ab\u{1b}c");
    assert_eq!(strip_ansi("ab\u{1b}"), "ab\u{1b}");
}

#[test]
fn backslash_before_an_unquoted_character_stays() {
    assert_eq!(unquote_backslashes("a\\nb"), "a\\nb");
    assert_eq!(unquote_backslashes("a\\=b"), "a\\=b");
    assert_eq!(unquote_backslashes("end\\"), "end\\");
}

#[test]
fn line_without_a_value_gives_no_candidate() {
    assert_eq!(parse_capture_line(""), None);
    assert_eq!(parse_capture_line(" -- only a description"), None);
    assert_eq!(parse_capture_line("\u{1b}[0m"), None);
}

#[test]
fn every_ending_without_a_space() {
    for value in ["a/", "a=", "a@", "a:", "a.", "a,"] {
        assert!(ends_with_no_space_rune(value));
        assert!(!parse_capture_line(value).unwrap().append_whitespace);
    }
    assert!(!ends_with_no_space_rune("a"));
    assert!(!ends_with_no_space_rune(""));
}

#[test]
fn lone_line_feed_does_not_end_a_line() {
    let candidates = parse_capture_output("a\nb\r\nc");
    assert_eq!(candidates.len(), 2);
    assert_eq!(candidates[0].value, "a\nb");
    assert_eq!(candidates[1].value, "c");
}

#[test]
fn outputs_are_read_one_behind_the_other() {
    let first = "alpha -- first\r\nbeta";
    let second = "gamma/\r\n";
    let mut both = parse_capture_output(first);
    both.extend(parse_capture_output(second));
    assert_eq!(parse_capture_output("alpha -- first\r\nbeta\r\ngamma/\r\n"), both);
    assert_eq!(both.len(), 3);
}

#[test]
fn unquoting_undoes_escaping_but_for_equals_and_tab() {
    let span = "a b\\c\"d'e`f$g|h&i;j<k>l(m)n{o}p[q]r*s?t~u#v";
    assert_eq!(unquote_backslashes(&zsh_escape_span(span).unwrap()), span);
    assert_eq!(unquote_backslashes(&zsh_escape_span("a=b").unwrap()), "a\\=b");
    assert_eq!(unquote_backslashes(&zsh_escape_span("a\tb").unwrap()), "a\\\tb");
}

#[test]
fn printed_candidates_read_back() {
    let wanted = vec![
        Candidate {
            value: "checkout".to_string(),
            description: Some("switch -- branches".to_string()),
            append_whitespace: true,
        },
        Candidate {
            value: "src/".to_string(),
            description: None,
            append_whitespace: false,
        },
    ];
    assert_eq!(parse_capture_output("checkout -- switch -- branches\r\nsrc/\r\n"), wanted);
}
