use jarvish::escape::{escape_spans, single_quote, zsh_escape_span};
use jarvish::text::join;

#[test]
fn zsh_bridge_zsh_escape_span_escapes_space_and_specials_table() {
    let input = "a b\\c\"d'e`f$g|h&i;j<k>l(m)n{o}p[q]r*s?t~u#v=w";
    let escaped = zsh_escape_span(input).expect("no control chars");
    assert!(escaped.contains("a\\ b"), "space: {escaped}");
    assert!(escaped.contains("b\\\\c"), "backslash: {escaped}");
    assert!(escaped.contains("c\\\"d"), "double quote: {escaped}");
    assert!(escaped.contains("d\\'e"), "single quote: {escaped}");
    assert!(escaped.contains("e\\`f"), "backtick: {escaped}");
    assert!(escaped.contains("f\\$g"), "dollar: {escaped}");
    assert!(escaped.contains("g\\|h"), "pipe: {escaped}");
    assert!(escaped.contains("h\\&i"), "ampersand: {escaped}");
    assert!(escaped.contains("i\\;j"), "semicolon: {escaped}");
    assert!(escaped.contains("j\\<k"), "less-than: {escaped}");
    assert!(escaped.contains("k\\>l"), "greater-than: {escaped}");
    assert!(escaped.contains("l\\(m"), "open paren: {escaped}");
    assert!(escaped.contains("m\\)n"), "close paren: {escaped}");
    assert!(escaped.contains("n\\{o"), "open brace: {escaped}");
    assert!(escaped.contains("o\\}p"), "close brace: {escaped}");
    assert!(escaped.contains("p\\[q"), "open bracket: {escaped}");
    assert!(escaped.contains("q\\]r"), "close bracket: {escaped}");
    assert!(escaped.contains("r\\*s"), "asterisk: {escaped}");
    assert!(escaped.contains("s\\?t"), "question mark: {escaped}");
    assert!(escaped.contains("t\\~u"), "tilde: {escaped}");
    assert!(escaped.contains("u\\#v"), "hash: {escaped}");
    assert!(escaped.contains("v\\=w"), "equals: {escaped}");
}

#[test]
fn zsh_bridge_zsh_escape_span_empty_span_is_untouched() {
    assert_eq!(zsh_escape_span("").as_deref(), Some(""));
}

#[test]
fn zsh_bridge_zsh_escape_span_plain_word_is_unchanged() {
    assert_eq!(zsh_escape_span("checkout").as_deref(), Some("checkout"));
    assert_eq!(zsh_escape_span("main").as_deref(), Some("main"));
}

#[test]
fn zsh_bridge_zsh_escape_span_rejects_newline() {
    assert_eq!(zsh_escape_span("hello\nworld"), None);
}

#[test]
fn zsh_bridge_zsh_escape_span_rejects_carriage_return() {
    assert_eq!(zsh_escape_span("hello\rworld"), None);
}

#[test]
fn zsh_bridge_zsh_escape_span_rejects_nul() {
    assert_eq!(zsh_escape_span("hello\0world"), None);
}

#[test]
fn zsh_bridge_zsh_escape_span_rejects_other_c0_control_chars() {
    assert_eq!(zsh_escape_span("hello\u{1}world"), None);
    assert_eq!(zsh_escape_span("hello\u{7f}world"), None);
}

#[test]
fn zsh_bridge_zsh_escape_span_allows_tab_as_a_normal_escapable_char() {
    let escaped = zsh_escape_span("a\tb").expect("tab should be escapable, not rejected");
    assert_eq!(escaped, "a\\\tb");
}

#[test]
fn zsh_bridge_escape_spans_propagates_none_on_any_control_char_span() {
    let spans = vec!["git".to_string(), "co\nmmit".to_string()];
    assert_eq!(escape_spans(&spans), None);
}

#[test]
fn zsh_bridge_escape_spans_leaves_trailing_empty_partial_as_bare_empty_string() {
    let spans = vec!["git".to_string(), "checkout".to_string(), String::new()];
    let escaped = escape_spans(&spans).expect("no control chars");
    assert_eq!(escaped, vec!["git", "checkout", ""]);
}

#[test]
fn tests_zsh_escape_span_escapes_space_and_specials_table() {
    let input = "a b\\c\"d'e`f$g|h&i;j<k>l(m)n{o}p[q]r*s?t~u#v=w";
    let escaped = zsh_escape_span(input).expect("no control chars");
    assert!(escaped.contains("a\\ b"), "space: {escaped}");
    assert!(escaped.contains("b\\\\c"), "backslash: {escaped}");
    assert!(escaped.contains("c\\\"d"), "double quote: {escaped}");
    assert!(escaped.contains("d\\'e"), "single quote: {escaped}");
    assert!(escaped.contains("e\\`f"), "backtick: {escaped}");
    assert!(escaped.contains("f\\$g"), "dollar: {escaped}");
    assert!(escaped.contains("g\\|h"), "pipe: {escaped}");
    assert!(escaped.contains("h\\&i"), "ampersand: {escaped}");
    assert!(escaped.contains("i\\;j"), "semicolon: {escaped}");
    assert!(escaped.contains("j\\<k"), "less-than: {escaped}");
    assert!(escaped.contains("k\\>l"), "greater-than: {escaped}");
    assert!(escaped.contains("l\\(m"), "open paren: {escaped}");
    assert!(escaped.contains("m\\)n"), "close paren: {escaped}");
    assert!(escaped.contains("n\\{o"), "open brace: {escaped}");
    assert!(escaped.contains("o\\}p"), "close brace: {escaped}");
    assert!(escaped.contains("p\\[q"), "open bracket: {escaped}");
    assert!(escaped.contains("q\\]r"), "close bracket: {escaped}");
    assert!(escaped.contains("r\\*s"), "asterisk: {escaped}");
    assert!(escaped.contains("s\\?t"), "question mark: {escaped}");
    assert!(escaped.contains("t\\~u"), "tilde: {escaped}");
    assert!(escaped.contains("u\\#v"), "hash: {escaped}");
    assert!(escaped.contains("v\\=w"), "equals: {escaped}");
}

#[test]
fn tests_zsh_escape_span_empty_span_is_untouched() {
    assert_eq!(zsh_escape_span("").as_deref(), Some(""));
}

#[test]
fn tests_zsh_escape_span_plain_word_is_unchanged() {
    assert_eq!(zsh_escape_span("checkout").as_deref(), Some("checkout"));
    assert_eq!(zsh_escape_span("main").as_deref(), Some("main"));
}

#[test]
fn tests_zsh_escape_span_rejects_newline() {
    assert_eq!(zsh_escape_span("hello\nworld"), None);
}

#[test]
fn tests_zsh_escape_span_rejects_carriage_return() {
    assert_eq!(zsh_escape_span("hello\rworld"), None);
}

#[test]
fn tests_zsh_escape_span_rejects_nul() {
    assert_eq!(zsh_escape_span("hello\0world"), None);
}

#[test]
fn tests_zsh_escape_span_rejects_other_c0_control_chars() {
    assert_eq!(zsh_escape_span("hello\u{1}world"), None);
    assert_eq!(zsh_escape_span("hello\u{7f}world"), None);
}

#[test]
fn tests_zsh_escape_span_allows_tab_as_a_normal_escapable_char() {
    let escaped = zsh_escape_span("a\tb").expect("tab should be escapable, not rejected");
    assert_eq!(escaped, "a\\\tb");
}

#[test]
fn tests_escape_spans_propagates_none_on_any_control_char_span() {
    let spans = vec!["git".to_string(), "co\nmmit".to_string()];
    assert_eq!(escape_spans(&spans), None);
}

#[test]
fn tests_escape_spans_leaves_trailing_empty_partial_as_bare_empty_string() {
    let spans = vec!["git".to_string(), "checkout".to_string(), String::new()];
    let escaped = escape_spans(&spans).expect("no control chars");
    assert_eq!(escaped, vec!["git", "checkout", ""]);
}

/// What a shell reads in a line: blanks end a word, a backslash takes the next
/// character as it is.
fn words(line: &str) -> Vec<String> {
    let mut all = Vec::new();
    let mut word = String::new();
    let mut begun = false;
    let mut chars = line.chars();
    while let Some(c) = chars.next() {
        if c == '\\' {
            if let Some(next) = chars.next() {
                word.push(next);
                begun = true;
            }
        } else if c == ' ' || c == '\t' {
            if begun {
                all.push(word.clone());
            }
            word.clear();
            begun = false;
        } else {
            word.push(c);
            begun = true;
        }
    }
    all.push(word);
    all
}

#[test]
fn line_reads_back_as_its_words() {
    let spans: Vec<String> = ["git", "commit", "-m", "hello world; rm -rf $HOME\t'x'", ""]
        .iter()
        .map(|s| s.to_string())
        .collect();
    let escaped = escape_spans(&spans).unwrap();
    let line = join(&escaped, ' ');
    assert_eq!(line, "git commit -m hello\\ world\\;\\ rm\\ -rf\\ \\$HOME\\\t\\'x\\' ");
    assert_eq!(words(&line), spans);
}

#[test]
fn only_c0_controls_and_del_are_refused() {
    for code in 0u32..0x20 {
        let c = char::from_u32(code).unwrap();
        let span = format!("a{c}b");
        assert_eq!(zsh_escape_span(&span).is_some(), c == '\t');
    }
    assert_eq!(zsh_escape_span("a\u{7f}b"), None);
    assert_eq!(zsh_escape_span("a\u{85}b").as_deref(), Some("a\u{85}b"));
    assert_eq!(zsh_escape_span("日本語").as_deref(), Some("日本語"));
}

#[test]
fn join_puts_one_blank_between_two_words() {
    assert_eq!(join(&[], ' '), "");
    assert_eq!(join(&["a".to_string()], ' '), "a");
    assert_eq!(join(&["a".to_string(), String::new(), "b".to_string()], ' '), "a  b");
}

#[test]
fn quotes_in_a_row_are_quoted_one_by_one() {
    assert_eq!(single_quote(""), "''");
    assert_eq!(single_quote("''"), "''\\'''\\'''");
}
