use jarvish::highlighter::{InputType, JarvisHighlighter};
use nu_ansi_term::{Color, Style};

fn highlight_segments(input: &str) -> Vec<(Style, String)> {
    let styled = JarvisHighlighter::default().highlight(input, InputType::Command);
    styled.buffer.clone()
}

fn cmd_style() -> Style {
    Style::new().fg(Color::Magenta).bold()
}

fn flag_style() -> Style {
    Style::new().fg(Color::Blue)
}

fn arg_style() -> Style {
    Style::new().fg(Color::White)
}

fn pipe_style() -> Style {
    Style::new().fg(Color::Cyan).bold()
}

fn redirect_style() -> Style {
    Style::new().fg(Color::Cyan).bold()
}

fn quote_style() -> Style {
    Style::new().fg(Color::Yellow)
}

fn unclosed_quote_style() -> Style {
    Style::new().fg(Color::Red).bold()
}

fn env_style() -> Style {
    Style::new().fg(Color::DarkGray)
}

fn ws() -> Style {
    Style::default()
}

#[test]
fn highlighter_test_simple_command() {
    let segs = highlight_segments("ls");
    assert_eq!(segs, vec![(cmd_style(), "ls".into())]);
}

#[test]
fn highlighter_test_command_with_flag_and_arg() {
    let segs = highlight_segments("ls -la /tmp");
    assert_eq!(
        segs,
        vec![
            (cmd_style(), "ls".into()),
            (ws(), " ".into()),
            (flag_style(), "-la".into()),
            (ws(), " ".into()),
            (arg_style(), "/tmp".into()),
        ]
    );
}

#[test]
fn highlighter_test_long_flag() {
    let segs = highlight_segments("git --version");
    assert_eq!(
        segs,
        vec![
            (cmd_style(), "git".into()),
            (ws(), " ".into()),
            (flag_style(), "--version".into()),
        ]
    );
}

#[test]
fn highlighter_test_pipe_highlights_both_commands() {
    let segs = highlight_segments("cat file | grep error");
    assert_eq!(
        segs,
        vec![
            (cmd_style(), "cat".into()),
            (ws(), " ".into()),
            (arg_style(), "file".into()),
            (ws(), " ".into()),
            (pipe_style(), "|".into()),
            (ws(), " ".into()),
            (cmd_style(), "grep".into()),
            (ws(), " ".into()),
            (arg_style(), "error".into()),
        ]
    );
}

#[test]
fn highlighter_test_multiple_pipes() {
    let segs = highlight_segments("cat f | grep x | wc -l");
    assert_eq!(
        segs,
        vec![
            (cmd_style(), "cat".into()),
            (ws(), " ".into()),
            (arg_style(), "f".into()),
            (ws(), " ".into()),
            (pipe_style(), "|".into()),
            (ws(), " ".into()),
            (cmd_style(), "grep".into()),
            (ws(), " ".into()),
            (arg_style(), "x".into()),
            (ws(), " ".into()),
            (pipe_style(), "|".into()),
            (ws(), " ".into()),
            (cmd_style(), "wc".into()),
            (ws(), " ".into()),
            (flag_style(), "-l".into()),
        ]
    );
}

#[test]
fn highlighter_test_redirect_single() {
    let segs = highlight_segments("echo hi > out.txt");
    assert_eq!(
        segs,
        vec![
            (cmd_style(), "echo".into()),
            (ws(), " ".into()),
            (arg_style(), "hi".into()),
            (ws(), " ".into()),
            (redirect_style(), ">".into()),
            (ws(), " ".into()),
            (arg_style(), "out.txt".into()),
        ]
    );
}

#[test]
fn highlighter_test_redirect_append() {
    let segs = highlight_segments("echo hi >> log.txt");
    assert_eq!(
        segs,
        vec![
            (cmd_style(), "echo".into()),
            (ws(), " ".into()),
            (arg_style(), "hi".into()),
            (ws(), " ".into()),
            (redirect_style(), ">>".into()),
            (ws(), " ".into()),
            (arg_style(), "log.txt".into()),
        ]
    );
}

#[test]
fn highlighter_test_redirect_input() {
    let segs = highlight_segments("sort < data.txt");
    assert_eq!(
        segs,
        vec![
            (cmd_style(), "sort".into()),
            (ws(), " ".into()),
            (redirect_style(), "<".into()),
            (ws(), " ".into()),
            (arg_style(), "data.txt".into()),
        ]
    );
}

#[test]
fn highlighter_test_quoted_string_double() {
    let segs = highlight_segments("echo \"hello world\"");
    assert_eq!(
        segs,
        vec![
            (cmd_style(), "echo".into()),
            (ws(), " ".into()),
            (quote_style(), "\"hello world\"".into()),
        ]
    );
}

#[test]
fn highlighter_test_quoted_string_single() {
    let segs = highlight_segments("echo 'hello world'");
    assert_eq!(
        segs,
        vec![
            (cmd_style(), "echo".into()),
            (ws(), " ".into()),
            (quote_style(), "'hello world'".into()),
        ]
    );
}

#[test]
fn highlighter_test_unclosed_quote() {
    let segs = highlight_segments("echo \"hello");
    assert_eq!(
        segs,
        vec![
            (cmd_style(), "echo".into()),
            (ws(), " ".into()),
            (unclosed_quote_style(), "\"hello".into()),
        ]
    );
}

#[test]
fn highlighter_test_env_var_assignment() {
    let segs = highlight_segments("cmd FOO=bar");
    assert_eq!(
        segs,
        vec![
            (cmd_style(), "cmd".into()),
            (ws(), " ".into()),
            (env_style(), "FOO=bar".into()),
        ]
    );
}

#[test]
fn highlighter_test_empty_input() {
    let segs = highlight_segments("");
    assert_eq!(segs, vec![]);
}

#[test]
fn highlighter_test_only_whitespace() {
    let segs = highlight_segments("   ");
    assert_eq!(
        segs,
        vec![
            (ws(), " ".into()),
            (ws(), " ".into()),
            (ws(), " ".into()),
        ]
    );
}

#[test]
fn highlighter_test_pipe_without_spaces() {
    let segs = highlight_segments("ls|grep");
    assert_eq!(
        segs,
        vec![
            (cmd_style(), "ls".into()),
            (pipe_style(), "|".into()),
            (cmd_style(), "grep".into()),
        ]
    );
}


#[test]
fn doubled_bar_is_two_pipes() {
    assert_eq!(
        highlight_segments("a||b"),
        vec![
            (cmd_style(), "a".into()),
            (pipe_style(), "|".into()),
            (pipe_style(), "|".into()),
            (cmd_style(), "b".into()),
        ]
    );
}

#[test]
fn doubled_ampersand_is_a_word() {
    assert_eq!(
        highlight_segments("a && b"),
        vec![
            (cmd_style(), "a".into()),
            (ws(), " ".into()),
            (arg_style(), "&&".into()),
            (ws(), " ".into()),
            (arg_style(), "b".into()),
        ]
    );
}

#[test]
fn semicolon_is_shown_in_quotes_only() {
    assert_eq!(
        highlight_segments("a;b ';'"),
        vec![
            (cmd_style(), "ab".into()),
            (ws(), " ".into()),
            (quote_style(), "';'".into()),
        ]
    );
}

#[test]
fn every_line_is_taken_for_a_command() {
    let styled = JarvisHighlighter::default().highlight("how are you", InputType::NaturalLanguage);
    assert_eq!(styled.buffer, highlight_segments("how are you"));
    assert_eq!(styled.buffer[0], (cmd_style(), "how".into()));
}
