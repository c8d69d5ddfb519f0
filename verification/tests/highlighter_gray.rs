use jarvish::highlighter::{is_assignment, InputType, JarvisHighlighter};
use nu_ansi_term::{Color, Style};

fn highlight_segments(input: &str) -> Vec<(Style, String)> {
    let styled = JarvisHighlighter::new().highlight(input, InputType::Command);
    styled.buffer.clone()
}

/// The segments of a line in natural language.
fn plain_segments(input: &str) -> Vec<(Style, String)> {
    let styled = JarvisHighlighter::new().highlight(input, InputType::NaturalLanguage);
    styled.buffer.clone()
}

fn cmd_style() -> Style {
    Style::new().fg(Color::Magenta).bold()
}

fn flag_style() -> Style {
    Style::new().fg(Color::Blue)
}

fn arg_style() -> Style {
    Style::new().fg(Color::LightGray)
}

fn pipe_style() -> Style {
    Style::new().fg(Color::Cyan).bold()
}

fn redirect_style() -> Style {
    Style::new().fg(Color::Cyan).bold()
}

fn quote_style() -> Style {
    Style::new().fg(Color::Yellow)
}

fn unclosed_quote_style() -> Style {
    Style::new().fg(Color::Red).bold()
}

fn env_style() -> Style {
    Style::new().fg(Color::DarkGray)
}

fn ws() -> Style {
    Style::default()
}

#[test]
fn mod_test_simple_command() {
    let segs = highlight_segments("ls");
    assert_eq!(segs, vec![(cmd_style(), "ls".into())]);
}

#[test]
fn mod_test_command_with_flag_and_arg() {
    let segs = highlight_segments("ls -la /tmp");
    assert_eq!(
        segs,
        vec![
            (cmd_style(), "ls".into()),
            (ws(), " ".into()),
            (flag_style(), "-la".into()),
            (ws(), " ".into()),
            (arg_style(), "/tmp".into()),
        ]
    );
}

#[test]
fn mod_test_long_flag() {
    let segs = highlight_segments("git --version");
    assert_eq!(
        segs,
        vec![
            (cmd_style(), "git".into()),
            (ws(), " ".into()),
            (flag_style(), "--version".into()),
        ]
    );
}

#[test]
fn mod_test_pipe_highlights_both_commands() {
    let segs = highlight_segments("cat file | grep error");
    assert_eq!(
        segs,
        vec![
            (cmd_style(), "cat".into()),
            (ws(), " ".into()),
            (arg_style(), "file".into()),
            (ws(), " ".into()),
            (pipe_style(), "|".into()),
            (ws(), " ".into()),
            (cmd_style(), "grep".into()),
            (ws(), " ".into()),
            (arg_style(), "error".into()),
        ]
    );
}

#[test]
fn mod_test_multiple_pipes() {
    let segs = highlight_segments("cat f | grep x | wc -l");
    assert_eq!(
        segs,
        vec![
            (cmd_style(), "cat".into()),
            (ws(), " ".into()),
            (arg_style(), "f".into()),
            (ws(), " ".into()),
            (pipe_style(), "|".into()),
            (ws(), " ".into()),
            (cmd_style(), "grep".into()),
            (ws(), " ".into()),
            (arg_style(), "x".into()),
            (ws(), " ".into()),
            (pipe_style(), "|".into()),
            (ws(), " ".into()),
            (cmd_style(), "wc".into()),
            (ws(), " ".into()),
            (flag_style(), "-l".into()),
        ]
    );
}

#[test]
fn mod_test_redirect_single() {
    let segs = highlight_segments("echo hi > out.txt");
    assert_eq!(
        segs,
        vec![
            (cmd_style(), "echo".into()),
            (ws(), " ".into()),
            (arg_style(), "hi".into()),
            (ws(), " ".into()),
            (redirect_style(), ">".into()),
            (ws(), " ".into()),
            (arg_style(), "out.txt".into()),
        ]
    );
}

#[test]
fn mod_test_redirect_append() {
    let segs = highlight_segments("echo hi >> log.txt");
    assert_eq!(
        segs,
        vec![
            (cmd_style(), "echo".into()),
            (ws(), " ".into()),
            (arg_style(), "hi".into()),
            (ws(), " ".into()),
            (redirect_style(), ">>".into()),
            (ws(), " ".into()),
            (arg_style(), "log.txt".into()),
        ]
    );
}

#[test]
fn mod_test_redirect_input() {
    let segs = highlight_segments("sort < data.txt");
    assert_eq!(
        segs,
        vec![
            (cmd_style(), "sort".into()),
            (ws(), " ".into()),
            (redirect_style(), "<".into()),
            (ws(), " ".into()),
            (arg_style(), "data.txt".into()),
        ]
    );
}

#[test]
fn mod_test_quoted_string_double() {
    let segs = highlight_segments("echo \"hello world\"");
    assert_eq!(
        segs,
        vec![
            (cmd_style(), "echo".into()),
            (ws(), " ".into()),
            (quote_style(), "\"hello world\"".into()),
        ]
    );
}

#[test]
fn mod_test_quoted_string_single() {
    let segs = highlight_segments("echo 'hello world'");
    assert_eq!(
        segs,
        vec![
            (cmd_style(), "echo".into()),
            (ws(), " ".into()),
            (quote_style(), "'hello world'".into()),
        ]
    );
}

#[test]
fn mod_test_unclosed_quote() {
    let segs = highlight_segments("echo \"hello");
    assert_eq!(
        segs,
        vec![
            (cmd_style(), "echo".into()),
            (ws(), " ".into()),
            (unclosed_quote_style(), "\"hello".into()),
        ]
    );
}

#[test]
fn mod_test_env_var_assignment() {
    let segs = highlight_segments("cmd FOO=bar");
    assert_eq!(
        segs,
        vec![
            (cmd_style(), "cmd".into()),
            (ws(), " ".into()),
            (env_style(), "FOO=bar".into()),
        ]
    );
}

#[test]
fn mod_test_empty_input() {
    let segs = highlight_segments("");
    assert_eq!(segs, vec![]);
}

#[test]
fn mod_test_only_whitespace() {
    let segs = highlight_segments("   ");
    assert_eq!(
        segs,
        vec![(ws(), " ".into()), (ws(), " ".into()), (ws(), " ".into()),]
    );
}

#[test]
fn mod_test_pipe_without_spaces() {
    let segs = highlight_segments("ls|grep");
    assert_eq!(
        segs,
        vec![
            (cmd_style(), "ls".into()),
            (pipe_style(), "|".into()),
            (cmd_style(), "grep".into()),
        ]
    );
}

#[test]
fn test_natural_language_no_highlight() {
    let segs = plain_segments("what does this error mean?");
    assert_eq!(
        segs,
        vec![(Style::default(), "what does this error mean?".into())]
    );
}

#[test]
fn test_jarvis_trigger_no_highlight() {
    let segs = plain_segments("jarvis, help me");
    assert_eq!(segs, vec![(Style::default(), "jarvis, help me".into())]);
}

#[test]
fn test_and_operator() {
    let segs = highlight_segments("make build && echo done");
    assert_eq!(
        segs,
        vec![
            (cmd_style(), "make".into()),
            (ws(), " ".into()),
            (arg_style(), "build".into()),
            (ws(), " ".into()),
            (pipe_style(), "&&".into()),
            (ws(), " ".into()),
            (cmd_style(), "echo".into()),
            (ws(), " ".into()),
            (arg_style(), "done".into()),
        ]
    );
}

#[test]
fn test_and_without_spaces() {
    let segs = highlight_segments("true&&echo ok");
    assert_eq!(
        segs,
        vec![
            (cmd_style(), "true".into()),
            (pipe_style(), "&&".into()),
            (cmd_style(), "echo".into()),
            (ws(), " ".into()),
            (arg_style(), "ok".into()),
        ]
    );
}

#[test]
fn test_or_operator() {
    let segs = highlight_segments("false || echo fallback");
    assert_eq!(
        segs,
        vec![
            (cmd_style(), "false".into()),
            (ws(), " ".into()),
            (pipe_style(), "||".into()),
            (ws(), " ".into()),
            (cmd_style(), "echo".into()),
            (ws(), " ".into()),
            (arg_style(), "fallback".into()),
        ]
    );
}

#[test]
fn test_or_without_spaces() {
    let segs = highlight_segments("false||echo ok");
    assert_eq!(
        segs,
        vec![
            (cmd_style(), "false".into()),
            (pipe_style(), "||".into()),
            (cmd_style(), "echo".into()),
            (ws(), " ".into()),
            (arg_style(), "ok".into()),
        ]
    );
}

#[test]
fn test_semi_operator() {
    let segs = highlight_segments("echo a ; echo b");
    assert_eq!(
        segs,
        vec![
            (cmd_style(), "echo".into()),
            (ws(), " ".into()),
            (arg_style(), "a".into()),
            (ws(), " ".into()),
            (pipe_style(), ";".into()),
            (ws(), " ".into()),
            (cmd_style(), "echo".into()),
            (ws(), " ".into()),
            (arg_style(), "b".into()),
        ]
    );
}

#[test]
fn test_semi_without_spaces() {
    let segs = highlight_segments("echo a;echo b");
    assert_eq!(
        segs,
        vec![
            (cmd_style(), "echo".into()),
            (ws(), " ".into()),
            (arg_style(), "a".into()),
            (pipe_style(), ";".into()),
            (cmd_style(), "echo".into()),
            (ws(), " ".into()),
            (arg_style(), "b".into()),
        ]
    );
}

#[test]
fn test_mixed_operators() {
    let segs = highlight_segments("cmd1 && cmd2 || cmd3 ; cmd4");
    assert_eq!(
        segs,
        vec![
            (cmd_style(), "cmd1".into()),
            (ws(), " ".into()),
            (pipe_style(), "&&".into()),
            (ws(), " ".into()),
            (cmd_style(), "cmd2".into()),
            (ws(), " ".into()),
            (pipe_style(), "||".into()),
            (ws(), " ".into()),
            (cmd_style(), "cmd3".into()),
            (ws(), " ".into()),
            (pipe_style(), ";".into()),
            (ws(), " ".into()),
            (cmd_style(), "cmd4".into()),
        ]
    );
}

#[test]
fn test_japanese_natural_language_no_highlight() {
    let segs = plain_segments("エラーを教えて");
    assert_eq!(segs, vec![(Style::default(), "エラーを教えて".into())]);
}

#[test]
fn test_please_request_no_highlight() {
    let segs = plain_segments("please explain the output");
    assert_eq!(
        segs,
        vec![(Style::default(), "please explain the output".into())]
    );
}

#[test]
fn option_with_a_value_is_an_option() {
    let segs = highlight_segments("git --color=always x=1");
    assert_eq!(segs[2], (flag_style(), "--color=always".into()));
    assert_eq!(segs[4], (env_style(), "x=1".into()));
}

#[test]
fn string_leaves_the_command_to_come() {
    let segs = highlight_segments("'a' b c");
    assert_eq!(
        segs,
        vec![
            (quote_style(), "'a'".into()),
            (ws(), " ".into()),
            (cmd_style(), "b".into()),
            (ws(), " ".into()),
            (arg_style(), "c".into()),
        ]
    );
}

#[test]
fn single_ampersand_is_part_of_a_word() {
    let segs = highlight_segments("sleep 1& a&b >>> f");
    assert_eq!(segs[2], (arg_style(), "1&".into()));
    assert_eq!(segs[4], (arg_style(), "a&b".into()));
    assert_eq!(segs[6], (redirect_style(), ">>".into()));
    assert_eq!(segs[7], (redirect_style(), ">".into()));
}

#[test]
fn segments_spell_the_line() {
    for line in ["a|b||c&&d;e>f>>g<h", "x \"y' z", "\u{3000}全角 空白\u{a0}x", "= '=' -"] {
        let spelled: String = highlight_segments(line).iter().map(|s| s.1.as_str()).collect();
        assert_eq!(spelled, line);
        let plain: String = plain_segments(line).iter().map(|s| s.1.as_str()).collect();
        assert_eq!(plain, line);
    }
}

#[test]
fn wide_blanks_separate_words() {
    let segs = highlight_segments("ls\u{3000}a");
    assert_eq!(segs[1], (ws(), "\u{3000}".into()));
    assert_eq!(segs[2], (arg_style(), "a".into()));
}

#[test]
fn assignment_is_not_quoted() {
    assert!(is_assignment("A=1"));
    assert!(is_assignment("="));
    assert!(!is_assignment("'A=1'"));
    assert!(!is_assignment("\"A=1"));
    assert!(!is_assignment("A"));
    assert!(!is_assignment(""));
}
