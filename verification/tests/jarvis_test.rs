use jarvish::budget::Timeout;
use jarvish::jarvis::{
    investigate_answer, jarvis_ask_investigate, jarvis_notice, jarvis_print_plain,
    jarvis_read_file, jarvis_render_markdown, jarvis_spinner, jarvis_talk, jarvis_write_file,
    jarvish_skin, render_markdown, Rgb,
};
use jarvish::style::{Hue, Piece};

#[test]
fn spinners_name_what_they_wait_for() {
    let reading = jarvis_read_file("a.txt");
    assert_eq!(reading.line, "📖 Reading file: a.txt\n");
    assert_eq!(reading.spinner.template, "📖 {spinner} {msg}");
    assert_eq!(reading.spinner.message, "");
    assert_eq!(reading.spinner.tick_chars, "⠋⠙⠹⠸⠼⠴⠦⠧⠇⠏");
    assert_eq!(reading.spinner.interval, Timeout::from_millis(80));
    let writing = jarvis_write_file("b");
    assert_eq!(writing.template, "📝 {spinner} Writing file: {msg}");
    assert_eq!(writing.message, "b");
    let thinking = jarvis_spinner();
    assert_eq!(thinking.template, "🤵 {spinner} {msg}");
    assert_eq!(thinking.message, "Thinking...");
}

#[test]
fn talk_is_white() {
    assert_eq!(
        jarvis_talk("hello"),
        vec![
            Piece::plain("🤵 "),
            Piece::coloured(Hue::White, "hello"),
            Piece::plain("\n"),
        ]
    );
    assert_eq!(jarvis_notice("ls"), "\n👉 ls\n\n");
    assert_eq!(jarvis_print_plain("hello"), "🤵 hello\n");
}

#[test]
fn markdown_has_the_skin() {
    let page = render_markdown("# Hi");
    assert_eq!(page.lead, "");
    assert_eq!(page.text, "# Hi");
    assert_eq!(page.skin, jarvish_skin());
    assert_eq!(jarvis_render_markdown("# Hi").lead, "🤵 ");
}

#[test]
fn skin_is_red_and_gold() {
    let skin = jarvish_skin();
    let rgb = |red, green, blue| Some(Rgb { red, green, blue });
    assert_eq!(skin.header1.foreground, rgb(255, 184, 0));
    assert!(skin.header1.bold);
    assert_eq!(skin.header2.foreground, rgb(255, 210, 100));
    assert_eq!(skin.header3.foreground, rgb(220, 180, 100));
    assert_eq!(skin.bold.foreground, rgb(220, 50, 50));
    assert_eq!(skin.italic.foreground, rgb(230, 130, 120));
    assert_eq!(skin.inline_code.foreground, rgb(240, 210, 170));
    assert_eq!(skin.code_block.background, rgb(40, 20, 20));
    assert_eq!(skin.table.foreground, rgb(180, 140, 50));
    assert_eq!(skin.bullet.mark, '•');
    assert_eq!(skin.quote_mark.mark, '▐');
    assert!(skin.quote_mark.style.bold);
    assert_eq!(skin.horizontal_rule.mark, '―');
    assert_eq!(skin.horizontal_rule.style.foreground, rgb(140, 40, 40));
}

#[test]
fn question_names_the_code() {
    let question: String = jarvis_ask_investigate(-7).iter().map(|p| p.text.as_str()).collect();
    assert_eq!(
        question,
        "🤵 Sir, the command exited with an error (code: -7). Would you like to investigate? [Y/n]: "
    );
    assert_eq!(jarvis_ask_investigate(2)[1].hue, Some(Hue::Red));
}

#[test]
fn empty_line_and_y_mean_yes() {
    assert!(investigate_answer(Some("\n")));
    assert!(investigate_answer(Some("")));
    assert!(investigate_answer(Some(" y \r\n")));
    assert!(investigate_answer(Some("Y\n")));
    assert!(!investigate_answer(Some("n\n")));
    assert!(!investigate_answer(Some("yy\n")));
    assert!(!investigate_answer(Some("yes\n")));
    assert!(!investigate_answer(Some("y n\n")));
    assert!(!investigate_answer(None));
}
