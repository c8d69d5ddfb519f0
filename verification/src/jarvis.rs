//! What the assistant says on the terminal.

use vstd::prelude::*;

use crate::budget;
use crate::budget::Timeout;
use crate::style;
use crate::style::{Hue, Piece};
use crate::text;
use crate::text::{chars_of, is_white_space, push_signed_decimal};

verus! {

/// What stands before everything the assistant says.
pub const BUTLER: &'static str = "\u{1f935} ";

/// The pictures of a spinner, one after the other.
pub const TICK_CHARS: &'static str =
    "\u{280b}\u{2819}\u{2839}\u{2838}\u{283c}\u{2834}\u{2826}\u{2827}\u{2807}\u{280f}";

/// How long each picture of a spinner is shown, in milliseconds.
pub const TICK_MS: u64 = 80;

/// A spinner to be shown.
#[derive(Debug, Clone, PartialEq, Eq)]
pub struct Spinner {
    /// The line, with `{spinner}` and `{msg}` in it.
    pub template: String,
    /// What stands for `{msg}`.
    pub message: String,
    /// The pictures that stand for `{spinner}`.
    pub tick_chars: String,
    /// How long each of them is shown.
    pub interval: Timeout,
}

/// Describes a spinner.
fn create_spinner(template: &str, message: &str) -> (r: Spinner)
    ensures
        r.template@ == template@,
        r.message@ == message@,
        r.tick_chars@ == TICK_CHARS@,
        r.interval.nanos == budget::millis(TICK_MS),
        r.interval.nanos == 80_000_000,
{
    Spinner {
        template: template.to_owned(),
        message: message.to_owned(),
        tick_chars: TICK_CHARS.to_owned(),
        interval: Timeout::from_millis(TICK_MS),
    }
}

/// What is shown while a file is read: a line that stays, and a spinner that
/// goes away when the file has been read.
#[derive(Debug, Clone, PartialEq, Eq)]
pub struct ReadNotice {
    pub line: String,
    pub spinner: Spinner,
}

/// What is shown while a file is read. The line names the file; the spinner
/// says nothing.
pub fn jarvis_read_file(path: &str) -> (r: ReadNotice)
    ensures
        r.line@ == "\u{1f4d6} Reading file: "@ + path@ + "\n"@,
        r.spinner.template@ == "\u{1f4d6} {spinner} {msg}"@,
        r.spinner.message@ == ""@,
        r.spinner.tick_chars@ == TICK_CHARS@,
        r.spinner.interval.nanos == budget::millis(TICK_MS),
        r.spinner.interval.nanos == 80_000_000,
{
    let mut line: String = "\u{1f4d6} Reading file: ".to_owned();
    line.append(path);
    line.append("\n");
    ReadNotice { line, spinner: create_spinner("\u{1f4d6} {spinner} {msg}", "") }
}

/// The spinner while a file is written.
pub fn jarvis_write_file(path: &str) -> (r: Spinner)
    ensures
        r.template@ == "\u{1f4dd} {spinner} Writing file: {msg}"@,
        r.message@ == path@,
        r.tick_chars@ == TICK_CHARS@,
        r.interval.nanos == budget::millis(TICK_MS),
        r.interval.nanos == 80_000_000,
{
    create_spinner("\u{1f4dd} {spinner} Writing file: {msg}", path)
}

/// The spinner while the assistant thinks.
pub fn jarvis_spinner() -> (r: Spinner)
    ensures
        r.template@ == "\u{1f935} {spinner} {msg}"@,
        r.message@ == "Thinking..."@,
        r.tick_chars@ == TICK_CHARS@,
        r.interval.nanos == budget::millis(TICK_MS),
        r.interval.nanos == 80_000_000,
{
    create_spinner("\u{1f935} {spinner} {msg}", "Thinking...")
}

/// What the assistant says, as a line of its own.
pub fn jarvis_talk(message: &str) -> (r: Vec<Piece>)
    ensures
        style::pieces(r@) == seq![(None, BUTLER@), (Some(Hue::White), message@), (None, "\n"@)],
        style::pieces(r@)[0] == (None::<Hue>, "\u{1f935} "@),
{
    let mut out: Vec<Piece> = Vec::new();
    out.push(Piece::plain(BUTLER));
    out.push(Piece::coloured(Hue::White, message));
    out.push(Piece::plain("\n"));
    assert(style::pieces(out@) =~= seq![
        (None, BUTLER@),
        (Some(Hue::White), message@),
        (None, "\n"@),
    ]);
    out
}

/// The notice of a command that the assistant is about to run.
pub fn jarvis_notice(command: &str) -> (r: String)
    ensures
        r@ == "\n\u{1f449} "@ + command@ + "\n\n"@,
{
    let mut out: String = "\n\u{1f449} ".to_owned();
    out.append(command);
    out.append("\n\n");
    out
}

/// What the assistant says, as it is.
pub fn jarvis_print_plain(message: &str) -> (r: String)
    ensures
        r@ == BUTLER@ + message@ + "\n"@,
        r@ == "\u{1f935} "@ + message@ + "\n"@,
{
    let mut out: String = BUTLER.to_owned();
    out.append(message);
    out.append("\n");
    out
}

/// A colour by its parts of red, green and blue.
#[derive(Debug, Clone, Copy, PartialEq, Eq, Structural)]
pub struct Rgb {
    pub red: u8,
    pub green: u8,
    pub blue: u8,
}

/// How a kind of Markdown text looks. What is not set keeps the look of a plain
/// dark skin.
#[derive(Debug, Clone, Copy, PartialEq, Eq, Structural)]
pub struct MarkdownStyle {
    pub foreground: Option<Rgb>,
    pub background: Option<Rgb>,
    pub bold: bool,
}

/// A character that stands for a piece of Markdown, and how it looks. Nothing
/// but what is set here is set for it.
#[derive(Debug, Clone, Copy, PartialEq, Eq, Structural)]
pub struct MarkdownMark {
    pub style: MarkdownStyle,
    pub mark: char,
}

/// How Markdown looks.
#[derive(Debug, Clone, Copy, PartialEq, Eq, Structural)]
pub struct MarkdownSkin {
    pub header1: MarkdownStyle,
    pub header2: MarkdownStyle,
    pub header3: MarkdownStyle,
    pub bold: MarkdownStyle,
    pub italic: MarkdownStyle,
    pub inline_code: MarkdownStyle,
    pub code_block: MarkdownStyle,
    pub table: MarkdownStyle,
    pub bullet: MarkdownMark,
    pub quote_mark: MarkdownMark,
    pub horizontal_rule: MarkdownMark,
}

/// A colour.
pub open spec fn rgb(red: u8, green: u8, blue: u8) -> Rgb {
    Rgb { red, green, blue }
}

/// Text in a colour.
pub open spec fn in_colour(colour: Rgb) -> MarkdownStyle {
    MarkdownStyle { foreground: Some(colour), background: None, bold: false }
}

/// Text in a colour, in bold.
pub open spec fn in_bold(colour: Rgb) -> MarkdownStyle {
    MarkdownStyle { foreground: Some(colour), background: None, bold: true }
}

/// Text in a colour on another.
pub open spec fn on_colour(colour: Rgb, ground: Rgb) -> MarkdownStyle {
    MarkdownStyle { foreground: Some(colour), background: Some(ground), bold: false }
}

/// The assistant's look: headings in shades of gold, bold text in crimson,
/// italics in a soft red, code in a warm gold on dark red.
pub open spec fn butler_skin() -> MarkdownSkin {
    MarkdownSkin {
        header1: in_bold(rgb(255, 184, 0)),
        header2: in_colour(rgb(255, 210, 100)),
        header3: in_colour(rgb(220, 180, 100)),
        bold: in_bold(rgb(220, 50, 50)),
        italic: in_colour(rgb(230, 130, 120)),
        inline_code: on_colour(rgb(240, 210, 170), rgb(40, 20, 20)),
        code_block: on_colour(rgb(240, 210, 170), rgb(40, 20, 20)),
        table: in_colour(rgb(180, 140, 50)),
        bullet: MarkdownMark { style: in_colour(rgb(255, 184, 0)), mark: '\u{2022}' },
        quote_mark: MarkdownMark { style: in_bold(rgb(220, 50, 50)), mark: '\u{2590}' },
        horizontal_rule: MarkdownMark { style: in_colour(rgb(140, 40, 40)), mark: '\u{2015}' },
    }
}

/// Describes text in a colour.
fn coloured(red: u8, green: u8, blue: u8, bold: bool) -> (r: MarkdownStyle)
    ensures
        r == (MarkdownStyle { foreground: Some(rgb(red, green, blue)), background: None, bold }),
{
    MarkdownStyle { foreground: Some(Rgb { red, green, blue }), background: None, bold }
}

/// Builds the assistant's look.
pub fn jarvish_skin() -> (r: MarkdownSkin)
    ensures
        r == butler_skin(),
{
    let gold: MarkdownStyle = coloured(255, 184, 0, false);
    let crimson: MarkdownStyle = coloured(220, 50, 50, true);
    let code: MarkdownStyle = MarkdownStyle {
        foreground: Some(Rgb { red: 240, green: 210, blue: 170 }),
        background: Some(Rgb { red: 40, green: 20, blue: 20 }),
        bold: false,
    };
    MarkdownSkin {
        header1: coloured(255, 184, 0, true),
        header2: coloured(255, 210, 100, false),
        header3: coloured(220, 180, 100, false),
        bold: crimson,
        italic: coloured(230, 130, 120, false),
        inline_code: code,
        code_block: code,
        table: coloured(180, 140, 50, false),
        bullet: MarkdownMark { style: gold, mark: '\u{2022}' },
        quote_mark: MarkdownMark { style: crimson, mark: '\u{2590}' },
        horizontal_rule: MarkdownMark { style: coloured(140, 40, 40, false), mark: '\u{2015}' },
    }
}

/// Markdown to be shown.
#[derive(Debug, Clone, PartialEq, Eq)]
pub struct MarkdownPage {
    /// What is printed before it.
    pub lead: String,
    pub skin: MarkdownSkin,
    pub text: String,
}

/// Markdown that the assistant says.
pub fn jarvis_render_markdown(text: &str) -> (r: MarkdownPage)
    ensures
        r.lead@ == BUTLER@,
        r.lead@ == "\u{1f935} "@,
        r.skin == butler_skin(),
        r.text@ == text@,
{
    MarkdownPage { lead: BUTLER.to_owned(), skin: jarvish_skin(), text: text.to_owned() }
}

/// Markdown in the assistant's look, with nothing before it.
pub fn render_markdown(text: &str) -> (r: MarkdownPage)
    ensures
        r.lead@ == ""@,
        r.skin == butler_skin(),
        r.text@ == text@,
{
    MarkdownPage { lead: "".to_owned(), skin: jarvish_skin(), text: text.to_owned() }
}

/// The question whether a command that failed should be looked into.
pub open spec fn question(exit_code: i32) -> Seq<(Option<Hue>, Seq<char>)> {
    seq![
        (None, "\u{1f935} Sir, "@),
        (
            Some(Hue::Red),
            "the command exited with an error (code: "@ + text::signed_decimal(exit_code as int)
                + ")."@,
        ),
        (None, " "@),
        (Some(Hue::White), "Would you like to investigate? [Y/n]: "@),
    ]
}

/// Asks whether a command that failed should be looked into.
pub fn jarvis_ask_investigate(exit_code: i32) -> (r: Vec<Piece>)
    ensures
        style::pieces(r@) == question(exit_code),
{
    let mut out: Vec<Piece> = Vec::new();
    out.push(Piece::plain("\u{1f935} Sir, "));
    let mut failure: String = "the command exited with an error (code: ".to_owned();
    push_signed_decimal(&mut failure, exit_code);
    failure.append(").");
    out.push(Piece { hue: Some(Hue::Red), text: failure });
    out.push(Piece::plain(" "));
    out.push(Piece::coloured(Hue::White, "Would you like to investigate? [Y/n]: "));
    assert(style::pieces(out@) =~= question(exit_code));
    out
}

/// `s` without the white space at its front.
pub open spec fn front_trimmed(s: Seq<char>) -> Seq<char>
    decreases s.len(),
{
    if s.len() > 0 && text::white_space(s[0]) {
        front_trimmed(s.skip(1))
    } else {
        s
    }
}

/// `s` without the white space at its end.
pub open spec fn end_trimmed(s: Seq<char>) -> Seq<char>
    decreases s.len(),
{
    if s.len() > 0 && text::white_space(s.last()) {
        end_trimmed(s.drop_last())
    } else {
        s
    }
}

/// Whether an answer means yes: an empty line, or the letter y.
pub open spec fn affirmative(answer: Seq<char>) -> bool {
    let word = end_trimmed(front_trimmed(answer));
    word.len() == 0 || word == seq!['y'] || word == seq!['Y']
}

/// Finds where the text begins behind the white space at its front.
fn text_begin(chars: &Vec<char>) -> (from: usize)
    ensures
        from <= chars@.len(),
        chars@.skip(from as int) == front_trimmed(chars@),
{
    let mut from: usize = 0;
    assert(chars@.skip(0) =~= chars@);
    while from < chars.len() && is_white_space(chars[from])
        invariant
            from <= chars@.len(),
            front_trimmed(chars@.skip(from as int)) == front_trimmed(chars@),
        decreases chars@.len() - from,
    {
        assert(chars@.skip(from as int).skip(1) =~= chars@.skip(from + 1));
        from += 1;
    }
    from
}

/// Finds where the text from position `from` on ends before the white space at
/// its end.
fn text_end(chars: &Vec<char>, from: usize) -> (end: usize)
    requires
        from <= chars@.len(),
    ensures
        from <= end <= chars@.len(),
        chars@.subrange(from as int, end as int) == end_trimmed(chars@.skip(from as int)),
{
    let mut end: usize = chars.len();
    assert(chars@.subrange(from as int, end as int) =~= chars@.skip(from as int));
    while end > from && is_white_space(chars[end - 1])
        invariant
            from <= end <= chars@.len(),
            end_trimmed(chars@.subrange(from as int, end as int)) == end_trimmed(
                chars@.skip(from as int),
            ),
        decreases end,
    {
        assert(chars@.subrange(from as int, end as int).drop_last() =~= chars@.subrange(
            from as int,
            end - 1,
        ));
        end -= 1;
    }
    end
}

/// Tells whether the line that came as an answer means yes. No line is a no.
pub fn investigate_answer(input: Option<&str>) -> (b: bool)
    ensures
        b == (input matches Some(line) && affirmative(line@)),
{
    match input {
        Some(line) => {
            let chars: Vec<char> = chars_of(line);
            let from: usize = text_begin(&chars);
            let end: usize = text_end(&chars, from);
            let ghost word = chars@.subrange(from as int, end as int);
            if end == from {
                true
            } else if end - from > 1 {
                false
            } else {
                assert(word =~= seq![chars@[from as int]]);
                assert(word[0] == chars@[from as int]);
                chars[from] == 'y' || chars[from] == 'Y'
            }
        },
        None => false,
    }
}

proof fn lemma_front_trimmed(blank: Seq<char>, rest: Seq<char>)
    requires
        forall|i: int| 0 <= i < blank.len() ==> text::white_space(#[trigger] blank[i]),
    ensures
        front_trimmed(blank + rest) == front_trimmed(rest),
    decreases blank.len(),
{
    let all = blank + rest;
    if blank.len() == 0 {
        assert(all =~= rest);
    } else {
        assert(all[0] == blank[0]);
        assert forall|i: int| 0 <= i < blank.skip(1).len() implies text::white_space(
            #[trigger] blank.skip(1)[i],
        ) by {
            assert(blank.skip(1)[i] == blank[i + 1]);
        }
        lemma_front_trimmed(blank.skip(1), rest);
        assert(all.skip(1) =~= blank.skip(1) + rest);
    }
}

proof fn lemma_end_trimmed(rest: Seq<char>, blank: Seq<char>)
    requires
        forall|i: int| 0 <= i < blank.len() ==> text::white_space(#[trigger] blank[i]),
    ensures
        end_trimmed(rest + blank) == end_trimmed(rest),
    decreases blank.len(),
{
    let all = rest + blank;
    if blank.len() == 0 {
        assert(all =~= rest);
    } else {
        let front = blank.drop_last();
        assert(all.last() == blank[blank.len() - 1]);
        assert forall|i: int| 0 <= i < front.len() implies text::white_space(#[trigger] front[i]) by {
            assert(front[i] == blank[i]);
        }
        lemma_end_trimmed(rest, front);
        assert(all.drop_last() =~= rest + front);
    }
}

/// An answer means yes exactly where it is blank or is the letter y, small or
/// great, with nothing but blanks around it. Any other word is a no, whatever it
/// begins with.
pub proof fn law_only_y_and_nothing_mean_yes(
    before: Seq<char>,
    word: Seq<char>,
    behind: Seq<char>,
)
    requires
        forall|i: int| 0 <= i < before.len() ==> text::white_space(#[trigger] before[i]),
        forall|i: int| 0 <= i < behind.len() ==> text::white_space(#[trigger] behind[i]),
        word.len() > 0 ==> !text::white_space(word[0]) && !text::white_space(word.last()),
    ensures
        affirmative(before + word + behind) <==> word.len() == 0 || (word.len() == 1 && (word[0] == 'y'
            || word[0] == 'Y')),
{
    assert(before + word + behind =~= before + (word + behind));
    lemma_front_trimmed(before, word + behind);
    let none: Seq<char> = seq![];
    if word.len() == 0 {
        assert(word + behind =~= behind);
        assert(behind + none =~= behind);
        lemma_front_trimmed(behind, none);
        assert(front_trimmed(none) == none);
    } else {
        assert((word + behind)[0] == word[0]);
        assert(front_trimmed(word + behind) == word + behind);
        lemma_end_trimmed(word, behind);
        assert(end_trimmed(word) == word);
        if word.len() == 1 {
            assert(word =~= seq![word[0]]);
        } else {
            assert(seq!['y'].len() == 1 && seq!['Y'].len() == 1);
        }
        assert(seq!['y'][0] == 'y' && seq!['Y'][0] == 'Y');
    }
}

/// The colours of the assistant: headings from gold to a warm gold, the first of
/// them in bold like bold text, which is crimson; code of both kinds looks the
/// same, on a dark red ground; marks are in the colours of their text. Nothing
/// else has a ground of its own or is in bold.
pub proof fn law_assistant_has_its_colours()
    ensures
        ({
            let skin = butler_skin();
            let plain = |s: MarkdownStyle, red: u8, green: u8, blue: u8|
                s.foreground == Some(Rgb { red, green, blue }) && s.background.is_none();
            &&& plain(skin.header1, 255, 184, 0) && skin.header1.bold
            &&& plain(skin.header2, 255, 210, 100) && !skin.header2.bold
            &&& plain(skin.header3, 220, 180, 100) && !skin.header3.bold
            &&& plain(skin.bold, 220, 50, 50) && skin.bold.bold
            &&& plain(skin.italic, 230, 130, 120) && !skin.italic.bold
            &&& plain(skin.table, 180, 140, 50) && !skin.table.bold
            &&& skin.inline_code == skin.code_block
            &&& skin.code_block.foreground == Some(Rgb { red: 240, green: 210, blue: 170 })
            &&& skin.code_block.background == Some(Rgb { red: 40, green: 20, blue: 20 })
            &&& !skin.code_block.bold
            &&& plain(skin.bullet.style, 255, 184, 0) && !skin.bullet.style.bold
            &&& skin.quote_mark.style == skin.bold
            &&& plain(skin.horizontal_rule.style, 140, 40, 40) && !skin.horizontal_rule.style.bold
            &&& skin.bullet.mark == '\u{2022}'
            &&& skin.quote_mark.mark == '\u{2590}'
            &&& skin.horizontal_rule.mark == '\u{2015}'
        }),
{
}

/// The question names the exit code as it is and ends in the choice.
pub proof fn law_question_names_the_code(exit_code: i32)
    ensures
        ({
            let asked = question(exit_code);
            &&& asked.len() == 4
            &&& asked[0] == (None::<Hue>, "\u{1f935} Sir, "@)
            &&& asked[1] == (
                Some(Hue::Red),
                "the command exited with an error (code: "@ + text::signed_decimal(exit_code as int)
                    + ")."@,
            )
            &&& asked[2] == (None::<Hue>, " "@)
            &&& asked[3] == (Some(Hue::White), "Would you like to investigate? [Y/n]: "@)
        }),
{
}

} // verus!
