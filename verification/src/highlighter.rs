//! Colours for the command line while it is typed.
//!
//! A line is cut into tokens: words, quoted strings, operators and blanks. Each
//! token gets one style:
//!
//! - a command name (the first word of the line and the first word behind an
//!   operator that does not redirect): magenta, bold
//! - an operator (`|`, `>`, `>>`, `<`; where lists are known, `||`, `&&` and `;`
//!   too): cyan, bold
//! - an option (`-f`, `--force`): blue
//! - an assignment (`VAR=VAL`): dark gray
//! - a quoted string: yellow
//! - a quoted string that nothing closes: red, bold
//! - any other word: the highlighter's colour for arguments
//!
//! A highlighter that knows lists shows a line in natural language as it is, and
//! its segments spell every line.

use nu_ansi_term::{Color, Style};
use reedline::StyledText;
use vstd::prelude::*;

use crate::style;
use crate::style::{Hue, TextStyle};
use crate::text;
use crate::text::{chars_of, is_white_space, string_of};

verus! {

/// reedline's buffer of styled text.
#[verifier::external_type_specification]
#[verifier::external_body]
pub struct ExStyledText(StyledText);

/// What a styled text holds: its segments in order, each with its style and
/// its characters.
pub uninterp spec fn styled_segments(styled: StyledText) -> Seq<(TextStyle, Seq<char>)>;

/// `StyledText::new` of reedline: a styled text without segments.
#[verifier::external_body]
fn new_styled_text() -> (styled: StyledText)
    ensures
        styled_segments(styled) == Seq::<(TextStyle, Seq<char>)>::empty(),
{
    StyledText::new()
}

/// `StyledText::push` of reedline: puts one more segment behind the others.
/// The style becomes the `nu_ansi_term` style with this foreground and weight
/// and nothing else set.
#[verifier::external_body]
fn push_segment(styled: &mut StyledText, look: TextStyle, segment: String)
    ensures
        styled_segments(*final(styled)) == styled_segments(*old(styled)).push((look, segment@)),
{
    let foreground: Option<Color> = match look.hue {
        None => None,
        Some(Hue::Blue) => Some(Color::Blue),
        Some(Hue::Cyan) => Some(Color::Cyan),
        Some(Hue::DarkGray) => Some(Color::DarkGray),
        Some(Hue::Green) => Some(Color::Green),
        Some(Hue::LightGray) => Some(Color::LightGray),
        Some(Hue::Magenta) => Some(Color::Magenta),
        Some(Hue::Red) => Some(Color::Red),
        Some(Hue::White) => Some(Color::White),
        Some(Hue::Yellow) => Some(Color::Yellow),
    };
    styled.push((Style { foreground, is_bold: look.bold, ..Style::new() }, segment));
}

/// What kind of input a line is.
#[derive(Debug, Clone, Copy, PartialEq, Eq, Structural)]
pub enum InputType {
    Command,
    NaturalLanguage,
}

/// Which operators a highlighter knows.
#[derive(Debug, Clone, Copy, PartialEq, Eq, Structural)]
pub enum Grammar {
    /// `|`, `>`, `>>` and `<`. Every line is taken for a command, and a `;` that
    /// no quotes enclose is left out.
    Pipelines,
    /// `||`, `&&` and `;` as well. A line in natural language is shown as it is.
    Lists,
}

/// The kinds of token.
pub enum TokenKind {
    Word,
    Quoted,
    Unclosed,
    Operator,
    Blank,
}

/// A piece of the line.
pub struct Token {
    pub kind: TokenKind,
    pub text: Seq<char>,
}

/// How many characters the operator has that `rest` begins with; none where it
/// begins with no operator. A single `&` is an ordinary character.
pub open spec fn operator_len(grammar: Grammar, rest: Seq<char>) -> nat {
    if rest.len() == 0 {
        0
    } else {
        let doubled = rest.len() > 1 && rest[1] == rest[0];
        let lists = grammar == Grammar::Lists;
        if rest[0] == '&' {
            if lists && doubled {
                2
            } else {
                0
            }
        } else if rest[0] == '|' {
            if lists && doubled {
                2
            } else {
                1
            }
        } else if rest[0] == '>' {
            if doubled {
                2
            } else {
                1
            }
        } else if rest[0] == '<' || (lists && rest[0] == ';') {
            1
        } else {
            0
        }
    }
}

/// Whether a highlighter leaves `c` out where no quotes enclose it.
pub open spec fn left_out(grammar: Grammar, c: char) -> bool {
    grammar == Grammar::Pipelines && c == ';'
}

/// The word that ends here, unless nothing was begun.
pub open spec fn word_token(word: Seq<char>) -> Seq<Token> {
    if word.len() == 0 {
        seq![]
    } else {
        seq![Token { kind: TokenKind::Word, text: word }]
    }
}

/// The tokens of `rest`, the first of which begins with `begun`: a word, or a
/// string that `quote` opened.
pub open spec fn tokens_from(
    grammar: Grammar,
    begun: Seq<char>,
    quote: Option<char>,
    rest: Seq<char>,
) -> Seq<Token>
    decreases rest.len(),
{
    if rest.len() == 0 {
        match quote {
            Some(_) => seq![Token { kind: TokenKind::Unclosed, text: begun }],
            None => word_token(begun),
        }
    } else {
        let c = rest[0];
        match quote {
            Some(q) => if c == q {
                seq![Token { kind: TokenKind::Quoted, text: begun.push(c) }] + tokens_from(
                    grammar,
                    seq![],
                    None,
                    rest.skip(1),
                )
            } else {
                tokens_from(grammar, begun.push(c), quote, rest.skip(1))
            },
            None => if c == '"' || c == '\'' {
                word_token(begun) + tokens_from(grammar, seq![c], Some(c), rest.skip(1))
            } else if operator_len(grammar, rest) > 0 {
                let n = operator_len(grammar, rest) as int;
                word_token(begun) + seq![Token { kind: TokenKind::Operator, text: rest.take(n) }]
                    + tokens_from(grammar, seq![], None, rest.skip(n))
            } else if left_out(grammar, c) {
                tokens_from(grammar, begun, None, rest.skip(1))
            } else if text::white_space(c) {
                word_token(begun) + seq![Token { kind: TokenKind::Blank, text: seq![c] }]
                    + tokens_from(grammar, seq![], None, rest.skip(1))
            } else {
                tokens_from(grammar, begun.push(c), None, rest.skip(1))
            },
        }
    }
}

/// The tokens of a line.
pub open spec fn tokens(grammar: Grammar, line: Seq<char>) -> Seq<Token> {
    tokens_from(grammar, seq![], None, line)
}

/// Whether `word` sets a variable.
pub open spec fn assignment(word: Seq<char>) -> bool {
    word.contains('=') && word[0] != '\'' && word[0] != '"'
}

/// The style of a word, which is a command name where `command` holds.
pub open spec fn word_style(argument: Hue, word: Seq<char>, command: bool) -> TextStyle {
    if command {
        style::bold(Hue::Magenta)
    } else if word.len() > 0 && word[0] == '-' {
        style::coloured(Hue::Blue)
    } else if assignment(word) {
        style::coloured(Hue::DarkGray)
    } else {
        style::coloured(argument)
    }
}

/// The style of a token, where `command` tells whether a word here would be a
/// command name.
pub open spec fn token_style(argument: Hue, token: Token, command: bool) -> TextStyle {
    match token.kind {
        TokenKind::Word => word_style(argument, token.text, command),
        TokenKind::Quoted => style::coloured(Hue::Yellow),
        TokenKind::Unclosed => style::bold(Hue::Red),
        TokenKind::Operator => style::bold(Hue::Cyan),
        TokenKind::Blank => style::plain(),
    }
}

/// Whether `op` redirects: the word behind it is a file, not a command.
pub open spec fn redirects(op: Seq<char>) -> bool {
    op.len() > 0 && (op[0] == '>' || op[0] == '<')
}

/// Whether a word behind `token` is a command name, where `command` tells the
/// same of a word in its place.
pub open spec fn command_after(token: Token, command: bool) -> bool {
    match token.kind {
        TokenKind::Word => false,
        TokenKind::Operator => !redirects(token.text),
        _ => command,
    }
}

/// The segments of `tokens`.
pub open spec fn segments_of(argument: Hue, tokens: Seq<Token>, command: bool) -> Seq<
    (TextStyle, Seq<char>),
>
    decreases tokens.len(),
{
    if tokens.len() == 0 {
        seq![]
    } else {
        seq![(token_style(argument, tokens[0], command), tokens[0].text)] + segments_of(
            argument,
            tokens.skip(1),
            command_after(tokens[0], command),
        )
    }
}

/// The segments of a line of this kind.
pub open spec fn line_segments(h: JarvisHighlighter, line: Seq<char>, kind: InputType) -> Seq<
    (TextStyle, Seq<char>),
> {
    if h.grammar == Grammar::Lists && kind == InputType::NaturalLanguage {
        seq![(style::plain(), line)]
    } else {
        segments_of(h.argument, tokens(h.grammar, line), true)
    }
}

proof fn lemma_segments_of_only_word(argument: Hue, word: Seq<char>, command: bool)
    ensures
        segments_of(argument, word_token(word), command) == if word.len() == 0 {
            Seq::<(TextStyle, Seq<char>)>::empty()
        } else {
            seq![(word_style(argument, word, command), word)]
        },
{
    if word.len() > 0 {
        let token = Token { kind: TokenKind::Word, text: word };
        let none: Seq<Token> = seq![];
        lemma_segments_of_first(argument, token, none, command);
        assert(seq![token] + none =~= seq![token]);
        assert(segments_of(argument, none, false) =~= seq![]);
    }
}

proof fn lemma_segments_behind_word(argument: Hue, word: Seq<char>, more: Seq<Token>, command: bool)
    ensures
        segments_of(argument, word_token(word) + more, command) == segments_of(
            argument,
            word_token(word),
            command,
        ) + segments_of(argument, more, command && word.len() == 0),
{
    lemma_segments_of_only_word(argument, word, command);
    if word.len() > 0 {
        lemma_segments_of_first(
            argument,
            Token { kind: TokenKind::Word, text: word },
            more,
            command,
        );
    } else {
        assert(word_token(word) + more =~= more);
        assert(Seq::<(TextStyle, Seq<char>)>::empty() + segments_of(argument, more, command)
            =~= segments_of(argument, more, command));
    }
}

proof fn lemma_segments_of_first(argument: Hue, token: Token, more: Seq<Token>, command: bool)
    ensures
        segments_of(argument, seq![token] + more, command) == seq![
            (token_style(argument, token, command), token.text),
        ] + segments_of(argument, more, command_after(token, command)),
{
    assert((seq![token] + more).skip(1) =~= more);
}

proof fn lemma_segments_behind_two(
    argument: Hue,
    word: Seq<char>,
    token: Token,
    more: Seq<Token>,
    command: bool,
)
    ensures
        segments_of(argument, word_token(word) + seq![token] + more, command) == segments_of(
            argument,
            word_token(word),
            command,
        ) + (seq![(token_style(argument, token, command && word.len() == 0), token.text)]
            + segments_of(argument, more, command_after(token, command && word.len() == 0))),
{
    let tail = seq![token] + more;
    assert(word_token(word) + seq![token] + more =~= word_token(word) + tail);
    lemma_segments_behind_word(argument, word, tail, command);
    lemma_segments_of_first(argument, token, more, command && word.len() == 0);
}

proof fn lemma_regroup<T>(a: Seq<T>, b: Seq<T>, c: T, d: Seq<T>)
    ensures
        (a + b).push(c) + d == a + (b + (seq![c] + d)),
{
    assert((a + b).push(c) + d =~= a + (b + (seq![c] + d)));
}

/// Tells how many characters the operator at position `at` has.
fn operator_length(grammar: Grammar, chars: &Vec<char>, at: usize) -> (n: usize)
    requires
        at < chars@.len(),
    ensures
        n == operator_len(grammar, chars@.skip(at as int)),
        at + n <= chars@.len(),
{
    let c: char = chars[at];
    let doubled: bool = chars.len() - at >= 2 && chars[at + 1] == c;
    let lists: bool = grammar == Grammar::Lists;
    if c == '&' {
        if lists && doubled {
            2
        } else {
            0
        }
    } else if c == '|' {
        if lists && doubled {
            2
        } else {
            1
        }
    } else if c == '>' {
        if doubled {
            2
        } else {
            1
        }
    } else if c == '<' || (lists && c == ';') {
        1
    } else {
        0
    }
}

/// Tells whether `word` sets a variable.
pub fn is_assignment(word: &str) -> (b: bool)
    ensures
        b == assignment(word@),
{
    let chars: Vec<char> = chars_of(word);
    let mut i: usize = 0;
    while i < chars.len() && chars[i] != '='
        invariant
            i <= chars@.len(),
            chars@ == word@,
            forall|j: int| 0 <= j < i ==> word@[j] != '=',
        decreases chars@.len() - i,
    {
        i += 1;
    }
    if i < chars.len() {
        assert(word@[i as int] == '=');
        chars[0] != '\'' && chars[0] != '"'
    } else {
        false
    }
}

/// Colours the command line.
#[derive(Debug, Clone, Copy, PartialEq, Eq, Structural)]
pub struct JarvisHighlighter {
    /// The colour of a word that is nothing in particular.
    pub argument: Hue,
    /// The operators that it knows.
    pub grammar: Grammar,
}

impl Default for JarvisHighlighter {
    /// A highlighter of pipelines that shows arguments in white.
    fn default() -> (r: Self)
        ensures
            r == (JarvisHighlighter { argument: Hue::White, grammar: Grammar::Pipelines }),
    {
        JarvisHighlighter { argument: Hue::White, grammar: Grammar::Pipelines }
    }
}

/// A line on its way through the highlighter.
struct Scan {
    /// The segments so far.
    styled: StyledText,
    /// The token that has begun, empty where none has.
    begun: String,
    /// Whether a word here is a command name.
    command: bool,
    /// The quote that opened the string that has begun.
    quote: Option<char>,
}

impl Scan {
    /// Whether a string that has begun holds its opening quote at least.
    spec fn wf(&self) -> bool {
        self.quote.is_some() ==> self.begun@.len() > 0
    }

    /// The segments there will be once `rest` has been scanned.
    spec fn outcome(&self, h: JarvisHighlighter, rest: Seq<char>) -> Seq<(TextStyle, Seq<char>)> {
        styled_segments(self.styled) + segments_of(
            h.argument,
            tokens_from(h.grammar, self.begun@, self.quote, rest),
            self.command,
        )
    }

    /// Puts `word` behind the segments in its style.
    fn style_word(&mut self, argument: Hue, word: &str)
        ensures
            styled_segments(final(self).styled) == styled_segments(old(self).styled).push(
                (word_style(argument, word@, old(self).command), word@),
            ),
            !final(self).command,
            final(self).begun == old(self).begun,
            final(self).quote == old(self).quote,
    {
        let chars: Vec<char> = chars_of(word);
        let look: TextStyle = if self.command {
            TextStyle { hue: Some(Hue::Magenta), bold: true }
        } else if chars.len() > 0 && chars[0] == '-' {
            TextStyle { hue: Some(Hue::Blue), bold: false }
        } else if is_assignment(word) {
            TextStyle { hue: Some(Hue::DarkGray), bold: false }
        } else {
            TextStyle { hue: Some(argument), bold: false }
        };
        self.command = false;
        push_segment(&mut self.styled, look, string_of(chars.as_slice()));
    }

    /// Ends the word that has begun, if any.
    fn flush_word(&mut self, argument: Hue)
        ensures
            final(self).begun@ == Seq::<char>::empty(),
            final(self).quote == old(self).quote,
            final(self).command == (old(self).command && old(self).begun@.len() == 0),
            styled_segments(final(self).styled) == styled_segments(old(self).styled) + segments_of(
                argument,
                word_token(old(self).begun@),
                old(self).command,
            ),
    {
        let ghost before = styled_segments(self.styled);
        let ghost word = self.begun@;
        let ghost named = self.command;
        if !self.begun.as_str().is_empty() {
            let finished: String = self.begun.clone();
            self.style_word(argument, finished.as_str());
            self.begun = String::new();
        }
        proof {
            lemma_segments_of_only_word(argument, word, named);
            assert(self.begun@ =~= seq![]);
            assert(styled_segments(self.styled) =~= before + segments_of(
                argument,
                word_token(word),
                named,
            ));
        }
    }

    /// Takes the next character of the string that has begun; the quote that
    /// opened the string closes it.
    fn take_quoted(&mut self, h: JarvisHighlighter, chars: &Vec<char>, at: usize, quote: char)
        requires
            old(self).quote == Some(quote),
            at < chars@.len(),
        ensures
            final(self).wf(),
            final(self).command == old(self).command,
            chars@[at as int] != quote ==> {
                &&& final(self).begun@ == old(self).begun@.push(chars@[at as int])
                &&& final(self).quote == Some(quote)
                &&& final(self).styled == old(self).styled
            },
            chars@[at as int] == quote ==> {
                &&& final(self).begun@.len() == 0
                &&& final(self).quote.is_none()
                &&& styled_segments(final(self).styled) == styled_segments(old(self).styled).push(
                    (style::coloured(Hue::Yellow), old(self).begun@.push(quote)),
                )
            },
            final(self).outcome(h, chars@.skip(at + 1)) == old(self).outcome(
                h,
                chars@.skip(at as int),
            ),
    {
        let c: char = chars[at];
        let ghost rest = chars@.skip(at as int);
        assert(rest.skip(1) =~= chars@.skip(at + 1));
        let ghost was = *self;
        self.begun.push(c);
        if c == quote {
            let string: String = self.begun.clone();
            push_segment(&mut self.styled, TextStyle { hue: Some(Hue::Yellow), bold: false }, string);
            self.begun = String::new();
            self.quote = None;
            proof {
                let token = Token { kind: TokenKind::Quoted, text: was.begun@.push(c) };
                let more = tokens_from(h.grammar, seq![], None, rest.skip(1));
                lemma_segments_of_first(h.argument, token, more, was.command);
                assert(self.begun@ =~= seq![]);
                assert(self.outcome(h, rest.skip(1)) =~= was.outcome(h, rest));
            }
        }
    }

    /// Begins a string: `quote` stands at position `at`.
    fn open_quote(&mut self, h: JarvisHighlighter, chars: &Vec<char>, at: usize, quote: char)
        requires
            old(self).quote.is_none(),
            at < chars@.len(),
            chars@[at as int] == quote,
            quote == '"' || quote == '\'',
        ensures
            final(self).wf(),
            final(self).begun@ == seq![quote],
            final(self).quote == Some(quote),
            final(self).command == (old(self).command && old(self).begun@.len() == 0),
            styled_segments(final(self).styled) == styled_segments(old(self).styled) + segments_of(
                h.argument,
                word_token(old(self).begun@),
                old(self).command,
            ),
            final(self).outcome(h, chars@.skip(at + 1)) == old(self).outcome(
                h,
                chars@.skip(at as int),
            ),
    {
        let ghost rest = chars@.skip(at as int);
        assert(rest.skip(1) =~= chars@.skip(at + 1));
        let ghost was = *self;
        self.flush_word(h.argument);
        self.begun.push(quote);
        self.quote = Some(quote);
        proof {
            let more = tokens_from(h.grammar, seq![quote], Some(quote), rest.skip(1));
            lemma_segments_behind_word(h.argument, was.begun@, more, was.command);
            assert(self.begun@ =~= seq![quote]);
            assert(self.outcome(h, rest.skip(1)) =~= was.outcome(h, rest));
        }
    }

    /// Where an operator stands at position `at`, ends the word before it and
    /// puts the operator behind the segments. Returns how many characters the
    /// operator has, and changes nothing where there is none.
    fn style_operator(&mut self, h: JarvisHighlighter, chars: &Vec<char>, at: usize) -> (n: usize)
        requires
            at < chars@.len(),
        ensures
            n == operator_len(h.grammar, chars@.skip(at as int)),
            at + n <= chars@.len(),
            n == 0 ==> *final(self) == *old(self),
            n > 0 ==> {
                let op = chars@.subrange(at as int, at + n);
                &&& final(self).begun@.len() == 0
                &&& final(self).quote == old(self).quote
                &&& final(self).command == !redirects(op)
                &&& styled_segments(final(self).styled) == (styled_segments(old(self).styled)
                    + segments_of(
                    h.argument,
                    word_token(old(self).begun@),
                    old(self).command,
                )).push((style::bold(Hue::Cyan), op))
                &&& old(self).quote.is_none() ==> final(self).outcome(h, chars@.skip(at + n)) == old(
                    self,
                ).outcome(h, chars@.skip(at as int))
            },
    {
        let n: usize = operator_length(h.grammar, chars, at);
        if n > 0 {
            let ghost rest = chars@.skip(at as int);
            let ghost was = *self;
            self.flush_word(h.argument);
            assert(at + n <= chars.len());
            let op: String = string_of(vstd::slice::slice_subrange(chars.as_slice(), at, at + n));
            push_segment(&mut self.styled, TextStyle { hue: Some(Hue::Cyan), bold: true }, op);
            self.command = chars[at] != '>' && chars[at] != '<';
            proof {
                let token = Token { kind: TokenKind::Operator, text: rest.take(n as int) };
                assert(op@ =~= token.text);
                assert(token.text =~= chars@.subrange(at as int, at + n));
                assert(rest.skip(n as int) =~= chars@.skip(at + n));
                let more = tokens_from(h.grammar, seq![], None, rest.skip(n as int));
                let named = was.command && was.begun@.len() == 0;
                lemma_segments_behind_two(h.argument, was.begun@, token, more, was.command);
                assert(command_after(token, named) == self.command);
                lemma_regroup(
                    styled_segments(was.styled),
                    segments_of(h.argument, word_token(was.begun@), was.command),
                    (token_style(h.argument, token, named), token.text),
                    segments_of(h.argument, more, self.command),
                );
            }
        }
        n
    }

    /// Ends the word that has begun at the blank at position `at`.
    fn take_blank(&mut self, h: JarvisHighlighter, chars: &Vec<char>, at: usize)
        requires
            old(self).quote.is_none(),
            at < chars@.len(),
            text::white_space(chars@[at as int]),
            operator_len(h.grammar, chars@.skip(at as int)) == 0,
        ensures
            final(self).wf(),
            final(self).begun@.len() == 0,
            final(self).quote.is_none(),
            final(self).command == (old(self).command && old(self).begun@.len() == 0),
            styled_segments(final(self).styled) == (styled_segments(old(self).styled) + segments_of(
                h.argument,
                word_token(old(self).begun@),
                old(self).command,
            )).push((style::plain(), seq![chars@[at as int]])),
            final(self).outcome(h, chars@.skip(at + 1)) == old(self).outcome(
                h,
                chars@.skip(at as int),
            ),
    {
        let c: char = chars[at];
        let ghost rest = chars@.skip(at as int);
        assert(rest.skip(1) =~= chars@.skip(at + 1));
        let ghost was = *self;
        self.flush_word(h.argument);
        let mut blank: String = String::new();
        blank.push(c);
        push_segment(&mut self.styled, TextStyle { hue: None, bold: false }, blank);
        proof {
            let token = Token { kind: TokenKind::Blank, text: seq![c] };
            let more = tokens_from(h.grammar, seq![], None, rest.skip(1));
            let named = was.command && was.begun@.len() == 0;
            assert(blank@ =~= token.text);
            lemma_segments_behind_two(h.argument, was.begun@, token, more, was.command);
            lemma_regroup(
                styled_segments(was.styled),
                segments_of(h.argument, word_token(was.begun@), was.command),
                (token_style(h.argument, token, named), token.text),
                segments_of(h.argument, more, named),
            );
        }
    }

    /// Ends the line: what has begun is a word, or a string that nothing
    /// closes.
    fn finish(self, h: JarvisHighlighter) -> (styled: StyledText)
        requires
            self.wf(),
        ensures
            styled_segments(styled) == self.outcome(h, seq![]),
    {
        let mut scan: Scan = self;
        let ghost none: Seq<Token> = seq![];
        if scan.quote.is_some() {
            let string: String = scan.begun.clone();
            push_segment(&mut scan.styled, TextStyle { hue: Some(Hue::Red), bold: true }, string);
            proof {
                let token = Token { kind: TokenKind::Unclosed, text: self.begun@ };
                lemma_segments_of_first(h.argument, token, none, self.command);
                assert(seq![token] + none =~= seq![token]);
                assert(segments_of(h.argument, none, self.command) =~= seq![]);
                assert(styled_segments(scan.styled) =~= self.outcome(h, seq![]));
            }
        } else {
            scan.flush_word(h.argument);
        }
        scan.styled
    }
}

impl JarvisHighlighter {
    /// A highlighter of lists that shows arguments in light gray.
    pub fn new() -> (r: Self)
        ensures
            r == (JarvisHighlighter { argument: Hue::LightGray, grammar: Grammar::Lists }),
    {
        JarvisHighlighter { argument: Hue::LightGray, grammar: Grammar::Lists }
    }

    /// Colours `line`, which is input of this kind.
    pub fn highlight(&self, line: &str, kind: InputType) -> (styled: StyledText)
        ensures
            styled_segments(styled) == line_segments(*self, line@, kind),
    {
        let mut empty: StyledText = new_styled_text();
        let chars: Vec<char> = chars_of(line);
        if self.grammar == Grammar::Lists && kind == InputType::NaturalLanguage {
            push_segment(
                &mut empty,
                TextStyle { hue: None, bold: false },
                string_of(chars.as_slice()),
            );
            assert(styled_segments(empty) =~= seq![(style::plain(), line@)]);
            return empty;
        }
        let mut scan: Scan = Scan { styled: empty, begun: String::new(), command: true, quote: None };
        let mut i: usize = 0;
        assert(line@.skip(0) =~= line@);
        assert(scan.outcome(*self, line@) =~= segments_of(
            self.argument,
            tokens(self.grammar, line@),
            true,
        ));
        while i < chars.len()
            invariant
                i <= chars@.len(),
                chars@ == line@,
                scan.wf(),
                scan.outcome(*self, line@.skip(i as int)) == segments_of(
                    self.argument,
                    tokens(self.grammar, line@),
                    true,
                ),
            decreases chars@.len() - i,
        {
            let c: char = chars[i];
            if let Some(quote) = scan.quote {
                scan.take_quoted(*self, &chars, i, quote);
                i += 1;
            } else if c == '"' || c == '\'' {
                scan.open_quote(*self, &chars, i, c);
                i += 1;
            } else {
                let n: usize = scan.style_operator(*self, &chars, i);
                if n > 0 {
                    i += n;
                } else if self.grammar == Grammar::Pipelines && c == ';' {
                    assert(line@.skip(i as int).skip(1) =~= line@.skip(i + 1));
                    i += 1;
                } else if is_white_space(c) {
                    scan.take_blank(*self, &chars, i);
                    i += 1;
                } else {
                    scan.begun.push(c);
                    assert(line@.skip(i as int).skip(1) =~= line@.skip(i + 1));
                    i += 1;
                }
            }
        }
        assert(line@.skip(i as int) =~= seq![]);
        scan.finish(*self)
    }
}

/// The texts of `segments`, one behind the other.
pub open spec fn spelled(segments: Seq<(TextStyle, Seq<char>)>) -> Seq<char>
    decreases segments.len(),
{
    if segments.len() == 0 {
        seq![]
    } else {
        segments[0].1 + spelled(segments.skip(1))
    }
}

/// The texts of `tokens`, one behind the other.
pub open spec fn tokens_spelled(tokens: Seq<Token>) -> Seq<char>
    decreases tokens.len(),
{
    if tokens.len() == 0 {
        seq![]
    } else {
        tokens[0].text + tokens_spelled(tokens.skip(1))
    }
}

proof fn lemma_tokens_spelled_of_two(first: Seq<Token>, second: Seq<Token>)
    ensures
        tokens_spelled(first + second) == tokens_spelled(first) + tokens_spelled(second),
    decreases first.len(),
{
    let all = first + second;
    if first.len() == 0 {
        assert(all =~= second);
        assert(tokens_spelled(first) + tokens_spelled(second) =~= tokens_spelled(second));
    } else {
        lemma_tokens_spelled_of_two(first.skip(1), second);
        assert(all.skip(1) =~= first.skip(1) + second);
        assert(tokens_spelled(all) =~= tokens_spelled(first) + tokens_spelled(second));
    }
}

proof fn lemma_token_spelled(token: Token)
    ensures
        tokens_spelled(seq![token]) == token.text,
{
    let one = seq![token];
    assert(one.skip(1) =~= seq![]);
    assert(tokens_spelled(one.skip(1)) =~= seq![]);
    assert(tokens_spelled(one) =~= token.text);
}

proof fn lemma_word_spelled(word: Seq<char>)
    ensures
        tokens_spelled(word_token(word)) == word,
{
    if word.len() > 0 {
        lemma_token_spelled(Token { kind: TokenKind::Word, text: word });
    } else {
        assert(tokens_spelled(word_token(word)) =~= word);
    }
}

/// What a highlighter shows of `rest`, which stands in a string where `quote`
/// opened one.
pub open spec fn shown(grammar: Grammar, quote: Option<char>, rest: Seq<char>) -> Seq<char>
    decreases rest.len(),
{
    if rest.len() == 0 {
        seq![]
    } else {
        let c = rest[0];
        match quote {
            Some(q) => seq![c] + shown(
                grammar,
                if c == q {
                    None
                } else {
                    quote
                },
                rest.skip(1),
            ),
            None => if c == '"' || c == '\'' {
                seq![c] + shown(grammar, Some(c), rest.skip(1))
            } else if left_out(grammar, c) {
                shown(grammar, None, rest.skip(1))
            } else {
                seq![c] + shown(grammar, None, rest.skip(1))
            },
        }
    }
}

proof fn lemma_all_is_shown(grammar: Grammar, quote: Option<char>, rest: Seq<char>)
    requires
        grammar == Grammar::Lists || !rest.contains(';'),
    ensures
        shown(grammar, quote, rest) == rest,
    decreases rest.len(),
{
    if rest.len() > 0 {
        let c = rest[0];
        assert(rest.contains(c));
        assert forall|x: char| rest.skip(1).contains(x) implies rest.contains(x) by {
            let i = choose|i: int| 0 <= i < rest.skip(1).len() && rest.skip(1)[i] == x;
            assert(rest[i + 1] == x);
        }
        let then = match quote {
            Some(q) => if c == q {
                None
            } else {
                quote
            },
            None => if c == '"' || c == '\'' {
                Some(c)
            } else {
                None
            },
        };
        lemma_all_is_shown(grammar, then, rest.skip(1));
        assert(seq![c] + rest.skip(1) =~= rest);
    }
}

proof fn lemma_operator_is_shown(grammar: Grammar, rest: Seq<char>)
    requires
        operator_len(grammar, rest) > 0,
    ensures
        shown(grammar, None, rest) == rest.take(operator_len(grammar, rest) as int) + shown(
            grammar,
            None,
            rest.skip(operator_len(grammar, rest) as int),
        ),
{
    let n = operator_len(grammar, rest) as int;
    let more = shown(grammar, None, rest.skip(n));
    if n == 1 {
        assert(rest.take(1) =~= seq![rest[0]]);
    } else {
        assert(rest.skip(1)[0] == rest[1]);
        assert(rest.skip(1).skip(1) =~= rest.skip(2));
        assert(shown(grammar, None, rest.skip(1)) == seq![rest[1]] + more);
        assert(seq![rest[0]] + (seq![rest[1]] + more) =~= rest.take(2) + more);
    }
}

proof fn lemma_tokens_spell_the_rest(
    grammar: Grammar,
    begun: Seq<char>,
    quote: Option<char>,
    rest: Seq<char>,
)
    ensures
        tokens_spelled(tokens_from(grammar, begun, quote, rest)) == begun + shown(
            grammar,
            quote,
            rest,
        ),
    decreases rest.len(),
{
    lemma_word_spelled(begun);
    let all = begun + shown(grammar, quote, rest);
    if rest.len() == 0 {
        assert(all =~= begun);
        lemma_token_spelled(Token { kind: TokenKind::Unclosed, text: begun });
    } else {
        let c = rest[0];
        if let Some(q) = quote {
            if c == q {
                let token = Token { kind: TokenKind::Quoted, text: begun.push(c) };
                let more = tokens_from(grammar, seq![], None, rest.skip(1));
                lemma_tokens_spell_the_rest(grammar, seq![], None, rest.skip(1));
                lemma_token_spelled(token);
                lemma_tokens_spelled_of_two(seq![token], more);
                assert(begun.push(c) + (seq![] + shown(grammar, None, rest.skip(1))) =~= all);
            } else {
                lemma_tokens_spell_the_rest(grammar, begun.push(c), quote, rest.skip(1));
                assert(begun.push(c) + shown(grammar, quote, rest.skip(1)) =~= all);
            }
        } else if c == '"' || c == '\'' {
            lemma_tokens_spell_the_rest(grammar, seq![c], Some(c), rest.skip(1));
            lemma_tokens_spelled_of_two(
                word_token(begun),
                tokens_from(grammar, seq![c], Some(c), rest.skip(1)),
            );
        } else if operator_len(grammar, rest) > 0 {
            let n = operator_len(grammar, rest) as int;
            let op = Token { kind: TokenKind::Operator, text: rest.take(n) };
            let more = tokens_from(grammar, seq![], None, rest.skip(n));
            lemma_operator_is_shown(grammar, rest);
            lemma_tokens_spell_the_rest(grammar, seq![], None, rest.skip(n));
            lemma_token_spelled(op);
            lemma_tokens_spelled_of_two(word_token(begun), seq![op]);
            lemma_tokens_spelled_of_two(word_token(begun) + seq![op], more);
            assert(begun + rest.take(n) + (seq![] + shown(grammar, None, rest.skip(n))) =~= all);
        } else if left_out(grammar, c) {
            lemma_tokens_spell_the_rest(grammar, begun, None, rest.skip(1));
        } else if text::white_space(c) {
            let token = Token { kind: TokenKind::Blank, text: seq![c] };
            let more = tokens_from(grammar, seq![], None, rest.skip(1));
            lemma_tokens_spell_the_rest(grammar, seq![], None, rest.skip(1));
            lemma_token_spelled(token);
            lemma_tokens_spelled_of_two(word_token(begun), seq![token]);
            lemma_tokens_spelled_of_two(word_token(begun) + seq![token], more);
            assert(begun + seq![c] + (seq![] + shown(grammar, None, rest.skip(1))) =~= all);
        } else {
            lemma_tokens_spell_the_rest(grammar, begun.push(c), None, rest.skip(1));
            assert(begun.push(c) + shown(grammar, None, rest.skip(1)) =~= all);
        }
    }
}

proof fn lemma_segments_spell_the_tokens(argument: Hue, tokens: Seq<Token>, command: bool)
    ensures
        spelled(segments_of(argument, tokens, command)) == tokens_spelled(tokens),
        segments_of(argument, tokens, command).len() == tokens.len(),
    decreases tokens.len(),
{
    if tokens.len() > 0 {
        let more = segments_of(argument, tokens.skip(1), command_after(tokens[0], command));
        lemma_segments_spell_the_tokens(
            argument,
            tokens.skip(1),
            command_after(tokens[0], command),
        );
        assert(segments_of(argument, tokens, command).skip(1) =~= more);
    }
}

/// The segments of a line spell what is shown of it: colours add nothing to it
/// and take nothing away. A highlighter that knows lists shows all of every
/// line, and the other all of a line without `;`.
pub proof fn law_segments_spell_the_line(h: JarvisHighlighter, line: Seq<char>, kind: InputType)
    ensures
        h.grammar == Grammar::Lists || !line.contains(';') ==> spelled(
            line_segments(h, line, kind),
        ) == line,
        h.grammar == Grammar::Pipelines ==> spelled(line_segments(h, line, kind)) == shown(
            h.grammar,
            None,
            line,
        ),
{
    let segments = line_segments(h, line, kind);
    if h.grammar == Grammar::Lists && kind == InputType::NaturalLanguage {
        assert(segments.skip(1) =~= seq![]);
        assert(spelled(segments.skip(1)) =~= seq![]);
        assert(spelled(segments) =~= line);
    } else {
        lemma_tokens_spell_the_rest(h.grammar, seq![], None, line);
        assert(Seq::<char>::empty() + shown(h.grammar, None, line) =~= shown(h.grammar, None, line));
        lemma_segments_spell_the_tokens(h.argument, tokens(h.grammar, line), true);
        if h.grammar == Grammar::Lists || !line.contains(';') {
            lemma_all_is_shown(h.grammar, None, line);
        }
    }
}

/// Whether the token at position `i` stands where a command name is expected:
/// the last word or operator before it is an operator that does not redirect,
/// or there is none.
pub open spec fn command_position(tokens: Seq<Token>, i: int) -> bool
    decreases i,
{
    if i <= 0 {
        true
    } else {
        command_after(tokens[i - 1], command_position(tokens, i - 1))
    }
}

/// `command_position`, where the tokens stand behind others.
spec fn command_position_behind(tokens: Seq<Token>, i: int, command: bool) -> bool
    decreases i,
{
    if i <= 0 {
        command
    } else {
        command_after(tokens[i - 1], command_position_behind(tokens, i - 1, command))
    }
}

proof fn lemma_position_behind_first(tokens: Seq<Token>, i: int, command: bool)
    requires
        0 < i <= tokens.len(),
    ensures
        command_position_behind(tokens, i, command) == command_position_behind(
            tokens.skip(1),
            i - 1,
            command_after(tokens[0], command),
        ),
    decreases i,
{
    if i > 1 {
        lemma_position_behind_first(tokens, i - 1, command);
    } else {
        assert(command_position_behind(tokens, 0, command) == command);
    }
}

proof fn lemma_position(tokens: Seq<Token>, i: int)
    ensures
        command_position_behind(tokens, i, true) == command_position(tokens, i),
    decreases i,
{
    if i > 0 {
        lemma_position(tokens, i - 1);
    }
}

proof fn lemma_segment_of_token(argument: Hue, tokens: Seq<Token>, command: bool, i: int)
    requires
        0 <= i < tokens.len(),
    ensures
        segments_of(argument, tokens, command).len() == tokens.len(),
        segments_of(argument, tokens, command)[i] == (
            token_style(argument, tokens[i], command_position_behind(tokens, i, command)),
            tokens[i].text,
        ),
    decreases tokens.len(),
{
    lemma_segments_spell_the_tokens(argument, tokens, command);
    if i > 0 {
        let next = command_after(tokens[0], command);
        lemma_segment_of_token(argument, tokens.skip(1), next, i - 1);
        lemma_position_behind_first(tokens, i, command);
        assert(tokens.skip(1)[i - 1] == tokens[i]);
    }
}

/// Each token of a command line is one segment. Its style depends on the token
/// and, for a word, on whether a command name is expected there.
pub proof fn law_each_token_has_its_style(h: JarvisHighlighter, line: Seq<char>, i: int)
    requires
        0 <= i < tokens(h.grammar, line).len(),
    ensures
        ({
            let cut = tokens(h.grammar, line);
            let segments = line_segments(h, line, InputType::Command);
            &&& segments.len() == cut.len()
            &&& segments[i] == (
                token_style(h.argument, cut[i], command_position(cut, i)),
                cut[i].text,
            )
        }),
{
    lemma_segment_of_token(h.argument, tokens(h.grammar, line), true, i);
    lemma_position(tokens(h.grammar, line), i);
}

proof fn lemma_tokens_are_not_empty(
    grammar: Grammar,
    begun: Seq<char>,
    quote: Option<char>,
    rest: Seq<char>,
)
    requires
        quote.is_some() ==> begun.len() > 0,
    ensures
        forall|i: int|
            0 <= i < tokens_from(grammar, begun, quote, rest).len() ==> {
                let token = #[trigger] tokens_from(grammar, begun, quote, rest)[i];
                &&& token.text.len() > 0
                &&& token.kind is Unclosed ==> i == tokens_from(grammar, begun, quote, rest).len() - 1
            },
    decreases rest.len(),
{
    let all = tokens_from(grammar, begun, quote, rest);
    if rest.len() > 0 {
        let c = rest[0];
        let n = operator_len(grammar, rest) as int;
        let (begun2, quote2, step): (Seq<char>, Option<char>, int) = match quote {
            Some(q) => if c == q {
                (seq![], None, 1)
            } else {
                (begun.push(c), quote, 1)
            },
            None => if c == '"' || c == '\'' {
                (seq![c], Some(c), 1)
            } else if n > 0 {
                (seq![], None, n)
            } else if left_out(grammar, c) {
                (begun, None, 1)
            } else if text::white_space(c) {
                (seq![], None, 1)
            } else {
                (begun.push(c), None, 1)
            },
        };
        lemma_tokens_are_not_empty(grammar, begun2, quote2, rest.skip(step));
        let more = tokens_from(grammar, begun2, quote2, rest.skip(step));
        let shift = all.len() - more.len();
        assert(all.skip(shift) =~= more);
        assert forall|i: int| 0 <= i < all.len() implies {
            let token = #[trigger] all[i];
            &&& token.text.len() > 0
            &&& token.kind is Unclosed ==> i == all.len() - 1
        } by {
            if i >= shift {
                assert(all[i] == more[i - shift]);
            }
        }
    }
}

/// No segment of a command line is empty, and only the last can be a string
/// that nothing closes.
pub proof fn law_command_segments_are_not_empty(grammar: Grammar, line: Seq<char>)
    ensures
        forall|i: int|
            0 <= i < tokens(grammar, line).len() ==> {
                let token = #[trigger] tokens(grammar, line)[i];
                &&& token.text.len() > 0
                &&& token.kind is Unclosed ==> i == tokens(grammar, line).len() - 1
            },
{
    lemma_tokens_are_not_empty(grammar, seq![], None, line);
}

/// Whether two ampersands stand at position `j` of `s`.
pub open spec fn ampersands_at(s: Seq<char>, j: int) -> bool {
    0 <= j && j + 1 < s.len() && s[j] == '&' && s[j + 1] == '&'
}

/// Whether `c` can stand in a word: it is no blank, no quote, no `|`, `<` or `>`,
/// and no `;`.
pub open spec fn word_character(c: char) -> bool {
    !text::white_space(c) && c != '"' && c != '\'' && c != '|' && c != '<' && c != '>' && c != ';'
}

/// Whether `s` can be a word: it holds nothing that would end a word, and no two
/// ampersands where those are an operator.
pub open spec fn word_shaped(grammar: Grammar, s: Seq<char>) -> bool {
    &&& forall|j: int| 0 <= j < s.len() ==> word_character(#[trigger] s[j])
    &&& grammar == Grammar::Lists ==> forall|j: int| !#[trigger] ampersands_at(s, j)
}

/// Whether `s` is an operator.
pub open spec fn operator_shaped(grammar: Grammar, s: Seq<char>) -> bool {
    ||| s == seq!['|'] || s == seq!['>'] || s == seq!['>', '>'] || s == seq!['<']
    ||| grammar == Grammar::Lists && (s == seq!['|', '|'] || s == seq!['&', '&'] || s == seq![';'])
}

/// Whether `s` begins with a quote that nothing behind it closes.
pub open spec fn opened(s: Seq<char>) -> bool {
    &&& s.len() > 0
    &&& s[0] == '"' || s[0] == '\''
    &&& forall|j: int| 1 <= j < s.len() ==> #[trigger] s[j] != s[0]
}

/// Whether a token is what its kind says.
pub open spec fn shaped(grammar: Grammar, token: Token) -> bool {
    let s = token.text;
    match token.kind {
        TokenKind::Word => s.len() > 0 && word_shaped(grammar, s),
        TokenKind::Operator => operator_shaped(grammar, s),
        TokenKind::Blank => s.len() == 1 && text::white_space(s[0]),
        TokenKind::Quoted => s.len() > 1 && opened(s.drop_last()) && s.last() == s[0],
        TokenKind::Unclosed => opened(s),
    }
}

/// Whether a token can stand behind another: no word is cut in two, and no
/// operator ends where it could go on, or begins where it could have before.
pub open spec fn well_cut(grammar: Grammar, token: Token, behind: Token) -> bool {
    &&& !(token.kind is Word && behind.kind is Word)
    &&& behind.kind is Operator ==> {
        &&& token.kind is Operator && token.text == seq!['>'] ==> behind.text[0] != '>'
        &&& grammar == Grammar::Lists && token.kind is Operator && token.text == seq!['|']
            ==> behind.text[0] != '|'
        &&& grammar == Grammar::Lists && token.kind is Word && token.text.last() == '&'
            ==> behind.text[0] != '&'
    }
}

/// Whether nothing of `rest` is left out, so that what stands side by side in
/// the segments does so in the line.
spec fn unbroken(grammar: Grammar, rest: Seq<char>) -> bool {
    grammar == Grammar::Lists || !rest.contains(';')
}

proof fn lemma_unbroken_behind(grammar: Grammar, rest: Seq<char>, n: int)
    requires
        unbroken(grammar, rest),
        0 <= n <= rest.len(),
    ensures
        unbroken(grammar, rest.skip(n)),
{
    if rest.skip(n).contains(';') {
        let k = choose|k: int| 0 <= k < rest.skip(n).len() && rest.skip(n)[k] == ';';
        assert(rest[n + k] == ';');
    }
}

/// What holds of a token that has begun.
spec fn begun_well(grammar: Grammar, begun: Seq<char>, quote: Option<char>, rest: Seq<char>) -> bool {
    match quote {
        Some(q) => opened(begun) && begun[0] == q,
        None => {
            &&& word_shaped(grammar, begun)
            &&& grammar == Grammar::Lists && begun.len() > 0 && begun.last() == '&' && rest.len() > 0
                ==> rest[0] != '&'
        },
    }
}

/// Where the scan goes behind one character or operator of `rest`: what has
/// begun then, and how many characters were taken.
spec fn scanned(grammar: Grammar, begun: Seq<char>, quote: Option<char>, rest: Seq<char>) -> (
    Seq<char>,
    Option<char>,
    int,
) {
    let c = rest[0];
    let n = operator_len(grammar, rest) as int;
    match quote {
        Some(q) => if c == q {
            (seq![], None, 1)
        } else {
            (begun.push(c), quote, 1)
        },
        None => if c == '"' || c == '\'' {
            (seq![c], Some(c), 1)
        } else if n > 0 {
            (seq![], None, n)
        } else if left_out(grammar, c) {
            (begun, None, 1)
        } else if text::white_space(c) {
            (seq![], None, 1)
        } else {
            (begun.push(c), None, 1)
        },
    }
}

proof fn lemma_begun_stays_well(grammar: Grammar, begun: Seq<char>, quote: Option<char>, rest: Seq<char>)
    requires
        begun_well(grammar, begun, quote, rest),
        rest.len() > 0,
    ensures
        ({
            let (begun2, quote2, n) = scanned(grammar, begun, quote, rest);
            &&& 0 < n <= rest.len()
            &&& begun_well(grammar, begun2, quote2, rest.skip(n))
        }),
{
    let c = rest[0];
    let (begun2, quote2, n) = scanned(grammar, begun, quote, rest);
    let after = rest.skip(n);
    if after.len() > 0 {
        assert(after[0] == rest[n]);
    }
    match quote {
        Some(q) => {
            if c != q {
                assert forall|j: int| 1 <= j < begun2.len() implies #[trigger] begun2[j] != begun2[0] by {
                    if j < begun.len() {
                        assert(begun2[j] == begun[j]);
                    }
                }
            }
        },
        None => {
            if c == '"' || c == '\'' {
                assert(opened(begun2));
            } else if operator_len(grammar, rest) > 0 {
            } else if left_out(grammar, c) {
            } else if text::white_space(c) {
            } else {
                assert forall|j: int| 0 <= j < begun2.len() implies word_character(
                    #[trigger] begun2[j],
                ) by {
                    if j < begun.len() {
                        assert(begun2[j] == begun[j]);
                    }
                }
                if grammar == Grammar::Lists {
                    assert forall|j: int| !#[trigger] ampersands_at(begun2, j) by {
                        if ampersands_at(begun2, j) && j + 1 < begun.len() {
                            assert(ampersands_at(begun, j));
                        }
                    }
                }
            }
        },
    }
}

proof fn lemma_operator_is_shaped(grammar: Grammar, rest: Seq<char>)
    requires
        operator_len(grammar, rest) > 0,
    ensures
        operator_shaped(grammar, rest.take(operator_len(grammar, rest) as int)),
        rest.take(operator_len(grammar, rest) as int)[0] == rest[0],
{
    let n = operator_len(grammar, rest) as int;
    let op = rest.take(n);
    if n == 1 {
        assert(op =~= seq![rest[0]]);
    } else {
        assert(op =~= seq![rest[0], rest[1]]);
    }
}

proof fn lemma_first_token(grammar: Grammar, begun: Seq<char>, quote: Option<char>, rest: Seq<char>)
    ensures
        ({
            let all = tokens_from(grammar, begun, quote, rest);
            &&& quote.is_some() ==> all.len() > 0 && (all[0].kind is Quoted || all[0].kind is Unclosed)
            &&& quote.is_none() && begun.len() > 0 ==> all.len() > 0 && all[0].kind is Word
            &&& unbroken(grammar, rest) && quote.is_none() && begun.len() == 0 && all.len() > 0
                && all[0].kind is Operator ==> rest.len() > 0 && all[0].text.len() > 0
                && all[0].text[0] == rest[0]
        }),
    decreases rest.len(),
{
    if rest.len() > 0 {
        let (begun2, quote2, n) = scanned(grammar, begun, quote, rest);
        lemma_first_token(grammar, begun2, quote2, rest.skip(n));
        assert(rest.contains(rest[0]));
        if operator_len(grammar, rest) > 0 {
            lemma_operator_is_shaped(grammar, rest);
        }
    }
}

proof fn lemma_tokens_are_shaped(
    grammar: Grammar,
    begun: Seq<char>,
    quote: Option<char>,
    rest: Seq<char>,
    i: int,
)
    requires
        begun_well(grammar, begun, quote, rest),
        0 <= i < tokens_from(grammar, begun, quote, rest).len(),
    ensures
        shaped(grammar, tokens_from(grammar, begun, quote, rest)[i]),
    decreases rest.len(),
{
    let all = tokens_from(grammar, begun, quote, rest);
    if rest.len() > 0 {
        let c = rest[0];
        let (begun2, quote2, n) = scanned(grammar, begun, quote, rest);
        lemma_begun_stays_well(grammar, begun, quote, rest);
        let more = tokens_from(grammar, begun2, quote2, rest.skip(n));
        let shift = all.len() - more.len();
        if i >= shift {
            assert(all[i] == more[i - shift]);
            lemma_tokens_are_shaped(grammar, begun2, quote2, rest.skip(n), i - shift);
        } else {
            match quote {
                Some(q) => {
                    assert(begun.push(c).drop_last() =~= begun);
                },
                None => {
                    if operator_len(grammar, rest) > 0 {
                        lemma_operator_is_shaped(grammar, rest);
                    }
                },
            }
        }
    }
}

/// Every token of a line is what its kind says. A word holds no blank, no quote
/// and no operator, an operator is one of those that are known, and a string
/// ends at the first quote like the one that it begins with.
pub proof fn law_tokens_are_what_their_kinds_say(grammar: Grammar, line: Seq<char>, i: int)
    requires
        0 <= i < tokens(grammar, line).len(),
    ensures
        shaped(grammar, tokens(grammar, line)[i]),
{
    lemma_tokens_are_shaped(grammar, seq![], None, line, i);
}

proof fn lemma_tokens_are_well_cut(
    grammar: Grammar,
    begun: Seq<char>,
    quote: Option<char>,
    rest: Seq<char>,
    i: int,
)
    requires
        begun_well(grammar, begun, quote, rest),
        unbroken(grammar, rest),
        0 <= i < tokens_from(grammar, begun, quote, rest).len() - 1,
    ensures
        well_cut(
            grammar,
            tokens_from(grammar, begun, quote, rest)[i],
            tokens_from(grammar, begun, quote, rest)[i + 1],
        ),
    decreases rest.len(),
{
    let all = tokens_from(grammar, begun, quote, rest);
    if rest.len() > 0 {
        let c = rest[0];
        let (begun2, quote2, n) = scanned(grammar, begun, quote, rest);
        lemma_begun_stays_well(grammar, begun, quote, rest);
        let after = rest.skip(n);
        let more = tokens_from(grammar, begun2, quote2, after);
        let shift = all.len() - more.len();
        lemma_unbroken_behind(grammar, rest, n);
        lemma_first_token(grammar, begun2, quote2, after);
        if after.len() > 0 {
            assert(after[0] == rest[n]);
        }
        if operator_len(grammar, rest) > 0 {
            lemma_operator_is_shaped(grammar, rest);
        }
        if i >= shift {
            assert(all[i] == more[i - shift]);
            assert(all[i + 1] == more[i + 1 - shift]);
            lemma_tokens_are_well_cut(grammar, begun2, quote2, after, i - shift);
        } else if i + 1 >= shift {
            assert(all[i + 1] == more[0]);
            if quote.is_none() && c != '"' && c != '\'' && n == operator_len(grammar, rest)
                && operator_len(grammar, rest) > 0 {
                let op = rest.take(n);
                assert(all[i].text == op);
                assert(op.len() == n);
                assert(seq!['>'].len() == 1 && seq!['|'].len() == 1);
                if op == seq!['>'] {
                    assert(op[0] == '>');
                }
                if op == seq!['|'] {
                    assert(op[0] == '|');
                }
            }
        } else {
            assert(quote.is_none());
            assert(all[0] == Token { kind: TokenKind::Word, text: begun });
            if operator_len(grammar, rest) > 0 {
                assert(all[1].text == rest.take(n));
            }
        }
    }
}

/// A line is cut where it has to be and nowhere else: no two words stand side by
/// side, and of the operators that begin at a place the longest is taken.
pub proof fn law_tokens_are_cut_where_they_end(grammar: Grammar, line: Seq<char>, i: int)
    requires
        grammar == Grammar::Lists || !line.contains(';'),
        0 <= i < tokens(grammar, line).len() - 1,
    ensures
        well_cut(grammar, tokens(grammar, line)[i], tokens(grammar, line)[i + 1]),
{
    lemma_tokens_are_well_cut(grammar, seq![], None, line, i);
}

/// Whether a word at position `i` names a command: no word stands before it, or
/// behind the last word before it stands an operator, the last of which is not a
/// redirection.
pub open spec fn names_command(cut: Seq<Token>, i: int) -> bool
    decreases i,
{
    if i <= 0 {
        true
    } else if cut[i - 1].kind is Word {
        false
    } else if cut[i - 1].kind is Operator {
        let op = cut[i - 1].text;
        op != seq!['>'] && op != seq!['>', '>'] && op != seq!['<']
    } else {
        names_command(cut, i - 1)
    }
}

proof fn lemma_names_command(grammar: Grammar, line: Seq<char>, i: int)
    requires
        0 <= i <= tokens(grammar, line).len(),
    ensures
        names_command(tokens(grammar, line), i) == command_position(tokens(grammar, line), i),
    decreases i,
{
    if i > 0 {
        lemma_names_command(grammar, line, i - 1);
        let token = tokens(grammar, line)[i - 1];
        law_tokens_are_what_their_kinds_say(grammar, line, i - 1);
        if token.kind is Operator {
            let op = token.text;
            assert(seq!['>'][0] == '>' && seq!['>', '>'][0] == '>' && seq!['<'][0] == '<');
            assert(seq!['|'][0] == '|' && seq!['|', '|'][0] == '|' && seq!['&', '&'][0] == '&' && seq![
                ';',
            ][0] == ';');
        }
    }
}

/// Each token of a command line is a segment in its colour: a command name in
/// bold magenta, an option in blue, an assignment in dark gray, any other word in
/// the colour of arguments, an operator in bold cyan, a string in yellow, a
/// string that nothing closes in bold red, and a blank as it is.
pub proof fn law_tokens_have_their_colours(h: JarvisHighlighter, line: Seq<char>, i: int)
    requires
        0 <= i < tokens(h.grammar, line).len(),
    ensures
        ({
            let cut = tokens(h.grammar, line);
            let segments = line_segments(h, line, InputType::Command);
            let (look, shown_text) = segments[i];
            let word = cut[i].text;
            &&& segments.len() == cut.len()
            &&& shown_text == word
            &&& cut[i].kind is Word && names_command(cut, i) ==> look == (TextStyle {
                hue: Some(Hue::Magenta),
                bold: true,
            })
            &&& cut[i].kind is Word && !names_command(cut, i) ==> look == (TextStyle {
                hue: Some(
                    if word[0] == '-' {
                        Hue::Blue
                    } else if word.contains('=') {
                        Hue::DarkGray
                    } else {
                        h.argument
                    },
                ),
                bold: false,
            })
            &&& cut[i].kind is Operator ==> look == (TextStyle { hue: Some(Hue::Cyan), bold: true })
            &&& cut[i].kind is Quoted ==> look == (TextStyle { hue: Some(Hue::Yellow), bold: false })
            &&& cut[i].kind is Unclosed ==> look == (TextStyle { hue: Some(Hue::Red), bold: true })
            &&& cut[i].kind is Blank ==> look == (TextStyle { hue: None, bold: false })
        }),
{
    law_each_token_has_its_style(h, line, i);
    law_tokens_are_what_their_kinds_say(h.grammar, line, i);
    lemma_names_command(h.grammar, line, i);
    let word = tokens(h.grammar, line)[i].text;
    if tokens(h.grammar, line)[i].kind is Word {
        assert(word_character(word[0]));
    }
}

/// A line in natural language is one segment as it is, for a highlighter that
/// knows lists. The other takes it for a command.
pub proof fn law_natural_language_is_not_coloured(argument: Hue, line: Seq<char>)
    ensures
        line_segments(
            JarvisHighlighter { argument, grammar: Grammar::Lists },
            line,
            InputType::NaturalLanguage,
        ) == seq![(TextStyle { hue: None, bold: false }, line)],
        line_segments(
            JarvisHighlighter { argument, grammar: Grammar::Pipelines },
            line,
            InputType::NaturalLanguage,
        ) == line_segments(
            JarvisHighlighter { argument, grammar: Grammar::Pipelines },
            line,
            InputType::Command,
        ),
{
}

/// A word sets a variable where it holds an equals sign and does not begin with
/// a quote.
pub proof fn law_assignment_holds_an_equals_sign(name: Seq<char>, value: Seq<char>, word: Seq<char>)
    requires
        name.len() > 0 ==> name[0] != '"' && name[0] != '\'',
        !word.contains('='),
    ensures
        assignment(name + seq!['='] + value),
        !assignment(word),
        !assignment(seq!['"'] + name + seq!['='] + value),
        !assignment(seq!['\''] + name + seq!['='] + value),
{
    let all = name + seq!['='] + value;
    assert(all[name.len() as int] == '=');
    assert(all.contains('='));
    assert((seq!['"'] + name + seq!['='] + value)[0] == '"');
    assert((seq!['\''] + name + seq!['='] + value)[0] == '\'');
}

/// What is shown of a line where only pipelines are known: a `;` that no quotes
/// enclose is left out, a string is shown as it is, and so is everything else.
pub proof fn law_loose_semicolon_is_left_out(before: Seq<char>, behind: Seq<char>, q: char, string: Seq<char>)
    requires
        !before.contains('"'),
        !before.contains('\''),
        q == '"' || q == '\'',
        !string.contains(q),
    ensures
        ({
            let lead = shown(Grammar::Pipelines, None, before);
            let tail = shown(Grammar::Pipelines, None, behind);
            &&& shown(Grammar::Pipelines, None, before + seq![';'] + behind) == lead + tail
            &&& shown(Grammar::Pipelines, None, before + seq![q] + string + seq![q] + behind) == lead
                + seq![q] + string + seq![q] + tail
            &&& !before.contains(';') ==> lead == before
        }),
{
    let p = Grammar::Pipelines;
    let tail = shown(p, None, behind);
    let end = seq![';'] + behind;
    assert(before + seq![';'] + behind =~= before + end);
    lemma_shown_behind(before, end);
    assert(end.skip(1) =~= behind);
    let body = string + (seq![q] + behind);
    let quoted = seq![q] + body;
    assert(before + seq![q] + string + seq![q] + behind =~= before + quoted);
    lemma_shown_behind(before, quoted);
    assert(quoted.skip(1) =~= body);
    lemma_string_is_shown(q, string, behind);
    assert(shown(p, None, before + quoted) =~= shown(p, None, before) + seq![q] + string + seq![q] + tail);
    if !before.contains(';') {
        lemma_all_is_shown(p, None, before);
    }
}

proof fn lemma_shown_behind(before: Seq<char>, behind: Seq<char>)
    requires
        !before.contains('"'),
        !before.contains('\''),
    ensures
        shown(Grammar::Pipelines, None, before + behind) == shown(Grammar::Pipelines, None, before)
            + shown(Grammar::Pipelines, None, behind),
    decreases before.len(),
{
    let p = Grammar::Pipelines;
    let all = before + behind;
    if before.len() == 0 {
        assert(all =~= behind);
        assert(shown(p, None, before) + shown(p, None, behind) =~= shown(p, None, behind));
    } else {
        assert(before.contains(before[0]));
        assert forall|c: char| before.skip(1).contains(c) implies before.contains(c) by {
            let k = choose|k: int| 0 <= k < before.skip(1).len() && before.skip(1)[k] == c;
            assert(before[k + 1] == c);
        }
        lemma_shown_behind(before.skip(1), behind);
        assert(all.skip(1) =~= before.skip(1) + behind);
        assert(shown(p, None, all) =~= shown(p, None, before) + shown(p, None, behind));
    }
}

proof fn lemma_string_is_shown(q: char, string: Seq<char>, behind: Seq<char>)
    requires
        q == '"' || q == '\'',
        !string.contains(q),
    ensures
        shown(Grammar::Pipelines, Some(q), string + (seq![q] + behind)) == string + (seq![q] + shown(
            Grammar::Pipelines,
            None,
            behind,
        )),
    decreases string.len(),
{
    let p = Grammar::Pipelines;
    let all = string + (seq![q] + behind);
    let tail = seq![q] + shown(p, None, behind);
    if string.len() == 0 {
        assert(all =~= seq![q] + behind);
        assert(all.skip(1) =~= behind);
        assert(string + tail =~= tail);
    } else {
        assert(string.contains(string[0]));
        assert forall|c: char| string.skip(1).contains(c) implies string.contains(c) by {
            let k = choose|k: int| 0 <= k < string.skip(1).len() && string.skip(1)[k] == c;
            assert(string[k + 1] == c);
        }
        lemma_string_is_shown(q, string.skip(1), behind);
        assert(all.skip(1) =~= string.skip(1) + (seq![q] + behind));
        assert(shown(p, Some(q), all) =~= string + tail);
    }
}

proof fn lemma_semicolon_joins(begun: Seq<char>, before: Seq<char>, behind: Seq<char>)
    requires
        !before.contains('"'),
        !before.contains('\''),
        before.len() > 0 && behind.len() > 0 ==> !(before.last() == '>' && behind[0] == '>'),
    ensures
        tokens_from(Grammar::Pipelines, begun, None, before + seq![';'] + behind) == tokens_from(
            Grammar::Pipelines,
            begun,
            None,
            before + behind,
        ),
    decreases before.len(),
{
    let p = Grammar::Pipelines;
    let with = before + seq![';'] + behind;
    let without = before + behind;
    if before.len() == 0 {
        assert(with.skip(1) =~= behind);
        assert(without =~= behind);
    } else {
        let c = before[0];
        assert(before.contains(c));
        assert(with[0] == c && without[0] == c);
        if before.len() > 1 {
            assert(with[1] == before[1] && without[1] == before[1]);
        }
        let n = operator_len(p, with) as int;
        assert(operator_len(p, without) == n);
        let step: int = if n > 0 {
            n
        } else {
            1
        };
        let rest = before.skip(step);
        assert forall|q: char| rest.contains(q) implies before.contains(q) by {
            let j = rest.index_of(q);
            assert(before[j + step] == q);
        }
        assert(with.skip(step) =~= rest + seq![';'] + behind);
        assert(without.skip(step) =~= rest + behind);
        assert(with.take(step) =~= without.take(step));
        lemma_semicolon_joins(seq![], rest, behind);
        lemma_semicolon_joins(begun, rest, behind);
        lemma_semicolon_joins(begun.push(c), rest, behind);
    }
}

/// Where only pipelines are known, a `;` that no quotes enclose is as good as
/// none: what stands on its two sides is coloured as if it stood side by side.
pub proof fn law_loose_semicolon_parts_nothing(
    h: JarvisHighlighter,
    before: Seq<char>,
    behind: Seq<char>,
    kind: InputType,
)
    requires
        h.grammar == Grammar::Pipelines,
        !before.contains('"'),
        !before.contains('\''),
        before.len() > 0 && behind.len() > 0 ==> !(before.last() == '>' && behind[0] == '>'),
    ensures
        line_segments(h, before + seq![';'] + behind, kind) == line_segments(h, before + behind, kind),
{
    lemma_semicolon_joins(seq![], before, behind);
}

} // verus!
