//! The prompt: the built-in one and the one that Starship draws.

use std::path::Path;

use vstd::prelude::*;

use crate::framing;
use crate::framing::decode_lossy;
use crate::git;
use crate::git::{format_branch_label, format_git_status_at, StatusCounts};
use crate::style;
use crate::style::{Hue, Piece};
use crate::text;
use crate::text::{push_decimal, push_signed_decimal};

verus! {

/// The exit code that stands for no command having run yet.
pub const EXIT_CODE_NONE: i32 = -2147483648;

/// The duration that stands for none having been measured.
pub const CMD_DURATION_NONE: u64 = 0xffff_ffff_ffff_ffff;

/// What is left of a path once the components of a base are taken off its
/// front, where it begins with them.
pub uninterp spec fn path_below(path: Seq<char>, base: Seq<char>) -> Option<Seq<char>>;

/// Whether the name behind the slash at position `i`, if one stands there, is
/// neither empty nor `.`.
pub open spec fn plain_behind(path: Seq<char>, i: int) -> bool {
    path[i] == '/' ==> {
        &&& i + 1 < path.len()
        &&& path[i + 1] != '/'
        &&& path[i + 1] == '.' ==> i + 2 < path.len() && path[i + 2] != '/'
    }
}

/// Whether a path is absolute and plainly written: it is the root, or one slash
/// stands before each of its names, none behind the last, and no name is `.`.
pub open spec fn plain_path(path: Seq<char>) -> bool {
    ||| path == seq!['/']
    ||| {
        &&& path.len() > 0
        &&& path[0] == '/'
        &&& forall|i: int| 0 <= i < path.len() ==> #[trigger] plain_behind(path, i)
    }
}

/// What is left of a path once a base is taken off its front, where both are
/// plainly written. A base ends where a name ends.
pub open spec fn plain_rest(path: Seq<char>, base: Seq<char>) -> Option<Seq<char>> {
    let n = base.len() as int;
    if path == base {
        Some(seq![])
    } else if base == seq!['/'] {
        Some(path.skip(1))
    } else if path.len() > n && path.take(n) == base && path[n] == '/' {
        Some(path.skip(n + 1))
    } else {
        None
    }
}

/// `Path::strip_prefix` of the standard library, on a system whose separator is
/// the slash. Paths are compared component by component; nothing is left of a
/// path from which it is itself taken off. Of two paths that are plainly
/// written, what is left is what stands behind the base and a slash, and there
/// is none where the base does not end at a name of the path.
#[verifier::external_body]
fn strip_path_prefix(path: &str, base: &str) -> (r: Option<String>)
    ensures
        text::optional_text(r) == path_below(path@, base@),
        path@ == base@ ==> text::optional_text(r) == Some(Seq::<char>::empty()),
        plain_path(path@) && plain_path(base@) ==> text::optional_text(r) == plain_rest(
            path@,
            base@,
        ),
{
    Path::new(path).strip_prefix(base).ok().map(|rest| rest.display().to_string())
}

/// A path with `~` for the home directory, where `rest` is what is left of it
/// below the home directory, if it lies there.
pub open spec fn shortened(path: Seq<char>, rest: Option<Seq<char>>) -> Seq<char> {
    match rest {
        Some(r) => if r.len() == 0 {
            "~"@
        } else {
            "~/"@ + r
        },
        None => path,
    }
}

/// Shortens a path, given what is left of it below the home directory.
pub fn shorten_with(path: &str, rest: Option<&str>) -> (r: String)
    ensures
        r@ == shortened(
            path@,
            match rest {
                Some(s) => Some(s@),
                None => None,
            },
        ),
{
    match rest {
        Some(s) => {
            if s.is_empty() {
                "~".to_owned()
            } else {
                let mut out: String = "~/".to_owned();
                out.append(s);
                out
            }
        },
        None => path.to_owned(),
    }
}

/// Writes the home directory as `~`. A path outside it stays as it is.
pub fn shorten_path(path: &str, home: Option<&str>) -> (r: String)
    ensures
        r@ == shortened(
            path@,
            match home {
                Some(dir) => path_below(path@, dir@),
                None => None,
            },
        ),
        home matches Some(dir) && dir@ == path@ ==> r@ == "~"@,
        home matches Some(dir) ==> (plain_path(path@) && plain_path(dir@) ==> r@ == shortened(
            path@,
            plain_rest(path@, dir@),
        )),
{
    match home {
        Some(dir) => {
            let rest: Option<String> = strip_path_prefix(path, dir);
            match &rest {
                Some(s) => shorten_with(path, Some(s.as_str())),
                None => shorten_with(path, None),
            }
        },
        None => shorten_with(path, None),
    }
}

/// A repository, as the prompt shows it.
#[derive(Debug, Clone, PartialEq, Eq)]
pub struct GitInfo {
    pub branch: String,
    /// The counts of its files, where they could be read.
    pub counts: Option<StatusCounts>,
}

/// The name that the prompt begins with: it tells how the last command ended.
pub open spec fn label(code: i32) -> (Option<Hue>, Seq<char>) {
    if code != 0 && code != EXIT_CODE_NONE {
        (Some(Hue::Red), "\u{2717} jarvis"@)
    } else if code == 0 {
        (Some(Hue::Cyan), "\u{2714}\u{fe0e} jarvis"@)
    } else {
        (Some(Hue::Cyan), "jarvis"@)
    }
}

/// What the prompt shows of a repository.
pub open spec fn git_part(info: Option<GitInfo>, nerd_font: bool) -> Seq<(Option<Hue>, Seq<char>)> {
    match info {
        Some(i) => seq![
            (None, "on "@),
            (Some(Hue::Cyan), git::branch_text(i.branch@, nerd_font)),
            (None, " "@),
        ] + git::status_pieces(i.counts, nerd_font),
        None => seq![],
    }
}

/// A directory, behind an icon where the font is a patched one.
pub open spec fn place_text(dir: Seq<char>, nerd_font: bool) -> Seq<char> {
    if nerd_font {
        seq!['\u{f4d3}', ' '] + dir
    } else {
        dir
    }
}

/// The left prompt. `cwd` is the current directory, shortened, where there is
/// one. Icons are shown in a patched font only.
pub open spec fn left_pieces(
    prompt: JarvisPrompt,
    cwd: Option<Seq<char>>,
    info: Option<GitInfo>,
) -> Seq<(Option<Hue>, Seq<char>)> {
    let dir = match cwd {
        Some(d) => d,
        None => "?"@,
    };
    seq![
        label(prompt.last_exit_code),
        (None, " in "@),
        (Some(Hue::Yellow), place_text(dir, prompt.nerd_font)),
        (None, " "@),
    ] + git_part(info, prompt.nerd_font) + seq![(None, "\n"@)]
}

/// The number that the digits at positions `i` and `i + 1` are.
pub open spec fn two_digits(s: Seq<char>, i: int) -> int {
    (s[i] as int - '0' as int) * 10 + (s[i + 1] as int - '0' as int)
}

/// Whether `s` is a time of day: two digits each for hour, minute and second.
/// The second is the sixtieth where one is inserted.
pub open spec fn clock_text(s: Seq<char>) -> bool {
    &&& s.len() == 8
    &&& forall|i: int|
        0 <= i < 8 ==> if i == 2 || i == 5 {
            #[trigger] s[i] == ':'
        } else {
            '0' <= s[i] <= '9'
        }
    &&& two_digits(s, 0) <= 23
    &&& two_digits(s, 3) <= 59
    &&& two_digits(s, 6) <= 60
}

/// The form in which the time of day is shown.
pub const CLOCK_FORMAT: &'static str = "%H:%M:%S";

/// `Local::now` of chrono and its `format`: the time of day in the machine's
/// time zone, hour, minute and second with two digits each. An hour is at most
/// 23, a minute at most 59, and a second at most 60, which an inserted one is.
/// Nothing is said of which time it is.
#[verifier::external_body]
fn local_time_text(format: &str) -> (r: String)
    requires
        format@ == CLOCK_FORMAT@,
    ensures
        clock_text(r@),
{
    chrono::Local::now().format(format).to_string()
}

/// What stands before the term that is searched for.
pub open spec fn search_text(failing: bool, term: Seq<char>) -> Seq<char> {
    (if failing {
        "(failed) "@
    } else {
        ""@
    }) + "(search: '"@ + term + "') "@
}

/// Formats the prompt of a search in the history.
pub fn history_search_indicator(failing: bool, term: &str) -> (r: String)
    ensures
        r@ == search_text(failing, term@),
{
    let mut out: String = if failing {
        "(failed) ".to_owned()
    } else {
        "".to_owned()
    };
    out.append("(search: '");
    out.append(term);
    out.append("') ");
    out
}

/// The built-in prompt.
#[derive(Debug, Clone, Copy, PartialEq, Eq, Structural)]
pub struct JarvisPrompt {
    /// The exit code of the last command.
    pub last_exit_code: i32,
    /// Whether the terminal's font is a patched one, which has icons.
    pub nerd_font: bool,
}

impl JarvisPrompt {
    /// A prompt behind a command that ended like this.
    pub fn new(last_exit_code: i32, nerd_font: bool) -> (r: Self)
        ensures
            r == (JarvisPrompt { last_exit_code, nerd_font }),
    {
        JarvisPrompt { last_exit_code, nerd_font }
    }

    /// The left prompt.
    pub fn render_prompt_left(&self, cwd: Option<&str>, info: Option<&GitInfo>) -> (r: Vec<Piece>)
        ensures
            style::pieces(r@) == left_pieces(
                *self,
                match cwd {
                    Some(dir) => Some(dir@),
                    None => None,
                },
                match info {
                    Some(i) => Some(*i),
                    None => None,
                },
            ),
    {
        let mut out: Vec<Piece> = Vec::new();
        let code: i32 = self.last_exit_code;
        if code != 0 && code != EXIT_CODE_NONE {
            out.push(Piece::coloured(Hue::Red, "\u{2717} jarvis"));
        } else if code == 0 {
            out.push(Piece::coloured(Hue::Cyan, "\u{2714}\u{fe0e} jarvis"));
        } else {
            out.push(Piece::coloured(Hue::Cyan, "jarvis"));
        }
        out.push(Piece::plain(" in "));
        let mut place: String = String::new();
        if self.nerd_font {
            place.push('\u{f4d3}');
            place.push(' ');
        }
        match cwd {
            Some(dir) => {
                place.append(dir);
            },
            None => {
                place.append("?");
            },
        }
        let ghost dir = match cwd {
            Some(d) => d@,
            None => "?"@,
        };
        assert(place@ =~= place_text(dir, self.nerd_font));
        out.push(Piece { hue: Some(Hue::Yellow), text: place });
        out.push(Piece::plain(" "));
        let ghost head = style::pieces(out@);
        assert(head =~= seq![
            label(code),
            (None, " in "@),
            (Some(Hue::Yellow), place_text(dir, self.nerd_font)),
            (None, " "@),
        ]);
        if let Some(i) = info {
            out.push(Piece::plain("on "));
            out.push(format_branch_label(i.branch.as_str(), self.nerd_font));
            out.push(Piece::plain(" "));
            let mut counts: Vec<Piece> = format_git_status_at(i.counts, self.nerd_font);
            let ghost shown = counts@;
            let ghost before = out@;
            out.append(&mut counts);
            assert(style::pieces(out@) =~= style::pieces(before) + style::pieces(shown));
            assert(style::pieces(out@) =~= head + git_part(Some(*i), self.nerd_font));
        } else {
            assert(style::pieces(out@) =~= head + git_part(None, self.nerd_font));
        }
        let ghost before = out@;
        out.push(Piece::plain("\n"));
        assert(style::pieces(out@) =~= style::pieces(before) + seq![(None, "\n"@)]);
        out
    }

    /// The right prompt at this time of day.
    pub fn right_at(&self, now: &str) -> (r: Piece)
        ensures
            r@ == (Some(Hue::White), now@),
    {
        Piece::coloured(Hue::White, now)
    }

    /// The right prompt: the time of day.
    pub fn render_prompt_right(&self) -> (r: Piece)
        ensures
            r@.0 == Some(Hue::White),
            clock_text(r@.1),
    {
        let now: String = local_time_text(CLOCK_FORMAT);
        self.right_at(now.as_str())
    }

    /// What stands before the input.
    pub fn render_prompt_indicator(&self) -> (r: Piece)
        ensures
            r@ == (Some(Hue::Green), "\u{276f} "@),
    {
        Piece::coloured(Hue::Green, "\u{276f} ")
    }

    /// What stands before a further line of the input.
    pub fn render_prompt_multiline_indicator(&self) -> (r: Piece)
        ensures
            r@ == (None::<Hue>, " :: "@),
    {
        Piece::plain(" :: ")
    }
}

/// A part of Starship's prompt.
#[derive(Debug, Clone, Copy, PartialEq, Eq, Structural)]
pub enum StarshipPart {
    Left,
    Right,
    Continuation,
}

/// The argument that asks for a part of the prompt.
pub open spec fn part_args(part: StarshipPart) -> Seq<Seq<char>> {
    match part {
        StarshipPart::Left => seq![],
        StarshipPart::Right => seq!["--right"@],
        StarshipPart::Continuation => seq!["--continuation"@],
    }
}

/// The arguments with which Starship is run.
pub open spec fn starship_args(code: i32, duration: u64, part: StarshipPart, width: Option<u16>) -> Seq<
    Seq<char>,
> {
    seq!["prompt"@] + part_args(part) + (if code != EXIT_CODE_NONE {
        seq!["--status="@ + text::signed_decimal(code as int)]
    } else {
        seq![]
    }) + (if duration != CMD_DURATION_NONE {
        seq!["--cmd-duration="@ + text::decimal(duration as nat)]
    } else {
        seq![]
    }) + (match width {
        Some(w) => seq!["--terminal-width="@ + text::decimal(w as nat)],
        None => seq![],
    })
}

/// The width of the terminal, where it could be read and is not zero.
pub fn terminal_width(readable: bool, columns: u16) -> (r: Option<u16>)
    ensures
        r == if readable && columns > 0 {
            Some(columns)
        } else {
            None
        },
{
    if readable && columns > 0 {
        Some(columns)
    } else {
        None
    }
}

/// What is shown of a run of Starship: what it printed, or an arrow where it
/// could not be run.
pub fn starship_text(stdout: Option<&[u8]>) -> (r: String)
    ensures
        r@ == match stdout {
            Some(bytes) => framing::lossy_text(bytes@),
            None => "\u{276f} "@,
        },
{
    match stdout {
        Some(bytes) => decode_lossy(bytes),
        None => "\u{276f} ".to_owned(),
    }
}

/// The prompt that Starship draws.
#[derive(Debug, Clone, PartialEq, Eq)]
pub struct StarshipPrompt {
    /// The exit code of the last command.
    pub last_exit_code: i32,
    /// How long the last command took, in milliseconds.
    pub cmd_duration_ms: u64,
    /// Where Starship was found.
    pub starship_path: String,
}

impl StarshipPrompt {
    /// A prompt behind a command that ended like this.
    pub fn new(last_exit_code: i32, cmd_duration_ms: u64, starship_path: String) -> (r: Self)
        ensures
            r.last_exit_code == last_exit_code,
            r.cmd_duration_ms == cmd_duration_ms,
            r.starship_path == starship_path,
    {
        StarshipPrompt { last_exit_code, cmd_duration_ms, starship_path }
    }

    /// The arguments with which Starship is run for a part of the prompt.
    pub fn run_starship(&self, part: StarshipPart, width: Option<u16>) -> (r: Vec<String>)
        ensures
            text::texts(r@) == starship_args(
                self.last_exit_code,
                self.cmd_duration_ms,
                part,
                width,
            ),
    {
        let mut args: Vec<String> = Vec::new();
        args.push("prompt".to_owned());
        match part {
            StarshipPart::Left => {},
            StarshipPart::Right => {
                args.push("--right".to_owned());
            },
            StarshipPart::Continuation => {
                args.push("--continuation".to_owned());
            },
        }
        if self.last_exit_code != EXIT_CODE_NONE {
            let mut status: String = "--status=".to_owned();
            push_signed_decimal(&mut status, self.last_exit_code);
            args.push(status);
        }
        if self.cmd_duration_ms != CMD_DURATION_NONE {
            let mut duration: String = "--cmd-duration=".to_owned();
            push_decimal(&mut duration, self.cmd_duration_ms);
            args.push(duration);
        }
        if let Some(w) = width {
            let mut columns: String = "--terminal-width=".to_owned();
            push_decimal(&mut columns, w as u64);
            args.push(columns);
        }
        assert(text::texts(args@) =~= starship_args(
            self.last_exit_code,
            self.cmd_duration_ms,
            part,
            width,
        ));
        args
    }

    /// What stands before the input: nothing, for Starship draws it.
    pub fn render_prompt_indicator(&self) -> (r: Piece)
        ensures
            r@ == (None::<Hue>, ""@),
    {
        Piece::plain("")
    }
}

/// The prompt that is in use.
#[derive(Debug, Clone, PartialEq, Eq)]
pub enum ShellPrompt {
    Builtin(JarvisPrompt),
    Starship(StarshipPrompt),
}

/// How a part of the prompt is made.
#[derive(Debug, Clone, PartialEq, Eq)]
pub enum PromptPlan {
    /// It is these pieces.
    Print(Vec<Piece>),
    /// It is what the program at this path prints with these arguments.
    Run(String, Vec<String>),
}

impl ShellPrompt {
    /// The built-in prompt.
    pub fn builtin(last_exit_code: i32, nerd_font: bool) -> (r: Self)
        ensures
            r == ShellPrompt::Builtin(JarvisPrompt { last_exit_code, nerd_font }),
    {
        ShellPrompt::Builtin(JarvisPrompt::new(last_exit_code, nerd_font))
    }

    /// The prompt that Starship draws.
    pub fn starship(last_exit_code: i32, cmd_duration_ms: u64, starship_path: String) -> (r: Self)
        ensures
            r == ShellPrompt::Starship(
                StarshipPrompt { last_exit_code, cmd_duration_ms, starship_path },
            ),
    {
        ShellPrompt::Starship(StarshipPrompt::new(last_exit_code, cmd_duration_ms, starship_path))
    }

    /// Tells whether the repository has to be looked at again: Starship does so
    /// itself.
    pub fn refresh_git_status(&self) -> (b: bool)
        ensures
            b == (self is Builtin),
    {
        match self {
            ShellPrompt::Builtin(_) => true,
            ShellPrompt::Starship(_) => false,
        }
    }

    /// How the left prompt is made.
    pub fn render_prompt_left(
        &self,
        cwd: Option<&str>,
        info: Option<&GitInfo>,
        width: Option<u16>,
    ) -> (r: PromptPlan)
        ensures
            match *self {
                ShellPrompt::Builtin(p) => r matches PromptPlan::Print(v) && style::pieces(v@)
                    == left_pieces(
                    p,
                    match cwd {
                        Some(dir) => Some(dir@),
                        None => None,
                    },
                    match info {
                        Some(i) => Some(*i),
                        None => None,
                    },
                ),
                ShellPrompt::Starship(p) => r matches PromptPlan::Run(program, args) && program@
                    == p.starship_path@ && text::texts(args@) == starship_args(
                    p.last_exit_code,
                    p.cmd_duration_ms,
                    StarshipPart::Left,
                    width,
                ),
            },
    {
        match self {
            ShellPrompt::Builtin(p) => PromptPlan::Print(p.render_prompt_left(cwd, info)),
            ShellPrompt::Starship(p) => PromptPlan::Run(
                p.starship_path.clone(),
                p.run_starship(StarshipPart::Left, width),
            ),
        }
    }

    /// How the right prompt is made.
    pub fn render_prompt_right(&self, width: Option<u16>) -> (r: PromptPlan)
        ensures
            match *self {
                ShellPrompt::Builtin(p) => r matches PromptPlan::Print(v) && v@.len() == 1
                    && v@[0]@.0 == Some(Hue::White) && clock_text(v@[0]@.1),
                ShellPrompt::Starship(p) => r matches PromptPlan::Run(program, args) && program@
                    == p.starship_path@ && text::texts(args@) == starship_args(
                    p.last_exit_code,
                    p.cmd_duration_ms,
                    StarshipPart::Right,
                    width,
                ),
            },
    {
        match self {
            ShellPrompt::Builtin(p) => {
                let mut v: Vec<Piece> = Vec::new();
                v.push(p.render_prompt_right());
                PromptPlan::Print(v)
            },
            ShellPrompt::Starship(p) => PromptPlan::Run(
                p.starship_path.clone(),
                p.run_starship(StarshipPart::Right, width),
            ),
        }
    }

    /// What stands before the input.
    pub fn render_prompt_indicator(&self) -> (r: Piece)
        ensures
            r@ == (match *self {
                ShellPrompt::Builtin(_) => (Some(Hue::Green), "\u{276f} "@),
                ShellPrompt::Starship(_) => (None, ""@),
            }),
    {
        match self {
            ShellPrompt::Builtin(p) => p.render_prompt_indicator(),
            ShellPrompt::Starship(p) => p.render_prompt_indicator(),
        }
    }

    /// How the prompt of a further line of the input is made.
    pub fn render_prompt_multiline_indicator(&self, width: Option<u16>) -> (r: PromptPlan)
        ensures
            match *self {
                ShellPrompt::Builtin(_) => r matches PromptPlan::Print(v) && style::pieces(v@)
                    == seq![(None::<Hue>, " :: "@)],
                ShellPrompt::Starship(p) => r matches PromptPlan::Run(program, args) && program@
                    == p.starship_path@ && text::texts(args@) == starship_args(
                    p.last_exit_code,
                    p.cmd_duration_ms,
                    StarshipPart::Continuation,
                    width,
                ),
            },
    {
        match self {
            ShellPrompt::Builtin(p) => {
                let mut v: Vec<Piece> = Vec::new();
                v.push(p.render_prompt_multiline_indicator());
                assert(style::pieces(v@) =~= seq![(None, " :: "@)]);
                PromptPlan::Print(v)
            },
            ShellPrompt::Starship(p) => PromptPlan::Run(
                p.starship_path.clone(),
                p.run_starship(StarshipPart::Continuation, width),
            ),
        }
    }
}

/// The home directory is shown as `~`, a path below it by what follows the home
/// directory, behind `~/`, and a path outside it as it is. A path that only
/// begins with the same letters is outside.
pub proof fn law_home_is_shown_as_tilde(home: Seq<char>, rest: Seq<char>, c: char)
    requires
        home.len() > 1,
        rest.len() > 0,
        c != '/',
    ensures
        shortened(home, plain_rest(home, home)) == seq!['~'],
        shortened(home + seq!['/'] + rest, plain_rest(home + seq!['/'] + rest, home)) == seq!['~', '/']
            + rest,
        shortened(home + seq![c] + rest, plain_rest(home + seq![c] + rest, home)) == home + seq![c]
            + rest,
        shortened(home, None) == home,
{
    reveal_strlit("~");
    reveal_strlit("~/");
    assert("~"@ =~= seq!['~']);
    assert("~/"@ =~= seq!['~', '/']);
    let n = home.len() as int;
    let inside = home + seq!['/'] + rest;
    assert(inside.take(n) =~= home);
    assert(inside.skip(n + 1) =~= rest);
    assert(inside.len() > n);
    let outside = home + seq![c] + rest;
    assert(outside.len() > n);
    assert(outside[n] == c);
}

/// Where the home directory is the root, every other path is below it.
pub proof fn law_every_path_is_below_the_root(rest: Seq<char>)
    requires
        rest.len() > 0,
    ensures
        shortened(seq!['/'] + rest, plain_rest(seq!['/'] + rest, seq!['/'])) == seq!['~', '/'] + rest,
        shortened(seq!['/'], plain_rest(seq!['/'], seq!['/'])) == seq!['~'],
{
    reveal_strlit("~");
    reveal_strlit("~/");
    assert("~"@ =~= seq!['~']);
    assert("~/"@ =~= seq!['~', '/']);
    let path = seq!['/'] + rest;
    assert(path.len() > 1);
    assert(path.skip(1) =~= rest);
}

/// The prompt tells how the last command ended: a command that failed, with any
/// code, is a cross in red, one that succeeded a tick, and where none has run yet
/// there is neither.
pub proof fn law_prompt_tells_success_from_failure(code: i32)
    ensures
        code != 0 && code != i32::MIN ==> label(code) == (Some(Hue::Red), "\u{2717} jarvis"@),
        label(0) == (Some(Hue::Cyan), "\u{2714}\u{fe0e} jarvis"@),
        label(i32::MIN) == (Some(Hue::Cyan), "jarvis"@),
{
}

/// The left prompt is its name, the directory in yellow, what there is to say of
/// the repository, and the end of the line.
pub proof fn law_left_prompt_stands_in_order(
    prompt: JarvisPrompt,
    dir: Seq<char>,
    info: Option<GitInfo>,
)
    ensures
        ({
            let pieces = left_pieces(prompt, Some(dir), info);
            let part = git_part(info, prompt.nerd_font);
            let n = pieces.len() as int;
            &&& n == 5 + part.len()
            &&& pieces[0] == label(prompt.last_exit_code)
            &&& pieces[1] == (None::<Hue>, " in "@)
            &&& pieces[2] == (
                Some(Hue::Yellow),
                if prompt.nerd_font {
                    seq!['\u{f4d3}', ' '] + dir
                } else {
                    dir
                },
            )
            &&& pieces[3] == (None::<Hue>, " "@)
            &&& pieces.subrange(4, n - 1) == part
            &&& pieces[n - 1] == (None::<Hue>, "\n"@)
        }),
        left_pieces(prompt, None, info) == left_pieces(prompt, Some("?"@), info),
{
    let pieces = left_pieces(prompt, Some(dir), info);
    assert(pieces.subrange(4, pieces.len() - 1) =~= git_part(info, prompt.nerd_font));
}

/// Of a repository the prompt shows the branch in cyan, behind `on`, and then the
/// counts. Outside a repository it shows nothing.
pub proof fn law_repository_is_shown_by_branch_and_counts(info: GitInfo, nerd_font: bool)
    ensures
        ({
            let part = git_part(Some(info), nerd_font);
            &&& part.len() >= 3
            &&& part[0] == (None::<Hue>, "on "@)
            &&& part[1] == (Some(Hue::Cyan), git::branch_text(info.branch@, nerd_font))
            &&& part[2] == (None::<Hue>, " "@)
            &&& part.skip(3) == git::status_pieces(info.counts, nerd_font)
        }),
        git_part(None, nerd_font) == Seq::<(Option<Hue>, Seq<char>)>::empty(),
{
    let part = git_part(Some(info), nerd_font);
    assert(part.skip(3) =~= git::status_pieces(info.counts, nerd_font));
}

/// Starship is told the exit code where a command has run, and not where none
/// has. It is told how long the command took where that was measured, and how
/// wide the terminal is where that is known. No more is said, in this order.
pub proof fn law_starship_is_told_what_is_known(
    code: i32,
    duration: u64,
    part: StarshipPart,
    width: u16,
)
    requires
        code != i32::MIN,
        duration != u64::MAX,
    ensures
        ({
            let base = starship_args(i32::MIN, u64::MAX, part, None);
            let status = seq!["--status="@ + text::signed_decimal(code as int)];
            let time = seq!["--cmd-duration="@ + text::decimal(duration as nat)];
            let columns = seq!["--terminal-width="@ + text::decimal(width as nat)];
            &&& base == match part {
                StarshipPart::Left => seq!["prompt"@],
                StarshipPart::Right => seq!["prompt"@, "--right"@],
                StarshipPart::Continuation => seq!["prompt"@, "--continuation"@],
            }
            &&& starship_args(code, u64::MAX, part, None) == base + status
            &&& starship_args(i32::MIN, duration, part, None) == base + time
            &&& starship_args(i32::MIN, u64::MAX, part, Some(width)) == base + columns
            &&& starship_args(code, duration, part, None) == base + status + time
            &&& starship_args(code, u64::MAX, part, Some(width)) == base + status + columns
            &&& starship_args(i32::MIN, duration, part, Some(width)) == base + time + columns
            &&& starship_args(code, duration, part, Some(width)) == base + status + time + columns
        }),
{
    let base = starship_args(i32::MIN, u64::MAX, part, None);
    let status = seq!["--status="@ + text::signed_decimal(code as int)];
    let time = seq!["--cmd-duration="@ + text::decimal(duration as nat)];
    let columns = seq!["--terminal-width="@ + text::decimal(width as nat)];
    assert(base =~= match part {
        StarshipPart::Left => seq!["prompt"@],
        StarshipPart::Right => seq!["prompt"@, "--right"@],
        StarshipPart::Continuation => seq!["prompt"@, "--continuation"@],
    });
    assert(starship_args(code, u64::MAX, part, None) =~= base + status);
    assert(starship_args(i32::MIN, duration, part, None) =~= base + time);
    assert(starship_args(i32::MIN, u64::MAX, part, Some(width)) =~= base + columns);
    assert(starship_args(code, duration, part, None) =~= base + status + time);
    assert(starship_args(code, u64::MAX, part, Some(width)) =~= base + status + columns);
    assert(starship_args(i32::MIN, duration, part, Some(width)) =~= base + time + columns);
    assert(starship_args(code, duration, part, Some(width)) =~= base + status + time + columns);
}

/// The prompt of a search holds the term as it is, in quotes, and tells whether
/// nothing was found.
pub proof fn law_search_shows_its_term(term: Seq<char>)
    ensures
        search_text(false, term) == "(search: '"@ + term + "') "@,
        search_text(true, term) == "(failed) "@ + search_text(false, term),
{
    reveal_strlit("");
    assert(""@ =~= seq![]);
    assert(search_text(false, term) =~= "(search: '"@ + term + "') "@);
    assert(search_text(true, term) =~= "(failed) "@ + search_text(false, term));
}

/// A path is plainly written where one slash stands before each of its names,
/// and no name is empty or `.`.
pub proof fn law_names_behind_single_slashes_are_plainly_written(path: Seq<char>, name: Seq<char>)
    requires
        path.len() == 0 || (path.len() > 1 && plain_path(path)),
        name.len() > 0,
        name != seq!['.'],
        !name.contains('/'),
    ensures
        plain_path(path + seq!['/'] + name),
        plain_path(seq!['/']),
        !plain_path(path + seq!['/'] + name + seq!['/']),
        !plain_path(name),
{
    let all = path + seq!['/'] + name;
    let n = path.len() as int;
    assert forall|i: int| 0 <= i < name.len() implies #[trigger] name[i] != '/' by {
        assert(name.contains(name[i]));
    }
    assert(seq!['/'].len() == 1 && seq!['/'][0] == '/');
    if name.len() == 1 && name[0] == '.' {
        assert(name =~= seq!['.']);
    }
    assert forall|i: int| 0 <= i < all.len() implies #[trigger] plain_behind(all, i) by {
        if i < n {
            assert(plain_behind(path, i));
            assert(all[i] == path[i]);
            if i + 1 < n {
                assert(all[i + 1] == path[i + 1]);
            }
            if i + 2 < n {
                assert(all[i + 2] == path[i + 2]);
            }
        } else if i > n {
            assert(all[i] == name[i - n - 1]);
        } else {
            assert(all[n + 1] == name[0]);
            if name.len() > 1 {
                assert(all[n + 2] == name[1]);
            }
        }
    }
    assert(all[0] == '/');
    let ended = all + seq!['/'];
    assert(ended.len() > 1);
    assert(ended[all.len() as int] == '/');
    if plain_path(ended) {
        assert(plain_behind(ended, all.len() as int));
    }
    if plain_path(name) {
        assert(name[0] == '/');
    }
}

} // verus!
