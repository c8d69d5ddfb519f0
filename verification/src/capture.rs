//! What the completion shell prints, read into candidates.
//!
//! The shell prints one candidate a line, `value` or `value -- description`,
//! and ends each line with `\r\n`. A line may hold colour codes and carries
//! zsh's backslash quoting.

use vstd::prelude::*;

use crate::escape;
use crate::text;
use crate::text::{chars_of, string_of};

verus! {

/// One completion candidate.
#[derive(Debug, Clone, PartialEq, Eq)]
pub struct Candidate {
    /// The text that is inserted.
    pub value: String,
    /// What the candidate stands for, where the shell says so.
    pub description: Option<String>,
    /// Whether a space follows the value once it is inserted.
    pub append_whitespace: bool,
}

/// A candidate as mathematical values.
pub struct CandidateView {
    pub value: Seq<char>,
    pub description: Option<Seq<char>>,
    pub append_whitespace: bool,
}

impl View for Candidate {
    type V = CandidateView;

    open spec fn view(&self) -> CandidateView {
        CandidateView {
            value: self.value@,
            description: match self.description {
                Some(d) => Some(d@),
                None => None,
            },
            append_whitespace: self.append_whitespace,
        }
    }
}

/// The views of a sequence of candidates.
pub open spec fn candidate_views(candidates: Seq<Candidate>) -> Seq<CandidateView> {
    Seq::new(candidates.len(), |i: int| candidates[i]@)
}

/// Whether `c` ends a control sequence.
pub open spec fn csi_final(c: char) -> bool {
    '\u{40}' <= c <= '\u{7e}'
}

/// What follows a control sequence whose introducer stands before `s`: all of
/// `s` behind its first final character, nothing where there is none.
pub open spec fn after_csi(s: Seq<char>) -> Seq<char>
    decreases s.len(),
{
    if s.len() == 0 {
        s
    } else if csi_final(s[0]) {
        s.skip(1)
    } else {
        after_csi(s.skip(1))
    }
}

/// A control sequence takes nothing but characters of its own line.
pub proof fn lemma_after_csi_len(s: Seq<char>)
    ensures
        after_csi(s).len() <= s.len(),
    decreases s.len(),
{
    if s.len() > 0 && !csi_final(s[0]) {
        lemma_after_csi_len(s.skip(1));
    }
}

/// `s` without its control sequences (`ESC [` up to a final character).
pub open spec fn without_csi(s: Seq<char>) -> Seq<char>
    decreases s.len(),
{
    if s.len() == 0 {
        seq![]
    } else if s[0] == '\u{1b}' && s.len() > 1 && s[1] == '[' {
        proof {
            lemma_after_csi_len(s.skip(2));
        }
        without_csi(after_csi(s.skip(2)))
    } else {
        seq![s[0]] + without_csi(s.skip(1))
    }
}

/// Takes the control sequences out of `input`.
pub fn strip_ansi(input: &str) -> (r: String)
    ensures
        r@ == without_csi(input@),
{
    let chars: Vec<char> = chars_of(input);
    let mut out: String = String::new();
    let mut i: usize = 0;
    assert(input@.skip(0) =~= input@);
    while i < chars.len()
        invariant
            i <= chars@.len(),
            chars@ == input@,
            out@ + without_csi(input@.skip(i as int)) == without_csi(input@),
        decreases chars@.len() - i,
    {
        let c: char = chars[i];
        let ghost rest = input@.skip(i as int);
        if c == '\u{1b}' && i + 1 < chars.len() && chars[i + 1] == '[' {
            i += 2;
            assert(rest.skip(2) =~= input@.skip(i as int));
            let mut ended: bool = false;
            while !ended && i < chars.len()
                invariant
                    i <= chars@.len(),
                    chars@ == input@,
                    rest.len() >= 2,
                    rest.len() > chars@.len() - i,
                    after_csi(rest.skip(2)) == (if ended {
                        input@.skip(i as int)
                    } else {
                        after_csi(input@.skip(i as int))
                    }),
                decreases chars@.len() - i,
            {
                let d: char = chars[i];
                assert(input@.skip(i as int).skip(1) =~= input@.skip(i + 1));
                if '\u{40}' <= d && d <= '\u{7e}' {
                    ended = true;
                }
                i += 1;
            }
            assert(after_csi(rest.skip(2)) =~= input@.skip(i as int));
        } else {
            let ghost before = out@;
            out.push(c);
            proof {
                assert(rest.skip(1) =~= input@.skip(i + 1));
                assert(out@ + without_csi(rest.skip(1)) =~= before + without_csi(rest));
            }
            i += 1;
        }
    }
    assert(out@ =~= without_csi(input@));
    out
}

/// Whether zsh prints `c` behind a backslash.
pub open spec fn zsh_quotes(c: char) -> bool {
    ||| c == '\\' || c == '&' || c == '<' || c == '>' || c == '`' || c == '\'' || c == '"'
    ||| c == '{' || c == '}' || c == '$' || c == '#' || c == '|' || c == '?' || c == '('
    ||| c == ')' || c == ';' || c == ' ' || c == '[' || c == ']' || c == '*' || c == '~'
}

/// `s` with each backslash taken off that stands before a character that zsh
/// quotes. Every other backslash stays.
pub open spec fn unquoted(s: Seq<char>) -> Seq<char>
    decreases s.len(),
{
    if s.len() == 0 {
        seq![]
    } else if s[0] == '\\' && s.len() > 1 && zsh_quotes(s[1]) {
        seq![s[1]] + unquoted(s.skip(2))
    } else {
        seq![s[0]] + unquoted(s.skip(1))
    }
}

/// Tells whether zsh prints `c` behind a backslash.
fn is_zsh_quoted(c: char) -> (b: bool)
    ensures
        b == zsh_quotes(c),
{
    c == '\\' || c == '&' || c == '<' || c == '>' || c == '`' || c == '\'' || c == '"' || c == '{'
        || c == '}' || c == '$' || c == '#' || c == '|' || c == '?' || c == '(' || c == ')' || c
        == ';' || c == ' ' || c == '[' || c == ']' || c == '*' || c == '~'
}

/// Takes zsh's backslash quoting off `input`.
pub fn unquote_backslashes(input: &str) -> (r: String)
    ensures
        r@ == unquoted(input@),
{
    let chars: Vec<char> = chars_of(input);
    let mut out: String = String::new();
    let mut i: usize = 0;
    assert(input@.skip(0) =~= input@);
    while i < chars.len()
        invariant
            i <= chars@.len(),
            chars@ == input@,
            out@ + unquoted(input@.skip(i as int)) == unquoted(input@),
        decreases chars@.len() - i,
    {
        let c: char = chars[i];
        let ghost rest = input@.skip(i as int);
        let ghost before = out@;
        if c == '\\' && i + 1 < chars.len() && is_zsh_quoted(chars[i + 1]) {
            out.push(chars[i + 1]);
            proof {
                assert(rest.skip(2) =~= input@.skip(i + 2));
                assert(out@ + unquoted(rest.skip(2)) =~= before + unquoted(rest));
            }
            i += 2;
        } else {
            out.push(c);
            proof {
                assert(rest.skip(1) =~= input@.skip(i + 1));
                assert(out@ + unquoted(rest.skip(1)) =~= before + unquoted(rest));
            }
            i += 1;
        }
    }
    assert(out@ =~= unquoted(input@));
    out
}

/// Whether no space belongs behind a value that ends in `c`.
pub open spec fn no_space_rune(c: char) -> bool {
    c == '/' || c == '=' || c == '@' || c == ':' || c == '.' || c == ','
}

/// Tells whether `value` ends in a character behind which no space belongs.
pub fn ends_with_no_space_rune(value: &str) -> (b: bool)
    ensures
        b == (value@.len() > 0 && no_space_rune(value@.last())),
{
    let chars: Vec<char> = chars_of(value);
    if chars.len() == 0 {
        false
    } else {
        let c: char = chars[chars.len() - 1];
        c == '/' || c == '=' || c == '@' || c == ':' || c == '.' || c == ','
    }
}

/// Whether the separator ` -- ` stands at position `i` of `s`.
pub open spec fn separator_at(s: Seq<char>, i: int) -> bool {
    &&& 0 <= i
    &&& i + 4 <= s.len()
    &&& s[i] == ' '
    &&& s[i + 1] == '-'
    &&& s[i + 2] == '-'
    &&& s[i + 3] == ' '
}

/// Whether position `i` holds the first separator of `s`.
pub open spec fn first_separator_at(s: Seq<char>, i: int) -> bool {
    separator_at(s, i) && forall|j: int| 0 <= j < i ==> !#[trigger] separator_at(s, j)
}

/// The candidate with this value and description, or none where the value is
/// empty.
pub open spec fn candidate(value: Seq<char>, description: Option<Seq<char>>) -> Option<CandidateView> {
    if value.len() == 0 {
        None
    } else {
        Some(
            CandidateView {
                value,
                description,
                append_whitespace: !no_space_rune(value.last()),
            },
        )
    }
}

/// The first position at or behind `from` that holds a separator.
pub open spec fn separator_from(s: Seq<char>, from: int) -> Option<int>
    decreases s.len() - from,
{
    if from < 0 || from + 4 > s.len() {
        None
    } else if separator_at(s, from) {
        Some(from)
    } else {
        separator_from(s, from + 1)
    }
}

/// The candidate of a line whose colours and quoting are off.
pub open spec fn plain_candidate(s: Seq<char>) -> Option<CandidateView> {
    match separator_from(s, 0) {
        Some(i) => candidate(s.take(i), Some(s.skip(i + 4))),
        None => candidate(s, None),
    }
}

/// The candidate of a line as the shell prints it.
pub open spec fn line_candidate(line: Seq<char>) -> Option<CandidateView> {
    plain_candidate(unquoted(without_csi(line)))
}

/// Tells whether the separator stands at position `i`.
fn has_separator(chars: &Vec<char>, i: usize) -> (b: bool)
    requires
        i <= chars@.len(),
    ensures
        b == separator_at(chars@, i as int),
{
    chars.len() - i >= 4 && chars[i] == ' ' && chars[i + 1] == '-' && chars[i + 2] == '-'
        && chars[i + 3] == ' '
}

/// Reads one line. A line without a value gives no candidate.
pub fn parse_capture_line(line: &str) -> (r: Option<Candidate>)
    ensures
        r.is_some() <==> line_candidate(line@).is_some(),
        r.is_some() ==> Some(r.unwrap()@) == line_candidate(line@),
{
    let stripped: String = strip_ansi(line);
    let plain: String = unquote_backslashes(stripped.as_str());
    let chars: Vec<char> = chars_of(plain.as_str());
    let ghost s = plain@;
    let mut at: usize = 0;
    while at < chars.len() && !has_separator(&chars, at)
        invariant
            at <= chars@.len(),
            chars@ == s,
            separator_from(s, 0) == separator_from(s, at as int),
        decreases chars@.len() - at,
    {
        at += 1;
    }
    let (value, description): (String, Option<String>) = if at < chars.len() {
        let head: String = string_of(vstd::slice::slice_subrange(chars.as_slice(), 0, at));
        let tail: String = string_of(
            vstd::slice::slice_subrange(chars.as_slice(), at + 4, chars.len()),
        );
        assert(head@ =~= s.take(at as int));
        assert(tail@ =~= s.skip(at + 4));
        (head, Some(tail))
    } else {
        (plain, None)
    };
    if value.as_str().is_empty() {
        return None;
    }
    let append_whitespace: bool = !ends_with_no_space_rune(value.as_str());
    Some(Candidate { value, description, append_whitespace })
}

/// Whether `s` begins with the end of a line.
pub open spec fn starts_with_crlf(s: Seq<char>) -> bool {
    s.len() > 1 && s[0] == '\r' && s[1] == '\n'
}

/// The lines of `rest`, the first of which begins with `line`: what stands
/// between two ends of lines, before the first and behind the last.
pub open spec fn lines_from(line: Seq<char>, rest: Seq<char>) -> Seq<Seq<char>>
    decreases rest.len(),
{
    if rest.len() == 0 {
        seq![line]
    } else if starts_with_crlf(rest) {
        seq![line] + lines_from(seq![], rest.skip(2))
    } else {
        lines_from(line.push(rest[0]), rest.skip(1))
    }
}

/// The candidates of `lines`, in order. A line without one is passed over.
pub open spec fn candidates_of(lines: Seq<Seq<char>>) -> Seq<CandidateView>
    decreases lines.len(),
{
    if lines.len() == 0 {
        seq![]
    } else {
        match line_candidate(lines[0]) {
            Some(c) => seq![c] + candidates_of(lines.skip(1)),
            None => candidates_of(lines.skip(1)),
        }
    }
}

/// The candidates in what the shell printed.
pub open spec fn capture_candidates(output: Seq<char>) -> Seq<CandidateView> {
    candidates_of(lines_from(seq![], output))
}

/// Reads what the shell printed into candidates, in the order of the lines.
pub fn parse_capture_output(stdout: &str) -> (r: Vec<Candidate>)
    ensures
        candidate_views(r@) == capture_candidates(stdout@),
{
    let chars: Vec<char> = chars_of(stdout);
    let mut out: Vec<Candidate> = Vec::new();
    let mut line: String = String::new();
    let mut i: usize = 0;
    assert(stdout@.skip(0) =~= stdout@);
    assert(candidate_views(out@) =~= seq![]);
    assert(seq![] + capture_candidates(stdout@) =~= capture_candidates(stdout@));
    while i < chars.len()
        invariant
            i <= chars@.len(),
            chars@ == stdout@,
            candidate_views(out@) + candidates_of(lines_from(line@, stdout@.skip(i as int)))
                == capture_candidates(stdout@),
        decreases chars@.len() - i,
    {
        let ghost rest = stdout@.skip(i as int);
        let ghost lines = lines_from(line@, rest);
        if chars[i] == '\r' && i + 1 < chars.len() && chars[i + 1] == '\n' {
            let ghost before = out@;
            assert(rest.skip(2) =~= stdout@.skip(i + 2));
            assert(lines.skip(1) =~= lines_from(seq![], stdout@.skip(i + 2)));
            if let Some(c) = parse_capture_line(line.as_str()) {
                out.push(c);
                assert(candidate_views(out@) =~= candidate_views(before) + seq![c@]);
            }
            assert(candidate_views(out@) + candidates_of(lines.skip(1)) =~= candidate_views(before)
                + candidates_of(lines));
            line = String::new();
            i += 2;
        } else {
            line.push(chars[i]);
            assert(rest.skip(1) =~= stdout@.skip(i + 1));
            i += 1;
        }
    }
    let ghost before = out@;
    let ghost lines = lines_from(line@, stdout@.skip(i as int));
    assert(lines =~= seq![line@]);
    assert(lines.skip(1) =~= seq![]);
    if let Some(c) = parse_capture_line(line.as_str()) {
        out.push(c);
        assert(candidate_views(out@) =~= candidate_views(before) + seq![c@]);
    }
    assert(candidates_of(lines.skip(1)) =~= seq![]);
    assert(candidate_views(out@) =~= candidate_views(before) + candidates_of(lines));
    out
}

/// Every candidate has a value, and a space follows it unless the value ends
/// in one of the characters behind which no space belongs.
pub proof fn law_candidates_have_values(output: Seq<char>)
    ensures
        forall|i: int|
            0 <= i < capture_candidates(output).len() ==> {
                let c = #[trigger] capture_candidates(output)[i];
                c.value.len() > 0 && c.append_whitespace == !no_space_rune(c.value.last())
            },
{
    lemma_candidates_have_values(lines_from(seq![], output));
}

proof fn lemma_candidates_have_values(lines: Seq<Seq<char>>)
    ensures
        forall|i: int|
            0 <= i < candidates_of(lines).len() ==> {
                let c = #[trigger] candidates_of(lines)[i];
                c.value.len() > 0 && c.append_whitespace == !no_space_rune(c.value.last())
            },
    decreases lines.len(),
{
    if lines.len() > 0 {
        lemma_candidates_have_values(lines.skip(1));
        let more = candidates_of(lines.skip(1));
        if let Some(c) = line_candidate(lines[0]) {
            assert forall|i: int| 0 <= i < candidates_of(lines).len() implies {
                let c = #[trigger] candidates_of(lines)[i];
                c.value.len() > 0 && c.append_whitespace == !no_space_rune(c.value.last())
            } by {
                if i > 0 {
                    assert(candidates_of(lines)[i] == more[i - 1]);
                }
            }
        }
    }
}

proof fn lemma_separator_from(s: Seq<char>, from: int)
    requires
        0 <= from,
    ensures
        match separator_from(s, from) {
            Some(i) => from <= i && separator_at(s, i) && forall|j: int|
                from <= j < i ==> !#[trigger] separator_at(s, j),
            None => forall|j: int| from <= j ==> !#[trigger] separator_at(s, j),
        },
    decreases s.len() - from,
{
    if from + 4 <= s.len() && !separator_at(s, from) {
        lemma_separator_from(s, from + 1);
    }
}

/// The first separator of a line ends the value; what stands behind it is the
/// description, further separators included.
pub proof fn law_first_separator_ends_the_value(s: Seq<char>, i: int)
    requires
        first_separator_at(s, i),
    ensures
        plain_candidate(s) == candidate(s.take(i), Some(s.skip(i + 4))),
{
    lemma_separator_from(s, 0);
    if let Some(k) = separator_from(s, 0) {
        if k < i {
            assert(!separator_at(s, k));
        }
    }
}

/// A line without a separator is a value without a description.
pub proof fn law_no_separator_no_description(s: Seq<char>)
    requires
        forall|i: int| !#[trigger] separator_at(s, i),
    ensures
        plain_candidate(s) == candidate(s, None),
{
    lemma_separator_from(s, 0);
}

/// A line without an escape character is left as it is when colours are taken
/// off.
pub proof fn law_no_escape_nothing_stripped(s: Seq<char>)
    requires
        forall|i: int| 0 <= i < s.len() ==> #[trigger] s[i] != '\u{1b}',
    ensures
        without_csi(s) == s,
    decreases s.len(),
{
    if s.len() > 0 {
        assert forall|i: int| 0 <= i < s.skip(1).len() implies #[trigger] s.skip(1)[i]
            != '\u{1b}' by {
            assert(s.skip(1)[i] == s[i + 1]);
        }
        law_no_escape_nothing_stripped(s.skip(1));
        assert(without_csi(s) =~= s);
    }
}

/// A line without a backslash is left as it is when quoting is taken off.
pub proof fn law_no_backslash_nothing_unquoted(s: Seq<char>)
    requires
        forall|i: int| 0 <= i < s.len() ==> #[trigger] s[i] != '\\',
    ensures
        unquoted(s) == s,
    decreases s.len(),
{
    if s.len() > 0 {
        assert forall|i: int| 0 <= i < s.skip(1).len() implies #[trigger] s.skip(1)[i] != '\\' by {
            assert(s.skip(1)[i] == s[i + 1]);
        }
        law_no_backslash_nothing_unquoted(s.skip(1));
        assert(unquoted(s) =~= s);
    }
}

/// Unquoting undoes the escaping of a span that holds neither `=` nor a tab:
/// those two are escaped on the way to the shell, which never quotes them in
/// what it prints.
pub proof fn law_unquoting_undoes_escaping(span: Seq<char>)
    requires
        forall|i: int| 0 <= i < span.len() ==> #[trigger] span[i] != '=' && span[i] != '\t',
    ensures
        unquoted(escape::escaped(span)) == span,
    decreases span.len(),
{
    if span.len() > 0 {
        assert forall|i: int| 0 <= i < span.skip(1).len() implies #[trigger] span.skip(1)[i] != '='
            && span.skip(1)[i] != '\t' by {
            assert(span.skip(1)[i] == span[i + 1]);
        }
        law_unquoting_undoes_escaping(span.skip(1));
        let e = escape::escaped(span);
        let more = escape::escaped(span.skip(1));
        if escape::zsh_special(span[0]) {
            assert(e.skip(2) =~= more);
        } else {
            assert(e.skip(1) =~= more);
        }
        assert(unquoted(e) =~= span);
    }
}

proof fn lemma_lines_of_two(line: Seq<char>, first: Seq<char>, second: Seq<char>)
    ensures
        lines_from(line, first + seq!['\r', '\n'] + second) == lines_from(line, first)
            + lines_from(seq![], second),
    decreases first.len(),
{
    let all = first + seq!['\r', '\n'] + second;
    if first.len() == 0 {
        assert(all.skip(2) =~= second);
        assert(starts_with_crlf(all));
        assert(lines_from(line, first) =~= seq![line]);
    } else if starts_with_crlf(first) {
        lemma_lines_of_two(seq![], first.skip(2), second);
        assert(all.skip(2) =~= first.skip(2) + seq!['\r', '\n'] + second);
        assert(lines_from(line, all) =~= lines_from(line, first) + lines_from(seq![], second));
    } else {
        assert(!starts_with_crlf(all));
        lemma_lines_of_two(line.push(first[0]), first.skip(1), second);
        assert(all.skip(1) =~= first.skip(1) + seq!['\r', '\n'] + second);
    }
}

proof fn lemma_candidates_of_two(first: Seq<Seq<char>>, second: Seq<Seq<char>>)
    ensures
        candidates_of(first + second) == candidates_of(first) + candidates_of(second),
    decreases first.len(),
{
    if first.len() == 0 {
        assert(first + second =~= second);
        assert(candidates_of(first) + candidates_of(second) =~= candidates_of(second));
    } else {
        lemma_candidates_of_two(first.skip(1), second);
        assert((first + second).skip(1) =~= first.skip(1) + second);
        assert(candidates_of(first + second) =~= candidates_of(first) + candidates_of(second));
    }
}

/// Two outputs with an end of line between them give the candidates of the
/// first and then those of the second.
pub proof fn law_outputs_are_read_line_by_line(first: Seq<char>, second: Seq<char>)
    ensures
        capture_candidates(first + seq!['\r', '\n'] + second) == capture_candidates(first)
            + capture_candidates(second),
{
    lemma_lines_of_two(seq![], first, second);
    lemma_candidates_of_two(lines_from(seq![], first), lines_from(seq![], second));
}

/// The line that a shell without colours and without anything to quote prints
/// for a candidate.
pub open spec fn printed(c: CandidateView) -> Seq<char> {
    match c.description {
        Some(d) => c.value + seq![' ', '-', '-', ' '] + d,
        None => c.value,
    }
}

/// Whether `printed` stands for `c` alone: there is a value, nothing in the
/// line is a colour code, a backslash or an end of line, and the first
/// separator, if any, is the one between value and description.
pub open spec fn printable(c: CandidateView) -> bool {
    let line = printed(c);
    &&& c.value.len() > 0
    &&& c.append_whitespace == !no_space_rune(c.value.last())
    &&& forall|i: int|
        0 <= i < line.len() ==> #[trigger] line[i] != '\u{1b}' && line[i] != '\\' && line[i]
            != '\r'
    &&& match c.description {
        Some(d) => first_separator_at(line, c.value.len() as int),
        None => forall|i: int| !#[trigger] separator_at(line, i),
    }
}

/// What a shell prints for `cs`: a line each, with its end.
pub open spec fn printed_all(cs: Seq<CandidateView>) -> Seq<char>
    decreases cs.len(),
{
    if cs.len() == 0 {
        seq![]
    } else {
        printed(cs[0]) + seq!['\r', '\n'] + printed_all(cs.skip(1))
    }
}

proof fn lemma_one_line(line: Seq<char>, rest: Seq<char>)
    requires
        forall|i: int| 0 <= i < rest.len() ==> #[trigger] rest[i] != '\r',
    ensures
        lines_from(line, rest) == seq![line + rest],
    decreases rest.len(),
{
    if rest.len() == 0 {
        assert(line + rest =~= line);
    } else {
        assert forall|i: int| 0 <= i < rest.skip(1).len() implies #[trigger] rest.skip(1)[i]
            != '\r' by {
            assert(rest.skip(1)[i] == rest[i + 1]);
        }
        lemma_one_line(line.push(rest[0]), rest.skip(1));
        assert(line.push(rest[0]) + rest.skip(1) =~= line + rest);
    }
}

proof fn lemma_printed_line(c: CandidateView)
    requires
        printable(c),
    ensures
        line_candidate(printed(c)) == Some(c),
        capture_candidates(printed(c)) == seq![c],
{
    let line = printed(c);
    law_no_escape_nothing_stripped(line);
    law_no_backslash_nothing_unquoted(line);
    match c.description {
        Some(d) => {
            let i = c.value.len() as int;
            law_first_separator_ends_the_value(line, i);
            assert(line.take(i) =~= c.value);
            assert(line.skip(i + 4) =~= d);
        },
        None => {
            law_no_separator_no_description(line);
        },
    }
    lemma_one_line(seq![], line);
    assert(Seq::<char>::empty() + line =~= line);
    let lines = seq![line];
    assert(lines.skip(1) =~= seq![]);
    assert(candidates_of(lines.skip(1)) =~= seq![]);
    assert(candidates_of(lines) =~= seq![c]);
}

/// The candidates that a shell prints are the candidates that are read: each
/// once, in the same order, with value and description apart again.
pub proof fn law_printed_candidates_read_back(cs: Seq<CandidateView>)
    requires
        forall|i: int| 0 <= i < cs.len() ==> printable(#[trigger] cs[i]),
    ensures
        capture_candidates(printed_all(cs)) == cs,
    decreases cs.len(),
{
    if cs.len() == 0 {
        let none: Seq<char> = seq![];
        let lines = lines_from(none, none);
        assert(lines =~= seq![none]);
        assert(without_csi(none) =~= none);
        assert(unquoted(none) =~= none);
        law_no_separator_no_description(none);
        assert(lines.skip(1) =~= seq![]);
        assert(candidates_of(lines.skip(1)) =~= seq![]);
        assert(capture_candidates(printed_all(cs)) =~= cs);
    } else {
        let more = cs.skip(1);
        assert forall|i: int| 0 <= i < more.len() implies printable(#[trigger] more[i]) by {
            assert(more[i] == cs[i + 1]);
        }
        law_printed_candidates_read_back(more);
        law_outputs_are_read_line_by_line(printed(cs[0]), printed_all(more));
        lemma_printed_line(cs[0]);
        assert(seq![cs[0]] + more =~= cs);
    }
}

/// What zsh prints between value and description.
pub open spec fn dashes() -> Seq<char> {
    seq![' ', '-', '-', ' ']
}

/// What zsh prints behind a line.
pub open spec fn line_end() -> Seq<char> {
    seq!['\r', '\n']
}

/// Whether `part` stands at position `i` of `s`.
pub open spec fn occurs_at(s: Seq<char>, part: Seq<char>, i: int) -> bool {
    0 <= i && i + part.len() <= s.len() && s.subrange(i, i + part.len()) == part
}

/// Whether position `i` is the first of `s` at which `part` stands.
pub open spec fn first_occurs_at(s: Seq<char>, part: Seq<char>, i: int) -> bool {
    occurs_at(s, part, i) && forall|j: int| 0 <= j < i ==> !#[trigger] occurs_at(s, part, j)
}

proof fn lemma_without_csi_behind(before: Seq<char>, behind: Seq<char>)
    requires
        !before.contains('\u{1b}'),
    ensures
        without_csi(before + behind) == before + without_csi(behind),
    decreases before.len(),
{
    let all = before + behind;
    if before.len() == 0 {
        assert(all =~= behind);
        assert(before + without_csi(behind) =~= without_csi(behind));
    } else {
        assert(before.contains(before[0]));
        assert forall|c: char| before.skip(1).contains(c) implies before.contains(c) by {
            let k = choose|k: int| 0 <= k < before.skip(1).len() && before.skip(1)[k] == c;
            assert(before[k + 1] == c);
        }
        lemma_without_csi_behind(before.skip(1), behind);
        assert(all.skip(1) =~= before.skip(1) + behind);
        assert(without_csi(all) =~= before + without_csi(behind));
    }
}

proof fn lemma_after_parameters(parameters: Seq<char>, behind: Seq<char>)
    requires
        forall|i: int|
            0 <= i < parameters.len() ==> !('@' <= #[trigger] parameters[i] && parameters[i] <= '~'),
    ensures
        after_csi(parameters + behind) == after_csi(behind),
    decreases parameters.len(),
{
    let all = parameters + behind;
    if parameters.len() == 0 {
        assert(all =~= behind);
    } else {
        assert(all[0] == parameters[0]);
        assert forall|i: int| 0 <= i < parameters.skip(1).len() implies !('@'
            <= #[trigger] parameters.skip(1)[i] && parameters.skip(1)[i] <= '~') by {
            assert(parameters.skip(1)[i] == parameters[i + 1]);
        }
        lemma_after_parameters(parameters.skip(1), behind);
        assert(all.skip(1) =~= parameters.skip(1) + behind);
    }
}

/// A colour code, from its escape character to the letter that ends it, is
/// taken off wherever it stands. What stands before and behind it stays.
pub proof fn law_colour_code_is_taken_off(
    before: Seq<char>,
    parameters: Seq<char>,
    last: char,
    behind: Seq<char>,
)
    requires
        !before.contains('\u{1b}'),
        forall|i: int|
            0 <= i < parameters.len() ==> !('@' <= #[trigger] parameters[i] && parameters[i] <= '~'),
        '@' <= last <= '~',
    ensures
        without_csi(before + seq!['\u{1b}', '['] + parameters + seq![last] + behind) == before
            + without_csi(behind),
{
    let end = seq![last] + behind;
    let code = seq!['\u{1b}', '['] + (parameters + end);
    assert(before + seq!['\u{1b}', '['] + parameters + seq![last] + behind =~= before + code);
    lemma_without_csi_behind(before, code);
    assert(code.skip(2) =~= parameters + end);
    lemma_after_parameters(parameters, end);
    assert(end.skip(1) =~= behind);
}

/// A colour code that nothing ends takes the rest of the line with it.
pub proof fn law_unended_colour_code_takes_the_rest(before: Seq<char>, parameters: Seq<char>)
    requires
        !before.contains('\u{1b}'),
        forall|i: int|
            0 <= i < parameters.len() ==> !('@' <= #[trigger] parameters[i] && parameters[i] <= '~'),
    ensures
        without_csi(before + seq!['\u{1b}', '['] + parameters) == before,
{
    let none: Seq<char> = seq![];
    let code = seq!['\u{1b}', '['] + parameters;
    assert(before + seq!['\u{1b}', '['] + parameters =~= before + code);
    lemma_without_csi_behind(before, code);
    assert(code.skip(2) =~= parameters + none);
    lemma_after_parameters(parameters, none);
    assert(without_csi(none) =~= none);
    assert(before + none =~= before);
}

/// An escape character that begins no colour code stays.
pub proof fn law_lone_escape_character_stays(before: Seq<char>, behind: Seq<char>)
    requires
        !before.contains('\u{1b}'),
        behind.len() > 0 ==> behind[0] != '[',
    ensures
        without_csi(before + seq!['\u{1b}'] + behind) == before + seq!['\u{1b}'] + without_csi(behind),
{
    let end = seq!['\u{1b}'] + behind;
    assert(before + seq!['\u{1b}'] + behind =~= before + end);
    lemma_without_csi_behind(before, end);
    assert(end.skip(1) =~= behind);
    assert(without_csi(end) =~= seq!['\u{1b}'] + without_csi(behind));
    assert(before + (seq!['\u{1b}'] + without_csi(behind)) =~= before + seq!['\u{1b}'] + without_csi(
        behind,
    ));
}

/// Whether zsh puts a backslash before `c` in what it prints.
pub open spec fn printed_quoted(c: char) -> bool {
    seq![
        '\\', '&', '<', '>', '`', '\'', '"', '{', '}', '$', '#', '|', '?', '(', ')', ';', ' ', '[',
        ']', '*', '~',
    ].contains(c)
}

proof fn lemma_printed_quoted(c: char)
    ensures
        printed_quoted(c) <==> zsh_quotes(c),
{
    let all = seq![
        '\\', '&', '<', '>', '`', '\'', '"', '{', '}', '$', '#', '|', '?', '(', ')', ';', ' ', '[',
        ']', '*', '~',
    ];
    assert(all[0] == '\\' && all[1] == '&' && all[2] == '<' && all[3] == '>' && all[4] == '`'
        && all[5] == '\'' && all[6] == '"' && all[7] == '{' && all[8] == '}' && all[9] == '$'
        && all[10] == '#' && all[11] == '|' && all[12] == '?' && all[13] == '(' && all[14] == ')'
        && all[15] == ';' && all[16] == ' ' && all[17] == '[' && all[18] == ']' && all[19] == '*'
        && all[20] == '~');
}

proof fn lemma_unquoted_behind(before: Seq<char>, behind: Seq<char>)
    requires
        !before.contains('\\'),
    ensures
        unquoted(before + behind) == before + unquoted(behind),
    decreases before.len(),
{
    let all = before + behind;
    if before.len() == 0 {
        assert(all =~= behind);
        assert(before + unquoted(behind) =~= unquoted(behind));
    } else {
        assert(before.contains(before[0]));
        assert forall|c: char| before.skip(1).contains(c) implies before.contains(c) by {
            let k = choose|k: int| 0 <= k < before.skip(1).len() && before.skip(1)[k] == c;
            assert(before[k + 1] == c);
        }
        lemma_unquoted_behind(before.skip(1), behind);
        assert(all.skip(1) =~= before.skip(1) + behind);
        assert(unquoted(all) =~= before + unquoted(behind));
    }
}

/// A character that zsh quotes loses the backslash before it, and is not looked
/// at again: of two backslashes one is left.
pub proof fn law_quoted_character_loses_its_backslash(
    before: Seq<char>,
    c: char,
    behind: Seq<char>,
)
    requires
        !before.contains('\\'),
        printed_quoted(c),
    ensures
        unquoted(before + seq!['\\', c] + behind) == before + seq![c] + unquoted(behind),
{
    lemma_printed_quoted(c);
    let end = seq!['\\', c] + behind;
    assert(before + seq!['\\', c] + behind =~= before + end);
    lemma_unquoted_behind(before, end);
    assert(end.skip(2) =~= behind);
    assert(unquoted(end) =~= seq![c] + unquoted(behind));
    assert(before + (seq![c] + unquoted(behind)) =~= before + seq![c] + unquoted(behind));
}

/// A backslash before any other character stays, and so does one at the end.
pub proof fn law_other_backslash_stays(before: Seq<char>, behind: Seq<char>)
    requires
        !before.contains('\\'),
        behind.len() > 0 ==> !printed_quoted(behind[0]),
    ensures
        unquoted(before + seq!['\\'] + behind) == before + seq!['\\'] + unquoted(behind),
{
    let end = seq!['\\'] + behind;
    assert(before + seq!['\\'] + behind =~= before + end);
    if behind.len() > 0 {
        lemma_printed_quoted(behind[0]);
    }
    lemma_unquoted_behind(before, end);
    assert(end.skip(1) =~= behind);
    assert(unquoted(end) =~= seq!['\\'] + unquoted(behind));
    assert(before + (seq!['\\'] + unquoted(behind)) =~= before + seq!['\\'] + unquoted(behind));
}

/// Whether `c` is the candidate with this value and description. A space
/// follows its value unless that ends in one of `/`, `=`, `@`, `:`, `.` and `,`.
pub open spec fn is_candidate(
    c: Option<CandidateView>,
    value: Seq<char>,
    description: Option<Seq<char>>,
) -> bool {
    &&& c == Some(
        CandidateView { value, description, append_whitespace: c.unwrap().append_whitespace },
    )
    &&& c.unwrap().append_whitespace <==> !(value.last() == '/' || value.last() == '=' || value.last()
        == '@' || value.last() == ':' || value.last() == '.' || value.last() == ',')
}

proof fn lemma_occurs(s: Seq<char>, i: int)
    ensures
        occurs_at(s, dashes(), i) <==> separator_at(s, i),
{
    let part = dashes();
    if 0 <= i && i + 4 <= s.len() {
        let here = s.subrange(i, i + 4);
        assert(here[0] == s[i] && here[1] == s[i + 1] && here[2] == s[i + 2] && here[3] == s[i + 3]);
        if separator_at(s, i) {
            assert(here =~= part);
        }
    }
}

/// A line is read once its colours and then its quoting are off. The value is
/// what stands before the first ` -- `, and the description what stands behind
/// it. Where there is none, all of the line is the value. A line without a value
/// is no candidate.
pub proof fn law_line_is_read_without_colours_and_quoting(line: Seq<char>, i: int)
    ensures
        ({
            let plain = unquoted(without_csi(line));
            let separator = dashes();
            &&& first_occurs_at(plain, separator, 0) || plain.len() == 0 ==> line_candidate(
                line,
            ).is_none()
            &&& first_occurs_at(plain, separator, i) && i > 0 ==> is_candidate(
                line_candidate(line),
                plain.take(i),
                Some(plain.skip(i + 4)),
            )
            &&& plain.len() > 0 && (forall|j: int| !#[trigger] occurs_at(plain, separator, j))
                ==> is_candidate(line_candidate(line), plain, None)
        }),
{
    let plain = unquoted(without_csi(line));
    let separator = dashes();
    assert forall|j: int| #[trigger] occurs_at(plain, separator, j) <==> separator_at(plain, j) by {
        lemma_occurs(plain, j);
    }
    lemma_separator_from(plain, 0);
    if let Some(k) = separator_from(plain, 0) {
        assert(occurs_at(plain, separator, k));
        if first_occurs_at(plain, separator, 0) {
            if k > 0 {
                assert(!separator_at(plain, 0));
            }
        }
        if first_occurs_at(plain, separator, i) && i > 0 {
            if k < i {
                assert(!occurs_at(plain, separator, k));
            } else if i < k {
                assert(!separator_at(plain, i));
            }
        }
    }
}

proof fn lemma_unquoted_escaped(span: Seq<char>, behind: Seq<char>)
    requires
        !span.contains('='),
        !span.contains('\t'),
    ensures
        unquoted(escape::escaped(span) + behind) == span + unquoted(behind),
    decreases span.len(),
{
    let e = escape::escaped(span) + behind;
    if span.len() == 0 {
        assert(e =~= behind);
        assert(span + unquoted(behind) =~= unquoted(behind));
    } else {
        assert(span.contains(span[0]));
        assert forall|c: char| span.skip(1).contains(c) implies span.contains(c) by {
            let k = choose|k: int| 0 <= k < span.skip(1).len() && span.skip(1)[k] == c;
            assert(span[k + 1] == c);
        }
        lemma_unquoted_escaped(span.skip(1), behind);
        let more = escape::escaped(span.skip(1)) + behind;
        if escape::zsh_special(span[0]) {
            assert(e.skip(2) =~= more);
        } else {
            assert(e.skip(1) =~= more);
        }
        assert(unquoted(e) =~= span + unquoted(behind));
    }
}

proof fn lemma_escaped_without(span: Seq<char>, c: char)
    requires
        !span.contains(c),
        c != '\\',
    ensures
        !escape::escaped(span).contains(c),
    decreases span.len(),
{
    let e = escape::escaped(span);
    if span.len() > 0 {
        assert(span.contains(span[0]));
        assert forall|d: char| span.skip(1).contains(d) implies span.contains(d) by {
            let k = choose|k: int| 0 <= k < span.skip(1).len() && span.skip(1)[k] == d;
            assert(span[k + 1] == d);
        }
        lemma_escaped_without(span.skip(1), c);
        let more = escape::escaped(span.skip(1));
        if e.contains(c) {
            let k = choose|k: int| 0 <= k < e.len() && e[k] == c;
            let n = escape::escaped_char(span[0]).len();
            assert(k >= n);
            assert(more[k - n] == c);
        }
    }
}

/// A value that zsh prints in its quoting reads back as the value, whether or
/// not a description follows, and the description reads back as it is.
pub proof fn law_quoted_candidate_reads_back(value: Seq<char>, description: Seq<char>)
    requires
        value.len() > 0,
        !value.contains('\u{1b}'),
        !value.contains('='),
        !value.contains('\t'),
        !description.contains('\u{1b}'),
        !description.contains('\\'),
        forall|i: int|
            0 <= i < value.len() ==> !#[trigger] occurs_at(
                value + dashes(),
                dashes(),
                i,
            ),
    ensures
        is_candidate(line_candidate(escape::escaped(value)), value, None),
        is_candidate(
            line_candidate(escape::escaped(value) + dashes() + description),
            value,
            Some(description),
        ),
{
    let sep = dashes();
    let e = escape::escaped(value);
    let none: Seq<char> = seq![];
    lemma_escaped_without(value, '\u{1b}');
    // Without a description.
    assert forall|i: int| 0 <= i < e.len() implies #[trigger] e[i] != '\u{1b}' by {
        assert(e.contains(e[i]));
    }
    law_no_escape_nothing_stripped(e);
    lemma_unquoted_escaped(value, none);
    assert(e + none =~= e);
    assert(unquoted(none) =~= none);
    assert(value + none =~= value);
    assert forall|j: int| !#[trigger] occurs_at(value, sep, j) by {
        if occurs_at(value, sep, j) {
            assert((value + sep).subrange(j, j + 4) =~= value.subrange(j, j + 4));
            assert(occurs_at(value + sep, sep, j));
        }
    }
    law_line_is_read_without_colours_and_quoting(e, 0);
    // With one.
    let line = e + sep + description;
    assert forall|i: int| 0 <= i < line.len() implies #[trigger] line[i] != '\u{1b}' by {
        if i < e.len() {
            assert(line[i] == e[i]);
        } else if i >= e.len() + 4 {
            assert(line[i] == description[i - e.len() - 4]);
            assert(description.contains(description[i - e.len() - 4]));
        }
    }
    law_no_escape_nothing_stripped(line);
    let tail = sep + description;
    assert(line =~= e + tail);
    lemma_unquoted_escaped(value, tail);
    assert forall|i: int| 0 <= i < tail.len() implies #[trigger] tail[i] != '\\' by {
        if i >= 4 {
            assert(tail[i] == description[i - 4]);
            assert(description.contains(description[i - 4]));
        }
    }
    law_no_backslash_nothing_unquoted(tail);
    let plain = value + tail;
    let n = value.len() as int;
    assert(plain.subrange(n, n + 4) =~= sep);
    assert forall|j: int| 0 <= j < n implies !#[trigger] occurs_at(plain, sep, j) by {
        if occurs_at(plain, sep, j) {
            assert((value + sep).subrange(j, j + 4) =~= plain.subrange(j, j + 4));
            assert(occurs_at(value + sep, sep, j));
        }
    }
    law_line_is_read_without_colours_and_quoting(line, n);
    assert(plain.take(n) =~= value);
    assert(plain.skip(n + 4) =~= description);
}

proof fn lemma_line_without_end(line: Seq<char>, rest: Seq<char>)
    requires
        forall|i: int| !#[trigger] occurs_at(rest, line_end(), i),
    ensures
        lines_from(line, rest) == seq![line + rest],
    decreases rest.len(),
{
    let end = line_end();
    if rest.len() == 0 {
        assert(line + rest =~= line);
    } else {
        if starts_with_crlf(rest) {
            assert(rest.subrange(0, 2) =~= end);
            assert(occurs_at(rest, end, 0));
        }
        assert forall|i: int| !#[trigger] occurs_at(rest.skip(1), end, i) by {
            if occurs_at(rest.skip(1), end, i) {
                assert(rest.subrange(i + 1, i + 3) =~= rest.skip(1).subrange(i, i + 2));
                assert(occurs_at(rest, end, i + 1));
            }
        }
        lemma_line_without_end(line.push(rest[0]), rest.skip(1));
        assert(line.push(rest[0]) + rest.skip(1) =~= line + rest);
    }
}

/// An output without a line end is one line, whatever else it holds: a carriage
/// return or a line feed alone ends no line.
pub proof fn law_output_without_line_end_is_one_line(output: Seq<char>)
    requires
        forall|i: int| !#[trigger] occurs_at(output, line_end(), i),
    ensures
        capture_candidates(output) == match line_candidate(output) {
            Some(c) => seq![c],
            None => seq![],
        },
{
    lemma_line_without_end(seq![], output);
    assert(Seq::<char>::empty() + output =~= output);
    let lines = seq![output];
    assert(lines.skip(1) =~= seq![]);
    assert(candidates_of(lines.skip(1)) =~= seq![]);
    assert(candidates_of(lines) =~= capture_candidates(output));
    if let Some(c) = line_candidate(output) {
        assert(seq![c] + Seq::<CandidateView>::empty() =~= seq![c]);
    }
}

} // verus!
