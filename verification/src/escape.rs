//! Words on their way into a zsh line.
//!
//! A completion request is one line of text: the words of the command line,
//! each escaped with backslashes, with a space between each two of them. The
//! shell that reads the line must find the same words again. A directory is
//! handed over in single quotes instead, where the shell expands nothing.

use vstd::prelude::*;

use crate::text;
use crate::text::chars_of;

verus! {

/// Whether zsh gives `c` a meaning of its own where it stands unescaped.
pub open spec fn zsh_special(c: char) -> bool {
    ||| c == ' ' || c == '\t' || c == '\\' || c == '"' || c == '\'' || c == '`'
    ||| c == '$' || c == '|' || c == '&' || c == ';' || c == '<' || c == '>'
    ||| c == '(' || c == ')' || c == '{' || c == '}' || c == '[' || c == ']'
    ||| c == '*' || c == '?' || c == '~' || c == '#' || c == '='
}

/// Tells whether zsh gives `c` a meaning of its own.
pub fn is_zsh_special(c: char) -> (b: bool)
    ensures
        b == zsh_special(c),
{
    c == ' ' || c == '\t' || c == '\\' || c == '"' || c == '\'' || c == '`' || c == '$' || c == '|'
        || c == '&' || c == ';' || c == '<' || c == '>' || c == '(' || c == ')' || c == '{'
        || c == '}' || c == '[' || c == ']' || c == '*' || c == '?' || c == '~' || c == '#'
        || c == '='
}

/// Whether `c` cannot stand in a one-line request: a control character (C0 or
/// DEL) other than the tab, which a backslash makes harmless.
pub open spec fn unsendable(c: char) -> bool {
    (c < '\u{20}' && c != '\t') || c == '\u{7f}'
}

/// Whether no character of `span` is refused.
pub open spec fn sendable(span: Seq<char>) -> bool {
    forall|i: int| 0 <= i < span.len() ==> !unsendable(#[trigger] span[i])
}

/// `c`, behind a backslash where zsh gives it a meaning.
pub open spec fn escaped_char(c: char) -> Seq<char> {
    if zsh_special(c) {
        seq!['\\', c]
    } else {
        seq![c]
    }
}

/// `span` with a backslash before each special character.
pub open spec fn escaped(span: Seq<char>) -> Seq<char>
    decreases span.len(),
{
    if span.len() == 0 {
        seq![]
    } else {
        escaped_char(span[0]) + escaped(span.skip(1))
    }
}

/// The spans, each escaped.
pub open spec fn all_escaped(spans: Seq<Seq<char>>) -> Seq<Seq<char>> {
    spans.map_values(|span: Seq<char>| escaped(span))
}

/// Escapes one span, or refuses it where it holds a control character other
/// than the tab. The empty span stays empty.
pub fn zsh_escape_span(span: &str) -> (r: Option<String>)
    ensures
        r.is_some() <==> sendable(span@),
        r.is_some() ==> r.unwrap()@ == escaped(span@),
{
    let chars: Vec<char> = chars_of(span);
    let mut i: usize = 0;
    while i < chars.len()
        invariant
            i <= chars@.len(),
            chars@ == span@,
            forall|j: int| 0 <= j < i ==> !unsendable(#[trigger] span@[j]),
        decreases chars@.len() - i,
    {
        let c: char = chars[i];
        if (c < '\u{20}' && c != '\t') || c == '\u{7f}' {
            assert(unsendable(span@[i as int]));
            return None;
        }
        i += 1;
    }
    let mut out: String = String::new();
    let mut k: usize = 0;
    assert(span@.skip(0) =~= span@);
    while k < chars.len()
        invariant
            k <= chars@.len(),
            chars@ == span@,
            out@ + escaped(span@.skip(k as int)) == escaped(span@),
        decreases chars@.len() - k,
    {
        let c: char = chars[k];
        let ghost before = out@;
        if is_zsh_special(c) {
            out.push('\\');
        }
        out.push(c);
        proof {
            assert(out@ =~= before + escaped_char(c));
            assert(span@.skip(k as int).skip(1) =~= span@.skip(k + 1));
            assert(out@ + escaped(span@.skip(k + 1)) =~= before + escaped(span@.skip(k as int)));
        }
        k += 1;
    }
    assert(out@ =~= escaped(span@));
    Some(out)
}

/// Escapes every span, or refuses them all where one of them is refused.
pub fn escape_spans(spans: &[String]) -> (r: Option<Vec<String>>)
    ensures
        r.is_some() <==> forall|i: int| 0 <= i < spans@.len() ==> sendable(#[trigger] text::texts(spans@)[i]),
        r.is_some() ==> text::texts(r.unwrap()@) == all_escaped(text::texts(spans@)),
{
    let mut out: Vec<String> = Vec::new();
    let mut i: usize = 0;
    while i < spans.len()
        invariant
            i <= spans@.len(),
            forall|j: int| 0 <= j < i ==> sendable(#[trigger] text::texts(spans@)[j]),
            text::texts(out@) == all_escaped(text::texts(spans@)).take(i as int),
        decreases spans@.len() - i,
    {
        match zsh_escape_span(spans[i].as_str()) {
            Some(word) => {
                let ghost before = out@;
                out.push(word);
                proof {
                    let target = all_escaped(text::texts(spans@));
                    assert(text::texts(out@) =~= text::texts(before).push(word@));
                    assert(target.take(i + 1) =~= target.take(i as int).push(target[i as int]));
                }
            },
            None => {
                assert(!sendable(text::texts(spans@)[i as int]));
                return None;
            },
        }
        i += 1;
    }
    proof {
        let target = all_escaped(text::texts(spans@));
        assert(target.take(i as int) =~= target);
    }
    Some(out)
}

/// The text of a single-quoted zsh word for each character of `s`: a quote is
/// written by closing the word, escaping the quote and opening the word again.
pub open spec fn quoted_body(s: Seq<char>) -> Seq<char>
    decreases s.len(),
{
    if s.len() == 0 {
        seq![]
    } else if s[0] == '\'' {
        seq!['\'', '\\', '\'', '\''] + quoted_body(s.skip(1))
    } else {
        seq![s[0]] + quoted_body(s.skip(1))
    }
}

/// `s` as a single-quoted zsh word.
pub open spec fn single_quoted(s: Seq<char>) -> Seq<char> {
    seq!['\''] + quoted_body(s) + seq!['\'']
}

/// Quotes `s` as a single-quoted zsh word.
pub fn single_quote(s: &str) -> (r: String)
    ensures
        r@ == single_quoted(s@),
{
    let chars: Vec<char> = chars_of(s);
    let mut out: String = String::new();
    out.push('\'');
    let mut i: usize = 0;
    assert(s@.skip(0) =~= s@);
    while i < chars.len()
        invariant
            i <= chars@.len(),
            chars@ == s@,
            out@ + quoted_body(s@.skip(i as int)) == seq!['\''] + quoted_body(s@),
        decreases chars@.len() - i,
    {
        let c: char = chars[i];
        let ghost before = out@;
        let ghost rest = s@.skip(i as int);
        if c == '\'' {
            out.push('\'');
            out.push('\\');
            out.push('\'');
            out.push('\'');
            assert(out@ =~= before + seq!['\'', '\\', '\'', '\'']);
        } else {
            out.push(c);
            assert(out@ =~= before + seq![c]);
        }
        proof {
            assert(rest.skip(1) =~= s@.skip(i + 1));
            assert(out@ + quoted_body(rest.skip(1)) =~= before + quoted_body(rest));
        }
        i += 1;
    }
    assert(out@ =~= seq!['\''] + quoted_body(s@));
    out.push('\'');
    assert(out@ =~= single_quoted(s@));
    out
}

/// `words` before the words of `rest`, where there are any to read.
pub open spec fn words_before(
    words: Seq<Seq<char>>,
    rest: Option<Seq<Seq<char>>>,
) -> Option<Seq<Seq<char>>> {
    match rest {
        Some(more) => Some(words + more),
        None => None,
    }
}

/// Whether a shell gives `c` a meaning of its own inside a line: it ends a word,
/// quotes, expands, redirects, groups, matches names or begins a comment.
pub open spec fn shell_active(c: char) -> bool {
    seq![
        ' ', '\t', '\\', '"', '\'', '`', '$', '|', '&', ';', '<', '>', '(', ')', '{', '}', '[', ']',
        '*', '?', '~', '#', '=',
    ].contains(c)
}

proof fn lemma_special_is_active(c: char)
    ensures
        zsh_special(c) <==> shell_active(c),
{
    let all = seq![
        ' ', '\t', '\\', '"', '\'', '`', '$', '|', '&', ';', '<', '>', '(', ')', '{', '}', '[', ']',
        '*', '?', '~', '#', '=',
    ];
    assert(all[0] == ' ' && all[1] == '\t' && all[2] == '\\' && all[3] == '"' && all[4] == '\''
        && all[5] == '`' && all[6] == '$' && all[7] == '|' && all[8] == '&' && all[9] == ';'
        && all[10] == '<' && all[11] == '>' && all[12] == '(' && all[13] == ')' && all[14] == '{'
        && all[15] == '}' && all[16] == '[' && all[17] == ']' && all[18] == '*' && all[19] == '?'
        && all[20] == '~' && all[21] == '#' && all[22] == '=');
}

/// What a shell reads of `rest` after the unfinished `word`: blanks end a word,
/// a backslash takes the next character as it is, and a special character that
/// stands unescaped is not a part of a word (`None`). `begun` tells whether a
/// word has begun; the word at the end of the line is the one to complete, and
/// it may be empty.
pub open spec fn words_read(word: Seq<char>, begun: bool, rest: Seq<char>) -> Option<Seq<Seq<char>>>
    decreases rest.len(),
{
    if rest.len() == 0 {
        Some(seq![word])
    } else if rest[0] == '\\' && rest.len() > 1 {
        words_read(word.push(rest[1]), true, rest.skip(2))
    } else if rest[0] == ' ' || rest[0] == '\t' {
        let more = words_read(seq![], false, rest.skip(1));
        if begun {
            words_before(seq![word], more)
        } else {
            more
        }
    } else if shell_active(rest[0]) {
        None
    } else {
        words_read(word.push(rest[0]), true, rest.skip(1))
    }
}

/// The words that a shell reads in `line`.
pub open spec fn shell_words(line: Seq<char>) -> Option<Seq<Seq<char>>> {
    words_read(seq![], false, line)
}

proof fn lemma_escaped_span_is_read(word: Seq<char>, begun: bool, span: Seq<char>, tail: Seq<char>)
    ensures
        words_read(word, begun, escaped(span) + tail) == words_read(
            word + span,
            begun || span.len() > 0,
            tail,
        ),
    decreases span.len(),
{
    if span.len() == 0 {
        assert(escaped(span) + tail =~= tail);
        assert(word + span =~= word);
    } else {
        let c = span[0];
        lemma_special_is_active(c);
        let line = escaped(span) + tail;
        let rest = escaped(span.skip(1)) + tail;
        if zsh_special(c) {
            assert(line.skip(2) =~= rest);
        } else {
            assert(line.skip(1) =~= rest);
        }
        lemma_escaped_span_is_read(word.push(c), true, span.skip(1), tail);
        assert(word.push(c) + span.skip(1) =~= word + span);
    }
}

proof fn lemma_escaped_words_are_read(spans: Seq<Seq<char>>, tail: Seq<char>)
    requires
        spans.len() > 0,
        forall|i: int| 0 <= i < spans.len() ==> (#[trigger] spans[i]).len() > 0,
    ensures
        shell_words(text::joined(all_escaped(spans), ' ').push(' ') + tail) == words_before(
            spans,
            shell_words(tail),
        ),
    decreases spans.len(),
{
    let words = all_escaped(spans);
    let last = spans.last();
    let after = seq![' '] + tail;
    lemma_escaped_span_is_read(seq![], false, last, after);
    assert(Seq::<char>::empty() + last =~= last);
    assert(after.skip(1) =~= tail);
    if spans.len() == 1 {
        assert(text::joined(words, ' ').push(' ') + tail =~= escaped(last) + after);
        assert(spans =~= seq![last]);
    } else {
        let front = spans.drop_last();
        assert(words.drop_last() =~= all_escaped(front));
        let tail2 = escaped(last) + after;
        lemma_escaped_words_are_read(front, tail2);
        assert(text::joined(words, ' ').push(' ') + tail =~= text::joined(
            all_escaped(front),
            ' ',
        ).push(' ') + tail2);
        if let Some(more) = shell_words(tail) {
            assert(front + (seq![last] + more) =~= spans + more);
        }
    }
}

/// The words of a request line are the spans that went into it: no span falls
/// apart at its blanks, none is joined to the next, and none holds a character
/// to which the shell would give another meaning. The last span may be empty:
/// it is the new word that stands to be completed behind a blank.
pub proof fn law_line_reads_back_as_its_spans(spans: Seq<Seq<char>>)
    requires
        spans.len() > 0,
        forall|i: int| 0 <= i < spans.len() - 1 ==> (#[trigger] spans[i]).len() > 0,
    ensures
        shell_words(text::joined(all_escaped(spans), ' ')) == Some(spans),
{
    let words = all_escaped(spans);
    let last = spans.last();
    lemma_escaped_span_is_read(seq![], false, last, seq![]);
    assert(escaped(last) + Seq::<char>::empty() =~= escaped(last));
    assert(Seq::<char>::empty() + last =~= last);
    assert(shell_words(escaped(last)) == Some(seq![last]));
    if spans.len() == 1 {
        assert(spans =~= seq![last]);
    } else {
        let front = spans.drop_last();
        assert(words.drop_last() =~= all_escaped(front));
        lemma_escaped_words_are_read(front, escaped(last));
        assert(front + seq![last] =~= spans);
    }
}

/// A span that holds no special character goes into the line unchanged.
pub proof fn law_plain_span_is_unchanged(span: Seq<char>)
    requires
        forall|i: int| 0 <= i < span.len() ==> !zsh_special(#[trigger] span[i]),
    ensures
        escaped(span) == span,
    decreases span.len(),
{
    if span.len() > 0 {
        assert forall|i: int| 0 <= i < span.skip(1).len() implies !zsh_special(
            #[trigger] span.skip(1)[i],
        ) by {
            assert(span.skip(1)[i] == span[i + 1]);
        }
        law_plain_span_is_unchanged(span.skip(1));
        assert(escaped(span) =~= span);
    }
}

/// What is left of a quoted word once its quotes are taken off: between quotes
/// every character stands for itself; outside them a backslash takes the next
/// character as it is.
pub open spec fn quotes_removed(quoted: bool, rest: Seq<char>) -> Seq<char>
    decreases rest.len(),
{
    if rest.len() == 0 {
        seq![]
    } else if rest[0] == '\'' {
        quotes_removed(!quoted, rest.skip(1))
    } else if !quoted && rest[0] == '\\' && rest.len() > 1 {
        seq![rest[1]] + quotes_removed(quoted, rest.skip(2))
    } else {
        seq![rest[0]] + quotes_removed(quoted, rest.skip(1))
    }
}

proof fn lemma_quoted_body_is_read(s: Seq<char>)
    ensures
        quotes_removed(true, quoted_body(s) + seq!['\'']) == s,
    decreases s.len(),
{
    let line = quoted_body(s) + seq!['\''];
    if s.len() == 0 {
        assert(line =~= seq!['\'']);
        assert(line.skip(1) =~= seq![]);
        assert(quotes_removed(false, line.skip(1)) =~= s);
    } else {
        lemma_quoted_body_is_read(s.skip(1));
        let rest = quoted_body(s.skip(1)) + seq!['\''];
        if s[0] == '\'' {
            assert(line =~= seq!['\'', '\\', '\'', '\''] + rest);
            let l1 = line.skip(1);
            let l3 = l1.skip(2);
            let l4 = l3.skip(1);
            assert(l4 =~= rest);
            assert(quotes_removed(false, l3) == quotes_removed(true, l4));
            assert(quotes_removed(false, l1) == seq!['\''] + quotes_removed(false, l3));
        } else {
            assert(line =~= seq![s[0]] + rest);
            assert(line.skip(1) =~= rest);
        }
        assert(seq![s[0]] + s.skip(1) =~= s);
    }
}

/// Taking the quotes off a single-quoted word gives back the text that was
/// quoted, whatever it holds: nothing in it can end the quotation.
pub proof fn law_single_quote_reads_back(s: Seq<char>)
    ensures
        quotes_removed(false, single_quoted(s)) == s,
{
    lemma_quoted_body_is_read(s);
    let body = quoted_body(s) + seq!['\''];
    assert(single_quoted(s) =~= seq!['\''] + body);
    assert(single_quoted(s).skip(1) =~= body);
}

/// Escaping works character by character: what stands around a character makes
/// no difference to it.
pub proof fn law_escaping_works_character_by_character(first: Seq<char>, second: Seq<char>)
    ensures
        escaped(first + second) == escaped(first) + escaped(second),
    decreases first.len(),
{
    if first.len() == 0 {
        assert(first + second =~= second);
        assert(escaped(first) + escaped(second) =~= escaped(second));
    } else {
        law_escaping_works_character_by_character(first.skip(1), second);
        assert((first + second).skip(1) =~= first.skip(1) + second);
        assert(escaped(first + second) =~= escaped(first) + escaped(second));
    }
}

/// A character to which a shell gives a meaning goes out behind one backslash,
/// and any other character as it is.
pub proof fn law_active_characters_are_escaped(c: char)
    ensures
        escaped(seq![c]) == if shell_active(c) {
            seq!['\\', c]
        } else {
            seq![c]
        },
{
    lemma_special_is_active(c);
    let one = seq![c];
    assert(one.skip(1) =~= seq![]);
    assert(escaped(one.skip(1)) =~= seq![]);
    assert(escaped(one) =~= escaped_char(c));
}

/// The empty span, which marks a new word to be completed, stays empty, and no
/// other span becomes empty.
pub proof fn law_only_the_empty_span_is_sent_empty(span: Seq<char>)
    ensures
        escaped(span).len() == 0 <==> span.len() == 0,
{
}

/// A span is refused exactly where it holds a control character other than the
/// tab. Nothing else about a span is a reason to refuse it.
pub proof fn law_only_control_characters_are_refused(span: Seq<char>)
    ensures
        sendable(span) <==> forall|i: int|
            0 <= i < span.len() ==> #[trigger] span[i] == '\t' || ('\u{20}' <= span[i] && span[i]
                != '\u{7f}'),
{
    if sendable(span) {
        assert forall|i: int| 0 <= i < span.len() implies #[trigger] span[i] == '\t' || ('\u{20}'
            <= span[i] && span[i] != '\u{7f}') by {
            assert(!unsendable(span[i]));
        }
    }
}

/// Each span is escaped by itself, and none is added, lost or moved.
pub proof fn law_spans_are_escaped_one_by_one(spans: Seq<Seq<char>>)
    ensures
        all_escaped(spans).len() == spans.len(),
        forall|i: int| 0 <= i < spans.len() ==> #[trigger] all_escaped(spans)[i] == escaped(spans[i]),
{
}

/// A text without a quote stands between two quotes as it is.
pub proof fn law_text_without_quotes_is_only_enclosed(s: Seq<char>)
    requires
        !s.contains('\''),
    ensures
        single_quoted(s) == seq!['\''] + s + seq!['\''],
{
    lemma_body_without_quotes(s);
}

proof fn lemma_body_without_quotes(s: Seq<char>)
    requires
        !s.contains('\''),
    ensures
        quoted_body(s) == s,
    decreases s.len(),
{
    if s.len() > 0 {
        assert(s.contains(s[0]));
        assert forall|c: char| s.skip(1).contains(c) implies s.contains(c) by {
            let k = choose|k: int| 0 <= k < s.skip(1).len() && s.skip(1)[k] == c;
            assert(s[k + 1] == c);
        }
        lemma_body_without_quotes(s.skip(1));
        assert(quoted_body(s) =~= s);
    } else {
        assert(quoted_body(s) =~= s);
    }
}

proof fn lemma_body_of_two(a: Seq<char>, b: Seq<char>)
    ensures
        quoted_body(a + b) == quoted_body(a) + quoted_body(b),
    decreases a.len(),
{
    if a.len() == 0 {
        assert(a + b =~= b);
        assert(quoted_body(a) + quoted_body(b) =~= quoted_body(b));
    } else {
        lemma_body_of_two(a.skip(1), b);
        assert((a + b).skip(1) =~= a.skip(1) + b);
        assert(quoted_body(a + b) =~= quoted_body(a) + quoted_body(b));
    }
}

/// A quote within a text is written between two quoted words, behind a
/// backslash: what stands before it and what stands behind it are each quoted.
pub proof fn law_quote_stands_between_two_quoted_words(a: Seq<char>, b: Seq<char>)
    ensures
        single_quoted(a + seq!['\''] + b) == single_quoted(a) + seq!['\\', '\''] + single_quoted(b),
{
    let q = seq!['\''];
    lemma_body_of_two(a, q);
    lemma_body_of_two(a + q, b);
    assert(q.skip(1) =~= seq![]);
    assert(quoted_body(q.skip(1)) =~= seq![]);
    assert(quoted_body(q) =~= seq!['\'', '\\', '\'', '\'']);
    assert(single_quoted(a + q + b) =~= single_quoted(a) + seq!['\\', '\''] + single_quoted(b));
}

} // verus!
