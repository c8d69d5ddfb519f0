//! Files that a completion shell leaves behind.
//!
//! A shell is told to read an initialisation script, which is removed when the
//! shell ends. A process that is killed leaves its script behind; the script's
//! name holds the process that wrote it, so it can be told whether the script
//! is still in use. zsh itself leaves the temporary files of its completion
//! cache behind when it ends while it writes them.

use vstd::prelude::*;

use crate::text;
use crate::text::{chars_of, push_decimal, push_hex, string_of};

verus! {

/// The name of the script that process `pid` writes, with a number that nobody
/// can foresee.
pub open spec fn init_script_text(pid: u32, nonce: u64) -> Seq<char> {
    ".daemon_init."@ + text::decimal(pid as nat) + seq!['.'] + text::hex_digits(nonce as nat, 16)
        + ".zsh"@
}

/// Names the script of process `pid`.
pub fn init_script_name(pid: u32, nonce: u64) -> (r: String)
    ensures
        r@ == init_script_text(pid, nonce),
{
    let mut out: String = ".daemon_init.".to_owned();
    push_decimal(&mut out, pid as u64);
    out.push('.');
    push_hex(&mut out, nonce, 16);
    out.append(".zsh");
    assert(out@ =~= init_script_text(pid, nonce));
    out
}

/// `rand::random` of the crate rand: a number from the thread's generator.
/// Nothing is said of which number it is.
#[verifier::external_body]
fn random_nonce() -> u64 {
    rand::random::<u64>()
}

/// Names the script of process `pid`, with a random number.
pub fn fresh_init_script_name(pid: u32) -> (r: String)
    ensures
        exists|nonce: u64| r@ == #[trigger] init_script_text(pid, nonce),
{
    let nonce: u64 = random_nonce();
    init_script_name(pid, nonce)
}

/// Whether `c` is a decimal digit.
pub open spec fn is_digit(c: char) -> bool {
    '0' <= c <= '9'
}

/// The number that the digits of `s` write.
pub open spec fn digits_value(s: Seq<char>) -> nat
    decreases s.len(),
{
    if s.len() == 0 {
        0
    } else {
        digits_value(s.drop_last()) * 10 + (s.last() as nat - 0x30) as nat
    }
}

/// Whether `s` is made of digits, one at least.
pub open spec fn all_digits(s: Seq<char>) -> bool {
    s.len() > 0 && forall|i: int| 0 <= i < s.len() ==> is_digit(#[trigger] s[i])
}

/// `s` without the plus sign that may stand before a number.
pub open spec fn unsigned(s: Seq<char>) -> Seq<char> {
    if s.len() > 0 && s[0] == '+' {
        s.skip(1)
    } else {
        s
    }
}

/// The 32-bit number that `s` writes, if it writes one.
pub open spec fn parsed_u32(s: Seq<char>) -> Option<u32> {
    let digits = unsigned(s);
    if all_digits(digits) && digits_value(digits) <= u32::MAX {
        Some(digits_value(digits) as u32)
    } else {
        None
    }
}

proof fn lemma_digits_value_grows(s: Seq<char>, i: int)
    requires
        0 <= i <= s.len(),
    ensures
        digits_value(s.take(i)) <= digits_value(s),
    decreases s.len() - i,
{
    if i < s.len() {
        lemma_digits_value_grows(s, i + 1);
        assert(s.take(i + 1).drop_last() =~= s.take(i));
    } else {
        assert(s.take(i) =~= s);
    }
}

/// Reads a 32-bit number: digits, with or without a plus sign before them.
fn parse_u32(chars: &[char]) -> (r: Option<u32>)
    ensures
        r == parsed_u32(chars@),
{
    let start: usize = if chars.len() > 0 && chars[0] == '+' {
        1
    } else {
        0
    };
    let ghost digits = unsigned(chars@);
    assert(digits =~= chars@.skip(start as int));
    if start == chars.len() {
        return None;
    }
    let mut value: u32 = 0;
    let mut i: usize = start;
    assert(digits.take(0) =~= seq![]);
    while i < chars.len()
        invariant
            start <= i <= chars@.len(),
            start < chars@.len(),
            digits == chars@.skip(start as int),
            digits == unsigned(chars@),
            forall|j: int| 0 <= j < i - start ==> is_digit(#[trigger] digits[j]),
            value == digits_value(digits.take(i - start)),
        decreases chars@.len() - i,
    {
        let c: char = chars[i];
        assert(c == digits[i - start]);
        if !('0' <= c && c <= '9') {
            assert(!is_digit(digits[i - start]));
            return None;
        }
        let more: u64 = value as u64 * 10 + (c as u32 - 0x30) as u64;
        proof {
            let longer = digits.take(i - start + 1);
            assert(longer.drop_last() =~= digits.take(i - start));
            assert(more == digits_value(longer));
            lemma_digits_value_grows(digits, i - start + 1);
        }
        if more > u32::MAX as u64 {
            return None;
        }
        value = more as u32;
        i += 1;
    }
    assert(digits.take(i - start) =~= digits);
    Some(value)
}

/// Whether `s` begins with `prefix`.
pub open spec fn starts_with(s: Seq<char>, prefix: Seq<char>) -> bool {
    prefix.len() <= s.len() && s.take(prefix.len() as int) == prefix
}

/// Whether `s` ends with `suffix`.
pub open spec fn ends_with(s: Seq<char>, suffix: Seq<char>) -> bool {
    suffix.len() <= s.len() && s.skip(s.len() - suffix.len()) == suffix
}

/// Tells whether `part` stands in `chars` from position `at` on.
fn stands_at(chars: &Vec<char>, at: usize, part: &Vec<char>) -> (b: bool)
    requires
        at <= chars@.len(),
    ensures
        b == (part@.len() <= chars@.len() - at && chars@.subrange(at as int, at + part@.len())
            == part@),
{
    if chars.len() - at < part.len() {
        return false;
    }
    let mut i: usize = 0;
    while i < part.len()
        invariant
            i <= part@.len(),
            at + part@.len() <= chars@.len(),
            forall|j: int| 0 <= j < i ==> chars@[at + j] == part@[j],
        decreases part@.len() - i,
    {
        assert(at + i < chars.len());
        if chars[at + i] != part[i] {
            assert(chars@.subrange(at as int, at + part@.len())[i as int] != part@[i as int]);
            return false;
        }
        i += 1;
    }
    assert(chars@.subrange(at as int, at + part@.len()) =~= part@);
    true
}

/// What stands before the first full stop of `s`, which is all of it where
/// there is none.
pub open spec fn before_first_dot(s: Seq<char>) -> Seq<char>
    decreases s.len(),
{
    if s.len() == 0 || s[0] == '.' {
        seq![]
    } else {
        seq![s[0]] + before_first_dot(s.skip(1))
    }
}

/// The process that wrote the script of this name, where it is the name of a
/// script: `.daemon_init.<pid>.zsh`, with or without more behind the process.
pub open spec fn script_pid(name: Seq<char>) -> Option<u32> {
    if starts_with(name, ".daemon_init."@) {
        let rest = name.skip(".daemon_init."@.len() as int);
        if ends_with(rest, ".zsh"@) {
            parsed_u32(before_first_dot(rest.take(rest.len() - ".zsh"@.len())))
        } else {
            None
        }
    } else {
        None
    }
}

/// Finds where the first full stop of `chars` from position `from` on stands,
/// or `end` where none stands before it.
fn dot_position(chars: &Vec<char>, from: usize, end: usize) -> (r: usize)
    requires
        from <= end <= chars@.len(),
    ensures
        from <= r <= end,
        chars@.subrange(from as int, r as int) == before_first_dot(
            chars@.subrange(from as int, end as int),
        ),
{
    let ghost part = chars@.subrange(from as int, end as int);
    let mut i: usize = from;
    assert(part.skip(0) =~= part);
    assert(chars@.subrange(from as int, from as int) + before_first_dot(part)
        =~= before_first_dot(part));
    while i < end && chars[i] != '.'
        invariant
            from <= i <= end <= chars@.len(),
            part == chars@.subrange(from as int, end as int),
            chars@.subrange(from as int, i as int) + before_first_dot(part.skip(i - from))
                == before_first_dot(part),
        decreases end - i,
    {
        proof {
            let rest = part.skip(i - from);
            assert(rest.skip(1) =~= part.skip(i + 1 - from));
            assert(chars@.subrange(from as int, i + 1) =~= chars@.subrange(
                from as int,
                i as int,
            ).push(rest[0]));
            assert(chars@.subrange(from as int, i + 1) + before_first_dot(rest.skip(1))
                =~= chars@.subrange(from as int, i as int) + before_first_dot(rest));
        }
        i += 1;
    }
    assert(before_first_dot(part.skip(i - from)) =~= seq![]);
    assert(chars@.subrange(from as int, i as int) =~= before_first_dot(part));
    i
}

/// Reads the process out of the name of a script.
pub fn parse_init_script_pid(file_name: &str) -> (r: Option<u32>)
    ensures
        r == script_pid(file_name@),
{
    let chars: Vec<char> = chars_of(file_name);
    let prefix: Vec<char> = chars_of(".daemon_init.");
    let suffix: Vec<char> = chars_of(".zsh");
    if !stands_at(&chars, 0, &prefix) {
        assert(!starts_with(file_name@, prefix@)) by {
            if prefix@.len() <= chars@.len() {
                assert(chars@.take(prefix@.len() as int) =~= chars@.subrange(
                    0,
                    prefix@.len() as int,
                ));
            }
        }
        return None;
    }
    let from: usize = prefix.len();
    assert(chars@.take(from as int) =~= chars@.subrange(0, from as int));
    let ghost rest = file_name@.skip(from as int);
    if chars.len() - from < suffix.len() {
        return None;
    }
    let end: usize = chars.len() - suffix.len();
    assert(rest.skip(rest.len() - suffix@.len()) =~= chars@.subrange(
        end as int,
        end + suffix@.len(),
    ));
    if !stands_at(&chars, end, &suffix) {
        return None;
    }
    let dot: usize = dot_position(&chars, from, end);
    assert(chars@.subrange(from as int, end as int) =~= rest.take(rest.len() - suffix@.len()));
    parse_u32(vstd::slice::slice_subrange(chars.as_slice(), from, dot))
}

/// Whether the name is that of a temporary file of zsh's completion cache:
/// `.zcompdump.<host>.<pid>`. The cache itself, `.zcompdump`, is none.
pub open spec fn stale_compdump(name: Seq<char>) -> bool {
    let rest = name.skip(".zcompdump."@.len() as int);
    &&& starts_with(name, ".zcompdump."@)
    &&& exists|dot: int|
        {
            &&& 0 < dot < rest.len()
            &&& #[trigger] rest[dot] == '.'
            &&& all_digits(rest.skip(dot + 1))
        }
}

/// Tells whether the name is that of a temporary file of zsh's completion
/// cache.
pub fn is_stale_compdump_name(file_name: &str) -> (b: bool)
    ensures
        b == stale_compdump(file_name@),
{
    let chars: Vec<char> = chars_of(file_name);
    let prefix: Vec<char> = chars_of(".zcompdump.");
    if !stands_at(&chars, 0, &prefix) {
        assert(!starts_with(file_name@, prefix@)) by {
            if prefix@.len() <= chars@.len() {
                assert(chars@.take(prefix@.len() as int) =~= chars@.subrange(
                    0,
                    prefix@.len() as int,
                ));
            }
        }
        return false;
    }
    let from: usize = prefix.len();
    assert(chars@.take(from as int) =~= chars@.subrange(0, from as int));
    let ghost rest = file_name@.skip(from as int);
    let mut i: usize = chars.len();
    while i > from && '0' <= chars[i - 1] && chars[i - 1] <= '9'
        invariant
            from <= i <= chars@.len(),
            chars@ == file_name@,
            rest == file_name@.skip(from as int),
            forall|j: int| i - from <= j < rest.len() ==> is_digit(#[trigger] rest[j]),
        decreases i,
    {
        assert(rest[i - 1 - from] == chars@[i - 1]);
        i -= 1;
    }
    let found: bool = i < chars.len() && i > from && i - from > 1 && chars[i - 1] == '.';
    proof {
        if found {
            let dot = i - 1 - from;
            assert(rest[dot] == '.');
            assert forall|j: int| 0 <= j < rest.skip(dot + 1).len() implies is_digit(
                #[trigger] rest.skip(dot + 1)[j],
            ) by {
                assert(rest.skip(dot + 1)[j] == rest[dot + 1 + j]);
            }
            assert(all_digits(rest.skip(dot + 1)));
        } else {
            assert forall|dot: int|
                0 < dot < rest.len() && #[trigger] rest[dot] == '.' implies !all_digits(
                rest.skip(dot + 1),
            ) by {
                if all_digits(rest.skip(dot + 1)) {
                    if dot < i - from - 1 {
                        let c = rest.skip(dot + 1)[i - from - 1 - dot - 1];
                        assert(c == rest[i - 1 - from]);
                        assert(!is_digit(c));
                    } else if dot >= i - from {
                        assert(is_digit(rest[dot]));
                    } else {
                        assert(chars@[i - 1] == rest[dot]);
                    }
                }
            }
        }
    }
    found
}

/// What signal 0, which only asks, tells of a process.
#[derive(Debug, Clone, Copy, PartialEq, Eq, Structural)]
pub enum SignalProbe {
    /// The process exists.
    Delivered,
    /// There is no such process.
    NoSuchProcess,
    /// The question failed in another way, such as for want of permission.
    Failed,
}

/// The number by which the system is asked for process `pid`, where there is
/// one.
pub fn probe_target(pid: u32) -> (r: Option<i32>)
    ensures
        r.is_some() <==> pid <= i32::MAX,
        r.is_some() ==> r.unwrap() == pid,
{
    if pid <= i32::MAX as u32 {
        Some(pid as i32)
    } else {
        None
    }
}

/// Whether process `pid` counts as alive: unless it is certain that there is no
/// such process. One that the system cannot be asked for counts as alive.
pub open spec fn counts_as_alive(pid: u32, probe: SignalProbe) -> bool {
    pid > i32::MAX || probe != SignalProbe::NoSuchProcess
}

/// Tells whether process `pid` counts as alive.
pub fn process_is_alive(pid: u32, probe: SignalProbe) -> (b: bool)
    ensures
        b == counts_as_alive(pid, probe),
{
    if probe_target(pid).is_none() {
        return true;
    }
    probe != SignalProbe::NoSuchProcess
}

/// The process to ask for before the script of this name may be removed. None
/// where the name is not that of a script, or the script is our own.
pub open spec fn suspect(name: Seq<char>, self_pid: u32) -> Option<u32> {
    match script_pid(name) {
        Some(pid) => if pid == self_pid {
            None
        } else {
            Some(pid)
        },
        None => None,
    }
}

/// Finds the process to ask for before the script of this name may be removed.
pub fn script_suspect(name: &str, self_pid: u32) -> (r: Option<u32>)
    ensures
        r == suspect(name@, self_pid),
{
    match parse_init_script_pid(name) {
        Some(pid) => {
            if pid == self_pid {
                None
            } else {
                Some(pid)
            }
        },
        None => None,
    }
}

/// Whether the script of this name is left over: another process wrote it, and
/// that process is among the dead.
pub open spec fn stale_script(name: Seq<char>, self_pid: u32, dead: Seq<u32>) -> bool {
    match suspect(name, self_pid) {
        Some(pid) => dead.contains(pid),
        None => false,
    }
}

/// The names for which `pred` holds, in their order.
pub open spec fn selected(names: Seq<Seq<char>>, pred: spec_fn(Seq<char>) -> bool) -> Seq<Seq<char>>
    decreases names.len(),
{
    if names.len() == 0 {
        seq![]
    } else {
        let front = selected(names.drop_last(), pred);
        if pred(names.last()) {
            front.push(names.last())
        } else {
            front
        }
    }
}

/// The scripts among `names` that are left over.
pub open spec fn stale_scripts(names: Seq<Seq<char>>, self_pid: u32, dead: Seq<u32>) -> Seq<
    Seq<char>,
> {
    selected(names, |name: Seq<char>| stale_script(name, self_pid, dead))
}

/// The temporary files of zsh's completion cache among `names`.
pub open spec fn stale_compdumps(names: Seq<Seq<char>>) -> Seq<Seq<char>> {
    selected(names, |name: Seq<char>| stale_compdump(name))
}

/// Tells whether `pid` is among `pids`.
fn among(pids: &[u32], pid: u32) -> (b: bool)
    ensures
        b == pids@.contains(pid),
{
    let mut i: usize = 0;
    while i < pids.len()
        invariant
            i <= pids@.len(),
            forall|j: int| 0 <= j < i ==> pids@[j] != pid,
        decreases pids@.len() - i,
    {
        if pids[i] == pid {
            assert(pids@[i as int] == pid);
            return true;
        }
        i += 1;
    }
    false
}

/// Picks the scripts to remove out of the names in the bridge directory, where
/// `dead` are the suspects that no longer run.
pub fn cleanup_stale_init_scripts(names: &[String], self_pid: u32, dead: &[u32]) -> (r: Vec<String>)
    ensures
        text::texts(r@) == stale_scripts(text::texts(names@), self_pid, dead@),
{
    let ghost pred = |name: Seq<char>| stale_script(name, self_pid, dead@);
    let ghost all = text::texts(names@);
    let mut out: Vec<String> = Vec::new();
    let mut i: usize = 0;
    assert(text::texts(out@) =~= seq![]);
    while i < names.len()
        invariant
            i <= names@.len(),
            all == text::texts(names@),
            pred == (|name: Seq<char>| stale_script(name, self_pid, dead@)),
            text::texts(out@) == selected(all.take(i as int), pred),
        decreases names@.len() - i,
    {
        let ghost before = out@;
        assert(all.take(i + 1).drop_last() =~= all.take(i as int));
        if let Some(pid) = script_suspect(names[i].as_str(), self_pid) {
            if among(dead, pid) {
                out.push(names[i].clone());
                assert(text::texts(out@) =~= text::texts(before).push(all[i as int]));
            }
        }
        i += 1;
    }
    assert(all.take(i as int) =~= all);
    out
}

/// Picks the temporary files of zsh's completion cache out of the names in the
/// bridge directory.
pub fn cleanup_stale_compdumps(names: &[String]) -> (r: Vec<String>)
    ensures
        text::texts(r@) == stale_compdumps(text::texts(names@)),
{
    let ghost pred = |name: Seq<char>| stale_compdump(name);
    let ghost all = text::texts(names@);
    let mut out: Vec<String> = Vec::new();
    let mut i: usize = 0;
    assert(text::texts(out@) =~= seq![]);
    while i < names.len()
        invariant
            i <= names@.len(),
            all == text::texts(names@),
            pred == (|name: Seq<char>| stale_compdump(name)),
            text::texts(out@) == selected(all.take(i as int), pred),
        decreases names@.len() - i,
    {
        let ghost before = out@;
        assert(all.take(i + 1).drop_last() =~= all.take(i as int));
        if is_stale_compdump_name(names[i].as_str()) {
            out.push(names[i].clone());
            assert(text::texts(out@) =~= text::texts(before).push(all[i as int]));
        }
        i += 1;
    }
    assert(all.take(i as int) =~= all);
    out
}

proof fn lemma_selected_hold(names: Seq<Seq<char>>, pred: spec_fn(Seq<char>) -> bool)
    ensures
        forall|i: int|
            0 <= i < selected(names, pred).len() ==> {
                let name = #[trigger] selected(names, pred)[i];
                pred(name) && names.contains(name)
            },
    decreases names.len(),
{
    if names.len() > 0 {
        let front = names.drop_last();
        lemma_selected_hold(front, pred);
        assert forall|i: int| 0 <= i < selected(names, pred).len() implies {
            let name = #[trigger] selected(names, pred)[i];
            pred(name) && names.contains(name)
        } by {
            let name = selected(names, pred)[i];
            if i < selected(front, pred).len() {
                assert(name == selected(front, pred)[i]);
                let j = choose|j: int| 0 <= j < front.len() && front[j] == name;
                assert(names[j] == name);
            } else {
                assert(names[names.len() - 1] == name);
            }
        }
    }
}

/// Only scripts are removed, never our own, and never one whose process may be
/// alive.
pub proof fn law_live_scripts_are_kept(names: Seq<Seq<char>>, self_pid: u32, dead: Seq<u32>)
    ensures
        forall|i: int|
            0 <= i < stale_scripts(names, self_pid, dead).len() ==> {
                let name = #[trigger] stale_scripts(names, self_pid, dead)[i];
                &&& names.contains(name)
                &&& script_pid(name) matches Some(pid)
                &&& pid != self_pid
                &&& dead.contains(pid)
            },
{
    lemma_selected_hold(names, |name: Seq<char>| stale_script(name, self_pid, dead));
}

/// The finished cache is kept, and so is every file whose name does not begin
/// like a temporary file of the cache.
pub proof fn law_cache_is_kept(names: Seq<Seq<char>>)
    ensures
        !stale_compdump(".zcompdump"@),
        forall|i: int|
            0 <= i < stale_compdumps(names).len() ==> {
                let name = #[trigger] stale_compdumps(names)[i];
                names.contains(name) && starts_with(name, ".zcompdump."@)
            },
{
    reveal_strlit(".zcompdump");
    reveal_strlit(".zcompdump.");
    lemma_selected_hold(names, |name: Seq<char>| stale_compdump(name));
}

proof fn lemma_decimal(n: nat)
    ensures
        all_digits(text::decimal(n)),
        digits_value(text::decimal(n)) == n,
    decreases n,
{
    let s = text::decimal(n);
    if n < 10 {
        assert(s.drop_last() =~= seq![]);
        assert(digits_value(s.drop_last()) == 0);
    } else {
        lemma_decimal(n / 10);
        assert(s.drop_last() =~= text::decimal(n / 10));
    }
}

proof fn lemma_before_first_dot(head: Seq<char>, tail: Seq<char>)
    requires
        forall|i: int| 0 <= i < head.len() ==> #[trigger] head[i] != '.',
    ensures
        before_first_dot(head) == head,
        before_first_dot(head + seq!['.'] + tail) == head,
    decreases head.len(),
{
    let all = head + seq!['.'] + tail;
    if head.len() > 0 {
        let rest = head.skip(1);
        assert forall|i: int| 0 <= i < rest.len() implies #[trigger] rest[i] != '.' by {
            assert(rest[i] == head[i + 1]);
        }
        lemma_before_first_dot(rest, tail);
        assert(all.skip(1) =~= rest + seq!['.'] + tail);
        assert(seq![head[0]] + rest =~= head);
    } else {
        assert(before_first_dot(head) =~= head);
        assert(before_first_dot(all) =~= head);
    }
}

proof fn lemma_script_pid(pid: u32, middle: Seq<char>)
    requires
        before_first_dot(middle) == text::decimal(pid as nat),
    ensures
        script_pid(".daemon_init."@ + middle + ".zsh"@) == Some(pid),
{
    let prefix = ".daemon_init."@;
    let suffix = ".zsh"@;
    let name = prefix + middle + suffix;
    reveal_strlit(".daemon_init.");
    reveal_strlit(".zsh");
    assert(name.take(prefix.len() as int) =~= prefix);
    let rest = name.skip(prefix.len() as int);
    assert(rest =~= middle + suffix);
    assert(rest.skip(rest.len() - suffix.len()) =~= suffix);
    assert(rest.take(rest.len() - suffix.len()) =~= middle);
    lemma_decimal(pid as nat);
    let digits = text::decimal(pid as nat);
    assert(is_digit(digits[0]));
}

/// The name of a script tells the process that wrote it, in the form with a
/// random number and in the form without one.
pub proof fn law_script_name_tells_its_process(pid: u32, nonce: u64)
    ensures
        script_pid(init_script_text(pid, nonce)) == Some(pid),
        script_pid(".daemon_init."@ + text::decimal(pid as nat) + ".zsh"@) == Some(pid),
{
    let digits = text::decimal(pid as nat);
    let hex = text::hex_digits(nonce as nat, 16);
    lemma_decimal(pid as nat);
    assert forall|i: int| 0 <= i < digits.len() implies #[trigger] digits[i] != '.' by {
        assert(is_digit(digits[i]));
    }
    lemma_before_first_dot(digits, hex);
    lemma_script_pid(pid, digits);
    lemma_script_pid(pid, digits + seq!['.'] + hex);
    assert(init_script_text(pid, nonce) =~= ".daemon_init."@ + (digits + seq!['.'] + hex)
        + ".zsh"@);
}

/// A script that process `pid` has just written is never removed by that
/// process, whatever is told of the dead.
pub proof fn law_own_script_is_kept(pid: u32, nonce: u64, dead: Seq<u32>)
    ensures
        !stale_script(init_script_text(pid, nonce), pid, dead),
{
    law_script_name_tells_its_process(pid, nonce);
}

/// 16 to the power of `n`.
spec fn power_of_16(n: nat) -> nat
    decreases n,
{
    if n == 0 {
        1
    } else {
        16 * power_of_16((n - 1) as nat)
    }
}

proof fn lemma_hex_digits_tell_the_number(a: nat, b: nat, width: nat)
    requires
        a < power_of_16(width),
        b < power_of_16(width),
        text::hex_digits(a, width) == text::hex_digits(b, width),
    ensures
        a == b,
    decreases width,
{
    if width > 0 {
        let s = text::hex_digits(a, width);
        let t = text::hex_digits(b, width);
        assert(s.drop_last() =~= text::hex_digits(a / 16, (width - 1) as nat));
        assert(t.drop_last() =~= text::hex_digits(b / 16, (width - 1) as nat));
        assert(s.last() == text::hex_digit(a % 16));
        assert(t.last() == text::hex_digit(b % 16));
        lemma_hex_digits_tell_the_number(a / 16, b / 16, (width - 1) as nat);
    }
}

proof fn lemma_hex_digits_len(n: nat, width: nat)
    ensures
        text::hex_digits(n, width).len() == width,
    decreases width,
{
    if width > 0 {
        lemma_hex_digits_len(n / 16, (width - 1) as nat);
    }
}

/// Scripts of different processes have different names, and so have two
/// scripts of one process unless the same random number came up twice.
pub proof fn law_script_names_differ(pid: u32, nonce: u64, other_pid: u32, other_nonce: u64)
    requires
        init_script_text(pid, nonce) == init_script_text(other_pid, other_nonce),
    ensures
        pid == other_pid,
        nonce == other_nonce,
{
    law_script_name_tells_its_process(pid, nonce);
    law_script_name_tells_its_process(other_pid, other_nonce);
    let hex = text::hex_digits(nonce as nat, 16);
    let other = text::hex_digits(other_nonce as nat, 16);
    lemma_hex_digits_len(nonce as nat, 16);
    lemma_hex_digits_len(other_nonce as nat, 16);
    let name = init_script_text(pid, nonce);
    let at = (".daemon_init."@ + text::decimal(pid as nat) + seq!['.']).len() as int;
    assert(hex =~= name.subrange(at, at + 16));
    assert(other =~= name.subrange(at, at + 16));
    reveal_with_fuel(power_of_16, 17);
    lemma_hex_digits_tell_the_number(nonce as nat, other_nonce as nat, 16);
}

proof fn lemma_digits_value_is_number_read(s: Seq<char>)
    requires
        forall|i: int| 0 <= i < s.len() ==> '0' <= #[trigger] s[i] <= '9',
    ensures
        digits_value(s) == text::number_read(s, 10, |c: char| c as int - '0' as int),
    decreases s.len(),
{
    if s.len() > 0 {
        let front = s.drop_last();
        assert forall|i: int| 0 <= i < front.len() implies '0' <= #[trigger] front[i] <= '9' by {
            assert(front[i] == s[i]);
        }
        lemma_digits_value_is_number_read(front);
        assert('0' <= s[s.len() - 1] <= '9');
    }
}

/// Whether `s` is a number in digits.
pub open spec fn in_digits(s: Seq<char>) -> bool {
    s.len() > 0 && forall|i: int| 0 <= i < s.len() ==> '0' <= #[trigger] s[i] <= '9'
}

proof fn lemma_script_pid_of(piece: Seq<char>, middle: Seq<char>)
    requires
        before_first_dot(middle) == piece,
    ensures
        script_pid(".daemon_init."@ + middle + ".zsh"@) == parsed_u32(piece),
{
    let prefix = ".daemon_init."@;
    let suffix = ".zsh"@;
    let name = prefix + middle + suffix;
    reveal_strlit(".daemon_init.");
    reveal_strlit(".zsh");
    assert(name.take(prefix.len() as int) =~= prefix);
    let rest = name.skip(prefix.len() as int);
    assert(rest =~= middle + suffix);
    assert(rest.skip(rest.len() - suffix.len()) =~= suffix);
    assert(rest.take(rest.len() - suffix.len()) =~= middle);
}

/// The process of a script is the number between the first two full stops behind
/// `.daemon_init`, whatever stands between the second and the ending. Where that
/// is no number, or one too great for a process, there is none.
pub proof fn law_process_stands_between_two_full_stops(piece: Seq<char>, more: Seq<char>)
    requires
        !piece.contains('.'),
    ensures
        ({
            let short = ".daemon_init."@ + piece + ".zsh"@;
            let long = ".daemon_init."@ + (piece + seq!['.'] + more) + ".zsh"@;
            let number = text::number_read(piece, 10, |c: char| c as int - '0' as int);
            &&& script_pid(long) == script_pid(short)
            &&& in_digits(piece) && number <= 0xffff_ffff ==> script_pid(short) == Some(
                number as u32,
            )
            &&& in_digits(piece) && number > 0xffff_ffff ==> script_pid(short).is_none()
            &&& !in_digits(piece) && !(piece.len() > 0 && piece[0] == '+') ==> script_pid(
                short,
            ).is_none()
        }),
{
    assert forall|i: int| 0 <= i < piece.len() implies #[trigger] piece[i] != '.' by {
        assert(piece.contains(piece[i]));
    }
    lemma_before_first_dot(piece, more);
    lemma_script_pid_of(piece, piece);
    lemma_script_pid_of(piece, piece + seq!['.'] + more);
    if in_digits(piece) {
        lemma_digits_value_is_number_read(piece);
        assert('0' <= piece[0] <= '9');
        assert(unsigned(piece) == piece);
        assert forall|i: int| 0 <= i < piece.len() implies is_digit(#[trigger] piece[i]) by {}
    } else if !(piece.len() > 0 && piece[0] == '+') {
        if all_digits(piece) {
            assert forall|i: int| 0 <= i < piece.len() implies '0' <= #[trigger] piece[i] <= '9' by {
                assert(is_digit(piece[i]));
            }
        }
    }
}

/// A name that does not begin like a script, or does not end like one, is not
/// that of a script.
pub proof fn law_other_names_are_no_scripts(name: Seq<char>)
    requires
        name.len() < 17 || name.take(13) != ".daemon_init."@ || name.skip(name.len() - 4) != ".zsh"@,
    ensures
        script_pid(name).is_none(),
{
    reveal_strlit(".daemon_init.");
    reveal_strlit(".zsh");
    if starts_with(name, ".daemon_init."@) {
        let rest = name.skip(13);
        if ends_with(rest, ".zsh"@) {
            assert(rest.skip(rest.len() - 4) =~= name.skip(name.len() - 4));
        }
    }
}

/// One name more is picked exactly where it is that of a script whose process is
/// another and is dead. The names before it are picked as without it.
pub proof fn law_scripts_of_the_dead_are_picked(
    names: Seq<Seq<char>>,
    name: Seq<char>,
    self_pid: u32,
    dead: Seq<u32>,
)
    ensures
        stale_scripts(seq![], self_pid, dead) == Seq::<Seq<char>>::empty(),
        stale_scripts(names.push(name), self_pid, dead) == if script_pid(name) matches Some(pid)
            && pid != self_pid && dead.contains(pid) {
            stale_scripts(names, self_pid, dead).push(name)
        } else {
            stale_scripts(names, self_pid, dead)
        },
{
    assert(names.push(name).drop_last() =~= names);
}

/// One name more is picked exactly where it is that of a temporary file. The
/// names before it are picked as without it.
pub proof fn law_temporary_files_are_picked(names: Seq<Seq<char>>, name: Seq<char>)
    ensures
        stale_compdumps(seq![]) == Seq::<Seq<char>>::empty(),
        stale_compdumps(names.push(name)) == if stale_compdump(name) {
            stale_compdumps(names).push(name)
        } else {
            stale_compdumps(names)
        },
{
    assert(names.push(name).drop_last() =~= names);
}

/// A temporary file of the cache has a host and a process behind its name: the
/// process is what stands behind the last full stop and is a number, and the
/// host is all before that and is not empty. A name without the two, or one that
/// begins otherwise, is kept.
pub proof fn law_temporary_files_have_host_and_process(host: Seq<char>, pid: Seq<char>, name: Seq<char>)
    requires
        !pid.contains('.'),
        name.len() < 11 || name.take(11) != ".zcompdump."@,
    ensures
        stale_compdump(".zcompdump."@ + host + seq!['.'] + pid) <==> host.len() > 0 && in_digits(pid),
        !stale_compdump(".zcompdump."@ + pid),
        !stale_compdump(name),
{
    reveal_strlit(".zcompdump.");
    let prefix = ".zcompdump."@;
    assert forall|i: int| 0 <= i < pid.len() implies #[trigger] pid[i] != '.' by {
        assert(pid.contains(pid[i]));
    }
    // With a host.
    let full = prefix + host + seq!['.'] + pid;
    let rest = full.skip(11);
    let n = host.len() as int;
    assert(rest =~= host + seq!['.'] + pid);
    assert(full.take(11) =~= prefix);
    assert(rest.skip(n + 1) =~= pid);
    assert(rest[n] == '.');
    if host.len() > 0 && in_digits(pid) {
        assert(all_digits(rest.skip(n + 1)));
        assert(stale_compdump(full));
    }
    if stale_compdump(full) {
        let dot = choose|dot: int|
            {
                &&& 0 < dot < rest.len()
                &&& #[trigger] rest[dot] == '.'
                &&& all_digits(rest.skip(dot + 1))
            };
        if dot < n {
            let c = rest.skip(dot + 1)[n - dot - 1];
            assert(c == rest[n]);
            assert(is_digit(c));
        } else if dot > n {
            assert(rest[dot] == pid[dot - n - 1]);
        }
        assert forall|i: int| 0 <= i < pid.len() implies '0' <= #[trigger] pid[i] <= '9' by {
            assert(is_digit(rest.skip(n + 1)[i]));
        }
    }
    // Without one.
    let bare = prefix + pid;
    let tail = bare.skip(11);
    assert(tail =~= pid);
}

/// A process counts as dead only where the system can be asked for it and says
/// that there is no such process. Anything else is no proof of its end.
pub proof fn law_only_missing_processes_are_dead(pid: u32)
    ensures
        counts_as_alive(pid, SignalProbe::Delivered),
        counts_as_alive(pid, SignalProbe::Failed),
        counts_as_alive(pid, SignalProbe::NoSuchProcess) <==> pid > 0x7fff_ffff,
{
}

/// A process is asked for before its script is removed, except our own.
pub proof fn law_every_other_process_is_asked_for(name: Seq<char>, self_pid: u32)
    ensures
        script_pid(name) != Some(self_pid) ==> suspect(name, self_pid) == script_pid(name),
        script_pid(name) == Some(self_pid) ==> suspect(name, self_pid).is_none(),
{
}

/// The name of a script holds its process in decimal and its random number in
/// sixteen digits.
pub proof fn law_script_name_holds_process_and_number(pid: u32, nonce: u64)
    ensures
        init_script_text(pid, nonce) == ".daemon_init."@ + text::decimal(pid as nat) + seq!['.']
            + text::hex_digits(nonce as nat, 16) + ".zsh"@,
        text::hex_digits(nonce as nat, 16).len() == 16,
{
    lemma_hex_digits_len(nonce as nat, 16);
}

/// A plus sign before the number makes no difference.
pub proof fn law_plus_sign_makes_no_difference(digits: Seq<char>)
    requires
        in_digits(digits),
    ensures
        script_pid(".daemon_init."@ + (seq!['+'] + digits) + ".zsh"@) == script_pid(
            ".daemon_init."@ + digits + ".zsh"@,
        ),
{
    let none: Seq<char> = seq![];
    let signed = seq!['+'] + digits;
    assert forall|i: int| 0 <= i < signed.len() implies #[trigger] signed[i] != '.' by {
        if i > 0 {
            assert(signed[i] == digits[i - 1]);
        }
    }
    lemma_before_first_dot(signed, none);
    lemma_before_first_dot(digits, none);
    lemma_script_pid_of(signed, signed);
    lemma_script_pid_of(digits, digits);
    assert(signed.skip(1) =~= digits);
    assert('0' <= digits[0] <= '9');
}

} // verus!
