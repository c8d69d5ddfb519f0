//! Characters, strings and numbers as text.
//!
//! A `str` or a `String` is seen through its view, a sequence of `char`. The
//! executable code walks a `Vec<char>` by index and builds its result with
//! `String::push`.

use vstd::prelude::*;

verus! {

/// `String::push` of the standard library: appends one character at the end.
pub assume_specification[ String::push ](s: &mut String, ch: char)
    ensures
        final(s)@ == old(s)@.push(ch),
;

/// The characters of `text`, in order.
pub fn chars_of(text: &str) -> (chars: Vec<char>)
    ensures
        chars@ == text@,
{
    let mut chars: Vec<char> = Vec::new();
    for c in it: text.chars()
        invariant
            it.seq() == text@,
            chars@ == it.seq().take(it.index() as int),
    {
        chars.push(c);
    }
    chars
}

/// The string made of `chars`, in order.
pub fn string_of(chars: &[char]) -> (text: String)
    ensures
        text@ == chars@,
{
    let mut text: String = String::new();
    let mut i: usize = 0;
    while i < chars.len()
        invariant
            i <= chars@.len(),
            text@ == chars@.take(i as int),
        decreases chars@.len() - i,
    {
        text.push(chars[i]);
        i += 1;
    }
    text
}

/// Whether `c` has Unicode's `White_Space` property.
pub open spec fn white_space(c: char) -> bool {
    ||| '\u{9}' <= c <= '\u{d}'
    ||| c == ' '
    ||| c == '\u{85}'
    ||| c == '\u{a0}'
    ||| c == '\u{1680}'
    ||| '\u{2000}' <= c <= '\u{200a}'
    ||| c == '\u{2028}'
    ||| c == '\u{2029}'
    ||| c == '\u{202f}'
    ||| c == '\u{205f}'
    ||| c == '\u{3000}'
}

/// Tells whether `c` is white space.
pub fn is_white_space(c: char) -> (b: bool)
    ensures
        b == white_space(c),
{
    ('\u{9}' <= c && c <= '\u{d}') || c == ' ' || c == '\u{85}' || c == '\u{a0}' || c == '\u{1680}'
        || ('\u{2000}' <= c && c <= '\u{200a}') || c == '\u{2028}' || c == '\u{2029}'
        || c == '\u{202f}' || c == '\u{205f}' || c == '\u{3000}'
}

/// The decimal digit for a number below ten.
pub open spec fn decimal_digit(d: nat) -> char {
    (0x30 + d) as char
}

/// `n` in decimal, without leading zeros.
pub open spec fn decimal(n: nat) -> Seq<char>
    decreases n,
{
    if n < 10 {
        seq![decimal_digit(n)]
    } else {
        decimal(n / 10).push(decimal_digit(n % 10))
    }
}

/// `n` in decimal, with a minus sign in front where it is negative.
pub open spec fn signed_decimal(n: int) -> Seq<char> {
    if n < 0 {
        seq!['-'] + decimal((-n) as nat)
    } else {
        decimal(n as nat)
    }
}

/// Appends `n` in decimal.
pub fn push_decimal(text: &mut String, n: u64)
    ensures
        final(text)@ == old(text)@ + decimal(n as nat),
    decreases n,
{
    if n >= 10 {
        push_decimal(text, n / 10);
    }
    let digit: u8 = 0x30 + (n % 10) as u8;
    text.push(digit as char);
}

/// Appends `n` in decimal, with a minus sign where it is negative.
pub fn push_signed_decimal(text: &mut String, n: i32)
    ensures
        final(text)@ == old(text)@ + signed_decimal(n as int),
{
    let ghost before = text@;
    if n < 0 {
        text.push('-');
        push_decimal(text, (-(n as i64)) as u64);
        assert(text@ =~= before + signed_decimal(n as int));
    } else {
        push_decimal(text, n as u64);
    }
}

/// The lower-case hexadecimal digit for a number below sixteen.
pub open spec fn hex_digit(d: nat) -> char {
    if d < 10 {
        (0x30 + d) as char
    } else {
        (0x57 + d) as char
    }
}

/// The last `width` hexadecimal digits of `n`, most significant first.
pub open spec fn hex_digits(n: nat, width: nat) -> Seq<char>
    decreases width,
{
    if width == 0 {
        seq![]
    } else {
        hex_digits(n / 16, (width - 1) as nat).push(hex_digit(n % 16))
    }
}

/// Appends the last `width` hexadecimal digits of `n`.
pub fn push_hex(text: &mut String, n: u64, width: u8)
    ensures
        final(text)@ == old(text)@ + hex_digits(n as nat, width as nat),
    decreases width,
{
    if width > 0 {
        push_hex(text, n / 16, width - 1);
        let d: u8 = (n % 16) as u8;
        let digit: u8 = if d < 10 {
            0x30 + d
        } else {
            0x57 + d
        };
        text.push(digit as char);
    }
}

/// The views of a sequence of strings.
pub open spec fn texts(strings: Seq<String>) -> Seq<Seq<char>> {
    Seq::new(strings.len(), |i: int| strings[i]@)
}

/// The view of a string that may be missing.
pub open spec fn optional_text(text: Option<String>) -> Option<Seq<char>> {
    match text {
        Some(t) => Some(t@),
        None => None,
    }
}

/// `parts` in order, with one `separator` between each two of them.
pub open spec fn joined(parts: Seq<Seq<char>>, separator: char) -> Seq<char>
    decreases parts.len(),
{
    if parts.len() == 0 {
        seq![]
    } else if parts.len() == 1 {
        parts[0]
    } else {
        joined(parts.drop_last(), separator).push(separator) + parts.last()
    }
}

/// Joins `parts` with one `separator` between each two of them.
pub fn join(parts: &[String], separator: char) -> (text: String)
    ensures
        text@ == joined(texts(parts@), separator),
{
    let mut text: String = String::new();
    let mut i: usize = 0;
    while i < parts.len()
        invariant
            i <= parts@.len(),
            text@ == joined(texts(parts@).take(i as int), separator),
        decreases parts@.len() - i,
    {
        if i > 0 {
            text.push(separator);
        }
        text.append(parts[i].as_str());
        proof {
            let done = texts(parts@).take(i + 1);
            assert(done.drop_last() =~= texts(parts@).take(i as int));
            assert(done.last() == parts@[i as int]@);
            if i == 0 {
                assert(text@ =~= parts@[0]@);
            }
        }
        i += 1;
    }
    assert(texts(parts@).take(i as int) =~= texts(parts@));
    text
}

/// The number that `digits` are in a base, where each digit has this value.
pub open spec fn number_read(digits: Seq<char>, base: nat, value: spec_fn(char) -> int) -> int
    decreases digits.len(),
{
    if digits.len() == 0 {
        0
    } else {
        number_read(digits.drop_last(), base, value) * base + value(digits.last())
    }
}

/// A number in decimal reads back as the number. It is made of the digits 0 to
/// 9 and does not begin with a zero unless it is zero.
pub proof fn law_decimal_reads_back(n: nat)
    ensures
        number_read(decimal(n), 10, |c: char| c as int - '0' as int) == n,
        decimal(n).len() > 0,
        forall|i: int| 0 <= i < decimal(n).len() ==> '0' <= #[trigger] decimal(n)[i] <= '9',
        decimal(n)[0] == '0' ==> decimal(n) == seq!['0'],
    decreases n,
{
    let value = |c: char| c as int - '0' as int;
    let digits = decimal(n);
    let empty: Seq<char> = seq![];
    assert(number_read(empty, 10, value) == 0);
    if n < 10 {
        assert(digits.drop_last() =~= empty);
        assert(digits =~= seq![decimal_digit(n)]);
        if digits[0] == '0' {
            assert(n == 0);
            assert(digits =~= seq!['0']);
        }
    } else {
        law_decimal_reads_back(n / 10);
        assert(digits.drop_last() =~= decimal(n / 10));
        assert(digits[0] == decimal(n / 10)[0]);
        if digits[0] == '0' {
            assert(decimal(n / 10).len() == 1);
            let one = decimal(n / 10);
            assert(one.drop_last() =~= empty);
            assert(number_read(one, 10, value) == 0);
        }
    }
}

/// A negative number is its opposite behind a minus sign, and no other number
/// has a sign.
pub proof fn law_minus_sign_stands_before_negative_numbers(n: int)
    requires
        n > 0,
    ensures
        signed_decimal(n) == decimal(n as nat),
        signed_decimal(-n) == seq!['-'] + decimal(n as nat),
        signed_decimal(0) == seq!['0'],
{
    assert(signed_decimal(0) =~= seq!['0']);
}

/// The value of a lower-case hexadecimal digit.
pub open spec fn hex_value(c: char) -> int {
    if '0' <= c <= '9' {
        c as int - '0' as int
    } else {
        c as int - 'a' as int + 10
    }
}

/// A number in hexadecimal has as many digits as asked for, all of them 0 to 9
/// or a to f, and reads back as the number where it has no more digits.
pub proof fn law_hexadecimal_reads_back(n: nat, width: nat)
    ensures
        hex_digits(n, width).len() == width,
        forall|i: int|
            0 <= i < width ==> '0' <= #[trigger] hex_digits(n, width)[i] <= '9' || 'a' <= hex_digits(
                n,
                width,
            )[i] <= 'f',
        number_read(hex_digits(n, width), 16, |c: char| hex_value(c)) == n % vstd::arithmetic::power::pow(
            16,
            width,
        ) as nat,
    decreases width,
{
    let value = |c: char| hex_value(c);
    let digits = hex_digits(n, width);
    vstd::arithmetic::power::lemma_pow_positive(16, width);
    if width == 0 {
        vstd::arithmetic::power::lemma_pow0(16);
        assert(number_read(digits, 16, value) == 0);
    } else {
        let w = (width - 1) as nat;
        law_hexadecimal_reads_back(n / 16, w);
        assert(digits.drop_last() =~= hex_digits(n / 16, w));
        assert(value(digits.last()) == n % 16);
        let p = vstd::arithmetic::power::pow(16, w);
        vstd::arithmetic::power::lemma_pow_positive(16, w);
        assert(vstd::arithmetic::power::pow(16, width) == 16 * p) by {
            reveal(vstd::arithmetic::power::pow);
        }
        let a = n as int / 16;
        vstd::arithmetic::div_mod::lemma_mod_breakdown(n as int, 16, p);
        assert(n as int % (16 * p) == 16 * (a % p) + n as int % 16);
        assert((a % p) * 16 == 16 * (a % p)) by (nonlinear_arith);
    }
}

/// The white space of Unicode: the tab and the line ends, the space, and the
/// spaces and separators of other scripts. No letter, digit, sign or other
/// control character is white space.
pub proof fn law_white_space_is_that_of_unicode(c: char)
    ensures
        c < '\u{80}' ==> (white_space(c) <==> c == ' ' || c == '\t' || c == '\n' || c == '\u{b}' || c
            == '\u{c}' || c == '\r'),
        '\u{80}' <= c ==> (white_space(c) <==> c == '\u{85}' || c == '\u{a0}' || c == '\u{1680}' || (
        '\u{2000}' <= c && c <= '\u{200a}') || c == '\u{2028}' || c == '\u{2029}' || c == '\u{202f}'
            || c == '\u{205f}' || c == '\u{3000}'),
{
}

/// Joined parts are the first of them, then the separator, then the others
/// joined. One part is itself, and no part is nothing.
pub proof fn law_joined_parts_stand_in_order(parts: Seq<Seq<char>>, separator: char)
    ensures
        parts.len() == 0 ==> joined(parts, separator) == Seq::<char>::empty(),
        parts.len() == 1 ==> joined(parts, separator) == parts[0],
        parts.len() > 1 ==> joined(parts, separator) == parts[0] + seq![separator] + joined(
            parts.skip(1),
            separator,
        ),
    decreases parts.len(),
{
    if parts.len() > 1 {
        let front = parts.drop_last();
        law_joined_parts_stand_in_order(front, separator);
        assert(front.skip(1) =~= parts.skip(1).drop_last());
        assert(parts.skip(1).last() == parts.last());
        if parts.len() == 2 {
            assert(front =~= seq![parts[0]]);
            assert(parts.skip(1) =~= seq![parts[1]]);
            assert(joined(parts, separator) =~= parts[0] + seq![separator] + joined(
                parts.skip(1),
                separator,
            ));
        } else {
            assert(joined(parts, separator) =~= parts[0] + seq![separator] + joined(
                parts.skip(1),
                separator,
            ));
        }
    }
}

} // verus!
