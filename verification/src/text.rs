//! Text: comparing strings, reading and writing integers in decimal, and
//! changing the case of a first letter. Everything is stated over the
//! characters of the strings.

use crate::ast::views;
use vstd::prelude::*;

verus! {

/// Whether two strings hold the same characters.
pub fn same_text(a: &str, b: &str) -> (r: bool)
    ensures
        r == (a@ == b@),
{
    let x = a.to_owned();
    let y = b.to_owned();
    x == y
}

/// Whether `name` is among `names`.
pub fn contains_text(names: &Vec<String>, name: &str) -> (r: bool)
    ensures
        r == text_among(views(names@), name@),
{
    let mut i: usize = 0;
    while i < names.len()
        invariant
            i <= names.len(),
            forall|j: int| 0 <= j < i ==> (#[trigger] names@[j])@ != name@,
        decreases names.len() - i,
    {
        if same_text(names[i].as_str(), name) {
            proof {
                assert(views(names@)[i as int] == name@);
            }
            return true;
        }
        i = i + 1;
    }
    false
}

/// Whether `name` occurs in `names`.
pub open spec fn text_among(names: Seq<Seq<char>>, name: Seq<char>) -> bool {
    exists|i: int| 0 <= i < names.len() && names[i] == name
}

/// Whether `c` is a decimal digit.
pub open spec fn is_digit(c: char) -> bool {
    '0' <= c && c <= '9'
}

/// What a decimal digit counts for.
pub open spec fn digit_value(c: char) -> nat {
    if is_digit(c) {
        (c as u32 - '0' as u32) as nat
    } else {
        0
    }
}

/// Whether `s` holds decimal digits only.
pub open spec fn all_digits(s: Seq<char>) -> bool {
    forall|i: int| 0 <= i < s.len() ==> is_digit(#[trigger] s[i])
}

/// The number that a run of decimal digits writes.
pub open spec fn decimal_value(digits: Seq<char>) -> nat
    decreases digits.len(),
{
    if digits.len() == 0 {
        0
    } else {
        decimal_value(digits.drop_last()) * 10 + digit_value(digits.last())
    }
}

/// The number that `digits` writes, where they are one digit or more and
/// the number is at most `limit`.
pub open spec fn decimal_within(digits: Seq<char>, limit: nat) -> Option<nat> {
    if digits.len() > 0 && all_digits(digits) && decimal_value(digits) <= limit {
        Some(decimal_value(digits))
    } else {
        None
    }
}

/// The integer that `text` writes: digits behind an optional sign, within
/// the range of `i32`.
pub open spec fn integer_of(text: Seq<char>) -> Option<i32> {
    if text.len() > 0 && text[0] == '-' {
        match decimal_within(text.skip(1), 2147483648) {
            Some(v) => Some((-(v as int)) as i32),
            None => None,
        }
    } else if text.len() > 0 && text[0] == '+' {
        match decimal_within(text.skip(1), 2147483647) {
            Some(v) => Some(v as i32),
            None => None,
        }
    } else {
        match decimal_within(text, 2147483647) {
            Some(v) => Some(v as i32),
            None => None,
        }
    }
}

/// More digits never write a smaller number.
pub proof fn lemma_decimal_grows(digits: Seq<char>, n: int)
    requires
        0 <= n <= digits.len(),
    ensures
        decimal_value(digits.take(n)) <= decimal_value(digits),
    decreases digits.len() - n,
{
    if n < digits.len() {
        assert(digits.take(n + 1).drop_last() == digits.take(n));
        lemma_decimal_grows(digits, n + 1);
    } else {
        assert(digits.take(n) == digits);
    }
}

/// Reads the characters of `text` from `from` up to `to` as a decimal
/// number of at most `limit`.
pub fn parse_decimal(text: &str, from: usize, to: usize, limit: u32) -> (r: Option<u32>)
    requires
        from <= to <= text@.len(),
    ensures
        match decimal_within(text@.subrange(from as int, to as int), limit as nat) {
            Some(v) => r == Some(v as u32),
            None => r is None,
        },
{
    let ghost digits = text@.subrange(from as int, to as int);
    if from == to {
        return None;
    }
    let mut acc: u64 = 0;
    let mut i: usize = from;
    proof {
        assert(digits.take(0).len() == 0);
    }
    while i < to
        invariant
            from <= i <= to <= text@.len(),
            digits == text@.subrange(from as int, to as int),
            all_digits(digits.take(i - from)),
            acc == decimal_value(digits.take(i - from)),
            acc <= limit,
        decreases to - i,
    {
        let c = text.get_char(i);
        assert(c == digits[i - from]);
        if !(c >= '0' && c <= '9') {
            return None;
        }
        let d: u64 = (c as u32 - '0' as u32) as u64;
        acc = acc * 10 + d;
        proof {
            assert(digits.take(i - from + 1).drop_last() == digits.take(i - from));
            assert(digits.take(i - from + 1).last() == c);
            assert(all_digits(digits.take(i - from + 1))) by {
                assert forall|k: int| 0 <= k < i - from + 1 implies is_digit(
                    #[trigger] digits.take(i - from + 1)[k],
                ) by {
                    if k < i - from {
                        assert(digits.take(i - from)[k] == digits[k]);
                    }
                }
            }
        }
        if acc > limit as u64 {
            proof {
                lemma_decimal_grows(digits, i - from + 1);
            }
            return None;
        }
        i = i + 1;
    }
    proof {
        assert(digits.take(i - from) == digits);
    }
    Some(acc as u32)
}

/// Reads `text` as an `i32`: digits behind an optional sign.
pub fn parse_integer(text: &str) -> (r: Option<i32>)
    ensures
        r == integer_of(text@),
{
    let n = text.unicode_len();
    if n == 0 {
        return None;
    }
    let first = text.get_char(0);
    proof {
        assert(text@.skip(1) == text@.subrange(1, n as int));
        assert(text@ == text@.subrange(0, n as int));
    }
    if first == '-' {
        match parse_decimal(text, 1, n, 2147483648) {
            Some(v) => {
                if v == 2147483648 {
                    Some(-2147483648)
                } else {
                    Some(-(v as i32))
                }
            },
            None => None,
        }
    } else if first == '+' {
        match parse_decimal(text, 1, n, 2147483647) {
            Some(v) => Some(v as i32),
            None => None,
        }
    } else {
        match parse_decimal(text, 0, n, 2147483647) {
            Some(v) => Some(v as i32),
            None => None,
        }
    }
}

/// `String::push`: the string afterwards is the string before with `c` at
/// its end.
#[verifier::external_body]
pub(crate) fn push_char(s: &mut String, c: char)
    ensures
        final(s)@ == old(s)@.push(c),
{
    s.push(c)
}

/// The lowercase form that Unicode gives a character: one character or
/// more.
pub uninterp spec fn lowercase_of(c: char) -> Seq<char>;

/// `char::to_lowercase`, collected into a string: the lowercase form of
/// `c`, which depends on `c` alone. Nothing is claimed of what the form
/// is; the library calls this beyond ASCII only.
#[verifier::external_body]
pub(crate) fn lowercase(c: char) -> (r: String)
    ensures
        r@ == lowercase_of(c),
{
    c.to_lowercase().collect()
}

/// The capital of an ASCII letter; any other character is left as it is.
pub open spec fn ascii_upper(c: char) -> char {
    if 'a' <= c && c <= 'z' {
        ((c as u8) - 32) as char
    } else {
        c
    }
}

/// The capital of an ASCII letter.
pub fn to_ascii_upper(c: char) -> (r: char)
    ensures
        r == ascii_upper(c),
{
    if 'a' <= c && c <= 'z' {
        ((c as u8) - 32) as char
    } else {
        c
    }
}

/// `text` with `first` in place of its first character; nothing where
/// `text` is empty.
pub open spec fn with_first(text: Seq<char>, first: Seq<char>) -> Seq<char> {
    if text.len() == 0 {
        Seq::empty()
    } else {
        first + text.skip(1)
    }
}

/// Puts `first` in place of the first character of `text`.
pub fn replace_first(text: &str, first: &str) -> (r: String)
    ensures
        r@ == with_first(text@, first@),
{
    let n = text.unicode_len();
    if n == 0 {
        return String::new();
    }
    let mut out = first.to_owned();
    out.append(text.substring_char(1, n));
    proof {
        assert(text@.subrange(1, n as int) == text@.skip(1));
    }
    out
}

/// `name` with its first character as a capital.
pub open spec fn capitalized(name: Seq<char>) -> Seq<char> {
    if name.len() == 0 {
        name
    } else {
        seq![ascii_upper(name[0])] + name.skip(1)
    }
}

/// Makes a capital of the first character of `name`.
pub fn capitalize(name: &str) -> (r: String)
    ensures
        r@ == capitalized(name@),
{
    let n = name.unicode_len();
    if n == 0 {
        return name.to_owned();
    }
    let mut first = String::new();
    push_char(&mut first, to_ascii_upper(name.get_char(0)));
    proof {
        assert(first@ == seq![ascii_upper(name@[0])]);
    }
    replace_first(name, first.as_str())
}

/// The small form of an ASCII letter; any other character is left as it
/// is.
pub open spec fn ascii_lower(c: char) -> char {
    if 'A' <= c && c <= 'Z' {
        ((c as u8) + 32) as char
    } else {
        c
    }
}

/// The small form of an ASCII letter.
pub fn to_ascii_lower(c: char) -> (r: char)
    ensures
        r == ascii_lower(c),
{
    if 'A' <= c && c <= 'Z' {
        ((c as u8) + 32) as char
    } else {
        c
    }
}

/// A character in lowercase: within ASCII the small form of a letter,
/// beyond it the form that Unicode gives.
pub open spec fn lowered(c: char) -> Seq<char> {
    if c <= '\u{7f}' {
        seq![ascii_lower(c)]
    } else {
        lowercase_of(c)
    }
}

/// Puts a character in lowercase.
pub fn lower(c: char) -> (r: String)
    ensures
        r@ == lowered(c),
{
    if c <= '\u{7f}' {
        let mut out = String::new();
        push_char(&mut out, to_ascii_lower(c));
        proof {
            assert(out@ == seq![ascii_lower(c)]);
        }
        out
    } else {
        lowercase(c)
    }
}

/// `value` with its first character in lowercase.
pub open spec fn first_lowered(value: Seq<char>) -> Seq<char> {
    if value.len() == 0 {
        Seq::empty()
    } else {
        with_first(value, lowered(value[0]))
    }
}

/// The character that writes a digit.
pub open spec fn digit_char(d: nat) -> char {
    (('0' as u8) + (d % 10) as u8) as char
}

/// The decimal digits of a number, without leading zeros.
pub open spec fn digits_of(n: nat) -> Seq<char>
    decreases n,
{
    if n < 10 {
        seq![digit_char(n)]
    } else {
        digits_of(n / 10).push(digit_char(n % 10))
    }
}

/// An integer in decimal, with a minus sign where it is negative.
pub open spec fn decimal_text(n: int) -> Seq<char> {
    if n < 0 {
        seq!['-'] + digits_of((-n) as nat)
    } else {
        digits_of(n as nat)
    }
}

fn push_digits(out: &mut String, n: u64)
    ensures
        final(out)@ == old(out)@ + digits_of(n as nat),
    decreases n,
{
    if n >= 10 {
        push_digits(out, n / 10);
    }
    let ghost before = out@;
    let d: u8 = (n % 10) as u8;
    push_char(out, (('0' as u8) + d) as char);
    proof {
        if n >= 10 {
            assert(old(out)@ + digits_of((n / 10) as nat).push(digit_char((n % 10) as nat))
                == before.push(digit_char((n % 10) as nat)));
        } else {
            assert(old(out)@ + seq![digit_char(n as nat)] == old(out)@.push(digit_char(n as nat)));
        }
    }
}

/// Writes an integer in decimal.
pub fn format_integer(n: i64) -> (r: String)
    ensures
        r@ == decimal_text(n as int),
{
    let mut out = String::new();
    if n < 0 {
        push_char(&mut out, '-');
        let magnitude: u64 = ((-(n + 1)) as u64) + 1;
        push_digits(&mut out, magnitude);
    } else {
        push_digits(&mut out, n as u64);
        proof {
            assert(Seq::<char>::empty() + digits_of(n as nat) == digits_of(n as nat));
        }
    }
    out
}

} // verus!
