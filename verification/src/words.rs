//! Reading what people type: words and numbers.

use crate::text::text_views;
use vstd::prelude::*;

verus! {

/// Whether a character is white space.
pub open spec fn is_white(c: char) -> bool {
    ||| '\u{9}' <= c <= '\u{d}'
    ||| c == '\u{20}'
    ||| c == '\u{85}'
    ||| c == '\u{a0}'
    ||| c == '\u{1680}'
    ||| '\u{2000}' <= c <= '\u{200a}'
    ||| c == '\u{2028}'
    ||| c == '\u{2029}'
    ||| c == '\u{202f}'
    ||| c == '\u{205f}'
    ||| c == '\u{3000}'
}

/// Tells whether a character is white space.
pub fn white(c: char) -> (yes: bool)
    ensures
        yes == is_white(c),
{
    ('\u{9}' <= c && c <= '\u{d}') || c == '\u{20}' || c == '\u{85}' || c == '\u{a0}' || c
        == '\u{1680}' || ('\u{2000}' <= c && c <= '\u{200a}') || c == '\u{2028}' || c == '\u{2029}'
        || c == '\u{202f}' || c == '\u{205f}' || c == '\u{3000}'
}

/// The characters of a text.
pub fn chars_of(text: &str) -> (chars: Vec<char>)
    ensures
        chars@ == text@,
{
    let mut chars: Vec<char> = Vec::new();
    for c in it: text.chars()
        invariant
            chars@ == it.seq().take(it.index() as int),
            it.seq() == text@,
    {
        chars.push(c);
        assert(chars@ =~= it.seq().take(it.index() + 1));
    }
    assert(chars@ =~= text@);
    chars
}

/// The words of a text: its longest runs of characters that are not white space, in order.
pub open spec fn words(text: Seq<char>) -> Seq<Seq<char>>
    decreases text.len(),
{
    if text.len() == 0 {
        Seq::empty()
    } else {
        let before = words(text.drop_last());
        let c = text.last();
        if is_white(c) {
            before
        } else if text.len() >= 2 && !is_white(text[text.len() - 2]) {
            before.drop_last().push(before.last().push(c))
        } else {
            before.push(seq![c])
        }
    }
}

/// The words of a text whose last word, from `start` on, is not over yet.
proof fn lemma_open_word(text: Seq<char>, start: int)
    requires
        0 <= start < text.len(),
        start > 0 ==> is_white(text[start - 1]),
        forall|i: int| start <= i < text.len() ==> !is_white(#[trigger] text[i]),
    ensures
        words(text) == words(text.take(start)).push(text.skip(start)),
    decreases text.len(),
{
    let shorter = text.drop_last();
    assert(!is_white(text.last()));
    if start == text.len() - 1 {
        assert(shorter =~= text.take(start));
        assert(text.skip(start) =~= seq![text.last()]);
    } else {
        lemma_open_word(shorter, start);
        assert(shorter.take(start) =~= text.take(start));
        assert(!is_white(text[text.len() - 2]));
        let done = words(text.take(start));
        assert(words(shorter).drop_last() =~= done);
        assert(shorter.skip(start).push(text.last()) =~= text.skip(start));
    }
}

/// Splits a text into its words.
pub fn split_words(text: &str) -> (found: Vec<String>)
    ensures
        text_views(found@) == words(text@),
{
    let chars: Vec<char> = chars_of(text);
    let mut found: Vec<String> = Vec::new();
    let mut start: usize = 0;
    let mut i: usize = 0;
    assert(text_views(found@) =~= words(text@.take(0)));
    while i < chars.len()
        invariant
            chars@ == text@,
            start <= i <= chars@.len(),
            start > 0 ==> is_white(text@[start - 1]),
            forall|k: int| start <= k < i ==> !is_white(#[trigger] text@[k]),
            text_views(found@) == words(text@.take(start as int)),
        decreases chars@.len() - i,
    {
        let ghost head = text@.take(i as int);
        let ghost longer = text@.take(i + 1);
        assert(longer.drop_last() =~= head);
        if white(chars[i]) {
            let ghost before = text_views(found@);
            if start < i {
                let word: String = text.substring_char(start, i).to_owned();
                found.push(word);
                proof {
                    lemma_open_word(head, start as int);
                    assert(head.take(start as int) =~= text@.take(start as int));
                    assert(head.skip(start as int) =~= word@);
                    assert(text_views(found@) =~= before.push(word@));
                }
            }
            start = i + 1;
            assert(words(longer) == words(head));
        }
        i += 1;
    }
    let ghost before = text_views(found@);
    assert(text@.take(text@.len() as int) =~= text@);
    if start < chars.len() {
        let word: String = text.substring_char(start, chars.len()).to_owned();
        found.push(word);
        proof {
            lemma_open_word(text@, start as int);
            assert(text@.skip(start as int) =~= word@);
            assert(text_views(found@) =~= before.push(word@));
        }
    }
    found
}

/// Tells whether two texts are the same.
pub fn same_text(a: &str, b: &str) -> (same: bool)
    ensures
        same == (a@ == b@),
{
    let left: Vec<char> = chars_of(a);
    let right: Vec<char> = chars_of(b);
    if left.len() != right.len() {
        return false;
    }
    let mut i: usize = 0;
    while i < left.len()
        invariant
            left@ == a@,
            right@ == b@,
            left@.len() == right@.len(),
            i <= left@.len(),
            forall|k: int| 0 <= k < i ==> left@[k] == right@[k],
        decreases left@.len() - i,
    {
        if left[i] != right[i] {
            return false;
        }
        i += 1;
    }
    assert(left@ =~= right@);
    true
}

/// A character, in lower case if it is an ASCII letter.
pub open spec fn lower(c: char) -> char {
    if 'A' <= c <= 'Z' {
        (c as u32 + 32) as char
    } else {
        c
    }
}

/// Tells whether a text reads the same as another but for the case of its ASCII letters. The other
/// is in lower case.
pub fn same_but_for_case(text: &str, lower_case: &str) -> (same: bool)
    ensures
        same == (text@.map_values(|c: char| lower(c)) == lower_case@),
{
    let left: Vec<char> = chars_of(text);
    let right: Vec<char> = chars_of(lower_case);
    let ghost lowered = text@.map_values(|c: char| lower(c));
    if left.len() != right.len() {
        return false;
    }
    let mut i: usize = 0;
    while i < left.len()
        invariant
            left@ == text@,
            right@ == lower_case@,
            lowered == text@.map_values(|c: char| lower(c)),
            left@.len() == right@.len(),
            i <= left@.len(),
            forall|k: int| 0 <= k < i ==> lowered[k] == right@[k],
        decreases left@.len() - i,
    {
        let c: char = left[i];
        let small: char = if 'A' <= c && c <= 'Z' {
            (c as u8 + 32) as char
        } else {
            c
        };
        assert(lowered[i as int] == small);
        if small != right[i] {
            return false;
        }
        i += 1;
    }
    assert(lowered =~= right@);
    true
}

/// A text without the white space at its ends.
pub open spec fn trimmed(text: Seq<char>) -> Seq<char>
    decreases text.len(),
{
    if text.len() == 0 {
        text
    } else if is_white(text[0]) {
        trimmed(text.drop_first())
    } else if is_white(text.last()) {
        trimmed(text.drop_last())
    } else {
        text
    }
}

/// Takes the white space off the ends of a text.
pub fn trim(text: &str) -> (inner: &str)
    ensures
        inner@ == trimmed(text@),
{
    let chars: Vec<char> = chars_of(text);
    let mut from: usize = 0;
    let mut to: usize = chars.len();
    assert(text@.subrange(0, to as int) =~= text@);
    while from < to && white(chars[from])
        invariant
            chars@ == text@,
            from <= to == chars@.len(),
            trimmed(text@) == trimmed(text@.subrange(from as int, to as int)),
        decreases to - from,
    {
        let ghost rest = text@.subrange(from as int, to as int);
        assert(rest.drop_first() =~= text@.subrange(from + 1, to as int));
        from += 1;
    }
    while from < to && white(chars[to - 1])
        invariant
            chars@ == text@,
            from <= to <= chars@.len(),
            from < to ==> !is_white(text@[from as int]),
            trimmed(text@) == trimmed(text@.subrange(from as int, to as int)),
        decreases to - from,
    {
        let ghost rest = text@.subrange(from as int, to as int);
        assert(rest.drop_last() =~= text@.subrange(from as int, to - 1));
        to -= 1;
    }
    text.substring_char(from, to)
}

/// The value of a decimal digit.
pub open spec fn digit_value(c: char) -> Option<nat> {
    if '0' <= c <= '9' {
        Some((c as u32 - '0' as u32) as nat)
    } else {
        None
    }
}

/// The number that some decimal digits spell; nothing where one is no digit.
pub open spec fn digits_value(digits: Seq<char>) -> Option<nat>
    decreases digits.len(),
{
    if digits.len() == 0 {
        Some(0)
    } else {
        match (digits_value(digits.drop_last()), digit_value(digits.last())) {
            (Some(high), Some(low)) => Some(10 * high + low),
            _ => None,
        }
    }
}

/// A text without the plus sign that it may start with.
pub open spec fn without_plus(text: Seq<char>) -> Seq<char> {
    if text.len() > 0 && text[0] == '+' {
        text.skip(1)
    } else {
        text
    }
}

/// The number up to `max` that a text spells in decimal notation, with or without a plus sign.
pub open spec fn whole_number(text: Seq<char>, max: nat) -> Option<nat> {
    let digits = without_plus(text);
    match digits_value(digits) {
        Some(n) => if digits.len() > 0 && n <= max {
            Some(n)
        } else {
            None
        },
        None => None,
    }
}

/// More digits spell no smaller number.
proof fn lemma_digits_grow(digits: Seq<char>, count: int)
    requires
        0 <= count <= digits.len(),
    ensures
        digits_value(digits) matches Some(n) ==> (digits_value(digits.take(count)) matches Some(m)
            && m <= n),
    decreases digits.len() - count,
{
    if count == digits.len() {
        assert(digits.take(count) =~= digits);
    } else {
        lemma_digits_grow(digits, count + 1);
        assert(digits.take(count + 1).drop_last() =~= digits.take(count));
    }
}

/// Reads a number up to `max` in decimal notation, with or without a plus sign.
pub fn parse_number(text: &str, max: u64) -> (result: Option<u64>)
    ensures
        match whole_number(text@, max as nat) {
            Some(n) => result matches Some(found) && found == n,
            None => result is None,
        },
{
    let chars: Vec<char> = chars_of(text);
    let first: usize = if chars.len() > 0 && chars[0] == '+' {
        1
    } else {
        0
    };
    let ghost digits = without_plus(text@);
    assert(digits =~= text@.skip(first as int));
    if chars.len() == first {
        return None;
    }
    let mut n: u64 = 0;
    let mut i: usize = first;
    while i < chars.len()
        invariant
            chars@ == text@,
            first <= i <= chars@.len(),
            digits == without_plus(text@),
            digits == text@.skip(first as int),
            n <= max,
            digits_value(digits.take(i - first)) == Some(n as nat),
        decreases chars@.len() - i,
    {
        let c: char = chars[i];
        let ghost longer = digits.take(i - first + 1);
        proof {
            assert(longer.drop_last() =~= digits.take(i - first));
            assert(longer.last() == c);
            lemma_digits_grow(digits, i - first + 1);
        }
        if !('0' <= c && c <= '9') {
            return None;
        }
        let low: u64 = (c as u32 - '0' as u32) as u64;
        if n > max / 10 || low > max - n * 10 {
            return None;
        }
        n = n * 10 + low;
        i += 1;
    }
    assert(digits.take(digits.len() as int) =~= digits);
    Some(n)
}

/// What is wrong with a number.
#[derive(Debug)]
pub enum NumberFault {
    /// A character that is no digit, or no digit at all.
    InvalidDigit,
    /// A number that is too large.
    TooLarge,
}

/// What is said of a number that cannot be read.
pub open spec fn number_fault_text(fault: NumberFault) -> Seq<char> {
    match fault {
        NumberFault::InvalidDigit => "invalid digit found in string"@,
        NumberFault::TooLarge => "number too large to fit in target type"@,
    }
}

/// The value of a hexadecimal digit of either case.
pub open spec fn hex_digit_value(c: char) -> Option<nat> {
    if '0' <= c <= '9' {
        Some((c as u32 - '0' as u32) as nat)
    } else if 'a' <= c <= 'f' {
        Some((c as u32 - 'a' as u32 + 10) as nat)
    } else if 'A' <= c <= 'F' {
        Some((c as u32 - 'A' as u32 + 10) as nat)
    } else {
        None
    }
}

/// The 32-bit number that hexadecimal digits spell, or what is wrong with the first that does not
/// go on one.
pub open spec fn hex_digits_value(digits: Seq<char>) -> Result<u32, NumberFault>
    decreases digits.len(),
{
    if digits.len() == 0 {
        Ok(0)
    } else {
        match hex_digits_value(digits.drop_last()) {
            Err(fault) => Err(fault),
            Ok(high) => match hex_digit_value(digits.last()) {
                None => Err(NumberFault::InvalidDigit),
                Some(low) => if 16 * high + low > u32::MAX {
                    Err(NumberFault::TooLarge)
                } else {
                    Ok((16 * high + low) as u32)
                },
            },
        }
    }
}

/// The 32-bit number that a text spells in hexadecimal notation, with or without a plus sign.
pub open spec fn hex_number(text: Seq<char>) -> Result<u32, NumberFault> {
    let digits = without_plus(text);
    if digits.len() == 0 {
        Err(NumberFault::InvalidDigit)
    } else {
        hex_digits_value(digits)
    }
}

/// What is wrong with the beginning of a number is wrong with the number.
proof fn lemma_fault_stays(digits: Seq<char>, count: int)
    requires
        0 <= count <= digits.len(),
        hex_digits_value(digits.take(count)) is Err,
    ensures
        hex_digits_value(digits) == hex_digits_value(digits.take(count)),
    decreases digits.len() - count,
{
    if count == digits.len() {
        assert(digits.take(count) =~= digits);
    } else {
        assert(digits.take(count + 1).drop_last() =~= digits.take(count));
        lemma_fault_stays(digits, count + 1);
    }
}

/// Reads a hexadecimal digit of either case.
fn read_hex_digit(c: char) -> (value: Option<u32>)
    ensures
        match hex_digit_value(c) {
            Some(n) => value matches Some(found) && found == n,
            None => value is None,
        },
{
    if '0' <= c && c <= '9' {
        Some(c as u32 - '0' as u32)
    } else if 'a' <= c && c <= 'f' {
        Some(c as u32 - 'a' as u32 + 10)
    } else if 'A' <= c && c <= 'F' {
        Some(c as u32 - 'A' as u32 + 10)
    } else {
        None
    }
}

/// Reads a 32-bit number in hexadecimal notation, with or without a plus sign.
pub fn parse_hex_number(text: &str) -> (result: Result<u32, NumberFault>)
    ensures
        result == hex_number(text@),
{
    let chars: Vec<char> = chars_of(text);
    let first: usize = if chars.len() > 0 && chars[0] == '+' {
        1
    } else {
        0
    };
    let ghost digits = without_plus(text@);
    assert(digits =~= text@.skip(first as int));
    if chars.len() == first {
        return Err(NumberFault::InvalidDigit);
    }
    let mut n: u32 = 0;
    let mut i: usize = first;
    while i < chars.len()
        invariant
            chars@ == text@,
            first <= i <= chars@.len(),
            digits.len() > 0,
            digits == without_plus(text@),
            digits == text@.skip(first as int),
            hex_digits_value(digits.take(i - first)) == Ok::<u32, NumberFault>(n),
        decreases chars@.len() - i,
    {
        let ghost longer = digits.take(i - first + 1);
        assert(longer.drop_last() =~= digits.take(i - first));
        assert(longer.last() == chars@[i as int]);
        match read_hex_digit(chars[i]) {
            None => {
                proof {
                    lemma_fault_stays(digits, i - first + 1);
                }
                return Err(NumberFault::InvalidDigit);
            },
            Some(low) => {
                let next: u64 = n as u64 * 16 + low as u64;
                if next > u32::MAX as u64 {
                    proof {
                        lemma_fault_stays(digits, i - first + 1);
                    }
                    return Err(NumberFault::TooLarge);
                }
                n = next as u32;
            },
        }
        i += 1;
    }
    assert(digits.take(digits.len() as int) =~= digits);
    Ok(n)
}

} // verus!
