//! What holds of numbers, words and commands: what a text spells, and what a line asks for.

use crate::text::{decimal, digit, hex_numeral, padded_hex, service_id_chars};
use crate::words::{digit_value, digits_value, hex_digit_value, hex_digits_value, hex_number,
    is_white, trimmed, whole_number, words, NumberFault};
use vstd::prelude::*;

verus! {

// ---------------------------------------------------------------------------------------------
// Numbers

/// What a digit of either notation counts for.
pub open spec fn counts_for(c: char) -> nat {
    if c <= '9' {
        (c as u32 - 48) as nat
    } else if c <= 'F' {
        (c as u32 - 55) as nat
    } else {
        (c as u32 - 87) as nat
    }
}

/// The number that some digits spell in a base, the most significant one first.
pub open spec fn spelled(digits: Seq<char>, base: nat) -> nat
    decreases digits.len(),
{
    if digits.len() == 0 {
        0
    } else {
        base * spelled(digits.drop_last(), base) + counts_for(digits.last())
    }
}

/// Whether a text holds nothing but decimal digits.
pub open spec fn all_decimal(text: Seq<char>) -> bool {
    forall|i: int| 0 <= i < text.len() ==> '0' <= #[trigger] text[i] <= '9'
}

/// Whether a text holds nothing but lower-case hexadecimal digits.
pub open spec fn all_lower_hex(text: Seq<char>) -> bool {
    forall|i: int|
        0 <= i < text.len() ==> '0' <= #[trigger] text[i] <= '9' || 'a' <= text[i] <= 'f'
}

/// Whether a text holds nothing but hexadecimal digits of either case.
pub open spec fn all_hex(text: Seq<char>) -> bool {
    forall|i: int|
        0 <= i < text.len() ==> '0' <= #[trigger] text[i] <= '9' || 'a' <= text[i] <= 'f' || 'A'
            <= text[i] <= 'F'
}

/// The decimal notation of a number is made of digits that spell it, without a leading zero.
pub proof fn decimal_notation_spells(n: nat)
    ensures
        all_decimal(decimal(n)),
        spelled(decimal(n), 10) == n,
        decimal(n).len() > 0,
        decimal(n).len() > 1 ==> decimal(n)[0] != '0',
        n > 0 ==> decimal(n)[0] != '0',
    decreases n,
{
    if n < 10 {
        assert(decimal(n).drop_last() =~= Seq::empty());
        assert(spelled(decimal(n).drop_last(), 10) == 0);
    } else {
        decimal_notation_spells(n / 10);
        assert(decimal(n).drop_last() =~= decimal(n / 10));
        assert forall|i: int| 0 <= i < decimal(n).len() implies '0' <= #[trigger] decimal(n)[i]
            <= '9' by {
            if i < decimal(n / 10).len() {
                assert(decimal(n)[i] == decimal(n / 10)[i]);
            }
        }
    }
}

/// No two numbers have the same decimal notation.
pub proof fn decimal_notation_tells_apart(a: nat, b: nat)
    requires
        decimal(a) == decimal(b),
    ensures
        a == b,
{
    decimal_notation_spells(a);
    decimal_notation_spells(b);
}

/// The hexadecimal notation of a number is made of lower-case digits that spell it, without a
/// leading zero.
pub proof fn hexadecimal_notation_spells(n: nat)
    ensures
        all_lower_hex(hex_numeral(n)),
        spelled(hex_numeral(n), 16) == n,
        hex_numeral(n).len() > 0,
        n > 0 ==> hex_numeral(n)[0] != '0',
    decreases n,
{
    if n < 16 {
        assert(hex_numeral(n).drop_last() =~= Seq::empty());
        assert(spelled(hex_numeral(n).drop_last(), 16) == 0);
    } else {
        hexadecimal_notation_spells(n / 16);
        assert(hex_numeral(n).drop_last() =~= hex_numeral(n / 16));
        assert forall|i: int| 0 <= i < hex_numeral(n).len() implies '0'
            <= #[trigger] hex_numeral(n)[i] <= '9' || 'a' <= hex_numeral(n)[i] <= 'f' by {
            if i < hex_numeral(n / 16).len() {
                assert(hex_numeral(n)[i] == hex_numeral(n / 16)[i]);
            }
        }
    }
}

/// `16` to the power of `width`.
pub open spec fn sixteens(width: nat) -> nat
    decreases width,
{
    if width == 0 {
        1
    } else {
        16 * sixteens((width - 1) as nat)
    }
}

/// The hexadecimal notation of a number in a given width has that width and is made of lower-case
/// digits, which spell the number where it fits.
pub proof fn padded_notation_spells(n: nat, width: nat)
    ensures
        padded_hex(n, width).len() == width,
        all_lower_hex(padded_hex(n, width)),
        n < sixteens(width) ==> spelled(padded_hex(n, width), 16) == n,
    decreases width,
{
    if width > 0 {
        let shorter = padded_hex(n / 16, (width - 1) as nat);
        padded_notation_spells(n / 16, (width - 1) as nat);
        assert(padded_hex(n, width).drop_last() =~= shorter);
        assert forall|i: int| 0 <= i < padded_hex(n, width).len() implies '0'
            <= #[trigger] padded_hex(n, width)[i] <= '9' || 'a' <= padded_hex(n, width)[i]
            <= 'f' by {
            if i < shorter.len() {
                assert(padded_hex(n, width)[i] == shorter[i]);
            }
        }
    }
}

/// A service's ID is shown as eight lower-case hexadecimal digits that spell it.
pub proof fn service_ids_are_spelled(id: u32)
    ensures
        service_id_chars(id).len() == 8,
        all_lower_hex(service_id_chars(id)),
        spelled(service_id_chars(id), 16) == id,
{
    padded_notation_spells(id as nat, 8);
    reveal_with_fuel(sixteens, 9);
}

/// Whether a text spells a number in decimal notation, with or without a plus sign.
pub open spec fn reads(text: Seq<char>, n: nat) -> bool {
    let digits = if text.len() > 0 && text[0] == '+' {
        text.skip(1)
    } else {
        text
    };
    digits.len() > 0 && all_decimal(digits) && spelled(digits, 10) == n
}

/// What some digits are worth is what they spell.
proof fn lemma_digits_value(digits: Seq<char>)
    ensures
        digits_value(digits) == (if all_decimal(digits) {
            Some(spelled(digits, 10))
        } else {
            None
        }),
    decreases digits.len(),
{
    if digits.len() > 0 {
        let rest = digits.drop_last();
        lemma_digits_value(rest);
        if all_decimal(digits) {
            assert forall|i: int| 0 <= i < rest.len() implies '0' <= #[trigger] rest[i] <= '9' by {
                assert(rest[i] == digits[i]);
            }
            assert('0' <= digits[digits.len() - 1] <= '9');
        } else if all_decimal(rest) {
            assert forall|i: int| 0 <= i < digits.len() && digit_value(digits.last())
                is Some implies '0' <= #[trigger] digits[i] <= '9' by {
                if i < rest.len() {
                    assert(rest[i] == digits[i]);
                }
            }
        }
    }
}

/// A number is read from the texts that spell it, where it is not too large, and from no others.
pub proof fn numbers_are_read_as_spelled(text: Seq<char>, max: nat, n: nat)
    ensures
        whole_number(text, max) == Some(n) <==> reads(text, n) && n <= max,
        whole_number(text, max) is None <==> !exists|m: nat| m <= max && #[trigger] reads(text, m),
{
    let digits = if text.len() > 0 && text[0] == '+' {
        text.skip(1)
    } else {
        text
    };
    lemma_digits_value(digits);
    if whole_number(text, max) is Some {
        let m = whole_number(text, max)->0;
        assert(reads(text, m));
    }
}

/// The number that was written in decimal notation is read back.
pub proof fn written_numbers_are_read_back(n: nat, max: nat)
    requires
        n <= max,
    ensures
        reads(decimal(n), n),
        whole_number(decimal(n), max) == Some(n),
{
    decimal_notation_spells(n);
    numbers_are_read_as_spelled(decimal(n), max, n);
}

/// Whether a text spells a number in hexadecimal notation, with or without a plus sign.
pub open spec fn reads_hex(text: Seq<char>, n: nat) -> bool {
    let digits = if text.len() > 0 && text[0] == '+' {
        text.skip(1)
    } else {
        text
    };
    digits.len() > 0 && all_hex(digits) && spelled(digits, 16) == n
}

/// What some hexadecimal digits are worth is what they spell.
proof fn lemma_hex_digits_value(digits: Seq<char>)
    ensures
        all_hex(digits) ==> hex_digits_value(digits) == (if spelled(digits, 16) <= u32::MAX {
            Ok::<u32, NumberFault>(spelled(digits, 16) as u32)
        } else {
            Err(NumberFault::TooLarge)
        }),
        !all_hex(digits) ==> hex_digits_value(digits) is Err,
    decreases digits.len(),
{
    if digits.len() > 0 {
        let rest = digits.drop_last();
        lemma_hex_digits_value(rest);
        if all_hex(digits) {
            assert forall|i: int| 0 <= i < rest.len() implies '0' <= #[trigger] rest[i] <= '9'
                || 'a' <= rest[i] <= 'f' || 'A' <= rest[i] <= 'F' by {
                assert(rest[i] == digits[i]);
            }
            let c = digits[digits.len() - 1];
            assert('0' <= c <= '9' || 'a' <= c <= 'f' || 'A' <= c <= 'F');
        } else if all_hex(rest) {
            assert forall|i: int| 0 <= i < digits.len() && hex_digit_value(digits.last())
                is Some implies '0' <= #[trigger] digits[i] <= '9' || 'a' <= digits[i] <= 'f'
                || 'A' <= digits[i] <= 'F' by {
                if i < rest.len() {
                    assert(rest[i] == digits[i]);
                }
            }
        }
    }
}

/// A hexadecimal number is read from the texts that spell it in 32 bits, and from no others; one
/// that spells a larger number is too large.
pub proof fn hexadecimal_numbers_are_read_as_spelled(text: Seq<char>, n: nat)
    ensures
        (hex_number(text) matches Ok(found) && found == n) <==> reads_hex(text, n) && n <= u32::MAX,
        reads_hex(text, n) && n > u32::MAX ==> hex_number(text) == Err::<u32, NumberFault>(
            NumberFault::TooLarge,
        ),
{
    let digits = if text.len() > 0 && text[0] == '+' {
        text.skip(1)
    } else {
        text
    };
    lemma_hex_digits_value(digits);
}

// ---------------------------------------------------------------------------------------------
// Words

/// Words are parted by the 25 characters that Unicode counts as white space, and by no others.
pub proof fn white_space_is_that_of_unicode(c: char)
    ensures
        is_white(c) <==> {
            let code = c as u32;
            ||| code == 9 || code == 10 || code == 11 || code == 12 || code == 13 || code == 32
            ||| code == 133 || code == 160 || code == 5760 || code == 8192 || code == 8193
            ||| code == 8194 || code == 8195 || code == 8196 || code == 8197 || code == 8198
            ||| code == 8199 || code == 8200 || code == 8201 || code == 8202 || code == 8232
            ||| code == 8233 || code == 8239 || code == 8287 || code == 12288
        },
        '!' <= c <= '~' ==> !is_white(c),
{
}

/// Whether a text holds no white space.
pub open spec fn unbroken(text: Seq<char>) -> bool {
    forall|i: int| 0 <= i < text.len() ==> !is_white(#[trigger] text[i])
}

/// Whether a text holds nothing but white space.
pub open spec fn blank(text: Seq<char>) -> bool {
    forall|i: int| 0 <= i < text.len() ==> is_white(#[trigger] text[i])
}

/// A text that ends in the middle of a word has a word.
proof fn lemma_some_word(text: Seq<char>)
    requires
        text.len() > 0,
        !is_white(text.last()),
    ensures
        words(text).len() > 0,
{
    if text.len() >= 2 && !is_white(text[text.len() - 2]) {
        assert(text.drop_last().last() == text[text.len() - 2]);
    }
}

/// White space parts the words before it from those after it.
pub proof fn white_space_parts_words(before: Seq<char>, white: char, after: Seq<char>)
    requires
        is_white(white),
    ensures
        words(before.push(white) + after) == words(before) + words(after),
    decreases after.len(),
{
    let text = before.push(white) + after;
    if after.len() == 0 {
        assert(text =~= before.push(white));
        assert(text.drop_last() =~= before);
        assert(words(before) + words(after) =~= words(before));
    } else {
        let shorter = after.drop_last();
        white_space_parts_words(before, white, shorter);
        assert(text.drop_last() =~= before.push(white) + shorter);
        let c = after.last();
        if is_white(c) {
        } else if after.len() >= 2 && !is_white(after[after.len() - 2]) {
            lemma_some_word(shorter);
            assert(text[text.len() - 2] == after[after.len() - 2]);
            let done = words(before) + words(shorter);
            assert(done.drop_last().push(done.last().push(c)) =~= words(before) + words(
                shorter,
            ).drop_last().push(words(shorter).last().push(c)));
        } else {
            if after.len() >= 2 {
                assert(text[text.len() - 2] == after[after.len() - 2]);
            } else {
                assert(text[text.len() - 2] == white);
            }
            assert((words(before) + words(shorter)).push(seq![c]) =~= words(before) + words(
                shorter,
            ).push(seq![c]));
        }
    }
}

/// A text without white space is one word, unless it is empty.
pub proof fn unbroken_text_is_one_word(text: Seq<char>)
    requires
        unbroken(text),
        text.len() > 0,
    ensures
        words(text) == seq![text],
    decreases text.len(),
{
    let shorter = text.drop_last();
    assert(!is_white(text[text.len() - 1]));
    if shorter.len() == 0 {
        assert(shorter =~= Seq::empty());
        assert(words(shorter) =~= Seq::empty());
        assert(text =~= seq![text.last()]);
        assert(words(text) =~= seq![text]);
    } else {
        assert(unbroken(shorter)) by {
            assert forall|i: int| 0 <= i < shorter.len() implies !is_white(
                #[trigger] shorter[i],
            ) by {
                assert(shorter[i] == text[i]);
            }
        }
        unbroken_text_is_one_word(shorter);
        assert(!is_white(text[text.len() - 2]));
        assert(shorter.push(text.last()) =~= text);
        assert(words(text) =~= seq![text]);
    }
}

/// Blank text has no words.
pub proof fn blank_text_has_no_words(text: Seq<char>)
    requires
        blank(text),
    ensures
        words(text).len() == 0,
    decreases text.len(),
{
    if text.len() > 0 {
        let shorter = text.drop_last();
        assert(is_white(text[text.len() - 1]));
        assert forall|i: int| 0 <= i < shorter.len() implies is_white(#[trigger] shorter[i]) by {
            assert(shorter[i] == text[i]);
        }
        blank_text_has_no_words(shorter);
    }
}

/// Some words as a line, with a space between any two.
pub open spec fn spaced(parts: Seq<Seq<char>>) -> Seq<char>
    decreases parts.len(),
{
    if parts.len() == 0 {
        Seq::empty()
    } else if parts.len() == 1 {
        parts[0]
    } else {
        spaced(parts.drop_last()).push(' ') + parts.last()
    }
}

/// Whether every one of some texts is a word.
pub open spec fn all_words(parts: Seq<Seq<char>>) -> bool {
    forall|i: int| 0 <= i < parts.len() ==> (#[trigger] parts[i]).len() > 0 && unbroken(parts[i])
}

/// A line of words with spaces between them has just those words.
pub proof fn spaced_words_are_found(parts: Seq<Seq<char>>)
    requires
        all_words(parts),
    ensures
        words(spaced(parts)) == parts,
    decreases parts.len(),
{
    if parts.len() == 0 {
        assert(words(spaced(parts)) =~= parts);
    } else {
        let last = parts[parts.len() - 1];
        unbroken_text_is_one_word(last);
        if parts.len() == 1 {
            assert(seq![last] =~= parts);
        } else {
            let rest = parts.drop_last();
            assert(all_words(rest)) by {
                assert forall|i: int| 0 <= i < rest.len() implies (#[trigger] rest[i]).len() > 0
                    && unbroken(rest[i]) by {
                    assert(rest[i] == parts[i]);
                }
            }
            spaced_words_are_found(rest);
            white_space_parts_words(spaced(rest), ' ', last);
            assert(rest + seq![last] =~= parts);
        }
    }
}

/// White space at the ends of a text is taken off, and nothing else.
pub proof fn trimming_takes_white_ends(left: Seq<char>, inner: Seq<char>, right: Seq<char>)
    requires
        blank(left),
        blank(right),
        inner.len() > 0 ==> !is_white(inner[0]) && !is_white(inner.last()),
    ensures
        trimmed(left + inner + right) == inner,
    decreases left.len() + right.len(),
{
    let text = left + inner + right;
    if left.len() > 0 {
        let rest = left.drop_first();
        assert(is_white(left[0]));
        assert(text[0] == left[0]);
        assert(text.drop_first() =~= rest + inner + right);
        assert forall|i: int| 0 <= i < rest.len() implies is_white(#[trigger] rest[i]) by {
            assert(rest[i] == left[i + 1]);
        }
        trimming_takes_white_ends(rest, inner, right);
    } else if right.len() > 0 {
        let rest = right.drop_last();
        assert(is_white(right[right.len() - 1]));
        assert(text.last() == right.last());
        assert forall|i: int| 0 <= i < rest.len() implies is_white(#[trigger] rest[i]) by {
            assert(rest[i] == right[i]);
        }
        if inner.len() == 0 {
            assert(text =~= right);
            let shorter = right.drop_first();
            assert(is_white(right[0]));
            assert forall|i: int| 0 <= i < shorter.len() implies is_white(
                #[trigger] shorter[i],
            ) by {
                assert(shorter[i] == right[i + 1]);
            }
            trimming_takes_white_ends(left, inner, shorter);
            assert(left + inner + shorter =~= shorter);
        } else {
            assert(text[0] == inner[0]);
            assert(text.drop_last() =~= left + inner + rest);
            trimming_takes_white_ends(left, inner, rest);
        }
    } else {
        assert(text =~= inner);
    }
}

} // verus!
