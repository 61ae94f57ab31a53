//! Numbers and truth values as text.

use vstd::prelude::*;

verus! {

/// The decimal digit of a number below ten.
pub open spec fn digit(n: nat) -> char {
    if n == 0 {
        '0'
    } else if n == 1 {
        '1'
    } else if n == 2 {
        '2'
    } else if n == 3 {
        '3'
    } else if n == 4 {
        '4'
    } else if n == 5 {
        '5'
    } else if n == 6 {
        '6'
    } else if n == 7 {
        '7'
    } else if n == 8 {
        '8'
    } else {
        '9'
    }
}

/// A number in decimal notation.
pub open spec fn decimal(n: nat) -> Seq<char>
    decreases n,
{
    if n < 10 {
        seq![digit(n)]
    } else {
        decimal(n / 10).push(digit(n % 10))
    }
}

/// The text of one decimal digit.
fn digit_text(n: u64) -> (text: &'static str)
    requires
        n < 10,
    ensures
        text@ == seq![digit(n as nat)],
{
    proof {
        reveal_strlit("0");
        reveal_strlit("1");
        reveal_strlit("2");
        reveal_strlit("3");
        reveal_strlit("4");
        reveal_strlit("5");
        reveal_strlit("6");
        reveal_strlit("7");
        reveal_strlit("8");
        reveal_strlit("9");
    }
    let text: &'static str = match n {
        0 => "0",
        1 => "1",
        2 => "2",
        3 => "3",
        4 => "4",
        5 => "5",
        6 => "6",
        7 => "7",
        8 => "8",
        _ => "9",
    };
    assert(text@ =~= seq![digit(n as nat)]);
    text
}

/// A number in decimal notation.
pub fn wide_decimal_text(n: u128) -> (text: String)
    ensures
        text@ == decimal(n as nat),
    decreases n,
{
    if n < 10 {
        digit_text(n as u64).to_owned()
    } else {
        let mut text: String = wide_decimal_text(n / 10);
        text.append(digit_text((n % 10) as u64));
        assert(text@ =~= decimal(n as nat));
        text
    }
}

/// A number in decimal notation.
pub fn decimal_text(n: u64) -> (text: String)
    ensures
        text@ == decimal(n as nat),
{
    wide_decimal_text(n as u128)
}

/// Appends a number in decimal notation.
pub fn append_number(text: &mut String, n: u64)
    ensures
        final(text)@ == old(text)@ + decimal(n as nat),
{
    text.append(decimal_text(n).as_str());
}

/// The lower-case hexadecimal digit of a number below sixteen.
pub open spec fn hex_digit(n: nat) -> char {
    if n < 10 {
        digit(n)
    } else if n == 10 {
        'a'
    } else if n == 11 {
        'b'
    } else if n == 12 {
        'c'
    } else if n == 13 {
        'd'
    } else if n == 14 {
        'e'
    } else {
        'f'
    }
}

/// A number in lower-case hexadecimal notation, without leading zeros.
pub open spec fn hex_numeral(n: nat) -> Seq<char>
    decreases n,
{
    if n < 16 {
        seq![hex_digit(n)]
    } else {
        hex_numeral(n / 16).push(hex_digit(n % 16))
    }
}

/// The text of one hexadecimal digit.
fn hex_digit_text(n: u64) -> (text: &'static str)
    requires
        n < 16,
    ensures
        text@ == seq![hex_digit(n as nat)],
{
    if n < 10 {
        return digit_text(n);
    }
    proof {
        reveal_strlit("a");
        reveal_strlit("b");
        reveal_strlit("c");
        reveal_strlit("d");
        reveal_strlit("e");
        reveal_strlit("f");
    }
    let text: &'static str = match n {
        10 => "a",
        11 => "b",
        12 => "c",
        13 => "d",
        14 => "e",
        _ => "f",
    };
    assert(text@ =~= seq![hex_digit(n as nat)]);
    text
}

/// A number in lower-case hexadecimal notation, without leading zeros.
pub fn hex_numeral_text(n: u64) -> (text: String)
    ensures
        text@ == hex_numeral(n as nat),
    decreases n,
{
    if n < 16 {
        hex_digit_text(n).to_owned()
    } else {
        let mut text: String = hex_numeral_text(n / 16);
        text.append(hex_digit_text(n % 16));
        assert(text@ =~= hex_numeral(n as nat));
        text
    }
}

/// The `width` last digits of a number in lower-case hexadecimal notation, with leading zeros.
pub open spec fn padded_hex(n: nat, width: nat) -> Seq<char>
    decreases width,
{
    if width == 0 {
        Seq::empty()
    } else {
        padded_hex(n / 16, (width - 1) as nat).push(hex_digit(n % 16))
    }
}

/// The `width` last digits of a number in lower-case hexadecimal notation, with leading zeros.
pub fn padded_hex_text(n: u64, width: u64) -> (text: String)
    ensures
        text@ == padded_hex(n as nat, width as nat),
    decreases width,
{
    if width == 0 {
        let text: String = String::new();
        assert(text@ =~= Seq::empty());
        text
    } else {
        let mut text: String = padded_hex_text(n / 16, width - 1);
        text.append(hex_digit_text(n % 16));
        assert(text@ =~= padded_hex(n as nat, width as nat));
        text
    }
}

/// A service's ID as people write it: eight hexadecimal digits.
pub open spec fn service_id_chars(service_id: u32) -> Seq<char> {
    padded_hex(service_id as nat, 8)
}

/// A service's ID as people write it: eight hexadecimal digits.
pub fn service_id_text(service_id: u32) -> (text: String)
    ensures
        text@ == service_id_chars(service_id),
{
    padded_hex_text(service_id as u64, 8)
}

/// A truth value as text.
pub open spec fn truth(value: bool) -> Seq<char> {
    if value {
        "true"@
    } else {
        "false"@
    }
}

/// A truth value as text.
pub fn truth_text(value: bool) -> (text: &'static str)
    ensures
        text@ == truth(value),
{
    if value {
        "true"
    } else {
        "false"
    }
}

/// The views of some texts.
pub open spec fn text_views(texts: Seq<String>) -> Seq<Seq<char>> {
    Seq::new(texts.len(), |i: int| texts[i]@)
}

/// Some lines as one text, with a line break between any two.
pub open spec fn joined(lines: Seq<Seq<char>>) -> Seq<char>
    decreases lines.len(),
{
    if lines.len() == 0 {
        Seq::empty()
    } else if lines.len() == 1 {
        lines[0]
    } else {
        joined(lines.drop_last()) + "\n"@ + lines.last()
    }
}

/// Some lines as one text, with a line break between any two.
pub fn join_lines(lines: &Vec<String>) -> (text: String)
    ensures
        text@ == joined(text_views(lines@)),
{
    let ghost views = text_views(lines@);
    if lines.len() == 0 {
        let text: String = String::new();
        assert(text@ =~= joined(views));
        return text;
    }
    let mut text: String = lines[0].clone();
    let mut i: usize = 1;
    assert(views.take(1) =~= seq![lines@[0]@]);
    while i < lines.len()
        invariant
            1 <= i <= lines@.len(),
            views == text_views(lines@),
            text@ == joined(views.take(i as int)),
        decreases lines@.len() - i,
    {
        assert(views.take(i + 1).drop_last() =~= views.take(i as int));
        text.append("\n");
        text.append(lines[i].as_str());
        i += 1;
    }
    assert(views.take(lines@.len() as int) =~= views);
    text
}

/// One byte per character: the bytes of a text of ASCII characters.
pub open spec fn ascii_bytes(text: Seq<char>) -> Seq<u8> {
    Seq::new(text.len(), |i: int| text[i] as u8)
}

} // verus!
