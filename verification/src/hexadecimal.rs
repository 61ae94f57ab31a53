//! Hexadecimal notation of byte strings.

use crate::text::{ascii_bytes, decimal, decimal_text, hex_digit};
use vstd::prelude::*;
use vstd::utf8::{encode_utf8, is_ascii_chars, is_ascii_chars_encode_utf8};

verus! {

/// Why a text is not the hexadecimal notation of a number of bytes.
#[derive(Debug)]
pub enum HexFault {
    /// The text has an odd number of bytes.
    OddLength,
    /// The text has the wrong number of bytes.
    InvalidStringLength,
    /// The text holds something else than a hexadecimal digit.
    InvalidHexCharacter { c: char, index: usize },
}

/// The lower-case hexadecimal notation of `bytes`, two digits for each.
pub open spec fn hex_text(bytes: Seq<u8>) -> Seq<char> {
    Seq::new(
        2 * bytes.len(),
        |i: int|
            if i % 2 == 0 {
                hex_digit((bytes[i / 2] / 16) as nat)
            } else {
                hex_digit((bytes[i / 2] % 16) as nat)
            },
    )
}

/// Whether a byte is a hexadecimal digit of either case.
pub open spec fn is_hex(byte: u8) -> bool {
    ||| 0x30 <= byte <= 0x39
    ||| 0x41 <= byte <= 0x46
    ||| 0x61 <= byte <= 0x66
}

/// The value of a hexadecimal digit.
pub open spec fn hex_value(byte: u8) -> nat {
    if byte <= 0x39 {
        (byte - 0x30) as nat
    } else if byte <= 0x46 {
        (byte - 0x41 + 10) as nat
    } else {
        (byte - 0x61 + 10) as nat
    }
}

/// Where the first byte stands that is no hexadecimal digit; the text's end if there is none.
pub open spec fn first_non_hex(text: Seq<u8>) -> nat
    decreases text.len(),
{
    if text.len() == 0 || !is_hex(text[0]) {
        0
    } else {
        1 + first_non_hex(text.drop_first())
    }
}

/// The `len` bytes whose hexadecimal notation is `text`, or what is wrong with it.
pub open spec fn parse_hex(text: Seq<u8>, len: nat) -> Result<Seq<u8>, HexFault> {
    let bad = first_non_hex(text);
    if text.len() % 2 != 0 {
        Err(HexFault::OddLength)
    } else if text.len() / 2 != len {
        Err(HexFault::InvalidStringLength)
    } else if bad < text.len() {
        Err(HexFault::InvalidHexCharacter { c: text[bad as int] as char, index: bad as usize })
    } else {
        Ok(Seq::new(len, |i: int| (16 * hex_value(text[2 * i]) + hex_value(text[2 * i + 1])) as u8))
    }
}

/// How a character is quoted in what `hex` says of it: by std's `Debug`.
pub uninterp spec fn quoted_character(c: char) -> Seq<char>;

/// What `hex` says of a fault.
pub open spec fn hex_fault_text(fault: HexFault) -> Seq<char> {
    match fault {
        HexFault::OddLength => "Odd number of digits"@,
        HexFault::InvalidStringLength => "Invalid string length"@,
        HexFault::InvalidHexCharacter { c, index } => "Invalid character "@ + quoted_character(c)
            + " at position "@ + decimal(index as nat),
    }
}

/// Calls `hex::encode`. Claimed of it: the result is the lower-case notation of the bytes.
#[verifier::external_body]
pub(crate) fn hex_encode(bytes: &[u8]) -> (text: String)
    ensures
        text@ == hex_text(bytes@),
{
    hex::encode(bytes)
}

/// Calls `hex::decode_to_slice`. Claimed of it: it accepts digits of either case and checks the
/// parity, then the length, then the digits from the first on. Where it fails, nothing is said of
/// what `out` holds.
#[verifier::external_body]
fn hex_decode(text: &str, out: &mut [u8]) -> (result: Result<(), HexFault>)
    ensures
        final(out)@.len() == old(out)@.len(),
        match parse_hex(encode_utf8(text@), old(out)@.len()) {
            Ok(bytes) => result is Ok && final(out)@ == bytes,
            Err(fault) => result == Err::<(), HexFault>(fault),
        },
{
    match hex::decode_to_slice(text, out) {
        Ok(()) => Ok(()),
        Err(hex::FromHexError::OddLength) => Err(HexFault::OddLength),
        Err(hex::FromHexError::InvalidStringLength) => Err(HexFault::InvalidStringLength),
        Err(hex::FromHexError::InvalidHexCharacter { c, index }) => Err(
            HexFault::InvalidHexCharacter { c, index },
        ),
    }
}

/// Calls `to_string` on the `hex::FromHexError` that a fault stands for. Claimed of it: the texts,
/// and of the character that one of them quotes, that its notation is a function of the character.
#[verifier::external_body]
fn fault_text(fault: &HexFault) -> (text: String)
    ensures
        match *fault {
            HexFault::OddLength => text@ == "Odd number of digits"@,
            HexFault::InvalidStringLength => text@ == "Invalid string length"@,
            HexFault::InvalidHexCharacter { c, index } => text@ == "Invalid character "@
                + quoted_character(c) + " at position "@ + decimal(index as nat),
        },
{
    match fault {
        HexFault::OddLength => hex::FromHexError::OddLength.to_string(),
        HexFault::InvalidStringLength => hex::FromHexError::InvalidStringLength.to_string(),
        HexFault::InvalidHexCharacter { c, index } => hex::FromHexError::InvalidHexCharacter {
            c: *c,
            index: *index,
        }.to_string(),
    }
}

/// A text without the `0x` that it may start with.
pub open spec fn without_0x(text: Seq<char>) -> Seq<char> {
    if text.len() >= 2 && text[0] == '0' && text[1] == 'x' {
        text.skip(2)
    } else {
        text
    }
}

/// The `len` bytes that a text with or without a leading `0x` spells, or what is said of it.
pub open spec fn fixed_hex(text: Seq<char>, len: nat) -> Result<Seq<u8>, Seq<char>> {
    match parse_hex(encode_utf8(without_0x(text)), len) {
        Ok(bytes) => Ok(bytes),
        Err(fault) => Err(
            "Failed to decode fixed-length hex ("@ + decimal(len) + " bytes): "@ + hex_fault_text(
                fault,
            ),
        ),
    }
}

/// Reads `N` bytes from their hexadecimal notation, with or without a leading `0x`.
pub fn decode_fixed_hex<const N: usize>(s: &str) -> (result: Result<[u8; N], String>)
    ensures
        match fixed_hex(s@, N as nat) {
            Ok(bytes) => result matches Ok(found) && found@ == bytes,
            Err(message) => result matches Err(found) && found@ == message,
        },
{
    let total: usize = s.unicode_len();
    let s: &str = if total >= 2 && s.get_char(0) == '0' && s.get_char(1) == 'x' {
        s.substring_char(2, total)
    } else {
        s
    };
    let mut result: [u8; N] = [0u8; N];
    match hex_decode(s, &mut result) {
        Ok(()) => Ok(result),
        Err(fault) => {
            let mut message: String = "Failed to decode fixed-length hex (".to_owned();
            message.append(decimal_text(N as u64).as_str());
            message.append(" bytes): ");
            message.append(fault_text(&fault).as_str());
            Err(message)
        },
    }
}

/// A hexadecimal digit is an ASCII character whose value is read back.
proof fn lemma_hex_digit(n: nat)
    requires
        n < 16,
    ensures
        (hex_digit(n) as nat) < 128,
        hex_digit(n) != 'x',
        is_hex(hex_digit(n) as u8),
        hex_value(hex_digit(n) as u8) == n,
{
}

/// A text of hexadecimal digits holds nothing else.
proof fn lemma_all_hex(text: Seq<u8>)
    requires
        forall|i: int| 0 <= i < text.len() ==> is_hex(#[trigger] text[i]),
    ensures
        first_non_hex(text) == text.len(),
    decreases text.len(),
{
    if text.len() > 0 {
        lemma_all_hex(text.drop_first());
    }
}

/// Reading the hexadecimal notation of some bytes gives back the bytes.
pub proof fn hex_round_trip(bytes: Seq<u8>)
    ensures
        fixed_hex(hex_text(bytes), bytes.len()) == Ok::<Seq<u8>, Seq<char>>(bytes),
{
    let text = hex_text(bytes);
    assert forall|i: int| 0 <= i < text.len() implies (#[trigger] text[i] as nat) < 128
        && text[i] != 'x' && is_hex(text[i] as u8) by {
        lemma_hex_digit((bytes[i / 2] / 16) as nat);
        lemma_hex_digit((bytes[i / 2] % 16) as nat);
    }
    assert(is_ascii_chars(text));
    is_ascii_chars_encode_utf8(text);
    let octets = encode_utf8(text);
    assert(octets =~= Seq::new(text.len(), |i: int| text[i] as u8));
    lemma_all_hex(octets);
    assert(without_0x(text) == text);
    let found = parse_hex(octets, bytes.len())->Ok_0;
    assert forall|i: int| 0 <= i < bytes.len() implies #[trigger] found[i] == bytes[i] by {
        lemma_hex_digit((bytes[i] / 16) as nat);
        lemma_hex_digit((bytes[i] % 16) as nat);
        assert(octets[2 * i] == text[2 * i] as u8);
        assert(octets[2 * i + 1] == text[2 * i + 1] as u8);
        assert((2 * i + 1) / 2 == i && (2 * i) / 2 == i);
    }
    assert(found =~= bytes);
}

/// Byte strings of one length whose hexadecimal notations have the same bytes are the same.
pub proof fn hex_tells_apart(a: Seq<u8>, b: Seq<u8>)
    requires
        a.len() == b.len(),
        ascii_bytes(hex_text(a)) == ascii_bytes(hex_text(b)),
    ensures
        a == b,
{
    let left = hex_text(a);
    let right = hex_text(b);
    assert forall|i: int| 0 <= i < left.len() implies #[trigger] left[i] == right[i] by {
        lemma_hex_digit((a[i / 2] / 16) as nat);
        lemma_hex_digit((a[i / 2] % 16) as nat);
        lemma_hex_digit((b[i / 2] / 16) as nat);
        lemma_hex_digit((b[i / 2] % 16) as nat);
        assert(ascii_bytes(left)[i] == left[i] as u8);
        assert(ascii_bytes(right)[i] == right[i] as u8);
    }
    assert(left =~= right);
    hex_round_trip(a);
    hex_round_trip(b);
}

} // verus!
