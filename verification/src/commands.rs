//! What holds of the console's commands: which line asks for what.

use crate::console::{command_of, normalized_url, service_id_of, starts_with, without_hex_prefix,
    CommandView};
use crate::readings::{all_hex, all_words, blank, decimal_notation_spells,
    hexadecimal_numbers_are_read_as_spelled, numbers_are_read_as_spelled, reads, reads_hex, spaced,
    spaced_words_are_found, spelled, trimming_takes_white_ends, unbroken,
    white_space_is_that_of_unicode, written_numbers_are_read_back};
use crate::sayings::{begins, ends, lemma_ends};
use crate::text::decimal;
use crate::words::{hex_number, is_white, lower, number_fault_text, trimmed, whole_number, words,
    NumberFault};
use vstd::prelude::*;

verus! {

/// What tells the commands' words apart: their lengths, and some of their letters.
proof fn lemma_command_words()
    ensures
        "help"@.len() == 4 && "help"@[0] == 'h',
        "h"@.len() == 1 && "h"@[0] == 'h',
        "quit"@.len() == 4 && "quit"@[0] == 'q',
        "exit"@.len() == 4 && "exit"@[0] == 'e',
        "q"@.len() == 1 && "q"@[0] == 'q',
        "state"@.len() == 5 && "state"@[0] == 's',
        "s"@.len() == 1 && "s"@[0] == 's',
        "rpc"@.len() == 3 && "rpc"@[0] == 'r',
        "service"@.len() == 7 && "service"@[0] == 's',
        "sv"@.len() == 2 && "sv"@[0] == 's' && "sv"@[1] == 'v',
        "init"@.len() == 4 && "init"@[0] == 'i',
        "i"@.len() == 1 && "i"@[0] == 'i',
        "transfer"@.len() == 8 && "transfer"@[0] == 't',
        "t"@.len() == 1 && "t"@[0] == 't',
        "remove-pair"@.len() == 11 && "remove-pair"@[0] == 'r',
        "remove_pair"@.len() == 11 && "remove_pair"@[0] == 'r',
        "rp"@.len() == 2 && "rp"@[0] == 'r' && "rp"@[1] == 'p',
        "wipe-pair"@.len() == 9 && "wipe-pair"@[0] == 'w',
        "wipe_pair"@.len() == 9 && "wipe_pair"@[0] == 'w',
        "wp"@.len() == 2 && "wp"@[0] == 'w',
        "send-batch"@.len() == 10 && "send-batch"@[5] == 'b',
        "send_batch"@.len() == 10 && "send_batch"@[5] == 'b',
        "sb"@.len() == 2 && "sb"@[0] == 's' && "sb"@[1] == 'b',
        "reset"@.len() == 5 && "reset"@[0] == 'r',
        "send-reset"@.len() == 10 && "send-reset"@[5] == 'r',
        "sr"@.len() == 2 && "sr"@[0] == 's' && "sr"@[1] == 'r',
        "last-transfers"@.len() == 14 && "last-transfers"@[0] == 'l',
        "lt"@.len() == 2 && "lt"@[0] == 'l',
        unbroken("transfer"@),
        unbroken("t"@),
{
    reveal_strlit("help");
    reveal_strlit("h");
    reveal_strlit("quit");
    reveal_strlit("exit");
    reveal_strlit("q");
    reveal_strlit("state");
    reveal_strlit("s");
    reveal_strlit("rpc");
    reveal_strlit("service");
    reveal_strlit("sv");
    reveal_strlit("init");
    reveal_strlit("i");
    reveal_strlit("transfer");
    reveal_strlit("t");
    reveal_strlit("remove-pair");
    reveal_strlit("remove_pair");
    reveal_strlit("rp");
    reveal_strlit("wipe-pair");
    reveal_strlit("wipe_pair");
    reveal_strlit("wp");
    reveal_strlit("send-batch");
    reveal_strlit("send_batch");
    reveal_strlit("sb");
    reveal_strlit("reset");
    reveal_strlit("send-reset");
    reveal_strlit("sr");
    reveal_strlit("last-transfers");
    reveal_strlit("lt");
}

/// Whether the first of some words is one of two.
pub open spec fn begins_with(parts: Seq<Seq<char>>, word: Seq<char>, short: Seq<char>) -> bool {
    parts.len() > 0 && (parts[0] == word || parts[0] == short)
}

/// Whether a text spells a number up to a largest one.
pub open spec fn reads_up_to(text: Seq<char>, max: nat) -> bool {
    exists|n: nat| n <= max && #[trigger] reads(text, n)
}

/// A transfer is asked for by four words: which command it is, the sender's index, the recipient's
/// index, and the amount, in this order and whichever index is larger. Any other words after the
/// command's own are a misuse, which says what is wrong with them.
pub proof fn transfers_are_asked_for(
    parts: Seq<Seq<char>>,
    from: usize,
    to: usize,
    amount: u64,
)
    ensures
        command_of(parts) == (CommandView::Transfer { from, to, amount }) <==> {
            &&& begins_with(parts, "transfer"@, "t"@)
            &&& parts.len() == 4
            &&& reads(parts[1], from as nat)
            &&& reads(parts[2], to as nat)
            &&& reads(parts[3], amount as nat)
        },
        begins_with(parts, "transfer"@, "t"@) ==> command_of(parts) is Transfer || command_of(parts)
            is Misused,
        begins_with(parts, "transfer"@, "t"@) && parts.len() == 4 ==> {
            &&& command_of(parts) is Misused <==> !(reads_up_to(parts[1], usize::MAX as nat)
                && reads_up_to(parts[2], usize::MAX as nat) && reads_up_to(
                parts[3],
                u64::MAX as nat,
            ))
            &&& !reads_up_to(parts[1], usize::MAX as nat) ==> command_of(parts)
                == (CommandView::Misused { message: "Invalid from_index, expected usize"@ })
            &&& reads_up_to(parts[1], usize::MAX as nat) && !reads_up_to(
                parts[2],
                usize::MAX as nat,
            ) ==> command_of(parts) == (CommandView::Misused {
                message: "Invalid to_index, expected usize"@,
            })
            &&& reads_up_to(parts[1], usize::MAX as nat) && reads_up_to(
                parts[2],
                usize::MAX as nat,
            ) && !reads_up_to(parts[3], u64::MAX as nat) ==> command_of(parts) == (
            CommandView::Misused { message: "Invalid amount, expected u64"@ })
        },
{
    lemma_command_words();
    if parts.len() == 4 {
        numbers_are_read_as_spelled(parts[1], usize::MAX as nat, from as nat);
        numbers_are_read_as_spelled(parts[2], usize::MAX as nat, to as nat);
        numbers_are_read_as_spelled(parts[3], u64::MAX as nat, amount as nat);
        if let Some(n) = whole_number(parts[1], usize::MAX as nat) {
            numbers_are_read_as_spelled(parts[1], usize::MAX as nat, n);
        }
        if let Some(n) = whole_number(parts[2], usize::MAX as nat) {
            numbers_are_read_as_spelled(parts[2], usize::MAX as nat, n);
        }
        if let Some(n) = whole_number(parts[3], u64::MAX as nat) {
            numbers_are_read_as_spelled(parts[3], u64::MAX as nat, n);
        }
    }
}

/// A line that says `transfer` or `t` and three numbers asks for a transfer from the first to the
/// second, of the third.
pub proof fn typed_transfers_are_asked_for(word: Seq<char>, from: usize, to: usize, amount: u64)
    requires
        word == "transfer"@ || word == "t"@,
    ensures
        command_of(
            words(
                spaced(
                    seq![
                        word,
                        decimal(from as nat),
                        decimal(to as nat),
                        decimal(amount as nat),
                    ],
                ),
            ),
        ) == (CommandView::Transfer { from, to, amount }),
{
    let parts = seq![
        word,
        decimal(from as nat),
        decimal(to as nat),
        decimal(amount as nat),
    ];
    lemma_command_words();
    written_numbers_are_read_back(from as nat, usize::MAX as nat);
    written_numbers_are_read_back(to as nat, usize::MAX as nat);
    written_numbers_are_read_back(amount as nat, u64::MAX as nat);
    lemma_numbers_are_words(from as nat);
    lemma_numbers_are_words(to as nat);
    lemma_numbers_are_words(amount as nat);
    assert(all_words(parts));
    spaced_words_are_found(parts);
    transfers_are_asked_for(parts, from, to, amount);
}

/// A number in decimal notation is one word.
proof fn lemma_numbers_are_words(n: nat)
    ensures
        decimal(n).len() > 0,
        unbroken(decimal(n)),
{
    decimal_notation_spells(n);
    assert forall|i: int| 0 <= i < decimal(n).len() implies !is_white(
        #[trigger] decimal(n)[i],
    ) by {
        white_space_is_that_of_unicode(decimal(n)[i]);
    }
}

/// Accounts are initialised as many as the second word says, or five, each with the balance that
/// the third word says, or a million. A word that is no such number ends the console.
pub proof fn initialisations_are_asked_for(
    parts: Seq<Seq<char>>,
    accounts: usize,
    balance: u64,
)
    ensures
        command_of(parts) == (CommandView::Init { accounts, balance }) <==> {
            &&& begins_with(parts, "init"@, "i"@)
            &&& if parts.len() > 1 {
                reads(parts[1], accounts as nat)
            } else {
                accounts == 5
            }
            &&& if parts.len() > 2 {
                reads(parts[2], balance as nat)
            } else {
                balance == 1_000_000
            }
        },
        begins_with(parts, "init"@, "i"@) ==> command_of(parts) is Init || command_of(parts)
            is Fatal,
        begins_with(parts, "init"@, "i"@) && parts.len() > 1 && !reads_up_to(
            parts[1],
            usize::MAX as nat,
        ) ==> command_of(parts) == (CommandView::Fatal {
            message: "Invalid accounts value, expected usize"@,
        }),
        begins_with(parts, "init"@, "i"@) && parts.len() > 2 && reads_up_to(
            parts[1],
            usize::MAX as nat,
        ) && !reads_up_to(parts[2], u64::MAX as nat) ==> command_of(parts) == (CommandView::Fatal {
            message: "Invalid balance value, expected u64"@,
        }),
{
    lemma_command_words();
    if parts.len() > 1 {
        numbers_are_read_as_spelled(parts[1], usize::MAX as nat, accounts as nat);
        if let Some(n) = whole_number(parts[1], usize::MAX as nat) {
            numbers_are_read_as_spelled(parts[1], usize::MAX as nat, n);
        }
    }
    if parts.len() > 2 {
        numbers_are_read_as_spelled(parts[2], u64::MAX as nat, balance as nat);
        if let Some(n) = whole_number(parts[2], u64::MAX as nat) {
            numbers_are_read_as_spelled(parts[2], u64::MAX as nat, n);
        }
    }
}

/// The words that ask for a pair's pending transfers to be removed.
pub open spec fn asks_for_removal(parts: Seq<Seq<char>>) -> bool {
    parts.len() > 0 && (parts[0] == "remove-pair"@ || parts[0] == "remove_pair"@ || parts[0]
        == "rp"@ || parts[0] == "wipe-pair"@ || parts[0] == "wipe_pair"@ || parts[0] == "wp"@)
}

/// A pair's pending transfers are removed for three words: which command it is, and the two
/// indices.
pub proof fn removals_are_asked_for(parts: Seq<Seq<char>>, index_a: usize, index_b: usize)
    ensures
        command_of(parts) == (CommandView::RemovePair { index_a, index_b }) <==> {
            &&& asks_for_removal(parts)
            &&& parts.len() == 3
            &&& reads(parts[1], index_a as nat)
            &&& reads(parts[2], index_b as nat)
        },
        asks_for_removal(parts) ==> command_of(parts) is RemovePair || command_of(parts) is Misused,
        asks_for_removal(parts) && parts.len() == 3 && !reads_up_to(parts[1], usize::MAX as nat)
            ==> command_of(parts) == (CommandView::Misused {
            message: "Invalid index_a, expected usize"@,
        }),
        asks_for_removal(parts) && parts.len() == 3 && reads_up_to(parts[1], usize::MAX as nat)
            && !reads_up_to(parts[2], usize::MAX as nat) ==> command_of(parts) == (
        CommandView::Misused { message: "Invalid index_b, expected usize"@ }),
{
    lemma_command_words();
    if parts.len() == 3 {
        numbers_are_read_as_spelled(parts[1], usize::MAX as nat, index_a as nat);
        numbers_are_read_as_spelled(parts[2], usize::MAX as nat, index_b as nat);
        if let Some(n) = whole_number(parts[1], usize::MAX as nat) {
            numbers_are_read_as_spelled(parts[1], usize::MAX as nat, n);
        }
        if let Some(n) = whole_number(parts[2], usize::MAX as nat) {
            numbers_are_read_as_spelled(parts[2], usize::MAX as nat, n);
        }
    }
}

/// Whether a text names a service's ID: hexadecimal digits that spell it, with or without `0x` or
/// `0X` before them and white space around them.
pub open spec fn names_service(input: Seq<char>, id: nat) -> bool {
    exists|left: Seq<char>, prefix: Seq<char>, digits: Seq<char>, right: Seq<char>|
        input == #[trigger] (left + (prefix + digits) + right) && blank(left) && blank(right) && (
        prefix.len() == 0 || prefix == seq!['0', 'x'] || prefix == seq!['0', 'X']) && reads_hex(
            digits,
            id,
        )
}

/// What is left of a text without the white space at its ends, and where it stands.
proof fn lemma_trimmed_stands(text: Seq<char>) -> (ends: (Seq<char>, Seq<char>))
    ensures
        text == ends.0 + trimmed(text) + ends.1,
        blank(ends.0),
        blank(ends.1),
    decreases text.len(),
{
    if text.len() == 0 {
        assert(text =~= Seq::<char>::empty() + trimmed(text) + Seq::<char>::empty());
        (Seq::empty(), Seq::empty())
    } else if is_white(text[0]) {
        let (left, right) = lemma_trimmed_stands(text.drop_first());
        let longer = seq![text[0]] + left;
        let inner = trimmed(text.drop_first());
        assert(text =~= seq![text[0]] + text.drop_first());
        assert(seq![text[0]] + (left + inner + right) =~= longer + inner + right);
        assert(blank(longer)) by {
            assert forall|i: int| 0 <= i < longer.len() implies is_white(#[trigger] longer[i]) by {
                if i > 0 {
                    assert(longer[i] == left[i - 1]);
                }
            }
        }
        (longer, right)
    } else if is_white(text.last()) {
        let (left, right) = lemma_trimmed_stands(text.drop_last());
        let longer = right.push(text.last());
        let inner = trimmed(text.drop_last());
        assert(text =~= text.drop_last().push(text.last()));
        assert((left + inner + right).push(text.last()) =~= left + inner + longer);
        assert(blank(longer)) by {
            assert forall|i: int| 0 <= i < longer.len() implies is_white(#[trigger] longer[i]) by {
                if i < right.len() {
                    assert(longer[i] == right[i]);
                }
            }
        }
        (left, longer)
    } else {
        assert(text =~= Seq::<char>::empty() + trimmed(text) + Seq::<char>::empty());
        (Seq::empty(), Seq::empty())
    }
}

/// A service's ID is read from the texts that name it, and from no others.
pub proof fn service_ids_are_read_as_named(input: Seq<char>, id: u32)
    ensures
        service_id_of(input) == Ok::<u32, Seq<char>>(id) <==> names_service(input, id as nat),
        blank(input) ==> service_id_of(input) == Err::<u32, Seq<char>>(
            "Service ID cannot be empty"@,
        ),
{
    if blank(input) {
        let none = Seq::<char>::empty();
        assert(input =~= input + none + none);
        trimming_takes_white_ends(input, none, none);
    }
    let inner = trimmed(input);
    let rest = without_hex_prefix(inner);
    hexadecimal_numbers_are_read_as_spelled(rest, id as nat);
    if service_id_of(input) == Ok::<u32, Seq<char>>(id) {
        let (left, right) = lemma_trimmed_stands(input);
        let prefix = inner.take(inner.len() - rest.len());
        assert(inner =~= prefix + rest);
        if prefix.len() > 0 {
            assert(prefix =~= seq!['0', 'x'] || prefix =~= seq!['0', 'X']);
        }
        assert(input == left + (prefix + rest) + right);
    }
    if names_service(input, id as nat) {
        let (left, prefix, digits, right) = choose|
            left: Seq<char>,
            prefix: Seq<char>,
            digits: Seq<char>,
            right: Seq<char>,
        |
            input == #[trigger] (left + (prefix + digits) + right) && blank(left) && blank(right)
                && (prefix.len() == 0 || prefix == seq!['0', 'x'] || prefix == seq!['0', 'X'])
                && reads_hex(digits, id as nat);
        let middle = prefix + digits;
        let bare = if digits[0] == '+' {
            digits.skip(1)
        } else {
            digits
        };
        assert forall|i: int| 0 <= i < digits.len() implies !is_white(#[trigger] digits[i]) && (i
            > 0 ==> digits[i] != 'x' && digits[i] != 'X') by {
            white_space_is_that_of_unicode(digits[i]);
            if digits[0] == '+' {
                if i > 0 {
                    assert(bare[i - 1] == digits[i]);
                }
            } else {
                assert(bare[i] == digits[i]);
            }
        }
        assert(middle.last() == digits[digits.len() - 1]);
        if prefix.len() == 0 {
            assert(middle =~= digits);
            assert(!is_white(middle[0]));
        } else {
            white_space_is_that_of_unicode('0');
            assert(middle[0] == '0');
        }
        trimming_takes_white_ends(left, middle, right);
        assert(inner == middle);
        assert(rest =~= digits);
    }
}

/// A text that names no service is repeated in what is said of it, and what is wrong with it comes
/// last: a number that is too large, or something that is no digit.
pub proof fn bad_service_ids_are_repeated(input: Seq<char>)
    ensures
        service_id_of(input) matches Err(message) ==> {
            ||| message == "Service ID cannot be empty"@ && without_hex_prefix(
                trimmed(input),
            ).len() == 0
            ||| begins(message, "Invalid service ID hex '"@ + input) && ends(
                message,
                "number too large to fit in target type"@,
            ) && hex_number(without_hex_prefix(trimmed(input))) == Err::<u32, NumberFault>(
                NumberFault::TooLarge,
            )
            ||| begins(message, "Invalid service ID hex '"@ + input) && ends(
                message,
                "invalid digit found in string"@,
            ) && hex_number(without_hex_prefix(trimmed(input))) == Err::<u32, NumberFault>(
                NumberFault::InvalidDigit,
            )
        },
{
    let digits = without_hex_prefix(trimmed(input));
    if digits.len() > 0 {
        if let Err(fault) = hex_number(digits) {
            let head = "Invalid service ID hex '"@ + input;
            let tail = "': "@ + number_fault_text(fault);
            lemma_ends(head + "': "@, number_fault_text(fault));
            assert(head + "': "@ + number_fault_text(fault) =~= head + tail);
            lemma_ends(head, tail);
        }
    }
}

/// The ID that the console shows for a service names it.
pub proof fn shown_service_ids_are_read_back(digits: Seq<char>, id: u32)
    requires
        all_hex(digits),
        digits.len() > 0,
        spelled(digits, 16) == id,
    ensures
        service_id_of(digits) == Ok::<u32, Seq<char>>(id),
        service_id_of(seq!['0', 'x'] + digits) == Ok::<u32, Seq<char>>(id),
{
    let none = Seq::<char>::empty();
    assert(digits[0] != '+');
    assert(reads_hex(digits, id as nat));
    assert(digits =~= none + (none + digits) + none);
    assert(names_service(digits, id as nat));
    let prefixed = seq!['0', 'x'] + digits;
    assert(prefixed =~= none + (seq!['0', 'x'] + digits) + none);
    assert(names_service(prefixed, id as nat));
    service_ids_are_read_as_named(digits, id);
    service_ids_are_read_as_named(prefixed, id);
}

/// A service is chosen by the ID that the second word names; a word that names none is refused.
pub proof fn services_are_asked_for(parts: Seq<Seq<char>>, service_id: u32)
    ensures
        command_of(parts) == (CommandView::SetService { service_id }) <==> {
            &&& begins_with(parts, "service"@, "sv"@)
            &&& parts.len() >= 2
            &&& names_service(parts[1], service_id as nat)
        },
        begins_with(parts, "service"@, "sv"@) && parts.len() >= 2 ==> command_of(parts)
            is SetService || command_of(parts) is Refused,
        begins_with(parts, "service"@, "sv"@) && parts.len() < 2 ==> command_of(parts) is Misused,
{
    lemma_command_words();
    if parts.len() >= 2 {
        service_ids_are_read_as_named(parts[1], service_id);
    }
}

/// An address keeps its scheme, `ws` or `wss`, and gets the first where it has none; it is not
/// changed otherwise.
pub proof fn addresses_have_a_scheme(url: Seq<char>)
    ensures
        ({
            let full = normalized_url(url);
            let plain = full.len() >= 5 && full.take(5) == seq!['w', 's', ':', '/', '/'];
            let secure = full.len() >= 6 && full.take(6) == seq!['w', 's', 's', ':', '/', '/'];
            &&& plain || secure
            &&& full == url || full == seq!['w', 's', ':', '/', '/'] + url
            &&& (url.len() >= 5 && url.take(5) == seq!['w', 's', ':', '/', '/']) || (url.len() >= 6
                && url.take(6) == seq!['w', 's', 's', ':', '/', '/']) ==> full == url
            &&& normalized_url(full) == full
        }),
{
    reveal_strlit("ws://");
    reveal_strlit("wss://");
    assert("ws://"@ =~= seq!['w', 's', ':', '/', '/']);
    assert("wss://"@ =~= seq!['w', 's', 's', ':', '/', '/']);
    let full = "ws://"@ + url;
    assert(full.take(5) =~= "ws://"@);
    assert(starts_with(full, "ws://"@));
}

/// A node is chosen by the address that the second word gives.
pub proof fn nodes_are_asked_for(parts: Seq<Seq<char>>, url: Seq<char>)
    ensures
        command_of(parts) == (CommandView::SetRpc { url }) <==> {
            &&& parts.len() >= 2
            &&& parts[0] == "rpc"@
            &&& url == normalized_url(parts[1])
        },
        parts.len() == 1 && parts[0] == "rpc"@ ==> command_of(parts) is Misused,
{
    lemma_command_words();
}

/// Whether a text is a lower-case word, but for the case of its letters.
pub open spec fn same_letters(text: Seq<char>, word: Seq<char>) -> bool {
    &&& text.len() == word.len()
    &&& forall|i: int|
        0 <= i < text.len() ==> #[trigger] text[i] == word[i] || ('A' <= text[i] <= 'Z'
            && text[i] as u32 + 32 == word[i] as u32)
}

/// A text in lower case is a lower-case word where the text has the same letters.
proof fn lemma_same_letters(text: Seq<char>, word: Seq<char>)
    requires
        forall|i: int| 0 <= i < word.len() ==> 'a' <= #[trigger] word[i] <= 'z',
    ensures
        text.map_values(|c: char| lower(c)) == word <==> same_letters(text, word),
{
    let lowered = text.map_values(|c: char| lower(c));
    if lowered == word {
        assert forall|i: int| 0 <= i < text.len() implies #[trigger] text[i] == word[i] || ('A'
            <= text[i] <= 'Z' && text[i] as u32 + 32 == word[i] as u32) by {
            assert(lowered[i] == word[i]);
        }
    }
    if same_letters(text, word) {
        assert forall|i: int| 0 <= i < text.len() implies lowered[i] == word[i] by {
            assert('a' <= word[i] <= 'z');
            assert(text[i] == word[i] || ('A' <= text[i] <= 'Z' && text[i] as u32 + 32
                == word[i] as u32));
        }
        assert(lowered =~= word);
    }
}

/// The state is shown with its pending transfers where the second word is `full`, `pending` or
/// `details` in whatever case, and without them otherwise.
pub proof fn states_are_asked_for(parts: Seq<Seq<char>>, show_pending_details: bool)
    ensures
        command_of(parts) == (CommandView::State { show_pending_details }) <==> {
            &&& begins_with(parts, "state"@, "s"@)
            &&& show_pending_details == (parts.len() > 1 && (same_letters(parts[1], "full"@)
                || same_letters(parts[1], "pending"@) || same_letters(parts[1], "details"@)))
        },
{
    lemma_command_words();
    if parts.len() > 1 {
        reveal_strlit("full");
        reveal_strlit("pending");
        reveal_strlit("details");
        lemma_same_letters(parts[1], "full"@);
        lemma_same_letters(parts[1], "pending"@);
        lemma_same_letters(parts[1], "details"@);
    }
}

/// The other commands are asked for by their word, whatever follows it; a blank line asks for
/// nothing, and a word that is no command's is said to be unknown.
pub proof fn other_commands_are_asked_for(parts: Seq<Seq<char>>)
    ensures
        command_of(parts) is Nothing <==> parts.len() == 0,
        command_of(parts) is Help <==> begins_with(parts, "help"@, "h"@),
        command_of(parts) is Quit <==> begins_with(parts, "quit"@, "q"@) || begins_with(
            parts,
            "exit"@,
            "q"@,
        ),
        command_of(parts) is SendBatch <==> begins_with(parts, "send-batch"@, "sb"@) || begins_with(
            parts,
            "send_batch"@,
            "sb"@,
        ),
        command_of(parts) is SendReset <==> begins_with(parts, "reset"@, "sr"@) || begins_with(
            parts,
            "send-reset"@,
            "sr"@,
        ),
        command_of(parts) is LastTransfers <==> begins_with(parts, "last-transfers"@, "lt"@),
        command_of(parts) matches CommandView::Unknown { word } ==> parts.len() > 0 && word
            == parts[0],
{
    lemma_command_words();
}

} // verus!
