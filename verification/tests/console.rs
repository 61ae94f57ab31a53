//! The console: words, numbers, commands, sessions and listings.

use token_ledger::builder::BuilderState;
use token_ledger::codec::encode_transfers;
use token_ledger::console::{
    list_segment, list_segments, normalize_url, parse_command, parse_service_id_hex, Command,
};
use token_ledger::errors::BuilderError;
use token_ledger::ledger::Transfer;
use token_ledger::text::{
    decimal_text, hex_numeral_text, join_lines, padded_hex_text, service_id_text, truth_text,
};
use token_ledger::words::{
    parse_hex_number, parse_number, same_but_for_case, same_text, split_words, trim, white,
};

fn misused(line: &str) -> String {
    match parse_command(line) {
        Command::Misused { message } => message,
        other => panic!("unexpected {other:?}"),
    }
}

fn fatal(line: &str) -> String {
    match parse_command(line) {
        Command::Fatal { message } => message,
        other => panic!("unexpected {other:?}"),
    }
}

#[test]
fn white_space_is_that_of_unicode() {
    for code in 0..=0x10ffffu32 {
        if let Some(c) = char::from_u32(code) {
            assert_eq!(white(c), c.is_whitespace(), "U+{code:04X}");
        }
    }
}

#[test]
fn words_are_split_at_white_space() {
    for text in [
        "",
        "   ",
        "one",
        " one  two\tthree\n",
        "\u{3000}ein\u{a0}Wörter\u{2003}buch ",
        "a b c d",
    ] {
        let expected: Vec<&str> = text.split_whitespace().collect();
        assert_eq!(split_words(text), expected);
        assert_eq!(trim(text), text.trim());
    }
}

#[test]
fn texts_are_compared() {
    assert!(same_text("", ""));
    assert!(same_text("wörd", "wörd"));
    assert!(!same_text("word", "wore"));
    assert!(!same_text("word", "words"));
    assert!(same_but_for_case("FuLL", "full"));
    assert!(!same_but_for_case("fulL", "fuls"));
    assert!(!same_but_for_case("full", "ful"));
    assert!(!same_but_for_case("Ä", "ä"));
}

#[test]
fn numbers_are_read_as_integers_are_parsed() {
    for text in [
        "",
        "0",
        "7",
        "+7",
        "+",
        "-1",
        "-0",
        "++1",
        "007",
        "12a",
        "a12",
        " 1",
        "18446744073709551615",
        "18446744073709551616",
        "18446744073709551620",
        "99999999999999999999999",
        "٣",
        "1_000",
    ] {
        assert_eq!(parse_number(text, u64::MAX), text.parse::<u64>().ok(), "{text}");
    }
    for text in ["255", "256", "260", "25", "300", "1000"] {
        assert_eq!(
            parse_number(text, 255),
            text.parse::<u8>().ok().map(u64::from),
            "{text}"
        );
    }
    assert_eq!(parse_number("0", 0), Some(0));
    assert_eq!(parse_number("1", 0), None);
}

#[test]
fn hexadecimal_numbers_are_read_as_integers_are_parsed() {
    for text in [
        "0",
        "a2db1bf9",
        "A2DB1BF9",
        "+ff",
        "+",
        "-",
        "-1",
        "g",
        "ffffffff",
        "100000000",
        "0000000012345678",
        "1234567890g",
        "12345678g",
        "123456789",
        "xyz",
        "é",
        "ffffffffé",
        "+ffffffffg",
    ] {
        let expected = u32::from_str_radix(text, 16);
        assert_eq!(parse_hex_number(text).ok(), expected.clone().ok(), "{text}");
        if let Err(error) = expected {
            assert_eq!(
                parse_service_id_hex(text).unwrap_err(),
                format!("Invalid service ID hex '{text}': {error}")
            );
        }
    }
}

#[test]
fn service_ids_are_read() {
    assert_eq!(parse_service_id_hex("a2db1bf9"), Ok(0xa2db1bf9));
    assert_eq!(parse_service_id_hex(" 0xA2db1bf9\n"), Ok(0xa2db1bf9));
    assert_eq!(parse_service_id_hex("0X10"), Ok(0x10));
    assert_eq!(
        parse_service_id_hex("  ").unwrap_err(),
        "Service ID cannot be empty"
    );
    assert_eq!(
        parse_service_id_hex("0x").unwrap_err(),
        "Service ID cannot be empty"
    );
    assert_eq!(
        parse_service_id_hex(" 0xzz ").unwrap_err(),
        "Invalid service ID hex ' 0xzz ': invalid digit found in string"
    );
    assert_eq!(
        parse_service_id_hex("1ffffffff").unwrap_err(),
        "Invalid service ID hex '1ffffffff': number too large to fit in target type"
    );
}

#[test]
fn numbers_are_written() {
    for n in [0u64, 1, 9, 10, 4104, u64::MAX] {
        assert_eq!(decimal_text(n), n.to_string());
        assert_eq!(hex_numeral_text(n), format!("{n:x}"));
        assert_eq!(padded_hex_text(n, 16), format!("{n:016x}"));
    }
    assert_eq!(service_id_text(0xab), "000000ab");
    assert_eq!(service_id_text(u32::MAX), "ffffffff");
    assert_eq!(truth_text(true), "true");
    assert_eq!(truth_text(false), "false");
    assert_eq!(join_lines(&vec![]), "");
    assert_eq!(join_lines(&vec!["a".to_string()]), "a");
    assert_eq!(
        join_lines(&vec!["a".to_string(), "".to_string(), "c".to_string()]),
        "a\n\nc"
    );
}

#[test]
fn urls_get_a_scheme() {
    assert_eq!(normalize_url("localhost:19800"), "ws://localhost:19800");
    assert_eq!(normalize_url("ws://a"), "ws://a");
    assert_eq!(normalize_url("wss://a"), "wss://a");
    assert_eq!(normalize_url("ws:/a"), "ws://ws:/a");
    assert_eq!(normalize_url("http://a"), "ws://http://a");
    assert_eq!(normalize_url(""), "ws://");
}

#[test]
fn plain_commands_are_known_by_all_their_names() {
    assert!(matches!(parse_command(""), Command::Nothing));
    assert!(matches!(parse_command("  \n"), Command::Nothing));
    for line in ["help", "h", " help me "] {
        assert!(matches!(parse_command(line), Command::Help));
    }
    for line in ["quit", "exit", "q"] {
        assert!(matches!(parse_command(line), Command::Quit));
    }
    for line in ["send-batch", "send_batch", "sb"] {
        assert!(matches!(parse_command(line), Command::SendBatch));
    }
    for line in ["reset", "send-reset", "sr"] {
        assert!(matches!(parse_command(line), Command::SendReset));
    }
    for line in ["last-transfers", "lt"] {
        assert!(matches!(parse_command(line), Command::LastTransfers));
    }
    for line in ["Help", "RPC a", "x"] {
        let word = line.split(' ').next().unwrap();
        assert!(matches!(parse_command(line), Command::Unknown { word: w } if w == word));
    }
}

#[test]
fn the_state_is_shown_with_or_without_details() {
    for line in ["state", "s", "state all", "s detail", "state x full"] {
        assert!(
            matches!(
                parse_command(line),
                Command::State {
                    show_pending_details: false
                }
            ),
            "{line}"
        );
    }
    for line in ["state full", "s PENDING", "s Full x", "state details", "s Details"] {
        assert!(
            matches!(
                parse_command(line),
                Command::State {
                    show_pending_details: true
                }
            ),
            "{line}"
        );
    }
}

#[test]
fn nodes_are_chosen() {
    assert!(matches!(
        parse_command("rpc ws://127.0.0.1:19800"),
        Command::SetRpc { url } if url == "ws://127.0.0.1:19800"
    ));
    assert!(matches!(
        parse_command(" rpc localhost:19800 "),
        Command::SetRpc { url } if url == "ws://localhost:19800"
    ));
    assert_eq!(misused("rpc"), "Usage: rpc <url>");
    let mut state = BuilderState::default();
    state.set_rpc("ws://a".to_string());
    assert_eq!(state.rpc_url.as_deref(), Some("ws://a"));
}

#[test]
fn a_chosen_service_brings_its_root() {
    let mut state = BuilderState::default();
    state.init_accounts(2, 100);
    state.queue_transfer(0, 1, 5).unwrap();
    let local = state.current_root;

    state.on_service_chosen(0xa2db1bf9, None).unwrap();
    assert_eq!(state.service_id, Some(0xa2db1bf9));
    assert_eq!(state.current_root, local);

    state.on_service_chosen(8, Some(Some(&[7u8; 32]))).unwrap();
    assert_eq!(state.service_id, Some(8));
    assert_eq!(state.current_root, [7u8; 32]);
    assert_eq!(state.accounts.len(), 2);
    assert_eq!(state.pending_net_transfers[&(0, 1)], 5);

    let error = state.on_service_chosen(9, Some(Some(&[7u8; 31]))).unwrap_err();
    assert_eq!(
        error.message(),
        "Failed to decode service state_root storage value"
    );
    assert_eq!(state.service_id, Some(9));
    assert_eq!(state.current_root, [7u8; 32]);

    state.on_service_chosen(10, Some(None)).unwrap();
    assert_eq!(state.current_root, [0u8; 32]);
}

#[test]
fn services_are_chosen() {
    assert!(matches!(
        parse_command("service 0xff"),
        Command::SetService { service_id: 0xff }
    ));
    assert!(matches!(
        parse_command("sv ff more"),
        Command::SetService { service_id: 0xff }
    ));
    assert_eq!(
        misused("service"),
        "Usage: service <hex_id> (example: a2db1bf9 or 0xa2db1bf9)"
    );
    assert!(matches!(
        parse_command("sv zz"),
        Command::Refused { message }
            if message == "Invalid service ID hex 'zz': invalid digit found in string"
    ));
    assert!(matches!(
        parse_command("sv 0x"),
        Command::Refused { message } if message == "Service ID cannot be empty"
    ));
}

#[test]
fn initialising_has_defaults() {
    assert!(matches!(
        parse_command("init"),
        Command::Init {
            accounts: 5,
            balance: 1_000_000
        }
    ));
    assert!(matches!(
        parse_command("i 3"),
        Command::Init {
            accounts: 3,
            balance: 1_000_000
        }
    ));
    assert!(matches!(
        parse_command("i 3 7 x"),
        Command::Init {
            accounts: 3,
            balance: 7
        }
    ));
    assert_eq!(fatal("i x 7"), "Invalid accounts value, expected usize");
    assert_eq!(fatal("i x y"), "Invalid accounts value, expected usize");
    assert_eq!(fatal("i 3 -1"), "Invalid balance value, expected u64");
}

#[test]
fn transfers_are_asked_for() {
    assert!(matches!(
        parse_command("transfer 1 2 30"),
        Command::Transfer {
            from: 1,
            to: 2,
            amount: 30
        }
    ));
    let usage = "Usage: transfer <from_index> <to_index> <amount>";
    assert_eq!(misused("t"), usage);
    assert_eq!(misused("t 1 2"), usage);
    assert_eq!(misused("t 1 2 3 4"), usage);
    assert_eq!(misused("t x y z"), "Invalid from_index, expected usize");
    assert_eq!(misused("t 1 y z"), "Invalid to_index, expected usize");
    assert_eq!(misused("t 1 2 z"), "Invalid amount, expected u64");
}

#[test]
fn pairs_are_removed_by_many_names() {
    for name in [
        "remove-pair",
        "remove_pair",
        "rp",
        "wipe-pair",
        "wipe_pair",
        "wp",
    ] {
        assert!(matches!(
            parse_command(&format!("{name} 4 2")),
            Command::RemovePair {
                index_a: 4,
                index_b: 2
            }
        ));
    }
    assert_eq!(
        misused("wp 1"),
        "Usage: wipe-pair <sender_index> <receiver_index>"
    );
    assert_eq!(misused("wp x y"), "Invalid index_a, expected usize");
    assert_eq!(misused("wp 1 y"), "Invalid index_b, expected usize");
}

#[test]
fn a_batch_is_kept_only_if_it_is_submitted() {
    let mut state = BuilderState::default();
    state.init_accounts(3, 100);
    state.on_service_chosen(7, None).unwrap();
    assert_eq!(state.service_id, Some(7));
    assert!(state.may_submit(true));
    assert!(!state.may_submit(false));
    assert!(!BuilderState::default().may_submit(true));

    state.queue_transfer(0, 1, 40).unwrap();
    let root = state.current_root;
    let tentative = state.begin_batch().unwrap();
    assert_eq!(tentative.export_count, 1);
    assert!(!tentative.payload.is_empty());
    assert_eq!(tentative.extrinsic.len(), 145);
    state.finish_batch(tentative.state, false);
    assert_eq!(state.current_root, root);
    assert_eq!(state.pending_net_transfers[&(0, 1)], 40);
    assert_eq!(state.accounts[&0].balance, 100);

    let mut tentative = state.begin_batch().unwrap();
    tentative.state.insert_package([1u8; 32]);
    state.finish_batch(tentative.state, true);
    assert_ne!(state.current_root, root);
    assert!(state.pending_net_transfers.is_empty());
    assert_eq!(state.accounts[&0].balance, 60);
    assert_eq!(state.submitted_packages, vec![[1u8; 32]]);

    // A batch that fails leaves the builder alone.
    state.queue_transfer(0, 1, 4000).unwrap();
    assert!(matches!(
        state.begin_batch(),
        Err(BuilderError::InsufficientBalance { index: 0, .. })
    ));
    assert_eq!(state.pending_net_transfers[&(0, 1)], 4000);
}

#[test]
fn a_reset_forgets_the_packages() {
    let mut state = BuilderState::default();
    state.init_accounts(3, 100);
    state.insert_package([1u8; 32]);
    let tentative = state.begin_reset().unwrap();
    assert_eq!(tentative.export_count, 0);
    assert!(tentative.extrinsic.is_empty());
    assert_eq!(
        tentative.payload,
        state.clone().prepare_reset().unwrap()
    );
    state.finish_reset(tentative.state, false);
    assert_eq!(state.submitted_packages.len(), 1);
    let mut tentative = state.begin_reset().unwrap();
    tentative.state.insert_package([2u8; 32]);
    state.finish_reset(tentative.state, true);
    assert!(state.submitted_packages.is_empty());
    assert_eq!(state.accounts.len(), 3);
}

#[test]
fn exported_transfers_are_listed() {
    let transfer = Transfer {
        from: [0x0au8; 32],
        to: [0xbbu8; 32],
        amount: 12,
        nonce: 3,
        signature: [0u8; 64],
    };
    let mut segment = encode_transfers(&[transfer.clone(), transfer]);
    segment.resize(4104, 0);
    let line = format!(
        "[Transfer] from: {} to: {} amount: 12 nonce: 3",
        "0a".repeat(32),
        "bb".repeat(32)
    );
    assert_eq!(list_segment(&segment), Some(vec![line.clone(), line.clone()]));
    assert_eq!(list_segment(&[]), None);

    let listing = list_segments(&vec![vec![5u8; 10], segment, vec![0u8; 10]]);
    assert!(listing.found);
    assert_eq!(listing.segments.len(), 3);
    assert_eq!(listing.segments[0], None);
    assert_eq!(listing.segments[1], Some(vec![line.clone(), line]));
    assert_eq!(listing.segments[2], Some(vec![]));
    assert!(!list_segments(&vec![vec![5u8; 10], vec![0u8; 10]]).found);
    assert!(!list_segments(&vec![]).found);
}
