//! The service: encodings, refinement and accumulation.

use jam_codec::{Decode, Encode};
use token_ledger::accounts::{admin_keypair, generate_keypair};
use token_ledger::accumulation::{
    on_stored_root, on_transfer, on_work_item, read_stored_root, takes_checkpoint, WorkItemStep,
    STATE_ROOT_KEY,
};
use token_ledger::builder::BuilderState;
use token_ledger::chain::sign_transfer_message;
use token_ledger::codec::{
    decode_output, decode_root, decode_transfers, encode_output, encode_root, encode_transfers,
};
use token_ledger::hexadecimal::decode_fixed_hex;
use token_ledger::json::{encode_payload_json, parse_payload, PayloadJson};
use token_ledger::ledger::{Payload, RefinementOutput, TokenLedgerV2, Transfer};
use token_ledger::refinement::{
    admin, answer_reset, check_batch_claim, check_movement, check_transfer, compute_batch_root,
    find_fault, fits_segment, on_reset, on_transfer_batch, reset_signing_message,
    verify_reset_signature, verify_transfers, RefineStep, Refined, TransferFault,
};

type Row = ([u8; 32], [u8; 32], u64, u64, [u8; 64]);

fn row(t: &Transfer) -> Row {
    (t.from, t.to, t.amount, t.nonce, t.signature)
}

fn sample(n: u8) -> Transfer {
    Transfer {
        from: [n; 32],
        to: [n.wrapping_add(1); 32],
        amount: 1000 + n as u64,
        nonce: n as u64,
        signature: [n.wrapping_add(2); 64],
    }
}

fn signed(from: usize, to: usize, amount: u64, nonce: u64) -> Transfer {
    let sender = generate_keypair(from);
    let recipient = generate_keypair(to);
    let signature = sign_transfer_message(
        &sender,
        &sender.public_key(),
        &recipient.public_key(),
        nonce,
        amount,
    );
    Transfer {
        from: sender.public_key(),
        to: recipient.public_key(),
        amount,
        nonce,
        signature,
    }
}

fn document(bytes: &[u8]) -> Result<PayloadJson, String> {
    let value = serde_json::from_slice::<serde_json::Value>(bytes)
        .map_err(|e| format!("Failed to parse JSON payload: {e}"))?;
    let text = |object: &serde_json::Value, name: &str| -> String {
        object[name].as_str().unwrap().to_string()
    };
    if let Some(batch) = value.get("TransferBatch") {
        return Ok(PayloadJson::TransferBatch {
            old_root: text(batch, "old_root"),
            new_root: text(batch, "new_root"),
        });
    }
    let reset = &value["Reset"];
    Ok(PayloadJson::Reset {
        new_root: text(reset, "new_root"),
        signature: text(reset, "signature"),
    })
}

fn refine(payload: &[u8], extrinsic: Option<&[u8]>) -> (Vec<u8>, bool) {
    match TokenLedgerV2::refine(document(payload)) {
        RefineStep::Finished { refined } => (refined.output, refined.export),
        RefineStep::ReadExtrinsic { old_root, new_root } => {
            let refined = TokenLedgerV2::refine_transfers(old_root, new_root, extrinsic);
            assert_eq!(refined.output.is_empty(), refined.refusal.is_some());
            (refined.output, refined.export)
        }
    }
}

fn accumulate(stored: &mut Option<Vec<u8>>, output: Option<&[u8]>) -> bool {
    let mut step = on_work_item(output);
    if let WorkItemStep::ReadRoot { old_root, new_root } = step {
        step = on_stored_root(old_root, new_root, stored.as_deref());
    }
    match step {
        WorkItemStep::WriteRoot {
            value,
            checkpoint_anyway,
        } => {
            *stored = Some(value);
            takes_checkpoint(true, checkpoint_anyway)
        }
        _ => false,
    }
}

#[test]
fn transfers_are_encoded_as_a_list_of_rows() {
    for count in [0usize, 1, 2, 127, 128, 129, 300] {
        let transfers: Vec<Transfer> = (0..count).map(|i| sample(i as u8)).collect();
        let rows: Vec<Row> = transfers.iter().map(row).collect();
        let bytes = encode_transfers(&transfers);
        assert_eq!(bytes, rows.encode());
        let back = decode_transfers(&bytes).unwrap();
        let rows_back: Vec<Row> = back.iter().map(row).collect();
        assert_eq!(rows_back, rows);
    }
}

#[test]
fn one_transfer_takes_144_bytes_after_its_count() {
    let bytes = encode_transfers(&[sample(9)]);
    assert_eq!(bytes.len(), 145);
    assert_eq!(bytes[0], 1);
    assert_eq!(&bytes[1..33], &[9u8; 32]);
    assert_eq!(&bytes[33..65], &[10u8; 32]);
    assert_eq!(&bytes[65..73], &1009u64.to_le_bytes());
    assert_eq!(&bytes[73..81], &9u64.to_le_bytes());
    assert_eq!(&bytes[81..145], &[11u8; 64]);
    // From 128 on, the count takes two bytes.
    let many: Vec<Transfer> = (0..128).map(sample).collect();
    let bytes = encode_transfers(&many);
    assert_eq!(bytes.len(), 2 + 128 * 144);
    assert_eq!(&bytes[..2], &[0x80, 0x80]);
}

#[test]
fn decoding_transfers_ignores_what_follows_and_misses_nothing() {
    let mut bytes = encode_transfers(&[sample(1), sample(2)]);
    let whole = bytes.clone();
    bytes.extend_from_slice(&[0u8; 50]);
    assert_eq!(decode_transfers(&bytes).unwrap().len(), 2);
    assert!(decode_transfers(&whole[..whole.len() - 1]).is_err());
    assert!(decode_transfers(&[]).is_err());
    assert_eq!(decode_transfers(&[0]).unwrap().len(), 0);
    assert_eq!(decode_transfers(&[0, 1, 2, 3]).unwrap().len(), 0);
    assert!(decode_transfers(&[0x80]).is_err());
    // What is wrong is said in the codec's words.
    for bytes in [&[][..], &[0x80][..], &whole[..40]] {
        let error = Vec::<Row>::decode(&mut &bytes[..]).unwrap_err();
        assert_eq!(
            decode_transfers(bytes).map(|ts| ts.len()),
            Err(format!("{:?}", error))
        );
    }
    // A count that does not fit in 32 bits.
    assert!(decode_transfers(&[0xff; 200]).is_err());
    assert!(Vec::<Row>::decode(&mut &[0xffu8; 200][..]).is_err());
    // A count in a longer form than it needs is read all the same.
    let mut padded = vec![0x80, 0x01];
    padded.extend_from_slice(&encode_transfers(&[sample(3)])[1..]);
    let rows = Vec::<Row>::decode(&mut &padded[..]);
    assert_eq!(
        decode_transfers(&padded).ok().map(|ts| ts.len()),
        rows.ok().map(|rows| rows.len())
    );
}

#[test]
fn roots_are_their_own_encoding() {
    let root = [7u8; 32];
    assert_eq!(encode_root(&root), root.encode());
    assert_eq!(decode_root(&root), Some(root));
    let mut longer = root.to_vec();
    longer.push(1);
    assert_eq!(decode_root(&longer), Some(root));
    assert_eq!(decode_root(&root[..31]), None);
}

#[test]
fn outputs_are_encoded_with_their_kind_first() {
    let old_root = [1u8; 32];
    let new_root = [2u8; 32];
    let batch = RefinementOutput::TransferBatch { old_root, new_root };
    let bytes = encode_output(&batch);
    assert_eq!(bytes, (0u8, old_root, new_root).encode());
    match decode_output(&bytes) {
        Some(RefinementOutput::TransferBatch {
            old_root: old,
            new_root: new,
        }) => assert_eq!((old, new), (old_root, new_root)),
        other => panic!("unexpected {other:?}"),
    }
    let reset = RefinementOutput::Reset { new_root };
    let bytes = encode_output(&reset);
    assert_eq!(bytes, (1u8, new_root).encode());
    assert!(matches!(
        decode_output(&bytes),
        Some(RefinementOutput::Reset { new_root: root }) if root == new_root
    ));
    assert!(decode_output(&[]).is_none());
    assert!(decode_output(&[2u8; 80]).is_none());
    assert!(decode_output(&[0u8; 64]).is_none());
    assert!(decode_output(&[1u8; 32]).is_none());
}

#[test]
fn hex_is_read_with_or_without_its_prefix() {
    assert_eq!(decode_fixed_hex::<2>("0aFf"), Ok([0x0a, 0xff]));
    assert_eq!(decode_fixed_hex::<2>("0x0aff"), Ok([0x0a, 0xff]));
    assert_eq!(decode_fixed_hex::<0>(""), Ok([]));
    assert_eq!(
        decode_fixed_hex::<2>("0af").unwrap_err(),
        "Failed to decode fixed-length hex (2 bytes): Odd number of digits"
    );
    assert_eq!(
        decode_fixed_hex::<2>("0aff00").unwrap_err(),
        "Failed to decode fixed-length hex (2 bytes): Invalid string length"
    );
    assert_eq!(
        decode_fixed_hex::<32>(&"zz".repeat(32)).unwrap_err(),
        "Failed to decode fixed-length hex (32 bytes): Invalid character 'z' at position 0"
    );
    assert_eq!(
        decode_fixed_hex::<2>("0X0a").unwrap_err(),
        "Failed to decode fixed-length hex (2 bytes): Invalid character 'X' at position 1"
    );
    // The second prefix is not taken off.
    assert!(decode_fixed_hex::<2>("0x0x0aff").is_err());
}

#[test]
fn payloads_are_written_and_read() {
    let batch = Payload::TransferBatch {
        old_root: [0x0au8; 32],
        new_root: [0xffu8; 32],
    };
    let bytes = encode_payload_json(&batch).unwrap();
    assert_eq!(
        String::from_utf8(bytes.clone()).unwrap(),
        format!(
            "{{\"TransferBatch\":{{\"new_root\":\"{}\",\"old_root\":\"{}\"}}}}",
            "ff".repeat(32),
            "0a".repeat(32)
        )
    );
    match parse_payload(document(&bytes)).unwrap() {
        Payload::TransferBatch { old_root, new_root } => {
            assert_eq!(old_root, [0x0au8; 32]);
            assert_eq!(new_root, [0xffu8; 32]);
        }
        other => panic!("unexpected {other:?}"),
    }
    let reset = Payload::Reset {
        new_root: [3u8; 32],
        signature: [4u8; 64],
    };
    let bytes = encode_payload_json(&reset).unwrap();
    match parse_payload(document(&bytes)).unwrap() {
        Payload::Reset {
            new_root,
            signature,
        } => {
            assert_eq!(new_root, [3u8; 32]);
            assert_eq!(signature, [4u8; 64]);
        }
        other => panic!("unexpected {other:?}"),
    }
}

#[test]
fn bad_payloads_are_reported_by_field() {
    let good = "00".repeat(32);
    let batch = |old_root: &str, new_root: &str| PayloadJson::TransferBatch {
        old_root: old_root.to_string(),
        new_root: new_root.to_string(),
    };
    let reset = |new_root: &str, signature: &str| PayloadJson::Reset {
        new_root: new_root.to_string(),
        signature: signature.to_string(),
    };
    assert_eq!(
        parse_payload(Ok(batch("0", "1"))).unwrap_err(),
        "Invalid old_root hex: Failed to decode fixed-length hex (32 bytes): Odd number of digits"
    );
    assert_eq!(
        parse_payload(Ok(batch(&good, "00"))).unwrap_err(),
        "Invalid new_root hex: Failed to decode fixed-length hex (32 bytes): Invalid string length"
    );
    assert_eq!(
        parse_payload(Ok(reset("00", "0"))).unwrap_err(),
        "Invalid new_root hex: Failed to decode fixed-length hex (32 bytes): Invalid string length"
    );
    assert_eq!(
        parse_payload(Ok(reset(&good, "0"))).unwrap_err(),
        "Invalid signature hex: Failed to decode fixed-length hex (64 bytes): Odd number of digits"
    );
    assert_eq!(
        parse_payload(Err("expected value".to_string())).unwrap_err(),
        "Failed to parse JSON payload: expected value"
    );
}

#[test]
fn segments_hold_4104_bytes() {
    assert_eq!(jam_types::SEGMENT_LEN, 4104);
    assert!(fits_segment(4104));
    assert!(!fits_segment(4105));
    assert!(fits_segment(0));
}

#[test]
fn transfers_are_checked_one_by_one() {
    let good = signed(0, 1, 10, 0);
    assert!(verify_transfers(&[]));
    assert_eq!(check_movement(&good), None);
    assert_eq!(check_transfer(&good), None);
    assert!(verify_transfers(&[good.clone(), signed(1, 0, 3, 0)]));

    let nothing = signed(0, 1, 0, 0);
    assert_eq!(check_movement(&nothing), Some(TransferFault::ZeroAmount));
    assert_eq!(
        find_fault(&[good.clone(), nothing.clone()]),
        Some((1, TransferFault::ZeroAmount))
    );
    assert!(!verify_transfers(&[good.clone(), nothing]));

    let to_self = signed(1, 1, 5, 0);
    assert_eq!(check_movement(&to_self), Some(TransferFault::SelfTransfer));
    assert_eq!(check_transfer(&to_self), Some(TransferFault::SelfTransfer));
    assert!(!verify_transfers(&[to_self]));

    let mut forged = signed(0, 1, 10, 0);
    forged.signature[0] ^= 1;
    assert_eq!(check_movement(&forged), None);
    assert_eq!(
        check_transfer(&forged),
        Some(TransferFault::InvalidSignature)
    );
    assert_eq!(find_fault(&[good.clone()]), None);
    assert!(!verify_transfers(&[good, forged]));

    // Bytes that are no public key at all.
    let mut no_key = signed(0, 1, 10, 0);
    no_key.from = [0xffu8; 32];
    no_key.from[31] = 0x7f;
    no_key.from[0] = 2;
    assert!(!verify_transfers(&[no_key]));
}

#[test]
fn batches_claim_the_root_that_follows() {
    let transfers = [signed(0, 1, 10, 0)];
    let old_root = [1u8; 32];
    let new_root = compute_batch_root(&old_root, &transfers);
    let output = on_transfer_batch(old_root, new_root, &transfers);
    assert_eq!(output, (0u8, old_root, new_root).encode());
    assert!(on_transfer_batch(old_root, [9u8; 32], &transfers).is_empty());
    assert!(check_batch_claim(&[1u8; 32], [0u8; 32], [2u8; 32]).is_empty());
    assert_eq!(
        check_batch_claim(&[2u8; 32], [0u8; 32], [2u8; 32]),
        (0u8, [0u8; 32], [2u8; 32]).encode()
    );
}

#[test]
fn resets_need_the_administrator() {
    assert_eq!(admin(), admin_keypair().public_key());
    let root = [5u8; 32];
    let message = reset_signing_message(root);
    let signature = admin_keypair().sign(&message);
    assert!(verify_reset_signature(root, signature));
    assert_eq!(on_reset(root, signature), (1u8, root).encode());
    let stranger = generate_keypair(0).sign(&message);
    assert!(!verify_reset_signature(root, stranger));
    assert!(on_reset(root, stranger).is_empty());
    assert!(on_reset([6u8; 32], signature).is_empty());
    assert!(answer_reset(false, root).is_empty());
    assert_eq!(answer_reset(true, root), (1u8, root).encode());
}

fn finished(payload: Result<PayloadJson, String>) -> Refined {
    match TokenLedgerV2::refine(payload) {
        RefineStep::Finished { refined } => refined,
        other => panic!("unexpected {other:?}"),
    }
}

#[test]
fn unreadable_payloads_are_refined_to_nothing() {
    let refined = finished(Err("expected value at line 1 column 1".to_string()));
    assert!(refined.output.is_empty() && !refined.export);
    assert_eq!(
        refined.refusal.unwrap().message(),
        "Failed to decode payload: Failed to parse JSON payload: expected value at line 1 column 1"
    );
    let refined = finished(Ok(PayloadJson::Reset {
        new_root: "00".to_string(),
        signature: "00".to_string(),
    }));
    assert!(refined.output.is_empty());
    assert_eq!(
        refined.refusal.unwrap().message(),
        "Failed to decode payload: Invalid new_root hex: Failed to decode fixed-length hex (32 bytes): Invalid string length"
    );
}

#[test]
fn refusals_say_why() {
    let root = [5u8; 32];
    let reset = |signature: [u8; 64]| {
        finished(Ok(PayloadJson::Reset {
            new_root: hex::encode(root),
            signature: hex::encode(signature),
        }))
    };
    let refined = reset([0u8; 64]);
    assert!(refined.output.is_empty());
    assert_eq!(
        refined.refusal.unwrap().message(),
        "Invalid admin signature for reset"
    );
    let refined = reset(admin_keypair().sign(&reset_signing_message(root)));
    assert_eq!(refined.output, (1u8, root).encode());
    assert!(refined.refusal.is_none() && !refined.export);

    let why = |new_root: [u8; 32], extrinsic: Option<&[u8]>| {
        TokenLedgerV2::refine_transfers([1u8; 32], new_root, extrinsic)
            .refusal
            .map(|refusal| refusal.message())
    };
    assert_eq!(
        why(root, None).unwrap(),
        "no extrinsic at index 0. Nothing to do."
    );
    assert_eq!(
        why(root, Some(&[])).unwrap(),
        format!(
            "Failed to decode transfers from extrinsic: {:?}",
            Vec::<Row>::decode(&mut &[][..]).unwrap_err()
        )
    );
    let good = signed(0, 1, 10, 0);
    let nothing = signed(0, 1, 0, 0);
    let to_self = signed(0, 0, 1, 0);
    let mut forged = signed(0, 1, 10, 1);
    forged.amount = 11;
    for (bad, words) in [
        (nothing, "Transfer 1 rejected: zero amount"),
        (to_self, "Transfer 1 rejected: self-transfer"),
        (forged, "Transfer 1 rejected: invalid signature"),
    ] {
        let extrinsic = encode_transfers(&[good.clone(), bad]);
        assert_eq!(why(root, Some(&extrinsic)).unwrap(), words);
    }
    let computed = compute_batch_root(&[1u8; 32], &[good.clone()]);
    let extrinsic = encode_transfers(&[good]);
    assert_eq!(
        why(root, Some(&extrinsic)).unwrap(),
        format!(
            "Root mismatch: computed={}, claimed={}",
            hex::encode(computed),
            hex::encode(root)
        )
    );
    assert_eq!(why(computed, Some(&extrinsic)), None);
}

#[test]
fn batches_are_refined_with_their_extrinsic() {
    let transfers = vec![signed(0, 1, 10, 0), signed(2, 1, 5, 0)];
    let old_root = [1u8; 32];
    let new_root = compute_batch_root(&old_root, &transfers);
    let extrinsic = encode_transfers(&transfers);
    let payload = encode_payload_json(&Payload::TransferBatch { old_root, new_root }).unwrap();

    let (output, export) = refine(&payload, Some(&extrinsic));
    assert_eq!(output, (0u8, old_root, new_root).encode());
    assert!(export);

    let (output, export) = refine(&payload, None);
    assert!(output.is_empty() && !export);
    let (output, export) = refine(&payload, Some(&extrinsic[..100]));
    assert!(output.is_empty() && !export);

    let mut forged = transfers.clone();
    forged[1].amount = 6;
    let (output, export) = refine(&payload, Some(&encode_transfers(&forged)));
    assert!(output.is_empty() && !export);

    // Good transfers are exported even where the claimed root is wrong.
    let lie = encode_payload_json(&Payload::TransferBatch {
        old_root,
        new_root: [9u8; 32],
    })
    .unwrap();
    let (output, export) = refine(&lie, Some(&extrinsic));
    assert!(output.is_empty());
    assert!(export);
}

#[test]
fn large_batches_are_not_exported() {
    // 28 transfers take 4033 bytes, 29 take 4177.
    let transfers: Vec<Transfer> = (0..29).map(|nonce| signed(0, 1, 1, nonce)).collect();
    let old_root = [1u8; 32];
    let small = &transfers[..28];
    let batch = TokenLedgerV2::refine_transfers(
        old_root,
        compute_batch_root(&old_root, small),
        Some(&encode_transfers(small)),
    );
    assert!(!batch.output.is_empty());
    assert!(batch.export);
    let batch = TokenLedgerV2::refine_transfers(
        old_root,
        compute_batch_root(&old_root, &transfers),
        Some(&encode_transfers(&transfers)),
    );
    assert!(!batch.output.is_empty());
    assert!(!batch.export);
}

#[test]
fn the_stored_root_defaults_to_zero() {
    assert_eq!(&STATE_ROOT_KEY, b"state_root");
    assert_eq!(read_stored_root(None), [0u8; 32]);
    assert_eq!(read_stored_root(Some(&[1u8; 31])), [0u8; 32]);
    assert_eq!(read_stored_root(Some(&[1u8; 32])), [1u8; 32]);
    assert_eq!(read_stored_root(Some(&[1u8; 40])), [1u8; 32]);
}

#[test]
fn work_items_move_the_stored_root() {
    let batch = (0u8, [0u8; 32], [1u8; 32]).encode();
    let mut stored = None;
    assert!(accumulate(&mut stored, Some(&batch)));
    assert_eq!(stored, Some(vec![1u8; 32]));
    // The same batch again starts from a root that is gone.
    assert!(!accumulate(&mut stored, Some(&batch)));
    assert_eq!(stored, Some(vec![1u8; 32]));

    let next = (0u8, [1u8; 32], [2u8; 32]).encode();
    assert!(accumulate(&mut stored, Some(&next)));
    assert_eq!(stored, Some(vec![2u8; 32]));

    let reset = (1u8, [7u8; 32]).encode();
    assert!(accumulate(&mut stored, Some(&reset)));
    assert_eq!(stored, Some(vec![7u8; 32]));

    assert!(!accumulate(&mut stored, None));
    assert!(!accumulate(&mut stored, Some(&[])));
    assert!(!accumulate(&mut stored, Some(&[3, 4])));
    assert_eq!(stored, Some(vec![7u8; 32]));
}

#[test]
fn checkpoints_follow_writes() {
    match on_work_item(Some(&(1u8, [7u8; 32]).encode())) {
        WorkItemStep::WriteRoot {
            value,
            checkpoint_anyway,
        } => {
            assert_eq!(value, vec![7u8; 32]);
            assert!(!takes_checkpoint(false, checkpoint_anyway));
            assert!(takes_checkpoint(true, checkpoint_anyway));
        }
        other => panic!("unexpected {other:?}"),
    }
    match on_stored_root([0u8; 32], [1u8; 32], None) {
        WorkItemStep::WriteRoot {
            checkpoint_anyway, ..
        } => assert!(takes_checkpoint(false, checkpoint_anyway)),
        other => panic!("unexpected {other:?}"),
    }
}

#[test]
fn balance_transfers_are_announced() {
    assert_eq!(
        on_transfer(1234, 0xa2db),
        "Received service balance transfer: 1234 from a2dbh"
    );
    assert_eq!(
        on_transfer(0, 0),
        "Received service balance transfer: 0 from 0h"
    );
}

#[test]
fn a_prepared_batch_reaches_the_chain() {
    let mut state = BuilderState::default();
    state.init_accounts(4, 1000);
    let mut stored = None;

    // Nothing on the chain matches the builder's root yet, so a batch is stale.
    state.queue_transfer(0, 1, 5).unwrap();
    let mut early = state.clone();
    let (payload, extrinsic) = early.prepare_transfers().unwrap();
    let (output, _) = refine(&payload, Some(&extrinsic));
    assert!(!output.is_empty());
    assert!(!accumulate(&mut stored, Some(&output)));
    assert_eq!(stored, None);

    let reset = state.prepare_reset().unwrap();
    let (output, export) = refine(&reset, None);
    assert!(!export);
    assert!(accumulate(&mut stored, Some(&output)));
    assert_eq!(stored.as_deref(), Some(&state.current_root[..]));

    state.queue_transfer(2, 1, 30).unwrap();
    state.queue_transfer(3, 9, 40).unwrap();
    let before = state.current_root;
    let (payload, extrinsic) = state.prepare_transfers().unwrap();
    assert_ne!(state.current_root, before);
    let (output, export) = refine(&payload, Some(&extrinsic));
    assert!(export);
    assert!(accumulate(&mut stored, Some(&output)));
    assert_eq!(stored.as_deref(), Some(&state.current_root[..]));
}
