//! The builder: accounts, netting, batches, resets and reports.

use blake2::digest::consts::U32;
use blake2::{Blake2b, Digest};
use ed25519_consensus::{Signature, VerificationKey};
use serde_json::Value;
use token_ledger::accounts::{admin_keypair, generate_keypair, Keypair};
use token_ledger::builder::{canonical_counterpart_delta, BuilderState};
use token_ledger::chain::sign_transfer_message;
use token_ledger::codec::{decode_transfers, encode_transfers};
use token_ledger::order::comes_first;
use token_ledger::errors::BuilderError;
use token_ledger::hexadecimal::decode_fixed_hex;
use token_ledger::ledger::Transfer;
use token_ledger::refinement::{
    compute_batch_root, reset_signing_message, transfer_signing_message, verify_reset_signature,
    verify_transfer_signature, verify_transfers,
};

fn key_of(state: &BuilderState, index: usize) -> [u8; 32] {
    state.accounts[&index].keypair.public_key()
}

fn short(key: &[u8; 32]) -> String {
    hex::encode(key)[..16].to_string()
}

#[test]
fn test_batch_workflow() {
    let mut state = BuilderState::default();
    state.init_accounts(3, 1000);

    let pk0 = state.accounts[&0].keypair.public_key();
    let pk1 = state.accounts[&1].keypair.public_key();
    let pk2 = state.accounts[&2].keypair.public_key();
    let init_root = state.current_root;

    state.queue_transfer(0, 1, 100).unwrap();
    state.queue_transfer(1, 2, 50).unwrap();
    state.queue_transfer(2, 0, 25).unwrap();

    let (payload_json, extrinsic) = state.prepare_transfers().unwrap();
    let transfers = decode_transfers(&extrinsic[..]).unwrap();
    assert_eq!(transfers.len(), 3);
    for transfer in &transfers {
        assert!(verify_transfer_signature(transfer));
    }

    let parsed = serde_json::from_slice::<Value>(&payload_json).unwrap();
    if let Some(batch) = parsed.get("TransferBatch") {
        let old_root = batch["old_root"].as_str().unwrap();
        let new_root = batch["new_root"].as_str().unwrap();
        assert_eq!(old_root, hex::encode(init_root));
        assert_ne!(new_root, hex::encode(init_root));
    } else {
        panic!("Expected transfer batch JSON payload");
    }

    assert_eq!(state.accounts[&0].balance, 925);
    assert_eq!(state.accounts[&1].balance, 1050);
    assert_eq!(state.accounts[&2].balance, 1025);
    assert_eq!(state.accounts[&0].nonce, 1);
    assert_eq!(state.accounts[&1].nonce, 1);
    assert_eq!(state.accounts[&2].nonce, 1);
    assert_eq!(state.accounts[&0].keypair.public_key(), pk0);
    assert_eq!(state.accounts[&1].keypair.public_key(), pk1);
    assert_eq!(state.accounts[&2].keypair.public_key(), pk2);
}

#[test]
fn test_transfer_signatures() {
    let mut state = BuilderState::default();
    state.init_accounts(3, 1000);

    let pk0 = state.accounts[&0].keypair.public_key();
    let pk1 = state.accounts[&1].keypair.public_key();
    let pk2 = state.accounts[&2].keypair.public_key();

    state.queue_transfer(0, 1, 100).unwrap();
    state.queue_transfer(1, 2, 50).unwrap();

    let (_payload_json, extrinsic) = state.prepare_transfers().unwrap();
    let transfers = decode_transfers(&extrinsic[..]).unwrap();

    for transfer in transfers.iter() {
        assert!(verify_transfer_signature(transfer));
    }

    assert_eq!(state.accounts[&0].nonce, 1);
    assert_eq!(state.accounts[&1].nonce, 1);
    assert_eq!(state.accounts[&2].nonce, 0);
    assert_eq!(state.accounts[&0].keypair.public_key(), pk0);
    assert_eq!(state.accounts[&1].keypair.public_key(), pk1);
    assert_eq!(state.accounts[&2].keypair.public_key(), pk2);
}

#[test]
fn test_reset_signature() {
    let mut state = BuilderState::default();
    state.init_accounts(2, 1000);

    let payload_json = state.prepare_reset().unwrap();
    let parsed = serde_json::from_slice::<Value>(&payload_json).unwrap();

    if let Some(reset) = parsed.get("Reset") {
        let new_root = reset["new_root"].as_str().unwrap();
        let signature = reset["signature"].as_str().unwrap();
        let admin = admin_keypair();
        let key = VerificationKey::try_from(admin.public_key()).unwrap();
        let message = reset_signing_message(decode_fixed_hex::<32>(new_root).unwrap());

        let sig_arr = decode_fixed_hex::<64>(signature).unwrap();
        let sig = Signature::from(sig_arr);
        key.verify(&sig, &message)
            .expect("admin signature should be valid");
    } else {
        panic!("Expected reset JSON payload");
    }
}

#[test]
fn test_unknown_recipient_is_registered() {
    let mut state = BuilderState::default();
    state.init_accounts(2, 1000);

    state.queue_transfer(0, 7, 25).unwrap();

    assert!(state.accounts.contains_key(&7));
    assert_eq!(state.accounts.len(), 3);
}

#[test]
fn test_counterpart_aggregation_nets_bidirectional_transfers() {
    let mut state = BuilderState::default();
    state.init_accounts(5, 1000);

    let pk0 = state.accounts[&0].keypair.public_key();
    let pk1 = state.accounts[&1].keypair.public_key();
    let pk2 = state.accounts[&2].keypair.public_key();
    let pk3 = state.accounts[&3].keypair.public_key();

    // First case: we can net multiple accounts between the same pair of counterparts
    state.queue_transfer(0, 1, 100).unwrap();
    state.queue_transfer(1, 0, 30).unwrap();
    state.queue_transfer(1, 0, 20).unwrap();
    state.queue_transfer(0, 1, 80).unwrap();

    let (_payload_json, extrinsic) = state.prepare_transfers().unwrap();
    let transfers = decode_transfers(&extrinsic[..]).unwrap();

    assert_eq!(transfers.len(), 1);
    assert_eq!(transfers[0].amount, 130);
    assert_eq!(transfers[0].from, state.accounts[&0].keypair.public_key());
    assert_eq!(transfers[0].to, state.accounts[&1].keypair.public_key());
    assert_eq!(state.accounts[&0].nonce, 1);
    assert_eq!(state.accounts[&1].nonce, 0);

    // We correctly detect the flow of the net balance.
    // First: A sends...
    state.queue_transfer(2, 3, 100).unwrap();
    state.queue_transfer(2, 3, 100).unwrap();

    let (_payload_json, extrinsic) = state.prepare_transfers().unwrap();
    let transfers = decode_transfers(&extrinsic[..]).unwrap();

    assert_eq!(transfers.len(), 1);
    assert_eq!(transfers[0].amount, 200);
    assert_eq!(transfers[0].from, state.accounts[&2].keypair.public_key());
    assert_eq!(transfers[0].to, state.accounts[&3].keypair.public_key());
    assert_eq!(state.accounts[&2].nonce, 1);
    assert_eq!(state.accounts[&3].nonce, 0);

    // Now: B sends...
    state.queue_transfer(3, 2, 100).unwrap();
    state.queue_transfer(3, 2, 100).unwrap();

    let (_payload_json, extrinsic) = state.prepare_transfers().unwrap();
    let transfers = decode_transfers(&extrinsic[..]).unwrap();

    assert_eq!(transfers.len(), 1);
    assert_eq!(transfers[0].amount, 200);
    assert_eq!(transfers[0].from, state.accounts[&3].keypair.public_key());
    assert_eq!(transfers[0].to, state.accounts[&2].keypair.public_key());
    assert_eq!(state.accounts[&2].nonce, 1);
    assert_eq!(state.accounts[&3].nonce, 1);
    assert_eq!(state.accounts[&0].keypair.public_key(), pk0);
    assert_eq!(state.accounts[&1].keypair.public_key(), pk1);
    assert_eq!(state.accounts[&2].keypair.public_key(), pk2);
    assert_eq!(state.accounts[&3].keypair.public_key(), pk3);
}

#[test]
fn test_failed_transfer_insufficient_balance_nonce_unchanged() {
    let mut state = BuilderState::default();
    state.init_accounts(2, 1000);

    let nonce0_before = state.accounts[&0].nonce;
    let nonce1_before = state.accounts[&1].nonce;

    state.queue_transfer(0, 1, 2_000).unwrap();

    let err = state.prepare_transfers().unwrap_err();
    assert!(err.message().contains("Insufficient balance"));

    assert_eq!(state.accounts[&0].nonce, nonce0_before);
    assert_eq!(state.accounts[&1].nonce, nonce1_before);
    assert_eq!(state.accounts[&0].balance, 1000);
    assert_eq!(state.accounts[&1].balance, 1000);
}

#[test]
fn test_remove_pair_clears_pending_for_counterparts() {
    let mut state = BuilderState::default();
    state.init_accounts(3, 1000);

    state.queue_transfer(0, 1, 40).unwrap();
    state.queue_transfer(1, 2, 10).unwrap();

    state.remove_pending_pair(1, 0).unwrap();

    assert!(!state.pending_net_transfers.contains_key(&(0, 1)));
    assert!(state.pending_net_transfers.contains_key(&(1, 2)));
}

#[test]
fn a_fresh_builder_holds_nothing() {
    let state = BuilderState::default();
    assert!(state.accounts.is_empty());
    assert_eq!(state.current_root, [0u8; 32]);
    assert!(state.pending_net_transfers.is_empty());
    assert_eq!(state.rpc_url, None);
    assert_eq!(state.service_id, None);
    assert!(state.submitted_packages.is_empty());
}

#[test]
fn keys_grow_from_seeds() {
    // The first test vector of RFC 8032, section 7.1.
    let seed = decode_fixed_hex::<32>(
        "9d61b19deffd5a60ba844af492ec2cc44449c5697b326919703bac031cae7f60",
    )
    .unwrap();
    let keypair = Keypair::from_seed(&seed);
    assert_eq!(keypair.signing_key(), seed);
    assert_eq!(
        hex::encode(keypair.public_key()),
        "d75a980182b10ab7d54bfed3c964073a0ee172f3daa62325af021a68f707511a"
    );
    assert_eq!(
        hex::encode(keypair.sign(b"")),
        "e5564300c360ac729086e2cc806e828a84877f1eb8e5d974d873e065224901555fb8821590a33bacc61e39701cf9b46bd25bf5f0595bbe24655141438e7a100b"
    );
}

#[test]
fn account_keys_follow_the_index() {
    let mut seed = [0u8; 32];
    assert_eq!(generate_keypair(0).signing_key(), seed);
    assert_eq!(
        hex::encode(generate_keypair(0).public_key()),
        "3b6a27bcceb6a42d62a3a8d02a6f0d73653215771de243a63ac048a18b59da29"
    );
    seed[0] = 0x02;
    seed[1] = 0x01;
    assert_eq!(generate_keypair(258).signing_key(), seed);
    assert_ne!(
        generate_keypair(258).public_key(),
        generate_keypair(257).public_key()
    );

    let mut admin = [0u8; 32];
    admin[..5].copy_from_slice(b"admin");
    assert_eq!(admin_keypair().signing_key(), admin);
}

#[test]
fn signed_transfers_verify_under_the_sender() {
    let sender = generate_keypair(1);
    let recipient = generate_keypair(2);
    let from = sender.public_key();
    let to = recipient.public_key();
    let signature = sign_transfer_message(&sender, &from, &to, 3, 40);
    let mut transfer = Transfer {
        from,
        to,
        amount: 40,
        nonce: 3,
        signature,
    };
    assert!(verify_transfer_signature(&transfer));
    assert!(verify_transfers(&[transfer.clone()]));

    transfer.amount = 41;
    assert!(!verify_transfer_signature(&transfer));
    transfer.amount = 40;
    transfer.nonce = 4;
    assert!(!verify_transfer_signature(&transfer));
    transfer.nonce = 3;
    transfer.to = from;
    assert!(!verify_transfer_signature(&transfer));
}

#[test]
fn signing_message_hashes_the_fields() {
    let from = [1u8; 32];
    let to = [2u8; 32];
    let mut raw = Vec::new();
    raw.extend_from_slice(&from);
    raw.extend_from_slice(&to);
    raw.extend_from_slice(&7u64.to_le_bytes());
    raw.extend_from_slice(&9u64.to_le_bytes());
    let expected: [u8; 32] = Blake2b::<U32>::digest(&raw).into();
    assert_eq!(transfer_signing_message(&from, &to, 7, 9), expected);

    let reset: [u8; 32] = Blake2b::<U32>::digest([5u8; 32]).into();
    assert_eq!(reset_signing_message([5u8; 32]), reset);
}

#[test]
fn state_root_covers_keys_and_balances_in_order() {
    // The BLAKE2b-256 digest of nothing.
    assert_eq!(
        hex::encode(BuilderState::default().compute_state_root()),
        "0e5751c026e543b2e8ab2eb06099daa1d1e5df47778f7787faab45cdf12fe3a8"
    );
    let mut state = BuilderState::default();
    for index in [9usize, 2, 5, 0, 7] {
        assert!(state.register_sender_account(index, 10 * index as u64));
    }
    assert!(!state.register_sender_account(9, 1));
    let mut rows: Vec<([u8; 32], u64)> = [0usize, 2, 5, 7, 9]
        .iter()
        .map(|index| (generate_keypair(*index).public_key(), 10 * *index as u64))
        .collect();
    let by_index = rows.clone();
    rows.sort();
    // The keys do not come in the order of the indices.
    assert_ne!(rows, by_index);
    let mut raw = Vec::new();
    for (key, balance) in &rows {
        raw.extend_from_slice(key);
        raw.extend_from_slice(&balance.to_le_bytes());
    }
    assert_eq!(state.state_root_bytes(), raw);
    let expected: [u8; 32] = Blake2b::<U32>::digest(&raw).into();
    assert_eq!(state.compute_state_root(), expected);
}

#[test]
fn byte_strings_come_in_the_order_of_their_first_difference() {
    assert!(comes_first(&[1, 2, 3], &[1, 3, 0]));
    assert!(!comes_first(&[1, 3, 0], &[1, 2, 3]));
    assert!(comes_first(&[1, 2], &[1, 2, 0]));
    assert!(!comes_first(&[1, 2, 0], &[1, 2]));
    assert!(!comes_first(&[1, 2], &[1, 2]));
    assert!(comes_first(&[], &[0]));
    assert!(!comes_first(&[], &[]));
}

#[test]
fn many_queued_transfers_net_by_pair() {
    let mut state = BuilderState::default();
    state.init_accounts(4, 1_000);
    let requests: [(usize, usize, u64, bool); 8] = [
        (0, 1, 10, true),
        (1, 0, 25, true),
        (0, 1, 7, true),
        (2, 3, 5, true),
        (3, 2, 5, true),
        (3, 3, 4, false),
        (0, 2, 0, false),
        (8, 0, 4, false),
    ];
    for (from, to, amount, granted) in requests {
        assert!(state.can_queue(from, to, amount));
        assert_eq!(state.queue_transfer(from, to, amount).is_ok(), granted);
    }
    // 10 + 7 one way and 25 the other; 5 each way, which leaves an entry of zero.
    assert_eq!(state.pending_net_transfers.len(), 2);
    assert_eq!(state.pending_net_transfers[&(0, 1)], -8);
    assert_eq!(state.pending_net_transfers[&(2, 3)], 0);
}

#[test]
fn initialising_starts_over() {
    let mut state = BuilderState::default();
    state.init_accounts(4, 10);
    state.queue_transfer(0, 1, 5).unwrap();
    state.insert_package([1u8; 32]);
    state.service_id = Some(3);
    state.init_accounts(2, 20);
    assert_eq!(state.accounts.len(), 2);
    assert_eq!(state.accounts[&1].balance, 20);
    assert_eq!(state.accounts[&1].nonce, 0);
    assert!(state.pending_net_transfers.is_empty());
    assert_eq!(state.current_root, state.compute_state_root());
    assert_eq!(state.submitted_packages, vec![[1u8; 32]]);
    assert_eq!(state.service_id, Some(3));
}

#[test]
fn packages_are_remembered_until_cleared() {
    let mut state = BuilderState::default();
    state.insert_package([1u8; 32]);
    state.insert_package([2u8; 32]);
    assert_eq!(state.submitted_packages, vec![[1u8; 32], [2u8; 32]]);
    let copy = state.clone();
    state.clear_packages();
    assert!(state.submitted_packages.is_empty());
    assert_eq!(copy.submitted_packages.len(), 2);
}

#[test]
fn the_builder_computes_roots_as_the_service_does() {
    let mut state = BuilderState::default();
    state.init_accounts(2, 100);
    let transfer = Transfer {
        from: key_of(&state, 0),
        to: key_of(&state, 1),
        amount: 1,
        nonce: 0,
        signature: [0u8; 64],
    };
    let other = Transfer {
        nonce: 1,
        ..transfer.clone()
    };
    let batch = [transfer.clone(), other.clone()];
    assert_eq!(
        state.compute_batch_root(&batch),
        compute_batch_root(&state.current_root, &batch)
    );
    let swapped = [other, transfer];
    assert_ne!(
        state.compute_batch_root(&batch),
        state.compute_batch_root(&swapped)
    );
}

#[test]
fn batch_root_hashes_the_old_root_and_the_transfers() {
    let transfer = Transfer {
        from: [1u8; 32],
        to: [2u8; 32],
        amount: 3,
        nonce: 4,
        signature: [5u8; 64],
    };
    let mut raw = vec![6u8; 32];
    raw.extend_from_slice(&encode_transfers(&[transfer.clone()]));
    let expected: [u8; 32] = Blake2b::<U32>::digest(&raw).into();
    assert_eq!(compute_batch_root(&[6u8; 32], &[transfer]), expected);
}

#[test]
fn counterparts_are_sorted() {
    assert_eq!(canonical_counterpart_delta(1, 2, 10), (1, 2, 10));
    assert_eq!(canonical_counterpart_delta(2, 1, 10), (1, 2, -10));
    assert_eq!(canonical_counterpart_delta(4, 4, 10), (4, 4, -10));
}

#[test]
fn queueing_refuses_unknown_senders() {
    let mut state = BuilderState::default();
    state.init_accounts(1, 10);
    let error = state.queue_transfer(5, 0, 1).unwrap_err();
    assert!(matches!(error, BuilderError::UnknownSender { index: 5 }));
    assert_eq!(error.message(), "Unknown sender account index: 5");
    let error = state.queue_transfer(5, 6, 1).unwrap_err();
    assert!(matches!(error, BuilderError::UnknownSender { index: 5 }));
    assert!(!state.accounts.contains_key(&6));
}

#[test]
fn queueing_refuses_self_transfers() {
    let mut state = BuilderState::default();
    state.init_accounts(2, 10);
    let error = state.queue_transfer(1, 1, 1).unwrap_err();
    let key = short(&key_of(&state, 1));
    assert_eq!(
        error.message(),
        format!(
            "Cannot transfer to self: sender [1] {key} and recipient [1] {key} are the same account"
        )
    );
    assert!(state.pending_net_transfers.is_empty());
}

#[test]
fn queueing_refuses_nothing_but_registers_the_recipient() {
    let mut state = BuilderState::default();
    state.init_accounts(2, 10);
    let error = state.queue_transfer(0, 8, 0).unwrap_err();
    assert_eq!(error.message(), "Cannot transfer zero amount");
    assert_eq!(state.accounts[&8].balance, 0);
    assert!(state.pending_net_transfers.is_empty());
}

#[test]
fn opposite_transfers_cancel_out() {
    let mut state = BuilderState::default();
    state.init_accounts(3, 100);
    state.queue_transfer(2, 1, 30).unwrap();
    assert_eq!(state.pending_net_transfers[&(1, 2)], -30);
    state.queue_transfer(1, 2, 30).unwrap();
    assert_eq!(state.pending_net_transfers[&(1, 2)], 0);
    let error = state.prepare_transfers().unwrap_err();
    assert_eq!(error.message(), "No net transfers after aggregation");
    assert!(state.pending_net_transfers.is_empty());
    assert_eq!(state.current_root, state.compute_state_root());
}

#[test]
fn there_is_room_to_queue_up_to_the_end_of_the_range() {
    let mut state = BuilderState::default();
    state.init_accounts(2, 100);
    assert!(state.can_queue(0, 1, u64::MAX));
    state.pending_net_transfers.insert((0, 1), i128::MAX - 5);
    assert!(state.can_queue(0, 1, 5));
    assert!(!state.can_queue(0, 1, 6));
    assert!(state.can_queue(1, 0, u64::MAX));
    state.pending_net_transfers.insert((0, 1), i128::MIN + 5);
    assert!(state.can_queue(1, 0, 5));
    assert!(!state.can_queue(1, 0, 6));
    assert!(state.can_queue(7, 0, 6));
    assert!(state.can_queue(1, 1, 6));
}

#[test]
fn removing_pairs_reports_what_is_missing() {
    let mut state = BuilderState::default();
    state.init_accounts(3, 100);
    assert_eq!(
        state.remove_pending_pair(1, 1).unwrap_err().message(),
        "Cannot remove pair for same account index"
    );
    assert_eq!(
        state.remove_pending_pair(2, 1).unwrap_err().message(),
        "No pending transfer pair found between 2 and 1"
    );
    state.queue_transfer(2, 1, 5).unwrap();
    state.remove_pending_pair(2, 1).unwrap();
    assert!(state.pending_net_transfers.is_empty());
}

#[test]
fn preparing_needs_pending_transfers() {
    let mut state = BuilderState::default();
    state.init_accounts(2, 100);
    let error = state.prepare_transfers().unwrap_err();
    assert!(matches!(error, BuilderError::NoPendingTransfers));
    assert_eq!(error.message(), "No pending transfers");
}

#[test]
fn preparing_stops_at_the_first_failure() {
    let mut state = BuilderState::default();
    state.init_accounts(3, 100);
    let root = state.current_root;
    state.queue_transfer(0, 1, 60).unwrap();
    state.queue_transfer(0, 2, 60).unwrap();
    state.queue_transfer(1, 2, 10).unwrap();
    let error = state.prepare_transfers().unwrap_err();
    assert_eq!(
        error.message(),
        format!(
            "Insufficient balance: sender [0] {} has 40 but needs 60",
            short(&key_of(&state, 0))
        )
    );
    // The first transfer was carried out, the others were not, and none is pending.
    assert_eq!(state.accounts[&0].balance, 40);
    assert_eq!(state.accounts[&0].nonce, 1);
    assert_eq!(state.accounts[&1].balance, 160);
    assert_eq!(state.accounts[&2].balance, 100);
    assert_eq!(state.accounts[&1].nonce, 0);
    assert!(state.pending_net_transfers.is_empty());
    assert_eq!(state.current_root, root);
}

#[test]
fn preparing_misses_accounts() {
    let mut state = BuilderState::default();
    state.init_accounts(1, 100);
    state.pending_net_transfers.insert((3, 4), 1);
    let error = state.prepare_transfers().unwrap_err();
    assert!(matches!(error, BuilderError::SenderNotFound { index: 3 }));
    assert_eq!(error.message(), "Sender account index not found: 3");

    state.pending_net_transfers.insert((0, 4), 30);
    let error = state.prepare_transfers().unwrap_err();
    assert!(matches!(error, BuilderError::RecipientNotFound { index: 4 }));
    assert_eq!(error.message(), "Recipient account index not found: 4");
    // The sender has paid by then.
    assert_eq!(state.accounts[&0].balance, 70);
    assert_eq!(state.accounts[&0].nonce, 1);
}

#[test]
fn credits_stop_at_the_largest_balance() {
    let mut state = BuilderState::default();
    state.init_accounts(2, u64::MAX - 1);
    state.queue_transfer(0, 1, 10).unwrap();
    state.prepare_transfers().unwrap();
    assert_eq!(state.accounts[&0].balance, u64::MAX - 11);
    assert_eq!(state.accounts[&1].balance, u64::MAX);
}

#[test]
fn net_transfers_are_not_cut() {
    let mut state = BuilderState::default();
    state.init_accounts(2, 1000);
    state.queue_transfer(0, 1, u64::MAX).unwrap();
    state.queue_transfer(0, 1, 1).unwrap();
    assert_eq!(state.pending_net_transfers[&(0, 1)], 1i128 << 64);
    let error = state.prepare_transfers().unwrap_err();
    assert_eq!(
        error.message(),
        format!(
            "Insufficient balance: sender [0] {} has 1000 but needs 18446744073709551616",
            short(&key_of(&state, 0))
        )
    );
    for index in 0..2 {
        assert_eq!(state.accounts[&index].balance, 1000);
        assert_eq!(state.accounts[&index].nonce, 0);
    }

    state.pending_net_transfers.insert((0, 1), -(1i128 << 64) - 7);
    let error = state.prepare_transfers().unwrap_err();
    assert!(matches!(
        error,
        BuilderError::InsufficientBalance { index: 1, balance: 1000, amount, .. }
            if amount == (1u128 << 64) + 7
    ));
}

#[test]
fn the_largest_balance_can_be_sent() {
    let mut state = BuilderState::default();
    state.init_accounts(2, u64::MAX);
    state.accounts.get_mut(&1).unwrap().balance = 0;
    state.queue_transfer(0, 1, u64::MAX).unwrap();
    let (_, extrinsic) = state.prepare_transfers().unwrap();
    let transfers = decode_transfers(&extrinsic).unwrap();
    assert_eq!(transfers[0].amount, u64::MAX);
    assert!(verify_transfers(&transfers));
    assert_eq!(state.accounts[&0].balance, 0);
    assert_eq!(state.accounts[&1].balance, u64::MAX);
}

#[test]
fn nonces_count_the_transfers_of_a_sender() {
    let mut state = BuilderState::default();
    state.init_accounts(4, 100);
    state.queue_transfer(2, 0, 1).unwrap();
    state.queue_transfer(2, 1, 1).unwrap();
    state.queue_transfer(2, 3, 1).unwrap();
    let (_, extrinsic) = state.prepare_transfers().unwrap();
    let transfers = decode_transfers(&extrinsic).unwrap();
    let nonces: Vec<u64> = transfers.iter().map(|t| t.nonce).collect();
    assert_eq!(nonces, vec![0, 1, 2]);
    assert_eq!(state.accounts[&2].nonce, 3);
    let recipients: Vec<[u8; 32]> = transfers.iter().map(|t| t.to).collect();
    assert_eq!(
        recipients,
        vec![key_of(&state, 0), key_of(&state, 1), key_of(&state, 3)]
    );
}

#[test]
fn the_supply_stays() {
    let mut state = BuilderState::default();
    state.init_accounts(5, 1000);
    state.queue_transfer(0, 1, 10).unwrap();
    state.queue_transfer(3, 2, 999).unwrap();
    state.queue_transfer(4, 9, 500).unwrap();
    state.queue_transfer(1, 4, 1).unwrap();
    let total: u64 = state.accounts.values().map(|a| a.balance).sum();
    assert_eq!(total, 5000);
    state.prepare_transfers().unwrap();
    let total: u64 = state.accounts.values().map(|a| a.balance).sum();
    assert_eq!(total, 5000);
}

#[test]
fn room_for_a_batch_is_checked() {
    let mut state = BuilderState::default();
    assert!(state.can_prepare());
    state.init_accounts(3, 1000);
    state.queue_transfer(0, 1, 10).unwrap();
    state.queue_transfer(0, 2, 10).unwrap();
    assert!(state.can_prepare());
    // Two nonces are left, and two are needed.
    state.accounts.get_mut(&0).unwrap().nonce = u64::MAX - 2;
    assert!(state.can_prepare());
    state.accounts.get_mut(&0).unwrap().nonce = u64::MAX - 1;
    assert!(!state.can_prepare());
    // A recipient's nonce does not matter, nor one that a failure keeps from being used.
    state.accounts.get_mut(&0).unwrap().nonce = 0;
    state.accounts.get_mut(&1).unwrap().nonce = u64::MAX;
    assert!(state.can_prepare());
    state.accounts.get_mut(&0).unwrap().nonce = u64::MAX;
    state.accounts.get_mut(&0).unwrap().balance = 5;
    assert!(state.can_prepare());
    assert!(matches!(
        state.clone().prepare_transfers(),
        Err(BuilderError::InsufficientBalance { index: 0, .. })
    ));
    // What comes after a failure is not looked at.
    state.pending_net_transfers.insert((1, 2), i128::MIN);
    assert!(state.can_prepare());
    state.accounts.get_mut(&0).unwrap().nonce = 0;
    state.accounts.get_mut(&0).unwrap().balance = 1000;
    assert!(!state.can_prepare());
    assert_eq!(state.accounts[&0].balance, 1000);
}

#[test]
fn resets_are_signed_by_the_administrator() {
    let mut state = BuilderState::default();
    state.init_accounts(2, 1000);
    let root = state.current_root;
    let payload = state.prepare_reset().unwrap();
    assert_eq!(state.current_root, root);
    let message = reset_signing_message(root);
    let signature = admin_keypair().sign(&message);
    assert!(verify_reset_signature(root, signature));
    assert_eq!(
        String::from_utf8(payload).unwrap(),
        format!(
            "{{\"Reset\":{{\"new_root\":\"{}\",\"signature\":\"{}\"}}}}",
            hex::encode(root),
            hex::encode(signature)
        )
    );
    let other = generate_keypair(0).sign(&message);
    assert!(!verify_reset_signature(root, other));
}

#[test]
fn reports_show_the_state() {
    let mut state = BuilderState::default();
    let report = state.show_state(true);
    assert_eq!(report.root, "0".repeat(64));
    assert_eq!(report.rpc_url, None);
    assert_eq!(report.service_id, None);
    assert_eq!(report.pending_pairs, 0);
    assert_eq!(report.pending.unwrap().len(), 0);

    state.init_accounts(3, 1000);
    state.rpc_url = Some("ws://localhost:19800".to_string());
    state.service_id = Some(0xa2db);
    state.insert_package([1u8; 32]);
    state.queue_transfer(2, 0, 7).unwrap();
    state.queue_transfer(0, 1, 5).unwrap();
    state.queue_transfer(1, 0, 5).unwrap();
    state.pending_net_transfers.insert((1, 8), 3);
    let report = state.show_state(false);
    assert_eq!(report.root, hex::encode(state.current_root));
    assert_eq!(report.rpc_url.as_deref(), Some("ws://localhost:19800"));
    assert_eq!(report.service_id.as_deref(), Some("0000a2db"));
    assert_eq!(report.packages, 1);
    assert_eq!(report.pending_pairs, 3);
    assert!(report.pending.is_none());
    assert_eq!(report.accounts.len(), 3);
    assert_eq!(report.accounts[2].index, 2);
    assert_eq!(report.accounts[2].key, short(&key_of(&state, 2)));
    assert_eq!(report.accounts[2].balance, 1000);
    assert_eq!(report.accounts[2].nonce, 0);

    let pending = state.show_state(true).pending.unwrap();
    // The pair that cancels out is left out.
    assert_eq!(pending.len(), 2);
    assert_eq!((pending[0].from, pending[0].to), (0, 2));
    assert_eq!(pending[0].amount, -7);
    assert_eq!(pending[0].from_key, short(&key_of(&state, 0)));
    assert_eq!(pending[1].to_key, "0".repeat(16));
    assert_eq!(pending[1].amount, 3);
}
