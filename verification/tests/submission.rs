//! Submissions: plans, cores, statuses and the chain's root.

use jam_codec::{Decode, Encode};
use jam_types::WorkPackage;
use token_ledger::builder::BuilderState;
use token_ledger::submission::{
    authorizer_hash, expected_export_count, plan_package, preflight, read_chain_root,
    seal_encoding, seal_package, service_code, submitted_message, ChainContext, ChainError,
    PackageFault, PackageStage, StatusEvent, StatusWatch, Submission, BOOTSTRAP_SERVICE_ID,
};

fn context() -> ChainContext {
    ChainContext {
        anchor: [1u8; 32],
        state_root: [2u8; 32],
        beefy_root: [3u8; 32],
        lookup_anchor: [4u8; 32],
        lookup_anchor_slot: 5,
    }
}

#[test]
fn the_chain_hashes_with_blake2b() {
    assert_eq!(
        hex::encode(authorizer_hash(b"")),
        "0e5751c026e543b2e8ab2eb06099daa1d1e5df47778f7787faab45cdf12fe3a8"
    );
    assert_eq!(authorizer_hash(b"code"), jam_std_common::hash_raw(b"code"));
    assert_ne!(authorizer_hash(b"code"), authorizer_hash(b"cods"));
}

#[test]
fn packages_are_planned() {
    let plan = plan_package(
        0xab,
        [6u8; 32],
        b"payload",
        b"extrinsic",
        1,
        10,
        20,
        [7u8; 32],
        context(),
    );
    assert_eq!(plan.service, 0xab);
    assert_eq!(plan.code_hash, [6u8; 32]);
    assert_eq!(plan.payload, b"payload");
    assert_eq!(plan.refine_gas_limit, 10);
    assert_eq!(plan.accumulate_gas_limit, 20);
    assert_eq!(plan.extrinsic_hash, jam_std_common::hash_raw(b"extrinsic"));
    assert_eq!(plan.extrinsic_len, 9);
    assert_eq!(plan.export_count, 1);
    assert_eq!(plan.auth_code_host, BOOTSTRAP_SERVICE_ID);
    assert_eq!(plan.authorizer_hash, [7u8; 32]);
    assert_eq!(plan.context.anchor, [1u8; 32]);
    assert_eq!(plan.context.lookup_anchor_slot, 5);

    let large = plan_package(
        0xab, [6u8; 32], b"", &[0u8; 4105], 1, 10, 20, [7u8; 32], context(),
    );
    assert_eq!(large.export_count, 0);
    assert_eq!(large.extrinsic_len, 4105);
}

#[test]
fn packages_are_sealed() {
    let plan = plan_package(
        0xab,
        [6u8; 32],
        b"payload",
        b"extrinsic",
        1,
        10,
        20,
        [7u8; 32],
        context(),
    );
    let sealed = seal_package(plan).unwrap();
    assert_eq!(sealed.hash, jam_std_common::hash_raw(&sealed.bytes));

    let package = WorkPackage::decode(&mut &sealed.bytes[..]).unwrap();
    assert_eq!(package.encode(), sealed.bytes);
    assert!(package.authorization.is_empty());
    assert_eq!(package.auth_code_host, 0);
    assert_eq!(package.authorizer.code_hash.0, [7u8; 32]);
    assert!(package.authorizer.config.is_empty());
    assert_eq!(package.context.anchor.0, [1u8; 32]);
    assert_eq!(package.context.state_root.0, [2u8; 32]);
    assert_eq!(package.context.beefy_root.0, [3u8; 32]);
    assert_eq!(package.context.lookup_anchor.0, [4u8; 32]);
    assert_eq!(package.context.lookup_anchor_slot, 5);
    assert_eq!(package.context.prerequisites.len(), 0);
    assert_eq!(package.items.len(), 1);
    let item = &package.items[0];
    assert_eq!(item.service, 0xab);
    assert_eq!(item.code_hash.0, [6u8; 32]);
    assert_eq!(&item.payload[..], b"payload");
    assert_eq!(item.refine_gas_limit, 10);
    assert_eq!(item.accumulate_gas_limit, 20);
    assert_eq!(item.export_count, 1);
    assert_eq!(item.import_segments.len(), 0);
    assert_eq!(item.extrinsics.len(), 1);
    assert_eq!(
        item.extrinsics[0].hash.0,
        jam_std_common::hash_raw(b"extrinsic")
    );
    assert_eq!(item.extrinsics[0].len, 9);
}

#[test]
fn packages_are_laid_out_field_by_field() {
    let payload = [9u8; 200];
    let plan = plan_package(
        0xab,
        [6u8; 32],
        &payload,
        b"extrinsic",
        1,
        10,
        20,
        [7u8; 32],
        context(),
    );
    let mut bytes: Vec<u8> = Vec::new();
    bytes.extend_from_slice(&0u32.to_le_bytes());
    bytes.extend_from_slice(&[7u8; 32]);
    for hash in [[1u8; 32], [2u8; 32], [3u8; 32], [4u8; 32]] {
        bytes.extend_from_slice(&hash);
    }
    bytes.extend_from_slice(&5u32.to_le_bytes());
    // No prerequisites, authorization or configuration, and one item.
    bytes.extend_from_slice(&[0, 0, 0, 1]);
    bytes.extend_from_slice(&0xabu32.to_le_bytes());
    bytes.extend_from_slice(&[6u8; 32]);
    bytes.extend_from_slice(&10u64.to_le_bytes());
    bytes.extend_from_slice(&20u64.to_le_bytes());
    bytes.extend_from_slice(&1u16.to_le_bytes());
    bytes.extend_from_slice(&[0x80, 200]);
    bytes.extend_from_slice(&payload);
    // No imports, and one extrinsic.
    bytes.extend_from_slice(&[0, 1]);
    bytes.extend_from_slice(&jam_std_common::hash_raw(b"extrinsic"));
    bytes.extend_from_slice(&9u32.to_le_bytes());
    assert_eq!(seal_package(plan).unwrap().bytes, bytes);
}

#[test]
fn packages_without_room_are_not_sealed() {
    assert_eq!(
        seal_encoding(Err(PackageFault::Extrinsics))
            .unwrap_err()
            .message(),
        "Too many extrinsics in work item"
    );
    assert_eq!(
        seal_encoding(Err(PackageFault::Items))
            .unwrap_err()
            .message(),
        "Too many work items in package"
    );
    let sealed = seal_encoding(Ok(vec![1, 2, 3])).unwrap();
    assert_eq!(sealed.bytes, vec![1, 2, 3]);
    assert_eq!(sealed.hash, jam_std_common::hash_raw(&[1, 2, 3]));
}

#[test]
fn a_service_must_exist() {
    assert_eq!(
        service_code(Some([3u8; 32]), 255, "0xaa".to_string()).unwrap(),
        [3u8; 32]
    );
    assert_eq!(
        service_code(None, 255, "0xaa".to_string())
            .unwrap_err()
            .message(),
        "Service 255 not found at anchor 0xaa"
    );
}

#[test]
fn exports_are_announced_where_they_fit() {
    assert_eq!(expected_export_count(4104, 1), 1);
    assert_eq!(expected_export_count(4105, 1), 0);
    assert_eq!(expected_export_count(0, 0), 0);
    assert_eq!(expected_export_count(10, 3), 3);
}

#[test]
fn both_codes_must_be_available() {
    assert!(preflight(true, true, 1, [0u8; 32], [0u8; 32], "anchor".to_string()).is_ok());
    for (service, authorizer) in [(false, true), (true, false), (false, false)] {
        let error = preflight(
            service,
            authorizer,
            0xa2db,
            [0x0au8; 32],
            [0xbbu8; 32],
            "0xff".to_string(),
        )
        .unwrap_err();
        assert_eq!(
            error.message(),
            format!(
                "Preflight failed before submit: code preimage missing. service_preimage_available={}, authorizer_preimage_available={}\nservice={:08x}, service_code_hash={}, auth_code_host={:08x}, null_authorizer_hash={}, anchor={}\nHint: this commonly happens when targeting externally deployed services whose code preimage is not available to this node.",
                service,
                authorizer,
                0xa2db,
                "0a".repeat(32),
                0,
                "bb".repeat(32),
                "0xff"
            )
        );
    }
}

#[test]
fn a_chain_without_cores_takes_nothing() {
    let error = Submission::begin(0).unwrap_err();
    assert!(matches!(error, ChainError::NoCores));
    assert_eq!(error.message(), "Chain reports core_count=0");
}

#[test]
fn the_first_core_that_takes_a_package_ends_the_submission() {
    let mut state = BuilderState::default();
    let mut submission = Submission::begin(3).unwrap();
    assert_eq!(submission.next_core(), 0);
    let end = submission.on_outcome(&mut state, Err(ChainError::MissingService));
    assert!(end.is_none());
    assert_eq!(submission.next_core(), 1);
    assert!(state.submitted_packages.is_empty());
    let end = submission.on_outcome(&mut state, Ok(("done".to_string(), [9u8; 32])));
    assert_eq!(
        end.unwrap().unwrap(),
        "Selected core 1 and updated default core.\ndone"
    );
    assert_eq!(state.submitted_packages, vec![[9u8; 32]]);
}

#[test]
fn a_submission_that_no_core_takes_lists_all_errors() {
    let mut state = BuilderState::default();
    let mut submission = Submission::begin(2).unwrap();
    let failed = ChainError::SubmitFailed {
        message: "busy".to_string(),
    };
    assert!(submission.on_outcome(&mut state, Err(failed)).is_none());
    let node = ChainError::Node {
        message: "gone".to_string(),
    };
    let error = submission
        .on_outcome(&mut state, Err(node))
        .unwrap()
        .unwrap_err();
    assert_eq!(
        error.message(),
        "Submission failed on all 2 cores.\ncore 0: submit_work_package failed: busy\nHint: this often means no reachable guarantor for the selected core/anchor, authorizer mismatch, or package validation rejection.\ncore 1: gone"
    );
    assert!(state.submitted_packages.is_empty());
}

#[test]
fn other_errors_have_their_words() {
    assert_eq!(
        ChainError::NotConnected.message(),
        "RPC client not configured"
    );
    assert_eq!(
        ChainError::ServiceNotFound {
            service_id: 255,
            anchor: "0xaa".to_string()
        }
        .message(),
        "Service 255 not found at anchor 0xaa"
    );
    let state = BuilderState::default();
    assert_eq!(
        state.target_service().unwrap_err().message(),
        "Missing service_id"
    );
    assert_eq!(
        state.configured_service().unwrap_err().message(),
        "Service not configured. Use: service <hex_id>"
    );
    let chosen = BuilderState {
        service_id: Some(8),
        ..state
    };
    assert_eq!(chosen.target_service().unwrap(), 8);
    assert_eq!(chosen.configured_service().unwrap(), 8);
}

#[test]
fn a_watch_ends_with_the_package() {
    for stage in [PackageStage::Ready, PackageStage::Failed] {
        let mut watch = StatusWatch::begin();
        assert_eq!(watch.message, "submitted (no status update yet)");
        assert!(watch.on_event(StatusEvent::Update {
            slot: 1,
            stage: PackageStage::Reportable,
            status: "Reportable".to_string(),
        }));
        assert_eq!(watch.message, "slot 1: Reportable");
        assert!(!watch.on_event(StatusEvent::Update {
            slot: 12,
            stage,
            status: "end".to_string(),
        }));
        assert_eq!(watch.message, "slot 12: end");
    }
}

#[test]
fn a_watch_ends_with_the_subscription() {
    let mut watch = StatusWatch::begin();
    assert!(!watch.on_event(StatusEvent::Closed));
    assert_eq!(watch.message, "submitted (no status update yet)");
    let mut watch = StatusWatch::begin();
    assert!(!watch.on_event(StatusEvent::Error {
        message: "lost".to_string()
    }));
    assert_eq!(watch.message, "status subscription error: lost");
}

#[test]
fn a_watch_ends_after_twenty_updates() {
    let mut watch = StatusWatch::begin();
    let mut updates = 1;
    while watch.on_event(StatusEvent::Update {
        slot: updates,
        stage: PackageStage::Reported,
        status: "Reported".to_string(),
    }) {
        updates += 1;
    }
    assert_eq!(updates, 20);
    assert_eq!(watch.message, "slot 20: Reported");
}

#[test]
fn submissions_are_described() {
    assert_eq!(
        submitted_message(0xa2db, 3, "0xaa", 10, 145, &[0x0bu8; 32], "slot 1: Ready"),
        format!(
            "WorkPackage submitted:\n  - Service: 0000a2db\n  - Core: 3\n  - Anchor: 0xaa\n  - Payload: 10 bytes\n  - Extrinsic: 145 bytes\n  - Hash: {}\n  - Status: slot 1: Ready",
            "0b".repeat(32)
        )
    );
}

#[test]
fn the_root_on_the_chain_is_read_and_adopted() {
    assert_eq!(read_chain_root(None).unwrap(), [0u8; 32]);
    assert_eq!(read_chain_root(Some(&[5u8; 32])).unwrap(), [5u8; 32]);
    assert_eq!(read_chain_root(Some(&[5u8; 33])).unwrap(), [5u8; 32]);
    assert_eq!(
        read_chain_root(Some(&[5u8; 31])).unwrap_err().message(),
        "Failed to decode service state_root storage value"
    );
    let mut state = BuilderState::default();
    assert_eq!(state.adopt_root([5u8; 32]), [0u8; 32]);
    assert_eq!(state.current_root, [5u8; 32]);
}
