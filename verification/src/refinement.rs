//! Refinement: checking a work item's payload off chain.

use crate::codec::{decode_transfers, encode_output, encode_transfers, output_bytes,
    parse_transfers, transfers_bytes, transfers_error_text};
use crate::crypto::{blake2b, blake2b_digest, ed25519_accepts, ed25519_public_key, public_key_of,
    verify_message};
use crate::json::{document_view, parse_payload, read_payload, PayloadJson, PayloadJsonView};
use crate::text::{append_number, decimal};
use crate::ledger::{transfer_views, AccountId, OutputView, Payload, PayloadView,
    RefinementOutput, StateRoot, TokenLedgerV2, Transfer, TransferView};
use crate::hexadecimal::{hex_encode, hex_text};
use crate::octets::{append_bytes, bytes_view, same_bytes};
use vstd::bytes::{spec_u64_to_le_bytes, u64_to_le_bytes};
use vstd::prelude::*;

verus! {

/// How many bytes one exported segment holds.
pub open spec fn segment_bytes() -> nat {
    4104
}

/// Reads `jam_types::SEGMENT_LEN`, which is fixed.
#[verifier::external_body]
fn segment_len() -> (len: usize)
    ensures
        len == segment_bytes(),
{
    jam_types::SEGMENT_LEN
}

/// Whether so many bytes fit in one exported segment.
pub fn fits_segment(len: usize) -> (fits: bool)
    ensures
        fits == (len <= segment_bytes()),
{
    len <= segment_len()
}

/// The root that follows `old_root` once `ts` are applied: a digest of the two.
pub open spec fn batch_root(old_root: Seq<u8>, ts: Seq<TransferView>) -> Seq<u8> {
    blake2b_digest(old_root + transfers_bytes(ts))
}

/// Computes the root that follows `old_root` once `transfers` are applied.
pub fn compute_batch_root(old_root: &StateRoot, transfers: &[Transfer]) -> (root: StateRoot)
    requires
        transfers@.len() <= u32::MAX,
    ensures
        root@ == batch_root(old_root@, transfer_views(transfers@)),
{
    let mut data: Vec<u8> = Vec::new();
    append_bytes(&mut data, old_root.as_slice());
    append_bytes(&mut data, encode_transfers(transfers).as_slice());
    assert(data@ =~= old_root@ + transfers_bytes(transfer_views(transfers@)));
    blake2b(data.as_slice())
}

/// The output for a batch that claims `new_root` where `computed_root` was computed: none if the
/// claim is false.
pub open spec fn batch_claim_output(
    computed_root: Seq<u8>,
    old_root: Seq<u8>,
    new_root: Seq<u8>,
) -> Seq<u8> {
    if computed_root == new_root {
        output_bytes(OutputView::TransferBatch { old_root, new_root })
    } else {
        Seq::empty()
    }
}

/// Holds a batch's claimed root against the computed one.
pub fn check_batch_claim(
    computed_root: &StateRoot,
    old_root: StateRoot,
    new_root: StateRoot,
) -> (output: Vec<u8>)
    ensures
        output@ == batch_claim_output(computed_root@, old_root@, new_root@),
{
    if !same_bytes(computed_root.as_slice(), new_root.as_slice()) {
        return Vec::new();
    }
    encode_output(&RefinementOutput::TransferBatch { old_root, new_root })
}

/// Checks that `new_root` is the root that follows `old_root` once `transfers` are applied.
pub fn on_transfer_batch(
    old_root: StateRoot,
    new_root: StateRoot,
    transfers: &[Transfer],
) -> (output: Vec<u8>)
    requires
        transfers@.len() <= u32::MAX,
    ensures
        output@ == batch_claim_output(
            batch_root(old_root@, transfer_views(transfers@)),
            old_root@,
            new_root@,
        ),
{
    let computed_root: StateRoot = compute_batch_root(&old_root, transfers);
    check_batch_claim(&computed_root, old_root, new_root)
}

/// The bytes that a transfer's signature covers, before they are hashed.
pub open spec fn transfer_preimage(
    from: Seq<u8>,
    to: Seq<u8>,
    nonce: u64,
    amount: u64,
) -> Seq<u8> {
    from + to + spec_u64_to_le_bytes(nonce) + spec_u64_to_le_bytes(amount)
}

/// The message that a transfer's sender signs.
pub open spec fn transfer_message(
    from: Seq<u8>,
    to: Seq<u8>,
    nonce: u64,
    amount: u64,
) -> Seq<u8> {
    blake2b_digest(transfer_preimage(from, to, nonce, amount))
}

/// Lays out the bytes that a transfer's signature covers.
pub fn transfer_signing_bytes(
    from: &AccountId,
    to: &AccountId,
    nonce: u64,
    amount: u64,
) -> (bytes: Vec<u8>)
    ensures
        bytes@ == transfer_preimage(from@, to@, nonce, amount),
{
    let mut bytes: Vec<u8> = Vec::new();
    append_bytes(&mut bytes, from.as_slice());
    append_bytes(&mut bytes, to.as_slice());
    append_bytes(&mut bytes, u64_to_le_bytes(nonce).as_slice());
    append_bytes(&mut bytes, u64_to_le_bytes(amount).as_slice());
    assert(bytes@ =~= transfer_preimage(from@, to@, nonce, amount));
    bytes
}

/// Computes the message that a transfer's sender signs.
pub fn transfer_signing_message(
    from: &AccountId,
    to: &AccountId,
    nonce: u64,
    amount: u64,
) -> (message: [u8; 32])
    ensures
        message@ == transfer_message(from@, to@, nonce, amount),
{
    blake2b(transfer_signing_bytes(from, to, nonce, amount).as_slice())
}

/// The message that the administrator signs to order a reset.
pub open spec fn reset_message(new_root: Seq<u8>) -> Seq<u8> {
    blake2b_digest(new_root)
}

/// Computes the message that the administrator signs to order a reset.
pub fn reset_signing_message(new_root: StateRoot) -> (message: [u8; 32])
    ensures
        message@ == reset_message(new_root@),
{
    blake2b(new_root.as_slice())
}

/// Whether a transfer's signature is its sender's, on this transfer.
pub open spec fn signed_by_sender(t: TransferView) -> bool {
    ed25519_accepts(t.from, t.signature, transfer_message(t.from, t.to, t.nonce, t.amount))
}

/// Checks that a transfer's signature is its sender's, on this transfer.
pub fn verify_transfer_signature(transfer: &Transfer) -> (valid: bool)
    ensures
        valid == signed_by_sender(transfer@),
{
    let message: [u8; 32] = transfer_signing_message(
        &transfer.from,
        &transfer.to,
        transfer.nonce,
        transfer.amount,
    );
    verify_message(&transfer.from, &transfer.signature, message.as_slice())
}

/// Whether a transfer moves something, from one account to another.
pub open spec fn moves_tokens(t: TransferView) -> bool {
    t.amount != 0 && t.from != t.to
}

/// Whether the service takes a transfer.
pub open spec fn acceptable(t: TransferView) -> bool {
    moves_tokens(t) && signed_by_sender(t)
}

/// Whether the service takes every one of some transfers.
pub open spec fn all_acceptable(ts: Seq<TransferView>) -> bool {
    forall|i: int| 0 <= i < ts.len() ==> acceptable(#[trigger] ts[i])
}

/// Why the service does not take a transfer.
#[derive(Clone, Copy, Debug, PartialEq, Eq, Structural)]
pub enum TransferFault {
    ZeroAmount,
    SelfTransfer,
    InvalidSignature,
}

/// Why a transfer does not move anything from one account to another, if it does not.
pub open spec fn movement_fault(t: TransferView) -> Option<TransferFault> {
    if t.amount == 0 {
        Some(TransferFault::ZeroAmount)
    } else if t.from == t.to {
        Some(TransferFault::SelfTransfer)
    } else {
        None
    }
}

/// Why the service does not take a transfer, if it does not.
pub open spec fn transfer_fault(t: TransferView) -> Option<TransferFault> {
    match movement_fault(t) {
        Some(fault) => Some(fault),
        None => if signed_by_sender(t) {
            None
        } else {
            Some(TransferFault::InvalidSignature)
        },
    }
}

/// The first of some transfers that the service does not take, and why, if there is one.
pub open spec fn first_fault(ts: Seq<TransferView>) -> Option<(nat, TransferFault)>
    decreases ts.len(),
{
    if ts.len() == 0 {
        None
    } else {
        match first_fault(ts.drop_last()) {
            Some(found) => Some(found),
            None => match transfer_fault(ts.last()) {
                Some(fault) => Some(((ts.len() - 1) as nat, fault)),
                None => None,
            },
        }
    }
}

/// Transfers without a fault are those that the service takes, and a fault is that of the transfer
/// where it is found.
pub proof fn faults_are_found(ts: Seq<TransferView>)
    ensures
        first_fault(ts) is None <==> all_acceptable(ts),
        first_fault(ts) matches Some((i, fault)) ==> {
            &&& i < ts.len()
            &&& transfer_fault(ts[i as int]) == Some(fault)
            &&& all_acceptable(ts.take(i as int))
        },
    decreases ts.len(),
{
    if ts.len() > 0 {
        let rest = ts.drop_last();
        faults_are_found(rest);
        assert(forall|i: int| 0 <= i < rest.len() ==> #[trigger] rest[i] == ts[i]);
        assert(acceptable(ts.last()) <==> transfer_fault(ts.last()) is None);
        assert(all_acceptable(ts) <==> all_acceptable(rest) && acceptable(ts.last())) by {
            if all_acceptable(ts) {
                assert(acceptable(ts[ts.len() - 1]));
                assert forall|i: int| 0 <= i < rest.len() implies acceptable(
                    #[trigger] rest[i],
                ) by {
                    assert(acceptable(ts[i]));
                }
            }
            if all_acceptable(rest) && acceptable(ts.last()) {
                assert forall|i: int| 0 <= i < ts.len() implies acceptable(#[trigger] ts[i]) by {
                    if i < rest.len() {
                        assert(acceptable(rest[i]));
                    }
                }
            }
        }
        if let Some((i, fault)) = first_fault(ts) {
            if first_fault(rest) is Some {
                assert(rest.take(i as int) =~= ts.take(i as int));
            } else {
                assert(ts.take(i as int) =~= rest);
            }
        }
    }
}

/// Finds out why a transfer does not move anything from one account to another, if it does not.
pub fn check_movement(transfer: &Transfer) -> (fault: Option<TransferFault>)
    ensures
        fault == movement_fault(transfer@),
{
    if transfer.amount == 0 {
        Some(TransferFault::ZeroAmount)
    } else if same_bytes(transfer.from.as_slice(), transfer.to.as_slice()) {
        Some(TransferFault::SelfTransfer)
    } else {
        None
    }
}

/// Finds out why the service does not take a transfer, if it does not.
pub fn check_transfer(transfer: &Transfer) -> (fault: Option<TransferFault>)
    ensures
        fault == transfer_fault(transfer@),
{
    match check_movement(transfer) {
        Some(fault) => Some(fault),
        None => if verify_transfer_signature(transfer) {
            None
        } else {
            Some(TransferFault::InvalidSignature)
        },
    }
}

/// Finds the first transfer of a batch that the service does not take, and why.
pub fn find_fault(transfers: &[Transfer]) -> (found: Option<(usize, TransferFault)>)
    ensures
        match first_fault(transfer_views(transfers@)) {
            None => found is None,
            Some((i, fault)) => found matches Some((index, why)) && index == i && why == fault,
        },
{
    let ghost ts = transfer_views(transfers@);
    let mut i: usize = 0;
    assert(ts.take(0) =~= Seq::empty());
    while i < transfers.len()
        invariant
            i <= transfers@.len(),
            ts == transfer_views(transfers@),
            first_fault(ts.take(i as int)) is None,
        decreases transfers@.len() - i,
    {
        assert(ts.take(i + 1).drop_last() =~= ts.take(i as int));
        assert(ts.take(i + 1).last() == transfers@[i as int]@);
        match check_transfer(&transfers[i]) {
            Some(fault) => {
                proof {
                    lemma_fault_stays(ts, i + 1);
                }
                return Some((i, fault));
            },
            None => {},
        }
        i += 1;
    }
    assert(ts.take(ts.len() as int) =~= ts);
    None
}

/// The first fault of a batch's beginning is that of the batch.
proof fn lemma_fault_stays(ts: Seq<TransferView>, count: int)
    requires
        0 <= count <= ts.len(),
        first_fault(ts.take(count)) is Some,
    ensures
        first_fault(ts) == first_fault(ts.take(count)),
    decreases ts.len() - count,
{
    if count == ts.len() {
        assert(ts.take(count) =~= ts);
    } else {
        assert(ts.take(count + 1).drop_last() =~= ts.take(count));
        lemma_fault_stays(ts, count + 1);
    }
}

/// Checks every transfer of a batch.
pub fn verify_transfers(transfers: &[Transfer]) -> (valid: bool)
    ensures
        valid == all_acceptable(transfer_views(transfers@)),
{
    proof {
        faults_are_found(transfer_views(transfers@));
    }
    find_fault(transfers).is_none()
}

/// The seed of the administrator's signing key: `admin`, then zeros.
pub open spec fn admin_seed() -> Seq<u8> {
    seq![0x61u8, 0x64u8, 0x6du8, 0x69u8, 0x6eu8] + Seq::new(27, |i: int| 0u8)
}

/// Lays out the seed of the administrator's signing key.
pub fn admin_seed_bytes() -> (seed: [u8; 32])
    ensures
        seed@ == admin_seed(),
{
    let mut seed: [u8; 32] = [0u8; 32];
    seed[0] = 0x61;
    seed[1] = 0x64;
    seed[2] = 0x6d;
    seed[3] = 0x69;
    seed[4] = 0x6e;
    assert(seed@ =~= admin_seed());
    seed
}

/// The public key that may order resets.
///
/// It grows from a fixed seed, the same as that of the builder's
/// [`admin_keypair`](crate::accounts::admin_keypair): a simple example of an authorized operation,
/// not to be used in production.
pub fn admin() -> (key: AccountId)
    ensures
        key@ == ed25519_public_key(admin_seed()),
{
    public_key_of(&admin_seed_bytes())
}

/// Whether a reset's signature is the administrator's, on this reset.
pub open spec fn signed_by_admin(new_root: Seq<u8>, signature: Seq<u8>) -> bool {
    ed25519_accepts(ed25519_public_key(admin_seed()), signature, reset_message(new_root))
}

/// Checks that a reset's signature is the administrator's, on this reset.
pub fn verify_reset_signature(new_root: StateRoot, signature: [u8; 64]) -> (valid: bool)
    ensures
        valid == signed_by_admin(new_root@, signature@),
{
    let message: [u8; 32] = reset_signing_message(new_root);
    verify_message(&admin(), &signature, message.as_slice())
}

/// The output for a reset: none unless it is authorized.
pub open spec fn reset_output(authorized: bool, new_root: Seq<u8>) -> Seq<u8> {
    if authorized {
        output_bytes(OutputView::Reset { new_root })
    } else {
        Seq::empty()
    }
}

/// Answers a reset that was found to be authorized or not.
pub fn answer_reset(authorized: bool, new_root: StateRoot) -> (output: Vec<u8>)
    ensures
        output@ == reset_output(authorized, new_root@),
{
    if !authorized {
        return Vec::new();
    }
    encode_output(&RefinementOutput::Reset { new_root })
}

/// Checks a reset.
pub fn on_reset(new_root: StateRoot, signature: [u8; 64]) -> (output: Vec<u8>)
    ensures
        output@ == reset_output(signed_by_admin(new_root@, signature@), new_root@),
{
    let authorized: bool = verify_reset_signature(new_root, signature);
    answer_reset(authorized, new_root)
}

/// Why refinement refuses a work item.
#[derive(Debug)]
pub enum Refusal {
    /// The payload cannot be read; what is said of it.
    Payload { message: String },
    /// A reset that the administrator did not sign.
    NotAuthorized,
    /// A batch without an extrinsic.
    NoExtrinsic,
    /// An extrinsic that holds no list of transfers.
    UnreadableExtrinsic { message: String },
    /// A transfer that is not taken.
    Transfer { index: usize, fault: TransferFault },
    /// A claimed root that is not the one that follows.
    RootMismatch { computed: StateRoot, claimed: StateRoot },
}

/// What a [`Refusal`] says.
#[verifier::ext_equal]
pub enum RefusalView {
    Payload { message: Seq<char> },
    NotAuthorized,
    NoExtrinsic,
    UnreadableExtrinsic { message: Seq<char> },
    Transfer { index: nat, fault: TransferFault },
    RootMismatch { computed: Seq<u8>, claimed: Seq<u8> },
}

impl View for Refusal {
    type V = RefusalView;

    open spec fn view(&self) -> RefusalView {
        match self {
            Refusal::Payload { message } => RefusalView::Payload { message: message@ },
            Refusal::NotAuthorized => RefusalView::NotAuthorized,
            Refusal::NoExtrinsic => RefusalView::NoExtrinsic,
            Refusal::UnreadableExtrinsic { message } => RefusalView::UnreadableExtrinsic {
                message: message@,
            },
            Refusal::Transfer { index, fault } => RefusalView::Transfer {
                index: *index as nat,
                fault: *fault,
            },
            Refusal::RootMismatch { computed, claimed } => RefusalView::RootMismatch {
                computed: computed@,
                claimed: claimed@,
            },
        }
    }
}

/// What a refusal says, if there is one.
pub open spec fn refusal_view(refusal: Option<Refusal>) -> Option<RefusalView> {
    match refusal {
        Some(found) => Some(found@),
        None => None,
    }
}

/// What is said of a transfer that is not taken.
pub open spec fn transfer_fault_text(fault: TransferFault) -> Seq<char> {
    match fault {
        TransferFault::ZeroAmount => "zero amount"@,
        TransferFault::SelfTransfer => "self-transfer"@,
        TransferFault::InvalidSignature => "invalid signature"@,
    }
}

/// What is said of a refusal.
pub open spec fn refusal_text(refusal: RefusalView) -> Seq<char> {
    match refusal {
        RefusalView::Payload { message } => "Failed to decode payload: "@ + message,
        RefusalView::NotAuthorized => "Invalid admin signature for reset"@,
        RefusalView::NoExtrinsic => "no extrinsic at index 0. Nothing to do."@,
        RefusalView::UnreadableExtrinsic { message } => "Failed to decode transfers from extrinsic: "@
            + message,
        RefusalView::Transfer { index, fault } => "Transfer "@ + decimal(index) + " rejected: "@
            + transfer_fault_text(fault),
        RefusalView::RootMismatch { computed, claimed } => "Root mismatch: computed="@ + hex_text(
            computed,
        ) + ", claimed="@ + hex_text(claimed),
    }
}

impl Refusal {
    /// What is said of the refusal.
    pub fn message(&self) -> (text: String)
        ensures
            text@ == refusal_text(self@),
    {
        match self {
            Refusal::Payload { message } => {
                let mut text: String = "Failed to decode payload: ".to_owned();
                text.append(message.as_str());
                text
            },
            Refusal::NotAuthorized => "Invalid admin signature for reset".to_owned(),
            Refusal::NoExtrinsic => "no extrinsic at index 0. Nothing to do.".to_owned(),
            Refusal::UnreadableExtrinsic { message } => {
                let mut text: String = "Failed to decode transfers from extrinsic: ".to_owned();
                text.append(message.as_str());
                text
            },
            Refusal::Transfer { index, fault } => {
                let mut text: String = "Transfer ".to_owned();
                append_number(&mut text, *index as u64);
                text.append(" rejected: ");
                match fault {
                    TransferFault::ZeroAmount => text.append("zero amount"),
                    TransferFault::SelfTransfer => text.append("self-transfer"),
                    TransferFault::InvalidSignature => text.append("invalid signature"),
                }
                text
            },
            Refusal::RootMismatch { computed, claimed } => {
                let mut text: String = "Root mismatch: computed=".to_owned();
                text.append(hex_encode(computed.as_slice()).as_str());
                text.append(", claimed=");
                text.append(hex_encode(claimed.as_slice()).as_str());
                text
            },
        }
    }
}

/// What comes of refining a work item.
#[derive(Debug)]
pub struct Refined {
    /// The bytes that refinement hands on; none if the item is refused.
    pub output: Vec<u8>,
    /// Whether the first extrinsic is to be exported as a segment.
    pub export: bool,
    /// Why the item is refused, if it is.
    pub refusal: Option<Refusal>,
}

/// What a [`Refined`] says.
#[verifier::ext_equal]
pub struct RefinedView {
    pub output: Seq<u8>,
    pub export: bool,
    pub refusal: Option<RefusalView>,
}

impl View for Refined {
    type V = RefinedView;

    open spec fn view(&self) -> RefinedView {
        RefinedView {
            output: self.output@,
            export: self.export,
            refusal: refusal_view(self.refusal),
        }
    }
}

/// What comes of refining a work item that is refused before anything is exported.
pub open spec fn refused(refusal: RefusalView) -> RefinedView {
    RefinedView { output: Seq::empty(), export: false, refusal: Some(refusal) }
}

/// Refuses a work item before anything is exported.
fn refuse(refusal: Refusal) -> (refined: Refined)
    ensures
        refined@ == refused(refusal@),
{
    let output: Vec<u8> = Vec::new();
    assert(output@ =~= Seq::empty());
    Refined { output, export: false, refusal: Some(refusal) }
}

/// What refinement does next with a work item.
#[derive(Debug)]
pub enum RefineStep {
    /// It is done.
    Finished { refined: Refined },
    /// It needs the item's first extrinsic, for [`TokenLedgerV2::refine_transfers`].
    ReadExtrinsic { old_root: StateRoot, new_root: StateRoot },
}

/// What a [`RefineStep`] says.
#[verifier::ext_equal]
pub enum RefineStepView {
    Finished { refined: RefinedView },
    ReadExtrinsic { old_root: Seq<u8>, new_root: Seq<u8> },
}

impl View for RefineStep {
    type V = RefineStepView;

    open spec fn view(&self) -> RefineStepView {
        match self {
            RefineStep::Finished { refined } => RefineStepView::Finished { refined: refined@ },
            RefineStep::ReadExtrinsic { old_root, new_root } => RefineStepView::ReadExtrinsic {
                old_root: old_root@,
                new_root: new_root@,
            },
        }
    }
}

/// What comes of refining a batch whose transfers are all taken, where `computed_root` was
/// computed.
pub open spec fn claimed_batch(
    computed_root: Seq<u8>,
    old_root: Seq<u8>,
    new_root: Seq<u8>,
    export: bool,
) -> RefinedView {
    RefinedView {
        output: batch_claim_output(computed_root, old_root, new_root),
        export,
        refusal: if computed_root == new_root {
            None
        } else {
            Some(RefusalView::RootMismatch { computed: computed_root, claimed: new_root })
        },
    }
}

/// What comes of refining a batch whose first extrinsic is `extrinsic`. The extrinsic is exported
/// where its transfers are good and it fits in one segment, even if the claimed root is then found
/// to be wrong.
pub open spec fn refined_batch(
    old_root: Seq<u8>,
    new_root: Seq<u8>,
    extrinsic: Option<Seq<u8>>,
) -> RefinedView {
    match extrinsic {
        None => refused(RefusalView::NoExtrinsic),
        Some(bytes) => match parse_transfers(bytes) {
            None => refused(
                RefusalView::UnreadableExtrinsic { message: transfers_error_text(bytes) },
            ),
            Some(ts) => match first_fault(ts) {
                Some((index, fault)) => refused(RefusalView::Transfer { index, fault }),
                None => claimed_batch(
                    batch_root(old_root, ts),
                    old_root,
                    new_root,
                    bytes.len() <= segment_bytes(),
                ),
            },
        },
    }
}

/// What comes of refining a reset that was found to be authorized or not.
pub open spec fn refined_reset(authorized: bool, new_root: Seq<u8>) -> RefinedView {
    RefinedView {
        output: reset_output(authorized, new_root),
        export: false,
        refusal: if authorized {
            None
        } else {
            Some(RefusalView::NotAuthorized)
        },
    }
}

/// The first step of refining a work item whose payload holds a JSON document, or of which the
/// JSON reader said this.
pub open spec fn refine_step(payload: Result<PayloadJsonView, Seq<char>>) -> RefineStepView {
    match read_payload(payload) {
        Err(message) => RefineStepView::Finished {
            refined: refused(RefusalView::Payload { message }),
        },
        Ok(PayloadView::TransferBatch { old_root, new_root }) => RefineStepView::ReadExtrinsic {
            old_root,
            new_root,
        },
        Ok(PayloadView::Reset { new_root, signature }) => RefineStepView::Finished {
            refined: refined_reset(signed_by_admin(new_root, signature), new_root),
        },
    }
}

/// What comes of refining a work item with this payload and this first extrinsic.
pub open spec fn refined(
    payload: Result<PayloadJsonView, Seq<char>>,
    extrinsic: Option<Seq<u8>>,
) -> RefinedView {
    match refine_step(payload) {
        RefineStepView::Finished { refined } => refined,
        RefineStepView::ReadExtrinsic { old_root, new_root } => refined_batch(
            old_root,
            new_root,
            extrinsic,
        ),
    }
}

impl TokenLedgerV2 {
    /// Starts refining a work item. `payload` is what the item's payload holds as a JSON document,
    /// or what the JSON reader said of it.
    pub fn refine(payload: Result<PayloadJson, String>) -> (step: RefineStep)
        ensures
            step@ == refine_step(document_view(payload)),
    {
        match parse_payload(payload) {
            Err(message) => RefineStep::Finished { refined: refuse(Refusal::Payload { message }) },
            Ok(Payload::TransferBatch { old_root, new_root }) => RefineStep::ReadExtrinsic {
                old_root,
                new_root,
            },
            Ok(Payload::Reset { new_root, signature }) => {
                let output: Vec<u8> = on_reset(new_root, signature);
                let refusal: Option<Refusal> = if output.len() == 0 {
                    Some(Refusal::NotAuthorized)
                } else {
                    None
                };
                RefineStep::Finished { refined: Refined { output, export: false, refusal } }
            },
        }
    }

    /// Refines a batch, given the item's first extrinsic if it has one.
    pub fn refine_transfers(
        old_root: StateRoot,
        new_root: StateRoot,
        extrinsic: Option<&[u8]>,
    ) -> (refined: Refined)
        ensures
            refined@ == refined_batch(old_root@, new_root@, bytes_view(extrinsic)),
    {
        let bytes: &[u8] = match extrinsic {
            None => {
                return refuse(Refusal::NoExtrinsic);
            },
            Some(bytes) => bytes,
        };
        let transfers: Vec<Transfer> = match decode_transfers(bytes) {
            Err(message) => {
                return refuse(Refusal::UnreadableExtrinsic { message });
            },
            Ok(transfers) => transfers,
        };
        match find_fault(transfers.as_slice()) {
            Some((index, fault)) => {
                return refuse(Refusal::Transfer { index, fault });
            },
            None => {},
        }
        let export: bool = fits_segment(bytes.len());
        let output: Vec<u8> = on_transfer_batch(old_root, new_root, transfers.as_slice());
        let refusal: Option<Refusal> = if output.len() == 0 {
            let computed: StateRoot = compute_batch_root(&old_root, transfers.as_slice());
            Some(Refusal::RootMismatch { computed, claimed: new_root })
        } else {
            None
        };
        Refined { output, export, refusal }
    }
}

} // verus!
