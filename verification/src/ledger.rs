//! The values that the ledger service and its builder exchange.

use vstd::prelude::*;

verus! {

/// 32-byte account identifier (Ed25519 public key).
pub type AccountId = [u8; 32];

/// 32-byte state commitment.
pub type StateRoot = [u8; 32];

/// A signed transfer request.
#[derive(Clone, Debug)]
pub struct Transfer {
    /// The sender, whose key signs the transfer.
    pub from: AccountId,
    /// The recipient.
    pub to: AccountId,
    /// How many tokens move.
    pub amount: u64,
    /// The sender's transfer count when the transfer was made.
    pub nonce: u64,
    /// The sender's Ed25519 signature.
    pub signature: [u8; 64],
}

/// What a [`Transfer`] says, with its byte strings as sequences.
#[verifier::ext_equal]
pub struct TransferView {
    pub from: Seq<u8>,
    pub to: Seq<u8>,
    pub amount: u64,
    pub nonce: u64,
    pub signature: Seq<u8>,
}

impl TransferView {
    /// Keys are 32 bytes long and the signature is 64 bytes long.
    pub open spec fn sized(self) -> bool {
        &&& self.from.len() == 32
        &&& self.to.len() == 32
        &&& self.signature.len() == 64
    }
}

impl View for Transfer {
    type V = TransferView;

    open spec fn view(&self) -> TransferView {
        TransferView {
            from: self.from@,
            to: self.to@,
            amount: self.amount,
            nonce: self.nonce,
            signature: self.signature@,
        }
    }
}

/// The views of a list of transfers.
pub open spec fn transfer_views(transfers: Seq<Transfer>) -> Seq<TransferView> {
    Seq::new(transfers.len(), |i: int| transfers[i]@)
}

/// Whether every one of some transfers has keys and a signature of the right lengths.
pub open spec fn all_sized(ts: Seq<TransferView>) -> bool {
    forall|i: int| 0 <= i < ts.len() ==> (#[trigger] ts[i]).sized()
}

/// A work item's payload, by kind.
#[derive(Clone, Debug)]
pub enum Payload {
    /// A batch of transfers that takes the ledger from one state to the next.
    TransferBatch { old_root: StateRoot, new_root: StateRoot },
    /// An administrator's order to adopt a state.
    Reset { new_root: StateRoot, signature: [u8; 64] },
}

/// What a [`Payload`] says, with its byte strings as sequences.
#[verifier::ext_equal]
pub enum PayloadView {
    TransferBatch { old_root: Seq<u8>, new_root: Seq<u8> },
    Reset { new_root: Seq<u8>, signature: Seq<u8> },
}

impl View for Payload {
    type V = PayloadView;

    open spec fn view(&self) -> PayloadView {
        match self {
            Payload::TransferBatch { old_root, new_root } => PayloadView::TransferBatch {
                old_root: old_root@,
                new_root: new_root@,
            },
            Payload::Reset { new_root, signature } => PayloadView::Reset {
                new_root: new_root@,
                signature: signature@,
            },
        }
    }
}

/// Output from refinement to accumulation.
#[derive(Clone, Debug)]
pub enum RefinementOutput {
    /// A checked batch: move from `old_root` to `new_root`.
    TransferBatch { old_root: StateRoot, new_root: StateRoot },
    /// A checked reset: adopt `new_root`.
    Reset { new_root: StateRoot },
}

/// What a [`RefinementOutput`] says, with its byte strings as sequences.
#[verifier::ext_equal]
pub enum OutputView {
    TransferBatch { old_root: Seq<u8>, new_root: Seq<u8> },
    Reset { new_root: Seq<u8> },
}

impl View for RefinementOutput {
    type V = OutputView;

    open spec fn view(&self) -> OutputView {
        match self {
            RefinementOutput::TransferBatch { old_root, new_root } => OutputView::TransferBatch {
                old_root: old_root@,
                new_root: new_root@,
            },
            RefinementOutput::Reset { new_root } => OutputView::Reset { new_root: new_root@ },
        }
    }
}

/// The root of a ledger that nothing was ever written to.
pub open spec fn zero_root() -> Seq<u8> {
    Seq::new(32, |i: int| 0u8)
}

/// The ledger service. It keeps nothing but a state root.
pub struct TokenLedgerV2;

} // verus!
