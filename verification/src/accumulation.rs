//! Accumulation: folding refined work into the one root that the service keeps on chain.

use crate::codec::{decode_output, decode_root, encode_root, parse_output, parse_root};
use crate::ledger::{zero_root, OutputView, RefinementOutput, StateRoot};
use crate::octets::{bytes_view, same_bytes};
use crate::text::{decimal, decimal_text, hex_numeral, hex_numeral_text};
use vstd::prelude::*;

verus! {

/// The storage key of the current state root: the bytes of `state_root`.
pub const STATE_ROOT_KEY: [u8; 10] = [0x73, 0x74, 0x61, 0x74, 0x65, 0x5f, 0x72, 0x6f, 0x6f, 0x74];

/// What is said of a transfer of the service's own balance.
pub open spec fn balance_transfer_text(amount: u64, source: u32) -> Seq<char> {
    "Received service balance transfer: "@ + decimal(amount as nat) + " from "@ + hex_numeral(
        source as nat,
    ) + "h"@
}

/// Says that a transfer of the service's own balance was received.
pub fn on_transfer(amount: u64, source: u32) -> (message: String)
    ensures
        message@ == "Received service balance transfer: "@ + decimal(amount as nat) + " from "@
            + hex_numeral(source as nat) + "h"@,
        message@ == balance_transfer_text(amount, source),
{
    let mut message: String = "Received service balance transfer: ".to_owned();
    message.append(decimal_text(amount).as_str());
    message.append(" from ");
    message.append(hex_numeral_text(source as u64).as_str());
    message.append("h");
    message
}

/// What accumulation does next with a work item.
#[derive(Debug)]
pub enum WorkItemStep {
    /// Nothing: the item is dropped.
    Drop,
    /// It needs the stored value of the state root, for [`on_stored_root`].
    ReadRoot { old_root: StateRoot, new_root: StateRoot },
    /// It stores `value` under the state root's key, then asks [`takes_checkpoint`].
    WriteRoot { value: Vec<u8>, checkpoint_anyway: bool },
}

/// What a [`WorkItemStep`] says.
#[verifier::ext_equal]
pub enum WorkItemStepView {
    Drop,
    ReadRoot { old_root: Seq<u8>, new_root: Seq<u8> },
    WriteRoot { value: Seq<u8>, checkpoint_anyway: bool },
}

impl View for WorkItemStep {
    type V = WorkItemStepView;

    open spec fn view(&self) -> WorkItemStepView {
        match self {
            WorkItemStep::Drop => WorkItemStepView::Drop,
            WorkItemStep::ReadRoot { old_root, new_root } => WorkItemStepView::ReadRoot {
                old_root: old_root@,
                new_root: new_root@,
            },
            WorkItemStep::WriteRoot { value, checkpoint_anyway } => WorkItemStepView::WriteRoot {
                value: value@,
                checkpoint_anyway: *checkpoint_anyway,
            },
        }
    }
}

/// The root that a stored value stands for: the zero root where there is none or it is unreadable.
pub open spec fn stored_root(stored: Option<Seq<u8>>) -> Seq<u8> {
    match stored {
        None => zero_root(),
        Some(bytes) => match parse_root(bytes) {
            None => zero_root(),
            Some(root) => root,
        },
    }
}

/// The value under the state root's key once a work item is accumulated whose refinement gave
/// `output`, or failed, and the host stored what it was asked to.
pub open spec fn accumulated(stored: Option<Seq<u8>>, output: Option<Seq<u8>>) -> Option<Seq<u8>> {
    match output {
        None => stored,
        Some(bytes) => match parse_output(bytes) {
            None => stored,
            Some(OutputView::TransferBatch { old_root, new_root }) => if stored_root(stored)
                == old_root {
                Some(new_root)
            } else {
                stored
            },
            Some(OutputView::Reset { new_root }) => Some(new_root),
        },
    }
}

/// The first step of a work item whose refinement gave `output`, or failed.
pub open spec fn work_item_step(output: Option<Seq<u8>>) -> WorkItemStepView {
    match output {
        None => WorkItemStepView::Drop,
        Some(bytes) => match parse_output(bytes) {
            None => WorkItemStepView::Drop,
            Some(OutputView::TransferBatch { old_root, new_root }) => WorkItemStepView::ReadRoot {
                old_root,
                new_root,
            },
            Some(OutputView::Reset { new_root }) => WorkItemStepView::WriteRoot {
                value: new_root,
                checkpoint_anyway: false,
            },
        },
    }
}

/// The step of a batch once the stored value of the state root is known: the batch is dropped
/// unless it starts from the stored root.
pub open spec fn stored_root_step(
    old_root: Seq<u8>,
    new_root: Seq<u8>,
    stored: Option<Seq<u8>>,
) -> WorkItemStepView {
    if stored_root(stored) == old_root {
        WorkItemStepView::WriteRoot { value: new_root, checkpoint_anyway: true }
    } else {
        WorkItemStepView::Drop
    }
}

/// The value under the state root's key once a step is carried out, and those that follow it.
pub open spec fn carried_out(stored: Option<Seq<u8>>, step: WorkItemStepView) -> Option<Seq<u8>> {
    match step {
        WorkItemStepView::Drop => stored,
        WorkItemStepView::WriteRoot { value, checkpoint_anyway } => Some(value),
        WorkItemStepView::ReadRoot { old_root, new_root } => match stored_root_step(
            old_root,
            new_root,
            stored,
        ) {
            WorkItemStepView::WriteRoot { value, checkpoint_anyway } => Some(value),
            _ => stored,
        },
    }
}

/// The steps of a work item come to what accumulation is to do.
pub proof fn steps_accumulate(stored: Option<Seq<u8>>, output: Option<Seq<u8>>)
    ensures
        carried_out(stored, work_item_step(output)) == accumulated(stored, output),
{
}

/// The value under the state root's key once some work items are accumulated in turn.
pub open spec fn all_accumulated(
    stored: Option<Seq<u8>>,
    outputs: Seq<Option<Seq<u8>>>,
) -> Option<Seq<u8>>
    decreases outputs.len(),
{
    if outputs.len() == 0 {
        stored
    } else {
        accumulated(all_accumulated(stored, outputs.drop_last()), outputs.last())
    }
}

/// Starts accumulating a work item, given its refinement's output unless that failed.
pub fn on_work_item(output: Option<&[u8]>) -> (step: WorkItemStep)
    ensures
        step@ == work_item_step(bytes_view(output)),
{
    match output {
        None => WorkItemStep::Drop,
        Some(bytes) => match decode_output(bytes) {
            None => WorkItemStep::Drop,
            Some(RefinementOutput::TransferBatch { old_root, new_root }) => {
                WorkItemStep::ReadRoot { old_root, new_root }
            },
            Some(RefinementOutput::Reset { new_root }) => WorkItemStep::WriteRoot {
                value: encode_root(&new_root),
                checkpoint_anyway: false,
            },
        },
    }
}

/// Reads the stored value of the state root.
pub fn read_stored_root(stored: Option<&[u8]>) -> (root: StateRoot)
    ensures
        root@ == stored_root(bytes_view(stored)),
{
    let zero: StateRoot = [0u8; 32];
    assert(zero@ =~= zero_root());
    match stored {
        None => zero,
        Some(bytes) => match decode_root(bytes) {
            None => zero,
            Some(root) => root,
        },
    }
}

/// Goes on with a batch, given the stored value of the state root: the batch is dropped unless it
/// starts from the stored root.
pub fn on_stored_root(
    old_root: StateRoot,
    new_root: StateRoot,
    stored: Option<&[u8]>,
) -> (step: WorkItemStep)
    ensures
        step@ == stored_root_step(old_root@, new_root@, bytes_view(stored)),
{
    let current: StateRoot = read_stored_root(stored);
    if !same_bytes(current.as_slice(), old_root.as_slice()) {
        return WorkItemStep::Drop;
    }
    WorkItemStep::WriteRoot { value: encode_root(&new_root), checkpoint_anyway: true }
}

/// Whether a checkpoint follows a write that the host did or did not carry out.
pub fn takes_checkpoint(written: bool, checkpoint_anyway: bool) -> (checkpoint: bool)
    ensures
        checkpoint == (written || checkpoint_anyway),
{
    written || checkpoint_anyway
}

} // verus!
