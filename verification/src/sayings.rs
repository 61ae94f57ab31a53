//! What holds of messages: that they name what they are about.

use crate::accumulation::balance_transfer_text;
use crate::console::transfer_line;
use crate::errors::{error_text, ErrorView};
use crate::hexadecimal::hex_text;
use crate::ledger::TransferView;
use crate::refinement::{refusal_text, RefusalView, TransferFault};
use crate::submission::{chain_error_text, core_error, core_selected, is_final, status_after,
    submitted_text, ChainErrorView, PackageStage, STATUS_UPDATES, StatusEvent};
use crate::text::{decimal, hex_numeral, joined, service_id_chars, truth};
use vstd::prelude::*;

verus! {

/// Whether a text begins with another.
pub open spec fn begins(text: Seq<char>, head: Seq<char>) -> bool {
    text.len() >= head.len() && text.take(head.len() as int) == head
}

/// Whether a text ends with another.
pub open spec fn ends(text: Seq<char>, tail: Seq<char>) -> bool {
    text.len() >= tail.len() && text.skip(text.len() - tail.len()) == tail
}


/// What a text ends with is what was put last.
pub(crate) proof fn lemma_ends(head: Seq<char>, tail: Seq<char>)
    ensures
        ends(head + tail, tail),
        begins(head + tail, head),
{
    assert((head + tail).skip(head.len() as int) =~= tail);
    assert((head + tail).take(head.len() as int) =~= head);
}

/// A builder's error names the accounts, the amounts and the balance that it is about, each where
/// it belongs: a transfer's sender before its recipient, and what a sender has before what it
/// needs.
pub proof fn builder_errors_name_their_subject(error: ErrorView)
    ensures
        match error {
            ErrorView::UnknownSender { index } => ends(error_text(error), decimal(index as nat)),
            ErrorView::SelfTransfer { from_index, from, to_index, to } => {
                &&& begins(
                    error_text(error),
                    "Cannot transfer to self: sender ["@ + decimal(from_index as nat) + "] "@
                        + hex_text(from).take(16),
                )
                &&& ends(
                    error_text(error),
                    "["@ + decimal(to_index as nat) + "] "@ + hex_text(to).take(16)
                        + " are the same account"@,
                )
            },
            ErrorView::NoPendingPair { index_a, index_b } => ends(
                error_text(error),
                "between "@ + decimal(index_a as nat) + " and "@ + decimal(index_b as nat),
            ),
            ErrorView::SenderNotFound { index } => begins(error_text(error), "Sender "@) && ends(
                error_text(error),
                decimal(index as nat),
            ),
            ErrorView::RecipientNotFound { index } => begins(error_text(error), "Recipient "@)
                && ends(error_text(error), decimal(index as nat)),
            ErrorView::InsufficientBalance { index, sender, balance, amount } => {
                &&& begins(
                    error_text(error),
                    "Insufficient balance: sender ["@ + decimal(index as nat) + "] "@ + hex_text(
                        sender,
                    ).take(16),
                )
                &&& ends(
                    error_text(error),
                    " has "@ + decimal(balance as nat) + " but needs "@ + decimal(amount),
                )
            },
            ErrorView::ZeroAmount => error_text(error) == "Cannot transfer zero amount"@,
            ErrorView::SamePair => error_text(error)
                == "Cannot remove pair for same account index"@,
            ErrorView::NoPendingTransfers => error_text(error) == "No pending transfers"@,
            ErrorView::NoNetTransfers => error_text(error)
                == "No net transfers after aggregation"@,
            ErrorView::PayloadEncoding => error_text(error) == "Failed to encode payload as JSON"@,
        },
{
    let text = error_text(error);
    match error {
        ErrorView::UnknownSender { index } => {
            lemma_ends("Unknown sender account index: "@, decimal(index as nat));
        },
        ErrorView::SelfTransfer { from_index, from, to_index, to } => {
            reveal_strlit("[");
            reveal_strlit(" and recipient [");
            reveal_strlit(" and recipient ");
            let head = "Cannot transfer to self: sender ["@ + decimal(from_index as nat) + "] "@
                + hex_text(from).take(16);
            let rest = " and recipient ["@ + decimal(to_index as nat) + "] "@ + hex_text(to).take(
                16,
            ) + " are the same account"@;
            assert(text =~= head + rest);
            lemma_ends(head, rest);
            let tail = "["@ + decimal(to_index as nat) + "] "@ + hex_text(to).take(16)
                + " are the same account"@;
            assert(" and recipient ["@ =~= " and recipient "@ + "["@);
            assert(text =~= (head + " and recipient "@) + tail);
            lemma_ends(head + " and recipient "@, tail);
        },
        ErrorView::NoPendingPair { index_a, index_b } => {
            reveal_strlit("No pending transfer pair found between ");
            reveal_strlit("No pending transfer pair found ");
            reveal_strlit("between ");
            let head = "No pending transfer pair found "@;
            let tail = "between "@ + decimal(index_a as nat) + " and "@ + decimal(index_b as nat);
            assert("No pending transfer pair found between "@ =~= head + "between "@);
            assert(text =~= head + tail);
            lemma_ends(head, tail);
        },
        ErrorView::SenderNotFound { index } => {
            reveal_strlit("Sender account index not found: ");
            reveal_strlit("Sender ");
            lemma_ends("Sender account index not found: "@, decimal(index as nat));
            assert(text.take(7) =~= "Sender "@);
        },
        ErrorView::RecipientNotFound { index } => {
            reveal_strlit("Recipient account index not found: ");
            reveal_strlit("Recipient ");
            lemma_ends("Recipient account index not found: "@, decimal(index as nat));
            assert(text.take(10) =~= "Recipient "@);
        },
        ErrorView::InsufficientBalance { index, sender, balance, amount } => {
            let head = "Insufficient balance: sender ["@ + decimal(index as nat) + "] "@ + hex_text(
                sender,
            ).take(16);
            let tail = " has "@ + decimal(balance as nat) + " but needs "@ + decimal(amount);
            assert(text =~= head + tail);
            lemma_ends(head, tail);
        },
        _ => {},
    }
}

/// An error of the chain's ends with what it is about: the node's own words, the block, or what
/// every core said.
pub proof fn chain_errors_name_their_subject(error: ChainErrorView)
    ensures
        match error {
            ChainErrorView::Node { message } => chain_error_text(error) == message,
            ChainErrorView::ServiceNotFound { service_id, anchor } => {
                &&& begins(chain_error_text(error), "Service "@ + decimal(service_id as nat))
                &&& ends(chain_error_text(error), anchor)
            },
            ChainErrorView::SubmitFailed { message } => begins(
                chain_error_text(error),
                "submit_work_package failed: "@ + message,
            ),
            ChainErrorView::AllCoresFailed { core_count, errors } => {
                &&& begins(
                    chain_error_text(error),
                    "Submission failed on all "@ + decimal(core_count as nat),
                )
                &&& ends(chain_error_text(error), joined(errors))
            },
            ChainErrorView::PreimageMissing {
                service_available,
                authorizer_available,
                service_id,
                code_hash,
                authorizer_hash,
                anchor,
            } => begins(
                chain_error_text(error),
                "Preflight failed before submit: code preimage missing. service_preimage_available="@
                    + truth(service_available) + ", authorizer_preimage_available="@ + truth(
                    authorizer_available,
                ) + "\nservice="@ + service_id_chars(service_id) + ", service_code_hash="@
                    + hex_text(code_hash) + ", auth_code_host="@ + service_id_chars(0)
                    + ", null_authorizer_hash="@ + hex_text(authorizer_hash) + ", anchor="@
                    + anchor,
            ),
            _ => true,
        },
{
    let text = chain_error_text(error);
    match error {
        ChainErrorView::ServiceNotFound { service_id, anchor } => {
            let head = "Service "@ + decimal(service_id as nat);
            lemma_ends(head + " not found at anchor "@, anchor);
            assert(text =~= head + (" not found at anchor "@ + anchor));
            lemma_ends(head, " not found at anchor "@ + anchor);
        },
        ChainErrorView::SubmitFailed { message } => {
            lemma_ends(
                "submit_work_package failed: "@ + message,
                "\nHint: this often means no reachable guarantor for the selected core/anchor, authorizer mismatch, or package validation rejection."@,
            );
        },
        ChainErrorView::AllCoresFailed { core_count, errors } => {
            let head = "Submission failed on all "@ + decimal(core_count as nat);
            lemma_ends(head + " cores.\n"@, joined(errors));
            assert(text =~= head + (" cores.\n"@ + joined(errors)));
            lemma_ends(head, " cores.\n"@ + joined(errors));
        },
        ChainErrorView::PreimageMissing {
            service_available,
            authorizer_available,
            service_id,
            code_hash,
            authorizer_hash,
            anchor,
        } => {
            let head =
                "Preflight failed before submit: code preimage missing. service_preimage_available="@
                + truth(service_available) + ", authorizer_preimage_available="@ + truth(
                authorizer_available,
            ) + "\nservice="@ + service_id_chars(service_id) + ", service_code_hash="@ + hex_text(
                code_hash,
            ) + ", auth_code_host="@ + service_id_chars(0) + ", null_authorizer_hash="@ + hex_text(
                authorizer_hash,
            ) + ", anchor="@ + anchor;
            lemma_ends(
                head,
                "\nHint: this commonly happens when targeting externally deployed services whose code preimage is not available to this node."@,
            );
        },
        _ => {},
    }
}

/// A refusal names what it is about: the reader's words, the transfer and its fault, or the two
/// roots, the computed one first.
pub proof fn refusals_name_their_subject(refusal: RefusalView)
    ensures
        match refusal {
            RefusalView::Payload { message } => ends(refusal_text(refusal), message),
            RefusalView::UnreadableExtrinsic { message } => ends(refusal_text(refusal), message),
            RefusalView::Transfer { index, fault } => {
                &&& begins(refusal_text(refusal), "Transfer "@ + decimal(index))
                &&& fault is ZeroAmount ==> ends(refusal_text(refusal), "zero amount"@)
                &&& fault is SelfTransfer ==> ends(refusal_text(refusal), "self-transfer"@)
                &&& fault is InvalidSignature ==> ends(refusal_text(refusal), "invalid signature"@)
            },
            RefusalView::RootMismatch { computed, claimed } => ends(
                refusal_text(refusal),
                "computed="@ + hex_text(computed) + ", claimed="@ + hex_text(claimed),
            ),
            _ => true,
        },
{
    let text = refusal_text(refusal);
    match refusal {
        RefusalView::Payload { message } => {
            lemma_ends("Failed to decode payload: "@, message);
        },
        RefusalView::UnreadableExtrinsic { message } => {
            lemma_ends("Failed to decode transfers from extrinsic: "@, message);
        },
        RefusalView::Transfer { index, fault } => {
            let head = "Transfer "@ + decimal(index);
            let why = match fault {
                TransferFault::ZeroAmount => "zero amount"@,
                TransferFault::SelfTransfer => "self-transfer"@,
                TransferFault::InvalidSignature => "invalid signature"@,
            };
            lemma_ends(head + " rejected: "@, why);
            assert(text =~= head + (" rejected: "@ + why));
            lemma_ends(head, " rejected: "@ + why);
        },
        RefusalView::RootMismatch { computed, claimed } => {
            reveal_strlit("Root mismatch: computed=");
            reveal_strlit("Root mismatch: ");
            reveal_strlit("computed=");
            let tail = "computed="@ + hex_text(computed) + ", claimed="@ + hex_text(claimed);
            assert("Root mismatch: computed="@ =~= "Root mismatch: "@ + "computed="@);
            assert(text =~= "Root mismatch: "@ + tail);
            lemma_ends("Root mismatch: "@, tail);
        },
        _ => {},
    }
}

/// A transfer is shown with its sender's key before its recipient's, both in full, and then its
/// amount and its nonce.
pub proof fn transfers_are_shown_in_full(t: TransferView)
    ensures
        begins(
            transfer_line(t),
            "[Transfer] from: "@ + hex_text(t.from) + " to: "@ + hex_text(t.to),
        ),
        ends(
            transfer_line(t),
            " amount: "@ + decimal(t.amount as nat) + " nonce: "@ + decimal(t.nonce as nat),
        ),
{
    let head = "[Transfer] from: "@ + hex_text(t.from) + " to: "@ + hex_text(t.to);
    let tail = " amount: "@ + decimal(t.amount as nat) + " nonce: "@ + decimal(t.nonce as nat);
    assert(transfer_line(t) =~= head + tail);
    lemma_ends(head, tail);
}

/// What is said of a core names the core first and then ends with the core's own message, whether
/// or not it took the package.
pub proof fn cores_are_named(core: nat, message: Seq<char>)
    ensures
        begins(core_error(core, message), "core "@ + decimal(core) + ":"@),
        ends(core_error(core, message), message),
        begins(core_selected(core, message), "Selected core "@ + decimal(core) + " "@),
        ends(core_selected(core, message), message),
{
    reveal_strlit(": ");
    reveal_strlit(":");
    reveal_strlit(" ");
    reveal_strlit(" and updated default core.\n");
    reveal_strlit("and updated default core.\n");
    assert(": "@ =~= ":"@ + " "@);
    assert(" and updated default core.\n"@ =~= " "@ + "and updated default core.\n"@);
    lemma_ends("core "@ + decimal(core) + ": "@, message);
    let error_head = "core "@ + decimal(core) + ":"@;
    assert(core_error(core, message) =~= error_head + (" "@ + message));
    lemma_ends(error_head, " "@ + message);
    lemma_ends("Selected core "@ + decimal(core) + " and updated default core.\n"@, message);
    let head = "Selected core "@ + decimal(core) + " "@;
    assert(core_selected(core, message) =~= head + ("and updated default core.\n"@ + message));
    lemma_ends(head, "and updated default core.\n"@ + message);
}

/// The last thing known of a package is its last status with the slot it was reached in, or why
/// there is none; the end of the updates changes nothing.
pub proof fn statuses_are_kept(message: Seq<char>, event: StatusEvent)
    ensures
        match event {
            StatusEvent::Update { slot, stage, status } => {
                &&& begins(status_after(message, event), "slot "@ + decimal(slot as nat))
                &&& ends(status_after(message, event), status@)
            },
            StatusEvent::Error { message: words } => ends(status_after(message, event), words@),
            StatusEvent::Closed => status_after(message, event) == message,
        },
{
    match event {
        StatusEvent::Update { slot, stage, status } => {
            let head = "slot "@ + decimal(slot as nat);
            lemma_ends(head + ": "@, status@);
            assert(status_after(message, event) =~= head + (": "@ + status@));
            lemma_ends(head, ": "@ + status@);
        },
        StatusEvent::Error { message: words } => {
            lemma_ends("status subscription error: "@, words@);
        },
        StatusEvent::Closed => {},
    }
}

/// What is said of a submitted package names the service, the core and the block, then how long
/// the payload and the extrinsic are, then the package's hash and its status.
pub proof fn submissions_are_described(
    service_id: u32,
    core: u16,
    anchor: Seq<char>,
    payload_len: nat,
    extrinsic_len: nat,
    hash: Seq<u8>,
    status: Seq<char>,
)
    ensures
        ({
            let text = submitted_text(
                service_id,
                core,
                anchor,
                payload_len,
                extrinsic_len,
                hash,
                status,
            );
            &&& begins(
                text,
                "WorkPackage submitted:\n  - Service: "@ + service_id_chars(service_id)
                    + "\n  - Core: "@ + decimal(core as nat) + "\n  - Anchor: "@ + anchor,
            )
            &&& ends(
                text,
                "\n  - Payload: "@ + decimal(payload_len) + " bytes\n  - Extrinsic: "@ + decimal(
                    extrinsic_len,
                ) + " bytes\n  - Hash: "@ + hex_text(hash) + "\n  - Status: "@ + status,
            )
        }),
{
    let text = submitted_text(
        service_id,
        core,
        anchor,
        payload_len,
        extrinsic_len,
        hash,
        status,
    );
    let head = "WorkPackage submitted:\n  - Service: "@ + service_id_chars(service_id)
        + "\n  - Core: "@ + decimal(core as nat) + "\n  - Anchor: "@ + anchor;
    let tail = "\n  - Payload: "@ + decimal(payload_len) + " bytes\n  - Extrinsic: "@ + decimal(
        extrinsic_len,
    ) + " bytes\n  - Hash: "@ + hex_text(hash) + "\n  - Status: "@ + status;
    assert(text =~= head + tail);
    lemma_ends(head, tail);
}

/// A transfer of the service's own balance is announced with its amount and then its source.
pub proof fn balance_transfers_are_announced(amount: u64, source: u32)
    ensures
        begins(
            balance_transfer_text(amount, source),
            "Received service balance transfer: "@ + decimal(amount as nat),
        ),
        ends(
            balance_transfer_text(amount, source),
            " from "@ + hex_numeral(source as nat) + "h"@,
        ),
{
    let head = "Received service balance transfer: "@ + decimal(amount as nat);
    let tail = " from "@ + hex_numeral(source as nat) + "h"@;
    assert(balance_transfer_text(amount, source) =~= head + tail);
    lemma_ends(head, tail);
}

/// A package is watched for twenty updates at most, and no longer than until it is ready or has
/// failed.
pub proof fn packages_are_watched(stage: PackageStage)
    ensures
        STATUS_UPDATES == 20,
        stage is Ready || stage is Failed <==> is_final(stage),
        stage is Reportable || stage is Reported <==> !is_final(stage),
{
}

/// Truth values are told apart by their words.
pub proof fn truth_values_are_told_apart(value: bool)
    ensures
        value ==> truth(value) == seq!['t', 'r', 'u', 'e'],
        !value ==> truth(value) == seq!['f', 'a', 'l', 's', 'e'],
{
    reveal_strlit("true");
    reveal_strlit("false");
    assert(value ==> truth(value) =~= seq!['t', 'r', 'u', 'e']);
    assert(!value ==> truth(value) =~= seq!['f', 'a', 'l', 's', 'e']);
}

} // verus!
