//! What can go wrong in the builder.

use crate::hexadecimal::{hex_encode, hex_text};
use crate::ledger::AccountId;
use crate::text::{append_number, decimal, wide_decimal_text};
use vstd::prelude::*;

verus! {

/// Why the builder refuses a request.
#[derive(Debug)]
pub enum BuilderError {
    /// A transfer from an account that was never registered.
    UnknownSender { index: usize },
    /// A transfer between accounts with one key.
    SelfTransfer { from_index: usize, from: AccountId, to_index: usize, to: AccountId },
    /// A transfer of nothing.
    ZeroAmount,
    /// The pair of an account with itself.
    SamePair,
    /// A pair between which no transfer is pending.
    NoPendingPair { index_a: usize, index_b: usize },
    /// A batch of no transfers.
    NoPendingTransfers,
    /// A batch of transfers that cancel each other.
    NoNetTransfers,
    /// A pending transfer whose sender is not registered.
    SenderNotFound { index: usize },
    /// A pending transfer of more than its sender has.
    InsufficientBalance { index: usize, sender: AccountId, balance: u64, amount: u128 },
    /// A pending transfer whose recipient is not registered.
    RecipientNotFound { index: usize },
    /// A payload that cannot be written as JSON.
    PayloadEncoding,
}

/// What a [`BuilderError`] says, with its byte strings as sequences.
#[verifier::ext_equal]
pub enum ErrorView {
    UnknownSender { index: usize },
    SelfTransfer { from_index: usize, from: Seq<u8>, to_index: usize, to: Seq<u8> },
    ZeroAmount,
    SamePair,
    NoPendingPair { index_a: usize, index_b: usize },
    NoPendingTransfers,
    NoNetTransfers,
    SenderNotFound { index: usize },
    InsufficientBalance { index: usize, sender: Seq<u8>, balance: u64, amount: nat },
    RecipientNotFound { index: usize },
    PayloadEncoding,
}

impl View for BuilderError {
    type V = ErrorView;

    open spec fn view(&self) -> ErrorView {
        match self {
            BuilderError::UnknownSender { index } => ErrorView::UnknownSender { index: *index },
            BuilderError::SelfTransfer { from_index, from, to_index, to } => {
                ErrorView::SelfTransfer {
                    from_index: *from_index,
                    from: from@,
                    to_index: *to_index,
                    to: to@,
                }
            },
            BuilderError::ZeroAmount => ErrorView::ZeroAmount,
            BuilderError::SamePair => ErrorView::SamePair,
            BuilderError::NoPendingPair { index_a, index_b } => ErrorView::NoPendingPair {
                index_a: *index_a,
                index_b: *index_b,
            },
            BuilderError::NoPendingTransfers => ErrorView::NoPendingTransfers,
            BuilderError::NoNetTransfers => ErrorView::NoNetTransfers,
            BuilderError::SenderNotFound { index } => ErrorView::SenderNotFound { index: *index },
            BuilderError::InsufficientBalance { index, sender, balance, amount } => {
                ErrorView::InsufficientBalance {
                    index: *index,
                    sender: sender@,
                    balance: *balance,
                    amount: *amount as nat,
                }
            },
            BuilderError::RecipientNotFound { index } => ErrorView::RecipientNotFound {
                index: *index,
            },
            BuilderError::PayloadEncoding => ErrorView::PayloadEncoding,
        }
    }
}

/// The first digits of a key, by which people tell keys apart.
pub open spec fn short_key(key: Seq<u8>) -> Seq<char> {
    hex_text(key).take(16)
}

/// The first digits of a key, by which people tell keys apart.
pub fn short_key_text(key: &AccountId) -> (text: String)
    ensures
        text@ == short_key(key@),
{
    let full: String = hex_encode(key.as_slice());
    let text: String = full.as_str().substring_char(0, 16).to_owned();
    assert(text@ =~= short_key(key@));
    text
}

/// What is said of an error.
pub open spec fn error_text(error: ErrorView) -> Seq<char> {
    match error {
        ErrorView::UnknownSender { index } => "Unknown sender account index: "@ + decimal(
            index as nat,
        ),
        ErrorView::SelfTransfer { from_index, from, to_index, to } => {
            "Cannot transfer to self: sender ["@ + decimal(from_index as nat) + "] "@ + short_key(
                from,
            ) + " and recipient ["@ + decimal(to_index as nat) + "] "@ + short_key(to)
                + " are the same account"@
        },
        ErrorView::ZeroAmount => "Cannot transfer zero amount"@,
        ErrorView::SamePair => "Cannot remove pair for same account index"@,
        ErrorView::NoPendingPair { index_a, index_b } => {
            "No pending transfer pair found between "@ + decimal(index_a as nat) + " and "@
                + decimal(index_b as nat)
        },
        ErrorView::NoPendingTransfers => "No pending transfers"@,
        ErrorView::NoNetTransfers => "No net transfers after aggregation"@,
        ErrorView::SenderNotFound { index } => "Sender account index not found: "@ + decimal(
            index as nat,
        ),
        ErrorView::InsufficientBalance { index, sender, balance, amount } => {
            "Insufficient balance: sender ["@ + decimal(index as nat) + "] "@ + short_key(sender)
                + " has "@ + decimal(balance as nat) + " but needs "@ + decimal(amount)
        },
        ErrorView::RecipientNotFound { index } => "Recipient account index not found: "@ + decimal(
            index as nat,
        ),
        ErrorView::PayloadEncoding => "Failed to encode payload as JSON"@,
    }
}

impl BuilderError {
    /// What is said of the error.
    pub fn message(&self) -> (text: String)
        ensures
            text@ == error_text(self@),
    {
        match self {
            BuilderError::UnknownSender { index } => {
                let mut text: String = "Unknown sender account index: ".to_owned();
                append_number(&mut text, *index as u64);
                text
            },
            BuilderError::SelfTransfer { from_index, from, to_index, to } => {
                let mut text: String = "Cannot transfer to self: sender [".to_owned();
                append_number(&mut text, *from_index as u64);
                text.append("] ");
                text.append(short_key_text(from).as_str());
                text.append(" and recipient [");
                append_number(&mut text, *to_index as u64);
                text.append("] ");
                text.append(short_key_text(to).as_str());
                text.append(" are the same account");
                text
            },
            BuilderError::ZeroAmount => "Cannot transfer zero amount".to_owned(),
            BuilderError::SamePair => "Cannot remove pair for same account index".to_owned(),
            BuilderError::NoPendingPair { index_a, index_b } => {
                let mut text: String = "No pending transfer pair found between ".to_owned();
                append_number(&mut text, *index_a as u64);
                text.append(" and ");
                append_number(&mut text, *index_b as u64);
                text
            },
            BuilderError::NoPendingTransfers => "No pending transfers".to_owned(),
            BuilderError::NoNetTransfers => "No net transfers after aggregation".to_owned(),
            BuilderError::SenderNotFound { index } => {
                let mut text: String = "Sender account index not found: ".to_owned();
                append_number(&mut text, *index as u64);
                text
            },
            BuilderError::InsufficientBalance { index, sender, balance, amount } => {
                let mut text: String = "Insufficient balance: sender [".to_owned();
                append_number(&mut text, *index as u64);
                text.append("] ");
                text.append(short_key_text(sender).as_str());
                text.append(" has ");
                append_number(&mut text, *balance);
                text.append(" but needs ");
                text.append(wide_decimal_text(*amount).as_str());
                text
            },
            BuilderError::RecipientNotFound { index } => {
                let mut text: String = "Recipient account index not found: ".to_owned();
                append_number(&mut text, *index as u64);
                text
            },
            BuilderError::PayloadEncoding => "Failed to encode payload as JSON".to_owned(),
        }
    }
}

} // verus!
