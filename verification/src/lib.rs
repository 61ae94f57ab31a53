//! A token ledger whose balances are kept off chain.
//!
//! The ledger has two halves. A service on chain stores one state root and nothing else; a builder
//! off chain holds the accounts, nets and batches the transfers that its users ask for, and submits
//! them as work packages. A package carries a payload, which names the batch's old and new root,
//! and an extrinsic, which holds the signed transfers.
//!
//! The service's half:
//! - [`ledger`]: transfers, payloads and refinement outputs;
//! - [`codec`], [`json`], [`hexadecimal`]: how they are written and read;
//! - [`crypto`]: the hash function and the signature scheme;
//! - [`refinement`]: checking a work item's payload and transfers;
//! - [`accumulation`]: moving the stored root.
//!
//! The builder's half:
//! - [`accounts`], [`builder`]: keys, balances and pending transfers;
//! - [`chain`]: carrying out the pending transfers, and what the chain is sent;
//! - [`submission`]: packages, cores and statuses;
//! - [`console`], [`words`]: reading commands, and how a session commits what was submitted;
//! - [`report`], [`errors`], [`text`]: what is shown and said.
//!
//! [`order`] walks ordered maps and [`octets`] copies bytes.
//!
//! What holds of all this is stated and proved apart from it:
//! - [`laws`]: that queued transfers are netted, that no token is made or lost, that every operation
//!   keeps the builder consistent, and that what a consistent builder submits moves the root on
//!   chain to the builder's own;
//! - [`settlements`]: what a batch pays, to whom, and when it can be paid;
//! - [`commitments`]: that roots, signed messages and packages cover all that they stand for;
//! - [`verdicts`]: which work the service takes, and what becomes of the root on chain;
//! - [`operations`]: what each of the builder's operations changes and keeps, and what is shown;
//! - [`readings`], [`commands`]: what texts spell, and which line asks for what;
//! - [`sayings`]: that messages name what they are about;
//! - [`faithfulness`]: that views say what values hold.

pub mod accounts;
pub mod accumulation;
pub mod builder;
pub mod chain;
pub mod codec;
pub mod commands;
pub mod commitments;
pub mod console;
pub mod crypto;
pub mod errors;
pub mod faithfulness;
pub mod hexadecimal;
pub mod json;
pub mod laws;
pub mod ledger;
pub mod octets;
pub mod operations;
pub mod order;
pub mod readings;
pub mod refinement;
pub mod report;
pub mod sayings;
pub mod settlements;
pub mod submission;
pub mod text;
pub mod verdicts;
pub mod words;
