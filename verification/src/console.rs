//! The console: what a line asks for, and how a request changes the builder.

use crate::builder::{BuilderState, BuilderView};
use crate::chain::{all_signed, batch_of, payload_bytes, prepared, reset_payload, settlement_fits};
use crate::codec::{decode_transfers, parse_transfers};
use crate::errors::{BuilderError, ErrorView};
use crate::hexadecimal::{hex_encode, hex_text};
use crate::ledger::{all_sized, transfer_views, Transfer, TransferView};
use crate::octets::bytes_view;
use crate::order::entries_in_order;
use crate::submission::{chain_root, read_chain_root, ChainError, ChainErrorView};
use crate::text::{append_number, decimal, text_views};
use crate::words::{hex_number, lower, number_fault_text, parse_hex_number, parse_number,
    same_but_for_case, same_text, split_words, trim, trimmed, whole_number, words, NumberFault};
use vstd::prelude::*;

verus! {

// ---------------------------------------------------------------------------------------------
// Service IDs

/// A text without the `0x` or `0X` that it may start with.
pub open spec fn without_hex_prefix(text: Seq<char>) -> Seq<char> {
    if text.len() >= 2 && text[0] == '0' && (text[1] == 'x' || text[1] == 'X') {
        text.skip(2)
    } else {
        text
    }
}

/// The service ID that a text stands for, or what is said of it.
pub open spec fn service_id_of(input: Seq<char>) -> Result<u32, Seq<char>> {
    let digits = without_hex_prefix(trimmed(input));
    if digits.len() == 0 {
        Err("Service ID cannot be empty"@)
    } else {
        match hex_number(digits) {
            Ok(id) => Ok(id),
            Err(fault) => Err(
                "Invalid service ID hex '"@ + input + "': "@ + number_fault_text(fault),
            ),
        }
    }
}

/// Reads a service ID in hexadecimal notation, with or without a leading `0x`.
pub fn parse_service_id_hex(input: &str) -> (result: Result<u32, String>)
    ensures
        match service_id_of(input@) {
            Ok(id) => result matches Ok(found) && found == id,
            Err(message) => result matches Err(found) && found@ == message,
        },
{
    let inner: &str = trim(input);
    let total: usize = inner.unicode_len();
    let digits: &str = if total >= 2 && inner.get_char(0) == '0' && (inner.get_char(1) == 'x'
        || inner.get_char(1) == 'X') {
        inner.substring_char(2, total)
    } else {
        inner
    };
    assert(digits@ =~= without_hex_prefix(trimmed(input@)));
    if digits.unicode_len() == 0 {
        return Err("Service ID cannot be empty".to_owned());
    }
    match parse_hex_number(digits) {
        Ok(id) => Ok(id),
        Err(fault) => {
            let mut message: String = "Invalid service ID hex '".to_owned();
            message.append(input);
            message.append("': ");
            match fault {
                NumberFault::InvalidDigit => message.append("invalid digit found in string"),
                NumberFault::TooLarge => message.append("number too large to fit in target type"),
            }
            Err(message)
        },
    }
}

// ---------------------------------------------------------------------------------------------
// Addresses of nodes

/// Whether a text starts with another.
pub open spec fn starts_with(text: Seq<char>, start: Seq<char>) -> bool {
    text.len() >= start.len() && text.take(start.len() as int) == start
}

/// A node's address with its scheme.
pub open spec fn normalized_url(url: Seq<char>) -> Seq<char> {
    if starts_with(url, "ws://"@) || starts_with(url, "wss://"@) {
        url
    } else {
        "ws://"@ + url
    }
}

/// Tells whether a text starts with another.
fn has_start(text: &str, start: &str) -> (yes: bool)
    ensures
        yes == starts_with(text@, start@),
{
    let len: usize = start.unicode_len();
    text.unicode_len() >= len && same_text(text.substring_char(0, len), start)
}

/// Puts a scheme before a node's address that has none.
pub fn normalize_url(url: &str) -> (full: String)
    ensures
        full@ == normalized_url(url@),
{
    if has_start(url, "ws://") || has_start(url, "wss://") {
        url.to_owned()
    } else {
        let mut full: String = "ws://".to_owned();
        full.append(url);
        full
    }
}

// ---------------------------------------------------------------------------------------------
// Commands

/// What a line asks for.
#[derive(Debug)]
pub enum Command {
    /// Nothing: the line is blank.
    Nothing,
    Help,
    Quit,
    State { show_pending_details: bool },
    SetRpc { url: String },
    SetService { service_id: u32 },
    Init { accounts: usize, balance: u64 },
    Transfer { from: usize, to: usize, amount: u64 },
    RemovePair { index_a: usize, index_b: usize },
    SendBatch,
    SendReset,
    LastTransfers,
    /// A command with the wrong words: how it is used, or which word is wrong.
    Misused { message: String },
    /// A value that is refused.
    Refused { message: String },
    /// A value that ends the console.
    Fatal { message: String },
    Unknown { word: String },
}

/// What a [`Command`] says.
#[verifier::ext_equal]
pub enum CommandView {
    Nothing,
    Help,
    Quit,
    State { show_pending_details: bool },
    SetRpc { url: Seq<char> },
    SetService { service_id: u32 },
    Init { accounts: usize, balance: u64 },
    Transfer { from: usize, to: usize, amount: u64 },
    RemovePair { index_a: usize, index_b: usize },
    SendBatch,
    SendReset,
    LastTransfers,
    Misused { message: Seq<char> },
    Refused { message: Seq<char> },
    Fatal { message: Seq<char> },
    Unknown { word: Seq<char> },
}

impl View for Command {
    type V = CommandView;

    open spec fn view(&self) -> CommandView {
        match self {
            Command::Nothing => CommandView::Nothing,
            Command::Help => CommandView::Help,
            Command::Quit => CommandView::Quit,
            Command::State { show_pending_details } => CommandView::State {
                show_pending_details: *show_pending_details,
            },
            Command::SetRpc { url } => CommandView::SetRpc { url: url@ },
            Command::SetService { service_id } => CommandView::SetService {
                service_id: *service_id,
            },
            Command::Init { accounts, balance } => CommandView::Init {
                accounts: *accounts,
                balance: *balance,
            },
            Command::Transfer { from, to, amount } => CommandView::Transfer {
                from: *from,
                to: *to,
                amount: *amount,
            },
            Command::RemovePair { index_a, index_b } => CommandView::RemovePair {
                index_a: *index_a,
                index_b: *index_b,
            },
            Command::SendBatch => CommandView::SendBatch,
            Command::SendReset => CommandView::SendReset,
            Command::LastTransfers => CommandView::LastTransfers,
            Command::Misused { message } => CommandView::Misused { message: message@ },
            Command::Refused { message } => CommandView::Refused { message: message@ },
            Command::Fatal { message } => CommandView::Fatal { message: message@ },
            Command::Unknown { word } => CommandView::Unknown { word: word@ },
        }
    }
}

/// What `state` asks for.
pub open spec fn state_command(parts: Seq<Seq<char>>) -> CommandView {
    CommandView::State {
        show_pending_details: parts.len() > 1 && {
            let detail = parts[1].map_values(|c: char| lower(c));
            detail == "full"@ || detail == "pending"@ || detail == "details"@
        },
    }
}

/// What `rpc` asks for.
pub open spec fn rpc_command(parts: Seq<Seq<char>>) -> CommandView {
    if parts.len() < 2 {
        CommandView::Misused { message: "Usage: rpc <url>"@ }
    } else {
        CommandView::SetRpc { url: normalized_url(parts[1]) }
    }
}

/// What `service` asks for.
pub open spec fn service_command(parts: Seq<Seq<char>>) -> CommandView {
    if parts.len() < 2 {
        CommandView::Misused {
            message: "Usage: service <hex_id> (example: a2db1bf9 or 0xa2db1bf9)"@,
        }
    } else {
        match service_id_of(parts[1]) {
            Ok(service_id) => CommandView::SetService { service_id },
            Err(message) => CommandView::Refused { message },
        }
    }
}

/// What `init` asks for: so many accounts with so much each, if nothing else is said.
pub open spec fn init_command(parts: Seq<Seq<char>>) -> CommandView {
    let accounts = if parts.len() > 1 {
        whole_number(parts[1], usize::MAX as nat)
    } else {
        Some(5)
    };
    let balance = if parts.len() > 2 {
        whole_number(parts[2], u64::MAX as nat)
    } else {
        Some(1_000_000)
    };
    match (accounts, balance) {
        (None, _) => CommandView::Fatal { message: "Invalid accounts value, expected usize"@ },
        (_, None) => CommandView::Fatal { message: "Invalid balance value, expected u64"@ },
        (Some(accounts), Some(balance)) => CommandView::Init {
            accounts: accounts as usize,
            balance: balance as u64,
        },
    }
}

/// What `transfer` asks for.
pub open spec fn transfer_command(parts: Seq<Seq<char>>) -> CommandView {
    if parts.len() != 4 {
        CommandView::Misused { message: "Usage: transfer <from_index> <to_index> <amount>"@ }
    } else {
        match (
            whole_number(parts[1], usize::MAX as nat),
            whole_number(parts[2], usize::MAX as nat),
            whole_number(parts[3], u64::MAX as nat),
        ) {
            (None, _, _) => CommandView::Misused { message: "Invalid from_index, expected usize"@ },
            (_, None, _) => CommandView::Misused { message: "Invalid to_index, expected usize"@ },
            (_, _, None) => CommandView::Misused { message: "Invalid amount, expected u64"@ },
            (Some(from), Some(to), Some(amount)) => CommandView::Transfer {
                from: from as usize,
                to: to as usize,
                amount: amount as u64,
            },
        }
    }
}

/// What `wipe-pair` asks for.
pub open spec fn remove_pair_command(parts: Seq<Seq<char>>) -> CommandView {
    if parts.len() != 3 {
        CommandView::Misused { message: "Usage: wipe-pair <sender_index> <receiver_index>"@ }
    } else {
        match (
            whole_number(parts[1], usize::MAX as nat),
            whole_number(parts[2], usize::MAX as nat),
        ) {
            (None, _) => CommandView::Misused { message: "Invalid index_a, expected usize"@ },
            (_, None) => CommandView::Misused { message: "Invalid index_b, expected usize"@ },
            (Some(a), Some(b)) => CommandView::RemovePair {
                index_a: a as usize,
                index_b: b as usize,
            },
        }
    }
}

/// What some words ask for. The first says which command it is.
pub open spec fn command_of(parts: Seq<Seq<char>>) -> CommandView {
    if parts.len() == 0 {
        CommandView::Nothing
    } else {
        let word = parts[0];
        if word == "help"@ || word == "h"@ {
            CommandView::Help
        } else if word == "quit"@ || word == "exit"@ || word == "q"@ {
            CommandView::Quit
        } else if word == "state"@ || word == "s"@ {
            state_command(parts)
        } else if word == "rpc"@ {
            rpc_command(parts)
        } else if word == "service"@ || word == "sv"@ {
            service_command(parts)
        } else if word == "init"@ || word == "i"@ {
            init_command(parts)
        } else if word == "transfer"@ || word == "t"@ {
            transfer_command(parts)
        } else if word == "remove-pair"@ || word == "remove_pair"@ || word == "rp"@ || word
            == "wipe-pair"@ || word == "wipe_pair"@ || word == "wp"@ {
            remove_pair_command(parts)
        } else if word == "send-batch"@ || word == "send_batch"@ || word == "sb"@ {
            CommandView::SendBatch
        } else if word == "reset"@ || word == "send-reset"@ || word == "sr"@ {
            CommandView::SendReset
        } else if word == "last-transfers"@ || word == "lt"@ {
            CommandView::LastTransfers
        } else {
            CommandView::Unknown { word }
        }
    }
}

/// Reads what `state` asks for.
fn parse_state(parts: &Vec<String>) -> (command: Command)
    ensures
        command@ == state_command(text_views(parts@)),
{
    let show_pending_details: bool = parts.len() > 1 && (same_but_for_case(
        parts[1].as_str(),
        "full",
    ) || same_but_for_case(parts[1].as_str(), "pending") || same_but_for_case(
        parts[1].as_str(),
        "details",
    ));
    Command::State { show_pending_details }
}

/// Reads what `rpc` asks for.
fn parse_rpc(parts: &Vec<String>) -> (command: Command)
    ensures
        command@ == rpc_command(text_views(parts@)),
{
    if parts.len() < 2 {
        return Command::Misused { message: "Usage: rpc <url>".to_owned() };
    }
    Command::SetRpc { url: normalize_url(parts[1].as_str()) }
}

/// Reads what `service` asks for.
fn parse_service(parts: &Vec<String>) -> (command: Command)
    ensures
        command@ == service_command(text_views(parts@)),
{
    if parts.len() < 2 {
        return Command::Misused {
            message: "Usage: service <hex_id> (example: a2db1bf9 or 0xa2db1bf9)".to_owned(),
        };
    }
    match parse_service_id_hex(parts[1].as_str()) {
        Ok(service_id) => Command::SetService { service_id },
        Err(message) => Command::Refused { message },
    }
}

/// Reads what `init` asks for.
fn parse_init(parts: &Vec<String>) -> (command: Command)
    ensures
        command@ == init_command(text_views(parts@)),
{
    let accounts: Option<u64> = if parts.len() > 1 {
        parse_number(parts[1].as_str(), usize::MAX as u64)
    } else {
        Some(5)
    };
    let balance: Option<u64> = if parts.len() > 2 {
        parse_number(parts[2].as_str(), u64::MAX)
    } else {
        Some(1_000_000)
    };
    match (accounts, balance) {
        (None, _) => Command::Fatal {
            message: "Invalid accounts value, expected usize".to_owned(),
        },
        (_, None) => Command::Fatal { message: "Invalid balance value, expected u64".to_owned() },
        (Some(accounts), Some(balance)) => Command::Init { accounts: accounts as usize, balance },
    }
}

/// Reads what `transfer` asks for.
fn parse_transfer(parts: &Vec<String>) -> (command: Command)
    ensures
        command@ == transfer_command(text_views(parts@)),
{
    if parts.len() != 4 {
        return Command::Misused {
            message: "Usage: transfer <from_index> <to_index> <amount>".to_owned(),
        };
    }
    let from: usize = match parse_number(parts[1].as_str(), usize::MAX as u64) {
        Some(n) => n as usize,
        None => {
            return Command::Misused { message: "Invalid from_index, expected usize".to_owned() };
        },
    };
    let to: usize = match parse_number(parts[2].as_str(), usize::MAX as u64) {
        Some(n) => n as usize,
        None => {
            return Command::Misused { message: "Invalid to_index, expected usize".to_owned() };
        },
    };
    match parse_number(parts[3].as_str(), u64::MAX) {
        Some(amount) => Command::Transfer { from, to, amount },
        None => Command::Misused { message: "Invalid amount, expected u64".to_owned() },
    }
}

/// Reads what `wipe-pair` asks for.
fn parse_remove_pair(parts: &Vec<String>) -> (command: Command)
    ensures
        command@ == remove_pair_command(text_views(parts@)),
{
    if parts.len() != 3 {
        return Command::Misused {
            message: "Usage: wipe-pair <sender_index> <receiver_index>".to_owned(),
        };
    }
    let index_a: usize = match parse_number(parts[1].as_str(), usize::MAX as u64) {
        Some(n) => n as usize,
        None => {
            return Command::Misused { message: "Invalid index_a, expected usize".to_owned() };
        },
    };
    match parse_number(parts[2].as_str(), usize::MAX as u64) {
        Some(n) => Command::RemovePair { index_a, index_b: n as usize },
        None => Command::Misused { message: "Invalid index_b, expected usize".to_owned() },
    }
}

/// Reads what a line asks for.
pub fn parse_command(line: &str) -> (command: Command)
    ensures
        command@ == command_of(words(line@)),
{
    let parts: Vec<String> = split_words(line);
    assert(words(line@) == text_views(parts@));
    if parts.len() == 0 {
        return Command::Nothing;
    }
    let word: &str = parts[0].as_str();
    assert(word@ == words(line@)[0]);
    if same_text(word, "help") || same_text(word, "h") {
        Command::Help
    } else if same_text(word, "quit") || same_text(word, "exit") || same_text(word, "q") {
        Command::Quit
    } else if same_text(word, "state") || same_text(word, "s") {
        parse_state(&parts)
    } else if same_text(word, "rpc") {
        parse_rpc(&parts)
    } else if same_text(word, "service") || same_text(word, "sv") {
        parse_service(&parts)
    } else if same_text(word, "init") || same_text(word, "i") {
        parse_init(&parts)
    } else if same_text(word, "transfer") || same_text(word, "t") {
        parse_transfer(&parts)
    } else if same_text(word, "remove-pair") || same_text(word, "remove_pair") || same_text(
        word,
        "rp",
    ) || same_text(word, "wipe-pair") || same_text(word, "wipe_pair") || same_text(word, "wp") {
        parse_remove_pair(&parts)
    } else if same_text(word, "send-batch") || same_text(word, "send_batch") || same_text(
        word,
        "sb",
    ) {
        Command::SendBatch
    } else if same_text(word, "reset") || same_text(word, "send-reset") || same_text(word, "sr") {
        Command::SendReset
    } else if same_text(word, "last-transfers") || same_text(word, "lt") {
        Command::LastTransfers
    } else {
        Command::Unknown { word: word.to_owned() }
    }
}

// ---------------------------------------------------------------------------------------------
// Requests that go to the chain

/// What is to be sent to the chain, and the builder as it is if that succeeds.
pub struct Tentative {
    pub state: BuilderState,
    pub payload: Vec<u8>,
    pub extrinsic: Vec<u8>,
    /// How many segments the work item is to export.
    pub export_count: u16,
}

impl BuilderState {
    /// Tells whether a package can be submitted: there must be a node and a service.
    pub fn may_submit(&self, connected: bool) -> (yes: bool)
        ensures
            yes == (connected && self@.service_id is Some),
    {
        connected && self.service_id.is_some()
    }

    /// Prepares the pending transfers on a copy of the builder. A batch exports one segment.
    pub fn begin_batch(&self) -> (result: Result<Tentative, BuilderError>)
        requires
            settlement_fits(self@.accounts, entries_in_order(self@.pending)),
        ensures
            match result {
                Ok(tentative) => {
                    &&& prepared(self@) == (
                        tentative.state@,
                        Ok::<(Seq<u8>, Seq<u8>), ErrorView>(
                            (tentative.payload@, tentative.extrinsic@),
                        ),
                    )
                    &&& tentative.export_count == 1
                    &&& all_signed(batch_of(self@))
                    &&& all_sized(batch_of(self@))
                    &&& batch_of(self@).len() <= u32::MAX
                },
                Err(error) => prepared(self@).1 == Err::<(Seq<u8>, Seq<u8>), ErrorView>(error@),
            },
    {
        let mut state: BuilderState = self.clone();
        match state.prepare_transfers() {
            Ok((payload, extrinsic)) => Ok(
                Tentative { state, payload, extrinsic, export_count: 1 },
            ),
            Err(error) => Err(error),
        }
    }

    /// Prepares a reset on a copy of the builder. A reset has an empty extrinsic and exports
    /// nothing.
    pub fn begin_reset(&self) -> (result: Result<Tentative, BuilderError>)
        ensures
            result matches Ok(tentative) && {
                &&& tentative.state@ == self@
                &&& tentative.payload@ == payload_bytes(reset_payload(self@.root))
                &&& tentative.extrinsic@.len() == 0
                &&& tentative.export_count == 0
            },
    {
        let mut state: BuilderState = self.clone();
        match state.prepare_reset() {
            Ok(payload) => Ok(
                Tentative { state, payload, extrinsic: Vec::new(), export_count: 0 },
            ),
            Err(error) => Err(error),
        }
    }

    /// Ends a batch: the builder becomes `tentative` if it was submitted, and else stays as it is,
    /// its pending transfers with it.
    pub fn finish_batch(&mut self, tentative: BuilderState, submitted: bool)
        ensures
            final(self)@ == (if submitted {
                tentative@
            } else {
                old(self)@
            }),
    {
        if submitted {
            *self = tentative;
        }
    }

    /// Ends a reset: the builder becomes `tentative` if it was submitted, and forgets the packages
    /// submitted so far; else it stays as it is.
    pub fn finish_reset(&mut self, tentative: BuilderState, submitted: bool)
        ensures
            final(self)@ == (if submitted {
                BuilderView { packages: Seq::empty(), ..tentative@ }
            } else {
                old(self)@
            }),
    {
        if submitted {
            *self = tentative;
            self.clear_packages();
        }
    }

    /// Chooses the node that packages are submitted through.
    pub fn set_rpc(&mut self, url: String)
        ensures
            final(self)@ == (BuilderView { rpc_url: Some(url@), ..old(self)@ }),
    {
        self.rpc_url = Some(url);
    }

    /// Chooses the service that packages are submitted to, and adopts the root that the chain
    /// holds for it. `stored` is the value that the chain stores for that root; it is missing where
    /// there is no node to ask.
    pub fn on_service_chosen(&mut self, service_id: u32, stored: Option<Option<&[u8]>>) -> (result:
        Result<(), ChainError>)
        ensures
            ({
                let (after, outcome) = service_chosen(
                    old(self)@,
                    service_id,
                    match stored {
                        Some(value) => Some(bytes_view(value)),
                        None => None,
                    },
                );
                &&& final(self)@ == after
                &&& match outcome {
                    Ok(_) => result is Ok,
                    Err(error) => result matches Err(found) && found@ == error,
                }
            }),
    {
        self.service_id = Some(service_id);
        match stored {
            None => Ok(()),
            Some(value) => match read_chain_root(value) {
                Ok(root) => {
                    self.adopt_root(root);
                    Ok(())
                },
                Err(error) => Err(error),
            },
        }
    }
}

/// The builder once a service was chosen, and what is wrong with the root that the chain holds for
/// it, if anything is. Without a node, or with a root that cannot be read, the builder keeps its
/// root.
pub open spec fn service_chosen(
    s: BuilderView,
    service_id: u32,
    stored: Option<Option<Seq<u8>>>,
) -> (BuilderView, Result<(), ChainErrorView>) {
    let chosen = BuilderView { service_id: Some(service_id), ..s };
    match stored {
        None => (chosen, Ok(())),
        Some(value) => match chain_root(value) {
            Ok(root) => (BuilderView { root, ..chosen }, Ok(())),
            Err(error) => (chosen, Err(error)),
        },
    }
}

// ---------------------------------------------------------------------------------------------
// Exported transfers

/// What is shown of a transfer.
pub open spec fn transfer_line(t: TransferView) -> Seq<char> {
    "[Transfer] from: "@ + hex_text(t.from) + " to: "@ + hex_text(t.to) + " amount: "@ + decimal(
        t.amount as nat,
    ) + " nonce: "@ + decimal(t.nonce as nat)
}

/// What is shown of the transfers that a segment holds; nothing where it holds none that can be
/// read.
pub open spec fn segment_lines(bytes: Seq<u8>) -> Option<Seq<Seq<char>>> {
    match parse_transfers(bytes) {
        None => None,
        Some(ts) => Some(Seq::new(ts.len(), |i: int| transfer_line(ts[i]))),
    }
}

/// What some lines say, if there are any.
pub open spec fn lines_view(lines: Option<Vec<String>>) -> Option<Seq<Seq<char>>> {
    match lines {
        None => None,
        Some(texts) => Some(text_views(texts@)),
    }
}

/// Says what a transfer is.
pub fn describe_transfer(transfer: &Transfer) -> (text: String)
    ensures
        text@ == transfer_line(transfer@),
{
    let mut text: String = "[Transfer] from: ".to_owned();
    text.append(hex_encode(transfer.from.as_slice()).as_str());
    text.append(" to: ");
    text.append(hex_encode(transfer.to.as_slice()).as_str());
    text.append(" amount: ");
    append_number(&mut text, transfer.amount);
    text.append(" nonce: ");
    append_number(&mut text, transfer.nonce);
    text
}

/// Lists the transfers that a segment holds.
pub fn list_segment(bytes: &[u8]) -> (lines: Option<Vec<String>>)
    ensures
        lines_view(lines) == segment_lines(bytes@),
{
    match decode_transfers(bytes) {
        Err(_) => None,
        Ok(transfers) => {
            let ghost ts = parse_transfers(bytes@)->0;
            let mut lines: Vec<String> = Vec::new();
            let mut i: usize = 0;
            while i < transfers.len()
                invariant
                    i <= transfers@.len(),
                    ts == transfer_views(transfers@),
                    lines@.len() == i,
                    forall|k: int| 0 <= k < i ==> (#[trigger] lines@[k])@ == transfer_line(ts[k]),
                decreases transfers@.len() - i,
            {
                lines.push(describe_transfer(&transfers[i]));
                i += 1;
            }
            assert(text_views(lines@) =~= Seq::new(ts.len(), |k: int| transfer_line(ts[k])));
            Some(lines)
        },
    }
}

/// What is shown of some segments.
#[derive(Debug)]
pub struct TransferListing {
    /// Segment by segment, the transfers that it holds, if it can be read.
    pub segments: Vec<Option<Vec<String>>>,
    /// Whether there is a transfer at all.
    pub found: bool,
}

/// Lists the transfers that some segments hold.
pub fn list_segments(segments: &Vec<Vec<u8>>) -> (listing: TransferListing)
    ensures
        listing.segments@.len() == segments@.len(),
        forall|i: int|
            0 <= i < segments@.len() ==> lines_view(#[trigger] listing.segments@[i])
                == segment_lines(segments@[i]@),
        listing.found <==> exists|i: int|
            0 <= i < segments@.len() && (segment_lines((#[trigger] segments@[i])@) matches Some(
                lines,
            ) && lines.len() > 0),
{
    let mut lists: Vec<Option<Vec<String>>> = Vec::new();
    let mut found: bool = false;
    let mut i: usize = 0;
    while i < segments.len()
        invariant
            i <= segments@.len(),
            lists@.len() == i,
            forall|k: int|
                0 <= k < i ==> lines_view(#[trigger] lists@[k]) == segment_lines(segments@[k]@),
            found <==> exists|k: int|
                0 <= k < i && (segment_lines((#[trigger] segments@[k])@) matches Some(lines)
                    && lines.len() > 0),
        decreases segments@.len() - i,
    {
        let lines: Option<Vec<String>> = list_segment(segments[i].as_slice());
        let any: bool = match &lines {
            Some(texts) => texts.len() > 0,
            None => false,
        };
        assert(any == (segment_lines(segments@[i as int]@) matches Some(shown) && shown.len() > 0));
        if any {
            found = true;
        }
        lists.push(lines);
        i += 1;
    }
    TransferListing { segments: lists, found }
}

} // verus!
