//! From pending transfers to what the chain is sent.

use crate::accounts::{admin_keypair, AccountState, AccountView, Keypair};
use crate::builder::{BuilderState, BuilderView};
use crate::codec::{encode_transfers, transfers_bytes};
use crate::crypto::{ed25519_accepts, ed25519_signature};
use crate::errors::{BuilderError, ErrorView};
use crate::json::{encode_payload_json, json_of_payload, json_text};
use crate::ledger::{all_sized, transfer_views, AccountId, Payload, PayloadView, StateRoot,
    Transfer, TransferView};
use crate::order::{entries, entries_in_order, Pair};
use crate::refinement::{admin_seed, batch_root, reset_message, reset_signing_message,
    signed_by_admin, signed_by_sender, transfer_message, transfer_signing_message};
use crate::text::ascii_bytes;
use vstd::prelude::*;

verus! {

/// One net transfer that was carried out.
pub struct Movement {
    pub from: usize,
    pub to: usize,
    pub amount: u64,
    pub nonce: u64,
}

/// How far the pending transfers of a batch were carried out: the accounts, what moved, and why
/// it went no further, if it did not.
pub struct Settlement {
    pub accounts: Map<usize, AccountView>,
    pub movements: Seq<Movement>,
    pub failure: Option<ErrorView>,
}

/// Who sends in a net transfer.
pub open spec fn net_sender(pair: Pair, net: i128) -> usize {
    if net > 0 {
        pair.0
    } else {
        pair.1
    }
}

/// Who receives in a net transfer.
pub open spec fn net_recipient(pair: Pair, net: i128) -> usize {
    if net > 0 {
        pair.1
    } else {
        pair.0
    }
}

/// How much moves in a net transfer.
pub open spec fn net_amount(net: i128) -> nat {
    if net > 0 {
        net as nat
    } else {
        (-net) as nat
    }
}

/// An account that sent one transfer more.
pub open spec fn debited(account: AccountView, amount: u64) -> AccountView {
    AccountView {
        balance: (account.balance - amount) as u64,
        nonce: (account.nonce + 1) as u64,
        ..account
    }
}

/// An account that received a transfer. Its balance stops at the largest number.
pub open spec fn credited(account: AccountView, amount: u64) -> AccountView {
    AccountView {
        balance: if account.balance + amount > u64::MAX {
            u64::MAX
        } else {
            (account.balance + amount) as u64
        },
        ..account
    }
}

/// Carries out one pending net transfer. A sender without enough stays as it was; a recipient that
/// is not known is noticed once the sender has paid.
pub open spec fn settle_entry(s: Settlement, pair: Pair, net: i128) -> Settlement {
    let from = net_sender(pair, net);
    let to = net_recipient(pair, net);
    let needed = net_amount(net);
    let amount = needed as u64;
    let sender = s.accounts[from];
    let paid = s.accounts.insert(from, debited(sender, amount));
    if net == 0 {
        s
    } else if !s.accounts.contains_key(from) {
        Settlement { failure: Some(ErrorView::SenderNotFound { index: from }), ..s }
    } else if sender.balance < needed {
        Settlement {
            failure: Some(
                ErrorView::InsufficientBalance {
                    index: from,
                    sender: sender.keypair.public_key,
                    balance: sender.balance,
                    amount: needed,
                },
            ),
            ..s
        }
    } else if !paid.contains_key(to) {
        Settlement {
            accounts: paid,
            failure: Some(ErrorView::RecipientNotFound { index: to }),
            ..s
        }
    } else {
        Settlement {
            accounts: paid.insert(to, credited(paid[to], amount)),
            movements: s.movements.push(Movement { from, to, amount, nonce: sender.nonce }),
            failure: None,
        }
    }
}

/// Carries out some pending net transfers in turn, up to the first that fails.
pub open spec fn settle(
    accounts: Map<usize, AccountView>,
    items: Seq<(Pair, i128)>,
) -> Settlement
    decreases items.len(),
{
    if items.len() == 0 {
        unsettled(accounts)
    } else {
        let before = settle(accounts, items.drop_last());
        if before.failure is Some {
            before
        } else {
            settle_entry(before, items.last().0, items.last().1)
        }
    }
}

/// Whether numbers stay in their range as some pending net transfers are carried out in turn: no
/// net transfer is too large to be negated, no sender's count of transfers is at its end, and the
/// transfers can be counted in 32 bits.
pub open spec fn settlement_fits(
    accounts: Map<usize, AccountView>,
    items: Seq<(Pair, i128)>,
) -> bool {
    &&& settle(accounts, items).movements.len() <= u32::MAX
    &&& forall|i: int|
        0 <= i < items.len() ==> entry_fits(
            settle(accounts, items.take(i)),
            (#[trigger] items[i]).0,
            items[i].1,
        )
}

/// Whether numbers stay in their range as one pending net transfer is carried out.
pub open spec fn entry_fits(s: Settlement, pair: Pair, net: i128) -> bool {
    s.failure is None ==> {
        let from = net_sender(pair, net);
        &&& net > i128::MIN
        &&& net != 0 && s.accounts.contains_key(from) && s.accounts[from].balance >= net_amount(net)
            ==> s.accounts[from].nonce < u64::MAX
    }
}

/// The signed transfer of a movement between accounts.
pub open spec fn transfer_of(accounts: Map<usize, AccountView>, m: Movement) -> TransferView {
    let sender = accounts[m.from].keypair;
    let recipient = accounts[m.to].keypair.public_key;
    TransferView {
        from: sender.public_key,
        to: recipient,
        amount: m.amount,
        nonce: m.nonce,
        signature: ed25519_signature(
            sender.signing_key,
            transfer_message(sender.public_key, recipient, m.nonce, m.amount),
        ),
    }
}

/// The signed transfers of some movements between accounts.
pub open spec fn transfers_of(
    accounts: Map<usize, AccountView>,
    movements: Seq<Movement>,
) -> Seq<TransferView> {
    movements.map_values(|m: Movement| transfer_of(accounts, m))
}

/// How the pending transfers of a builder are carried out.
pub open spec fn settled(s: BuilderView) -> Settlement {
    settle(s.accounts, entries_in_order(s.pending))
}

/// The transfers that a builder's pending ones come to.
pub open spec fn batch_of(s: BuilderView) -> Seq<TransferView> {
    transfers_of(s.accounts, settled(s).movements)
}

/// The bytes of a payload's JSON document.
pub open spec fn payload_bytes(payload: PayloadView) -> Seq<u8> {
    ascii_bytes(json_text(json_of_payload(payload)))
}

/// The builder once its pending transfers were carried out, and what the chain is then sent, the
/// payload and the extrinsic, or why not. Pending transfers are gone either way, and the accounts
/// keep what was carried out before a failure.
pub open spec fn prepared(s: BuilderView) -> (BuilderView, Result<(Seq<u8>, Seq<u8>), ErrorView>) {
    let run = settled(s);
    let after = BuilderView { accounts: run.accounts, pending: Map::empty(), ..s };
    let new_root = batch_root(s.root, batch_of(s));
    if s.pending.is_empty() {
        (s, Err(ErrorView::NoPendingTransfers))
    } else if run.failure is Some {
        (after, Err(run.failure->0))
    } else if run.movements.len() == 0 {
        (after, Err(ErrorView::NoNetTransfers))
    } else {
        (
            BuilderView { root: new_root, ..after },
            Ok(
                (
                    payload_bytes(PayloadView::TransferBatch { old_root: s.root, new_root }),
                    transfers_bytes(batch_of(s)),
                ),
            ),
        )
    }
}

/// What a prepared batch says: its payload and its extrinsic.
pub open spec fn batch_view(result: Result<(Vec<u8>, Vec<u8>), BuilderError>) -> Result<
    (Seq<u8>, Seq<u8>),
    ErrorView,
> {
    match result {
        Ok((payload, extrinsic)) => Ok((payload@, extrinsic@)),
        Err(error) => Err(error@),
    }
}

/// Signs a transfer on behalf of its sender. The signature is valid under the sender's key.
pub fn sign_transfer_message(
    keypair: &Keypair,
    from: &AccountId,
    to: &AccountId,
    nonce: u64,
    amount: u64,
) -> (signature: [u8; 64])
    requires
        from@ == keypair@.public_key,
    ensures
        signature@ == ed25519_signature(
            keypair@.signing_key,
            transfer_message(from@, to@, nonce, amount),
        ),
        ed25519_accepts(from@, signature@, transfer_message(from@, to@, nonce, amount)),
{
    let message: [u8; 32] = transfer_signing_message(from, to, nonce, amount);
    keypair.sign(message.as_slice())
}

/// The size of a net transfer.
fn size_of_net(net: i128) -> (size: u128)
    requires
        net > i128::MIN,
    ensures
        size == net_amount(net),
{
    if net > 0 {
        net as u128
    } else {
        (-net) as u128
    }
}

/// A net transfer that was carried out and is to be signed.
struct Unsigned {
    sender: Keypair,
    to: AccountId,
    amount: u64,
    nonce: u64,
}

/// Some accounts, before anything moves.
pub open spec fn unsettled(accounts: Map<usize, AccountView>) -> Settlement {
    Settlement { accounts, movements: Seq::empty(), failure: None }
}

impl BuilderState {
    /// Carries out one pending net transfer.
    fn carry_out(&mut self, pair: Pair, net: i128) -> (result: Result<
        Option<Unsigned>,
        BuilderError,
    >)
        requires
            entry_fits(unsettled(old(self)@.accounts), pair, net),
        ensures
            ({
                let end = settle_entry(unsettled(old(self)@.accounts), pair, net);
                &&& final(self)@ == (BuilderView { accounts: end.accounts, ..old(self)@ })
                &&& match result {
                    Err(error) => end.failure == Some(error@),
                    Ok(None) => end.failure is None && end.movements.len() == 0,
                    Ok(Some(moved)) => {
                        let m = end.movements[0];
                        &&& end.failure is None
                        &&& end.movements.len() == 1
                        &&& moved.sender@ == old(self)@.accounts[m.from].keypair
                        &&& moved.to@ == old(self)@.accounts[m.to].keypair.public_key
                        &&& moved.amount == m.amount
                        &&& moved.nonce == m.nonce
                    },
                }
            }),
    {
        let ghost before = self@.accounts;
        if net == 0 {
            return Ok(None);
        }
        let (from_index, to_index): (usize, usize) = if net > 0 {
            (pair.0, pair.1)
        } else {
            (pair.1, pair.0)
        };
        let needed: u128 = size_of_net(net);

        let (sender, amount, nonce): (Keypair, u64, u64) = match self.accounts.get(&from_index) {
            None => {
                return Err(BuilderError::SenderNotFound { index: from_index });
            },
            Some(account) => {
                assert(before[from_index] == account@);
                if (account.balance as u128) < needed {
                    return Err(
                        BuilderError::InsufficientBalance {
                            index: from_index,
                            sender: account.keypair.public_key(),
                            balance: account.balance,
                            amount: needed,
                        },
                    );
                }
                let amount: u64 = needed as u64;
                let keypair: Keypair = account.keypair;
                let nonce: u64 = account.nonce;
                let paid = AccountState {
                    keypair,
                    balance: account.balance - amount,
                    nonce: nonce + 1,
                };
                self.accounts.insert(from_index, paid);
                (keypair, amount, nonce)
            },
        };
        let ghost paid = before.insert(from_index, debited(before[from_index], amount));
        assert(self@.accounts =~= paid);

        let to: AccountId = match self.accounts.get(&to_index) {
            None => {
                return Err(BuilderError::RecipientNotFound { index: to_index });
            },
            Some(recipient) => {
                assert(paid[to_index] == recipient@);
                let keypair: Keypair = recipient.keypair;
                let richer = AccountState {
                    keypair,
                    balance: recipient.balance.saturating_add(amount),
                    nonce: recipient.nonce,
                };
                self.accounts.insert(to_index, richer);
                keypair.public_key()
            },
        };
        assert(self@.accounts =~= paid.insert(to_index, credited(paid[to_index], amount)));
        Ok(Some(Unsigned { sender, to, amount, nonce }))
    }

    /// Carries out one pending net transfer and signs it.
    fn settle_pair(&mut self, pair: Pair, net: i128) -> (result: Result<
        Option<Transfer>,
        BuilderError,
    >)
        requires
            entry_fits(unsettled(old(self)@.accounts), pair, net),
        ensures
            ({
                let end = settle_entry(unsettled(old(self)@.accounts), pair, net);
                &&& final(self)@ == (BuilderView { accounts: end.accounts, ..old(self)@ })
                &&& match result {
                    Err(error) => end.failure == Some(error@),
                    Ok(None) => end.failure is None && end.movements.len() == 0,
                    Ok(Some(transfer)) => {
                        &&& end.failure is None
                        &&& end.movements.len() == 1
                        &&& transfer@ == transfer_of(old(self)@.accounts, end.movements[0])
                        &&& signed_by_sender(transfer@)
                    },
                }
            }),
    {
        match self.carry_out(pair, net) {
            Err(error) => Err(error),
            Ok(None) => Ok(None),
            Ok(Some(moved)) => {
                let Unsigned { sender, to, amount, nonce } = moved;
                let from: AccountId = sender.public_key();
                let signature: [u8; 64] = sign_transfer_message(&sender, &from, &to, nonce, amount);
                Ok(Some(Transfer { from, to, amount, nonce, signature }))
            },
        }
    }
}

/// Carrying out a transfer does not depend on what moved before, except through the accounts.
proof fn lemma_settle_entry_appends(s: Settlement, pair: Pair, net: i128)
    requires
        s.failure is None,
    ensures
        ({
            let end = settle_entry(s, pair, net);
            let step = settle_entry(unsettled(s.accounts), pair, net);
            &&& end.accounts == step.accounts
            &&& end.failure == step.failure
            &&& end.movements == s.movements + step.movements
            &&& step.movements.len() <= 1
            &&& step.failure is Some ==> step.movements.len() == 0
            &&& entry_fits(s, pair, net) == entry_fits(unsettled(s.accounts), pair, net)
        }),
{
    let end = settle_entry(s, pair, net);
    let step = settle_entry(unsettled(s.accounts), pair, net);
    assert(end.movements =~= s.movements + step.movements);
}

/// What moves in a transfer moves between accounts that are known.
proof fn lemma_movement_ends_known(s: Settlement, pair: Pair, net: i128)
    requires
        s.failure is None,
        settle_entry(s, pair, net).movements.len() > s.movements.len(),
    ensures
        ({
            let m = settle_entry(s, pair, net).movements.last();
            &&& s.accounts.contains_key(m.from)
            &&& s.accounts.contains_key(m.to)
        }),
{
}

/// Whether every one of some transfers is signed by its sender.
pub open spec fn all_signed(ts: Seq<TransferView>) -> bool {
    forall|i: int| 0 <= i < ts.len() ==> signed_by_sender(#[trigger] ts[i])
}

/// Two sets of accounts with the same indices and keys.
pub open spec fn same_keys(a: Map<usize, AccountView>, b: Map<usize, AccountView>) -> bool {
    &&& a.dom() == b.dom()
    &&& forall|i: usize| a.contains_key(i) ==> #[trigger] a[i].keypair == b[i].keypair
}

/// Carrying out pending transfers registers no account, removes none and changes no key.
pub proof fn settling_keeps_keys(accounts: Map<usize, AccountView>, items: Seq<(Pair, i128)>)
    ensures
        same_keys(accounts, settle(accounts, items).accounts),
    decreases items.len(),
{
    if items.len() > 0 {
        settling_keeps_keys(accounts, items.drop_last());
        let before = settle(accounts, items.drop_last());
        let after = settle(accounts, items);
        if before.failure is None {
            assert(after.accounts.dom() =~= before.accounts.dom());
        }
    }
}

/// A batch goes no further than its first failure.
pub proof fn settling_stops_at_failure(
    accounts: Map<usize, AccountView>,
    items: Seq<(Pair, i128)>,
    count: int,
)
    requires
        0 <= count <= items.len(),
        settle(accounts, items.take(count)).failure is Some,
    ensures
        settle(accounts, items) == settle(accounts, items.take(count)),
    decreases items.len() - count,
{
    if count == items.len() {
        assert(items.take(count) =~= items);
    } else {
        assert(items.take(count + 1).drop_last() =~= items.take(count));
        settling_stops_at_failure(accounts, items, count + 1);
    }
}

impl BuilderState {
    /// Carries out some pending net transfers in turn and signs them.
    #[verifier::spinoff_prover]
    #[verifier::rlimit(60)]
    fn settle_pairs(&mut self, items: &Vec<(Pair, i128)>) -> (result: Result<
        Vec<Transfer>,
        BuilderError,
    >)
        requires
            settlement_fits(old(self)@.accounts, items@),
        ensures
            ({
                let run = settle(old(self)@.accounts, items@);
                &&& final(self)@ == (BuilderView { accounts: run.accounts, ..old(self)@ })
                &&& match result {
                    Err(error) => run.failure == Some(error@),
                    Ok(transfers) => {
                        &&& run.failure is None
                        &&& transfer_views(transfers@) == transfers_of(
                            old(self)@.accounts,
                            run.movements,
                        )
                        &&& all_signed(transfer_views(transfers@))
                    },
                }
            }),
    {
        let ghost start = self@;
        let ghost accounts = start.accounts;
        let mut transfers: Vec<Transfer> = Vec::new();
        let mut i: usize = 0;
        assert(items@.take(0) =~= Seq::empty());
        assert(transfer_views(transfers@) =~= transfers_of(accounts, Seq::empty()));
        while i < items.len()
            invariant
                i <= items@.len(),
                start == old(self)@,
                accounts == start.accounts,
                settlement_fits(accounts, items@),
                settle(accounts, items@.take(i as int)).failure is None,
                self@ == (BuilderView {
                    accounts: settle(accounts, items@.take(i as int)).accounts,
                    ..start
                }),
                transfer_views(transfers@) == transfers_of(
                    accounts,
                    settle(accounts, items@.take(i as int)).movements,
                ),
                all_signed(transfer_views(transfers@)),
            decreases items@.len() - i,
        {
            let ghost run = settle(accounts, items@.take(i as int));
            let ghost next = settle(accounts, items@.take(i + 1));
            let (pair, net): (Pair, i128) = items[i];
            proof {
                assert(items@.take(i + 1).drop_last() =~= items@.take(i as int));
                assert(items@.take(i + 1).last() == items@[i as int]);
                assert(next == settle_entry(run, pair, net));
                lemma_settle_entry_appends(run, pair, net);
                assert(entry_fits(run, items@[i as int].0, items@[i as int].1));
            }
            match self.settle_pair(pair, net) {
                Err(error) => {
                    proof {
                        settling_stops_at_failure(accounts, items@, i + 1);
                    }
                    return Err(error);
                },
                Ok(None) => {
                    assert(next.movements =~= run.movements);
                },
                Ok(Some(transfer)) => {
                    let ghost done = transfer_views(transfers@);
                    transfers.push(transfer);
                    proof {
                        let m = next.movements.last();
                        assert(next.movements =~= run.movements.push(m));
                        lemma_movement_ends_known(run, pair, net);
                        settling_keeps_keys(accounts, items@.take(i as int));
                        assert(transfer@ == transfer_of(accounts, m));
                        assert(transfer_views(transfers@) =~= done.push(transfer@));
                        assert(transfers_of(accounts, next.movements) =~= transfers_of(
                            accounts,
                            run.movements,
                        ).push(transfer@));
                    }
                },
            }
            i += 1;
        }
        assert(items@.take(items@.len() as int) =~= items@);
        Ok(transfers)
    }

    /// Carries out the pending net transfers, computes the new root and lays out what the chain is
    /// sent: the payload as a JSON document, and the extrinsic that holds the transfers.
    pub fn prepare_transfers(&mut self) -> (result: Result<(Vec<u8>, Vec<u8>), BuilderError>)
        requires
            settlement_fits(old(self)@.accounts, entries_in_order(old(self)@.pending)),
        ensures
            (final(self)@, batch_view(result)) == prepared(old(self)@),
            result is Ok ==> {
                let batch = batch_of(old(self)@);
                all_signed(batch) && all_sized(batch) && batch.len() <= u32::MAX
            },
    {
        if self.pending_net_transfers.is_empty() {
            return Err(BuilderError::NoPendingTransfers);
        }
        let pending: Vec<(Pair, i128)> = entries(&self.pending_net_transfers);
        self.pending_net_transfers.clear();
        let old_root: StateRoot = self.current_root;
        let transfers: Vec<Transfer> = match self.settle_pairs(&pending) {
            Ok(transfers) => transfers,
            Err(error) => {
                return Err(error);
            },
        };
        assert(transfer_views(transfers@).len() == settled(old(self)@).movements.len());
        if transfers.is_empty() {
            return Err(BuilderError::NoNetTransfers);
        }
        let new_root: StateRoot = self.compute_batch_root(transfers.as_slice());
        self.current_root = new_root;
        let extrinsic: Vec<u8> = encode_transfers(transfers.as_slice());
        match encode_payload_json(&Payload::TransferBatch { old_root, new_root }) {
            Ok(payload) => Ok((payload, extrinsic)),
            Err(error) => Err(error),
        }
    }

    /// Lays out the payload of a reset to the current root, signed by the administrator.
    pub fn prepare_reset(&mut self) -> (result: Result<Vec<u8>, BuilderError>)
        ensures
            final(self)@ == old(self)@,
            result matches Ok(payload) && payload@ == payload_bytes(reset_payload(old(self)@.root)),
            signed_by_admin(old(self)@.root, reset_signature(old(self)@.root)),
    {
        let admin: Keypair = admin_keypair();
        let message: [u8; 32] = reset_signing_message(self.current_root);
        let signature: [u8; 64] = admin.sign(message.as_slice());
        encode_payload_json(&Payload::Reset { new_root: self.current_root, signature })
    }
}

/// The administrator's signature on a reset to a root.
pub open spec fn reset_signature(root: Seq<u8>) -> Seq<u8> {
    ed25519_signature(admin_seed(), reset_message(root))
}

/// The payload of a reset to a root, signed by the administrator.
pub open spec fn reset_payload(root: Seq<u8>) -> PayloadView {
    PayloadView::Reset { new_root: root, signature: reset_signature(root) }
}

// ---------------------------------------------------------------------------------------------
// Room for a batch

/// How far the first entries of a batch are carried out.
#[verifier::opaque]
spec fn settled_first(
    accounts: Map<usize, AccountView>,
    items: Seq<(Pair, i128)>,
    count: int,
) -> Settlement {
    settle(accounts, items.take(count))
}

/// Whether numbers stay in their range along the first entries of a batch.
#[verifier::opaque]
spec fn first_fit(
    accounts: Map<usize, AccountView>,
    items: Seq<(Pair, i128)>,
    count: int,
) -> bool {
    forall|k: int|
        0 <= k < count ==> entry_fits(
            settle(accounts, items.take(k)),
            (#[trigger] items[k]).0,
            items[k].1,
        )
}

/// Before the first entry nothing has moved.
proof fn lemma_first_none(accounts: Map<usize, AccountView>, items: Seq<(Pair, i128)>)
    ensures
        settled_first(accounts, items, 0) == unsettled(accounts),
        first_fit(accounts, items, 0),
{
    reveal(settled_first);
    reveal(first_fit);
    assert(items.take(0) =~= Seq::empty());
}

/// Numbers stay in their range along one entry more where they do along that entry.
proof fn lemma_first_fit_next(accounts: Map<usize, AccountView>, items: Seq<(Pair, i128)>, at: int)
    requires
        0 <= at < items.len(),
    ensures
        ({
            let fits = entry_fits(settled_first(accounts, items, at), items[at].0, items[at].1);
            &&& first_fit(accounts, items, at + 1) == (first_fit(accounts, items, at) && fits)
            &&& !fits ==> !settlement_fits(accounts, items)
        }),
{
    reveal(settled_first);
    reveal(first_fit);
}

/// One more entry is carried out on the accounts that the entries before it left.
proof fn lemma_first_next(accounts: Map<usize, AccountView>, items: Seq<(Pair, i128)>, at: int)
    requires
        0 <= at < items.len(),
        settled_first(accounts, items, at).failure is None,
    ensures
        ({
            let run = settled_first(accounts, items, at);
            let next = settled_first(accounts, items, at + 1);
            let step = settle_entry(unsettled(run.accounts), items[at].0, items[at].1);
            let fits = entry_fits(unsettled(run.accounts), items[at].0, items[at].1);
            &&& next.accounts == step.accounts
            &&& next.failure == step.failure
            &&& next.movements.len() == run.movements.len() + step.movements.len()
            &&& step.failure is Some ==> step.movements.len() == 0
            &&& first_fit(accounts, items, at + 1) == (first_fit(accounts, items, at) && fits)
            &&& !fits ==> !settlement_fits(accounts, items)
        }),
{
    reveal(settled_first);
    let run = settle(accounts, items.take(at));
    assert(settle(accounts, items.take(at + 1)) == settle_entry(run, items[at].0, items[at].1)) by {
        assert(items.take(at + 1).drop_last() =~= items.take(at));
        assert(items.take(at + 1).last() == items[at]);
    }
    lemma_settle_entry_appends(run, items[at].0, items[at].1);
    lemma_first_fit_next(accounts, items, at);
}

/// Nothing goes out of range after a failure, or after the last entry.
proof fn lemma_first_end(accounts: Map<usize, AccountView>, items: Seq<(Pair, i128)>, count: int)
    requires
        0 <= count <= items.len(),
        first_fit(accounts, items, count),
        settled_first(accounts, items, count).failure is Some || count == items.len(),
    ensures
        settlement_fits(accounts, items) == (settled_first(accounts, items, count).movements.len()
            <= u32::MAX),
{
    reveal(settled_first);
    reveal(first_fit);
    if count == items.len() {
        assert(items.take(count) =~= items);
    } else {
        settling_stops_at_failure(accounts, items, count);
        assert forall|k: int| 0 <= k < items.len() implies entry_fits(
            settle(accounts, items.take(k)),
            (#[trigger] items[k]).0,
            items[k].1,
        ) by {
            if k >= count {
                assert(items.take(k).take(count) =~= items.take(count));
                settling_stops_at_failure(accounts, items.take(k), count);
            }
        }
    }
}

impl BuilderState {
    /// Tells whether numbers stay in their range as one pending net transfer is carried out.
    fn fits_entry(&self, pair: Pair, net: i128) -> (fits: bool)
        ensures
            fits == entry_fits(unsettled(self@.accounts), pair, net),
    {
        if net == i128::MIN {
            return false;
        }
        if net == 0 {
            return true;
        }
        let from_index: usize = if net > 0 {
            pair.0
        } else {
            pair.1
        };
        match self.accounts.get(&from_index) {
            None => true,
            Some(account) => {
                assert(self@.accounts[from_index] == account@);
                (account.balance as u128) < size_of_net(net) || account.nonce < u64::MAX
            },
        }
    }

    /// Carries out some pending net transfers in turn without signing them, as long as numbers
    /// stay in their range, and tells whether they do.
    fn rehearse(&mut self, items: &Vec<(Pair, i128)>) -> (fits: bool)
        ensures
            fits == settlement_fits(old(self)@.accounts, items@),
    {
        let ghost accounts = self@.accounts;
        let mut moved: u64 = 0;
        let mut i: usize = 0;
        proof {
            lemma_first_none(accounts, items@);
        }
        while i < items.len()
            invariant
                i <= items@.len(),
                accounts == old(self)@.accounts,
                self@.accounts == settled_first(accounts, items@, i as int).accounts,
                settled_first(accounts, items@, i as int).failure is None,
                moved == settled_first(accounts, items@, i as int).movements.len(),
                moved <= i,
                first_fit(accounts, items@, i as int),
            decreases items@.len() - i,
        {
            let (pair, net): (Pair, i128) = items[i];
            proof {
                lemma_first_next(accounts, items@, i as int);
            }
            if !self.fits_entry(pair, net) {
                return false;
            }
            match self.carry_out(pair, net) {
                Err(_) => {
                    proof {
                        lemma_first_end(accounts, items@, i + 1);
                    }
                    return moved <= u32::MAX as u64;
                },
                Ok(None) => {},
                Ok(Some(_)) => {
                    moved += 1;
                },
            }
            i += 1;
        }
        proof {
            lemma_first_end(accounts, items@, i as int);
        }
        moved <= u32::MAX as u64
    }

    /// Tells whether numbers stay in their range as the pending net transfers are carried out, so
    /// that a batch can be prepared.
    pub fn can_prepare(&self) -> (fits: bool)
        ensures
            fits == settlement_fits(self@.accounts, entries_in_order(self@.pending)),
    {
        let items: Vec<(Pair, i128)> = entries(&self.pending_net_transfers);
        let mut copy: BuilderState = self.clone();
        copy.rehearse(&items)
    }
}

} // verus!
