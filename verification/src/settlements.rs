//! What holds of a batch as a whole: what it pays, to whom, and when it can be paid.

use crate::accounts::AccountView;
use crate::builder::BuilderView;
use crate::chain::{batch_of, entry_fits, net_amount, net_recipient, net_sender, prepared,
    settle, settled, settlement_fits, settling_keeps_keys, Movement};
use crate::codec::{parse_transfers, transfers_bytes, transfers_round_trip};
use crate::commitments::{batch_roots_cover_the_batch, holds_batch, holds_order,
    signed_bytes_hold_the_order};
use crate::crypto::{blake2b_digest, ed25519_signature};
use crate::errors::ErrorView;
use crate::json::{json_of_payload, json_text};
use crate::laws::{all_fit, all_queued, balances_follow_transfers, consistent, has_room,
    lemma_entries_well_paired, lemma_movement_source, lemma_only_balances_fail,
    nonces_count_transfers, one_transfer_per_pair, owed, owing, paid_by, paid_to,
    queued_transfers_net, queueing_keeps_consistent, sent, small_supply_has_room, supply,
    total_queued, well_paired, TransferRequest};
use crate::ledger::{all_sized, PayloadView};
use crate::order::{entries_in_order, pair_before, pairs_in_order, pairs_in_order_are_ordered, Pair};
use crate::text::ascii_bytes;
use vstd::prelude::*;

verus! {

// ---------------------------------------------------------------------------------------------
// What a batch pays

/// Whether some movements are just what is owed: every one moves all that its sender owes its
/// recipient, for every debt there is one, and for no debt there are two.
pub open spec fn pays_debts(movements: Seq<Movement>, pending: Map<Pair, i128>) -> bool {
    &&& forall|k: int|
        0 <= k < movements.len() ==> {
            let m = #[trigger] movements[k];
            m.amount > 0 && m.amount == owed(pending, m.from, m.to)
        }
    &&& forall|a: usize, b: usize| #[trigger]
        owed(pending, a, b) > 0 ==> exists|k: int|
            0 <= k < movements.len() && (#[trigger] movements[k]).from == a && movements[k].to == b
    &&& forall|k: int, l: int|
        #![trigger movements[k], movements[l]]
        0 <= k < l < movements.len() ==> !(movements[k].from == movements[l].from
            && movements[k].to == movements[l].to)
}

/// Every entry that does not cancel out moves, where nothing fails.
proof fn lemma_entry_moves(
    accounts: Map<usize, AccountView>,
    items: Seq<(Pair, i128)>,
    i: int,
) -> (k: int)
    requires
        settle(accounts, items).failure is None,
        0 <= i < items.len(),
        items[i].1 != 0,
    ensures
        0 <= k < settle(accounts, items).movements.len(),
        settle(accounts, items).movements[k].from == net_sender(items[i].0, items[i].1),
        settle(accounts, items).movements[k].to == net_recipient(items[i].0, items[i].1),
    decreases items.len(),
{
    let rest = items.drop_last();
    let before = settle(accounts, rest);
    let run = settle(accounts, items);
    if i == items.len() - 1 {
        run.movements.len() - 1
    } else {
        assert(rest[i] == items[i]);
        let k = lemma_entry_moves(accounts, rest, i);
        assert(run.movements[k] == before.movements[k]);
        k
    }
}

/// Where the entries that do not cancel out come from.
proof fn lemma_owing_source(items: Seq<(Pair, i128)>, k: int) -> (i: int)
    requires
        0 <= k < owing(items).len(),
    ensures
        0 <= i < items.len(),
        items[i] == owing(items)[k],
        items[i].1 != 0,
    decreases items.len(),
{
    reveal(Seq::filter);
    let rest = items.drop_last();
    if k < owing(rest).len() {
        let i = lemma_owing_source(rest, k);
        assert(rest[i] == items[i]);
        i
    } else {
        items.len() - 1
    }
}

/// Entries of different pairs stay so without those that cancel out.
proof fn lemma_owing_distinct(items: Seq<(Pair, i128)>, k: int, l: int)
    requires
        forall|i: int, j: int|
            0 <= i < j < items.len() ==> (#[trigger] items[i]).0 != (#[trigger] items[j]).0,
        0 <= k < l < owing(items).len(),
    ensures
        owing(items)[k].0 != owing(items)[l].0,
    decreases items.len(),
{
    reveal(Seq::filter);
    let rest = items.drop_last();
    assert forall|i: int, j: int| 0 <= i < j < rest.len() implies (#[trigger] rest[i]).0 != (
    #[trigger] rest[j]).0 by {
        assert(rest[i] == items[i] && rest[j] == items[j]);
    }
    if l < owing(rest).len() {
        lemma_owing_distinct(rest, k, l);
    } else {
        let i = lemma_owing_source(rest, k);
        assert(rest[i] == items[i]);
        assert(items[i].0 != items[items.len() - 1].0);
    }
}

/// The entries of what is pending are all of it, each pair once.
proof fn lemma_entries_are_all(pending: Map<Pair, i128>)
    requires
        pending.dom().finite(),
    ensures
        forall|pair: Pair| #[trigger]
            pending.contains_key(pair) ==> exists|i: int|
                0 <= i < entries_in_order(pending).len() && #[trigger] entries_in_order(pending)[i]
                    == (pair, pending[pair]),
        forall|i: int, j: int|
            0 <= i < j < entries_in_order(pending).len() ==> (#[trigger] entries_in_order(
                pending,
            )[i]).0 != (#[trigger] entries_in_order(pending)[j]).0,
{
    let items = entries_in_order(pending);
    let pairs = pairs_in_order(pending.dom());
    pairs_in_order_are_ordered(pending.dom());
    assert forall|pair: Pair| #[trigger] pending.contains_key(pair) implies exists|i: int|
        0 <= i < items.len() && #[trigger] items[i] == (pair, pending[pair]) by {
        assert(pairs.to_set().contains(pair));
        let i = choose|i: int| 0 <= i < pairs.len() && pairs[i] == pair;
        assert(items[i] == (pair, pending[pair]));
    }
    assert forall|i: int, j: int| 0 <= i < j < items.len() implies (#[trigger] items[i]).0 != (
    #[trigger] items[j]).0 by {
        assert(items[i].0 == pairs[i] && items[j].0 == pairs[j]);
    }
}

/// A batch that succeeds pays what is owed: for any two accounts, all that one owes the other net
/// of what the other owes it, once, and nothing else.
pub proof fn batches_pay_what_is_owed(s: BuilderView)
    requires
        consistent(s),
        settled(s).failure is None,
    ensures
        pays_debts(settled(s).movements, s.pending),
{
    let items = entries_in_order(s.pending);
    let movements = settled(s).movements;
    lemma_entries_well_paired(s);
    lemma_entries_are_all(s.pending);
    one_transfer_per_pair(s.accounts, items);
    assert forall|k: int| 0 <= k < movements.len() implies ({
        let m = #[trigger] movements[k];
        m.amount > 0 && m.amount == owed(s.pending, m.from, m.to)
    }) by {
        let i = lemma_movement_source(s.accounts, items, k);
        assert(well_paired(s.accounts, items[i].0));
        assert(s.pending.contains_pair(items[i].0, items[i].1));
    }
    assert forall|a: usize, b: usize| #[trigger] owed(s.pending, a, b) > 0 implies exists|k: int|
        0 <= k < movements.len() && (#[trigger] movements[k]).from == a && movements[k].to == b by {
        let pair: Pair = if a < b {
            (a, b)
        } else {
            (b, a)
        };
        assert(s.pending.contains_key(pair));
        assert(well_paired(s.accounts, pair));
        let i = choose|i: int|
            0 <= i < items.len() && #[trigger] items[i] == (pair, s.pending[pair]);
        let k = lemma_entry_moves(s.accounts, items, i);
        assert(movements[k].from == a && movements[k].to == b);
    }
    assert forall|k: int, l: int|
        #![trigger movements[k], movements[l]]
        0 <= k < l < movements.len() implies !(movements[k].from == movements[l].from
        && movements[k].to == movements[l].to) by {
        lemma_owing_distinct(items, k, l);
        let i = lemma_owing_source(items, k);
        let j = lemma_owing_source(items, l);
        assert(well_paired(s.accounts, items[i].0));
        assert(well_paired(s.accounts, items[j].0));
        assert(owing(items)[k] == items[i] && owing(items)[l] == items[j]);
    }
}

/// Whether a batch succeeds or stops half way, whatever moves is all that its sender owes its
/// recipient.
pub proof fn movements_are_debts(s: BuilderView, k: int)
    requires
        consistent(s),
        0 <= k < settled(s).movements.len(),
    ensures
        ({
            let m = settled(s).movements[k];
            m.amount > 0 && m.amount == owed(s.pending, m.from, m.to)
        }),
{
    let items = entries_in_order(s.pending);
    lemma_entries_well_paired(s);
    let i = lemma_movement_source(s.accounts, items, k);
    assert(well_paired(s.accounts, items[i].0));
    assert(s.pending.contains_pair(items[i].0, items[i].1));
}

/// What the chain is sent of a batch that succeeds: a transfer for every debt, from the sender's
/// key to the recipient's, of all that is owed, with the sender's count of transfers, signed with
/// the sender's key on the digest of bytes that hold all of this.
pub proof fn sent_transfers_pay_what_is_owed(s: BuilderView)
    requires
        consistent(s),
        prepared(s).1 is Ok,
        batch_of(s).len() <= u32::MAX,
        all_sized(batch_of(s)),
    ensures
        ({
            let (payload, extrinsic) = prepared(s).1->Ok_0;
            let movements = settled(s).movements;
            &&& pays_debts(movements, s.pending)
            &&& parse_transfers(extrinsic) matches Some(ts) && {
                &&& ts == batch_of(s)
                &&& ts.len() == movements.len()
                &&& ts.len() > 0
                &&& forall|k: int|
                    0 <= k < ts.len() ==> {
                        let t = #[trigger] ts[k];
                        let m = movements[k];
                        let sender = s.accounts[m.from].keypair;
                        &&& s.accounts.contains_key(m.from) && s.accounts.contains_key(m.to)
                        &&& t.from == sender.public_key
                        &&& t.to == s.accounts[m.to].keypair.public_key
                        &&& t.amount == owed(s.pending, m.from, m.to)
                        &&& t.nonce == m.nonce
                        &&& exists|bytes: Seq<u8>| #[trigger]
                            holds_order(bytes, t.from, t.to, t.nonce, t.amount) && t.signature
                                == ed25519_signature(sender.signing_key, blake2b_digest(bytes))
                    }
            }
        }),
{
    let ts = batch_of(s);
    let items = entries_in_order(s.pending);
    let movements = settled(s).movements;
    batches_pay_what_is_owed(s);
    transfers_round_trip(ts, Seq::empty());
    assert(transfers_bytes(ts) + Seq::empty() =~= transfers_bytes(ts));
    lemma_entries_well_paired(s);
    assert forall|k: int| 0 <= k < ts.len() implies ({
        let t = #[trigger] ts[k];
        let m = movements[k];
        let sender = s.accounts[m.from].keypair;
        &&& s.accounts.contains_key(m.from) && s.accounts.contains_key(m.to)
        &&& t.from == sender.public_key
        &&& t.to == s.accounts[m.to].keypair.public_key
        &&& t.amount == owed(s.pending, m.from, m.to)
        &&& t.nonce == m.nonce
        &&& exists|bytes: Seq<u8>| #[trigger]
            holds_order(bytes, t.from, t.to, t.nonce, t.amount) && t.signature == ed25519_signature(
                sender.signing_key,
                blake2b_digest(bytes),
            )
    }) by {
        let t = ts[k];
        let m = movements[k];
        let i = lemma_movement_source(s.accounts, items, k);
        assert(well_paired(s.accounts, items[i].0));
        assert(t.sized());
        signed_bytes_hold_the_order(t.from, t.to, t.nonce, t.amount);
    }
}

/// A batch that succeeds leaves nothing pending. Every balance changes by what the account is paid
/// and what it pays, and every count of transfers by how many it sends, where all tokens together
/// fit in 64 bits; no account comes or goes, and keys, the node, the service and the remembered
/// packages stay as they were.
pub proof fn batches_move_balances(s: BuilderView, index: usize)
    requires
        consistent(s),
        prepared(s).1 is Ok,
        supply(s.accounts) <= u64::MAX,
        settlement_fits(s.accounts, entries_in_order(s.pending)),
    ensures
        ({
            let after = prepared(s).0;
            let movements = settled(s).movements;
            &&& after.pending == Map::<Pair, i128>::empty()
            &&& after.accounts.contains_key(index) <==> s.accounts.contains_key(index)
            &&& s.accounts.contains_key(index) ==> {
                &&& after.accounts[index].balance == s.accounts[index].balance + paid_to(
                    movements,
                    index,
                ) - paid_by(movements, index)
                &&& after.accounts[index].nonce == s.accounts[index].nonce + sent(movements, index)
                &&& after.accounts[index].keypair == s.accounts[index].keypair
            }
            &&& after.rpc_url == s.rpc_url
            &&& after.service_id == s.service_id
            &&& after.packages == s.packages
        }),
{
    let items = entries_in_order(s.pending);
    assert forall|i: int| 0 <= i < items.len() implies has_room(
        settle(s.accounts, items.take(i)),
        (#[trigger] items[i]).0,
        items[i].1,
    ) by {
        small_supply_has_room(s.accounts, items, i);
    }
    balances_follow_transfers(s.accounts, items);
    nonces_count_transfers(s.accounts, items);
    settling_keeps_keys(s.accounts, items);
    let run = settled(s);
    if s.accounts.contains_key(index) {
        assert(run.accounts[index].balance == s.accounts[index].balance + paid_to(
            run.movements,
            index,
        ) - paid_by(run.movements, index));
        assert(s.accounts[index].keypair == run.accounts[index].keypair);
    }
}

/// The n-th transfer of a sender in a batch carries the sender's count from before the batch and
/// how many it sent before in the batch.
pub proof fn batches_count_transfers(s: BuilderView, k: int)
    requires
        settlement_fits(s.accounts, entries_in_order(s.pending)),
        0 <= k < settled(s).movements.len(),
    ensures
        ({
            let m = settled(s).movements[k];
            m.nonce == s.accounts[m.from].nonce + sent(settled(s).movements.take(k), m.from)
        }),
{
    nonces_count_transfers(s.accounts, entries_in_order(s.pending));
}

/// The payload of a batch that succeeds names the builder's root before it and the one after it;
/// the latter is the digest of bytes that hold the former and every transfer that is sent.
pub proof fn batches_lead_to_their_root(s: BuilderView)
    requires
        prepared(s).1 is Ok,
        s.root.len() == 32,
        batch_of(s).len() <= u32::MAX,
        all_sized(batch_of(s)),
    ensures
        ({
            let (payload, extrinsic) = prepared(s).1->Ok_0;
            let after = prepared(s).0;
            &&& payload == ascii_bytes(
                json_text(
                    json_of_payload(
                        PayloadView::TransferBatch { old_root: s.root, new_root: after.root },
                    ),
                ),
            )
            &&& exists|bytes: Seq<u8>| #[trigger]
                holds_batch(bytes, s.root, batch_of(s)) && after.root == blake2b_digest(bytes)
            &&& extrinsic.len() > 0 && parse_transfers(extrinsic) == Some(batch_of(s))
        }),
{
    let ts = batch_of(s);
    batch_roots_cover_the_batch(s.root, ts);
    transfers_round_trip(ts, Seq::empty());
    assert(transfers_bytes(ts) + Seq::empty() =~= transfers_bytes(ts));
}

/// The builder stays consistent as transfers are asked for in turn.
proof fn lemma_requests_keep_consistent(s: BuilderView, requests: Seq<TransferRequest>)
    requires
        consistent(s),
    ensures
        consistent(all_queued(s, requests)),
    decreases requests.len(),
{
    if requests.len() > 0 {
        let last = requests.last();
        lemma_requests_keep_consistent(s, requests.drop_last());
        queueing_keeps_consistent(
            all_queued(s, requests.drop_last()),
            last.from,
            last.to,
            last.amount,
        );
    }
}

/// From the requests to the batch: where nothing was pending before some transfers were asked for,
/// and the batch then succeeds, an account pays another just what was queued from it to the other
/// less what was queued from the other to it, where that is more than nothing, in one movement.
pub proof fn batches_pay_what_was_queued(
    s: BuilderView,
    requests: Seq<TransferRequest>,
    a: usize,
    b: usize,
)
    requires
        consistent(s),
        s.pending == Map::<Pair, i128>::empty(),
        all_fit(s, requests),
        settled(all_queued(s, requests)).failure is None,
    ensures
        ({
            let movements = settled(all_queued(s, requests)).movements;
            let due = total_queued(s, requests, a, b) - total_queued(s, requests, b, a);
            &&& forall|k: int|
                0 <= k < movements.len() && (#[trigger] movements[k]).from == a && movements[k].to
                    == b ==> movements[k].amount == due
            &&& due > 0 ==> exists|k: int|
                0 <= k < movements.len() && (#[trigger] movements[k]).from == a && movements[k].to
                    == b
        }),
{
    let after = all_queued(s, requests);
    lemma_requests_keep_consistent(s, requests);
    queued_transfers_net(s, requests, a, b);
    batches_pay_what_is_owed(after);
    assert(owed(s.pending, a, b) == 0);
}

/// Entries that increase by pair still do without those that cancel out.
proof fn lemma_owing_ordered(items: Seq<(Pair, i128)>, k: int, l: int)
    requires
        forall|i: int, j: int|
            0 <= i < j < items.len() ==> {
                let left = (#[trigger] items[i]).0;
                let right = (#[trigger] items[j]).0;
                left.0 < right.0 || (left.0 == right.0 && left.1 < right.1)
            },
        0 <= k < l < owing(items).len(),
    ensures
        ({
            let left = owing(items)[k].0;
            let right = owing(items)[l].0;
            left.0 < right.0 || (left.0 == right.0 && left.1 < right.1)
        }),
    decreases items.len(),
{
    reveal(Seq::filter);
    let rest = items.drop_last();
    assert forall|i: int, j: int| 0 <= i < j < rest.len() implies ({
        let left = (#[trigger] rest[i]).0;
        let right = (#[trigger] rest[j]).0;
        left.0 < right.0 || (left.0 == right.0 && left.1 < right.1)
    }) by {
        assert(rest[i] == items[i] && rest[j] == items[j]);
        let left = items[i].0;
        let right = items[j].0;
        assert(left.0 < right.0 || (left.0 == right.0 && left.1 < right.1));
    }
    if l < owing(rest).len() {
        lemma_owing_ordered(rest, k, l);
    } else {
        let i = lemma_owing_source(rest, k);
        assert(rest[i] == items[i]);
        let left = items[i].0;
        let right = items[items.len() - 1].0;
        assert(left.0 < right.0 || (left.0 == right.0 && left.1 < right.1));
    }
}

/// The transfers of a batch come by pair: by the smaller index of their two accounts, and then by
/// the larger one.
pub proof fn batches_go_by_pair(s: BuilderView, k: int, l: int)
    requires
        consistent(s),
        settled(s).failure is None,
        0 <= k < l < settled(s).movements.len(),
    ensures
        ({
            let first = settled(s).movements[k];
            let second = settled(s).movements[l];
            let low_first = if first.from < first.to {
                first.from
            } else {
                first.to
            };
            let high_first = if first.from < first.to {
                first.to
            } else {
                first.from
            };
            let low_second = if second.from < second.to {
                second.from
            } else {
                second.to
            };
            let high_second = if second.from < second.to {
                second.to
            } else {
                second.from
            };
            low_first < low_second || (low_first == low_second && high_first < high_second)
        }),
{
    let items = entries_in_order(s.pending);
    let pairs = pairs_in_order(s.pending.dom());
    let movements = settled(s).movements;
    lemma_entries_well_paired(s);
    one_transfer_per_pair(s.accounts, items);
    pairs_in_order_are_ordered(s.pending.dom());
    assert forall|i: int, j: int| 0 <= i < j < items.len() implies ({
        let left = (#[trigger] items[i]).0;
        let right = (#[trigger] items[j]).0;
        left.0 < right.0 || (left.0 == right.0 && left.1 < right.1)
    }) by {
        assert(items[i].0 == pairs[i] && items[j].0 == pairs[j]);
        assert(pair_before(pairs[i], pairs[j]));
    }
    lemma_owing_ordered(items, k, l);
    let i = lemma_owing_source(items, k);
    let j = lemma_owing_source(items, l);
    assert(well_paired(s.accounts, items[i].0));
    assert(well_paired(s.accounts, items[j].0));
    let m = movements[k];
    let n = movements[l];
    assert(owing(items)[k] == items[i] && owing(items)[l] == items[j]);
    assert(m.from == net_sender(items[i].0, items[i].1) && m.to == net_recipient(
        items[i].0,
        items[i].1,
    ));
    assert(n.from == net_sender(items[j].0, items[j].1) && n.to == net_recipient(
        items[j].0,
        items[j].1,
    ));
}

/// A net transfer of a pair moves from its first account to its second where it is positive, and
/// back where it is negative. Where the one that pays is not known, nothing changes; where the one
/// that is paid is not known, that is noticed once the other has paid. Either way the error names
/// the one that is not known.
pub proof fn unknown_ends_are_named(accounts: Map<usize, AccountView>, pair: Pair, net: i128)
    requires
        net != 0,
        net > i128::MIN,
    ensures
        ({
            let payer = if net > 0 {
                pair.0
            } else {
                pair.1
            };
            let payee = if net > 0 {
                pair.1
            } else {
                pair.0
            };
            let size: int = if net > 0 {
                net as int
            } else {
                -net
            };
            let run = settle(accounts, seq![(pair, net)]);
            &&& !accounts.contains_key(payer) ==> {
                &&& run.failure == Some(ErrorView::SenderNotFound { index: payer })
                &&& run.accounts == accounts
            }
            &&& accounts.contains_key(payer) && accounts[payer].balance < size ==> {
                &&& run.failure == Some(
                    ErrorView::InsufficientBalance {
                        index: payer,
                        sender: accounts[payer].keypair.public_key,
                        balance: accounts[payer].balance,
                        amount: size as nat,
                    },
                )
                &&& run.accounts == accounts
            }
            &&& accounts.contains_key(payer) && accounts[payer].balance >= size
                && !accounts.contains_key(payee) ==> {
                &&& run.failure == Some(ErrorView::RecipientNotFound { index: payee })
                &&& run.accounts[payer].balance == accounts[payer].balance - size
            }
            &&& accounts.contains_key(payer) && accounts[payer].balance >= size
                && accounts.contains_key(payee) && payer != payee ==> {
                &&& run.failure is None
                &&& run.movements.len() == 1
                &&& run.accounts[payer].balance == accounts[payer].balance - size
                &&& accounts[payee].balance + size <= u64::MAX ==> run.accounts[payee].balance
                    == accounts[payee].balance + size
                &&& accounts[payee].balance + size > u64::MAX ==> run.accounts[payee].balance
                    == u64::MAX
                &&& run.accounts[payee].nonce == accounts[payee].nonce
            }
        }),
{
    let items = seq![(pair, net)];
    assert(items.drop_last() =~= Seq::empty());
    assert(settle(accounts, items.drop_last()).accounts == accounts);
    assert(items.last() == (pair, net));
}

// ---------------------------------------------------------------------------------------------
// When a batch can be paid

/// How much an account owes in some entries.
pub open spec fn due(items: Seq<(Pair, i128)>, index: usize) -> nat
    decreases items.len(),
{
    if items.len() == 0 {
        0
    } else {
        let before = due(items.drop_last(), index);
        let (pair, net) = items.last();
        if net > 0 && pair.0 == index {
            before + net as nat
        } else if net < 0 && pair.1 == index {
            before + (-net) as nat
        } else {
            before
        }
    }
}

/// Entries are carried out as long as every sender has enough for all that it owes.
proof fn lemma_enough_is_enough(accounts: Map<usize, AccountView>, items: Seq<(Pair, i128)>)
    requires
        forall|i: int|
            0 <= i < items.len() ==> well_paired(accounts, (#[trigger] items[i]).0),
        forall|index: usize|
            accounts.contains_key(index) ==> due(items, index) <= (
            #[trigger] accounts[index]).balance,
    ensures
        settle(accounts, items).failure is None,
        forall|index: usize|
            accounts.contains_key(index) ==> (#[trigger] settle(
                accounts,
                items,
            ).accounts[index]).balance + due(items, index) >= accounts[index].balance,
    decreases items.len(),
{
    if items.len() > 0 {
        let rest = items.drop_last();
        assert forall|i: int| 0 <= i < rest.len() implies well_paired(
            accounts,
            (#[trigger] rest[i]).0,
        ) by {
            assert(rest[i] == items[i]);
        }
        assert forall|index: usize| accounts.contains_key(index) implies due(rest, index) <= (
        #[trigger] accounts[index]).balance by {
            assert(due(rest, index) <= due(items, index));
        }
        lemma_enough_is_enough(accounts, rest);
        settling_keeps_keys(accounts, rest);
        let before = settle(accounts, rest);
        let after = settle(accounts, items);
        let (pair, net) = items[items.len() - 1];
        assert(well_paired(accounts, items[items.len() - 1].0));
        let from = net_sender(pair, net);
        if net != 0 {
            assert(accounts.contains_key(from));
            assert(accounts[from].balance >= due(items, from));
            assert(before.accounts[from].balance + due(rest, from) >= accounts[from].balance);
            assert(due(items, from) == due(rest, from) + net_amount(net));
        }
        assert(after.failure is None);
        assert forall|index: usize| accounts.contains_key(index) implies (
        #[trigger] after.accounts[index]).balance + due(items, index)
            >= accounts[index].balance by {
            assert(before.accounts[index].balance + due(rest, index) >= accounts[index].balance);
        }
    }
}

/// A consistent builder's batch succeeds where something is owed and every account has enough for
/// all that it owes, whatever it is to be paid.
pub proof fn covered_batches_succeed(s: BuilderView, a: usize, b: usize)
    requires
        consistent(s),
        owed(s.pending, a, b) > 0,
        forall|index: usize|
            s.accounts.contains_key(index) ==> due(entries_in_order(s.pending), index) <= (
            #[trigger] s.accounts[index]).balance,
    ensures
        prepared(s).1 is Ok,
{
    let items = entries_in_order(s.pending);
    lemma_entries_well_paired(s);
    lemma_enough_is_enough(s.accounts, items);
    batches_pay_what_is_owed(s);
    let movements = settled(s).movements;
    let k = choose|k: int|
        0 <= k < movements.len() && (#[trigger] movements[k]).from == a && movements[k].to == b;
    let pair: Pair = if a < b {
        (a, b)
    } else {
        (b, a)
    };
    assert(s.pending.contains_key(pair));
}

/// Where all ends are known, what stops some entries is a sender with less than one of them takes.
proof fn lemma_failure_names_a_debt(accounts: Map<usize, AccountView>, items: Seq<(Pair, i128)>)
    requires
        settle(accounts, items).failure is Some,
        forall|i: int|
            0 <= i < items.len() ==> well_paired(accounts, (#[trigger] items[i]).0),
    ensures
        settle(accounts, items).failure matches Some(
            ErrorView::InsufficientBalance { index, sender, balance, amount },
        ) && {
            &&& accounts.contains_key(index)
            &&& sender == accounts[index].keypair.public_key
            &&& balance < amount
            &&& exists|i: int|
                0 <= i < items.len() && {
                    let (pair, net) = #[trigger] items[i];
                    ||| net > 0 && pair.0 == index && amount == net
                    ||| net < 0 && pair.1 == index && amount == -net
                }
        },
    decreases items.len(),
{
    let rest = items.drop_last();
    assert forall|i: int| 0 <= i < rest.len() implies well_paired(
        accounts,
        (#[trigger] rest[i]).0,
    ) by {
        assert(rest[i] == items[i]);
    }
    settling_keeps_keys(accounts, rest);
    let before = settle(accounts, rest);
    if before.failure is Some {
        lemma_failure_names_a_debt(accounts, rest);
        if let Some(ErrorView::InsufficientBalance { index, sender, balance, amount }) =
            before.failure {
            let i = choose|i: int|
                0 <= i < rest.len() && {
                    let (pair, net) = #[trigger] rest[i];
                    ||| net > 0 && pair.0 == index && amount == net
                    ||| net < 0 && pair.1 == index && amount == -net
                };
            assert(items[i] == rest[i]);
        }
    } else {
        let i = items.len() - 1;
        assert(well_paired(accounts, items[i].0));
    }
}

/// Why a consistent builder's batch fails: nothing is pending; or all that is pending cancels out;
/// or a sender has less than it owes one account, and the error names that sender, what it has and
/// what it owes. Nothing is pending any more but in the first case, where nothing changes at all.
pub proof fn failed_batches_say_why(s: BuilderView)
    requires
        consistent(s),
    ensures
        prepared(s).1 == Err::<(Seq<u8>, Seq<u8>), ErrorView>(ErrorView::NoPendingTransfers)
            <==> s.pending == Map::<Pair, i128>::empty(),
        s.pending == Map::<Pair, i128>::empty() ==> prepared(s).0 == s,
        s.pending != Map::<Pair, i128>::empty() ==> prepared(s).0.pending == Map::<
            Pair,
            i128,
        >::empty(),
        prepared(s).1 is Err ==> prepared(s).0.root == s.root,
        prepared(s).1 == Err::<(Seq<u8>, Seq<u8>), ErrorView>(ErrorView::NoNetTransfers) <==> {
            &&& s.pending != Map::<Pair, i128>::empty()
            &&& forall|a: usize, b: usize| #[trigger] owed(s.pending, a, b) == 0
        },
        prepared(s).1 matches Err(error) ==> {
            ||| error is NoPendingTransfers
            ||| error is NoNetTransfers
            ||| error matches ErrorView::InsufficientBalance { index, sender, balance, amount } && {
                &&& s.accounts.contains_key(index)
                &&& sender == s.accounts[index].keypair.public_key
                &&& balance < amount
                &&& exists|other: usize| #[trigger] owed(s.pending, index, other) == amount
            }
        },
{
    let items = entries_in_order(s.pending);
    lemma_entries_well_paired(s);
    lemma_entries_are_all(s.pending);
    lemma_only_balances_fail(s.accounts, items);
    assert(s.pending.is_empty() <==> s.pending == Map::<Pair, i128>::empty()) by {
        if s.pending.is_empty() {
            assert(s.pending =~= Map::<Pair, i128>::empty());
        }
    }
    let run = settled(s);
    if run.failure is Some {
        lemma_failure_names_a_debt(s.accounts, items);
        if let Some(ErrorView::InsufficientBalance { index, sender, balance, amount }) =
            run.failure {
            let i = choose|i: int|
                0 <= i < items.len() && {
                    let (pair, net) = #[trigger] items[i];
                    ||| net > 0 && pair.0 == index && amount == net
                    ||| net < 0 && pair.1 == index && amount == -net
                };
            let (pair, net) = items[i];
            assert(well_paired(s.accounts, items[i].0));
            assert(s.pending.contains_pair(items[i].0, items[i].1));
            let other = if net > 0 {
                pair.1
            } else {
                pair.0
            };
            assert(owed(s.pending, index, other) == amount);
        }
    } else {
        batches_pay_what_is_owed(s);
        if run.movements.len() == 0 {
            assert forall|a: usize, b: usize| #[trigger] owed(s.pending, a, b) == 0 by {
                assert(owed(s.pending, a, b) <= 0);
                assert(owed(s.pending, b, a) <= 0);
                if a == b && s.pending.contains_key((a, a)) {
                    assert(well_paired(s.accounts, (a, a)));
                }
            }
        } else {
            let m = run.movements[0];
            assert(owed(s.pending, m.from, m.to) > 0);
        }
    }
}

/// A batch can be prepared where no net transfer is the smallest number, no count of transfers is
/// near its end, and there are not too many transfers for 32 bits.
pub proof fn ordinary_batches_fit(s: BuilderView)
    requires
        consistent(s),
        entries_in_order(s.pending).len() <= u32::MAX,
        forall|pair: Pair| #[trigger] s.pending.contains_key(pair) ==> s.pending[pair] > i128::MIN,
        forall|index: usize|
            s.accounts.contains_key(index) ==> (#[trigger] s.accounts[index]).nonce
                + entries_in_order(s.pending).len() <= u64::MAX,
    ensures
        settlement_fits(s.accounts, entries_in_order(s.pending)),
{
    let items = entries_in_order(s.pending);
    lemma_entries_well_paired(s);
    lemma_counts_stay_small(s.accounts, items);
    assert forall|i: int| 0 <= i < items.len() implies entry_fits(
        settle(s.accounts, items.take(i)),
        (#[trigger] items[i]).0,
        items[i].1,
    ) by {
        let head = items.take(i);
        lemma_counts_stay_small(s.accounts, head);
        settling_keeps_keys(s.accounts, head);
        assert(s.pending.contains_pair(items[i].0, items[i].1));
        assert(s.pending.contains_key(items[i].0));
        let from = net_sender(items[i].0, items[i].1);
        if s.accounts.contains_key(from) {
            assert(settle(s.accounts, head).accounts[from].nonce <= s.accounts[from].nonce
                + head.len());
        }
    }
}

/// No count of transfers grows by more than the number of entries.
proof fn lemma_counts_stay_small(accounts: Map<usize, AccountView>, items: Seq<(Pair, i128)>)
    requires
        forall|index: usize|
            accounts.contains_key(index) ==> (#[trigger] accounts[index]).nonce + items.len()
                <= u64::MAX,
    ensures
        settle(accounts, items).movements.len() <= items.len(),
        forall|index: usize|
            accounts.contains_key(index) ==> (#[trigger] settle(
                accounts,
                items,
            ).accounts[index]).nonce <= accounts[index].nonce + items.len(),
    decreases items.len(),
{
    if items.len() > 0 {
        let rest = items.drop_last();
        lemma_counts_stay_small(accounts, rest);
        settling_keeps_keys(accounts, rest);
        let before = settle(accounts, rest);
        let after = settle(accounts, items);
        assert forall|index: usize| accounts.contains_key(index) implies (
        #[trigger] after.accounts[index]).nonce <= accounts[index].nonce + items.len() by {
            assert(before.accounts[index].nonce <= accounts[index].nonce + rest.len());
        }
    }
}

} // verus!
