//! What holds of the ledger as a whole.

use crate::accounts::{indexed_seed, keypair_of, AccountView};
use crate::accumulation::{accumulated, all_accumulated, stored_root};
use crate::builder::{counterpart_delta, fresh_builder, initialised, pair_removed, queue_fits,
    queued, queued_net, with_registered, BuilderState, BuilderView};
use crate::chain::{all_signed, batch_of, credited, debited, entry_fits, net_amount,
    net_recipient, net_sender, payload_bytes, prepared, reset_payload, reset_signature, settle,
    settled, settlement_fits, settling_keeps_keys, settling_stops_at_failure, transfer_of, Movement,
    Settlement};
use crate::codec::{output_bytes, output_round_trip, parse_output, parse_transfers,
    transfers_bytes, transfers_round_trip};
use crate::console::{segment_lines, service_chosen, transfer_line};
use crate::errors::ErrorView;
use crate::json::{json_of_payload, payload_round_trip, read_payload, PayloadJsonView};
use crate::ledger::{all_sized, OutputView, Payload, PayloadView, RefinementOutput, StateRoot,
    TransferView};
use crate::order::{entries_in_order, pairs_in_order, pairs_in_order_are_ordered, Pair};
use crate::refinement::{acceptable, all_acceptable, batch_root, faults_are_found, refined,
    refined_batch, segment_bytes, signed_by_admin, signed_by_sender};
use crate::submission::announced_exports;
use vstd::bytes::{lemma_auto_spec_u64_to_from_le_bytes, spec_u64_from_le_bytes,
    spec_u64_to_le_bytes};
use vstd::prelude::*;

verus! {

// ---------------------------------------------------------------------------------------------
// Netting

/// How much of what is pending moves from one account to another, net.
pub open spec fn owed(pending: Map<Pair, i128>, from: usize, to: usize) -> int {
    if pending.contains_key((from, to)) && from < to {
        pending[(from, to)] as int
    } else if pending.contains_key((to, from)) && to <= from {
        -pending[(to, from)]
    } else {
        0
    }
}

/// A queued transfer adds its amount to what its sender owes its recipient, takes it from what the
/// recipient owes the sender, and touches no other pair.
pub proof fn queueing_nets(s: BuilderView, from: usize, to: usize, amount: u64)
    requires
        queued(s, from, to, amount).1 is Ok,
        i128::MIN <= queued_net(s, from, to, amount) <= i128::MAX,
    ensures
        ({
            let after = queued(s, from, to, amount).0.pending;
            &&& owed(after, from, to) == owed(s.pending, from, to) + amount
            &&& owed(after, to, from) == owed(s.pending, to, from) - amount
            &&& forall|a: usize, b: usize|
                !(a == from && b == to) && !(a == to && b == from) ==> #[trigger] owed(after, a, b)
                    == owed(s.pending, a, b)
        }),
{
}

/// A transfer that is asked for.
pub struct TransferRequest {
    pub from: usize,
    pub to: usize,
    pub amount: u64,
}

/// The builder once some transfers were asked for in turn.
pub open spec fn all_queued(s: BuilderView, requests: Seq<TransferRequest>) -> BuilderView
    decreases requests.len(),
{
    if requests.len() == 0 {
        s
    } else {
        let last = requests.last();
        queued(all_queued(s, requests.drop_last()), last.from, last.to, last.amount).0
    }
}

/// Whether the request at an index of some that are made in turn is granted.
#[verifier::opaque]
pub open spec fn granted(s: BuilderView, requests: Seq<TransferRequest>, i: int) -> bool {
    let request = requests[i];
    queued(
        all_queued(s, requests.take(i)),
        request.from,
        request.to,
        request.amount,
    ).1 is Ok
}

/// Whether every pair's net transfer stays in its range as some transfers are asked for in turn.
pub open spec fn all_fit(s: BuilderView, requests: Seq<TransferRequest>) -> bool {
    forall|i: int|
        #![trigger requests[i]]
        0 <= i < requests.len() ==> queue_fits(
            all_queued(s, requests.take(i)),
            requests[i].from,
            requests[i].to,
            requests[i].amount,
        )
}

/// How much was queued from one account to another by those of some requests that are granted.
pub open spec fn total_queued(
    s: BuilderView,
    requests: Seq<TransferRequest>,
    from: usize,
    to: usize,
) -> nat
    decreases requests.len(),
{
    if requests.len() == 0 {
        0
    } else {
        let last = requests.last();
        let earlier = total_queued(s, requests.drop_last(), from, to);
        if last.from == from && last.to == to && granted(s, requests, requests.len() - 1) {
            earlier + last.amount as nat
        } else {
            earlier
        }
    }
}

/// Whether one of some requests that is granted is between the two accounts of a pair.
pub open spec fn pair_queued(s: BuilderView, requests: Seq<TransferRequest>, pair: Pair) -> bool {
    exists|i: int|
        #![trigger requests[i]]
        0 <= i < requests.len() && granted(s, requests, i) && counterpart_delta(
            requests[i].from,
            requests[i].to,
            0,
        ).0 == pair
}

/// Requests that are made in turn are granted or not whatever is asked for after them.
proof fn lemma_granted_earlier(s: BuilderView, requests: Seq<TransferRequest>)
    requires
        requests.len() > 0,
    ensures
        forall|i: int|
            0 <= i < requests.len() - 1 ==> granted(s, requests.drop_last(), i) == #[trigger]
                granted(s, requests, i),
        all_fit(s, requests) ==> all_fit(s, requests.drop_last()),
{
    let earlier = requests.drop_last();
    assert forall|i: int| 0 <= i < requests.len() - 1 implies granted(s, earlier, i) == #[trigger]
        granted(s, requests, i) by {
        reveal(granted);
        assert(earlier.take(i) =~= requests.take(i));
    }
    if all_fit(s, requests) {
        assert forall|i: int|
            #![trigger earlier[i]]
            0 <= i < earlier.len() implies queue_fits(
            all_queued(s, earlier.take(i)),
            earlier[i].from,
            earlier[i].to,
            earlier[i].amount,
        ) by {
            assert(earlier.take(i) =~= requests.take(i));
            assert(earlier[i] == requests[i]);
        }
    }
}

/// Whatever transfers are asked for, and in whatever order: between any two accounts what is owed
/// grows by what was queued one way, less what was queued the other way.
pub proof fn queued_transfers_net(
    s: BuilderView,
    requests: Seq<TransferRequest>,
    a: usize,
    b: usize,
)
    requires
        all_fit(s, requests),
    ensures
        owed(all_queued(s, requests).pending, a, b) == owed(s.pending, a, b) + total_queued(
            s,
            requests,
            a,
            b,
        ) - total_queued(s, requests, b, a),
    decreases requests.len(),
{
    if requests.len() > 0 {
        let n = requests.len() - 1;
        let last = requests[n];
        reveal(granted);
        lemma_granted_earlier(s, requests);
        queued_transfers_net(s, requests.drop_last(), a, b);
        assert(requests.take(n) =~= requests.drop_last());
        let before = all_queued(s, requests.drop_last());
        assert(queue_fits(before, last.from, last.to, last.amount));
        if granted(s, requests, n) {
            assert(last.from != last.to);
            queueing_nets(before, last.from, last.to, last.amount);
        }
    }
}

/// One request makes a pair pending where it is granted and the pair is its own, and nowhere else.
proof fn lemma_pair_becomes_pending(s: BuilderView, request: TransferRequest, pair: Pair)
    ensures
        queued(s, request.from, request.to, request.amount).0.pending.contains_key(pair)
            <==> s.pending.contains_key(pair) || (queued(
            s,
            request.from,
            request.to,
            request.amount,
        ).1 is Ok && counterpart_delta(request.from, request.to, 0).0 == pair),
{
}

/// A pair is queued by some requests where it is by those before the last, or by the last.
proof fn lemma_pair_queued_last(s: BuilderView, requests: Seq<TransferRequest>, pair: Pair)
    requires
        requests.len() > 0,
    ensures
        ({
            let n = requests.len() - 1;
            let last = requests[n];
            pair_queued(s, requests, pair) <==> pair_queued(s, requests.drop_last(), pair) || (
            granted(s, requests, n) && counterpart_delta(last.from, last.to, 0).0 == pair)
        }),
{
    let n = requests.len() - 1;
    let earlier = requests.drop_last();
    lemma_granted_earlier(s, requests);
    if pair_queued(s, earlier, pair) {
        let i = choose|i: int|
            #![trigger earlier[i]]
            0 <= i < earlier.len() && granted(s, earlier, i) && counterpart_delta(
                earlier[i].from,
                earlier[i].to,
                0,
            ).0 == pair;
        assert(granted(s, requests, i));
        assert(requests[i] == earlier[i]);
    }
    if pair_queued(s, requests, pair) {
        let i = choose|i: int|
            #![trigger requests[i]]
            0 <= i < requests.len() && granted(s, requests, i) && counterpart_delta(
                requests[i].from,
                requests[i].to,
                0,
            ).0 == pair;
        if i < n {
            assert(granted(s, earlier, i));
            assert(earlier[i] == requests[i]);
        }
    }
}

/// Whatever transfers are asked for, and in whatever order: a pair has a net transfer pending,
/// be it zero, exactly where it had one before or a transfer between its accounts was queued.
#[verifier::spinoff_prover]
#[verifier::rlimit(30)]
pub proof fn queued_pairs_are_pending(
    s: BuilderView,
    requests: Seq<TransferRequest>,
    pair: Pair,
)
    ensures
        all_queued(s, requests).pending.contains_key(pair) <==> s.pending.contains_key(pair)
            || pair_queued(s, requests, pair),
    decreases requests.len(),
{
    if requests.len() > 0 {
        let n = requests.len() - 1;
        let earlier = requests.drop_last();
        queued_pairs_are_pending(s, earlier, pair);
        lemma_pair_queued_last(s, requests, pair);
        assert(requests.take(n) =~= earlier);
        reveal(granted);
        lemma_pair_becomes_pending(all_queued(s, earlier), requests[n], pair);
    }
}

/// Two transfers of one amount between two accounts, one each way, cancel each other.
pub proof fn opposite_transfers_cancel(s: BuilderView, a: usize, b: usize, amount: u64)
    requires
        queued(s, a, b, amount).1 is Ok,
        i128::MIN <= queued_net(s, a, b, amount) <= i128::MAX,
    ensures
        ({
            let there = queued(s, a, b, amount).0;
            let back = queued(there, b, a, amount);
            &&& back.1 is Ok
            &&& forall|x: usize, y: usize| #[trigger]
                owed(back.0.pending, x, y) == owed(s.pending, x, y)
        }),
{
    let there = queued(s, a, b, amount).0;
    assert(there.accounts.contains_key(b));
    assert(with_registered(there.accounts, a, 0) == there.accounts);
}

/// In whichever order a pair is named, the same pending transfers are removed.
pub proof fn removal_is_symmetric(s: BuilderView, a: usize, b: usize)
    ensures
        pair_removed(s, a, b).0 == pair_removed(s, b, a).0,
        pair_removed(s, a, b).1 is Ok == pair_removed(s, b, a).1 is Ok,
{
}

/// Once a pair is removed, nothing is owed either way between its accounts, and nothing else
/// changed.
pub proof fn removal_clears_the_pair(s: BuilderView, a: usize, b: usize)
    requires
        pair_removed(s, a, b).1 is Ok,
    ensures
        ({
            let after = pair_removed(s, a, b).0.pending;
            &&& owed(after, a, b) == 0
            &&& owed(after, b, a) == 0
            &&& forall|x: usize, y: usize|
                !(x == a && y == b) && !(x == b && y == a) ==> #[trigger] owed(after, x, y) == owed(
                    s.pending,
                    x,
                    y,
                )
        }),
{
}

// ---------------------------------------------------------------------------------------------
// Nonces

/// How many of some movements an account sends.
pub open spec fn sent(movements: Seq<Movement>, index: usize) -> nat
    decreases movements.len(),
{
    if movements.len() == 0 {
        0
    } else {
        let before = sent(movements.drop_last(), index);
        if movements.last().from == index {
            before + 1
        } else {
            before
        }
    }
}

/// Every account's nonce grows by the number of transfers that it sends, or one more where a
/// recipient was not found; and every transfer carries the number of those that its sender sent
/// before it. So no two transfers of one sender share a nonce.
pub proof fn nonces_count_transfers(accounts: Map<usize, AccountView>, items: Seq<(Pair, i128)>)
    requires
        settlement_fits(accounts, items),
    ensures
        ({
            let run = settle(accounts, items);
            &&& !(run.failure matches Some(ErrorView::RecipientNotFound { index })) ==> forall|
                i: usize,
            |
                accounts.contains_key(i) ==> (#[trigger] run.accounts[i]).nonce
                    == accounts[i].nonce + sent(run.movements, i)
            &&& forall|k: int|
                0 <= k < run.movements.len() ==> {
                    let m = #[trigger] run.movements[k];
                    m.nonce == accounts[m.from].nonce + sent(run.movements.take(k), m.from)
                }
        }),
    decreases items.len(),
{
    if items.len() > 0 {
        let rest = items.drop_last();
        let before = settle(accounts, rest);
        let run = settle(accounts, items);
        lemma_fits_prefix(accounts, items);
        nonces_count_transfers(accounts, rest);
        settling_keeps_keys(accounts, rest);
        settling_keeps_keys(accounts, items);
        assert(items.take(items.len() - 1) =~= rest);
        assert(entry_fits(before, items[items.len() - 1].0, items[items.len() - 1].1));
        if before.failure is None && run.movements.len() > before.movements.len() {
            let m = run.movements.last();
            assert(run.movements.drop_last() =~= before.movements);
            assert forall|k: int| 0 <= k < run.movements.len() implies ({
                let m = #[trigger] run.movements[k];
                m.nonce == accounts[m.from].nonce + sent(run.movements.take(k), m.from)
            }) by {
                if k < before.movements.len() {
                    assert(before.movements[k] == run.movements[k]);
                    assert(run.movements.take(k) =~= before.movements.take(k));
                } else {
                    assert(run.movements.take(k) =~= before.movements);
                }
            }
        }
    }
}

/// A movement counts among those that its sender sends.
proof fn lemma_sent_grows(movements: Seq<Movement>, k: int, l: int, index: usize)
    requires
        0 <= k < l <= movements.len(),
    ensures
        sent(movements.take(l), index) >= sent(movements.take(k), index) + (if movements[k].from
            == index {
            1nat
        } else {
            0nat
        }),
    decreases l - k,
{
    let longer = movements.take(l);
    assert(longer.drop_last() =~= movements.take(l - 1));
    assert(longer.last() == movements[l - 1]);
    if k < l - 1 {
        lemma_sent_grows(movements, k, l - 1, index);
    }
}

/// No two transfers of one sender in a batch carry the same nonce, and later ones carry higher
/// ones.
pub proof fn nonces_do_not_repeat(
    accounts: Map<usize, AccountView>,
    items: Seq<(Pair, i128)>,
    k: int,
    l: int,
)
    requires
        settlement_fits(accounts, items),
        0 <= k < l < settle(accounts, items).movements.len(),
        settle(accounts, items).movements[k].from == settle(accounts, items).movements[l].from,
    ensures
        settle(accounts, items).movements[k].nonce < settle(accounts, items).movements[l].nonce,
{
    let movements = settle(accounts, items).movements;
    nonces_count_transfers(accounts, items);
    lemma_sent_grows(movements, k, l, movements[k].from);
}

/// What holds of numbers along a batch holds along its beginning.
proof fn lemma_fits_prefix(accounts: Map<usize, AccountView>, items: Seq<(Pair, i128)>)
    requires
        items.len() > 0,
        settlement_fits(accounts, items),
    ensures
        settlement_fits(accounts, items.drop_last()),
{
    let rest = items.drop_last();
    assert forall|i: int| 0 <= i < rest.len() implies entry_fits(
        settle(accounts, rest.take(i)),
        (#[trigger] rest[i]).0,
        rest[i].1,
    ) by {
        assert(rest.take(i) =~= items.take(i));
        assert(rest[i] == items[i]);
    }
}

// ---------------------------------------------------------------------------------------------
// Failures

/// A batch that stops at a sender without enough, or without an account, leaves every account as
/// the transfers before that one left it.
pub proof fn failed_sender_keeps_accounts(
    accounts: Map<usize, AccountView>,
    items: Seq<(Pair, i128)>,
    at: int,
)
    requires
        0 <= at < items.len(),
        settle(accounts, items.take(at)).failure is None,
        settle(accounts, items.take(at + 1)).failure matches Some(error) && (
        error is InsufficientBalance || error is SenderNotFound),
    ensures
        settle(accounts, items).accounts == settle(accounts, items.take(at)).accounts,
        settle(accounts, items).failure == settle(accounts, items.take(at + 1)).failure,
{
    assert(items.take(at + 1).drop_last() =~= items.take(at));
    settling_stops_at_failure(accounts, items, at + 1);
}

// ---------------------------------------------------------------------------------------------
// Batches

/// The entries that do not cancel out.
pub open spec fn owing(items: Seq<(Pair, i128)>) -> Seq<(Pair, i128)> {
    items.filter(|item: (Pair, i128)| item.1 != 0)
}

/// Where nothing fails, every pair that does not cancel out makes one transfer, in the order of
/// the pairs, and no other pair does.
pub proof fn one_transfer_per_pair(accounts: Map<usize, AccountView>, items: Seq<(Pair, i128)>)
    requires
        settle(accounts, items).failure is None,
    ensures
        ({
            let movements = settle(accounts, items).movements;
            &&& movements.len() == owing(items).len()
            &&& forall|k: int|
                0 <= k < movements.len() ==> {
                    let (pair, net) = owing(items)[k];
                    let m = #[trigger] movements[k];
                    &&& m.from == net_sender(pair, net)
                    &&& m.to == net_recipient(pair, net)
                    &&& m.amount == net_amount(net)
                }
        }),
    decreases items.len(),
{
    reveal(Seq::filter);
    if items.len() > 0 {
        let rest = items.drop_last();
        let before = settle(accounts, rest);
        one_transfer_per_pair(accounts, rest);
        let movements = settle(accounts, items).movements;
        assert forall|k: int| 0 <= k < movements.len() implies ({
            let (pair, net) = owing(items)[k];
            let m = #[trigger] movements[k];
            &&& m.from == net_sender(pair, net)
            &&& m.to == net_recipient(pair, net)
            &&& m.amount == net_amount(net)
        }) by {
            if k < before.movements.len() {
                assert(movements[k] == before.movements[k]);
                assert(owing(items)[k] == owing(rest)[k]);
            }
        }
    }
}

// ---------------------------------------------------------------------------------------------
// Supply

/// All tokens of some accounts.
pub open spec fn supply(accounts: Map<usize, AccountView>) -> nat
    decreases accounts.dom().len(),
    when accounts.dom().finite()
{
    if accounts.dom().len() == 0 {
        0
    } else {
        let index = accounts.dom().choose();
        accounts[index].balance as nat + supply(accounts.remove(index))
    }
}

/// The supply is one account's balance and the supply of the others.
proof fn lemma_supply_apart(accounts: Map<usize, AccountView>, index: usize)
    requires
        accounts.dom().finite(),
        accounts.contains_key(index),
    ensures
        supply(accounts) == accounts[index].balance + supply(accounts.remove(index)),
    decreases accounts.dom().len(),
{
    let one = accounts.dom().choose();
    assert(accounts.dom().contains(index));
    assert(accounts.dom().len() > 0);
    if one != index {
        let without_one = accounts.remove(one);
        let without_index = accounts.remove(index);
        lemma_supply_apart(without_one, index);
        lemma_supply_apart(without_index, one);
        assert(without_one.remove(index) =~= without_index.remove(one));
    }
}

/// Where one account changes, the supply changes as its balance does.
proof fn lemma_supply_changed(accounts: Map<usize, AccountView>, index: usize, new: AccountView)
    requires
        accounts.dom().finite(),
        accounts.contains_key(index),
    ensures
        supply(accounts.insert(index, new)) == supply(accounts) - accounts[index].balance
            + new.balance,
{
    let changed = accounts.insert(index, new);
    assert(changed.dom() =~= accounts.dom());
    lemma_supply_apart(accounts, index);
    lemma_supply_apart(changed, index);
    assert(changed.remove(index) =~= accounts.remove(index));
}

/// Whether the recipient of a pending net transfer has room for what it is sent.
pub open spec fn has_room(s: Settlement, pair: Pair, net: i128) -> bool {
    let from = net_sender(pair, net);
    let to = net_recipient(pair, net);
    let amount = net_amount(net);
    let paid = s.accounts.insert(from, debited(s.accounts[from], amount as u64));
    s.failure is None && net != 0 && s.accounts.contains_key(from) && s.accounts[from].balance
        >= amount && paid.contains_key(to) ==> paid[to].balance + amount <= u64::MAX
}

/// No token is made or lost as pending transfers are carried out, unless a recipient is not found
/// or has no room.
pub proof fn settling_keeps_supply(accounts: Map<usize, AccountView>, items: Seq<(Pair, i128)>)
    requires
        accounts.dom().finite(),
        !(settle(accounts, items).failure matches Some(ErrorView::RecipientNotFound { index })),
        forall|i: int|
            0 <= i < items.len() ==> has_room(
                settle(accounts, items.take(i)),
                (#[trigger] items[i]).0,
                items[i].1,
            ),
    ensures
        supply(settle(accounts, items).accounts) == supply(accounts),
    decreases items.len(),
{
    if items.len() > 0 {
        let rest = items.drop_last();
        let before = settle(accounts, rest);
        assert forall|i: int| 0 <= i < rest.len() implies has_room(
            settle(accounts, rest.take(i)),
            (#[trigger] rest[i]).0,
            rest[i].1,
        ) by {
            assert(rest.take(i) =~= items.take(i));
            assert(rest[i] == items[i]);
        }
        settling_keeps_supply(accounts, rest);
        settling_keeps_keys(accounts, rest);
        if before.failure is None {
            let (pair, net) = items.last();
            let from = net_sender(pair, net);
            let to = net_recipient(pair, net);
            let needed = net_amount(net);
            let amount = needed as u64;
            let paid = before.accounts.insert(from, debited(before.accounts[from], amount));
            assert(items.take(items.len() - 1) =~= rest);
            assert(has_room(before, items[items.len() - 1].0, items[items.len() - 1].1));
            if net != 0 && before.accounts.contains_key(from) && before.accounts[from].balance
                >= needed && paid.contains_key(to) {
                lemma_supply_changed(
                    before.accounts,
                    from,
                    debited(before.accounts[from], amount),
                );
                lemma_supply_changed(paid, to, credited(paid[to], amount));
            }
        }
    }
}

/// How much an account pays in some movements.
pub open spec fn paid_by(movements: Seq<Movement>, index: usize) -> nat
    decreases movements.len(),
{
    if movements.len() == 0 {
        0
    } else {
        let before = paid_by(movements.drop_last(), index);
        if movements.last().from == index {
            before + movements.last().amount as nat
        } else {
            before
        }
    }
}

/// How much an account receives in some movements.
pub open spec fn paid_to(movements: Seq<Movement>, index: usize) -> nat
    decreases movements.len(),
{
    if movements.len() == 0 {
        0
    } else {
        let before = paid_to(movements.drop_last(), index);
        if movements.last().to == index {
            before + movements.last().amount as nat
        } else {
            before
        }
    }
}

/// Every balance changes by what the account receives and pays in the transfers that are carried
/// out, unless a recipient is not found or has no room.
pub proof fn balances_follow_transfers(accounts: Map<usize, AccountView>, items: Seq<(Pair, i128)>)
    requires
        !(settle(accounts, items).failure matches Some(ErrorView::RecipientNotFound { index })),
        forall|i: int|
            0 <= i < items.len() ==> has_room(
                settle(accounts, items.take(i)),
                (#[trigger] items[i]).0,
                items[i].1,
            ),
    ensures
        ({
            let run = settle(accounts, items);
            forall|index: usize|
                accounts.contains_key(index) ==> (#[trigger] run.accounts[index]).balance
                    == accounts[index].balance + paid_to(run.movements, index) - paid_by(
                    run.movements,
                    index,
                )
        }),
    decreases items.len(),
{
    if items.len() > 0 {
        let rest = items.drop_last();
        let before = settle(accounts, rest);
        let run = settle(accounts, items);
        assert forall|i: int| 0 <= i < rest.len() implies has_room(
            settle(accounts, rest.take(i)),
            (#[trigger] rest[i]).0,
            rest[i].1,
        ) by {
            assert(rest.take(i) =~= items.take(i));
            assert(rest[i] == items[i]);
        }
        balances_follow_transfers(accounts, rest);
        settling_keeps_keys(accounts, rest);
        if before.failure is None {
            assert(items.take(items.len() - 1) =~= rest);
            assert(has_room(before, items[items.len() - 1].0, items[items.len() - 1].1));
            assert forall|index: usize| accounts.contains_key(index) implies (
            #[trigger] run.accounts[index]).balance == accounts[index].balance + paid_to(
                run.movements,
                index,
            ) - paid_by(run.movements, index) by {
                assert(before.accounts[index].balance == accounts[index].balance + paid_to(
                    before.movements,
                    index,
                ) - paid_by(before.movements, index));
                if run.movements.len() > before.movements.len() {
                    assert(run.movements.drop_last() =~= before.movements);
                }
            }
        }
    }
}

/// Where all tokens together fit in 64 bits, every recipient has room.
pub proof fn small_supply_has_room(
    accounts: Map<usize, AccountView>,
    items: Seq<(Pair, i128)>,
    at: int,
)
    requires
        accounts.dom().finite(),
        supply(accounts) <= u64::MAX,
        0 <= at < items.len(),
    ensures
        has_room(settle(accounts, items.take(at)), items[at].0, items[at].1),
    decreases at,
{
    let head = items.take(at);
    let before = settle(accounts, head);
    let (pair, net) = items[at];
    let from = net_sender(pair, net);
    let to = net_recipient(pair, net);
    let needed = net_amount(net);
    let amount = needed as u64;
    let paid = before.accounts.insert(from, debited(before.accounts[from], amount));
    if before.failure is None && before.accounts.contains_key(from)
        && before.accounts[from].balance >= needed && paid.contains_key(to) {
        assert forall|i: int| 0 <= i < head.len() implies has_room(
            settle(accounts, head.take(i)),
            (#[trigger] head[i]).0,
            head[i].1,
        ) by {
            small_supply_has_room(accounts, items, i);
            assert(head.take(i) =~= items.take(i));
        }
        settling_keeps_supply(accounts, head);
        settling_keeps_keys(accounts, head);
        lemma_supply_changed(before.accounts, from, debited(before.accounts[from], amount));
        lemma_supply_apart(paid, to);
    }
}

// ---------------------------------------------------------------------------------------------
// What every operation of the builder keeps

/// Whether a pair names two known accounts with different keys, the smaller index first.
pub open spec fn well_paired(accounts: Map<usize, AccountView>, pair: Pair) -> bool {
    &&& pair.0 < pair.1
    &&& accounts.contains_key(pair.0)
    &&& accounts.contains_key(pair.1)
    &&& accounts[pair.0].keypair.public_key != accounts[pair.1].keypair.public_key
}

/// Whether every account's public key belongs to its signing key, and every pending transfer is
/// one between two known accounts with different keys.
pub open spec fn consistent(s: BuilderView) -> bool {
    &&& s.accounts.dom().finite()
    &&& s.pending.dom().finite()
    &&& forall|index: usize| #[trigger]
        s.accounts.contains_key(index) ==> s.accounts[index].keypair == keypair_of(
            s.accounts[index].keypair.signing_key,
        )
    &&& forall|pair: Pair| #[trigger]
        s.pending.contains_key(pair) ==> well_paired(s.accounts, pair)
}

/// The indices below a count are finitely many.
proof fn lemma_indices_below(count: usize)
    ensures
        Set::new(|index: usize| index < count).finite(),
    decreases count,
{
    let below = Set::new(|index: usize| index < count);
    if count == 0 {
        assert(below =~= Set::empty());
    } else {
        let last = (count - 1) as usize;
        lemma_indices_below(last);
        assert(below =~= Set::new(|index: usize| index < last).insert(last));
    }
}

/// The builder is consistent from the start.
pub proof fn fresh_builder_is_consistent()
    ensures
        consistent(fresh_builder()),
{
}

/// The builder is consistent once accounts are initialised.
pub proof fn initialising_makes_consistent(s: BuilderView, count: usize, balance: u64)
    ensures
        consistent(initialised(s, count, balance)),
{
    let after = initialised(s, count, balance);
    lemma_indices_below(count);
    assert(after.accounts.dom() =~= Set::new(|index: usize| index < count));
}

/// The builder stays consistent as an account is registered, known or not.
pub proof fn registering_keeps_consistent(s: BuilderView, index: usize, balance: u64)
    requires
        consistent(s),
    ensures
        consistent(
            (BuilderView { accounts: with_registered(s.accounts, index, balance), ..s }),
        ),
{
    let accounts = with_registered(s.accounts, index, balance);
    assert forall|pair: Pair| #[trigger] s.pending.contains_key(pair) implies well_paired(
        accounts,
        pair,
    ) by {
        assert(well_paired(s.accounts, pair));
    }
}

/// What touches neither accounts nor pending transfers keeps the builder consistent: a root that
/// is adopted, a service that is chosen, a package that is remembered or forgotten.
pub proof fn other_changes_keep_consistent(s: BuilderView, t: BuilderView)
    requires
        consistent(s),
        t.accounts == s.accounts,
        t.pending == s.pending,
    ensures
        consistent(t),
{
}

/// The builder stays consistent as a transfer is queued, taken or not.
pub proof fn queueing_keeps_consistent(s: BuilderView, from: usize, to: usize, amount: u64)
    requires
        consistent(s),
    ensures
        consistent(queued(s, from, to, amount).0),
{
    let after = queued(s, from, to, amount).0;
    assert forall|pair: Pair| #[trigger] after.pending.contains_key(pair) implies well_paired(
        after.accounts,
        pair,
    ) by {
        if s.pending.contains_key(pair) {
            assert(well_paired(s.accounts, pair));
        }
    }
}

/// The builder stays consistent as a pair is removed, found or not.
pub proof fn removal_keeps_consistent(s: BuilderView, a: usize, b: usize)
    requires
        consistent(s),
    ensures
        consistent(pair_removed(s, a, b).0),
{
}

/// The builder stays consistent as a batch is prepared, whether that succeeds or fails.
pub proof fn preparing_keeps_consistent(s: BuilderView)
    requires
        consistent(s),
    ensures
        consistent(prepared(s).0),
{
    let after = prepared(s).0;
    settling_keeps_keys(s.accounts, entries_in_order(s.pending));
    assert forall|index: usize| #[trigger] after.accounts.contains_key(index) implies
        after.accounts[index].keypair == keypair_of(after.accounts[index].keypair.signing_key) by {
        assert(s.accounts.contains_key(index));
        assert(s.accounts[index].keypair == settled(s).accounts[index].keypair);
    }
}

/// The entries of a consistent builder's pending transfers are well paired.
pub(crate) proof fn lemma_entries_well_paired(s: BuilderView)
    requires
        consistent(s),
    ensures
        forall|i: int|
            0 <= i < entries_in_order(s.pending).len() ==> well_paired(
                s.accounts,
                (#[trigger] entries_in_order(s.pending)[i]).0,
            ) && s.pending.contains_pair(
                entries_in_order(s.pending)[i].0,
                entries_in_order(s.pending)[i].1,
            ),
{
    let items = entries_in_order(s.pending);
    let pairs = pairs_in_order(s.pending.dom());
    pairs_in_order_are_ordered(s.pending.dom());
    assert forall|i: int| 0 <= i < items.len() implies well_paired(
        s.accounts,
        (#[trigger] items[i]).0,
    ) && s.pending.contains_pair(items[i].0, items[i].1) by {
        assert(pairs.to_set().contains(pairs[i]));
        assert(s.pending.contains_key(pairs[i]));
    }
}

/// Where all ends of some pending transfers are known, only a balance can stop them.
pub(crate) proof fn lemma_only_balances_fail(accounts: Map<usize, AccountView>, items: Seq<(Pair, i128)>)
    requires
        forall|i: int|
            0 <= i < items.len() ==> well_paired(accounts, (#[trigger] items[i]).0),
    ensures
        settle(accounts, items).failure matches Some(error) ==> error is InsufficientBalance,
    decreases items.len(),
{
    if items.len() > 0 {
        let rest = items.drop_last();
        assert forall|i: int| 0 <= i < rest.len() implies well_paired(
            accounts,
            (#[trigger] rest[i]).0,
        ) by {
            assert(rest[i] == items[i]);
        }
        lemma_only_balances_fail(accounts, rest);
        settling_keeps_keys(accounts, rest);
        assert(well_paired(accounts, items[items.len() - 1].0));
    }
}

/// A consistent builder's batch fails for want of pending transfers, of a net transfer, or of
/// balance; never for want of an account.
pub proof fn consistent_batch_finds_accounts(s: BuilderView)
    requires
        consistent(s),
    ensures
        prepared(s).1 matches Err(error) ==> error is NoPendingTransfers || error is NoNetTransfers
            || error is InsufficientBalance,
{
    lemma_entries_well_paired(s);
    lemma_only_balances_fail(s.accounts, entries_in_order(s.pending));
}

/// What moves comes of an entry that does not cancel out.
pub(crate) proof fn lemma_movement_source(
    accounts: Map<usize, AccountView>,
    items: Seq<(Pair, i128)>,
    k: int,
) -> (i: int)
    requires
        0 <= k < settle(accounts, items).movements.len(),
    ensures
        0 <= i < items.len(),
        ({
            let m = settle(accounts, items).movements[k];
            let (pair, net) = items[i];
            &&& net != 0
            &&& m.from == net_sender(pair, net)
            &&& m.to == net_recipient(pair, net)
            &&& m.amount == net_amount(net)
        }),
    decreases items.len(),
{
    let rest = items.drop_last();
    let before = settle(accounts, rest);
    if k < before.movements.len() {
        let i = lemma_movement_source(accounts, rest, k);
        assert(rest[i] == items[i]);
        i
    } else {
        items.len() - 1
    }
}

/// The service takes every transfer that a consistent builder makes and signs.
pub proof fn consistent_batch_is_acceptable(s: BuilderView)
    requires
        consistent(s),
        all_signed(batch_of(s)),
    ensures
        all_acceptable(batch_of(s)),
{
    let items = entries_in_order(s.pending);
    let movements = settled(s).movements;
    let ts = batch_of(s);
    lemma_entries_well_paired(s);
    assert forall|k: int| 0 <= k < ts.len() implies acceptable(#[trigger] ts[k]) by {
        let i = lemma_movement_source(s.accounts, items, k);
        assert(well_paired(s.accounts, items[i].0));
        assert(s.pending.contains_key(items[i].0));
        assert(ts[k] == transfer_of(s.accounts, movements[k]));
        assert(signed_by_sender(ts[k]));
    }
}

/// No token is made or lost as a transfer is queued, taken or not.
pub proof fn queueing_keeps_supply(s: BuilderView, from: usize, to: usize, amount: u64)
    requires
        s.accounts.dom().finite(),
    ensures
        supply(queued(s, from, to, amount).0.accounts) == supply(s.accounts),
{
    if !s.accounts.contains_key(to) {
        let accounts = with_registered(s.accounts, to, 0);
        lemma_supply_apart(accounts, to);
        assert(accounts.remove(to) =~= s.accounts);
    }
}

/// No token is made or lost as a consistent builder prepares a batch, whether that succeeds or
/// fails, where all tokens together fit in 64 bits.
pub proof fn preparing_keeps_supply(s: BuilderView)
    requires
        consistent(s),
        supply(s.accounts) <= u64::MAX,
    ensures
        supply(prepared(s).0.accounts) == supply(s.accounts),
{
    let items = entries_in_order(s.pending);
    lemma_entries_well_paired(s);
    lemma_only_balances_fail(s.accounts, items);
    assert forall|i: int| 0 <= i < items.len() implies has_room(
        settle(s.accounts, items.take(i)),
        (#[trigger] items[i]).0,
        items[i].1,
    ) by {
        small_supply_has_room(s.accounts, items, i);
    }
    settling_keeps_supply(s.accounts, items);
}

/// Initialised accounts hold the balance that each was given, as often as there are accounts.
pub proof fn initial_supply(s: BuilderView, count: usize, balance: u64)
    ensures
        supply(initialised(s, count, balance).accounts) == count * balance,
    decreases count,
{
    let accounts = initialised(s, count, balance).accounts;
    lemma_indices_below(count);
    assert(accounts.dom() =~= Set::new(|index: usize| index < count));
    if count == 0 {
        assert(accounts.dom() =~= Set::empty());
    } else {
        let last = (count - 1) as usize;
        initial_supply(s, last, balance);
        lemma_supply_apart(accounts, last);
        assert(accounts.remove(last) =~= initialised(s, last, balance).accounts);
        assert(count * balance == last * balance + balance) by (nonlinear_arith)
            requires
                count == last + 1,
        ;
    }
}

// ---------------------------------------------------------------------------------------------
// Keys

/// No two accounts grow from one seed.
pub proof fn seeds_differ(a: usize, b: usize)
    requires
        a != b,
    ensures
        indexed_seed(a) != indexed_seed(b),
{
    lemma_auto_spec_u64_to_from_le_bytes();
    let left = spec_u64_to_le_bytes(a as u64);
    let right = spec_u64_to_le_bytes(b as u64);
    assert(left.len() == 8 && right.len() == 8);
    assert(indexed_seed(a).subrange(0, 8) =~= left);
    assert(indexed_seed(b).subrange(0, 8) =~= right);
    assert(spec_u64_from_le_bytes(left) == a as u64);
    assert(spec_u64_from_le_bytes(right) == b as u64);
}

// ---------------------------------------------------------------------------------------------
// From the builder to the chain

/// Different batches, or the same transfers in another order, or different roots to start from,
/// are hashed from different bytes.
pub proof fn batches_are_told_apart(
    root_a: StateRoot,
    a: Seq<TransferView>,
    root_b: StateRoot,
    b: Seq<TransferView>,
)
    requires
        a.len() <= u32::MAX,
        b.len() <= u32::MAX,
        all_sized(a),
        all_sized(b),
        root_a@ != root_b@ || a != b,
    ensures
        root_a@ + transfers_bytes(a) != root_b@ + transfers_bytes(b),
{
    let left = root_a@ + transfers_bytes(a);
    let right = root_b@ + transfers_bytes(b);
    assert(left.subrange(0, 32) =~= root_a@);
    assert(right.subrange(0, 32) =~= root_b@);
    assert(left.skip(32) =~= transfers_bytes(a));
    assert(right.skip(32) =~= transfers_bytes(b));
    transfers_round_trip(a, Seq::empty());
    transfers_round_trip(b, Seq::empty());
    assert(transfers_bytes(a) + Seq::empty() =~= transfers_bytes(a));
    assert(transfers_bytes(b) + Seq::empty() =~= transfers_bytes(b));
}

/// What the builder sends is what the service reads: the payload's document stands for the batch's
/// two roots, the extrinsic for its transfers, and refining the two gives the output that says so.
/// Accumulated on a chain that holds the builder's old root, it leaves the builder's new one there.
pub proof fn batch_reaches_the_chain(
    old_root: StateRoot,
    new_root: StateRoot,
    ts: Seq<TransferView>,
    stored: Option<Seq<u8>>,
)
    requires
        ts.len() <= u32::MAX,
        all_sized(ts),
        all_acceptable(ts),
        new_root@ == batch_root(old_root@, ts),
        stored_root(stored) == old_root@,
    ensures
        ({
            let payload = PayloadView::TransferBatch { old_root: old_root@, new_root: new_root@ };
            let extrinsic = transfers_bytes(ts);
            let work = refined(Ok(json_of_payload(payload)), Some(extrinsic));
            let after = accumulated(stored, Some(work.output));
            &&& work.refusal is None
            &&& work.output == output_bytes(
                OutputView::TransferBatch { old_root: old_root@, new_root: new_root@ },
            )
            &&& work.export == (extrinsic.len() <= segment_bytes())
            &&& after == Some(new_root@)
            &&& stored_root(after) == new_root@
        }),
{
    let extrinsic = transfers_bytes(ts);
    payload_round_trip(Payload::TransferBatch { old_root, new_root });
    transfers_round_trip(ts, Seq::empty());
    faults_are_found(ts);
    assert(extrinsic + Seq::empty() =~= extrinsic);
    let output = RefinementOutput::TransferBatch { old_root, new_root };
    output_round_trip(output, Seq::empty());
    assert(output_bytes(output@) + Seq::empty() =~= output_bytes(output@));
    assert(new_root@.subrange(0, 32) =~= new_root@);
}

/// What the builder prepares from a consistent state, all signed, moves a chain that holds the
/// builder's root to the builder's next root. `before` and `after` are the builder's states.
pub proof fn prepared_batch_reaches_the_chain(
    before: BuilderState,
    after: BuilderState,
    stored: Option<Seq<u8>>,
)
    requires
        consistent(before@),
        prepared(before@).0 == after@,
        prepared(before@).1 is Ok,
        batch_of(before@).len() <= u32::MAX,
        all_sized(batch_of(before@)),
        all_signed(batch_of(before@)),
        stored_root(stored) == before@.root,
    ensures
        ({
            let payload = PayloadView::TransferBatch {
                old_root: before@.root,
                new_root: after@.root,
            };
            let (sent_payload, sent_extrinsic) = prepared(before@).1->Ok_0;
            let output = refined(Ok(json_of_payload(payload)), Some(sent_extrinsic)).output;
            &&& sent_payload == payload_bytes(payload)
            &&& output == output_bytes(
                OutputView::TransferBatch { old_root: before@.root, new_root: after@.root },
            )
            &&& stored_root(accumulated(stored, Some(output))) == after@.root
        }),
{
    consistent_batch_is_acceptable(before@);
    batch_reaches_the_chain(
        before.current_root,
        after.current_root,
        batch_of(before@),
        stored,
    );
}

/// A reset that the builder prepares is authorized, and leaves the builder's root on the chain
/// whatever was there. It exports nothing.
pub proof fn reset_reaches_the_chain(
    root: StateRoot,
    signature: [u8; 64],
    extrinsic: Option<Seq<u8>>,
    stored: Option<Seq<u8>>,
)
    requires
        signature@ == reset_signature(root@),
        signed_by_admin(root@, signature@),
    ensures
        ({
            let work = refined(Ok(json_of_payload(reset_payload(root@))), extrinsic);
            &&& work.refusal is None
            &&& !work.export
            &&& accumulated(stored, Some(work.output)) == Some(root@)
            &&& stored_root(accumulated(stored, Some(work.output))) == root@
        }),
{
    payload_round_trip(Payload::Reset { new_root: root, signature });
    let output = RefinementOutput::Reset { new_root: root };
    output_round_trip(output, Seq::empty());
    assert(output_bytes(output@) + Seq::empty() =~= output_bytes(output@));
    assert(root@.subrange(0, 32) =~= root@);
}

/// Whether the service takes a work item: a reset that the administrator signed, or a batch of
/// transfers that are all acceptable and lead from the old root to the new one.
pub open spec fn taken(payload: PayloadView, extrinsic: Option<Seq<u8>>) -> bool {
    match payload {
        PayloadView::Reset { new_root, signature } => signed_by_admin(new_root, signature),
        PayloadView::TransferBatch { old_root, new_root } => match extrinsic {
            None => false,
            Some(bytes) => match parse_transfers(bytes) {
                None => false,
                Some(ts) => all_acceptable(ts) && batch_root(old_root, ts) == new_root,
            },
        },
    }
}

/// Once a service is chosen and the chain's root for it is read, the builder holds that root: what
/// it prepares next is not stale.
pub proof fn chosen_service_is_in_step(
    s: BuilderView,
    service_id: u32,
    stored: Option<Seq<u8>>,
)
    requires
        service_chosen(s, service_id, Some(stored)).1 is Ok,
    ensures
        service_chosen(s, service_id, Some(stored)).0.root == stored_root(stored),
{
}

/// Work that is not taken, or whose payload cannot be read, or whose refinement fails, leaves the
/// chain as it was: only the administrator resets it, and every transfer is signed by its sender.
pub proof fn refused_work_changes_nothing(
    stored: Option<Seq<u8>>,
    document: Result<PayloadJsonView, Seq<char>>,
    extrinsic: Option<Seq<u8>>,
)
    requires
        read_payload(document) matches Ok(payload) ==> !taken(payload, extrinsic),
    ensures
        accumulated(stored, None) == stored,
        refined(document, extrinsic).refusal is Some,
        refined(document, extrinsic).output.len() == 0,
        accumulated(stored, Some(refined(document, extrinsic).output)) == stored,
{
    if let Some(bytes) = extrinsic {
        if let Some(ts) = parse_transfers(bytes) {
            faults_are_found(ts);
        }
    }
}

/// The segments that the builder announces for a batch are those that refinement exports.
pub proof fn announced_exports_are_made(
    old_root: Seq<u8>,
    new_root: Seq<u8>,
    ts: Seq<TransferView>,
)
    requires
        ts.len() <= u32::MAX,
        all_sized(ts),
        all_acceptable(ts),
    ensures
        ({
            let extrinsic = transfers_bytes(ts);
            refined_batch(old_root, new_root, Some(extrinsic)).export <==> announced_exports(
                extrinsic.len(),
                1,
            ) == 1
        }),
{
    transfers_round_trip(ts, Seq::empty());
    faults_are_found(ts);
    assert(transfers_bytes(ts) + Seq::empty() =~= transfers_bytes(ts));
}

/// An exported batch reads back from its segment, whatever fills the rest of the segment.
pub proof fn exported_batch_reads_back(ts: Seq<TransferView>, filling: Seq<u8>)
    requires
        ts.len() <= u32::MAX,
        all_sized(ts),
    ensures
        segment_lines(transfers_bytes(ts) + filling) == Some(
            Seq::new(ts.len(), |i: int| transfer_line(ts[i])),
        ),
{
    transfers_round_trip(ts, filling);
}

/// A batch that does not start from the root on the chain leaves the chain as it was.
pub proof fn stale_batch_changes_nothing(
    stored: Option<Seq<u8>>,
    old_root: StateRoot,
    new_root: StateRoot,
)
    requires
        stored_root(stored) != old_root@,
    ensures
        accumulated(
            stored,
            Some(
                output_bytes(
                    OutputView::TransferBatch { old_root: old_root@, new_root: new_root@ },
                ),
            ),
        ) == stored,
{
    let output = RefinementOutput::TransferBatch { old_root, new_root };
    output_round_trip(output, Seq::empty());
    assert(output_bytes(output@) + Seq::empty() =~= output_bytes(output@));
}

/// A batch is not applied twice: once it is, the same output again leaves the chain as it is.
pub proof fn batch_is_applied_once(stored: Option<Seq<u8>>, output: Seq<u8>)
    ensures
        ({
            let once = accumulated(stored, Some(output));
            accumulated(once, Some(output)) == once
        }),
{
    match parse_output(output) {
        Some(OutputView::TransferBatch { old_root, new_root }) => {
            assert(new_root.subrange(0, 32) =~= new_root);
        },
        _ => {},
    }
}

/// Batches that follow each other are applied one after the other, in one go.
pub proof fn batches_follow_each_other(
    stored: Option<Seq<u8>>,
    first: StateRoot,
    second: StateRoot,
    third: StateRoot,
)
    requires
        stored_root(stored) == first@,
    ensures
        ({
            let one = OutputView::TransferBatch { old_root: first@, new_root: second@ };
            let two = OutputView::TransferBatch { old_root: second@, new_root: third@ };
            all_accumulated(stored, seq![Some(output_bytes(one)), Some(output_bytes(two))]) == Some(
                third@,
            )
        }),
{
    let one = RefinementOutput::TransferBatch { old_root: first, new_root: second };
    let two = RefinementOutput::TransferBatch { old_root: second, new_root: third };
    let outputs = seq![Some(output_bytes(one@)), Some(output_bytes(two@))];
    output_round_trip(one, Seq::empty());
    output_round_trip(two, Seq::empty());
    assert(output_bytes(one@) + Seq::empty() =~= output_bytes(one@));
    assert(output_bytes(two@) + Seq::empty() =~= output_bytes(two@));
    assert(second@.subrange(0, 32) =~= second@);
    assert(outputs.drop_last() =~= seq![Some(output_bytes(one@))]);
    assert(outputs.drop_last().drop_last() =~= Seq::empty());
    assert(all_accumulated(stored, outputs.drop_last().drop_last()) == stored);
    assert(all_accumulated(stored, outputs.drop_last()) == Some(second@));
}

/// The root on the chain only changes to one that a refined batch claims to follow from it, or
/// that a reset orders.
pub proof fn chain_follows_batches_and_resets(stored: Option<Seq<u8>>, output: Option<Seq<u8>>)
    requires
        accumulated(stored, output) != stored,
    ensures
        output is Some,
        parse_output(output->0) matches Some(claim) && match claim {
            OutputView::TransferBatch { old_root, new_root } => {
                &&& stored_root(stored) == old_root
                &&& accumulated(stored, output) == Some(new_root)
            },
            OutputView::Reset { new_root } => accumulated(stored, output) == Some(new_root),
        },
{
}

} // verus!
