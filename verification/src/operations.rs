//! What holds of the builder's operations one by one: what each changes, what it keeps, and what
//! is shown of the result.

use crate::accounts::AccountView;
use crate::builder::{pair_removed, queue_fits, queued, with_registered, BuilderView};
use crate::codec::parse_transfers;
use crate::commitments::account_keys_grow_from_the_index;
use crate::console::{segment_lines, transfer_line};
use crate::crypto::ed25519_public_key;
use crate::errors::ErrorView;
use crate::hexadecimal::hex_text;
use crate::laws::{consistent, lemma_entries_well_paired, owed, well_paired};
use crate::order::{entries_in_order, indices_in_order, indices_in_order_are_ordered,
    pairs_in_order, pairs_in_order_are_ordered, Pair};
use crate::readings::{all_lower_hex, service_ids_are_spelled, spelled};
use crate::report::{account_lines, pending_lines, reports, AccountLine, PendingLine, StateReport};
use crate::submission::{core_failed, SubmissionView};
use crate::text::joined;
use vstd::bytes::spec_u64_from_le_bytes;
use vstd::prelude::*;

verus! {

// ---------------------------------------------------------------------------------------------
// Accounts and requests

/// A known account stays as it is when it is registered again. A new one gets the balance that it
/// is registered with, nothing sent, and the keys that grow from its index. No other account
/// changes.
pub proof fn registering_adds_the_account(
    accounts: Map<usize, AccountView>,
    index: usize,
    balance: u64,
    other: usize,
)
    ensures
        ({
            let after = with_registered(accounts, index, balance);
            &&& after.contains_key(index)
            &&& accounts.contains_key(index) ==> after == accounts
            &&& !accounts.contains_key(index) ==> {
                let seed = after[index].keypair.signing_key;
                &&& after[index].balance == balance
                &&& after[index].nonce == 0
                &&& seed.len() == 32
                &&& spec_u64_from_le_bytes(seed.take(8)) == index
                &&& after[index].keypair.public_key == ed25519_public_key(seed)
            }
            &&& other != index ==> {
                &&& after.contains_key(other) == accounts.contains_key(other)
                &&& after[other] == accounts[other]
            }
        }),
{
    account_keys_grow_from_the_index(index, balance);
}

/// A transfer is queued where its sender is known, the two accounts have different keys, and it
/// moves something. Else it is refused with the first of these that does not hold, and what is
/// pending stays as it was. Its recipient is registered with nothing where its sender is known,
/// and nothing but accounts and pending transfers ever changes.
pub proof fn requests_are_granted(s: BuilderView, from: usize, to: usize, amount: u64)
    ensures
        ({
            let (after, outcome) = queued(s, from, to, amount);
            let sender = after.accounts[from].keypair.public_key;
            let recipient = after.accounts[to].keypair.public_key;
            let known = s.accounts.contains_key(from);
            &&& outcome is Ok <==> known && sender != recipient && amount > 0
            &&& !known ==> after == s && outcome == Err::<(), ErrorView>(
                ErrorView::UnknownSender { index: from },
            )
            &&& known ==> after.accounts == with_registered(s.accounts, to, 0)
            &&& known && sender == recipient ==> outcome == Err::<(), ErrorView>(
                ErrorView::SelfTransfer {
                    from_index: from,
                    from: sender,
                    to_index: to,
                    to: recipient,
                },
            )
            &&& known && sender != recipient && amount == 0 ==> outcome == Err::<(), ErrorView>(
                ErrorView::ZeroAmount,
            )
            &&& outcome is Err ==> after.pending == s.pending
            &&& after.root == s.root
            &&& after.rpc_url == s.rpc_url
            &&& after.service_id == s.service_id
            &&& after.packages == s.packages
        }),
{
}

/// A transfer fits where what its sender owes its recipient stays in 128 bits, counted from the
/// account with the smaller index; so any transfer fits where less than 2 to the 126 is owed. One
/// that is refused for its ends fits anyway.
pub proof fn ordinary_requests_fit(s: BuilderView, from: usize, to: usize, amount: u64)
    ensures
        !s.accounts.contains_key(from) || from == to ==> queue_fits(s, from, to, amount),
        s.accounts.contains_key(from) && from < to ==> (queue_fits(s, from, to, amount)
            <==> i128::MIN <= owed(s.pending, from, to) + amount <= i128::MAX),
        s.accounts.contains_key(from) && from > to ==> (queue_fits(s, from, to, amount)
            <==> i128::MIN <= -(owed(s.pending, from, to) + amount) <= i128::MAX),
        -0x4000_0000_0000_0000_0000_0000_0000_0000 <= owed(s.pending, from, to)
            <= 0x4000_0000_0000_0000_0000_0000_0000_0000 ==> queue_fits(s, from, to, amount),
{
}

/// A pair's pending transfers are removed where the two indices differ and there are any. Else
/// nothing changes and the error names what was asked for. Nothing but that entry ever changes.
pub proof fn removals_are_granted(s: BuilderView, a: usize, b: usize)
    ensures
        ({
            let (after, outcome) = pair_removed(s, a, b);
            let pair: Pair = if a < b {
                (a, b)
            } else {
                (b, a)
            };
            &&& outcome is Ok <==> a != b && s.pending.contains_key(pair)
            &&& outcome is Ok ==> after.pending == s.pending.remove(pair)
            &&& outcome is Err ==> after == s
            &&& a == b ==> outcome == Err::<(), ErrorView>(ErrorView::SamePair)
            &&& a != b && outcome is Err ==> outcome == Err::<(), ErrorView>(
                ErrorView::NoPendingPair { index_a: a, index_b: b },
            )
            &&& after.accounts == s.accounts
            &&& after.root == s.root
            &&& after.rpc_url == s.rpc_url
            &&& after.service_id == s.service_id
            &&& after.packages == s.packages
        }),
{
}

// ---------------------------------------------------------------------------------------------
// Reports

/// What is shown of the accounts: a line for each, by increasing index, with its balance, its
/// count of transfers and the first sixteen digits of its key.
pub proof fn every_account_is_shown(accounts: Map<usize, AccountView>)
    requires
        accounts.dom().finite(),
    ensures
        ({
            let lines = account_lines(accounts, indices_in_order(accounts.dom()));
            &&& lines.len() == accounts.dom().len()
            &&& forall|k: int|
                0 <= k < lines.len() ==> {
                    let line = #[trigger] lines[k];
                    let account = accounts[line.index];
                    &&& accounts.contains_key(line.index)
                    &&& line.balance == account.balance
                    &&& line.nonce == account.nonce
                    &&& line.key == hex_text(account.keypair.public_key).take(16)
                }
            &&& forall|k: int, l: int|
                #![trigger lines[k], lines[l]]
                0 <= k < l < lines.len() ==> lines[k].index < lines[l].index
            &&& forall|index: usize| #[trigger]
                accounts.contains_key(index) ==> exists|k: int|
                    0 <= k < lines.len() && (#[trigger] lines[k]).index == index
        }),
{
    let order = indices_in_order(accounts.dom());
    let lines = account_lines(accounts, order);
    indices_in_order_are_ordered(accounts.dom());
    assert(order.no_duplicates());
    order.unique_seq_to_set();
    assert forall|k: int| 0 <= k < lines.len() implies accounts.contains_key(
        (#[trigger] lines[k]).index,
    ) by {
        assert(order.to_set().contains(order[k]));
    }
    assert forall|index: usize| #[trigger] accounts.contains_key(index) implies exists|k: int|
        0 <= k < lines.len() && (#[trigger] lines[k]).index == index by {
        assert(order.to_set().contains(index));
        let k = choose|k: int| 0 <= k < order.len() && order[k] == index;
        assert(lines[k].index == index);
    }
}

/// What is shown of some entries is shown of one of them.
proof fn lemma_shown_source(
    accounts: Map<usize, AccountView>,
    items: Seq<(Pair, i128)>,
    k: int,
) -> (i: int)
    requires
        0 <= k < pending_lines(accounts, items).len(),
        forall|i: int| 0 <= i < items.len() ==> (#[trigger] items[i]).0.0 < items[i].0.1,
    ensures
        0 <= i < items.len(),
        items[i].1 != 0,
        pending_lines(accounts, items)[k].from == items[i].0.0,
        pending_lines(accounts, items)[k].to == items[i].0.1,
        pending_lines(accounts, items)[k].amount == items[i].1,
        accounts.contains_key(items[i].0.0) ==> pending_lines(accounts, items)[k].from_key
            == hex_text(accounts[items[i].0.0].keypair.public_key).take(16),
        accounts.contains_key(items[i].0.1) ==> pending_lines(accounts, items)[k].to_key
            == hex_text(accounts[items[i].0.1].keypair.public_key).take(16),
    decreases items.len(),
{
    let rest = items.drop_last();
    assert forall|i: int| 0 <= i < rest.len() implies (#[trigger] rest[i]).0.0 < rest[i].0.1 by {
        assert(rest[i] == items[i]);
    }
    if k < pending_lines(accounts, rest).len() {
        let i = lemma_shown_source(accounts, rest, k);
        assert(rest[i] == items[i]);
        i
    } else {
        let i = items.len() - 1;
        assert(items[i].0.0 < items[i].0.1);
        i
    }
}

/// Every entry that does not cancel out is shown.
proof fn lemma_entry_is_shown(
    accounts: Map<usize, AccountView>,
    items: Seq<(Pair, i128)>,
    i: int,
) -> (k: int)
    requires
        0 <= i < items.len(),
        items[i].1 != 0,
        items[i].0.0 < items[i].0.1,
    ensures
        0 <= k < pending_lines(accounts, items).len(),
        pending_lines(accounts, items)[k].from == items[i].0.0,
        pending_lines(accounts, items)[k].to == items[i].0.1,
    decreases items.len(),
{
    let rest = items.drop_last();
    if i == items.len() - 1 {
        pending_lines(accounts, items).len() - 1
    } else {
        assert(rest[i] == items[i]);
        lemma_entry_is_shown(accounts, rest, i)
    }
}

/// What is shown of a consistent builder's pending transfers: a line for every two accounts of
/// which one owes the other, with what the first owes the second, and the first digits of both
/// keys.
pub proof fn every_debt_is_shown(s: BuilderView)
    requires
        consistent(s),
    ensures
        ({
            let lines = pending_lines(s.accounts, entries_in_order(s.pending));
            &&& forall|k: int|
                0 <= k < lines.len() ==> {
                    let line = #[trigger] lines[k];
                    &&& line.from < line.to
                    &&& line.amount != 0
                    &&& line.amount == owed(s.pending, line.from, line.to)
                    &&& line.from_key == hex_text(
                        s.accounts[line.from].keypair.public_key,
                    ).take(16)
                    &&& line.to_key == hex_text(s.accounts[line.to].keypair.public_key).take(16)
                }
            &&& forall|a: usize, b: usize|
                a < b && #[trigger] owed(s.pending, a, b) != 0 ==> exists|k: int|
                    0 <= k < lines.len() && (#[trigger] lines[k]).from == a && lines[k].to == b
        }),
{
    let items = entries_in_order(s.pending);
    let lines = pending_lines(s.accounts, items);
    let pairs = pairs_in_order(s.pending.dom());
    lemma_entries_well_paired(s);
    pairs_in_order_are_ordered(s.pending.dom());
    assert forall|i: int| 0 <= i < items.len() implies (#[trigger] items[i]).0.0 < items[i].0.1 by {
        assert(well_paired(s.accounts, items[i].0));
    }
    assert forall|k: int| 0 <= k < lines.len() implies ({
        let line = #[trigger] lines[k];
        &&& line.from < line.to
        &&& line.amount != 0
        &&& line.amount == owed(s.pending, line.from, line.to)
        &&& line.from_key == hex_text(s.accounts[line.from].keypair.public_key).take(16)
        &&& line.to_key == hex_text(s.accounts[line.to].keypair.public_key).take(16)
    }) by {
        let i = lemma_shown_source(s.accounts, items, k);
        assert(well_paired(s.accounts, items[i].0));
        assert(s.pending.contains_pair(items[i].0, items[i].1));
        assert(items[i].0 == (lines[k].from, lines[k].to));
    }
    assert forall|a: usize, b: usize| a < b && #[trigger] owed(s.pending, a, b) != 0 implies exists|
        k: int,
    | 0 <= k < lines.len() && (#[trigger] lines[k]).from == a && lines[k].to == b by {
        assert(s.pending.contains_key((a, b)));
        assert(pairs.to_set().contains((a, b)));
        let i = choose|i: int| 0 <= i < pairs.len() && pairs[i] == (a, b);
        assert(items[i] == ((a, b), s.pending[(a, b)]));
        let k = lemma_entry_is_shown(s.accounts, items, i);
        assert(lines[k].from == a && lines[k].to == b);
    }
}

/// A report shows the root in hexadecimal notation, how many packages are remembered, and how many
/// pairs are pending, cancelled out or not; and pending transfers where they are asked for.
pub proof fn reports_count(report: StateReport, s: BuilderView, show_pending_details: bool)
    requires
        reports(report, s, show_pending_details),
    ensures
        report.root@ == hex_text(s.root),
        report.packages == s.packages.len(),
        report.pending_pairs == s.pending.dom().len(),
        report.pending is Some <==> show_pending_details,
        report.rpc_url is Some <==> s.rpc_url is Some,
        s.rpc_url is Some ==> report.rpc_url->0@ == s.rpc_url->0,
        report.service_id is Some <==> s.service_id is Some,
        s.service_id is Some ==> {
            let shown = report.service_id->0@;
            shown.len() == 8 && all_lower_hex(shown) && spelled(shown, 16) == s.service_id->0
        },
        ({
            let lines = account_lines(s.accounts, indices_in_order(s.accounts.dom()));
            &&& report.accounts@.len() == lines.len()
            &&& forall|k: int|
                0 <= k < lines.len() ==> (#[trigger] report.accounts@[k])@ == lines[k]
        }),
        show_pending_details ==> {
            let lines = pending_lines(s.accounts, entries_in_order(s.pending));
            &&& report.pending->0@.len() == lines.len()
            &&& forall|k: int|
                0 <= k < lines.len() ==> (#[trigger] report.pending->0@[k])@ == lines[k]
        },
{
    if s.service_id is Some {
        service_ids_are_spelled(s.service_id->0);
    }
    let shown = report.accounts@.map_values(|line: AccountLine| line@);
    assert forall|k: int| 0 <= k < shown.len() implies (#[trigger] report.accounts@[k])@
        == shown[k] by {}
    if show_pending_details {
        let listed = report.pending->0@.map_values(|line: PendingLine| line@);
        assert forall|k: int| 0 <= k < listed.len() implies (#[trigger] report.pending->0@[k])@
            == listed[k] by {}
    }
}

// ---------------------------------------------------------------------------------------------
// Lines

/// Texts are joined with one line break between any two, wherever they are taken apart.
pub proof fn lines_are_joined(left: Seq<Seq<char>>, right: Seq<Seq<char>>)
    ensures
        left.len() == 0 ==> joined(left).len() == 0,
        left.len() == 1 ==> joined(left) == left[0],
        left.len() > 0 && right.len() > 0 ==> joined(left + right) == joined(left) + seq!['\n']
            + joined(right),
    decreases right.len(),
{
    reveal_strlit("\n");
    assert("\n"@ =~= seq!['\n']);
    if left.len() > 0 && right.len() > 0 {
        let all = left + right;
        let shorter = right.drop_last();
        assert(all.drop_last() =~= left + shorter);
        assert(all.last() == right.last());
        if right.len() == 1 {
            assert(left + shorter =~= left);
        } else {
            lines_are_joined(left, shorter);
            assert(joined(left) + seq!['\n'] + joined(shorter) + "\n"@ + right.last() =~= joined(
                left,
            ) + seq!['\n'] + (joined(shorter) + "\n"@ + right.last()));
        }
    }
}

/// A segment is shown transfer by transfer, in order, where it can be read.
pub proof fn segments_are_shown_in_order(bytes: Seq<u8>, i: int)
    ensures
        segment_lines(bytes) is Some <==> parse_transfers(bytes) is Some,
        parse_transfers(bytes) is Some ==> segment_lines(bytes)->0.len() == parse_transfers(
            bytes,
        )->0.len(),
        parse_transfers(bytes) is Some && 0 <= i < parse_transfers(bytes)->0.len() ==> segment_lines(
            bytes,
        )->0[i] == transfer_line(parse_transfers(bytes)->0[i]),
{
}

/// A core that does not take the package is followed by the next one: what was said of those
/// before it stays, one line is added, and there is a core to try as long as fewer cores were
/// tried than there are.
pub proof fn refusing_cores_are_counted(s: SubmissionView, error: Seq<char>)
    ensures
        ({
            let after = core_failed(s, error);
            &&& after.core_count == s.core_count
            &&& after.errors.len() == s.errors.len() + 1
            &&& after.errors.drop_last() == s.errors
            &&& after.open() <==> s.errors.len() + 1 < s.core_count
        }),
{
    assert(core_failed(s, error).errors.drop_last() =~= s.errors);
}

} // verus!
