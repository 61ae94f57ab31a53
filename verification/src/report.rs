//! The builder's state as it is shown to people.

use crate::accounts::AccountView;
use crate::builder::{canonical_counterpart_delta, counterpart_delta, BuilderState, BuilderView};
use crate::errors::{short_key, short_key_text};
use crate::hexadecimal::{hex_encode, hex_text};
use crate::ledger::{zero_root, AccountId};
use crate::order::{entries, entries_in_order, indices, indices_in_order, Pair};
use crate::text::{service_id_chars, service_id_text};
use vstd::prelude::*;

verus! {

/// What is shown of an account.
#[derive(Debug)]
pub struct AccountLine {
    pub index: usize,
    pub key: String,
    pub balance: u64,
    pub nonce: u64,
}

/// What an [`AccountLine`] says.
#[verifier::ext_equal]
pub struct AccountLineView {
    pub index: usize,
    pub key: Seq<char>,
    pub balance: u64,
    pub nonce: u64,
}

impl View for AccountLine {
    type V = AccountLineView;

    open spec fn view(&self) -> AccountLineView {
        AccountLineView {
            index: self.index,
            key: self.key@,
            balance: self.balance,
            nonce: self.nonce,
        }
    }
}

/// What is shown of a pending net transfer.
#[derive(Debug)]
pub struct PendingLine {
    pub from: usize,
    pub from_key: String,
    pub to: usize,
    pub to_key: String,
    pub amount: i128,
}

/// What a [`PendingLine`] says.
#[verifier::ext_equal]
pub struct PendingLineView {
    pub from: usize,
    pub from_key: Seq<char>,
    pub to: usize,
    pub to_key: Seq<char>,
    pub amount: int,
}

impl View for PendingLine {
    type V = PendingLineView;

    open spec fn view(&self) -> PendingLineView {
        PendingLineView {
            from: self.from,
            from_key: self.from_key@,
            to: self.to,
            to_key: self.to_key@,
            amount: self.amount as int,
        }
    }
}

/// What is shown of the builder's state.
#[derive(Debug)]
pub struct StateReport {
    pub root: String,
    pub rpc_url: Option<String>,
    pub service_id: Option<String>,
    pub accounts: Vec<AccountLine>,
    pub packages: usize,
    pub pending_pairs: usize,
    /// The pending transfers, if they were asked for.
    pub pending: Option<Vec<PendingLine>>,
}

/// What is shown of the accounts at some indices.
pub open spec fn account_lines(
    accounts: Map<usize, AccountView>,
    keys: Seq<usize>,
) -> Seq<AccountLineView> {
    keys.map_values(
        |index: usize|
            AccountLineView {
                index,
                key: short_key(accounts[index].keypair.public_key),
                balance: accounts[index].balance,
                nonce: accounts[index].nonce,
            },
    )
}

/// The key of an account; zeros where it is not known.
pub open spec fn shown_key(accounts: Map<usize, AccountView>, index: usize) -> Seq<u8> {
    if accounts.contains_key(index) {
        accounts[index].keypair.public_key
    } else {
        zero_root()
    }
}

/// What is shown of the pending net transfer of a pair.
pub open spec fn pending_line(
    accounts: Map<usize, AccountView>,
    pair: Pair,
    net: i128,
) -> PendingLineView {
    let ((from, to), amount) = counterpart_delta(pair.0, pair.1, net as int);
    PendingLineView {
        from,
        from_key: short_key(shown_key(accounts, from)),
        to,
        to_key: short_key(shown_key(accounts, to)),
        amount,
    }
}

/// What is shown of some pending net transfers: a line for each that does not cancel out.
pub open spec fn pending_lines(
    accounts: Map<usize, AccountView>,
    items: Seq<(Pair, i128)>,
) -> Seq<PendingLineView>
    decreases items.len(),
{
    if items.len() == 0 {
        Seq::empty()
    } else {
        let before = pending_lines(accounts, items.drop_last());
        let (pair, net) = items.last();
        if net == 0 {
            before
        } else {
            before.push(pending_line(accounts, pair, net))
        }
    }
}

/// Whether a report shows a builder's state, with the pending transfers or without.
pub open spec fn reports(report: StateReport, s: BuilderView, show_pending_details: bool) -> bool {
    &&& report.root@ == hex_text(s.root)
    &&& match s.rpc_url {
        None => report.rpc_url is None,
        Some(url) => report.rpc_url matches Some(text) && text@ == url,
    }
    &&& match s.service_id {
        None => report.service_id is None,
        Some(id) => report.service_id matches Some(text) && text@ == service_id_chars(id),
    }
    &&& report.accounts@.map_values(|line: AccountLine| line@) == account_lines(
        s.accounts,
        indices_in_order(s.accounts.dom()),
    )
    &&& report.packages == s.packages.len()
    &&& report.pending_pairs == s.pending.dom().len()
    &&& if show_pending_details {
        &&& report.pending matches Some(lines)
        &&& lines@.map_values(|line: PendingLine| line@) == pending_lines(
            s.accounts,
            entries_in_order(s.pending),
        )
    } else {
        report.pending is None
    }
}

impl BuilderState {
    /// Gathers what is shown of the accounts, by index.
    pub fn account_report(&self) -> (lines: Vec<AccountLine>)
        ensures
            lines@.map_values(|line: AccountLine| line@) == account_lines(
                self@.accounts,
                indices_in_order(self@.accounts.dom()),
            ),
    {
        let ghost accounts = self@.accounts;
        assert(accounts.dom() =~= self.accounts@.dom());
        let keys: Vec<usize> = indices(&self.accounts);
        let mut lines: Vec<AccountLine> = Vec::new();
        let mut i: usize = 0;
        while i < keys.len()
            invariant
                i <= keys@.len(),
                accounts == self@.accounts,
                keys@.to_set() == self.accounts@.dom(),
                lines@.map_values(|line: AccountLine| line@) == account_lines(
                    accounts,
                    keys@.take(i as int),
                ),
            decreases keys@.len() - i,
        {
            let ghost shown = lines@.map_values(|line: AccountLine| line@);
            assert(keys@.to_set().contains(keys@[i as int]));
            match self.accounts.get(&keys[i]) {
                Some(account) => {
                    assert(accounts[keys@[i as int]] == account@);
                    let line = AccountLine {
                        index: keys[i],
                        key: short_key_text(&account.keypair.public_key()),
                        balance: account.balance,
                        nonce: account.nonce,
                    };
                    lines.push(line);
                    assert(lines@.map_values(|line: AccountLine| line@) =~= shown.push(line@));
                },
                None => {},
            }
            assert(account_lines(accounts, keys@.take(i + 1)) =~= account_lines(
                accounts,
                keys@.take(i as int),
            ).push(account_lines(accounts, keys@)[i as int]));
            i += 1;
        }
        assert(keys@.take(keys@.len() as int) =~= keys@);
        lines
    }

    /// The key of an account; zeros where it is not known.
    fn key_to_show(&self, index: usize) -> (key: AccountId)
        ensures
            key@ == shown_key(self@.accounts, index),
    {
        match self.accounts.get(&index) {
            Some(account) => account.keypair.public_key(),
            None => {
                let zero: AccountId = [0u8; 32];
                assert(zero@ =~= zero_root());
                zero
            },
        }
    }

    /// Gathers what is shown of the pending net transfers, by pair.
    pub fn pending_report(&self) -> (lines: Vec<PendingLine>)
        requires
            forall|pair: Pair| #[trigger]
                self@.pending.contains_key(pair) ==> pair.0 < pair.1 || self@.pending[pair]
                    > i128::MIN,
        ensures
            lines@.map_values(|line: PendingLine| line@) == pending_lines(
                self@.accounts,
                entries_in_order(self@.pending),
            ),
    {
        let ghost accounts = self@.accounts;
        let items: Vec<(Pair, i128)> = entries(&self.pending_net_transfers);
        let mut lines: Vec<PendingLine> = Vec::new();
        let mut i: usize = 0;
        assert(lines@.map_values(|line: PendingLine| line@) =~= Seq::empty());
        while i < items.len()
            invariant
                i <= items@.len(),
                accounts == self@.accounts,
                forall|pair: Pair| #[trigger]
                    self@.pending.contains_key(pair) ==> pair.0 < pair.1 || self@.pending[pair]
                        > i128::MIN,
                forall|k: int|
                    0 <= k < items@.len() ==> self@.pending.contains_key((#[trigger] items@[k]).0)
                        && self@.pending[items@[k].0] == items@[k].1,
                lines@.map_values(|line: PendingLine| line@) == pending_lines(
                    accounts,
                    items@.take(i as int),
                ),
            decreases items@.len() - i,
        {
            let ghost shown = lines@.map_values(|line: PendingLine| line@);
            let (pair, net): (Pair, i128) = items[i];
            assert(self@.pending.contains_key(items@[i as int].0));
            assert(items@.take(i + 1).drop_last() =~= items@.take(i as int));
            assert(items@.take(i + 1).last() == items@[i as int]);
            if net != 0 {
                let (from, to, amount): (usize, usize, i128) = canonical_counterpart_delta(
                    pair.0,
                    pair.1,
                    net,
                );
                let line = PendingLine {
                    from,
                    from_key: short_key_text(&self.key_to_show(from)),
                    to,
                    to_key: short_key_text(&self.key_to_show(to)),
                    amount,
                };
                lines.push(line);
                assert(line@ =~= pending_line(accounts, pair, net));
                assert(lines@.map_values(|line: PendingLine| line@) =~= shown.push(line@));
            }
            i += 1;
        }
        assert(items@.take(items@.len() as int) =~= items@);
        lines
    }

    /// Gathers what is shown of the state; the pending transfers are shown on demand.
    pub fn show_state(&self, show_pending_details: bool) -> (report: StateReport)
        requires
            show_pending_details ==> forall|pair: Pair| #[trigger]
                self@.pending.contains_key(pair) ==> pair.0 < pair.1 || self@.pending[pair]
                    > i128::MIN,
        ensures
            reports(report, self@, show_pending_details),
    {
        let service_id: Option<String> = match self.service_id {
            Some(id) => Some(service_id_text(id)),
            None => None,
        };
        let rpc_url: Option<String> = match &self.rpc_url {
            Some(url) => Some(url.clone()),
            None => None,
        };
        let pending: Option<Vec<PendingLine>> = if show_pending_details {
            Some(self.pending_report())
        } else {
            None
        };
        StateReport {
            root: hex_encode(self.current_root.as_slice()),
            rpc_url,
            service_id,
            accounts: self.account_report(),
            packages: self.submitted_packages.len(),
            pending_pairs: self.pending_net_transfers.len(),
            pending,
        }
    }
}

} // verus!
