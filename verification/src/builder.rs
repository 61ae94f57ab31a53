//! The builder's state: accounts, pending transfers and the current root.

use crate::accounts::{fresh_account, new_account, AccountState, AccountView};
use crate::crypto::{blake2b, blake2b_digest};
use crate::errors::{BuilderError, ErrorView};
use crate::ledger::{transfer_views, zero_root, AccountId, StateRoot, Transfer};
use crate::octets::{append_bytes, same_bytes};
use crate::order::{byte_order_is_transitive, bytes_are_ordered, bytes_before, comes_first,
    increasing, increasing_sequence, indices, indices_in_order_are_ordered, one_increasing_sequence,
    strict_order, Pair};
use crate::refinement::{batch_root, compute_batch_root};
use std::collections::BTreeMap;
use vstd::bytes::{spec_u64_to_le_bytes, u64_to_le_bytes};
use vstd::prelude::*;
use vstd::seq_lib::seq_to_set_is_finite;

verus! {

/// The builder's local state.
pub struct BuilderState {
    /// All known accounts, keyed by account index.
    pub accounts: BTreeMap<usize, AccountState>,
    /// Current state root (should match on-chain).
    pub current_root: StateRoot,
    /// Pending net transfers, keyed by sorted pair of account indices. A positive value moves from
    /// the first account to the second, a negative one from the second to the first.
    pub pending_net_transfers: BTreeMap<Pair, i128>,
    /// RPC endpoint URL for the node connection.
    pub rpc_url: Option<String>,
    /// The ledger service's ID.
    pub service_id: Option<u32>,
    /// Hashes of the work packages submitted since the last reset.
    pub submitted_packages: Vec<[u8; 32]>,
}

/// What a [`BuilderState`] holds.
#[verifier::ext_equal]
pub struct BuilderView {
    pub accounts: Map<usize, AccountView>,
    pub root: Seq<u8>,
    pub pending: Map<Pair, i128>,
    pub rpc_url: Option<Seq<char>>,
    pub service_id: Option<u32>,
    pub packages: Seq<Seq<u8>>,
}

/// The views of the accounts of a map.
pub open spec fn account_views(accounts: Map<usize, AccountState>) -> Map<usize, AccountView> {
    accounts.map_values(|account: AccountState| account@)
}

/// The views of some hashes.
pub open spec fn hash_views(hashes: Seq<[u8; 32]>) -> Seq<Seq<u8>> {
    hashes.map_values(|hash: [u8; 32]| hash@)
}

/// The view of a URL that may be missing.
pub open spec fn url_view(url: Option<String>) -> Option<Seq<char>> {
    match url {
        Some(text) => Some(text@),
        None => None,
    }
}

impl View for BuilderState {
    type V = BuilderView;

    open spec fn view(&self) -> BuilderView {
        BuilderView {
            accounts: account_views(self.accounts@),
            root: self.current_root@,
            pending: self.pending_net_transfers@,
            rpc_url: url_view(self.rpc_url),
            service_id: self.service_id,
            packages: hash_views(self.submitted_packages@),
        }
    }
}

/// A builder that knows nothing yet.
pub open spec fn fresh_builder() -> BuilderView {
    BuilderView {
        accounts: Map::empty(),
        root: zero_root(),
        pending: Map::empty(),
        rpc_url: None,
        service_id: None,
        packages: Seq::empty(),
    }
}

impl Default for BuilderState {
    fn default() -> (state: Self)
        ensures
            state@ == fresh_builder(),
    {
        let current_root: StateRoot = [0u8; 32];
        assert(current_root@ =~= zero_root());
        let state = BuilderState {
            accounts: BTreeMap::new(),
            current_root,
            pending_net_transfers: BTreeMap::new(),
            rpc_url: None,
            service_id: None,
            submitted_packages: Vec::new(),
        };
        assert(state@.accounts =~= Map::empty());
        assert(state@.packages =~= Seq::empty());
        state
    }
}

impl Clone for BuilderState {
    fn clone(&self) -> (copy: Self)
        ensures
            copy@ == self@,
    {
        let mut submitted_packages: Vec<[u8; 32]> = Vec::new();
        let mut i: usize = 0;
        while i < self.submitted_packages.len()
            invariant
                i <= self.submitted_packages@.len(),
                submitted_packages@ == self.submitted_packages@.take(i as int),
            decreases self.submitted_packages@.len() - i,
        {
            submitted_packages.push(self.submitted_packages[i]);
            assert(submitted_packages@ =~= self.submitted_packages@.take(i + 1));
            i += 1;
        }
        assert(submitted_packages@ =~= self.submitted_packages@);
        BuilderState {
            accounts: self.accounts.clone(),
            current_root: self.current_root,
            pending_net_transfers: self.pending_net_transfers.clone(),
            rpc_url: self.rpc_url.clone(),
            service_id: self.service_id,
            submitted_packages,
        }
    }
}

/// The bytes that the state root of some accounts is a digest of: every account's key and balance,
/// in the order of `keys`.
pub open spec fn balances_bytes(
    accounts: Map<usize, AccountView>,
    keys: Seq<usize>,
) -> Seq<u8>
    decreases keys.len(),
{
    if keys.len() == 0 {
        Seq::empty()
    } else {
        balances_bytes(accounts, keys.drop_last())
            + accounts[keys.last()].keypair.public_key
            + spec_u64_to_le_bytes(accounts[keys.last()].balance)
    }
}

/// The order of some accounts: by public key, and by index where two keys are equal.
pub open spec fn account_before(accounts: Map<usize, AccountView>, a: usize, b: usize) -> bool {
    let left = accounts[a].keypair.public_key;
    let right = accounts[b].keypair.public_key;
    bytes_before(left, right) || (left == right && a < b)
}

/// The indices of some accounts in the order of their public keys.
pub open spec fn indices_by_key(accounts: Map<usize, AccountView>) -> Seq<usize> {
    choose|s: Seq<usize>|
        increasing(s, |a: usize, b: usize| account_before(accounts, a, b)) && s.to_set()
            == accounts.dom()
}

/// The order of accounts is one in which any two compare.
pub(crate) proof fn lemma_account_order(accounts: Map<usize, AccountView>)
    ensures
        strict_order(|a: usize, b: usize| account_before(accounts, a, b)),
{
    let before = |a: usize, b: usize| account_before(accounts, a, b);
    assert forall|a: usize| !(#[trigger] before(a, a)) by {
        bytes_are_ordered(
            accounts[a].keypair.public_key,
            accounts[a].keypair.public_key,
        );
    }
    assert forall|a: usize, b: usize, c: usize| #[trigger]
        before(a, b) && #[trigger] before(b, c) implies before(a, c) by {
        let x = accounts[a].keypair.public_key;
        let y = accounts[b].keypair.public_key;
        let z = accounts[c].keypair.public_key;
        if bytes_before(x, y) && bytes_before(y, z) {
            byte_order_is_transitive(x, y, z);
        }
    }
    assert forall|a: usize, b: usize| #[trigger] before(a, b) || before(b, a) || a == b by {
        bytes_are_ordered(accounts[a].keypair.public_key, accounts[b].keypair.public_key);
    }
}

/// The order of a finite set of accounts holds all of them, and increases.
pub proof fn accounts_are_ordered(accounts: Map<usize, AccountView>)
    requires
        accounts.dom().finite(),
    ensures
        increasing(
            indices_by_key(accounts),
            |a: usize, b: usize| account_before(accounts, a, b),
        ),
        indices_by_key(accounts).to_set() == accounts.dom(),
{
    let before = |a: usize, b: usize| account_before(accounts, a, b);
    lemma_account_order(accounts);
    let order = increasing_sequence(accounts.dom(), before);
    assert(increasing(order, before) && order.to_set() == accounts.dom());
}

/// The bytes that the state root of some accounts is a digest of.
pub open spec fn state_preimage(accounts: Map<usize, AccountView>) -> Seq<u8> {
    balances_bytes(accounts, indices_by_key(accounts))
}

/// What the state root covers of an account.
#[derive(Clone, Copy)]
struct RootRow {
    index: usize,
    key: AccountId,
    balance: u64,
}

/// Whether a row says what the account at its index holds.
spec fn row_holds(accounts: Map<usize, AccountView>, row: RootRow) -> bool {
    &&& accounts.contains_key(row.index)
    &&& row.key@ == accounts[row.index].keypair.public_key
    &&& row.balance == accounts[row.index].balance
}

/// Whether every one of some rows says what the account at its index holds.
spec fn rows_hold(accounts: Map<usize, AccountView>, rows: Seq<RootRow>) -> bool {
    forall|i: int| 0 <= i < rows.len() ==> row_holds(accounts, #[trigger] rows[i])
}

/// The indices of some rows.
spec fn row_indices(rows: Seq<RootRow>) -> Seq<usize> {
    rows.map_values(|row: RootRow| row.index)
}

/// Tells whether a row comes before another.
fn row_before(a: &RootRow, b: &RootRow, Ghost(accounts): Ghost<Map<usize, AccountView>>) -> (yes:
    bool)
    requires
        row_holds(accounts, *a),
        row_holds(accounts, *b),
    ensures
        yes == account_before(accounts, a.index, b.index),
{
    if comes_first(a.key.as_slice(), b.key.as_slice()) {
        return true;
    }
    a.index < b.index && same_bytes(a.key.as_slice(), b.key.as_slice())
}

/// Finds the place of a row among some that are in order: all before it come before the row.
fn place_of(
    rows: &Vec<RootRow>,
    row: &RootRow,
    Ghost(accounts): Ghost<Map<usize, AccountView>>,
) -> (place: usize)
    requires
        rows_hold(accounts, rows@),
        row_holds(accounts, *row),
        increasing(
            row_indices(rows@),
            |a: usize, b: usize| account_before(accounts, a, b),
        ),
    ensures
        place <= rows@.len(),
        forall|i: int|
            0 <= i < place ==> account_before(accounts, (#[trigger] rows@[i]).index, row.index),
        forall|i: int|
            place <= i < rows@.len() ==> !account_before(
                accounts,
                (#[trigger] rows@[i]).index,
                row.index,
            ),
{
    let ghost before = |a: usize, b: usize| account_before(accounts, a, b);
    let mut low: usize = 0;
    let mut high: usize = rows.len();
    while low < high
        invariant
            low <= high <= rows@.len(),
            before == (|a: usize, b: usize| account_before(accounts, a, b)),
            rows_hold(accounts, rows@),
            row_holds(accounts, *row),
            increasing(row_indices(rows@), before),
            forall|i: int|
                0 <= i < low ==> account_before(accounts, (#[trigger] rows@[i]).index, row.index),
            forall|i: int|
                high <= i < rows@.len() ==> !account_before(
                    accounts,
                    (#[trigger] rows@[i]).index,
                    row.index,
                ),
        decreases high - low,
    {
        let middle: usize = low + (high - low) / 2;
        assert(row_holds(accounts, rows@[middle as int]));
        let ghost at = rows@[middle as int].index;
        proof {
            lemma_account_order(accounts);
        }
        if row_before(&rows[middle], row, Ghost(accounts)) {
            assert forall|i: int| 0 <= i < middle + 1 implies account_before(
                accounts,
                (#[trigger] rows@[i]).index,
                row.index,
            ) by {
                if i < middle {
                    assert(before(row_indices(rows@)[i], row_indices(rows@)[middle as int]));
                    assert(before(rows@[i].index, at) && before(at, row.index));
                }
            }
            low = middle + 1;
        } else {
            assert forall|i: int| middle <= i < rows@.len() implies !account_before(
                accounts,
                (#[trigger] rows@[i]).index,
                row.index,
            ) by {
                if i > middle && account_before(accounts, rows@[i].index, row.index) {
                    assert(before(row_indices(rows@)[middle as int], row_indices(rows@)[i]));
                    assert(before(at, rows@[i].index) && before(rows@[i].index, row.index));
                }
            }
            high = middle;
        }
    }
    low
}

/// One more item in a sequence is one more in its set.
proof fn lemma_push_to_set(items: Seq<usize>, item: usize)
    ensures
        items.push(item).to_set() == items.to_set().insert(item),
{
    assert forall|k: usize| items.push(item).to_set().contains(k) == items.to_set().insert(
        item,
    ).contains(k) by {
        if items.contains(k) {
            let i = choose|i: int| 0 <= i < items.len() && items[i] == k;
            assert(items.push(item)[i] == k);
        }
        assert(items.push(item)[items.len() as int] == item);
    }
    assert(items.push(item).to_set() =~= items.to_set().insert(item));
}

/// Rows in order stay in order as a new one is put in its place.
proof fn lemma_put_in_place(
    accounts: Map<usize, AccountView>,
    rows: Seq<RootRow>,
    row: RootRow,
    place: int,
)
    requires
        0 <= place <= rows.len(),
        increasing(row_indices(rows), |a: usize, b: usize| account_before(accounts, a, b)),
        !row_indices(rows).contains(row.index),
        forall|i: int|
            0 <= i < place ==> account_before(accounts, (#[trigger] rows[i]).index, row.index),
        forall|i: int|
            place <= i < rows.len() ==> !account_before(
                accounts,
                (#[trigger] rows[i]).index,
                row.index,
            ),
    ensures
        increasing(
            row_indices(rows.insert(place, row)),
            |a: usize, b: usize| account_before(accounts, a, b),
        ),
        row_indices(rows.insert(place, row)).to_set() == row_indices(rows).to_set().insert(
            row.index,
        ),
{
    let before = |a: usize, b: usize| account_before(accounts, a, b);
    let old_indices = row_indices(rows);
    let new_indices = row_indices(rows.insert(place, row));
    lemma_account_order(accounts);
    assert(new_indices =~= old_indices.insert(place, row.index));
    assert forall|i: int| place <= i < rows.len() implies before(
        row.index,
        #[trigger] old_indices[i],
    ) by {
        assert(!account_before(accounts, rows[i].index, row.index));
        assert(old_indices.contains(old_indices[i]));
        assert(before(row.index, rows[i].index) || before(rows[i].index, row.index) || row.index
            == rows[i].index);
    }
    assert forall|i: int, j: int| 0 <= i < j < new_indices.len() implies before(
        #[trigger] new_indices[i],
        #[trigger] new_indices[j],
    ) by {
        let left = if i < place {
            i
        } else {
            i - 1
        };
        let right = if j < place {
            j
        } else {
            j - 1
        };
        if i == place {
            assert(new_indices[j] == old_indices[right]);
        } else if j == place {
            assert(new_indices[i] == rows[i].index);
        } else {
            assert(new_indices[i] == old_indices[left] && new_indices[j] == old_indices[right]);
        }
    }
    assert forall|k: usize| new_indices.to_set().contains(k) == old_indices.to_set().insert(
        row.index,
    ).contains(k) by {
        if new_indices.contains(k) {
            let i = choose|i: int| 0 <= i < new_indices.len() && new_indices[i] == k;
            if i < place {
                assert(old_indices[i] == k);
            } else if i > place {
                assert(old_indices[i - 1] == k);
            }
        }
        if k == row.index {
            assert(new_indices[place] == k);
        } else if old_indices.contains(k) {
            let i = choose|i: int| 0 <= i < old_indices.len() && old_indices[i] == k;
            if i < place {
                assert(new_indices[i] == k);
            } else {
                assert(new_indices[i + 1] == k);
            }
        }
    }
    assert(new_indices.to_set() =~= old_indices.to_set().insert(row.index));
}

/// The state root of some accounts.
pub open spec fn state_root(accounts: Map<usize, AccountView>) -> Seq<u8> {
    blake2b_digest(state_preimage(accounts))
}

/// Some accounts, with the one at an index registered if it was not.
pub open spec fn with_registered(
    accounts: Map<usize, AccountView>,
    index: usize,
    balance: u64,
) -> Map<usize, AccountView> {
    if accounts.contains_key(index) {
        accounts
    } else {
        accounts.insert(index, fresh_account(index, balance))
    }
}

/// A builder that starts over with the accounts below `count`, each with the same balance.
pub open spec fn initialised(s: BuilderView, count: usize, balance: u64) -> BuilderView {
    let accounts = Map::new(
        |index: usize| index < count,
        |index: usize| fresh_account(index, balance),
    );
    BuilderView { accounts, root: state_root(accounts), pending: Map::empty(), ..s }
}

impl BuilderState {
    /// Remembers a submitted work package.
    pub fn insert_package(&mut self, package_hash: [u8; 32])
        ensures
            final(self)@ == (BuilderView {
                packages: old(self)@.packages.push(package_hash@),
                ..old(self)@
            }),
    {
        self.submitted_packages.push(package_hash);
        assert(self@.packages =~= old(self)@.packages.push(package_hash@));
    }

    /// Forgets the submitted work packages.
    pub fn clear_packages(&mut self)
        ensures
            final(self)@ == (BuilderView { packages: Seq::empty(), ..old(self)@ }),
    {
        self.submitted_packages.clear();
        assert(self@.packages =~= Seq::empty());
    }

    /// Lists what the state root covers, in the order of the public keys.
    fn root_rows(&self) -> (rows: Vec<RootRow>)
        ensures
            rows_hold(self@.accounts, rows@),
            row_indices(rows@) == indices_by_key(self@.accounts),
    {
        let ghost accounts = self@.accounts;
        let ghost before = |a: usize, b: usize| account_before(accounts, a, b);
        assert(accounts.dom() =~= self.accounts@.dom());
        let keys: Vec<usize> = indices(&self.accounts);
        proof {
            seq_to_set_is_finite(keys@);
            indices_in_order_are_ordered(self.accounts@.dom());
        }
        assert(keys@.no_duplicates());
        let mut rows: Vec<RootRow> = Vec::new();
        let mut i: usize = 0;
        assert(row_indices(rows@).to_set() =~= keys@.take(0).to_set());
        while i < keys.len()
            invariant
                i <= keys@.len(),
                accounts == self@.accounts,
                before == (|a: usize, b: usize| account_before(accounts, a, b)),
                keys@.to_set() == self.accounts@.dom(),
                keys@.no_duplicates(),
                rows_hold(accounts, rows@),
                increasing(row_indices(rows@), before),
                row_indices(rows@).to_set() == keys@.take(i as int).to_set(),
            decreases keys@.len() - i,
        {
            assert(keys@.to_set().contains(keys@[i as int]));
            match self.accounts.get(&keys[i]) {
                Some(account) => {
                    assert(accounts[keys@[i as int]] == account@);
                    let row = RootRow {
                        index: keys[i],
                        key: account.keypair.public_key(),
                        balance: account.balance,
                    };
                    assert(!row_indices(rows@).contains(row.index)) by {
                        if row_indices(rows@).contains(row.index) {
                            assert(row_indices(rows@).to_set().contains(row.index));
                            assert(keys@.take(i as int).contains(row.index));
                            let k = choose|k: int|
                                0 <= k < i && keys@.take(i as int)[k] == row.index;
                            assert(keys@[k] == keys@[i as int]);
                        }
                    }
                    let place: usize = place_of(&rows, &row, Ghost(accounts));
                    proof {
                        lemma_put_in_place(accounts, rows@, row, place as int);
                    }
                    let ghost earlier = rows@;
                    rows.insert(place, row);
                    assert forall|k: int| 0 <= k < rows@.len() implies row_holds(
                        accounts,
                        #[trigger] rows@[k],
                    ) by {
                        if k < place {
                            assert(row_holds(accounts, earlier[k]));
                        } else if k > place {
                            assert(row_holds(accounts, earlier[k - 1]));
                        }
                    }
                    assert(keys@.take(i + 1) =~= keys@.take(i as int).push(row.index));
                    assert(keys@.take(i + 1).to_set() =~= keys@.take(i as int).to_set().insert(
                        row.index,
                    )) by {
                        lemma_push_to_set(keys@.take(i as int), row.index);
                    }
                },
                None => {},
            }
            i += 1;
        }
        assert(keys@.take(keys@.len() as int) =~= keys@);
        proof {
            lemma_account_order(accounts);
            accounts_are_ordered(accounts);
            one_increasing_sequence(row_indices(rows@), indices_by_key(accounts), before);
        }
        rows
    }

    /// Lays out the bytes that the state root is a digest of.
    pub fn state_root_bytes(&self) -> (bytes: Vec<u8>)
        ensures
            bytes@ == state_preimage(self@.accounts),
    {
        let ghost accounts = self@.accounts;
        let rows: Vec<RootRow> = self.root_rows();
        let ghost keys = row_indices(rows@);
        let mut bytes: Vec<u8> = Vec::new();
        let mut i: usize = 0;
        while i < rows.len()
            invariant
                i <= rows@.len(),
                keys == row_indices(rows@),
                rows_hold(accounts, rows@),
                bytes@ == balances_bytes(accounts, keys.take(i as int)),
            decreases rows@.len() - i,
        {
            let row: RootRow = rows[i];
            assert(row_holds(accounts, rows@[i as int]));
            assert(keys.take(i + 1).drop_last() =~= keys.take(i as int));
            assert(keys.take(i + 1).last() == row.index);
            append_bytes(&mut bytes, row.key.as_slice());
            append_bytes(&mut bytes, u64_to_le_bytes(row.balance).as_slice());
            i += 1;
        }
        assert(keys.take(keys.len() as int) =~= keys);
        bytes
    }

    /// Computes the state root from the current balances: the digest of all (account, balance)
    /// pairs, sorted by account, that is, by public key.
    pub fn compute_state_root(&self) -> (root: StateRoot)
        ensures
            root@ == state_root(self@.accounts),
    {
        blake2b(self.state_root_bytes().as_slice())
    }

    /// Computes the root that follows the current one once `transfers` are applied, as the service
    /// does. The transfers count in the order in which they are carried out.
    pub fn compute_batch_root(&self, transfers: &[Transfer]) -> (root: StateRoot)
        requires
            transfers@.len() <= u32::MAX,
        ensures
            root@ == batch_root(self@.root, transfer_views(transfers@)),
    {
        compute_batch_root(&self.current_root, transfers)
    }

    /// Registers the account at an index, with its deterministic keypair, unless it is known.
    /// Tells whether it was registered.
    pub fn register_sender_account(&mut self, index: usize, balance: u64) -> (registered: bool)
        ensures
            registered == !old(self)@.accounts.contains_key(index),
            final(self)@ == (BuilderView {
                accounts: with_registered(old(self)@.accounts, index, balance),
                ..old(self)@
            }),
    {
        if self.accounts.contains_key(&index) {
            return false;
        }
        let account: AccountState = new_account(index, balance);
        self.accounts.insert(index, account);
        assert(self@.accounts =~= old(self)@.accounts.insert(
            index,
            fresh_account(index, balance),
        ));
        true
    }

    /// Starts over with the accounts below `count`, each with the same balance.
    pub fn init_accounts(&mut self, count: usize, balance: u64)
        ensures
            final(self)@ == initialised(old(self)@, count, balance),
    {
        let ghost accounts = Map::new(
            |index: usize| index < count,
            |index: usize| fresh_account(index, balance),
        );
        self.accounts.clear();
        self.pending_net_transfers.clear();
        assert(self@.accounts =~= Map::empty());
        let mut i: usize = 0;
        while i < count
            invariant
                i <= count,
                forall|k: usize| self@.accounts.contains_key(k) <==> k < i,
                forall|k: usize|
                    k < i ==> #[trigger] self@.accounts[k] == fresh_account(k, balance),
                self@ == (BuilderView {
                    accounts: self@.accounts,
                    pending: Map::empty(),
                    ..old(self)@
                }),
            decreases count - i,
        {
            self.register_sender_account(i, balance);
            i += 1;
        }
        assert(self@.accounts =~= accounts);
        self.current_root = self.compute_state_root();
    }
}

/// The pair of two accounts, the smaller index first, and an amount that moves from one to the
/// other as a net transfer of that pair.
pub open spec fn counterpart_delta(from: usize, to: usize, amount: int) -> (Pair, int) {
    if from < to {
        ((from, to), amount)
    } else {
        ((to, from), -amount)
    }
}

/// Sorts a pair of accounts; the amount that moves from one to the other becomes negative where
/// the two change places.
pub fn canonical_counterpart_delta(from: usize, to: usize, amount: i128) -> (delta: (
    usize,
    usize,
    i128,
))
    requires
        from < to || amount > i128::MIN,
    ensures
        ((delta.0, delta.1), delta.2 as int) == counterpart_delta(from, to, amount as int),
{
    if from < to {
        (from, to, amount)
    } else {
        (to, from, -amount)
    }
}

/// The pending net transfer of a pair; zero where there is none.
pub open spec fn pending_net(pending: Map<Pair, i128>, pair: Pair) -> int {
    if pending.contains_key(pair) {
        pending[pair] as int
    } else {
        0
    }
}

/// The net transfer of a pair once one more transfer is queued.
pub open spec fn queued_net(s: BuilderView, from: usize, to: usize, amount: u64) -> int {
    let (pair, delta) = counterpart_delta(from, to, amount as int);
    pending_net(s.pending, pair) + delta
}

/// The builder once a transfer was asked for, and why it was refused, if it was. A recipient that
/// is not known is registered with nothing, even where the transfer is then refused.
pub open spec fn queued(
    s: BuilderView,
    from: usize,
    to: usize,
    amount: u64,
) -> (BuilderView, Result<(), ErrorView>) {
    let accounts = with_registered(s.accounts, to, 0);
    let known = BuilderView { accounts, ..s };
    let sender = accounts[from].keypair.public_key;
    let recipient = accounts[to].keypair.public_key;
    if !s.accounts.contains_key(from) {
        (s, Err(ErrorView::UnknownSender { index: from }))
    } else if sender == recipient {
        (
            known,
            Err(
                ErrorView::SelfTransfer {
                    from_index: from,
                    from: sender,
                    to_index: to,
                    to: recipient,
                },
            ),
        )
    } else if amount == 0 {
        (known, Err(ErrorView::ZeroAmount))
    } else {
        let pair = counterpart_delta(from, to, amount as int).0;
        let net = queued_net(s, from, to, amount) as i128;
        (BuilderView { pending: s.pending.insert(pair, net), ..known }, Ok(()))
    }
}

/// The builder once a pair's pending transfers were to be removed, and why they were not.
pub open spec fn pair_removed(
    s: BuilderView,
    index_a: usize,
    index_b: usize,
) -> (BuilderView, Result<(), ErrorView>) {
    let pair = counterpart_delta(index_a, index_b, 0).0;
    if index_a == index_b {
        (s, Err(ErrorView::SamePair))
    } else if !s.pending.contains_key(pair) {
        (s, Err(ErrorView::NoPendingPair { index_a, index_b }))
    } else {
        (BuilderView { pending: s.pending.remove(pair), ..s }, Ok(()))
    }
}

/// What a result says.
pub open spec fn outcome_view(result: Result<(), BuilderError>) -> Result<(), ErrorView> {
    match result {
        Ok(_) => Ok(()),
        Err(error) => Err(error@),
    }
}

/// Whether the net transfer of a pair stays in its range once one more transfer is queued.
pub open spec fn queue_fits(s: BuilderView, from: usize, to: usize, amount: u64) -> bool {
    s.accounts.contains_key(from) && from != to ==> i128::MIN <= queued_net(s, from, to, amount)
        <= i128::MAX
}

impl BuilderState {
    /// Tells whether the net transfer of a pair stays in its range once one more transfer is
    /// queued.
    pub fn can_queue(&self, from_index: usize, to_index: usize, amount: u64) -> (fits: bool)
        ensures
            fits == queue_fits(self@, from_index, to_index, amount),
    {
        if !self.accounts.contains_key(&from_index) || from_index == to_index {
            return true;
        }
        let (a, b, delta) = canonical_counterpart_delta(from_index, to_index, amount as i128);
        match self.pending_net_transfers.get(&(a, b)) {
            Some(pending) => pending.checked_add(delta).is_some(),
            None => true,
        }
    }

    /// Queues a transfer. Transfers are aggregated by pair of accounts and netted.
    pub fn queue_transfer(
        &mut self,
        from_index: usize,
        to_index: usize,
        amount: u64,
    ) -> (result: Result<(), BuilderError>)
        requires
            queue_fits(old(self)@, from_index, to_index, amount),
        ensures
            (final(self)@, outcome_view(result)) == queued(
                old(self)@,
                from_index,
                to_index,
                amount,
            ),
    {
        // Only send from accounts whose keypair is known.
        let from: AccountId = match self.accounts.get(&from_index) {
            Some(account) => account.keypair.public_key(),
            None => {
                return Err(BuilderError::UnknownSender { index: from_index });
            },
        };
        let ghost before = self@;
        // Unknown recipients are registered with nothing.
        self.register_sender_account(to_index, 0);
        let ghost known = self@;
        let to: AccountId = match self.accounts.get(&to_index) {
            Some(account) => account.keypair.public_key(),
            None => {
                // It was registered just above.
                assert(known.accounts.contains_key(to_index));
                from
            },
        };
        if same_bytes(from.as_slice(), to.as_slice()) {
            return Err(BuilderError::SelfTransfer { from_index, from, to_index, to });
        }
        if amount == 0 {
            return Err(BuilderError::ZeroAmount);
        }
        let (a, b, delta) = canonical_counterpart_delta(from_index, to_index, amount as i128);
        let net: i128 = match self.pending_net_transfers.get(&(a, b)) {
            Some(pending) => *pending + delta,
            None => delta,
        };
        self.pending_net_transfers.insert((a, b), net);
        assert(self@.accounts == known.accounts);
        Ok(())
    }

    /// Removes the pending net transfer between two accounts, in whichever order they are given.
    pub fn remove_pending_pair(&mut self, index_a: usize, index_b: usize) -> (result: Result<
        (),
        BuilderError,
    >)
        ensures
            (final(self)@, outcome_view(result)) == pair_removed(old(self)@, index_a, index_b),
    {
        if index_a == index_b {
            return Err(BuilderError::SamePair);
        }
        let (a, b, _) = canonical_counterpart_delta(index_a, index_b, 0);
        if self.pending_net_transfers.remove(&(a, b)).is_none() {
            assert(self@.pending =~= old(self)@.pending);
            return Err(BuilderError::NoPendingPair { index_a, index_b });
        }
        Ok(())
    }
}

} // verus!
