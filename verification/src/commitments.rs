//! What roots, signed messages and packages commit to: everything that they are made from can be
//! read back from the bytes that are hashed, signed or sent.

use crate::accounts::{fresh_account, indexed_seed, keypair_of, AccountView};
use crate::builder::{account_before, accounts_are_ordered, balances_bytes, indices_by_key,
    initialised, lemma_account_order, state_preimage, state_root, BuilderView};
use crate::chain::reset_payload;
use crate::codec::{natural, naturals_are_laid_out, naturals_are_read_back, parse_natural,
    parse_transfers, transfer_stands_at, transfers_bytes, transfers_round_trip,
    transfers_stand_in_turn};
use crate::crypto::{blake2b_digest, ed25519_accepts, ed25519_public_key, ed25519_signature};
use crate::laws::initialising_makes_consistent;
use crate::ledger::{all_sized, PayloadView, TransferView};
use crate::order::{bytes_are_ordered, bytes_before, one_increasing_sequence};
use crate::refinement::{admin_seed, batch_root, reset_message, signed_by_admin,
    signed_by_sender, transfer_message, transfer_preimage};
use crate::submission::{chain_hash, package_bytes, planned, ChainContextView, PackagePlan};
use vstd::bytes::{lemma_auto_spec_u16_to_from_le_bytes, lemma_auto_spec_u32_to_from_le_bytes,
    lemma_auto_spec_u64_to_from_le_bytes, spec_u16_from_le_bytes, spec_u32_from_le_bytes,
    spec_u64_from_le_bytes, spec_u64_to_le_bytes};
use vstd::prelude::*;

verus! {

// ---------------------------------------------------------------------------------------------
// Batches

/// Whether some bytes hold a root and then a list of transfers, all of it and nothing else.
pub open spec fn holds_batch(bytes: Seq<u8>, root: Seq<u8>, ts: Seq<TransferView>) -> bool {
    let head = bytes.len() - 144 * ts.len();
    &&& 33 <= head <= 37
    &&& bytes.take(32) == root
    &&& parse_natural(bytes.skip(32)) == Some((ts.len(), (head - 32) as nat))
    &&& parse_transfers(bytes.skip(32)) == Some(ts)
    &&& forall|i: int|
        0 <= i < ts.len() ==> transfer_stands_at(bytes, head + 144 * i, #[trigger] ts[i])
}

/// The root that follows a batch is the digest of bytes that hold the old root and every transfer
/// of the batch.
pub proof fn batch_roots_cover_the_batch(old_root: Seq<u8>, ts: Seq<TransferView>)
    requires
        old_root.len() == 32,
        ts.len() <= u32::MAX,
        all_sized(ts),
    ensures
        exists|bytes: Seq<u8>| #[trigger]
            holds_batch(bytes, old_root, ts) && batch_root(old_root, ts) == blake2b_digest(bytes),
{
    let list = transfers_bytes(ts);
    let bytes = old_root + list;
    let head = list.len() - 144 * ts.len();
    transfers_stand_in_turn(ts);
    transfers_round_trip(ts, Seq::empty());
    assert(list + Seq::empty() =~= list);
    assert(bytes.take(32) =~= old_root);
    assert(bytes.skip(32) =~= list);
    assert forall|i: int| 0 <= i < ts.len() implies transfer_stands_at(
        bytes,
        32 + head + 144 * i,
        #[trigger] ts[i],
    ) by {
        let at = head + 144 * i;
        assert(transfer_stands_at(list, at, ts[i]));
        assert(bytes.subrange(32 + at, 32 + at + 32) =~= list.subrange(at, at + 32));
        assert(bytes.subrange(32 + at + 32, 32 + at + 64) =~= list.subrange(at + 32, at + 64));
        assert(bytes.subrange(32 + at + 64, 32 + at + 72) =~= list.subrange(at + 64, at + 72));
        assert(bytes.subrange(32 + at + 72, 32 + at + 80) =~= list.subrange(at + 72, at + 80));
        assert(bytes.subrange(32 + at + 80, 32 + at + 144) =~= list.subrange(at + 80, at + 144));
    }
    assert(holds_batch(bytes, old_root, ts));
}

/// Bytes that hold a root and a batch hold no other.
pub proof fn held_batches_are_told_apart(
    bytes: Seq<u8>,
    root_a: Seq<u8>,
    a: Seq<TransferView>,
    root_b: Seq<u8>,
    b: Seq<TransferView>,
)
    requires
        holds_batch(bytes, root_a, a),
        holds_batch(bytes, root_b, b),
    ensures
        root_a == root_b,
        a == b,
{
}

// ---------------------------------------------------------------------------------------------
// Signed messages

/// Whether some bytes hold what a transfer's sender signs: who pays whom, the nonce and the amount.
pub open spec fn holds_order(
    bytes: Seq<u8>,
    from: Seq<u8>,
    to: Seq<u8>,
    nonce: u64,
    amount: u64,
) -> bool {
    &&& bytes.len() == 80
    &&& bytes.subrange(0, 32) == from
    &&& bytes.subrange(32, 64) == to
    &&& spec_u64_from_le_bytes(bytes.subrange(64, 72)) == nonce
    &&& spec_u64_from_le_bytes(bytes.subrange(72, 80)) == amount
}

/// The bytes that a transfer's sender signs the digest of hold the whole order.
pub proof fn signed_bytes_hold_the_order(
    from: Seq<u8>,
    to: Seq<u8>,
    nonce: u64,
    amount: u64,
)
    requires
        from.len() == 32,
        to.len() == 32,
    ensures
        holds_order(transfer_preimage(from, to, nonce, amount), from, to, nonce, amount),
        transfer_message(from, to, nonce, amount) == blake2b_digest(
            transfer_preimage(from, to, nonce, amount),
        ),
{
    lemma_auto_spec_u64_to_from_le_bytes();
    let bytes = transfer_preimage(from, to, nonce, amount);
    assert(bytes.subrange(0, 32) =~= from);
    assert(bytes.subrange(32, 64) =~= to);
    assert(bytes.subrange(64, 72) =~= spec_u64_to_le_bytes(nonce));
    assert(bytes.subrange(72, 80) =~= spec_u64_to_le_bytes(amount));
}

/// A transfer is signed where its sender's key accepts its signature on the digest of bytes that
/// hold who pays whom, the nonce and the amount.
pub proof fn signatures_cover_the_transfer(t: TransferView)
    requires
        t.sized(),
    ensures
        exists|bytes: Seq<u8>| #[trigger]
            holds_order(bytes, t.from, t.to, t.nonce, t.amount) && (signed_by_sender(t)
                <==> ed25519_accepts(t.from, t.signature, blake2b_digest(bytes))),
{
    signed_bytes_hold_the_order(t.from, t.to, t.nonce, t.amount);
    let bytes = transfer_preimage(t.from, t.to, t.nonce, t.amount);
    assert(holds_order(bytes, t.from, t.to, t.nonce, t.amount));
}

/// A reset is authorized where the administrator's key accepts its signature on the digest of the
/// root. That key grows from the word `admin`, filled up with zeros.
pub proof fn reset_signatures_cover_the_root(root: Seq<u8>, signature: Seq<u8>)
    ensures
        ({
            let seed = Seq::new(
                32,
                |i: int|
                    if i == 0 {
                        97u8
                    } else if i == 1 {
                        100u8
                    } else if i == 2 {
                        109u8
                    } else if i == 3 {
                        105u8
                    } else if i == 4 {
                        110u8
                    } else {
                        0u8
                    },
            );
            &&& admin_seed() == seed
            &&& reset_message(root) == blake2b_digest(root)
            &&& signed_by_admin(root, signature) <==> ed25519_accepts(
                ed25519_public_key(seed),
                signature,
                blake2b_digest(root),
            )
        }),
{
    assert(admin_seed() =~= Seq::new(
        32,
        |i: int|
            if i == 0 {
                97u8
            } else if i == 1 {
                100u8
            } else if i == 2 {
                109u8
            } else if i == 3 {
                105u8
            } else if i == 4 {
                110u8
            } else {
                0u8
            },
    ));
}

/// A keypair's signing key is the seed that it grows from, and its public key is that seed's.
pub proof fn keypairs_grow_from_their_seed(seed: Seq<u8>)
    ensures
        keypair_of(seed).signing_key == seed,
        keypair_of(seed).public_key == ed25519_public_key(seed),
{
}

/// The builder orders a reset to its root with the administrator's signature on that root's digest.
pub proof fn ordered_resets_are_signed(root: Seq<u8>)
    ensures
        reset_payload(root) == (PayloadView::Reset {
            new_root: root,
            signature: ed25519_signature(admin_seed(), blake2b_digest(root)),
        }),
{
}

/// An account's keys grow from 32 bytes that hold its index, and nothing else.
pub proof fn account_keys_grow_from_the_index(index: usize, balance: u64)
    ensures
        ({
            let account = fresh_account(index, balance);
            let seed = account.keypair.signing_key;
            &&& account.balance == balance
            &&& account.nonce == 0
            &&& account.keypair.public_key == ed25519_public_key(seed)
            &&& seed.len() == 32
            &&& spec_u64_from_le_bytes(seed.take(8)) == index
            &&& forall|i: int| 8 <= i < 32 ==> #[trigger] seed[i] == 0
        }),
{
    lemma_auto_spec_u64_to_from_le_bytes();
    assert(indexed_seed(index).take(8) =~= spec_u64_to_le_bytes(index as u64));
}

// ---------------------------------------------------------------------------------------------
// State roots

/// Byte strings are ordered by the first byte in which they differ; one that the other starts with
/// comes first.
pub proof fn byte_order_is_by_the_first_difference(a: Seq<u8>, b: Seq<u8>, at: int)
    requires
        0 <= at <= a.len(),
        at < b.len(),
        a.take(at) == b.take(at),
        at == a.len() || a[at] < b[at],
    ensures
        bytes_before(a, b),
        !bytes_before(b, a),
    decreases at,
{
    bytes_are_ordered(a, b);
    if at > 0 {
        assert(a[0] == a.take(at)[0] && b[0] == b.take(at)[0]);
        let left = a.drop_first();
        let right = b.drop_first();
        assert(left.take(at - 1) =~= a.take(at).drop_first());
        assert(right.take(at - 1) =~= b.take(at).drop_first());
        byte_order_is_by_the_first_difference(left, right, at - 1);
    }
}

/// Whether an account's key and balance stand at a position among some bytes.
pub open spec fn account_stands_at(bytes: Seq<u8>, at: int, account: AccountView) -> bool {
    &&& 0 <= at
    &&& at + 40 <= bytes.len()
    &&& bytes.subrange(at, at + 32) == account.keypair.public_key
    &&& spec_u64_from_le_bytes(bytes.subrange(at + 32, at + 40)) == account.balance
}

/// Whether some bytes hold every account's key and balance in the order of the keys, and nothing
/// else. `order` lists the accounts' indices as they come.
pub open spec fn holds_accounts(
    bytes: Seq<u8>,
    accounts: Map<usize, AccountView>,
    order: Seq<usize>,
) -> bool {
    &&& order.no_duplicates()
    &&& order.to_set() == accounts.dom()
    &&& bytes.len() == 40 * order.len()
    &&& forall|k: int|
        0 <= k < order.len() ==> account_stands_at(bytes, 40 * k, accounts[#[trigger] order[k]])
    &&& forall|k: int, l: int|
        #![trigger order[k], order[l]]
        0 <= k < l < order.len() ==> {
            let left = accounts[order[k]].keypair.public_key;
            let right = accounts[order[l]].keypair.public_key;
            !bytes_before(right, left)
        }
}

/// Whether every account's key is 32 bytes long.
pub open spec fn keys_sized(accounts: Map<usize, AccountView>) -> bool {
    forall|index: usize|
        accounts.contains_key(index) ==> (#[trigger] accounts[index]).keypair.public_key.len() == 32
}

/// Keys and balances stand one after the other, 40 bytes each.
proof fn lemma_balances_stand(accounts: Map<usize, AccountView>, keys: Seq<usize>)
    requires
        keys_sized(accounts),
        forall|k: int| 0 <= k < keys.len() ==> accounts.contains_key(#[trigger] keys[k]),
    ensures
        balances_bytes(accounts, keys).len() == 40 * keys.len(),
        forall|k: int|
            0 <= k < keys.len() ==> account_stands_at(
                balances_bytes(accounts, keys),
                40 * k,
                accounts[#[trigger] keys[k]],
            ),
    decreases keys.len(),
{
    if keys.len() > 0 {
        lemma_auto_spec_u64_to_from_le_bytes();
        let rest = keys.drop_last();
        let n = rest.len();
        assert forall|k: int| 0 <= k < rest.len() implies accounts.contains_key(
            #[trigger] rest[k],
        ) by {
            assert(rest[k] == keys[k]);
        }
        lemma_balances_stand(accounts, rest);
        let before = balances_bytes(accounts, rest);
        let bytes = balances_bytes(accounts, keys);
        let last = accounts[keys[n as int]];
        assert(accounts.contains_key(keys[n as int]));
        assert(last.keypair.public_key.len() == 32);
        assert forall|k: int| 0 <= k < keys.len() implies account_stands_at(
            bytes,
            40 * k,
            accounts[#[trigger] keys[k]],
        ) by {
            if k < n {
                assert(rest[k] == keys[k]);
                assert(account_stands_at(before, 40 * k, accounts[rest[k]]));
                assert(bytes.subrange(40 * k, 40 * k + 32) =~= before.subrange(40 * k, 40 * k + 32));
                assert(bytes.subrange(40 * k + 32, 40 * k + 40) =~= before.subrange(
                    40 * k + 32,
                    40 * k + 40,
                ));
            } else {
                assert(bytes.subrange(40 * k, 40 * k + 32) =~= last.keypair.public_key);
                assert(bytes.subrange(40 * k + 32, 40 * k + 40) =~= spec_u64_to_le_bytes(
                    last.balance,
                ));
            }
        }
    }
}

/// The bytes that the state root of some accounts is the digest of hold every account's key and
/// whole balance, in the order of the keys.
pub proof fn state_roots_cover_the_accounts(accounts: Map<usize, AccountView>)
    requires
        accounts.dom().finite(),
        keys_sized(accounts),
    ensures
        holds_accounts(state_preimage(accounts), accounts, indices_by_key(accounts)),
        state_preimage(accounts).len() == 40 * accounts.dom().len(),
        state_root(accounts) == blake2b_digest(state_preimage(accounts)),
{
    let order = indices_by_key(accounts);
    let before = |a: usize, b: usize| account_before(accounts, a, b);
    accounts_are_ordered(accounts);
    assert forall|k: int| 0 <= k < order.len() implies accounts.contains_key(
        #[trigger] order[k],
    ) by {
        assert(order.to_set().contains(order[k]));
    }
    assert forall|k: int, l: int|
        #![trigger order[k], order[l]]
        0 <= k < l < order.len() implies order[k] != order[l] && !bytes_before(
        accounts[order[l]].keypair.public_key,
        accounts[order[k]].keypair.public_key,
    ) by {
        assert(before(order[k], order[l]));
        bytes_are_ordered(
            accounts[order[k]].keypair.public_key,
            accounts[order[l]].keypair.public_key,
        );
    }
    assert(order.no_duplicates());
    order.unique_seq_to_set();
    lemma_balances_stand(accounts, order);
}

/// Accounts with the same keys at the same indices come in the same order.
proof fn lemma_same_order(a: Map<usize, AccountView>, b: Map<usize, AccountView>)
    requires
        a.dom().finite(),
        a.dom() == b.dom(),
        forall|index: usize|
            a.contains_key(index) ==> (#[trigger] a[index]).keypair.public_key
                == b[index].keypair.public_key,
    ensures
        indices_by_key(a) == indices_by_key(b),
{
    let left = indices_by_key(a);
    let right = indices_by_key(b);
    let in_a = |x: usize, y: usize| account_before(a, x, y);
    let in_b = |x: usize, y: usize| account_before(b, x, y);
    accounts_are_ordered(a);
    accounts_are_ordered(b);
    assert forall|i: int, j: int| 0 <= i < j < right.len() implies in_a(
        #[trigger] right[i],
        #[trigger] right[j],
    ) by {
        assert(right.to_set().contains(right[i]));
        assert(right.to_set().contains(right[j]));
        assert(in_b(right[i], right[j]));
        assert(a[right[i]].keypair.public_key == b[right[i]].keypair.public_key);
        assert(a[right[j]].keypair.public_key == b[right[j]].keypair.public_key);
    }
    lemma_account_order(a);
    one_increasing_sequence(left, right, in_a);
}

/// Where the bytes that two state roots are digests of are the same, and so are the accounts' keys,
/// every balance is the same.
pub proof fn state_roots_tell_balances_apart(
    a: Map<usize, AccountView>,
    b: Map<usize, AccountView>,
    index: usize,
)
    requires
        a.dom().finite(),
        a.dom() == b.dom(),
        keys_sized(a),
        forall|index: usize|
            a.contains_key(index) ==> (#[trigger] a[index]).keypair.public_key
                == b[index].keypair.public_key,
        state_preimage(a) == state_preimage(b),
        a.contains_key(index),
    ensures
        a[index].balance == b[index].balance,
{
    let order = indices_by_key(a);
    assert forall|i: usize| b.contains_key(i) implies (
    #[trigger] b[i]).keypair.public_key.len() == 32 by {
        assert(a[i].keypair.public_key.len() == 32);
    }
    lemma_same_order(a, b);
    state_roots_cover_the_accounts(a);
    state_roots_cover_the_accounts(b);
    assert(order.to_set().contains(index));
    let k = choose|k: int| 0 <= k < order.len() && order[k] == index;
    assert(account_stands_at(state_preimage(a), 40 * k, a[order[k]]));
    assert(account_stands_at(state_preimage(b), 40 * k, b[order[k]]));
}

/// A builder that starts over has the accounts below a count and no others, each with the same
/// balance and nothing sent; nothing is pending, and its root is the digest of bytes that hold
/// just these accounts. What else it knows it keeps.
pub proof fn initialised_builder_commits_to_its_accounts(
    s: BuilderView,
    count: usize,
    balance: u64,
)
    ensures
        ({
            let after = initialised(s, count, balance);
            &&& forall|index: usize| #[trigger]
                after.accounts.contains_key(index) <==> index < count
            &&& forall|index: usize|
                index < count ==> {
                    let account = #[trigger] after.accounts[index];
                    &&& account.balance == balance
                    &&& account.nonce == 0
                    &&& account.keypair.signing_key.len() == 32
                    &&& spec_u64_from_le_bytes(account.keypair.signing_key.take(8)) == index
                    &&& account.keypair.public_key == ed25519_public_key(
                        account.keypair.signing_key,
                    )
                }
            &&& after.pending == Map::<(usize, usize), i128>::empty()
            &&& after.rpc_url == s.rpc_url
            &&& after.service_id == s.service_id
            &&& after.packages == s.packages
            &&& keys_sized(after.accounts) ==> exists|
                bytes: Seq<u8>,
                order: Seq<usize>,
            | #[trigger]
                holds_accounts(bytes, after.accounts, order) && after.root == blake2b_digest(bytes)
        }),
{
    let after = initialised(s, count, balance);
    assert forall|index: usize| index < count implies ({
        let account = #[trigger] after.accounts[index];
        &&& account.balance == balance
        &&& account.nonce == 0
        &&& account.keypair.signing_key.len() == 32
        &&& spec_u64_from_le_bytes(account.keypair.signing_key.take(8)) == index
        &&& account.keypair.public_key == ed25519_public_key(account.keypair.signing_key)
    }) by {
        account_keys_grow_from_the_index(index, balance);
    }
    initialising_makes_consistent(s, count, balance);
    if keys_sized(after.accounts) {
        state_roots_cover_the_accounts(after.accounts);
        assert(holds_accounts(
            state_preimage(after.accounts),
            after.accounts,
            indices_by_key(after.accounts),
        ));
    }
}

// ---------------------------------------------------------------------------------------------
// Packages

/// A planned package is for the service it was planned for and carries the whole payload; its work
/// item names the extrinsic that is submitted with it, by the hash of all of it and by its length.
/// The segments to export are announced unless the extrinsic is larger than one.
pub proof fn planned_packages_name_what_they_carry(
    service: u32,
    code_hash: Seq<u8>,
    payload: Seq<u8>,
    extrinsic: Seq<u8>,
    export_count: u16,
    refine_gas_limit: u64,
    accumulate_gas_limit: u64,
    authorizer_hash: Seq<u8>,
    context: ChainContextView,
)
    ensures
        ({
            let plan = planned(
                service,
                code_hash,
                payload,
                extrinsic,
                export_count,
                refine_gas_limit,
                accumulate_gas_limit,
                authorizer_hash,
                context,
            );
            &&& plan.service == service
            &&& plan.code_hash == code_hash
            &&& plan.payload == payload
            &&& plan.extrinsic_hash == chain_hash(extrinsic)
            &&& extrinsic.len() <= u32::MAX ==> plan.extrinsic_len == extrinsic.len()
            &&& (extrinsic.len() - plan.extrinsic_len) % 0x1_0000_0000 == 0
            &&& extrinsic.len() <= 4104 ==> plan.export_count == export_count
            &&& extrinsic.len() > 4104 ==> plan.export_count == 0
            &&& plan.refine_gas_limit == refine_gas_limit
            &&& plan.accumulate_gas_limit == accumulate_gas_limit
            &&& plan.auth_code_host == 0
            &&& plan.authorizer_hash == authorizer_hash
            &&& plan.context == context
        }),
{
}

/// Where everything that a package says stands among its bytes. Behind the context come no
/// prerequisites, no authorization and no authorizer configuration; the one work item has no
/// imports and one extrinsic.
pub proof fn packages_are_laid_out(plan: PackagePlan)
    requires
        plan.payload@.len() <= u32::MAX,
    ensures
        ({
            let bytes = package_bytes(plan@);
            let end = bytes.len() as int;
            let payload_at = end - 38 - plan.payload@.len();
            &&& spec_u32_from_le_bytes(bytes.subrange(0, 4)) == plan.auth_code_host
            &&& bytes.subrange(4, 36) == plan.authorizer_hash@
            &&& bytes.subrange(36, 68) == plan.context.anchor@
            &&& bytes.subrange(68, 100) == plan.context.state_root@
            &&& bytes.subrange(100, 132) == plan.context.beefy_root@
            &&& bytes.subrange(132, 164) == plan.context.lookup_anchor@
            &&& spec_u32_from_le_bytes(bytes.subrange(164, 168)) == plan.context.lookup_anchor_slot
            &&& bytes.subrange(168, 172) == seq![0u8, 0u8, 0u8, 1u8]
            &&& spec_u32_from_le_bytes(bytes.subrange(172, 176)) == plan.service
            &&& bytes.subrange(176, 208) == plan.code_hash@
            &&& spec_u64_from_le_bytes(bytes.subrange(208, 216)) == plan.refine_gas_limit
            &&& spec_u64_from_le_bytes(bytes.subrange(216, 224)) == plan.accumulate_gas_limit
            &&& spec_u16_from_le_bytes(bytes.subrange(224, 226)) == plan.export_count
            &&& 227 <= payload_at
            &&& parse_natural(bytes.skip(226)) == Some(
                (plan.payload@.len(), (payload_at - 226) as nat),
            )
            &&& bytes.subrange(payload_at, end - 38) == plan.payload@
            &&& bytes.subrange(end - 38, end - 36) == seq![0u8, 1u8]
            &&& bytes.subrange(end - 36, end - 4) == plan.extrinsic_hash@
            &&& spec_u32_from_le_bytes(bytes.subrange(end - 4, end)) == plan.extrinsic_len
        }),
{
    lemma_auto_spec_u16_to_from_le_bytes();
    lemma_auto_spec_u32_to_from_le_bytes();
    lemma_auto_spec_u64_to_from_le_bytes();
    naturals_are_laid_out(0);
    naturals_are_laid_out(1);
    let n = plan.payload@.len();
    let count = natural(n);
    naturals_are_laid_out(n);
    let bytes = package_bytes(plan@);
    let end = bytes.len() as int;
    let payload_at = end - 38 - n;
    assert(natural(0) == seq![0u8]);
    assert(natural(1) == seq![1u8]);
    assert(end == 226 + count.len() + n + 38);
    assert(bytes.subrange(0, 4) =~= vstd::bytes::spec_u32_to_le_bytes(plan.auth_code_host));
    assert(bytes.subrange(4, 36) =~= plan.authorizer_hash@);
    assert(bytes.subrange(36, 68) =~= plan.context.anchor@);
    assert(bytes.subrange(68, 100) =~= plan.context.state_root@);
    assert(bytes.subrange(100, 132) =~= plan.context.beefy_root@);
    assert(bytes.subrange(132, 164) =~= plan.context.lookup_anchor@);
    assert(bytes.subrange(164, 168) =~= vstd::bytes::spec_u32_to_le_bytes(
        plan.context.lookup_anchor_slot,
    ));
    assert(bytes.subrange(168, 172) =~= seq![0u8, 0u8, 0u8, 1u8]);
    assert(bytes.subrange(172, 176) =~= vstd::bytes::spec_u32_to_le_bytes(plan.service));
    assert(bytes.subrange(176, 208) =~= plan.code_hash@);
    assert(bytes.subrange(208, 216) =~= spec_u64_to_le_bytes(plan.refine_gas_limit));
    assert(bytes.subrange(216, 224) =~= spec_u64_to_le_bytes(plan.accumulate_gas_limit));
    assert(bytes.subrange(224, 226) =~= vstd::bytes::spec_u16_to_le_bytes(plan.export_count));
    let tail = bytes.skip(226 + count.len() as int);
    assert(bytes.skip(226) =~= count + tail);
    naturals_are_read_back(n, tail);
    assert(bytes.subrange(payload_at, end - 38) =~= plan.payload@);
    assert(bytes.subrange(end - 38, end - 36) =~= seq![0u8, 1u8]);
    assert(bytes.subrange(end - 36, end - 4) =~= plan.extrinsic_hash@);
    assert(bytes.subrange(end - 4, end) =~= vstd::bytes::spec_u32_to_le_bytes(
        plan.extrinsic_len,
    ));
}

/// Packages of one encoding say the same.
pub proof fn packages_are_told_apart(a: PackagePlan, b: PackagePlan)
    requires
        a.payload@.len() <= u32::MAX,
        b.payload@.len() <= u32::MAX,
        package_bytes(a@) == package_bytes(b@),
    ensures
        a@ == b@,
{
    packages_are_laid_out(a);
    packages_are_laid_out(b);
}

} // verus!
