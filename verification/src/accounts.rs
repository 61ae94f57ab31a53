//! Keys and accounts.

use crate::crypto::{ed25519_accepts, ed25519_public_key, ed25519_signature, public_key_of,
    sign_message};
use crate::ledger::AccountId;
use crate::refinement::{admin_seed, admin_seed_bytes};
use vstd::bytes::{spec_u64_to_le_bytes, u64_to_le_bytes};
use vstd::prelude::*;

verus! {

/// A keypair for signing. Its public key is always that of its signing key.
#[derive(Clone, Copy, Debug)]
pub struct Keypair {
    /// The byte encoding of the signing key: the seed that it grows from.
    pub(crate) signing_key: [u8; 32],
    /// The public key.
    pub(crate) public_key: AccountId,
}

/// What a [`Keypair`] holds.
#[verifier::ext_equal]
pub struct KeypairView {
    pub signing_key: Seq<u8>,
    pub public_key: Seq<u8>,
}

impl View for Keypair {
    type V = KeypairView;

    closed spec fn view(&self) -> KeypairView {
        KeypairView { signing_key: self.signing_key@, public_key: self.public_key@ }
    }
}

/// The keypair that grows from a seed.
pub open spec fn keypair_of(seed: Seq<u8>) -> KeypairView {
    KeypairView { signing_key: seed, public_key: ed25519_public_key(seed) }
}

impl Keypair {
    #[verifier::type_invariant]
    spec fn keys_belong_together(self) -> bool {
        self.public_key@ == ed25519_public_key(self.signing_key@)
    }

    /// Creates a keypair from a 32-byte seed.
    pub fn from_seed(seed: &[u8; 32]) -> (keypair: Self)
        ensures
            keypair@ == keypair_of(seed@),
    {
        let public_key: AccountId = public_key_of(seed);
        Keypair { signing_key: *seed, public_key }
    }

    /// Signs a message.
    pub fn sign(&self, message: &[u8]) -> (signature: [u8; 64])
        ensures
            signature@ == ed25519_signature(self@.signing_key, message@),
            ed25519_accepts(self@.public_key, signature@, message@),
    {
        proof {
            use_type_invariant(self);
        }
        sign_message(&self.signing_key, message)
    }

    /// The public key.
    pub fn public_key(&self) -> (key: AccountId)
        ensures
            key@ == self@.public_key,
    {
        self.public_key
    }

    /// The byte encoding of the signing key.
    pub fn signing_key(&self) -> (key: [u8; 32])
        ensures
            key@ == self@.signing_key,
    {
        self.signing_key
    }
}

/// The seed of the account at an index: the index, then zeros.
pub open spec fn indexed_seed(index: usize) -> Seq<u8> {
    spec_u64_to_le_bytes(index as u64) + Seq::new(24, |i: int| 0u8)
}

/// Lays out the seed of the account at an index.
pub fn indexed_seed_bytes(index: usize) -> (seed: [u8; 32])
    ensures
        seed@ == indexed_seed(index),
{
    let low: Vec<u8> = u64_to_le_bytes(index as u64);
    let mut seed: [u8; 32] = [0u8; 32];
    let mut i: usize = 0;
    while i < 8
        invariant
            i <= 8,
            low@.len() == 8,
            forall|k: int| 0 <= k < i ==> seed@[k] == low@[k],
            forall|k: int| i <= k < 32 ==> seed@[k] == 0,
        decreases 8 - i,
    {
        seed[i] = low[i];
        i += 1;
    }
    assert(seed@ =~= indexed_seed(index));
    seed
}

/// Generates the deterministic keypair of the account at an index.
pub fn generate_keypair(index: usize) -> (keypair: Keypair)
    ensures
        keypair@ == keypair_of(indexed_seed(index)),
{
    Keypair::from_seed(&indexed_seed_bytes(index))
}

/// The administrator's keypair, deterministic for reproducibility.
pub fn admin_keypair() -> (keypair: Keypair)
    ensures
        keypair@ == keypair_of(admin_seed()),
{
    Keypair::from_seed(&admin_seed_bytes())
}

/// What the builder knows of an account.
#[derive(Clone, Debug)]
pub struct AccountState {
    pub keypair: Keypair,
    pub balance: u64,
    pub nonce: u64,
}

/// What an [`AccountState`] says.
#[verifier::ext_equal]
pub struct AccountView {
    pub keypair: KeypairView,
    pub balance: u64,
    pub nonce: u64,
}

impl View for AccountState {
    type V = AccountView;

    open spec fn view(&self) -> AccountView {
        AccountView { keypair: self.keypair@, balance: self.balance, nonce: self.nonce }
    }
}

/// The account at an index as it is registered.
pub open spec fn fresh_account(index: usize, balance: u64) -> AccountView {
    AccountView { keypair: keypair_of(indexed_seed(index)), balance, nonce: 0 }
}

/// Makes the account at an index as it is registered.
pub fn new_account(index: usize, balance: u64) -> (account: AccountState)
    ensures
        account@ == fresh_account(index, balance),
{
    AccountState { keypair: generate_keypair(index), balance, nonce: 0 }
}

} // verus!
