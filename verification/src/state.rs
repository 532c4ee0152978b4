//! Entities of the vault core and the plain values that identify them.
//!
//! Every identity (caller, owner, treasury) is an opaque 32-byte address;
//! the core only ever compares addresses for equality. Entity identity is
//! structural: a vault is identified by the address of its creator and a
//! 32-byte seed, a secret by its vault's identity and a sequence index.

use vstd::prelude::*;
use crate::tier::{SecretType, VaultTier};

verus! {

/// Identity of a vault: the address that created it and the seed chosen at
/// creation. Ownership may later move without changing this identity.
#[derive(Clone, Copy, Debug)]
pub struct VaultKey {
    pub creator: [u8; 32],
    pub seed: [u8; 32],
}

/// Identity of a secret: its vault and the sequence index it was created at
/// (the vault's secret count at creation time).
#[derive(Clone, Copy, Debug)]
pub struct SecretKey {
    pub vault: VaultKey,
    pub index: u32,
}

/// Mathematical identity of a vault key: the pair of its byte strings.
pub open spec fn vkey_view(k: VaultKey) -> (Seq<u8>, Seq<u8>) {
    (k.creator@, k.seed@)
}

/// Mathematical identity of a secret key.
pub open spec fn skey_view(k: SecretKey) -> ((Seq<u8>, Seq<u8>), u32) {
    (vkey_view(k.vault), k.index)
}

/// The singleton configuration record: created once, never mutated.
#[derive(Clone, Copy, Debug)]
pub struct GlobalConfig {
    /// Identity that performed the one-time initialization.
    pub admin: [u8; 32],
    /// Destination address of every fee.
    pub treasury_wallet: [u8; 32],
    /// Fee charged for each new secret; may be zero.
    pub price_per_secret_lamports: u64,
    /// Fee required to upgrade into Free/Starter/Pro/Ultra respectively,
    /// indexed by tier ordinal (index 0 is unused: Free is the start tier).
    pub tier_prices: [u64; 4],
}

/// A per-owner container of secrets, bounded by its tier's capacity.
#[derive(Clone, Copy, Debug)]
pub struct Vault {
    /// Current controlling identity; operations authenticate against it.
    pub owner: [u8; 32],
    /// Seed chosen at creation; equals the seed in the vault's key.
    pub vault_seed: [u8; 32],
    /// Capacity class; its ordinal only ever increases.
    pub tier: VaultTier,
    /// Number of secrets created in this vault; never decreases.
    pub secret_count: u32,
}

/// An opaque ciphertext record belonging to exactly one vault.
#[derive(Debug)]
pub struct EncryptedSecret {
    /// Identity of the owning vault; equals the vault in the secret's key.
    pub vault: VaultKey,
    /// Informational tag, immutable after creation.
    pub secret_type: SecretType,
    /// Opaque blob of at most `MAX_CIPHERTEXT_LEN` bytes.
    pub ciphertext: Vec<u8>,
    /// Opaque 12-byte value accompanying the ciphertext.
    pub nonce: [u8; 12],
    /// Creation timestamp, immutable after creation.
    pub created_at: i64,
}

/// Largest ciphertext a secret may hold, in bytes.
pub const MAX_CIPHERTEXT_LEN: usize = 1024;

/// Why an operation was rejected. Every rejection leaves the state exactly
/// as it was: atomicity is the rollback mechanism.
#[derive(Clone, Copy, Debug, PartialEq, Eq, Structural)]
pub enum VaultError {
    /// The vault's secret count is at its tier's capacity.
    VaultCapacityReached,
    /// The ciphertext exceeds `MAX_CIPHERTEXT_LEN` bytes.
    SecretTooLarge,
    /// The requested tier is not strictly greater than the current one.
    InvalidTierUpgrade,
    /// The caller is not the recorded owner of the targeted vault.
    Unauthorized,
    /// A config or vault with this identity already exists.
    DuplicateCreation,
    /// The targeted config, vault or secret does not exist.
    MissingEntity,
    /// The payment collaborator reported that the required fee transfer
    /// failed; the operation aborted with no partial effect.
    PaymentFailed,
}

impl VaultError {
    /// Human-readable description of the rejection, for the host to surface.
    pub fn message(&self) -> &'static str {
        match self {
            VaultError::VaultCapacityReached => "Vault capacity reached for current tier",
            VaultError::SecretTooLarge => "Secret exceeds maximum size of 1KB",
            VaultError::InvalidTierUpgrade => "Invalid tier upgrade - must upgrade to higher tier",
            VaultError::Unauthorized => "Unauthorized - you don't own this vault",
            VaultError::DuplicateCreation => "Entity already exists and cannot be created again",
            VaultError::MissingEntity => "Targeted config, vault or secret does not exist",
            VaultError::PaymentFailed => "Required fee transfer failed - operation aborted",
        }
    }
}

/// Outcome of the single fee transfer the host performed for an operation,
/// as reported by the external payment collaborator.
#[derive(Clone, Copy, Debug, PartialEq, Eq, Structural)]
pub enum PaymentOutcome {
    Success,
    Failure,
}

/// The one fee an operation charged: `amount` moved from `from` to `to`
/// atomically with the state change.
#[derive(Clone, Copy, Debug, PartialEq, Eq)]
pub struct Transfer {
    pub from: [u8; 32],
    pub to: [u8; 32],
    pub amount: u64,
}

/// Byte-for-byte equality of two 32-byte addresses or seeds.
pub fn bytes32_eq(a: &[u8; 32], b: &[u8; 32]) -> (r: bool)
    ensures
        r <==> a@ == b@,
{
    let mut i: usize = 0;
    while i < 32
        invariant
            i <= 32,
            forall|j: int| 0 <= j < i ==> a@[j] == b@[j],
        decreases 32 - i,
    {
        if a[i] != b[i] {
            assert(a@[i as int] != b@[i as int]);
            assert(a@ != b@);
            return false;
        }
        i = i + 1;
    }
    assert(a@ =~= b@);
    true
}

/// Byte-for-byte equality of two vault keys.
pub fn vault_key_eq(a: &VaultKey, b: &VaultKey) -> (r: bool)
    ensures
        r <==> vkey_view(*a) == vkey_view(*b),
{
    bytes32_eq(&a.creator, &b.creator) && bytes32_eq(&a.seed, &b.seed)
}

/// Byte-for-byte equality of two secret keys.
pub fn secret_key_eq(a: &SecretKey, b: &SecretKey) -> (r: bool)
    ensures
        r <==> skey_view(*a) == skey_view(*b),
{
    vault_key_eq(&a.vault, &b.vault) && a.index == b.index
}

} // verus!
