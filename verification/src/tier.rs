//! Vault tiers and secret type tags.

use vstd::prelude::*;

verus! {

/// Capacity class of a vault, ordered by ordinal: a vault's tier may only
/// move to a strictly higher ordinal.
#[derive(Clone, Copy, Debug, PartialEq, Eq, Structural)]
pub enum VaultTier {
    Free,
    Starter,
    Pro,
    Ultra,
}

impl VaultTier {
    /// Rank of the tier; also its index into the tier price table and its
    /// wire value.
    pub open spec fn spec_ordinal(&self) -> u8 {
        match self {
            VaultTier::Free => 0,
            VaultTier::Starter => 1,
            VaultTier::Pro => 2,
            VaultTier::Ultra => 3,
        }
    }

    #[verifier::when_used_as_spec(spec_ordinal)]
    pub fn ordinal(&self) -> (r: u8)
        ensures
            r == self.spec_ordinal(),
    {
        match self {
            VaultTier::Free => 0,
            VaultTier::Starter => 1,
            VaultTier::Pro => 2,
            VaultTier::Ultra => 3,
        }
    }

    /// Greatest number of secrets a vault of this tier may hold.
    pub open spec fn spec_max_secrets(&self) -> u32 {
        match self {
            VaultTier::Free => 1,
            VaultTier::Starter => 10,
            VaultTier::Pro => 100,
            VaultTier::Ultra => 500,
        }
    }

    #[verifier::when_used_as_spec(spec_max_secrets)]
    pub fn max_secrets(&self) -> (r: u32)
        ensures
            r == self.spec_max_secrets(),
    {
        match self {
            VaultTier::Free => 1,
            VaultTier::Starter => 10,
            VaultTier::Pro => 100,
            VaultTier::Ultra => 500,
        }
    }
}

/// Informational tag on a stored secret; the core never interprets it.
#[derive(Clone, Copy, Debug, PartialEq, Eq, Structural)]
pub enum SecretType {
    Password,
    ApiKey,
    SeedPhrase,
    PrivateKey,
    Note,
    Custom,
}

impl SecretType {
    /// Wire value of the tag.
    pub open spec fn spec_code(&self) -> u8 {
        match self {
            SecretType::Password => 0,
            SecretType::ApiKey => 1,
            SecretType::SeedPhrase => 2,
            SecretType::PrivateKey => 3,
            SecretType::Note => 4,
            SecretType::Custom => 5,
        }
    }

    #[verifier::when_used_as_spec(spec_code)]
    pub fn code(&self) -> (r: u8)
        ensures
            r == self.spec_code(),
    {
        match self {
            SecretType::Password => 0,
            SecretType::ApiKey => 1,
            SecretType::SeedPhrase => 2,
            SecretType::PrivateKey => 3,
            SecretType::Note => 4,
            SecretType::Custom => 5,
        }
    }
}

} // verus!
