//! The vault core: entity stores and the six state-transition operations.
//!
//! A `System` holds the singleton config, the vault store and the secret
//! store. Each operation validates its inputs against the current state and
//! either commits its full effect or returns an error leaving the state
//! exactly as it was. Work the host performs — signature checks, the fee
//! transfer, the clock — reaches the core as plain values: the
//! authenticated caller, a `PaymentOutcome`, a timestamp.

use vstd::prelude::*;
use crate::state::{
    bytes32_eq, skey_view, vault_key_eq, secret_key_eq, vkey_view, EncryptedSecret, GlobalConfig,
    PaymentOutcome, SecretKey, Transfer, Vault, VaultError, VaultKey, MAX_CIPHERTEXT_LEN,
};
use crate::store::{
    assoc_get, keys_unique, lemma_assoc_absent, lemma_assoc_at_index, lemma_assoc_push,
    lemma_assoc_update,
};
use crate::tier::{SecretType, VaultTier};

verus! {

/// The whole state of the vault core.
pub struct System {
    /// The singleton configuration; absent until initialized.
    pub config: Option<GlobalConfig>,
    /// Vault records in creation order, keyed by (creator, seed).
    pub vaults: Vec<(VaultKey, Vault)>,
    /// Secret records in creation order, keyed by (vault identity, index).
    pub secrets: Vec<(SecretKey, EncryptedSecret)>,
}

impl System {
    /// The vault store read as an association list over mathematical keys.
    pub open spec fn vaults_model(self) -> Seq<((Seq<u8>, Seq<u8>), Vault)> {
        self.vaults@.map_values(|p: (VaultKey, Vault)| (vkey_view(p.0), p.1))
    }

    /// The secret store read as an association list over mathematical keys.
    pub open spec fn secrets_model(self) -> Seq<(((Seq<u8>, Seq<u8>), u32), EncryptedSecret)> {
        self.secrets@.map_values(|p: (SecretKey, EncryptedSecret)| (skey_view(p.0), p.1))
    }

    /// The vault stored under identity `k`, if any.
    pub open spec fn vault_at(self, k: (Seq<u8>, Seq<u8>)) -> Option<Vault> {
        assoc_get(self.vaults_model(), k)
    }

    /// The secret stored under identity `k`, if any.
    pub open spec fn secret_at(self, k: ((Seq<u8>, Seq<u8>), u32)) -> Option<EncryptedSecret> {
        assoc_get(self.secrets_model(), k)
    }

    /// Well-formedness, established at creation and preserved by every
    /// operation: identities are collision-free, every vault respects its
    /// tier's capacity, every vault record carries the seed of its key,
    /// every secret is within the size bound, names its owning vault
    /// consistently with its key, and was created at a sequence index below
    /// that vault's current count.
    pub open spec fn wf(self) -> bool {
        &&& keys_unique(self.vaults_model())
        &&& keys_unique(self.secrets_model())
        &&& forall|i: int|
            0 <= i < self.vaults@.len() ==> (#[trigger] self.vaults@[i]).1.secret_count
                <= self.vaults@[i].1.tier.spec_max_secrets()
        &&& forall|i: int|
            0 <= i < self.vaults@.len() ==> (#[trigger] self.vaults@[i]).1.vault_seed@
                == self.vaults@[i].0.seed@
        &&& forall|i: int|
            0 <= i < self.secrets@.len() ==> (#[trigger] self.secrets@[i]).1.ciphertext@.len()
                <= MAX_CIPHERTEXT_LEN
        &&& forall|i: int|
            0 <= i < self.secrets@.len() ==> vkey_view((#[trigger] self.secrets@[i]).1.vault)
                == vkey_view(self.secrets@[i].0.vault)
        &&& forall|i: int|
            0 <= i < self.secrets@.len() ==> match self.vault_at(
                vkey_view((#[trigger] self.secrets@[i]).0.vault),
            ) {
                Some(v) => self.secrets@[i].0.index < v.secret_count,
                None => false,
            }
    }

    /// Whether `caller` is the recorded owner of the vault at `k`.
    pub open spec fn owner_authorized(self, k: (Seq<u8>, Seq<u8>), caller: Seq<u8>) -> bool {
        match self.vault_at(k) {
            Some(v) => v.owner@ == caller,
            None => false,
        }
    }

    /// Outcome `initialize_config` owes: the one-time creation succeeds
    /// exactly when no config exists yet.
    pub open spec fn initialize_config_result(self) -> Result<(), VaultError> {
        if self.config is Some {
            Err(VaultError::DuplicateCreation)
        } else {
            Ok(())
        }
    }

    /// Outcome `initialize_vault` owes: creation succeeds exactly when no
    /// vault exists for (caller, seed).
    pub open spec fn initialize_vault_result(self, caller: [u8; 32], vault_seed: [u8; 32]) -> Result<
        (),
        VaultError,
    > {
        if self.vault_at((caller@, vault_seed@)) is Some {
            Err(VaultError::DuplicateCreation)
        } else {
            Ok(())
        }
    }

    /// Outcome `add_secret` owes, by the order the checks are made in:
    /// the vault and the config must exist, the caller must own the vault,
    /// the vault must have spare capacity, the ciphertext must fit, and a
    /// positive per-secret fee must have been paid. On success the result
    /// names the one fee charged, or `None` when the fee is zero.
    pub open spec fn add_secret_result(
        self,
        caller: [u8; 32],
        vault_key: VaultKey,
        ciphertext_len: nat,
        payment: PaymentOutcome,
    ) -> Result<Option<Transfer>, VaultError> {
        match self.vault_at(vkey_view(vault_key)) {
            None => Err(VaultError::MissingEntity),
            Some(v) => match self.config {
                None => Err(VaultError::MissingEntity),
                Some(c) => if v.owner@ != caller@ {
                    Err(VaultError::Unauthorized)
                } else if v.secret_count >= v.tier.spec_max_secrets() {
                    Err(VaultError::VaultCapacityReached)
                } else if ciphertext_len > MAX_CIPHERTEXT_LEN {
                    Err(VaultError::SecretTooLarge)
                } else if c.price_per_secret_lamports > 0 && payment == PaymentOutcome::Failure {
                    Err(VaultError::PaymentFailed)
                } else if c.price_per_secret_lamports > 0 {
                    Ok(
                        Some(
                            (Transfer {
                                from: v.owner,
                                to: c.treasury_wallet,
                                amount: c.price_per_secret_lamports,
                            }),
                        ),
                    )
                } else {
                    Ok(None)
                },
            },
        }
    }

    /// Outcome `update_secret` owes: the secret and its vault must exist,
    /// the caller must own the vault, and the new ciphertext must fit.
    pub open spec fn update_secret_result(
        self,
        caller: [u8; 32],
        secret_key: SecretKey,
        ciphertext_len: nat,
    ) -> Result<(), VaultError> {
        match self.secret_at(skey_view(secret_key)) {
            None => Err(VaultError::MissingEntity),
            Some(_s) => match self.vault_at(vkey_view(secret_key.vault)) {
                None => Err(VaultError::MissingEntity),
                Some(v) => if v.owner@ != caller@ {
                    Err(VaultError::Unauthorized)
                } else if ciphertext_len > MAX_CIPHERTEXT_LEN {
                    Err(VaultError::SecretTooLarge)
                } else {
                    Ok(())
                },
            },
        }
    }

    /// Outcome `upgrade_tier` owes: the vault and the config must exist,
    /// the presented owner must be the recorded owner, the target tier must
    /// be strictly higher, and the tier fee transfer must have succeeded.
    /// On success the result names the one fee charged.
    pub open spec fn upgrade_tier_result(
        self,
        owner: [u8; 32],
        payer: [u8; 32],
        vault_key: VaultKey,
        new_tier: VaultTier,
        payment: PaymentOutcome,
    ) -> Result<Transfer, VaultError> {
        match self.vault_at(vkey_view(vault_key)) {
            None => Err(VaultError::MissingEntity),
            Some(v) => match self.config {
                None => Err(VaultError::MissingEntity),
                Some(c) => if v.owner@ != owner@ {
                    Err(VaultError::Unauthorized)
                } else if new_tier.spec_ordinal() <= v.tier.spec_ordinal() {
                    Err(VaultError::InvalidTierUpgrade)
                } else if payment == PaymentOutcome::Failure {
                    Err(VaultError::PaymentFailed)
                } else {
                    Ok(
                        (Transfer {
                            from: payer,
                            to: c.treasury_wallet,
                            amount: c.tier_prices@[new_tier.spec_ordinal() as int],
                        }),
                    )
                },
            },
        }
    }

    /// Outcome `rotate_wallet` owes: the vault must exist and the caller
    /// must be its recorded owner; rotation itself is unconditional.
    pub open spec fn rotate_wallet_result(self, caller: [u8; 32], vault_key: VaultKey) -> Result<
        (),
        VaultError,
    > {
        match self.vault_at(vkey_view(vault_key)) {
            None => Err(VaultError::MissingEntity),
            Some(v) => if v.owner@ != caller@ {
                Err(VaultError::Unauthorized)
            } else {
                Ok(())
            },
        }
    }

    /// An empty system: no config, no vaults, no secrets.
    pub fn new() -> (s: System)
        ensures
            s.wf(),
            s.config is None,
            s.vaults@.len() == 0,
            s.secrets@.len() == 0,
            forall|k: (Seq<u8>, Seq<u8>)| #[trigger] s.vault_at(k) is None,
            forall|k: ((Seq<u8>, Seq<u8>), u32)| #[trigger] s.secret_at(k) is None,
    {
        System { config: None, vaults: Vec::new(), secrets: Vec::new() }
    }

    /// Index of the vault record carrying `key`'s identity, if any.
    fn find_vault_index(&self, key: &VaultKey) -> (r: Option<usize>)
        ensures
            match r {
                Some(i) => i < self.vaults@.len() && vkey_view(self.vaults@[i as int].0)
                    == vkey_view(*key),
                None => forall|j: int|
                    0 <= j < self.vaults@.len() ==> vkey_view((#[trigger] self.vaults@[j]).0)
                        != vkey_view(*key),
            },
    {
        let n = self.vaults.len();
        let mut i: usize = 0;
        while i < n
            invariant
                i <= n,
                n == self.vaults@.len(),
                forall|j: int|
                    0 <= j < i ==> vkey_view((#[trigger] self.vaults@[j]).0) != vkey_view(*key),
            decreases n - i,
        {
            if vault_key_eq(&self.vaults[i].0, key) {
                return Some(i);
            }
            i = i + 1;
        }
        None
    }

    /// Index of the secret record carrying `key`'s identity, if any.
    fn find_secret_index(&self, key: &SecretKey) -> (r: Option<usize>)
        ensures
            match r {
                Some(i) => i < self.secrets@.len() && skey_view(self.secrets@[i as int].0)
                    == skey_view(*key),
                None => forall|j: int|
                    0 <= j < self.secrets@.len() ==> skey_view((#[trigger] self.secrets@[j]).0)
                        != skey_view(*key),
            },
    {
        let n = self.secrets.len();
        let mut i: usize = 0;
        while i < n
            invariant
                i <= n,
                n == self.secrets@.len(),
                forall|j: int|
                    0 <= j < i ==> skey_view((#[trigger] self.secrets@[j]).0) != skey_view(*key),
            decreases n - i,
        {
            if secret_key_eq(&self.secrets[i].0, key) {
                return Some(i);
            }
            i = i + 1;
        }
        None
    }

    /// One-time creation of the global config. The caller becomes the
    /// admin; fails with `DuplicateCreation` exactly when a config already
    /// exists, leaving it untouched.
    pub fn initialize_config(
        &mut self,
        caller: [u8; 32],
        treasury_wallet: [u8; 32],
        price_per_secret_lamports: u64,
        tier_prices: [u64; 4],
    ) -> (r: Result<(), VaultError>)
        requires
            old(self).wf(),
        ensures
            final(self).wf(),
            r == old(self).initialize_config_result(),
            r is Err ==> *final(self) == *old(self),
            r is Ok ==> {
                &&& final(self).config == Some(
                    (GlobalConfig {
                        admin: caller,
                        treasury_wallet,
                        price_per_secret_lamports,
                        tier_prices,
                    }),
                )
                &&& final(self).vaults@ == old(self).vaults@
                &&& final(self).secrets@ == old(self).secrets@
            },
    {
        if self.config.is_some() {
            return Err(VaultError::DuplicateCreation);
        }
        self.config = Some(
            GlobalConfig { admin: caller, treasury_wallet, price_per_secret_lamports, tier_prices },
        );
        Ok(())
    }

    /// Creation of a vault for (caller, seed): the caller becomes the
    /// owner, the tier starts at `Free` with no secrets. Fails with
    /// `DuplicateCreation` exactly when that identity already has a vault,
    /// leaving every record unchanged.
    pub fn initialize_vault(&mut self, caller: [u8; 32], vault_seed: [u8; 32]) -> (r: Result<
        (),
        VaultError,
    >)
        requires
            old(self).wf(),
        ensures
            final(self).wf(),
            r == old(self).initialize_vault_result(caller, vault_seed),
            r is Err ==> *final(self) == *old(self),
            r is Ok ==> {
                &&& final(self).vault_at((caller@, vault_seed@)) == Some(
                    (Vault {
                        owner: caller,
                        vault_seed,
                        tier: VaultTier::Free,
                        secret_count: 0,
                    }),
                )
                &&& forall|k2: (Seq<u8>, Seq<u8>)|
                    k2 != (caller@, vault_seed@) ==> #[trigger] final(self).vault_at(k2) == old(
                        self,
                    ).vault_at(k2)
                &&& final(self).secrets@ == old(self).secrets@
                &&& final(self).config == old(self).config
            },
    {
        let key = VaultKey { creator: caller, seed: vault_seed };
        match self.find_vault_index(&key) {
            Some(i) => {
                proof {
                    lemma_assoc_at_index(self.vaults_model(), i as int);
                    assert(self.vaults_model()[i as int] == (
                        vkey_view(self.vaults@[i as int].0),
                        self.vaults@[i as int].1,
                    ));
                }
                Err(VaultError::DuplicateCreation)
            },
            None => {
                proof {
                    assert forall|j: int|
                        0 <= j < self.vaults_model().len() implies (
                        #[trigger] self.vaults_model()[j]).0 != vkey_view(key) by {
                        assert(self.vaults_model()[j].0 == vkey_view(self.vaults@[j].0));
                    }
                    lemma_assoc_absent(self.vaults_model(), vkey_view(key));
                }
                let vault = Vault {
                    owner: caller,
                    vault_seed,
                    tier: VaultTier::Free,
                    secret_count: 0,
                };
                self.vaults.push((key, vault));
                proof {
                    let pre = *old(self);
                    let p = (vkey_view(key), vault);
                    assert(self.vaults@ == pre.vaults@.push((key, vault)));
                    assert(self.vaults_model() =~= pre.vaults_model().push(p));
                    lemma_assoc_push(pre.vaults_model(), p);
                    assert(self.secrets_model() == pre.secrets_model());
                    assert forall|i2: int| 0 <= i2 < self.vaults@.len() implies (
                    #[trigger] self.vaults@[i2]).1.secret_count
                        <= self.vaults@[i2].1.tier.spec_max_secrets() && self.vaults@[
                    i2].1.vault_seed@ == self.vaults@[i2].0.seed@ by {
                        if i2 < pre.vaults@.len() {
                            assert(self.vaults@[i2] == pre.vaults@[i2]);
                        }
                    }
                    assert forall|i2: int| 0 <= i2 < self.secrets@.len() implies match self
                        .vault_at(vkey_view((#[trigger] self.secrets@[i2]).0.vault)) {
                        Some(v) => self.secrets@[i2].0.index < v.secret_count,
                        None => false,
                    } by {
                        let kv2 = vkey_view(self.secrets@[i2].0.vault);
                        assert(match pre.vault_at(kv2) {
                            Some(v) => pre.secrets@[i2].0.index < v.secret_count,
                            None => false,
                        });
                        assert(kv2 != vkey_view(key));
                        assert(self.vault_at(kv2) == pre.vault_at(kv2));
                    }
                }
                Ok(())
            },
        }
    }

    /// Creation of a new secret at the vault's next sequence index,
    /// authorized by the vault's owner. Checked in order: the vault and the
    /// config must exist, the caller must own the vault, the vault must be
    /// under its tier's capacity, the ciphertext must fit, and — when the
    /// per-secret fee is positive — the fee transfer must have succeeded.
    /// On success the count grows by one and the result names the one fee
    /// charged (`None` when the fee is zero, in which case no transfer is
    /// owed at all).
    pub fn add_secret(
        &mut self,
        caller: [u8; 32],
        vault_key: VaultKey,
        secret_type: SecretType,
        ciphertext: Vec<u8>,
        nonce: [u8; 12],
        now: i64,
        payment: PaymentOutcome,
    ) -> (r: Result<Option<Transfer>, VaultError>)
        requires
            old(self).wf(),
        ensures
            final(self).wf(),
            r == old(self).add_secret_result(caller, vault_key, ciphertext@.len(), payment),
            r is Err ==> *final(self) == *old(self),
            r is Ok ==> {
                let kv = vkey_view(vault_key);
                let v = old(self).vault_at(kv).unwrap();
                &&& final(self).vault_at(kv) == Some(
                    (Vault {
                        owner: v.owner,
                        vault_seed: v.vault_seed,
                        tier: v.tier,
                        secret_count: (v.secret_count + 1) as u32,
                    }),
                )
                &&& forall|k2: (Seq<u8>, Seq<u8>)|
                    k2 != kv ==> #[trigger] final(self).vault_at(k2) == old(self).vault_at(k2)
                &&& final(self).secret_at((kv, v.secret_count)) == Some(
                    (EncryptedSecret {
                        vault: vault_key,
                        secret_type,
                        ciphertext,
                        nonce,
                        created_at: now,
                    }),
                )
                &&& forall|k2: ((Seq<u8>, Seq<u8>), u32)|
                    k2 != (kv, v.secret_count) ==> #[trigger] final(self).secret_at(k2) == old(
                        self,
                    ).secret_at(k2)
                &&& final(self).config == old(self).config
            },
    {
        let i = match self.find_vault_index(&vault_key) {
            None => {
                proof {
                    assert forall|j: int|
                        0 <= j < self.vaults_model().len() implies (
                        #[trigger] self.vaults_model()[j]).0 != vkey_view(vault_key) by {
                        assert(self.vaults_model()[j].0 == vkey_view(self.vaults@[j].0));
                    }
                    lemma_assoc_absent(self.vaults_model(), vkey_view(vault_key));
                }
                return Err(VaultError::MissingEntity);
            },
            Some(i) => i,
        };
        proof {
            lemma_assoc_at_index(self.vaults_model(), i as int);
            assert(self.vaults_model()[i as int] == (
                vkey_view(self.vaults@[i as int].0),
                self.vaults@[i as int].1,
            ));
        }
        let c = match self.config {
            None => {
                return Err(VaultError::MissingEntity);
            },
            Some(c) => c,
        };
        if !bytes32_eq(&self.vaults[i].1.owner, &caller) {
            return Err(VaultError::Unauthorized);
        }
        let count = self.vaults[i].1.secret_count;
        let max = self.vaults[i].1.tier.max_secrets();
        if count >= max {
            return Err(VaultError::VaultCapacityReached);
        }
        if ciphertext.len() > MAX_CIPHERTEXT_LEN {
            return Err(VaultError::SecretTooLarge);
        }
        let price = c.price_per_secret_lamports;
        if price > 0 && payment == PaymentOutcome::Failure {
            return Err(VaultError::PaymentFailed);
        }
        let stored_key = self.vaults[i].0;
        let owner = self.vaults[i].1.owner;
        let vault_seed = self.vaults[i].1.vault_seed;
        let tier = self.vaults[i].1.tier;
        let ghost kv = vkey_view(vault_key);
        proof {
            assert forall|j: int|
                0 <= j < self.secrets_model().len() implies (
                #[trigger] self.secrets_model()[j]).0 != (kv, count) by {
                let sk = self.secrets@[j].0;
                assert(self.secrets_model()[j].0 == skey_view(sk));
                if vkey_view(sk.vault) == kv {
                    assert(match self.vault_at(vkey_view(sk.vault)) {
                        Some(v2) => sk.index < v2.secret_count,
                        None => false,
                    });
                    assert(sk.index < count);
                }
            }
            lemma_assoc_absent(self.secrets_model(), (kv, count));
        }
        let new_key = SecretKey { vault: vault_key, index: count };
        let record = EncryptedSecret {
            vault: vault_key,
            secret_type,
            ciphertext,
            nonce,
            created_at: now,
        };
        let ghost record_spec = record;
        self.secrets.push((new_key, record));
        proof {
            let pre = *old(self);
            assert(self.secrets@ == pre.secrets@.push((new_key, record_spec)));
            assert(self.secrets_model() =~= pre.secrets_model().push(((kv, count), record_spec)));
            lemma_assoc_push(pre.secrets_model(), ((kv, count), record_spec));
        }
        let updated = Vault {
            owner,
            vault_seed,
            tier,
            secret_count: count + 1,
        };
        self.vaults[i] = (stored_key, updated);
        proof {
            let pre = *old(self);
            assert(pre.vaults_model()[i as int].0 == kv);
            assert(self.vaults@ == pre.vaults@.update(i as int, (stored_key, updated)));
            assert(self.vaults_model() =~= pre.vaults_model().update(i as int, (kv, updated)));
            lemma_assoc_update(pre.vaults_model(), i as int, updated);
            assert forall|i2: int| 0 <= i2 < self.vaults@.len() implies (
            #[trigger] self.vaults@[i2]).1.secret_count
                <= self.vaults@[i2].1.tier.spec_max_secrets() && self.vaults@[i2].1.vault_seed@
                == self.vaults@[i2].0.seed@ by {
                if i2 != i as int {
                    assert(self.vaults@[i2] == pre.vaults@[i2]);
                } else {
                    assert(pre.vaults@[i2].1.vault_seed@ == pre.vaults@[i2].0.seed@);
                }
            }
            assert forall|i2: int| 0 <= i2 < self.secrets@.len() implies (
            #[trigger] self.secrets@[i2]).1.ciphertext@.len() <= MAX_CIPHERTEXT_LEN && vkey_view(
                self.secrets@[i2].1.vault,
            ) == vkey_view(self.secrets@[i2].0.vault) && match self.vault_at(
                vkey_view(self.secrets@[i2].0.vault),
            ) {
                Some(v2) => self.secrets@[i2].0.index < v2.secret_count,
                None => false,
            } by {
                if i2 < pre.secrets@.len() {
                    assert(self.secrets@[i2] == pre.secrets@[i2]);
                    let kv2 = vkey_view(pre.secrets@[i2].0.vault);
                    assert(match pre.vault_at(kv2) {
                        Some(v2) => pre.secrets@[i2].0.index < v2.secret_count,
                        None => false,
                    });
                    if kv2 == kv {
                        assert(pre.vault_at(kv2) == Some(pre.vaults@[i as int].1));
                        assert(self.vault_at(kv2) == Some(updated));
                    } else {
                        assert(self.vault_at(kv2) == pre.vault_at(kv2));
                    }
                } else {
                    assert(self.secrets@[i2] == (new_key, record_spec));
                    assert(self.vault_at(kv) == Some(updated));
                }
            }
        }
        Ok(
            if price > 0 {
                Some(Transfer { from: owner, to: c.treasury_wallet, amount: price })
            } else {
                None
            },
        )
    }

    /// In-place replacement of an existing secret's ciphertext and nonce,
    /// authorized by the owner of the vault the secret belongs to. The
    /// secret's type tag and creation time are immutable; no fee and no
    /// capacity check, since the slot already exists.
    pub fn update_secret(
        &mut self,
        caller: [u8; 32],
        secret_key: SecretKey,
        ciphertext: Vec<u8>,
        nonce: [u8; 12],
    ) -> (r: Result<(), VaultError>)
        requires
            old(self).wf(),
        ensures
            final(self).wf(),
            r == old(self).update_secret_result(caller, secret_key, ciphertext@.len()),
            r is Err ==> *final(self) == *old(self),
            r is Ok ==> {
                let ks = skey_view(secret_key);
                let s0 = old(self).secret_at(ks).unwrap();
                &&& final(self).secret_at(ks) == Some(
                    (EncryptedSecret {
                        vault: s0.vault,
                        secret_type: s0.secret_type,
                        ciphertext,
                        nonce,
                        created_at: s0.created_at,
                    }),
                )
                &&& forall|k2: ((Seq<u8>, Seq<u8>), u32)|
                    k2 != ks ==> #[trigger] final(self).secret_at(k2) == old(self).secret_at(k2)
                &&& final(self).vaults@ == old(self).vaults@
                &&& final(self).config == old(self).config
            },
    {
        let i = match self.find_secret_index(&secret_key) {
            None => {
                proof {
                    assert forall|j: int|
                        0 <= j < self.secrets_model().len() implies (
                        #[trigger] self.secrets_model()[j]).0 != skey_view(secret_key) by {
                        assert(self.secrets_model()[j].0 == skey_view(self.secrets@[j].0));
                    }
                    lemma_assoc_absent(self.secrets_model(), skey_view(secret_key));
                }
                return Err(VaultError::MissingEntity);
            },
            Some(i) => i,
        };
        proof {
            lemma_assoc_at_index(self.secrets_model(), i as int);
            assert(self.secrets_model()[i as int] == (
                skey_view(self.secrets@[i as int].0),
                self.secrets@[i as int].1,
            ));
        }
        let vi = match self.find_vault_index(&secret_key.vault) {
            None => {
                proof {
                    assert forall|j: int|
                        0 <= j < self.vaults_model().len() implies (
                        #[trigger] self.vaults_model()[j]).0 != vkey_view(secret_key.vault) by {
                        assert(self.vaults_model()[j].0 == vkey_view(self.vaults@[j].0));
                    }
                    lemma_assoc_absent(self.vaults_model(), vkey_view(secret_key.vault));
                }
                return Err(VaultError::MissingEntity);
            },
            Some(vi) => vi,
        };
        proof {
            lemma_assoc_at_index(self.vaults_model(), vi as int);
            assert(self.vaults_model()[vi as int] == (
                vkey_view(self.vaults@[vi as int].0),
                self.vaults@[vi as int].1,
            ));
        }
        if !bytes32_eq(&self.vaults[vi].1.owner, &caller) {
            return Err(VaultError::Unauthorized);
        }
        if ciphertext.len() > MAX_CIPHERTEXT_LEN {
            return Err(VaultError::SecretTooLarge);
        }
        let stored_key = self.secrets[i].0;
        let vault_ref = self.secrets[i].1.vault;
        let secret_type = self.secrets[i].1.secret_type;
        let created_at = self.secrets[i].1.created_at;
        let updated = EncryptedSecret {
            vault: vault_ref,
            secret_type,
            ciphertext,
            nonce,
            created_at,
        };
        let ghost updated_spec = updated;
        self.secrets[i] = (stored_key, updated);
        proof {
            let pre = *old(self);
            let ks = skey_view(secret_key);
            assert(pre.secrets_model()[i as int].0 == ks);
            assert(self.secrets@ == pre.secrets@.update(i as int, (stored_key, updated_spec)));
            assert(self.secrets_model() =~= pre.secrets_model().update(
                i as int,
                (ks, updated_spec),
            ));
            lemma_assoc_update(pre.secrets_model(), i as int, updated_spec);
            assert(self.vaults_model() == pre.vaults_model());
            assert forall|i2: int| 0 <= i2 < self.secrets@.len() implies (
            #[trigger] self.secrets@[i2]).1.ciphertext@.len() <= MAX_CIPHERTEXT_LEN && vkey_view(
                self.secrets@[i2].1.vault,
            ) == vkey_view(self.secrets@[i2].0.vault) && match self.vault_at(
                vkey_view(self.secrets@[i2].0.vault),
            ) {
                Some(v2) => self.secrets@[i2].0.index < v2.secret_count,
                None => false,
            } by {
                assert(match pre.vault_at(vkey_view(pre.secrets@[i2].0.vault)) {
                    Some(v2) => pre.secrets@[i2].0.index < v2.secret_count,
                    None => false,
                });
                if i2 != i as int {
                    assert(self.secrets@[i2] == pre.secrets@[i2]);
                } else {
                    assert(vkey_view(pre.secrets@[i2].1.vault) == vkey_view(
                        pre.secrets@[i2].0.vault,
                    ));
                }
            }
        }
        Ok(())
    }

    /// Upgrade of a vault to a strictly higher tier, authorized by the
    /// owner and funded by the payer (they may differ). Checked in order:
    /// the vault and the config must exist, `owner` must be the recorded
    /// owner, the target tier's ordinal must exceed the current one, and
    /// the tier fee transfer must have succeeded — if it failed the tier is
    /// unchanged. On success the result names the one fee charged: the
    /// target tier's price, from the payer to the treasury.
    pub fn upgrade_tier(
        &mut self,
        owner: [u8; 32],
        payer: [u8; 32],
        vault_key: VaultKey,
        new_tier: VaultTier,
        payment: PaymentOutcome,
    ) -> (r: Result<Transfer, VaultError>)
        requires
            old(self).wf(),
        ensures
            final(self).wf(),
            r == old(self).upgrade_tier_result(owner, payer, vault_key, new_tier, payment),
            r is Err ==> *final(self) == *old(self),
            r is Ok ==> {
                let kv = vkey_view(vault_key);
                let v = old(self).vault_at(kv).unwrap();
                &&& final(self).vault_at(kv) == Some(
                    (Vault {
                        owner: v.owner,
                        vault_seed: v.vault_seed,
                        tier: new_tier,
                        secret_count: v.secret_count,
                    }),
                )
                &&& forall|k2: (Seq<u8>, Seq<u8>)|
                    k2 != kv ==> #[trigger] final(self).vault_at(k2) == old(self).vault_at(k2)
                &&& final(self).secrets@ == old(self).secrets@
                &&& final(self).config == old(self).config
            },
    {
        let i = match self.find_vault_index(&vault_key) {
            None => {
                proof {
                    assert forall|j: int|
                        0 <= j < self.vaults_model().len() implies (
                        #[trigger] self.vaults_model()[j]).0 != vkey_view(vault_key) by {
                        assert(self.vaults_model()[j].0 == vkey_view(self.vaults@[j].0));
                    }
                    lemma_assoc_absent(self.vaults_model(), vkey_view(vault_key));
                }
                return Err(VaultError::MissingEntity);
            },
            Some(i) => i,
        };
        proof {
            lemma_assoc_at_index(self.vaults_model(), i as int);
            assert(self.vaults_model()[i as int] == (
                vkey_view(self.vaults@[i as int].0),
                self.vaults@[i as int].1,
            ));
        }
        let c = match self.config {
            None => {
                return Err(VaultError::MissingEntity);
            },
            Some(c) => c,
        };
        if !bytes32_eq(&self.vaults[i].1.owner, &owner) {
            return Err(VaultError::Unauthorized);
        }
        let tier = self.vaults[i].1.tier;
        if new_tier.ordinal() <= tier.ordinal() {
            return Err(VaultError::InvalidTierUpgrade);
        }
        if payment == PaymentOutcome::Failure {
            return Err(VaultError::PaymentFailed);
        }
        assert(new_tier.spec_ordinal() <= 3);
        let price = c.tier_prices[new_tier.ordinal() as usize];
        let stored_key = self.vaults[i].0;
        let v = self.vaults[i].1;
        let updated = Vault {
            owner: v.owner,
            vault_seed: v.vault_seed,
            tier: new_tier,
            secret_count: v.secret_count,
        };
        self.vaults[i] = (stored_key, updated);
        proof {
            let pre = *old(self);
            let kv = vkey_view(vault_key);
            assert(pre.vaults_model()[i as int].0 == kv);
            assert(self.vaults@ == pre.vaults@.update(i as int, (stored_key, updated)));
            assert(self.vaults_model() =~= pre.vaults_model().update(i as int, (kv, updated)));
            lemma_assoc_update(pre.vaults_model(), i as int, updated);
            assert(self.secrets_model() == pre.secrets_model());
            assert(v.secret_count <= v.tier.spec_max_secrets());
            assert(new_tier.spec_max_secrets() >= v.tier.spec_max_secrets());
            assert forall|i2: int| 0 <= i2 < self.vaults@.len() implies (
            #[trigger] self.vaults@[i2]).1.secret_count
                <= self.vaults@[i2].1.tier.spec_max_secrets() && self.vaults@[i2].1.vault_seed@
                == self.vaults@[i2].0.seed@ by {
                if i2 != i as int {
                    assert(self.vaults@[i2] == pre.vaults@[i2]);
                } else {
                    assert(pre.vaults@[i2].1.vault_seed@ == pre.vaults@[i2].0.seed@);
                }
            }
            assert forall|i2: int| 0 <= i2 < self.secrets@.len() implies match self.vault_at(
                vkey_view((#[trigger] self.secrets@[i2]).0.vault),
            ) {
                Some(v2) => self.secrets@[i2].0.index < v2.secret_count,
                None => false,
            } by {
                let kv2 = vkey_view(self.secrets@[i2].0.vault);
                assert(match pre.vault_at(kv2) {
                    Some(v2) => pre.secrets@[i2].0.index < v2.secret_count,
                    None => false,
                });
                if kv2 != kv {
                    assert(self.vault_at(kv2) == pre.vault_at(kv2));
                } else {
                    assert(pre.vault_at(kv2) == Some(v));
                    assert(self.vault_at(kv2) == Some(updated));
                }
            }
        }
        Ok(Transfer { from: payer, to: c.treasury_wallet, amount: price })
    }

    /// Reassignment of a vault's controlling identity to `new_owner`,
    /// authorized by the current owner. No fee; every other record and
    /// every other field of the vault is unchanged.
    pub fn rotate_wallet(&mut self, caller: [u8; 32], vault_key: VaultKey, new_owner: [u8; 32]) -> (r:
        Result<(), VaultError>)
        requires
            old(self).wf(),
        ensures
            final(self).wf(),
            r == old(self).rotate_wallet_result(caller, vault_key),
            r is Err ==> *final(self) == *old(self),
            r is Ok ==> {
                let kv = vkey_view(vault_key);
                let v = old(self).vault_at(kv).unwrap();
                &&& final(self).vault_at(kv) == Some(
                    (Vault {
                        owner: new_owner,
                        vault_seed: v.vault_seed,
                        tier: v.tier,
                        secret_count: v.secret_count,
                    }),
                )
                &&& forall|k2: (Seq<u8>, Seq<u8>)|
                    k2 != kv ==> #[trigger] final(self).vault_at(k2) == old(self).vault_at(k2)
                &&& final(self).secrets@ == old(self).secrets@
                &&& final(self).config == old(self).config
            },
    {
        let i = match self.find_vault_index(&vault_key) {
            None => {
                proof {
                    assert forall|j: int|
                        0 <= j < self.vaults_model().len() implies (
                        #[trigger] self.vaults_model()[j]).0 != vkey_view(vault_key) by {
                        assert(self.vaults_model()[j].0 == vkey_view(self.vaults@[j].0));
                    }
                    lemma_assoc_absent(self.vaults_model(), vkey_view(vault_key));
                }
                return Err(VaultError::MissingEntity);
            },
            Some(i) => i,
        };
        proof {
            lemma_assoc_at_index(self.vaults_model(), i as int);
            assert(self.vaults_model()[i as int] == (
                vkey_view(self.vaults@[i as int].0),
                self.vaults@[i as int].1,
            ));
        }
        if !bytes32_eq(&self.vaults[i].1.owner, &caller) {
            return Err(VaultError::Unauthorized);
        }
        let stored_key = self.vaults[i].0;
        let v = self.vaults[i].1;
        let updated = Vault {
            owner: new_owner,
            vault_seed: v.vault_seed,
            tier: v.tier,
            secret_count: v.secret_count,
        };
        self.vaults[i] = (stored_key, updated);
        proof {
            let pre = *old(self);
            let kv = vkey_view(vault_key);
            assert(pre.vaults_model()[i as int].0 == kv);
            assert(self.vaults@ == pre.vaults@.update(i as int, (stored_key, updated)));
            assert(self.vaults_model() =~= pre.vaults_model().update(i as int, (kv, updated)));
            lemma_assoc_update(pre.vaults_model(), i as int, updated);
            assert(self.secrets_model() == pre.secrets_model());
            assert forall|i2: int| 0 <= i2 < self.vaults@.len() implies (
            #[trigger] self.vaults@[i2]).1.secret_count
                <= self.vaults@[i2].1.tier.spec_max_secrets() && self.vaults@[i2].1.vault_seed@
                == self.vaults@[i2].0.seed@ by {
                if i2 != i as int {
                    assert(self.vaults@[i2] == pre.vaults@[i2]);
                } else {
                    assert(pre.vaults@[i2].1.vault_seed@ == pre.vaults@[i2].0.seed@);
                }
            }
            assert forall|i2: int| 0 <= i2 < self.secrets@.len() implies match self.vault_at(
                vkey_view((#[trigger] self.secrets@[i2]).0.vault),
            ) {
                Some(v2) => self.secrets@[i2].0.index < v2.secret_count,
                None => false,
            } by {
                let kv2 = vkey_view(self.secrets@[i2].0.vault);
                assert(match pre.vault_at(kv2) {
                    Some(v2) => pre.secrets@[i2].0.index < v2.secret_count,
                    None => false,
                });
                if kv2 != kv {
                    assert(self.vault_at(kv2) == pre.vault_at(kv2));
                } else {
                    assert(self.vault_at(kv2) == Some(updated));
                    assert(pre.vault_at(kv2) == Some(v));
                }
            }
        }
        Ok(())
    }

    /// The configuration record, if initialized.
    pub fn get_config(&self) -> (r: Option<&GlobalConfig>)
        ensures
            match r {
                Some(c) => self.config == Some(*c),
                None => self.config is None,
            },
    {
        self.config.as_ref()
    }

    /// The vault stored under `key`'s identity, if any.
    pub fn get_vault(&self, key: &VaultKey) -> (r: Option<&Vault>)
        requires
            self.wf(),
        ensures
            match r {
                Some(v) => self.vault_at(vkey_view(*key)) == Some(*v),
                None => self.vault_at(vkey_view(*key)) is None,
            },
    {
        match self.find_vault_index(key) {
            Some(i) => {
                proof {
                    lemma_assoc_at_index(self.vaults_model(), i as int);
                    assert(self.vaults_model()[i as int] == (
                        vkey_view(self.vaults@[i as int].0),
                        self.vaults@[i as int].1,
                    ));
                }
                Some(&self.vaults[i].1)
            },
            None => {
                proof {
                    assert forall|j: int|
                        0 <= j < self.vaults_model().len() implies (
                        #[trigger] self.vaults_model()[j]).0 != vkey_view(*key) by {
                        assert(self.vaults_model()[j].0 == vkey_view(self.vaults@[j].0));
                    }
                    lemma_assoc_absent(self.vaults_model(), vkey_view(*key));
                }
                None
            },
        }
    }

    /// The secret stored under `key`'s identity, if any.
    pub fn get_secret(&self, key: &SecretKey) -> (r: Option<&EncryptedSecret>)
        requires
            self.wf(),
        ensures
            match r {
                Some(s) => self.secret_at(skey_view(*key)) == Some(*s),
                None => self.secret_at(skey_view(*key)) is None,
            },
    {
        match self.find_secret_index(key) {
            Some(i) => {
                proof {
                    lemma_assoc_at_index(self.secrets_model(), i as int);
                    assert(self.secrets_model()[i as int] == (
                        skey_view(self.secrets@[i as int].0),
                        self.secrets@[i as int].1,
                    ));
                }
                Some(&self.secrets[i].1)
            },
            None => {
                proof {
                    assert forall|j: int|
                        0 <= j < self.secrets_model().len() implies (
                        #[trigger] self.secrets_model()[j]).0 != skey_view(*key) by {
                        assert(self.secrets_model()[j].0 == skey_view(self.secrets@[j].0));
                    }
                    lemma_assoc_absent(self.secrets_model(), skey_view(*key));
                }
                None
            },
        }
    }
}

} // verus!
