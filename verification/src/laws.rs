//! Cross-cutting laws of the vault core, proved from the operations'
//! contracts and the well-formedness invariant.

use vstd::prelude::*;
use crate::state::{skey_view, vkey_view, SecretKey, VaultError, VaultKey, PaymentOutcome};
use crate::store::{assoc_get, lemma_assoc_some_index};
use crate::system::System;
use crate::tier::VaultTier;

verus! {

/// Capacity invariant: in a well-formed system, every vault holds at most
/// as many secrets as its tier allows. Since `System::new` establishes
/// well-formedness and every operation preserves it, this bound holds at
/// all observable times.
pub proof fn lemma_vault_capacity_invariant(sys: System, k: (Seq<u8>, Seq<u8>))
    requires
        sys.wf(),
        sys.vault_at(k) is Some,
    ensures
        sys.vault_at(k).unwrap().secret_count <= sys.vault_at(
            k,
        ).unwrap().tier.spec_max_secrets(),
{
    lemma_assoc_some_index(sys.vaults_model(), k);
    let i = choose|i: int|
        0 <= i < sys.vaults_model().len() && (#[trigger] sys.vaults_model()[i]).0 == k
            && sys.vaults_model()[i].1 == assoc_get(sys.vaults_model(), k).unwrap();
    assert(sys.vaults_model()[i] == (vkey_view(sys.vaults@[i].0), sys.vaults@[i].1));
    assert(sys.vaults@[i].1.secret_count <= sys.vaults@[i].1.tier.spec_max_secrets());
}

/// Ownership rotation transfers authority: once a vault's recorded owner is
/// `new_owner` — as after a successful `rotate_wallet` — the vault
/// authorizes exactly `new_owner`, and every owner-authenticated operation
/// on it rejects any other caller (the prior owner included) with
/// `Unauthorized`.
pub proof fn lemma_rotation_transfers_authority(
    sys: System,
    vault_key: VaultKey,
    new_owner: [u8; 32],
    caller: [u8; 32],
)
    requires
        sys.vault_at(vkey_view(vault_key)) is Some,
        sys.vault_at(vkey_view(vault_key)).unwrap().owner@ == new_owner@,
    ensures
        sys.owner_authorized(vkey_view(vault_key), caller@) <==> caller@ == new_owner@,
        caller@ == new_owner@ ==> sys.rotate_wallet_result(caller, vault_key) == Ok::<
            (),
            VaultError,
        >(()),
        caller@ != new_owner@ ==> sys.rotate_wallet_result(caller, vault_key) == Err::<
            (),
            VaultError,
        >(VaultError::Unauthorized),
        caller@ != new_owner@ && sys.config is Some ==> forall|ct_len: nat, p: PaymentOutcome|
            #[trigger] sys.add_secret_result(caller, vault_key, ct_len, p) == Err::<
                Option<crate::state::Transfer>,
                VaultError,
            >(VaultError::Unauthorized),
        caller@ != new_owner@ && sys.config is Some ==> forall|
            payer: [u8; 32],
            t: VaultTier,
            p: PaymentOutcome,
        |
            #[trigger] sys.upgrade_tier_result(caller, payer, vault_key, t, p) == Err::<
                crate::state::Transfer,
                VaultError,
            >(VaultError::Unauthorized),
        caller@ != new_owner@ ==> forall|sk: SecretKey, ct_len: nat|
            vkey_view(sk.vault) == vkey_view(vault_key) && sys.secret_at(skey_view(sk)) is Some
                ==> #[trigger] sys.update_secret_result(caller, sk, ct_len) == Err::<
                (),
                VaultError,
            >(VaultError::Unauthorized),
{
    // Each clause follows by unfolding the operation's result function:
    // after the existence checks, every owner-authenticated path compares
    // the caller against the recorded owner, which here is `new_owner`.
}

} // verus!
