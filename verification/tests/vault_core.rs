use joyvault_contract::state::{PaymentOutcome, SecretKey, Transfer, VaultError, VaultKey};
use joyvault_contract::system::System;
use joyvault_contract::tier::{SecretType, VaultTier};

fn addr(n: u8) -> [u8; 32] {
    [n; 32]
}

const PRICES: [u64; 4] = [0, 1_000, 5_000, 20_000];

/// A system with a config (per-secret fee `price`) and one Free vault owned
/// by `addr(3)` under seed `addr(4)`.
fn setup(price: u64) -> (System, VaultKey) {
    let mut sys = System::new();
    sys.initialize_config(addr(1), addr(2), price, PRICES).unwrap();
    sys.initialize_vault(addr(3), addr(4)).unwrap();
    let key = VaultKey { creator: addr(3), seed: addr(4) };
    (sys, key)
}

fn add(sys: &mut System, owner: [u8; 32], key: VaultKey, ct: Vec<u8>) -> Result<Option<Transfer>, VaultError> {
    sys.add_secret(owner, key, SecretType::Note, ct, [9u8; 12], 1_700_000_000, PaymentOutcome::Success)
}

#[test]
fn tier_capacities() {
    assert_eq!(VaultTier::Free.max_secrets(), 1);
    assert_eq!(VaultTier::Starter.max_secrets(), 10);
    assert_eq!(VaultTier::Pro.max_secrets(), 100);
    assert_eq!(VaultTier::Ultra.max_secrets(), 500);
}

#[test]
fn tier_ordinals() {
    assert_eq!(VaultTier::Free.ordinal(), 0);
    assert_eq!(VaultTier::Starter.ordinal(), 1);
    assert_eq!(VaultTier::Pro.ordinal(), 2);
    assert_eq!(VaultTier::Ultra.ordinal(), 3);
}

#[test]
fn secret_type_codes() {
    assert_eq!(SecretType::Password.code(), 0);
    assert_eq!(SecretType::ApiKey.code(), 1);
    assert_eq!(SecretType::SeedPhrase.code(), 2);
    assert_eq!(SecretType::PrivateKey.code(), 3);
    assert_eq!(SecretType::Note.code(), 4);
    assert_eq!(SecretType::Custom.code(), 5);
}

#[test]
fn config_initializes_once() {
    let mut sys = System::new();
    assert!(sys.get_config().is_none());
    assert_eq!(sys.initialize_config(addr(1), addr(2), 7, PRICES), Ok(()));
    let c = sys.get_config().unwrap();
    assert_eq!(c.admin, addr(1));
    assert_eq!(c.treasury_wallet, addr(2));
    assert_eq!(c.price_per_secret_lamports, 7);
    assert_eq!(c.tier_prices, PRICES);
}

#[test]
fn config_duplicate_creation_keeps_original() {
    let mut sys = System::new();
    assert_eq!(sys.initialize_config(addr(1), addr(2), 7, PRICES), Ok(()));
    let second = sys.initialize_config(addr(8), addr(9), 999, [1, 2, 3, 4]);
    assert_eq!(second, Err(VaultError::DuplicateCreation));
    let c = sys.get_config().unwrap();
    assert_eq!(c.admin, addr(1));
    assert_eq!(c.treasury_wallet, addr(2));
    assert_eq!(c.price_per_secret_lamports, 7);
    assert_eq!(c.tier_prices, PRICES);
}

#[test]
fn vault_starts_free_and_empty() {
    let (sys, key) = setup(0);
    let v = sys.get_vault(&key).unwrap();
    assert_eq!(v.owner, addr(3));
    assert_eq!(v.vault_seed, addr(4));
    assert_eq!(v.tier, VaultTier::Free);
    assert_eq!(v.secret_count, 0);
}

#[test]
fn vault_duplicate_creation_rejected() {
    let (mut sys, _key) = setup(0);
    assert_eq!(sys.initialize_vault(addr(3), addr(4)), Err(VaultError::DuplicateCreation));
    // Same seed under another creator is a different identity.
    assert_eq!(sys.initialize_vault(addr(5), addr(4)), Ok(()));
}

#[test]
fn free_vault_capacity_is_one() {
    let (mut sys, key) = setup(0);
    assert_eq!(add(&mut sys, addr(3), key, vec![1, 2, 3]), Ok(None));
    assert_eq!(sys.get_vault(&key).unwrap().secret_count, 1);
    let again = add(&mut sys, addr(3), key, vec![4, 5]);
    assert_eq!(again, Err(VaultError::VaultCapacityReached));
    // Nothing changed: count still 1, no secret at index 1.
    assert_eq!(sys.get_vault(&key).unwrap().secret_count, 1);
    assert!(sys.get_secret(&SecretKey { vault: key, index: 1 }).is_none());
}

#[test]
fn stored_secret_fields() {
    let (mut sys, key) = setup(0);
    let r = sys.add_secret(
        addr(3),
        key,
        SecretType::ApiKey,
        vec![7, 7, 7],
        [5u8; 12],
        123_456,
        PaymentOutcome::Success,
    );
    assert_eq!(r, Ok(None));
    let s = sys.get_secret(&SecretKey { vault: key, index: 0 }).unwrap();
    assert_eq!(s.secret_type, SecretType::ApiKey);
    assert_eq!(s.ciphertext, vec![7, 7, 7]);
    assert_eq!(s.nonce, [5u8; 12]);
    assert_eq!(s.created_at, 123_456);
}

#[test]
fn add_secret_size_boundary() {
    let (mut sys, key) = setup(0);
    let too_big = add(&mut sys, addr(3), key, vec![0u8; 1025]);
    assert_eq!(too_big, Err(VaultError::SecretTooLarge));
    assert_eq!(sys.get_vault(&key).unwrap().secret_count, 0);
    let at_limit = add(&mut sys, addr(3), key, vec![0u8; 1024]);
    assert_eq!(at_limit, Ok(None));
    assert_eq!(sys.get_vault(&key).unwrap().secret_count, 1);
}

#[test]
fn update_secret_size_boundary() {
    let (mut sys, key) = setup(0);
    add(&mut sys, addr(3), key, vec![1]).unwrap();
    let skey = SecretKey { vault: key, index: 0 };
    let too_big = sys.update_secret(addr(3), skey, vec![0u8; 1025], [0u8; 12]);
    assert_eq!(too_big, Err(VaultError::SecretTooLarge));
    assert_eq!(sys.get_secret(&skey).unwrap().ciphertext, vec![1]);
    let at_limit = sys.update_secret(addr(3), skey, vec![0u8; 1024], [0u8; 12]);
    assert_eq!(at_limit, Ok(()));
    assert_eq!(sys.get_secret(&skey).unwrap().ciphertext.len(), 1024);
}

#[test]
fn update_secret_replaces_content_only() {
    let (mut sys, key) = setup(0);
    sys.add_secret(addr(3), key, SecretType::Password, vec![1, 2], [1u8; 12], 42, PaymentOutcome::Success)
        .unwrap();
    let skey = SecretKey { vault: key, index: 0 };
    assert_eq!(sys.update_secret(addr(3), skey, vec![3, 4, 5], [2u8; 12]), Ok(()));
    let s = sys.get_secret(&skey).unwrap();
    assert_eq!(s.ciphertext, vec![3, 4, 5]);
    assert_eq!(s.nonce, [2u8; 12]);
    assert_eq!(s.secret_type, SecretType::Password);
    assert_eq!(s.created_at, 42);
    // Count did not grow: updating fills no new slot.
    assert_eq!(sys.get_vault(&key).unwrap().secret_count, 1);
}

#[test]
fn add_secret_with_fee_names_the_transfer() {
    let (mut sys, key) = setup(250);
    let r = add(&mut sys, addr(3), key, vec![1]);
    assert_eq!(r, Ok(Some(Transfer { from: addr(3), to: addr(2), amount: 250 })));
}

#[test]
fn add_secret_zero_fee_records_no_transfer() {
    let (mut sys, key) = setup(0);
    assert_eq!(add(&mut sys, addr(3), key, vec![1]), Ok(None));
}

#[test]
fn add_secret_failed_payment_aborts() {
    let (mut sys, key) = setup(250);
    let r = sys.add_secret(
        addr(3),
        key,
        SecretType::Note,
        vec![1],
        [0u8; 12],
        0,
        PaymentOutcome::Failure,
    );
    assert_eq!(r, Err(VaultError::PaymentFailed));
    assert_eq!(sys.get_vault(&key).unwrap().secret_count, 0);
    assert!(sys.get_secret(&SecretKey { vault: key, index: 0 }).is_none());
}

#[test]
fn upgrade_rejects_equal_or_lower_tiers() {
    let (mut sys, key) = setup(0);
    sys.upgrade_tier(addr(3), addr(3), key, VaultTier::Starter, PaymentOutcome::Success).unwrap();
    // Vault is now at Starter: same or lower targets are all rejected.
    let same = sys.upgrade_tier(addr(3), addr(3), key, VaultTier::Starter, PaymentOutcome::Success);
    assert_eq!(same, Err(VaultError::InvalidTierUpgrade));
    let lower = sys.upgrade_tier(addr(3), addr(3), key, VaultTier::Free, PaymentOutcome::Success);
    assert_eq!(lower, Err(VaultError::InvalidTierUpgrade));
    assert_eq!(sys.get_vault(&key).unwrap().tier, VaultTier::Starter);
    let higher = sys.upgrade_tier(addr(3), addr(3), key, VaultTier::Pro, PaymentOutcome::Success);
    assert_eq!(higher, Ok(Transfer { from: addr(3), to: addr(2), amount: PRICES[2] }));
    assert_eq!(sys.get_vault(&key).unwrap().tier, VaultTier::Pro);
    let back_down = sys.upgrade_tier(addr(3), addr(3), key, VaultTier::Starter, PaymentOutcome::Success);
    assert_eq!(back_down, Err(VaultError::InvalidTierUpgrade));
}

#[test]
fn upgrade_charges_target_tier_price_once() {
    let (mut sys, key) = setup(0);
    // A separate payer may fund the upgrade; the owner authorizes it.
    let r = sys.upgrade_tier(addr(3), addr(6), key, VaultTier::Ultra, PaymentOutcome::Success);
    assert_eq!(r, Ok(Transfer { from: addr(6), to: addr(2), amount: PRICES[3] }));
    assert_eq!(sys.get_vault(&key).unwrap().tier, VaultTier::Ultra);
}

#[test]
fn upgrade_failed_payment_leaves_tier_unchanged() {
    let (mut sys, key) = setup(0);
    let r = sys.upgrade_tier(addr(3), addr(3), key, VaultTier::Pro, PaymentOutcome::Failure);
    assert_eq!(r, Err(VaultError::PaymentFailed));
    assert_eq!(sys.get_vault(&key).unwrap().tier, VaultTier::Free);
}

#[test]
fn upgrade_raises_capacity() {
    let (mut sys, key) = setup(0);
    add(&mut sys, addr(3), key, vec![1]).unwrap();
    assert_eq!(add(&mut sys, addr(3), key, vec![2]), Err(VaultError::VaultCapacityReached));
    sys.upgrade_tier(addr(3), addr(3), key, VaultTier::Starter, PaymentOutcome::Success).unwrap();
    assert_eq!(add(&mut sys, addr(3), key, vec![2]), Ok(None));
    assert_eq!(sys.get_vault(&key).unwrap().secret_count, 2);
}

#[test]
fn rotate_wallet_transfers_authority() {
    let (mut sys, key) = setup(0);
    assert_eq!(sys.rotate_wallet(addr(3), key, addr(7)), Ok(()));
    assert_eq!(sys.get_vault(&key).unwrap().owner, addr(7));
    // The prior owner is rejected everywhere it must authenticate.
    assert_eq!(add(&mut sys, addr(3), key, vec![1]), Err(VaultError::Unauthorized));
    assert_eq!(sys.rotate_wallet(addr(3), key, addr(3)), Err(VaultError::Unauthorized));
    let up = sys.upgrade_tier(addr(3), addr(3), key, VaultTier::Pro, PaymentOutcome::Success);
    assert_eq!(up, Err(VaultError::Unauthorized));
    // The new owner succeeds.
    assert_eq!(add(&mut sys, addr(7), key, vec![1]), Ok(None));
    let skey = SecretKey { vault: key, index: 0 };
    assert_eq!(sys.update_secret(addr(3), skey, vec![2], [0u8; 12]), Err(VaultError::Unauthorized));
    assert_eq!(sys.update_secret(addr(7), skey, vec![2], [0u8; 12]), Ok(()));
}

#[test]
fn operations_on_missing_entities() {
    let mut sys = System::new();
    let key = VaultKey { creator: addr(3), seed: addr(4) };
    assert_eq!(add(&mut sys, addr(3), key, vec![1]), Err(VaultError::MissingEntity));
    assert_eq!(sys.rotate_wallet(addr(3), key, addr(7)), Err(VaultError::MissingEntity));
    let up = sys.upgrade_tier(addr(3), addr(3), key, VaultTier::Pro, PaymentOutcome::Success);
    assert_eq!(up, Err(VaultError::MissingEntity));
    let skey = SecretKey { vault: key, index: 0 };
    assert_eq!(
        sys.update_secret(addr(3), skey, vec![1], [0u8; 12]),
        Err(VaultError::MissingEntity)
    );
    // With a vault but no config, adding a secret cannot price its fee.
    sys.initialize_vault(addr(3), addr(4)).unwrap();
    assert_eq!(add(&mut sys, addr(3), key, vec![1]), Err(VaultError::MissingEntity));
}

#[test]
fn error_messages() {
    assert_eq!(
        VaultError::VaultCapacityReached.message(),
        "Vault capacity reached for current tier"
    );
    assert_eq!(VaultError::SecretTooLarge.message(), "Secret exceeds maximum size of 1KB");
    assert_eq!(
        VaultError::InvalidTierUpgrade.message(),
        "Invalid tier upgrade - must upgrade to higher tier"
    );
    assert_eq!(VaultError::Unauthorized.message(), "Unauthorized - you don't own this vault");
}

#[test]
fn secrets_get_sequential_indices() {
    let (mut sys, key) = setup(0);
    sys.upgrade_tier(addr(3), addr(3), key, VaultTier::Starter, PaymentOutcome::Success).unwrap();
    for n in 0u8..3 {
        sys.add_secret(
            addr(3),
            key,
            SecretType::Custom,
            vec![n],
            [0u8; 12],
            n as i64,
            PaymentOutcome::Success,
        )
        .unwrap();
    }
    for n in 0u8..3 {
        let s = sys.get_secret(&SecretKey { vault: key, index: n as u32 }).unwrap();
        assert_eq!(s.ciphertext, vec![n]);
        assert_eq!(s.created_at, n as i64);
    }
}
