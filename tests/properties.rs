use edge_bridge::approval::{approved, super_majority_approve};
use edge_bridge::{hash_of, withdraw_key, Bridge, BridgeError, Event, Ledger, LedgerError};

fn ledger_with(balances: &[(u64, u64)]) -> Ledger {
    let mut ledger = Ledger::new();
    for &(who, balance) in balances {
        ledger.increase_free_balance_creating(who, balance).unwrap();
    }
    ledger
}

fn standard_bridge() -> Bridge {
    let ledger = ledger_with(&[(1, 10000), (2, 10000), (3, 10000), (4, 100), (5, 100), (6, 100)]);
    Bridge::new(vec![1, 2, 3], ledger)
}

fn hex(bytes: &[u8]) -> String {
    bytes.iter().map(|b| format!("{:02x}", b)).collect()
}

#[test]
fn hash_of_empty_input_is_the_blake2b_256_digest() {
    assert_eq!(
        hex(&hash_of(b"")),
        "0e5751c026e543b2e8ab2eb06099daa1d1e5df47778f7787faab45cdf12fe3a8"
    );
}

#[test]
fn hash_of_abc_is_the_blake2b_256_digest() {
    assert_eq!(
        hex(&hash_of(b"abc")),
        "bddd813c634239723171ef3fee98579b94964e3bb1cb3e427262c8c068d52319"
    );
}

#[test]
fn withdraw_key_hashes_little_endian_nonce_account_quantity() {
    let encoded: [u8; 20] = [0, 0, 0, 0, 5, 0, 0, 0, 0, 0, 0, 0, 10, 0, 0, 0, 0, 0, 0, 0];
    assert_eq!(withdraw_key(0, 5, 10), hash_of(&encoded));
    let encoded_next: [u8; 20] = [1, 0, 0, 0, 5, 0, 0, 0, 0, 0, 0, 0, 10, 0, 0, 0, 0, 0, 0, 0];
    assert_eq!(withdraw_key(1, 5, 10), hash_of(&encoded_next));
    assert_ne!(withdraw_key(0, 5, 10), withdraw_key(1, 5, 10));
}

#[test]
fn super_majority_needs_twice_the_square_of_the_rest() {
    assert!(super_majority_approve(3, 2));
    assert!(!super_majority_approve(7, 5));
    assert!(!super_majority_approve(2, 2));
    assert!(!super_majority_approve(0, 0));
    assert!(!super_majority_approve(10000, 20400));
    assert!(super_majority_approve(20000, 10400));
    assert!(super_majority_approve(u64::MAX, 0));
    assert!(!super_majority_approve(u64::MAX, u64::MAX));
    assert!(super_majority_approve(u64::MAX, u64::MAX / 2));
}

#[test]
fn approved_subtracts_with_saturation() {
    assert!(!approved(10000, 30400));
    assert!(approved(20000, 30400));
    assert!(approved(50, 40));
    assert!(!approved(0, 0));
    assert!(approved(1, 0));
}

#[test]
fn ledger_mint_and_burn_move_balance_and_issuance() {
    let mut ledger = ledger_with(&[(1, 100)]);
    assert_eq!(ledger.increase_free_balance_creating(2, 50), Ok(()));
    assert_eq!(ledger.total_balance(2), 50);
    assert_eq!(ledger.total_issuance(), 150);
    assert_eq!(ledger.decrease_free_balance(1, 30), Ok(()));
    assert_eq!(ledger.total_balance(1), 70);
    assert_eq!(ledger.total_issuance(), 120);
    assert_eq!(ledger.total_balance(9), 0);
}

#[test]
fn ledger_refuses_overflow_and_overdraft() {
    let mut ledger = ledger_with(&[(1, u64::MAX)]);
    assert_eq!(ledger.increase_free_balance_creating(2, 1), Err(LedgerError::Overflow));
    assert_eq!(ledger.total_balance(2), 0);
    assert_eq!(ledger.decrease_free_balance(3, 1), Err(LedgerError::InsufficientFunds));
    assert_eq!(ledger.total_issuance(), u64::MAX);
}

#[test]
fn deposit_keys_and_records_agree() {
    let mut b = standard_bridge();
    let h1 = hash_of(b"first");
    let h2 = hash_of(b"second");
    assert_eq!(b.deposit(5, 5, h1, 10), Ok(()));
    assert_eq!(b.deposit(4, 6, h2, 20), Ok(()));
    assert_eq!(b.deposits(), &vec![h1, h2]);
    assert_eq!(b.deposit_count(), 2);
    let r1 = b.deposit_of(&h1).unwrap();
    assert_eq!((r1.index, r1.target, r1.quantity, r1.completed), (0, 5, 10, false));
    let r2 = b.deposit_of(&h2).unwrap();
    assert_eq!((r2.index, r2.target, r2.quantity, r2.completed), (1, 6, 20, false));
    assert!(b.deposit_of(&hash_of(b"third")).is_none());
}

#[test]
fn deposit_by_authority_counts_as_first_attestation() {
    let mut b = standard_bridge();
    let h = hash_of(b"a sends money to b");
    assert_eq!(b.deposit(1, 5, h, 10), Ok(()));
    assert_eq!(b.deposit_of(&h).unwrap().signers, vec![1]);
    assert_eq!(b.sign_deposit(2, 5, h, 10), Ok(()));
    assert_eq!(b.ledger().total_balance(5), 110);
    assert!(b.deposit_of(&h).unwrap().completed);
}

#[test]
fn deposit_by_non_authority_has_no_attestation() {
    let mut b = standard_bridge();
    let h = hash_of(b"a sends money to b");
    assert_eq!(b.deposit(5, 5, h, 10), Ok(()));
    assert!(b.deposit_of(&h).unwrap().signers.is_empty());
}

#[test]
fn attestations_hold_no_duplicates() {
    let mut b = standard_bridge();
    let h = hash_of(b"a sends money to b");
    assert_eq!(b.deposit(1, 5, h, 10), Ok(()));
    assert_eq!(b.sign_deposit(1, 5, h, 10), Err(BridgeError::DuplicateAttestation));
    assert_eq!(b.deposit_of(&h).unwrap().signers, vec![1]);
}

#[test]
fn withdraw_record_hash_is_digest_of_nonce_sender_quantity() {
    let mut b = standard_bridge();
    assert_eq!(b.withdraw(5, 10, b"a sent b 1 ETH".to_vec()), Ok(()));
    let key = b.withdraw_record_hash(0);
    assert_eq!(key, withdraw_key(0, 5, 10));
    let rec = b.withdraw_of(&key).unwrap();
    assert_eq!((rec.index, rec.target, rec.quantity, rec.completed), (0, 5, 10, false));
    assert!(rec.signers.is_empty());
}

#[test]
fn withdraw_by_authority_keeps_its_bundle() {
    let mut b = standard_bridge();
    assert_eq!(b.withdraw(1, 10, b"bundle".to_vec()), Ok(()));
    let key = b.withdraw_record_hash(0);
    assert_eq!(b.withdraw_of(&key).unwrap().signers, vec![(1, b"bundle".to_vec())]);
}

#[test]
fn nonce_counts_successful_withdrawals() {
    let mut b = standard_bridge();
    assert_eq!(b.withdraw_nonce_of(5), 0);
    assert_eq!(b.withdraw(5, 10, vec![]), Ok(()));
    assert_eq!(b.withdraw(5, 10, vec![]), Ok(()));
    assert_eq!(b.withdraw(5, 10, vec![]), Ok(()));
    assert_eq!(b.withdraw_nonce_of(5), 3);
    assert_eq!(b.withdraw_nonce_of(4), 0);
    assert_eq!(b.withdraw_count(), 3);
    assert_eq!(b.withdraws(), &vec![withdraw_key(0, 5, 10), withdraw_key(1, 5, 10), withdraw_key(2, 5, 10)]);
}

#[test]
fn failed_withdrawal_leaves_nonce_unchanged() {
    let mut b = standard_bridge();
    assert_eq!(b.withdraw(4, 101, b"proof".to_vec()), Err(BridgeError::InsufficientBalance));
    assert_eq!(b.withdraw_nonce_of(4), 0);
    assert_eq!(b.withdraw_count(), 0);
    assert!(b.events().is_empty());
}

#[test]
fn issuance_moves_by_approved_quantities() {
    let mut b = standard_bridge();
    assert_eq!(b.ledger().total_issuance(), 30300);
    let h = hash_of(b"a sends money to b");
    assert_eq!(b.deposit(5, 5, h, 10), Ok(()));
    assert_eq!(b.sign_deposit(1, 5, h, 10), Ok(()));
    assert_eq!(b.ledger().total_issuance(), 30300);
    assert_eq!(b.sign_deposit(2, 5, h, 10), Ok(()));
    assert_eq!(b.ledger().total_issuance(), 30310);
    assert_eq!(b.withdraw(6, 30, vec![]), Ok(()));
    let key = b.withdraw_record_hash(0);
    assert_eq!(b.sign_withdraw(1, 6, key, 30, vec![]), Ok(()));
    assert_eq!(b.sign_withdraw(2, 6, key, 30, vec![]), Ok(()));
    assert_eq!(b.ledger().total_issuance(), 30280);
    assert_eq!(b.ledger().total_balance(6), 70);
}

#[test]
fn completed_record_is_never_settled_again() {
    let mut b = standard_bridge();
    let h = hash_of(b"a sends money to b");
    assert_eq!(b.deposit(5, 5, h, 10), Ok(()));
    assert_eq!(b.sign_deposit(1, 5, h, 10), Ok(()));
    assert_eq!(b.sign_deposit(2, 5, h, 10), Ok(()));
    assert_eq!(b.sign_deposit(3, 5, h, 10), Err(BridgeError::AlreadyCompleted));
    assert_eq!(b.ledger().total_balance(5), 110);
    assert_eq!(b.ledger().total_issuance(), 30310);
    assert_eq!(b.deposit_of(&h).unwrap().signers, vec![1, 2]);
}

#[test]
fn refused_burn_leaves_the_record_open() {
    let mut b = standard_bridge();
    assert_eq!(b.withdraw(5, 60, vec![1]), Ok(()));
    assert_eq!(b.withdraw(5, 60, vec![2]), Ok(()));
    let first = b.withdraw_record_hash(0);
    let second = b.withdraw_record_hash(1);
    assert_eq!(b.sign_withdraw(1, 5, first, 60, vec![]), Ok(()));
    assert_eq!(b.sign_withdraw(2, 5, first, 60, vec![]), Ok(()));
    assert_eq!(b.ledger().total_balance(5), 40);
    assert_eq!(b.sign_withdraw(1, 5, second, 60, vec![]), Ok(()));
    let r = b.sign_withdraw(2, 5, second, 60, vec![]);
    assert_eq!(r, Err(BridgeError::LedgerBurnFailure));
    assert_eq!(b.ledger().total_balance(5), 40);
    let rec = b.withdraw_of(&second).unwrap();
    assert!(!rec.completed);
    assert_eq!(rec.signers.len(), 1);
}

#[test]
fn refused_mint_leaves_the_record_open() {
    let ledger = ledger_with(&[(1, u64::MAX - 10)]);
    let mut b = Bridge::new(vec![1], ledger);
    let h = hash_of(b"large");
    assert_eq!(b.deposit(5, 5, h, 20), Ok(()));
    assert_eq!(b.sign_deposit(1, 5, h, 20), Err(BridgeError::LedgerMintOverflow));
    let rec = b.deposit_of(&h).unwrap();
    assert!(!rec.completed);
    assert!(rec.signers.is_empty());
    assert_eq!(b.ledger().total_balance(5), 0);
}

#[test]
fn session_change_replaces_authorities_only_when_they_differ() {
    let mut b = standard_bridge();
    b.on_session_change(vec![1, 2, 3]);
    assert!(b.events().is_empty());
    b.on_session_change(vec![3, 2, 1]);
    assert_eq!(b.authorities(), &vec![3, 2, 1]);
    assert_eq!(b.events(), &vec![Event::NewAuthorities(vec![3, 2, 1])]);
}

#[test]
fn attestations_survive_a_rotation() {
    let mut b = standard_bridge();
    let h = hash_of(b"a sends money to b");
    assert_eq!(b.deposit(5, 5, h, 10), Ok(()));
    assert_eq!(b.sign_deposit(1, 5, h, 10), Ok(()));
    b.on_session_change(vec![2, 3, 4]);
    assert!(!b.is_authority(1));
    assert_eq!(b.sign_deposit(6, 5, h, 10), Err(BridgeError::NotAuthority));
    assert_eq!(b.sign_deposit(2, 5, h, 10), Ok(()));
    assert_eq!(b.ledger().total_balance(5), 110);
    assert_eq!(b.deposit_of(&h).unwrap().signers, vec![1, 2]);
}
