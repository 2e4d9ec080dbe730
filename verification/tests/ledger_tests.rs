use bridge_core::ledger::Ledger;
use bridge_core::types::{AccountId, AssetId, LedgerError};
use bridge_core::uint256::Uint256;

fn alice() -> AccountId {
    AccountId { hi: 0, lo: 1 }
}

fn bob() -> AccountId {
    AccountId { hi: 0, lo: 2 }
}

fn amount(v: u128) -> Uint256 {
    Uint256::from_u128(v)
}

fn set_balance(ledger: &mut Ledger, asset_id: AssetId, account_id: &AccountId, value: u128) {
    let value = amount(value);
    ledger.insert_balance(asset_id, *account_id, value);
    ledger.insert_issuance(asset_id, value);
}

#[test]
fn deposit_should_increase_balance_and_total_issuance() {
    let mut ledger = Ledger::new();
    let asset_id = AssetId::Eth;
    let alice = alice();

    assert!(ledger.deposit(asset_id, alice, amount(500)).is_ok());
    assert_eq!(ledger.balance(asset_id, alice), amount(500));
    assert_eq!(ledger.total_issuance(asset_id), amount(500));

    assert!(ledger.deposit(asset_id, alice, amount(20)).is_ok());
    assert_eq!(ledger.balance(asset_id, alice), amount(520));
    assert_eq!(ledger.total_issuance(asset_id), amount(520));
}

#[test]
fn deposit_should_raise_total_issuance_overflow_error() {
    let mut ledger = Ledger::new();
    let asset_id = AssetId::Eth;
    let alice = alice();
    ledger.insert_issuance(asset_id, Uint256::max_value());

    assert_eq!(
        ledger.deposit(asset_id, alice, Uint256::one()),
        Err(LedgerError::TotalIssuanceOverflow)
    );
}

#[test]
fn deposit_should_raise_balance_overflow_error() {
    let mut ledger = Ledger::new();
    let asset_id = AssetId::Eth;
    let alice = alice();
    ledger.insert_balance(asset_id, alice, Uint256::max_value());

    assert_eq!(
        ledger.deposit(asset_id, alice, Uint256::one()),
        Err(LedgerError::BalanceOverflow)
    );
}

#[test]
fn withdrawal_should_decrease_balance_and_total_issuance() {
    let mut ledger = Ledger::new();
    let alice = alice();
    set_balance(&mut ledger, AssetId::Eth, &alice, 500);

    assert!(ledger.withdraw(AssetId::Eth, alice, amount(20)).is_ok());
    assert_eq!(ledger.balance(AssetId::Eth, alice), amount(480));
    assert_eq!(ledger.total_issuance(AssetId::Eth), amount(480));
}

#[test]
fn withdrawal_should_raise_total_issuance_underflow_error() {
    let mut ledger = Ledger::new();
    let asset_id = AssetId::Eth;
    let alice = alice();
    // The account balance must suffice, since it is checked first; the
    // issuance figure is inconsistently low, so the consistency guard trips.
    ledger.insert_balance(asset_id, alice, amount(10));
    ledger.insert_issuance(asset_id, Uint256::one());

    assert_eq!(
        ledger.withdraw(asset_id, alice, amount(10)),
        Err(LedgerError::TotalIssuanceUnderflow)
    );
    assert_eq!(ledger.balance(asset_id, alice), amount(10));
    assert_eq!(ledger.total_issuance(asset_id), Uint256::one());
}

#[test]
fn withdrawal_should_raise_balance_underflow_error() {
    let mut ledger = Ledger::new();
    let asset_id = AssetId::Eth;
    let alice = alice();
    ledger.insert_issuance(asset_id, amount(500));

    assert_eq!(
        ledger.withdraw(asset_id, alice, amount(10)),
        Err(LedgerError::InsufficientBalance)
    );
    assert_eq!(ledger.total_issuance(asset_id), amount(500));
}

#[test]
fn transfer_free_balance() {
    let mut ledger = Ledger::new();
    let asset_id = AssetId::Eth;
    let alice = alice();
    let bob = bob();

    assert!(ledger.deposit(asset_id, alice, amount(500)).is_ok());
    assert!(ledger.deposit(asset_id, bob, amount(500)).is_ok());
    assert!(ledger.transfer(asset_id, alice, bob, amount(250)).is_ok());

    assert_eq!(ledger.balance(asset_id, alice), amount(250));
    assert_eq!(ledger.balance(asset_id, bob), amount(750));
    assert_eq!(ledger.total_issuance(asset_id), amount(1000));
}

#[test]
fn transfer_should_raise_insufficient_balance() {
    let mut ledger = Ledger::new();
    let asset_id = AssetId::Eth;
    let alice = alice();
    let bob = bob();

    assert!(ledger.deposit(asset_id, alice, amount(500)).is_ok());
    assert!(ledger.deposit(asset_id, bob, amount(500)).is_ok());

    assert_eq!(
        ledger.transfer(asset_id, alice, bob, amount(1000)),
        Err(LedgerError::InsufficientBalance)
    );
    assert_eq!(ledger.balance(asset_id, alice), amount(500));
    assert_eq!(ledger.balance(asset_id, bob), amount(500));
    assert_eq!(ledger.total_issuance(asset_id), amount(1000));
}

#[test]
fn transfer_should_raise_balance_overflow_for_recipient() {
    let mut ledger = Ledger::new();
    let asset_id = AssetId::Eth;
    let alice = alice();
    let bob = bob();
    // Only an already-inconsistent store can set this up.
    ledger.insert_balance(asset_id, alice, amount(10));
    ledger.insert_balance(asset_id, bob, Uint256::max_value());

    assert_eq!(
        ledger.transfer(asset_id, alice, bob, Uint256::one()),
        Err(LedgerError::BalanceOverflow)
    );
    assert_eq!(ledger.balance(asset_id, alice), amount(10));
    assert_eq!(ledger.balance(asset_id, bob), Uint256::max_value());
}

#[test]
fn transfer_to_self_changes_nothing() {
    let mut ledger = Ledger::new();
    let asset_id = AssetId::Eth;
    let alice = alice();
    assert!(ledger.deposit(asset_id, alice, amount(500)).is_ok());

    assert!(ledger.transfer(asset_id, alice, alice, amount(300)).is_ok());
    assert_eq!(ledger.balance(asset_id, alice), amount(500));
    assert_eq!(ledger.total_issuance(asset_id), amount(500));

    assert_eq!(
        ledger.transfer(asset_id, alice, alice, amount(600)),
        Err(LedgerError::InsufficientBalance)
    );
    assert_eq!(ledger.balance(asset_id, alice), amount(500));
}

#[test]
fn conservation_holds_across_mixed_operations() {
    let mut ledger = Ledger::new();
    let eth = AssetId::Eth;
    let alice = alice();
    let bob = bob();

    assert!(ledger.deposit(eth, alice, amount(700)).is_ok());
    assert!(ledger.deposit(eth, bob, amount(300)).is_ok());
    assert!(ledger.withdraw(eth, bob, amount(100)).is_ok());
    assert!(ledger.transfer(eth, alice, bob, amount(250)).is_ok());
    // Failed operations are no-ops and must not disturb the balance sheet.
    assert!(ledger.withdraw(eth, alice, amount(9999)).is_err());
    assert!(ledger.transfer(eth, bob, alice, amount(9999)).is_err());

    let alice_balance = ledger.balance(eth, alice);
    let bob_balance = ledger.balance(eth, bob);
    assert_eq!(alice_balance, amount(450));
    assert_eq!(bob_balance, amount(450));
    let total = alice_balance.checked_add(bob_balance).unwrap();
    assert_eq!(ledger.total_issuance(eth), total);
}

#[test]
fn full_ledger_scenario() {
    let mut ledger = Ledger::new();
    let eth = AssetId::Eth;
    let alice = alice();
    let bob = bob();

    assert!(ledger.deposit(eth, alice, amount(500)).is_ok());
    assert_eq!(ledger.balance(eth, alice), amount(500));
    assert_eq!(ledger.total_issuance(eth), amount(500));

    assert!(ledger.deposit(eth, alice, amount(20)).is_ok());
    assert_eq!(ledger.balance(eth, alice), amount(520));
    assert_eq!(ledger.total_issuance(eth), amount(520));

    assert!(ledger.withdraw(eth, alice, amount(20)).is_ok());
    assert_eq!(ledger.balance(eth, alice), amount(500));
    assert_eq!(ledger.total_issuance(eth), amount(500));

    assert!(ledger.deposit(eth, bob, amount(500)).is_ok());
    assert!(ledger.transfer(eth, alice, bob, amount(250)).is_ok());
    assert_eq!(ledger.balance(eth, alice), amount(250));
    assert_eq!(ledger.balance(eth, bob), amount(750));
    assert_eq!(ledger.total_issuance(eth), amount(1000));
}

#[test]
fn assets_are_independent() {
    let mut ledger = Ledger::new();
    let eth = AssetId::Eth;
    let token = AssetId::Token(bridge_core::types::Address { hi: 7, lo: 99 });
    let alice = alice();

    assert!(ledger.deposit(eth, alice, amount(500)).is_ok());
    assert!(ledger.deposit(token, alice, amount(77)).is_ok());
    assert!(ledger.withdraw(eth, alice, amount(100)).is_ok());

    assert_eq!(ledger.balance(eth, alice), amount(400));
    assert_eq!(ledger.balance(token, alice), amount(77));
    assert_eq!(ledger.total_issuance(eth), amount(400));
    assert_eq!(ledger.total_issuance(token), amount(77));
}
