use event_wallet::catalog::default_catalog;
use event_wallet::orchestrator::AppState;
use event_wallet::orchestrator::CheckoutOutcome;
use event_wallet::wallet::TxKind;
use event_wallet::wallet::WalletError;
use event_wallet::wallet::STARTING_BALANCE;

#[test]
fn wallet_is_seeded_on_first_access() {
    let mut state = AppState::new();
    let user = String::from("user_alpha");
    let (balance, transactions) = state.wallets.snapshot(&user);
    assert_eq!(balance, STARTING_BALANCE);
    assert_eq!(transactions.len(), 1);
    assert_eq!(transactions[0].id, "txn_initial");
    assert_eq!(transactions[0].amount, STARTING_BALANCE);
    assert_eq!(transactions[0].kind, TxKind::Credit);
    assert_eq!(transactions[0].description, "Welcome bonus");
}

#[test]
fn add_funds_then_checkout_scenario() {
    // Start at 1500; add 500 -> 2000; a 2500 checkout is rejected and
    // changes nothing; a 1000 checkout succeeds and leaves 1000.
    let mut state = AppState::new();
    let user = String::from("user_beta");

    let after_topup = state.add_funds_to_wallet(&user, 500).unwrap();
    assert_eq!(after_topup, 2000);

    match state.checkout_with_wallet(&user, 2500, String::from("Cart x1")) {
        CheckoutOutcome::InsufficientBalance { balance } => assert_eq!(balance, 2000),
        _ => panic!("a checkout above the balance must fail"),
    }
    assert_eq!(state.wallets.balance_of(&user), 2000);

    match state.checkout_with_wallet(&user, 1000, String::from("Cart x1")) {
        CheckoutOutcome::Completed { order_id, new_balance } => {
            assert_eq!(new_balance, 1000);
            assert_eq!(order_id.len(), 36);
        }
        _ => panic!("a checkout within the balance must succeed"),
    }
    assert_eq!(state.wallets.balance_of(&user), 1000);
}

#[test]
fn balance_always_equals_signed_sum_of_history() {
    // Credits add, debits subtract: after any of these operations the
    // balance equals the signed sum of the recorded transactions.
    let mut state = AppState::new();
    let user = String::from("user_gamma");

    state.add_funds_to_wallet(&user, 700).unwrap();
    state.checkout_with_wallet(&user, 300, String::from("Snacks x3"));
    state.add_funds_to_wallet(&user, 42).unwrap();
    state.checkout_with_wallet(&user, 1, String::from("Sticker x1"));

    let (balance, transactions) = state.wallets.snapshot(&user);
    let mut signed: i64 = 0;
    for tx in &transactions {
        match tx.kind {
            TxKind::Credit => signed += tx.amount as i64,
            TxKind::Debit => signed -= tx.amount as i64,
        }
    }
    assert_eq!(balance as i64, signed);
    assert_eq!(balance, 1500 + 700 - 300 + 42 - 1);
}

#[test]
fn add_funds_rejects_zero_amount() {
    let mut state = AppState::new();
    let user = String::from("user_delta");
    assert_eq!(state.add_funds_to_wallet(&user, 0), Err(WalletError::InvalidAmount));
    assert_eq!(state.wallets.balance_of(&user), STARTING_BALANCE);
}

#[test]
fn debit_never_drives_balance_negative() {
    let mut state = AppState::new();
    let user = String::from("user_epsilon");
    // Drain the wallet, then try to overdraw by one.
    match state.checkout_with_wallet(&user, 1500, String::from("Everything x1")) {
        CheckoutOutcome::Completed { new_balance, .. } => assert_eq!(new_balance, 0),
        _ => panic!("draining the wallet must succeed"),
    }
    match state.checkout_with_wallet(&user, 1, String::from("One more x1")) {
        CheckoutOutcome::InsufficientBalance { balance } => assert_eq!(balance, 0),
        _ => panic!("an overdraw must be rejected"),
    }
}

#[test]
fn checkout_of_zero_total_is_invalid() {
    // A zero total is no valid monetary amount: the checkout is
    // refused and nothing is recorded.
    let mut state = AppState::new();
    let user = String::from("user_kappa");
    match state.checkout_with_wallet(&user, 0, String::from("Nothing x0")) {
        CheckoutOutcome::InvalidAmount => {}
        _ => panic!("a zero-total checkout must be refused"),
    }
    let (balance, transactions) = state.wallets.snapshot(&user);
    assert_eq!(balance, STARTING_BALANCE);
    assert_eq!(transactions.len(), 1);
}

#[test]
fn checkout_records_purchase_transaction() {
    let mut state = AppState::new();
    let user = String::from("user_zeta");
    state.checkout_with_wallet(&user, 250, String::from("Pretzel x2, Juice x1"));
    let (_, transactions) = state.wallets.snapshot(&user);
    assert_eq!(transactions.len(), 2);
    let last = &transactions[transactions.len() - 1];
    assert_eq!(last.kind, TxKind::Debit);
    assert_eq!(last.amount, 250);
    assert_eq!(last.description, "Purchase: Pretzel x2, Juice x1");
}

#[test]
fn wallets_of_different_users_are_independent() {
    let mut state = AppState::new();
    let user_a = String::from("user_eta");
    let user_b = String::from("user_theta");
    state.add_funds_to_wallet(&user_a, 100).unwrap();
    assert_eq!(state.wallets.balance_of(&user_a), 1600);
    assert_eq!(state.wallets.balance_of(&user_b), 1500);
}

#[test]
fn register_uses_catalog_price() {
    let mut state = AppState::new();
    let catalog = default_catalog();
    let user = String::from("user_iota");
    state.register_for_event(&user, &String::from("5"), &catalog);
    // Synthwave Summer Fest costs 250.
    assert_eq!(state.wallets.balance_of(&user), 1250);
}
