use event_wallet::catalog::default_catalog;
use event_wallet::catalog::lookup;
use event_wallet::catalog::DEFAULT_PRICE;
use event_wallet::orchestrator::AppState;
use event_wallet::orchestrator::CheckoutOutcome;
use event_wallet::orchestrator::RegisterOutcome;
use event_wallet::registry::RegStatus;
use event_wallet::wallet::TxKind;

#[test]
fn register_debits_wallet_and_records_registration() {
    let mut state = AppState::new();
    let catalog = default_catalog();
    let user = String::from("user_reg_one");

    match state.register_for_event(&user, &String::from("beat-the-market"), &catalog) {
        RegisterOutcome::Registered { registration_id, event_name, price } => {
            assert_eq!(event_name, "Beat the Market");
            assert_eq!(price, 150);
            assert_eq!(registration_id.len(), 36);
        }
        _ => panic!("the first registration must succeed"),
    }

    assert_eq!(state.wallets.balance_of(&user), 1350);
    let regs = state.registrations.list_by_user(&user);
    assert_eq!(regs.len(), 1);
    assert_eq!(regs[0].event_id, "beat-the-market");
    assert_eq!(regs[0].event_name, "Beat the Market");
    assert_eq!(regs[0].status, RegStatus::Registered);
    assert_eq!(regs[0].payment_amount, Some(150));
}

#[test]
fn register_twice_debits_only_once() {
    // The first call succeeds and debits the wallet exactly once; the
    // second returns AlreadyRegistered and the balance is unchanged.
    let mut state = AppState::new();
    let catalog = default_catalog();
    let user = String::from("user_reg_two");
    let event = String::from("trade-quest");

    match state.register_for_event(&user, &event, &catalog) {
        RegisterOutcome::Registered { .. } => {}
        _ => panic!("the first registration must succeed"),
    }
    assert_eq!(state.wallets.balance_of(&user), 1350);

    match state.register_for_event(&user, &event, &catalog) {
        RegisterOutcome::AlreadyRegistered => {}
        _ => panic!("the second registration must be refused"),
    }
    assert_eq!(state.wallets.balance_of(&user), 1350);

    let (_, transactions) = state.wallets.snapshot(&user);
    let debits = transactions.iter().filter(|t| t.kind == TxKind::Debit).count();
    assert_eq!(debits, 1);
    assert_eq!(state.registrations.list_by_user(&user).len(), 1);
}

#[test]
fn repeated_attempts_yield_exactly_one_success() {
    // The handlers run serialized on the shared state: of N attempts
    // for one (user, event) pair exactly one succeeds, the rest report
    // AlreadyRegistered, and exactly one debit is recorded.
    let mut state = AppState::new();
    let catalog = default_catalog();
    let user = String::from("user_reg_five");
    let event = String::from("4");

    let mut successes = 0;
    let mut already = 0;
    for _ in 0..5 {
        match state.register_for_event(&user, &event, &catalog) {
            RegisterOutcome::Registered { .. } => successes += 1,
            RegisterOutcome::AlreadyRegistered => already += 1,
            RegisterOutcome::InsufficientBalance { .. } => {
                panic!("the balance covers the price")
            }
        }
    }
    assert_eq!(successes, 1);
    assert_eq!(already, 4);

    let (balance, transactions) = state.wallets.snapshot(&user);
    assert_eq!(balance, 1400);
    let debits = transactions.iter().filter(|t| t.kind == TxKind::Debit).count();
    assert_eq!(debits, 1);
}

#[test]
fn register_with_insufficient_balance_changes_nothing() {
    // With a balance of 100 a 150 event is rejected: no registration is
    // created and the balance is unchanged.
    let mut state = AppState::new();
    let catalog = default_catalog();
    let user = String::from("user_reg_three");

    match state.checkout_with_wallet(&user, 1400, String::from("Warmup x1")) {
        CheckoutOutcome::Completed { new_balance, .. } => assert_eq!(new_balance, 100),
        _ => panic!("the setup checkout must succeed"),
    }

    match state.register_for_event(&user, &String::from("beat-the-market"), &catalog) {
        RegisterOutcome::InsufficientBalance { balance, price } => {
            assert_eq!(balance, 100);
            assert_eq!(price, 150);
        }
        _ => panic!("the registration must be refused for lack of funds"),
    }

    assert_eq!(state.wallets.balance_of(&user), 100);
    assert!(state.registrations.list_by_user(&user).is_empty());
    assert!(!state.registrations.is_registered(&user, &String::from("beat-the-market")));
}

#[test]
fn unknown_event_falls_back_to_default_name_and_price() {
    let mut state = AppState::new();
    let catalog = default_catalog();
    let user = String::from("user_reg_four");

    match state.register_for_event(&user, &String::from("no-such-event"), &catalog) {
        RegisterOutcome::Registered { event_name, price, .. } => {
            assert_eq!(event_name, "Unknown Event");
            assert_eq!(price, DEFAULT_PRICE);
        }
        _ => panic!("registering for an unknown event must use the fallback price"),
    }
    assert_eq!(state.wallets.balance_of(&user), 1350);
}

#[test]
fn explicit_identifiers_are_recorded_verbatim() {
    let mut state = AppState::new();
    let catalog = default_catalog();
    let user = String::from("user_reg_six");

    match state.register_for_event_with_ids(
        &user,
        &String::from("3"),
        &catalog,
        String::from("txn_42"),
        String::from("reg_42"),
    ) {
        RegisterOutcome::Registered { registration_id, .. } => {
            assert_eq!(registration_id, "reg_42")
        }
        _ => panic!("the registration must succeed"),
    }

    let (_, transactions) = state.wallets.snapshot(&user);
    assert_eq!(transactions.len(), 2);
    assert_eq!(transactions[1].id, "txn_42");
    assert_eq!(transactions[1].kind, TxKind::Debit);
    assert_eq!(transactions[1].amount, 200);
    assert_eq!(
        transactions[1].description,
        "Event registration: Innovate & Create Tech Summit"
    );
    assert_eq!(transactions[1].date, "2024-12-17");

    let regs = state.registrations.list_by_user(&user);
    assert_eq!(regs[0].registration_date, "2024-12-17");
}

#[test]
fn catalog_lookup_finds_listed_and_unlisted_events() {
    let catalog = default_catalog();
    let (name, price) = lookup(&catalog, &String::from("3"));
    assert_eq!(name, "Innovate & Create Tech Summit");
    assert_eq!(price, 200);
    let (name, price) = lookup(&catalog, &String::from("4"));
    assert_eq!(name, "Gourmet Bites Food & Wine Festival");
    assert_eq!(price, 100);
    let (name, price) = lookup(&catalog, &String::from("missing"));
    assert_eq!(name, "Unknown Event");
    assert_eq!(price, 150);
}

#[test]
fn count_for_event_aggregates_across_users() {
    let mut state = AppState::new();
    let catalog = default_catalog();
    let event = String::from("trade-quest");
    for name in ["user_cnt_a", "user_cnt_b", "user_cnt_c"] {
        let user = String::from(name);
        match state.register_for_event(&user, &event, &catalog) {
            RegisterOutcome::Registered { .. } => {}
            _ => panic!("each distinct user must register once"),
        }
    }
    assert_eq!(state.registrations.count_for_event(&event), 3);
    assert_eq!(state.registrations.count_for_event(&String::from("5")), 0);
}

#[test]
fn registrations_of_different_users_are_independent() {
    let mut state = AppState::new();
    let catalog = default_catalog();
    let user_a = String::from("user_ind_a");
    let user_b = String::from("user_ind_b");
    let event = String::from("5");

    match state.register_for_event(&user_a, &event, &catalog) {
        RegisterOutcome::Registered { .. } => {}
        _ => panic!("the first user's registration must succeed"),
    }
    match state.register_for_event(&user_b, &event, &catalog) {
        RegisterOutcome::Registered { .. } => {}
        _ => panic!("a second user may register for the same event"),
    }
    assert_eq!(state.registrations.list_by_user(&user_a).len(), 1);
    assert_eq!(state.registrations.list_by_user(&user_b).len(), 1);
}
