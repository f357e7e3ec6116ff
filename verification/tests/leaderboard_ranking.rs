use event_wallet::catalog::default_catalog;
use event_wallet::leaderboard::leaderboard_order;
use event_wallet::leaderboard::leaderboard_positions;
use event_wallet::orchestrator::AppState;
use event_wallet::orchestrator::RegisterOutcome;

#[test]
fn leaderboard_orders_by_count_descending_with_catalog_tiebreak() {
    // Counts {A: 3, B: 5, C: 0} in catalog order A, B, C rank as B, A, C.
    let counts: Vec<usize> = vec![3, 5, 0];
    let order = leaderboard_order(&counts);
    assert_eq!(order, vec![1, 0, 2]);
}

#[test]
fn leaderboard_keeps_catalog_order_on_ties() {
    let counts: Vec<usize> = vec![0, 0, 0, 0, 0];
    let order = leaderboard_order(&counts);
    assert_eq!(order, vec![0, 1, 2, 3, 4]);

    let counts: Vec<usize> = vec![2, 7, 2, 9, 7];
    let order = leaderboard_order(&counts);
    assert_eq!(order, vec![3, 1, 4, 0, 2]);
}

#[test]
fn leaderboard_of_empty_catalog_is_empty() {
    let counts: Vec<usize> = Vec::new();
    let order = leaderboard_order(&counts);
    assert!(order.is_empty());
}

#[test]
fn leaderboard_positions_follow_live_registrations() {
    let mut state = AppState::new();
    let catalog = default_catalog();

    // Catalog order: beat-the-market, trade-quest, 3, 4, 5.
    // Register two users for trade-quest and one for event 5.
    for (name, event) in [
        ("user_lb_a", "trade-quest"),
        ("user_lb_b", "trade-quest"),
        ("user_lb_c", "5"),
    ] {
        let user = String::from(name);
        match state.register_for_event(&user, &String::from(event), &catalog) {
            RegisterOutcome::Registered { .. } => {}
            _ => panic!("each registration in the setup must succeed"),
        }
    }

    let order = leaderboard_positions(&state.registrations, &catalog);
    // trade-quest (2) first, then 5 (1), then the zero-count entries in
    // catalog order.
    assert_eq!(order, vec![1, 4, 0, 2, 3]);
}
