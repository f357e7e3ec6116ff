use event_wallet::orchestrator::AppState;
use event_wallet::orchestrator::PaymentOutcome;
use event_wallet::payment::verify;
use hmac::Mac;

fn gateway_signature(order_id: &str, payment_id: &str, secret: &str) -> String {
    let message = format!("{}|{}", order_id, payment_id);
    let mut mac = hmac::Hmac::<sha2::Sha256>::new_from_slice(secret.as_bytes()).unwrap();
    mac.update(message.as_bytes());
    hex::encode(mac.finalize().into_bytes())
}

#[test]
fn verify_accepts_the_gateway_signature() {
    let secret = "SECRET-REDACTED";
    let signature = gateway_signature("order_123", "pay_456", secret);
    assert!(verify("order_123", "pay_456", &signature, secret));
}

#[test]
fn verify_is_deterministic() {
    let secret = "another_secret";
    let signature = gateway_signature("order_77", "pay_88", secret);
    let first = verify("order_77", "pay_88", &signature, secret);
    let second = verify("order_77", "pay_88", &signature, secret);
    assert_eq!(first, second);
    assert!(first);
}

#[test]
fn tampering_one_character_flips_verification_to_false() {
    let secret = "tamper_secret";
    let signature = gateway_signature("order_1", "pay_2", secret);
    assert!(verify("order_1", "pay_2", &signature, secret));

    // Flip the first hex digit to a different one.
    let mut chars: Vec<char> = signature.chars().collect();
    chars[0] = if chars[0] == '0' { '1' } else { '0' };
    let tampered: String = chars.into_iter().collect();
    assert_ne!(signature, tampered);
    assert!(!verify("order_1", "pay_2", &tampered, secret));
}

#[test]
fn verify_rejects_wrong_secret_and_wrong_ids() {
    let secret = "right_secret";
    let signature = gateway_signature("order_a", "pay_b", secret);
    assert!(!verify("order_a", "pay_b", &signature, "wrong_secret"));
    assert!(!verify("order_x", "pay_b", &signature, secret));
    assert!(!verify("order_a", "pay_y", &signature, secret));
}

#[test]
fn verify_treats_malformed_signature_as_false() {
    assert!(!verify("order_a", "pay_b", "", "secret"));
    assert!(!verify("order_a", "pay_b", "not hex at all", "secret"));
}

#[test]
fn verified_payment_credits_the_wallet() {
    let mut state = AppState::new();
    let user = String::from("user_pay_one");
    let secret = String::from("wallet_secret");
    let order = String::from("order_555");
    let payment = String::from("pay_777");
    let signature = gateway_signature(&order, &payment, &secret);

    match state.verify_payment(&user, &order, &payment, &String::from(signature), &secret, 250) {
        PaymentOutcome::Credited { new_balance } => assert_eq!(new_balance, 1750),
        _ => panic!("a correctly signed payment must credit the wallet"),
    }
    assert_eq!(state.wallets.balance_of(&user), 1750);

    let (_, transactions) = state.wallets.snapshot(&user);
    let last = &transactions[transactions.len() - 1];
    assert_eq!(last.amount, 250);
    assert_eq!(last.description, "Payment gateway deposit (pay_777)");
}

#[test]
fn mismatched_signature_leaves_wallet_untouched() {
    let mut state = AppState::new();
    let user = String::from("user_pay_two");
    match state.verify_payment(
        &user,
        &String::from("order_1"),
        &String::from("pay_1"),
        &String::from("deadbeef"),
        &String::from("secret"),
        400,
    ) {
        PaymentOutcome::SignatureMismatch => {}
        _ => panic!("a bad signature must be refused"),
    }
    assert_eq!(state.wallets.balance_of(&user), 1500);
    let (_, transactions) = state.wallets.snapshot(&user);
    assert_eq!(transactions.len(), 1);
}

#[test]
fn verified_payment_of_zero_is_invalid() {
    let mut state = AppState::new();
    let user = String::from("user_pay_three");
    let secret = String::from("zero_secret");
    let order = String::from("order_0");
    let payment = String::from("pay_0");
    let signature = gateway_signature(&order, &payment, &secret);

    match state.verify_payment(&user, &order, &payment, &String::from(signature), &secret, 0) {
        PaymentOutcome::InvalidAmount => {}
        _ => panic!("a zero amount cannot be credited"),
    }
    assert_eq!(state.wallets.balance_of(&user), 1500);
}
