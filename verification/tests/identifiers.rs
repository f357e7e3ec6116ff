use event_wallet::auth::get_user_id_from_token;
use event_wallet::orders::finalize_order;
use event_wallet::orders::new_order_request;

#[test]
fn user_id_is_prefix_of_token() {
    assert_eq!(get_user_id_from_token("abcdefghijklmnop"), "user_abcdefghij");
    assert_eq!(get_user_id_from_token("abcdefghij"), "user_abcdefghij");
    assert_eq!(get_user_id_from_token("ab"), "user_ab");
    assert_eq!(get_user_id_from_token(""), "user_");
}

#[test]
fn same_token_always_maps_to_same_user() {
    let token = "eyJhbGciOiJIUzI1NiJ9.payload.sig";
    assert_eq!(get_user_id_from_token(token), get_user_id_from_token(token));
}

#[test]
fn order_request_defaults_currency_and_builds_receipt() {
    let request = new_order_request(25000, None);
    assert_eq!(request.amount_minor, 25000);
    assert_eq!(request.currency, "INR");
    assert_eq!(request.receipt.len(), "rcpt_".len() + 16);
    assert!(request.receipt.starts_with("rcpt_"));
    let suffix = &request.receipt["rcpt_".len()..];
    assert!(suffix.chars().all(|c| c.is_ascii_digit() || c.is_ascii_uppercase()));

    let request = new_order_request(100, Some(String::from("USD")));
    assert_eq!(request.currency, "USD");
}

#[test]
fn finalize_order_keeps_the_gateway_id() {
    let (remote, local) = finalize_order(Some(String::from("order_real_abc")));
    assert_eq!(remote, "order_real_abc");
    assert!(local.starts_with("order_"));
    assert_eq!(local.len(), "order_".len() + 16);
}

#[test]
fn finalize_order_falls_back_to_a_mock_id() {
    let (remote, local) = finalize_order(None);
    assert!(remote.starts_with("order_mock_"));
    assert!(local.starts_with("order_"));
    let mock_suffix = &remote["order_mock_".len()..];
    let local_suffix = &local["order_".len()..];
    assert_eq!(mock_suffix.len(), 16);
    assert_eq!(local_suffix.len(), 16);
    // Both suffixes come from the same fresh identifier: the local one
    // is its upper-casing.
    assert_eq!(local_suffix, mock_suffix.to_uppercase());
    assert!(mock_suffix.chars().all(|c| c.is_ascii_digit() || ('a'..='f').contains(&c)));
}
