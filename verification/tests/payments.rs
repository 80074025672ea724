use dota_coach::payments::{
    authenticate_notification, decimal_amount, event_key, into_update, map_status, truncate,
    PaymentError, PaymentReading, PaymentStatus, UnconfiguredPaymentProvider, PROVIDER,
    SIGNATURE_HEADER,
};
use hmac::{Hmac, Mac};
use sha2::Sha512;

const SECRET: &str = "ipn-secret";

const BODY: &str = r#"{"payment_id":"5745","payment_status":"finished","order_id":"11111111-1111-4111-8111-111111111111","price_amount":1.0,"price_currency":"usd","pay_currency":"usdttrc20"}"#;

fn sign(secret: &str, body: &str) -> String {
    let value: serde_json::Value = serde_json::from_str(body).unwrap();
    let canonical = serde_json::to_vec(&value).unwrap();

    let mut mac = Hmac::<Sha512>::new_from_slice(secret.as_bytes()).unwrap();
    mac.update(&canonical);
    hex::encode(mac.finalize().into_bytes())
}

/// The fields of `BODY` as the caller reads them once the signature holds.
fn reading(status: &str) -> PaymentReading {
    PaymentReading {
        payment_id: "5745".into(),
        payment_status: status.into(),
        order_id: Some("11111111-1111-4111-8111-111111111111".into()),
        amount_cents: Some(100),
        price_currency: Some("usd".into()),
        pay_currency: Some("usdttrc20".into()),
    }
}

#[test]
fn a_correctly_signed_notification_is_normalized() {
    let signature = sign(SECRET, BODY);
    assert!(authenticate_notification(Some(SECRET), Some(&signature), BODY.as_bytes()).is_ok());

    let update = into_update(&reading("finished")).unwrap();
    assert_eq!(update.provider_payment_id, "5745");
    assert_eq!(update.status, PaymentStatus::Paid);
    assert_eq!(
        update.order_id.as_deref(),
        Some("11111111-1111-4111-8111-111111111111")
    );
    assert_eq!(update.amount_cents, Some(100));
    assert_eq!(update.currency.as_deref(), Some("usd"));
}

#[test]
fn key_order_in_the_body_does_not_change_the_signature() {
    let reordered = r#"{"price_currency":"usd","payment_status":"finished","pay_currency":"usdttrc20","order_id":"11111111-1111-4111-8111-111111111111","price_amount":1.0,"payment_id":"5745"}"#;
    let signature = sign(SECRET, BODY);

    assert!(authenticate_notification(Some(SECRET), Some(&signature), reordered.as_bytes()).is_ok());
}

#[test]
fn a_forged_or_missing_signature_is_rejected_before_the_body_is_believed() {
    assert!(matches!(
        authenticate_notification(Some(SECRET), None, BODY.as_bytes()),
        Err(PaymentError::InvalidSignature)
    ));
    assert!(matches!(
        authenticate_notification(Some(SECRET), Some(&sign("other-secret", BODY)), BODY.as_bytes()),
        Err(PaymentError::InvalidSignature)
    ));
    assert!(matches!(
        authenticate_notification(Some(SECRET), Some("not-hex"), BODY.as_bytes()),
        Err(PaymentError::InvalidSignature)
    ));
}

#[test]
fn tampering_with_the_amount_invalidates_the_signature() {
    let signature = sign(SECRET, BODY);
    let tampered = BODY.replace("\"price_amount\":1.0", "\"price_amount\":0.01");

    assert!(matches!(
        authenticate_notification(Some(SECRET), Some(&signature), tampered.as_bytes()),
        Err(PaymentError::InvalidSignature)
    ));
}

#[test]
fn a_deployment_without_an_ipn_secret_verifies_nothing() {
    assert!(matches!(
        authenticate_notification(None, Some(&sign(SECRET, BODY)), BODY.as_bytes()),
        Err(PaymentError::NotConfigured)
    ));
    assert!(matches!(
        authenticate_notification(Some(""), Some(&sign(SECRET, BODY)), BODY.as_bytes()),
        Err(PaymentError::NotConfigured)
    ));
}

#[test]
fn a_body_that_is_not_json_is_an_invalid_response() {
    assert!(matches!(
        authenticate_notification(Some(SECRET), Some("00"), b"not json"),
        Err(PaymentError::InvalidResponse(_))
    ));
}

#[test]
fn a_signature_with_surrounding_whitespace_or_capitals_still_verifies() {
    let signature = format!("  {}\n", sign(SECRET, BODY).to_uppercase());
    assert!(authenticate_notification(Some(SECRET), Some(&signature), BODY.as_bytes()).is_ok());
}

#[test]
fn every_settlement_state_maps_to_exactly_one_domain_status() {
    assert_eq!(map_status("waiting"), Some(PaymentStatus::Pending));
    assert_eq!(map_status("confirming"), Some(PaymentStatus::Confirming));
    assert_eq!(map_status("finished"), Some(PaymentStatus::Paid));
    assert_eq!(map_status("failed"), Some(PaymentStatus::Failed));
    assert_eq!(map_status("expired"), Some(PaymentStatus::Expired));
    assert_eq!(map_status("refunded"), Some(PaymentStatus::Refunded));
    assert_eq!(map_status("partially_paid"), Some(PaymentStatus::Confirming));
    assert_eq!(map_status("settled_somehow"), None);
}

#[test]
fn the_same_charge_twice_produces_the_same_event_key() {
    let first = into_update(&reading("finished")).unwrap();
    let second = into_update(&reading("finished")).unwrap();

    assert_eq!(first.event_key, second.event_key);
    assert_eq!(first.event_key, "5745:paid");
}

#[test]
fn a_charge_moving_forward_produces_a_different_event_key() {
    let a = into_update(&reading("finished")).unwrap();
    let b = into_update(&reading("confirming")).unwrap();
    assert_ne!(a.event_key, b.event_key);
    assert_eq!(event_key("5745", PaymentStatus::Confirming), "5745:confirming");
}

#[test]
fn an_unknown_status_is_named_in_the_error() {
    assert_eq!(
        into_update(&reading("settled_somehow")),
        Err(PaymentError::InvalidResponse("unknown payment status settled_somehow".into()))
    );
}

#[test]
fn reported_currencies_are_lowercased() {
    let mut r = reading("waiting");
    r.price_currency = Some("USD".into());
    r.pay_currency = Some("USDTTRC20".into());
    let u = into_update(&r).unwrap();
    assert_eq!(u.currency.as_deref(), Some("usd"));
    assert_eq!(u.pay_currency.as_deref(), Some("usdttrc20"));
    assert_eq!(u.status, PaymentStatus::Pending);
}

#[test]
fn money_is_written_as_whole_units_and_two_digits() {
    assert_eq!(decimal_amount(100), "1.00");
    assert_eq!(decimal_amount(1_999), "19.99");
    assert_eq!(decimal_amount(5), "0.05");
    assert_eq!(decimal_amount(0), "0.00");
    assert_eq!(decimal_amount(-250), "-2.50");
}

#[test]
fn open_states_are_pending_and_confirming_only() {
    assert!(PaymentStatus::Pending.is_open());
    assert!(PaymentStatus::Confirming.is_open());
    assert!(!PaymentStatus::Paid.is_open());
    assert!(!PaymentStatus::Refunded.is_open());
    assert_eq!(PaymentStatus::Paid.slug(), "paid");
}

#[test]
fn provider_error_bodies_are_logged_as_a_bounded_prefix() {
    assert_eq!(truncate("short"), "short");
    let long = "ü".repeat(400);
    assert_eq!(truncate(&long).chars().count(), 300);
}

#[test]
fn without_a_provider_checkout_is_unavailable() {
    let p = UnconfiguredPaymentProvider;
    assert!(!p.is_configured());
    assert_eq!(p.name(), "none");
    assert!(matches!(p.handle_webhook(Some("x"), b"{}"), Err(PaymentError::NotConfigured)));
    assert!(PaymentError::NotConfigured.user_note().contains("not configured"));
    assert_eq!(PROVIDER, "nowpayments");
    assert_eq!(SIGNATURE_HEADER, "x-nowpayments-sig");
}
