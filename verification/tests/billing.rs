use dota_coach::billing::{
    checkout_request, next_period, plan, reusable_charge, settle, validate_against_charge,
    BillingConfig, BillingError, SettlementAction, SettlementEvent, WebhookOutcome, DAY_SECONDS,
};
use dota_coach::payments::{PaymentStatus, PaymentUpdate};

fn update(amount_cents: Option<i64>, currency: Option<&str>) -> PaymentUpdate {
    PaymentUpdate {
        provider_payment_id: "5745".into(),
        order_id: None,
        status: PaymentStatus::Paid,
        amount_cents,
        currency: currency.map(str::to_string),
        pay_currency: None,
        event_key: "5745:paid".into(),
    }
}

fn config() -> BillingConfig {
    BillingConfig {
        plan: "monthly".into(),
        price_cents: 100,
        currency: "usd".into(),
        period_days: 30,
        trial_days: 7,
        enforce: true,
    }
}

#[test]
fn a_settlement_for_the_right_money_is_accepted() {
    assert!(validate_against_charge(100, "usd", &update(Some(100), Some("usd"))).is_ok());
    assert!(validate_against_charge(100, "usd", &update(Some(100), Some("USD"))).is_ok());
}

#[test]
fn a_settlement_for_the_wrong_money_grants_nothing() {
    assert!(matches!(
        validate_against_charge(100, "usd", &update(Some(1), Some("usd"))),
        Err(BillingError::AmountMismatch)
    ));
    assert!(matches!(
        validate_against_charge(100, "usd", &update(Some(100), Some("eur"))),
        Err(BillingError::AmountMismatch)
    ));
}

#[test]
fn a_notification_that_repeats_no_figures_leaves_the_stored_ones_standing() {
    assert!(validate_against_charge(100, "usd", &update(None, None)).is_ok());
}

#[test]
fn a_new_period_starts_where_the_paid_one_ends() {
    let now = 1_700_000_000;
    assert_eq!(next_period(None, now, 30), Some((now, now + 30 * DAY_SECONDS)));
    assert_eq!(
        next_period(Some(now + 10), now, 30),
        Some((now + 10, now + 10 + 30 * DAY_SECONDS))
    );
    assert_eq!(
        next_period(Some(now - 10), now, 30),
        Some((now, now + 30 * DAY_SECONDS))
    );
    assert_eq!(next_period(None, i64::MAX - 5, 1), None);
}

#[test]
fn a_redelivered_notification_is_acknowledged_and_not_applied() {
    let u = update(Some(100), Some("usd"));
    assert_eq!(
        settle(&u, SettlementEvent::Recorded { first_time: false }, 0, 30),
        SettlementAction::Finish(Ok(WebhookOutcome::Duplicate))
    );
    assert_eq!(
        settle(&u, SettlementEvent::Recorded { first_time: true }, 0, 30),
        SettlementAction::LockPayment
    );
}

#[test]
fn the_settlement_walk_for_a_paid_charge_buys_one_period() {
    let u = update(Some(100), Some("usd"));
    let now = 1_000;
    assert_eq!(
        settle(&u, SettlementEvent::Located { amount_cents: 100, currency: "usd".into() }, now, 30),
        SettlementAction::RecordEvent
    );
    assert_eq!(
        settle(&u, SettlementEvent::Located { amount_cents: 200, currency: "usd".into() }, now, 30),
        SettlementAction::Finish(Err(BillingError::AmountMismatch))
    );
    assert_eq!(
        settle(&u, SettlementEvent::Locked { stored: Some(PaymentStatus::Pending) }, now, 30),
        SettlementAction::WriteStatus
    );
    assert_eq!(
        settle(&u, SettlementEvent::Locked { stored: Some(PaymentStatus::Paid) }, now, 30),
        SettlementAction::Finish(Ok(WebhookOutcome::Ignored))
    );
    assert_eq!(
        settle(&u, SettlementEvent::StatusWritten, now, 30),
        SettlementAction::LockSubscription
    );
    assert_eq!(
        settle(
            &u,
            SettlementEvent::SubscriptionLocked { found: true, current_period_end: None },
            now,
            30
        ),
        SettlementAction::Activate { start: now, end: now + 30 * DAY_SECONDS }
    );
    assert_eq!(
        settle(&u, SettlementEvent::Activated, now, 30),
        SettlementAction::Finish(Ok(WebhookOutcome::Applied { activated: true }))
    );
    assert_eq!(
        settle(&u, SettlementEvent::NotLocated, now, 30),
        SettlementAction::Finish(Err(BillingError::UnknownPayment))
    );
}

#[test]
fn a_failed_charge_is_applied_without_buying_anything() {
    let mut u = update(None, None);
    u.status = PaymentStatus::Failed;
    assert_eq!(
        settle(&u, SettlementEvent::StatusWritten, 0, 30),
        SettlementAction::Finish(Ok(WebhookOutcome::Applied { activated: false }))
    );
}

#[test]
fn the_plan_and_checkout_follow_the_configuration() {
    let p = plan(&config());
    assert_eq!(p.name, "monthly");
    assert_eq!(p.amount_cents, 100);
    let r = checkout_request("order-1".into(), &config(), "https://api.example", "https://app.example");
    assert_eq!(r.order_id, "order-1");
    assert_eq!(r.description, "Dota Coach monthly subscription");
    assert_eq!(r.success_url, "https://app.example/billing?checkout=success");
    assert_eq!(r.cancel_url, "https://app.example/billing?checkout=cancelled");
    assert_eq!(r.ipn_callback_url, "https://api.example/api/billing/webhook");
}

#[test]
fn only_an_open_charge_with_a_page_is_worth_reusing() {
    let url = Some("https://pay.example/i/1".to_string());
    assert!(reusable_charge(PaymentStatus::Pending, &url));
    assert!(reusable_charge(PaymentStatus::Confirming, &url));
    assert!(!reusable_charge(PaymentStatus::Paid, &url));
    assert!(!reusable_charge(PaymentStatus::Pending, &None));
}

#[test]
fn a_redelivered_notification_ends_as_a_duplicate() {
    let u = update(Some(100), Some("usd"));
    let first = settle(&u, SettlementEvent::Located { amount_cents: 100, currency: "usd".into() }, 0, 30);
    assert_eq!(first, SettlementAction::RecordEvent);
    let second = settle(&u, SettlementEvent::Recorded { first_time: false }, 0, 30);
    assert_eq!(second, SettlementAction::Finish(Ok(WebhookOutcome::Duplicate)));
}
