//! Turning money into access.
//!
//! Three rules hold throughout. The backend is the source of truth: access
//! follows from stored timestamps, and a paid window is only opened by a
//! signed provider notification or by asking the provider directly.
//! Applying a settlement is idempotent: every accepted notification is
//! recorded under a unique key in the same transaction that applies it, so
//! a redelivery cannot buy a second month. And a notification is validated
//! against what was asked for: signature first, then the amount and the
//! currency; a mismatch on any of them grants nothing.
//!
//! The storage steps belong to the caller. [`settle`] decides, one step at a
//! time, what the caller does next.

use vstd::prelude::*;
use vstd::string::StringSliceAdditionalSpecFns;
use vstd::utf8::encode_utf8;

use crate::payments::{spec_is_open, CheckoutRequest, PaymentError, PaymentStatus, PaymentUpdate};
use crate::text::{owned, push_str};

verus! {

/// Seconds in a day.
pub const DAY_SECONDS: i64 = 86400;

/// What happened to one provider notification.
#[derive(Debug, Clone, Copy, PartialEq, Eq, Structural)]
pub enum WebhookOutcome {
    /// Recorded and applied; `activated` says whether it bought a period.
    Applied { activated: bool },
    /// Already seen: acknowledged without being applied a second time.
    Duplicate,
    /// Valid, but the charge had already reached a final state. Recorded for
    /// the audit trail, applied to nothing.
    Ignored,
}

#[derive(Debug, Clone, PartialEq)]
pub enum BillingError {
    Provider(PaymentError),
    /// The notification is about a charge this deployment never opened.
    UnknownPayment,
    /// Signed correctly, but describing a different amount or currency than
    /// the charge was opened for. Grants nothing.
    AmountMismatch,
}

/// The billing configuration a deployment runs with.
#[derive(Debug, Clone, PartialEq)]
pub struct BillingConfig {
    pub plan: String,
    pub price_cents: i64,
    pub currency: String,
    pub period_days: i64,
    pub trial_days: i64,
    /// Off on a deployment with no payment provider: nothing is withheld
    /// that nobody could pay to unlock.
    pub enforce: bool,
}

/// The plan a deployment sells.
#[derive(Debug, Clone, PartialEq)]
pub struct Plan {
    pub name: String,
    pub amount_cents: i64,
    pub currency: String,
    pub period_days: i64,
    pub trial_days: i64,
}

pub fn plan(config: &BillingConfig) -> (p: Plan)
    ensures
        p.name@ == config.plan@,
        p.amount_cents == config.price_cents,
        p.currency@ == config.currency@,
        p.period_days == config.period_days,
        p.trial_days == config.trial_days,
{
    Plan {
        name: config.plan.clone(),
        amount_cents: config.price_cents,
        currency: config.currency.clone(),
        period_days: config.period_days,
        trial_days: config.trial_days,
    }
}

/// The charge a checkout opens: the reserved row's id as the order, the
/// configured price, and the three addresses the provider sends the
/// browser and the notification to.
pub fn checkout_request(
    order_id: String,
    config: &BillingConfig,
    public_base_url: &str,
    frontend_base_url: &str,
) -> (r: CheckoutRequest)
    ensures
        r.order_id@ == order_id@,
        r.amount_cents == config.price_cents,
        r.currency@ == config.currency@,
        r.description@ == "Dota Coach "@ + config.plan@ + " subscription"@,
        r.success_url@ == frontend_base_url@ + "/billing?checkout=success"@,
        r.cancel_url@ == frontend_base_url@ + "/billing?checkout=cancelled"@,
        r.ipn_callback_url@ == public_base_url@ + "/api/billing/webhook"@,
{
    let mut description = owned("Dota Coach ");
    push_str(&mut description, config.plan.as_str());
    push_str(&mut description, " subscription");
    let mut success_url = owned(frontend_base_url);
    push_str(&mut success_url, "/billing?checkout=success");
    let mut cancel_url = owned(frontend_base_url);
    push_str(&mut cancel_url, "/billing?checkout=cancelled");
    let mut ipn_callback_url = owned(public_base_url);
    push_str(&mut ipn_callback_url, "/api/billing/webhook");
    CheckoutRequest {
        order_id,
        amount_cents: config.price_cents,
        currency: config.currency.clone(),
        description,
        success_url,
        cancel_url,
        ipn_callback_url,
    }
}

/// An open charge is worth sending the user back to only while it can still
/// settle and has a hosted page to send them to.
pub fn reusable_charge(status: PaymentStatus, payment_url: &Option<String>) -> (b: bool)
    ensures
        b == (spec_is_open(status) && payment_url is Some),
{
    status.is_open() && payment_url.is_some()
}

pub open spec fn ascii_lower(b: u8) -> u8 {
    if 65 <= b <= 90 {
        (b + 32) as u8
    } else {
        b
    }
}

/// `str::eq_ignore_ascii_case`: the same bytes once ASCII letters are
/// folded to one case.
pub open spec fn same_ignoring_ascii_case(a: Seq<u8>, b: Seq<u8>) -> bool {
    a.len() == b.len() && forall|i: int| 0 <= i < a.len() ==> ascii_lower(a[i]) == ascii_lower(b[i])
}

fn lower_byte(b: u8) -> (r: u8)
    ensures
        r == ascii_lower(b),
{
    if 65 <= b && b <= 90 {
        b + 32
    } else {
        b
    }
}

fn eq_ignore_ascii_case(a: &str, b: &str) -> (r: bool)
    ensures
        r == same_ignoring_ascii_case(a.spec_bytes(), b.spec_bytes()),
{
    let x = a.as_bytes();
    let y = b.as_bytes();
    if x.len() != y.len() {
        return false;
    }
    let mut i: usize = 0;
    while i < x.len()
        invariant
            x@ == a.spec_bytes(),
            y@ == b.spec_bytes(),
            x@.len() == y@.len(),
            i <= x@.len(),
            forall|k: int| 0 <= k < i ==> ascii_lower(x@[k]) == ascii_lower(y@[k]),
        decreases x@.len() - i,
    {
        if lower_byte(x[i]) != lower_byte(y[i]) {
            return false;
        }
        i = i + 1;
    }
    true
}

/// A signature proves who sent a message, not that it describes what was
/// asked for: a reported amount must be the charge's, and a reported
/// currency the charge's up to letter case. What the notification does not
/// repeat, it cannot contradict.
pub open spec fn matches_charge(amount_cents: i64, currency: Seq<char>, update: PaymentUpdate) -> bool {
    &&& (update.amount_cents matches Some(c) ==> c == amount_cents)
    &&& (update.currency matches Some(c) ==> same_ignoring_ascii_case(
        encode_utf8(c@),
        encode_utf8(currency),
    ))
}

pub fn validate_against_charge(amount_cents: i64, currency: &str, update: &PaymentUpdate) -> (r:
    Result<(), BillingError>)
    ensures
        r is Ok <==> matches_charge(amount_cents, currency@, *update),
        r is Err ==> r matches Err(BillingError::AmountMismatch),
{
    match update.amount_cents {
        Some(c) => {
            if c != amount_cents {
                return Err(BillingError::AmountMismatch);
            }
        },
        None => {},
    }
    match &update.currency {
        Some(c) => {
            if !eq_ignore_ascii_case(c.as_str(), currency) {
                return Err(BillingError::AmountMismatch);
            }
        },
        None => {},
    }
    Ok(())
}

/// The window a settled charge buys: it starts where the paid period ends,
/// or now if that has passed or there is none, and runs `period_days`.
pub open spec fn spec_next_period(current_end: Option<i64>, now: i64, period_days: i64) -> (int, int) {
    let start = match current_end {
        Some(end) => if end > now {
            end as int
        } else {
            now as int
        },
        None => now as int,
    };
    (start, start + period_days * DAY_SECONDS)
}

pub fn next_period(current_end: Option<i64>, now: i64, period_days: i64) -> (r: Option<(i64, i64)>)
    ensures
        match r {
            Some((start, end)) => (start as int, end as int) == spec_next_period(
                current_end,
                now,
                period_days,
            ),
            None => {
                let (s, e) = spec_next_period(current_end, now, period_days);
                e < i64::MIN || e > i64::MAX
            },
        },
{
    let start = match current_end {
        Some(end) => if end > now {
            end
        } else {
            now
        },
        None => now,
    };
    let end: i128 = start as i128 + (period_days as i128) * (DAY_SECONDS as i128);
    if end < i64::MIN as i128 || end > i64::MAX as i128 {
        return None;
    }
    Some((start, end as i64))
}

/// What applying a notification has learned so far.
#[derive(Debug, Clone, PartialEq)]
pub enum SettlementEvent {
    /// The charge the update names, with the figures it was opened for.
    Located { amount_cents: i64, currency: String },
    /// No charge matches: not by the order id, not by the provider's id.
    NotLocated,
    /// The notification was recorded; false when it had been seen before.
    Recorded { first_time: bool },
    /// The charge's stored status under its row lock; `None` when the row
    /// has gone.
    Locked { stored: Option<PaymentStatus> },
    /// The reported status was written to the charge.
    StatusWritten,
    /// The account's subscription under its lock, with the end of its paid
    /// period if it has one; `found` is false when it has gone.
    SubscriptionLocked { found: bool, current_period_end: Option<i64> },
    /// The subscription now runs to the new period's end.
    Activated,
}

/// What the caller does next.
#[derive(Debug, PartialEq)]
pub enum SettlementAction {
    /// Record the notification under its event key, in the transaction.
    RecordEvent,
    /// Lock the charge's row and read its stored status.
    LockPayment,
    /// Write the reported status (and the provider's ids) to the charge.
    WriteStatus,
    /// Lock the account's subscription.
    LockSubscription,
    /// Extend the subscription to this window.
    Activate { start: i64, end: i64 },
    /// Commit what was done and answer.
    Finish(Result<WebhookOutcome, BillingError>),
}

/// The one path from a trusted update to stored access, as a step function.
pub open spec fn settlement_step(
    update: PaymentUpdate,
    event: SettlementEvent,
    now: i64,
    period_days: i64,
) -> SettlementAction {
    match event {
        SettlementEvent::NotLocated => SettlementAction::Finish(Err(BillingError::UnknownPayment)),
        SettlementEvent::Located { amount_cents, currency } => if matches_charge(amount_cents, currency@, update) {
            SettlementAction::RecordEvent
        } else {
            SettlementAction::Finish(Err(BillingError::AmountMismatch))
        },
        SettlementEvent::Recorded { first_time } => if first_time {
            SettlementAction::LockPayment
        } else {
            SettlementAction::Finish(Ok(WebhookOutcome::Duplicate))
        },
        SettlementEvent::Locked { stored } => match stored {
            None => SettlementAction::Finish(Err(BillingError::UnknownPayment)),
            Some(s) => if spec_is_open(s) {
                SettlementAction::WriteStatus
            } else {
                SettlementAction::Finish(Ok(WebhookOutcome::Ignored))
            },
        },
        SettlementEvent::StatusWritten => if update.status == PaymentStatus::Paid {
            SettlementAction::LockSubscription
        } else {
            SettlementAction::Finish(Ok(WebhookOutcome::Applied { activated: false }))
        },
        SettlementEvent::SubscriptionLocked { found, current_period_end } => if !found {
            SettlementAction::Finish(Err(BillingError::UnknownPayment))
        } else {
            let (start, end) = spec_next_period(current_period_end, now, period_days);
            if i64::MIN <= end <= i64::MAX {
                SettlementAction::Activate { start: start as i64, end: end as i64 }
            } else {
                SettlementAction::Finish(Err(BillingError::UnknownPayment))
            }
        },
        SettlementEvent::Activated => SettlementAction::Finish(
            Ok(WebhookOutcome::Applied { activated: true }),
        ),
    }
}

/// Decide the next step of applying `update`, given what the last step
/// found. `now` is Unix seconds. A window that cannot be represented is
/// refused rather than wrapped.
pub fn settle(update: &PaymentUpdate, event: SettlementEvent, now: i64, period_days: i64) -> (a:
    SettlementAction)
    ensures
        a == settlement_step(*update, event, now, period_days),
{
    match event {
        SettlementEvent::NotLocated => SettlementAction::Finish(Err(BillingError::UnknownPayment)),
        SettlementEvent::Located { amount_cents, currency } => {
            match validate_against_charge(amount_cents, currency.as_str(), update) {
                Ok(()) => SettlementAction::RecordEvent,
                Err(_) => SettlementAction::Finish(Err(BillingError::AmountMismatch)),
            }
        },
        SettlementEvent::Recorded { first_time } => if first_time {
            SettlementAction::LockPayment
        } else {
            SettlementAction::Finish(Ok(WebhookOutcome::Duplicate))
        },
        SettlementEvent::Locked { stored } => match stored {
            None => SettlementAction::Finish(Err(BillingError::UnknownPayment)),
            Some(s) => if s.is_open() {
                SettlementAction::WriteStatus
            } else {
                SettlementAction::Finish(Ok(WebhookOutcome::Ignored))
            },
        },
        SettlementEvent::StatusWritten => if update.status == PaymentStatus::Paid {
            SettlementAction::LockSubscription
        } else {
            SettlementAction::Finish(Ok(WebhookOutcome::Applied { activated: false }))
        },
        SettlementEvent::SubscriptionLocked { found, current_period_end } => {
            if !found {
                return SettlementAction::Finish(Err(BillingError::UnknownPayment));
            }
            match next_period(current_period_end, now, period_days) {
                Some((start, end)) => SettlementAction::Activate { start, end },
                None => SettlementAction::Finish(Err(BillingError::UnknownPayment)),
            }
        },
        SettlementEvent::Activated => SettlementAction::Finish(
            Ok(WebhookOutcome::Applied { activated: true }),
        ),
    }
}

/// A notification seen before is acknowledged and never applied again: a
/// retry cannot buy a second month.
pub proof fn redelivery_is_never_applied(update: PaymentUpdate, now: i64, period_days: i64)
    ensures
        settlement_step(update, SettlementEvent::Recorded { first_time: false }, now, period_days)
            == SettlementAction::Finish(Ok(WebhookOutcome::Duplicate)),
{
}

/// Only a settlement for the money the charge was opened for goes on to be
/// recorded; any other grants nothing.
pub proof fn wrong_money_grants_nothing(
    update: PaymentUpdate,
    amount_cents: i64,
    currency: String,
    now: i64,
    period_days: i64,
)
    requires
        !matches_charge(amount_cents, currency@, update),
    ensures
        settlement_step(
            update,
            SettlementEvent::Located { amount_cents, currency },
            now,
            period_days,
        ) == SettlementAction::Finish(Err(BillingError::AmountMismatch)),
{
}

/// Only a paid charge reaches the subscription; every other status is
/// applied without buying a period.
pub proof fn only_payment_activates(update: PaymentUpdate, now: i64, period_days: i64)
    ensures
        update.status == PaymentStatus::Paid ==> settlement_step(
            update,
            SettlementEvent::StatusWritten,
            now,
            period_days,
        ) == SettlementAction::LockSubscription,
        update.status != PaymentStatus::Paid ==> settlement_step(
            update,
            SettlementEvent::StatusWritten,
            now,
            period_days,
        ) == SettlementAction::Finish(Ok(WebhookOutcome::Applied { activated: false })),
{
}

/// A charge that already reached a final state is recorded and applied to
/// nothing.
pub proof fn finished_charges_stay_finished(
    update: PaymentUpdate,
    stored: PaymentStatus,
    now: i64,
    period_days: i64,
)
    requires
        !spec_is_open(stored),
    ensures
        settlement_step(update, SettlementEvent::Locked { stored: Some(stored) }, now, period_days)
            == SettlementAction::Finish(Ok(WebhookOutcome::Ignored)),
{
}

/// A new period never starts before now nor before the paid period ends,
/// and lasts exactly the plan's length.
pub proof fn periods_extend_rather_than_overlap(current_end: Option<i64>, now: i64, period_days: i64)
    ensures
        spec_next_period(current_end, now, period_days).0 >= now,
        current_end matches Some(end) ==> spec_next_period(current_end, now, period_days).0 >= end,
        spec_next_period(current_end, now, period_days).1 - spec_next_period(
            current_end,
            now,
            period_days,
        ).0 == period_days * DAY_SECONDS,
{
}

/// Which event answers an action: the step the caller performed and what it
/// found. A finished run is answered by nothing.
pub open spec fn answers(action: SettlementAction, event: SettlementEvent) -> bool {
    match action {
        SettlementAction::RecordEvent => event is Recorded,
        SettlementAction::LockPayment => event is Locked,
        SettlementAction::WriteStatus => event is StatusWritten,
        SettlementAction::LockSubscription => event is SubscriptionLocked,
        SettlementAction::Activate { .. } => event is Activated,
        SettlementAction::Finish(_) => false,
    }
}

/// `events` is a run of the settlement: it starts by locating the charge,
/// and every later event answers the action the one before it led to.
pub open spec fn is_settlement_run(
    update: PaymentUpdate,
    events: Seq<SettlementEvent>,
    now: i64,
    period_days: i64,
) -> bool {
    &&& events.len() >= 1
    &&& (events[0] is Located || events[0] is NotLocated)
    &&& forall|k: int, l: int|
        #![trigger events[k], events[l]]
        0 <= k && l == k + 1 && l < events.len() ==> answers(
            settlement_step(update, events[k], now, period_days),
            events[l],
        )
}

/// A notification recorded before ends its run as a duplicate: the charge's
/// status is never written and no period is bought, however the run went
/// up to that point.
pub proof fn a_redelivery_ends_as_a_duplicate(
    update: PaymentUpdate,
    events: Seq<SettlementEvent>,
    now: i64,
    period_days: i64,
    i: int,
)
    requires
        is_settlement_run(update, events, now, period_days),
        0 <= i < events.len(),
        events[i] == (SettlementEvent::Recorded { first_time: false }),
    ensures
        i == events.len() - 1,
        settlement_step(update, events[i], now, period_days) == SettlementAction::Finish(
            Ok(WebhookOutcome::Duplicate),
        ),
        forall|k: int|
            0 <= k < events.len() ==> settlement_step(update, #[trigger] events[k], now, period_days)
                != SettlementAction::WriteStatus && !(settlement_step(
                update,
                events[k],
                now,
                period_days,
            ) is Activate),
{
    // The first event locates the charge, so the recording is the second.
    assert(i >= 1);
    let h = i - 1;
    assert(answers(settlement_step(update, events[h], now, period_days), events[i]));
    if h >= 1 {
        let g = h - 1;
        assert(answers(settlement_step(update, events[g], now, period_days), events[h]));
        assert(false);
    }
    assert(h == 0);
    if i + 1 < events.len() {
        let j = i + 1;
        assert(answers(settlement_step(update, events[i], now, period_days), events[j]));
    }
    assert forall|k: int| 0 <= k < events.len() implies settlement_step(
        update,
        #[trigger] events[k],
        now,
        period_days,
    ) != SettlementAction::WriteStatus && !(settlement_step(
        update,
        events[k],
        now,
        period_days,
    ) is Activate) by {
        assert(k == 0 || k == 1);
    }
}

} // verus!
