//! The payment provider boundary, and what NOWPayments' answers mean.
//!
//! Three verbs and no vendor vocabulary cross it: open a charge, ask what
//! happened to a charge, and turn a signed notification into a normalized
//! update. Nothing a provider returns is trusted beyond its signature: the
//! amount, currency and order id of every update are re-checked against
//! what was actually asked for before a day of access is granted.

use vstd::prelude::*;
use vstd::string::StringSliceAdditionalSpecFns;
use hmac::Mac;

use crate::text::{chars_of, i64_text, lowercase, owned, to_lowercase, push_char, push_str, same_text, signed_decimal, string_of, trim, trim_chars};

verus! {

/// The provider's stored name.
pub const PROVIDER: &'static str = "nowpayments";

/// The header NOWPayments signs its notifications with.
pub const SIGNATURE_HEADER: &'static str = "x-nowpayments-sig";

/// Where a charge stands.
#[derive(Debug, Clone, Copy, PartialEq, Eq, Structural)]
pub enum PaymentStatus {
    Pending,
    Confirming,
    Paid,
    Failed,
    Expired,
    Refunded,
}

pub open spec fn spec_status_slug(s: PaymentStatus) -> Seq<char> {
    match s {
        PaymentStatus::Pending => "pending"@,
        PaymentStatus::Confirming => "confirming"@,
        PaymentStatus::Paid => "paid"@,
        PaymentStatus::Failed => "failed"@,
        PaymentStatus::Expired => "expired"@,
        PaymentStatus::Refunded => "refunded"@,
    }
}

/// A charge that can still settle.
pub open spec fn spec_is_open(s: PaymentStatus) -> bool {
    s == PaymentStatus::Pending || s == PaymentStatus::Confirming
}

impl PaymentStatus {
    /// The stored name.
    pub fn slug(&self) -> (s: &'static str)
        ensures
            s@ == spec_status_slug(*self),
    {
        match self {
            PaymentStatus::Pending => "pending",
            PaymentStatus::Confirming => "confirming",
            PaymentStatus::Paid => "paid",
            PaymentStatus::Failed => "failed",
            PaymentStatus::Expired => "expired",
            PaymentStatus::Refunded => "refunded",
        }
    }

    pub fn is_open(&self) -> (b: bool)
        ensures
            b == spec_is_open(*self),
    {
        match self {
            PaymentStatus::Pending | PaymentStatus::Confirming => true,
            _ => false,
        }
    }
}

/// What a provider is asked to collect.
#[derive(Debug, Clone, PartialEq)]
pub struct CheckoutRequest {
    /// The payment row's id. Comes back on the notification and is how an
    /// update is matched to a charge.
    pub order_id: String,
    /// Minor units of `currency`: never a float, and never the coin amount.
    pub amount_cents: i64,
    /// ISO-4217, lowercase (`usd`).
    pub currency: String,
    pub description: String,
    pub success_url: String,
    pub cancel_url: String,
    pub ipn_callback_url: String,
}

/// An opened charge.
#[derive(Debug, Clone, PartialEq)]
pub struct CheckoutSession {
    pub provider_payment_id: String,
    /// Hosted checkout page, when the provider offers one.
    pub payment_url: Option<String>,
    pub status: PaymentStatus,
}

/// A provider's statement about one charge, normalized. The amount and
/// currency are absent when the notification does not repeat them; the
/// stored figures then stand.
#[derive(Debug, Clone, PartialEq)]
pub struct PaymentUpdate {
    pub provider_payment_id: String,
    /// The order id that was sent, echoed back.
    pub order_id: Option<String>,
    pub status: PaymentStatus,
    pub amount_cents: Option<i64>,
    pub currency: Option<String>,
    pub pay_currency: Option<String>,
    /// Stable key for this exact notification; a retry must not buy a
    /// second month.
    pub event_key: String,
}

#[derive(Debug, Clone, PartialEq)]
pub enum PaymentError {
    /// No API key or IPN secret: nothing was attempted.
    NotConfigured,
    Unavailable(String),
    RateLimited,
    /// The notification did not carry a valid signature.
    InvalidSignature,
    InvalidResponse(String),
}

pub open spec fn spec_payment_note(e: PaymentError) -> Seq<char> {
    match e {
        PaymentError::NotConfigured => "Payments are not configured on this server, so checkout is unavailable."@,
        PaymentError::RateLimited => "The payment provider is rate limiting us. Try again in a minute."@,
        _ => "The payment provider is unavailable right now. Try again shortly."@,
    }
}

impl PaymentError {
    /// A short, user-safe explanation for the checkout path.
    pub fn user_note(&self) -> (s: &'static str)
        ensures
            s@ == spec_payment_note(*self),
    {
        match self {
            PaymentError::NotConfigured => "Payments are not configured on this server, so checkout is unavailable.",
            PaymentError::RateLimited => "The payment provider is rate limiting us. Try again in a minute.",
            _ => "The payment provider is unavailable right now. Try again shortly.",
        }
    }
}

/// A provider that is not there: checkout is unavailable, and every other
/// part of the product works without it.
#[derive(Debug, Clone, PartialEq)]
pub struct UnconfiguredPaymentProvider;

impl UnconfiguredPaymentProvider {
    pub fn name(&self) -> (s: &'static str)
        ensures
            s@ == "none"@,
    {
        "none"
    }

    pub fn is_configured(&self) -> (b: bool)
        ensures
            !b,
    {
        false
    }

    pub fn signature_header(&self) -> (s: &'static str)
        ensures
            s@ == "x-signature"@,
    {
        "x-signature"
    }

    pub fn create_payment(&self, request: &CheckoutRequest) -> (r: Result<CheckoutSession, PaymentError>)
        ensures
            r matches Err(PaymentError::NotConfigured),
    {
        Err(PaymentError::NotConfigured)
    }

    pub fn get_payment_status(&self, provider_payment_id: &str) -> (r: Result<PaymentUpdate, PaymentError>)
        ensures
            r matches Err(PaymentError::NotConfigured),
    {
        Err(PaymentError::NotConfigured)
    }

    pub fn handle_webhook(&self, signature: Option<&str>, body: &[u8]) -> (r: Result<
        PaymentUpdate,
        PaymentError,
    >)
        ensures
            r matches Err(PaymentError::NotConfigured),
    {
        Err(PaymentError::NotConfigured)
    }
}

// ---------------------------------------------------------------------------
// NOWPayments' vocabulary
// ---------------------------------------------------------------------------

/// NOWPayments' settlement states mapped to the domain's. `partially_paid`
/// is not settled: the user owes the rest. An unknown state is no state at
/// all, never "paid".
pub open spec fn spec_map_status(raw: Seq<char>) -> Option<PaymentStatus> {
    if raw == "waiting"@ {
        Some(PaymentStatus::Pending)
    } else if raw == "confirming"@ || raw == "confirmed"@ || raw == "sending"@ || raw
        == "partially_paid"@ {
        Some(PaymentStatus::Confirming)
    } else if raw == "finished"@ {
        Some(PaymentStatus::Paid)
    } else if raw == "failed"@ {
        Some(PaymentStatus::Failed)
    } else if raw == "expired"@ {
        Some(PaymentStatus::Expired)
    } else if raw == "refunded"@ {
        Some(PaymentStatus::Refunded)
    } else {
        None
    }
}

pub fn map_status(raw: &str) -> (s: Option<PaymentStatus>)
    ensures
        s == spec_map_status(raw@),
{
    if same_text(raw, "waiting") {
        Some(PaymentStatus::Pending)
    } else if same_text(raw, "confirming") || same_text(raw, "confirmed") || same_text(raw, "sending")
        || same_text(raw, "partially_paid") {
        Some(PaymentStatus::Confirming)
    } else if same_text(raw, "finished") {
        Some(PaymentStatus::Paid)
    } else if same_text(raw, "failed") {
        Some(PaymentStatus::Failed)
    } else if same_text(raw, "expired") {
        Some(PaymentStatus::Expired)
    } else if same_text(raw, "refunded") {
        Some(PaymentStatus::Refunded)
    } else {
        None
    }
}

/// Each payment state is read from its own provider names and no others:
/// only `finished` settles a charge and only `failed` fails it; `confirming`,
/// `confirmed`, `sending` and `partially_paid` are all still confirming; a
/// name the provider never sends is no state at all.
pub proof fn each_status_comes_from_its_own_names(raw: Seq<char>)
    ensures
        spec_map_status(raw) == Some(PaymentStatus::Pending) <==> raw == "waiting"@,
        spec_map_status(raw) == Some(PaymentStatus::Confirming) <==> (raw == "confirming"@ || raw
            == "confirmed"@ || raw == "sending"@ || raw == "partially_paid"@),
        spec_map_status(raw) == Some(PaymentStatus::Paid) <==> raw == "finished"@,
        spec_map_status(raw) == Some(PaymentStatus::Failed) <==> raw == "failed"@,
        spec_map_status(raw) == Some(PaymentStatus::Expired) <==> raw == "expired"@,
        spec_map_status(raw) == Some(PaymentStatus::Refunded) <==> raw == "refunded"@,
{
    reveal_strlit("waiting");
    reveal_strlit("confirming");
    reveal_strlit("confirmed");
    reveal_strlit("sending");
    reveal_strlit("partially_paid");
    reveal_strlit("finished");
    reveal_strlit("failed");
    reveal_strlit("expired");
    reveal_strlit("refunded");
    assert("waiting"@[0] != "sending"@[0] && "waiting"@[0] != "expired"@[0] && "sending"@[0]
        != "expired"@[0]);
    assert("finished"@[1] != "refunded"@[1]);
    assert("failed"@.len() == 6 && "waiting"@.len() == 7 && "sending"@.len() == 7 && "expired"@.len() == 7
        && "finished"@.len() == 8 && "refunded"@.len() == 8 && "confirmed"@.len() == 9
        && "confirming"@.len() == 10 && "partially_paid"@.len() == 14);
}

/// Payment id plus status: the same charge moving from confirming to
/// finished is two events, but a redelivery of either is one.
pub open spec fn spec_event_key(payment_id: Seq<char>, status: PaymentStatus) -> Seq<char> {
    payment_id + ":"@ + spec_status_slug(status)
}

pub fn event_key(payment_id: &str, status: PaymentStatus) -> (k: String)
    ensures
        k@ == spec_event_key(payment_id@, status),
{
    let mut k = owned(payment_id);
    push_str(&mut k, ":");
    push_str(&mut k, status.slug());
    k
}

/// One charge, as the status endpoint or a notification reports it. The
/// price arrives as a decimal figure the caller has already turned into
/// minor units.
#[derive(Debug, Clone, PartialEq)]
pub struct PaymentReading {
    pub payment_id: String,
    pub payment_status: String,
    pub order_id: Option<String>,
    pub amount_cents: Option<i64>,
    pub price_currency: Option<String>,
    pub pay_currency: Option<String>,
}

pub open spec fn lowercase_opt(o: Option<String>) -> Option<Seq<char>> {
    match o {
        Some(s) => Some(lowercase(s@)),
        None => None,
    }
}

fn lowercase_option(o: &Option<String>) -> (r: Option<String>)
    ensures
        match r {
            Some(s) => lowercase_opt(*o) == Some(s@),
            None => o is None,
        },
{
    match o {
        Some(s) => Some(to_lowercase(s.as_str())),
        None => None,
    }
}

/// A charge's reading as a normalized update; an unknown status is an
/// invalid response naming it.
pub fn into_update(reading: &PaymentReading) -> (r: Result<PaymentUpdate, PaymentError>)
    ensures
        match spec_map_status(reading.payment_status@) {
            None => r matches Err(PaymentError::InvalidResponse(m)) && m@ == "unknown payment status "@
                + reading.payment_status@,
            Some(status) => r matches Ok(u) && u.status == status && u.provider_payment_id@
                == reading.payment_id@ && u.order_id == reading.order_id && u.amount_cents
                == reading.amount_cents && opt_view(u.currency) == lowercase_opt(
                reading.price_currency,
            ) && opt_view(u.pay_currency) == lowercase_opt(reading.pay_currency) && u.event_key@
                == spec_event_key(reading.payment_id@, status),
        },
{
    let status = match map_status(reading.payment_status.as_str()) {
        Some(s) => s,
        None => {
            let mut m = owned("unknown payment status ");
            push_str(&mut m, reading.payment_status.as_str());
            return Err(PaymentError::InvalidResponse(m));
        },
    };
    Ok(
        PaymentUpdate {
            event_key: event_key(reading.payment_id.as_str(), status),
            provider_payment_id: reading.payment_id.clone(),
            order_id: reading.order_id.clone(),
            status,
            amount_cents: reading.amount_cents,
            currency: lowercase_option(&reading.price_currency),
            pay_currency: lowercase_option(&reading.pay_currency),
        },
    )
}

pub open spec fn opt_view(o: Option<String>) -> Option<Seq<char>> {
    match o {
        Some(s) => Some(s@),
        None => None,
    }
}

/// `n` divided by a hundred, rounded toward zero, as Rust's `/` does.
pub open spec fn whole_units(n: int) -> int {
    if n >= 0 {
        n / 100
    } else {
        -((-n) / 100)
    }
}

/// The two-digit cents of `n`, without a sign.
pub open spec fn cents_part(n: int) -> int {
    let r = n - whole_units(n) * 100;
    if r < 0 {
        -r
    } else {
        r
    }
}

/// Minor units as the decimal figure the provider expects: whole units, a
/// point, and the cents in two digits. Integer maths throughout.
pub open spec fn spec_decimal_amount(cents: i64) -> Seq<char> {
    let c = cents_part(cents as int);
    signed_decimal(whole_units(cents as int)) + "."@ + seq![
        crate::text::digit_char((c / 10) as nat),
        crate::text::digit_char((c % 10) as nat),
    ]
}

pub fn decimal_amount(cents: i64) -> (s: String)
    ensures
        s@ == spec_decimal_amount(cents),
{
    let whole: i64 = cents / 100;
    let rest: i64 = cents % 100;
    let c: i64 = if rest < 0 { -rest } else { rest };
    assert(whole == whole_units(cents as int));
    assert(c == cents_part(cents as int));
    let mut s = i64_text(whole);
    push_str(&mut s, ".");
    push_char(&mut s, digit((c / 10) as u8));
    push_char(&mut s, digit((c % 10) as u8));
    s
}

fn digit(d: u8) -> (c: char)
    requires
        d < 10,
    ensures
        c == crate::text::digit_char(d as nat),
{
    let c = (d + 48) as char;
    assert(c == crate::text::digit_char(d as nat)) by {
        reveal_with_fuel(crate::text::digit_char, 1);
    }
    c
}

/// Provider error bodies are unbounded; a bounded prefix is what is logged.
pub fn truncate(detail: &str) -> (s: String)
    ensures
        s@ == (if detail@.len() <= 300 {
            detail@
        } else {
            detail@.take(300)
        }),
{
    let all = chars_of(detail);
    if all.len() <= 300 {
        return string_of(&all);
    }
    let head = crate::text::slice_chars(&all, 0, 300);
    proof {
        assert(head@ =~= detail@.take(300));
    }
    string_of(&head)
}

// ---------------------------------------------------------------------------
// Notification signatures
// ---------------------------------------------------------------------------

/// The value of one hex digit, either case.
pub open spec fn hex_value(c: u8) -> Option<u8> {
    if 48 <= c <= 57 {
        Some((c - 48) as u8)
    } else if 65 <= c <= 70 {
        Some((c - 55) as u8)
    } else if 97 <= c <= 102 {
        Some((c - 87) as u8)
    } else {
        None
    }
}

/// What `hex::decode` gives: `None` for an odd length or a byte that is not
/// a hex digit, else one byte per pair, high digit first.
pub open spec fn hex_decoded(s: Seq<u8>) -> Option<Seq<u8>>
    decreases s.len(),
{
    if s.len() % 2 != 0 {
        None
    } else if s.len() == 0 {
        Some(seq![])
    } else {
        match (hex_value(s[s.len() - 2]), hex_value(s[s.len() - 1]), hex_decoded(
            s.subrange(0, s.len() - 2),
        )) {
            (Some(h), Some(l), Some(rest)) => Some(rest.push((h * 16 + l) as u8)),
            _ => None,
        }
    }
}

/// Calls `hex::decode` on the bytes given. Its source reads exactly as
/// [`hex_decoded`] says: an odd length or any non-hex byte is an error,
/// otherwise each pair of digits, either case, is one byte.
#[verifier::external_body]
fn hex_decode(text: &[u8]) -> (r: Option<Vec<u8>>)
    ensures
        match r {
            Some(b) => hex_decoded(text@) == Some(b@),
            None => hex_decoded(text@) is None,
        },
{
    hex::decode(text).ok()
}

/// The JSON body re-serialized by `serde_json`, every object's keys sorted:
/// the canonical form NOWPayments signs. `None` when the body is not JSON.
pub uninterp spec fn canonical_json_of(body: Seq<u8>) -> Option<Seq<u8>>;

/// Parses the body with `serde_json::from_slice` into a `Value` and writes
/// it back with `serde_json::to_vec`; `serde_json`'s object is a `BTreeMap`,
/// so every level comes out with its keys sorted. The contract names the
/// outcome, a function of the body alone; the error text (serde_json's
/// description of the failure) is not stated.
#[verifier::external_body]
fn canonical_json(body: &[u8]) -> (r: Result<Vec<u8>, String>)
    ensures
        match r {
            Ok(c) => canonical_json_of(body@) == Some(c@),
            Err(_) => canonical_json_of(body@) is None,
        },
{
    let value: serde_json::Value = serde_json::from_slice(body).map_err(|e| e.to_string())?;
    serde_json::to_vec(&value).map_err(|e| e.to_string())
}

/// The HMAC-SHA512 tag of `message` under `key`.
pub uninterp spec fn hmac_sha512(key: Seq<u8>, message: Seq<u8>) -> Seq<u8>;

/// Calls `Hmac::<Sha512>::new_from_slice` (which accepts a key of any
/// length), `update` with the message, then `verify_slice`, which compares
/// in constant time and answers `Ok` exactly when `tag` is the full tag.
#[verifier::external_body]
fn hmac_sha512_verifies(key: &[u8], message: &[u8], tag: &[u8]) -> (b: bool)
    ensures
        b == (tag@ == hmac_sha512(key@, message@)),
{
    let mut mac = match hmac::Hmac::<sha2::Sha512>::new_from_slice(key) {
        Ok(m) => m,
        Err(_) => return false,
    };
    mac.update(message);
    mac.verify_slice(tag).is_ok()
}

/// Whether a notification is signed by the holder of the IPN secret: the
/// trimmed signature, hex-decoded, is the HMAC-SHA512 of the body's
/// canonical JSON under the secret.
pub open spec fn signed_by(secret: &str, canonical: Seq<u8>, signature: &str) -> bool {
    match hex_decoded(vstd::utf8::encode_utf8(trim(signature@))) {
        Some(tag) => tag == hmac_sha512(secret.spec_bytes(), canonical),
        None => false,
    }
}

pub open spec fn present_secret(secret: Option<&str>) -> bool {
    secret matches Some(s) && s@.len() > 0
}

/// Verify a notification before a single field of its body is believed:
/// no secret configured, no signature, a body that is not JSON, or a
/// signature that does not match, each refuses it.
pub fn authenticate_notification(secret: Option<&str>, signature: Option<&str>, body: &[u8]) -> (r:
    Result<(), PaymentError>)
    ensures
        !present_secret(secret) ==> r matches Err(PaymentError::NotConfigured),
        present_secret(secret) && signature is None ==> r matches Err(
            PaymentError::InvalidSignature,
        ),
        present_secret(secret) && signature is Some && canonical_json_of(body@) is None ==> r matches Err(
            PaymentError::InvalidResponse(_),
        ),
        present_secret(secret) && signature is Some && canonical_json_of(body@) is Some ==> (r is Ok
            <==> signed_by(secret.unwrap(), canonical_json_of(body@).unwrap(), signature.unwrap())),
        present_secret(secret) && signature is Some && canonical_json_of(body@) is Some && r is Err
            ==> r matches Err(PaymentError::InvalidSignature),
{
    let secret = match secret {
        Some(s) => {
            if s.is_empty() {
                return Err(PaymentError::NotConfigured);
            }
            s
        },
        None => return Err(PaymentError::NotConfigured),
    };
    let signature = match signature {
        Some(s) => s,
        None => return Err(PaymentError::InvalidSignature),
    };
    let canonical = match canonical_json(body) {
        Ok(c) => c,
        Err(e) => {
            let mut m = owned("body is not JSON: ");
            push_str(&mut m, e.as_str());
            return Err(PaymentError::InvalidResponse(m));
        },
    };
    let trimmed = string_of(&trim_chars(&chars_of(signature)));
    let digits = trimmed.as_str();
    let tag = match hex_decode(digits.as_bytes()) {
        Some(t) => t,
        None => return Err(PaymentError::InvalidSignature),
    };
    if hmac_sha512_verifies(secret.as_bytes(), canonical.as_slice(), tag.as_slice()) {
        Ok(())
    } else {
        Err(PaymentError::InvalidSignature)
    }
}

/// The same charge reported twice in one state gives one event key, and a
/// charge moving to another state gives a different one: a retry is
/// recognised, a step forward is not mistaken for a retry.
pub proof fn event_keys_follow_the_state(payment_id: Seq<char>, a: PaymentStatus, b: PaymentStatus)
    ensures
        (spec_event_key(payment_id, a) == spec_event_key(payment_id, b)) == (a == b),
{
    reveal_strlit("pending");
    reveal_strlit("confirming");
    reveal_strlit("paid");
    reveal_strlit("failed");
    reveal_strlit("expired");
    reveal_strlit("refunded");
    reveal_strlit(":");
    if a != b {
        let sa = spec_status_slug(a);
        let sb = spec_status_slug(b);
        let ka = spec_event_key(payment_id, a);
        let kb = spec_event_key(payment_id, b);
        let n: int = payment_id.len() as int + 1;
        assert(ka.len() == n + sa.len());
        assert(kb.len() == n + sb.len());
        if sa.len() == sb.len() {
            assert(ka[n] == sa[0]);
            assert(kb[n] == sb[0]);
        }
    }
}

/// `partially_paid` is never taken for settled, and no unknown state is.
pub proof fn only_finished_means_paid(raw: Seq<char>)
    ensures
        spec_map_status(raw) == Some(PaymentStatus::Paid) ==> raw == "finished"@,
{
}

} // verus!
