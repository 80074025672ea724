//! Steam OpenID 2.0 login: the parts that decide.
//!
//! Steam speaks OpenID 2.0. The browser is sent to Steam with
//! `openid.mode=checkid_setup`; Steam redirects back with a signed assertion;
//! every received parameter is then handed back to Steam with
//! `openid.mode=check_authentication`, and only an `is_valid:true` answer
//! proves the identity. The redirect parameters are attacker-controlled until
//! Steam confirms its own signature over them, so nothing here trusts them.
//!
//! The network exchange itself is not here: this module builds what is sent
//! and reads what comes back.

use vstd::prelude::*;
use vstd::string::StringSliceAdditionalSpecFns;
use crate::text::{chars_of, has_prefix, is_digit, is_ascii_digit, owned, push_char, push_str, same_text, slice_chars, trim, trim_chars};

verus! {

/// Path Steam is told to send the user back to.
pub const CALLBACK_PATH: &'static str = "/api/auth/steam/callback";

pub const OPENID_NS: &'static str = "http://specs.openid.net/auth/2.0";

pub const IDENTIFIER_SELECT: &'static str = "http://specs.openid.net/auth/2.0/identifier_select";

/// The only place a Steam identity can live.
pub const CLAIMED_ID_PREFIX: &'static str = "https://steamcommunity.com/openid/id/";

pub const NOT_A_STEAM_IDENTITY: &'static str = "claimed_id is not a Steam identity";

pub const NOT_A_STEAM_ID64: &'static str = "claimed_id is not a SteamID64";

pub const MISSING_RETURN_TO: &'static str = "missing openid.return_to";

pub const FOREIGN_RETURN_TO: &'static str = "openid.return_to is not ours";

pub const MISSING_CLAIMED_ID: &'static str = "missing openid.claimed_id";

pub const LOGIN_URL_UNBUILDABLE: &'static str = "could not build the Steam login URL";

#[derive(Debug, Clone, PartialEq)]
pub enum OpenIdError {
    /// Steam rejected the assertion.
    InvalidAssertion,
    /// The assertion is malformed.
    Malformed(&'static str),
    /// Steam could not be reached.
    Unavailable(String),
}

impl OpenIdError {
    /// The error as a sentence for logs.
    pub fn message(&self) -> (s: String)
        ensures
            match self {
                OpenIdError::InvalidAssertion => s@ == "steam rejected the assertion"@,
                OpenIdError::Malformed(m) => s@ == "assertion is malformed: "@ + m@,
                OpenIdError::Unavailable(m) => s@ == "steam unreachable: "@ + m@,
            },
    {
        match self {
            OpenIdError::InvalidAssertion => owned("steam rejected the assertion"),
            OpenIdError::Malformed(m) => {
                let mut s = owned("assertion is malformed: ");
                push_str(&mut s, m);
                s
            },
            OpenIdError::Unavailable(m) => {
                let mut s = owned("steam unreachable: ");
                push_str(&mut s, m.as_str());
                s
            },
        }
    }
}

// ---------------------------------------------------------------------------
// The login nonce
// ---------------------------------------------------------------------------

proof fn lemma_same_bytes_same_text(a: &str, b: &str)
    ensures
        (a.spec_bytes() == b.spec_bytes()) == (a@ == b@),
{
    vstd::utf8::encode_utf8_decode_utf8(a@);
    vstd::utf8::encode_utf8_decode_utf8(b@);
}

/// Constant-time comparison for the login nonce: every byte pair is looked
/// at whatever the earlier ones held.
pub fn constant_time_eq(a: &str, b: &str) -> (r: bool)
    ensures
        r == (a@ == b@),
{
    let x = a.as_bytes();
    let y = b.as_bytes();
    proof {
        lemma_same_bytes_same_text(a, b);
    }
    if x.len() != y.len() {
        return false;
    }
    let mut acc: u8 = 0;
    let mut i: usize = 0;
    while i < x.len()
        invariant
            x@.len() == y@.len(),
            i <= x@.len(),
            (acc == 0) == (forall|k: int| 0 <= k < i ==> x@[k] == y@[k]),
        decreases x@.len() - i,
    {
        let p = x[i];
        let q = y[i];
        let d: u8 = p ^ q;
        let next: u8 = acc | d;
        proof {
            assert((next == 0) == (acc == 0 && d == 0)) by (bit_vector)
                requires
                    next == acc | d,
            ;
            assert((d == 0) == (p == q)) by (bit_vector)
                requires
                    d == p ^ q,
            ;
            if next == 0 {
                assert forall|k: int| 0 <= k < i + 1 implies x@[k] == y@[k] by {
                    if k < i {
                    }
                }
            }
        }
        acc = next;
        i = i + 1;
    }
    proof {
        if acc == 0 {
            assert(x@ =~= y@);
        }
    }
    acc == 0
}

// ---------------------------------------------------------------------------
// The claimed identity
// ---------------------------------------------------------------------------

/// The decimal value of a run of ASCII digits.
pub open spec fn digits_value(d: Seq<char>) -> nat
    decreases d.len(),
{
    if d.len() == 0 {
        0
    } else {
        digits_value(d.drop_last()) * 10 + ((d.last() as nat) - ('0' as nat)) as nat
    }
}

pub open spec fn all_digits(d: Seq<char>) -> bool {
    forall|k: int| 0 <= k < d.len() ==> #[trigger] is_digit(d[k])
}

/// What follows the pinned Steam prefix, if the claimed id starts with it.
pub open spec fn claimed_digits(s: Seq<char>) -> Option<Seq<char>> {
    let p = CLAIMED_ID_PREFIX@;
    if p.len() <= s.len() && s.take(p.len() as int) == p {
        Some(s.skip(p.len() as int))
    } else {
        None
    }
}

/// A SteamID64: one or more ASCII digits whose value fits an `i64`.
pub open spec fn steam_id_of(d: Seq<char>) -> Option<int> {
    if d.len() > 0 && all_digits(d) && digits_value(d) <= i64::MAX {
        Some(digits_value(d) as int)
    } else {
        None
    }
}

pub open spec fn parsed_claimed_id(s: Seq<char>) -> Result<i64, OpenIdError> {
    match claimed_digits(s) {
        None => Err(OpenIdError::Malformed(NOT_A_STEAM_IDENTITY)),
        Some(d) => match steam_id_of(d) {
            Some(v) => Ok(v as i64),
            None => Err(OpenIdError::Malformed(NOT_A_STEAM_ID64)),
        },
    }
}

proof fn lemma_digits_value_prefix(d: Seq<char>, k: int)
    requires
        0 <= k <= d.len(),
        all_digits(d),
    ensures
        digits_value(d.take(k)) <= digits_value(d),
    decreases d.len(),
{
    if k < d.len() {
        let rest = d.drop_last();
        assert(all_digits(rest)) by {
            assert forall|j: int| 0 <= j < rest.len() implies #[trigger] is_digit(rest[j]) by {
                assert(is_digit(d[j]));
            }
        }
        lemma_digits_value_prefix(rest, k);
        assert(rest.take(k) =~= d.take(k));
    } else {
        assert(d.take(k) =~= d);
    }
}

/// `https://steamcommunity.com/openid/id/76561198047011640` gives
/// `76561198047011640`. The prefix is pinned: a claimed id pointing anywhere
/// else is not a Steam identity, however well-formed it looks.
pub fn parse_claimed_id(claimed_id: &str) -> (r: Result<i64, OpenIdError>)
    ensures
        r == parsed_claimed_id(claimed_id@),
{
    let s = chars_of(claimed_id);
    let prefix = chars_of(CLAIMED_ID_PREFIX);
    if !has_prefix(&s, &prefix) {
        return Err(OpenIdError::Malformed(NOT_A_STEAM_IDENTITY));
    }
    let d = slice_chars(&s, prefix.len(), s.len());
    proof {
        assert(d@ =~= s@.skip(prefix@.len() as int));
        assert(claimed_digits(claimed_id@) == Some(d@));
    }
    if d.len() == 0 {
        return Err(OpenIdError::Malformed(NOT_A_STEAM_ID64));
    }
    let mut value: i64 = 0;
    let mut i: usize = 0;
    while i < d.len()
        invariant
            i <= d@.len(),
            d@.len() > 0,
            claimed_digits(claimed_id@) == Some(d@),
            forall|k: int| 0 <= k < i ==> #[trigger] is_digit(d@[k]),
            value == digits_value(d@.take(i as int)),
        decreases d@.len() - i,
    {
        let c = d[i];
        if !is_ascii_digit(c) {
            proof {
                assert(!is_digit(d@[i as int]));
                assert(!all_digits(d@));
            }
            return Err(OpenIdError::Malformed(NOT_A_STEAM_ID64));
        }
        let digit = (c as u32 - '0' as u32) as i64;
        proof {
            assert(d@.take(i + 1).drop_last() =~= d@.take(i as int));
            assert(d@.take(i + 1).last() == c);
            assert(digits_value(d@.take(i + 1)) == value * 10 + digit);
            if all_digits(d@) {
                lemma_digits_value_prefix(d@, i + 1);
            }
        }
        let grown = value.checked_mul(10);
        match grown {
            None => {
                return Err(OpenIdError::Malformed(NOT_A_STEAM_ID64));
            },
            Some(g) => {
                match g.checked_add(digit) {
                    None => {
                        return Err(OpenIdError::Malformed(NOT_A_STEAM_ID64));
                    },
                    Some(v) => {
                        value = v;
                    },
                }
            },
        }
        i = i + 1;
    }
    proof {
        assert(d@.take(d@.len() as int) =~= d@);
    }
    Ok(value)
}

// ---------------------------------------------------------------------------
// Steam's answer
// ---------------------------------------------------------------------------

/// One `key:value` line of Steam's answer says `is_valid:true`: split at the
/// first colon, both sides trimmed.
pub open spec fn valid_line(l: Seq<char>) -> bool {
    exists|c: int|
        0 <= c < l.len() && #[trigger] l[c] == ':' && (forall|k: int| 0 <= k < c ==> l[k] != ':')
            && trim(l.take(c)) == "is_valid"@ && trim(l.skip(c + 1)) == "true"@
}

/// `body[a..b]` is one line: it starts the body or follows a newline, ends
/// the body or stops at one, and holds no newline itself.
pub open spec fn is_line(s: Seq<char>, a: int, b: int) -> bool {
    &&& 0 <= a <= b <= s.len()
    &&& (a == 0 || s[a - 1] == '\n')
    &&& (b == s.len() || s[b] == '\n')
    &&& forall|k: int| a <= k < b ==> s[k] != '\n'
}

/// Steam answers with a tiny key-value body; only an `is_valid:true` line
/// counts, never the words appearing elsewhere.
pub open spec fn answered_valid(s: Seq<char>) -> bool {
    exists|a: int, b: int| #[trigger] is_line(s, a, b) && valid_line(s.subrange(a, b))
}

/// Where the first colon of `l` is, if any.
fn first_colon(l: &Vec<char>) -> (r: Option<usize>)
    ensures
        match r {
            Some(c) => c < l@.len() && l@[c as int] == ':' && forall|k: int|
                0 <= k < c ==> l@[k] != ':',
            None => forall|k: int| 0 <= k < l@.len() ==> l@[k] != ':',
        },
{
    let mut i: usize = 0;
    while i < l.len()
        invariant
            i <= l@.len(),
            forall|k: int| 0 <= k < i ==> l@[k] != ':',
        decreases l@.len() - i,
    {
        if l[i] == ':' {
            return Some(i);
        }
        i = i + 1;
    }
    None
}

fn line_is_valid(l: &Vec<char>) -> (r: bool)
    ensures
        r == valid_line(l@),
{
    match first_colon(l) {
        None => {
            proof {
                assert(!valid_line(l@));
            }
            false
        },
        Some(c) => {
            let n = l.len();
            assert(c < n);
            let key = trim_chars(&slice_chars(l, 0, c));
            let value = trim_chars(&slice_chars(l, c + 1, n));
            let want_key = chars_of("is_valid");
            let want_value = chars_of("true");
            let r = crate::text::same_chars(&key, &want_key) && crate::text::same_chars(
                &value,
                &want_value,
            );
            proof {
                assert(l@.subrange(0, c as int) =~= l@.take(c as int));
                assert(l@.subrange(c + 1, l@.len() as int) =~= l@.skip(c + 1));
                if valid_line(l@) {
                    let c2 = choose|c2: int|
                        0 <= c2 < l@.len() && #[trigger] l@[c2] == ':' && (forall|k: int|
                            0 <= k < c2 ==> l@[k] != ':') && trim(l@.take(c2)) == "is_valid"@
                            && trim(l@.skip(c2 + 1)) == "true"@;
                    assert(c2 == c);
                }
                if r {
                    assert(l@[c as int] == ':');
                }
            }
            r
        },
    }
}

proof fn lemma_line_unique(s: Seq<char>, a: int, b: int, start: int, i: int)
    requires
        is_line(s, a, b),
        b == i,
        0 <= start <= i <= s.len(),
        start == 0 || s[start - 1] == '\n',
        forall|k: int| start <= k < i ==> s[k] != '\n',
    ensures
        a == start,
{
    if a < start {
        assert(s[start - 1] != '\n');
    } else if a > start {
        assert(s[a - 1] != '\n');
    }
}

pub fn is_valid_response(body: &str) -> (r: bool)
    ensures
        r == answered_valid(body@),
{
    let s = chars_of(body);
    let mut start: usize = 0;
    let mut i: usize = 0;
    while i < s.len()
        invariant
            s@ == body@,
            start <= i <= s@.len(),
            start == 0 || s@[start - 1] == '\n',
            forall|k: int| start <= k < i ==> s@[k] != '\n',
            forall|a: int, b: int| #[trigger]
                is_line(s@, a, b) && b < start ==> !valid_line(s@.subrange(a, b)),
        decreases s@.len() - i,
    {
        if s[i] == '\n' {
            let line = slice_chars(&s, start, i);
            if line_is_valid(&line) {
                proof {
                    assert(is_line(s@, start as int, i as int));
                    assert(valid_line(s@.subrange(start as int, i as int)));
                    assert(answered_valid(s@));
                }
                return true;
            }
            proof {
                assert forall|a: int, b: int| #[trigger]
                    is_line(s@, a, b) && b < i + 1 implies !valid_line(s@.subrange(a, b)) by {
                    if b == i {
                        lemma_line_unique(s@, a, b, start as int, i as int);
                    } else if b >= start {
                        assert(s@[b] == '\n');
                    }
                }
            }
            start = i + 1;
        }
        i = i + 1;
    }
    let line = slice_chars(&s, start, s.len());
    let last = line_is_valid(&line);
    proof {
        if last {
            assert(is_line(s@, start as int, s@.len() as int));
            assert(valid_line(s@.subrange(start as int, s@.len() as int)));
            assert(answered_valid(s@));
        } else {
            assert forall|a: int, b: int| #[trigger] is_line(s@, a, b) implies !valid_line(
                s@.subrange(a, b),
            ) by {
                if b == s@.len() {
                    lemma_line_unique(s@, a, b, start as int, s@.len() as int);
                } else if b >= start {
                    assert(s@[b] == '\n');
                }
            }
        }
    }
    last
}

// ---------------------------------------------------------------------------
// What is sent to Steam
// ---------------------------------------------------------------------------

/// An unreserved URL byte, sent as itself.
pub open spec fn unreserved(b: u8) -> bool {
    ('A' as u8 <= b <= 'Z' as u8) || ('a' as u8 <= b <= 'z' as u8) || ('0' as u8 <= b <= '9' as u8)
        || b == '-' as u8 || b == '_' as u8 || b == '.' as u8 || b == '~' as u8
}

pub open spec fn hex_digit(n: int) -> char {
    if n < 10 {
        ((n + '0' as int) as u8) as char
    } else {
        ((n - 10 + 'A' as int) as u8) as char
    }
}

pub open spec fn escaped_byte(b: u8) -> Seq<char> {
    if unreserved(b) {
        seq![b as char]
    } else {
        seq!['%', hex_digit(b as int / 16), hex_digit(b as int % 16)]
    }
}

/// Percent-encoding of a byte string: unreserved bytes as themselves, every
/// other byte as `%` and two upper-case hex digits.
pub open spec fn percent_encoded(bytes: Seq<u8>) -> Seq<char>
    decreases bytes.len(),
{
    if bytes.len() == 0 {
        seq![]
    } else {
        percent_encoded(bytes.drop_last()) + escaped_byte(bytes.last())
    }
}

fn hex_char(n: u8) -> (c: char)
    requires
        n < 16,
    ensures
        c == hex_digit(n as int),
{
    if n < 10 {
        ((n + 48) as char)
    } else {
        ((n - 10 + 65) as char)
    }
}

/// Percent-encode a query value. The login state is hex, but it is encoded
/// anyway so that nothing rests on that.
pub fn urlencode(value: &str) -> (out: String)
    ensures
        out@ == percent_encoded(value.spec_bytes()),
{
    let bytes = value.as_bytes();
    let mut out = String::new();
    let mut i: usize = 0;
    while i < bytes.len()
        invariant
            i <= bytes@.len(),
            bytes@ == value.spec_bytes(),
            out@ == percent_encoded(bytes@.take(i as int)),
        decreases bytes@.len() - i,
    {
        let b = bytes[i];
        proof {
            assert(bytes@.take(i + 1).drop_last() =~= bytes@.take(i as int));
        }
        let plain = (65u8 <= b && b <= 90u8) || (97u8 <= b && b <= 122u8) || (48u8 <= b && b <= 57u8)
            || b == 45u8 || b == 95u8 || b == 46u8 || b == 126u8;
        if plain {
            push_char(&mut out, b as char);
        } else {
            push_char(&mut out, '%');
            push_char(&mut out, hex_char(b / 16));
            push_char(&mut out, hex_char(b % 16));
            proof {
                assert(escaped_byte(b) =~= seq!['%', hex_digit(b as int / 16), hex_digit(
                    b as int % 16,
                )]);
            }
        }
        proof {
            assert(out@ =~= percent_encoded(bytes@.take(i + 1)));
        }
        i = i + 1;
    }
    proof {
        assert(bytes@.take(bytes@.len() as int) =~= bytes@);
    }
    out
}

/// The value each parameter of the assertion is echoed back with: the mode
/// swapped to `check_authentication`, everything else as received.
pub open spec fn echoed_value(key: Seq<char>, value: Seq<char>) -> Seq<char> {
    if key == "openid.mode"@ {
        "check_authentication"@
    } else {
        value
    }
}

/// Echo the assertion back with the mode swapped, which is what OpenID 2.0
/// direct verification requires. `params` is the received query, one entry
/// per key.
pub fn check_authentication_form(params: &[(String, String)]) -> (form: Vec<(String, String)>)
    ensures
        form@.len() == params@.len(),
        forall|i: int|
            0 <= i < params@.len() ==> (#[trigger] form@[i]).0@ == params@[i].0@ && form@[i].1@
                == echoed_value(params@[i].0@, params@[i].1@),
{
    let mut form: Vec<(String, String)> = Vec::new();
    let mut i: usize = 0;
    while i < params.len()
        invariant
            i <= params@.len(),
            form@.len() == i,
            forall|j: int|
                0 <= j < i ==> (#[trigger] form@[j]).0@ == params@[j].0@ && form@[j].1@
                    == echoed_value(params@[j].0@, params@[j].1@),
        decreases params@.len() - i,
    {
        let key = params[i].0.clone();
        let value = if same_text(key.as_str(), "openid.mode") {
            owned("check_authentication")
        } else {
            params[i].1.clone()
        };
        form.push((key, value));
        i = i + 1;
    }
    form
}

/// The first value received under `key`.
pub open spec fn param(params: Seq<(String, String)>, key: Seq<char>) -> Option<Seq<char>>
    decreases params.len(),
{
    if params.len() == 0 {
        None
    } else if params[0].0@ == key {
        Some(params[0].1@)
    } else {
        param(params.drop_first(), key)
    }
}

fn find_param<'a>(params: &'a [(String, String)], key: &str) -> (r: Option<&'a String>)
    ensures
        match r {
            Some(v) => param(params@, key@) == Some(v@),
            None => param(params@, key@) is None,
        },
{
    let mut i: usize = 0;
    proof {
        assert(params@.skip(0) =~= params@);
    }
    while i < params.len()
        invariant
            i <= params@.len(),
            param(params@, key@) == param(params@.skip(i as int), key@),
        decreases params@.len() - i,
    {
        proof {
            assert(params@.skip(i as int).drop_first() =~= params@.skip(i + 1));
        }
        if same_text(params[i].0.as_str(), key) {
            return Some(&params[i].1);
        }
        i = i + 1;
    }
    None
}

/// What the assertion claims, checked before any network call: addressed to
/// this site, and naming a Steam identity.
pub open spec fn assertion_precheck(params: Seq<(String, String)>, return_to_prefix: Seq<char>) -> Result<
    i64,
    OpenIdError,
> {
    match param(params, "openid.return_to"@) {
        None => Err(OpenIdError::Malformed(MISSING_RETURN_TO)),
        Some(r) => if !(return_to_prefix.len() <= r.len() && r.take(return_to_prefix.len() as int)
            == return_to_prefix) {
            Err(OpenIdError::Malformed(FOREIGN_RETURN_TO))
        } else {
            match param(params, "openid.claimed_id"@) {
                None => Err(OpenIdError::Malformed(MISSING_CLAIMED_ID)),
                Some(c) => parsed_claimed_id(c),
            }
        },
    }
}

/// The login, as configured: where Steam lives and where it sends the user
/// back to.
#[derive(Debug, Clone, PartialEq)]
pub struct SteamOpenId {
    pub openid_url: String,
    pub return_to: String,
    pub realm: String,
}

impl SteamOpenId {
    pub fn new(public_base_url: &str, steam_openid_url: &str) -> (s: SteamOpenId)
        ensures
            s.openid_url@ == steam_openid_url@,
            s.return_to@ == public_base_url@ + CALLBACK_PATH@,
            s.realm@ == public_base_url@,
    {
        let mut return_to = owned(public_base_url);
        push_str(&mut return_to, CALLBACK_PATH);
        SteamOpenId {
            openid_url: owned(steam_openid_url),
            return_to,
            realm: owned(public_base_url),
        }
    }

    /// The `return_to` this instance advertises, minus the state parameter.
    pub fn return_to_prefix(&self) -> (s: &str)
        ensures
            s@ == self.return_to@,
    {
        self.return_to.as_str()
    }

    /// The query the login redirect carries; `state` rides along on
    /// `return_to` so the callback can prove the login started here.
    pub fn login_params(&self, state: &str) -> (pairs: Vec<(String, String)>)
        ensures
            pair_views(pairs@) == login_query(self.return_to@, self.realm@, state),
    {
        let mut return_to = self.return_to.clone();
        push_str(&mut return_to, "?state=");
        let encoded = urlencode(state);
        push_str(&mut return_to, encoded.as_str());
        let mut pairs: Vec<(String, String)> = Vec::new();
        pairs.push((owned("openid.ns"), owned(OPENID_NS)));
        pairs.push((owned("openid.mode"), owned("checkid_setup")));
        pairs.push((owned("openid.return_to"), return_to));
        pairs.push((owned("openid.realm"), self.realm.clone()));
        pairs.push((owned("openid.identity"), owned(IDENTIFIER_SELECT)));
        pairs.push((owned("openid.claimed_id"), owned(IDENTIFIER_SELECT)));
        proof {
            assert(pair_views(pairs@) =~= login_query(self.return_to@, self.realm@, state));
        }
        pairs
    }

    /// The URL to send the browser to.
    pub fn authorization_url(&self, state: &str) -> (r: Result<String, OpenIdError>)
        ensures
            match r {
                Ok(u) => url_with_query(
                    self.openid_url@,
                    login_query(self.return_to@, self.realm@, state),
                ) == Some(u@),
                Err(e) => e == OpenIdError::Malformed(LOGIN_URL_UNBUILDABLE) && url_with_query(
                    self.openid_url@,
                    login_query(self.return_to@, self.realm@, state),
                ) is None,
            },
    {
        let pairs = self.login_params(state);
        match parse_with_params(self.openid_url.as_str(), &pairs) {
            Some(u) => Ok(u),
            None => Err(OpenIdError::Malformed(LOGIN_URL_UNBUILDABLE)),
        }
    }

    /// Reject anything not addressed to this site, or not naming a Steam
    /// identity, before spending a network call on it.
    pub fn precheck(&self, params: &[(String, String)]) -> (r: Result<i64, OpenIdError>)
        ensures
            r == assertion_precheck(params@, self.return_to@),
    {
        let return_to = match find_param(params, "openid.return_to") {
            None => return Err(OpenIdError::Malformed(MISSING_RETURN_TO)),
            Some(r) => r,
        };
        let ours = chars_of(self.return_to.as_str());
        let theirs = chars_of(return_to.as_str());
        if !has_prefix(&theirs, &ours) {
            return Err(OpenIdError::Malformed(FOREIGN_RETURN_TO));
        }
        match find_param(params, "openid.claimed_id") {
            None => Err(OpenIdError::Malformed(MISSING_CLAIMED_ID)),
            Some(c) => parse_claimed_id(c.as_str()),
        }
    }
}

/// Steam's verdict on an assertion that passed the precheck.
pub fn verdict(steam_id: i64, body: &str) -> (r: Result<i64, OpenIdError>)
    ensures
        r == (if answered_valid(body@) {
            Ok::<i64, OpenIdError>(steam_id)
        } else {
            Err(OpenIdError::InvalidAssertion)
        }),
{
    if is_valid_response(body) {
        Ok(steam_id)
    } else {
        Err(OpenIdError::InvalidAssertion)
    }
}

pub open spec fn pair_views(pairs: Seq<(String, String)>) -> Seq<(Seq<char>, Seq<char>)> {
    pairs.map_values(|p: (String, String)| (p.0@, p.1@))
}

/// The `checkid_setup` query: namespace, mode, where to come back to with
/// the state, the realm, and Steam's own identifier selection.
pub open spec fn login_query(return_to: Seq<char>, realm: Seq<char>, state: &str) -> Seq<
    (Seq<char>, Seq<char>),
> {
    seq![
        ("openid.ns"@, OPENID_NS@),
        ("openid.mode"@, "checkid_setup"@),
        ("openid.return_to"@, return_to + "?state="@ + percent_encoded(state.spec_bytes())),
        ("openid.realm"@, realm),
        ("openid.identity"@, IDENTIFIER_SELECT@),
        ("openid.claimed_id"@, IDENTIFIER_SELECT@),
    ]
}

/// The text of the URL that `url::Url::parse_with_params` builds from a base
/// and a query, or `None` where the base does not parse.
pub uninterp spec fn url_with_query(base: Seq<char>, pairs: Seq<(Seq<char>, Seq<char>)>) -> Option<
    Seq<char>,
>;

/// Calls `reqwest::Url::parse_with_params` (the `url` crate's
/// `Url::parse_with_params`) and renders the URL as text. The contract
/// claims only that the outcome is a function of the base and the pairs.
#[verifier::external_body]
fn parse_with_params(base: &str, pairs: &Vec<(String, String)>) -> (r: Option<String>)
    ensures
        match r {
            Some(u) => url_with_query(base@, pair_views(pairs@)) == Some(u@),
            None => url_with_query(base@, pair_views(pairs@)) is None,
        },
{
    reqwest::Url::parse_with_params(base, pairs.iter().map(|p| (p.0.as_str(), p.1.as_str())))
        .ok()
        .map(|u| u.to_string())
}

proof fn lemma_digit_char_value(d: nat)
    requires
        d < 10,
    ensures
        is_digit(crate::text::digit_char(d)),
        (crate::text::digit_char(d) as nat) - ('0' as nat) == d,
{
}

pub(crate) proof fn lemma_decimal_digits(n: nat)
    ensures
        all_digits(crate::text::decimal(n)),
        digits_value(crate::text::decimal(n)) == n,
        crate::text::decimal(n).len() > 0,
    decreases n,
{
    let d = crate::text::decimal(n);
    if n < 10 {
        lemma_digit_char_value(n);
        assert(d.drop_last() =~= Seq::<char>::empty());
        assert(digits_value(d.drop_last()) == 0);
        assert(d.last() == crate::text::digit_char(n));
        assert(is_digit(d[0]));
    } else {
        lemma_digit_char_value(n % 10);
        lemma_decimal_digits(n / 10);
        let head = crate::text::decimal(n / 10);
        assert(d.drop_last() =~= head);
        assert(d.last() == crate::text::digit_char(n % 10));
        assert(digits_value(d) == digits_value(head) * 10 + ((d.last() as nat) - ('0' as nat)) as nat);
        assert((n / 10) * 10 + n % 10 == n);
        assert forall|k: int| 0 <= k < d.len() implies #[trigger] is_digit(d[k]) by {
            if k < head.len() {
                assert(d[k] == head[k]);
            }
        }
    }
}

/// A Steam identity read back from its claimed id is the SteamID64 it
/// names: `parse_claimed_id` of the pinned prefix followed by a
/// non-negative number written in decimal gives that number.
pub proof fn claimed_id_round_trip(steam_id: i64)
    requires
        steam_id >= 0,
    ensures
        parsed_claimed_id(CLAIMED_ID_PREFIX@ + crate::text::decimal(steam_id as nat)) == Ok::<
            i64,
            OpenIdError,
        >(steam_id),
{
    let digits = crate::text::decimal(steam_id as nat);
    let s = CLAIMED_ID_PREFIX@ + digits;
    lemma_decimal_digits(steam_id as nat);
    assert(s.take(CLAIMED_ID_PREFIX@.len() as int) =~= CLAIMED_ID_PREFIX@);
    assert(s.skip(CLAIMED_ID_PREFIX@.len() as int) =~= digits);
}

/// Anything not under the pinned prefix is refused as not a Steam
/// identity, however well-formed the rest of it is.
pub proof fn foreign_claimed_ids_are_refused(claimed_id: Seq<char>)
    requires
        !(CLAIMED_ID_PREFIX@.len() <= claimed_id.len() && claimed_id.take(
            CLAIMED_ID_PREFIX@.len() as int,
        ) == CLAIMED_ID_PREFIX@),
    ensures
        parsed_claimed_id(claimed_id) == Err::<i64, OpenIdError>(
            OpenIdError::Malformed(NOT_A_STEAM_IDENTITY),
        ),
{
}

} // verus!
