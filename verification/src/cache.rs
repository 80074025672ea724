//! Keys for the coaching cache.
//!
//! The database is the source of truth and everything cached is derivable
//! from it. Invalidation is by key derivation: a key carries a fingerprint of
//! everything its value depends on, so a stale entry is unreachable rather
//! than evicted.

use vstd::prelude::*;

use vstd::arithmetic::div_mod::{lemma_basic_div, lemma_div_denominator, lemma_fundamental_div_mod};
use vstd::arithmetic::power2::{lemma2_to64, lemma_pow2_adds, lemma_pow2_pos, pow2};

use crate::text::{decimal, lemma_cancel_ends, owned, push_str, u64_text};

verus! {

/// Bumped when a cached value's shape changes in a way that would make an
/// old entry read back as something wrong rather than fail.
pub const CACHE_KEY_VERSION: u32 = 1;

/// A lowercase hex digit.
pub open spec fn hex_char(n: int) -> char {
    if n < 10 {
        ((n + '0' as int) as u8) as char
    } else {
        ((n - 10 + 'a' as int) as u8) as char
    }
}

/// The `k`th of the 32 hex digits of `n`, most significant first.
pub open spec fn nibble(n: u128, k: int) -> int {
    (n as int / pow2((4 * (31 - k)) as nat) as int) % 16
}

/// The hex digits `from..to` of `n`.
pub open spec fn hex_digits(n: u128, from: int, to: int) -> Seq<char> {
    Seq::new((to - from) as nat, |i: int| hex_char(nibble(n, from + i)))
}

/// A UUID in its hyphenated form: 32 lowercase hex digits, most significant
/// first, grouped 8-4-4-4-12.
pub open spec fn hyphenated(n: u128) -> Seq<char> {
    hex_digits(n, 0, 8) + seq!['-'] + hex_digits(n, 8, 12) + seq!['-'] + hex_digits(n, 12, 16)
        + seq!['-'] + hex_digits(n, 16, 20) + seq!['-'] + hex_digits(n, 20, 32)
}

/// Calls `uuid::Uuid::from_u128(id).to_string()`, which the uuid crate
/// documents as the hyphenated, lowercase form.
#[verifier::external_body]
fn uuid_text(id: u128) -> (s: String)
    ensures
        s@ == hyphenated(id),
{
    uuid::Uuid::from_u128(id).to_string()
}

/// A namespaced, fingerprinted cache key.
#[derive(Debug, Clone, PartialEq, Eq)]
pub struct CacheKey(String);

pub open spec fn spec_cache_key(
    namespace: Seq<char>,
    player: u128,
    discriminator: Seq<char>,
    fingerprint: Seq<char>,
) -> Seq<char> {
    namespace + ":v"@ + decimal(CACHE_KEY_VERSION as nat) + ":"@ + hyphenated(player) + ":"@
        + discriminator + ":"@ + fingerprint
}

impl CacheKey {
    pub closed spec fn view(&self) -> Seq<char> {
        self.0@
    }

    /// `namespace:v1:player:discriminator:fingerprint`, the player by its
    /// hyphenated id.
    pub fn new(namespace: &str, player: u128, discriminator: &str, fingerprint: &str) -> (k: CacheKey)
        ensures
            k.view() == spec_cache_key(namespace@, player, discriminator@, fingerprint@),
    {
        let mut s = owned(namespace);
        push_str(&mut s, ":v");
        let v = u64_text(CACHE_KEY_VERSION as u64);
        push_str(&mut s, v.as_str());
        push_str(&mut s, ":");
        let p = uuid_text(player);
        push_str(&mut s, p.as_str());
        push_str(&mut s, ":");
        push_str(&mut s, discriminator);
        push_str(&mut s, ":");
        push_str(&mut s, fingerprint);
        CacheKey(s)
    }

    pub fn as_str(&self) -> (s: &str)
        ensures
            s@ == self.view(),
    {
        self.0.as_str()
    }
}

/// `n` with its `m` lowest hex digits shifted away.
spec fn high_digits(n: u128, m: nat) -> int {
    n as int / pow2(4 * m) as int
}

proof fn lemma_high_digits_step(n: u128, m: nat)
    requires
        m < 32,
    ensures
        high_digits(n, m) == high_digits(n, m + 1) * 16 + nibble(n, 31 - m),
{
    lemma_pow2_pos(4 * m);
    lemma2_to64();
    lemma_pow2_adds(4 * m, 4);
    assert(4 * m + 4 == 4 * (m + 1));
    let x = high_digits(n, m);
    lemma_div_denominator(n as int, pow2(4 * m) as int, 16);
    assert(pow2(4 * (m + 1)) == pow2(4 * m) * 16);
    assert(x / 16 == high_digits(n, m + 1));
    lemma_fundamental_div_mod(x, 16);
    assert((4 * (31 - (31 - m))) as nat == 4 * m);
    assert(nibble(n, 31 - m) == x % 16);
}

proof fn lemma_high_digits_equal(a: u128, b: u128, m: nat)
    requires
        m <= 32,
        forall|k: int| 0 <= k < 32 ==> nibble(a, k) == nibble(b, k),
    ensures
        high_digits(a, m) == high_digits(b, m),
    decreases 32 - m,
{
    if m == 32 {
        lemma2_to64();
        lemma_pow2_adds(64, 64);
        assert(pow2(128) == 0x1_0000_0000_0000_0000_0000_0000_0000_0000);
        assert(4 * m == 128);
        lemma_basic_div(a as int, pow2(128) as int);
        lemma_basic_div(b as int, pow2(128) as int);
        assert(high_digits(a, m) == 0);
        assert(high_digits(b, m) == 0);
    } else {
        lemma_high_digits_equal(a, b, m + 1);
        lemma_high_digits_step(a, m);
        lemma_high_digits_step(b, m);
        assert(nibble(a, 31 - m) == nibble(b, 31 - m));
    }
}

proof fn lemma_nibble_range(n: u128, k: int)
    ensures
        0 <= nibble(n, k) < 16,
{
    lemma_pow2_pos((4 * (31 - k)) as nat);
}

proof fn lemma_hex_char_injective(x: int, y: int)
    requires
        0 <= x < 16,
        0 <= y < 16,
        hex_char(x) == hex_char(y),
    ensures
        x == y,
{
    assert(hex_char(x) as u32 == (if x < 10 { x + 48 } else { x + 87 }));
    assert(hex_char(y) as u32 == (if y < 10 { y + 48 } else { y + 87 }));
}

/// Where the `k`th hex digit stands in the hyphenated form.
spec fn digit_position(k: int) -> int {
    if k < 8 {
        k
    } else if k < 12 {
        k + 1
    } else if k < 16 {
        k + 2
    } else if k < 20 {
        k + 3
    } else {
        k + 4
    }
}

proof fn lemma_hyphenated_digit(n: u128, k: int)
    requires
        0 <= k < 32,
    ensures
        hyphenated(n).len() == 36,
        hyphenated(n)[digit_position(k)] == hex_char(nibble(n, k)),
{
    let a = hex_digits(n, 0, 8);
    let b = hex_digits(n, 8, 12);
    let c = hex_digits(n, 12, 16);
    let d = hex_digits(n, 16, 20);
    let e = hex_digits(n, 20, 32);
    let h = a + seq!['-'] + b + seq!['-'] + c + seq!['-'] + d + seq!['-'] + e;
    assert(h == hyphenated(n));
    if k < 8 {
        assert(h[k] == a[k]);
    } else if k < 12 {
        assert(h[k + 1] == b[k - 8]);
    } else if k < 16 {
        assert(h[k + 2] == c[k - 12]);
    } else if k < 20 {
        assert(h[k + 3] == d[k - 16]);
    } else {
        assert(h[k + 4] == e[k - 20]);
    }
}

proof fn lemma_hyphenated_injective(a: u128, b: u128)
    requires
        hyphenated(a) == hyphenated(b),
    ensures
        a == b,
{
    assert forall|k: int| 0 <= k < 32 implies nibble(a, k) == nibble(b, k) by {
        lemma_hyphenated_digit(a, k);
        lemma_hyphenated_digit(b, k);
        lemma_nibble_range(a, k);
        lemma_nibble_range(b, k);
        lemma_hex_char_injective(nibble(a, k), nibble(b, k));
    }
    lemma2_to64();
    assert(4 * 0nat == 0nat);
    lemma_high_digits_equal(a, b, 0);
    assert(high_digits(a, 0) == a as int / 1);
    assert(high_digits(b, 0) == b as int / 1);
}

/// Keys of one namespace never collide across players, across
/// discriminators (a player's carry and support evidence), or across
/// fingerprints: a stale entry is unreachable, and no one is served another's
/// value.
pub proof fn cache_keys_keep_apart(
    namespace: Seq<char>,
    p1: u128,
    p2: u128,
    d1: Seq<char>,
    d2: Seq<char>,
    f1: Seq<char>,
    f2: Seq<char>,
)
    ensures
        spec_cache_key(namespace, p1, d1, f1) == spec_cache_key(namespace, p2, d1, f1) ==> p1 == p2,
        spec_cache_key(namespace, p1, d1, f1) == spec_cache_key(namespace, p1, d2, f1) ==> d1 == d2,
        spec_cache_key(namespace, p1, d1, f1) == spec_cache_key(namespace, p1, d1, f2) ==> f1 == f2,
{
    let head = namespace + ":v"@ + decimal(CACHE_KEY_VERSION as nat) + ":"@;
    if spec_cache_key(namespace, p1, d1, f1) == spec_cache_key(namespace, p2, d1, f1) {
        let tail = ":"@ + d1 + ":"@ + f1;
        assert(spec_cache_key(namespace, p1, d1, f1) =~= head + hyphenated(p1) + tail);
        assert(spec_cache_key(namespace, p2, d1, f1) =~= head + hyphenated(p2) + tail);
        lemma_cancel_ends(head, hyphenated(p1), hyphenated(p2), tail);
        lemma_hyphenated_injective(p1, p2);
    }
    if spec_cache_key(namespace, p1, d1, f1) == spec_cache_key(namespace, p1, d2, f1) {
        let front = head + hyphenated(p1) + ":"@;
        let tail = ":"@ + f1;
        assert(spec_cache_key(namespace, p1, d1, f1) =~= front + d1 + tail);
        assert(spec_cache_key(namespace, p1, d2, f1) =~= front + d2 + tail);
        lemma_cancel_ends(front, d1, d2, tail);
    }
    if spec_cache_key(namespace, p1, d1, f1) == spec_cache_key(namespace, p1, d1, f2) {
        let front = head + hyphenated(p1) + ":"@ + d1 + ":"@;
        assert(spec_cache_key(namespace, p1, d1, f1) =~= front + f1 + seq![]);
        assert(spec_cache_key(namespace, p1, d1, f2) =~= front + f2 + seq![]);
        lemma_cancel_ends(front, f1, f2, seq![]);
    }
}

/// A cache that stores nothing: what a deployment gets with caching off,
/// and what proves a path does not depend on a hit.
#[derive(Debug, Clone, PartialEq)]
pub struct NoCache;

impl NoCache {
    /// Always a miss.
    pub fn get(&self, key: &CacheKey) -> (r: Option<String>)
        ensures
            r is None,
    {
        None
    }

    /// Stores nothing.
    pub fn put(&self, key: &CacheKey, player: u128, value: &str) {
    }

    pub fn is_enabled(&self) -> (b: bool)
        ensures
            !b,
    {
        false
    }
}

} // verus!
