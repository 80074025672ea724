//! What the backend believes about a player, and how much each belief is
//! worth.
//!
//! Assembly, not measurement: the benchmark engine, the hero pool and the
//! pattern detectors have already done the arithmetic. What happens here is
//! deciding which of their outputs rise to a trait.

use vstd::prelude::*;

use crate::benchmarks::{confidence_for, spec_confidence_for, Confidence};
use crate::heroes::{established_in, in_tier, HeroPoolEntry, HeroTier};
use crate::text::{i64_text, owned, push_str, signed_decimal};

verus! {

#[derive(Debug, Clone, Copy, PartialEq, Eq, Structural)]
pub enum TraitKind {
    Strength,
    Weakness,
}

/// Where a trait was read from.
#[derive(Debug, Clone, Copy, PartialEq, Eq, Structural)]
pub enum TraitSource {
    Benchmark,
    HeroPool,
    Form,
}

/// Something the backend believes about the player.
#[derive(Debug, Clone, PartialEq)]
pub struct PlayerTrait {
    pub kind: TraitKind,
    pub source: TraitSource,
    pub key: String,
    pub label: String,
    pub statement: String,
    pub sample: i64,
    pub confidence: Confidence,
}

pub type TraitView = (TraitKind, TraitSource, Seq<char>, Seq<char>, Seq<char>, i64, Confidence);

pub open spec fn trait_view(t: PlayerTrait) -> TraitView {
    (t.kind, t.source, t.key@, t.label@, t.statement@, t.sample, t.confidence)
}

pub open spec fn trait_views(s: Seq<PlayerTrait>) -> Seq<TraitView> {
    s.map_values(|t: PlayerTrait| trait_view(t))
}

pub open spec fn signature_statement(signature: int) -> Seq<char> {
    "You have "@ + signed_decimal(signature) + " signature "@ + (if signature == 1 {
        "hero"@
    } else {
        "heroes"@
    }) + " \u{2014} deep history and results above your own average."@
}

pub open spec fn risk_statement(risk: int, reliable: int) -> Seq<char> {
    signed_decimal(risk) + " of your heroes have real history and results below your own average, against "@
        + signed_decimal(reliable) + " you can rely on."@
}

/// What the shape of the repertoire says. Signature heroes are a strength.
/// Risky heroes are a weakness only when they outnumber the reliable ones:
/// one bad hero in a wide pool is not a problem with the pool. Both rest on
/// the heroes with enough matches to bear weight.
pub open spec fn spec_hero_pool_traits<V>(pool: Seq<HeroPoolEntry<V>>) -> Seq<TraitView> {
    if pool.len() == 0 {
        seq![]
    } else {
        let signature = in_tier(pool, HeroTier::Signature) as int;
        let risk = in_tier(pool, HeroTier::Risk) as int;
        let reliable = signature + in_tier(pool, HeroTier::Comfort) as int;
        let established = established_in(pool) as i64;
        (if signature > 0 {
            seq![
                (
                    TraitKind::Strength,
                    TraitSource::HeroPool,
                    "hero_pool.signature"@,
                    "Signature heroes"@,
                    signature_statement(signature),
                    established,
                    spec_confidence_for(established),
                ),
            ]
        } else {
            seq![]
        }) + if risk > reliable && risk > 0 {
            seq![
                (
                    TraitKind::Weakness,
                    TraitSource::HeroPool,
                    "hero_pool.risk"@,
                    "Unreliable hero pool"@,
                    risk_statement(risk, reliable),
                    established,
                    spec_confidence_for(established),
                ),
            ]
        } else {
            seq![]
        }
    }
}

pub fn hero_pool_traits<V>(pool: &[HeroPoolEntry<V>]) -> (traits: Vec<PlayerTrait>)
    requires
        pool@.len() <= i64::MAX,
    ensures
        trait_views(traits@) == spec_hero_pool_traits(pool@),
{
    let mut traits: Vec<PlayerTrait> = Vec::new();
    if pool.len() == 0 {
        proof {
            assert(trait_views(traits@) =~= spec_hero_pool_traits(pool@));
        }
        return traits;
    }
    let summary = crate::heroes::summarize(pool);
    proof {
        crate::heroes::tiers_partition_the_pool(pool@);
    }
    let signature = summary.signature;
    let risk = summary.risk;
    let reliable = signature + summary.comfort;
    let established = summary.established;
    if signature > 0 {
        let mut s = owned("You have ");
        let n = i64_text(signature);
        push_str(&mut s, n.as_str());
        push_str(&mut s, " signature ");
        push_str(&mut s, if signature == 1 { "hero" } else { "heroes" });
        push_str(&mut s, " \u{2014} deep history and results above your own average.");
        let t = PlayerTrait {
            kind: TraitKind::Strength,
            source: TraitSource::HeroPool,
            key: owned("hero_pool.signature"),
            label: owned("Signature heroes"),
            statement: s,
            sample: established,
            confidence: confidence_for(established),
        };
        traits.push(t);
    }
    let ghost after_signature = trait_views(traits@);
    if risk > reliable && risk > 0 {
        let a = i64_text(risk);
        let mut s = owned(a.as_str());
        push_str(
            &mut s,
            " of your heroes have real history and results below your own average, against ",
        );
        let b = i64_text(reliable);
        push_str(&mut s, b.as_str());
        push_str(&mut s, " you can rely on.");
        let t = PlayerTrait {
            kind: TraitKind::Weakness,
            source: TraitSource::HeroPool,
            key: owned("hero_pool.risk"),
            label: owned("Unreliable hero pool"),
            statement: s,
            sample: established,
            confidence: confidence_for(established),
        };
        traits.push(t);
    }
    proof {
        assert(trait_views(traits@) =~= spec_hero_pool_traits(pool@));
    }
    traits
}

/// The heroes of `pool` in `tier`.
pub open spec fn heroes_in<V>(pool: Seq<HeroPoolEntry<V>>, tier: HeroTier) -> Seq<HeroPoolEntry<V>> {
    pool.filter(|e: HeroPoolEntry<V>| e.tier == tier)
}

proof fn lemma_in_tier_counts<V>(pool: Seq<HeroPoolEntry<V>>, tier: HeroTier)
    ensures
        in_tier(pool, tier) == heroes_in(pool, tier).len(),
    decreases pool.len(),
{
    reveal(Seq::filter);
    if pool.len() > 0 {
        lemma_in_tier_counts(pool.drop_last(), tier);
    }
}

/// The pool is a weakness exactly when its risk heroes outnumber the ones
/// the player can rely on, its signature and comfort heroes together, and
/// the trait then sets the one count against the other. It is a strength
/// exactly when it holds a signature hero, and says how many.
pub proof fn an_unreliable_pool_is_outnumbered_by_its_risks<V>(pool: Seq<HeroPoolEntry<V>>)
    ensures
        (exists|i: int|
            0 <= i < spec_hero_pool_traits(pool).len() && (#[trigger] spec_hero_pool_traits(pool)[i]).2
                == "hero_pool.risk"@) <==> heroes_in(pool, HeroTier::Risk).len() > heroes_in(
            pool,
            HeroTier::Signature,
        ).len() + heroes_in(pool, HeroTier::Comfort).len(),
        forall|i: int|
            0 <= i < spec_hero_pool_traits(pool).len() && (#[trigger] spec_hero_pool_traits(pool)[i]).2
                == "hero_pool.risk"@ ==> spec_hero_pool_traits(pool)[i].0 == TraitKind::Weakness
                && spec_hero_pool_traits(pool)[i].4 == risk_statement(
                heroes_in(pool, HeroTier::Risk).len() as int,
                (heroes_in(pool, HeroTier::Signature).len() + heroes_in(pool, HeroTier::Comfort).len()) as int,
            ),
        (exists|i: int|
            0 <= i < spec_hero_pool_traits(pool).len() && (#[trigger] spec_hero_pool_traits(pool)[i]).2
                == "hero_pool.signature"@) <==> heroes_in(pool, HeroTier::Signature).len() > 0,
        forall|i: int|
            0 <= i < spec_hero_pool_traits(pool).len() && (#[trigger] spec_hero_pool_traits(pool)[i]).2
                == "hero_pool.signature"@ ==> spec_hero_pool_traits(pool)[i].0 == TraitKind::Strength
                && spec_hero_pool_traits(pool)[i].4 == signature_statement(
                heroes_in(pool, HeroTier::Signature).len() as int,
            ),
{
    reveal_strlit("hero_pool.risk");
    reveal_strlit("hero_pool.signature");
    assert("hero_pool.risk"@.len() != "hero_pool.signature"@.len());
    lemma_in_tier_counts(pool, HeroTier::Signature);
    lemma_in_tier_counts(pool, HeroTier::Comfort);
    lemma_in_tier_counts(pool, HeroTier::Risk);
    let t = spec_hero_pool_traits(pool);
    if pool.len() > 0 {
        let signature = in_tier(pool, HeroTier::Signature) as int;
        let risk = in_tier(pool, HeroTier::Risk) as int;
        let reliable = signature + in_tier(pool, HeroTier::Comfort) as int;
        if signature > 0 {
            assert(t[0].2 == "hero_pool.signature"@);
        }
        if risk > reliable && risk > 0 {
            let k = if signature > 0 { 1int } else { 0int };
            assert(t[k].2 == "hero_pool.risk"@);
        }
    } else {
        assert(t.len() == 0);
    }
}

/// The window recent form is read over.
pub const FORM_WINDOW: usize = 10;

/// One match as recent form reads it: when it started (Unix seconds) and
/// whether it was won.
#[derive(Debug, Clone, Copy, PartialEq, Eq, Structural)]
pub struct FormMatch {
    pub started_at: i64,
    pub won: bool,
}

/// The recent window's counts. `streak` is signed: `+4` is four straight
/// wins, `-4` four straight losses, `0` no matches.
#[derive(Debug, Clone, Copy, PartialEq, Eq, Structural)]
pub struct RecentForm {
    pub matches: i64,
    pub wins: i64,
    pub streak: i32,
}

/// Match `i` comes before match `j`, newest first: it started later, or at
/// the same moment and was listed first.
pub open spec fn newer(ms: Seq<FormMatch>, i: int, j: int) -> bool {
    ms[i].started_at > ms[j].started_at || (ms[i].started_at == ms[j].started_at && i < j)
}

/// `r` lists every match exactly once, newest first.
pub open spec fn is_newest_order(ms: Seq<FormMatch>, r: Seq<usize>) -> bool {
    &&& r.len() == ms.len()
    &&& forall|p: int| 0 <= p < r.len() ==> r[p] < ms.len()
    &&& forall|p: int, q: int| 0 <= p < q < r.len() ==> newer(ms, r[p] as int, r[q] as int)
}

/// How many of the listed matches were won.
pub open spec fn wins_in(ms: Seq<FormMatch>, w: Seq<usize>) -> nat
    decreases w.len(),
{
    if w.len() == 0 {
        0
    } else {
        wins_in(ms, w.drop_last()) + if ms[w.last() as int].won {
            1nat
        } else {
            0nat
        }
    }
}

/// The first `count` listed matches share the first one's result, and the
/// next one (if any) does not.
pub open spec fn head_run(ms: Seq<FormMatch>, w: Seq<usize>, count: int) -> bool {
    &&& 0 <= count <= w.len()
    &&& forall|p: int| 0 <= p < count ==> ms[#[trigger] w[p] as int].won == ms[w[0] as int].won
    &&& (count == w.len() || ms[w[count] as int].won != ms[w[0] as int].won)
}

/// The form of the newest [`FORM_WINDOW`] matches in order `r`.
pub open spec fn form_of(ms: Seq<FormMatch>, r: Seq<usize>, form: RecentForm) -> bool {
    let n = if r.len() < FORM_WINDOW { r.len() as int } else { FORM_WINDOW as int };
    let w = r.take(n);
    &&& form.matches == n
    &&& form.wins == wins_in(ms, w)
    &&& if n == 0 {
        form.streak == 0
    } else if ms[w[0] as int].won {
        head_run(ms, w, form.streak as int)
    } else {
        head_run(ms, w, -form.streak)
    }
}

fn newest_order(matches: &[FormMatch]) -> (r: Vec<usize>)
    ensures
        is_newest_order(matches@, r@),
{
    let mut r: Vec<usize> = Vec::new();
    let mut i: usize = 0;
    while i < matches.len()
        invariant
            i <= matches@.len(),
            r@.len() == i,
            forall|p: int| 0 <= p < r@.len() ==> r@[p] < i,
            forall|p: int, q: int| 0 <= p < q < r@.len() ==> newer(matches@, r@[p] as int, r@[q] as int),
        decreases matches@.len() - i,
    {
        let at = matches[i].started_at;
        let mut p: usize = 0;
        while p < r.len() && matches[r[p]].started_at >= at
            invariant
                p <= r@.len(),
                i < matches@.len(),
                at == matches@[i as int].started_at,
                forall|q: int| 0 <= q < r@.len() ==> r@[q] < i,
                forall|q: int| 0 <= q < p ==> matches@[r@[q] as int].started_at >= at,
            decreases r@.len() - p,
        {
            p = p + 1;
        }
        let ghost old_r = r@;
        r.insert(p, i);
        proof {
            assert(r@ == old_r.insert(p as int, i));
            assert forall|a: int, b: int| 0 <= a < b < r@.len() implies newer(
                matches@,
                r@[a] as int,
                r@[b] as int,
            ) by {
                if b < p {
                    assert(r@[a] == old_r[a] && r@[b] == old_r[b]);
                } else if b == p {
                    assert(r@[a] == old_r[a]);
                } else if a == p {
                    assert(r@[b] == old_r[b - 1]);
                    if b - 1 >= p {
                        if matches@[old_r[b - 1] as int].started_at >= at {
                            assert(newer(matches@, old_r[p as int] as int, old_r[b - 1] as int)
                                || p as int == b - 1);
                        }
                    }
                } else if a < p {
                    assert(r@[a] == old_r[a] && r@[b] == old_r[b - 1]);
                } else {
                    assert(r@[a] == old_r[a - 1] && r@[b] == old_r[b - 1]);
                }
            }
        }
        i = i + 1;
    }
    r
}

/// The newest [`FORM_WINDOW`] matches: how many, how many won, and the
/// current run, signed by its result.
pub fn recent_form(matches: &[FormMatch]) -> (form: RecentForm)
    ensures
        exists|r: Seq<usize>| #[trigger] is_newest_order(matches@, r) && form_of(matches@, r, form),
{
    let r = newest_order(matches);
    let n: usize = if r.len() < FORM_WINDOW { r.len() } else { FORM_WINDOW };
    let ghost w = r@.take(n as int);
    let mut wins: i64 = 0;
    let mut k: usize = 0;
    while k < n
        invariant
            n <= r@.len(),
            n <= FORM_WINDOW,
            w == r@.take(n as int),
            is_newest_order(matches@, r@),
            k <= n,
            wins == wins_in(matches@, w.take(k as int)),
            wins <= k,
        decreases n - k,
    {
        proof {
            assert(w.take(k + 1).drop_last() =~= w.take(k as int));
        }
        if matches[r[k]].won {
            wins = wins + 1;
        }
        k = k + 1;
    }
    proof {
        assert(w.take(n as int) =~= w);
    }
    let mut streak: i32 = 0;
    if n > 0 {
        let first = matches[r[0]].won;
        let mut run: usize = 1;
        while run < n && matches[r[run]].won == first
            invariant
                n <= r@.len(),
                n <= FORM_WINDOW,
                w == r@.take(n as int),
                is_newest_order(matches@, r@),
                1 <= run <= n,
                first == matches@[r@[0] as int].won,
                forall|p: int| 0 <= p < run ==> matches@[#[trigger] w[p] as int].won == first,
            decreases n - run,
        {
            run = run + 1;
        }
        streak = if first { run as i32 } else { -(run as i32) };
        proof {
            assert(head_run(matches@, w, run as int));
        }
    }
    let form = RecentForm { matches: n as i64, wins, streak };
    proof {
        assert(is_newest_order(matches@, r@) && form_of(matches@, r@, form));
    }
    form
}

} // verus!
