//! The player's hero pool, as the dashboard summarizes it.
//!
//! Placing a hero in the repertoire weighs win rates against the player's
//! own, which is the caller's arithmetic; the entries arrive here already
//! placed, their rates carried through untouched.

use vstd::prelude::*;

use crate::benchmarks::{Confidence, MIN_SAMPLE};
use crate::text::owned;

verus! {

/// Where a hero sits in the repertoire.
#[derive(Debug, Clone, Copy, PartialEq, Eq, Structural)]
pub enum HeroTier {
    Signature,
    Comfort,
    Stretch,
    Risk,
}

/// One hero of the pool. `V` is whatever the rates and averages are
/// measured in; `at` is when it was last played, in Unix seconds.
#[derive(Debug, Clone, PartialEq)]
pub struct HeroPoolEntry<V> {
    pub hero_id: i32,
    pub hero_name: String,
    pub role: String,
    pub matches: i64,
    pub wins: i64,
    pub losses: i64,
    pub win_rate: V,
    pub recent_matches: i64,
    pub recent_win_rate: Option<V>,
    pub avg_kda: V,
    pub avg_gpm: V,
    pub last_played_at: i64,
    pub tier: HeroTier,
    pub confidence: Confidence,
}

/// A one-line summary of the pool.
#[derive(Debug, Clone, Copy, PartialEq, Eq, Structural)]
pub struct PoolSummary {
    pub heroes: i64,
    pub signature: i64,
    pub comfort: i64,
    pub stretch: i64,
    pub risk: i64,
    /// Heroes with enough matches for their figures to bear weight.
    pub established: i64,
}

pub open spec fn in_tier<V>(pool: Seq<HeroPoolEntry<V>>, tier: HeroTier) -> nat
    decreases pool.len(),
{
    if pool.len() == 0 {
        0
    } else {
        in_tier(pool.drop_last(), tier) + if pool.last().tier == tier {
            1nat
        } else {
            0nat
        }
    }
}

pub open spec fn established_in<V>(pool: Seq<HeroPoolEntry<V>>) -> nat
    decreases pool.len(),
{
    if pool.len() == 0 {
        0
    } else {
        established_in(pool.drop_last()) + if pool.last().confidence != Confidence::Insufficient {
            1nat
        } else {
            0nat
        }
    }
}

pub fn summarize<V>(pool: &[HeroPoolEntry<V>]) -> (s: PoolSummary)
    requires
        pool@.len() <= i64::MAX,
    ensures
        s.heroes == pool@.len(),
        s.signature == in_tier(pool@, HeroTier::Signature),
        s.comfort == in_tier(pool@, HeroTier::Comfort),
        s.stretch == in_tier(pool@, HeroTier::Stretch),
        s.risk == in_tier(pool@, HeroTier::Risk),
        s.established == established_in(pool@),
{
    let mut s = PoolSummary { heroes: 0, signature: 0, comfort: 0, stretch: 0, risk: 0, established: 0 };
    let mut i: usize = 0;
    while i < pool.len()
        invariant
            pool@.len() <= i64::MAX,
            i <= pool@.len(),
            s.heroes == i,
            s.signature == in_tier(pool@.take(i as int), HeroTier::Signature),
            s.comfort == in_tier(pool@.take(i as int), HeroTier::Comfort),
            s.stretch == in_tier(pool@.take(i as int), HeroTier::Stretch),
            s.risk == in_tier(pool@.take(i as int), HeroTier::Risk),
            s.established == established_in(pool@.take(i as int)),
            s.signature + s.comfort + s.stretch + s.risk == i,
            s.established <= i,
        decreases pool@.len() - i,
    {
        let e = &pool[i];
        proof {
            assert(pool@.take(i + 1).drop_last() =~= pool@.take(i as int));
        }
        s.heroes = s.heroes + 1;
        match e.tier {
            HeroTier::Signature => s.signature = s.signature + 1,
            HeroTier::Comfort => s.comfort = s.comfort + 1,
            HeroTier::Stretch => s.stretch = s.stretch + 1,
            HeroTier::Risk => s.risk = s.risk + 1,
        }
        if e.confidence != Confidence::Insufficient {
            s.established = s.established + 1;
        }
        i = i + 1;
    }
    proof {
        assert(pool@.take(pool@.len() as int) =~= pool@);
    }
    s
}

/// Every hero sits in exactly one tier.
pub proof fn tiers_partition_the_pool<V>(pool: Seq<HeroPoolEntry<V>>)
    ensures
        in_tier(pool, HeroTier::Signature) + in_tier(pool, HeroTier::Comfort) + in_tier(
            pool,
            HeroTier::Stretch,
        ) + in_tier(pool, HeroTier::Risk) == pool.len(),
        established_in(pool) <= pool.len(),
    decreases pool.len(),
{
    if pool.len() > 0 {
        tiers_partition_the_pool(pool.drop_last());
    }
}

/// Below this many matches, a hero is being learned rather than played.
pub const STRETCH_MATCHES: i64 = 5;

/// At or above this, with results clearly above the player's own baseline,
/// a hero is signature.
pub const SIGNATURE_MATCHES: i64 = 10;

/// Where a hero sits, evidence first: a hero with too few matches is a
/// stretch however they went. `beats_baseline` says the hero's win rate is
/// clearly above the player's own, `holds_baseline` that it is not clearly
/// below it.
pub open spec fn spec_classify(matches: i64, beats_baseline: bool, holds_baseline: bool) -> HeroTier {
    if matches < STRETCH_MATCHES {
        HeroTier::Stretch
    } else if matches >= SIGNATURE_MATCHES && beats_baseline {
        HeroTier::Signature
    } else if holds_baseline {
        HeroTier::Comfort
    } else {
        HeroTier::Risk
    }
}

pub fn classify(matches: i64, beats_baseline: bool, holds_baseline: bool) -> (t: HeroTier)
    ensures
        t == spec_classify(matches, beats_baseline, holds_baseline),
{
    if matches < STRETCH_MATCHES {
        HeroTier::Stretch
    } else if matches >= SIGNATURE_MATCHES && beats_baseline {
        HeroTier::Signature
    } else if holds_baseline {
        HeroTier::Comfort
    } else {
        HeroTier::Risk
    }
}

/// Results only count once there is history: a thin history is a stretch
/// whatever it shows, and only a deep one can be signature.
pub proof fn tiers_need_history(matches: i64, beats_baseline: bool, holds_baseline: bool)
    ensures
        matches < STRETCH_MATCHES ==> spec_classify(matches, beats_baseline, holds_baseline)
            == HeroTier::Stretch,
        spec_classify(matches, beats_baseline, holds_baseline) == HeroTier::Signature
            ==> matches >= SIGNATURE_MATCHES,
        matches >= STRETCH_MATCHES ==> spec_classify(matches, beats_baseline, holds_baseline)
            != HeroTier::Stretch,
{
}

/// Results decide a hero with history. Once it has at least
/// [`STRETCH_MATCHES`] matches, a hero is comfort only if its win rate holds
/// the player's own baseline and risk only if it does not; one that falls
/// clearly below the baseline is always risk, and one that holds it without
/// the depth or the margin for signature is always comfort, and one with
/// [`SIGNATURE_MATCHES`] matches clearly above the baseline is signature.
pub proof fn results_decide_a_hero_with_history(matches: i64, beats_baseline: bool, holds_baseline: bool)
    ensures
        spec_classify(matches, beats_baseline, holds_baseline) == HeroTier::Comfort ==> holds_baseline
            && matches >= STRETCH_MATCHES,
        spec_classify(matches, beats_baseline, holds_baseline) == HeroTier::Risk ==> !holds_baseline
            && matches >= STRETCH_MATCHES,
        matches >= STRETCH_MATCHES && !holds_baseline && !beats_baseline ==> spec_classify(
            matches,
            beats_baseline,
            holds_baseline,
        ) == HeroTier::Risk,
        matches >= STRETCH_MATCHES && holds_baseline && !(matches >= SIGNATURE_MATCHES && beats_baseline)
            ==> spec_classify(matches, beats_baseline, holds_baseline) == HeroTier::Comfort,
        matches >= SIGNATURE_MATCHES && beats_baseline ==> spec_classify(matches, beats_baseline, holds_baseline)
            == HeroTier::Signature,
{
}

/// What a hero recommendation says.
#[derive(Debug, Clone, Copy, PartialEq, Eq, Structural)]
pub enum RecommendationLevel {
    Recommended,
    Consider,
    AvoidForNow,
}

pub const HELD_BACK: &'static str = "Held back from a full recommendation until you have more games on it.";

pub const POOR_RECENT_FORM: &'static str = "Recent results on this hero have been poor.";

/// The level a fit score earned, after the two rules a score cannot
/// express: a hero with fewer than [`MIN_SAMPLE`] matches is never
/// recommended outright, and poor recent form on it demotes it one step
/// (anything below a recommendation to avoid-for-now).
pub open spec fn spec_level(by_score: RecommendationLevel, matches: i64, poor_recent_form: bool) -> RecommendationLevel {
    let held = if matches < MIN_SAMPLE && by_score == RecommendationLevel::Recommended {
        RecommendationLevel::Consider
    } else {
        by_score
    };
    if poor_recent_form {
        if held == RecommendationLevel::Recommended {
            RecommendationLevel::Consider
        } else {
            RecommendationLevel::AvoidForNow
        }
    } else {
        held
    }
}

/// The caveats those rules add, in order.
pub open spec fn level_caveats(by_score: RecommendationLevel, matches: i64, poor_recent_form: bool) -> Seq<Seq<char>> {
    (if matches < MIN_SAMPLE && by_score == RecommendationLevel::Recommended {
        seq![HELD_BACK@]
    } else {
        seq![]
    }) + if poor_recent_form {
        seq![POOR_RECENT_FORM@]
    } else {
        seq![]
    }
}

pub open spec fn texts_of(v: Seq<String>) -> Seq<Seq<char>> {
    v.map_values(|s: String| s@)
}

/// Apply the guards to the level `by_score` earned, noting each one that
/// applied in `caveats`.
pub fn level_for(
    by_score: RecommendationLevel,
    matches: i64,
    poor_recent_form: bool,
    caveats: &mut Vec<String>,
) -> (level: RecommendationLevel)
    ensures
        level == spec_level(by_score, matches, poor_recent_form),
        texts_of(final(caveats)@) == texts_of(old(caveats)@) + level_caveats(
            by_score,
            matches,
            poor_recent_form,
        ),
{
    let ghost start = texts_of(caveats@);
    let mut level = by_score;
    if matches < MIN_SAMPLE && level == RecommendationLevel::Recommended {
        level = RecommendationLevel::Consider;
        caveats.push(owned(HELD_BACK));
    }
    let ghost mid = texts_of(caveats@);
    if poor_recent_form {
        level = if level == RecommendationLevel::Recommended {
            RecommendationLevel::Consider
        } else {
            RecommendationLevel::AvoidForNow
        };
        caveats.push(owned(POOR_RECENT_FORM));
    }
    proof {
        if matches < MIN_SAMPLE && by_score == RecommendationLevel::Recommended {
            assert(mid =~= start + seq![HELD_BACK@]);
        } else {
            assert(mid =~= start);
        }
        if poor_recent_form {
            assert(texts_of(caveats@) =~= mid + seq![POOR_RECENT_FORM@]);
        } else {
            assert(texts_of(caveats@) =~= mid);
        }
        assert(texts_of(caveats@) =~= start + level_caveats(by_score, matches, poor_recent_form));
    }
    level
}

/// Meta strength never overrides coaching context: a hero the player has
/// barely touched, or is losing on lately, is never recommended outright,
/// and the guards only ever lower a level.
pub proof fn guards_only_hold_back(by_score: RecommendationLevel, matches: i64, poor_recent_form: bool)
    ensures
        matches < MIN_SAMPLE ==> spec_level(by_score, matches, poor_recent_form)
            != RecommendationLevel::Recommended,
        poor_recent_form ==> spec_level(by_score, matches, poor_recent_form)
            != RecommendationLevel::Recommended,
        by_score != RecommendationLevel::Recommended ==> spec_level(
            by_score,
            matches,
            poor_recent_form,
        ) != RecommendationLevel::Recommended,
        by_score == RecommendationLevel::AvoidForNow ==> spec_level(
            by_score,
            matches,
            poor_recent_form,
        ) == RecommendationLevel::AvoidForNow,
{
}

} // verus!
