//! Hero meta: what the wider player base is playing right now.
//!
//! The provider supplies counts per hero, per rank bracket and across all
//! brackets. Reading them into a cohort is done here; scoring how strong a
//! hero is, and every rate derived from the counts, is done by the caller.

use vstd::prelude::*;

use crate::benchmarks::{spec_bracket_index, spec_bracket_label, RankBracket, Segment};
use crate::dota::fallback_hero_name;
use crate::text::{owned, push_str, signed_decimal};

verus! {

/// The note a bracket-segmented cohort carries: the trend arrays are only
/// published across all brackets.
pub const BRACKET_NOTE: &'static str = "Win and pick rates are for your rank bracket. The recent trend is published across all brackets.";

pub const SOURCE: &'static str = "OpenDota";

#[derive(Debug, Clone, PartialEq)]
pub enum HeroMetaError {
    Unavailable(String),
    RateLimited,
    InvalidResponse(String),
    NotFound,
}

pub open spec fn spec_hero_meta_note(e: HeroMetaError) -> Seq<char> {
    match e {
        HeroMetaError::RateLimited => "The hero meta provider is rate limiting us. Try again shortly."@,
        HeroMetaError::NotFound => "No hero meta is published for your bracket yet."@,
        _ => "Hero meta is unavailable right now."@,
    }
}

impl HeroMetaError {
    /// A short, user-safe explanation. Hero meta is a degradable feature:
    /// the page still renders the player's own pool without it.
    pub fn user_note(&self) -> (s: &'static str)
        ensures
            s@ == spec_hero_meta_note(*self),
    {
        match self {
            HeroMetaError::RateLimited => "The hero meta provider is rate limiting us. Try again shortly.",
            HeroMetaError::NotFound => "No hero meta is published for your bracket yet.",
            _ => "Hero meta is unavailable right now.",
        }
    }
}

/// One hero as the provider reports it; a missing figure is absent, never
/// zero.
#[derive(Debug, Clone, PartialEq)]
pub struct RawHeroStats<V> {
    pub id: i32,
    pub localized_name: Option<String>,
    pub roles: Vec<String>,
    /// Picks and wins across all brackets.
    pub pub_pick: Option<i64>,
    pub pub_win: Option<i64>,
    /// Picks and wins per bracket, the bracket of index `i` at `i - 1`;
    /// absent where the provider's columns are missing or not whole numbers.
    pub bracket_counts: Vec<Option<(i64, i64)>>,
    /// The recent change in win rate, where the trend arrays allow one.
    pub trend: Option<V>,
}

/// One hero of a cohort.
#[derive(Debug, Clone, PartialEq)]
pub struct CohortHero<V> {
    pub hero_id: i32,
    pub hero_name: String,
    pub roles: Vec<String>,
    pub picks: i64,
    pub wins: i64,
    pub trend: Option<V>,
    pub bracket: Option<RankBracket>,
}

/// The cohort a provider answered with.
#[derive(Debug, Clone, PartialEq)]
pub struct HeroMetaSet<V> {
    pub heroes: Vec<CohortHero<V>>,
    /// Dimensions genuinely segmented on, not the ones requested.
    pub segmented_by: Vec<Segment>,
    /// The bracket actually used: `None` when the one asked for had no data
    /// and every bracket was combined instead.
    pub bracket: Option<RankBracket>,
    pub source: &'static str,
    pub note: Option<String>,
}

pub open spec fn counts_for<V>(h: RawHeroStats<V>, b: RankBracket) -> Option<(i64, i64)> {
    let i = spec_bracket_index(b) - 1;
    if 0 <= i < h.bracket_counts@.len() {
        h.bracket_counts@[i]
    } else {
        None
    }
}

pub open spec fn picked(c: Option<(i64, i64)>) -> bool {
    c matches Some((p, _)) && p > 0
}

/// Some hero was picked in the bracket.
pub open spec fn bracket_has_data<V>(raw: Seq<RawHeroStats<V>>, b: RankBracket) -> bool {
    exists|i: int| 0 <= i < raw.len() && picked(#[trigger] counts_for(raw[i], b))
}

/// The bracket read: the one asked for when it has data, else none at all.
pub open spec fn used_bracket<V>(raw: Seq<RawHeroStats<V>>, asked: Option<RankBracket>) -> Option<
    RankBracket,
> {
    match asked {
        Some(b) => if bracket_has_data(raw, b) {
            Some(b)
        } else {
            None
        },
        None => None,
    }
}

pub open spec fn counts_used<V>(h: RawHeroStats<V>, used: Option<RankBracket>) -> Option<(i64, i64)> {
    match used {
        Some(b) => counts_for(h, b),
        None => match (h.pub_pick, h.pub_win) {
            (Some(p), Some(w)) => Some((p, w)),
            _ => None,
        },
    }
}

pub type CohortView<V> = (i32, Seq<char>, Seq<String>, i64, i64, Option<V>, Option<RankBracket>);

pub open spec fn cohort_view<V>(c: CohortHero<V>) -> CohortView<V> {
    (c.hero_id, c.hero_name@, c.roles@, c.picks, c.wins, c.trend, c.bracket)
}

pub open spec fn cohort_views<V>(s: Seq<CohortHero<V>>) -> Seq<CohortView<V>> {
    s.map_values(|c: CohortHero<V>| cohort_view(c))
}

pub open spec fn hero_name_of<V>(h: RawHeroStats<V>) -> Seq<char> {
    match h.localized_name {
        Some(n) => n@,
        None => "Hero "@ + signed_decimal(h.id as int),
    }
}

/// The heroes picked in the cohort read. A hero nobody picked has no win
/// rate, and a zero would read as "loses every game", so it is left out.
pub open spec fn cohort<V>(raw: Seq<RawHeroStats<V>>, used: Option<RankBracket>) -> Seq<CohortView<V>>
    decreases raw.len(),
{
    if raw.len() == 0 {
        seq![]
    } else {
        let h = raw.last();
        cohort(raw.drop_last(), used) + match counts_used(h, used) {
            Some((p, w)) => if p > 0 {
                seq![(h.id, hero_name_of(h), h.roles@, p, w, h.trend, used)]
            } else {
                seq![]
            },
            None => seq![],
        }
    }
}

pub open spec fn fallback_note(asked: RankBracket) -> Seq<char> {
    "OpenDota publishes no "@ + spec_bracket_label(asked)
        + " data yet, so this is every bracket combined."@
}

/// A cohort from the provider's heroes. When a bracket is asked for but
/// none of its heroes was picked, the all-bracket figures are used and the
/// drop in segmentation is reported, rather than a roster of zeroes scoring
/// as a real cohort. No heroes, or none picked, is not found.
pub open spec fn meta_set_matches<V>(
    r: Result<HeroMetaSet<V>, HeroMetaError>,
    raw: Seq<RawHeroStats<V>>,
    asked: Option<RankBracket>,
) -> bool {
    let used = used_bracket(raw, asked);
    if raw.len() == 0 || cohort(raw, used).len() == 0 {
        r matches Err(HeroMetaError::NotFound)
    } else {
        r matches Ok(set) && cohort_views(set.heroes@) == cohort(raw, used) && set.bracket == used
            && set.source@ == SOURCE@ && set.segmented_by@ == (if used is Some {
            seq![Segment::RankBracket]
        } else {
            Seq::<Segment>::empty()
        }) && match (asked, used) {
            (_, Some(_)) => set.note matches Some(n) && n@ == BRACKET_NOTE@,
            (Some(b), None) => set.note matches Some(n) && n@ == fallback_note(b),
            (None, None) => set.note is None,
        }
    }
}

fn counts_of<V>(h: &RawHeroStats<V>, b: RankBracket) -> (r: Option<(i64, i64)>)
    ensures
        r == counts_for(*h, b),
{
    let i = (b.index() - 1) as usize;
    if i < h.bracket_counts.len() {
        h.bracket_counts[i]
    } else {
        None
    }
}

fn has_data<V>(raw: &[RawHeroStats<V>], b: RankBracket) -> (r: bool)
    ensures
        r == bracket_has_data(raw@, b),
{
    let mut i: usize = 0;
    while i < raw.len()
        invariant
            i <= raw@.len(),
            forall|k: int| 0 <= k < i ==> !picked(#[trigger] counts_for(raw@[k], b)),
        decreases raw@.len() - i,
    {
        match counts_of(&raw[i], b) {
            Some((p, _)) => {
                if p > 0 {
                    assert(picked(counts_for(raw@[i as int], b)));
                    return true;
                }
            },
            None => {},
        }
        i = i + 1;
    }
    false
}

fn clone_strings(v: &Vec<String>) -> (out: Vec<String>)
    ensures
        out@ == v@,
{
    let mut out: Vec<String> = Vec::new();
    let mut i: usize = 0;
    while i < v.len()
        invariant
            i <= v@.len(),
            out@ == v@.take(i as int),
        decreases v@.len() - i,
    {
        out.push(v[i].clone());
        proof {
            assert(out@ =~= v@.take(i + 1));
        }
        i = i + 1;
    }
    proof {
        assert(v@.take(v@.len() as int) =~= v@);
    }
    out
}

fn used_counts<V>(h: &RawHeroStats<V>, used: Option<RankBracket>) -> (r: Option<(i64, i64)>)
    ensures
        r == counts_used(*h, used),
{
    match used {
        Some(b) => counts_of(h, b),
        None => match (h.pub_pick, h.pub_win) {
            (Some(p), Some(w)) => Some((p, w)),
            _ => None,
        },
    }
}

pub fn parse_hero_meta<V: Copy>(raw: &[RawHeroStats<V>], bracket: Option<RankBracket>) -> (r: Result<
    HeroMetaSet<V>,
    HeroMetaError,
>)
    ensures
        meta_set_matches(r, raw@, bracket),
{
    if raw.len() == 0 {
        return Err(HeroMetaError::NotFound);
    }
    let used = match bracket {
        Some(b) => if has_data(raw, b) {
            Some(b)
        } else {
            None
        },
        None => None,
    };
    let mut heroes: Vec<CohortHero<V>> = Vec::new();
    let mut i: usize = 0;
    while i < raw.len()
        invariant
            i <= raw@.len(),
            used == used_bracket(raw@, bracket),
            cohort_views(heroes@) == cohort(raw@.take(i as int), used),
        decreases raw@.len() - i,
    {
        let h = &raw[i];
        proof {
            assert(raw@.take(i + 1).drop_last() =~= raw@.take(i as int));
        }
        let ghost before = heroes@;
        match used_counts(h, used) {
            Some((p, w)) => {
                if p > 0 {
                    let name = match &h.localized_name {
                        Some(n) => n.clone(),
                        None => fallback_hero_name(h.id),
                    };
                    let c = CohortHero {
                        hero_id: h.id,
                        hero_name: name,
                        roles: clone_strings(&h.roles),
                        picks: p,
                        wins: w,
                        trend: h.trend,
                        bracket: used,
                    };
                    heroes.push(c);
                    proof {
                        assert(cohort_views(heroes@) =~= cohort_views(before).push(cohort_view(c)));
                    }
                } else {
                    proof {
                        assert(cohort_views(heroes@) =~= cohort_views(before) + Seq::<CohortView<V>>::empty());
                    }
                }
            },
            None => {
                proof {
                    assert(cohort_views(heroes@) =~= cohort_views(before) + Seq::<CohortView<V>>::empty());
                }
            },
        }
        i = i + 1;
    }
    proof {
        assert(raw@.take(raw@.len() as int) =~= raw@);
    }
    if heroes.len() == 0 {
        return Err(HeroMetaError::NotFound);
    }
    let mut segmented_by: Vec<Segment> = Vec::new();
    let note = match (bracket, used) {
        (_, Some(_)) => {
            segmented_by.push(Segment::RankBracket);
            Some(owned(BRACKET_NOTE))
        },
        (Some(asked), None) => {
            let mut n = owned("OpenDota publishes no ");
            push_str(&mut n, asked.label());
            push_str(&mut n, " data yet, so this is every bracket combined.");
            Some(n)
        },
        (None, None) => None,
    };
    proof {
        if used is Some {
            assert(segmented_by@ =~= seq![Segment::RankBracket]);
        } else {
            assert(segmented_by@ =~= Seq::<Segment>::empty());
        }
    }
    Ok(HeroMetaSet { heroes, segmented_by, bracket: used, source: SOURCE, note })
}

} // verus!
