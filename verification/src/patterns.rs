//! Recurring patterns, as the rest of the library reads them.
//!
//! A pattern is a habit found across many matches, stated with both its
//! denominators. Finding one weighs shares of matches against each other,
//! which is floating-point work done by the caller; what arrives here is the
//! finished reading.

use vstd::prelude::*;

verus! {

/// Matches a detector must be able to check before it may report anything.
pub const MIN_MEASURED: i64 = 8;

/// And the condition must have actually happened this often.
pub const MIN_OCCURRENCES: i64 = 3;

/// Whether a habit is still happening.
#[derive(Debug, Clone, Copy, PartialEq, Eq, Structural)]
pub enum PatternStatus {
    Active,
    Improving,
    Resolved,
}

/// One habit found across a player's history.
#[derive(Debug, Clone, PartialEq)]
pub struct RecurringPattern {
    pub id: String,
    pub label: String,
    pub description: String,
    pub occurrences: i64,
    /// The matches this could be checked in: the pattern's denominator.
    pub measured: i64,
    pub recent_measured: i64,
    pub status: PatternStatus,
    /// The sentence the coach and the UI both show.
    pub statement: String,
}

/// The sample bars a pattern must clear before its rate is even looked at:
/// measurable often enough, and actually seen often enough.
pub open spec fn spec_clears_sample_bars(measured: i64, occurrences: i64) -> bool {
    measured >= MIN_MEASURED && occurrences >= MIN_OCCURRENCES
}

pub fn clears_sample_bars(measured: i64, occurrences: i64) -> (b: bool)
    ensures
        b == spec_clears_sample_bars(measured, occurrences),
{
    measured >= MIN_MEASURED && occurrences >= MIN_OCCURRENCES
}

/// One thing worth noticing across many matches. Whether a match shows it is
/// answered per match by the caller: yes, no, or not measurable there.
#[derive(Debug, Clone, PartialEq)]
pub struct Detector {
    pub id: &'static str,
    pub label: &'static str,
    pub description: &'static str,
}

/// How many detectors there are.
pub const DETECTOR_COUNT: usize = 7;

pub open spec fn detector_ids() -> Seq<Seq<char>> {
    seq![
        "high_death_rate"@,
        "low_kill_participation"@,
        "farms_but_does_not_fight"@,
        "low_cs_at_10"@,
        "loses_a_won_lane"@,
        "late_bkb"@,
        "low_objective_damage"@,
    ]
}

/// The detectors, in the order their answers are given.
pub fn detectors() -> (d: Vec<Detector>)
    ensures
        d@.len() == DETECTOR_COUNT,
        forall|i: int| 0 <= i < DETECTOR_COUNT ==> (#[trigger] d@[i]).id@ == detector_ids()[i],
{
    let d = vec![
        Detector {
            id: "high_death_rate",
            label: "Dies too often",
            description: "Matches where you died more than three times per 10 minutes.",
        },
        Detector {
            id: "low_kill_participation",
            label: "Low teamfight participation",
            description: "Matches where you took part in under 55% of your team's kills.",
        },
        Detector {
            id: "farms_but_does_not_fight",
            label: "Farms well, fights rarely",
            description: "Matches where your farm beat your own median but you were absent from fights.",
        },
        Detector {
            id: "low_cs_at_10",
            label: "Weak laning stage",
            description: "Core matches where you had under 40 last hits at 10 minutes.",
        },
        Detector {
            id: "loses_a_won_lane",
            label: "Loses a won lane",
            description: "Matches you lost after coming out of the laning stage ahead of your own median.",
        },
        Detector {
            id: "late_bkb",
            label: "Late Black King Bar",
            description: "Matches where your Black King Bar was finished after 30 minutes.",
        },
        Detector {
            id: "low_objective_damage",
            label: "Little objective damage",
            description: "Long core matches where you did almost no tower damage.",
        },
    ];
    assert(d@.len() == 7);
    d
}

/// How many of the answers are measurements.
pub open spec fn measured_in(answers: Seq<Option<bool>>) -> nat
    decreases answers.len(),
{
    if answers.len() == 0 {
        0
    } else {
        measured_in(answers.drop_last()) + if answers.last() is Some {
            1nat
        } else {
            0nat
        }
    }
}

pub fn count_measured(answers: &[Option<bool>]) -> (n: i64)
    requires
        answers@.len() <= i64::MAX,
    ensures
        n == measured_in(answers@),
{
    let mut n: i64 = 0;
    let mut i: usize = 0;
    while i < answers.len()
        invariant
            i <= answers@.len(),
            answers@.len() <= i64::MAX,
            n == measured_in(answers@.take(i as int)),
            n <= i,
        decreases answers@.len() - i,
    {
        proof {
            assert(answers@.take(i + 1).drop_last() =~= answers@.take(i as int));
        }
        if answers[i].is_some() {
            n = n + 1;
        }
        i = i + 1;
    }
    proof {
        assert(answers@.take(answers@.len() as int) =~= answers@);
    }
    n
}

/// The detectors below the measurement floor, each with how few matches it
/// could check, in detector order.
pub open spec fn spec_unmeasurable(answers: Seq<Seq<Option<bool>>>, upto: int) -> Seq<(Seq<char>, i64)>
    decreases upto,
{
    if upto <= 0 {
        seq![]
    } else {
        spec_unmeasurable(answers, upto - 1) + if measured_in(answers[upto - 1]) < MIN_MEASURED {
            seq![(detector_ids()[upto - 1], measured_in(answers[upto - 1]) as i64)]
        } else {
            seq![]
        }
    }
}

pub open spec fn answer_views(a: Seq<Vec<Option<bool>>>) -> Seq<Seq<Option<bool>>> {
    a.map_values(|v: Vec<Option<bool>>| v@)
}

pub open spec fn entry_views(out: Seq<(&'static str, i64)>) -> Seq<(Seq<char>, i64)> {
    out.map_values(|e: (&'static str, i64)| (e.0@, e.1))
}

/// Detectors that could not report, with how few matches they could check.
/// Shown rather than hidden: "your laning stage cannot be checked because
/// your replays are not parsed" is useful, and its absence would read as
/// "your laning stage is fine". `answers` holds each detector's answers,
/// one per match, in detector order.
pub fn unmeasurable(answers: &[Vec<Option<bool>>]) -> (out: Vec<(&'static str, i64)>)
    requires
        answers@.len() == DETECTOR_COUNT,
        forall|d: int| 0 <= d < answers@.len() ==> (#[trigger] answers@[d])@.len() <= i64::MAX,
    ensures
        entry_views(out@) == spec_unmeasurable(answer_views(answers@), DETECTOR_COUNT as int),
{
    let all = detectors();
    let mut out: Vec<(&'static str, i64)> = Vec::new();
    let mut d: usize = 0;
    while d < DETECTOR_COUNT
        invariant
            d <= DETECTOR_COUNT,
            answers@.len() == DETECTOR_COUNT,
            all@.len() == DETECTOR_COUNT,
            forall|i: int| 0 <= i < DETECTOR_COUNT ==> (#[trigger] all@[i]).id@ == detector_ids()[i],
            forall|e: int| 0 <= e < answers@.len() ==> (#[trigger] answers@[e])@.len() <= i64::MAX,
            entry_views(out@) == spec_unmeasurable(answer_views(answers@), d as int),
        decreases DETECTOR_COUNT - d,
    {
        let measured = count_measured(answers[d].as_slice());
        let ghost before = out@;
        proof {
            assert(answer_views(answers@)[d as int] == answers@[d as int]@);
        }
        if measured < MIN_MEASURED {
            out.push((all[d].id, measured));
            proof {
                assert(entry_views(out@) =~= entry_views(before).push((all@[d as int].id@, measured)));
            }
        }
        proof {
            assert(entry_views(out@) =~= spec_unmeasurable(answer_views(answers@), d + 1));
        }
        d = d + 1;
    }
    out
}

/// How many of the answers are a yes.
pub open spec fn hits_in(answers: Seq<Option<bool>>) -> nat
    decreases answers.len(),
{
    if answers.len() == 0 {
        0
    } else {
        hits_in(answers.drop_last()) + if answers.last() == Some(true) {
            1nat
        } else {
            0nat
        }
    }
}

pub fn count_hits(answers: &[Option<bool>]) -> (n: i64)
    requires
        answers@.len() <= i64::MAX,
    ensures
        n == hits_in(answers@),
{
    let mut n: i64 = 0;
    let mut i: usize = 0;
    while i < answers.len()
        invariant
            i <= answers@.len(),
            answers@.len() <= i64::MAX,
            n == hits_in(answers@.take(i as int)),
            n <= i,
        decreases answers@.len() - i,
    {
        proof {
            assert(answers@.take(i + 1).drop_last() =~= answers@.take(i as int));
        }
        if answers[i] == Some(true) {
            n = n + 1;
        }
        i = i + 1;
    }
    proof {
        assert(answers@.take(answers@.len() as int) =~= answers@);
    }
    n
}

/// The detectors, by position, whose answers clear both sample bars: a
/// pattern can only be reported by one of these, and only then if its rate
/// clears the rate floor too. Three of three is a rate of a hundred percent
/// and no evidence at all.
pub open spec fn spec_with_evidence(answers: Seq<Seq<Option<bool>>>, upto: int) -> Seq<usize>
    decreases upto,
{
    if upto <= 0 {
        seq![]
    } else {
        spec_with_evidence(answers, upto - 1) + if spec_clears_sample_bars(
            measured_in(answers[upto - 1]) as i64,
            hits_in(answers[upto - 1]) as i64,
        ) {
            seq![(upto - 1) as usize]
        } else {
            seq![]
        }
    }
}

pub fn detectors_with_evidence(answers: &[Vec<Option<bool>>]) -> (out: Vec<usize>)
    requires
        answers@.len() == DETECTOR_COUNT,
        forall|d: int| 0 <= d < answers@.len() ==> (#[trigger] answers@[d])@.len() <= i64::MAX,
    ensures
        out@ == spec_with_evidence(answer_views(answers@), DETECTOR_COUNT as int),
{
    let mut out: Vec<usize> = Vec::new();
    let mut d: usize = 0;
    while d < DETECTOR_COUNT
        invariant
            d <= DETECTOR_COUNT,
            answers@.len() == DETECTOR_COUNT,
            forall|e: int| 0 <= e < answers@.len() ==> (#[trigger] answers@[e])@.len() <= i64::MAX,
            out@ == spec_with_evidence(answer_views(answers@), d as int),
        decreases DETECTOR_COUNT - d,
    {
        let measured = count_measured(answers[d].as_slice());
        let hits = count_hits(answers[d].as_slice());
        proof {
            assert(answer_views(answers@)[d as int] == answers@[d as int]@);
        }
        let ghost before = out@;
        if clears_sample_bars(measured, hits) {
            out.push(d);
        }
        proof {
            assert(out@ =~= spec_with_evidence(answer_views(answers@), d + 1));
        }
        d = d + 1;
    }
    out
}

/// A detector with a thin sample never reports: measurable in fewer than
/// [`MIN_MEASURED`] matches, or seen fewer than [`MIN_OCCURRENCES`] times,
/// is not evidence, whatever the rate.
pub proof fn thin_samples_are_never_patterns(answers: Seq<Seq<Option<bool>>>, upto: int, k: int)
    requires
        upto <= DETECTOR_COUNT,
        0 <= k < spec_with_evidence(answers, upto).len(),
    ensures
        0 <= spec_with_evidence(answers, upto)[k] < upto,
        spec_clears_sample_bars(
            measured_in(answers[spec_with_evidence(answers, upto)[k] as int]) as i64,
            hits_in(answers[spec_with_evidence(answers, upto)[k] as int]) as i64,
        ),
    decreases upto,
{
    if upto > 0 {
        let prev = spec_with_evidence(answers, upto - 1);
        if k < prev.len() {
            thin_samples_are_never_patterns(answers, upto - 1, k);
            assert(spec_with_evidence(answers, upto)[k] == prev[k]);
        } else {
            assert(spec_with_evidence(answers, upto)[k] == (upto - 1) as usize);
        }
    }
}

/// Whether `u` lists the detector named `id`.
pub open spec fn lists(u: Seq<(Seq<char>, i64)>, id: Seq<char>) -> bool {
    exists|k: int| 0 <= k < u.len() && (#[trigger] u[k]).0 == id
}

proof fn lemma_unmeasurable_entries(answers: Seq<Seq<Option<bool>>>, upto: int)
    requires
        0 <= upto <= DETECTOR_COUNT,
        answers.len() == DETECTOR_COUNT,
    ensures
        forall|k: int|
            0 <= k < spec_unmeasurable(answers, upto).len() ==> exists|d: int|
                0 <= d < upto && (#[trigger] spec_unmeasurable(answers, upto)[k]) == (
                    detector_ids()[d],
                    measured_in(answers[d]) as i64,
                ) && measured_in(answers[d]) < MIN_MEASURED,
        forall|d: int|
            0 <= d < upto && measured_in(#[trigger] answers[d]) < MIN_MEASURED ==> spec_unmeasurable(
                answers,
                upto,
            ).contains((detector_ids()[d], measured_in(answers[d]) as i64)),
    decreases upto,
{
    if upto > 0 {
        lemma_unmeasurable_entries(answers, upto - 1);
        let prev = spec_unmeasurable(answers, upto - 1);
        let u = spec_unmeasurable(answers, upto);
        assert forall|k: int| 0 <= k < u.len() implies exists|d: int|
            0 <= d < upto && (#[trigger] u[k]) == (detector_ids()[d], measured_in(answers[d]) as i64)
                && measured_in(answers[d]) < MIN_MEASURED by {
            if k < prev.len() {
                assert(u[k] == prev[k]);
            } else {
                assert(u[k] == (detector_ids()[upto - 1], measured_in(answers[upto - 1]) as i64));
            }
        }
        assert forall|d: int|
            0 <= d < upto && measured_in(#[trigger] answers[d]) < MIN_MEASURED implies u.contains(
            (detector_ids()[d], measured_in(answers[d]) as i64),
        ) by {
            if d < upto - 1 {
                let k = choose|k: int|
                    0 <= k < prev.len() && prev[k] == (detector_ids()[d], measured_in(answers[d]) as i64);
                assert(u[k] == prev[k]);
            } else {
                assert(u[prev.len() as int] == (detector_ids()[d], measured_in(answers[d]) as i64));
            }
        }
    }
}

/// A detector is listed as unmeasurable exactly when it could be checked in
/// fewer than [`MIN_MEASURED`] matches, and then with that count; a listed
/// detector never has the evidence to report a pattern. A signal that could
/// not be read is not read as one that passed.
pub proof fn unmeasurable_lists_exactly_the_thin_detectors(answers: Seq<Seq<Option<bool>>>)
    requires
        answers.len() == DETECTOR_COUNT,
    ensures
        forall|d: int|
            0 <= d < DETECTOR_COUNT ==> (lists(
                spec_unmeasurable(answers, DETECTOR_COUNT as int),
                #[trigger] detector_ids()[d],
            ) <==> measured_in(answers[d]) < MIN_MEASURED),
        forall|k: int|
            0 <= k < spec_unmeasurable(answers, DETECTOR_COUNT as int).len() ==> exists|d: int|
                0 <= d < DETECTOR_COUNT && (#[trigger] spec_unmeasurable(
                    answers,
                    DETECTOR_COUNT as int,
                )[k]) == (detector_ids()[d], measured_in(answers[d]) as i64) && measured_in(
                    answers[d],
                ) < MIN_MEASURED,
        forall|d: int|
            0 <= d < DETECTOR_COUNT && lists(
                spec_unmeasurable(answers, DETECTOR_COUNT as int),
                #[trigger] detector_ids()[d],
            ) ==> !spec_with_evidence(answers, DETECTOR_COUNT as int).contains(d as usize),
{
    let n = DETECTOR_COUNT as int;
    let u = spec_unmeasurable(answers, n);
    lemma_unmeasurable_entries(answers, n);
    reveal_strlit("high_death_rate");
    reveal_strlit("low_kill_participation");
    reveal_strlit("farms_but_does_not_fight");
    reveal_strlit("low_cs_at_10");
    reveal_strlit("loses_a_won_lane");
    reveal_strlit("late_bkb");
    reveal_strlit("low_objective_damage");
    assert forall|a: int, b: int|
        0 <= a < n && 0 <= b < n && detector_ids()[a] == detector_ids()[b] implies a == b by {
        assert(detector_ids()[a].len() == detector_ids()[b].len());
    }
    assert forall|d: int| 0 <= d < n implies (lists(u, #[trigger] detector_ids()[d])
        <==> measured_in(answers[d]) < MIN_MEASURED) by {
        if lists(u, detector_ids()[d]) {
            let k = choose|k: int| 0 <= k < u.len() && (#[trigger] u[k]).0 == detector_ids()[d];
            let e = choose|e: int|
                0 <= e < n && u[k] == (detector_ids()[e], measured_in(answers[e]) as i64)
                    && measured_in(answers[e]) < MIN_MEASURED;
            assert(detector_ids()[e] == detector_ids()[d]);
        }
        if measured_in(answers[d]) < MIN_MEASURED {
            let k = choose|k: int|
                0 <= k < u.len() && u[k] == (detector_ids()[d], measured_in(answers[d]) as i64);
            assert(u[k].0 == detector_ids()[d]);
        }
    }
    assert forall|d: int|
        0 <= d < n && lists(u, #[trigger] detector_ids()[d]) implies !spec_with_evidence(
        answers,
        n,
    ).contains(d as usize) by {
        if spec_with_evidence(answers, n).contains(d as usize) {
            let k = choose|k: int|
                0 <= k < spec_with_evidence(answers, n).len() && spec_with_evidence(answers, n)[k]
                    == d as usize;
            thin_samples_are_never_patterns(answers, n, k);
        }
    }
}

/// How many of a pattern's newest measurable matches are read for its
/// recent rate.
pub const RECENT_WINDOW: usize = 10;

/// How many offending matches a pattern cites.
pub const MAX_EXAMPLES: usize = 3;

/// One match as one detector answered it: `None` where it could not check.
#[derive(Debug, Clone, Copy, PartialEq, Eq, Structural)]
pub struct DetectorAnswer {
    pub match_id: u128,
    /// Unix seconds.
    pub started_at: i64,
    pub hit: Option<bool>,
}

/// What a detector's answers add up to, before any rate is taken.
#[derive(Debug, Clone, PartialEq)]
pub struct PatternCounts {
    /// The matches the detector could check.
    pub measured: i64,
    /// Of those, the ones where the condition held.
    pub occurrences: i64,
    /// The newest [`RECENT_WINDOW`] measurable matches, and the hits among
    /// them.
    pub recent_measured: i64,
    pub recent_hits: i64,
    /// The newest offending matches, at most [`MAX_EXAMPLES`], newest first.
    pub examples: Vec<u128>,
    /// When the oldest and the newest offending match started.
    pub first_seen_at: Option<i64>,
    pub last_seen_at: Option<i64>,
}

/// Answer `i` is listed before answer `j`: it started later, or at the same
/// moment and came first.
pub open spec fn answered_before(a: Seq<DetectorAnswer>, i: int, j: int) -> bool {
    a[i].started_at > a[j].started_at || (a[i].started_at == a[j].started_at && i < j)
}

/// `r` lists every measurable answer exactly once, newest first.
pub open spec fn is_measured_order(a: Seq<DetectorAnswer>, r: Seq<usize>) -> bool {
    &&& forall|p: int| #![trigger r[p]] 0 <= p < r.len() ==> r[p] < a.len() && a[r[p] as int].hit is Some
    &&& forall|i: int| 0 <= i < a.len() && (#[trigger] a[i]).hit is Some ==> r.contains(i as usize)
    &&& forall|p: int, q: int| 0 <= p < q < r.len() ==> answered_before(a, r[p] as int, r[q] as int)
}

/// The listed answers where the condition held, in the same order.
pub open spec fn hit_list(a: Seq<DetectorAnswer>, r: Seq<usize>) -> Seq<usize>
    decreases r.len(),
{
    if r.len() == 0 {
        seq![]
    } else {
        hit_list(a, r.drop_last()) + if a[r.last() as int].hit == Some(true) {
            seq![r.last()]
        } else {
            seq![]
        }
    }
}

pub open spec fn at_most(n: nat, cap: nat) -> nat {
    if n < cap {
        n
    } else {
        cap
    }
}

/// The counts of a measurable order `r`.
pub open spec fn counts_of(a: Seq<DetectorAnswer>, r: Seq<usize>, c: PatternCounts) -> bool {
    let hits = hit_list(a, r);
    let recent = at_most(r.len(), RECENT_WINDOW as nat);
    let shown = at_most(hits.len(), MAX_EXAMPLES as nat);
    &&& c.measured == r.len()
    &&& c.occurrences == hits.len()
    &&& c.recent_measured == recent
    &&& c.recent_hits == hit_list(a, r.take(recent as int)).len()
    &&& c.examples@ == Seq::new(shown, |k: int| a[hits[k] as int].match_id)
    &&& c.first_seen_at == if hits.len() == 0 {
        None
    } else {
        Some(a[hits.last() as int].started_at)
    }
    &&& c.last_seen_at == if hits.len() == 0 {
        None
    } else {
        Some(a[hits[0] as int].started_at)
    }
}

fn measured_order(answers: &[DetectorAnswer]) -> (r: Vec<usize>)
    ensures
        is_measured_order(answers@, r@),
        r@.len() <= answers@.len(),
{
    let mut r: Vec<usize> = Vec::new();
    let mut i: usize = 0;
    while i < answers.len()
        invariant
            i <= answers@.len(),
            r@.len() <= i,
            forall|p: int| #![trigger r@[p]] 0 <= p < r@.len() ==> r@[p] < i && answers@[r@[p] as int].hit is Some,
            forall|k: int| 0 <= k < i && (#[trigger] answers@[k]).hit is Some ==> r@.contains(k as usize),
            forall|p: int, q: int|
                0 <= p < q < r@.len() ==> answered_before(answers@, r@[p] as int, r@[q] as int),
        decreases answers@.len() - i,
    {
        if answers[i].hit.is_some() {
            let at = answers[i].started_at;
            let mut p: usize = 0;
            while p < r.len() && answers[r[p]].started_at >= at
                invariant
                    p <= r@.len(),
                    i < answers@.len(),
                    at == answers@[i as int].started_at,
                    forall|q: int| 0 <= q < r@.len() ==> r@[q] < i,
                    forall|q: int| 0 <= q < p ==> answers@[r@[q] as int].started_at >= at,
                decreases r@.len() - p,
            {
                p = p + 1;
            }
            let ghost old_r = r@;
            r.insert(p, i);
            proof {
                assert(r@ == old_r.insert(p as int, i));
                assert forall|x: int, y: int| 0 <= x < y < r@.len() implies answered_before(
                    answers@,
                    r@[x] as int,
                    r@[y] as int,
                ) by {
                    if y < p {
                        assert(r@[x] == old_r[x] && r@[y] == old_r[y]);
                    } else if y == p {
                        assert(r@[x] == old_r[x]);
                    } else if x == p {
                        assert(r@[y] == old_r[y - 1]);
                        if y - 1 >= p {
                            if answers@[old_r[y - 1] as int].started_at >= at {
                                assert(answered_before(answers@, old_r[p as int] as int, old_r[y - 1] as int)
                                    || p as int == y - 1);
                            }
                        }
                    } else if x < p {
                        assert(r@[x] == old_r[x] && r@[y] == old_r[y - 1]);
                    } else {
                        assert(r@[x] == old_r[x - 1] && r@[y] == old_r[y - 1]);
                    }
                }
                assert forall|k: int| 0 <= k < i + 1 && (#[trigger] answers@[k]).hit is Some implies r@.contains(
                    k as usize,
                ) by {
                    if k == i {
                        assert(r@[p as int] == i);
                    } else {
                        let q = choose|q: int| 0 <= q < old_r.len() && old_r[q] == k as usize;
                        if q < p {
                            assert(r@[q] == k as usize);
                        } else {
                            assert(r@[q + 1] == k as usize);
                        }
                    }
                }
                assert forall|q: int| #![trigger r@[q]] 0 <= q < r@.len() implies r@[q] < i + 1 && answers@[r@[q] as int].hit is Some by {
                    if q < p {
                        assert(r@[q] == old_r[q]);
                    } else if q > p {
                        assert(r@[q] == old_r[q - 1]);
                    }
                }
            }
        }
        i = i + 1;
    }
    r
}

proof fn lemma_hit_list_bound(a: Seq<DetectorAnswer>, r: Seq<usize>, n: int)
    requires
        forall|p: int| 0 <= p < r.len() ==> #[trigger] r[p] < n,
    ensures
        hit_list(a, r).len() <= r.len(),
        forall|k: int| 0 <= k < hit_list(a, r).len() ==> #[trigger] hit_list(a, r)[k] < n,
    decreases r.len(),
{
    if r.len() > 0 {
        lemma_hit_list_bound(a, r.drop_last(), n);
        let prev = hit_list(a, r.drop_last());
        assert forall|k: int| 0 <= k < hit_list(a, r).len() implies #[trigger] hit_list(a, r)[k] < n by {
            if k < prev.len() {
                assert(hit_list(a, r)[k] == prev[k]);
            } else {
                assert(hit_list(a, r)[k] == r.last());
                assert(r[r.len() - 1] < n);
            }
        }
    }
}

/// The hits of `r` taken one listed answer at a time.
fn hits_of(answers: &[DetectorAnswer], r: &Vec<usize>) -> (h: Vec<usize>)
    requires
        forall|p: int| 0 <= p < r@.len() ==> r@[p] < answers@.len(),
    ensures
        h@ == hit_list(answers@, r@),
{
    let mut h: Vec<usize> = Vec::new();
    let mut k: usize = 0;
    while k < r.len()
        invariant
            k <= r@.len(),
            forall|p: int| 0 <= p < r@.len() ==> r@[p] < answers@.len(),
            h@ == hit_list(answers@, r@.take(k as int)),
        decreases r@.len() - k,
    {
        proof {
            assert(r@.take(k + 1).drop_last() =~= r@.take(k as int));
        }
        if answers[r[k]].hit == Some(true) {
            h.push(r[k]);
        }
        proof {
            assert(h@ =~= hit_list(answers@, r@.take(k + 1)));
        }
        k = k + 1;
    }
    proof {
        assert(r@.take(r@.len() as int) =~= r@);
    }
    h
}

/// What one detector's answers add up to: the measurable matches newest
/// first, the hits among them, the newest window, and the newest offending
/// matches as examples.
pub fn pattern_counts(answers: &[DetectorAnswer]) -> (c: PatternCounts)
    requires
        answers@.len() <= i64::MAX,
    ensures
        exists|r: Seq<usize>| #[trigger] is_measured_order(answers@, r) && counts_of(answers@, r, c),
{
    let r = measured_order(answers);
    let hits = hits_of(answers, &r);
    proof {
        lemma_hit_list_bound(answers@, r@, answers@.len() as int);
    }
    let recent_n: usize = if r.len() < RECENT_WINDOW { r.len() } else { RECENT_WINDOW };
    let mut recent: Vec<usize> = Vec::new();
    let mut k: usize = 0;
    while k < recent_n
        invariant
            recent_n <= r@.len(),
            k <= recent_n,
            recent@ == r@.take(k as int),
            forall|p: int| #![trigger r@[p]] 0 <= p < r@.len() ==> r@[p] < answers@.len(),
        decreases recent_n - k,
    {
        recent.push(r[k]);
        proof {
            assert(recent@ =~= r@.take(k + 1));
        }
        k = k + 1;
    }
    let recent_hits = hits_of(answers, &recent);
    proof {
        lemma_hit_list_bound(answers@, recent@, answers@.len() as int);
    }
    let shown: usize = if hits.len() < MAX_EXAMPLES { hits.len() } else { MAX_EXAMPLES };
    let mut examples: Vec<u128> = Vec::new();
    let mut e: usize = 0;
    while e < shown
        invariant
            shown <= hits@.len(),
            e <= shown,
            forall|q: int| 0 <= q < hits@.len() ==> hits@[q] < answers@.len(),
            examples@ == Seq::new(e as nat, |x: int| answers@[hits@[x] as int].match_id),
        decreases shown - e,
    {
        examples.push(answers[hits[e]].match_id);
        proof {
            assert(examples@ =~= Seq::new((e + 1) as nat, |x: int| answers@[hits@[x] as int].match_id));
        }
        e = e + 1;
    }
    let first_seen_at = if hits.len() == 0 {
        None
    } else {
        Some(answers[hits[hits.len() - 1]].started_at)
    };
    let last_seen_at = if hits.len() == 0 {
        None
    } else {
        Some(answers[hits[0]].started_at)
    };
    let c = PatternCounts {
        measured: r.len() as i64,
        occurrences: hits.len() as i64,
        recent_measured: recent_n as i64,
        recent_hits: recent_hits.len() as i64,
        examples,
        first_seen_at,
        last_seen_at,
    };
    proof {
        assert(counts_of(answers@, r@, c));
    }
    c
}

} // verus!
