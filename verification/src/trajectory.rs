//! The rank chart: real readings, and a disclosed model between them.
//!
//! The only points carrying `estimated: false` are stored rank readings.
//! Between each two adjacent readings of a run, the ranked matches played in
//! that window get a modeled point each, flagged estimated; how high each
//! one sits is the model's floating-point work, done by the caller for each
//! window [`trajectory_windows`] lists. A reading with no rank breaks the
//! line, and nothing is modeled past the newest reading.

use vstd::prelude::*;

use crate::calibration::{
    push_unique, rank_label, ranked_runs, run_views, runs_from, spec_is_ranked, is_ranked, spec_rank_label,
    spec_ranked_runs, RankSnapshot, Reading, TrajectoryPoint,
};
use crate::records::Match;

verus! {

/// Match `i` comes before match `j` on the chart: it started earlier, or at
/// the same moment and was stored first.
pub open spec fn charted_before(ms: Seq<Match>, i: int, j: int) -> bool {
    ms[i].started_at < ms[j].started_at || (ms[i].started_at == ms[j].started_at && i < j)
}

/// `r` lists every ranked match exactly once, oldest first; equal start
/// times keep their stored order.
pub open spec fn is_oldest_first(ms: Seq<Match>, r: Seq<usize>) -> bool {
    &&& forall|p: int| 0 <= p < r.len() ==> r[p] < ms.len() && spec_is_ranked(ms[r[p] as int])
    &&& forall|i: int| 0 <= i < ms.len() && spec_is_ranked(#[trigger] ms[i]) ==> r.contains(
        i as usize,
    )
    &&& forall|p: int, q: int| 0 <= p < q < r.len() ==> charted_before(ms, r[p] as int, r[q] as int)
}

/// The ranked subset, oldest first, as indices into `matches`.
pub fn ranked_oldest_first(matches: &[Match]) -> (r: Vec<usize>)
    ensures
        is_oldest_first(matches@, r@),
        r@.len() <= matches@.len(),
{
    let mut r: Vec<usize> = Vec::new();
    let mut i: usize = 0;
    while i < matches.len()
        invariant
            i <= matches@.len(),
            r@.len() <= i,
            forall|p: int| 0 <= p < r@.len() ==> r@[p] < i && spec_is_ranked(
                matches@[r@[p] as int],
            ),
            forall|k: int| 0 <= k < i && spec_is_ranked(#[trigger] matches@[k]) ==> r@.contains(
                k as usize,
            ),
            forall|p: int, q: int|
                0 <= p < q < r@.len() ==> charted_before(matches@, r@[p] as int, r@[q] as int),
        decreases matches@.len() - i,
    {
        if is_ranked(&matches[i]) {
            let at = matches[i].started_at;
            let mut p: usize = 0;
            while p < r.len() && matches[r[p]].started_at <= at
                invariant
                    p <= r@.len(),
                    i < matches@.len(),
                    at == matches@[i as int].started_at,
                    forall|q: int| 0 <= q < r@.len() ==> r@[q] < i,
                    forall|q: int| 0 <= q < p ==> matches@[r@[q] as int].started_at <= at,
                decreases r@.len() - p,
            {
                p = p + 1;
            }
            let ghost old_r = r@;
            r.insert(p, i);
            proof {
                assert(r@ == old_r.insert(p as int, i));
                assert forall|a: int, b: int| 0 <= a < b < r@.len() implies charted_before(
                    matches@,
                    r@[a] as int,
                    r@[b] as int,
                ) by {
                    if b < p {
                        assert(r@[a] == old_r[a] && r@[b] == old_r[b]);
                    } else if b == p {
                        assert(r@[a] == old_r[a]);
                    } else if a == p {
                        assert(r@[b] == old_r[b - 1]);
                        if b - 1 >= p {
                            if matches@[old_r[b - 1] as int].started_at <= at {
                                assert(charted_before(
                                    matches@,
                                    old_r[p as int] as int,
                                    old_r[b - 1] as int,
                                ) || p as int == b - 1);
                            }
                        }
                    } else if a < p {
                        assert(r@[a] == old_r[a] && r@[b] == old_r[b - 1]);
                    } else {
                        assert(r@[a] == old_r[a - 1] && r@[b] == old_r[b - 1]);
                    }
                }
                assert forall|k: int|
                    0 <= k < i + 1 && spec_is_ranked(#[trigger] matches@[k]) implies r@.contains(
                    k as usize,
                ) by {
                    if k == i {
                        assert(r@[p as int] == i);
                    } else {
                        let q = choose|q: int| 0 <= q < old_r.len() && old_r[q] == k as usize;
                        if q < p {
                            assert(r@[q] == k as usize);
                        } else {
                            assert(r@[q + 1] == k as usize);
                        }
                    }
                }
            }
        }
        i = i + 1;
    }
    r
}

/// The ranked matches of `r` (oldest first) played strictly between two
/// moments, in the same order.
pub open spec fn played_between(ms: Seq<Match>, r: Seq<usize>, from: i64, to: i64) -> Seq<usize>
    decreases r.len(),
{
    if r.len() == 0 {
        seq![]
    } else {
        played_between(ms, r.drop_last(), from, to) + if from < ms[r.last() as int].started_at < to {
            seq![r.last()]
        } else {
            seq![]
        }
    }
}

/// Adjacent readings of one run.
pub open spec fn run_pairs(run: Seq<Reading>) -> Seq<(Reading, Reading)> {
    Seq::new(if run.len() == 0 { 0nat } else { (run.len() - 1) as nat }, |k: int| (run[k], run[k + 1]))
}

/// Every pair of adjacent readings, run by run.
pub open spec fn all_pairs(runs: Seq<Seq<Reading>>) -> Seq<(Reading, Reading)>
    decreases runs.len(),
{
    if runs.len() == 0 {
        seq![]
    } else {
        run_pairs(runs[0]) + all_pairs(runs.drop_first())
    }
}

/// One stretch between two adjacent real readings, with the ranked matches
/// played strictly inside it, oldest first, as indices into the matches.
#[derive(Debug, PartialEq)]
pub struct TrajectoryWindow {
    pub from: Reading,
    pub to: Reading,
    pub between: Vec<usize>,
}

/// `windows` are the stretches of the chart: one per pair of adjacent
/// readings, each holding the ranked matches played inside it.
pub open spec fn windows_of(snapshots: Seq<RankSnapshot>, ms: Seq<Match>, windows: Seq<TrajectoryWindow>) -> bool {
    let pairs = all_pairs(spec_ranked_runs(snapshots));
    &&& windows.len() == pairs.len()
    &&& exists|r: Seq<usize>|
        #![trigger is_oldest_first(ms, r)]
        is_oldest_first(ms, r) && forall|w: int|
            0 <= w < windows.len() ==> (#[trigger] windows[w]).from == pairs[w].0 && windows[w].to
                == pairs[w].1 && windows[w].between@ == played_between(
                ms,
                r,
                pairs[w].0.1,
                pairs[w].1.1,
            )
}

fn between_of(matches: &[Match], r: &Vec<usize>, from: i64, to: i64) -> (b: Vec<usize>)
    requires
        forall|p: int| 0 <= p < r@.len() ==> r@[p] < matches@.len(),
    ensures
        b@ == played_between(matches@, r@, from, to),
{
    let mut b: Vec<usize> = Vec::new();
    let mut i: usize = 0;
    while i < r.len()
        invariant
            i <= r@.len(),
            forall|p: int| 0 <= p < r@.len() ==> r@[p] < matches@.len(),
            b@ == played_between(matches@, r@.take(i as int), from, to),
        decreases r@.len() - i,
    {
        proof {
            assert(r@.take(i + 1).drop_last() =~= r@.take(i as int));
        }
        let at = matches[r[i]].started_at;
        if from < at && at < to {
            b.push(r[i]);
        }
        proof {
            assert(b@ =~= played_between(matches@, r@.take(i + 1), from, to));
        }
        i = i + 1;
    }
    proof {
        assert(r@.take(r@.len() as int) =~= r@);
    }
    b
}

proof fn lemma_all_pairs_step(runs: Seq<Seq<Reading>>, k: int)
    requires
        0 <= k < runs.len(),
    ensures
        all_pairs(runs.skip(k)) == run_pairs(runs[k]) + all_pairs(runs.skip(k + 1)),
{
    assert(runs.skip(k).drop_first() =~= runs.skip(k + 1));
}

/// The stretches of the chart, in order, each with the ranked matches played
/// inside it oldest first. The caller models one point per such match.
pub fn trajectory_windows(snapshots: &[RankSnapshot], matches: &[Match]) -> (windows: Vec<
    TrajectoryWindow,
>)
    ensures
        windows_of(snapshots@, matches@, windows@),
{
    let ranked = ranked_oldest_first(matches);
    let runs = ranked_runs(snapshots);
    let ghost rv = run_views(runs@);
    let ghost pairs = all_pairs(rv);
    let mut windows: Vec<TrajectoryWindow> = Vec::new();
    let mut k: usize = 0;
    proof {
        assert(rv.skip(0) =~= rv);
        assert(rv.take(0) =~= Seq::<Seq<Reading>>::empty());
        assert(pairs =~= all_pairs(rv.take(0)) + all_pairs(rv.skip(0)));
    }
    while k < runs.len()
        invariant
            k <= runs@.len(),
            forall|q: int| 0 <= q < runs@.len() ==> (#[trigger] runs@[q])@.len() > 0,
            rv == run_views(runs@),
            rv.len() == runs@.len(),
            rv == spec_ranked_runs(snapshots@),
            pairs == all_pairs(rv),
            is_oldest_first(matches@, ranked@),
            pairs == all_pairs(rv.take(k as int)) + all_pairs(rv.skip(k as int)),
            windows@.len() == all_pairs(rv.take(k as int)).len(),
            forall|w: int|
                0 <= w < windows@.len() ==> (#[trigger] windows@[w]).from == pairs[w].0
                    && windows@[w].to == pairs[w].1 && windows@[w].between@ == played_between(
                    matches@,
                    ranked@,
                    pairs[w].0.1,
                    pairs[w].1.1,
                ),
        decreases runs@.len() - k,
    {
        let run = &runs[k];
        proof {
            lemma_all_pairs_step(rv, k as int);
            assert(rv[k as int] == run@);
            assert(pairs =~= all_pairs(rv.take(k as int)) + run_pairs(run@) + all_pairs(
                rv.skip(k + 1),
            ));
        }
        let ghost start = windows@.len();
        let mut j: usize = 0;
        while j < run.len() - 1
            invariant
                rv[k as int] == run@,
                k < rv.len(),
                is_oldest_first(matches@, ranked@),
                pairs == all_pairs(rv.take(k as int)) + run_pairs(run@) + all_pairs(
                    rv.skip(k + 1),
                ),
                start == all_pairs(rv.take(k as int)).len(),
                windows@.len() == start + j,
                run@.len() > 0,
                j < run@.len(),
                forall|w: int|
                    0 <= w < windows@.len() ==> (#[trigger] windows@[w]).from == pairs[w].0
                        && windows@[w].to == pairs[w].1 && windows@[w].between@ == played_between(
                        matches@,
                        ranked@,
                        pairs[w].0.1,
                        pairs[w].1.1,
                    ),
            decreases run@.len() - j,
        {
            let from = run[j];
            let to = run[j + 1];
            let between = between_of(matches, &ranked, from.1, to.1);
            proof {
                assert(pairs[start + j] == run_pairs(run@)[j as int]);
            }
            windows.push(TrajectoryWindow { from, to, between });
            j = j + 1;
        }
        proof {
            assert(run_pairs(run@).len() == j);
            assert(rv.take(k + 1) =~= rv.take(k as int).push(rv[k as int]));
            assert(all_pairs(rv.take(k + 1)) =~= all_pairs(rv.take(k as int)) + run_pairs(rv[k as int])) by {
                lemma_all_pairs_push(rv.take(k as int), rv[k as int]);
            }
            assert(pairs =~= all_pairs(rv.take(k + 1)) + all_pairs(rv.skip(k + 1)));
        }
        k = k + 1;
    }
    proof {
        assert(rv.skip(runs@.len() as int) =~= Seq::<Seq<Reading>>::empty());
        assert(rv.take(runs@.len() as int) =~= rv);
        assert(windows_of(snapshots@, matches@, windows@));
    }
    windows
}

proof fn lemma_all_pairs_push(runs: Seq<Seq<Reading>>, run: Seq<Reading>)
    ensures
        all_pairs(runs.push(run)) == all_pairs(runs) + run_pairs(run),
    decreases runs.len(),
{
    if runs.len() == 0 {
        assert(runs.push(run).drop_first() =~= Seq::<Seq<Reading>>::empty());
        assert(runs.push(run)[0] == run);
        assert(all_pairs(Seq::<Seq<Reading>>::empty()) =~= Seq::<(Reading, Reading)>::empty());
        assert(all_pairs(runs.push(run)) =~= run_pairs(run) + Seq::<(Reading, Reading)>::empty());
        assert(all_pairs(runs) =~= Seq::<(Reading, Reading)>::empty());
    } else {
        assert(runs.push(run).drop_first() =~= runs.drop_first().push(run));
        lemma_all_pairs_push(runs.drop_first(), run);
        assert(all_pairs(runs.push(run)) =~= run_pairs(runs[0]) + (all_pairs(runs.drop_first())
            + run_pairs(run)));
    }
}

/// A chart point as plain values: tier, medal name, moment, estimated.
pub type PointView = (i16, Option<Seq<char>>, i64, bool);

pub open spec fn point_view(p: TrajectoryPoint) -> PointView {
    (
        p.rank_tier,
        match p.label {
            Some(l) => Some(l@),
            None => None,
        },
        p.at,
        p.estimated,
    )
}

pub open spec fn point_views(s: Seq<TrajectoryPoint>) -> Seq<PointView> {
    s.map_values(|p: TrajectoryPoint| point_view(p))
}

/// A real reading: the only kind of point not flagged estimated.
pub open spec fn real_point(r: Reading) -> PointView {
    (r.0, spec_rank_label(r.0 as int), r.1, false)
}

pub open spec fn estimated_point(tier: i16, at: i64) -> PointView {
    (tier, spec_rank_label(tier as int), at, true)
}

/// The lowest and highest tier a modeled point between readings `a` and
/// `b` may take: one star beyond either reading, no further.
pub open spec fn band_low(a: i16, b: i16) -> int {
    (if a <= b { a } else { b }) - 1
}

pub open spec fn band_high(a: i16, b: i16) -> int {
    (if a <= b { b } else { a }) + 1
}

/// A modeled tier held inside the band of its window's two readings.
pub open spec fn spec_band_tier(tier: i16, a: i16, b: i16) -> i16 {
    if (tier as int) < band_low(a, b) {
        band_low(a, b) as i16
    } else if (tier as int) > band_high(a, b) {
        band_high(a, b) as i16
    } else {
        tier
    }
}

/// A modeled tier clamped into its window's band.
pub fn band_tier(tier: i16, a: i16, b: i16) -> (t: i16)
    ensures
        t == spec_band_tier(tier, a, b),
        band_low(a, b) <= t <= band_high(a, b),
{
    let low: i32 = if a <= b { a as i32 } else { b as i32 } - 1;
    let high: i32 = if a <= b { b as i32 } else { a as i32 } + 1;
    let t = tier as i32;
    if t < low {
        low as i16
    } else if t > high {
        high as i16
    } else {
        tier
    }
}

/// The modeled points of one window: one per ranked match played in it, at
/// the match's start, at the tier the model gave it held within one star of
/// the window's readings `a` and `b`.
pub open spec fn window_points(ms: Seq<Match>, between: Seq<usize>, tiers: Seq<i16>, a: i16, b: i16) -> Seq<
    PointView,
> {
    Seq::new(
        between.len(),
        |j: int| estimated_point(spec_band_tier(tiers[j], a, b), ms[between[j] as int].started_at),
    )
}

/// One run's points: each reading followed by its window's modeled points,
/// then the run's last reading.
pub open spec fn run_candidates(run: Seq<Reading>, ests: Seq<Seq<PointView>>) -> Seq<PointView>
    decreases run.len(),
{
    if run.len() == 0 {
        seq![]
    } else if run.len() == 1 {
        seq![real_point(run[0])]
    } else {
        seq![real_point(run[0])] + ests[0] + run_candidates(run.drop_first(), ests.drop_first())
    }
}

pub open spec fn pair_count(run: Seq<Reading>) -> nat {
    if run.len() == 0 {
        0
    } else {
        (run.len() - 1) as nat
    }
}

/// Every run's points in order, `ests` holding one window's modeled points
/// per pair of adjacent readings.
pub open spec fn candidates(runs: Seq<Seq<Reading>>, ests: Seq<Seq<PointView>>) -> Seq<PointView>
    decreases runs.len(),
{
    if runs.len() == 0 {
        seq![]
    } else {
        run_candidates(runs[0], ests.take(pair_count(runs[0]) as int)) + candidates(
            runs.drop_first(),
            ests.skip(pair_count(runs[0]) as int),
        )
    }
}

/// The points pushed one by one, a point at the same moment as the last one
/// kept being dropped: adjacent windows share a reading.
pub open spec fn unique_fold(c: Seq<PointView>) -> Seq<PointView>
    decreases c.len(),
{
    if c.len() == 0 {
        seq![]
    } else {
        let prev = unique_fold(c.drop_last());
        if prev.len() > 0 && prev.last().2 == c.last().2 {
            prev
        } else {
            prev.push(c.last())
        }
    }
}

pub open spec fn modeled_points(ms: Seq<Match>, windows: Seq<TrajectoryWindow>, modeled: Seq<Vec<i16>>) -> Seq<
    Seq<PointView>,
> {
    Seq::new(
        windows.len(),
        |w: int| window_points(ms, windows[w].between@, modeled[w]@, windows[w].from.0, windows[w].to.0),
    )
}

proof fn lemma_run_candidates_step(run: Seq<Reading>, e: Seq<Seq<PointView>>, j: int)
    requires
        0 <= j < run.len() - 1,
        e.len() == run.len() - 1,
    ensures
        run_candidates(run.skip(j), e.skip(j)) == seq![real_point(run[j])] + e[j] + run_candidates(
            run.skip(j + 1),
            e.skip(j + 1),
        ),
{
    assert(run.skip(j).drop_first() =~= run.skip(j + 1));
    assert(e.skip(j).drop_first() =~= e.skip(j + 1));
    assert(run.skip(j)[0] == run[j]);
}

proof fn lemma_candidates_step(runs: Seq<Seq<Reading>>, ests: Seq<Seq<PointView>>, k: int, o: int)
    requires
        0 <= k < runs.len(),
        0 <= o,
        o + pair_count(runs[k]) <= ests.len(),
    ensures
        candidates(runs.skip(k), ests.skip(o)) == run_candidates(
            runs[k],
            ests.skip(o).take(pair_count(runs[k]) as int),
        ) + candidates(runs.skip(k + 1), ests.skip(o + pair_count(runs[k]))),
{
    assert(runs.skip(k).drop_first() =~= runs.skip(k + 1));
    assert(runs.skip(k)[0] == runs[k]);
    assert(ests.skip(o).skip(pair_count(runs[k]) as int) =~= ests.skip(o + pair_count(runs[k])));
}

proof fn lemma_unique_fold_push(c: Seq<PointView>, x: PointView)
    ensures
        unique_fold(c.push(x)) == if unique_fold(c).len() > 0 && unique_fold(c).last().2 == x.2 {
            unique_fold(c)
        } else {
            unique_fold(c).push(x)
        },
{
    assert(c.push(x).drop_last() =~= c);
}

proof fn lemma_all_pairs_len(runs: Seq<Seq<Reading>>)
    ensures
        all_pairs(runs).len() == pair_sum(runs),
    decreases runs.len(),
{
    if runs.len() > 0 {
        lemma_all_pairs_len(runs.drop_first());
    }
}

pub open spec fn pair_sum(runs: Seq<Seq<Reading>>) -> nat
    decreases runs.len(),
{
    if runs.len() == 0 {
        0
    } else {
        pair_count(runs[0]) + pair_sum(runs.drop_first())
    }
}

fn push_point(points: &mut Vec<TrajectoryPoint>, p: TrajectoryPoint, Ghost(done): Ghost<Seq<PointView>>)
    requires
        point_views(old(points)@) == unique_fold(done),
    ensures
        point_views(final(points)@) == unique_fold(done.push(point_view(p))),
{
    let ghost before = points@;
    push_unique(points, p);
    proof {
        lemma_unique_fold_push(done, point_view(p));
        if before.len() > 0 && before.last().at == p.at {
            assert(point_views(points@) =~= point_views(before));
        } else {
            assert(point_views(points@) =~= point_views(before).push(point_view(p)));
        }
    }
}

fn reading_point_of(r: Reading) -> (p: TrajectoryPoint)
    ensures
        point_view(p) == real_point(r),
{
    TrajectoryPoint { rank_tier: r.0, label: rank_label(r.0 as i32), at: r.1, estimated: false }
}

/// Rank over time: the real readings, with the modeled path between each
/// two, `modeled` giving one tier per ranked match of each window that
/// [`trajectory_windows`] lists. Anchored at both ends to measurements, the
/// line cannot drift somewhere the player never was.
pub fn trajectory(
    snapshots: &[RankSnapshot],
    matches: &[Match],
    windows: &[TrajectoryWindow],
    modeled: &[Vec<i16>],
) -> (points: Vec<TrajectoryPoint>)
    requires
        windows_of(snapshots@, matches@, windows@),
        modeled@.len() == windows@.len(),
        forall|w: int| 0 <= w < windows@.len() ==> (#[trigger] modeled@[w])@.len() == windows@[w].between@.len(),
    ensures
        point_views(points@) == unique_fold(
            candidates(spec_ranked_runs(snapshots@), modeled_points(matches@, windows@, modeled@)),
        ),
{
    let runs = ranked_runs(snapshots);
    let ghost rv = run_views(runs@);
    let ghost ests = modeled_points(matches@, windows@, modeled@);
    let ghost total = candidates(rv, ests);
    let ghost mut done: Seq<PointView> = seq![];
    proof {
        let r = choose|r: Seq<usize>|
            #![trigger is_oldest_first(matches@, r)]
            is_oldest_first(matches@, r) && forall|w: int|
                0 <= w < windows@.len() ==> (#[trigger] windows@[w]).from == all_pairs(rv)[w].0
                    && windows@[w].to == all_pairs(rv)[w].1 && windows@[w].between@
                    == played_between(matches@, r, all_pairs(rv)[w].0.1, all_pairs(rv)[w].1.1);
        lemma_between_in_range(matches@, r, windows@, rv);
        lemma_all_pairs_len(rv);
        assert(rv.skip(0) =~= rv);
        assert(ests.skip(0) =~= ests);
    }
    let mut points: Vec<TrajectoryPoint> = Vec::new();
    let n = windows.len();
    let mut k: usize = 0;
    let mut o: usize = 0;
    while k < runs.len()
        invariant
            k <= runs@.len(),
            forall|q: int| 0 <= q < runs@.len() ==> (#[trigger] runs@[q])@.len() > 0,
            rv == run_views(runs@),
            rv.len() == runs@.len(),
            ests == modeled_points(matches@, windows@, modeled@),
            ests.len() == windows@.len(),
            n == windows@.len(),
            windows@.len() == pair_sum(rv),
            modeled@.len() == windows@.len(),
            forall|w: int| 0 <= w < windows@.len() ==> (#[trigger] modeled@[w])@.len() == windows@[w].between@.len(),
            forall|w: int, p: int|
                0 <= w < windows@.len() && 0 <= p < windows@[w].between@.len() ==> #[trigger] windows@[w].between@[p]
                    < matches@.len(),
            o + pair_sum(rv.skip(k as int)) == pair_sum(rv),
            point_views(points@) == unique_fold(done),
            done + candidates(rv.skip(k as int), ests.skip(o as int)) == total,
            total == candidates(rv, ests),
        decreases runs@.len() - k,
    {
        let run = &runs[k];
        proof {
            assert(rv[k as int] == run@);
            assert(rv.skip(k as int).drop_first() =~= rv.skip(k + 1));
            assert(rv.skip(k as int)[0] == rv[k as int]);
            assert(pair_sum(rv.skip(k as int)) == pair_count(rv[k as int]) + pair_sum(rv.skip(k + 1)));
            lemma_candidates_step(rv, ests, k as int, o as int);
            assert(run@.skip(0) =~= run@);
        }
        let ghost e = ests.skip(o as int).take(pair_count(run@) as int);
        let ghost rest = candidates(rv.skip(k + 1), ests.skip(o + pair_count(run@)));
        proof {
            assert(e.skip(0) =~= e);
            assert(done + run_candidates(run@.skip(0), e.skip(0)) + rest == total);
        }
        let mut j: usize = 0;
        while j < run.len() - 1
            invariant
                run@.len() > 0,
                j < run@.len(),
                o + pair_count(run@) <= windows@.len(),
                n == windows@.len(),
                e == ests.skip(o as int).take(pair_count(run@) as int),
                ests == modeled_points(matches@, windows@, modeled@),
                ests.len() == windows@.len(),
                modeled@.len() == windows@.len(),
                forall|w: int| 0 <= w < windows@.len() ==> (#[trigger] modeled@[w])@.len() == windows@[w].between@.len(),
                forall|w: int, p: int|
                    0 <= w < windows@.len() && 0 <= p < windows@[w].between@.len() ==> #[trigger] windows@[w].between@[p]
                        < matches@.len(),
                point_views(points@) == unique_fold(done),
                done + run_candidates(run@.skip(j as int), e.skip(j as int)) + rest == total,
            decreases run@.len() - j,
        {
            proof {
                lemma_run_candidates_step(run@, e, j as int);
            }
            let ghost d0 = done;
            push_point(&mut points, reading_point_of(run[j]), Ghost(done));
            proof {
                done = done.push(real_point(run@[j as int]));
            }
            assert(pair_count(run@) == run@.len() - 1);
            assert(o + pair_count(run@) <= windows@.len());
            assert(o + j < n);
            let w = o + j;
            let between = &windows[w].between;
            let tiers = &modeled[w];
            let from_tier = windows[w].from.0;
            let to_tier = windows[w].to.0;
            let ghost wp = window_points(matches@, between@, tiers@, from_tier, to_tier);
            proof {
                assert(e[j as int] == wp);
            }
            let mut q: usize = 0;
            while q < between.len()
                invariant
                    q <= between@.len(),
                    tiers@.len() == between@.len(),
                    forall|p: int| 0 <= p < between@.len() ==> #[trigger] between@[p] < matches@.len(),
                    wp == window_points(matches@, between@, tiers@, from_tier, to_tier),
                    point_views(points@) == unique_fold(done),
                    done == d0.push(real_point(run@[j as int])) + wp.take(q as int),
                decreases between@.len() - q,
            {
                let tier = band_tier(tiers[q], from_tier, to_tier);
                let p = TrajectoryPoint {
                    rank_tier: tier,
                    label: rank_label(tier as i32),
                    at: matches[between[q]].started_at,
                    estimated: true,
                };
                proof {
                    assert(point_view(p) == wp[q as int]);
                }
                push_point(&mut points, p, Ghost(done));
                proof {
                    done = done.push(point_view(p));
                    assert(done =~= d0.push(real_point(run@[j as int])) + wp.take(q + 1));
                }
                q = q + 1;
            }
            proof {
                assert(wp.take(between@.len() as int) =~= wp);
                assert(done + run_candidates(run@.skip(j + 1), e.skip(j + 1)) + rest =~= total);
            }
            j = j + 1;
        }
        proof {
            assert(run@.skip(j as int) =~= seq![run@.last()]);
            assert(run_candidates(run@.skip(j as int), e.skip(j as int)) =~= seq![real_point(run@.last())]);
        }
        let last = run[run.len() - 1];
        push_point(&mut points, reading_point_of(last), Ghost(done));
        proof {
            done = done.push(real_point(last));
            assert(done + rest =~= total);
            assert(rv.skip(k + 1) == rv.skip(k as int).drop_first());
        }
        assert(o + pair_count(run@) <= n);
        o = o + (run.len() - 1);
        k = k + 1;
    }
    proof {
        assert(rv.skip(runs@.len() as int) =~= Seq::<Seq<Reading>>::empty());
        assert(done =~= total);
    }
    points
}

proof fn lemma_between_in_range(
    ms: Seq<Match>,
    r: Seq<usize>,
    windows: Seq<TrajectoryWindow>,
    rv: Seq<Seq<Reading>>,
)
    requires
        is_oldest_first(ms, r),
        windows.len() == all_pairs(rv).len(),
        forall|w: int|
            0 <= w < windows.len() ==> (#[trigger] windows[w]).between@ == played_between(
                ms,
                r,
                all_pairs(rv)[w].0.1,
                all_pairs(rv)[w].1.1,
            ),
    ensures
        forall|w: int, p: int|
            0 <= w < windows.len() && 0 <= p < windows[w].between@.len() ==> #[trigger] windows[w].between@[p]
                < ms.len(),
{
    assert forall|w: int, p: int|
        0 <= w < windows.len() && 0 <= p < windows[w].between@.len() implies #[trigger] windows[w].between@[p]
        < ms.len() by {
        lemma_played_between_in(ms, r, all_pairs(rv)[w].0.1, all_pairs(rv)[w].1.1, p);
    }
}

proof fn lemma_played_between_in(ms: Seq<Match>, r: Seq<usize>, from: i64, to: i64, p: int)
    requires
        forall|q: int| 0 <= q < r.len() ==> r[q] < ms.len(),
        0 <= p < played_between(ms, r, from, to).len(),
    ensures
        played_between(ms, r, from, to)[p] < ms.len(),
    decreases r.len(),
{
    let prev = played_between(ms, r.drop_last(), from, to);
    if p < prev.len() {
        lemma_played_between_in(ms, r.drop_last(), from, to, p);
    } else {
        assert(played_between(ms, r, from, to)[p] == r.last());
    }
}

/// No two neighbouring points of a chart share a moment: a reading shared by
/// two adjacent windows is drawn once.
pub proof fn chart_moments_are_apart(c: Seq<PointView>)
    ensures
        forall|j: int| 0 <= j < unique_fold(c).len() - 1 ==> #[trigger] unique_fold(c)[j].2 != unique_fold(c)[j + 1].2,
    decreases c.len(),
{
    if c.len() > 0 {
        chart_moments_are_apart(c.drop_last());
        let prev = unique_fold(c.drop_last());
        assert forall|j: int| 0 <= j < unique_fold(c).len() - 1 implies #[trigger] unique_fold(c)[j].2 != unique_fold(c)[j + 1].2 by {
            if !(prev.len() > 0 && prev.last().2 == c.last().2) {
                if j + 1 == prev.len() {
                    assert(unique_fold(c)[j] == prev.last());
                } else {
                    assert(unique_fold(c)[j] == prev[j]);
                    assert(unique_fold(c)[j + 1] == prev[j + 1]);
                }
            }
        }
    }
}

/// A point is one of the readings of a run, unless it is flagged estimated.
pub open spec fn is_reading_of(runs: Seq<Seq<Reading>>, p: PointView) -> bool {
    exists|k: int, i: int|
        0 <= k < runs.len() && 0 <= i < runs[k].len() && p == real_point(#[trigger] runs[k][i])
}

proof fn lemma_fold_keeps_members(c: Seq<PointView>, j: int)
    requires
        0 <= j < unique_fold(c).len(),
    ensures
        c.contains(unique_fold(c)[j]),
    decreases c.len(),
{
    let prev = unique_fold(c.drop_last());
    if j < prev.len() {
        lemma_fold_keeps_members(c.drop_last(), j);
        let i = choose|i: int| 0 <= i < c.drop_last().len() && c.drop_last()[i] == prev[j];
        assert(c[i] == prev[j]);
    } else {
        assert(unique_fold(c)[j] == c.last());
        assert(c[c.len() - 1] == c.last());
    }
}

proof fn lemma_run_candidates_real(run: Seq<Reading>, e: Seq<Seq<PointView>>, x: PointView)
    requires
        run_candidates(run, e).contains(x),
        run.len() == 0 || e.len() >= run.len() - 1,
        !x.3,
        forall|w: int, i: int| 0 <= w < e.len() && 0 <= i < e[w].len() ==> (#[trigger] e[w][i]).3,
    ensures
        exists|i: int| 0 <= i < run.len() && x == real_point(#[trigger] run[i]),
    decreases run.len(),
{
    if run.len() == 1 {
        assert(x == real_point(run[0]));
    } else if run.len() > 1 {
        let head = seq![real_point(run[0])];
        let rest = run_candidates(run.drop_first(), e.drop_first());
        let all = head + e[0] + rest;
        let i = choose|i: int| 0 <= i < all.len() && all[i] == x;
        if i == 0 {
            assert(x == real_point(run[0]));
        } else if i < 1 + e[0].len() {
            assert(all[i] == e[0][i - 1]);
            assert(e[0][i - 1].3);
        } else {
            assert(rest[i - 1 - e[0].len()] == x);
            assert(rest.contains(x));
            assert forall|w: int, q: int|
                0 <= w < e.drop_first().len() && 0 <= q < e.drop_first()[w].len() implies (#[trigger] e.drop_first()[w][q]).3 by {
                assert(e.drop_first()[w] == e[w + 1]);
            }
            lemma_run_candidates_real(run.drop_first(), e.drop_first(), x);
            let i2 = choose|i2: int| 0 <= i2 < run.drop_first().len() && x == real_point(run.drop_first()[i2]);
            assert(run[i2 + 1] == run.drop_first()[i2]);
        }
    }
}

proof fn lemma_candidates_real(runs: Seq<Seq<Reading>>, ests: Seq<Seq<PointView>>, x: PointView)
    requires
        candidates(runs, ests).contains(x),
        pair_sum(runs) <= ests.len(),
        !x.3,
        forall|w: int, i: int| 0 <= w < ests.len() && 0 <= i < ests[w].len() ==> (#[trigger] ests[w][i]).3,
    ensures
        is_reading_of(runs, x),
    decreases runs.len(),
{
    if runs.len() > 0 {
        let pc = pair_count(runs[0]) as int;
        let first = run_candidates(runs[0], ests.take(pc));
        let rest = candidates(runs.drop_first(), ests.skip(pc));
        let i = choose|i: int| 0 <= i < (first + rest).len() && (first + rest)[i] == x;
        if i < first.len() {
            assert(first[i] == x);
            assert forall|w: int, q: int|
                0 <= w < ests.take(pc).len() && 0 <= q < ests.take(pc)[w].len() implies (#[trigger] ests.take(pc)[w][q]).3 by {
                assert(ests.take(pc)[w] == ests[w]);
            }
            lemma_run_candidates_real(runs[0], ests.take(pc), x);
            let j = choose|j: int| 0 <= j < runs[0].len() && x == real_point(#[trigger] runs[0][j]);
            assert(x == real_point(runs[0][j]));
        } else {
            assert(rest[i - first.len()] == x);
            assert forall|w: int, q: int|
                0 <= w < ests.skip(pc).len() && 0 <= q < ests.skip(pc)[w].len() implies (#[trigger] ests.skip(pc)[w][q]).3 by {
                assert(ests.skip(pc)[w] == ests[w + pc]);
            }
            lemma_candidates_real(runs.drop_first(), ests.skip(pc), x);
            let (k, j) = choose|k: int, j: int|
                0 <= k < runs.drop_first().len() && 0 <= j < runs.drop_first()[k].len() && x == real_point(
                    #[trigger] runs.drop_first()[k][j],
                );
            assert(runs[k + 1] == runs.drop_first()[k]);
            assert(x == real_point(runs[k + 1][j]));
        }
    }
}

/// The only points not flagged estimated are real readings: the model
/// never passes itself off as a measurement.
pub proof fn only_readings_are_unestimated(
    snapshots: Seq<RankSnapshot>,
    ms: Seq<Match>,
    windows: Seq<TrajectoryWindow>,
    modeled: Seq<Vec<i16>>,
    j: int,
)
    requires
        windows_of(snapshots, ms, windows),
        0 <= j < unique_fold(
            candidates(spec_ranked_runs(snapshots), modeled_points(ms, windows, modeled)),
        ).len(),
        !unique_fold(candidates(spec_ranked_runs(snapshots), modeled_points(ms, windows, modeled)))[j].3,
    ensures
        is_reading_of(
            spec_ranked_runs(snapshots),
            unique_fold(candidates(spec_ranked_runs(snapshots), modeled_points(ms, windows, modeled)))[j],
        ),
{
    let c = candidates(spec_ranked_runs(snapshots), modeled_points(ms, windows, modeled));
    lemma_fold_keeps_members(c, j);
    lemma_all_pairs_len(spec_ranked_runs(snapshots));
    let ests = modeled_points(ms, windows, modeled);
    assert forall|w: int, i: int| 0 <= w < ests.len() && 0 <= i < ests[w].len() implies (#[trigger] ests[w][i]).3 by {
        assert(ests[w] == window_points(ms, windows[w].between@, modeled[w]@, windows[w].from.0, windows[w].to.0));
    }
    lemma_candidates_real(spec_ranked_runs(snapshots), ests, unique_fold(c)[j]);
}

/// The point lies strictly between two adjacent readings of one run, at a
/// tier no more than one star beyond either of them.
pub open spec fn lies_between_readings(runs: Seq<Seq<Reading>>, p: PointView) -> bool {
    exists|w: int|
        #![trigger all_pairs(runs)[w]]
        0 <= w < all_pairs(runs).len() && all_pairs(runs)[w].0.1 < p.2 && p.2 < all_pairs(runs)[w].1.1
            && band_low(all_pairs(runs)[w].0.0, all_pairs(runs)[w].1.0) <= p.0 <= band_high(
            all_pairs(runs)[w].0.0,
            all_pairs(runs)[w].1.0,
        )
}

proof fn lemma_played_between_bounds(ms: Seq<Match>, r: Seq<usize>, from: i64, to: i64, p: int)
    requires
        0 <= p < played_between(ms, r, from, to).len(),
    ensures
        from < ms[played_between(ms, r, from, to)[p] as int].started_at < to,
    decreases r.len(),
{
    let prev = played_between(ms, r.drop_last(), from, to);
    if p < prev.len() {
        lemma_played_between_bounds(ms, r.drop_last(), from, to, p);
        assert(played_between(ms, r, from, to)[p] == prev[p]);
    } else {
        assert(played_between(ms, r, from, to)[p] == r.last());
    }
}

proof fn lemma_run_candidates_est(run: Seq<Reading>, e: Seq<Seq<PointView>>, x: PointView)
    requires
        run_candidates(run, e).contains(x),
        run.len() == 0 || e.len() >= run.len() - 1,
        x.3,
    ensures
        exists|w: int| 0 <= w < run.len() - 1 && w < e.len() && #[trigger] e[w].contains(x),
    decreases run.len(),
{
    if run.len() == 1 {
        assert(run_candidates(run, e) == seq![real_point(run[0])]);
        assert(x == real_point(run[0]));
    } else if run.len() > 1 {
        let head = seq![real_point(run[0])];
        let rest = run_candidates(run.drop_first(), e.drop_first());
        let all = head + e[0] + rest;
        let i = choose|i: int| 0 <= i < all.len() && all[i] == x;
        if i == 0 {
            assert(x == real_point(run[0]));
        } else if i < 1 + e[0].len() {
            assert(e[0][i - 1] == x);
            assert(e[0].contains(x));
        } else {
            assert(rest[i - 1 - e[0].len()] == x);
            lemma_run_candidates_est(run.drop_first(), e.drop_first(), x);
            let w = choose|w: int|
                0 <= w < run.drop_first().len() - 1 && w < e.drop_first().len()
                    && #[trigger] e.drop_first()[w].contains(x);
            assert(e[w + 1] == e.drop_first()[w]);
        }
    }
}

proof fn lemma_candidates_est(runs: Seq<Seq<Reading>>, ests: Seq<Seq<PointView>>, x: PointView)
    requires
        candidates(runs, ests).contains(x),
        pair_sum(runs) <= ests.len(),
        x.3,
    ensures
        exists|w: int| 0 <= w < pair_sum(runs) && #[trigger] ests[w].contains(x),
    decreases runs.len(),
{
    if runs.len() > 0 {
        let pc = pair_count(runs[0]) as int;
        let first = run_candidates(runs[0], ests.take(pc));
        let rest = candidates(runs.drop_first(), ests.skip(pc));
        let i = choose|i: int| 0 <= i < (first + rest).len() && (first + rest)[i] == x;
        if i < first.len() {
            assert(first[i] == x);
            lemma_run_candidates_est(runs[0], ests.take(pc), x);
            let w = choose|w: int|
                0 <= w < runs[0].len() - 1 && w < ests.take(pc).len() && #[trigger] ests.take(pc)[w].contains(x);
            assert(ests[w] == ests.take(pc)[w]);
        } else {
            assert(rest[i - first.len()] == x);
            lemma_candidates_est(runs.drop_first(), ests.skip(pc), x);
            let w = choose|w: int|
                0 <= w < pair_sum(runs.drop_first()) && #[trigger] ests.skip(pc)[w].contains(x);
            assert(ests[w + pc] == ests.skip(pc)[w]);
        }
    }
}

/// Every modeled point sits strictly between two adjacent readings of one
/// run, and within one star of the lower and the higher of them: a reading
/// with no rank breaks the line, nothing is modeled before the first reading
/// or past the last, and the line never strays from where the player was.
pub proof fn estimates_lie_between_readings(
    snapshots: Seq<RankSnapshot>,
    ms: Seq<Match>,
    windows: Seq<TrajectoryWindow>,
    modeled: Seq<Vec<i16>>,
    j: int,
)
    requires
        windows_of(snapshots, ms, windows),
        0 <= j < unique_fold(
            candidates(spec_ranked_runs(snapshots), modeled_points(ms, windows, modeled)),
        ).len(),
        unique_fold(candidates(spec_ranked_runs(snapshots), modeled_points(ms, windows, modeled)))[j].3,
    ensures
        lies_between_readings(
            spec_ranked_runs(snapshots),
            unique_fold(candidates(spec_ranked_runs(snapshots), modeled_points(ms, windows, modeled)))[j],
        ),
{
    let runs = spec_ranked_runs(snapshots);
    let ests = modeled_points(ms, windows, modeled);
    let c = candidates(runs, ests);
    let x = unique_fold(c)[j];
    lemma_fold_keeps_members(c, j);
    lemma_all_pairs_len(runs);
    lemma_candidates_est(runs, ests, x);
    let w = choose|w: int| 0 <= w < pair_sum(runs) && #[trigger] ests[w].contains(x);
    let pairs = all_pairs(runs);
    let r = choose|r: Seq<usize>|
        #![trigger is_oldest_first(ms, r)]
        is_oldest_first(ms, r) && forall|v: int|
            0 <= v < windows.len() ==> (#[trigger] windows[v]).from == pairs[v].0 && windows[v].to
                == pairs[v].1 && windows[v].between@ == played_between(ms, r, pairs[v].0.1, pairs[v].1.1);
    assert(ests[w] == window_points(ms, windows[w].between@, modeled[w]@, windows[w].from.0, windows[w].to.0));
    let i = choose|i: int| 0 <= i < ests[w].len() && ests[w][i] == x;
    assert(windows[w].between@ == played_between(ms, r, pairs[w].0.1, pairs[w].1.1));
    lemma_played_between_bounds(ms, r, pairs[w].0.1, pairs[w].1.1, i);
    assert(x.2 == ms[windows[w].between@[i] as int].started_at);
    assert(pairs[w].0.1 < x.2 && x.2 < pairs[w].1.1);
    assert(x.0 == spec_band_tier(modeled[w]@[i], pairs[w].0.0, pairs[w].1.0));
    assert(band_low(pairs[w].0.0, pairs[w].1.0) <= x.0 <= band_high(pairs[w].0.0, pairs[w].1.0));
}

// ---------------------------------------------------------------------------
// The chart reads left to right
// ---------------------------------------------------------------------------

/// Readings taken strictly one after another.
pub open spec fn taken_in_order(s: Seq<RankSnapshot>) -> bool {
    forall|i: int, j: int| #![trigger s[i], s[j]] 0 <= i < j < s.len() ==> s[i].captured_at < s[j].captured_at
}

/// The readings with a rank, from index `i` on, in order.
pub open spec fn readings_from(s: Seq<RankSnapshot>, i: int) -> Seq<Reading>
    decreases s.len() - i,
{
    if i < 0 || i >= s.len() {
        seq![]
    } else {
        match s[i].rank_tier {
            Some(t) => seq![(t, s[i].captured_at)] + readings_from(s, i + 1),
            None => readings_from(s, i + 1),
        }
    }
}

/// The runs laid end to end.
pub open spec fn flat(runs: Seq<Seq<Reading>>) -> Seq<Reading>
    decreases runs.len(),
{
    if runs.len() == 0 {
        seq![]
    } else {
        runs[0] + flat(runs.drop_first())
    }
}

proof fn lemma_flat_add(a: Seq<Seq<Reading>>, b: Seq<Seq<Reading>>)
    ensures
        flat(a + b) == flat(a) + flat(b),
    decreases a.len(),
{
    if a.len() == 0 {
        assert(a + b =~= b);
        assert(flat(a) =~= Seq::<Reading>::empty());
        assert(flat(a) + flat(b) =~= flat(b));
    } else {
        assert((a + b).drop_first() =~= a.drop_first() + b);
        lemma_flat_add(a.drop_first(), b);
        assert((a + b)[0] == a[0]);
        assert(flat(a + b) =~= a[0] + flat(a.drop_first() + b));
    }
}

proof fn lemma_runs_flat(s: Seq<RankSnapshot>, i: int, cur: Seq<Reading>)
    requires
        0 <= i <= s.len(),
    ensures
        flat(runs_from(s, i, cur)) == cur + readings_from(s, i),
        forall|k: int| 0 <= k < runs_from(s, i, cur).len() ==> (#[trigger] runs_from(s, i, cur)[k]).len() > 0,
    decreases s.len() - i,
{
    if i >= s.len() {
        if cur.len() > 0 {
            assert(flat(seq![cur]) =~= cur + flat(seq![cur].drop_first()));
            assert(flat(seq![cur].drop_first()) =~= Seq::<Reading>::empty());
        }
        assert(cur + readings_from(s, i) =~= cur);
    } else {
        match s[i].rank_tier {
            Some(t) => {
                lemma_runs_flat(s, i + 1, cur.push((t, s[i].captured_at)));
                assert(cur.push((t, s[i].captured_at)) + readings_from(s, i + 1) =~= cur + (seq![
                    (t, s[i].captured_at),
                ] + readings_from(s, i + 1)));
            },
            None => {
                lemma_runs_flat(s, i + 1, seq![]);
                let head: Seq<Seq<Reading>> = if cur.len() > 0 {
                    seq![cur]
                } else {
                    seq![]
                };
                lemma_flat_add(head, runs_from(s, i + 1, seq![]));
                if cur.len() > 0 {
                    assert(flat(head) =~= cur + flat(head.drop_first()));
                    assert(flat(head.drop_first()) =~= Seq::<Reading>::empty());
                } else {
                    assert(flat(head) =~= Seq::<Reading>::empty());
                }
                assert(Seq::<Reading>::empty() + readings_from(s, i + 1) =~= readings_from(s, i + 1));
                assert(cur + readings_from(s, i + 1) =~= flat(head) + readings_from(s, i + 1));
                let all = runs_from(s, i, cur);
                assert(all == head + runs_from(s, i + 1, seq![]));
                assert forall|k: int| 0 <= k < all.len() implies (#[trigger] all[k]).len() > 0 by {
                    if k < head.len() {
                        assert(all[k] == head[k]);
                    } else {
                        assert(all[k] == runs_from(s, i + 1, seq![])[k - head.len()]);
                    }
                }
            },
        }
    }
}

/// Strictly rising in time.
pub open spec fn rising(v: Seq<Reading>) -> bool {
    forall|p: int, q: int| #![trigger v[p], v[q]] 0 <= p < q < v.len() ==> v[p].1 < v[q].1
}

proof fn lemma_readings_from(s: Seq<RankSnapshot>, i: int)
    requires
        taken_in_order(s),
        0 <= i <= s.len(),
    ensures
        rising(readings_from(s, i)),
        forall|k: int|
            0 <= k < readings_from(s, i).len() ==> exists|j: int|
                i <= j < s.len() && s[j].rank_tier == Some((#[trigger] readings_from(s, i)[k]).0)
                    && readings_from(s, i)[k].1 == s[j].captured_at,
        forall|j: int|
            i <= j < s.len() && (#[trigger] s[j]).rank_tier is Some ==> readings_from(s, i).contains(
                (s[j].rank_tier.unwrap(), s[j].captured_at),
            ),
    decreases s.len() - i,
{
    if i < s.len() {
        lemma_readings_from(s, i + 1);
        let rest = readings_from(s, i + 1);
        let v = readings_from(s, i);
        match s[i].rank_tier {
            Some(t) => {
                assert(v == seq![(t, s[i].captured_at)] + rest);
                assert forall|k: int|
                    0 <= k < v.len() implies exists|j: int|
                        i <= j < s.len() && s[j].rank_tier == Some((#[trigger] v[k]).0) && v[k].1
                            == s[j].captured_at by {
                    if k > 0 {
                        assert(v[k] == rest[k - 1]);
                    }
                }
                assert forall|p: int, q: int| #![trigger v[p], v[q]] 0 <= p < q < v.len() implies v[p].1 < v[q].1 by {
                    assert(v[q] == rest[q - 1]);
                    let jq = choose|j: int|
                        i + 1 <= j < s.len() && s[j].rank_tier == Some(rest[q - 1].0) && rest[q - 1].1
                            == s[j].captured_at;
                    if p == 0 {
                        assert(s[i].captured_at < s[jq].captured_at);
                    } else {
                        assert(v[p] == rest[p - 1]);
                    }
                }
                assert forall|j: int|
                    i <= j < s.len() && (#[trigger] s[j]).rank_tier is Some implies v.contains(
                    (s[j].rank_tier.unwrap(), s[j].captured_at),
                ) by {
                    if j == i {
                        assert(v[0] == (t, s[i].captured_at));
                    } else {
                        let k = choose|k: int|
                            0 <= k < rest.len() && rest[k] == (s[j].rank_tier.unwrap(), s[j].captured_at);
                        assert(v[k + 1] == rest[k]);
                    }
                }
            },
            None => {
                assert(v == rest);
            },
        }
    }
}

/// In time order, never going back.
pub open spec fn sorted_points(c: Seq<PointView>) -> bool {
    forall|p: int, q: int| #![trigger c[p], c[q]] 0 <= p < q < c.len() ==> c[p].2 <= c[q].2
}

/// Each real reading comes strictly after everything before it.
pub open spec fn readings_rise(c: Seq<PointView>) -> bool {
    forall|p: int, q: int| #![trigger c[p], c[q]] 0 <= p < q < c.len() && !c[q].3 ==> c[p].2 < c[q].2
}

pub open spec fn within(c: Seq<PointView>, lo: i64, hi: i64) -> bool {
    forall|k: int| 0 <= k < c.len() ==> lo <= (#[trigger] c[k]).2 <= hi
}

/// A window's modeled points: estimated, in time order, strictly between
/// its two readings.
pub open spec fn window_fits(e: Seq<PointView>, from: i64, to: i64) -> bool {
    &&& sorted_points(e)
    &&& forall|k: int| 0 <= k < e.len() ==> (#[trigger] e[k]).3 && from < e[k].2 < to
}

proof fn lemma_join_points(a: Seq<PointView>, b: Seq<PointView>, alo: i64, ahi: i64, blo: i64, bhi: i64)
    requires
        sorted_points(a),
        sorted_points(b),
        readings_rise(a),
        readings_rise(b),
        within(a, alo, ahi),
        within(b, blo, bhi),
        alo <= ahi < blo <= bhi,
    ensures
        sorted_points(a + b),
        readings_rise(a + b),
        within(a + b, alo, bhi),
{
    let ab = a + b;
    assert forall|p: int, q: int| #![trigger ab[p], ab[q]] 0 <= p < q < ab.len() implies ab[p].2 <= ab[q].2
        && (!ab[q].3 ==> ab[p].2 < ab[q].2) by {
        if q < a.len() {
            assert(ab[p] == a[p] && ab[q] == a[q]);
        } else if p >= a.len() {
            assert(ab[p] == b[p - a.len()] && ab[q] == b[q - a.len()]);
        } else {
            assert(ab[p] == a[p] && ab[q] == b[q - a.len()]);
            assert(a[p].2 <= ahi && blo <= b[q - a.len()].2);
        }
    }
    assert forall|k: int| 0 <= k < ab.len() implies alo <= (#[trigger] ab[k]).2 <= bhi by {
        if k < a.len() {
            assert(ab[k] == a[k]);
            assert(a[k].2 <= ahi);
        } else {
            assert(ab[k] == b[k - a.len()]);
            assert(blo <= b[k - a.len()].2);
        }
    }
}

#[verifier::spinoff_prover]
#[verifier::rlimit(30)]
proof fn lemma_run_chart(run: Seq<Reading>, e: Seq<Seq<PointView>>)
    requires
        run.len() > 0,
        rising(run),
        e.len() >= run.len() - 1,
        forall|w: int| 0 <= w < run.len() - 1 ==> window_fits(#[trigger] e[w], run[w].1, run[w + 1].1),
    ensures
        sorted_points(run_candidates(run, e)),
        readings_rise(run_candidates(run, e)),
        within(run_candidates(run, e), run[0].1, run.last().1),
        forall|i: int| 0 <= i < run.len() ==> run_candidates(run, e).contains(real_point(#[trigger] run[i])),
    decreases run.len(),
{
    let c = run_candidates(run, e);
    if run.len() == 1 {
        assert(c == seq![real_point(run[0])]);
        assert(c[0] == real_point(run[0]));
    } else {
        let r1 = run.drop_first();
        let e1 = e.drop_first();
        assert forall|p: int, q: int| #![trigger r1[p], r1[q]] 0 <= p < q < r1.len() implies r1[p].1 < r1[q].1 by {
            assert(r1[p] == run[p + 1] && r1[q] == run[q + 1]);
        }
        assert forall|w: int| 0 <= w < r1.len() - 1 implies window_fits(#[trigger] e1[w], r1[w].1, r1[w + 1].1) by {
            assert(e1[w] == e[w + 1] && r1[w] == run[w + 1] && r1[w + 1] == run[w + 2]);
        }
        lemma_run_chart(r1, e1);
        let rest = run_candidates(r1, e1);
        let head = seq![real_point(run[0])];
        assert(c == head + e[0] + rest);
        assert(window_fits(e[0], run[0].1, run[1].1));
        assert(run[0].1 < run[1].1);
        assert(run.last() == r1.last());
        assert(run[1].1 <= run.last().1) by {
            if run.len() > 2 {
                assert(run[1].1 < run[run.len() - 1].1);
            }
        }
        // head then the window: the window is estimated throughout, so only
        // time order matters there.
        let he = head + e[0];
        assert forall|p: int, q: int| #![trigger he[p], he[q]] 0 <= p < q < he.len() implies he[p].2 <= he[q].2
            && (!he[q].3 ==> he[p].2 < he[q].2) by {
            assert(he[q] == e[0][q - 1]);
            if p > 0 {
                assert(he[p] == e[0][p - 1]);
            }
        }
        assert forall|k: int| 0 <= k < he.len() implies run[0].1 <= (#[trigger] he[k]).2 <= run[1].1 by {
            if k > 0 {
                assert(he[k] == e[0][k - 1]);
            }
        }
        assert(within(he, run[0].1, (run[1].1 - 1) as i64)) by {
            assert forall|k: int| 0 <= k < he.len() implies run[0].1 <= (#[trigger] he[k]).2 <= (run[1].1 - 1) as i64 by {
                if k > 0 {
                    assert(he[k] == e[0][k - 1]);
                }
            }
        }
        assert(r1[0] == run[1]);
        lemma_join_points(he, rest, run[0].1, (run[1].1 - 1) as i64, run[1].1, run.last().1);
        assert(c == he + rest);
        assert forall|i: int| 0 <= i < run.len() implies c.contains(real_point(#[trigger] run[i])) by {
            if i == 0 {
                assert(c[0] == real_point(run[0]));
            } else {
                assert(run[i] == r1[i - 1]);
                let k = choose|k: int| 0 <= k < rest.len() && rest[k] == real_point(r1[i - 1]);
                assert(c[he.len() + k] == rest[k]);
            }
        }
    }
}

proof fn lemma_chart_candidates(runs: Seq<Seq<Reading>>, ests: Seq<Seq<PointView>>)
    requires
        runs.len() > 0,
        forall|k: int| 0 <= k < runs.len() ==> (#[trigger] runs[k]).len() > 0,
        rising(flat(runs)),
        ests.len() >= pair_sum(runs),
        forall|w: int|
            0 <= w < pair_sum(runs) ==> window_fits(
                #[trigger] ests[w],
                all_pairs(runs)[w].0.1,
                all_pairs(runs)[w].1.1,
            ),
    ensures
        flat(runs).len() > 0,
        sorted_points(candidates(runs, ests)),
        readings_rise(candidates(runs, ests)),
        within(candidates(runs, ests), flat(runs)[0].1, flat(runs).last().1),
        forall|i: int|
            0 <= i < flat(runs).len() ==> candidates(runs, ests).contains(
                real_point(#[trigger] flat(runs)[i]),
            ),
    decreases runs.len(),
{
    let run = runs[0];
    let pc = pair_count(run) as int;
    let rest_runs = runs.drop_first();
    let e0 = ests.take(pc);
    let e1 = ests.skip(pc);
    let fr = flat(rest_runs);
    assert(flat(runs) == run + fr);
    assert(all_pairs(runs) == run_pairs(run) + all_pairs(rest_runs));
    lemma_all_pairs_len(runs);
    lemma_all_pairs_len(rest_runs);
    assert(pair_sum(runs) == pc + pair_sum(rest_runs));
    let f = flat(runs);
    assert forall|p: int, q: int| #![trigger run[p], run[q]] 0 <= p < q < run.len() implies run[p].1 < run[q].1 by {
        assert(f[p] == run[p] && f[q] == run[q]);
    }
    assert forall|w: int| 0 <= w < run.len() - 1 implies window_fits(#[trigger] e0[w], run[w].1, run[w + 1].1) by {
        assert(e0[w] == ests[w]);
        assert(all_pairs(runs)[w] == run_pairs(run)[w]);
    }
    lemma_run_chart(run, e0);
    let first = run_candidates(run, e0);
    let c = candidates(runs, ests);
    assert(c == first + candidates(rest_runs, e1));
    assert(f[0] == run[0]);
    if runs.len() == 1 {
        assert(rest_runs.len() == 0);
        assert(candidates(rest_runs, e1) =~= Seq::<PointView>::empty());
        assert(fr =~= Seq::<Reading>::empty());
        assert(c =~= first);
        assert(f =~= run);
    } else {
        assert forall|k: int| 0 <= k < rest_runs.len() implies (#[trigger] rest_runs[k]).len() > 0 by {
            assert(rest_runs[k] == runs[k + 1]);
        }
        assert forall|p: int, q: int| #![trigger fr[p], fr[q]] 0 <= p < q < fr.len() implies fr[p].1 < fr[q].1 by {
            assert(f[run.len() + p] == fr[p] && f[run.len() + q] == fr[q]);
        }
        assert forall|w: int| 0 <= w < pair_sum(rest_runs) implies window_fits(
            #[trigger] e1[w],
            all_pairs(rest_runs)[w].0.1,
            all_pairs(rest_runs)[w].1.1,
        ) by {
            assert(e1[w] == ests[w + pc]);
            assert(all_pairs(runs)[w + pc] == all_pairs(rest_runs)[w]);
        }
        lemma_chart_candidates(rest_runs, e1);
        let rest = candidates(rest_runs, e1);
        assert(run.last() == f[run.len() - 1]);
        assert(fr[0] == f[run.len() as int]);
        assert(run.last().1 < fr[0].1);
        assert(f.last() == fr.last());
        assert(run[0].1 <= run.last().1) by {
            if run.len() > 1 {
                assert(run[0].1 < run[run.len() - 1].1);
            }
        }
        assert(fr[0].1 <= fr.last().1) by {
            if fr.len() > 1 {
                assert(fr[0].1 < fr[fr.len() - 1].1);
            }
        }
        lemma_join_points(first, rest, run[0].1, run.last().1, fr[0].1, fr.last().1);
        assert forall|i: int| 0 <= i < f.len() implies c.contains(real_point(#[trigger] f[i])) by {
            if i < run.len() {
                assert(f[i] == run[i]);
                let k = choose|k: int| 0 <= k < first.len() && first[k] == real_point(run[i]);
                assert(c[k] == first[k]);
            } else {
                assert(f[i] == fr[i - run.len()]);
                let k = choose|k: int| 0 <= k < rest.len() && rest[k] == real_point(fr[i - run.len()]);
                assert(c[first.len() + k] == rest[k]);
            }
        }
    }
}

proof fn lemma_fold_rises(c: Seq<PointView>)
    requires
        sorted_points(c),
        readings_rise(c),
    ensures
        forall|p: int, q: int|
            #![trigger unique_fold(c)[p], unique_fold(c)[q]]
            0 <= p < q < unique_fold(c).len() ==> unique_fold(c)[p].2 < unique_fold(c)[q].2,
        forall|q: int| 0 <= q < c.len() && !(#[trigger] c[q]).3 ==> unique_fold(c).contains(c[q]),
        c.len() > 0 ==> unique_fold(c).len() > 0 && unique_fold(c).last().2 == c.last().2,
    decreases c.len(),
{
    if c.len() > 0 {
        let c0 = c.drop_last();
        assert forall|p: int, q: int| #![trigger c0[p], c0[q]] 0 <= p < q < c0.len() implies c0[p].2 <= c0[q].2
            && (!c0[q].3 ==> c0[p].2 < c0[q].2) by {
            assert(c0[p] == c[p] && c0[q] == c[q]);
        }
        lemma_fold_rises(c0);
        let prev = unique_fold(c0);
        let x = c.last();
        let u = unique_fold(c);
        if prev.len() > 0 {
            lemma_fold_keeps_members(c0, prev.len() - 1);
            let i = choose|i: int| 0 <= i < c0.len() && c0[i] == prev.last();
            assert(c[i] == c0[i]);
            assert(prev.last().2 <= x.2);
            if !x.3 {
                assert(prev.last().2 < x.2);
            }
        }
        assert forall|p: int, q: int|
            #![trigger u[p], u[q]]
            0 <= p < q < u.len() implies u[p].2 < u[q].2 by {
            if q < prev.len() {
                assert(u[p] == prev[p] && u[q] == prev[q]);
            } else {
                assert(u[q] == x);
                assert(u[p] == prev[p]);
                if p < prev.len() - 1 {
                    assert(prev[p].2 < prev[prev.len() - 1].2);
                }
            }
        }
        assert forall|q: int| 0 <= q < c.len() && !(#[trigger] c[q]).3 implies u.contains(c[q]) by {
            if q < c.len() - 1 {
                assert(c[q] == c0[q]);
                let k = choose|k: int| 0 <= k < prev.len() && prev[k] == c0[q];
                assert(u[k] == prev[k]);
            } else {
                assert(u[prev.len() as int] == x);
            }
        }
    }
}

proof fn lemma_played_between_sorted(ms: Seq<Match>, r: Seq<usize>, from: i64, to: i64)
    requires
        forall|a: int, b: int|
            #![trigger r[a], r[b]]
            0 <= a < b < r.len() ==> ms[r[a] as int].started_at <= ms[r[b] as int].started_at,
    ensures
        forall|p: int, q: int|
            #![trigger played_between(ms, r, from, to)[p], played_between(ms, r, from, to)[q]]
            0 <= p < q < played_between(ms, r, from, to).len() ==> ms[played_between(ms, r, from, to)[p] as int].started_at
                <= ms[played_between(ms, r, from, to)[q] as int].started_at,
        forall|p: int|
            0 <= p < played_between(ms, r, from, to).len() ==> exists|a: int|
                0 <= a < r.len() && #[trigger] played_between(ms, r, from, to)[p] == r[a],
    decreases r.len(),
{
    if r.len() > 0 {
        let r0 = r.drop_last();
        assert forall|a: int, b: int|
            #![trigger r0[a], r0[b]]
            0 <= a < b < r0.len() implies ms[r0[a] as int].started_at <= ms[r0[b] as int].started_at by {
            assert(r0[a] == r[a] && r0[b] == r[b]);
        }
        lemma_played_between_sorted(ms, r0, from, to);
        let prev = played_between(ms, r0, from, to);
        let pb = played_between(ms, r, from, to);
        assert forall|p: int| 0 <= p < pb.len() implies exists|a: int| 0 <= a < r.len() && #[trigger] pb[p] == r[a] by {
            if p < prev.len() {
                assert(pb[p] == prev[p]);
                let a = choose|a: int| 0 <= a < r0.len() && prev[p] == r0[a];
                assert(r[a] == r0[a]);
            } else {
                assert(pb[p] == r[r.len() - 1]);
            }
        }
        assert forall|p: int, q: int|
            #![trigger pb[p], pb[q]]
            0 <= p < q < pb.len() implies ms[pb[p] as int].started_at <= ms[pb[q] as int].started_at by {
            if q < prev.len() {
                assert(pb[p] == prev[p] && pb[q] == prev[q]);
            } else {
                assert(pb[q] == r[r.len() - 1]);
                assert(pb[p] == prev[p]);
                let a = choose|a: int| 0 <= a < r0.len() && prev[p] == r0[a];
                assert(r0[a] == r[a]);
            }
        }
    }
}

proof fn lemma_windows_fit(
    snapshots: Seq<RankSnapshot>,
    ms: Seq<Match>,
    windows: Seq<TrajectoryWindow>,
    modeled: Seq<Vec<i16>>,
)
    requires
        windows_of(snapshots, ms, windows),
    ensures
        forall|w: int|
            0 <= w < pair_sum(spec_ranked_runs(snapshots)) ==> window_fits(
                #[trigger] modeled_points(ms, windows, modeled)[w],
                all_pairs(spec_ranked_runs(snapshots))[w].0.1,
                all_pairs(spec_ranked_runs(snapshots))[w].1.1,
            ),
{
    let runs = spec_ranked_runs(snapshots);
    let ests = modeled_points(ms, windows, modeled);
    let pairs = all_pairs(runs);
    lemma_all_pairs_len(runs);
    let r = choose|r: Seq<usize>|
        #![trigger is_oldest_first(ms, r)]
        is_oldest_first(ms, r) && forall|v: int|
            0 <= v < windows.len() ==> (#[trigger] windows[v]).from == pairs[v].0 && windows[v].to
                == pairs[v].1 && windows[v].between@ == played_between(ms, r, pairs[v].0.1, pairs[v].1.1);
    assert forall|a: int, b: int|
        #![trigger r[a], r[b]]
        0 <= a < b < r.len() implies ms[r[a] as int].started_at <= ms[r[b] as int].started_at by {
        assert(charted_before(ms, r[a] as int, r[b] as int));
    }
    assert forall|w: int| 0 <= w < pair_sum(runs) implies window_fits(#[trigger] ests[w], pairs[w].0.1, pairs[w].1.1) by {
        let pb = played_between(ms, r, pairs[w].0.1, pairs[w].1.1);
        assert(windows[w].between@ == pb);
        assert(ests[w] == window_points(ms, pb, modeled[w]@, windows[w].from.0, windows[w].to.0));
        lemma_played_between_sorted(ms, r, pairs[w].0.1, pairs[w].1.1);
        let e = ests[w];
        assert forall|k: int| 0 <= k < e.len() implies (#[trigger] e[k]).3 && pairs[w].0.1 < e[k].2 < pairs[w].1.1 by {
            lemma_played_between_bounds(ms, r, pairs[w].0.1, pairs[w].1.1, k);
        }
        assert forall|p: int, q: int| #![trigger e[p], e[q]] 0 <= p < q < e.len() implies e[p].2 <= e[q].2 by {
            assert(e[p].2 == ms[pb[p] as int].started_at && e[q].2 == ms[pb[q] as int].started_at);
        }
    }
}

/// The chart reads left to right. With readings taken one after another,
/// its points run strictly forward in time, so no moment (and no reading)
/// is drawn twice; every reading that reported a rank is on it, as a real
/// point; and no point lies after the latest such reading.
pub proof fn chart_reads_left_to_right(
    snapshots: Seq<RankSnapshot>,
    ms: Seq<Match>,
    windows: Seq<TrajectoryWindow>,
    modeled: Seq<Vec<i16>>,
)
    requires
        windows_of(snapshots, ms, windows),
        taken_in_order(snapshots),
    ensures
        ({
            let c = unique_fold(
                candidates(spec_ranked_runs(snapshots), modeled_points(ms, windows, modeled)),
            );
            &&& forall|p: int, q: int| #![trigger c[p], c[q]] 0 <= p < q < c.len() ==> c[p].2 < c[q].2
            &&& forall|i: int|
                0 <= i < snapshots.len() && (#[trigger] snapshots[i]).rank_tier is Some ==> c.contains(
                    real_point((snapshots[i].rank_tier.unwrap(), snapshots[i].captured_at)),
                )
            &&& forall|j: int|
                0 <= j < c.len() ==> exists|i: int|
                    0 <= i < snapshots.len() && snapshots[i].rank_tier is Some && (#[trigger] c[j]).2
                        <= snapshots[i].captured_at
        }),
{
    let runs = spec_ranked_runs(snapshots);
    let ests = modeled_points(ms, windows, modeled);
    let cands = candidates(runs, ests);
    let c = unique_fold(cands);
    lemma_runs_flat(snapshots, 0, seq![]);
    lemma_readings_from(snapshots, 0);
    let f = flat(runs);
    assert(f =~= readings_from(snapshots, 0));
    if runs.len() == 0 {
        assert(cands =~= Seq::<PointView>::empty());
        assert(c =~= Seq::<PointView>::empty());
        assert(f =~= Seq::<Reading>::empty());
        assert forall|i: int|
            0 <= i < snapshots.len() && (#[trigger] snapshots[i]).rank_tier is Some implies c.contains(
            real_point((snapshots[i].rank_tier.unwrap(), snapshots[i].captured_at)),
        ) by {
            assert(f.contains((snapshots[i].rank_tier.unwrap(), snapshots[i].captured_at)));
        }
    } else {
        lemma_windows_fit(snapshots, ms, windows, modeled);
        lemma_all_pairs_len(runs);
        lemma_chart_candidates(runs, ests);
        lemma_fold_rises(cands);
        assert forall|i: int|
            0 <= i < snapshots.len() && (#[trigger] snapshots[i]).rank_tier is Some implies c.contains(
            real_point((snapshots[i].rank_tier.unwrap(), snapshots[i].captured_at)),
        ) by {
            let x = (snapshots[i].rank_tier.unwrap(), snapshots[i].captured_at);
            let k = choose|k: int| 0 <= k < f.len() && f[k] == x;
            let q = choose|q: int| 0 <= q < cands.len() && cands[q] == real_point(f[k]);
            assert(!cands[q].3);
        }
        let last = f[f.len() - 1];
        let li = choose|j: int|
            0 <= j < snapshots.len() && snapshots[j].rank_tier == Some(last.0) && last.1
                == snapshots[j].captured_at;
        assert forall|j: int| 0 <= j < c.len() implies exists|i: int|
            0 <= i < snapshots.len() && snapshots[i].rank_tier is Some && (#[trigger] c[j]).2
                <= snapshots[i].captured_at by {
            lemma_fold_keeps_members(cands, j);
            let q = choose|q: int| 0 <= q < cands.len() && cands[q] == c[j];
            assert(cands[q].2 <= f.last().1);
            assert(snapshots[li].rank_tier is Some);
        }
    }
}

} // verus!
