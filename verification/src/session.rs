//! The numbers a coaching session writes down.
//!
//! A session restates figures the backend already computed, each under a
//! stable key with a unit and a direction attached, so that a later session
//! can be subtracted from it. It invents nothing, and a figure the player
//! has no data for is absent, never zero: a recorded zero would later read
//! as a catastrophic decline from nothing.
//!
//! The figures themselves are carried through untouched, whatever their
//! type; only which of them are kept, and under what key, is decided here.

use vstd::prelude::*;

use crate::text::{owned, push_str};

verus! {

/// How many new matches in the role justify a new session: below this a
/// session would mostly re-measure the games the last one already read.
pub const MIN_NEW_MATCHES: usize = 10;

/// How many heroes a session records.
pub const MAX_HEROES: usize = 5;

/// What a recorded figure counts.
#[derive(Debug, Clone, Copy, PartialEq, Eq, Structural)]
pub enum MetricUnit {
    Score,
    Proportion,
    Ratio,
    PerMinute,
    Count,
    Per10,
    Percentile,
}

/// One comparable figure.
#[derive(Debug, Clone, PartialEq)]
pub struct MetricSnapshot<V> {
    pub key: String,
    pub label: String,
    pub value: V,
    /// The matches the figure rests on.
    pub sample: i64,
    pub unit: MetricUnit,
    /// False for the one figure where less is more, recorded per snapshot
    /// so a later comparison never has to know which key means what.
    pub higher_is_better: bool,
}

/// The player's role row, when the role had enough to score.
#[derive(Debug, Clone, PartialEq)]
pub struct RoleFigures<V> {
    pub performance: V,
    pub win_rate: V,
    pub matches: i64,
}

/// The career averages, each absent when the player has no data for it.
#[derive(Debug, Clone, PartialEq)]
pub struct CareerValues<V> {
    pub matches: i64,
    pub avg_kda: Option<V>,
    pub avg_gpm: Option<V>,
    pub avg_xpm: Option<V>,
    pub avg_last_hits: Option<V>,
    pub avg_deaths_per_10: Option<V>,
    pub avg_kills_per_10: Option<V>,
    pub avg_kill_participation: Option<V>,
    /// Kill participation's own denominator: only matches that carried
    /// team totals.
    pub kill_participation_sample: i64,
}

/// One peer comparison; the percentile is absent where it was withheld.
#[derive(Debug, Clone, PartialEq)]
pub struct PercentileReading<V> {
    /// The metric's stored name.
    pub metric: String,
    pub label: String,
    pub percentile: Option<V>,
    pub player_sample: i64,
}

/// One recurring pattern, as the share of measurable matches it fired in.
#[derive(Debug, Clone, PartialEq)]
pub struct PatternRate<V> {
    pub id: String,
    pub label: String,
    pub rate: V,
    pub measured: i64,
}

/// Everything a session's figures are read from.
pub struct SessionInputs<'a, V> {
    pub role: Option<&'a RoleFigures<V>>,
    pub career: &'a CareerValues<V>,
    pub benchmarks: &'a [PercentileReading<V>],
    pub patterns: &'a [PatternRate<V>],
}

/// A recorded figure as plain values.
pub type SnapshotView<V> = (Seq<char>, Seq<char>, V, i64, MetricUnit, bool);

pub open spec fn snapshot_view<V>(m: MetricSnapshot<V>) -> SnapshotView<V> {
    (m.key@, m.label@, m.value, m.sample, m.unit, m.higher_is_better)
}

pub open spec fn snapshot_views<V>(s: Seq<MetricSnapshot<V>>) -> Seq<SnapshotView<V>> {
    s.map_values(|m: MetricSnapshot<V>| snapshot_view(m))
}

pub open spec fn optional<V>(
    key: Seq<char>,
    label: Seq<char>,
    value: Option<V>,
    sample: i64,
    unit: MetricUnit,
    higher_is_better: bool,
) -> Seq<SnapshotView<V>> {
    match value {
        Some(v) => seq![(key, label, v, sample, unit, higher_is_better)],
        None => seq![],
    }
}

pub open spec fn role_snapshots<V>(role: Option<RoleFigures<V>>) -> Seq<SnapshotView<V>> {
    match role {
        Some(r) => seq![
            ("role.performance"@, "Role performance"@, r.performance, r.matches, MetricUnit::Score, true),
            ("role.win_rate"@, "Win rate"@, r.win_rate, r.matches, MetricUnit::Proportion, true),
        ],
        None => seq![],
    }
}

/// The career figures, in a fixed order; deaths are the one where less is
/// more.
pub open spec fn career_snapshots<V>(c: CareerValues<V>) -> Seq<SnapshotView<V>> {
    optional("overall.kda"@, "KDA"@, c.avg_kda, c.matches, MetricUnit::Ratio, true) + optional(
        "overall.gold_per_min"@,
        "Gold per minute"@,
        c.avg_gpm,
        c.matches,
        MetricUnit::PerMinute,
        true,
    ) + optional(
        "overall.xp_per_min"@,
        "XP per minute"@,
        c.avg_xpm,
        c.matches,
        MetricUnit::PerMinute,
        true,
    ) + optional(
        "overall.last_hits"@,
        "Last hits"@,
        c.avg_last_hits,
        c.matches,
        MetricUnit::Count,
        true,
    ) + optional(
        "overall.deaths"@,
        "Deaths per 10 minutes"@,
        c.avg_deaths_per_10,
        c.matches,
        MetricUnit::Per10,
        false,
    ) + optional(
        "overall.kills"@,
        "Kills per 10 minutes"@,
        c.avg_kills_per_10,
        c.matches,
        MetricUnit::Per10,
        true,
    ) + optional(
        "overall.kill_participation"@,
        "Kill participation"@,
        c.avg_kill_participation,
        c.kill_participation_sample,
        MetricUnit::Proportion,
        true,
    )
}

/// Peer placement, wherever a percentile was claimed. A percentile is
/// direction-corrected upstream, so higher is better here even for deaths.
pub open spec fn benchmark_snapshots_of<V>(b: Seq<PercentileReading<V>>) -> Seq<SnapshotView<V>>
    decreases b.len(),
{
    if b.len() == 0 {
        seq![]
    } else {
        benchmark_snapshots_of(b.drop_last()) + optional(
            "benchmark."@ + b.last().metric@,
            b.last().label@,
            b.last().percentile,
            b.last().player_sample,
            MetricUnit::Percentile,
            true,
        )
    }
}

pub open spec fn pattern_snapshot<V>(p: PatternRate<V>) -> SnapshotView<V> {
    ("pattern."@ + p.id@, p.label@, p.rate, p.measured, MetricUnit::Proportion, false)
}

pub open spec fn spec_metrics<V>(
    role: Option<RoleFigures<V>>,
    career: CareerValues<V>,
    benchmarks: Seq<PercentileReading<V>>,
    patterns: Seq<PatternRate<V>>,
) -> Seq<SnapshotView<V>> {
    role_snapshots(role) + career_snapshots(career) + benchmark_snapshots_of(benchmarks)
        + patterns.map_values(|p: PatternRate<V>| pattern_snapshot(p))
}

fn push_snapshot<V>(
    out: &mut Vec<MetricSnapshot<V>>,
    key: String,
    label: String,
    value: V,
    sample: i64,
    unit: MetricUnit,
    higher_is_better: bool,
)
    ensures
        snapshot_views(final(out)@) == snapshot_views(old(out)@).push(
            (key@, label@, value, sample, unit, higher_is_better),
        ),
{
    let ghost before = out@;
    let m = MetricSnapshot { key, label, value, sample, unit, higher_is_better };
    out.push(m);
    proof {
        assert(snapshot_views(out@) =~= snapshot_views(before).push(snapshot_view(m)));
    }
}

fn push_optional<V: Copy>(
    out: &mut Vec<MetricSnapshot<V>>,
    key: &str,
    label: &str,
    value: Option<V>,
    sample: i64,
    unit: MetricUnit,
    higher_is_better: bool,
)
    ensures
        snapshot_views(final(out)@) == snapshot_views(old(out)@) + optional(
            key@,
            label@,
            value,
            sample,
            unit,
            higher_is_better,
        ),
{
    let ghost start = snapshot_views(out@);
    match value {
        Some(v) => {
            push_snapshot(out, owned(key), owned(label), v, sample, unit, higher_is_better);
        },
        None => {},
    }
    proof {
        assert(snapshot_views(out@) =~= start + optional(
            key@,
            label@,
            value,
            sample,
            unit,
            higher_is_better,
        ));
    }
}

fn push_role<V: Copy>(out: &mut Vec<MetricSnapshot<V>>, role: Option<&RoleFigures<V>>)
    ensures
        snapshot_views(final(out)@) == snapshot_views(old(out)@) + role_snapshots(
            match role {
                Some(r) => Some(*r),
                None => None,
            },
        ),
{
    let ghost start = snapshot_views(out@);
    match role {
        Some(r) => {
            push_snapshot(
                out,
                owned("role.performance"),
                owned("Role performance"),
                r.performance,
                r.matches,
                MetricUnit::Score,
                true,
            );
            push_snapshot(
                out,
                owned("role.win_rate"),
                owned("Win rate"),
                r.win_rate,
                r.matches,
                MetricUnit::Proportion,
                true,
            );
            proof {
                assert(snapshot_views(out@) =~= start + role_snapshots(Some(*r)));
            }
        },
        None => {
            proof {
                assert(snapshot_views(out@) =~= start + role_snapshots::<V>(None));
            }
        },
    }
}

fn push_career<V: Copy>(out: &mut Vec<MetricSnapshot<V>>, c: &CareerValues<V>)
    ensures
        snapshot_views(final(out)@) == snapshot_views(old(out)@) + career_snapshots(*c),
{
    let ghost start = snapshot_views(out@);
    push_optional(out, "overall.kda", "KDA", c.avg_kda, c.matches, MetricUnit::Ratio, true);
    push_optional(
        out,
        "overall.gold_per_min",
        "Gold per minute",
        c.avg_gpm,
        c.matches,
        MetricUnit::PerMinute,
        true,
    );
    push_optional(
        out,
        "overall.xp_per_min",
        "XP per minute",
        c.avg_xpm,
        c.matches,
        MetricUnit::PerMinute,
        true,
    );
    push_optional(out, "overall.last_hits", "Last hits", c.avg_last_hits, c.matches, MetricUnit::Count, true);
    push_optional(
        out,
        "overall.deaths",
        "Deaths per 10 minutes",
        c.avg_deaths_per_10,
        c.matches,
        MetricUnit::Per10,
        false,
    );
    push_optional(
        out,
        "overall.kills",
        "Kills per 10 minutes",
        c.avg_kills_per_10,
        c.matches,
        MetricUnit::Per10,
        true,
    );
    push_optional(
        out,
        "overall.kill_participation",
        "Kill participation",
        c.avg_kill_participation,
        c.kill_participation_sample,
        MetricUnit::Proportion,
        true,
    );
    proof {
        assert(snapshot_views(out@) =~= start + career_snapshots(*c));
    }
}

fn push_benchmarks<V: Copy>(out: &mut Vec<MetricSnapshot<V>>, benchmarks: &[PercentileReading<V>])
    ensures
        snapshot_views(final(out)@) == snapshot_views(old(out)@) + benchmark_snapshots_of(
            benchmarks@,
        ),
{
    let ghost start = snapshot_views(out@);
    let mut i: usize = 0;
    proof {
        assert(benchmarks@.take(0) =~= Seq::<PercentileReading<V>>::empty());
        assert(snapshot_views(out@) =~= start + benchmark_snapshots_of(benchmarks@.take(0)));
    }
    while i < benchmarks.len()
        invariant
            i <= benchmarks@.len(),
            snapshot_views(out@) == start + benchmark_snapshots_of(benchmarks@.take(i as int)),
        decreases benchmarks@.len() - i,
    {
        let b = &benchmarks[i];
        let mut key = owned("benchmark.");
        push_str(&mut key, b.metric.as_str());
        let ghost before = snapshot_views(out@);
        match b.percentile {
            Some(p) => {
                push_snapshot(out, key, b.label.clone(), p, b.player_sample, MetricUnit::Percentile, true);
            },
            None => {},
        }
        proof {
            assert(benchmarks@.take(i + 1).drop_last() =~= benchmarks@.take(i as int));
            assert(snapshot_views(out@) =~= before + optional(
                "benchmark."@ + b.metric@,
                b.label@,
                b.percentile,
                b.player_sample,
                MetricUnit::Percentile,
                true,
            ));
        }
        i = i + 1;
    }
    proof {
        assert(benchmarks@.take(benchmarks@.len() as int) =~= benchmarks@);
    }
}

fn push_patterns<V: Copy>(out: &mut Vec<MetricSnapshot<V>>, patterns: &[PatternRate<V>])
    ensures
        snapshot_views(final(out)@) == snapshot_views(old(out)@) + patterns@.map_values(
            |p: PatternRate<V>| pattern_snapshot(p),
        ),
{
    let ghost start = snapshot_views(out@);
    let mut j: usize = 0;
    proof {
        assert(snapshot_views(out@) =~= start + patterns@.take(0).map_values(
            |p: PatternRate<V>| pattern_snapshot(p),
        ));
    }
    while j < patterns.len()
        invariant
            j <= patterns@.len(),
            snapshot_views(out@) == start + patterns@.take(j as int).map_values(
                |p: PatternRate<V>| pattern_snapshot(p),
            ),
        decreases patterns@.len() - j,
    {
        let p = &patterns[j];
        let mut key = owned("pattern.");
        push_str(&mut key, p.id.as_str());
        push_snapshot(out, key, p.label.clone(), p.rate, p.measured, MetricUnit::Proportion, false);
        proof {
            assert(patterns@.take(j + 1).map_values(|p: PatternRate<V>| pattern_snapshot(p))
                =~= patterns@.take(j as int).map_values(|p: PatternRate<V>| pattern_snapshot(p)).push(
                pattern_snapshot(*p),
            ));
        }
        j = j + 1;
    }
    proof {
        assert(patterns@.take(patterns@.len() as int) =~= patterns@);
    }
}

/// The comparable figures of a session, in a stable order: the role, the
/// career averages, peer placement, then recurring patterns as rates.
pub fn metrics<V: Copy>(inputs: &SessionInputs<V>) -> (out: Vec<MetricSnapshot<V>>)
    ensures
        snapshot_views(out@) == spec_metrics(
            match inputs.role {
                Some(r) => Some(*r),
                None => None,
            },
            *inputs.career,
            inputs.benchmarks@,
            inputs.patterns@,
        ),
{
    let mut out: Vec<MetricSnapshot<V>> = Vec::new();
    push_role(&mut out, inputs.role);
    push_career(&mut out, inputs.career);
    push_benchmarks(&mut out, inputs.benchmarks);
    push_patterns(&mut out, inputs.patterns);
    proof {
        assert(snapshot_views(out@) =~= spec_metrics(
            match inputs.role {
                Some(r) => Some(*r),
                None => None,
            },
            *inputs.career,
            inputs.benchmarks@,
            inputs.patterns@,
        ));
    }
    out
}

/// Matches of `current` the last session did not read. A window that has
/// slid holds the same number of matches while being different games, so
/// this is a set difference, not a count comparison.
pub open spec fn unseen(seen: Seq<u128>, current: Seq<u128>) -> nat
    decreases current.len(),
{
    if current.len() == 0 {
        0
    } else {
        unseen(seen, current.drop_last()) + if seen.contains(current.last()) {
            0nat
        } else {
            1nat
        }
    }
}

fn contains_id(ids: &[u128], id: u128) -> (b: bool)
    ensures
        b == ids@.contains(id),
{
    let mut i: usize = 0;
    while i < ids.len()
        invariant
            i <= ids@.len(),
            forall|k: int| 0 <= k < i ==> ids@[k] != id,
        decreases ids@.len() - i,
    {
        if ids[i] == id {
            assert(ids@[i as int] == id);
            return true;
        }
        i = i + 1;
    }
    false
}

/// How many of the current window's matches the last session did not read.
pub fn new_match_count(seen: &[u128], current: &[u128]) -> (n: usize)
    ensures
        n == unseen(seen@, current@),
{
    let mut n: usize = 0;
    let mut i: usize = 0;
    while i < current.len()
        invariant
            i <= current@.len(),
            n <= i,
            n == unseen(seen@, current@.take(i as int)),
        decreases current@.len() - i,
    {
        proof {
            assert(current@.take(i + 1).drop_last() =~= current@.take(i as int));
        }
        if !contains_id(seen, current[i]) {
            n = n + 1;
        }
        i = i + 1;
    }
    proof {
        assert(current@.take(current@.len() as int) =~= current@);
    }
    n
}

/// Whether enough has happened to justify a new session, counted in matches
/// the last session has not read rather than in elapsed time. With no
/// session yet, any match at all justifies the first.
pub open spec fn spec_should_create(latest: Option<Seq<u128>>, current: Seq<u128>) -> bool {
    match latest {
        None => current.len() > 0,
        Some(seen) => unseen(seen, current) >= MIN_NEW_MATCHES,
    }
}

/// `latest` is the match ids the last session read, if there is one.
pub fn should_create(latest: Option<&[u128]>, current: &[u128]) -> (b: bool)
    ensures
        b == spec_should_create(
            match latest {
                Some(s) => Some(s@),
                None => None,
            },
            current@,
        ),
{
    match latest {
        None => current.len() > 0,
        Some(seen) => new_match_count(seen, current) >= MIN_NEW_MATCHES,
    }
}

/// One hero's career figures.
#[derive(Debug, Clone, PartialEq)]
pub struct HeroStats<V> {
    pub hero_id: i32,
    pub hero_name: String,
    pub matches: i64,
    pub wins: i64,
    pub win_rate: V,
    pub avg_kda: V,
}

/// One hero as a session records it.
#[derive(Debug, Clone, PartialEq)]
pub struct HeroSnapshot<V> {
    pub hero_id: i32,
    pub hero_name: String,
    pub matches: i64,
    pub wins: i64,
    pub win_rate: V,
    pub avg_kda: Option<V>,
}

pub open spec fn hero_snapshot_matches<V>(s: HeroSnapshot<V>, h: HeroStats<V>) -> bool {
    &&& s.hero_id == h.hero_id
    &&& s.hero_name@ == h.hero_name@
    &&& s.matches == h.matches
    &&& s.wins == h.wins
    &&& s.win_rate == h.win_rate
    &&& s.avg_kda == Some(h.avg_kda)
}

/// The most-played heroes, at most [`MAX_HEROES`]: a snapshot is a summary,
/// not an archive.
pub fn hero_snapshots<V: Copy>(heroes: &[HeroStats<V>]) -> (out: Vec<HeroSnapshot<V>>)
    ensures
        out@.len() == if heroes@.len() < MAX_HEROES {
            heroes@.len()
        } else {
            MAX_HEROES as nat
        },
        forall|i: int| 0 <= i < out@.len() ==> hero_snapshot_matches(#[trigger] out@[i], heroes@[i]),
{
    let n: usize = if heroes.len() < MAX_HEROES {
        heroes.len()
    } else {
        MAX_HEROES
    };
    let mut out: Vec<HeroSnapshot<V>> = Vec::new();
    let mut i: usize = 0;
    while i < n
        invariant
            i <= n <= heroes@.len(),
            out@.len() == i,
            forall|k: int| 0 <= k < i ==> hero_snapshot_matches(#[trigger] out@[k], heroes@[k]),
        decreases n - i,
    {
        let h = &heroes[i];
        out.push(
            HeroSnapshot {
                hero_id: h.hero_id,
                hero_name: h.hero_name.clone(),
                matches: h.matches,
                wins: h.wins,
                win_rate: h.win_rate,
                avg_kda: Some(h.avg_kda),
            },
        );
        i = i + 1;
    }
    out
}

/// One benchmark result as a session records it.
#[derive(Debug, Clone, PartialEq)]
pub struct BenchmarkSnapshot<V> {
    pub metric: String,
    pub label: String,
    pub player_value: V,
    pub peer_median: Option<V>,
    pub percentile: Option<V>,
    pub higher_is_better: bool,
}

/// Every benchmark result, each restated as it was measured.
pub fn benchmark_snapshots<V: Copy>(results: &[BenchmarkSnapshot<V>]) -> (out: Vec<BenchmarkSnapshot<V>>)
    ensures
        out@.len() == results@.len(),
        forall|i: int|
            0 <= i < out@.len() ==> (#[trigger] out@[i]).metric@ == results@[i].metric@
                && out@[i].label@ == results@[i].label@ && out@[i].player_value
                == results@[i].player_value && out@[i].peer_median == results@[i].peer_median
                && out@[i].percentile == results@[i].percentile && out@[i].higher_is_better
                == results@[i].higher_is_better,
{
    let mut out: Vec<BenchmarkSnapshot<V>> = Vec::new();
    let mut i: usize = 0;
    while i < results.len()
        invariant
            i <= results@.len(),
            out@.len() == i,
            forall|k: int|
                0 <= k < i ==> (#[trigger] out@[k]).metric@ == results@[k].metric@ && out@[k].label@
                    == results@[k].label@ && out@[k].player_value == results@[k].player_value
                    && out@[k].peer_median == results@[k].peer_median && out@[k].percentile
                    == results@[k].percentile && out@[k].higher_is_better
                    == results@[k].higher_is_better,
        decreases results@.len() - i,
    {
        let r = &results[i];
        out.push(
            BenchmarkSnapshot {
                metric: r.metric.clone(),
                label: r.label.clone(),
                player_value: r.player_value,
                peer_median: r.peer_median,
                percentile: r.percentile,
                higher_is_better: r.higher_is_better,
            },
        );
        i = i + 1;
    }
    out
}

/// Whether a figure is recorded under `key`.
pub open spec fn recorded<V>(s: Seq<SnapshotView<V>>, key: Seq<char>) -> bool {
    exists|i: int| 0 <= i < s.len() && (#[trigger] s[i]).0 == key
}

broadcast proof fn lemma_recorded_add<V>(a: Seq<SnapshotView<V>>, b: Seq<SnapshotView<V>>, key: Seq<char>)
    ensures
        #[trigger] recorded(a + b, key) == (recorded(a, key) || recorded(b, key)),
{
    if recorded(a + b, key) {
        let i = choose|i: int| 0 <= i < (a + b).len() && (#[trigger] (a + b)[i]).0 == key;
        if i < a.len() {
            assert(a[i] == (a + b)[i]);
        } else {
            assert(b[i - a.len()] == (a + b)[i]);
        }
    }
    if recorded(a, key) {
        let i = choose|i: int| 0 <= i < a.len() && (#[trigger] a[i]).0 == key;
        assert((a + b)[i] == a[i]);
    }
    if recorded(b, key) {
        let i = choose|i: int| 0 <= i < b.len() && (#[trigger] b[i]).0 == key;
        assert((a + b)[a.len() + i] == b[i]);
    }
}

broadcast proof fn lemma_contains_add<V>(a: Seq<SnapshotView<V>>, b: Seq<SnapshotView<V>>, e: SnapshotView<V>)
    ensures
        (a.contains(e) || b.contains(e)) ==> #[trigger] (a + b).contains(e),
{
    if a.contains(e) {
        let i = choose|i: int| 0 <= i < a.len() && a[i] == e;
        assert((a + b)[i] == a[i]);
    }
    if b.contains(e) {
        let i = choose|i: int| 0 <= i < b.len() && b[i] == e;
        assert((a + b)[a.len() + i] == b[i]);
    }
}

broadcast proof fn lemma_recorded_optional<V>(
    k: Seq<char>,
    label: Seq<char>,
    value: Option<V>,
    sample: i64,
    unit: MetricUnit,
    higher_is_better: bool,
    key: Seq<char>,
)
    ensures
        #[trigger] recorded(optional(k, label, value, sample, unit, higher_is_better), key) == (
        value is Some && k == key),
        value is Some ==> #[trigger] optional(k, label, value, sample, unit, higher_is_better).contains(
            (k, label, value.unwrap(), sample, unit, higher_is_better),
        ),
{
    let o = optional(k, label, value, sample, unit, higher_is_better);
    if value is Some {
        assert(o[0].0 == k);
    }
}

proof fn lemma_recorded_benchmarks<V>(b: Seq<PercentileReading<V>>, key: Seq<char>)
    ensures
        recorded(benchmark_snapshots_of(b), key) == exists|j: int|
            0 <= j < b.len() && (#[trigger] b[j]).percentile is Some && "benchmark."@ + b[j].metric@
                == key,
        forall|j: int|
            0 <= j < b.len() && (#[trigger] b[j]).percentile is Some ==> benchmark_snapshots_of(
                b,
            ).contains(
                (
                    "benchmark."@ + b[j].metric@,
                    b[j].label@,
                    b[j].percentile.unwrap(),
                    b[j].player_sample,
                    MetricUnit::Percentile,
                    true,
                ),
            ),
    decreases b.len(),
{
    broadcast use lemma_recorded_add, lemma_contains_add, lemma_recorded_optional;

    if b.len() > 0 {
        let l = b.last();
        let prev = b.drop_last();
        lemma_recorded_benchmarks(prev, key);
        assert(benchmark_snapshots_of(b) == benchmark_snapshots_of(prev) + optional(
            "benchmark."@ + l.metric@,
            l.label@,
            l.percentile,
            l.player_sample,
            MetricUnit::Percentile,
            true,
        ));
        assert(forall|j: int| 0 <= j < prev.len() ==> prev[j] == b[j]);
        if recorded(benchmark_snapshots_of(b), key) && !recorded(benchmark_snapshots_of(prev), key) {
            assert(b[b.len() - 1] == l);
        }
        assert forall|j: int| 0 <= j < b.len() && (#[trigger] b[j]).percentile is Some implies benchmark_snapshots_of(
            b,
        ).contains(
            (
                "benchmark."@ + b[j].metric@,
                b[j].label@,
                b[j].percentile.unwrap(),
                b[j].player_sample,
                MetricUnit::Percentile,
                true,
            ),
        ) by {
            if j < prev.len() {
                assert(prev[j] == b[j]);
            } else {
                assert(b[j] == l);
            }
        }
    } else {
        assert(benchmark_snapshots_of(b) =~= Seq::<SnapshotView<V>>::empty());
    }
}

proof fn lemma_recorded_patterns<V>(p: Seq<PatternRate<V>>, key: Seq<char>)
    ensures
        recorded(p.map_values(|r: PatternRate<V>| pattern_snapshot(r)), key) == exists|j: int|
            0 <= j < p.len() && "pattern."@ + (#[trigger] p[j]).id@ == key,
        forall|j: int|
            0 <= j < p.len() ==> p.map_values(|r: PatternRate<V>| pattern_snapshot(r)).contains(
                pattern_snapshot(#[trigger] p[j]),
            ),
{
    let m = p.map_values(|r: PatternRate<V>| pattern_snapshot(r));
    if recorded(m, key) {
        let i = choose|i: int| 0 <= i < m.len() && (#[trigger] m[i]).0 == key;
        assert(m[i] == pattern_snapshot(p[i]));
    }
    assert forall|j: int| 0 <= j < p.len() implies m.contains(pattern_snapshot(#[trigger] p[j])) by {
        assert(m[j] == pattern_snapshot(p[j]));
    }
    if exists|j: int| 0 <= j < p.len() && "pattern."@ + (#[trigger] p[j]).id@ == key {
        let j = choose|j: int| 0 <= j < p.len() && "pattern."@ + (#[trigger] p[j]).id@ == key;
        assert(m[j].0 == key);
    }
}

proof fn lemma_prefix_cancels(p: Seq<char>, x: Seq<char>, y: Seq<char>)
    ensures
        (p + x == p + y) == (x == y),
{
    if p + x == p + y {
        assert(x =~= (p + x).skip(p.len() as int));
        assert(y =~= (p + y).skip(p.len() as int));
    }
}

proof fn lemma_recorded_career<V>(c: CareerValues<V>, key: Seq<char>)
    ensures
        recorded(career_snapshots(c), key) == (
        (key == "overall.kda"@ && c.avg_kda is Some)
            || (key == "overall.gold_per_min"@ && c.avg_gpm is Some)
            || (key == "overall.xp_per_min"@ && c.avg_xpm is Some)
            || (key == "overall.last_hits"@ && c.avg_last_hits is Some)
            || (key == "overall.deaths"@ && c.avg_deaths_per_10 is Some)
            || (key == "overall.kills"@ && c.avg_kills_per_10 is Some)
            || (key == "overall.kill_participation"@ && c.avg_kill_participation is Some)),
        c.avg_kda matches Some(v) ==> career_snapshots(c).contains(
            ("overall.kda"@, "KDA"@, v, c.matches, MetricUnit::Ratio, true),
        ),
        c.avg_gpm matches Some(v) ==> career_snapshots(c).contains(
            ("overall.gold_per_min"@, "Gold per minute"@, v, c.matches, MetricUnit::PerMinute, true),
        ),
        c.avg_xpm matches Some(v) ==> career_snapshots(c).contains(
            ("overall.xp_per_min"@, "XP per minute"@, v, c.matches, MetricUnit::PerMinute, true),
        ),
        c.avg_last_hits matches Some(v) ==> career_snapshots(c).contains(
            ("overall.last_hits"@, "Last hits"@, v, c.matches, MetricUnit::Count, true),
        ),
        c.avg_deaths_per_10 matches Some(v) ==> career_snapshots(c).contains(
            ("overall.deaths"@, "Deaths per 10 minutes"@, v, c.matches, MetricUnit::Per10, false),
        ),
        c.avg_kills_per_10 matches Some(v) ==> career_snapshots(c).contains(
            ("overall.kills"@, "Kills per 10 minutes"@, v, c.matches, MetricUnit::Per10, true),
        ),
        c.avg_kill_participation matches Some(v) ==> career_snapshots(c).contains(
            (
                "overall.kill_participation"@,
                "Kill participation"@,
                v,
                c.kill_participation_sample,
                MetricUnit::Proportion,
                true,
            ),
        ),
{
    let o1 = optional("overall.kda"@, "KDA"@, c.avg_kda, c.matches, MetricUnit::Ratio, true);
    let o2 = optional(
        "overall.gold_per_min"@,
        "Gold per minute"@,
        c.avg_gpm,
        c.matches,
        MetricUnit::PerMinute,
        true,
    );
    let o3 = optional("overall.xp_per_min"@, "XP per minute"@, c.avg_xpm, c.matches, MetricUnit::PerMinute, true);
    let o4 = optional("overall.last_hits"@, "Last hits"@, c.avg_last_hits, c.matches, MetricUnit::Count, true);
    let o5 = optional(
        "overall.deaths"@,
        "Deaths per 10 minutes"@,
        c.avg_deaths_per_10,
        c.matches,
        MetricUnit::Per10,
        false,
    );
    let o6 = optional(
        "overall.kills"@,
        "Kills per 10 minutes"@,
        c.avg_kills_per_10,
        c.matches,
        MetricUnit::Per10,
        true,
    );
    let o7 = optional(
        "overall.kill_participation"@,
        "Kill participation"@,
        c.avg_kill_participation,
        c.kill_participation_sample,
        MetricUnit::Proportion,
        true,
    );
    assert(career_snapshots(c) == o1 + o2 + o3 + o4 + o5 + o6 + o7);
    lemma_recorded_optional("overall.kda"@, "KDA"@, c.avg_kda, c.matches, MetricUnit::Ratio, true, key);
    lemma_recorded_optional(
        "overall.gold_per_min"@,
        "Gold per minute"@,
        c.avg_gpm,
        c.matches,
        MetricUnit::PerMinute,
        true,
        key,
    );
    lemma_recorded_optional("overall.xp_per_min"@, "XP per minute"@, c.avg_xpm, c.matches, MetricUnit::PerMinute, true, key);
    lemma_recorded_optional("overall.last_hits"@, "Last hits"@, c.avg_last_hits, c.matches, MetricUnit::Count, true, key);
    lemma_recorded_optional(
        "overall.deaths"@,
        "Deaths per 10 minutes"@,
        c.avg_deaths_per_10,
        c.matches,
        MetricUnit::Per10,
        false,
        key,
    );
    lemma_recorded_optional(
        "overall.kills"@,
        "Kills per 10 minutes"@,
        c.avg_kills_per_10,
        c.matches,
        MetricUnit::Per10,
        true,
        key,
    );
    lemma_recorded_optional(
        "overall.kill_participation"@,
        "Kill participation"@,
        c.avg_kill_participation,
        c.kill_participation_sample,
        MetricUnit::Proportion,
        true,
        key,
    );
    lemma_recorded_add(o1, o2, key);
    lemma_recorded_add(o1 + o2, o3, key);
    lemma_recorded_add(o1 + o2 + o3, o4, key);
    lemma_recorded_add(o1 + o2 + o3 + o4, o5, key);
    lemma_recorded_add(o1 + o2 + o3 + o4 + o5, o6, key);
    lemma_recorded_add(o1 + o2 + o3 + o4 + o5 + o6, o7, key);
    assert forall|e: SnapshotView<V>|
        o1.contains(e) || o2.contains(e) || o3.contains(e) || o4.contains(e) || o5.contains(e)
            || o6.contains(e) || o7.contains(e) implies #[trigger] career_snapshots(c).contains(e) by {
        lemma_contains_add(o1, o2, e);
        lemma_contains_add(o1 + o2, o3, e);
        lemma_contains_add(o1 + o2 + o3, o4, e);
        lemma_contains_add(o1 + o2 + o3 + o4, o5, e);
        lemma_contains_add(o1 + o2 + o3 + o4 + o5, o6, e);
        lemma_contains_add(o1 + o2 + o3 + o4 + o5 + o6, o7, e);
    }
}

proof fn lemma_recorded_parts<V>(
    rs: Seq<SnapshotView<V>>,
    cs: Seq<SnapshotView<V>>,
    bs: Seq<SnapshotView<V>>,
    ps: Seq<SnapshotView<V>>,
    key: Seq<char>,
    e: SnapshotView<V>,
)
    ensures
        recorded(rs + cs + bs + ps, key) == (recorded(rs, key) || recorded(cs, key) || recorded(
            bs,
            key,
        ) || recorded(ps, key)),
        (rs.contains(e) || cs.contains(e) || bs.contains(e) || ps.contains(e)) ==> (rs + cs + bs
            + ps).contains(e),
{
    lemma_recorded_add(rs, cs, key);
    lemma_recorded_add(rs + cs, bs, key);
    lemma_recorded_add(rs + cs + bs, ps, key);
    lemma_contains_add(rs, cs, e);
    lemma_contains_add(rs + cs, bs, e);
    lemma_contains_add(rs + cs + bs, ps, e);
}

proof fn lemma_overall_keys_differ()
    ensures
        ({
            let ks = seq![
                "overall.kda"@,
                "overall.gold_per_min"@,
                "overall.xp_per_min"@,
                "overall.last_hits"@,
                "overall.deaths"@,
                "overall.kills"@,
                "overall.kill_participation"@,
            ];
            &&& forall|a: int, b: int| 0 <= a < 7 && 0 <= b < 7 && a != b ==> #[trigger] ks[a] != #[trigger] ks[b]
            &&& forall|a: int| 0 <= a < 7 ==> (#[trigger] ks[a]).len() > 0 && ks[a][0] == 'o'
        }),
{
    reveal_strlit("overall.kda");
    reveal_strlit("overall.gold_per_min");
    reveal_strlit("overall.xp_per_min");
    reveal_strlit("overall.last_hits");
    reveal_strlit("overall.deaths");
    reveal_strlit("overall.kills");
    reveal_strlit("overall.kill_participation");
    let ks = seq![
        "overall.kda"@,
        "overall.gold_per_min"@,
        "overall.xp_per_min"@,
        "overall.last_hits"@,
        "overall.deaths"@,
        "overall.kills"@,
        "overall.kill_participation"@,
    ];
    assert forall|a: int, b: int| 0 <= a < 7 && 0 <= b < 7 && a != b implies #[trigger] ks[a] != #[trigger] ks[b] by {
        assert(ks[a].len() != ks[b].len());
    }
}

/// Keys that begin with different letters are different keys.
proof fn lemma_groups_apart<V>(
    role: Option<RoleFigures<V>>,
    benchmarks: Seq<PercentileReading<V>>,
    patterns: Seq<PatternRate<V>>,
    key: Seq<char>,
)
    requires
        key.len() > 0,
    ensures
        key[0] != 'r' ==> !recorded(role_snapshots(role), key),
        key[0] != 'b' ==> !recorded(benchmark_snapshots_of(benchmarks), key),
        key[0] != 'p' ==> !recorded(patterns.map_values(|p: PatternRate<V>| pattern_snapshot(p)), key),
        role matches Some(r) ==> role_snapshots(role).contains(
            ("role.performance"@, "Role performance"@, r.performance, r.matches, MetricUnit::Score, true),
        ) && role_snapshots(role).contains(
            ("role.win_rate"@, "Win rate"@, r.win_rate, r.matches, MetricUnit::Proportion, true),
        ),
        recorded(role_snapshots(role), key) == (role is Some && (key == "role.performance"@ || key
            == "role.win_rate"@)),
{
    reveal_strlit("role.performance");
    reveal_strlit("role.win_rate");
    reveal_strlit("benchmark.");
    reveal_strlit("pattern.");
    let rs = role_snapshots(role);
    lemma_recorded_benchmarks(benchmarks, key);
    lemma_recorded_patterns(patterns, key);
    if key[0] != 'b' && recorded(benchmark_snapshots_of(benchmarks), key) {
        let j = choose|j: int|
            0 <= j < benchmarks.len() && (#[trigger] benchmarks[j]).percentile is Some && "benchmark."@
                + benchmarks[j].metric@ == key;
        assert(("benchmark."@ + benchmarks[j].metric@)[0] == 'b');
    }
    if key[0] != 'p' && recorded(patterns.map_values(|p: PatternRate<V>| pattern_snapshot(p)), key) {
        let j = choose|j: int| 0 <= j < patterns.len() && "pattern."@ + (#[trigger] patterns[j]).id@ == key;
        assert(("pattern."@ + patterns[j].id@)[0] == 'p');
    }
    if let Some(r) = role {
        assert(rs[0] == ("role.performance"@, "Role performance"@, r.performance, r.matches, MetricUnit::Score, true));
        assert(rs[1] == ("role.win_rate"@, "Win rate"@, r.win_rate, r.matches, MetricUnit::Proportion, true));
        assert(rs.contains(rs[0]));
        assert(rs.contains(rs[1]));
        if key == "role.performance"@ {
            assert(rs[0].0 == key);
        }
        if key == "role.win_rate"@ {
            assert(rs[1].0 == key);
        }
        if recorded(rs, key) {
            let i = choose|i: int| 0 <= i < rs.len() && (#[trigger] rs[i]).0 == key;
            assert(i == 0 || i == 1);
        }
    } else {
        assert(rs =~= Seq::<SnapshotView<V>>::empty());
    }
}

/// A figure is recorded exactly when the player has it, and then as it was
/// measured: each career average under its key, on the career sample (kill
/// participation on its own), deaths the one where less is better; the role
/// figures when the role scored; a peer comparison wherever a percentile
/// was claimed; every pattern. Nothing absent is ever written down as zero.
pub proof fn figures_are_recorded_exactly_when_known<V>(
    role: Option<RoleFigures<V>>,
    career: CareerValues<V>,
    benchmarks: Seq<PercentileReading<V>>,
    patterns: Seq<PatternRate<V>>,
)
    ensures
        ({
            let m = spec_metrics(role, career, benchmarks, patterns);
            let c = career;
            &&& recorded(m, "overall.kda"@) <==> c.avg_kda is Some
            &&& recorded(m, "overall.gold_per_min"@) <==> c.avg_gpm is Some
            &&& recorded(m, "overall.xp_per_min"@) <==> c.avg_xpm is Some
            &&& recorded(m, "overall.last_hits"@) <==> c.avg_last_hits is Some
            &&& recorded(m, "overall.deaths"@) <==> c.avg_deaths_per_10 is Some
            &&& recorded(m, "overall.kills"@) <==> c.avg_kills_per_10 is Some
            &&& recorded(m, "overall.kill_participation"@) <==> c.avg_kill_participation is Some
            &&& c.avg_kda matches Some(v) ==> m.contains(
                ("overall.kda"@, "KDA"@, v, c.matches, MetricUnit::Ratio, true),
            )
            &&& c.avg_gpm matches Some(v) ==> m.contains(
                ("overall.gold_per_min"@, "Gold per minute"@, v, c.matches, MetricUnit::PerMinute, true),
            )
            &&& c.avg_xpm matches Some(v) ==> m.contains(
                ("overall.xp_per_min"@, "XP per minute"@, v, c.matches, MetricUnit::PerMinute, true),
            )
            &&& c.avg_last_hits matches Some(v) ==> m.contains(
                ("overall.last_hits"@, "Last hits"@, v, c.matches, MetricUnit::Count, true),
            )
            &&& c.avg_deaths_per_10 matches Some(v) ==> m.contains(
                ("overall.deaths"@, "Deaths per 10 minutes"@, v, c.matches, MetricUnit::Per10, false),
            )
            &&& c.avg_kills_per_10 matches Some(v) ==> m.contains(
                ("overall.kills"@, "Kills per 10 minutes"@, v, c.matches, MetricUnit::Per10, true),
            )
            &&& c.avg_kill_participation matches Some(v) ==> m.contains(
                (
                    "overall.kill_participation"@,
                    "Kill participation"@,
                    v,
                    c.kill_participation_sample,
                    MetricUnit::Proportion,
                    true,
                ),
            )
            &&& recorded(m, "role.performance"@) <==> role is Some
            &&& recorded(m, "role.win_rate"@) <==> role is Some
            &&& role matches Some(r) ==> m.contains(
                ("role.performance"@, "Role performance"@, r.performance, r.matches, MetricUnit::Score, true),
            ) && m.contains(
                ("role.win_rate"@, "Win rate"@, r.win_rate, r.matches, MetricUnit::Proportion, true),
            )
            &&& forall|metric: Seq<char>|
                #![trigger recorded(m, "benchmark."@ + metric)]
                recorded(m, "benchmark."@ + metric) <==> exists|j: int|
                    0 <= j < benchmarks.len() && (#[trigger] benchmarks[j]).metric@ == metric
                        && benchmarks[j].percentile is Some
            &&& forall|j: int|
                0 <= j < benchmarks.len() && (#[trigger] benchmarks[j]).percentile is Some ==> m.contains(
                    (
                        "benchmark."@ + benchmarks[j].metric@,
                        benchmarks[j].label@,
                        benchmarks[j].percentile.unwrap(),
                        benchmarks[j].player_sample,
                        MetricUnit::Percentile,
                        true,
                    ),
                )
            &&& forall|id: Seq<char>|
                #![trigger recorded(m, "pattern."@ + id)]
                recorded(m, "pattern."@ + id) <==> exists|j: int|
                    0 <= j < patterns.len() && (#[trigger] patterns[j]).id@ == id
            &&& forall|j: int| 0 <= j < patterns.len() ==> m.contains(pattern_snapshot(#[trigger] patterns[j]))
        }),
{
    let m = spec_metrics(role, career, benchmarks, patterns);
    let rs = role_snapshots(role);
    let cs = career_snapshots(career);
    let bs = benchmark_snapshots_of(benchmarks);
    let ps = patterns.map_values(|p: PatternRate<V>| pattern_snapshot(p));
    assert(m == rs + cs + bs + ps);
    lemma_overall_keys_differ();
    reveal_strlit("role.performance");
    reveal_strlit("role.win_rate");
    reveal_strlit("benchmark.");
    reveal_strlit("pattern.");
    let ks = seq![
        "overall.kda"@,
        "overall.gold_per_min"@,
        "overall.xp_per_min"@,
        "overall.last_hits"@,
        "overall.deaths"@,
        "overall.kills"@,
        "overall.kill_participation"@,
    ];
    assert forall|a: int| 0 <= a < 7 implies recorded(m, #[trigger] ks[a]) == recorded(cs, ks[a]) by {
        assert(ks[a].len() > 0 && ks[a][0] == 'o');
        lemma_recorded_parts(rs, cs, bs, ps, ks[a], rs[0]);
        lemma_groups_apart(role, benchmarks, patterns, ks[a]);
    }
    lemma_recorded_career(career, ks[0]);
    lemma_recorded_career(career, ks[1]);
    lemma_recorded_career(career, ks[2]);
    lemma_recorded_career(career, ks[3]);
    lemma_recorded_career(career, ks[4]);
    lemma_recorded_career(career, ks[5]);
    lemma_recorded_career(career, ks[6]);
    assert(recorded(m, ks[0]) == recorded(cs, ks[0]));
    assert(recorded(m, ks[1]) == recorded(cs, ks[1]));
    assert(recorded(m, ks[2]) == recorded(cs, ks[2]));
    assert(recorded(m, ks[3]) == recorded(cs, ks[3]));
    assert(recorded(m, ks[4]) == recorded(cs, ks[4]));
    assert(recorded(m, ks[5]) == recorded(cs, ks[5]));
    assert(recorded(m, ks[6]) == recorded(cs, ks[6]));
    assert forall|e: SnapshotView<V>| #[trigger] cs.contains(e) implies m.contains(e) by {
        lemma_recorded_parts(rs, cs, bs, ps, seq![], e);
    }
    assert forall|e: SnapshotView<V>| #[trigger] rs.contains(e) implies m.contains(e) by {
        lemma_recorded_parts(rs, cs, bs, ps, seq![], e);
    }
    assert forall|e: SnapshotView<V>| #[trigger] bs.contains(e) implies m.contains(e) by {
        lemma_recorded_parts(rs, cs, bs, ps, seq![], e);
    }
    assert forall|e: SnapshotView<V>| #[trigger] ps.contains(e) implies m.contains(e) by {
        lemma_recorded_parts(rs, cs, bs, ps, seq![], e);
    }
    let kp = "role.performance"@;
    let kw = "role.win_rate"@;
    assert(kp[0] == 'r' && kw[0] == 'r');
    lemma_recorded_parts(rs, cs, bs, ps, kp, rs[0]);
    lemma_groups_apart(role, benchmarks, patterns, kp);
    lemma_recorded_career(career, kp);
    lemma_recorded_parts(rs, cs, bs, ps, kw, rs[0]);
    lemma_groups_apart(role, benchmarks, patterns, kw);
    lemma_recorded_career(career, kw);
    lemma_recorded_benchmarks(benchmarks, kp);
    lemma_recorded_benchmarks(benchmarks, seq!['x']);
    lemma_recorded_patterns(patterns, seq!['x']);
    assert forall|metric: Seq<char>|
        #![trigger recorded(m, "benchmark."@ + metric)]
        recorded(m, "benchmark."@ + metric) <==> exists|j: int|
            0 <= j < benchmarks.len() && (#[trigger] benchmarks[j]).metric@ == metric
                && benchmarks[j].percentile is Some by {
        let key = "benchmark."@ + metric;
        assert(key[0] == 'b');
        lemma_recorded_parts(rs, cs, bs, ps, key, rs[0]);
        lemma_groups_apart(role, benchmarks, patterns, key);
        lemma_recorded_career(career, key);
        lemma_recorded_benchmarks(benchmarks, key);
        assert forall|j: int| 0 <= j < benchmarks.len() implies ("benchmark."@ + (#[trigger] benchmarks[j]).metric@
            == key) == (benchmarks[j].metric@ == metric) by {
            lemma_prefix_cancels("benchmark."@, benchmarks[j].metric@, metric);
        }
    }
    assert forall|id: Seq<char>|
        #![trigger recorded(m, "pattern."@ + id)]
        recorded(m, "pattern."@ + id) <==> exists|j: int|
            0 <= j < patterns.len() && (#[trigger] patterns[j]).id@ == id by {
        let key = "pattern."@ + id;
        assert(key[0] == 'p');
        lemma_recorded_parts(rs, cs, bs, ps, key, rs[0]);
        lemma_groups_apart(role, benchmarks, patterns, key);
        lemma_recorded_career(career, key);
        lemma_recorded_patterns(patterns, key);
        assert forall|j: int| 0 <= j < patterns.len() implies ("pattern."@ + (#[trigger] patterns[j]).id@
            == key) == (patterns[j].id@ == id) by {
            lemma_prefix_cancels("pattern."@, patterns[j].id@, id);
        }
    }
}

/// The first session is always justified by any match at all, and a later
/// one never by matches the last one already read.
pub proof fn sessions_need_new_games(seen: Seq<u128>, current: Seq<u128>)
    ensures
        spec_should_create(None, current) == (current.len() > 0),
        (forall|i: int| 0 <= i < current.len() ==> seen.contains(#[trigger] current[i]))
            ==> !spec_should_create(Some(seen), current),
    decreases current.len(),
{
    if forall|i: int| 0 <= i < current.len() ==> seen.contains(#[trigger] current[i]) {
        lemma_all_seen(seen, current);
    }
}

proof fn lemma_all_seen(seen: Seq<u128>, current: Seq<u128>)
    requires
        forall|i: int| 0 <= i < current.len() ==> seen.contains(#[trigger] current[i]),
    ensures
        unseen(seen, current) == 0,
    decreases current.len(),
{
    if current.len() > 0 {
        assert forall|i: int| 0 <= i < current.drop_last().len() implies seen.contains(
            #[trigger] current.drop_last()[i],
        ) by {
            assert(current.drop_last()[i] == current[i]);
        }
        lemma_all_seen(seen, current.drop_last());
        assert(seen.contains(current[current.len() - 1]));
    }
}

} // verus!
