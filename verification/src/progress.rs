//! Comparing two coaching sessions.
//!
//! Two stored snapshots in, a judgement per metric out. What is decided
//! here is which readings face each other, whether they may be compared at
//! all, and what a reading's presence or absence means on its own; the
//! subtraction and the stability bands are applied by the caller to the
//! pairs marked comparable.

use vstd::prelude::*;

use crate::benchmarks::MIN_SAMPLE;
use crate::records::CoachableRole;
use crate::session::{MetricSnapshot, MetricUnit};
use crate::text::{chars_of, has_prefix, i64_text, owned, push_str, same_text, signed_decimal};

verus! {

/// Below this many matches behind a reading, no comparison is claimed: the
/// same floor the benchmark engine uses for "too few games to say anything".
pub const MIN_COMPARABLE_SAMPLE: i64 = MIN_SAMPLE;

/// The key prefix whose presence and absence are themselves the finding.
pub const PATTERN_PREFIX: &'static str = "pattern.";

pub const NOT_MEASURED_BEFORE: &'static str = "Not measured in the previous session.";

pub const NO_LONGER_MEASURED: &'static str = "No longer measured.";

pub const REDEFINED: &'static str = "Measured differently in the previous session.";

/// How one metric moved between two sessions.
#[derive(Debug, Clone, Copy, PartialEq, Eq, Structural)]
pub enum ProgressStatus {
    Improved,
    Declined,
    Stable,
    /// A recurring pattern that started firing.
    NewIssue,
    /// A recurring pattern that stopped firing.
    ResolvedIssue,
    InsufficientData,
}

/// One metric's two readings, judged as far as presence, definition and
/// sample decide.
#[derive(Debug, Clone, PartialEq)]
pub struct MetricComparison<V> {
    pub key: String,
    pub label: String,
    pub unit: MetricUnit,
    pub higher_is_better: bool,
    pub previous: Option<V>,
    pub current: Option<V>,
    pub previous_sample: Option<i64>,
    pub current_sample: Option<i64>,
    pub status: ProgressStatus,
    pub note: Option<String>,
    /// Both readings measure the same thing on enough matches: the change
    /// between them may be computed and classified.
    pub comparable: bool,
}

pub type ComparisonView<V> = (
    Seq<char>,
    Seq<char>,
    MetricUnit,
    bool,
    Option<V>,
    Option<V>,
    Option<i64>,
    Option<i64>,
    ProgressStatus,
    Option<Seq<char>>,
    bool,
);

pub open spec fn comparison_view<V>(c: MetricComparison<V>) -> ComparisonView<V> {
    (
        c.key@,
        c.label@,
        c.unit,
        c.higher_is_better,
        c.previous,
        c.current,
        c.previous_sample,
        c.current_sample,
        c.status,
        match c.note {
            Some(n) => Some(n@),
            None => None,
        },
        c.comparable,
    )
}

pub open spec fn is_pattern_key(key: Seq<char>) -> bool {
    PATTERN_PREFIX@.len() <= key.len() && key.take(PATTERN_PREFIX@.len() as int) == PATTERN_PREFIX@
}

pub open spec fn thin_sample_note(was: i64, now: i64) -> Seq<char> {
    "Needs "@ + signed_decimal(MIN_COMPARABLE_SAMPLE as int)
        + " matches on each side to compare; this has "@ + signed_decimal(was as int) + " and "@
        + signed_decimal(now as int) + "."@
}

/// The judgement, field by field. The identity comes from the current
/// reading where there is one: a label that was reworded reads as it does
/// now. A pattern starting or stopping is the finding itself; any other
/// metric appearing or vanishing is a gap, not an achievement. Readings of
/// a redefined metric (another unit or direction) or on too few matches are
/// not subtracted.
pub open spec fn spec_compare_metric<V>(
    previous: Option<MetricSnapshot<V>>,
    current: Option<MetricSnapshot<V>>,
) -> ComparisonView<V> {
    let id = match current {
        Some(c) => c,
        None => previous.unwrap(),
    };
    let pattern = is_pattern_key(id.key@);
    let prev_value = match previous {
        Some(p) => Some(p.value),
        None => None,
    };
    let cur_value = match current {
        Some(c) => Some(c.value),
        None => None,
    };
    let prev_sample = match previous {
        Some(p) => Some(p.sample),
        None => None,
    };
    let cur_sample = match current {
        Some(c) => Some(c.sample),
        None => None,
    };
    let (status, note, comparable): (ProgressStatus, Option<Seq<char>>, bool) = match (
        previous,
        current,
    ) {
        (None, _) => if pattern {
            (ProgressStatus::NewIssue, None, false)
        } else {
            (ProgressStatus::InsufficientData, Some(NOT_MEASURED_BEFORE@), false)
        },
        (Some(_), None) => if pattern {
            (ProgressStatus::ResolvedIssue, None, false)
        } else {
            (ProgressStatus::InsufficientData, Some(NO_LONGER_MEASURED@), false)
        },
        (Some(was), Some(now)) => if was.unit != now.unit || was.higher_is_better
            != now.higher_is_better {
            (ProgressStatus::InsufficientData, Some(REDEFINED@), false)
        } else if was.sample < MIN_COMPARABLE_SAMPLE || now.sample < MIN_COMPARABLE_SAMPLE {
            (
                ProgressStatus::InsufficientData,
                Some(thin_sample_note(was.sample, now.sample)),
                false,
            )
        } else {
            (ProgressStatus::InsufficientData, None, true)
        },
    };
    (
        id.key@,
        id.label@,
        id.unit,
        id.higher_is_better,
        prev_value,
        cur_value,
        prev_sample,
        cur_sample,
        status,
        note,
        comparable,
    )
}

pub open spec fn opt_snapshot<V>(o: Option<&MetricSnapshot<V>>) -> Option<MetricSnapshot<V>> {
    match o {
        Some(m) => Some(*m),
        None => None,
    }
}

fn is_pattern(key: &str) -> (b: bool)
    ensures
        b == is_pattern_key(key@),
{
    let k = chars_of(key);
    let p = chars_of(PATTERN_PREFIX);
    has_prefix(&k, &p)
}

fn sample_note(was: i64, now: i64) -> (s: String)
    ensures
        s@ == thin_sample_note(was, now),
{
    let mut s = owned("Needs ");
    let n = i64_text(MIN_COMPARABLE_SAMPLE);
    push_str(&mut s, n.as_str());
    push_str(&mut s, " matches on each side to compare; this has ");
    let a = i64_text(was);
    push_str(&mut s, a.as_str());
    push_str(&mut s, " and ");
    let b = i64_text(now);
    push_str(&mut s, b.as_str());
    push_str(&mut s, ".");
    s
}

/// One metric's two readings, judged. At least one reading is there.
pub fn compare_metric<V: Copy>(
    previous: Option<&MetricSnapshot<V>>,
    current: Option<&MetricSnapshot<V>>,
) -> (out: MetricComparison<V>)
    requires
        previous is Some || current is Some,
    ensures
        comparison_view(out) == spec_compare_metric(opt_snapshot(previous), opt_snapshot(current)),
{
    let id = match current {
        Some(c) => c,
        None => previous.unwrap(),
    };
    let pattern = is_pattern(id.key.as_str());
    let (status, note, comparable) = match (previous, current) {
        (None, _) => if pattern {
            (ProgressStatus::NewIssue, None, false)
        } else {
            (ProgressStatus::InsufficientData, Some(owned(NOT_MEASURED_BEFORE)), false)
        },
        (Some(_), None) => if pattern {
            (ProgressStatus::ResolvedIssue, None, false)
        } else {
            (ProgressStatus::InsufficientData, Some(owned(NO_LONGER_MEASURED)), false)
        },
        (Some(was), Some(now)) => if was.unit != now.unit || was.higher_is_better
            != now.higher_is_better {
            (ProgressStatus::InsufficientData, Some(owned(REDEFINED)), false)
        } else if was.sample < MIN_COMPARABLE_SAMPLE || now.sample < MIN_COMPARABLE_SAMPLE {
            (ProgressStatus::InsufficientData, Some(sample_note(was.sample, now.sample)), false)
        } else {
            (ProgressStatus::InsufficientData, None, true)
        },
    };
    MetricComparison {
        key: id.key.clone(),
        label: id.label.clone(),
        unit: id.unit,
        higher_is_better: id.higher_is_better,
        previous: match previous {
            Some(p) => Some(p.value),
            None => None,
        },
        current: match current {
            Some(c) => Some(c.value),
            None => None,
        },
        previous_sample: match previous {
            Some(p) => Some(p.sample),
            None => None,
        },
        current_sample: match current {
            Some(c) => Some(c.sample),
            None => None,
        },
        status,
        note,
        comparable,
    }
}

/// The last reading under `key`: when one session holds a key twice, the
/// later entry is the one looked up.
pub open spec fn last_with_key<V>(s: Seq<MetricSnapshot<V>>, key: Seq<char>) -> Option<MetricSnapshot<V>>
    decreases s.len(),
{
    if s.len() == 0 {
        None
    } else if s.last().key@ == key {
        Some(s.last())
    } else {
        last_with_key(s.drop_last(), key)
    }
}

pub open spec fn has_key<V>(s: Seq<MetricSnapshot<V>>, key: Seq<char>) -> bool {
    exists|i: int| 0 <= i < s.len() && (#[trigger] s[i]).key@ == key
}

/// Every reading of the earlier session whose metric the later one no
/// longer has, judged on its own, in the earlier session's order.
pub open spec fn vanished<V>(previous: Seq<MetricSnapshot<V>>, current: Seq<MetricSnapshot<V>>) -> Seq<
    ComparisonView<V>,
>
    decreases previous.len(),
{
    if previous.len() == 0 {
        seq![]
    } else {
        vanished(previous.drop_last(), current) + if has_key(current, previous.last().key@) {
            seq![]
        } else {
            seq![spec_compare_metric(Some(previous.last()), None)]
        }
    }
}

/// Compare two sessions, `previous` the earlier. The current session's
/// order comes first, so the list reads the way its snapshot does; a metric
/// only the earlier session had is appended rather than dropped, because a
/// metric that disappeared is a finding.
pub open spec fn spec_compare<V>(previous: Seq<MetricSnapshot<V>>, current: Seq<MetricSnapshot<V>>) -> Seq<
    ComparisonView<V>,
> {
    current.map_values(
        |now: MetricSnapshot<V>| spec_compare_metric(last_with_key(previous, now.key@), Some(now)),
    ) + vanished(previous, current)
}

pub open spec fn comparison_views<V>(s: Seq<MetricComparison<V>>) -> Seq<ComparisonView<V>> {
    s.map_values(|c: MetricComparison<V>| comparison_view(c))
}

fn find_last<'a, V>(s: &'a [MetricSnapshot<V>], key: &str) -> (r: Option<&'a MetricSnapshot<V>>)
    ensures
        opt_snapshot(r) == last_with_key(s@, key@),
{
    let mut i: usize = s.len();
    proof {
        assert(s@.take(s@.len() as int) =~= s@);
    }
    while i > 0
        invariant
            i <= s@.len(),
            last_with_key(s@, key@) == last_with_key(s@.take(i as int), key@),
        decreases i,
    {
        proof {
            assert(s@.take(i as int).drop_last() =~= s@.take(i - 1));
        }
        if same_text(s[i - 1].key.as_str(), key) {
            return Some(&s[i - 1]);
        }
        i = i - 1;
    }
    proof {
        assert(s@.take(0) =~= Seq::<MetricSnapshot<V>>::empty());
    }
    None
}

fn contains_key<V>(s: &[MetricSnapshot<V>], key: &str) -> (b: bool)
    ensures
        b == has_key(s@, key@),
{
    let mut i: usize = 0;
    while i < s.len()
        invariant
            i <= s@.len(),
            forall|k: int| 0 <= k < i ==> (#[trigger] s@[k]).key@ != key@,
        decreases s@.len() - i,
    {
        if same_text(s[i].key.as_str(), key) {
            return true;
        }
        i = i + 1;
    }
    false
}

/// Compare two sessions' metrics, `previous` the earlier session's: the
/// current session's in its order, then those only the earlier one had.
pub fn compare_metrics<V: Copy>(previous: &[MetricSnapshot<V>], current: &[MetricSnapshot<V>]) -> (out: Vec<
    MetricComparison<V>,
>)
    ensures
        comparison_views(out@) == spec_compare(previous@, current@),
{
    let mut out: Vec<MetricComparison<V>> = Vec::new();
    let mut i: usize = 0;
    while i < current.len()
        invariant
            i <= current@.len(),
            comparison_views(out@) == current@.take(i as int).map_values(
                |now: MetricSnapshot<V>|
                    spec_compare_metric(last_with_key(previous@, now.key@), Some(now)),
            ),
        decreases current@.len() - i,
    {
        let now = &current[i];
        let was = find_last(previous, now.key.as_str());
        let c = compare_metric(was, Some(now));
        let ghost before = out@;
        out.push(c);
        proof {
            assert(comparison_views(out@) =~= comparison_views(before).push(comparison_view(c)));
            assert(current@.take(i + 1).map_values(
                |now: MetricSnapshot<V>|
                    spec_compare_metric(last_with_key(previous@, now.key@), Some(now)),
            ) =~= current@.take(i as int).map_values(
                |now: MetricSnapshot<V>|
                    spec_compare_metric(last_with_key(previous@, now.key@), Some(now)),
            ).push(spec_compare_metric(last_with_key(previous@, now.key@), Some(*now))));
        }
        i = i + 1;
    }
    proof {
        assert(current@.take(current@.len() as int) =~= current@);
    }
    let ghost head = comparison_views(out@);
    let mut j: usize = 0;
    while j < previous.len()
        invariant
            j <= previous@.len(),
            comparison_views(out@) == head + vanished(previous@.take(j as int), current@),
        decreases previous@.len() - j,
    {
        let was = &previous[j];
        let ghost before = comparison_views(out@);
        proof {
            assert(previous@.take(j + 1).drop_last() =~= previous@.take(j as int));
        }
        if !contains_key(current, was.key.as_str()) {
            let c = compare_metric(Some(was), None);
            let ghost prior = out@;
            out.push(c);
            proof {
                assert(comparison_views(out@) =~= comparison_views(prior).push(comparison_view(c)));
            }
        }
        proof {
            assert(comparison_views(out@) =~= head + vanished(previous@.take(j + 1), current@));
        }
        j = j + 1;
    }
    proof {
        assert(previous@.take(previous@.len() as int) =~= previous@);
    }
    out
}

/// A recurring pattern that started showing up outranks any amount of
/// improvement as the thing to lead with.
///
/// The headline when a pattern has started firing: the first such metric,
/// by name. `None` when no pattern started, and the largest movement leads
/// instead.
pub fn new_issue_headline<V>(metrics: &[MetricComparison<V>]) -> (h: Option<String>)
    ensures
        match h {
            Some(s) => exists|i: int|
                0 <= i < metrics@.len() && (#[trigger] metrics@[i]).status == ProgressStatus::NewIssue
                    && (forall|k: int| 0 <= k < i ==> metrics@[k].status != ProgressStatus::NewIssue)
                    && s@ == metrics@[i].label@ + " has started showing up."@,
            None => forall|i: int|
                0 <= i < metrics@.len() ==> (#[trigger] metrics@[i]).status != ProgressStatus::NewIssue,
        },
{
    let mut i: usize = 0;
    while i < metrics.len()
        invariant
            i <= metrics@.len(),
            forall|k: int| 0 <= k < i ==> (#[trigger] metrics@[k]).status != ProgressStatus::NewIssue,
        decreases metrics@.len() - i,
    {
        if metrics[i].status == ProgressStatus::NewIssue {
            let mut s = metrics[i].label.clone();
            push_str(&mut s, " has started showing up.");
            return Some(s);
        }
        i = i + 1;
    }
    None
}

// ---------------------------------------------------------------------------
// Series across sessions
// ---------------------------------------------------------------------------

/// A stored session, as far as its history is read here.
#[derive(Debug, Clone, PartialEq)]
pub struct CoachingSession<V> {
    pub id: u128,
    /// The role the session coached, and its name on screen.
    pub role: CoachableRole,
    pub role_label: &'static str,
    pub sequence: i32,
    /// Unix seconds.
    pub created_at: i64,
    pub metrics: Vec<MetricSnapshot<V>>,
}

#[derive(Debug, Clone, PartialEq)]
pub struct SeriesPoint<V> {
    pub session_id: u128,
    pub sequence: i32,
    pub at: i64,
    pub value: V,
}

/// One metric's readings across a run of sessions, oldest first.
#[derive(Debug, Clone, PartialEq)]
pub struct MetricSeries<V> {
    pub key: String,
    pub label: String,
    pub unit: MetricUnit,
    pub higher_is_better: bool,
    pub points: Vec<SeriesPoint<V>>,
}

/// A session's reading under `key`: its first metric with that key.
pub open spec fn first_with_key<V>(s: Seq<MetricSnapshot<V>>, key: Seq<char>) -> Option<MetricSnapshot<V>>
    decreases s.len(),
{
    if s.len() == 0 {
        None
    } else if s[0].key@ == key {
        Some(s[0])
    } else {
        first_with_key(s.drop_first(), key)
    }
}

pub type PointView<V> = (u128, i32, i64, V);

/// The readings under `key`, oldest session first, from sessions given
/// newest first. A session without the metric contributes no point rather
/// than a zero: a gap in a line is honest, a zero is a lie shaped like data.
pub open spec fn points_of<V>(sessions: Seq<CoachingSession<V>>, key: Seq<char>) -> Seq<PointView<V>>
    decreases sessions.len(),
{
    if sessions.len() == 0 {
        seq![]
    } else {
        points_of(sessions.drop_first(), key) + match first_with_key(sessions[0].metrics@, key) {
            Some(m) => seq![(sessions[0].id, sessions[0].sequence, sessions[0].created_at, m.value)],
            None => seq![],
        }
    }
}

/// The oldest reading under `key`, whose label, unit and direction name the
/// series.
pub open spec fn oldest_reading<V>(sessions: Seq<CoachingSession<V>>, key: Seq<char>) -> Option<
    MetricSnapshot<V>,
>
    decreases sessions.len(),
{
    if sessions.len() == 0 {
        None
    } else {
        match first_with_key(sessions.last().metrics@, key) {
            Some(m) => Some(m),
            None => oldest_reading(sessions.drop_last(), key),
        }
    }
}

pub open spec fn point_views<V>(p: Seq<SeriesPoint<V>>) -> Seq<PointView<V>> {
    p.map_values(|q: SeriesPoint<V>| (q.session_id, q.sequence, q.at, q.value))
}

pub open spec fn series_matches<V>(
    r: Option<MetricSeries<V>>,
    sessions: Seq<CoachingSession<V>>,
    key: Seq<char>,
) -> bool {
    match oldest_reading(sessions, key) {
        None => r is None,
        Some(m) => r matches Some(s) && s.key@ == key && s.label@ == m.label@ && s.unit == m.unit
            && s.higher_is_better == m.higher_is_better && point_views(s.points@) == points_of(
            sessions,
            key,
        ),
    }
}

fn find_first<'a, V>(s: &'a [MetricSnapshot<V>], key: &str) -> (r: Option<&'a MetricSnapshot<V>>)
    ensures
        opt_snapshot(r) == first_with_key(s@, key@),
{
    let mut i: usize = 0;
    proof {
        assert(s@.skip(0) =~= s@);
    }
    while i < s.len()
        invariant
            i <= s@.len(),
            first_with_key(s@, key@) == first_with_key(s@.skip(i as int), key@),
        decreases s@.len() - i,
    {
        proof {
            assert(s@.skip(i as int).drop_first() =~= s@.skip(i + 1));
        }
        if same_text(s[i].key.as_str(), key) {
            return Some(&s[i]);
        }
        i = i + 1;
    }
    None
}

proof fn lemma_points_step<V>(sessions: Seq<CoachingSession<V>>, key: Seq<char>, i: int)
    requires
        0 <= i < sessions.len(),
    ensures
        points_of(sessions.skip(i), key) == points_of(sessions.skip(i + 1), key) + match first_with_key(
            sessions[i].metrics@,
            key,
        ) {
            Some(m) => seq![(sessions[i].id, sessions[i].sequence, sessions[i].created_at, m.value)],
            None => Seq::<PointView<V>>::empty(),
        },
{
    assert(sessions.skip(i).drop_first() =~= sessions.skip(i + 1));
}

proof fn lemma_oldest_step<V>(sessions: Seq<CoachingSession<V>>, key: Seq<char>, i: int)
    requires
        0 <= i < sessions.len(),
    ensures
        oldest_reading(sessions.take(i + 1), key) == match first_with_key(sessions[i].metrics@, key) {
            Some(m) => Some(m),
            None => oldest_reading(sessions.take(i), key),
        },
{
    assert(sessions.take(i + 1).drop_last() =~= sessions.take(i));
}

/// One metric's readings across a run of sessions given newest first, or
/// `None` when no session recorded it.
pub fn series<V: Copy>(sessions: &[CoachingSession<V>], key: &str) -> (r: Option<MetricSeries<V>>)
    ensures
        series_matches(r, sessions@, key@),
{
    let mut identity: Option<&MetricSnapshot<V>> = None;
    let mut points: Vec<SeriesPoint<V>> = Vec::new();
    let mut i: usize = sessions.len();
    proof {
        assert(sessions@.skip(sessions@.len() as int) =~= Seq::<CoachingSession<V>>::empty());
        assert(sessions@.take(sessions@.len() as int) =~= sessions@);
    }
    while i > 0
        invariant
            i <= sessions@.len(),
            point_views(points@) == points_of(sessions@.skip(i as int), key@),
            match identity {
                None => oldest_reading(sessions@, key@) == oldest_reading(
                    sessions@.take(i as int),
                    key@,
                ),
                Some(m) => oldest_reading(sessions@, key@) == Some(*m),
            },
        decreases i,
    {
        let s = &sessions[i - 1];
        proof {
            lemma_points_step(sessions@, key@, i - 1);
            lemma_oldest_step(sessions@, key@, i - 1);
        }
        match find_first(s.metrics.as_slice(), key) {
            Some(m) => {
                if identity.is_none() {
                    identity = Some(m);
                }
                let ghost before = points@;
                points.push(SeriesPoint { session_id: s.id, sequence: s.sequence, at: s.created_at, value: m.value });
                proof {
                    assert(point_views(points@) =~= point_views(before).push(
                        (s.id, s.sequence, s.created_at, m.value),
                    ));
                }
            },
            None => {
                proof {
                    assert(point_views(points@) =~= point_views(points@) + Seq::<PointView<V>>::empty());
                }
            },
        }
        i = i - 1;
    }
    proof {
        assert(sessions@.skip(0) =~= sessions@);
        assert(sessions@.take(0) =~= Seq::<CoachingSession<V>>::empty());
    }
    match identity {
        None => None,
        Some(m) => Some(
            MetricSeries {
                key: owned(key),
                label: m.label.clone(),
                unit: m.unit,
                higher_is_better: m.higher_is_better,
                points,
            },
        ),
    }
}

pub open spec fn metric_keys<V>(m: Seq<MetricSnapshot<V>>) -> Seq<Seq<char>> {
    m.map_values(|x: MetricSnapshot<V>| x.key@)
}

/// Every key the sessions record, session by session, in order.
pub open spec fn keys_of<V>(sessions: Seq<CoachingSession<V>>) -> Seq<Seq<char>>
    decreases sessions.len(),
{
    if sessions.len() == 0 {
        seq![]
    } else {
        keys_of(sessions.drop_last()) + metric_keys(sessions.last().metrics@)
    }
}

/// `s` with every repeat removed, each key where it first appears.
pub open spec fn distinct(s: Seq<Seq<char>>) -> Seq<Seq<char>>
    decreases s.len(),
{
    if s.len() == 0 {
        seq![]
    } else {
        let d = distinct(s.drop_last());
        if d.contains(s.last()) {
            d
        } else {
            d.push(s.last())
        }
    }
}

proof fn lemma_first_with_key_found<V>(m: Seq<MetricSnapshot<V>>, key: Seq<char>)
    requires
        metric_keys(m).contains(key),
    ensures
        first_with_key(m, key) is Some,
    decreases m.len(),
{
    if m[0].key@ != key {
        let i = choose|i: int| 0 <= i < metric_keys(m).len() && metric_keys(m)[i] == key;
        assert(metric_keys(m.drop_first())[i - 1] == key);
        lemma_first_with_key_found(m.drop_first(), key);
    }
}

proof fn lemma_recorded_key_has_reading<V>(sessions: Seq<CoachingSession<V>>, key: Seq<char>)
    requires
        keys_of(sessions).contains(key),
    ensures
        oldest_reading(sessions, key) is Some,
    decreases sessions.len(),
{
    let rest = keys_of(sessions.drop_last());
    let last = metric_keys(sessions.last().metrics@);
    let i = choose|i: int| 0 <= i < keys_of(sessions).len() && keys_of(sessions)[i] == key;
    if i < rest.len() {
        assert(rest[i] == key);
        if first_with_key(sessions.last().metrics@, key) is None {
            lemma_recorded_key_has_reading(sessions.drop_last(), key);
        }
    } else {
        assert(last[i - rest.len()] == key);
        lemma_first_with_key_found(sessions.last().metrics@, key);
    }
}

proof fn lemma_distinct_from(s: Seq<Seq<char>>, k: Seq<char>)
    requires
        distinct(s).contains(k),
    ensures
        s.contains(k),
    decreases s.len(),
{
    let d = distinct(s.drop_last());
    if d.contains(k) {
        lemma_distinct_from(s.drop_last(), k);
        let i = choose|i: int| 0 <= i < s.drop_last().len() && s.drop_last()[i] == k;
        assert(s[i] == k);
    } else {
        assert(k == s.last());
        assert(s[s.len() - 1] == k);
    }
}

fn seq_contains_text(v: &Vec<String>, k: &str) -> (b: bool)
    ensures
        b == v@.map_values(|x: String| x@).contains(k@),
{
    let mut i: usize = 0;
    while i < v.len()
        invariant
            i <= v@.len(),
            forall|j: int| 0 <= j < i ==> v@[j]@ != k@,
        decreases v@.len() - i,
    {
        if same_text(v[i].as_str(), k) {
            assert(v@.map_values(|x: String| x@)[i as int] == k@);
            return true;
        }
        i = i + 1;
    }
    proof {
        let views = v@.map_values(|x: String| x@);
        assert forall|j: int| 0 <= j < views.len() implies #[trigger] views[j] != k@ by {
            assert(views[j] == v@[j]@);
        }
    }
    false
}

/// Every metric any of these sessions recorded, as a series each, ordered
/// by where each key first appears in the sessions given (newest first), so
/// the list reads the way the current snapshot does.
pub fn all_series<V: Copy>(sessions: &[CoachingSession<V>]) -> (out: Vec<MetricSeries<V>>)
    ensures
        out@.len() == distinct(keys_of(sessions@)).len(),
        forall|i: int|
            0 <= i < out@.len() ==> series_matches(
                Some(#[trigger] out@[i]),
                sessions@,
                distinct(keys_of(sessions@))[i],
            ),
{
    let mut seen: Vec<String> = Vec::new();
    let mut i: usize = 0;
    while i < sessions.len()
        invariant
            i <= sessions@.len(),
            seen@.map_values(|x: String| x@) == distinct(keys_of(sessions@.take(i as int))),
        decreases sessions@.len() - i,
    {
        let ms = &sessions[i].metrics;
        let ghost before = keys_of(sessions@.take(i as int));
        proof {
            assert(sessions@.take(i + 1).drop_last() =~= sessions@.take(i as int));
            assert(keys_of(sessions@.take(i + 1)) == before + metric_keys(ms@));
        }
        let mut j: usize = 0;
        while j < ms.len()
            invariant
                j <= ms@.len(),
                seen@.map_values(|x: String| x@) == distinct(before + metric_keys(ms@).take(j as int)),
            decreases ms@.len() - j,
        {
            let k = ms[j].key.as_str();
            proof {
                assert((before + metric_keys(ms@).take(j + 1)).drop_last() =~= before + metric_keys(
                    ms@,
                ).take(j as int));
                assert((before + metric_keys(ms@).take(j + 1)).last() == k@);
            }
            if !seq_contains_text(&seen, k) {
                let ghost prior = seen@;
                seen.push(owned(k));
                proof {
                    assert(seen@.map_values(|x: String| x@) =~= prior.map_values(|x: String| x@).push(k@));
                }
            }
            j = j + 1;
        }
        proof {
            assert(metric_keys(ms@).take(ms@.len() as int) =~= metric_keys(ms@));
        }
        i = i + 1;
    }
    proof {
        assert(sessions@.take(sessions@.len() as int) =~= sessions@);
    }
    let ghost keys = distinct(keys_of(sessions@));
    let mut out: Vec<MetricSeries<V>> = Vec::new();
    let mut k: usize = 0;
    while k < seen.len()
        invariant
            k <= seen@.len(),
            seen@.map_values(|x: String| x@) == keys,
            keys == distinct(keys_of(sessions@)),
            out@.len() == k,
            forall|i: int| 0 <= i < k ==> series_matches(Some(#[trigger] out@[i]), sessions@, keys[i]),
        decreases seen@.len() - k,
    {
        let key = seen[k].as_str();
        proof {
            assert(keys[k as int] == key@);
            assert(keys.contains(key@));
            lemma_distinct_from(keys_of(sessions@), key@);
            lemma_recorded_key_has_reading(sessions@, key@);
        }
        match series(sessions, key) {
            Some(s) => {
                out.push(s);
            },
            None => {
                proof {
                    assert(false);
                }
            },
        }
        k = k + 1;
    }
    out
}

/// The keys of a comparison, in its order.
pub open spec fn compared_keys<V>(c: Seq<ComparisonView<V>>) -> Seq<Seq<char>> {
    c.map_values(|v: ComparisonView<V>| v.0)
}

proof fn lemma_vanished_keys<V>(previous: Seq<MetricSnapshot<V>>, current: Seq<MetricSnapshot<V>>)
    ensures
        compared_keys(vanished(previous, current)) == metric_keys(
            previous.filter(|m: MetricSnapshot<V>| !has_key(current, m.key@)),
        ),
    decreases previous.len(),
{
    let pred = |m: MetricSnapshot<V>| !has_key(current, m.key@);
    reveal(Seq::filter);
    if previous.len() > 0 {
        lemma_vanished_keys(previous.drop_last(), current);
        let rest = previous.drop_last().filter(pred);
        assert(previous.filter(pred) == if pred(previous.last()) {
            rest.push(previous.last())
        } else {
            rest
        });
        if pred(previous.last()) {
            assert(metric_keys(rest.push(previous.last())) =~= metric_keys(rest).push(
                previous.last().key@,
            ));
            assert(compared_keys(vanished(previous, current)) =~= compared_keys(
                vanished(previous.drop_last(), current),
            ).push(previous.last().key@));
        } else {
            assert(compared_keys(vanished(previous, current)) =~= compared_keys(
                vanished(previous.drop_last(), current),
            ));
        }
    } else {
        assert(compared_keys(vanished(previous, current)) =~= Seq::<Seq<char>>::empty());
        assert(metric_keys(previous.filter(pred)) =~= Seq::<Seq<char>>::empty());
    }
}

/// A comparison lists the later session's metrics first, in its order, and
/// then every metric of the earlier session that the later one no longer
/// has, in the earlier session's order: nothing is dropped, and nothing is
/// listed that neither session recorded.
pub proof fn comparison_keeps_both_sessions_keys<V>(
    previous: Seq<MetricSnapshot<V>>,
    current: Seq<MetricSnapshot<V>>,
)
    ensures
        compared_keys(spec_compare(previous, current)) == metric_keys(current) + metric_keys(
            previous.filter(|m: MetricSnapshot<V>| !has_key(current, m.key@)),
        ),
{
    lemma_vanished_keys(previous, current);
    let head = current.map_values(
        |now: MetricSnapshot<V>| spec_compare_metric(last_with_key(previous, now.key@), Some(now)),
    );
    assert(compared_keys(head) =~= metric_keys(current));
    assert(compared_keys(spec_compare(previous, current)) =~= compared_keys(head) + compared_keys(
        vanished(previous, current),
    ));
}

/// Two sessions compared: which sessions and role, every metric judged as far
/// as presence, definition and sample decide, the `role.performance` entry
/// pulled out, and the headline.
#[derive(Debug, Clone, PartialEq)]
pub struct SessionProgress<V> {
    pub role: CoachableRole,
    pub role_label: &'static str,
    pub previous_session_id: u128,
    pub previous_sequence: i32,
    /// Unix seconds.
    pub previous_at: i64,
    pub current_session_id: u128,
    pub current_sequence: i32,
    pub current_at: i64,
    pub headline: Option<String>,
    pub performance: Option<MetricComparison<V>>,
    pub metrics: Vec<MetricComparison<V>>,
}

/// The key of the role's overall score.
pub const PERFORMANCE_KEY: &'static str = "role.performance";

/// The first comparison under `key`, if any.
pub open spec fn first_comparison<V>(c: Seq<ComparisonView<V>>, key: Seq<char>) -> Option<ComparisonView<V>>
    decreases c.len(),
{
    if c.len() == 0 {
        None
    } else if c[0].0 == key {
        Some(c[0])
    } else {
        first_comparison(c.drop_first(), key)
    }
}

pub open spec fn opt_comparison<V>(c: Option<MetricComparison<V>>) -> Option<ComparisonView<V>> {
    match c {
        Some(m) => Some(comparison_view(m)),
        None => None,
    }
}

pub open spec fn opt_chars(s: Option<String>) -> Option<Seq<char>> {
    match s {
        Some(t) => Some(t@),
        None => None,
    }
}

fn copy_comparison<V: Copy>(c: &MetricComparison<V>) -> (out: MetricComparison<V>)
    ensures
        comparison_view(out) == comparison_view(*c),
{
    let note = match &c.note {
        Some(n) => Some(n.clone()),
        None => None,
    };
    MetricComparison {
        key: c.key.clone(),
        label: c.label.clone(),
        unit: c.unit,
        higher_is_better: c.higher_is_better,
        previous: c.previous,
        current: c.current,
        previous_sample: c.previous_sample,
        current_sample: c.current_sample,
        status: c.status,
        note,
        comparable: c.comparable,
    }
}

fn find_performance<V: Copy>(metrics: &Vec<MetricComparison<V>>) -> (r: Option<MetricComparison<V>>)
    ensures
        opt_comparison(r) == first_comparison(comparison_views(metrics@), PERFORMANCE_KEY@),
{
    let ghost views = comparison_views(metrics@);
    let mut i: usize = 0;
    proof {
        assert(views.skip(0) =~= views);
    }
    while i < metrics.len()
        invariant
            i <= metrics@.len(),
            views == comparison_views(metrics@),
            first_comparison(views, PERFORMANCE_KEY@) == first_comparison(views.skip(i as int), PERFORMANCE_KEY@),
        decreases metrics@.len() - i,
    {
        proof {
            assert(views.skip(i as int)[0] == views[i as int]);
            assert(views.skip(i as int).drop_first() =~= views.skip(i + 1));
        }
        if same_text(metrics[i].key.as_str(), PERFORMANCE_KEY) {
            return Some(copy_comparison(&metrics[i]));
        }
        i = i + 1;
    }
    proof {
        assert(views.skip(i as int) =~= Seq::<ComparisonView<V>>::empty());
    }
    None
}

/// The headline a pattern that started showing up gives: the first such
/// metric, by name.
pub open spec fn first_new_issue<V>(c: Seq<ComparisonView<V>>) -> Option<Seq<char>>
    decreases c.len(),
{
    if c.len() == 0 {
        None
    } else if c[0].8 == ProgressStatus::NewIssue {
        Some(c[0].1 + " has started showing up."@)
    } else {
        first_new_issue(c.drop_first())
    }
}

fn find_new_issue<V>(metrics: &Vec<MetricComparison<V>>) -> (r: Option<String>)
    ensures
        opt_chars(r) == first_new_issue(comparison_views(metrics@)),
{
    let ghost views = comparison_views(metrics@);
    let mut i: usize = 0;
    proof {
        assert(views.skip(0) =~= views);
    }
    while i < metrics.len()
        invariant
            i <= metrics@.len(),
            views == comparison_views(metrics@),
            first_new_issue(views) == first_new_issue(views.skip(i as int)),
        decreases metrics@.len() - i,
    {
        proof {
            assert(views.skip(i as int)[0] == views[i as int]);
            assert(views.skip(i as int).drop_first() =~= views.skip(i + 1));
        }
        if metrics[i].status == ProgressStatus::NewIssue {
            let mut s = metrics[i].label.clone();
            push_str(&mut s, " has started showing up.");
            return Some(s);
        }
        i = i + 1;
    }
    proof {
        assert(views.skip(i as int) =~= Seq::<ComparisonView<V>>::empty());
    }
    None
}

/// Compare two sessions, `previous` the earlier. The metrics are those of
/// [`compare_metrics`]; the performance entry is the first under
/// [`PERFORMANCE_KEY`]. A pattern that started showing up leads the
/// headline; otherwise it is `movement`, the largest measured change, which
/// the caller weighs on the metrics' own scales.
pub fn compare<V: Copy>(
    previous: &CoachingSession<V>,
    current: &CoachingSession<V>,
    movement: Option<String>,
) -> (p: SessionProgress<V>)
    ensures
        comparison_views(p.metrics@) == spec_compare(previous.metrics@, current.metrics@),
        opt_comparison(p.performance) == first_comparison(
            spec_compare(previous.metrics@, current.metrics@),
            PERFORMANCE_KEY@,
        ),
        opt_chars(p.headline) == match first_new_issue(spec_compare(previous.metrics@, current.metrics@)) {
            Some(h) => Some(h),
            None => opt_chars(movement),
        },
        p.role == current.role,
        p.role_label == current.role_label,
        p.previous_session_id == previous.id,
        p.previous_sequence == previous.sequence,
        p.previous_at == previous.created_at,
        p.current_session_id == current.id,
        p.current_sequence == current.sequence,
        p.current_at == current.created_at,
{
    let metrics = compare_metrics(previous.metrics.as_slice(), current.metrics.as_slice());
    let performance = find_performance(&metrics);
    let issue = find_new_issue(&metrics);
    let headline = match issue {
        Some(h) => Some(h),
        None => movement,
    };
    SessionProgress {
        role: current.role,
        role_label: current.role_label,
        previous_session_id: previous.id,
        previous_sequence: previous.sequence,
        previous_at: previous.created_at,
        current_session_id: current.id,
        current_sequence: current.sequence,
        current_at: current.created_at,
        headline,
        performance,
        metrics,
    }
}

/// Two readings are only ever compared when both exist, measure the same
/// thing the same way, and rest on enough matches each.
pub proof fn comparisons_need_like_readings<V>(
    previous: Option<MetricSnapshot<V>>,
    current: Option<MetricSnapshot<V>>,
)
    requires
        previous is Some || current is Some,
    ensures
        spec_compare_metric(previous, current).10 ==> (previous matches Some(was) && current matches Some(
            now,
        ) && was.unit == now.unit && was.higher_is_better == now.higher_is_better && was.sample
            >= MIN_COMPARABLE_SAMPLE && now.sample >= MIN_COMPARABLE_SAMPLE),
        spec_compare_metric(previous, current).10 ==> spec_compare_metric(previous, current).8
            == ProgressStatus::InsufficientData,
{
}

/// A pattern that started firing is a new issue and one that stopped is
/// resolved; any other metric appearing or vanishing is a gap, never an
/// achievement.
pub proof fn presence_alone_judges_only_patterns<V>(m: MetricSnapshot<V>)
    ensures
        spec_compare_metric(None, Some(m)).8 == (if is_pattern_key(m.key@) {
            ProgressStatus::NewIssue
        } else {
            ProgressStatus::InsufficientData
        }),
        spec_compare_metric(Some(m), None).8 == (if is_pattern_key(m.key@) {
            ProgressStatus::ResolvedIssue
        } else {
            ProgressStatus::InsufficientData
        }),
{
}

} // verus!
