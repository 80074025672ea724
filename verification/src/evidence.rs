//! Composing the measured half of a coaching analysis.
//!
//! Every sentence here is built from numbers the backend already computed:
//! career aggregates, the benchmark engine, the hero pool, detected patterns.
//! None is recomputed from raw match rows. The model receives these sentences
//! and may cite them by id; it never receives the underlying payloads.
//!
//! Fractional figures arrive already rendered, each with the precision its
//! sentence states (a KDA to two places, a death rate to one, gold per minute
//! and shares as whole numbers), so the text a model is shown is fixed by
//! what is passed in. Whole counts are written out here.

use vstd::prelude::*;

use crate::benchmarks::{confidence_for, spec_confidence_for, Confidence};
use crate::coaching::{Evidence, EvidenceKind};
use crate::patterns::{PatternStatus, RecurringPattern};
use crate::records::Match;
use crate::text::{decimal, i64_text, lowercase, owned, push_str, signed_decimal, to_lowercase, u64_text};

verus! {

/// How many heroes from the pool reach the prompt. The cap is about signal,
/// not tokens: a coach who names twelve heroes has not made a point.
pub const MAX_POOL_EVIDENCE: usize = 3;

pub const MAX_FIT_EVIDENCE: usize = 2;

pub const MAX_PATTERN_EVIDENCE: usize = 4;

/// Matches counted as "recent form".
pub const FORM_WINDOW: usize = 10;

/// The player's career aggregates as the evidence states them.
#[derive(Debug, Clone, PartialEq)]
pub struct CareerFigures {
    pub matches: i64,
    pub wins: i64,
    pub losses: i64,
    /// The win rate as a whole percentage ("55%"), or "an unknown share".
    pub win_rate: String,
    /// To two decimal places.
    pub avg_kda: Option<String>,
    /// Whole numbers.
    pub avg_gpm: Option<String>,
    pub avg_xpm: Option<String>,
    /// To one decimal place.
    pub avg_deaths_per_10: Option<String>,
    /// A whole percentage.
    pub avg_kill_participation: Option<String>,
    /// The matches kill participation could be measured in.
    pub kill_participation_sample: i64,
}

/// The measured figures of the match under discussion.
#[derive(Debug, Clone, PartialEq)]
pub struct MatchFigures {
    /// Its length in whole minutes, at least one.
    pub minutes: String,
    /// To two decimal places; present when the match was measured.
    pub kda: Option<String>,
    /// To one decimal place; present when the match was measured.
    pub deaths_per_10: Option<String>,
    /// A whole percentage.
    pub kill_participation: Option<String>,
    /// The provider's own reading, a whole percentage.
    pub teamfight_participation: Option<String>,
}

/// One benchmark result for the benchmarked hero.
#[derive(Debug, Clone, PartialEq)]
pub struct BenchmarkFigures {
    /// The metric's stored name, such as `gold_per_min`.
    pub metric: String,
    pub label: String,
    /// To one decimal place.
    pub player_value: String,
    pub player_sample: i64,
    /// To one decimal place.
    pub peer_median: Option<String>,
    /// To one decimal place.
    pub top_20_value: Option<String>,
    /// A whole number; absent where the sample was too thin to claim one.
    pub percentile: Option<String>,
    pub confidence: Confidence,
    /// Why a percentile was withheld.
    pub note: Option<String>,
}

/// One hero of the player's pool, most-played first.
#[derive(Debug, Clone, PartialEq)]
pub struct PoolFigures {
    pub hero_id: i32,
    pub hero_name: String,
    pub matches: i64,
    pub wins: i64,
    pub losses: i64,
    /// A whole percentage.
    pub win_rate: String,
    pub recent_matches: i64,
    /// A whole percentage.
    pub recent_win_rate: Option<String>,
    pub tier_label: String,
}

/// One hero recommendation.
#[derive(Debug, Clone, PartialEq)]
pub struct FitFigures {
    pub hero_id: i32,
    pub hero_name: String,
    /// Out of a hundred, whole.
    pub fit_score: String,
    pub level_label: String,
    pub matches: i64,
    /// Out of a hundred, whole.
    pub meta_strength: Option<String>,
}

/// The player's current training focus, each value in the measure's own
/// format.
#[derive(Debug, Clone, PartialEq)]
pub struct FocusFigures {
    pub title: String,
    pub measure_label: String,
    pub baseline: String,
    pub target: String,
    pub current: Option<String>,
    pub sample: i64,
}

/// Everything the builder needs, already fetched and already computed.
pub struct EvidenceInputs<'a> {
    pub career: &'a CareerFigures,
    /// Newest first.
    pub recent: &'a [Match],
    /// Results for the benchmarked hero.
    pub benchmarks: &'a [BenchmarkFigures],
    /// The hero those results describe.
    pub benchmark_hero: Option<&'a str>,
    pub pool: &'a [PoolFigures],
    pub recommendations: &'a [FitFigures],
    /// Recurring patterns, as detected across the whole history.
    pub patterns: &'a [RecurringPattern],
    pub focus: Option<&'a FocusFigures>,
    /// Present for a match-scoped analysis.
    pub focus_match: Option<(&'a Match, &'a MatchFigures)>,
}

// ---------------------------------------------------------------------------
// What each item says
// ---------------------------------------------------------------------------

/// An evidence item as plain values: id, kind, label, statement, sample and
/// confidence.
pub type EvidenceView = (Seq<char>, EvidenceKind, Seq<char>, Seq<char>, i64, Confidence);

pub open spec fn view_of(e: Evidence) -> EvidenceView {
    (e.id@, e.kind, e.label@, e.statement@, e.sample, e.confidence)
}

pub open spec fn views_of(s: Seq<Evidence>) -> Seq<EvidenceView> {
    s.map_values(|e: Evidence| view_of(e))
}

/// An item whose confidence follows its own sample: one match is exact and
/// generalizes to nothing, which is what `Insufficient` means.
pub open spec fn item(
    id: Seq<char>,
    kind: EvidenceKind,
    label: Seq<char>,
    statement: Seq<char>,
    sample: i64,
) -> EvidenceView {
    (id, kind, label, statement, sample, spec_confidence_for(sample))
}

pub open spec fn spec_plural(count: int, one: Seq<char>, many: Seq<char>) -> Seq<char> {
    if count == 1 {
        one
    } else {
        many
    }
}

pub open spec fn matches_word(count: int) -> Seq<char> {
    spec_plural(count, "match"@, "matches"@)
}

pub open spec fn record_statement(c: CareerFigures) -> Seq<char> {
    "Across "@ + signed_decimal(c.matches as int) + " stored "@ + matches_word(c.matches as int)
        + ", you have won "@ + signed_decimal(c.wins as int) + " and lost "@ + signed_decimal(
        c.losses as int,
    ) + " ("@ + c.win_rate@ + ")."@
}

pub open spec fn kda_items(c: CareerFigures) -> Seq<EvidenceView> {
    match c.avg_kda {
        Some(k) => seq![
            item(
                "overall.kda"@,
                EvidenceKind::Overall,
                "Average KDA"@,
                "Your average KDA is "@ + k@ + "."@,
                c.matches,
            ),
        ],
        None => seq![],
    }
}

pub open spec fn economy_items(c: CareerFigures) -> Seq<EvidenceView> {
    match (c.avg_gpm, c.avg_xpm) {
        (Some(g), Some(x)) => seq![
            item(
                "overall.economy"@,
                EvidenceKind::Overall,
                "Average economy"@,
                "You average "@ + g@ + " gold and "@ + x@ + " XP per minute."@,
                c.matches,
            ),
        ],
        _ => seq![],
    }
}

pub open spec fn deaths_items(c: CareerFigures) -> Seq<EvidenceView> {
    match c.avg_deaths_per_10 {
        Some(d) => seq![
            item(
                "overall.deaths"@,
                EvidenceKind::Overall,
                "Deaths per 10 minutes"@,
                "You die "@ + d@ + " times per 10 minutes of game time."@,
                c.matches,
            ),
        ],
        None => seq![],
    }
}

/// Kill participation is averaged only over matches that carry team totals,
/// so it reports its own, smaller sample rather than the career one.
pub open spec fn participation_items(c: CareerFigures) -> Seq<EvidenceView> {
    match c.avg_kill_participation {
        Some(kp) => seq![
            item(
                "overall.kill_participation"@,
                EvidenceKind::Overall,
                "Kill participation"@,
                "You take part in "@ + kp@ + " of your team's kills, measured across "@
                    + signed_decimal(c.kill_participation_sample as int) + " "@ + matches_word(
                    c.kill_participation_sample as int,
                ) + "."@,
                c.kill_participation_sample,
            ),
        ],
        None => seq![],
    }
}

/// The career evidence: the record, then each average the player has.
pub open spec fn overall_items(c: CareerFigures) -> Seq<EvidenceView> {
    if c.matches == 0 {
        seq![]
    } else {
        seq![
            item(
                "overall.record"@,
                EvidenceKind::Overall,
                "Record"@,
                record_statement(c),
                c.matches,
            ),
        ] + kda_items(c) + economy_items(c) + deaths_items(c) + participation_items(c)
    }
}

/// Wins among `w`.
pub open spec fn wins_in(w: Seq<Match>) -> nat
    decreases w.len(),
{
    if w.len() == 0 {
        0
    } else {
        wins_in(w.drop_last()) + if w.last().won {
            1nat
        } else {
            0nat
        }
    }
}

/// How many of the first matches of `w` share the result `won`.
pub open spec fn run_of(w: Seq<Match>, won: bool) -> nat
    decreases w.len(),
{
    if w.len() == 0 || w[0].won != won {
        0
    } else {
        1 + run_of(w.drop_first(), won)
    }
}

pub open spec fn form_window(recent: Seq<Match>) -> Seq<Match> {
    if recent.len() <= FORM_WINDOW {
        recent
    } else {
        recent.take(FORM_WINDOW as int)
    }
}

/// Recent form: the win count over the last ten, and, as its own reading,
/// a streak of three or more. Five and five alternating and five and five
/// ending in five losses are the same ratio and different situations.
pub open spec fn form_items(recent: Seq<Match>) -> Seq<EvidenceView> {
    let w = form_window(recent);
    if w.len() == 0 {
        seq![]
    } else {
        let streak = run_of(w, w[0].won);
        seq![
            item(
                "form.recent"@,
                EvidenceKind::Form,
                "Recent form"@,
                "You have won "@ + decimal(wins_in(w)) + " of your last "@ + decimal(w.len())
                    + " "@ + matches_word(w.len() as int) + "."@,
                w.len() as i64,
            ),
        ] + if streak >= 3 {
            seq![
                item(
                    "form.streak"@,
                    EvidenceKind::Form,
                    "Current streak"@,
                    "Your last "@ + decimal(streak) + " matches were all "@ + (if w[0].won {
                        "wins"@
                    } else {
                        "losses"@
                    }) + "."@,
                    streak as i64,
                ),
            ]
        } else {
            seq![]
        }
    }
}

/// A benchmark sentence. A withheld percentile keeps the player's own value
/// and says why.
pub open spec fn benchmark_statement(r: BenchmarkFigures, hero: Seq<char>) -> Seq<char> {
    let head = "On "@ + hero + ", your "@ + lowercase(r.label@) + " averages "@ + r.player_value@;
    match (r.percentile, r.peer_median, r.top_20_value) {
        (Some(p), Some(m), Some(t)) => head + "; the peer median is "@ + m@
            + " and the top 20% start at "@ + t@ + ". That places you at the "@ + p@
            + "th percentile."@,
        (None, Some(m), _) => head + " against a peer median of "@ + m@
            + ". No percentile is claimed: "@ + (match r.note {
            Some(n) => n@,
            None => "the sample is too small."@,
        }),
        _ => head + ". No peer distribution is available for it."@,
    }
}

pub open spec fn benchmark_item(r: BenchmarkFigures, hero: Seq<char>) -> EvidenceView {
    (
        "benchmark."@ + r.metric@,
        EvidenceKind::Benchmark,
        r.label@ + " vs peers"@,
        benchmark_statement(r, hero),
        r.player_sample,
        r.confidence,
    )
}

pub open spec fn benchmark_items(results: Seq<BenchmarkFigures>, hero: Option<Seq<char>>) -> Seq<
    EvidenceView,
> {
    match hero {
        None => seq![],
        Some(h) => results.map_values(|r: BenchmarkFigures| benchmark_item(r, h)),
    }
}

pub open spec fn pool_item(e: PoolFigures) -> EvidenceView {
    item(
        "hero."@ + signed_decimal(e.hero_id as int),
        EvidenceKind::Hero,
        e.hero_name@ + " record"@,
        e.hero_name@ + ": "@ + signed_decimal(e.matches as int) + " "@ + matches_word(
            e.matches as int,
        ) + ", "@ + signed_decimal(e.wins as int) + "-"@ + signed_decimal(e.losses as int) + " ("@
            + e.win_rate@ + "), classified "@ + lowercase(e.tier_label@) + " in your pool."@
            + match e.recent_win_rate {
            Some(r) => " Over the last "@ + signed_decimal(e.recent_matches as int)
                + " on it you have won "@ + r@ + "."@,
            None => seq![],
        },
        e.matches,
    )
}

pub open spec fn fit_item(f: FitFigures) -> EvidenceView {
    item(
        "fit."@ + signed_decimal(f.hero_id as int),
        EvidenceKind::Hero,
        f.hero_name@ + " fit score"@,
        f.hero_name@ + " scores "@ + f.fit_score@ + "/100 for fit and is rated \""@ + lowercase(
            f.level_label@,
        ) + "\", on "@ + signed_decimal(f.matches as int) + " "@ + matches_word(f.matches as int)
            + " of your history."@ + match f.meta_strength {
            Some(s) => " Its current meta strength is "@ + s@ + "/100."@,
            None => seq![],
        },
        f.matches,
    )
}

pub open spec fn first_few<T>(s: Seq<T>, n: usize) -> Seq<T> {
    if s.len() <= n {
        s
    } else {
        s.take(n as int)
    }
}

/// The repertoire: the most-played heroes, then the best fits.
pub open spec fn hero_items(pool: Seq<PoolFigures>, fits: Seq<FitFigures>) -> Seq<EvidenceView> {
    first_few(pool, MAX_POOL_EVIDENCE).map_values(|e: PoolFigures| pool_item(e)) + first_few(
        fits,
        MAX_FIT_EVIDENCE,
    ).map_values(|f: FitFigures| fit_item(f))
}

pub open spec fn pattern_item(p: RecurringPattern) -> EvidenceView {
    item("pattern."@ + p.id@, EvidenceKind::Pattern, p.label@, p.statement@, p.measured)
}

/// Patterns as evidence, up to `left` of them. Resolved ones are worth
/// showing a player, but as evidence for current advice they would be wrong.
/// The sample is what the pattern could be checked in, not the career total.
pub open spec fn pattern_items(p: Seq<RecurringPattern>, left: nat) -> Seq<EvidenceView>
    decreases p.len(),
{
    if p.len() == 0 || left == 0 {
        seq![]
    } else if p[0].status == PatternStatus::Resolved {
        pattern_items(p.drop_first(), left)
    } else {
        seq![pattern_item(p[0])] + pattern_items(p.drop_first(), (left - 1) as nat)
    }
}

pub open spec fn focus_items(focus: Option<FocusFigures>) -> Seq<EvidenceView> {
    match focus {
        None => seq![],
        Some(f) => seq![
            item(
                "focus.current"@,
                EvidenceKind::Focus,
                "Current training focus"@,
                f.title@ + ": "@ + lowercase(f.measure_label@) + " was "@ + f.baseline@
                    + " when this focus was set, and the target is "@ + f.target@ + "."@
                    + match f.current {
                    Some(c) => " Over your last matches it stands at "@ + c@ + "."@,
                    None => seq![],
                },
                f.sample,
            ),
        ],
    }
}

/// `n` divided by sixty, rounded toward zero, as Rust's `/` does.
pub open spec fn minutes_of(n: int) -> int {
    if n >= 0 {
        n / 60
    } else {
        -((-n) / 60)
    }
}

/// The remainder left by [`minutes_of`], with the sign of `n`.
pub open spec fn seconds_of(n: int) -> int {
    n - minutes_of(n) * 60
}

/// `m:ss`, the seconds padded to two digits.
pub open spec fn clock(n: int) -> Seq<char> {
    let s = seconds_of(n);
    signed_decimal(minutes_of(n)) + ":"@ + if 0 <= s < 10 {
        "0"@ + decimal(s as nat)
    } else {
        signed_decimal(s)
    }
}

pub open spec fn timing_items(id: Seq<char>, label: Seq<char>, item_name: Seq<char>, seconds: Option<i32>) -> Seq<
    EvidenceView,
> {
    match seconds {
        Some(s) => seq![
            item(
                id,
                EvidenceKind::Match,
                label,
                "You completed your "@ + item_name + " at "@ + clock(s as int) + "."@,
                1,
            ),
        ],
        None => seq![],
    }
}

pub open spec fn kda_sentence(m: Match, f: MatchFigures, c: CareerFigures) -> Seq<char> {
    let line = "You finished "@ + signed_decimal(m.kills as int) + "/"@ + signed_decimal(
        m.deaths as int,
    ) + "/"@ + signed_decimal(m.assists as int);
    match (f.kda, c.avg_kda) {
        (Some(k), Some(a)) => line + " for a KDA of "@ + k@ + ", against your average of "@ + a@
            + "."@,
        (Some(k), None) => line + " for a KDA of "@ + k@ + "."@,
        _ => line + "."@,
    }
}

pub open spec fn economy_sentence(m: Match, c: CareerFigures) -> Seq<char> {
    let line = "You earned "@ + signed_decimal(m.gpm as int) + " gold and "@ + signed_decimal(
        m.xpm as int,
    ) + " XP per minute"@;
    match (c.avg_gpm, c.avg_xpm) {
        (Some(g), Some(x)) => line + ", against your averages of "@ + g@ + " and "@ + x@ + "."@,
        _ => line + "."@,
    }
}

pub open spec fn match_deaths_items(f: MatchFigures, c: CareerFigures) -> Seq<EvidenceView> {
    match f.deaths_per_10 {
        Some(d) => seq![
            item(
                "match.deaths"@,
                EvidenceKind::Match,
                "Death rate"@,
                "That is "@ + d@ + " deaths per 10 minutes"@ + match c.avg_deaths_per_10 {
                    Some(a) => ", against your average of "@ + a@ + "."@,
                    None => "."@,
                },
                1,
            ),
        ],
        None => seq![],
    }
}

pub open spec fn match_participation_items(f: MatchFigures, c: CareerFigures) -> Seq<EvidenceView> {
    match f.kill_participation {
        Some(kp) => seq![
            item(
                "match.kill_participation"@,
                EvidenceKind::Match,
                "Kill participation"@,
                "You were involved in "@ + kp@ + " of your team's kills"@ + match c.avg_kill_participation {
                    Some(a) => ", against your average of "@ + a@ + "."@,
                    None => "."@,
                },
                1,
            ),
        ],
        None => seq![],
    }
}

/// What needs a parsed replay: absent when there was none, never a zero.
pub open spec fn match_replay_items(m: Match, f: MatchFigures) -> Seq<EvidenceView> {
    (match m.last_hits_at_10 {
        Some(lh) => seq![
            item(
                "match.last_hits_at_10"@,
                EvidenceKind::Match,
                "Last hits at 10 minutes"@,
                "At 10 minutes you had "@ + signed_decimal(lh as int)
                    + " last hits, finishing the game with "@ + signed_decimal(m.last_hits as int)
                    + "."@,
                1,
            ),
        ],
        None => seq![],
    }) + match m.gold_at_10 {
        Some(g) => seq![
            item(
                "match.gold_at_10"@,
                EvidenceKind::Match,
                "Gold at 10 minutes"@,
                "At 10 minutes you had "@ + signed_decimal(g as int) + " net worth."@,
                1,
            ),
        ],
        None => seq![],
    } + match f.teamfight_participation {
        Some(p) => seq![
            item(
                "match.teamfight_participation"@,
                EvidenceKind::Match,
                "Teamfight participation"@,
                "The provider measured your teamfight participation at "@ + p@ + "."@,
                1,
            ),
        ],
        None => seq![],
    }
}

pub open spec fn match_timing_items(m: Match) -> Seq<EvidenceView> {
    timing_items("match.timing_bkb"@, "Black King Bar timing"@, "Black King Bar"@, m.bkb_seconds)
        + timing_items(
        "match.timing_blink"@,
        "Blink Dagger timing"@,
        "Blink Dagger"@,
        m.blink_seconds,
    ) + timing_items(
        "match.timing_midas"@,
        "Hand of Midas timing"@,
        "Hand of Midas"@,
        m.midas_seconds,
    )
}

pub open spec fn match_result_statement(m: Match, f: MatchFigures) -> Seq<char> {
    "This match was a "@ + (if m.won {
        "win"@
    } else {
        "loss"@
    }) + " on "@ + m.hero_name@ + " ("@ + m.role@ + "), lasting "@ + f.minutes@ + " minutes."@
}

/// The match under discussion, each figure against the player's own
/// average: six deaths is not information, six against an average of three
/// is.
pub open spec fn match_items(m: Match, f: MatchFigures, c: CareerFigures) -> Seq<EvidenceView> {
    seq![
        item("match.result"@, EvidenceKind::Match, "Result"@, match_result_statement(m, f), 1),
        item(
            "match.kda"@,
            EvidenceKind::Match,
            "Kills, deaths, assists"@,
            kda_sentence(m, f, c),
            1,
        ),
    ] + match_deaths_items(f, c) + seq![
        item("match.economy"@, EvidenceKind::Match, "Economy"@, economy_sentence(m, c), 1),
    ] + match_participation_items(f, c) + match_replay_items(m, f) + match_timing_items(m)
}

/// The whole evidence list. Order is fixed: career, form, peer comparison,
/// repertoire, patterns, focus, then the match under discussion. A player
/// with no stored matches and no match in question has no evidence at all:
/// advice about the ladder is not advice about this player.
pub open spec fn spec_build(
    career: CareerFigures,
    recent: Seq<Match>,
    benchmarks: Seq<BenchmarkFigures>,
    benchmark_hero: Option<Seq<char>>,
    pool: Seq<PoolFigures>,
    fits: Seq<FitFigures>,
    patterns: Seq<RecurringPattern>,
    focus: Option<FocusFigures>,
    focus_match: Option<(Match, MatchFigures)>,
) -> Seq<EvidenceView> {
    if career.matches == 0 && focus_match is None {
        seq![]
    } else {
        overall_items(career) + form_items(recent) + benchmark_items(benchmarks, benchmark_hero)
            + hero_items(pool, fits) + pattern_items(patterns, MAX_PATTERN_EVIDENCE as nat)
            + focus_items(focus) + match focus_match {
            Some((m, f)) => match_items(m, f, career),
            None => seq![],
        }
    }
}

pub open spec fn opt_view(o: Option<&str>) -> Option<Seq<char>> {
    match o {
        Some(s) => Some(s@),
        None => None,
    }
}

pub open spec fn inputs_view(i: EvidenceInputs) -> Seq<EvidenceView> {
    spec_build(
        *i.career,
        i.recent@,
        i.benchmarks@,
        opt_view(i.benchmark_hero),
        i.pool@,
        i.recommendations@,
        i.patterns@,
        match i.focus {
            Some(f) => Some(*f),
            None => None,
        },
        match i.focus_match {
            Some((m, f)) => Some((*m, *f)),
            None => None,
        },
    )
}

// ---------------------------------------------------------------------------
// Building the list
// ---------------------------------------------------------------------------

pub fn plural(count: i64, one: &'static str, many: &'static str) -> (s: &'static str)
    ensures
        s@ == spec_plural(count as int, one@, many@),
{
    if count == 1 {
        one
    } else {
        many
    }
}

fn append(s: &mut String, t: &str)
    ensures
        final(s)@ == old(s)@ + t@,
{
    push_str(s, t);
}

fn append_number(s: &mut String, n: i64)
    ensures
        final(s)@ == old(s)@ + signed_decimal(n as int),
{
    let t = i64_text(n);
    push_str(s, t.as_str());
}

fn append_count(s: &mut String, n: usize)
    ensures
        final(s)@ == old(s)@ + decimal(n as nat),
{
    let t = u64_text(n as u64);
    push_str(s, t.as_str());
}

fn append_lowercase(s: &mut String, t: &str)
    ensures
        final(s)@ == old(s)@ + lowercase(t@),
{
    let l = to_lowercase(t);
    push_str(s, l.as_str());
}

/// Append one item, its confidence following its sample.
pub fn push(
    out: &mut Vec<Evidence>,
    id: String,
    kind: EvidenceKind,
    label: String,
    statement: String,
    sample: i64,
)
    ensures
        views_of(final(out)@) == views_of(old(out)@).push(item(id@, kind, label@, statement@, sample)),
{
    let confidence = confidence_for(sample);
    let ghost before = out@;
    let e = Evidence { id, kind, label, statement, sample, confidence };
    out.push(e);
    proof {
        assert(views_of(out@) =~= views_of(before).push(view_of(e)));
    }
}

fn overall(c: &CareerFigures, out: &mut Vec<Evidence>)
    ensures
        views_of(final(out)@) == views_of(old(out)@) + overall_items(*c),
{
    let ghost start = views_of(out@);
    if c.matches == 0 {
        proof {
            assert(views_of(out@) =~= start + overall_items(*c));
        }
        return;
    }
    let mut s = owned("Across ");
    append_number(&mut s, c.matches);
    append(&mut s, " stored ");
    append(&mut s, plural(c.matches, "match", "matches"));
    append(&mut s, ", you have won ");
    append_number(&mut s, c.wins);
    append(&mut s, " and lost ");
    append_number(&mut s, c.losses);
    append(&mut s, " (");
    append(&mut s, c.win_rate.as_str());
    append(&mut s, ").");
    push(out, owned("overall.record"), EvidenceKind::Overall, owned("Record"), s, c.matches);
    let ghost after_record = views_of(out@);
    match &c.avg_kda {
        Some(k) => {
            let mut s = owned("Your average KDA is ");
            append(&mut s, k.as_str());
            append(&mut s, ".");
            push(out, owned("overall.kda"), EvidenceKind::Overall, owned("Average KDA"), s, c.matches);
        },
        None => {},
    }
    let ghost after_kda = views_of(out@);
    proof {
        assert(after_kda =~= after_record + kda_items(*c));
    }
    match (&c.avg_gpm, &c.avg_xpm) {
        (Some(g), Some(x)) => {
            let mut s = owned("You average ");
            append(&mut s, g.as_str());
            append(&mut s, " gold and ");
            append(&mut s, x.as_str());
            append(&mut s, " XP per minute.");
            push(
                out,
                owned("overall.economy"),
                EvidenceKind::Overall,
                owned("Average economy"),
                s,
                c.matches,
            );
        },
        _ => {},
    }
    let ghost after_economy = views_of(out@);
    proof {
        assert(after_economy =~= after_kda + economy_items(*c));
    }
    match &c.avg_deaths_per_10 {
        Some(d) => {
            let mut s = owned("You die ");
            append(&mut s, d.as_str());
            append(&mut s, " times per 10 minutes of game time.");
            push(
                out,
                owned("overall.deaths"),
                EvidenceKind::Overall,
                owned("Deaths per 10 minutes"),
                s,
                c.matches,
            );
        },
        None => {},
    }
    let ghost after_deaths = views_of(out@);
    proof {
        assert(after_deaths =~= after_economy + deaths_items(*c));
    }
    match &c.avg_kill_participation {
        Some(kp) => {
            let mut s = owned("You take part in ");
            append(&mut s, kp.as_str());
            append(&mut s, " of your team's kills, measured across ");
            append_number(&mut s, c.kill_participation_sample);
            append(&mut s, " ");
            append(&mut s, plural(c.kill_participation_sample, "match", "matches"));
            append(&mut s, ".");
            push(
                out,
                owned("overall.kill_participation"),
                EvidenceKind::Overall,
                owned("Kill participation"),
                s,
                c.kill_participation_sample,
            );
        },
        None => {},
    }
    proof {
        assert(views_of(out@) =~= after_deaths + participation_items(*c));
        assert(views_of(out@) =~= start + overall_items(*c));
    }
}

proof fn lemma_wins_in_push(w: Seq<Match>, m: Match)
    ensures
        wins_in(w.push(m)) == wins_in(w) + if m.won {
            1nat
        } else {
            0nat
        },
{
    assert(w.push(m).drop_last() =~= w);
}

proof fn lemma_run_of_extend(w: Seq<Match>, won: bool, k: int)
    requires
        0 <= k < w.len(),
        forall|j: int| 0 <= j < k ==> #[trigger] w[j].won == won,
    ensures
        run_of(w, won) >= k,
        w[k].won != won ==> run_of(w, won) == k,
    decreases k,
{
    if k > 0 {
        lemma_run_of_extend(w.drop_first(), won, k - 1);
    }
}

proof fn lemma_run_of_all(w: Seq<Match>, won: bool)
    requires
        forall|j: int| 0 <= j < w.len() ==> #[trigger] w[j].won == won,
    ensures
        run_of(w, won) == w.len(),
    decreases w.len(),
{
    if w.len() > 0 {
        lemma_run_of_all(w.drop_first(), won);
    }
}

fn form(recent: &[Match], out: &mut Vec<Evidence>)
    ensures
        views_of(final(out)@) == views_of(old(out)@) + form_items(recent@),
{
    let ghost start = views_of(out@);
    let n: usize = if recent.len() < FORM_WINDOW {
        recent.len()
    } else {
        FORM_WINDOW
    };
    let ghost w = form_window(recent@);
    proof {
        assert(w =~= recent@.take(n as int));
    }
    if n == 0 {
        proof {
            assert(views_of(out@) =~= start + form_items(recent@));
        }
        return;
    }
    let mut wins: usize = 0;
    let mut i: usize = 0;
    while i < n
        invariant
            i <= n <= recent@.len(),
            wins <= i,
            wins == wins_in(recent@.take(i as int)),
        decreases n - i,
    {
        proof {
            assert(recent@.take(i + 1) =~= recent@.take(i as int).push(recent@[i as int]));
            lemma_wins_in_push(recent@.take(i as int), recent@[i as int]);
        }
        if recent[i].won {
            wins = wins + 1;
        }
        i = i + 1;
    }
    let first = recent[0].won;
    let mut streak: usize = 0;
    while streak < n && recent[streak].won == first
        invariant
            streak <= n <= recent@.len(),
            n > 0,
            first == recent@[0].won,
            forall|j: int| 0 <= j < streak ==> #[trigger] recent@[j].won == first,
        decreases n - streak,
    {
        streak = streak + 1;
    }
    proof {
        let w = recent@.take(n as int);
        assert(forall|j: int| 0 <= j < streak ==> #[trigger] w[j].won == first);
        if streak < n {
            lemma_run_of_extend(w, first, streak as int);
        } else {
            lemma_run_of_all(w, first);
        }
        assert(run_of(w, w[0].won) == streak);
    }
    let sample = n as i64;
    let mut s = owned("You have won ");
    append_count(&mut s, wins);
    append(&mut s, " of your last ");
    append_count(&mut s, n);
    append(&mut s, " ");
    append(&mut s, plural(sample, "match", "matches"));
    append(&mut s, ".");
    push(out, owned("form.recent"), EvidenceKind::Form, owned("Recent form"), s, sample);
    let ghost after_recent = views_of(out@);
    if streak >= 3 {
        let mut s = owned("Your last ");
        append_count(&mut s, streak);
        append(&mut s, " matches were all ");
        append(&mut s, if first { "wins" } else { "losses" });
        append(&mut s, ".");
        push(out, owned("form.streak"), EvidenceKind::Form, owned("Current streak"), s, streak as i64);
    }
    proof {
        assert(views_of(out@) =~= start + form_items(recent@));
    }
}

fn benchmark_statement_text(r: &BenchmarkFigures, hero: &str) -> (s: String)
    ensures
        s@ == benchmark_statement(*r, hero@),
{
    let mut s = owned("On ");
    append(&mut s, hero);
    append(&mut s, ", your ");
    append_lowercase(&mut s, r.label.as_str());
    append(&mut s, " averages ");
    append(&mut s, r.player_value.as_str());
    match (&r.percentile, &r.peer_median, &r.top_20_value) {
        (Some(p), Some(m), Some(t)) => {
            append(&mut s, "; the peer median is ");
            append(&mut s, m.as_str());
            append(&mut s, " and the top 20% start at ");
            append(&mut s, t.as_str());
            append(&mut s, ". That places you at the ");
            append(&mut s, p.as_str());
            append(&mut s, "th percentile.");
        },
        (None, Some(m), _) => {
            append(&mut s, " against a peer median of ");
            append(&mut s, m.as_str());
            append(&mut s, ". No percentile is claimed: ");
            match &r.note {
                Some(n) => append(&mut s, n.as_str()),
                None => append(&mut s, "the sample is too small."),
            }
        },
        _ => {
            append(&mut s, ". No peer distribution is available for it.");
        },
    }
    s
}

fn benchmarks(results: &[BenchmarkFigures], hero: Option<&str>, out: &mut Vec<Evidence>)
    ensures
        views_of(final(out)@) == views_of(old(out)@) + benchmark_items(results@, opt_view(hero)),
{
    let ghost start = views_of(out@);
    let h = match hero {
        None => {
            proof {
                assert(views_of(out@) =~= start + benchmark_items(results@, opt_view(hero)));
            }
            return;
        },
        Some(h) => h,
    };
    let mut i: usize = 0;
    while i < results.len()
        invariant
            i <= results@.len(),
            views_of(out@) == start + results@.take(i as int).map_values(
                |r: BenchmarkFigures| benchmark_item(r, h@),
            ),
        decreases results@.len() - i,
    {
        let r = &results[i];
        let statement = benchmark_statement_text(r, h);
        let mut id = owned("benchmark.");
        append(&mut id, r.metric.as_str());
        let mut label = r.label.clone();
        append(&mut label, " vs peers");
        let ghost before = out@;
        let e = Evidence {
            id,
            kind: EvidenceKind::Benchmark,
            label,
            statement,
            sample: r.player_sample,
            confidence: r.confidence,
        };
        out.push(e);
        proof {
            assert(views_of(out@) =~= views_of(before).push(view_of(e)));
            assert(results@.take(i + 1).map_values(|r: BenchmarkFigures| benchmark_item(r, h@))
                =~= results@.take(i as int).map_values(
                |r: BenchmarkFigures| benchmark_item(r, h@),
            ).push(benchmark_item(*r, h@)));
        }
        i = i + 1;
    }
    proof {
        assert(results@.take(results@.len() as int) =~= results@);
    }
}

fn pool_entry(e: &PoolFigures, out: &mut Vec<Evidence>)
    ensures
        views_of(final(out)@) == views_of(old(out)@).push(pool_item(*e)),
{
    let mut id = owned("hero.");
    append_number(&mut id, e.hero_id as i64);
    let mut label = e.hero_name.clone();
    append(&mut label, " record");
    let mut s = e.hero_name.clone();
    append(&mut s, ": ");
    append_number(&mut s, e.matches);
    append(&mut s, " ");
    append(&mut s, plural(e.matches, "match", "matches"));
    append(&mut s, ", ");
    append_number(&mut s, e.wins);
    append(&mut s, "-");
    append_number(&mut s, e.losses);
    append(&mut s, " (");
    append(&mut s, e.win_rate.as_str());
    append(&mut s, "), classified ");
    append_lowercase(&mut s, e.tier_label.as_str());
    append(&mut s, " in your pool.");
    let ghost head = s@;
    match &e.recent_win_rate {
        Some(r) => {
            append(&mut s, " Over the last ");
            append_number(&mut s, e.recent_matches);
            append(&mut s, " on it you have won ");
            append(&mut s, r.as_str());
            append(&mut s, ".");
        },
        None => {},
    }
    proof {
        assert(s@ =~= pool_item(*e).3);
    }
    push(out, id, EvidenceKind::Hero, label, s, e.matches);
}

fn fit_entry(f: &FitFigures, out: &mut Vec<Evidence>)
    ensures
        views_of(final(out)@) == views_of(old(out)@).push(fit_item(*f)),
{
    let mut id = owned("fit.");
    append_number(&mut id, f.hero_id as i64);
    let mut label = f.hero_name.clone();
    append(&mut label, " fit score");
    let mut s = f.hero_name.clone();
    append(&mut s, " scores ");
    append(&mut s, f.fit_score.as_str());
    append(&mut s, "/100 for fit and is rated \"");
    append_lowercase(&mut s, f.level_label.as_str());
    append(&mut s, "\", on ");
    append_number(&mut s, f.matches);
    append(&mut s, " ");
    append(&mut s, plural(f.matches, "match", "matches"));
    append(&mut s, " of your history.");
    match &f.meta_strength {
        Some(m) => {
            append(&mut s, " Its current meta strength is ");
            append(&mut s, m.as_str());
            append(&mut s, "/100.");
        },
        None => {},
    }
    proof {
        assert(s@ =~= fit_item(*f).3);
    }
    push(out, id, EvidenceKind::Hero, label, s, f.matches);
}

fn heroes(pool: &[PoolFigures], fits: &[FitFigures], out: &mut Vec<Evidence>)
    ensures
        views_of(final(out)@) == views_of(old(out)@) + hero_items(pool@, fits@),
{
    let ghost start = views_of(out@);
    let n: usize = if pool.len() < MAX_POOL_EVIDENCE {
        pool.len()
    } else {
        MAX_POOL_EVIDENCE
    };
    let mut i: usize = 0;
    while i < n
        invariant
            i <= n <= pool@.len(),
            views_of(out@) == start + pool@.take(i as int).map_values(|e: PoolFigures| pool_item(e)),
        decreases n - i,
    {
        pool_entry(&pool[i], out);
        proof {
            assert(pool@.take(i + 1).map_values(|e: PoolFigures| pool_item(e)) =~= pool@.take(
                i as int,
            ).map_values(|e: PoolFigures| pool_item(e)).push(pool_item(pool@[i as int])));
        }
        i = i + 1;
    }
    proof {
        assert(first_few(pool@, MAX_POOL_EVIDENCE) =~= pool@.take(n as int));
    }
    let ghost middle = views_of(out@);
    let m: usize = if fits.len() < MAX_FIT_EVIDENCE {
        fits.len()
    } else {
        MAX_FIT_EVIDENCE
    };
    let mut j: usize = 0;
    while j < m
        invariant
            j <= m <= fits@.len(),
            views_of(out@) == middle + fits@.take(j as int).map_values(|f: FitFigures| fit_item(f)),
        decreases m - j,
    {
        fit_entry(&fits[j], out);
        proof {
            assert(fits@.take(j + 1).map_values(|f: FitFigures| fit_item(f)) =~= fits@.take(
                j as int,
            ).map_values(|f: FitFigures| fit_item(f)).push(fit_item(fits@[j as int])));
        }
        j = j + 1;
    }
    proof {
        assert(first_few(fits@, MAX_FIT_EVIDENCE) =~= fits@.take(m as int));
        assert(views_of(out@) =~= start + hero_items(pool@, fits@));
    }
}

proof fn lemma_pattern_items_step(p: Seq<RecurringPattern>, i: int, left: nat)
    requires
        0 <= i < p.len(),
        left > 0,
    ensures
        pattern_items(p.skip(i), left) == if p[i].status == PatternStatus::Resolved {
            pattern_items(p.skip(i + 1), left)
        } else {
            seq![pattern_item(p[i])] + pattern_items(p.skip(i + 1), (left - 1) as nat)
        },
{
    assert(p.skip(i).drop_first() =~= p.skip(i + 1));
}

fn recurring(patterns: &[RecurringPattern], out: &mut Vec<Evidence>)
    ensures
        views_of(final(out)@) == views_of(old(out)@) + pattern_items(
            patterns@,
            MAX_PATTERN_EVIDENCE as nat,
        ),
{
    let ghost start = views_of(out@);
    let mut left: usize = MAX_PATTERN_EVIDENCE;
    let mut i: usize = 0;
    proof {
        assert(patterns@.skip(0) =~= patterns@);
    }
    while i < patterns.len() && left > 0
        invariant
            i <= patterns@.len(),
            left <= MAX_PATTERN_EVIDENCE,
            start + pattern_items(patterns@, MAX_PATTERN_EVIDENCE as nat) == views_of(out@)
                + pattern_items(patterns@.skip(i as int), left as nat),
        decreases patterns@.len() - i,
    {
        let p = &patterns[i];
        proof {
            lemma_pattern_items_step(patterns@, i as int, left as nat);
        }
        if p.status != PatternStatus::Resolved {
            let mut id = owned("pattern.");
            append(&mut id, p.id.as_str());
            let ghost before = views_of(out@);
            push(out, id, EvidenceKind::Pattern, p.label.clone(), p.statement.clone(), p.measured);
            proof {
                assert(views_of(out@) == before.push(pattern_item(*p)));
                assert(before + (seq![pattern_item(*p)] + pattern_items(
                    patterns@.skip(i + 1),
                    (left - 1) as nat,
                )) =~= views_of(out@) + pattern_items(patterns@.skip(i + 1), (left - 1) as nat));
            }
            left = left - 1;
        }
        i = i + 1;
    }
    proof {
        assert(pattern_items(patterns@.skip(i as int), left as nat) =~= seq![]);
    }
}

fn training_focus(focus: Option<&FocusFigures>, out: &mut Vec<Evidence>)
    ensures
        views_of(final(out)@) == views_of(old(out)@) + focus_items(
            match focus {
                Some(f) => Some(*f),
                None => None,
            },
        ),
{
    let ghost start = views_of(out@);
    match focus {
        None => {
            proof {
                assert(views_of(out@) =~= start + seq![]);
            }
        },
        Some(f) => {
            let mut s = f.title.clone();
            append(&mut s, ": ");
            append_lowercase(&mut s, f.measure_label.as_str());
            append(&mut s, " was ");
            append(&mut s, f.baseline.as_str());
            append(&mut s, " when this focus was set, and the target is ");
            append(&mut s, f.target.as_str());
            append(&mut s, ".");
            match &f.current {
                Some(c) => {
                    append(&mut s, " Over your last matches it stands at ");
                    append(&mut s, c.as_str());
                    append(&mut s, ".");
                },
                None => {},
            }
            proof {
                assert(s@ =~= focus_items(Some(*f))[0].3);
            }
            push(
                out,
                owned("focus.current"),
                EvidenceKind::Focus,
                owned("Current training focus"),
                s,
                f.sample,
            );
            proof {
                assert(views_of(out@) =~= start + focus_items(Some(*f)));
            }
        },
    }
}

fn append_clock(s: &mut String, n: i32)
    ensures
        final(s)@ == old(s)@ + clock(n as int),
{
    let (minutes, seconds): (i64, i64) = if n >= 0 {
        ((n / 60) as i64, (n % 60) as i64)
    } else {
        let a: i64 = -(n as i64);
        (-(a / 60), -(a % 60))
    };
    assert(minutes == minutes_of(n as int));
    assert(seconds == seconds_of(n as int));
    append_number(s, minutes);
    append(s, ":");
    if 0 <= seconds && seconds < 10 {
        append(s, "0");
        append_count(s, seconds as usize);
    } else {
        append_number(s, seconds);
    }
    proof {
        assert(final(s)@ =~= old(s)@ + clock(n as int)) by {
        }
    }
}

fn timing(id: &str, label: &str, item_name: &str, seconds: Option<i32>, out: &mut Vec<Evidence>)
    ensures
        views_of(final(out)@) == views_of(old(out)@) + timing_items(id@, label@, item_name@, seconds),
{
    let ghost start = views_of(out@);
    match seconds {
        Some(n) => {
            let mut s = owned("You completed your ");
            append(&mut s, item_name);
            append(&mut s, " at ");
            append_clock(&mut s, n);
            append(&mut s, ".");
            push(out, owned(id), EvidenceKind::Match, owned(label), s, 1);
            proof {
                assert(views_of(out@) =~= start + timing_items(id@, label@, item_name@, seconds));
            }
        },
        None => {
            proof {
                assert(views_of(out@) =~= start + timing_items(id@, label@, item_name@, seconds));
            }
        },
    }
}

fn match_result_text(m: &Match, f: &MatchFigures) -> (s: String)
    ensures
        s@ == match_result_statement(*m, *f),
{
    let mut s = owned("This match was a ");
    append(&mut s, if m.won { "win" } else { "loss" });
    append(&mut s, " on ");
    append(&mut s, m.hero_name.as_str());
    append(&mut s, " (");
    append(&mut s, m.role.as_str());
    append(&mut s, "), lasting ");
    append(&mut s, f.minutes.as_str());
    append(&mut s, " minutes.");
    s
}

fn kda_text(m: &Match, f: &MatchFigures, c: &CareerFigures) -> (s: String)
    ensures
        s@ == kda_sentence(*m, *f, *c),
{
    let mut s = owned("You finished ");
    append_number(&mut s, m.kills as i64);
    append(&mut s, "/");
    append_number(&mut s, m.deaths as i64);
    append(&mut s, "/");
    append_number(&mut s, m.assists as i64);
    match (&f.kda, &c.avg_kda) {
        (Some(k), Some(a)) => {
            append(&mut s, " for a KDA of ");
            append(&mut s, k.as_str());
            append(&mut s, ", against your average of ");
            append(&mut s, a.as_str());
            append(&mut s, ".");
        },
        (Some(k), None) => {
            append(&mut s, " for a KDA of ");
            append(&mut s, k.as_str());
            append(&mut s, ".");
        },
        _ => {
            append(&mut s, ".");
        },
    }
    proof {
        assert(s@ =~= kda_sentence(*m, *f, *c));
    }
    s
}

fn economy_text(m: &Match, c: &CareerFigures) -> (s: String)
    ensures
        s@ == economy_sentence(*m, *c),
{
    let mut s = owned("You earned ");
    append_number(&mut s, m.gpm as i64);
    append(&mut s, " gold and ");
    append_number(&mut s, m.xpm as i64);
    append(&mut s, " XP per minute");
    match (&c.avg_gpm, &c.avg_xpm) {
        (Some(g), Some(x)) => {
            append(&mut s, ", against your averages of ");
            append(&mut s, g.as_str());
            append(&mut s, " and ");
            append(&mut s, x.as_str());
            append(&mut s, ".");
        },
        _ => append(&mut s, "."),
    }
    proof {
        assert(s@ =~= economy_sentence(*m, *c));
    }
    s
}

fn match_deaths(f: &MatchFigures, c: &CareerFigures, out: &mut Vec<Evidence>)
    ensures
        views_of(final(out)@) == views_of(old(out)@) + match_deaths_items(*f, *c),
{
    let ghost start = views_of(out@);
    match &f.deaths_per_10 {
        Some(d) => {
            let mut s = owned("That is ");
            append(&mut s, d.as_str());
            append(&mut s, " deaths per 10 minutes");
            match &c.avg_deaths_per_10 {
                Some(a) => {
                    append(&mut s, ", against your average of ");
                    append(&mut s, a.as_str());
                    append(&mut s, ".");
                },
                None => append(&mut s, "."),
            }
            proof {
                assert(s@ =~= match_deaths_items(*f, *c)[0].3);
            }
            push(out, owned("match.deaths"), EvidenceKind::Match, owned("Death rate"), s, 1);
        },
        None => {},
    }
    proof {
        assert(views_of(out@) =~= start + match_deaths_items(*f, *c));
    }
}

fn match_participation(f: &MatchFigures, c: &CareerFigures, out: &mut Vec<Evidence>)
    ensures
        views_of(final(out)@) == views_of(old(out)@) + match_participation_items(*f, *c),
{
    let ghost start = views_of(out@);
    match &f.kill_participation {
        Some(kp) => {
            let mut s = owned("You were involved in ");
            append(&mut s, kp.as_str());
            append(&mut s, " of your team's kills");
            match &c.avg_kill_participation {
                Some(a) => {
                    append(&mut s, ", against your average of ");
                    append(&mut s, a.as_str());
                    append(&mut s, ".");
                },
                None => append(&mut s, "."),
            }
            proof {
                assert(s@ =~= match_participation_items(*f, *c)[0].3);
            }
            push(
                out,
                owned("match.kill_participation"),
                EvidenceKind::Match,
                owned("Kill participation"),
                s,
                1,
            );
        },
        None => {},
    }
    proof {
        assert(views_of(out@) =~= start + match_participation_items(*f, *c));
    }
}

fn match_replay(m: &Match, f: &MatchFigures, out: &mut Vec<Evidence>)
    ensures
        views_of(final(out)@) == views_of(old(out)@) + match_replay_items(*m, *f),
{
    let ghost start = views_of(out@);
    match m.last_hits_at_10 {
        Some(lh) => {
            let mut s = owned("At 10 minutes you had ");
            append_number(&mut s, lh as i64);
            append(&mut s, " last hits, finishing the game with ");
            append_number(&mut s, m.last_hits as i64);
            append(&mut s, ".");
            push(
                out,
                owned("match.last_hits_at_10"),
                EvidenceKind::Match,
                owned("Last hits at 10 minutes"),
                s,
                1,
            );
        },
        None => {},
    }
    let ghost after_last_hits = views_of(out@);
    match m.gold_at_10 {
        Some(g) => {
            let mut s = owned("At 10 minutes you had ");
            append_number(&mut s, g as i64);
            append(&mut s, " net worth.");
            push(
                out,
                owned("match.gold_at_10"),
                EvidenceKind::Match,
                owned("Gold at 10 minutes"),
                s,
                1,
            );
        },
        None => {},
    }
    let ghost after_gold = views_of(out@);
    match &f.teamfight_participation {
        Some(p) => {
            let mut s = owned("The provider measured your teamfight participation at ");
            append(&mut s, p.as_str());
            append(&mut s, ".");
            push(
                out,
                owned("match.teamfight_participation"),
                EvidenceKind::Match,
                owned("Teamfight participation"),
                s,
                1,
            );
        },
        None => {},
    }
    proof {
        assert(after_last_hits =~= start + match m.last_hits_at_10 {
            Some(lh) => seq![
                item(
                    "match.last_hits_at_10"@,
                    EvidenceKind::Match,
                    "Last hits at 10 minutes"@,
                    "At 10 minutes you had "@ + signed_decimal(lh as int)
                        + " last hits, finishing the game with "@ + signed_decimal(
                        m.last_hits as int,
                    ) + "."@,
                    1,
                ),
            ],
            None => seq![],
        });
        assert(views_of(out@) =~= start + match_replay_items(*m, *f));
    }
}

fn match_timings(m: &Match, out: &mut Vec<Evidence>)
    ensures
        views_of(final(out)@) == views_of(old(out)@) + match_timing_items(*m),
{
    let ghost start = views_of(out@);
    timing("match.timing_bkb", "Black King Bar timing", "Black King Bar", m.bkb_seconds, out);
    timing("match.timing_blink", "Blink Dagger timing", "Blink Dagger", m.blink_seconds, out);
    timing("match.timing_midas", "Hand of Midas timing", "Hand of Midas", m.midas_seconds, out);
    proof {
        assert(views_of(out@) =~= start + match_timing_items(*m));
    }
}

fn focus_match(m: &Match, f: &MatchFigures, c: &CareerFigures, out: &mut Vec<Evidence>)
    ensures
        views_of(final(out)@) == views_of(old(out)@) + match_items(*m, *f, *c),
{
    let ghost start = views_of(out@);
    push(out, owned("match.result"), EvidenceKind::Match, owned("Result"), match_result_text(m, f), 1);
    push(
        out,
        owned("match.kda"),
        EvidenceKind::Match,
        owned("Kills, deaths, assists"),
        kda_text(m, f, c),
        1,
    );
    let ghost head = views_of(out@);
    match_deaths(f, c, out);
    let ghost after_deaths = views_of(out@);
    push(out, owned("match.economy"), EvidenceKind::Match, owned("Economy"), economy_text(m, c), 1);
    let ghost after_economy = views_of(out@);
    match_participation(f, c, out);
    let ghost after_participation = views_of(out@);
    match_replay(m, f, out);
    let ghost after_replay = views_of(out@);
    match_timings(m, out);
    proof {
        assert(head =~= start + seq![
            item("match.result"@, EvidenceKind::Match, "Result"@, match_result_statement(*m, *f), 1),
            item(
                "match.kda"@,
                EvidenceKind::Match,
                "Kills, deaths, assists"@,
                kda_sentence(*m, *f, *c),
                1,
            ),
        ]);
        assert(views_of(out@) =~= start + match_items(*m, *f, *c));
    }
}

/// Build the evidence list for one analysis. Two identical inputs always
/// give an identical list, which is what lets a stored analysis be keyed by
/// a hash of it.
pub fn build(inputs: &EvidenceInputs) -> (evidence: Vec<Evidence>)
    ensures
        views_of(evidence@) == inputs_view(*inputs),
{
    let mut evidence: Vec<Evidence> = Vec::new();
    if inputs.career.matches == 0 && inputs.focus_match.is_none() {
        proof {
            assert(views_of(evidence@) =~= inputs_view(*inputs));
        }
        return evidence;
    }
    overall(inputs.career, &mut evidence);
    form(inputs.recent, &mut evidence);
    benchmarks(inputs.benchmarks, inputs.benchmark_hero, &mut evidence);
    heroes(inputs.pool, inputs.recommendations, &mut evidence);
    recurring(inputs.patterns, &mut evidence);
    training_focus(inputs.focus, &mut evidence);
    let ghost before_match = views_of(evidence@);
    match inputs.focus_match {
        Some((m, f)) => {
            focus_match(m, f, inputs.career, &mut evidence);
        },
        None => {
            proof {
                assert(views_of(evidence@) =~= before_match + seq![]);
            }
        },
    }
    proof {
        assert(views_of(evidence@) =~= inputs_view(*inputs));
    }
    evidence
}

/// A player with no stored matches and no match in question has no
/// evidence at all, rather than evidence full of zeroes.
pub proof fn no_history_no_evidence(
    career: CareerFigures,
    recent: Seq<Match>,
    benchmarks: Seq<BenchmarkFigures>,
    benchmark_hero: Option<Seq<char>>,
    pool: Seq<PoolFigures>,
    fits: Seq<FitFigures>,
    patterns: Seq<RecurringPattern>,
    focus: Option<FocusFigures>,
)
    requires
        career.matches == 0,
    ensures
        spec_build(career, recent, benchmarks, benchmark_hero, pool, fits, patterns, focus, None)
            == Seq::<EvidenceView>::empty(),
{
}

pub open spec fn about_one_match(items: Seq<EvidenceView>) -> bool {
    forall|k: int| 0 <= k < items.len() ==> (#[trigger] items[k]).4 == 1 && items[k].5
        == Confidence::Insufficient
}

proof fn lemma_one_match_concat(a: Seq<EvidenceView>, b: Seq<EvidenceView>)
    requires
        about_one_match(a),
        about_one_match(b),
    ensures
        about_one_match(a + b),
{
    assert forall|k: int| 0 <= k < (a + b).len() implies (#[trigger] (a + b)[k]).4 == 1 && (a
        + b)[k].5 == Confidence::Insufficient by {
        if k < a.len() {
            assert((a + b)[k] == a[k]);
        } else {
            assert((a + b)[k] == b[k - a.len()]);
        }
    }
}

/// Every sentence about the match under discussion rests on that one match
/// and is marked insufficient: one match is exact and generalizes to
/// nothing.
pub proof fn one_match_generalizes_to_nothing(m: Match, f: MatchFigures, c: CareerFigures)
    ensures
        about_one_match(match_items(m, f, c)),
{
    assert(spec_confidence_for(1) == Confidence::Insufficient);
    let head = seq![
        item("match.result"@, EvidenceKind::Match, "Result"@, match_result_statement(m, f), 1),
        item("match.kda"@, EvidenceKind::Match, "Kills, deaths, assists"@, kda_sentence(m, f, c), 1),
    ];
    let economy = seq![
        item("match.economy"@, EvidenceKind::Match, "Economy"@, economy_sentence(m, c), 1),
    ];
    assert(about_one_match(head));
    assert(about_one_match(economy));
    assert(about_one_match(match_deaths_items(f, c)));
    assert(about_one_match(match_participation_items(f, c)));
    let lh = match m.last_hits_at_10 {
        Some(lh) => seq![
            item(
                "match.last_hits_at_10"@,
                EvidenceKind::Match,
                "Last hits at 10 minutes"@,
                "At 10 minutes you had "@ + signed_decimal(lh as int)
                    + " last hits, finishing the game with "@ + signed_decimal(m.last_hits as int)
                    + "."@,
                1,
            ),
        ],
        None => seq![],
    };
    let gold = match m.gold_at_10 {
        Some(g) => seq![
            item(
                "match.gold_at_10"@,
                EvidenceKind::Match,
                "Gold at 10 minutes"@,
                "At 10 minutes you had "@ + signed_decimal(g as int) + " net worth."@,
                1,
            ),
        ],
        None => seq![],
    };
    let tf = match f.teamfight_participation {
        Some(p) => seq![
            item(
                "match.teamfight_participation"@,
                EvidenceKind::Match,
                "Teamfight participation"@,
                "The provider measured your teamfight participation at "@ + p@ + "."@,
                1,
            ),
        ],
        None => seq![],
    };
    assert(about_one_match(lh));
    assert(about_one_match(gold));
    assert(about_one_match(tf));
    lemma_one_match_concat(lh, gold);
    lemma_one_match_concat(lh + gold, tf);
    assert(match_replay_items(m, f) == lh + gold + tf);
    let bkb = timing_items("match.timing_bkb"@, "Black King Bar timing"@, "Black King Bar"@, m.bkb_seconds);
    let blink = timing_items("match.timing_blink"@, "Blink Dagger timing"@, "Blink Dagger"@, m.blink_seconds);
    let midas = timing_items("match.timing_midas"@, "Hand of Midas timing"@, "Hand of Midas"@, m.midas_seconds);
    assert(about_one_match(bkb));
    assert(about_one_match(blink));
    assert(about_one_match(midas));
    lemma_one_match_concat(bkb, blink);
    lemma_one_match_concat(bkb + blink, midas);
    lemma_one_match_concat(head, match_deaths_items(f, c));
    lemma_one_match_concat(head + match_deaths_items(f, c), economy);
    lemma_one_match_concat(head + match_deaths_items(f, c) + economy, match_participation_items(f, c));
    lemma_one_match_concat(
        head + match_deaths_items(f, c) + economy + match_participation_items(f, c),
        match_replay_items(m, f),
    );
    lemma_one_match_concat(
        head + match_deaths_items(f, c) + economy + match_participation_items(f, c) + match_replay_items(m, f),
        match_timing_items(m),
    );
}

// ---------------------------------------------------------------------------
// Evidence ids never collide
// ---------------------------------------------------------------------------

/// Which family an id belongs to, read off its first letters: career,
/// form, peer comparison, hero record, hero fit, pattern, focus, match.
pub open spec fn id_group(id: Seq<char>) -> int {
    if id.len() < 3 {
        8
    } else if id[0] == 'o' {
        0
    } else if id[0] == 'f' && id[1] == 'o' && id[2] == 'r' {
        1
    } else if id[0] == 'b' {
        2
    } else if id[0] == 'h' {
        3
    } else if id[0] == 'f' && id[1] == 'i' {
        4
    } else if id[0] == 'p' {
        5
    } else if id[0] == 'f' && id[1] == 'o' && id[2] == 'c' {
        6
    } else if id[0] == 'm' {
        7
    } else {
        8
    }
}

pub open spec fn in_groups(s: Seq<EvidenceView>, lo: int, hi: int) -> bool {
    forall|k: int| 0 <= k < s.len() ==> lo <= #[trigger] id_group(s[k].0) <= hi
}

/// No two items share an id.
pub open spec fn distinct_ids(s: Seq<EvidenceView>) -> bool {
    forall|i: int, j: int|
        #![trigger s[i], s[j]]
        0 <= i < s.len() && 0 <= j < s.len() && i != j ==> s[i].0 != s[j].0
}

/// How many ids begin with `p`.
pub open spec fn count_prefixed(s: Seq<EvidenceView>, p: Seq<char>) -> nat
    decreases s.len(),
{
    if s.len() == 0 {
        0
    } else {
        count_prefixed(s.drop_last(), p) + if p.len() <= s.last().0.len() && s.last().0.take(
            p.len() as int,
        ) == p {
            1nat
        } else {
            0nat
        }
    }
}

/// The fixed ids, in the order the evidence lists them.
pub open spec fn literal_ids() -> Seq<Seq<char>> {
    seq![
        "overall.record"@,
        "overall.kda"@,
        "overall.economy"@,
        "overall.deaths"@,
        "overall.kill_participation"@,
        "form.recent"@,
        "form.streak"@,
        "match.result"@,
        "match.kda"@,
        "match.deaths"@,
        "match.economy"@,
        "match.kill_participation"@,
        "match.last_hits_at_10"@,
        "match.gold_at_10"@,
        "match.teamfight_participation"@,
        "match.timing_bkb"@,
        "match.timing_blink"@,
        "match.timing_midas"@,
    ]
}

proof fn lemma_literal_ids()
    ensures
        literal_ids().len() == 18,
        forall|a: int, b: int|
            0 <= a < 18 && 0 <= b < 18 && a != b ==> #[trigger] literal_ids()[a] != #[trigger] literal_ids()[b],
        forall|a: int| 0 <= a < 5 ==> id_group(#[trigger] literal_ids()[a]) == 0,
        forall|a: int| 5 <= a < 7 ==> id_group(#[trigger] literal_ids()[a]) == 1,
        forall|a: int| 7 <= a < 18 ==> id_group(#[trigger] literal_ids()[a]) == 7,
{
    reveal_strlit("overall.record");
    reveal_strlit("overall.kda");
    reveal_strlit("overall.economy");
    reveal_strlit("overall.deaths");
    reveal_strlit("overall.kill_participation");
    reveal_strlit("form.recent");
    reveal_strlit("form.streak");
    reveal_strlit("match.result");
    reveal_strlit("match.kda");
    reveal_strlit("match.deaths");
    reveal_strlit("match.economy");
    reveal_strlit("match.kill_participation");
    reveal_strlit("match.last_hits_at_10");
    reveal_strlit("match.gold_at_10");
    reveal_strlit("match.teamfight_participation");
    reveal_strlit("match.timing_bkb");
    reveal_strlit("match.timing_blink");
    reveal_strlit("match.timing_midas");
    let l = literal_ids();
    assert forall|a: int, b: int|
        0 <= a < 18 && 0 <= b < 18 && a != b implies #[trigger] l[a] != #[trigger] l[b] by {
        if l[a].len() == l[b].len() {
            assert(l[a][5] != l[b][5] || l[a][6] != l[b][6] || l[a][8] != l[b][8] || l[a][13]
                != l[b][13]);
        }
    }
    assert forall|a: int| 0 <= a < 18 implies l[a].len() >= 3 by {}
}

/// Every id of `s` is one of the fixed ids numbered `lo` to `hi - 1`.
pub open spec fn among(s: Seq<EvidenceView>, lo: int, hi: int) -> bool {
    forall|i: int|
        0 <= i < s.len() ==> exists|a: int|
            #![trigger literal_ids()[a]]
            lo <= a < hi && (#[trigger] s[i]).0 == literal_ids()[a]
}

#[verifier::spinoff_prover]
proof fn lemma_literal_join(a: Seq<EvidenceView>, b: Seq<EvidenceView>, lo: int, mid: int, hi: int)
    requires
        distinct_ids(a),
        distinct_ids(b),
        among(a, lo, mid),
        among(b, mid, hi),
        0 <= lo <= mid <= hi <= 18,
    ensures
        distinct_ids(a + b),
        among(a + b, lo, hi),
{
    lemma_literal_ids();
    let ab = a + b;
    assert forall|i: int, j: int|
        #![trigger ab[i], ab[j]]
        0 <= i < ab.len() && 0 <= j < ab.len() && i != j implies ab[i].0 != ab[j].0 by {
        if i < a.len() && j >= a.len() {
            assert(ab[i] == a[i] && ab[j] == b[j - a.len()]);
            let x = choose|x: int| #![trigger literal_ids()[x]] lo <= x < mid && a[i].0 == literal_ids()[x];
            let y = choose|y: int| #![trigger literal_ids()[y]] mid <= y < hi && b[j - a.len()].0 == literal_ids()[y];
        } else if j < a.len() && i >= a.len() {
            assert(ab[j] == a[j] && ab[i] == b[i - a.len()]);
            let x = choose|x: int| #![trigger literal_ids()[x]] lo <= x < mid && a[j].0 == literal_ids()[x];
            let y = choose|y: int| #![trigger literal_ids()[y]] mid <= y < hi && b[i - a.len()].0 == literal_ids()[y];
        } else if i < a.len() {
            assert(ab[i] == a[i] && ab[j] == a[j]);
        } else {
            assert(ab[i] == b[i - a.len()] && ab[j] == b[j - a.len()]);
        }
    }
    assert forall|i: int| 0 <= i < ab.len() implies exists|x: int|
        #![trigger literal_ids()[x]]
        lo <= x < hi && (#[trigger] ab[i]).0 == literal_ids()[x] by {
        if i < a.len() {
            assert(ab[i] == a[i]);
            let x = choose|x: int| #![trigger literal_ids()[x]] lo <= x < mid && a[i].0 == literal_ids()[x];
            assert(lo <= x < hi && ab[i].0 == literal_ids()[x]);
        } else {
            assert(ab[i] == b[i - a.len()]);
            let y = choose|y: int| #![trigger literal_ids()[y]] mid <= y < hi && b[i - a.len()].0 == literal_ids()[y];
            assert(lo <= y < hi && ab[i].0 == literal_ids()[y]);
        }
    }
}

proof fn lemma_one_literal(s: Seq<EvidenceView>, k: int)
    requires
        0 <= k < 18,
        s.len() <= 1,
        s.len() == 1 ==> s[0].0 == literal_ids()[k],
    ensures
        distinct_ids(s),
        among(s, k, k + 1),
{
    if s.len() == 1 {
        assert(s[0].0 == literal_ids()[k]);
    }
}

proof fn lemma_among_groups(s: Seq<EvidenceView>, lo: int, hi: int, g: int)
    requires
        among(s, lo, hi),
        0 <= lo <= hi <= 18,
        forall|a: int| lo <= a < hi ==> id_group(#[trigger] literal_ids()[a]) == g,
    ensures
        in_groups(s, g, g),
{
    assert forall|k: int| 0 <= k < s.len() implies g <= #[trigger] id_group(s[k].0) <= g by {
        let x = choose|x: int| #![trigger literal_ids()[x]] lo <= x < hi && s[k].0 == literal_ids()[x];
    }
}

proof fn lemma_overall_ids(c: CareerFigures)
    ensures
        distinct_ids(overall_items(c)),
        in_groups(overall_items(c), 0, 0),
{
    lemma_literal_ids();
    if c.matches != 0 {
        let r = seq![item("overall.record"@, EvidenceKind::Overall, "Record"@, record_statement(c), c.matches)];
        lemma_one_literal(r, 0);
        lemma_one_literal(kda_items(c), 1);
        lemma_one_literal(economy_items(c), 2);
        lemma_one_literal(deaths_items(c), 3);
        lemma_one_literal(participation_items(c), 4);
        lemma_literal_join(r, kda_items(c), 0, 1, 2);
        lemma_literal_join(r + kda_items(c), economy_items(c), 0, 2, 3);
        lemma_literal_join(r + kda_items(c) + economy_items(c), deaths_items(c), 0, 3, 4);
        lemma_literal_join(
            r + kda_items(c) + economy_items(c) + deaths_items(c),
            participation_items(c),
            0,
            4,
            5,
        );
        assert(overall_items(c) == r + kda_items(c) + economy_items(c) + deaths_items(c)
            + participation_items(c));
        lemma_among_groups(overall_items(c), 0, 5, 0);
    }
}

proof fn lemma_form_ids(recent: Seq<Match>)
    ensures
        distinct_ids(form_items(recent)),
        in_groups(form_items(recent), 1, 1),
{
    lemma_literal_ids();
    let w = form_window(recent);
    if w.len() > 0 {
        let streak = run_of(w, w[0].won);
        let head = seq![
            item(
                "form.recent"@,
                EvidenceKind::Form,
                "Recent form"@,
                "You have won "@ + decimal(wins_in(w)) + " of your last "@ + decimal(w.len()) + " "@
                    + matches_word(w.len() as int) + "."@,
                w.len() as i64,
            ),
        ];
        let tail = form_items(recent).skip(1);
        assert(form_items(recent) == head + tail);
        lemma_one_literal(head, 5);
        lemma_one_literal(tail, 6);
        lemma_literal_join(head, tail, 5, 6, 7);
        lemma_among_groups(form_items(recent), 5, 7, 1);
    }
}

proof fn lemma_match_ids(m: Match, f: MatchFigures, c: CareerFigures)
    ensures
        distinct_ids(match_items(m, f, c)),
        in_groups(match_items(m, f, c), 7, 7),
{
    lemma_literal_ids();
    let r = seq![item("match.result"@, EvidenceKind::Match, "Result"@, match_result_statement(m, f), 1)];
    let k = seq![item("match.kda"@, EvidenceKind::Match, "Kills, deaths, assists"@, kda_sentence(m, f, c), 1)];
    let head = seq![
        item("match.result"@, EvidenceKind::Match, "Result"@, match_result_statement(m, f), 1),
        item("match.kda"@, EvidenceKind::Match, "Kills, deaths, assists"@, kda_sentence(m, f, c), 1),
    ];
    assert(head == r + k);
    let d = match_deaths_items(f, c);
    let e = seq![item("match.economy"@, EvidenceKind::Match, "Economy"@, economy_sentence(m, c), 1)];
    let p = match_participation_items(f, c);
    let rp = match_replay_items(m, f);
    let lh = rp.take(if m.last_hits_at_10 is Some { 1int } else { 0int });
    let rest = rp.skip(lh.len() as int);
    let gold = rest.take(if m.gold_at_10 is Some { 1int } else { 0int });
    let tf = rest.skip(gold.len() as int);
    assert(rp == lh + gold + tf);
    let tm = match_timing_items(m);
    let bkb = timing_items("match.timing_bkb"@, "Black King Bar timing"@, "Black King Bar"@, m.bkb_seconds);
    let blink = timing_items("match.timing_blink"@, "Blink Dagger timing"@, "Blink Dagger"@, m.blink_seconds);
    let midas = timing_items("match.timing_midas"@, "Hand of Midas timing"@, "Hand of Midas"@, m.midas_seconds);
    assert(tm == bkb + blink + midas);
    lemma_one_literal(r, 7);
    lemma_one_literal(k, 8);
    lemma_one_literal(d, 9);
    lemma_one_literal(e, 10);
    lemma_one_literal(p, 11);
    lemma_one_literal(lh, 12);
    lemma_one_literal(gold, 13);
    lemma_one_literal(tf, 14);
    lemma_one_literal(bkb, 15);
    lemma_one_literal(blink, 16);
    lemma_one_literal(midas, 17);
    lemma_literal_join(r, k, 7, 8, 9);
    lemma_literal_join(lh, gold, 12, 13, 14);
    lemma_literal_join(lh + gold, tf, 12, 14, 15);
    lemma_literal_join(bkb, blink, 15, 16, 17);
    lemma_literal_join(bkb + blink, midas, 15, 17, 18);
    lemma_literal_join(head, d, 7, 9, 10);
    lemma_literal_join(head + d, e, 7, 10, 11);
    lemma_literal_join(head + d + e, p, 7, 11, 12);
    lemma_literal_join(head + d + e + p, rp, 7, 12, 15);
    lemma_literal_join(head + d + e + p + rp, tm, 7, 15, 18);
    assert(match_items(m, f, c) == head + d + e + p + rp + tm);
    lemma_among_groups(match_items(m, f, c), 7, 18, 7);
}

proof fn lemma_join_groups(a: Seq<EvidenceView>, b: Seq<EvidenceView>, lo: int, mid: int, hi: int)
    requires
        distinct_ids(a),
        distinct_ids(b),
        in_groups(a, lo, mid - 1),
        in_groups(b, mid, hi),
        lo <= mid <= hi + 1,
    ensures
        distinct_ids(a + b),
        in_groups(a + b, lo, hi),
{
    let ab = a + b;
    assert forall|i: int, j: int|
        #![trigger ab[i], ab[j]]
        0 <= i < ab.len() && 0 <= j < ab.len() && i != j implies ab[i].0 != ab[j].0 by {
        if i < a.len() && j >= a.len() {
            assert(ab[i] == a[i] && ab[j] == b[j - a.len()]);
            assert(id_group(a[i].0) < mid && id_group(b[j - a.len()].0) >= mid);
        } else if j < a.len() && i >= a.len() {
            assert(ab[j] == a[j] && ab[i] == b[i - a.len()]);
            assert(id_group(a[j].0) < mid && id_group(b[i - a.len()].0) >= mid);
        } else if i < a.len() {
            assert(ab[i] == a[i] && ab[j] == a[j]);
        } else {
            assert(ab[i] == b[i - a.len()] && ab[j] == b[j - a.len()]);
        }
    }
    assert forall|k: int| 0 <= k < ab.len() implies lo <= #[trigger] id_group(ab[k].0) <= hi by {
        if k < a.len() {
            assert(ab[k] == a[k]);
            assert(id_group(a[k].0) <= mid - 1);
        } else {
            assert(ab[k] == b[k - a.len()]);
        }
    }
}

proof fn lemma_prefix_cancel(p: Seq<char>, x: Seq<char>, y: Seq<char>)
    ensures
        (p + x == p + y) == (x == y),
{
    if p + x == p + y {
        assert(x =~= (p + x).skip(p.len() as int));
        assert(y =~= (p + y).skip(p.len() as int));
    }
}

proof fn lemma_signed_decimal_injective(a: int, b: int)
    requires
        signed_decimal(a) == signed_decimal(b),
    ensures
        a == b,
{
    let na: nat = if a < 0 { (-a) as nat } else { a as nat };
    let nb: nat = if b < 0 { (-b) as nat } else { b as nat };
    crate::auth::lemma_decimal_digits(na);
    crate::auth::lemma_decimal_digits(nb);
    assert(crate::text::is_digit(decimal(na)[0]));
    assert(crate::text::is_digit(decimal(nb)[0]));
    if a < 0 && b < 0 {
        assert(signed_decimal(a)[0] == '-');
        lemma_prefix_cancel(seq!['-'], decimal(na), decimal(nb));
    } else if a < 0 {
        assert(signed_decimal(a)[0] == '-');
        assert(signed_decimal(b)[0] == decimal(nb)[0]);
    } else if b < 0 {
        assert(signed_decimal(b)[0] == '-');
        assert(signed_decimal(a)[0] == decimal(na)[0]);
    }
}

proof fn lemma_benchmark_ids(results: Seq<BenchmarkFigures>, hero: Option<Seq<char>>)
    requires
        forall|i: int, j: int|
            #![trigger results[i], results[j]]
            0 <= i < j < results.len() ==> results[i].metric@ != results[j].metric@,
    ensures
        distinct_ids(benchmark_items(results, hero)),
        in_groups(benchmark_items(results, hero), 2, 2),
{
    reveal_strlit("benchmark.");
    let b = benchmark_items(results, hero);
    if let Some(h) = hero {
        assert forall|i: int, j: int|
            #![trigger b[i], b[j]]
            0 <= i < b.len() && 0 <= j < b.len() && i != j implies b[i].0 != b[j].0 by {
            assert(b[i].0 == "benchmark."@ + results[i].metric@);
            assert(b[j].0 == "benchmark."@ + results[j].metric@);
            lemma_prefix_cancel("benchmark."@, results[i].metric@, results[j].metric@);
            if i < j {
                assert(results[i].metric@ != results[j].metric@);
            } else {
                assert(results[j].metric@ != results[i].metric@);
            }
        }
        assert forall|k: int| 0 <= k < b.len() implies 2 <= #[trigger] id_group(b[k].0) <= 2 by {
            assert(b[k].0 == "benchmark."@ + results[k].metric@);
            assert(b[k].0[0] == 'b');
        }
    }
}

proof fn lemma_hero_ids(pool: Seq<PoolFigures>, fits: Seq<FitFigures>)
    requires
        forall|i: int, j: int| #![trigger pool[i], pool[j]] 0 <= i < j < pool.len() ==> pool[i].hero_id != pool[j].hero_id,
        forall|i: int, j: int| #![trigger fits[i], fits[j]] 0 <= i < j < fits.len() ==> fits[i].hero_id != fits[j].hero_id,
    ensures
        distinct_ids(hero_items(pool, fits)),
        in_groups(hero_items(pool, fits), 3, 4),
        count_prefixed(hero_items(pool, fits), "hero."@) <= MAX_POOL_EVIDENCE,
        count_prefixed(hero_items(pool, fits), "fit."@) <= MAX_FIT_EVIDENCE,
{
    reveal_strlit("hero.");
    reveal_strlit("fit.");
    let pp = first_few(pool, MAX_POOL_EVIDENCE);
    let ff = first_few(fits, MAX_FIT_EVIDENCE);
    let ps = pp.map_values(|e: PoolFigures| pool_item(e));
    let fs = ff.map_values(|f: FitFigures| fit_item(f));
    assert(hero_items(pool, fits) == ps + fs);
    assert forall|i: int| 0 <= i < pp.len() implies #[trigger] pp[i] == pool[i] by {}
    assert forall|i: int| 0 <= i < ff.len() implies #[trigger] ff[i] == fits[i] by {}
    assert forall|i: int, j: int|
        #![trigger ps[i], ps[j]]
        0 <= i < ps.len() && 0 <= j < ps.len() && i != j implies ps[i].0 != ps[j].0 by {
        assert(ps[i].0 == "hero."@ + signed_decimal(pp[i].hero_id as int));
        assert(ps[j].0 == "hero."@ + signed_decimal(pp[j].hero_id as int));
        lemma_prefix_cancel("hero."@, signed_decimal(pp[i].hero_id as int), signed_decimal(pp[j].hero_id as int));
        if ps[i].0 == ps[j].0 {
            lemma_signed_decimal_injective(pp[i].hero_id as int, pp[j].hero_id as int);
            assert(pp[i] == pool[i] && pp[j] == pool[j]);
            if i < j {
                assert(pool[i].hero_id != pool[j].hero_id);
            } else {
                assert(pool[j].hero_id != pool[i].hero_id);
            }
        }
    }
    assert forall|i: int, j: int|
        #![trigger fs[i], fs[j]]
        0 <= i < fs.len() && 0 <= j < fs.len() && i != j implies fs[i].0 != fs[j].0 by {
        assert(fs[i].0 == "fit."@ + signed_decimal(ff[i].hero_id as int));
        assert(fs[j].0 == "fit."@ + signed_decimal(ff[j].hero_id as int));
        lemma_prefix_cancel("fit."@, signed_decimal(ff[i].hero_id as int), signed_decimal(ff[j].hero_id as int));
        if fs[i].0 == fs[j].0 {
            lemma_signed_decimal_injective(ff[i].hero_id as int, ff[j].hero_id as int);
            assert(ff[i] == fits[i] && ff[j] == fits[j]);
            if i < j {
                assert(fits[i].hero_id != fits[j].hero_id);
            } else {
                assert(fits[j].hero_id != fits[i].hero_id);
            }
        }
    }
    assert forall|k: int| 0 <= k < ps.len() implies 3 <= #[trigger] id_group(ps[k].0) <= 3 by {
        assert(ps[k].0 == "hero."@ + signed_decimal(pp[k].hero_id as int));
        assert(ps[k].0[0] == 'h');
    }
    assert forall|k: int| 0 <= k < fs.len() implies 4 <= #[trigger] id_group(fs[k].0) <= 4 by {
        assert(fs[k].0 == "fit."@ + signed_decimal(ff[k].hero_id as int));
        assert(fs[k].0[0] == 'f' && fs[k].0[1] == 'i');
    }
    lemma_join_groups(ps, fs, 3, 4, 4);
    lemma_count_add(ps, fs, "hero."@);
    lemma_count_add(ps, fs, "fit."@);
    lemma_count_le_len(ps, "hero."@);
    lemma_count_le_len(fs, "fit."@);
    lemma_count_outside(ps, 3, "fit."@);
    lemma_count_outside(fs, 4, "hero."@);
}

proof fn lemma_count_add(a: Seq<EvidenceView>, b: Seq<EvidenceView>, p: Seq<char>)
    ensures
        count_prefixed(a + b, p) == count_prefixed(a, p) + count_prefixed(b, p),
    decreases b.len(),
{
    if b.len() == 0 {
        assert(a + b =~= a);
    } else {
        lemma_count_add(a, b.drop_last(), p);
        assert((a + b).drop_last() =~= a + b.drop_last());
        assert((a + b).last() == b.last());
    }
}

proof fn lemma_count_le_len(s: Seq<EvidenceView>, p: Seq<char>)
    ensures
        count_prefixed(s, p) <= s.len(),
    decreases s.len(),
{
    if s.len() > 0 {
        lemma_count_le_len(s.drop_last(), p);
    }
}

/// Ids of one family never begin with another family's prefix.
proof fn lemma_count_outside(s: Seq<EvidenceView>, g: int, p: Seq<char>)
    requires
        in_groups(s, g, g),
        (p == "hero."@ && g != 3) || (p == "fit."@ && g != 4),
    ensures
        count_prefixed(s, p) == 0,
    decreases s.len(),
{
    reveal_strlit("hero.");
    reveal_strlit("fit.");
    if s.len() > 0 {
        assert(in_groups(s.drop_last(), g, g)) by {
            assert forall|k: int| 0 <= k < s.drop_last().len() implies g <= #[trigger] id_group(
                s.drop_last()[k].0,
            ) <= g by {
                assert(s.drop_last()[k] == s[k]);
            }
        }
        lemma_count_outside(s.drop_last(), g, p);
        let id = s.last().0;
        assert(id_group(s[s.len() - 1].0) == g);
        if p.len() <= id.len() && id.take(p.len() as int) == p {
            assert(id[0] == id.take(p.len() as int)[0]);
            assert(id[1] == id.take(p.len() as int)[1]);
        }
    }
}

proof fn lemma_pattern_ids(p: Seq<RecurringPattern>, left: nat)
    requires
        forall|i: int, j: int| #![trigger p[i], p[j]] 0 <= i < j < p.len() ==> p[i].id@ != p[j].id@,
    ensures
        distinct_ids(pattern_items(p, left)),
        in_groups(pattern_items(p, left), 5, 5),
        forall|k: int|
            0 <= k < pattern_items(p, left).len() ==> exists|i: int|
                0 <= i < p.len() && (#[trigger] pattern_items(p, left)[k]).0 == "pattern."@ + p[i].id@,
    decreases p.len(),
{
    reveal_strlit("pattern.");
    if p.len() > 0 && left > 0 {
        let q = p.drop_first();
        assert forall|i: int, j: int| #![trigger q[i], q[j]] 0 <= i < j < q.len() implies q[i].id@ != q[j].id@ by {
            assert(q[i] == p[i + 1] && q[j] == p[j + 1]);
        }
        if p[0].status == PatternStatus::Resolved {
            lemma_pattern_ids(q, left);
            let s = pattern_items(p, left);
            assert forall|k: int| 0 <= k < s.len() implies exists|i: int|
                0 <= i < p.len() && (#[trigger] s[k]).0 == "pattern."@ + p[i].id@ by {
                let i = choose|i: int| 0 <= i < q.len() && pattern_items(q, left)[k].0 == "pattern."@ + q[i].id@;
                assert(q[i] == p[i + 1]);
            }
        } else {
            let rest = pattern_items(q, (left - 1) as nat);
            lemma_pattern_ids(q, (left - 1) as nat);
            let head = seq![pattern_item(p[0])];
            assert(pattern_items(p, left) == head + rest);
            let s = head + rest;
            assert forall|i: int, j: int|
                #![trigger s[i], s[j]]
                0 <= i < s.len() && 0 <= j < s.len() && i != j implies s[i].0 != s[j].0 by {
                if i == 0 || j == 0 {
                    let o = if i == 0 { j } else { i };
                    assert(s[o] == rest[o - 1]);
                    let x = choose|x: int| 0 <= x < q.len() && rest[o - 1].0 == "pattern."@ + q[x].id@;
                    assert(q[x] == p[x + 1]);
                    assert(p[0].id@ != p[x + 1].id@);
                    lemma_prefix_cancel("pattern."@, p[0].id@, p[x + 1].id@);
                } else {
                    assert(s[i] == rest[i - 1] && s[j] == rest[j - 1]);
                }
            }
            assert forall|k: int| 0 <= k < s.len() implies 5 <= #[trigger] id_group(s[k].0) <= 5 by {
                if k > 0 {
                    assert(s[k] == rest[k - 1]);
                } else {
                    assert(s[0].0 == "pattern."@ + p[0].id@);
                    assert(s[0].0[0] == 'p');
                }
            }
            assert forall|k: int| 0 <= k < s.len() implies exists|i: int|
                0 <= i < p.len() && (#[trigger] s[k]).0 == "pattern."@ + p[i].id@ by {
                if k > 0 {
                    assert(s[k] == rest[k - 1]);
                    let i = choose|i: int| 0 <= i < q.len() && rest[k - 1].0 == "pattern."@ + q[i].id@;
                    assert(q[i] == p[i + 1]);
                } else {
                    assert(s[0].0 == "pattern."@ + p[0].id@);
                }
            }
        }
    }
}

proof fn lemma_focus_ids(focus: Option<FocusFigures>)
    ensures
        distinct_ids(focus_items(focus)),
        in_groups(focus_items(focus), 6, 6),
{
    reveal_strlit("focus.current");
    if focus is Some {
        assert(focus_items(focus)[0].0 == "focus.current"@);
    }
}

/// The inputs name each metric, hero and pattern once.
pub open spec fn distinct_sources(
    benchmarks: Seq<BenchmarkFigures>,
    pool: Seq<PoolFigures>,
    fits: Seq<FitFigures>,
    patterns: Seq<RecurringPattern>,
) -> bool {
    &&& forall|i: int, j: int|
        #![trigger benchmarks[i], benchmarks[j]]
        0 <= i < j < benchmarks.len() ==> benchmarks[i].metric@ != benchmarks[j].metric@
    &&& forall|i: int, j: int|
        #![trigger pool[i], pool[j]]
        0 <= i < j < pool.len() ==> pool[i].hero_id != pool[j].hero_id
    &&& forall|i: int, j: int|
        #![trigger fits[i], fits[j]]
        0 <= i < j < fits.len() ==> fits[i].hero_id != fits[j].hero_id
    &&& forall|i: int, j: int|
        #![trigger patterns[i], patterns[j]]
        0 <= i < j < patterns.len() ==> patterns[i].id@ != patterns[j].id@
}

proof fn lemma_counts_outside(s: Seq<EvidenceView>, g: int)
    requires
        in_groups(s, g, g),
        g != 3,
        g != 4,
    ensures
        count_prefixed(s, "hero."@) == 0,
        count_prefixed(s, "fit."@) == 0,
{
    lemma_count_outside(s, g, "hero."@);
    lemma_count_outside(s, g, "fit."@);
}

/// A model can cite every item unambiguously: when the inputs name each
/// metric, hero and pattern once, no two evidence items share an id. And
/// the repertoire stays a point rather than a list: at most
/// [`MAX_POOL_EVIDENCE`] hero records and [`MAX_FIT_EVIDENCE`] hero fits.
pub proof fn evidence_ids_are_distinct(
    career: CareerFigures,
    recent: Seq<Match>,
    benchmarks: Seq<BenchmarkFigures>,
    benchmark_hero: Option<Seq<char>>,
    pool: Seq<PoolFigures>,
    fits: Seq<FitFigures>,
    patterns: Seq<RecurringPattern>,
    focus: Option<FocusFigures>,
    focus_match: Option<(Match, MatchFigures)>,
)
    requires
        distinct_sources(benchmarks, pool, fits, patterns),
    ensures
        distinct_ids(
            spec_build(career, recent, benchmarks, benchmark_hero, pool, fits, patterns, focus, focus_match),
        ),
        count_prefixed(
            spec_build(career, recent, benchmarks, benchmark_hero, pool, fits, patterns, focus, focus_match),
            "hero."@,
        ) <= MAX_POOL_EVIDENCE,
        count_prefixed(
            spec_build(career, recent, benchmarks, benchmark_hero, pool, fits, patterns, focus, focus_match),
            "fit."@,
        ) <= MAX_FIT_EVIDENCE,
{
    let e = spec_build(career, recent, benchmarks, benchmark_hero, pool, fits, patterns, focus, focus_match);
    if career.matches == 0 && focus_match is None {
        assert(e =~= Seq::<EvidenceView>::empty());
    } else {
        let o = overall_items(career);
        let fm = form_items(recent);
        let b = benchmark_items(benchmarks, benchmark_hero);
        let h = hero_items(pool, fits);
        let pt = pattern_items(patterns, MAX_PATTERN_EVIDENCE as nat);
        let fc = focus_items(focus);
        let m = match focus_match {
            Some((mm, mf)) => match_items(mm, mf, career),
            None => seq![],
        };
        assert(e == o + fm + b + h + pt + fc + m);
        lemma_overall_ids(career);
        lemma_form_ids(recent);
        lemma_benchmark_ids(benchmarks, benchmark_hero);
        lemma_hero_ids(pool, fits);
        lemma_pattern_ids(patterns, MAX_PATTERN_EVIDENCE as nat);
        lemma_focus_ids(focus);
        if let Some((mm, mf)) = focus_match {
            lemma_match_ids(mm, mf, career);
        }
        assert(distinct_ids(m) && in_groups(m, 7, 7));
        lemma_join_groups(o, fm, 0, 1, 1);
        lemma_join_groups(o + fm, b, 0, 2, 2);
        lemma_join_groups(o + fm + b, h, 0, 3, 4);
        lemma_join_groups(o + fm + b + h, pt, 0, 5, 5);
        lemma_join_groups(o + fm + b + h + pt, fc, 0, 6, 6);
        lemma_join_groups(o + fm + b + h + pt + fc, m, 0, 7, 7);
        lemma_counts_outside(o, 0);
        lemma_counts_outside(fm, 1);
        lemma_counts_outside(b, 2);
        lemma_counts_outside(pt, 5);
        lemma_counts_outside(fc, 6);
        lemma_counts_outside(m, 7);
        let hero = "hero."@;
        let fit = "fit."@;
        lemma_count_add(o, fm, hero);
        lemma_count_add(o + fm, b, hero);
        lemma_count_add(o + fm + b, h, hero);
        lemma_count_add(o + fm + b + h, pt, hero);
        lemma_count_add(o + fm + b + h + pt, fc, hero);
        lemma_count_add(o + fm + b + h + pt + fc, m, hero);
        lemma_count_add(o, fm, fit);
        lemma_count_add(o + fm, b, fit);
        lemma_count_add(o + fm + b, h, fit);
        lemma_count_add(o + fm + b + h, pt, fit);
        lemma_count_add(o + fm + b + h + pt, fc, fit);
        lemma_count_add(o + fm + b + h + pt + fc, m, fit);
    }
}

/// Every item other than a peer comparison carries the confidence its own
/// sample earns.
pub open spec fn self_rated(s: Seq<EvidenceView>) -> bool {
    forall|k: int|
        0 <= k < s.len() && (#[trigger] s[k]).1 != EvidenceKind::Benchmark ==> s[k].5
            == spec_confidence_for(s[k].4)
}

proof fn lemma_self_rated_join(a: Seq<EvidenceView>, b: Seq<EvidenceView>)
    requires
        self_rated(a),
        self_rated(b),
    ensures
        self_rated(a + b),
{
    assert forall|k: int|
        0 <= k < (a + b).len() && (#[trigger] (a + b)[k]).1 != EvidenceKind::Benchmark implies (a + b)[k].5
        == spec_confidence_for((a + b)[k].4) by {
        if k < a.len() {
            assert((a + b)[k] == a[k]);
        } else {
            assert((a + b)[k] == b[k - a.len()]);
        }
    }
}

/// How sure an item is follows from how many matches it rests on, for every
/// item the builder writes itself; a peer comparison keeps the confidence
/// the benchmark engine gave it.
pub proof fn evidence_confidence_follows_its_sample(
    career: CareerFigures,
    recent: Seq<Match>,
    benchmarks: Seq<BenchmarkFigures>,
    benchmark_hero: Option<Seq<char>>,
    pool: Seq<PoolFigures>,
    fits: Seq<FitFigures>,
    patterns: Seq<RecurringPattern>,
    focus: Option<FocusFigures>,
    focus_match: Option<(Match, MatchFigures)>,
)
    ensures
        self_rated(
            spec_build(career, recent, benchmarks, benchmark_hero, pool, fits, patterns, focus, focus_match),
        ),
{
    let e = spec_build(career, recent, benchmarks, benchmark_hero, pool, fits, patterns, focus, focus_match);
    if !(career.matches == 0 && focus_match is None) {
        let o = overall_items(career);
        let fm = form_items(recent);
        let b = benchmark_items(benchmarks, benchmark_hero);
        let h = hero_items(pool, fits);
        let pt = pattern_items(patterns, MAX_PATTERN_EVIDENCE as nat);
        let fc = focus_items(focus);
        let m = match focus_match {
            Some((mm, mf)) => match_items(mm, mf, career),
            None => seq![],
        };
        assert(e == o + fm + b + h + pt + fc + m);
        if career.matches != 0 {
            let r = seq![item("overall.record"@, EvidenceKind::Overall, "Record"@, record_statement(career), career.matches)];
            assert(self_rated(r));
            assert(self_rated(kda_items(career)));
            assert(self_rated(economy_items(career)));
            assert(self_rated(deaths_items(career)));
            assert(self_rated(participation_items(career)));
            lemma_self_rated_join(r, kda_items(career));
            lemma_self_rated_join(r + kda_items(career), economy_items(career));
            lemma_self_rated_join(r + kda_items(career) + economy_items(career), deaths_items(career));
            lemma_self_rated_join(
                r + kda_items(career) + economy_items(career) + deaths_items(career),
                participation_items(career),
            );
            assert(o == r + kda_items(career) + economy_items(career) + deaths_items(career)
                + participation_items(career));
        }
        assert(self_rated(o));
        assert(self_rated(fm)) by {
            let w = form_window(recent);
            if w.len() > 0 {
                assert forall|k: int| 0 <= k < fm.len() && (#[trigger] fm[k]).1 != EvidenceKind::Benchmark implies fm[k].5
                    == spec_confidence_for(fm[k].4) by {
                    if k > 0 {
                        assert(fm[k] == fm.skip(1)[k - 1]);
                    }
                }
            }
        }
        assert(self_rated(b)) by {
            if let Some(hh) = benchmark_hero {
                assert forall|k: int| 0 <= k < b.len() && (#[trigger] b[k]).1 != EvidenceKind::Benchmark implies b[k].5
                    == spec_confidence_for(b[k].4) by {
                    assert(b[k] == benchmark_item(benchmarks[k], hh));
                }
            }
        }
        assert(self_rated(h)) by {
            let ps = first_few(pool, MAX_POOL_EVIDENCE).map_values(|x: PoolFigures| pool_item(x));
            let fs = first_few(fits, MAX_FIT_EVIDENCE).map_values(|x: FitFigures| fit_item(x));
            assert(h == ps + fs);
            assert forall|k: int| 0 <= k < ps.len() && (#[trigger] ps[k]).1 != EvidenceKind::Benchmark implies ps[k].5
                == spec_confidence_for(ps[k].4) by {
                assert(ps[k] == pool_item(first_few(pool, MAX_POOL_EVIDENCE)[k]));
            }
            assert forall|k: int| 0 <= k < fs.len() && (#[trigger] fs[k]).1 != EvidenceKind::Benchmark implies fs[k].5
                == spec_confidence_for(fs[k].4) by {
                assert(fs[k] == fit_item(first_few(fits, MAX_FIT_EVIDENCE)[k]));
            }
            lemma_self_rated_join(ps, fs);
        }
        lemma_patterns_self_rated(patterns, MAX_PATTERN_EVIDENCE as nat);
        assert(self_rated(fc));
        if let Some((mm, mf)) = focus_match {
            one_match_generalizes_to_nothing(mm, mf, career);
            assert(spec_confidence_for(1) == Confidence::Insufficient);
            assert forall|k: int| 0 <= k < m.len() && (#[trigger] m[k]).1 != EvidenceKind::Benchmark implies m[k].5
                == spec_confidence_for(m[k].4) by {
                assert(about_one_match(m));
            }
        }
        assert(self_rated(m));
        lemma_self_rated_join(o, fm);
        lemma_self_rated_join(o + fm, b);
        lemma_self_rated_join(o + fm + b, h);
        lemma_self_rated_join(o + fm + b + h, pt);
        lemma_self_rated_join(o + fm + b + h + pt, fc);
        lemma_self_rated_join(o + fm + b + h + pt + fc, m);
    }
}

proof fn lemma_patterns_self_rated(p: Seq<RecurringPattern>, left: nat)
    ensures
        self_rated(pattern_items(p, left)),
    decreases p.len(),
{
    if p.len() > 0 && left > 0 {
        if p[0].status == PatternStatus::Resolved {
            lemma_patterns_self_rated(p.drop_first(), left);
        } else {
            lemma_patterns_self_rated(p.drop_first(), (left - 1) as nat);
            let head = seq![pattern_item(p[0])];
            assert(self_rated(head));
            lemma_self_rated_join(head, pattern_items(p.drop_first(), (left - 1) as nat));
            assert(pattern_items(p, left) == head + pattern_items(p.drop_first(), (left - 1) as nat));
        }
    }
}

// ---------------------------------------------------------------------------
// Recent form counts the wins it reports
// ---------------------------------------------------------------------------

/// The newest ten matches, or all of them when there are fewer.
pub open spec fn newest_ten(recent: Seq<Match>) -> Seq<Match> {
    recent.take(if recent.len() < 10 { recent.len() as int } else { 10 })
}

/// The matches of `s` that were won.
pub open spec fn won_among(s: Seq<Match>) -> Seq<Match> {
    s.filter(|m: Match| m.won)
}

proof fn lemma_wins_in_counts_won(w: Seq<Match>)
    ensures
        wins_in(w) == won_among(w).len(),
    decreases w.len(),
{
    reveal(Seq::filter);
    if w.len() > 0 {
        lemma_wins_in_counts_won(w.drop_last());
    }
}

proof fn lemma_streak_of_three(w: Seq<Match>)
    requires
        w.len() > 0,
    ensures
        run_of(w, w[0].won) >= 3 <==> (w.len() >= 3 && w[1].won == w[0].won && w[2].won == w[0].won),
{
    let won = w[0].won;
    let w1 = w.drop_first();
    assert(run_of(w, won) == 1 + run_of(w1, won));
    if w1.len() > 0 {
        assert(w1[0] == w[1]);
        let w2 = w1.drop_first();
        if w1[0].won == won {
            assert(run_of(w1, won) == 1 + run_of(w2, won));
            if w2.len() > 0 {
                assert(w2[0] == w[2]);
                if w2[0].won == won {
                    assert(run_of(w2, won) == 1 + run_of(w2.drop_first(), won));
                } else {
                    assert(run_of(w2, won) == 0);
                }
            } else {
                assert(run_of(w2, won) == 0);
            }
        } else {
            assert(run_of(w1, won) == 0);
        }
    } else {
        assert(run_of(w1, won) == 0);
    }
}

/// Recent form reports how many of the newest ten matches (all of them when
/// fewer were played) were won, out of how many: "You have won 7 of your
/// last 10 matches." It is the first form item, and whenever the list is
/// built at all it carries that item.
pub proof fn recent_form_counts_the_wins(
    career: CareerFigures,
    recent: Seq<Match>,
    benchmarks: Seq<BenchmarkFigures>,
    benchmark_hero: Option<Seq<char>>,
    pool: Seq<PoolFigures>,
    fits: Seq<FitFigures>,
    patterns: Seq<RecurringPattern>,
    focus: Option<FocusFigures>,
    focus_match: Option<(Match, MatchFigures)>,
)
    requires
        recent.len() > 0,
    ensures
        form_items(recent)[0].0 == "form.recent"@,
        form_items(recent)[0].3 == "You have won "@ + decimal(won_among(newest_ten(recent)).len())
            + " of your last "@ + decimal(newest_ten(recent).len()) + " "@ + matches_word(
            newest_ten(recent).len() as int,
        ) + "."@,
        form_items(recent)[0].4 == newest_ten(recent).len(),
        career.matches != 0 || focus_match is Some ==> spec_build(
            career,
            recent,
            benchmarks,
            benchmark_hero,
            pool,
            fits,
            patterns,
            focus,
            focus_match,
        ).contains(form_items(recent)[0]),
{
    let w = form_window(recent);
    assert(w =~= newest_ten(recent));
    lemma_wins_in_counts_won(w);
    if career.matches != 0 || focus_match is Some {
        let o = overall_items(career);
        let e = spec_build(career, recent, benchmarks, benchmark_hero, pool, fits, patterns, focus, focus_match);
        let rest = benchmark_items(benchmarks, benchmark_hero) + hero_items(pool, fits) + pattern_items(
            patterns,
            MAX_PATTERN_EVIDENCE as nat,
        ) + focus_items(focus) + match focus_match {
            Some((m, f)) => match_items(m, f, career),
            None => seq![],
        };
        assert(e =~= o + form_items(recent) + rest);
        assert(e[o.len() as int] == form_items(recent)[0]);
    }
}

/// A streak item follows the win count exactly when the newest three matches
/// share a result, and it says which result.
pub proof fn a_streak_needs_three_alike(recent: Seq<Match>)
    requires
        recent.len() > 0,
    ensures
        form_items(recent).len() == 2 <==> (recent.len() >= 3 && recent[1].won == recent[0].won
            && recent[2].won == recent[0].won),
        form_items(recent).len() == 2 ==> form_items(recent)[1].0 == "form.streak"@
            && form_items(recent)[1].3.take(10) == "Your last "@,
{
    let w = form_window(recent);
    assert(w.len() >= 3 ==> w[0] == recent[0] && w[1] == recent[1] && w[2] == recent[2]);
    lemma_streak_of_three(w);
    reveal_strlit("Your last ");
    let streak = run_of(w, w[0].won);
    if streak >= 3 {
        let st = "Your last "@ + decimal(streak) + " matches were all "@ + (if w[0].won {
            "wins"@
        } else {
            "losses"@
        }) + "."@;
        assert(st.take(10) =~= "Your last "@);
    }
}

} // verus!
