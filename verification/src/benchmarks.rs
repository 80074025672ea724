//! Peer comparison: how much a figure generalizes, and which peer group a
//! distribution actually describes.
//!
//! The percentile arithmetic itself works on provider floats and lives with
//! the application; what is decided here is the honesty around it — when a
//! sample is too thin to rank, and whether a comparison is really segmented by
//! rank or quietly fell back to everyone.

use vstd::prelude::*;

use crate::text::{i64_text, owned, push_str, signed_decimal};

verus! {

/// Below this many of the player's own matches, no percentile is claimed.
pub const MIN_SAMPLE: i64 = 5;

/// Below this, the figure is shown but flagged.
pub const LOW_SAMPLE: i64 = 15;

/// How far a figure generalizes.
#[derive(Debug, Clone, Copy, PartialEq, Eq, Structural)]
pub enum Confidence {
    Insufficient,
    Low,
    Adequate,
}

impl Confidence {
    /// The lowercase name the API and the model payload use.
    pub fn slug(&self) -> (s: &'static str)
        ensures
            s@ == spec_confidence_slug(*self),
    {
        match self {
            Confidence::Insufficient => "insufficient",
            Confidence::Low => "low",
            Confidence::Adequate => "adequate",
        }
    }
}

pub open spec fn spec_confidence_slug(c: Confidence) -> Seq<char> {
    match c {
        Confidence::Insufficient => "insufficient"@,
        Confidence::Low => "low"@,
        Confidence::Adequate => "adequate"@,
    }
}

/// The confidence a sample of `player_sample` matches earns.
pub open spec fn spec_confidence_for(player_sample: i64) -> Confidence {
    if player_sample < MIN_SAMPLE {
        Confidence::Insufficient
    } else if player_sample < LOW_SAMPLE {
        Confidence::Low
    } else {
        Confidence::Adequate
    }
}

/// A rank order on confidence, for stating that more matches never lower it.
pub open spec fn confidence_rank(c: Confidence) -> int {
    match c {
        Confidence::Insufficient => 0,
        Confidence::Low => 1,
        Confidence::Adequate => 2,
    }
}

pub fn confidence_for(player_sample: i64) -> (c: Confidence)
    ensures
        c == spec_confidence_for(player_sample),
{
    if player_sample < MIN_SAMPLE {
        Confidence::Insufficient
    } else if player_sample < LOW_SAMPLE {
        Confidence::Low
    } else {
        Confidence::Adequate
    }
}

/// More of the player's own matches never makes a figure less trustworthy,
/// and only a sample of at least [`MIN_SAMPLE`] is ever ranked.
pub proof fn confidence_is_monotone(a: i64, b: i64)
    requires
        a <= b,
    ensures
        confidence_rank(spec_confidence_for(a)) <= confidence_rank(spec_confidence_for(b)),
        (spec_confidence_for(a) != Confidence::Insufficient) <==> a >= MIN_SAMPLE,
{
}

/// Why a metric's percentile is withheld, if it is: the player's own sample
/// is too thin to rank, or the provider has no distribution to place the
/// figure in. The thin sample is checked first.
pub open spec fn spec_withheld_note(confidence: Confidence, has_distribution: bool, player_sample: i64) -> Option<Seq<char>> {
    if confidence == Confidence::Insufficient {
        Some(
            "Not enough matches yet — "@ + signed_decimal(MIN_SAMPLE as int)
                + " needed for a percentile, you have "@ + signed_decimal(player_sample as int) + "."@,
        )
    } else if !has_distribution {
        Some("The provider has no distribution for this metric."@)
    } else {
        None
    }
}

pub open spec fn opt_text(o: Option<String>) -> Option<Seq<char>> {
    match o {
        Some(s) => Some(s@),
        None => None,
    }
}

/// The note that stands in place of a percentile; `None` means the metric is
/// ranked. The player's own value is shown either way.
pub fn withheld_note(confidence: Confidence, has_distribution: bool, player_sample: i64) -> (note: Option<String>)
    ensures
        opt_text(note) == spec_withheld_note(confidence, has_distribution, player_sample),
{
    match confidence {
        Confidence::Insufficient => {
            let mut s = owned("Not enough matches yet — ");
            let floor = i64_text(MIN_SAMPLE);
            push_str(&mut s, floor.as_str());
            push_str(&mut s, " needed for a percentile, you have ");
            let have = i64_text(player_sample);
            push_str(&mut s, have.as_str());
            push_str(&mut s, ".");
            Some(s)
        },
        _ => {
            if has_distribution {
                None
            } else {
                Some(owned("The provider has no distribution for this metric."))
            }
        },
    }
}

/// A percentile is only ever claimed for a sample of at least
/// [`MIN_SAMPLE`] matches placed in a distribution the provider supplied.
pub proof fn ranked_only_on_enough_matches(has_distribution: bool, player_sample: i64)
    ensures
        spec_withheld_note(spec_confidence_for(player_sample), has_distribution, player_sample) is None
            <==> (player_sample >= MIN_SAMPLE && has_distribution),
{
}

/// The dimensions a distribution can be segmented on.
#[derive(Debug, Clone, Copy, PartialEq, Eq, Structural)]
pub enum Segment {
    Hero,
    RankBracket,
}

/// The eight medals, in ladder order.
#[derive(Debug, Clone, Copy, PartialEq, Eq, Structural)]
pub enum RankBracket {
    Herald,
    Guardian,
    Crusader,
    Archon,
    Legend,
    Ancient,
    Divine,
    Immortal,
}

pub open spec fn spec_bracket_index(b: RankBracket) -> int {
    match b {
        RankBracket::Herald => 1,
        RankBracket::Guardian => 2,
        RankBracket::Crusader => 3,
        RankBracket::Archon => 4,
        RankBracket::Legend => 5,
        RankBracket::Ancient => 6,
        RankBracket::Divine => 7,
        RankBracket::Immortal => 8,
    }
}

pub open spec fn spec_bracket_label(b: RankBracket) -> Seq<char> {
    match b {
        RankBracket::Herald => "Herald"@,
        RankBracket::Guardian => "Guardian"@,
        RankBracket::Crusader => "Crusader"@,
        RankBracket::Archon => "Archon"@,
        RankBracket::Legend => "Legend"@,
        RankBracket::Ancient => "Ancient"@,
        RankBracket::Divine => "Divine"@,
        RankBracket::Immortal => "Immortal"@,
    }
}

/// The bracket whose index is `index`, if there is one.
pub open spec fn spec_bracket_of(index: int) -> Option<RankBracket> {
    if index == 1 {
        Some(RankBracket::Herald)
    } else if index == 2 {
        Some(RankBracket::Guardian)
    } else if index == 3 {
        Some(RankBracket::Crusader)
    } else if index == 4 {
        Some(RankBracket::Archon)
    } else if index == 5 {
        Some(RankBracket::Legend)
    } else if index == 6 {
        Some(RankBracket::Ancient)
    } else if index == 7 {
        Some(RankBracket::Divine)
    } else if index == 8 {
        Some(RankBracket::Immortal)
    } else {
        None
    }
}

impl RankBracket {
    /// The provider's bracket number: 1 Herald to 8 Immortal.
    pub fn index(self) -> (i: u8)
        ensures
            i == spec_bracket_index(self),
    {
        match self {
            RankBracket::Herald => 1,
            RankBracket::Guardian => 2,
            RankBracket::Crusader => 3,
            RankBracket::Archon => 4,
            RankBracket::Legend => 5,
            RankBracket::Ancient => 6,
            RankBracket::Divine => 7,
            RankBracket::Immortal => 8,
        }
    }

    pub fn label(self) -> (s: &'static str)
        ensures
            s@ == spec_bracket_label(self),
    {
        match self {
            RankBracket::Herald => "Herald",
            RankBracket::Guardian => "Guardian",
            RankBracket::Crusader => "Crusader",
            RankBracket::Archon => "Archon",
            RankBracket::Legend => "Legend",
            RankBracket::Ancient => "Ancient",
            RankBracket::Divine => "Divine",
            RankBracket::Immortal => "Immortal",
        }
    }

    /// The bracket a provider rank tier (`medal * 10 + stars`) falls in.
    pub fn from_rank_tier(rank_tier: i32) -> (b: Option<RankBracket>)
        ensures
            b == spec_bracket_of(rank_tier / 10),
    {
        let medal = rank_tier / 10;
        if medal == 1 {
            Some(RankBracket::Herald)
        } else if medal == 2 {
            Some(RankBracket::Guardian)
        } else if medal == 3 {
            Some(RankBracket::Crusader)
        } else if medal == 4 {
            Some(RankBracket::Archon)
        } else if medal == 5 {
            Some(RankBracket::Legend)
        } else if medal == 6 {
            Some(RankBracket::Ancient)
        } else if medal == 7 {
            Some(RankBracket::Divine)
        } else if medal == 8 {
            Some(RankBracket::Immortal)
        } else {
            None
        }
    }
}

/// Which rank bracket a distribution actually describes, and whether that is
/// the one that was asked for.
#[derive(Debug, Clone, PartialEq)]
pub struct ResolvedBracket {
    /// What was asked for: an explicit bracket, or the player's own.
    pub requested: Option<RankBracket>,
    /// What actually backs the numbers. `None` is all ranks.
    pub used: Option<RankBracket>,
    /// Set when a bracket was asked for and the provider had nothing there.
    pub fell_back: bool,
    /// How the peer group is named on screen.
    pub label: &'static str,
}

pub open spec fn all_ranks_label() -> Seq<char> {
    "All ranks"@
}

impl ResolvedBracket {
    /// Every rank, asked for as such.
    pub fn all_ranks() -> (r: ResolvedBracket)
        ensures
            r.requested is None,
            r.used is None,
            !r.fell_back,
            r.label@ == all_ranks_label(),
    {
        ResolvedBracket { requested: None, used: None, fell_back: false, label: "All ranks" }
    }

    /// A bracket asked for by name.
    pub fn exact(bracket: RankBracket) -> (r: ResolvedBracket)
        ensures
            r.requested == Some(bracket),
            r.used == Some(bracket),
            !r.fell_back,
            r.label@ == spec_bracket_label(bracket),
    {
        ResolvedBracket {
            requested: Some(bracket),
            used: Some(bracket),
            fell_back: false,
            label: bracket.label(),
        }
    }

    /// The bracket a player's own rank tier points at; all ranks for an
    /// unranked player, who asked for nothing in particular.
    pub fn requested_for(rank_tier: Option<i32>) -> (r: ResolvedBracket)
        ensures
            r.requested == (match rank_tier {
                Some(t) => spec_bracket_of(t / 10),
                None => None,
            }),
            r.used == r.requested,
            !r.fell_back,
            r.label@ == (match r.used {
                Some(b) => spec_bracket_label(b),
                None => all_ranks_label(),
            }),
    {
        let bracket = match rank_tier {
            Some(t) => RankBracket::from_rank_tier(t),
            None => None,
        };
        match bracket {
            Some(b) => ResolvedBracket::exact(b),
            None => ResolvedBracket::all_ranks(),
        }
    }

    /// The provider published nothing in `asked`, so the numbers are the
    /// all-ranks ones, and say so.
    pub fn fell_back_from(asked: RankBracket) -> (r: ResolvedBracket)
        ensures
            r.requested == Some(asked),
            r.used is None,
            r.fell_back,
            r.label@ == all_ranks_label(),
    {
        ResolvedBracket { requested: Some(asked), used: None, fell_back: true, label: "All ranks" }
    }

    /// Rank counts as segmented only when a bracket genuinely backed the
    /// numbers.
    pub fn is_rank_segmented(&self) -> (b: bool)
        ensures
            b == self.used.is_some(),
    {
        self.used.is_some()
    }
}

/// The bracket a distribution is fetched for: an explicit request wins over
/// the player's own rank.
pub fn resolve_request(bracket: Option<RankBracket>, rank_tier: Option<i32>) -> (r:
    ResolvedBracket)
    ensures
        bracket is Some ==> r.requested == bracket && r.used == bracket,
        bracket is None ==> r.requested == (match rank_tier {
            Some(t) => spec_bracket_of(t / 10),
            None => None,
        }),
        !r.fell_back,
{
    match bracket {
        Some(b) => ResolvedBracket::exact(b),
        None => ResolvedBracket::requested_for(rank_tier),
    }
}

/// What a provider's answer for the requested bracket leads to.
///
/// `asked` is the bracket the first fetch used. When that fetch came back
/// empty and a bracket was asked for, the all-ranks distribution is fetched
/// and recorded as a fallback; an empty all-ranks answer is no benchmark at
/// all.
#[derive(Debug, Clone, PartialEq)]
pub enum BracketStep {
    /// Use the buckets that came back, under the requested bracket.
    UseRequested,
    /// Fetch all ranks and record the fallback from this bracket.
    FallBack(RankBracket),
    /// Nothing is published for this context.
    NotFound,
}

pub fn after_first_fetch(first_was_empty: bool, asked: Option<RankBracket>) -> (s: BracketStep)
    ensures
        !first_was_empty ==> s is UseRequested,
        first_was_empty && asked is Some ==> s == BracketStep::FallBack(asked->0),
        first_was_empty && asked is None ==> s is NotFound,
{
    if !first_was_empty {
        BracketStep::UseRequested
    } else {
        match asked {
            Some(b) => BracketStep::FallBack(b),
            None => BracketStep::NotFound,
        }
    }
}

/// The dimensions a distribution genuinely segmented on.
pub fn segmented_by(bracket: &ResolvedBracket) -> (s: Vec<Segment>)
    ensures
        bracket.used is Some ==> s@ == seq![Segment::Hero, Segment::RankBracket],
        bracket.used is None ==> s@ == seq![Segment::Hero],
{
    let mut s = Vec::new();
    s.push(Segment::Hero);
    if bracket.is_rank_segmented() {
        s.push(Segment::RankBracket);
    }
    proof {
        if bracket.used is Some {
            assert(s@ =~= seq![Segment::Hero, Segment::RankBracket]);
        } else {
            assert(s@ =~= seq![Segment::Hero]);
        }
    }
    s
}

/// Why a benchmark could not be produced.
#[derive(Debug, Clone, PartialEq)]
pub enum BenchmarkError {
    Unavailable(String),
    RateLimited,
    InvalidResponse(String),
    NotFound,
}

} // verus!
