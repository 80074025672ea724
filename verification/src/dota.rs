//! Reading the Dota data provider's answers.
//!
//! The provider's response shapes stop here: what it sent is turned into the
//! library's own match and player records, so another provider can be
//! dropped in without touching anything downstream. Fetching and decoding the
//! JSON is the caller's; deciding what the fields mean is done here.

use vstd::prelude::*;

use chrono::TimeZone;

use crate::text::{i64_text, owned, push_str, signed_decimal};

verus! {

/// Slots 0-127 are Radiant, 128-255 are Dire.
pub const DIRE_SLOT_THRESHOLD: i32 = 128;

/// A full team, the least a farm rank can be read from.
pub const TEAM_SIZE: usize = 5;

pub const NO_RESULT: &'static str = "match has no result";

pub const NO_START_TIME: &'static str = "match has no usable start time";

/// A player as the provider knows them.
#[derive(Debug, Clone, PartialEq)]
pub struct ProviderPlayer {
    pub account_id: i64,
    pub persona_name: Option<String>,
    pub avatar_url: Option<String>,
    pub profile_url: Option<String>,
    pub rank_tier: Option<i32>,
    /// False when the provider has no public profile for this account. The
    /// account may still have matches.
    pub has_public_profile: bool,
}

#[derive(Debug, Clone, PartialEq)]
pub enum ProviderError {
    NotFound,
    RateLimited,
    Unavailable(String),
    Decode(String),
}

impl ProviderError {
    /// The error as a sentence for logs.
    pub fn message(&self) -> (s: String)
        ensures
            match self {
                ProviderError::NotFound => s@ == "not found at provider"@,
                ProviderError::RateLimited => s@ == "provider rate limit reached"@,
                ProviderError::Unavailable(m) => s@ == "provider unavailable: "@ + m@,
                ProviderError::Decode(m) => s@ == "unexpected provider response: "@ + m@,
            },
    {
        match self {
            ProviderError::NotFound => owned("not found at provider"),
            ProviderError::RateLimited => owned("provider rate limit reached"),
            ProviderError::Unavailable(m) => {
                let mut s = owned("provider unavailable: ");
                push_str(&mut s, m.as_str());
                s
            },
            ProviderError::Decode(m) => {
                let mut s = owned("unexpected provider response: ");
                push_str(&mut s, m.as_str());
                s
            },
        }
    }
}

/// A match as the rest of the product stores it, whichever provider and
/// endpoint it came from.
#[derive(Debug, Clone, PartialEq)]
pub struct NormalizedMatch {
    pub match_id: i64,
    pub hero_id: i32,
    pub won: bool,
    pub duration_seconds: i32,
    pub kills: i32,
    pub deaths: i32,
    pub assists: i32,
    pub gpm: i32,
    pub xpm: i32,
    pub last_hits: i32,
    pub denies: Option<i32>,
    pub net_worth: Option<i32>,
    pub hero_damage: Option<i32>,
    pub tower_damage: Option<i32>,
    pub hero_healing: Option<i32>,
    pub lane_role: Option<i16>,
    pub is_roaming: Option<bool>,
    /// Place in the player's own team by net worth, 0 the richest.
    pub farm_rank: Option<u8>,
    pub game_mode: Option<i32>,
    pub lobby_type: Option<i32>,
    pub party_size: Option<i32>,
    /// Unix seconds.
    pub started_at: i64,
    pub from_details: bool,
}

/// The provider's player envelope.
#[derive(Debug, Clone, PartialEq)]
pub struct RawPlayerEnvelope {
    pub profile: Option<RawProfile>,
    pub rank_tier: Option<i32>,
}

#[derive(Debug, Clone, PartialEq)]
pub struct RawProfile {
    pub personaname: Option<String>,
    pub avatarfull: Option<String>,
    pub profileurl: Option<String>,
}

/// One entry of a player's match list.
#[derive(Debug, Clone, PartialEq)]
pub struct RawRecentMatch {
    pub match_id: i64,
    pub player_slot: i32,
    pub radiant_win: Option<bool>,
    pub duration: Option<i32>,
    pub start_time: Option<i64>,
    pub hero_id: i32,
    pub game_mode: Option<i32>,
    pub lobby_type: Option<i32>,
    pub kills: Option<i32>,
    pub deaths: Option<i32>,
    pub assists: Option<i32>,
    pub gold_per_min: Option<i32>,
    pub xp_per_min: Option<i32>,
    pub last_hits: Option<i32>,
    pub hero_damage: Option<i32>,
    pub tower_damage: Option<i32>,
    pub hero_healing: Option<i32>,
    pub lane_role: Option<i16>,
    pub is_roaming: Option<bool>,
    pub party_size: Option<i32>,
}

/// A whole match, every player in it.
#[derive(Debug, Clone, PartialEq)]
pub struct RawMatchDetail {
    pub match_id: i64,
    pub radiant_win: Option<bool>,
    pub duration: Option<i32>,
    pub start_time: Option<i64>,
    pub game_mode: Option<i32>,
    pub lobby_type: Option<i32>,
    pub players: Vec<RawMatchPlayer>,
}

#[derive(Debug, Clone, PartialEq)]
pub struct RawMatchPlayer {
    /// Null for an anonymous player.
    pub account_id: Option<i64>,
    pub player_slot: i32,
    pub hero_id: i32,
    pub kills: Option<i32>,
    pub deaths: Option<i32>,
    pub assists: Option<i32>,
    pub last_hits: Option<i32>,
    pub denies: Option<i32>,
    pub gold_per_min: Option<i32>,
    pub xp_per_min: Option<i32>,
    pub net_worth: Option<i32>,
    pub total_gold: Option<i32>,
    pub hero_damage: Option<i32>,
    pub tower_damage: Option<i32>,
    pub hero_healing: Option<i32>,
    pub lane_role: Option<i16>,
    pub is_roaming: Option<bool>,
}

/// The day, counted from January 1 of year 1 as day one, that holds the
/// instant this many seconds from the epoch.
pub open spec fn day_from_ce(seconds: i64) -> int {
    seconds as int / 86_400 + 719_163
}

/// Whether chrono can represent this many seconds from the epoch as a UTC
/// instant: its day must lie between January 1 of year -262143 and
/// December 31 of year 262142, the first and last dates it holds.
pub open spec fn representable(seconds: i64) -> bool {
    -95_746_129 <= day_from_ce(seconds) <= 95_745_399
}

/// Calls chrono's `Utc.timestamp_opt(seconds, 0).single()`. chrono turns the
/// count into the day `seconds.div_euclid(86_400) + 719_163` and answers
/// `Some` exactly when that day lies in its date range, which is what
/// `representable` states.
#[verifier::external_body]
fn timestamp_is_representable(seconds: i64) -> (b: bool)
    ensures
        b == representable(seconds),
{
    chrono::Utc.timestamp_opt(seconds, 0).single().is_some()
}

/// Fallback label when the hero catalogue is unavailable, so a sync never
/// fails just because a cosmetic lookup did.
pub fn fallback_hero_name(hero_id: i32) -> (s: String)
    ensures
        s@ == "Hero "@ + signed_decimal(hero_id as int),
{
    let mut s = owned("Hero ");
    let n = i64_text(hero_id as i64);
    push_str(&mut s, n.as_str());
    s
}

pub open spec fn spec_is_radiant(player_slot: i32) -> bool {
    player_slot < DIRE_SLOT_THRESHOLD
}

pub fn is_radiant(player_slot: i32) -> (b: bool)
    ensures
        b == spec_is_radiant(player_slot),
{
    player_slot < DIRE_SLOT_THRESHOLD
}

/// Older matches predate `net_worth`; `total_gold` is the closest stand-in.
pub open spec fn spec_net_worth_of(p: RawMatchPlayer) -> Option<i32> {
    match p.net_worth {
        Some(w) => Some(w),
        None => p.total_gold,
    }
}

pub fn net_worth_of(p: &RawMatchPlayer) -> (w: Option<i32>)
    ensures
        w == spec_net_worth_of(*p),
{
    match p.net_worth {
        Some(w) => Some(w),
        None => p.total_gold,
    }
}

/// A player with no public profile is still a player; only the profile
/// fields are absent.
pub fn normalize_player(account_id: i64, raw: RawPlayerEnvelope) -> (p: ProviderPlayer)
    ensures
        p.account_id == account_id,
        p.rank_tier == raw.rank_tier,
        p.has_public_profile == raw.profile is Some,
        match raw.profile {
            Some(profile) => p.persona_name == profile.personaname && p.avatar_url
                == profile.avatarfull && p.profile_url == profile.profileurl,
            None => p.persona_name is None && p.avatar_url is None && p.profile_url is None,
        },
{
    let has_public_profile = raw.profile.is_some();
    let (persona_name, avatar_url, profile_url) = match raw.profile {
        Some(p) => (p.personaname, p.avatarfull, p.profileurl),
        None => (None, None, None),
    };
    ProviderPlayer {
        account_id,
        persona_name,
        avatar_url,
        profile_url,
        rank_tier: raw.rank_tier,
        has_public_profile,
    }
}

pub open spec fn or_zero(o: Option<i32>) -> i32 {
    match o {
        Some(v) => v,
        None => 0,
    }
}

/// A reported length, never negative.
pub open spec fn spec_duration(o: Option<i32>) -> i32 {
    let d = or_zero(o);
    if d < 0 {
        0
    } else {
        d
    }
}

fn value_or_zero(o: Option<i32>) -> (v: i32)
    ensures
        v == or_zero(o),
{
    match o {
        Some(v) => v,
        None => 0,
    }
}

fn duration_of(o: Option<i32>) -> (v: i32)
    ensures
        v == spec_duration(o),
{
    let d = value_or_zero(o);
    if d < 0 {
        0
    } else {
        d
    }
}

/// What a summary entry says, or `None` when it cannot be read: no known
/// winner, no start time, or a time chrono cannot represent. The summary
/// endpoint carries no denies, net worth or team, so those stay absent
/// rather than being invented.
pub open spec fn spec_normalize_recent_match(raw: RawRecentMatch) -> Option<NormalizedMatch> {
    match (raw.radiant_win, raw.start_time) {
        (Some(radiant_win), Some(start)) => if representable(start) {
            Some(
                NormalizedMatch {
                    match_id: raw.match_id,
                    hero_id: raw.hero_id,
                    won: radiant_win == spec_is_radiant(raw.player_slot),
                    duration_seconds: spec_duration(raw.duration),
                    kills: or_zero(raw.kills),
                    deaths: or_zero(raw.deaths),
                    assists: or_zero(raw.assists),
                    gpm: or_zero(raw.gold_per_min),
                    xpm: or_zero(raw.xp_per_min),
                    last_hits: or_zero(raw.last_hits),
                    denies: None,
                    net_worth: None,
                    hero_damage: raw.hero_damage,
                    tower_damage: raw.tower_damage,
                    hero_healing: raw.hero_healing,
                    lane_role: raw.lane_role,
                    is_roaming: raw.is_roaming,
                    farm_rank: None,
                    game_mode: raw.game_mode,
                    lobby_type: raw.lobby_type,
                    party_size: raw.party_size,
                    started_at: start,
                    from_details: false,
                },
            )
        } else {
            None
        },
        _ => None,
    }
}

pub fn normalize_recent_match(raw: RawRecentMatch) -> (m: Option<NormalizedMatch>)
    ensures
        m == spec_normalize_recent_match(raw),
{
    let radiant_win = match raw.radiant_win {
        Some(w) => w,
        None => return None,
    };
    let start = match raw.start_time {
        Some(s) => s,
        None => return None,
    };
    if !timestamp_is_representable(start) {
        return None;
    }
    Some(
        NormalizedMatch {
            match_id: raw.match_id,
            hero_id: raw.hero_id,
            won: radiant_win == is_radiant(raw.player_slot),
            duration_seconds: duration_of(raw.duration),
            kills: value_or_zero(raw.kills),
            deaths: value_or_zero(raw.deaths),
            assists: value_or_zero(raw.assists),
            gpm: value_or_zero(raw.gold_per_min),
            xpm: value_or_zero(raw.xp_per_min),
            last_hits: value_or_zero(raw.last_hits),
            denies: None,
            net_worth: None,
            hero_damage: raw.hero_damage,
            tower_damage: raw.tower_damage,
            hero_healing: raw.hero_healing,
            lane_role: raw.lane_role,
            is_roaming: raw.is_roaming,
            farm_rank: None,
            game_mode: raw.game_mode,
            lobby_type: raw.lobby_type,
            party_size: raw.party_size,
            started_at: start,
            from_details: false,
        },
    )
}

/// Players on the side `radiant` whose net worth is known.
pub open spec fn known_on_side(players: Seq<RawMatchPlayer>, radiant: bool) -> nat
    decreases players.len(),
{
    if players.len() == 0 {
        0
    } else {
        known_on_side(players.drop_last(), radiant) + if spec_is_radiant(players.last().player_slot)
            == radiant && spec_net_worth_of(players.last()) is Some {
            1nat
        } else {
            0nat
        }
    }
}

/// Players on the side `radiant` strictly richer than `worth`.
pub open spec fn richer_on_side(players: Seq<RawMatchPlayer>, radiant: bool, worth: i32) -> nat
    decreases players.len(),
{
    if players.len() == 0 {
        0
    } else {
        richer_on_side(players.drop_last(), radiant, worth) + if spec_is_radiant(
            players.last().player_slot,
        ) == radiant && (match spec_net_worth_of(players.last()) {
            Some(w) => w > worth,
            None => false,
        }) {
            1nat
        } else {
            0nat
        }
    }
}

/// Where the player sits in their own team's farm priority: 0 is the
/// highest net worth. Ties share the higher place. A partial team
/// (anonymous players, truncated payloads) makes the rank meaningless, so
/// nothing is reported rather than something wrong.
pub open spec fn spec_farm_rank(players: Seq<RawMatchPlayer>, index: int) -> Option<u8> {
    if index < 0 || index >= players.len() {
        None
    } else {
        let target = players[index];
        let side = spec_is_radiant(target.player_slot);
        match spec_net_worth_of(target) {
            None => None,
            Some(worth) => if known_on_side(players, side) < TEAM_SIZE {
                None
            } else {
                Some(richer_on_side(players, side, worth) as u8)
            },
        }
    }
}

pub fn farm_rank(players: &[RawMatchPlayer], index: usize) -> (r: Option<u8>)
    ensures
        r == spec_farm_rank(players@, index as int),
{
    if index >= players.len() {
        return None;
    }
    let side = is_radiant(players[index].player_slot);
    let worth = match net_worth_of(&players[index]) {
        None => return None,
        Some(w) => w,
    };
    let mut known: usize = 0;
    let mut richer: usize = 0;
    let mut i: usize = 0;
    while i < players.len()
        invariant
            i <= players@.len(),
            known == known_on_side(players@.take(i as int), side),
            richer == richer_on_side(players@.take(i as int), side, worth),
            known <= i,
            richer <= i,
        decreases players@.len() - i,
    {
        proof {
            assert(players@.take(i + 1).drop_last() =~= players@.take(i as int));
        }
        let p = &players[i];
        if is_radiant(p.player_slot) == side {
            match net_worth_of(p) {
                Some(w) => {
                    known = known + 1;
                    if w > worth {
                        richer = richer + 1;
                    }
                },
                None => {},
            }
        }
        i = i + 1;
    }
    proof {
        assert(players@.take(players@.len() as int) =~= players@);
    }
    if known < TEAM_SIZE {
        return None;
    }
    Some(richer as u8)
}

/// The first player carrying this account id. Anonymous players carry
/// none, so a private profile inside a public match is not found.
pub open spec fn is_first_with_account(players: Seq<RawMatchPlayer>, account_id: i64, index: int) -> bool {
    &&& 0 <= index < players.len()
    &&& players[index].account_id == Some(account_id)
    &&& forall|k: int| 0 <= k < index ==> players[k].account_id != Some(account_id)
}

pub open spec fn has_account(players: Seq<RawMatchPlayer>, account_id: i64) -> bool {
    exists|k: int| 0 <= k < players.len() && #[trigger] players[k].account_id == Some(account_id)
}

fn position_of(players: &[RawMatchPlayer], account_id: i64) -> (r: Option<usize>)
    ensures
        match r {
            Some(i) => is_first_with_account(players@, account_id, i as int),
            None => !has_account(players@, account_id),
        },
{
    let mut i: usize = 0;
    while i < players.len()
        invariant
            i <= players@.len(),
            forall|k: int| 0 <= k < i ==> players@[k].account_id != Some(account_id),
        decreases players@.len() - i,
    {
        if players[i].account_id == Some(account_id) {
            return Some(i);
        }
        i = i + 1;
    }
    None
}

/// The requested player's line of a full match.
pub open spec fn detail_of(raw: RawMatchDetail, index: int, radiant_win: bool, start: i64) -> NormalizedMatch {
    let p = raw.players@[index];
    NormalizedMatch {
        match_id: raw.match_id,
        hero_id: p.hero_id,
        won: radiant_win == spec_is_radiant(p.player_slot),
        duration_seconds: spec_duration(raw.duration),
        kills: or_zero(p.kills),
        deaths: or_zero(p.deaths),
        assists: or_zero(p.assists),
        gpm: or_zero(p.gold_per_min),
        xpm: or_zero(p.xp_per_min),
        last_hits: or_zero(p.last_hits),
        denies: p.denies,
        net_worth: spec_net_worth_of(p),
        hero_damage: p.hero_damage,
        tower_damage: p.tower_damage,
        hero_healing: p.hero_healing,
        lane_role: p.lane_role,
        is_roaming: p.is_roaming,
        farm_rank: spec_farm_rank(raw.players@, index),
        game_mode: raw.game_mode,
        lobby_type: raw.lobby_type,
        party_size: None,
        started_at: start,
        from_details: true,
    }
}

pub open spec fn is_decode_error<T>(r: Result<T, ProviderError>, message: Seq<char>) -> bool {
    r matches Err(ProviderError::Decode(m)) && m@ == message
}

/// One player's match, read from the full match: a decode error when the
/// match has no result or no usable start time, not found when the player
/// is not in it under that account.
pub fn normalize_match_detail(raw: RawMatchDetail, account_id: i64) -> (r: Result<
    NormalizedMatch,
    ProviderError,
>)
    ensures
        match raw.radiant_win {
            None => is_decode_error(r, NO_RESULT@),
            Some(radiant_win) => match raw.start_time {
                Some(start) if representable(start) => if has_account(raw.players@, account_id) {
                    exists|i: int|
                        #![trigger is_first_with_account(raw.players@, account_id, i)]
                        is_first_with_account(raw.players@, account_id, i) && r == Ok::<
                            NormalizedMatch,
                            ProviderError,
                        >(detail_of(raw, i, radiant_win, start))
                } else {
                    r == Err::<NormalizedMatch, ProviderError>(ProviderError::NotFound)
                },
                _ => is_decode_error(r, NO_START_TIME@),
            },
        },
{
    let radiant_win = match raw.radiant_win {
        Some(w) => w,
        None => return Err(ProviderError::Decode(owned(NO_RESULT))),
    };
    let start = match raw.start_time {
        Some(s) => {
            if timestamp_is_representable(s) {
                s
            } else {
                return Err(ProviderError::Decode(owned(NO_START_TIME)));
            }
        },
        None => return Err(ProviderError::Decode(owned(NO_START_TIME))),
    };
    let index = match position_of(raw.players.as_slice(), account_id) {
        Some(i) => i,
        None => return Err(ProviderError::NotFound),
    };
    let rank = farm_rank(raw.players.as_slice(), index);
    let p = &raw.players[index];
    let m = NormalizedMatch {
        match_id: raw.match_id,
        hero_id: p.hero_id,
        won: radiant_win == is_radiant(p.player_slot),
        duration_seconds: duration_of(raw.duration),
        kills: value_or_zero(p.kills),
        deaths: value_or_zero(p.deaths),
        assists: value_or_zero(p.assists),
        gpm: value_or_zero(p.gold_per_min),
        xpm: value_or_zero(p.xp_per_min),
        last_hits: value_or_zero(p.last_hits),
        denies: p.denies,
        net_worth: net_worth_of(p),
        hero_damage: p.hero_damage,
        tower_damage: p.tower_damage,
        hero_healing: p.hero_healing,
        lane_role: p.lane_role,
        is_roaming: p.is_roaming,
        farm_rank: rank,
        game_mode: raw.game_mode,
        lobby_type: raw.lobby_type,
        party_size: None,
        started_at: start,
        from_details: true,
    };
    proof {
        assert(is_first_with_account(raw.players@, account_id, index as int));
        assert(m == detail_of(raw, index as int, radiant_win, start));
    }
    Ok(m)
}

} // verus!
