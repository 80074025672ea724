//! Stored match facts, as the rest of the library reads them.
//!
//! Timestamps are Unix seconds and identifiers are their 128-bit values; a
//! figure the provider did not report is `None`, never a zero.

use vstd::prelude::*;

verus! {

/// Provider game-mode numbers the product distinguishes.
pub const GAME_MODE_ALL_PICK: i32 = 1;

/// The ranked All Pick queue.
pub const GAME_MODE_ALL_DRAFT: i32 = 22;

pub const GAME_MODE_TURBO: i32 = 23;

/// Provider lobby-type numbers.
pub const LOBBY_NORMAL: i32 = 0;

pub const LOBBY_RANKED: i32 = 7;

/// One stored match of one player.
#[derive(Debug, Clone, PartialEq)]
pub struct Match {
    pub id: u128,
    pub match_id: i64,
    pub hero_id: i32,
    pub hero_name: String,
    /// The role label the sync derived and stored.
    pub role: String,
    pub lane_role: Option<i16>,
    pub won: bool,
    pub duration_seconds: i32,
    pub kills: i32,
    pub deaths: i32,
    pub assists: i32,
    pub gpm: i32,
    pub xpm: i32,
    pub last_hits: i32,
    pub denies: Option<i32>,
    pub net_worth: Option<i32>,
    pub hero_damage: Option<i32>,
    pub tower_damage: Option<i32>,
    pub hero_healing: Option<i32>,
    pub game_mode: Option<i32>,
    pub lobby_type: Option<i32>,
    pub party_size: Option<i32>,
    /// Unix seconds.
    pub started_at: i64,
    pub team_kills: Option<i32>,
    pub team_deaths: Option<i32>,
    pub replay_parsed: bool,
    pub last_hits_at_10: Option<i32>,
    pub gold_at_10: Option<i32>,
    pub bkb_seconds: Option<i32>,
    pub blink_seconds: Option<i32>,
    pub midas_seconds: Option<i32>,
}

/// The competitive population the coach reads: standard All Pick
/// matchmaking, ranked or unranked public lobbies.
pub open spec fn spec_is_eligible(game_mode: Option<i32>, lobby_type: Option<i32>) -> bool {
    &&& (game_mode == Some(GAME_MODE_ALL_PICK) || game_mode == Some(GAME_MODE_ALL_DRAFT))
    &&& (lobby_type == Some(LOBBY_NORMAL) || lobby_type == Some(LOBBY_RANKED))
}

pub fn is_eligible(game_mode: Option<i32>, lobby_type: Option<i32>) -> (b: bool)
    ensures
        b == spec_is_eligible(game_mode, lobby_type),
{
    let mode_ok = match game_mode {
        Some(m) => m == GAME_MODE_ALL_PICK || m == GAME_MODE_ALL_DRAFT,
        None => false,
    };
    let lobby_ok = match lobby_type {
        Some(l) => l == LOBBY_NORMAL || l == LOBBY_RANKED,
        None => false,
    };
    mode_ok && lobby_ok
}

/// The five positions the coach analyses.
#[derive(Debug, Clone, Copy, PartialEq, Eq, Structural)]
pub enum CoachableRole {
    Carry,
    Mid,
    Offlane,
    SoftSupport,
    HardSupport,
}

pub open spec fn spec_role_slug(r: CoachableRole) -> Seq<char> {
    match r {
        CoachableRole::Carry => "carry"@,
        CoachableRole::Mid => "mid"@,
        CoachableRole::Offlane => "offlane"@,
        CoachableRole::SoftSupport => "soft_support"@,
        CoachableRole::HardSupport => "hard_support"@,
    }
}

impl CoachableRole {
    /// The stored name.
    pub fn slug(self) -> (s: &'static str)
        ensures
            s@ == spec_role_slug(self),
    {
        match self {
            CoachableRole::Carry => "carry",
            CoachableRole::Mid => "mid",
            CoachableRole::Offlane => "offlane",
            CoachableRole::SoftSupport => "soft_support",
            CoachableRole::HardSupport => "hard_support",
        }
    }
}

} // verus!
