use dota_coach::dota::{
    fallback_hero_name, farm_rank, is_radiant, net_worth_of, normalize_match_detail,
    normalize_player, normalize_recent_match, ProviderError, RawMatchDetail, RawMatchPlayer,
    RawPlayerEnvelope, RawProfile, RawRecentMatch, NO_RESULT, NO_START_TIME,
};

const ACCOUNT_ID: i64 = 86_745_912;

fn recent(match_id: i64, player_slot: i32, radiant_win: Option<bool>) -> RawRecentMatch {
    RawRecentMatch {
        match_id,
        player_slot,
        radiant_win,
        duration: Some(2_520),
        start_time: Some(1_700_000_000),
        hero_id: 35,
        game_mode: Some(22),
        lobby_type: Some(7),
        kills: Some(8),
        deaths: Some(7),
        assists: Some(12),
        gold_per_min: Some(612),
        xp_per_min: Some(701),
        last_hits: Some(380),
        hero_damage: Some(31_000),
        tower_damage: Some(4_000),
        hero_healing: None,
        lane_role: Some(1),
        is_roaming: Some(false),
        party_size: Some(1),
    }
}

fn player(account_id: Option<i64>, player_slot: i32, net_worth: Option<i32>) -> RawMatchPlayer {
    RawMatchPlayer {
        account_id,
        player_slot,
        hero_id: 35,
        kills: Some(8),
        deaths: Some(7),
        assists: Some(12),
        last_hits: Some(380),
        denies: Some(14),
        gold_per_min: Some(612),
        xp_per_min: Some(701),
        net_worth,
        total_gold: None,
        hero_damage: Some(31_000),
        tower_damage: Some(6_200),
        hero_healing: None,
        lane_role: None,
        is_roaming: None,
    }
}

fn detail(players: Vec<RawMatchPlayer>) -> RawMatchDetail {
    RawMatchDetail {
        match_id: 7_500_000_001,
        radiant_win: Some(true),
        duration: Some(2_520),
        start_time: Some(1_700_000_000),
        game_mode: Some(22),
        lobby_type: Some(7),
        players,
    }
}

/// Five Radiant and five Dire players; the Radiant ones out-farm everyone.
fn full_lobby() -> Vec<RawMatchPlayer> {
    let mut players = Vec::new();
    for (i, worth) in [30_000, 25_000, 20_000, 12_000, 9_000].iter().enumerate() {
        let id = if i == 0 { Some(ACCOUNT_ID) } else { Some(1_000 + i as i64) };
        players.push(player(id, i as i32, Some(*worth)));
    }
    for (i, worth) in [15_000, 14_000, 11_000, 8_000, 6_000].iter().enumerate() {
        let id = if i == 4 { Some(99_999_998) } else { Some(2_000 + i as i64) };
        players.push(player(id, 128 + i as i32, Some(*worth)));
    }
    players
}

#[test]
fn player_profile_is_normalized() {
    let raw = RawPlayerEnvelope {
        profile: Some(RawProfile {
            personaname: Some("Test Player".into()),
            avatarfull: None,
            profileurl: Some("https://steamcommunity.com/id/testplayer/".into()),
        }),
        rank_tier: Some(55),
    };
    let player = normalize_player(ACCOUNT_ID, raw);

    assert_eq!(player.account_id, ACCOUNT_ID);
    assert_eq!(player.persona_name.as_deref(), Some("Test Player"));
    assert_eq!(
        player.profile_url.as_deref(),
        Some("https://steamcommunity.com/id/testplayer/")
    );
    assert_eq!(player.rank_tier, Some(55));
    assert!(player.has_public_profile);
}

#[test]
fn a_private_profile_still_yields_a_player() {
    let player = normalize_player(ACCOUNT_ID, RawPlayerEnvelope { profile: None, rank_tier: None });
    assert!(!player.has_public_profile);
    assert_eq!(player.persona_name, None);
}

#[test]
fn radiant_and_dire_slots_decide_the_result() {
    let win = normalize_recent_match(recent(7_500_000_001, 2, Some(true))).unwrap();
    assert_eq!(win.match_id, 7_500_000_001);
    assert!(win.won);

    let loss = normalize_recent_match(recent(7_500_000_002, 130, Some(true))).unwrap();
    assert!(!loss.won);

    let dire_win = normalize_recent_match(recent(7_500_000_003, 129, Some(false))).unwrap();
    assert!(dire_win.won);
    assert!(is_radiant(127));
    assert!(!is_radiant(128));
}

#[test]
fn summary_fields_map_across_and_missing_numbers_become_zero() {
    let m = normalize_recent_match(recent(1, 2, Some(true))).unwrap();
    assert_eq!(m.hero_id, 35);
    assert_eq!((m.kills, m.deaths, m.assists), (8, 7, 12));
    assert_eq!(m.gpm, 612);
    assert_eq!(m.xpm, 701);
    assert_eq!(m.last_hits, 380);
    assert_eq!(m.duration_seconds, 2520);
    assert_eq!(m.started_at, 1_700_000_000);
    assert!(!m.from_details);

    let mut raw = recent(3, 129, Some(false));
    raw.gold_per_min = None;
    raw.last_hits = None;
    raw.hero_damage = None;
    let sparse = normalize_recent_match(raw).unwrap();
    assert_eq!(sparse.gpm, 0);
    assert_eq!(sparse.last_hits, 0);
    assert_eq!(sparse.hero_damage, None);
}

#[test]
fn the_summary_endpoint_never_invents_detail_only_fields() {
    let m = normalize_recent_match(recent(1, 2, Some(true))).unwrap();
    assert_eq!(m.denies, None);
    assert_eq!(m.net_worth, None);
    assert_eq!(m.farm_rank, None);
}

#[test]
fn matches_without_a_known_result_are_dropped() {
    assert!(normalize_recent_match(recent(4, 2, None)).is_none());
    let mut no_start = recent(5, 2, Some(true));
    no_start.start_time = None;
    assert!(normalize_recent_match(no_start).is_none());
}

#[test]
fn a_start_is_kept_exactly_while_chrono_can_date_it() {
    let latest = 8_210_266_876_799;
    let earliest = -8_334_601_228_800;
    for (start, kept) in [
        (latest, true),
        (latest + 1, false),
        (earliest, true),
        (earliest - 1, false),
        (0, true),
    ] {
        let mut raw = recent(6, 2, Some(true));
        raw.start_time = Some(start);
        let normalized = normalize_recent_match(raw);
        assert_eq!(normalized.is_some(), kept, "{start}");
        if let Some(m) = normalized {
            assert_eq!(m.started_at, start);
        }
    }
}

#[test]
fn match_detail_selects_the_requested_player() {
    let players = vec![
        player(Some(ACCOUNT_ID), 0, Some(24_500)),
        player(Some(99_999_999), 130, None),
        player(None, 131, Some(5_000)),
    ];
    let m = normalize_match_detail(detail(players), ACCOUNT_ID).unwrap();

    assert_eq!(m.match_id, 7_500_000_001);
    assert_eq!(m.hero_id, 35);
    assert_eq!(m.denies, Some(14));
    assert_eq!(m.net_worth, Some(24_500));
    assert_eq!(m.tower_damage, Some(6_200));
    assert!(m.won);
    assert!(m.from_details);
}

#[test]
fn net_worth_falls_back_to_total_gold_on_older_matches() {
    let mut older = player(Some(99_999_999), 130, None);
    older.total_gold = Some(18_300);
    assert_eq!(net_worth_of(&older), Some(18_300));
    let m = normalize_match_detail(detail(vec![player(Some(ACCOUNT_ID), 0, Some(1)), older]), 99_999_999).unwrap();
    assert_eq!(m.net_worth, Some(18_300));
}

#[test]
fn an_incomplete_team_yields_no_farm_rank() {
    let players = vec![
        player(Some(ACCOUNT_ID), 0, Some(24_500)),
        player(Some(2), 1, Some(20_000)),
        player(Some(3), 130, Some(10_000)),
    ];
    let m = normalize_match_detail(detail(players), ACCOUNT_ID).unwrap();
    assert_eq!(m.farm_rank, None);
}

#[test]
fn an_unparsed_match_is_ranked_by_farm_priority() {
    let m = normalize_match_detail(detail(full_lobby()), ACCOUNT_ID).unwrap();
    assert_eq!(m.lane_role, None);
    assert_eq!(m.farm_rank, Some(0));
}

#[test]
fn farm_rank_is_measured_within_the_players_own_team() {
    let mut raw = detail(full_lobby());
    raw.radiant_win = Some(true);
    let m = normalize_match_detail(raw, 99_999_998).unwrap();
    assert_eq!(m.farm_rank, Some(4));
    assert!(!m.won, "dire lost this match");
    assert_eq!(farm_rank(&full_lobby(), 5), Some(0));
    assert_eq!(farm_rank(&full_lobby(), 10), None);
}

#[test]
fn an_anonymous_player_reads_as_not_found() {
    let err = normalize_match_detail(detail(full_lobby()), 1_234_567).unwrap_err();
    assert!(matches!(err, ProviderError::NotFound));
}

#[test]
fn a_match_without_a_result_or_a_start_is_a_decode_error() {
    let mut raw = detail(full_lobby());
    raw.radiant_win = None;
    assert_eq!(
        normalize_match_detail(raw, ACCOUNT_ID),
        Err(ProviderError::Decode(NO_RESULT.into()))
    );
    let mut raw = detail(full_lobby());
    raw.start_time = None;
    assert_eq!(
        normalize_match_detail(raw, ACCOUNT_ID),
        Err(ProviderError::Decode(NO_START_TIME.into()))
    );
    let mut raw = detail(full_lobby());
    raw.start_time = Some(i64::MAX);
    assert_eq!(
        normalize_match_detail(raw, ACCOUNT_ID),
        Err(ProviderError::Decode(NO_START_TIME.into()))
    );
}

#[test]
fn provider_errors_read_as_sentences() {
    assert_eq!(ProviderError::NotFound.message(), "not found at provider");
    assert_eq!(
        ProviderError::Unavailable("timeout".into()).message(),
        "provider unavailable: timeout"
    );
    assert_eq!(fallback_hero_name(42), "Hero 42");
}
