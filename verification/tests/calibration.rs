use dota_coach::calibration::{
    counted_for_confidence, rank_label, ranked_runs, role_preference, streak, RankSnapshot,
    StreakKind, TrajectoryPoint,
};
use dota_coach::records::{Match, GAME_MODE_ALL_DRAFT, GAME_MODE_TURBO, LOBBY_NORMAL, LOBBY_RANKED};
use dota_coach::trajectory::{trajectory, trajectory_windows};

const DECAY_DAYS: i64 = 180;

/// Noon on 2026-01-01 plus `n` days, in Unix seconds.
fn day(n: i64) -> i64 {
    1_767_268_800 + n * 86_400
}

fn ranked(match_id: i64, won: bool, at: i64) -> Match {
    Match {
        id: match_id as u128,
        match_id,
        hero_id: 1,
        hero_name: "Anti-Mage".into(),
        role: "Carry".into(),
        lane_role: Some(1),
        won,
        duration_seconds: 2_400,
        kills: 6,
        deaths: 3,
        assists: 9,
        gpm: 500,
        xpm: 600,
        last_hits: 240,
        denies: None,
        net_worth: None,
        hero_damage: None,
        tower_damage: None,
        hero_healing: None,
        game_mode: Some(GAME_MODE_ALL_DRAFT),
        lobby_type: Some(LOBBY_RANKED),
        party_size: Some(1),
        started_at: at,
        team_kills: Some(30),
        team_deaths: Some(25),
        replay_parsed: false,
        last_hits_at_10: None,
        gold_at_10: None,
        bkb_seconds: None,
        blink_seconds: None,
        midas_seconds: None,
    }
}

fn snapshot(tier: Option<i16>, at: i64) -> RankSnapshot {
    RankSnapshot { rank_tier: tier, leaderboard_rank: None, captured_at: at }
}

/// Charts the history with every ranked game modeled at the tier its window
/// starts from; the modeling itself is outside this crate.
fn chart(snapshots: &[RankSnapshot], matches: &[Match]) -> Vec<TrajectoryPoint> {
    let windows = trajectory_windows(snapshots, matches);
    let modeled: Vec<Vec<i16>> = windows
        .iter()
        .map(|w| vec![w.from.0; w.between.len()])
        .collect();
    trajectory(snapshots, matches, &windows, &modeled)
}

// rank confidence: the count of matches it rests on

#[test]
fn no_matches_is_no_confidence_rather_than_a_default() {
    assert_eq!(counted_for_confidence(&[], DECAY_DAYS, day(0)), 0);
}

#[test]
fn exactly_at_the_threshold_counts_as_calibrated() {
    let matches: Vec<Match> = (0..20).map(|i| ranked(i, true, day(i))).collect();
    assert_eq!(counted_for_confidence(&matches, DECAY_DAYS, day(20)), 20);
}

#[test]
fn a_gap_longer_than_the_decay_window_resets_the_count() {
    let mut matches: Vec<Match> = (0..10).map(|i| ranked(i, true, day(i))).collect();
    matches.extend((0..3).map(|i| ranked(100 + i, true, day(220 + i))));
    assert_eq!(counted_for_confidence(&matches, DECAY_DAYS, day(223)), 3);
}

#[test]
fn an_account_idle_past_the_decay_window_reads_as_zero() {
    let matches: Vec<Match> = (0..40).map(|i| ranked(i, true, day(i))).collect();
    assert_eq!(counted_for_confidence(&matches, DECAY_DAYS, day(400)), 0);
}

#[test]
fn turbo_and_unranked_games_do_not_calibrate_a_rank() {
    let mut matches = vec![ranked(1, true, day(1))];
    let mut turbo = ranked(2, true, day(2));
    turbo.game_mode = Some(GAME_MODE_TURBO);
    matches.push(turbo);
    let mut unranked = ranked(3, true, day(3));
    unranked.lobby_type = Some(LOBBY_NORMAL);
    matches.push(unranked);
    let mut tournament = ranked(4, true, day(4));
    tournament.lobby_type = Some(2);
    matches.push(tournament);
    let mut unknown = ranked(5, true, day(5));
    unknown.game_mode = None;
    matches.push(unknown);

    assert_eq!(counted_for_confidence(&matches, DECAY_DAYS, day(6)), 1);
}

#[test]
fn a_gap_of_exactly_the_window_still_counts() {
    let matches = vec![ranked(1, true, day(0)), ranked(2, true, day(180))];
    assert_eq!(counted_for_confidence(&matches, DECAY_DAYS, day(180)), 2);
    assert_eq!(counted_for_confidence(&matches, DECAY_DAYS, day(360)), 2);
    assert_eq!(counted_for_confidence(&matches, DECAY_DAYS, day(361)), 0);
}

// streak

#[test]
fn an_empty_history_has_a_streak_with_no_direction() {
    let s = streak(&[]);
    assert_eq!(s.count, 0);
    assert_eq!(s.kind, None);
}

#[test]
fn a_single_match_is_a_streak_of_one() {
    let s = streak(&[ranked(1, false, day(1))]);
    assert_eq!(s.count, 1);
    assert_eq!(s.kind, Some(StreakKind::Loss));
}

#[test]
fn alternating_results_never_streak_past_one() {
    let matches: Vec<Match> = (0..8).map(|i| ranked(i, i % 2 == 0, day(i))).collect();
    assert_eq!(streak(&matches).count, 1);
}

#[test]
fn the_streak_is_read_from_the_newest_match_backwards() {
    let mut matches: Vec<Match> = (0..4).map(|i| ranked(i, true, day(10 + i))).collect();
    matches.extend((0..3).map(|i| ranked(100 + i, false, day(i))));
    matches.reverse();

    let s = streak(&matches);
    assert_eq!(s.count, 4);
    assert_eq!(s.kind, Some(StreakKind::Win));
}

#[test]
fn an_unranked_win_does_not_extend_a_ranked_losing_streak() {
    let mut matches = vec![ranked(1, false, day(1)), ranked(2, false, day(2))];
    let mut turbo_win = ranked(3, true, day(3));
    turbo_win.game_mode = Some(GAME_MODE_TURBO);
    matches.push(turbo_win);

    let s = streak(&matches);
    assert_eq!(s.count, 2);
    assert_eq!(s.kind, Some(StreakKind::Loss));
}

// role preference

#[test]
fn role_preference_reads_the_stored_label_and_sums_to_a_hundred() {
    let mut matches: Vec<Match> = Vec::new();
    for i in 0..5 {
        matches.push(ranked(i, true, day(i)));
    }
    for i in 0..3 {
        let mut m = ranked(100 + i, true, day(10 + i));
        m.role = "Offlane".into();
        matches.push(m);
    }
    for i in 0..2 {
        let mut m = ranked(200 + i, true, day(20 + i));
        m.role = "Mid".into();
        matches.push(m);
    }

    let roles = role_preference(&matches);

    assert_eq!(roles.len(), 3);
    assert_eq!(roles[0].role, "Carry");
    assert_eq!(roles[0].matches, 5);
    assert_eq!(roles[1].role, "Offlane");
    assert_eq!(roles[2].role, "Mid");
    let total: i64 = roles.iter().map(|r| r.matches).sum();
    assert_eq!(total, 10);
    assert_eq!(roles[0].matches * 100 / total, 50);
}

#[test]
fn role_preference_is_empty_rather_than_a_zero_row_without_matches() {
    assert!(role_preference(&[]).is_empty());
}

#[test]
fn roles_with_equal_counts_are_listed_by_name() {
    let mut a = ranked(1, true, day(1));
    a.role = "Support".into();
    let mut b = ranked(2, true, day(2));
    b.role = "Mid".into();
    let roles = role_preference(&[a, b]);
    assert_eq!(roles[0].role, "Mid");
    assert_eq!(roles[1].role, "Support");
}

// trajectory

#[test]
fn two_readings_with_no_matches_between_them_produce_no_estimates() {
    let snapshots = vec![snapshot(Some(43), day(0)), snapshot(Some(45), day(7))];
    let points = chart(&snapshots, &[]);

    assert_eq!(points.len(), 2);
    assert!(points.iter().all(|p| !p.estimated));
    assert_eq!(points[0].rank_tier, 43);
    assert_eq!(points[1].rank_tier, 45);
}

#[test]
fn every_point_between_two_readings_is_flagged_estimated() {
    let snapshots = vec![snapshot(Some(43), day(0)), snapshot(Some(45), day(7))];
    let matches: Vec<Match> = (1..=5).map(|i| ranked(i, i % 2 == 0, day(i))).collect();

    let points = chart(&snapshots, &matches);

    assert_eq!(points.len(), 7);
    let real: Vec<&TrajectoryPoint> = points.iter().filter(|p| !p.estimated).collect();
    assert_eq!(real.len(), 2);
    assert_eq!(real[0].at, day(0));
    assert_eq!(real[1].at, day(7));
    for point in points.iter().filter(|p| p.at != day(0) && p.at != day(7)) {
        assert!(point.estimated, "{point:?}");
    }
}

#[test]
fn a_modeled_segment_lands_on_the_next_real_reading() {
    let snapshots = vec![snapshot(Some(40), day(0)), snapshot(Some(44), day(10))];
    let matches: Vec<Match> = (1..=9).map(|i| ranked(i, true, day(i))).collect();

    let points = chart(&snapshots, &matches);

    assert_eq!(points.first().unwrap().rank_tier, 40);
    assert_eq!(points.last().unwrap().rank_tier, 44);
    assert!(!points.last().unwrap().estimated);
}

#[test]
fn a_reading_with_no_rank_breaks_the_line_instead_of_drawing_across_it() {
    let snapshots = vec![
        snapshot(Some(40), day(0)),
        snapshot(None, day(5)),
        snapshot(Some(44), day(10)),
    ];
    let matches: Vec<Match> = (1..=9).map(|i| ranked(i, true, day(i))).collect();

    let points = chart(&snapshots, &matches);

    assert_eq!(points.len(), 2, "{points:?}");
    assert!(points.iter().all(|p| !p.estimated));
    assert_eq!(ranked_runs(&snapshots).len(), 2);
}

#[test]
fn nothing_is_modeled_past_the_newest_reading() {
    let snapshots = vec![snapshot(Some(43), day(0)), snapshot(Some(45), day(5))];
    let matches: Vec<Match> = (6..=8).map(|i| ranked(i, true, day(i))).collect();

    let points = chart(&snapshots, &matches);

    assert_eq!(points.len(), 2);
    assert!(points.iter().all(|p| p.at <= day(5)));
}

#[test]
fn a_single_reading_is_a_point_and_never_a_line() {
    let snapshots = vec![snapshot(Some(43), day(0))];
    let matches: Vec<Match> = (1..=5).map(|i| ranked(i, true, day(i))).collect();

    let points = chart(&snapshots, &matches);

    assert_eq!(points.len(), 1);
    assert!(!points[0].estimated);
}

#[test]
fn an_empty_history_charts_nothing() {
    assert!(chart(&[], &[]).is_empty());
}

#[test]
fn a_shared_reading_between_segments_is_emitted_once() {
    let snapshots = vec![
        snapshot(Some(40), day(0)),
        snapshot(Some(42), day(5)),
        snapshot(Some(44), day(10)),
    ];
    let matches: Vec<Match> = (1..=9)
        .filter(|i| *i != 5)
        .map(|i| ranked(i, true, day(i)))
        .collect();

    let points = chart(&snapshots, &matches);

    let at_day_five: Vec<&TrajectoryPoint> = points.iter().filter(|p| p.at == day(5)).collect();
    assert_eq!(at_day_five.len(), 1);
    assert!(!at_day_five[0].estimated);
}

#[test]
fn unranked_games_do_not_appear_on_the_ranked_trajectory() {
    let snapshots = vec![snapshot(Some(43), day(0)), snapshot(Some(45), day(7))];
    let mut matches = vec![ranked(1, true, day(1))];
    let mut turbo = ranked(2, true, day(2));
    turbo.game_mode = Some(GAME_MODE_TURBO);
    matches.push(turbo);

    let points = chart(&snapshots, &matches);

    assert_eq!(points.len(), 3, "{points:?}");
}

#[test]
fn every_trajectory_point_names_its_medal() {
    let snapshots = vec![snapshot(Some(43), day(0)), snapshot(Some(45), day(7))];
    let matches: Vec<Match> = (1..=3).map(|i| ranked(i, true, day(i))).collect();

    let points = chart(&snapshots, &matches);

    assert_eq!(points.first().unwrap().label.as_deref(), Some("Archon 3"));
    assert_eq!(points.last().unwrap().label.as_deref(), Some("Archon 5"));
    assert!(points.iter().all(|p| p.label.is_some()));
}

#[test]
fn each_window_holds_the_ranked_games_played_inside_it_oldest_first() {
    let snapshots = vec![snapshot(Some(40), day(0)), snapshot(Some(44), day(10))];
    let matches = vec![ranked(3, true, day(3)), ranked(1, false, day(1)), ranked(12, true, day(12))];
    let windows = trajectory_windows(&snapshots, &matches);
    assert_eq!(windows.len(), 1);
    assert_eq!(windows[0].from, (40, day(0)));
    assert_eq!(windows[0].to, (44, day(10)));
    assert_eq!(windows[0].between, vec![1, 0]);
}

#[test]
fn a_modeled_tier_is_held_within_one_star_of_its_readings() {
    let snapshots = vec![snapshot(Some(43), day(0)), snapshot(Some(45), day(7))];
    let matches: Vec<Match> = (1..=3).map(|i| ranked(i, true, day(i))).collect();
    let windows = trajectory_windows(&snapshots, &matches);
    let modeled = vec![vec![80, 11, 44]];

    let points = trajectory(&snapshots, &matches, &windows, &modeled);

    let tiers: Vec<i16> = points.iter().map(|p| p.rank_tier).collect();
    assert_eq!(tiers, vec![43, 46, 42, 44, 45]);
    assert_eq!(points[2].label.as_deref(), Some("Archon 2"));
}

#[test]
fn medals_are_named_with_their_stars() {
    assert_eq!(rank_label(11).as_deref(), Some("Herald 1"));
    assert_eq!(rank_label(75).as_deref(), Some("Divine 5"));
    assert_eq!(rank_label(80).as_deref(), Some("Immortal"));
    assert_eq!(rank_label(0), None);
    assert_eq!(rank_label(46), None);
    assert_eq!(rank_label(90), None);
}

#[test]
fn the_streak_does_not_depend_on_storage_order() {
    let matches: Vec<Match> = (0..6).map(|i| ranked(i, i >= 3, day(i))).collect();
    let mut shuffled = matches.clone();
    shuffled.swap(0, 5);
    shuffled.swap(1, 3);
    let a = streak(&matches);
    let b = streak(&shuffled);
    assert_eq!(a, b);
    assert_eq!(a.count, 3);
    assert_eq!(a.kind, Some(StreakKind::Win));
}

#[test]
fn role_rows_count_every_ranked_match_once() {
    let mut matches: Vec<Match> = (0..4).map(|i| ranked(i, true, day(i))).collect();
    matches[1].role = "Mid".into();
    let mut turbo = ranked(9, true, day(9));
    turbo.game_mode = Some(GAME_MODE_TURBO);
    matches.push(turbo);
    let roles = role_preference(&matches);
    let total: i64 = roles.iter().map(|r| r.matches).sum();
    assert_eq!(total, 4);
    assert_ne!(roles[0].role, roles[1].role);
}

#[test]
fn the_chart_runs_forward_and_names_each_reading_once() {
    let snapshots = vec![
        snapshot(Some(40), day(0)),
        snapshot(Some(42), day(5)),
        snapshot(Some(44), day(10)),
    ];
    let matches: Vec<Match> = (1..=9).map(|i| ranked(i, true, day(i))).collect();
    let points = chart(&snapshots, &matches);
    for pair in points.windows(2) {
        assert!(pair[0].at < pair[1].at);
    }
    for at in [day(0), day(5), day(10)] {
        assert_eq!(points.iter().filter(|p| p.at == at && !p.estimated).count(), 1);
    }
    assert_eq!(points.last().unwrap().at, day(10));
}
