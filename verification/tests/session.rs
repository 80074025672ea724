use dota_coach::session::{
    benchmark_snapshots, hero_snapshots, metrics, new_match_count, should_create,
    BenchmarkSnapshot, CareerValues, HeroStats, MetricUnit, PatternRate, PercentileReading,
    RoleFigures, SessionInputs, MAX_HEROES, MIN_NEW_MATCHES,
};

fn career(matches: i64) -> CareerValues<f32> {
    CareerValues {
        matches,
        avg_kda: Some(3.2),
        avg_gpm: Some(512.0),
        avg_xpm: Some(600.0),
        avg_last_hits: Some(210.0),
        avg_deaths_per_10: Some(5.8),
        avg_kills_per_10: Some(2.1),
        avg_kill_participation: Some(0.62),
        kill_participation_sample: matches - 2,
    }
}

fn percentile(value: Option<f32>) -> PercentileReading<f32> {
    PercentileReading {
        metric: "gold_per_min".into(),
        label: "Gold per minute".into(),
        percentile: value,
        player_sample: 20,
    }
}

fn inputs<'a>(
    career: &'a CareerValues<f32>,
    benchmarks: &'a [PercentileReading<f32>],
) -> SessionInputs<'a, f32> {
    SessionInputs { role: None, career, benchmarks, patterns: &[] }
}

#[test]
fn career_figures_become_numbers_with_units() {
    let c = career(20);
    let out = metrics(&inputs(&c, &[]));

    let deaths = out.iter().find(|x| x.key == "overall.deaths").unwrap();
    assert_eq!(deaths.value, 5.8);
    assert_eq!(deaths.unit, MetricUnit::Per10);
    assert!(!deaths.higher_is_better);

    let gpm = out.iter().find(|x| x.key == "overall.gold_per_min").unwrap();
    assert_eq!(gpm.unit, MetricUnit::PerMinute);
    assert!(gpm.higher_is_better);
}

#[test]
fn a_figure_the_player_has_no_data_for_is_absent_not_zero() {
    let mut c = career(20);
    c.avg_kill_participation = None;
    c.avg_deaths_per_10 = None;

    let out = metrics(&inputs(&c, &[]));

    assert!(out.iter().all(|x| x.key != "overall.kill_participation"));
    assert!(out.iter().all(|x| x.key != "overall.deaths"));
}

#[test]
fn kill_participation_carries_its_own_denominator() {
    let c = career(20);
    let out = metrics(&inputs(&c, &[]));
    let kp = out.iter().find(|x| x.key == "overall.kill_participation").unwrap();
    assert_eq!(kp.sample, 18);
}

#[test]
fn a_benchmark_percentile_is_recorded_as_higher_is_better() {
    let c = career(20);
    let benchmarks = [percentile(Some(46.0))];
    let out = metrics(&inputs(&c, &benchmarks));

    let p = out.iter().find(|x| x.key == "benchmark.gold_per_min").unwrap();
    assert_eq!(p.value, 46.0);
    assert_eq!(p.unit, MetricUnit::Percentile);
    assert!(p.higher_is_better);
}

#[test]
fn a_withheld_percentile_never_becomes_a_metric() {
    let c = career(2);
    let benchmarks = [percentile(None)];
    let out = metrics(&inputs(&c, &benchmarks));
    assert!(out.iter().all(|x| !x.key.starts_with("benchmark.")));
}

#[test]
fn a_session_builds_with_nothing_measured() {
    let mut c = career(0);
    c.avg_kda = None;
    c.avg_gpm = None;
    c.avg_xpm = None;
    c.avg_last_hits = None;
    c.avg_deaths_per_10 = None;
    c.avg_kills_per_10 = None;
    c.avg_kill_participation = None;

    assert!(metrics(&inputs(&c, &[])).is_empty());
}

#[test]
fn role_and_pattern_figures_come_first_and_last() {
    let c = career(20);
    let role = RoleFigures { performance: 54.0, win_rate: 0.5, matches: 20 };
    let patterns = [PatternRate { id: "high_death_rate".into(), label: "Dies too often".into(), rate: 0.6, measured: 20 }];
    let out = metrics(&SessionInputs { role: Some(&role), career: &c, benchmarks: &[], patterns: &patterns });
    assert_eq!(out[0].key, "role.performance");
    assert_eq!(out[0].unit, MetricUnit::Score);
    assert_eq!(out[1].key, "role.win_rate");
    let last = out.last().unwrap();
    assert_eq!(last.key, "pattern.high_death_rate");
    assert!(!last.higher_is_better);
    assert_eq!(last.sample, 20);
}

#[test]
fn the_first_session_is_always_justified() {
    assert!(should_create(None, &[7]));
    assert!(!should_create(None, &[]));
}

#[test]
fn a_session_needs_ten_matches_the_last_one_did_not_read() {
    let seen: Vec<u128> = (0..20).collect();

    let mut window = seen.clone();
    window.extend(100..109);
    assert!(!should_create(Some(&seen), &window));

    window.push(200);
    assert!(should_create(Some(&seen), &window));
    assert_eq!(MIN_NEW_MATCHES, 10);
}

#[test]
fn a_window_that_slid_is_measured_by_which_games_are_new() {
    let old: Vec<u128> = (0..20).collect();
    let mut window: Vec<u128> = old.iter().skip(10).copied().collect();
    window.extend(100..110);

    assert_eq!(window.len(), 20);
    assert_eq!(new_match_count(&old, &window), 10);
    assert!(should_create(Some(&old), &window));
}

#[test]
fn replaying_the_same_window_is_not_a_new_session() {
    let seen: Vec<u128> = (0..20).collect();
    assert_eq!(new_match_count(&seen, &seen), 0);
    assert!(!should_create(Some(&seen), &seen));
}

#[test]
fn only_the_top_heroes_are_recorded() {
    let heroes: Vec<HeroStats<f32>> = (0..8)
        .map(|i| HeroStats {
            hero_id: i,
            hero_name: format!("Hero {i}"),
            matches: 10 - i as i64,
            wins: 5,
            win_rate: 0.5,
            avg_kda: 3.0,
        })
        .collect();

    let out = hero_snapshots(&heroes);
    assert_eq!(out.len(), MAX_HEROES);
    assert_eq!(out[0].hero_id, 0);
    assert_eq!(out[0].avg_kda, Some(3.0));
}

#[test]
fn benchmark_snapshots_keep_the_raw_values() {
    let rows = [BenchmarkSnapshot {
        metric: "gold_per_min".into(),
        label: "Gold per minute".into(),
        player_value: 512.0f32,
        peer_median: Some(500.0),
        percentile: None,
        higher_is_better: true,
    }];
    let out = benchmark_snapshots(&rows);
    assert_eq!(out.len(), 1);
    assert_eq!(out[0].percentile, None);
    assert_eq!(out[0].player_value, 512.0);
}
