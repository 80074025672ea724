use dota_coach::benchmarks::Confidence;
use dota_coach::coaching::{Evidence, EvidenceKind};
use dota_coach::evidence::{
    build, plural, BenchmarkFigures, CareerFigures, EvidenceInputs, FitFigures, MatchFigures,
    PoolFigures, MAX_POOL_EVIDENCE,
};
use dota_coach::records::Match;

fn career() -> CareerFigures {
    CareerFigures {
        matches: 20,
        wins: 11,
        losses: 9,
        win_rate: "55%".into(),
        avg_kda: Some("3.20".into()),
        avg_gpm: Some("520".into()),
        avg_xpm: Some("600".into()),
        avg_deaths_per_10: Some("1.4".into()),
        avg_kill_participation: Some("62%".into()),
        kill_participation_sample: 18,
    }
}

fn empty_career() -> CareerFigures {
    CareerFigures {
        matches: 0,
        wins: 0,
        losses: 0,
        win_rate: "an unknown share".into(),
        avg_kda: None,
        avg_gpm: None,
        avg_xpm: None,
        avg_deaths_per_10: None,
        avg_kill_participation: None,
        kill_participation_sample: 0,
    }
}

fn match_(won: bool, id: i64) -> Match {
    Match {
        id: id as u128,
        match_id: id,
        hero_id: 35,
        hero_name: "Luna".into(),
        role: "Carry".into(),
        lane_role: Some(1),
        won,
        duration_seconds: 2_400,
        kills: 8,
        deaths: 4,
        assists: 12,
        gpm: 550,
        xpm: 620,
        last_hits: 300,
        denies: None,
        net_worth: None,
        hero_damage: Some(25_000),
        tower_damage: Some(3_000),
        hero_healing: Some(0),
        game_mode: Some(22),
        lobby_type: Some(7),
        party_size: Some(1),
        started_at: 1_700_000_000 + id,
        team_kills: Some(30),
        team_deaths: Some(20),
        replay_parsed: false,
        last_hits_at_10: None,
        gold_at_10: None,
        bkb_seconds: None,
        blink_seconds: None,
        midas_seconds: None,
    }
}

fn match_figures() -> MatchFigures {
    MatchFigures {
        minutes: "40".into(),
        kda: Some("5.00".into()),
        deaths_per_10: Some("1.0".into()),
        kill_participation: Some("67%".into()),
        teamfight_participation: None,
    }
}

fn benchmark(percentile: Option<&str>) -> BenchmarkFigures {
    BenchmarkFigures {
        metric: "gold_per_min".into(),
        label: "Gold per minute".into(),
        player_value: "512.0".into(),
        player_sample: if percentile.is_some() { 20 } else { 2 },
        peer_median: Some("500.0".into()),
        top_20_value: Some("684.0".into()),
        percentile: percentile.map(str::to_string),
        confidence: if percentile.is_some() { Confidence::Adequate } else { Confidence::Insufficient },
        note: if percentile.is_none() { Some("you need 5 matches, you have 2.".into()) } else { None },
    }
}

fn pool_entry(hero_id: i32) -> PoolFigures {
    PoolFigures {
        hero_id,
        hero_name: "Luna".into(),
        matches: 20,
        wins: 11,
        losses: 9,
        win_rate: "55%".into(),
        recent_matches: 10,
        recent_win_rate: Some("60%".into()),
        tier_label: "Signature".into(),
    }
}

fn fit() -> FitFigures {
    FitFigures {
        hero_id: 35,
        hero_name: "Luna".into(),
        fit_score: "78".into(),
        level_label: "Recommended".into(),
        matches: 20,
        meta_strength: Some("72".into()),
    }
}

fn inputs<'a>(
    career: &'a CareerFigures,
    recent: &'a [Match],
    benchmarks: &'a [BenchmarkFigures],
    pool: &'a [PoolFigures],
    recommendations: &'a [FitFigures],
) -> EvidenceInputs<'a> {
    EvidenceInputs {
        career,
        recent,
        benchmarks,
        benchmark_hero: Some("Luna"),
        pool,
        recommendations,
        patterns: &[],
        focus: None,
        focus_match: None,
    }
}

fn find<'a>(evidence: &'a [Evidence], id: &str) -> &'a Evidence {
    evidence.iter().find(|e| e.id == id).unwrap_or_else(|| panic!("no {id}"))
}

/// Newest first: index 0 is the most recent match.
fn recent(won: impl Fn(i64) -> bool) -> Vec<Match> {
    (0..10).map(|i| match_(won(i), 100 - i)).collect()
}

#[test]
fn a_full_history_produces_career_form_benchmark_and_hero_evidence() {
    let c = career();
    let r = recent(|i| i % 2 == 0);
    let benchmarks = [benchmark(Some("46"))];
    let pool = [pool_entry(35)];
    let fits = [fit()];

    let evidence = build(&inputs(&c, &r, &benchmarks, &pool, &fits));
    let ids: Vec<&str> = evidence.iter().map(|e| e.id.as_str()).collect();

    assert!(ids.contains(&"overall.record"));
    assert!(ids.contains(&"form.recent"));
    assert!(ids.contains(&"benchmark.gold_per_min"));
    assert!(ids.contains(&"hero.35"));
    assert!(ids.contains(&"fit.35"));
}

#[test]
fn every_statement_carries_its_own_numbers() {
    let c = career();
    let r = recent(|i| i % 2 == 0);
    let evidence = build(&inputs(&c, &r, &[benchmark(Some("46"))], &[], &[]));

    let record = find(&evidence, "overall.record");
    assert!(record.statement.contains("20 stored matches"));
    assert!(record.statement.contains("55%"));
    assert_eq!(
        record.statement,
        "Across 20 stored matches, you have won 11 and lost 9 (55%)."
    );

    let gpm = find(&evidence, "benchmark.gold_per_min");
    assert!(gpm.statement.contains("46th percentile"), "{}", gpm.statement);
    assert!(gpm.statement.contains("684"), "the top-20% line is stated");
}

#[test]
fn a_withheld_percentile_is_explained_rather_than_omitted() {
    let c = career();
    let evidence = build(&inputs(&c, &[], &[benchmark(None)], &[], &[]));
    let gpm = find(&evidence, "benchmark.gold_per_min");

    assert!(gpm.statement.contains("No percentile is claimed"), "{}", gpm.statement);
    assert!(gpm.statement.contains("you have 2"));
    assert_eq!(gpm.confidence, Confidence::Insufficient);
}

#[test]
fn ids_are_unique_so_a_citation_is_unambiguous() {
    let c = career();
    let r = recent(|i| i % 2 == 0);
    let pool = [pool_entry(35)];
    let fits = [fit()];
    let mut evidence = build(&inputs(&c, &r, &[benchmark(Some("46"))], &pool, &fits));

    let before = evidence.len();
    evidence.sort_by(|a, b| a.id.cmp(&b.id));
    evidence.dedup_by(|a, b| a.id == b.id);
    assert_eq!(evidence.len(), before);
}

#[test]
fn an_empty_history_produces_no_evidence_rather_than_zeroes() {
    let empty = empty_career();
    assert!(build(&inputs(&empty, &[], &[], &[], &[])).is_empty());

    let fits = [fit()];
    let pool = [pool_entry(35)];
    assert!(build(&inputs(&empty, &[], &[], &pool, &fits)).is_empty());
}

#[test]
fn a_losing_streak_is_its_own_evidence() {
    let c = career();
    // The four most recent matches were lost.
    let r = recent(|i| i >= 4);
    let evidence = build(&inputs(&c, &r, &[], &[], &[]));

    let streak = find(&evidence, "form.streak");
    assert!(streak.statement.contains("4 matches were all losses"), "{}", streak.statement);
}

#[test]
fn an_alternating_record_has_no_streak_evidence() {
    let c = career();
    let r = recent(|i| i % 2 == 0);
    let evidence = build(&inputs(&c, &r, &[], &[], &[]));
    assert!(!evidence.iter().any(|e| e.id == "form.streak"));
}

#[test]
fn match_evidence_compares_the_game_against_the_players_own_averages() {
    let c = career();
    let focus = match_(false, 1);
    let figures = match_figures();

    let mut input = inputs(&c, &[], &[], &[], &[]);
    input.focus_match = Some((&focus, &figures));

    let evidence = build(&input);
    let kda = find(&evidence, "match.kda");

    assert!(kda.statement.contains("8/4/12"), "{}", kda.statement);
    assert!(kda.statement.contains("your average of 3.20"), "{}", kda.statement);
    assert_eq!(kda.sample, 1);
    assert_eq!(kda.confidence, Confidence::Insufficient);
}

#[test]
fn an_unparsed_match_claims_no_laning_phase() {
    let c = career();
    let focus = match_(false, 1);
    let figures = match_figures();

    let mut input = inputs(&c, &[], &[], &[], &[]);
    input.focus_match = Some((&focus, &figures));

    let evidence = build(&input);
    assert!(!evidence.iter().any(|e| e.id == "match.last_hits_at_10"));
    assert!(!evidence.iter().any(|e| e.id == "match.gold_at_10"));
}

#[test]
fn a_parsed_match_adds_the_laning_phase_and_item_timings() {
    let c = career();
    let mut focus = match_(true, 1);
    focus.replay_parsed = true;
    focus.last_hits_at_10 = Some(43);
    focus.gold_at_10 = Some(3_100);
    focus.blink_seconds = Some(1_085);
    let figures = match_figures();

    let mut input = inputs(&c, &[], &[], &[], &[]);
    input.focus_match = Some((&focus, &figures));

    let evidence = build(&input);
    let lh = find(&evidence, "match.last_hits_at_10");
    assert!(lh.statement.contains("43 last hits"), "{}", lh.statement);

    let blink = find(&evidence, "match.timing_blink");
    assert!(blink.statement.contains("18:05"), "{}", blink.statement);
}

#[test]
fn the_hero_pool_is_capped_so_the_prompt_stays_pointed() {
    let c = career();
    let pool: Vec<PoolFigures> = (0..8).map(pool_entry).collect();

    let evidence = build(&inputs(&c, &[], &[], &pool, &[]));
    let heroes = evidence.iter().filter(|e| e.kind == EvidenceKind::Hero).count();

    assert_eq!(heroes, MAX_POOL_EVIDENCE);
}

#[test]
fn the_same_inputs_always_produce_the_same_evidence() {
    let c = career();
    let r = recent(|i| i % 2 == 0);
    let pool = [pool_entry(35)];

    let first = build(&inputs(&c, &r, &[benchmark(Some("46"))], &pool, &[]));
    let second = build(&inputs(&c, &r, &[benchmark(Some("46"))], &pool, &[]));

    assert_eq!(first, second);
}

#[test]
fn counts_take_the_right_noun() {
    assert_eq!(plural(1, "match", "matches"), "match");
    assert_eq!(plural(0, "match", "matches"), "matches");
    assert_eq!(plural(2, "match", "matches"), "matches");
}
