use dota_coach::patterns::{
    clears_sample_bars, count_hits, count_measured, detectors, detectors_with_evidence,
    unmeasurable, DETECTOR_COUNT, MIN_MEASURED, MIN_OCCURRENCES,
};

/// Every detector's answers for a history: `None` where a match could not
/// be checked.
fn answers(each: Vec<Option<bool>>) -> Vec<Vec<Option<bool>>> {
    (0..DETECTOR_COUNT).map(|_| each.clone()).collect()
}

fn index_of(id: &str) -> usize {
    detectors().iter().position(|d| d.id == id).unwrap()
}

#[test]
fn an_empty_history_produces_nothing() {
    assert!(detectors_with_evidence(&answers(vec![])).is_empty());
}

#[test]
fn a_perfect_rate_over_a_thin_sample_is_not_a_pattern() {
    assert!(detectors_with_evidence(&answers(vec![Some(true); 3])).is_empty());
}

#[test]
fn one_bad_match_is_never_a_pattern() {
    let mut a = vec![Some(false); 20];
    a[0] = Some(true);
    assert!(detectors_with_evidence(&answers(a)).is_empty());
}

#[test]
fn a_habit_across_a_real_sample_clears_the_bars() {
    let mut all = answers(vec![Some(false); 20]);
    let deaths = index_of("high_death_rate");
    for a in all[deaths].iter_mut().take(12) {
        *a = Some(true);
    }
    assert_eq!(detectors_with_evidence(&all), vec![deaths]);
    assert_eq!(count_hits(&all[deaths]), 12);
    assert_eq!(count_measured(&all[deaths]), 20);
}

#[test]
fn an_unmeasurable_signal_is_not_read_as_a_passing_one() {
    let mut all = answers(vec![Some(false); 30]);
    let laning = index_of("low_cs_at_10");
    all[laning] = vec![None; 30];

    assert!(!detectors_with_evidence(&all).contains(&laning));
    assert_eq!(unmeasurable(&all), vec![("low_cs_at_10", 0)]);
}

#[test]
fn the_denominator_is_what_could_be_checked_not_the_career() {
    let mut laning = vec![None; 40];
    for a in laning.iter_mut().take(10) {
        *a = Some(true);
    }
    laning[0] = Some(false);
    assert_eq!(count_measured(&laning), 10);
    assert_eq!(count_hits(&laning), 9);
}

#[test]
fn the_sample_bars_are_both_required() {
    assert!(clears_sample_bars(MIN_MEASURED, MIN_OCCURRENCES));
    assert!(!clears_sample_bars(MIN_MEASURED - 1, 100));
    assert!(!clears_sample_bars(100, MIN_OCCURRENCES - 1));
}

#[test]
fn the_detectors_come_in_a_fixed_order() {
    let ids: Vec<&str> = detectors().iter().map(|d| d.id).collect();
    assert_eq!(
        ids,
        vec![
            "high_death_rate",
            "low_kill_participation",
            "farms_but_does_not_fight",
            "low_cs_at_10",
            "loses_a_won_lane",
            "late_bkb",
            "low_objective_damage",
        ]
    );
}

#[test]
fn a_detector_below_the_floor_is_listed_with_its_count() {
    let mut all = answers(vec![Some(false); 20]);
    all[index_of("late_bkb")] = vec![Some(true), None, Some(false)];
    assert_eq!(unmeasurable(&all), vec![("late_bkb", 2)]);
}

fn answer(index: i64, hit: Option<bool>) -> dota_coach::patterns::DetectorAnswer {
    dota_coach::patterns::DetectorAnswer {
        match_id: index as u128,
        started_at: 1_700_000_000 + index * 3_600,
        hit,
    }
}

#[test]
fn examples_point_at_real_matches_newest_first() {
    // Twenty matches, the oldest twelve offending.
    let answers: Vec<_> = (0..20).map(|i| answer(i, Some(i < 12))).collect();
    let c = dota_coach::patterns::pattern_counts(&answers);

    assert_eq!(c.measured, 20);
    assert_eq!(c.occurrences, 12);
    assert_eq!(c.examples, vec![11, 10, 9]);
    assert_eq!(c.last_seen_at, Some(1_700_000_000 + 11 * 3_600));
    assert_eq!(c.first_seen_at, Some(1_700_000_000));
    assert!(c.last_seen_at >= c.first_seen_at);
}

#[test]
fn the_recent_window_reads_the_newest_measurable_matches() {
    // Thirty matches: the oldest twenty offending, the newest ten clean, and
    // one unmeasurable match among the newest.
    let mut answers: Vec<_> = (0..30).map(|i| answer(i, Some(i < 20))).collect();
    answers.push(answer(40, None));
    answers.reverse();
    let c = dota_coach::patterns::pattern_counts(&answers);

    assert_eq!(c.measured, 30);
    assert_eq!(c.recent_measured, 10);
    assert_eq!(c.recent_hits, 0);
    assert_eq!(c.occurrences, 20);
}

#[test]
fn nothing_measurable_counts_nothing() {
    let answers: Vec<_> = (0..5).map(|i| answer(i, None)).collect();
    let c = dota_coach::patterns::pattern_counts(&answers);
    assert_eq!((c.measured, c.occurrences, c.recent_measured), (0, 0, 0));
    assert!(c.examples.is_empty());
    assert_eq!(c.first_seen_at, None);
}
