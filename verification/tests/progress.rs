use dota_coach::progress::{
    all_series, compare, compare_metrics, new_issue_headline, series, CoachingSession, MetricComparison,
    ProgressStatus, SessionProgress,
};
use dota_coach::records::CoachableRole;
use dota_coach::session::{MetricSnapshot, MetricUnit};

fn metric(key: &str, value: f32, unit: MetricUnit, higher_is_better: bool, sample: i64) -> MetricSnapshot<f32> {
    MetricSnapshot {
        key: key.to_string(),
        label: key.to_string(),
        value,
        sample,
        unit,
        higher_is_better,
    }
}

fn session(sequence: i32, metrics: Vec<MetricSnapshot<f32>>) -> CoachingSession<f32> {
    CoachingSession {
        id: sequence as u128,
        role: CoachableRole::Carry,
        role_label: "Carry",
        sequence,
        created_at: 1_767_268_800 + sequence as i64 * 86_400,
        metrics,
    }
}

fn only(progress: &SessionProgress<f32>, key: &str) -> MetricComparison<f32> {
    progress.metrics.iter().find(|m| m.key == key).expect("metric present").clone()
}

#[test]
fn like_readings_on_enough_matches_are_handed_on_for_judgement() {
    let before = vec![metric("overall.gold_per_min", 512.0, MetricUnit::PerMinute, true, 20)];
    let after = vec![metric("overall.gold_per_min", 575.0, MetricUnit::PerMinute, true, 20)];

    let gpm = only(&compare(&session(1, before), &session(2, after), None), "overall.gold_per_min");
    assert!(gpm.comparable);
    assert_eq!(gpm.previous, Some(512.0));
    assert_eq!(gpm.current, Some(575.0));
    assert!(gpm.note.is_none());
}

#[test]
fn a_pattern_that_starts_firing_is_a_new_issue() {
    let after = vec![metric("pattern.high_death_rate", 0.6, MetricUnit::Proportion, false, 20)];

    let p = only(&compare(&session(1, Vec::new()), &session(2, after), None), "pattern.high_death_rate");
    assert_eq!(p.status, ProgressStatus::NewIssue);
    assert_eq!(p.previous, None);
    assert_eq!(p.current, Some(0.6));
}

#[test]
fn a_pattern_that_stops_firing_is_resolved() {
    let before = vec![metric("pattern.high_death_rate", 0.6, MetricUnit::Proportion, false, 20)];

    let p = only(&compare(&session(1, before), &session(2, Vec::new()), None), "pattern.high_death_rate");
    assert_eq!(p.status, ProgressStatus::ResolvedIssue);
    assert_eq!(p.current, None);
}

#[test]
fn an_ordinary_metric_appearing_is_not_an_achievement() {
    let after = vec![metric("overall.kill_participation", 0.62, MetricUnit::Proportion, true, 20)];

    let kp = only(&compare(&session(1, Vec::new()), &session(2, after), None), "overall.kill_participation");
    assert_eq!(kp.status, ProgressStatus::InsufficientData);
    assert!(kp.note.as_deref().unwrap().contains("previous session"));
}

#[test]
fn a_thin_sample_on_either_side_is_not_compared() {
    let before = vec![metric("overall.kda", 3.0, MetricUnit::Ratio, true, 2)];
    let after = vec![metric("overall.kda", 5.0, MetricUnit::Ratio, true, 20)];

    let kda = only(&compare(&session(1, before), &session(2, after), None), "overall.kda");
    assert_eq!(kda.status, ProgressStatus::InsufficientData);
    assert!(!kda.comparable);
    assert_eq!(kda.previous, Some(3.0));
    assert_eq!(kda.current, Some(5.0));
    assert_eq!(
        kda.note.as_deref(),
        Some("Needs 5 matches on each side to compare; this has 2 and 20.")
    );
}

#[test]
fn a_metric_redefined_between_sessions_is_not_subtracted() {
    let before = vec![metric("overall.deaths", 7.2, MetricUnit::Per10, false, 20)];
    let after = vec![metric("overall.deaths", 0.72, MetricUnit::PerMinute, false, 20)];

    let deaths = only(&compare(&session(1, before), &session(2, after), None), "overall.deaths");
    assert_eq!(deaths.status, ProgressStatus::InsufficientData);
    assert!(!deaths.comparable);
    assert!(deaths.note.as_deref().unwrap().contains("differently"));
}

#[test]
fn a_direction_that_flipped_is_also_a_redefinition() {
    let before = vec![metric("overall.deaths", 7.2, MetricUnit::Per10, false, 20)];
    let after = vec![metric("overall.deaths", 5.8, MetricUnit::Per10, true, 20)];

    assert_eq!(
        only(&compare(&session(1, before), &session(2, after), None), "overall.deaths").status,
        ProgressStatus::InsufficientData
    );
}

#[test]
fn a_new_issue_leads_the_headline_over_any_improvement() {
    let before = vec![metric("overall.gold_per_min", 400.0, MetricUnit::PerMinute, true, 20)];
    let after = vec![
        metric("overall.gold_per_min", 600.0, MetricUnit::PerMinute, true, 20),
        metric("pattern.high_death_rate", 0.6, MetricUnit::Proportion, false, 20),
    ];

    let headline = compare(&session(1, before), &session(2, after), None).headline.unwrap();
    assert!(
        headline.contains("started showing up"),
        "a fifty percent farm gain should not bury a new problem: {headline}"
    );
    assert_eq!(headline, "pattern.high_death_rate has started showing up.");
}

#[test]
fn without_a_new_issue_there_is_no_issue_headline() {
    let before = vec![metric("overall.kda", 3.0, MetricUnit::Ratio, true, 20)];
    let after = vec![metric("overall.kda", 3.02, MetricUnit::Ratio, true, 20)];
    assert_eq!(new_issue_headline(&compare_metrics(&before, &after)), None);
}

#[test]
fn a_metric_only_the_earlier_session_had_is_still_reported() {
    let before = vec![
        metric("overall.kda", 3.0, MetricUnit::Ratio, true, 20),
        metric("overall.kill_participation", 0.6, MetricUnit::Proportion, true, 20),
    ];
    let after = vec![metric("overall.kda", 3.1, MetricUnit::Ratio, true, 20)];

    let progress = compare(&session(1, before), &session(2, after), None);
    assert_eq!(progress.metrics.len(), 2, "a metric that vanished is a finding");
    let kp = only(&progress, "overall.kill_participation");
    assert_eq!(kp.status, ProgressStatus::InsufficientData);
    assert!(kp.note.as_deref().unwrap().contains("No longer measured"));
}

#[test]
fn a_series_reads_oldest_first_across_sessions() {
    let sessions = vec![
        session(3, vec![metric("role.performance", 61.0, MetricUnit::Score, true, 20)]),
        session(2, vec![metric("role.performance", 57.0, MetricUnit::Score, true, 20)]),
        session(1, vec![metric("role.performance", 54.0, MetricUnit::Score, true, 20)]),
    ];

    let s = series(&sessions, "role.performance").unwrap();
    let values: Vec<f32> = s.points.iter().map(|p| p.value).collect();
    assert_eq!(values, vec![54.0, 57.0, 61.0]);
    assert_eq!(s.points[0].sequence, 1);
}

#[test]
fn a_session_missing_the_metric_leaves_a_gap_rather_than_a_zero() {
    let sessions = vec![
        session(3, vec![metric("role.performance", 61.0, MetricUnit::Score, true, 20)]),
        session(2, Vec::new()),
        session(1, vec![metric("role.performance", 54.0, MetricUnit::Score, true, 20)]),
    ];

    let s = series(&sessions, "role.performance").unwrap();
    assert_eq!(s.points.len(), 2);
    assert_eq!(s.points[0].sequence, 1);
    assert_eq!(s.points[1].sequence, 3);
}

#[test]
fn a_metric_nobody_recorded_has_no_series() {
    let sessions = vec![session(1, Vec::new())];
    assert!(series(&sessions, "role.performance").is_none());
}

#[test]
fn every_recorded_metric_gets_a_series() {
    let sessions = vec![
        session(
            2,
            vec![
                metric("role.performance", 61.0, MetricUnit::Score, true, 20),
                metric("overall.kda", 3.1, MetricUnit::Ratio, true, 20),
            ],
        ),
        session(1, vec![metric("role.performance", 54.0, MetricUnit::Score, true, 20)]),
    ];

    let all = all_series(&sessions);
    assert_eq!(all.len(), 2);
    assert_eq!(all[0].key, "role.performance");
    assert_eq!(all[0].points.len(), 2);
    assert_eq!(all[1].points.len(), 1);
}

#[test]
fn a_session_comparison_names_its_sessions_and_pulls_out_performance() {
    let before = session(1, vec![metric("role.performance", 54.0, MetricUnit::Score, true, 20)]);
    let after = session(
        2,
        vec![
            metric("role.performance", 61.0, MetricUnit::Score, true, 20),
            metric("pattern.late_bkb", 0.5, MetricUnit::Proportion, false, 12),
        ],
    );

    let p = compare(&before, &after, Some("Role performance improved by 7 points.".into()));
    assert_eq!(p.role, CoachableRole::Carry);
    assert_eq!(p.role_label, "Carry");
    assert_eq!((p.previous_session_id, p.previous_sequence), (1, 1));
    assert_eq!((p.current_session_id, p.current_sequence), (2, 2));
    assert_eq!(p.current_at, after.created_at);
    assert_eq!(p.metrics.len(), 2);
    assert_eq!(p.performance.unwrap().key, "role.performance");
    // A pattern that started showing up leads, whatever moved most.
    assert_eq!(p.headline.as_deref(), Some("pattern.late_bkb has started showing up."));

    let quiet = compare(&before, &before, Some("Nothing else.".into()));
    assert_eq!(quiet.headline.as_deref(), Some("Nothing else."));
    let none = compare(&before, &after, None);
    assert!(none.headline.is_some());
}
