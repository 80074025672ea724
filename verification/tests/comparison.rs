use dota_coach::comparison::{trend_range, TREND_WINDOW};

#[test]
fn the_trend_starts_at_the_match_in_focus() {
    let ids: Vec<u128> = (0..30).collect();
    assert_eq!(trend_range(&ids, 5), (5, 5 + TREND_WINDOW));
    assert_eq!(trend_range(&ids, 25), (25, 30));
}

#[test]
fn a_match_outside_the_history_reads_from_the_newest() {
    let ids: Vec<u128> = (0..4).collect();
    assert_eq!(trend_range(&ids, 99), (0, 4));
    assert_eq!(trend_range(&[], 1), (0, 0));
}

#[test]
fn the_trend_window_ends_at_the_match_being_viewed() {
    // Newest first: two games after the one being viewed, one before it.
    let current: u128 = 77;
    let history: Vec<u128> = vec![10, 11, current, 12];

    let (start, end) = trend_range(&history, current);
    assert_eq!(end - start, 2, "the current game and the one before it");
    assert_eq!(history[start], current);
    assert_eq!(history[start + 1], 12);
}

#[test]
fn the_trend_window_is_capped() {
    let current: u128 = 500;
    let mut history: Vec<u128> = vec![current];
    for day in 1..=20u128 {
        history.push(day);
    }

    let (start, end) = trend_range(&history, current);
    assert_eq!(end - start, TREND_WINDOW);
}

#[test]
fn a_match_outside_the_history_still_gets_a_window_to_plot() {
    let history: Vec<u128> = vec![1, 2];
    let viewed: u128 = 99;

    let (start, end) = trend_range(&history, viewed);
    assert_eq!(end - start, 2);
    // And nothing in it is the match being viewed.
    assert!(history[start..end].iter().all(|id| *id != viewed));
}
