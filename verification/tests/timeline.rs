use dota_coach::timeline::{first_purchase_seconds, series_at};

#[test]
fn a_series_reads_by_minute_and_stops_at_the_end_of_the_game() {
    let lh: Vec<i32> = (0..=20).collect();
    assert_eq!(series_at(&lh, 10), Some(10));
    assert_eq!(series_at(&lh, 15), Some(15));
    assert_eq!(series_at(&lh[..13], 15), None);
}

#[test]
fn item_timing_ignores_pre_horn_shopping() {
    let log = vec![
        ("tango".to_string(), -89),
        ("black_king_bar".to_string(), 1_420),
        ("black_king_bar".to_string(), 2_600),
    ];
    assert_eq!(first_purchase_seconds(&log, "black_king_bar"), Some(1_420));
}

#[test]
fn an_item_never_bought_has_no_timing() {
    let log = vec![("tango".to_string(), -89)];
    assert_eq!(first_purchase_seconds(&log, "blink"), None);
}

#[test]
fn a_starting_item_bought_only_pre_horn_has_no_timing() {
    let log = vec![("branches".to_string(), -89)];
    assert_eq!(first_purchase_seconds(&log, "branches"), None);
}

#[test]
fn a_purchase_at_the_horn_counts_and_the_earliest_wins() {
    let log = vec![
        ("blink".to_string(), 900),
        ("blink".to_string(), 0),
    ];
    assert_eq!(first_purchase_seconds(&log, "blink"), Some(0));
    assert_eq!(series_at(&[], 0), None);
}
