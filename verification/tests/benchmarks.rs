use dota_coach::benchmarks::{
    after_first_fetch, confidence_for, resolve_request, segmented_by, BracketStep, Confidence,
    RankBracket, ResolvedBracket, Segment, LOW_SAMPLE, MIN_SAMPLE, withheld_note,
};

#[test]
fn a_rank_segmented_distribution_says_so_and_a_fallback_does_not() {
    let divine = ResolvedBracket::exact(RankBracket::Divine);
    assert!(divine.is_rank_segmented());
    assert!(!divine.fell_back);

    let fallback = ResolvedBracket::fell_back_from(RankBracket::Immortal);
    assert!(!fallback.is_rank_segmented());
    assert!(fallback.fell_back);
    assert_eq!(fallback.requested, Some(RankBracket::Immortal));

    let unranked = ResolvedBracket::requested_for(None);
    assert!(!unranked.is_rank_segmented());
    assert!(!unranked.fell_back);

    assert_eq!(
        ResolvedBracket::requested_for(Some(54)).used,
        Some(RankBracket::Legend),
        "rank_tier is medal * 10 + stars"
    );
}

#[test]
fn an_explicitly_asked_for_bracket_outranks_the_players_own() {
    // An Archon 1 player (rank tier 41) looking at Ancient.
    let requested = resolve_request(Some(RankBracket::Ancient), Some(41));

    assert_eq!(requested.used, Some(RankBracket::Ancient));
    assert_eq!(requested.label, "Ancient");
    let fallback = ResolvedBracket::fell_back_from(requested.used.unwrap());
    assert_eq!(fallback.requested, Some(RankBracket::Ancient));
    assert!(!fallback.is_rank_segmented());
}

#[test]
fn confidence_follows_the_players_own_sample() {
    assert_eq!(confidence_for(0), Confidence::Insufficient);
    assert_eq!(confidence_for(MIN_SAMPLE - 1), Confidence::Insufficient);
    assert_eq!(confidence_for(MIN_SAMPLE), Confidence::Low);
    assert_eq!(confidence_for(LOW_SAMPLE - 1), Confidence::Low);
    assert_eq!(confidence_for(LOW_SAMPLE), Confidence::Adequate);
    assert_eq!(confidence_for(200), Confidence::Adequate);
}

#[test]
fn confidence_never_falls_as_the_sample_grows() {
    let rank = |c: Confidence| match c {
        Confidence::Insufficient => 0,
        Confidence::Low => 1,
        Confidence::Adequate => 2,
    };
    let mut last = rank(confidence_for(-3));
    for n in -3..60 {
        let now = rank(confidence_for(n));
        assert!(now >= last);
        last = now;
    }
    assert_eq!(Confidence::Low.slug(), "low");
    assert_eq!(Confidence::Insufficient.slug(), "insufficient");
}

#[test]
fn rank_tiers_map_to_medals_and_nothing_else() {
    assert_eq!(RankBracket::from_rank_tier(11), Some(RankBracket::Herald));
    assert_eq!(RankBracket::from_rank_tier(80), Some(RankBracket::Immortal));
    assert_eq!(RankBracket::from_rank_tier(0), None);
    assert_eq!(RankBracket::from_rank_tier(95), None);
    assert_eq!(RankBracket::Legend.label(), "Legend");
}

#[test]
fn without_a_request_the_players_own_rank_is_used() {
    let r = resolve_request(None, Some(41));
    assert_eq!(r.requested, Some(RankBracket::Archon));
    assert_eq!(r.used, Some(RankBracket::Archon));
    let none = resolve_request(None, None);
    assert_eq!(none.used, None);
    assert_eq!(none.label, "All ranks");
}

#[test]
fn an_empty_bracket_falls_back_once_and_an_empty_whole_is_nothing() {
    assert_eq!(after_first_fetch(false, Some(RankBracket::Crusader)), BracketStep::UseRequested);
    assert_eq!(
        after_first_fetch(true, Some(RankBracket::Crusader)),
        BracketStep::FallBack(RankBracket::Crusader)
    );
    assert_eq!(after_first_fetch(true, None), BracketStep::NotFound);
}

#[test]
fn segments_name_only_what_backed_the_numbers() {
    assert_eq!(
        segmented_by(&ResolvedBracket::exact(RankBracket::Guardian)),
        vec![Segment::Hero, Segment::RankBracket]
    );
    assert_eq!(
        segmented_by(&ResolvedBracket::fell_back_from(RankBracket::Guardian)),
        vec![Segment::Hero]
    );
}

#[test]
fn a_thin_sample_is_explained_rather_than_ranked() {
    let note = withheld_note(confidence_for(2), true, 2).unwrap();
    assert_eq!(note, "Not enough matches yet \u{2014} 5 needed for a percentile, you have 2.");
    assert!(note.contains("Not enough matches"));
}

#[test]
fn a_borderline_sample_is_ranked() {
    assert_eq!(confidence_for(MIN_SAMPLE), Confidence::Low);
    assert_eq!(withheld_note(confidence_for(MIN_SAMPLE), true, MIN_SAMPLE), None);
}

#[test]
fn a_metric_with_no_distribution_explains_the_absence() {
    let note = withheld_note(confidence_for(30), false, 30).unwrap();
    assert_eq!(note, "The provider has no distribution for this metric.");
    // A thin sample is the first reason given, distribution or not.
    let thin = withheld_note(confidence_for(1), false, 1).unwrap();
    assert!(thin.starts_with("Not enough matches"));
}
