use dota_coach::benchmarks::{RankBracket, Segment};
use dota_coach::hero_meta::{parse_hero_meta, HeroMetaError, RawHeroStats, BRACKET_NOTE, SOURCE};

/// A hero with all-bracket counts, and per-bracket counts for the eight
/// brackets in ladder order.
fn hero(id: i32, name: Option<&str>, all: (i64, i64), brackets: [(i64, i64); 8]) -> RawHeroStats<f32> {
    RawHeroStats {
        id,
        localized_name: name.map(str::to_string),
        roles: vec!["Carry".into()],
        pub_pick: Some(all.0),
        pub_win: Some(all.1),
        bracket_counts: brackets.iter().map(|c| Some(*c)).collect(),
        trend: Some(0.01),
    }
}

fn roster() -> Vec<RawHeroStats<f32>> {
    let mut brackets = [(50, 25); 8];
    brackets[7] = (0, 0); // nothing published for Immortal
    vec![
        hero(1, Some("Anti-Mage"), (1_000, 498), brackets),
        hero(2, Some("Axe"), (800, 420), brackets),
    ]
}

#[test]
fn a_bracket_request_uses_that_brackets_columns() {
    let all = parse_hero_meta(&roster(), None).unwrap();
    let legend = parse_hero_meta(&roster(), Some(RankBracket::Legend)).unwrap();

    let all_am = all.heroes.iter().find(|h| h.hero_id == 1).unwrap();
    let legend_am = legend.heroes.iter().find(|h| h.hero_id == 1).unwrap();

    assert!(legend_am.picks < all_am.picks, "a bracket is a subset");
    assert_eq!(legend_am.bracket, Some(RankBracket::Legend));
    assert_eq!(legend.segmented_by, vec![Segment::RankBracket]);
    assert_eq!(legend.note.as_deref(), Some(BRACKET_NOTE));
}

#[test]
fn an_all_bracket_cohort_does_not_claim_rank_segmentation() {
    let set = parse_hero_meta(&roster(), None).unwrap();
    assert!(set.segmented_by.is_empty());
    assert_eq!(set.bracket, None);
    assert_eq!(set.source, SOURCE);
    assert_eq!(set.heroes[0].hero_name, "Anti-Mage");
    assert_eq!((set.heroes[0].picks, set.heroes[0].wins), (1_000, 498));
}

#[test]
fn a_bracket_with_no_published_data_falls_back_and_says_so() {
    let set = parse_hero_meta(&roster(), Some(RankBracket::Immortal)).unwrap();

    assert_eq!(set.bracket, None, "must not report a bracket it did not use");
    assert!(set.segmented_by.is_empty());
    assert!(set.note.as_deref().unwrap().contains("Immortal"));
    assert_eq!(set.heroes.len(), 2);
}

#[test]
fn a_hero_with_no_picks_in_the_cohort_is_omitted_not_scored_at_zero() {
    let mut raw = roster();
    raw[1].pub_pick = Some(0);
    raw[1].pub_win = Some(0);

    let set = parse_hero_meta(&raw, None).unwrap();
    assert_eq!(set.heroes.len(), 1);
    assert_eq!(set.heroes[0].hero_id, 1);
}

#[test]
fn a_hero_with_no_name_keeps_its_id_rather_than_going_blank() {
    let raw = vec![hero(42, None, (100, 50), [(0, 0); 8])];
    let set = parse_hero_meta(&raw, None).unwrap();
    assert_eq!(set.heroes[0].hero_name, "Hero 42");
}

#[test]
fn an_empty_roster_is_not_found_rather_than_an_empty_cohort() {
    let raw: Vec<RawHeroStats<f32>> = vec![];
    assert!(matches!(parse_hero_meta(&raw, None), Err(HeroMetaError::NotFound)));
}

#[test]
fn a_roster_nobody_picked_is_not_found() {
    let raw = vec![hero(1, Some("Anti-Mage"), (0, 0), [(0, 0); 8])];
    assert!(matches!(parse_hero_meta(&raw, None), Err(HeroMetaError::NotFound)));
}

#[test]
fn hero_meta_failures_explain_themselves() {
    assert_eq!(
        HeroMetaError::NotFound.user_note(),
        "No hero meta is published for your bracket yet."
    );
    assert_eq!(
        HeroMetaError::Unavailable("x".into()).user_note(),
        "Hero meta is unavailable right now."
    );
}
