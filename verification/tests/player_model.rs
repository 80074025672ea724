use dota_coach::benchmarks::Confidence;
use dota_coach::heroes::{
    classify, level_for, summarize, HeroPoolEntry, HeroTier, RecommendationLevel, HELD_BACK,
    POOR_RECENT_FORM,
};
use dota_coach::player_model::{hero_pool_traits, TraitKind, TraitSource};

fn pool_entry(hero_id: i32, tier: HeroTier, confidence: Confidence) -> HeroPoolEntry<f32> {
    HeroPoolEntry {
        hero_id,
        hero_name: format!("Hero {hero_id}"),
        role: "Carry".into(),
        matches: 20,
        wins: 12,
        losses: 8,
        win_rate: 0.6,
        recent_matches: 10,
        recent_win_rate: Some(0.6),
        avg_kda: 3.4,
        avg_gpm: 540.0,
        last_played_at: 1_700_000_000,
        tier,
        confidence,
    }
}

#[test]
fn signature_heroes_are_a_strength() {
    let pool = [
        pool_entry(1, HeroTier::Signature, Confidence::Adequate),
        pool_entry(2, HeroTier::Comfort, Confidence::Adequate),
    ];

    let traits = hero_pool_traits(&pool);
    let signature = traits.iter().find(|t| t.key == "hero_pool.signature").unwrap();

    assert_eq!(signature.kind, TraitKind::Strength);
    assert_eq!(signature.source, TraitSource::HeroPool);
    assert!(signature.statement.contains("1 signature hero"));
    assert_eq!(signature.sample, 2);
}

#[test]
fn one_bad_hero_in_a_good_pool_is_not_a_weakness() {
    let pool = [
        pool_entry(1, HeroTier::Signature, Confidence::Adequate),
        pool_entry(2, HeroTier::Comfort, Confidence::Adequate),
        pool_entry(3, HeroTier::Risk, Confidence::Adequate),
    ];

    let traits = hero_pool_traits(&pool);
    assert!(!traits.iter().any(|t| t.key == "hero_pool.risk"));
}

#[test]
fn a_pool_of_mostly_risky_heroes_is_a_weakness() {
    let pool = [
        pool_entry(1, HeroTier::Risk, Confidence::Adequate),
        pool_entry(2, HeroTier::Risk, Confidence::Adequate),
        pool_entry(3, HeroTier::Comfort, Confidence::Adequate),
    ];

    let traits = hero_pool_traits(&pool);
    let risk = traits.iter().find(|t| t.key == "hero_pool.risk").unwrap();
    assert_eq!(risk.kind, TraitKind::Weakness);
    assert_eq!(
        risk.statement,
        "2 of your heroes have real history and results below your own average, against 1 you can rely on."
    );
}

#[test]
fn an_empty_pool_says_nothing() {
    let pool: [HeroPoolEntry<f32>; 0] = [];
    assert!(hero_pool_traits(&pool).is_empty());
}

#[test]
fn the_trait_confidence_rests_on_established_heroes_only() {
    let pool = [
        pool_entry(1, HeroTier::Signature, Confidence::Adequate),
        pool_entry(2, HeroTier::Signature, Confidence::Insufficient),
    ];
    let traits = hero_pool_traits(&pool);
    assert_eq!(traits.len(), 1);
    assert_eq!(traits[0].statement, "You have 2 signature heroes \u{2014} deep history and results above your own average.");
    assert_eq!(traits[0].sample, 1);
    assert_eq!(traits[0].confidence, Confidence::Insufficient);
}

#[test]
fn the_pool_summary_counts_every_tier_once() {
    let pool = [
        pool_entry(1, HeroTier::Signature, Confidence::Adequate),
        pool_entry(2, HeroTier::Comfort, Confidence::Low),
        pool_entry(3, HeroTier::Stretch, Confidence::Insufficient),
        pool_entry(4, HeroTier::Risk, Confidence::Adequate),
        pool_entry(5, HeroTier::Risk, Confidence::Adequate),
    ];
    let s = summarize(&pool);
    assert_eq!(s.heroes, 5);
    assert_eq!((s.signature, s.comfort, s.stretch, s.risk), (1, 1, 1, 2));
    assert_eq!(s.signature + s.comfort + s.stretch + s.risk, s.heroes);
    assert_eq!(s.established, 4);
}

fn played(index: i64, won: bool) -> dota_coach::player_model::FormMatch {
    dota_coach::player_model::FormMatch { started_at: 1_700_000_000 + index * 3_600, won }
}

#[test]
fn the_recent_window_reads_the_newest_matches() {
    let mut matches: Vec<_> = (0..10).map(|i| played(i, false)).collect();
    matches.extend((10..20).map(|i| played(i, true)));

    let form = dota_coach::player_model::recent_form(&matches);
    assert_eq!(form.matches, 10);
    assert_eq!(form.wins, 10);
    assert_eq!(form.streak, 10);
}

#[test]
fn a_losing_streak_is_signed_negative() {
    let mut matches: Vec<_> = (0..10).map(|i| played(i, true)).collect();
    matches.extend((10..14).map(|i| played(i, false)));

    let form = dota_coach::player_model::recent_form(&matches);
    assert_eq!(form.streak, -4);
    assert_eq!(form.wins, 6);
    assert_eq!(form.matches, 10);
}

#[test]
fn an_empty_history_has_no_form() {
    let form = dota_coach::player_model::recent_form(&[]);
    assert_eq!((form.matches, form.wins, form.streak), (0, 0, 0));
}

#[test]
fn recent_form_sorts_rather_than_trusting_the_order() {
    let mut matches: Vec<_> = (0..4).map(|i| played(i, false)).collect();
    matches.push(played(10, true));
    matches.reverse();
    let form = dota_coach::player_model::recent_form(&matches);
    assert_eq!(form.streak, 1);
    assert_eq!((form.matches, form.wins), (5, 1));
}

#[test]
fn a_thin_history_is_a_stretch_hero_however_it_went() {
    assert_eq!(classify(3, true, true), HeroTier::Stretch);
    assert_eq!(classify(12, true, true), HeroTier::Signature);
    assert_eq!(classify(7, true, true), HeroTier::Comfort);
    assert_eq!(classify(12, false, false), HeroTier::Risk);
}

#[test]
fn a_barely_played_hero_is_never_recommended_outright() {
    let mut caveats = Vec::new();
    assert_eq!(level_for(RecommendationLevel::Recommended, 2, false, &mut caveats), RecommendationLevel::Consider);
    assert_eq!(caveats, vec![HELD_BACK.to_string()]);

    let mut caveats = Vec::new();
    assert_eq!(level_for(RecommendationLevel::Recommended, 20, true, &mut caveats), RecommendationLevel::Consider);
    assert_eq!(caveats, vec![POOR_RECENT_FORM.to_string()]);

    let mut caveats = Vec::new();
    assert_eq!(level_for(RecommendationLevel::Consider, 20, true, &mut caveats), RecommendationLevel::AvoidForNow);

    let mut caveats = Vec::new();
    assert_eq!(level_for(RecommendationLevel::Recommended, 20, false, &mut caveats), RecommendationLevel::Recommended);
    assert!(caveats.is_empty());
}

#[test]
fn a_pool_summary_counts_every_tier() {
    let mut thin = pool_entry(4, HeroTier::Stretch, Confidence::Insufficient);
    thin.matches = 2;
    let pool = [
        pool_entry(1, HeroTier::Signature, Confidence::Adequate),
        pool_entry(2, HeroTier::Comfort, Confidence::Adequate),
        pool_entry(3, HeroTier::Risk, Confidence::Adequate),
        thin,
    ];
    let summary = summarize(&pool);

    assert_eq!(summary.heroes, 4);
    assert_eq!(summary.signature, 1);
    assert_eq!(summary.comfort, 1);
    assert_eq!(summary.risk, 1);
    assert_eq!(summary.stretch, 1);
    assert_eq!(summary.established, 3);
}
