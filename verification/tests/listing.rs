use dota_coach::listing::{facet_sql, MatchFilter, MatchSort};
use dota_coach::records::CoachableRole;

#[test]
fn every_sort_reads_back_from_its_name() {
    for sort in [
        MatchSort::Newest,
        MatchSort::Oldest,
        MatchSort::HighestGpm,
        MatchSort::LowestGpm,
        MatchSort::HighestKda,
    ] {
        assert_eq!(MatchSort::parse(sort.slug()), Some(sort));
    }
    assert_eq!(MatchSort::parse("best"), None);
    assert_eq!(MatchSort::default(), MatchSort::Newest);
}

#[test]
fn recency_breaks_every_tie_and_a_missing_kda_sorts_last() {
    assert_eq!(MatchSort::Newest.order_by(), "m.started_at DESC");
    assert_eq!(MatchSort::HighestGpm.order_by(), "m.gpm DESC, m.started_at DESC");
    assert_eq!(
        MatchSort::HighestKda.order_by(),
        "mm.kda DESC NULLS LAST, m.started_at DESC"
    );
}

#[test]
fn the_default_filter_lists_everything() {
    let f = MatchFilter::default();
    assert!(f.is_empty());
    let hero = MatchFilter { hero_id: Some(35), ..MatchFilter::default() };
    assert!(!hero.is_empty());
    let role = MatchFilter { role: Some(CoachableRole::Mid), ..MatchFilter::default() };
    assert!(!role.is_empty());
}

#[test]
fn the_predicate_uses_three_consecutive_bind_slots() {
    let p = MatchFilter::default().predicate(2);
    assert!(p.contains("$2::int IS NULL OR m.hero_id = $2"));
    assert!(p.contains("$3::bool IS NULL OR m.won = $3"));
    assert!(p.contains("$4::text[] IS NULL OR m.role = ANY($4)"));
    assert!(!p.contains("$5"));
}

#[test]
fn a_career_facet_needs_no_window() {
    let sql = facet_sql(None, "m.role, COUNT(*)", "m.role", "COUNT(*) DESC");
    assert!(sql.starts_with("\n         SELECT m.role, COUNT(*)"));
    assert!(sql.contains("WHERE m.dota_player_id = $1"));
    assert!(sql.ends_with("ORDER BY COUNT(*) DESC"));

    let windowed = facet_sql(Some(("WITH w AS (SELECT 1)", "JOIN w ON true")), "x", "y", "z");
    assert!(windowed.starts_with("WITH w AS (SELECT 1)"));
    assert!(windowed.contains("JOIN w ON true"));
}

#[test]
fn coachable_roles_have_stable_names() {
    assert_eq!(CoachableRole::Carry.slug(), "carry");
    assert_eq!(CoachableRole::SoftSupport.slug(), "soft_support");
    assert_eq!(CoachableRole::HardSupport.slug(), "hard_support");
}
