use dota_coach::coaching::InsightKind;
use dota_coach::prompt::{system, PROMPT_VERSION};

#[test]
fn the_system_prompt_forbids_arithmetic_and_names_every_kind() {
    let system = system(5);

    assert!(system.contains("must NOT calculate"));
    assert!(system.contains("At most 5 insights"));
    for kind in InsightKind::all() {
        assert!(system.contains(kind.slug()), "missing {}", kind.slug());
    }
}

#[test]
fn the_insight_cap_is_written_into_the_instructions() {
    assert!(system(3).contains("At most 3 insights"));
    assert_ne!(system(3), system(4));
    assert_eq!(PROMPT_VERSION, 2);
}
