use dota_coach::numbers::{count_figures, figure_string, figures, unverifiable};

const EVIDENCE: &[&str] = &[
    "You die 4.14 times per 10 minutes of game time.",
    "Across 30 stored matches, you have won 15 and lost 15 (50%).",
    "On Luna, your gold per minute averages 511.8; the peer median is 558.0 and the top 20% \
     start at 680.0.",
];

/// The unverifiable figures, written as numbers print.
fn invented(text: &str, sources: &[&str]) -> Vec<String> {
    unverifiable(text, sources).iter().map(figure_string).collect()
}

#[test]
fn a_figure_repeated_from_the_evidence_is_verified() {
    assert!(unverifiable("You die 4.14 times per 10 minutes.", EVIDENCE).is_empty());
    assert!(unverifiable("You have won 15 of 30.", EVIDENCE).is_empty());
}

#[test]
fn a_figure_rounded_down_from_the_evidence_is_still_verified() {
    assert!(unverifiable("You die about 4.1 times per 10 minutes.", EVIDENCE).is_empty());
    assert!(unverifiable("You average 512 gold per minute.", EVIDENCE).is_empty());
    assert!(unverifiable("You die 4 times per 10 minutes.", EVIDENCE).is_empty());
}

#[test]
fn precision_the_evidence_never_had_is_not_verified() {
    assert_eq!(invented("You die 4.144 times per 10 minutes.", EVIDENCE), vec!["4.144"]);
}

#[test]
fn an_invented_figure_is_caught() {
    assert_eq!(invented("You die 7.4 times per 10 minutes.", EVIDENCE), vec!["7.4"]);
    assert_eq!(
        invented("Aim for 650 gold per minute by 25 minutes.", EVIDENCE),
        vec!["650", "25"]
    );
}

#[test]
fn percentages_and_separators_read_as_the_same_figure() {
    assert!(unverifiable("You win 50% of them.", EVIDENCE).is_empty());
    let with_separator = ["Your net worth averages 24,500."];
    assert!(unverifiable("You finish around 24500 net worth.", &with_separator).is_empty());
}

#[test]
fn an_evidence_id_in_the_prose_is_not_mistaken_for_a_figure() {
    assert!(unverifiable("As hero.35 shows, you win 50%.", EVIDENCE).is_empty());
}

#[test]
fn prose_with_no_numbers_is_always_verifiable() {
    assert!(unverifiable(
        "Check your buyback before you take a fight, and ward earlier.",
        EVIDENCE,
    )
    .is_empty());
    assert!(unverifiable("", EVIDENCE).is_empty());
}

#[test]
fn a_claim_citing_nothing_can_verify_nothing() {
    assert_eq!(invented("You die 4.14 times.", &[]), vec!["4.14"]);
    assert!(unverifiable("You die too often.", &[]).is_empty());
}

#[test]
fn figures_are_read_in_order_with_their_decimals() {
    let found = figures("Won 15 of 30 (50%), 4.14 deaths, 24,500 gold.");
    let printed: Vec<String> = found.iter().map(figure_string).collect();
    assert_eq!(printed, vec!["15", "30", "50", "4.14", "24500"]);
    assert_eq!(count_figures("Won 15 of 30 (50%), 4.14 deaths, 24,500 gold."), 5);
    assert!(dota_coach::numbers::matches(&found[3], &figures("4.14")[0]));
    assert!(dota_coach::numbers::matches(&figures("4.1")[0], &found[3]));
    assert!(!dota_coach::numbers::matches(&figures("4.2")[0], &found[3]));
}

#[test]
fn a_text_quoted_back_as_its_own_source_is_fully_backed() {
    let statement = "Across 20 stored matches, you have won 11 and lost 9 (55%), averaging 4.14 KDA.";
    assert!(unverifiable(statement, &[statement]).is_empty());
    assert!(unverifiable(statement, &["Unrelated.", statement]).is_empty());
    assert_eq!(unverifiable(statement, &["Unrelated."]).len(), count_figures(statement));
    assert_eq!(count_figures(statement), 5);
}
