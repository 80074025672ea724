use dota_coach::benchmarks::Confidence;
use dota_coach::coaching::{
    cited, clamp, context_hash, extract_json, is_progress, parse_scope, scope_slug,
    validate_analysis, AnalysisScope, CoachingError, Evidence, EvidenceKind, EvidenceRefs,
    InsightKind, RawAnalysis, RawInsight, RawPlanStep,
};
use dota_coach::records::CoachableRole;

fn item(id: &str, kind: EvidenceKind, statement: &str) -> Evidence {
    Evidence {
        id: id.to_string(),
        kind,
        label: "Label".into(),
        statement: statement.to_string(),
        sample: 20,
        confidence: Confidence::Adequate,
    }
}

fn evidence() -> Vec<Evidence> {
    vec![
        item(
            "overall.record",
            EvidenceKind::Overall,
            "Across 20 stored matches, you have won 11 and lost 9 (55%).",
        ),
        item(
            "benchmark.gold_per_min",
            EvidenceKind::Overall,
            "On Luna, your gold per minute averages 511.8; the peer median is 558.0.",
        ),
    ]
}

fn evidence_with_progress() -> Vec<Evidence> {
    let mut out = evidence();
    out.push(item(
        "progress.overall.deaths",
        EvidenceKind::Progress,
        "Deaths per 10 minutes improved to 5.80, from 7.20 at your previous coaching session.",
    ));
    out.push(item(
        "progress.none",
        EvidenceKind::Progress,
        "This is the first coaching session recorded for this role.",
    ));
    out
}

fn insight(kind: &str, title: &str, explanation: &str, refs: &[&str]) -> RawInsight {
    RawInsight {
        kind: kind.into(),
        title: title.into(),
        explanation: explanation.into(),
        evidence: EvidenceRefs::Many(refs.iter().map(|s| s.to_string()).collect()),
    }
}

fn good() -> RawInsight {
    insight(
        "weakness",
        "Your farm trails your rank",
        "The gap is small but consistent.",
        &["benchmark.gold_per_min"],
    )
}

fn step(title: &str, action: &str, refs: &[&str]) -> RawPlanStep {
    RawPlanStep {
        title: title.into(),
        action: action.into(),
        evidence: EvidenceRefs::Many(refs.iter().map(|s| s.to_string()).collect()),
    }
}

fn answer(insights: Vec<RawInsight>) -> RawAnalysis {
    RawAnalysis { summary: "You are farming well.".into(), insights, plan: Vec::new() }
}

fn answer_with_plan(insights: Vec<RawInsight>, plan: Vec<RawPlanStep>) -> RawAnalysis {
    RawAnalysis { summary: "You are farming well.".into(), insights, plan }
}

#[test]
fn an_improvement_claim_without_a_comparison_is_dropped() {
    let raw = answer(vec![insight(
        "improvement",
        "Your farm is better",
        "You are farming more than you were.",
        &["benchmark.gold_per_min"],
    )]);
    assert!(matches!(
        validate_analysis(raw, &evidence(), 5, 4),
        Err(CoachingError::Unusable(_))
    ));
}

#[test]
fn an_improvement_citing_a_comparison_survives() {
    let raw = answer(vec![insight(
        "improvement",
        "You are dying less",
        "Deaths came down to 5.80 from 7.20 since last time.",
        &["progress.overall.deaths"],
    )]);
    let draft = validate_analysis(raw, &evidence_with_progress(), 5, 4).unwrap();
    assert_eq!(draft.insights.len(), 1);
    assert_eq!(draft.insights[0].kind, InsightKind::Improvement);
}

#[test]
fn progress_none_does_not_license_an_improvement_claim() {
    let raw = answer(vec![insight(
        "improvement",
        "You have improved",
        "Things are looking up.",
        &["progress.none"],
    )]);
    assert!(matches!(
        validate_analysis(raw, &evidence_with_progress(), 5, 4),
        Err(CoachingError::Unusable(_))
    ));
    assert!(is_progress("progress.overall.deaths"));
    assert!(!is_progress("progress.none"));
    assert!(!is_progress("benchmark.gold_per_min"));
}

#[test]
fn other_insight_kinds_are_unaffected_by_the_progress_rule() {
    let raw = answer(vec![insight(
        "weakness",
        "Farm is behind the median",
        "Your gold per minute sits below your peers.",
        &["benchmark.gold_per_min"],
    )]);
    assert_eq!(validate_analysis(raw, &evidence(), 5, 4).unwrap().insights.len(), 1);
}

#[test]
fn a_well_formed_answer_is_accepted() {
    let draft = validate_analysis(answer(vec![good()]), &evidence(), 5, 4).unwrap();

    assert_eq!(draft.summary, "You are farming well.");
    assert_eq!(draft.insights.len(), 1);
    assert_eq!(draft.insights[0].kind, InsightKind::Weakness);
    assert_eq!(draft.insights[0].kind_label, "Weakness");
    assert_eq!(draft.insights[0].evidence, vec!["benchmark.gold_per_min"]);
}

#[test]
fn an_insight_citing_evidence_that_does_not_exist_is_dropped() {
    let invented = insight(
        "weakness",
        "Your wards are poor",
        "You place 2.1 wards per game, well below average.",
        &["benchmark.wards_placed"],
    );
    assert!(matches!(
        validate_analysis(answer(vec![invented]), &evidence(), 5, 4),
        Err(CoachingError::Unusable(_))
    ));
}

#[test]
fn an_invented_citation_is_stripped_without_losing_a_valid_one() {
    let mixed = insight("weakness", "Farm", "Detail.", &["benchmark.gold_per_min", "benchmark.wards_placed"]);
    let draft = validate_analysis(answer(vec![mixed]), &evidence(), 5, 4).unwrap();
    assert_eq!(draft.insights[0].evidence, vec!["benchmark.gold_per_min"]);
}

#[test]
fn an_invented_kind_is_discarded_rather_than_coerced() {
    let invented_kind = insight("observation", "T", "E", &["overall.record"]);
    let draft = validate_analysis(answer(vec![invented_kind, good()]), &evidence(), 5, 4).unwrap();
    assert_eq!(draft.insights.len(), 1);
    assert_eq!(draft.insights[0].kind, InsightKind::Weakness);
}

#[test]
fn a_single_citation_sent_as_a_bare_string_is_accepted() {
    let bare = RawInsight {
        kind: "strength".into(),
        title: "Good economy".into(),
        explanation: "Detail.".into(),
        evidence: EvidenceRefs::One("overall.record".into()),
    };
    let draft = validate_analysis(answer(vec![bare]), &evidence(), 5, 4).unwrap();
    assert_eq!(draft.insights[0].evidence, vec!["overall.record"]);
}

#[test]
fn json_wrapped_in_prose_or_a_code_fence_is_still_read() {
    let fenced = "Sure! Here is the analysis:\n```json\n{\"summary\": \"x\", \"insights\": []}\n```";
    assert_eq!(
        extract_json(fenced).as_deref(),
        Some("{\"summary\": \"x\", \"insights\": []}")
    );
}

#[test]
fn an_answer_with_no_json_is_unusable() {
    assert_eq!(extract_json("I cannot help with that."), None);
    assert_eq!(extract_json("} backwards {"), None);
}

#[test]
fn the_insight_cap_is_enforced_on_the_answer() {
    let many: Vec<RawInsight> = (0..9).map(|_| good()).collect();
    let draft = validate_analysis(answer(many), &evidence(), 3, 4).unwrap();
    assert_eq!(draft.insights.len(), 3);
}

#[test]
fn overlong_text_is_truncated_on_a_character_boundary() {
    let long = "é".repeat(900);
    let raw = RawAnalysis {
        summary: long.clone(),
        insights: vec![insight("strength", "T", &long, &["overall.record"])],
        plan: Vec::new(),
    };
    let draft = validate_analysis(raw, &evidence(), 5, 4).unwrap();
    assert!(draft.summary.chars().count() <= 401);
    assert!(draft.insights[0].explanation.chars().count() <= 601);
}

#[test]
fn an_insight_with_no_text_is_dropped() {
    let empty = insight("strength", "", "", &["overall.record"]);
    assert!(validate_analysis(answer(vec![empty]), &evidence(), 5, 4).is_err());
}

#[test]
fn a_training_plan_is_parsed_and_numbered_from_one() {
    let plan = vec![
        step(
            "Leave fights you have not set up",
            "Only commit when you know where the enemy support is.",
            &["overall.record"],
        ),
        step(
            "Check buyback before committing",
            "Look at your gold before every fight.",
            &["benchmark.gold_per_min"],
        ),
    ];
    let draft = validate_analysis(answer_with_plan(vec![good()], plan), &evidence(), 5, 4).unwrap();

    assert_eq!(draft.plan.len(), 2);
    assert_eq!(draft.plan[0].position, 1);
    assert_eq!(draft.plan[1].position, 2);
    assert_eq!(draft.plan[0].evidence, vec!["overall.record"]);
}

#[test]
fn a_plan_step_citing_nothing_real_is_dropped_and_the_rest_renumbered() {
    let plan = vec![
        step("Invented", "Based on data nobody has.", &["benchmark.wards_placed"]),
        step("Real", "Based on something measured.", &["overall.record"]),
    ];
    let draft = validate_analysis(answer_with_plan(vec![good()], plan), &evidence(), 5, 4).unwrap();

    assert_eq!(draft.plan.len(), 1);
    assert_eq!(draft.plan[0].title, "Real");
    assert_eq!(draft.plan[0].position, 1);
}

#[test]
fn the_plan_cap_is_enforced() {
    let many: Vec<RawPlanStep> = (0..9).map(|_| step("T", "A", &["overall.record"])).collect();
    let draft = validate_analysis(answer_with_plan(vec![good()], many), &evidence(), 5, 3).unwrap();
    assert_eq!(draft.plan.len(), 3);
}

#[test]
fn an_answer_with_no_plan_is_still_a_usable_analysis() {
    let draft = validate_analysis(answer(vec![good()]), &evidence(), 5, 4).unwrap();
    assert!(draft.plan.is_empty());
    assert_eq!(draft.insights.len(), 1);
}

#[test]
fn an_insight_stating_a_figure_the_evidence_does_not_contain_is_dropped() {
    let invented_figure = insight(
        "weakness",
        "Your farm trails",
        "You average 412 gold per minute, well short of the mark.",
        &["benchmark.gold_per_min"],
    );
    assert!(matches!(
        validate_analysis(answer(vec![invented_figure]), &evidence(), 5, 4),
        Err(CoachingError::Unusable(_))
    ));
}

#[test]
fn an_insight_repeating_a_measured_figure_is_kept() {
    let faithful = insight(
        "weakness",
        "Twenty matches is a thin read",
        "Across 20 matches the trend is real but young.",
        &["overall.record"],
    );
    assert_eq!(validate_analysis(answer(vec![faithful]), &evidence(), 5, 4).unwrap().insights.len(), 1);
}

#[test]
fn a_plan_step_that_invents_a_timing_target_is_dropped() {
    let plan = vec![step(
        "Hit your item timing",
        "Finish your first big item before 18 minutes.",
        &["overall.record"],
    )];
    let draft = validate_analysis(answer_with_plan(vec![good()], plan), &evidence(), 5, 4).unwrap();
    assert!(draft.plan.is_empty());
    assert_eq!(draft.insights.len(), 1);
}

#[test]
fn a_summary_that_invents_a_figure_is_dropped_without_losing_the_insights() {
    let raw = RawAnalysis {
        summary: "You are winning 73% of your games right now.".into(),
        insights: vec![good()],
        plan: Vec::new(),
    };
    let draft = validate_analysis(raw, &evidence(), 5, 4).unwrap();
    assert!(draft.summary.is_empty(), "{}", draft.summary);
    assert_eq!(draft.insights.len(), 1);
}

#[test]
fn the_context_hash_changes_with_the_evidence_and_not_otherwise() {
    let base = context_hash(&evidence(), AnalysisScope::Player, None, "m");

    assert_eq!(base, context_hash(&evidence(), AnalysisScope::Player, None, "m"));
    assert_ne!(base, context_hash(&evidence(), AnalysisScope::Match, None, "m"));
    assert_ne!(base, context_hash(&evidence(), AnalysisScope::Player, None, "m2"));

    let mut changed = evidence();
    changed[0].statement = "A different measured sentence.".into();
    assert_ne!(base, context_hash(&changed, AnalysisScope::Player, None, "m"));

    assert_eq!(base.len(), 64);
    assert!(base.chars().all(|c| c.is_ascii_hexdigit() && !c.is_ascii_uppercase()));
}

#[test]
fn the_context_hash_separates_two_roles_with_identical_evidence() {
    let carry = context_hash(&evidence(), AnalysisScope::Role, Some(CoachableRole::Carry), "m");
    let support = context_hash(&evidence(), AnalysisScope::Role, Some(CoachableRole::SoftSupport), "m");
    let unscoped = context_hash(&evidence(), AnalysisScope::Role, None, "m");

    assert_ne!(carry, support);
    assert_ne!(carry, unscoped);
    assert_ne!(support, unscoped);
}

#[test]
fn the_context_hash_is_order_sensitive_because_the_prompt_is() {
    let mut reordered = evidence();
    reordered.reverse();
    assert_ne!(
        context_hash(&evidence(), AnalysisScope::Player, None, "m"),
        context_hash(&reordered, AnalysisScope::Player, None, "m")
    );
}

#[test]
fn citations_keep_only_known_ids_in_order() {
    let refs = EvidenceRefs::Many(vec![
        "benchmark.gold_per_min".into(),
        "nope".into(),
        "overall.record".into(),
    ]);
    assert_eq!(cited(refs, &evidence()), vec!["benchmark.gold_per_min", "overall.record"]);
    assert!(cited(EvidenceRefs::Missing, &evidence()).is_empty());
}

#[test]
fn a_clamped_text_ends_on_a_word_and_an_ellipsis() {
    let v: Vec<char> = "alpha beta gamma".chars().collect();
    assert_eq!(clamp(&v, 100), v);
    let out: String = clamp(&v, 12).into_iter().collect();
    assert_eq!(out, "alpha beta…");
}

#[test]
fn scopes_read_back_as_their_names() {
    for scope in [AnalysisScope::Player, AnalysisScope::Match, AnalysisScope::Role] {
        assert_eq!(parse_scope(scope_slug(scope)), scope);
    }
    assert_eq!(InsightKind::parse("weakness"), Some(InsightKind::Weakness));
    assert_eq!(InsightKind::parse("observation"), None);
    assert_eq!(InsightKind::all().len(), 6);
}
