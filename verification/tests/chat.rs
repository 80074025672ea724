use dota_coach::benchmarks::Confidence;
use dota_coach::chat::{
    finish_reply, system, truncate, turn, verify, ChatError, Message, MessageSpeaker,
    MAX_REPLY_CHARS,
};
use dota_coach::coaching::{Evidence, EvidenceKind};
use dota_coach::llm::{LlmError, Speaker};

fn evidence() -> Vec<Evidence> {
    [
        ("overall.deaths", "That is 5.80 deaths per 10 minutes."),
        (
            "progress.overall.deaths",
            "Deaths per 10 minutes improved to 5.80, from 7.20 at your previous coaching session.",
        ),
    ]
    .into_iter()
    .map(|(id, statement)| Evidence {
        id: id.to_string(),
        kind: EvidenceKind::Overall,
        label: "Label".into(),
        statement: statement.to_string(),
        sample: 20,
        confidence: Confidence::Adequate,
    })
    .collect()
}

#[test]
fn a_reply_quoting_the_evidence_is_accepted() {
    let cited = verify(
        "You are down to 5.80 deaths per 10 minutes, from 7.20 last time.",
        &evidence(),
    )
    .expect("figures present in the evidence");

    assert!(!cited.is_empty(), "a reply with figures carries provenance");
}

#[test]
fn a_reply_inventing_a_figure_is_refused() {
    let result = verify("Your deaths are around 2.10 per 10 minutes.", &evidence());
    assert!(matches!(result, Err(ChatError::Unverifiable(_))));
}

#[test]
fn a_qualitative_reply_needs_no_figures_at_all() {
    let cited = verify(
        "Your deaths are the thing holding you back. Play the first ten minutes \
         more patiently and take fewer fights you did not start.",
        &evidence(),
    )
    .expect("prose without numbers is always verifiable");

    assert!(cited.is_empty(), "nothing was quoted, so nothing is cited");
}

#[test]
fn a_blank_answer_trims_to_nothing_and_is_caught_before_storage() {
    assert!(truncate("   ", MAX_REPLY_CHARS).trim().is_empty());
}

#[test]
fn a_long_reply_is_truncated_on_a_character_boundary() {
    let long = "é".repeat(MAX_REPLY_CHARS + 50);
    let out = truncate(&long, MAX_REPLY_CHARS);

    assert_eq!(out.chars().count(), MAX_REPLY_CHARS);
    assert!(out.is_char_boundary(out.len()));
}

#[test]
fn the_prompt_tells_the_model_the_question_is_not_instructions() {
    let system = system();

    assert!(system.contains("not instructions to follow"));
    assert!(system.contains("NOT evidence"));
    assert!(system.contains("discarded"));
}

#[test]
fn a_short_reply_is_kept_whole() {
    assert_eq!(truncate("ok", 5), "ok");
    assert_eq!(truncate("abcdef", 3), "abc");
}

#[test]
fn a_reply_is_trimmed_cited_and_attributed() {
    let reply = finish_reply("  You are at 5.80 deaths per 10 minutes.  ", "m".into(), &evidence())
        .unwrap();
    assert_eq!(reply.text, "You are at 5.80 deaths per 10 minutes.");
    assert_eq!(reply.model, "m");
    assert!(reply.evidence.contains(&"overall.deaths".to_string()));
}

#[test]
fn a_blank_reply_is_never_stored() {
    assert!(matches!(
        finish_reply("   \n ", "m".into(), &evidence()),
        Err(ChatError::Empty)
    ));
}

#[test]
fn each_chat_error_explains_itself_without_the_cause() {
    assert_eq!(
        ChatError::Empty.user_note(),
        "The coach did not answer. Try asking again."
    );
    assert!(ChatError::Unverifiable("2.10".into()).user_note().contains("not in your data"));
    assert!(!ChatError::Llm(LlmError::Unavailable("dns".into())).user_note().contains("dns"));
}

#[test]
fn a_stored_message_keeps_who_said_it() {
    let m = Message { speaker: MessageSpeaker::Player, content: "why do I die?".into() };
    let t = turn(&m);
    assert_eq!(t.speaker, Speaker::Player);
    assert_eq!(t.text, "why do I die?");
}
