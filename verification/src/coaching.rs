//! The AI coach's answer, checked before anything is believed.
//!
//! The pipeline is one-directional: deterministic evidence, a prompt, a model,
//! then validation here, then storage. An insight survives only if its kind is
//! one the domain defines, every evidence id it cites exists in the evidence
//! that was sent, an improvement claim rests on a comparison between two
//! sessions, and every figure its prose states is one its cited evidence
//! holds. Nothing is repaired: what fails is dropped.

use vstd::prelude::*;

use crate::benchmarks::Confidence;
use crate::llm::LlmError;
use crate::numbers::{spec_unverifiable, texts, unverifiable, views};
use crate::text::{chars_of, push_char, push_chars, string_of, trim, trim_chars};
use crate::records::{spec_role_slug, CoachableRole};
use crate::prompt::PROMPT_VERSION;
use vstd::string::StringSliceAdditionalSpecFns;
use vstd::utf8::encode_utf8;
use sha2::Digest;

verus! {

/// What an evidence item is about.
#[derive(Debug, Clone, Copy, PartialEq, Eq, Structural)]
pub enum EvidenceKind {
    Overall,
    Form,
    Benchmark,
    Hero,
    Pattern,
    Focus,
    Match,
    Progress,
}

/// One backend-composed sentence the model may cite by id.
#[derive(Debug, Clone, PartialEq)]
pub struct Evidence {
    pub id: String,
    pub kind: EvidenceKind,
    pub label: String,
    pub statement: String,
    pub sample: i64,
    pub confidence: Confidence,
}

/// Whether an analysis reads a whole career, one match, or one role.
#[derive(Debug, Clone, Copy, PartialEq, Eq, Structural)]
pub enum AnalysisScope {
    Player,
    Match,
    Role,
}

pub open spec fn spec_scope_slug(scope: AnalysisScope) -> Seq<char> {
    match scope {
        AnalysisScope::Player => "player"@,
        AnalysisScope::Match => "match"@,
        AnalysisScope::Role => "role"@,
    }
}

/// The stored name of a scope.
pub fn scope_slug(scope: AnalysisScope) -> (s: &'static str)
    ensures
        s@ == spec_scope_slug(scope),
{
    match scope {
        AnalysisScope::Player => "player",
        AnalysisScope::Match => "match",
        AnalysisScope::Role => "role",
    }
}

pub open spec fn spec_parse_scope(value: Seq<char>) -> AnalysisScope {
    if value == "match"@ {
        AnalysisScope::Match
    } else if value == "role"@ {
        AnalysisScope::Role
    } else {
        AnalysisScope::Player
    }
}

/// A stored scope name read back; anything unrecognised is a player scope.
pub fn parse_scope(value: &str) -> (scope: AnalysisScope)
    ensures
        scope == spec_parse_scope(value@),
{
    if crate::text::same_text(value, "match") {
        AnalysisScope::Match
    } else if crate::text::same_text(value, "role") {
        AnalysisScope::Role
    } else {
        AnalysisScope::Player
    }
}

/// Reading a scope back gives the scope that was stored.
pub proof fn scope_round_trip(scope: AnalysisScope)
    ensures
        spec_parse_scope(spec_scope_slug(scope)) == scope,
{
    reveal_strlit("player");
    reveal_strlit("match");
    reveal_strlit("role");
    assert("player"@.len() != "match"@.len());
    assert("player"@.len() != "role"@.len());
    assert("role"@.len() != "match"@.len());
}

/// The kinds of insight the coach may offer.
#[derive(Debug, Clone, Copy, PartialEq, Eq, Structural)]
pub enum InsightKind {
    Strength,
    Weakness,
    Improvement,
    Pattern,
    Mistake,
    Recommendation,
}

pub open spec fn spec_kind_slug(k: InsightKind) -> Seq<char> {
    match k {
        InsightKind::Strength => "strength"@,
        InsightKind::Weakness => "weakness"@,
        InsightKind::Improvement => "improvement"@,
        InsightKind::Pattern => "pattern"@,
        InsightKind::Mistake => "mistake"@,
        InsightKind::Recommendation => "recommendation"@,
    }
}

pub open spec fn spec_kind_label(k: InsightKind) -> Seq<char> {
    match k {
        InsightKind::Strength => "Strength"@,
        InsightKind::Weakness => "Weakness"@,
        InsightKind::Improvement => "Improvement"@,
        InsightKind::Pattern => "Pattern"@,
        InsightKind::Mistake => "Mistake"@,
        InsightKind::Recommendation => "Recommendation"@,
    }
}

pub open spec fn spec_parse_kind(value: Seq<char>) -> Option<InsightKind> {
    if value == "strength"@ {
        Some(InsightKind::Strength)
    } else if value == "weakness"@ {
        Some(InsightKind::Weakness)
    } else if value == "improvement"@ {
        Some(InsightKind::Improvement)
    } else if value == "pattern"@ {
        Some(InsightKind::Pattern)
    } else if value == "mistake"@ {
        Some(InsightKind::Mistake)
    } else if value == "recommendation"@ {
        Some(InsightKind::Recommendation)
    } else {
        None
    }
}

impl InsightKind {
    /// Every kind, in the order the prompt lists them.
    pub fn all() -> (v: Vec<InsightKind>)
        ensures
            v@ == seq![
                InsightKind::Strength,
                InsightKind::Weakness,
                InsightKind::Improvement,
                InsightKind::Pattern,
                InsightKind::Mistake,
                InsightKind::Recommendation,
            ],
    {
        let mut v = Vec::new();
        v.push(InsightKind::Strength);
        v.push(InsightKind::Weakness);
        v.push(InsightKind::Improvement);
        v.push(InsightKind::Pattern);
        v.push(InsightKind::Mistake);
        v.push(InsightKind::Recommendation);
        assert(v@ =~= seq![
            InsightKind::Strength,
            InsightKind::Weakness,
            InsightKind::Improvement,
            InsightKind::Pattern,
            InsightKind::Mistake,
            InsightKind::Recommendation,
        ]);
        v
    }

    pub fn slug(self) -> (s: &'static str)
        ensures
            s@ == spec_kind_slug(self),
    {
        match self {
            InsightKind::Strength => "strength",
            InsightKind::Weakness => "weakness",
            InsightKind::Improvement => "improvement",
            InsightKind::Pattern => "pattern",
            InsightKind::Mistake => "mistake",
            InsightKind::Recommendation => "recommendation",
        }
    }

    pub fn label(self) -> (s: &'static str)
        ensures
            s@ == spec_kind_label(self),
    {
        match self {
            InsightKind::Strength => "Strength",
            InsightKind::Weakness => "Weakness",
            InsightKind::Improvement => "Improvement",
            InsightKind::Pattern => "Pattern",
            InsightKind::Mistake => "Mistake",
            InsightKind::Recommendation => "Recommendation",
        }
    }

    /// The kind a slug names; nothing else is coerced into one.
    pub fn parse(value: &str) -> (k: Option<InsightKind>)
        ensures
            k == spec_parse_kind(value@),
    {
        if crate::text::same_text(value, "strength") {
            Some(InsightKind::Strength)
        } else if crate::text::same_text(value, "weakness") {
            Some(InsightKind::Weakness)
        } else if crate::text::same_text(value, "improvement") {
            Some(InsightKind::Improvement)
        } else if crate::text::same_text(value, "pattern") {
            Some(InsightKind::Pattern)
        } else if crate::text::same_text(value, "mistake") {
            Some(InsightKind::Mistake)
        } else if crate::text::same_text(value, "recommendation") {
            Some(InsightKind::Recommendation)
        } else {
            None
        }
    }
}

/// A kind's slug parses back to that kind.
pub proof fn kind_round_trip(k: InsightKind)
    ensures
        spec_parse_kind(spec_kind_slug(k)) == Some(k),
{
    reveal_strlit("strength");
    reveal_strlit("weakness");
    reveal_strlit("improvement");
    reveal_strlit("pattern");
    reveal_strlit("mistake");
    reveal_strlit("recommendation");
    let all = seq!["strength"@, "weakness"@, "improvement"@, "pattern"@, "mistake"@, "recommendation"@];
    assert(all[0][0] == 's' && all[1][0] == 'w' && all[2][0] == 'i' && all[3][0] == 'p');
    assert(all[4][0] == 'm' && all[5][0] == 'r');
}

/// One validated insight.
#[derive(Debug, Clone, PartialEq)]
pub struct Insight {
    pub kind: InsightKind,
    pub kind_label: &'static str,
    pub title: String,
    pub explanation: String,
    pub evidence: Vec<String>,
}

/// One step of a validated training plan, numbered from one.
#[derive(Debug, Clone, PartialEq)]
pub struct PlanStep {
    pub position: u32,
    pub title: String,
    pub action: String,
    pub evidence: Vec<String>,
}

/// A validated analysis, before it is stored.
#[derive(Debug, Clone, PartialEq)]
pub struct Draft {
    pub summary: String,
    pub insights: Vec<Insight>,
    pub plan: Vec<PlanStep>,
}

/// A validated analysis with the model that produced it.
#[derive(Debug, Clone, PartialEq)]
pub struct Generated {
    pub summary: String,
    pub insights: Vec<Insight>,
    pub plan: Vec<PlanStep>,
    pub model: String,
}

/// Why an analysis could not be produced.
#[derive(Debug, Clone, PartialEq)]
pub enum CoachingError {
    Llm(LlmError),
    /// The model answered, but nothing in the answer survived validation.
    Unusable(String),
    /// Nothing to analyse.
    NoEvidence,
}

pub open spec fn spec_coaching_note(e: CoachingError) -> Seq<char> {
    match e {
        CoachingError::Llm(inner) => crate::llm::spec_llm_note(inner),
        CoachingError::Unusable(_) => "The coaching model's answer could not be verified against your data, so it was discarded."@,
        CoachingError::NoEvidence => "Sync some matches first — there is nothing to analyse yet."@,
    }
}

impl CoachingError {
    pub fn user_note(&self) -> (s: String)
        ensures
            s@ == spec_coaching_note(*self),
    {
        match self {
            CoachingError::Llm(e) => crate::text::owned(e.user_note()),
            CoachingError::Unusable(_) => crate::text::owned(
                "The coaching model's answer could not be verified against your data, so it was discarded.",
            ),
            CoachingError::NoEvidence => crate::text::owned(
                "Sync some matches first — there is nothing to analyse yet.",
            ),
        }
    }
}

/// One id or several, as a model sends them.
#[derive(Debug, Clone, PartialEq)]
pub enum EvidenceRefs {
    Missing,
    One(String),
    Many(Vec<String>),
}

pub open spec fn strings(v: Seq<String>) -> Seq<Seq<char>> {
    v.map_values(|s: String| s@)
}

pub open spec fn spec_refs(r: EvidenceRefs) -> Seq<Seq<char>> {
    match r {
        EvidenceRefs::Missing => seq![],
        EvidenceRefs::One(id) => seq![id@],
        EvidenceRefs::Many(ids) => strings(ids@),
    }
}

impl EvidenceRefs {
    pub fn into_vec(self) -> (v: Vec<String>)
        ensures
            strings(v@) == spec_refs(self),
    {
        match self {
            EvidenceRefs::Missing => Vec::new(),
            EvidenceRefs::One(id) => {
                let mut v = Vec::new();
                v.push(id);
                proof {
                    assert(strings(v@) =~= seq![v@[0]@]);
                }
                v
            },
            EvidenceRefs::Many(ids) => ids,
        }
    }
}

/// An insight as the model sent it.
#[derive(Debug, Clone, PartialEq)]
pub struct RawInsight {
    pub kind: String,
    pub title: String,
    pub explanation: String,
    pub evidence: EvidenceRefs,
}

/// A plan step as the model sent it.
#[derive(Debug, Clone, PartialEq)]
pub struct RawPlanStep {
    pub title: String,
    pub action: String,
    pub evidence: EvidenceRefs,
}

/// The answer as the model sent it, once read as JSON.
#[derive(Debug, Clone, PartialEq)]
pub struct RawAnalysis {
    pub summary: String,
    pub insights: Vec<RawInsight>,
    pub plan: Vec<RawPlanStep>,
}

// ---------------------------------------------------------------------------
// The rules, as specifications
// ---------------------------------------------------------------------------

/// Whether an id names an evidence item that was sent.
pub open spec fn known(id: Seq<char>, ev: Seq<Evidence>) -> bool {
    exists|k: int| 0 <= k < ev.len() && ev[k].id@ == id
}

/// The cited ids that name real evidence, in the order they were cited.
pub open spec fn keep_known(refs: Seq<Seq<char>>, ev: Seq<Evidence>) -> Seq<Seq<char>>
    decreases refs.len(),
{
    if refs.len() == 0 {
        seq![]
    } else {
        keep_known(refs.drop_last(), ev) + if known(refs.last(), ev) {
            seq![refs.last()]
        } else {
            seq![]
        }
    }
}

/// Whether an id describes change between two sessions rather than a current
/// reading. `progress.none`, the statement that there is nothing to compare,
/// does not.
pub open spec fn spec_is_progress(id: Seq<char>) -> bool {
    id.len() >= 9 && id.take(9) == "progress."@ && id != "progress.none"@
}

/// The statements of the evidence a citation list names, in evidence order.
pub open spec fn cited_statements(refs: Seq<Seq<char>>, ev: Seq<Evidence>) -> Seq<Seq<char>>
    decreases ev.len(),
{
    if ev.len() == 0 {
        seq![]
    } else {
        cited_statements(refs, ev.drop_last()) + if refs.contains(ev.last().id@) {
            seq![ev.last().statement@]
        } else {
            seq![]
        }
    }
}

/// Index of the last occurrence of `c` in `s`, or -1.
pub open spec fn last_index_of(s: Seq<char>, c: char) -> int
    decreases s.len(),
{
    if s.len() == 0 {
        -1
    } else if s.last() == c {
        s.len() - 1
    } else {
        last_index_of(s.drop_last(), c)
    }
}

/// Text cut to `max` characters, at a word boundary when that keeps more than
/// half of it, and marked with an ellipsis when anything was cut.
pub open spec fn spec_clamp(v: Seq<char>, max: nat) -> Seq<char> {
    if v.len() <= max {
        v
    } else {
        let t = v.take(max as int);
        let p = last_index_of(t, ' ');
        if p >= 0 && p > (max / 2) as int {
            t.take(p).push('…')
        } else {
            t.push('…')
        }
    }
}

/// The first `n` items, or all of them.
pub open spec fn prefix<T>(s: Seq<T>, n: nat) -> Seq<T> {
    if n >= s.len() {
        s
    } else {
        s.take(n as int)
    }
}

/// An insight's meaning: kind, title, explanation and citations.
pub type InsightView = (InsightKind, Seq<char>, Seq<char>, Seq<Seq<char>>);

/// What survives of one raw insight, if anything.
pub open spec fn accept_insight(raw: RawInsight, ev: Seq<Evidence>) -> Option<InsightView> {
    match spec_parse_kind(raw.kind@) {
        None => None,
        Some(kind) => {
            let refs = keep_known(spec_refs(raw.evidence), ev);
            let title = spec_clamp(trim(raw.title@), 80);
            let explanation = spec_clamp(trim(raw.explanation@), 600);
            let sources = cited_statements(refs, ev);
            if refs.len() == 0 {
                None
            } else if kind == InsightKind::Improvement && !(exists|k: int|
                0 <= k < refs.len() && spec_is_progress(#[trigger] refs[k])) {
                None
            } else if title.len() == 0 || explanation.len() == 0 {
                None
            } else if spec_unverifiable(title, sources).len() > 0 || spec_unverifiable(
                explanation,
                sources,
            ).len() > 0 {
                None
            } else {
                Some((kind, title, explanation, refs))
            }
        },
    }
}

/// Every raw insight that survives, in the order the model sent them.
pub open spec fn accepted_insights(raws: Seq<RawInsight>, ev: Seq<Evidence>) -> Seq<InsightView>
    decreases raws.len(),
{
    if raws.len() == 0 {
        seq![]
    } else {
        accepted_insights(raws.drop_last(), ev) + match accept_insight(raws.last(), ev) {
            Some(i) => seq![i],
            None => seq![],
        }
    }
}

/// A plan step's meaning: title, action and citations.
pub type StepView = (Seq<char>, Seq<char>, Seq<Seq<char>>);

pub open spec fn accept_step(raw: RawPlanStep, ev: Seq<Evidence>) -> Option<StepView> {
    let refs = keep_known(spec_refs(raw.evidence), ev);
    let title = spec_clamp(trim(raw.title@), 80);
    let action = spec_clamp(trim(raw.action@), 400);
    let sources = cited_statements(refs, ev);
    if refs.len() == 0 {
        None
    } else if title.len() == 0 || action.len() == 0 {
        None
    } else if spec_unverifiable(title, sources).len() > 0 || spec_unverifiable(
        action,
        sources,
    ).len() > 0 {
        None
    } else {
        Some((title, action, refs))
    }
}

pub open spec fn accepted_steps(raws: Seq<RawPlanStep>, ev: Seq<Evidence>) -> Seq<StepView>
    decreases raws.len(),
{
    if raws.len() == 0 {
        seq![]
    } else {
        accepted_steps(raws.drop_last(), ev) + match accept_step(raws.last(), ev) {
            Some(s) => seq![s],
            None => seq![],
        }
    }
}

/// Every evidence statement.
pub open spec fn all_statements(ev: Seq<Evidence>) -> Seq<Seq<char>> {
    ev.map_values(|e: Evidence| e.statement@)
}

/// The summary that is kept: trimmed and clamped, or empty when it states a
/// figure the evidence does not hold.
pub open spec fn kept_summary(summary: Seq<char>, ev: Seq<Evidence>) -> Seq<char> {
    let s = spec_clamp(trim(summary), 400);
    if spec_unverifiable(s, all_statements(ev)).len() > 0 {
        seq![]
    } else {
        s
    }
}

pub open spec fn insight_view(i: Insight) -> InsightView {
    (i.kind, i.title@, i.explanation@, strings(i.evidence@))
}

pub open spec fn step_view(s: PlanStep) -> StepView {
    (s.title@, s.action@, strings(s.evidence@))
}

// ---------------------------------------------------------------------------
// The rules, as code
// ---------------------------------------------------------------------------

/// Whether an evidence id describes change over time.
pub fn is_progress(id: &str) -> (b: bool)
    ensures
        b == spec_is_progress(id@),
{
    let c = chars_of(id);
    let p = chars_of("progress.");
    let none = chars_of("progress.none");
    proof {
        reveal_strlit("progress.");
    }
    crate::text::has_prefix(&c, &p) && !crate::text::same_chars(&c, &none)
}

fn id_is_known(id: &String, evidence: &[Evidence]) -> (b: bool)
    ensures
        b == known(id@, evidence@),
{
    let mut k: usize = 0;
    while k < evidence.len()
        invariant
            k <= evidence@.len(),
            forall|q: int| 0 <= q < k ==> evidence@[q].id@ != id@,
        decreases evidence@.len() - k,
    {
        if crate::text::same_text(evidence[k].id.as_str(), id.as_str()) {
            return true;
        }
        k = k + 1;
    }
    false
}

fn copy_string(s: &String) -> (out: String)
    ensures
        out@ == s@,
{
    s.clone()
}

/// Keep only the citations that name evidence which actually exists.
pub fn cited(refs: EvidenceRefs, evidence: &[Evidence]) -> (out: Vec<String>)
    ensures
        strings(out@) == keep_known(spec_refs(refs), evidence@),
{
    let ghost want = spec_refs(refs);
    let ids = refs.into_vec();
    let mut out: Vec<String> = Vec::new();
    let mut i: usize = 0;
    while i < ids.len()
        invariant
            i <= ids@.len(),
            strings(ids@) == want,
            strings(out@) == keep_known(want.take(i as int), evidence@),
        decreases ids@.len() - i,
    {
        proof {
            assert(want.take(i + 1).drop_last() =~= want.take(i as int));
            assert(want.take(i + 1).last() == ids@[i as int]@);
        }
        if id_is_known(&ids[i], evidence) {
            let ghost before = out@;
            out.push(copy_string(&ids[i]));
            proof {
                assert(strings(out@) =~= strings(before) + seq![ids@[i as int]@]);
            }
        } else {
            proof {
                assert(keep_known(want.take(i + 1), evidence@) =~= keep_known(
                    want.take(i as int),
                    evidence@,
                ) + seq![]);
            }
        }
        i = i + 1;
    }
    proof {
        assert(want.take(ids@.len() as int) =~= want);
    }
    out
}

fn refs_contain(refs: &Vec<String>, id: &String) -> (b: bool)
    ensures
        b == strings(refs@).contains(id@),
{
    let mut k: usize = 0;
    while k < refs.len()
        invariant
            k <= refs@.len(),
            forall|q: int| 0 <= q < k ==> refs@[q]@ != id@,
        decreases refs@.len() - k,
    {
        if crate::text::same_text(refs[k].as_str(), id.as_str()) {
            proof {
                assert(strings(refs@)[k as int] == id@);
            }
            return true;
        }
        k = k + 1;
    }
    proof {
        if strings(refs@).contains(id@) {
            let q = choose|q: int| 0 <= q < strings(refs@).len() && strings(refs@)[q] == id@;
            assert(refs@[q]@ == id@);
        }
    }
    false
}

/// The statements of the cited evidence, in evidence order.
fn sources_for<'a>(refs: &Vec<String>, evidence: &'a [Evidence]) -> (out: Vec<&'a str>)
    ensures
        texts(out@) == cited_statements(strings(refs@), evidence@),
{
    let mut out: Vec<&str> = Vec::new();
    let mut k: usize = 0;
    while k < evidence.len()
        invariant
            k <= evidence@.len(),
            texts(out@) == cited_statements(strings(refs@), evidence@.take(k as int)),
        decreases evidence@.len() - k,
    {
        proof {
            assert(evidence@.take(k + 1).drop_last() =~= evidence@.take(k as int));
        }
        if refs_contain(refs, &evidence[k].id) {
            let ghost before = out@;
            out.push(evidence[k].statement.as_str());
            proof {
                assert(texts(out@) =~= texts(before) + seq![evidence@[k as int].statement@]);
            }
        } else {
            proof {
                assert(texts(out@) =~= texts(out@) + seq![]);
            }
        }
        k = k + 1;
    }
    proof {
        assert(evidence@.take(evidence@.len() as int) =~= evidence@);
    }
    out
}

/// Every evidence statement, in order.
pub fn statements(evidence: &[Evidence]) -> (out: Vec<&str>)
    ensures
        texts(out@) == all_statements(evidence@),
{
    let mut out: Vec<&str> = Vec::new();
    let mut k: usize = 0;
    while k < evidence.len()
        invariant
            k <= evidence@.len(),
            texts(out@) == all_statements(evidence@.take(k as int)),
        decreases evidence@.len() - k,
    {
        let ghost before = out@;
        out.push(evidence[k].statement.as_str());
        proof {
            assert(texts(out@) =~= texts(before).push(evidence@[k as int].statement@));
            assert(all_statements(evidence@.take(k + 1)) =~= all_statements(
                evidence@.take(k as int),
            ).push(evidence@[k as int].statement@));
        }
        k = k + 1;
    }
    proof {
        assert(evidence@.take(evidence@.len() as int) =~= evidence@);
    }
    out
}

/// The index of the last `c` in `v`, if any.
fn last_index(v: &Vec<char>, c: char) -> (r: Option<usize>)
    ensures
        match r {
            Some(p) => p as int == last_index_of(v@, c),
            None => last_index_of(v@, c) == -1,
        },
{
    let mut j: usize = v.len();
    proof {
        assert(v@.take(v.len() as int) =~= v@);
    }
    while j > 0
        invariant
            j <= v.len(),
            last_index_of(v@, c) == last_index_of(v@.take(j as int), c),
        decreases j,
    {
        proof {
            assert(v@.take(j as int).drop_last() =~= v@.take(j - 1));
        }
        if v[j - 1] == c {
            return Some(j - 1);
        }
        j = j - 1;
    }
    proof {
        assert(v@.take(0) =~= Seq::<char>::empty());
    }
    None
}

proof fn lemma_last_index_bound(s: Seq<char>, c: char)
    ensures
        -1 <= last_index_of(s, c) < s.len(),
        last_index_of(s, c) >= 0 ==> s[last_index_of(s, c)] == c,
    decreases s.len(),
{
    if s.len() > 0 && s.last() != c {
        lemma_last_index_bound(s.drop_last(), c);
    }
}

proof fn lemma_first_index_bound(s: Seq<char>, c: char)
    ensures
        -1 <= first_index_of(s, c) < s.len(),
    decreases s.len(),
{
    if s.len() > 0 && s[0] != c {
        lemma_first_index_bound(s.drop_first(), c);
    }
}

proof fn lemma_take_whole(v: Seq<char>)
    ensures
        v.take(v.len() as int) == v,
{
    assert(v.take(v.len() as int) =~= v);
}

/// Truncate on a character boundary, without cutting a word in half when it
/// can be avoided.
pub fn clamp(value: &Vec<char>, max_chars: usize) -> (out: Vec<char>)
    requires
        max_chars < usize::MAX,
    ensures
        out@ == spec_clamp(value@, max_chars as nat),
{
    if value.len() <= max_chars {
        return crate::text::slice_chars(value, 0, value.len());
    }
    let t = crate::text::slice_chars(value, 0, max_chars);
    proof {
        assert(t@ == value@.take(max_chars as int));
        lemma_last_index_bound(t@, ' ');
    }
    match last_index(&t, ' ') {
        Some(p) if p > max_chars / 2 => {
            let mut head = crate::text::slice_chars(&t, 0, p);
            head.push('…');
            head
        },
        _ => {
            let mut whole = crate::text::slice_chars(&t, 0, t.len());
            proof {
                lemma_take_whole(t@);
            }
            whole.push('…');
            whole
        },
    }
}

fn trimmed_clamped(s: &String, max: usize) -> (out: Vec<char>)
    requires
        max < usize::MAX,
    ensures
        out@ == spec_clamp(trim(s@), max as nat),
{
    let c = chars_of(s.as_str());
    let t = trim_chars(&c);
    clamp(&t, max)
}

/// Whether any of the texts states a figure the sources do not contain.
fn states_invented(a: &Vec<char>, b: &Vec<char>, sources: &Vec<&str>) -> (r: bool)
    ensures
        r == (spec_unverifiable(a@, texts(sources@)).len() > 0 || spec_unverifiable(
            b@,
            texts(sources@),
        ).len() > 0),
{
    let sa = string_of(a);
    let sb = string_of(b);
    let ua = unverifiable(sa.as_str(), sources.as_slice());
    if ua.len() > 0 {
        proof {
            assert(views(ua@).len() == ua@.len());
        }
        return true;
    }
    let ub = unverifiable(sb.as_str(), sources.as_slice());
    proof {
        assert(views(ua@).len() == ua@.len());
        assert(views(ub@).len() == ub@.len());
    }
    ub.len() > 0
}

fn any_progress(refs: &Vec<String>) -> (b: bool)
    ensures
        b == (exists|k: int| 0 <= k < strings(refs@).len() && spec_is_progress(
            #[trigger] strings(refs@)[k],
        )),
{
    let mut k: usize = 0;
    while k < refs.len()
        invariant
            k <= refs@.len(),
            forall|q: int| 0 <= q < k ==> !spec_is_progress(#[trigger] strings(refs@)[q]),
        decreases refs@.len() - k,
    {
        if is_progress(refs[k].as_str()) {
            proof {
                assert(strings(refs@)[k as int] == refs@[k as int]@);
            }
            return true;
        }
        proof {
            assert(strings(refs@)[k as int] == refs@[k as int]@);
        }
        k = k + 1;
    }
    false
}

/// Validate one raw insight against the evidence it was given.
pub fn accept(raw: RawInsight, evidence: &[Evidence]) -> (out: Option<Insight>)
    ensures
        match out {
            Some(i) => accept_insight(raw, evidence@) == Some(insight_view(i)) && i.kind_label@
                == spec_kind_label(i.kind),
            None => accept_insight(raw, evidence@) is None,
        },
{
    let ghost raw_v = raw;
    let kind = match InsightKind::parse(raw.kind.as_str()) {
        Some(k) => k,
        None => return None,
    };
    let RawInsight { kind: _, title, explanation, evidence: refs_in } = raw;
    let refs = cited(refs_in, evidence);
    if refs.len() == 0 {
        return None;
    }
    if kind == InsightKind::Improvement && !any_progress(&refs) {
        return None;
    }
    let t = trimmed_clamped(&title, 80);
    let e = trimmed_clamped(&explanation, 600);
    if t.len() == 0 || e.len() == 0 {
        return None;
    }
    let sources = sources_for(&refs, evidence);
    if states_invented(&t, &e, &sources) {
        return None;
    }
    Some(Insight {
        kind,
        kind_label: kind.label(),
        title: string_of(&t),
        explanation: string_of(&e),
        evidence: refs,
    })
}

/// Validate one raw plan step against the evidence it was given. The
/// position is filled in once the plan is numbered.
pub fn accept_plan_step(raw: RawPlanStep, evidence: &[Evidence]) -> (out: Option<PlanStep>)
    ensures
        match out {
            Some(s) => accept_step(raw, evidence@) == Some(step_view(s)),
            None => accept_step(raw, evidence@) is None,
        },
{
    let RawPlanStep { title, action, evidence: refs_in } = raw;
    let refs = cited(refs_in, evidence);
    if refs.len() == 0 {
        return None;
    }
    let t = trimmed_clamped(&title, 80);
    let a = trimmed_clamped(&action, 400);
    if t.len() == 0 || a.len() == 0 {
        return None;
    }
    let sources = sources_for(&refs, evidence);
    if states_invented(&t, &a, &sources) {
        return None;
    }
    Some(PlanStep { position: 0, title: string_of(&t), action: string_of(&a), evidence: refs })
}

/// Validate a model answer, already read as JSON, against the evidence it was
/// given.
///
/// Insights and plan steps that break a rule are dropped rather than
/// repaired; the insight and step caps keep the first survivors; the plan is
/// numbered from one after the drops; the summary is kept only when every
/// figure in it appears somewhere in the evidence. An answer with no
/// surviving insight is unusable.
pub fn validate_analysis(
    parsed: RawAnalysis,
    evidence: &[Evidence],
    max_insights: usize,
    max_plan_steps: usize,
) -> (result: Result<Draft, CoachingError>)
    requires
        parsed.plan@.len() < u32::MAX,
    ensures
        match result {
            Ok(d) => {
                &&& d.insights@.map_values(|i: Insight| insight_view(i)) == prefix(
                    accepted_insights(parsed.insights@, evidence@),
                    max_insights as nat,
                )
                &&& d.insights@.len() > 0
                &&& forall|k: int| 0 <= k < d.insights@.len() ==> (#[trigger] d.insights@[k]).kind_label@
                    == spec_kind_label(d.insights@[k].kind)
                &&& d.plan@.map_values(|s: PlanStep| step_view(s)) == prefix(
                    accepted_steps(parsed.plan@, evidence@),
                    max_plan_steps as nat,
                )
                &&& forall|k: int| 0 <= k < d.plan@.len() ==> (#[trigger] d.plan@[k]).position == k
                    + 1
                &&& d.summary@ == kept_summary(parsed.summary@, evidence@)
            },
            Err(e) => {
                &&& prefix(accepted_insights(parsed.insights@, evidence@), max_insights as nat).len()
                    == 0
                &&& e matches CoachingError::Unusable(m)
                &&& m@ == "no insight cited evidence that exists"@
            },
        },
{
    let RawAnalysis { summary, insights: raw_insights, plan: raw_plan } = parsed;
    let ghost raws = raw_insights@;
    let ghost steps = raw_plan@;

    let mut insights: Vec<Insight> = Vec::new();
    let mut raw_insights = raw_insights;
    let mut i: usize = 0;
    let n = raw_insights.len();
    proof {
        assert(raw_insights@ =~= raws.skip(0));
    }
    while i < n
        invariant
            n == raws.len(),
            i <= n,
            raw_insights@ == raws.skip(i as int),
            insights@.map_values(|x: Insight| insight_view(x)) == prefix(
                accepted_insights(raws.take(i as int), evidence@),
                max_insights as nat,
            ),
            forall|k: int| 0 <= k < insights@.len() ==> (#[trigger] insights@[k]).kind_label@
                == spec_kind_label(insights@[k].kind),
        decreases n - i,
    {
        let raw = raw_insights.remove(0);
        proof {
            assert(raw == raws[i as int]);
            assert(raw_insights@ =~= raws.skip(i + 1));
            assert(raws.take(i + 1).drop_last() =~= raws.take(i as int));
            assert(raws.take(i + 1).last() == raws[i as int]);
        }
        let ghost before = insights@;
        let ghost acc_before = accepted_insights(raws.take(i as int), evidence@);
        if insights.len() < max_insights {
            match accept(raw, evidence) {
                Some(insight) => {
                    insights.push(insight);
                    proof {
                        assert(insights@.map_values(|x: Insight| insight_view(x)) =~= before.map_values(
                            |x: Insight| insight_view(x),
                        ).push(insight_view(insight)));
                    }
                },
                None => {},
            }
        } else {
            proof {
                assert(acc_before.len() >= max_insights);
            }
        }
        i = i + 1;
    }
    proof {
        assert(raws.take(n as int) =~= raws);
    }
    if insights.len() == 0 {
        return Err(
            CoachingError::Unusable(crate::text::owned("no insight cited evidence that exists")),
        );
    }
    let mut plan: Vec<PlanStep> = Vec::new();
    let mut raw_plan = raw_plan;
    let m = raw_plan.len();
    let mut j: usize = 0;
    proof {
        assert(raw_plan@ =~= steps.skip(0));
    }
    while j < m
        invariant
            m == steps.len(),
            m < u32::MAX,
            j <= m,
            raw_plan@ == steps.skip(j as int),
            plan@.map_values(|s: PlanStep| step_view(s)) == prefix(
                accepted_steps(steps.take(j as int), evidence@),
                max_plan_steps as nat,
            ),
            plan@.len() <= j,
            forall|k: int| 0 <= k < plan@.len() ==> (#[trigger] plan@[k]).position == k + 1,
        decreases m - j,
    {
        let raw = raw_plan.remove(0);
        proof {
            assert(raw == steps[j as int]);
            assert(raw_plan@ =~= steps.skip(j + 1));
            assert(steps.take(j + 1).drop_last() =~= steps.take(j as int));
            assert(steps.take(j + 1).last() == steps[j as int]);
        }
        let ghost before = plan@;
        if plan.len() < max_plan_steps {
            match accept_plan_step(raw, evidence) {
                Some(step) => {
                    let position = (plan.len() as u32) + 1;
                    let numbered = PlanStep {
                        position,
                        title: step.title,
                        action: step.action,
                        evidence: step.evidence,
                    };
                    proof {
                        assert(step_view(numbered) == step_view(step));
                    }
                    plan.push(numbered);
                    proof {
                        assert(plan@.map_values(|s: PlanStep| step_view(s)) =~= before.map_values(
                            |s: PlanStep| step_view(s),
                        ).push(step_view(numbered)));
                    }
                },
                None => {},
            }
        }
        j = j + 1;
    }
    proof {
        assert(steps.take(m as int) =~= steps);
    }
    let kept = trimmed_clamped(&summary, 400);
    let all = statements(evidence);
    let kept_text = string_of(&kept);
    let invented = unverifiable(kept_text.as_str(), all.as_slice());
    proof {
        assert(views(invented@).len() == invented@.len());
    }
    let summary_out = if invented.len() > 0 {
        String::new()
    } else {
        kept_text
    };
    Ok(Draft { summary: summary_out, insights, plan })
}

/// Find the JSON object in a model answer: from the first `{` to the last
/// `}`. Providers that ignore a JSON-only request wrap the object in prose or
/// a fenced code block, and the outermost braces are enough for both.
pub open spec fn first_index_of(s: Seq<char>, c: char) -> int
    decreases s.len(),
{
    if s.len() == 0 {
        -1
    } else if s[0] == c {
        0
    } else {
        let rest = first_index_of(s.drop_first(), c);
        if rest < 0 {
            -1
        } else {
            rest + 1
        }
    }
}

pub open spec fn spec_extract_json(raw: Seq<char>) -> Option<Seq<char>> {
    let start = first_index_of(raw, '{');
    let end = last_index_of(raw, '}');
    if start >= 0 && end >= 0 && end > start {
        Some(raw.subrange(start, end + 1))
    } else {
        None
    }
}

fn first_index(v: &Vec<char>, c: char) -> (r: Option<usize>)
    ensures
        match r {
            Some(p) => p as int == first_index_of(v@, c),
            None => first_index_of(v@, c) == -1,
        },
{
    let mut i: usize = 0;
    proof {
        assert(v@.skip(0) =~= v@);
    }
    while i < v.len()
        invariant
            i <= v.len(),
            first_index_of(v@, c) == if first_index_of(v@.skip(i as int), c) < 0 {
                -1
            } else {
                first_index_of(v@.skip(i as int), c) + i
            },
        decreases v.len() - i,
    {
        proof {
            assert(v@.skip(i as int).drop_first() =~= v@.skip(i + 1));
        }
        if v[i] == c {
            return Some(i);
        }
        i = i + 1;
    }
    None
}

pub fn extract_json(raw: &str) -> (out: Option<String>)
    ensures
        match out {
            Some(s) => spec_extract_json(raw@) == Some(s@),
            None => spec_extract_json(raw@) is None,
        },
{
    let v = chars_of(raw);
    proof {
        lemma_first_index_bound(v@, '{');
        lemma_last_index_bound(v@, '}');
    }
    let start = match first_index(&v, '{') {
        Some(s) => s,
        None => return None,
    };
    let end = match last_index(&v, '}') {
        Some(e) => e,
        None => return None,
    };
    if end > start {
        Some(string_of(&crate::text::slice_chars(&v, start, end + 1)))
    } else {
        None
    }
}

// ---------------------------------------------------------------------------
// The identity of an analysis request
// ---------------------------------------------------------------------------

/// The SHA-256 digest of a byte string.
pub uninterp spec fn sha256_of(message: Seq<u8>) -> Seq<u8>;

/// Calls `sha2::Sha256::digest` on the message. The contract names the
/// digest, a function of the message alone, and states its length.
#[verifier::external_body]
fn sha256(message: &[u8]) -> (d: Vec<u8>)
    ensures
        d@ == sha256_of(message@),
        d@.len() == 32,
{
    sha2::Sha256::digest(message).to_vec()
}

pub open spec fn lower_hex_digit(n: int) -> char {
    if n < 10 {
        ((n + 48) as u8) as char
    } else {
        ((n + 87) as u8) as char
    }
}

/// What `hex::encode` gives: two lowercase hex digits per byte, high first.
pub open spec fn lower_hex(bytes: Seq<u8>) -> Seq<char>
    decreases bytes.len(),
{
    if bytes.len() == 0 {
        seq![]
    } else {
        lower_hex(bytes.drop_last()) + seq![
            lower_hex_digit(bytes.last() as int / 16),
            lower_hex_digit(bytes.last() as int % 16),
        ]
    }
}

/// Calls `hex::encode`, which writes each byte as two lowercase hex digits,
/// high digit first.
#[verifier::external_body]
fn hex_encode(bytes: &[u8]) -> (s: String)
    ensures
        s@ == lower_hex(bytes@),
{
    hex::encode(bytes)
}

/// The name a scope is written into the hash with.
pub open spec fn scope_debug_name(scope: AnalysisScope) -> Seq<char> {
    match scope {
        AnalysisScope::Player => "Player"@,
        AnalysisScope::Match => "Match"@,
        AnalysisScope::Role => "Role"@,
    }
}

pub open spec fn le_bytes(n: u32) -> Seq<u8> {
    seq![(n % 256) as u8, ((n / 256) % 256) as u8, ((n / 65536) % 256) as u8, (n / 16777216) as u8]
}

/// Each evidence item as its id, a unit separator, its statement and a
/// record separator.
pub open spec fn evidence_bytes(evidence: Seq<Evidence>) -> Seq<u8>
    decreases evidence.len(),
{
    if evidence.len() == 0 {
        seq![]
    } else {
        evidence_bytes(evidence.drop_last()) + encode_utf8(evidence.last().id@) + seq![0x1fu8]
            + encode_utf8(evidence.last().statement@) + seq![0x1eu8]
    }
}

/// Everything an analysis request is hashed over: the prompt version, the
/// scope, the role (or `none`), the model, then the evidence. The role is
/// there explicitly rather than through the wording of a sentence.
pub open spec fn context_message(
    evidence: Seq<Evidence>,
    scope: AnalysisScope,
    role: Option<CoachableRole>,
    model: Seq<char>,
) -> Seq<u8> {
    le_bytes(PROMPT_VERSION) + encode_utf8(scope_debug_name(scope)) + encode_utf8(
        match role {
            Some(r) => spec_role_slug(r),
            None => "none"@,
        },
    ) + encode_utf8(model) + evidence_bytes(evidence)
}

fn append_bytes(buf: &mut Vec<u8>, bytes: &[u8])
    ensures
        final(buf)@ == old(buf)@ + bytes@,
{
    let ghost start = buf@;
    let mut i: usize = 0;
    while i < bytes.len()
        invariant
            i <= bytes@.len(),
            buf@ == start + bytes@.take(i as int),
        decreases bytes@.len() - i,
    {
        buf.push(bytes[i]);
        proof {
            assert(bytes@.take(i + 1) =~= bytes@.take(i as int).push(bytes@[i as int]));
        }
        i = i + 1;
    }
    proof {
        assert(bytes@.take(bytes@.len() as int) =~= bytes@);
    }
}

fn scope_name(scope: AnalysisScope) -> (s: &'static str)
    ensures
        s@ == scope_debug_name(scope),
{
    match scope {
        AnalysisScope::Player => "Player",
        AnalysisScope::Match => "Match",
        AnalysisScope::Role => "Role",
    }
}

/// The name a role is hashed under; `none` for a request without one.
pub open spec fn role_name(role: Option<CoachableRole>) -> Seq<char> {
    match role {
        Some(r) => spec_role_slug(r),
        None => "none"@,
    }
}

proof fn lemma_role_names_differ(r1: Option<CoachableRole>, r2: Option<CoachableRole>)
    requires
        r1 != r2,
    ensures
        role_name(r1) != role_name(r2),
{
    reveal_strlit("carry");
    reveal_strlit("mid");
    reveal_strlit("offlane");
    reveal_strlit("soft_support");
    reveal_strlit("hard_support");
    reveal_strlit("none");
    let a = role_name(r1);
    let b = role_name(r2);
    if a.len() == b.len() && a.len() == 12 {
        assert(a[0] != b[0]);
    }
}

/// Two requests that differ only in their role are hashed over different
/// messages: the role is in the identity explicitly, so two roles with the
/// same evidence never share a cached analysis.
pub proof fn roles_are_part_of_the_context(
    evidence: Seq<Evidence>,
    scope: AnalysisScope,
    r1: Option<CoachableRole>,
    r2: Option<CoachableRole>,
    model: Seq<char>,
)
    requires
        r1 != r2,
    ensures
        context_message(evidence, scope, r1, model) != context_message(evidence, scope, r2, model),
{
    let head = le_bytes(PROMPT_VERSION) + encode_utf8(scope_debug_name(scope));
    let tail = encode_utf8(model) + evidence_bytes(evidence);
    let m1 = context_message(evidence, scope, r1, model);
    let m2 = context_message(evidence, scope, r2, model);
    assert(m1 =~= head + encode_utf8(role_name(r1)) + tail);
    assert(m2 =~= head + encode_utf8(role_name(r2)) + tail);
    if m1 == m2 {
        crate::text::lemma_cancel_ends(head, encode_utf8(role_name(r1)), encode_utf8(role_name(r2)), tail);
        vstd::utf8::encode_utf8_decode_utf8(role_name(r1));
        vstd::utf8::encode_utf8_decode_utf8(role_name(r2));
        lemma_role_names_differ(r1, r2);
    }
}

/// Identity of one analysis request: the SHA-256 of its context, in hex.
/// Two requests with the same evidence, model and prompt version have the
/// same answer, so this is both a cache key and a guard against spending a
/// daily budget on a question already answered.
pub fn context_hash(
    evidence: &[Evidence],
    scope: AnalysisScope,
    role: Option<CoachableRole>,
    model: &str,
) -> (h: String)
    ensures
        h@ == lower_hex(sha256_of(context_message(evidence@, scope, role, model@))),
{
    let mut msg: Vec<u8> = Vec::new();
    let v = PROMPT_VERSION;
    msg.push((v % 256) as u8);
    msg.push(((v / 256) % 256) as u8);
    msg.push(((v / 65536) % 256) as u8);
    msg.push((v / 16777216) as u8);
    proof {
        assert(msg@ =~= le_bytes(PROMPT_VERSION));
    }
    append_bytes(&mut msg, scope_name(scope).as_bytes());
    let role_name: &str = match role {
        Some(r) => r.slug(),
        None => "none",
    };
    append_bytes(&mut msg, role_name.as_bytes());
    append_bytes(&mut msg, model.as_bytes());
    let ghost head = msg@;
    proof {
        assert(evidence@.take(0) =~= Seq::<Evidence>::empty());
    }
    let mut i: usize = 0;
    while i < evidence.len()
        invariant
            i <= evidence@.len(),
            msg@ == head + evidence_bytes(evidence@.take(i as int)),
        decreases evidence@.len() - i,
    {
        proof {
            assert(evidence@.take(i + 1).drop_last() =~= evidence@.take(i as int));
        }
        append_bytes(&mut msg, evidence[i].id.as_str().as_bytes());
        msg.push(0x1fu8);
        append_bytes(&mut msg, evidence[i].statement.as_str().as_bytes());
        msg.push(0x1eu8);
        proof {
            assert(msg@ =~= head + evidence_bytes(evidence@.take(i + 1)));
        }
        i = i + 1;
    }
    proof {
        assert(evidence@.take(evidence@.len() as int) =~= evidence@);
        assert(msg@ =~= context_message(evidence@, scope, role, model@));
    }
    let digest = sha256(msg.as_slice());
    hex_encode(digest.as_slice())
}

/// A citation list that names at least one item, and only items that were
/// sent.
pub open spec fn cites_known(refs: Seq<Seq<char>>, ev: Seq<Evidence>) -> bool {
    refs.len() > 0 && forall|j: int| 0 <= j < refs.len() ==> known(#[trigger] refs[j], ev)
}

/// A kept insight: it cites real evidence, an improvement cites a reading of
/// change, and every figure its title and explanation state is in what it
/// cites.
pub open spec fn insight_is_backed(i: InsightView, ev: Seq<Evidence>) -> bool {
    &&& cites_known(i.3, ev)
    &&& i.0 == InsightKind::Improvement ==> exists|j: int|
        0 <= j < i.3.len() && spec_is_progress(#[trigger] i.3[j])
    &&& spec_unverifiable(i.1, cited_statements(i.3, ev)).len() == 0
    &&& spec_unverifiable(i.2, cited_statements(i.3, ev)).len() == 0
}

/// A kept plan step: it cites real evidence, and every figure it states is
/// in what it cites.
pub open spec fn step_is_backed(s: StepView, ev: Seq<Evidence>) -> bool {
    &&& cites_known(s.2, ev)
    &&& spec_unverifiable(s.0, cited_statements(s.2, ev)).len() == 0
    &&& spec_unverifiable(s.1, cited_statements(s.2, ev)).len() == 0
}

proof fn lemma_keep_known(refs: Seq<Seq<char>>, ev: Seq<Evidence>)
    ensures
        forall|j: int|
            0 <= j < keep_known(refs, ev).len() ==> known(#[trigger] keep_known(refs, ev)[j], ev),
    decreases refs.len(),
{
    if refs.len() > 0 {
        lemma_keep_known(refs.drop_last(), ev);
        let prev = keep_known(refs.drop_last(), ev);
        assert forall|j: int| 0 <= j < keep_known(refs, ev).len() implies known(
            #[trigger] keep_known(refs, ev)[j],
            ev,
        ) by {
            if j < prev.len() {
                assert(keep_known(refs, ev)[j] == prev[j]);
            }
        }
    }
}

proof fn lemma_accepted_insights_backed(raws: Seq<RawInsight>, ev: Seq<Evidence>)
    ensures
        forall|k: int|
            0 <= k < accepted_insights(raws, ev).len() ==> insight_is_backed(
                #[trigger] accepted_insights(raws, ev)[k],
                ev,
            ),
    decreases raws.len(),
{
    if raws.len() > 0 {
        lemma_accepted_insights_backed(raws.drop_last(), ev);
        lemma_keep_known(spec_refs(raws.last().evidence), ev);
        let prev = accepted_insights(raws.drop_last(), ev);
        assert forall|k: int| 0 <= k < accepted_insights(raws, ev).len() implies insight_is_backed(
            #[trigger] accepted_insights(raws, ev)[k],
            ev,
        ) by {
            if k < prev.len() {
                assert(accepted_insights(raws, ev)[k] == prev[k]);
            } else {
                assert(accepted_insights(raws, ev)[k] == accept_insight(raws.last(), ev).unwrap());
            }
        }
    }
}

proof fn lemma_accepted_steps_backed(raws: Seq<RawPlanStep>, ev: Seq<Evidence>)
    ensures
        forall|k: int|
            0 <= k < accepted_steps(raws, ev).len() ==> step_is_backed(
                #[trigger] accepted_steps(raws, ev)[k],
                ev,
            ),
    decreases raws.len(),
{
    if raws.len() > 0 {
        lemma_accepted_steps_backed(raws.drop_last(), ev);
        lemma_keep_known(spec_refs(raws.last().evidence), ev);
        let prev = accepted_steps(raws.drop_last(), ev);
        assert forall|k: int| 0 <= k < accepted_steps(raws, ev).len() implies step_is_backed(
            #[trigger] accepted_steps(raws, ev)[k],
            ev,
        ) by {
            if k < prev.len() {
                assert(accepted_steps(raws, ev)[k] == prev[k]);
            } else {
                assert(accepted_steps(raws, ev)[k] == accept_step(raws.last(), ev).unwrap());
            }
        }
    }
}

/// Whatever an analysis keeps rests on the evidence it was given: every kept
/// insight and plan step cites only items that were sent, at least one of
/// them; every kept improvement cites a reading of change (`progress.*`);
/// and no kept text states a figure its citations do not hold. The caps on
/// how many are kept change none of this.
pub proof fn kept_advice_rests_on_the_evidence(
    raws: Seq<RawInsight>,
    steps: Seq<RawPlanStep>,
    ev: Seq<Evidence>,
    max_insights: nat,
    max_plan_steps: nat,
)
    ensures
        forall|k: int|
            0 <= k < prefix(accepted_insights(raws, ev), max_insights).len() ==> insight_is_backed(
                #[trigger] prefix(accepted_insights(raws, ev), max_insights)[k],
                ev,
            ),
        forall|k: int|
            0 <= k < prefix(accepted_steps(steps, ev), max_plan_steps).len() ==> step_is_backed(
                #[trigger] prefix(accepted_steps(steps, ev), max_plan_steps)[k],
                ev,
            ),
{
    lemma_accepted_insights_backed(raws, ev);
    lemma_accepted_steps_backed(steps, ev);
    let a = accepted_insights(raws, ev);
    let b = accepted_steps(steps, ev);
    assert forall|k: int| 0 <= k < prefix(a, max_insights).len() implies insight_is_backed(
        #[trigger] prefix(a, max_insights)[k],
        ev,
    ) by {
        assert(prefix(a, max_insights)[k] == a[k]);
    }
    assert forall|k: int| 0 <= k < prefix(b, max_plan_steps).len() implies step_is_backed(
        #[trigger] prefix(b, max_plan_steps)[k],
        ev,
    ) by {
        assert(prefix(b, max_plan_steps)[k] == b[k]);
    }
}

} // verus!
