//! The instructions the analysis model is given.
//!
//! Fixed text: the only thing that varies is the insight cap, which is
//! configuration, and the list of kinds, which comes from the domain. The
//! model is told it cannot do arithmetic and that every claim must cite an
//! evidence id the backend will verify.

use vstd::prelude::*;

use crate::coaching::{spec_kind_slug, InsightKind};
use crate::text::{decimal, push_char, push_str, u64_text};

verus! {

/// Bumped whenever the instructions change in a way that should produce a
/// different answer for identical evidence.
pub const PROMPT_VERSION: u32 = 2;

/// The instructions before the insight cap.
pub const SYSTEM_HEAD: &'static str = "You are a Dota 2 coach reading a player's measured performance data.

RULES
1. You must NOT calculate, estimate or invent any number. Every figure has \
already been computed and is given to you in the evidence list. If a number is \
not in the evidence, you may not state it.
2. Every insight must cite at least one evidence id from the list. Insights \
citing an id that is not in the list are discarded.
3. Do not repeat an evidence statement verbatim. Explain what it means, why it \
matters, and what the player should do differently.
4. Be specific and actionable. \"Farm better\" is useless; \"your last hits at \
10 minutes trail the peer median, so practise the first three creep waves\" is \
coaching.
5. If the evidence is thin or the samples are small, say so plainly. Never \
assert a recurring pattern from a single match.
6. At most ";

/// The instructions between the insight cap and the list of kinds.
pub const SYSTEM_MIDDLE: &'static str = " insights, most important first. Fewer is better than \
padding.
7. Do NOT echo the evidence back. The player can already read it. Your job is \
the interpretation they cannot read.

OUTPUT
Reply with one JSON object and nothing else. It must have exactly two keys, \
\"summary\" (a string) and \"insights\" (an array). Each insight must have \
\"kind\", \"title\", \"explanation\" and \"evidence\". \"kind\" must be one of \
[";

/// The instructions after the list of kinds: the closing bracket and a
/// complete example answer.
pub const SYSTEM_TAIL: &'static str = "].

This is a complete, correctly shaped answer for a player whose evidence \
included ids \"overall.deaths\" and \"benchmark.gold_per_min\":

{
  \"summary\": \"You farm at your bracket's average but die too often to hold \
the lead it buys you. Dying less is worth more to you right now than farming \
faster.\",
  \"insights\": [
    {
      \"kind\": \"weakness\",
      \"title\": \"You die too often for a core\",
      \"explanation\": \"Each death costs both the gold you carry and the map \
control your team holds while you are down. Before you take a fight, check \
whether your buyback is available and whether anyone is missing from the \
minimap.\",
      \"evidence\": [\"overall.deaths\"]
    },
    {
      \"kind\": \"strength\",
      \"title\": \"Your farming rate is not the problem\",
      \"explanation\": \"You keep pace with the median on this hero, so time \
spent grinding last hits is time not spent on the thing that is actually \
costing you games.\",
      \"evidence\": [\"benchmark.gold_per_min\"]
    }
  ]
}";

/// The kinds, each in double quotes, separated by `", "`.
pub open spec fn quoted_kinds(ks: Seq<InsightKind>) -> Seq<char>
    decreases ks.len(),
{
    if ks.len() == 0 {
        seq![]
    } else if ks.len() == 1 {
        seq!['"'] + spec_kind_slug(ks[0]) + seq!['"']
    } else {
        quoted_kinds(ks.drop_last()) + seq![',', ' ', '"'] + spec_kind_slug(ks.last()) + seq!['"']
    }
}

/// The full instructions for a given insight cap.
pub open spec fn system_text(max_insights: nat) -> Seq<char> {
    SYSTEM_HEAD@ + decimal(max_insights) + SYSTEM_MIDDLE@ + quoted_kinds(
        seq![
            InsightKind::Strength,
            InsightKind::Weakness,
            InsightKind::Improvement,
            InsightKind::Pattern,
            InsightKind::Mistake,
            InsightKind::Recommendation,
        ],
    ) + SYSTEM_TAIL@
}

/// The instructions.
pub fn system(max_insights: usize) -> (s: String)
    ensures
        s@ == system_text(max_insights as nat),
{
    let mut s = String::new();
    push_str(&mut s, SYSTEM_HEAD);
    let cap = u64_text(max_insights as u64);
    push_str(&mut s, cap.as_str());
    push_str(&mut s, SYSTEM_MIDDLE);
    let ghost before_kinds = s@;
    let kinds = InsightKind::all();
    let mut i: usize = 0;
    while i < kinds.len()
        invariant
            i <= kinds@.len(),
            kinds@.len() == 6,
            s@ == before_kinds + quoted_kinds(kinds@.take(i as int)),
        decreases kinds@.len() - i,
    {
        let ghost prior = s@;
        if i > 0 {
            push_char(&mut s, ',');
            push_char(&mut s, ' ');
        }
        push_char(&mut s, '"');
        push_str(&mut s, kinds[i].slug());
        push_char(&mut s, '"');
        proof {
            let t = kinds@.take(i + 1);
            assert(t.drop_last() =~= kinds@.take(i as int));
            assert(t.last() == kinds@[i as int]);
            if i == 0 {
                assert(t.len() == 1);
                assert(s@ =~= before_kinds + (seq!['"'] + spec_kind_slug(t[0]) + seq!['"']));
            } else {
                assert(s@ =~= before_kinds + (quoted_kinds(t.drop_last()) + seq![',', ' ', '"']
                    + spec_kind_slug(t.last()) + seq!['"']));
            }
        }
        i = i + 1;
    }
    proof {
        assert(kinds@.take(6) =~= kinds@);
    }
    push_str(&mut s, SYSTEM_TAIL);
    s
}

} // verus!
