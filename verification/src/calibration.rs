//! Rank calibration: the parts that are pure counting over stored facts.
//!
//! Every figure on the calibrating screen counts **ranked matches only** —
//! the games that can move a medal. The only real points on a rank
//! trajectory are the stored rank readings; a reading with no rank breaks the
//! line rather than being skipped over, and a reading is never drawn twice.

use vstd::prelude::*;

use crate::records::{spec_is_eligible, is_eligible, Match, LOBBY_RANKED};

verus! {

/// Ranked matches only: the ranked lobby, in the eligible population.
pub open spec fn spec_is_ranked(m: Match) -> bool {
    m.lobby_type == Some(LOBBY_RANKED) && spec_is_eligible(m.game_mode, m.lobby_type)
}

pub fn is_ranked(m: &Match) -> (b: bool)
    ensures
        b == spec_is_ranked(*m),
{
    let lobby_ranked = match m.lobby_type {
        Some(l) => l == LOBBY_RANKED,
        None => false,
    };
    lobby_ranked && is_eligible(m.game_mode, m.lobby_type)
}

/// Match `i` is shown before match `j`: it started later, or at the same
/// moment and was stored first.
pub open spec fn shown_before(ms: Seq<Match>, i: int, j: int) -> bool {
    ms[i].started_at > ms[j].started_at || (ms[i].started_at == ms[j].started_at && i < j)
}

/// `r` lists every ranked match exactly once, newest first; equal start times
/// keep their stored order.
pub open spec fn is_newest_first(ms: Seq<Match>, r: Seq<usize>) -> bool {
    &&& forall|p: int| 0 <= p < r.len() ==> r[p] < ms.len() && spec_is_ranked(ms[r[p] as int])
    &&& forall|i: int| 0 <= i < ms.len() && spec_is_ranked(#[trigger] ms[i]) ==> r.contains(
        i as usize,
    )
    &&& forall|p: int, q: int| 0 <= p < q < r.len() ==> shown_before(ms, r[p] as int, r[q] as int)
}

/// The ranked subset, newest first, as indices into `matches`.
pub fn ranked_newest_first(matches: &[Match]) -> (r: Vec<usize>)
    ensures
        is_newest_first(matches@, r@),
        r@.len() <= matches@.len(),
{
    let mut r: Vec<usize> = Vec::new();
    let mut i: usize = 0;
    while i < matches.len()
        invariant
            i <= matches@.len(),
            r@.len() <= i,
            forall|p: int| 0 <= p < r@.len() ==> r@[p] < i && spec_is_ranked(
                matches@[r@[p] as int],
            ),
            forall|k: int| 0 <= k < i && spec_is_ranked(#[trigger] matches@[k]) ==> r@.contains(
                k as usize,
            ),
            forall|p: int, q: int|
                0 <= p < q < r@.len() ==> shown_before(matches@, r@[p] as int, r@[q] as int),
        decreases matches@.len() - i,
    {
        if is_ranked(&matches[i]) {
            let at = matches[i].started_at;
            let mut p: usize = 0;
            while p < r.len() && matches[r[p]].started_at >= at
                invariant
                    p <= r@.len(),
                    i < matches@.len(),
                    at == matches@[i as int].started_at,
                    forall|q: int| 0 <= q < r@.len() ==> r@[q] < i,
                    forall|q: int| 0 <= q < p ==> matches@[r@[q] as int].started_at >= at,
                decreases r@.len() - p,
            {
                p = p + 1;
            }
            let ghost old_r = r@;
            r.insert(p, i);
            proof {
                assert(r@ == old_r.insert(p as int, i));
                assert forall|a: int, b: int| 0 <= a < b < r@.len() implies shown_before(
                    matches@,
                    r@[a] as int,
                    r@[b] as int,
                ) by {
                    if b < p {
                        assert(r@[a] == old_r[a] && r@[b] == old_r[b]);
                    } else if b == p {
                        assert(r@[a] == old_r[a]);
                    } else if a == p {
                        assert(r@[b] == old_r[b - 1]);
                        if b - 1 >= p {
                            // sorted: everything from p on started strictly earlier
                            if matches@[old_r[b - 1] as int].started_at >= at {
                                assert(shown_before(matches@, old_r[p as int] as int, old_r[b - 1] as int) || p as int == b - 1);
                            }
                        }
                    } else if a < p {
                        assert(r@[a] == old_r[a] && r@[b] == old_r[b - 1]);
                    } else {
                        assert(r@[a] == old_r[a - 1] && r@[b] == old_r[b - 1]);
                    }
                }
                assert forall|k: int|
                    0 <= k < i + 1 && spec_is_ranked(#[trigger] matches@[k]) implies r@.contains(
                    k as usize,
                ) by {
                    if k == i {
                        assert(r@[p as int] == i);
                    } else {
                        let q = choose|q: int| 0 <= q < old_r.len() && old_r[q] == k as usize;
                        if q < p {
                            assert(r@[q] == k as usize);
                        } else {
                            assert(r@[q + 1] == k as usize);
                        }
                    }
                }
            }
        }
        i = i + 1;
    }
    r
}

/// Which way the current run went.
#[derive(Debug, Clone, Copy, PartialEq, Eq, Structural)]
pub enum StreakKind {
    Win,
    Loss,
}

/// The current unbroken run of ranked results. `kind` is `None` only when
/// there is nothing to read: a zero-length run has no direction.
#[derive(Debug, Clone, PartialEq)]
pub struct Streak {
    pub count: i64,
    pub kind: Option<StreakKind>,
}

/// The run of `won` results at the head of a newest-first order has length
/// `count`.
pub open spec fn leading_run(ms: Seq<Match>, r: Seq<usize>, won: bool, count: int) -> bool {
    &&& 0 <= count <= r.len()
    &&& forall|p: int| 0 <= p < count ==> ms[r[p] as int].won == won
    &&& (count == r.len() || ms[r[count] as int].won != won)
}

/// `s` is the streak of `ms`: the leading run of a newest-first order of the
/// ranked matches, with its direction; no direction when none is ranked.
pub open spec fn streak_reads(ms: Seq<Match>, s: Streak) -> bool {
    exists|r: Seq<usize>|
        #![trigger is_newest_first(ms, r)]
        is_newest_first(ms, r) && (if r.len() == 0 {
            s.count == 0 && s.kind is None
        } else {
            let won = ms[r[0] as int].won;
            &&& s.kind == Some(if won {
                StreakKind::Win
            } else {
                StreakKind::Loss
            })
            &&& leading_run(ms, r, won, s.count as int)
            &&& s.count >= 1
        })
}

/// The current streak, read from the newest ranked match backwards.
pub fn streak(matches: &[Match]) -> (s: Streak)
    requires
        matches@.len() <= i64::MAX,
    ensures
        streak_reads(matches@, s),
{
    let ranked = ranked_newest_first(matches);
    if ranked.len() == 0 {
        return Streak { count: 0, kind: None };
    }
    let won = matches[ranked[0]].won;
    let mut count: usize = 0;
    while count < ranked.len() && matches[ranked[count]].won == won
        invariant
            count <= ranked@.len(),
            ranked@.len() <= matches@.len(),
            is_newest_first(matches@, ranked@),
            forall|p: int| 0 <= p < count ==> matches@[ranked@[p] as int].won == won,
        decreases ranked@.len() - count,
    {
        count = count + 1;
    }
    Streak {
        count: count as i64,
        kind: Some(
            if won {
                StreakKind::Win
            } else {
                StreakKind::Loss
            },
        ),
    }
}


/// No two ranked matches started at the same moment.
pub open spec fn ranked_times_distinct(ms: Seq<Match>) -> bool {
    forall|i: int, j: int|
        #![trigger ms[i], ms[j]]
        0 <= i < ms.len() && 0 <= j < ms.len() && i != j && spec_is_ranked(ms[i]) && spec_is_ranked(
            ms[j],
        ) ==> ms[i].started_at != ms[j].started_at
}

/// Strictly newest first.
pub open spec fn strictly_newest_first(v: Seq<Match>) -> bool {
    forall|p: int, q: int| 0 <= p < q < v.len() ==> (#[trigger] v[p]).started_at > (#[trigger] v[q]).started_at
}

pub open spec fn picked(ms: Seq<Match>, r: Seq<usize>) -> Seq<Match> {
    r.map_values(|i: usize| ms[i as int])
}

proof fn lemma_picked_newest_first(ms: Seq<Match>, r: Seq<usize>)
    requires
        is_newest_first(ms, r),
        ranked_times_distinct(ms),
        ms.len() <= usize::MAX,
    ensures
        strictly_newest_first(picked(ms, r)),
        forall|x: Match| #[trigger] picked(ms, r).contains(x) <==> (ms.contains(x) && spec_is_ranked(x)),
{
    let v = picked(ms, r);
    assert forall|p: int, q: int| 0 <= p < q < v.len() implies (#[trigger] v[p]).started_at > (#[trigger] v[q]).started_at by {
        assert(shown_before(ms, r[p] as int, r[q] as int));
        assert(v[p] == ms[r[p] as int] && v[q] == ms[r[q] as int]);
        if r[p] == r[q] {
            assert(!shown_before(ms, r[p] as int, r[q] as int));
        }
        assert(ms[r[p] as int].started_at != ms[r[q] as int].started_at);
    }
    assert forall|x: Match| #[trigger] v.contains(x) <==> (ms.contains(x) && spec_is_ranked(x)) by {
        if v.contains(x) {
            let p = choose|p: int| 0 <= p < v.len() && v[p] == x;
            assert(ms[r[p] as int] == x);
        }
        if ms.contains(x) && spec_is_ranked(x) {
            let i = choose|i: int| 0 <= i < ms.len() && ms[i] == x;
            assert(spec_is_ranked(ms[i]));
            let p = choose|p: int| 0 <= p < r.len() && r[p] == i as usize;
            assert(r[p] as int == i);
            assert(v[p] == ms[r[p] as int]);
            assert(v[p] == x);
        }
    }
}

/// Two strictly newest-first lists of the same matches are the same list.
proof fn lemma_sorted_unique(a: Seq<Match>, b: Seq<Match>)
    requires
        strictly_newest_first(a),
        strictly_newest_first(b),
        forall|x: Match| a.contains(x) <==> b.contains(x),
    ensures
        a == b,
    decreases a.len(),
{
    if a.len() == 0 {
        if b.len() > 0 {
            assert(b.contains(b[0]));
        }
        assert(a =~= b);
    } else {
        assert(a.contains(a[0]));
        assert(b.len() > 0);
        assert(b.contains(b[0]));
        let q = choose|q: int| 0 <= q < b.len() && b[q] == a[0];
        let q2 = choose|q2: int| 0 <= q2 < a.len() && a[q2] == b[0];
        if q > 0 {
            assert(b[0].started_at > b[q].started_at);
            if q2 > 0 {
                assert(a[0].started_at > a[q2].started_at);
            }
        }
        assert(a[0] == b[0]);
        let a1 = a.drop_first();
        let b1 = b.drop_first();
        assert forall|x: Match| a1.contains(x) <==> b1.contains(x) by {
            if a1.contains(x) {
                let p = choose|p: int| 0 <= p < a1.len() && a1[p] == x;
                assert(a[p + 1] == x);
                assert(a.contains(x));
                let k = choose|k: int| 0 <= k < b.len() && b[k] == x;
                assert(a[0].started_at > a[p + 1].started_at);
                assert(k != 0);
                assert(b1[k - 1] == x);
            }
            if b1.contains(x) {
                let p = choose|p: int| 0 <= p < b1.len() && b1[p] == x;
                assert(b[p + 1] == x);
                assert(b.contains(x));
                let k = choose|k: int| 0 <= k < a.len() && a[k] == x;
                assert(b[0].started_at > b[p + 1].started_at);
                assert(k != 0);
                assert(a1[k - 1] == x);
            }
        }
        assert forall|p: int, q: int| 0 <= p < q < a1.len() implies (#[trigger] a1[p]).started_at > (#[trigger] a1[q]).started_at by {
            assert(a1[p] == a[p + 1] && a1[q] == a[q + 1]);
        }
        assert forall|p: int, q: int| 0 <= p < q < b1.len() implies (#[trigger] b1[p]).started_at > (#[trigger] b1[q]).started_at by {
            assert(b1[p] == b[p + 1] && b1[q] == b[q + 1]);
        }
        lemma_sorted_unique(a1, b1);
        assert(a.len() == b.len());
        assert forall|k: int| 0 <= k < a.len() implies a[k] == b[k] by {
            if k > 0 {
                assert(a[k] == a1[k - 1]);
                assert(b[k] == b1[k - 1]);
            }
        }
        assert(a =~= b);
    }
}

/// The streak does not depend on the order the matches are stored in: any
/// arrangement of the same matches, with no two ranked games starting at
/// the same moment, reads the same streak.
pub proof fn streak_ignores_storage_order(a: Seq<Match>, b: Seq<Match>, sa: Streak, sb: Streak)
    requires
        a.to_multiset() == b.to_multiset(),
        a.len() <= usize::MAX,
        b.len() <= usize::MAX,
        ranked_times_distinct(a),
        ranked_times_distinct(b),
        streak_reads(a, sa),
        streak_reads(b, sb),
    ensures
        sa == sb,
{
    let ra = choose|r: Seq<usize>|
        #![trigger is_newest_first(a, r)]
        is_newest_first(a, r) && (if r.len() == 0 {
            sa.count == 0 && sa.kind is None
        } else {
            let won = a[r[0] as int].won;
            &&& sa.kind == Some(if won {
                StreakKind::Win
            } else {
                StreakKind::Loss
            })
            &&& leading_run(a, r, won, sa.count as int)
            &&& sa.count >= 1
        });
    let rb = choose|r: Seq<usize>|
        #![trigger is_newest_first(b, r)]
        is_newest_first(b, r) && (if r.len() == 0 {
            sb.count == 0 && sb.kind is None
        } else {
            let won = b[r[0] as int].won;
            &&& sb.kind == Some(if won {
                StreakKind::Win
            } else {
                StreakKind::Loss
            })
            &&& leading_run(b, r, won, sb.count as int)
            &&& sb.count >= 1
        });
    lemma_picked_newest_first(a, ra);
    lemma_picked_newest_first(b, rb);
    let va = picked(a, ra);
    let vb = picked(b, rb);
    assert forall|x: Match| va.contains(x) <==> vb.contains(x) by {
        vstd::seq_lib::to_multiset_contains(a, x);
        vstd::seq_lib::to_multiset_contains(b, x);
    }
    lemma_sorted_unique(va, vb);
    assert(ra.len() == va.len() && rb.len() == vb.len());
    if ra.len() > 0 {
        assert(va[0] == a[ra[0] as int] && vb[0] == b[rb[0] as int]);
        let won = va[0].won;
        assert forall|p: int| 0 <= p < ra.len() implies #[trigger] a[ra[p] as int].won == vb[p].won by {
            assert(va[p] == a[ra[p] as int]);
        }
        assert forall|p: int| 0 <= p < rb.len() implies #[trigger] b[rb[p] as int].won == vb[p].won by {
            assert(vb[p] == b[rb[p] as int]);
        }
        let ca = sa.count as int;
        let cb = sb.count as int;
        if ca < cb {
            assert(a[ra[ca] as int].won != won);
            assert(b[rb[ca] as int].won == won);
        }
        if cb < ca {
            assert(b[rb[cb] as int].won != won);
            assert(a[ra[cb] as int].won == won);
        }
    }
}

/// Strict lexicographic order on text, character by character (the order
/// `String` comparison gives).
pub open spec fn lex_lt(a: Seq<char>, b: Seq<char>) -> bool
    decreases a.len(),
{
    if a.len() == 0 {
        b.len() > 0
    } else if b.len() == 0 {
        false
    } else if a[0] != b[0] {
        (a[0] as u32) < (b[0] as u32)
    } else {
        lex_lt(a.drop_first(), b.drop_first())
    }
}

pub proof fn lemma_lex_total(a: Seq<char>, b: Seq<char>)
    requires
        a != b,
    ensures
        lex_lt(a, b) || lex_lt(b, a),
    decreases a.len(),
{
    if a.len() > 0 && b.len() > 0 && a[0] == b[0] {
        assert(a.drop_first() != b.drop_first()) by {
            if a.drop_first() == b.drop_first() {
                assert(a.drop_first().len() == b.drop_first().len());
                assert(a.len() == b.len());
                assert forall|i: int| 0 <= i < a.len() implies a[i] == b[i] by {
                    if i > 0 {
                        assert(a[i] == a.drop_first()[i - 1]);
                        assert(b[i] == b.drop_first()[i - 1]);
                    }
                }
                assert(a =~= b);
            }
        }
        lemma_lex_total(a.drop_first(), b.drop_first());
    } else if a.len() == 0 && b.len() == 0 {
        assert(a =~= b);
    } else if a.len() > 0 && b.len() > 0 {
        lemma_char_cast_injective(a[0], b[0]);
    }
}

proof fn lemma_char_cast_injective(x: char, y: char)
    requires
        x != y,
    ensures
        (x as u32) != (y as u32),
{
}

pub proof fn lemma_lex_irreflexive(a: Seq<char>)
    ensures
        !lex_lt(a, a),
    decreases a.len(),
{
    if a.len() > 0 {
        lemma_lex_irreflexive(a.drop_first());
    }
}

pub proof fn lemma_lex_transitive(a: Seq<char>, b: Seq<char>, c: Seq<char>)
    requires
        lex_lt(a, b),
        lex_lt(b, c),
    ensures
        lex_lt(a, c),
    decreases a.len(),
{
    if a.len() > 0 && b.len() > 0 && c.len() > 0 && a[0] == b[0] && b[0] == c[0] {
        lemma_lex_transitive(a.drop_first(), b.drop_first(), c.drop_first());
    }
}

/// `a < b` on text.
pub fn text_lt(a: &Vec<char>, b: &Vec<char>) -> (r: bool)
    ensures
        r == lex_lt(a@, b@),
{
    let mut i: usize = 0;
    proof {
        assert(a@.skip(0) =~= a@);
        assert(b@.skip(0) =~= b@);
    }
    while i < a.len() && i < b.len() && a[i] == b[i]
        invariant
            i <= a.len(),
            i <= b.len(),
            lex_lt(a@, b@) == lex_lt(a@.skip(i as int), b@.skip(i as int)),
        decreases a.len() - i,
    {
        proof {
            assert(a@.skip(i as int).drop_first() =~= a@.skip(i + 1));
            assert(b@.skip(i as int).drop_first() =~= b@.skip(i + 1));
        }
        i = i + 1;
    }
    proof {
        if i < a.len() && i < b.len() {
            assert(a@.skip(i as int)[0] == a@[i as int]);
            assert(b@.skip(i as int)[0] == b@[i as int]);
        }
    }
    if i == a.len() {
        i < b.len()
    } else if i == b.len() {
        false
    } else {
        (a[i] as u32) < (b[i] as u32)
    }
}

/// How many ranked matches carry a role label.
pub open spec fn ranked_with_role(ms: Seq<Match>, role: Seq<char>) -> nat
    decreases ms.len(),
{
    if ms.len() == 0 {
        0
    } else {
        ranked_with_role(ms.drop_last(), role) + if spec_is_ranked(ms.last()) && ms.last().role@
            == role {
            1nat
        } else {
            0nat
        }
    }
}

/// One role's share of the ranked matches. The percentage is `matches`
/// over the total of all rows.
#[derive(Debug, Clone, PartialEq)]
pub struct RolePreference {
    pub role: String,
    pub matches: i64,
}

/// Row `a` is listed before row `b`: more matches first, then by name.
pub open spec fn listed_before(a: (Seq<char>, int), b: (Seq<char>, int)) -> bool {
    a.1 > b.1 || (a.1 == b.1 && lex_lt(a.0, b.0))
}

pub open spec fn pref_view(p: RolePreference) -> (Seq<char>, int) {
    (p.role@, p.matches as int)
}

/// The rows of a role breakdown: each row counts the ranked matches in its
/// role and is not empty; every role a ranked match carries has a row; and
/// the rows run most-played first, ties by name.
pub open spec fn role_rows(ms: Seq<Match>, out: Seq<RolePreference>) -> bool {
    &&& forall|p: int|
        0 <= p < out.len() ==> (#[trigger] out[p]).matches as int == ranked_with_role(ms, out[p].role@)
            && out[p].matches > 0
    &&& forall|i: int|
        0 <= i < ms.len() && spec_is_ranked(#[trigger] ms[i]) ==> exists|p: int|
            0 <= p < out.len() && out[p].role@ == ms[i].role@
    &&& forall|p: int, q: int| 0 <= p < q < out.len() ==> listed_before(pref_view(out[p]), pref_view(out[q]))
}

/// Share of ranked matches played in each role, most-played first, ties
/// broken by name so the order is stable. Every role a ranked match carries
/// appears exactly once, with its count; no match, no row.
pub fn role_preference(matches: &[Match]) -> (out: Vec<RolePreference>)
    requires
        matches@.len() <= i64::MAX,
    ensures
        role_rows(matches@, out@),
{
    // Count per role, in order of first appearance.
    let mut counts: Vec<RolePreference> = Vec::new();
    let mut i: usize = 0;
    while i < matches.len()
        invariant
            i <= matches@.len(),
            matches@.len() <= i64::MAX,
            forall|p: int|
                0 <= p < counts@.len() ==> (#[trigger] counts@[p]).matches as int
                    == ranked_with_role(matches@.take(i as int), counts@[p].role@)
                    && counts@[p].matches > 0,
            forall|p: int, q: int|
                0 <= p < q < counts@.len() ==> counts@[p].role@ != counts@[q].role@,
            forall|k: int|
                0 <= k < i && spec_is_ranked(#[trigger] matches@[k]) ==> exists|p: int|
                    0 <= p < counts@.len() && counts@[p].role@ == matches@[k].role@,
        decreases matches@.len() - i,
    {
        let ghost prefix = matches@.take(i as int);
        let ghost next = matches@.take(i + 1);
        proof {
            assert(next.drop_last() =~= prefix);
            assert(next.last() == matches@[i as int]);
            lemma_role_count_bound(prefix, matches@[i as int].role@);
        }
        if is_ranked(&matches[i]) {
            let role = crate::text::chars_of(matches[i].role.as_str());
            let mut p: usize = 0;
            while p < counts.len() && !crate::text::same_chars(
                &crate::text::chars_of(counts[p].role.as_str()),
                &role,
            )
                invariant
                    p <= counts@.len(),
                    role@ == matches@[i as int].role@,
                    forall|q: int| 0 <= q < p ==> counts@[q].role@ != role@,
                decreases counts@.len() - p,
            {
                p = p + 1;
            }
            let found = p < counts.len();
            proof {
                assert forall|q: int| 0 <= q < counts@.len() implies #[trigger] ranked_with_role(
                    next,
                    counts@[q].role@,
                ) == ranked_with_role(prefix, counts@[q].role@) + if counts@[q].role@ == role@ {
                    1nat
                } else {
                    0nat
                } by {}
            }
            if found {
                let ghost old_counts = counts@;
                let current = counts[p].matches;
                proof {
                    lemma_role_count_bound(prefix, role@);
                    assert(current as int == ranked_with_role(prefix, role@));
                }
                let row = RolePreference { role: counts[p].role.clone(), matches: current + 1 };
                counts.set(p, row);
                proof {
                    assert forall|q: int| 0 <= q < counts@.len() implies (#[trigger] counts@[q]).matches as int
                        == ranked_with_role(next, counts@[q].role@) && counts@[q].matches > 0 by {
                        if q != p {
                            assert(counts@[q] == old_counts[q]);
                        }
                    }
                    assert forall|k: int|
                        0 <= k < i + 1 && spec_is_ranked(#[trigger] matches@[k]) implies exists|q: int|
                        0 <= q < counts@.len() && counts@[q].role@ == matches@[k].role@ by {
                        if k < i {
                            let q = choose|q: int|
                                0 <= q < old_counts.len() && old_counts[q].role@ == matches@[k].role@;
                            assert(counts@[q].role@ == old_counts[q].role@);
                        } else {
                            assert(counts@[p as int].role@ == matches@[k].role@);
                        }
                    }
                }
            } else {
                let ghost old_counts = counts@;
                counts.push(RolePreference { role: matches[i].role.clone(), matches: 1 });
                proof {
                    assert(ranked_with_role(prefix, role@) == 0) by {
                        assert forall|k: int| 0 <= k < prefix.len() && spec_is_ranked(
                            #[trigger] prefix[k],
                        ) implies prefix[k].role@ != role@ by {
                            assert(prefix[k] == matches@[k]);
                            let q = choose|q: int|
                                0 <= q < old_counts.len() && old_counts[q].role@ == matches@[k].role@;
                        }
                        lemma_role_absent(prefix, role@);
                    }
                    assert forall|q: int| 0 <= q < counts@.len() implies (#[trigger] counts@[q]).matches as int
                        == ranked_with_role(next, counts@[q].role@) && counts@[q].matches > 0 by {
                        if q < old_counts.len() {
                            assert(counts@[q] == old_counts[q]);
                        }
                    }
                    assert forall|k: int|
                        0 <= k < i + 1 && spec_is_ranked(#[trigger] matches@[k]) implies exists|q: int|
                        0 <= q < counts@.len() && counts@[q].role@ == matches@[k].role@ by {
                        if k < i {
                            let q = choose|q: int|
                                0 <= q < old_counts.len() && old_counts[q].role@ == matches@[k].role@;
                            assert(counts@[q].role@ == old_counts[q].role@);
                        } else {
                            assert(counts@[old_counts.len() as int].role@ == matches@[k].role@);
                        }
                    }
                }
            }
        } else {
            proof {
                assert forall|q: int| 0 <= q < counts@.len() implies #[trigger] ranked_with_role(
                    next,
                    counts@[q].role@,
                ) == ranked_with_role(prefix, counts@[q].role@) by {}
            }
        }
        i = i + 1;
    }
    proof {
        assert(matches@.take(matches@.len() as int) =~= matches@);
    }
    let mut names: Vec<Vec<char>> = Vec::new();
    let mut totals: Vec<i64> = Vec::new();
    let mut k: usize = 0;
    while k < counts.len()
        invariant
            k <= counts@.len(),
            names@.len() == k,
            totals@.len() == k,
            forall|q: int| 0 <= q < k ==> (#[trigger] names@[q])@ == counts@[q].role@ && totals@[q] == counts@[q].matches,
        decreases counts@.len() - k,
    {
        let ghost old_names = names@;
        let ghost old_totals = totals@;
        names.push(crate::text::chars_of(counts[k].role.as_str()));
        totals.push(counts[k].matches);
        proof {
            assert forall|q: int| 0 <= q < k + 1 implies (#[trigger] names@[q])@ == counts@[q].role@
                && totals@[q] == counts@[q].matches by {
                if q < k {
                    assert(names@[q] == old_names[q]);
                    assert(totals@[q] == old_totals[q]);
                }
            }
        }
        k = k + 1;
    }
    proof {
        assert forall|a: int, b: int| 0 <= a < b < names@.len() implies names@[a]@ != names@[b]@ by {
            assert(names@[a]@ == counts@[a].role@);
            assert(names@[b]@ == counts@[b].role@);
        }
    }
    // Most played first; ties broken by name.
    let order = sort_rows(&names, &totals);
    let mut out: Vec<RolePreference> = Vec::new();
    let mut p: usize = 0;
    while p < order.len()
        invariant
            p <= order@.len(),
            sorted_order(names@, totals@, order@, names@.len() as int),
            names@.len() == counts@.len(),
            totals@.len() == counts@.len(),
            forall|q: int| 0 <= q < counts@.len() ==> (#[trigger] names@[q])@ == counts@[q].role@ && totals@[q] == counts@[q].matches,
            out@.len() == p,
            forall|q: int| 0 <= q < p ==> pref_view(#[trigger] out@[q]) == row_key(names@, totals@, order@[q] as int),
        decreases order@.len() - p,
    {
        let i = order[p];
        out.push(RolePreference { role: crate::text::string_of(&names[i]), matches: totals[i] });
        p = p + 1;
    }
    proof {
        assert forall|a: int, b: int| 0 <= a < b < out@.len() implies listed_before(
            pref_view(out@[a]),
            pref_view(out@[b]),
        ) by {}
        assert forall|q: int| 0 <= q < out@.len() implies (#[trigger] out@[q]).matches as int
            == ranked_with_role(matches@, out@[q].role@) && out@[q].matches > 0 by {
            let w = order@[q] as int;
            assert(counts@[w].role@ == out@[q].role@);
        }
        assert forall|i: int|
            0 <= i < matches@.len() && spec_is_ranked(#[trigger] matches@[i]) implies exists|q: int|
            0 <= q < out@.len() && out@[q].role@ == matches@[i].role@ by {
            let w = choose|w: int| 0 <= w < counts@.len() && counts@[w].role@ == matches@[i].role@;
            assert(present(order@, w));
            let q = choose|q: int| 0 <= q < order@.len() && order@[q] == w as usize;
            assert(out@[q].role@ == names@[w]@);
        }
    }
    out
}

/// The sort key of row `i`.
pub open spec fn row_key(names: Seq<Vec<char>>, counts: Seq<i64>, i: int) -> (Seq<char>, int) {
    (names[i]@, counts[i] as int)
}

/// Whether row `k` appears in an order.
pub open spec fn present(order: Seq<usize>, k: int) -> bool {
    order.contains(k as usize)
}

/// An order over rows `0..n`: each exactly once, sorted by [`listed_before`].
pub open spec fn sorted_order(names: Seq<Vec<char>>, counts: Seq<i64>, order: Seq<usize>, n: int) -> bool {
    &&& order.len() == n
    &&& forall|p: int| 0 <= p < order.len() ==> order[p] < n
    &&& forall|k: int| 0 <= k < n ==> #[trigger] present(order, k)
    &&& forall|p: int, q: int|
        0 <= p < q < order.len() ==> listed_before(
            row_key(names, counts, order[p] as int),
            row_key(names, counts, order[q] as int),
        )
}

/// The rows in display order: more matches first, then by name.
fn sort_rows(names: &Vec<Vec<char>>, counts: &Vec<i64>) -> (order: Vec<usize>)
    requires
        names@.len() == counts@.len(),
        forall|p: int, q: int| 0 <= p < q < names@.len() ==> names@[p]@ != names@[q]@,
    ensures
        sorted_order(names@, counts@, order@, names@.len() as int),
{
    let mut order: Vec<usize> = Vec::new();
    let mut j: usize = 0;
    while j < names.len()
        invariant
            j <= names@.len(),
            names@.len() == counts@.len(),
            forall|p: int, q: int| 0 <= p < q < names@.len() ==> names@[p]@ != names@[q]@,
            sorted_order(names@, counts@, order@, j as int),
        decreases names@.len() - j,
    {
        let ghost x = row_key(names@, counts@, j as int);
        let mut p: usize = 0;
        while p < order.len() && !(counts[j] > counts[order[p]] || (counts[j] == counts[order[p]]
            && text_lt(&names[j], &names[order[p]])))
            invariant
                p <= order@.len(),
                j < names@.len(),
                names@.len() == counts@.len(),
                forall|q: int| 0 <= q < order@.len() ==> order@[q] < j,
                x == row_key(names@, counts@, j as int),
                forall|q: int|
                    0 <= q < p ==> !listed_before(x, row_key(names@, counts@, order@[q] as int)),
            decreases order@.len() - p,
        {
            p = p + 1;
        }
        let ghost old_order = order@;
        let ghost keys = old_order.map_values(|i: usize| row_key(names@, counts@, i as int));
        proof {
            assert forall|q: int| 0 <= q < keys.len() implies (#[trigger] keys[q]).0 != x.0 by {
                assert(old_order[q] < j);
            }
            assert forall|q: int| 0 <= q < p implies !listed_before(x, #[trigger] keys[q]) by {}
            if p < keys.len() {
                assert(keys[p as int] == row_key(names@, counts@, old_order[p as int] as int));
            }
            lemma_insert_sorted(keys, x, p as int);
        }
        order.insert(p, j);
        proof {
            let new_keys = keys.insert(p as int, x);
            assert forall|a: int, b: int| 0 <= a < b < order@.len() implies listed_before(
                row_key(names@, counts@, order@[a] as int),
                row_key(names@, counts@, order@[b] as int),
            ) by {
                if a < p {
                    assert(order@[a] == old_order[a]);
                } else if a > p {
                    assert(order@[a] == old_order[a - 1]);
                }
                if b < p {
                    assert(order@[b] == old_order[b]);
                } else if b > p {
                    assert(order@[b] == old_order[b - 1]);
                }
                assert(row_key(names@, counts@, order@[a] as int) == new_keys[a]);
                assert(row_key(names@, counts@, order@[b] as int) == new_keys[b]);
            }
            assert forall|k: int| 0 <= k < j + 1 implies #[trigger] present(order@, k) by {
                if k == j {
                    assert(order@[p as int] == j);
                } else {
                    assert(present(old_order, k));
                    let q = choose|q: int| 0 <= q < old_order.len() && old_order[q] == k as usize;
                    if q < p {
                        assert(order@[q] == k as usize);
                    } else {
                        assert(order@[q + 1] == k as usize);
                    }
                }
            }
        }
        j = j + 1;
    }
    order
}

/// Inserting a row where the scan stopped keeps the list sorted.
proof fn lemma_insert_sorted(v: Seq<(Seq<char>, int)>, x: (Seq<char>, int), p: int)
    requires
        0 <= p <= v.len(),
        forall|a: int, b: int| 0 <= a < b < v.len() ==> listed_before(v[a], v[b]),
        forall|q: int| 0 <= q < v.len() ==> (#[trigger] v[q]).0 != x.0,
        forall|q: int| 0 <= q < p ==> !listed_before(x, #[trigger] v[q]),
        p < v.len() ==> listed_before(x, v[p]),
    ensures
        forall|a: int, b: int|
            0 <= a < b < v.len() + 1 ==> listed_before(v.insert(p, x)[a], v.insert(p, x)[b]),
{
    let w = v.insert(p, x);
    assert forall|a: int, b: int| 0 <= a < b < v.len() + 1 implies listed_before(w[a], w[b]) by {
        if a == p {
            assert(w[b] == v[b - 1]);
            if b - 1 > p {
                lemma_listed_transitive(x, v[p], v[b - 1]);
            }
        } else if b == p {
            assert(w[a] == v[a]);
            assert(!listed_before(x, v[a]));
            lemma_lex_total(x.0, v[a].0);
        } else if b < p {
            assert(w[a] == v[a] && w[b] == v[b]);
        } else if a < p {
            assert(w[a] == v[a] && w[b] == v[b - 1]);
        } else {
            assert(w[a] == v[a - 1] && w[b] == v[b - 1]);
        }
    }
}

proof fn lemma_listed_transitive(a: (Seq<char>, int), b: (Seq<char>, int), c: (Seq<char>, int))
    requires
        listed_before(a, b),
        listed_before(b, c),
    ensures
        listed_before(a, c),
{
    if a.1 == b.1 && b.1 == c.1 {
        lemma_lex_transitive(a.0, b.0, c.0);
    }
}

proof fn lemma_role_count_bound(ms: Seq<Match>, role: Seq<char>)
    ensures
        ranked_with_role(ms, role) <= ms.len(),
    decreases ms.len(),
{
    if ms.len() > 0 {
        lemma_role_count_bound(ms.drop_last(), role);
    }
}

proof fn lemma_role_absent(ms: Seq<Match>, role: Seq<char>)
    requires
        forall|k: int| 0 <= k < ms.len() && spec_is_ranked(#[trigger] ms[k]) ==> ms[k].role@ != role,
    ensures
        ranked_with_role(ms, role) == 0,
    decreases ms.len(),
{
    if ms.len() > 0 {
        assert(ms.last() == ms[ms.len() - 1]);
        lemma_role_absent(ms.drop_last(), role);
    }
}


/// One stored rank reading. `rank_tier` is `None` when the profile reported
/// no medal that day.
#[derive(Debug, Clone, PartialEq)]
pub struct RankSnapshot {
    pub rank_tier: Option<i16>,
    pub leaderboard_rank: Option<i32>,
    /// Unix seconds.
    pub captured_at: i64,
}

/// A reading that reported a rank: `(tier, when)`.
pub type Reading = (i16, i64);

/// Runs of consecutive readings that reported a rank. A reading with no rank
/// ends the run it is in; it is never skipped over.
pub open spec fn runs_from(s: Seq<RankSnapshot>, i: int, current: Seq<Reading>) -> Seq<Seq<Reading>>
    decreases s.len() - i,
{
    if i < 0 || i >= s.len() {
        if current.len() > 0 {
            seq![current]
        } else {
            seq![]
        }
    } else {
        match s[i].rank_tier {
            Some(t) => runs_from(s, i + 1, current.push((t, s[i].captured_at))),
            None => (if current.len() > 0 {
                seq![current]
            } else {
                seq![]
            }) + runs_from(s, i + 1, seq![]),
        }
    }
}

pub open spec fn spec_ranked_runs(s: Seq<RankSnapshot>) -> Seq<Seq<Reading>> {
    runs_from(s, 0, seq![])
}

pub open spec fn run_views(v: Seq<Vec<Reading>>) -> Seq<Seq<Reading>> {
    v.map_values(|r: Vec<Reading>| r@)
}

/// Split readings into runs of consecutive non-null ranks.
pub fn ranked_runs(snapshots: &[RankSnapshot]) -> (runs: Vec<Vec<Reading>>)
    ensures
        run_views(runs@) == spec_ranked_runs(snapshots@),
        forall|k: int| 0 <= k < runs@.len() ==> (#[trigger] runs@[k])@.len() > 0,
{
    let mut runs: Vec<Vec<Reading>> = Vec::new();
    let mut current: Vec<Reading> = Vec::new();
    let mut i: usize = 0;
    while i < snapshots.len()
        invariant
            i <= snapshots@.len(),
            run_views(runs@) + runs_from(snapshots@, i as int, current@) == spec_ranked_runs(
                snapshots@,
            ),
            forall|k: int| 0 <= k < runs@.len() ==> (#[trigger] runs@[k])@.len() > 0,
        decreases snapshots@.len() - i,
    {
        let ghost before = runs_from(snapshots@, i as int, current@);
        let ghost prior = runs@;
        match snapshots[i].rank_tier {
            Some(tier) => {
                current.push((tier, snapshots[i].captured_at));
            },
            None => {
                if current.len() > 0 {
                    let ghost run = current@;
                    let finished = current;
                    runs.push(finished);
                    current = Vec::new();
                    proof {
                        assert(run_views(runs@) =~= run_views(prior) + seq![run]);
                        assert(current@ =~= Seq::<Reading>::empty());
                        assert(before == seq![run] + runs_from(snapshots@, i + 1, seq![]));
                        assert(run_views(prior) + before =~= run_views(runs@) + runs_from(
                            snapshots@,
                            i + 1,
                            seq![],
                        ));
                    }
                } else {
                    proof {
                        assert(current@ =~= Seq::<Reading>::empty());
                        assert(before =~= seq![] + runs_from(snapshots@, i + 1, seq![]));
                    }
                }
            },
        }
        i = i + 1;
    }
    if current.len() > 0 {
        let ghost run = current@;
        let ghost prior = runs@;
        runs.push(current);
        proof {
            assert(run_views(runs@) =~= run_views(prior) + seq![run]);
        }
    } else {
        proof {
            assert(run_views(runs@) =~= run_views(runs@) + seq![]);
        }
    }
    runs
}

/// A point on the rank chart. Only real readings carry `estimated: false`.
#[derive(Debug, Clone, PartialEq)]
pub struct TrajectoryPoint {
    pub rank_tier: i16,
    /// The medal and stars, named server-side.
    pub label: Option<String>,
    /// Unix seconds.
    pub at: i64,
    pub estimated: bool,
}

/// Adjacent segments share an endpoint, so a point at the same moment as
/// the last one is not added again.
pub fn push_unique(points: &mut Vec<TrajectoryPoint>, point: TrajectoryPoint)
    ensures
        if old(points)@.len() > 0 && old(points)@.last().at == point.at {
            final(points)@ == old(points)@
        } else {
            final(points)@ == old(points)@.push(point)
        },
{
    if points.len() > 0 && points[points.len() - 1].at == point.at {
        return;
    }
    points.push(point);
}

/// No two neighbouring points on the chart share a moment.
pub open spec fn moments_apart(points: Seq<TrajectoryPoint>) -> bool {
    forall|j: int, k: int|
        0 <= j && k == j + 1 && k < points.len() ==> #[trigger] points[j].at != #[trigger] points[k].at
}

/// Pushing through [`push_unique`] never puts two points at the same moment
/// next to each other, and the chart always ends at the moment just pushed.
pub proof fn push_unique_keeps_moments_apart(
    before: Seq<TrajectoryPoint>,
    point: TrajectoryPoint,
    after: Seq<TrajectoryPoint>,
)
    requires
        moments_apart(before),
        if before.len() > 0 && before.last().at == point.at {
            after == before
        } else {
            after == before.push(point)
        },
    ensures
        moments_apart(after),
        after.len() > 0 && after.last().at == point.at,
{
    if !(before.len() > 0 && before.last().at == point.at) {
        assert forall|j: int, k: int|
            0 <= j && k == j + 1 && k < after.len() implies #[trigger] after[j].at != #[trigger] after[k].at by {
            if k == before.len() {
                assert(after[j] == before.last());
            } else {
                assert(after[j] == before[j] && after[k] == before[k]);
            }
        }
    }
}

/// The real reading as a chart point.
pub fn reading_point(reading: Reading) -> (p: TrajectoryPoint)
    ensures
        p.rank_tier == reading.0,
        p.at == reading.1,
        !p.estimated,
        match p.label {
            Some(l) => spec_rank_label(reading.0 as int) == Some(l@),
            None => spec_rank_label(reading.0 as int) is None,
        },
{
    TrajectoryPoint {
        rank_tier: reading.0,
        label: rank_label(reading.0 as i32),
        at: reading.1,
        estimated: false,
    }
}

pub open spec fn medal_name(medal: int) -> Seq<char> {
    if medal == 1 {
        "Herald"@
    } else if medal == 2 {
        "Guardian"@
    } else if medal == 3 {
        "Crusader"@
    } else if medal == 4 {
        "Archon"@
    } else if medal == 5 {
        "Legend"@
    } else if medal == 6 {
        "Ancient"@
    } else {
        "Divine"@
    }
}

/// The name of a rank tier (`medal * 10 + stars`): "Archon 3", or
/// "Immortal" for the top medal, which has no stars. `None` for anything
/// that is not a tier.
pub open spec fn spec_rank_label(tier: int) -> Option<Seq<char>> {
    let medal = tier / 10;
    let stars = tier % 10;
    if tier >= 80 && tier < 90 {
        Some("Immortal"@)
    } else if 1 <= medal <= 7 && 1 <= stars <= 5 {
        Some(medal_name(medal) + seq![' '] + crate::text::decimal(stars as nat))
    } else {
        None
    }
}

pub fn rank_label(tier: i32) -> (l: Option<String>)
    ensures
        match l {
            Some(s) => spec_rank_label(tier as int) == Some(s@),
            None => spec_rank_label(tier as int) is None,
        },
{
    if tier >= 80 && tier < 90 {
        return Some(crate::text::owned("Immortal"));
    }
    let medal = tier / 10;
    let stars = tier % 10;
    if medal < 1 || medal > 7 || stars < 1 || stars > 5 {
        return None;
    }
    let name = if medal == 1 {
        "Herald"
    } else if medal == 2 {
        "Guardian"
    } else if medal == 3 {
        "Crusader"
    } else if medal == 4 {
        "Archon"
    } else if medal == 5 {
        "Legend"
    } else if medal == 6 {
        "Ancient"
    } else {
        "Divine"
    };
    let mut s = crate::text::owned(name);
    crate::text::push_char(&mut s, ' ');
    let digits = crate::text::u64_text(stars as u64);
    crate::text::push_str(&mut s, digits.as_str());
    Some(s)
}

/// The longest idle gap chrono's `Duration::days` accepts, in days.
pub const MAX_DECAY_DAYS: i64 = 106751991167;

/// The idle time, in seconds, between the `p - 1`th and the `p`th ranked
/// match, newest first.
pub open spec fn gap_before(ms: Seq<Match>, r: Seq<usize>, p: int) -> int {
    ms[r[p - 1] as int].started_at - ms[r[p] as int].started_at
}

/// How many ranked matches count towards rank confidence: back from the
/// newest one, stopping at the first gap longer than the decay window; zero
/// when the newest ranked match is itself older than the window.
pub open spec fn counted_back(ms: Seq<Match>, r: Seq<usize>, decay: int, now: int, count: int) -> bool {
    if r.len() == 0 || now - ms[r[0] as int].started_at > decay {
        count == 0
    } else {
        &&& 1 <= count <= r.len()
        &&& forall|p: int| 1 <= p < count ==> #[trigger] gap_before(ms, r, p) <= decay
        &&& (count == r.len() || gap_before(ms, r, count) > decay)
    }
}

/// The number of ranked matches rank confidence rests on. `now` is Unix
/// seconds; the decay window is `decay_days` whole days.
pub fn counted_for_confidence(matches: &[Match], decay_days: i64, now: i64) -> (counted: i64)
    requires
        matches@.len() <= i64::MAX,
        -MAX_DECAY_DAYS <= decay_days <= MAX_DECAY_DAYS,
    ensures
        exists|r: Seq<usize>|
            #![trigger is_newest_first(matches@, r)]
            is_newest_first(matches@, r) && counted_back(
                matches@,
                r,
                decay_days * 86400,
                now as int,
                counted as int,
            ),
{
    let ranked = ranked_newest_first(matches);
    let decay: i128 = (decay_days as i128) * 86400;
    if ranked.len() == 0 {
        return 0;
    }
    let newest = matches[ranked[0]].started_at;
    if (now as i128) - (newest as i128) > decay {
        return 0;
    }
    let mut count: usize = 1;
    while count < ranked.len() && (matches[ranked[count - 1]].started_at as i128) - (
    matches[ranked[count]].started_at as i128) <= decay
        invariant
            1 <= count <= ranked@.len(),
            ranked@.len() <= matches@.len(),
            is_newest_first(matches@, ranked@),
            decay == decay_days * 86400,
            forall|p: int| 1 <= p < count ==> #[trigger] gap_before(matches@, ranked@, p) <= decay,
        decreases ranked@.len() - count,
    {
        count = count + 1;
    }
    count as i64
}

/// How many of the matches are ranked.
pub open spec fn count_ranked(ms: Seq<Match>) -> nat
    decreases ms.len(),
{
    if ms.len() == 0 {
        0
    } else {
        count_ranked(ms.drop_last()) + if spec_is_ranked(ms.last()) {
            1nat
        } else {
            0nat
        }
    }
}

/// The matches the rows count, all together.
pub open spec fn row_total(out: Seq<RolePreference>) -> int
    decreases out.len(),
{
    if out.len() == 0 {
        0
    } else {
        row_total(out.drop_last()) + out.last().matches as int
    }
}

pub open spec fn role_sum(ms: Seq<Match>, roles: Seq<Seq<char>>) -> nat
    decreases roles.len(),
{
    if roles.len() == 0 {
        0
    } else {
        role_sum(ms, roles.drop_last()) + ranked_with_role(ms, roles.last())
    }
}

pub open spec fn occurrences(roles: Seq<Seq<char>>, r: Seq<char>) -> nat
    decreases roles.len(),
{
    if roles.len() == 0 {
        0
    } else {
        occurrences(roles.drop_last(), r) + if roles.last() == r {
            1nat
        } else {
            0nat
        }
    }
}

proof fn lemma_occurs_once(roles: Seq<Seq<char>>, r: Seq<char>)
    requires
        forall|p: int, q: int| #![trigger roles[p], roles[q]] 0 <= p < q < roles.len() ==> roles[p] != roles[q],
    ensures
        occurrences(roles, r) == if roles.contains(r) { 1nat } else { 0nat },
    decreases roles.len(),
{
    if roles.len() > 0 {
        let rs = roles.drop_last();
        assert forall|p: int, q: int| #![trigger rs[p], rs[q]] 0 <= p < q < rs.len() implies rs[p] != rs[q] by {
            assert(rs[p] == roles[p] && rs[q] == roles[q]);
        }
        lemma_occurs_once(rs, r);
        if roles.last() == r {
            if rs.contains(r) {
                let k = choose|k: int| 0 <= k < rs.len() && rs[k] == r;
                assert(roles[k] == rs[k]);
                assert(roles[roles.len() - 1] == r);
            }
            assert(roles[roles.len() - 1] == r);
        } else {
            if roles.contains(r) {
                let k = choose|k: int| 0 <= k < roles.len() && roles[k] == r;
                assert(rs[k] == roles[k]);
            }
            if rs.contains(r) {
                let k = choose|k: int| 0 <= k < rs.len() && rs[k] == r;
                assert(roles[k] == rs[k]);
            }
        }
    }
}

proof fn lemma_role_sum_step(ms: Seq<Match>, roles: Seq<Seq<char>>)
    requires
        ms.len() > 0,
    ensures
        role_sum(ms, roles) == role_sum(ms.drop_last(), roles) + if spec_is_ranked(ms.last()) {
            occurrences(roles, ms.last().role@)
        } else {
            0nat
        },
    decreases roles.len(),
{
    if roles.len() > 0 {
        lemma_role_sum_step(ms, roles.drop_last());
    }
}

proof fn lemma_role_sum_counts(ms: Seq<Match>, roles: Seq<Seq<char>>)
    requires
        forall|p: int, q: int| #![trigger roles[p], roles[q]] 0 <= p < q < roles.len() ==> roles[p] != roles[q],
        forall|i: int| 0 <= i < ms.len() && spec_is_ranked(#[trigger] ms[i]) ==> roles.contains(ms[i].role@),
    ensures
        role_sum(ms, roles) == count_ranked(ms),
    decreases ms.len(),
{
    if ms.len() == 0 {
        lemma_role_sum_empty(ms, roles);
    } else {
        let m0 = ms.drop_last();
        assert forall|i: int| 0 <= i < m0.len() && spec_is_ranked(#[trigger] m0[i]) implies roles.contains(
            m0[i].role@,
        ) by {
            assert(m0[i] == ms[i]);
        }
        lemma_role_sum_counts(m0, roles);
        lemma_role_sum_step(ms, roles);
        lemma_occurs_once(roles, ms.last().role@);
        if spec_is_ranked(ms.last()) {
            assert(ms[ms.len() - 1] == ms.last());
        }
    }
}

proof fn lemma_role_sum_empty(ms: Seq<Match>, roles: Seq<Seq<char>>)
    requires
        ms.len() == 0,
    ensures
        role_sum(ms, roles) == 0,
    decreases roles.len(),
{
    if roles.len() > 0 {
        lemma_role_sum_empty(ms, roles.drop_last());
    }
}

proof fn lemma_row_total(ms: Seq<Match>, out: Seq<RolePreference>)
    requires
        forall|p: int|
            0 <= p < out.len() ==> (#[trigger] out[p]).matches as int == ranked_with_role(ms, out[p].role@)
                && out[p].matches > 0,
    ensures
        row_total(out) == role_sum(ms, out.map_values(|r: RolePreference| r.role@)),
        out.len() > 0 ==> row_total(out) > 0,
    decreases out.len(),
{
    if out.len() > 0 {
        let o = out.drop_last();
        assert forall|p: int| 0 <= p < o.len() implies (#[trigger] o[p]).matches as int == ranked_with_role(
            ms,
            o[p].role@,
        ) && o[p].matches > 0 by {
            assert(o[p] == out[p]);
        }
        lemma_row_total(ms, o);
        assert(out.map_values(|r: RolePreference| r.role@).drop_last() =~= o.map_values(
            |r: RolePreference| r.role@,
        ));
        assert(out[out.len() - 1] == out.last());
    }
}

proof fn lemma_some_ranked(ms: Seq<Match>)
    requires
        count_ranked(ms) > 0,
    ensures
        exists|i: int| 0 <= i < ms.len() && spec_is_ranked(#[trigger] ms[i]),
    decreases ms.len(),
{
    let m0 = ms.drop_last();
    if spec_is_ranked(ms.last()) {
        assert(spec_is_ranked(ms[ms.len() - 1]));
    } else {
        lemma_some_ranked(m0);
        let i = choose|i: int| 0 <= i < m0.len() && spec_is_ranked(#[trigger] m0[i]);
        assert(ms[i] == m0[i]);
    }
}

/// The role rows share out the ranked matches: each role has one row, the
/// rows together count every ranked match exactly once, so their shares
/// add up to the whole; and there are rows exactly when a ranked match was
/// played.
pub proof fn role_rows_share_out_the_ranked_matches(ms: Seq<Match>, out: Seq<RolePreference>)
    requires
        role_rows(ms, out),
    ensures
        forall|p: int, q: int|
            #![trigger out[p], out[q]]
            0 <= p < q < out.len() ==> out[p].role@ != out[q].role@,
        row_total(out) == count_ranked(ms),
        (out.len() == 0) <==> (count_ranked(ms) == 0),
{
    assert forall|p: int, q: int| #![trigger out[p], out[q]] 0 <= p < q < out.len() implies out[p].role@
        != out[q].role@ by {
        assert(listed_before(pref_view(out[p]), pref_view(out[q])));
        if out[p].role@ == out[q].role@ {
            lemma_lex_irreflexive(out[p].role@);
        }
    }
    let roles = out.map_values(|r: RolePreference| r.role@);
    assert forall|p: int, q: int| #![trigger roles[p], roles[q]] 0 <= p < q < roles.len() implies roles[p]
        != roles[q] by {
        assert(roles[p] == out[p].role@ && roles[q] == out[q].role@);
    }
    assert forall|i: int| 0 <= i < ms.len() && spec_is_ranked(#[trigger] ms[i]) implies roles.contains(
        ms[i].role@,
    ) by {
        let p = choose|p: int| 0 <= p < out.len() && out[p].role@ == ms[i].role@;
        assert(roles[p] == out[p].role@);
    }
    lemma_role_sum_counts(ms, roles);
    lemma_row_total(ms, out);
    if count_ranked(ms) > 0 {
        lemma_some_ranked(ms);
    }
}

} // verus!
