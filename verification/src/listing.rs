//! How a player's match history is listed: which rows, in what order.
//!
//! Every piece of query text here is a constant or a bind position; nothing
//! a caller supplies reaches the SQL. Filters apply on top of whatever
//! population the caller chose, never instead of it.

use vstd::prelude::*;

use crate::records::CoachableRole;
use crate::text::{decimal, owned, push_str, same_text, u64_text};

verus! {

/// How a listed page is ordered. Win or loss is a filter, not an ordering.
#[derive(Debug, Clone, Copy, PartialEq, Eq, Structural, Default)]
pub enum MatchSort {
    #[default]
    Newest,
    Oldest,
    HighestGpm,
    LowestGpm,
    HighestKda,
}

pub open spec fn spec_sort_slug(s: MatchSort) -> Seq<char> {
    match s {
        MatchSort::Newest => "newest"@,
        MatchSort::Oldest => "oldest"@,
        MatchSort::HighestGpm => "gpm_desc"@,
        MatchSort::LowestGpm => "gpm_asc"@,
        MatchSort::HighestKda => "kda_desc"@,
    }
}

/// The sort a query value names, if any.
pub open spec fn spec_sort_parse(value: Seq<char>) -> Option<MatchSort> {
    if value == "newest"@ {
        Some(MatchSort::Newest)
    } else if value == "oldest"@ {
        Some(MatchSort::Oldest)
    } else if value == "gpm_desc"@ {
        Some(MatchSort::HighestGpm)
    } else if value == "gpm_asc"@ {
        Some(MatchSort::LowestGpm)
    } else if value == "kda_desc"@ {
        Some(MatchSort::HighestKda)
    } else {
        None
    }
}

/// The `ORDER BY` body: recency breaks every tie, and a match with no
/// computed KDA sorts last rather than as a zero.
pub open spec fn spec_order_by(s: MatchSort) -> Seq<char> {
    match s {
        MatchSort::Newest => "m.started_at DESC"@,
        MatchSort::Oldest => "m.started_at ASC"@,
        MatchSort::HighestGpm => "m.gpm DESC, m.started_at DESC"@,
        MatchSort::LowestGpm => "m.gpm ASC, m.started_at DESC"@,
        MatchSort::HighestKda => "mm.kda DESC NULLS LAST, m.started_at DESC"@,
    }
}

impl MatchSort {
    pub fn slug(self) -> (s: &'static str)
        ensures
            s@ == spec_sort_slug(self),
    {
        match self {
            MatchSort::Newest => "newest",
            MatchSort::Oldest => "oldest",
            MatchSort::HighestGpm => "gpm_desc",
            MatchSort::LowestGpm => "gpm_asc",
            MatchSort::HighestKda => "kda_desc",
        }
    }

    pub fn parse(value: &str) -> (r: Option<MatchSort>)
        ensures
            r == spec_sort_parse(value@),
    {
        if same_text(value, "newest") {
            Some(MatchSort::Newest)
        } else if same_text(value, "oldest") {
            Some(MatchSort::Oldest)
        } else if same_text(value, "gpm_desc") {
            Some(MatchSort::HighestGpm)
        } else if same_text(value, "gpm_asc") {
            Some(MatchSort::LowestGpm)
        } else if same_text(value, "kda_desc") {
            Some(MatchSort::HighestKda)
        } else {
            None
        }
    }

    pub fn order_by(self) -> (s: &'static str)
        ensures
            s@ == spec_order_by(self),
    {
        match self {
            MatchSort::Newest => "m.started_at DESC",
            MatchSort::Oldest => "m.started_at ASC",
            MatchSort::HighestGpm => "m.gpm DESC, m.started_at DESC",
            MatchSort::LowestGpm => "m.gpm ASC, m.started_at DESC",
            MatchSort::HighestKda => "mm.kda DESC NULLS LAST, m.started_at DESC",
        }
    }
}

/// A sort survives the trip through its query value, and every value that
/// parses is the name of the sort it parses to.
pub proof fn sort_round_trip(s: MatchSort, value: Seq<char>)
    ensures
        spec_sort_parse(spec_sort_slug(s)) == Some(s),
        spec_sort_parse(value) matches Some(t) ==> value == spec_sort_slug(t),
{
    reveal_strlit("newest");
    reveal_strlit("oldest");
    reveal_strlit("gpm_desc");
    reveal_strlit("gpm_asc");
    reveal_strlit("kda_desc");
    assert("newest"@ != "oldest"@ ==> true);
    assert("newest"@[0] != "oldest"@[0]);
    assert("newest"@[0] != "gpm_desc"@[0]);
    assert("newest"@[0] != "kda_desc"@[0]);
    assert("oldest"@[0] != "gpm_desc"@[0]);
    assert("oldest"@[0] != "kda_desc"@[0]);
    assert("gpm_desc"@[0] != "kda_desc"@[0]);
    assert("gpm_desc"@.len() != "gpm_asc"@.len());
    assert("gpm_asc"@[0] != "kda_desc"@[0]);
    assert("newest"@[0] != "gpm_asc"@[0]);
    assert("oldest"@[0] != "gpm_asc"@[0]);
}

/// Which of a player's matches a listed page shows, and in what order.
/// Every filter is off by default, which is the unfiltered list.
#[derive(Default)]
pub struct MatchFilter {
    pub hero_id: Option<i32>,
    /// `Some(true)` for wins, `Some(false)` for losses.
    pub won: Option<bool>,
    pub role: Option<CoachableRole>,
    pub sort: MatchSort,
}

pub open spec fn spec_predicate(first: nat) -> Seq<char> {
    let hero = decimal(first);
    let won = decimal(first + 1);
    let roles = decimal(first + 2);
    "AND ($"@ + hero + "::int IS NULL OR m.hero_id = $"@ + hero + ")\n             AND ($"@ + won
        + "::bool IS NULL OR m.won = $"@ + won + ")\n             AND ($"@ + roles
        + "::text[] IS NULL OR m.role = ANY($"@ + roles + "))"@
}

impl MatchFilter {
    /// True when this lists exactly what an unfiltered query would.
    pub fn is_empty(&self) -> (b: bool)
        ensures
            b == (self.hero_id is None && self.won is None && self.role is None),
    {
        self.hero_id.is_none() && self.won.is_none() && self.role.is_none()
    }

    /// The predicate over `m`, using three bind slots starting at `first`.
    /// Each clause is a no-op when its parameter is null, so one query text
    /// serves every combination of filters and no bind position shifts.
    pub fn predicate(&self, first: usize) -> (s: String)
        requires
            first + 2 <= usize::MAX,
        ensures
            s@ == spec_predicate(first as nat),
    {
        let hero = u64_text(first as u64);
        let won = u64_text((first + 1) as u64);
        let roles = u64_text((first + 2) as u64);
        let mut s = owned("AND ($");
        push_str(&mut s, hero.as_str());
        push_str(&mut s, "::int IS NULL OR m.hero_id = $");
        push_str(&mut s, hero.as_str());
        push_str(&mut s, ")\n             AND ($");
        push_str(&mut s, won.as_str());
        push_str(&mut s, "::bool IS NULL OR m.won = $");
        push_str(&mut s, won.as_str());
        push_str(&mut s, ")\n             AND ($");
        push_str(&mut s, roles.as_str());
        push_str(&mut s, "::text[] IS NULL OR m.role = ANY($");
        push_str(&mut s, roles.as_str());
        push_str(&mut s, "))");
        s
    }
}

/// A hero in a population, with how often it was played.
#[derive(Debug, Clone, PartialEq)]
pub struct HeroFacet {
    pub hero_id: i32,
    pub hero_name: String,
    pub matches: i64,
}

/// The role estimator's stored label, with its count.
#[derive(Debug, Clone, PartialEq)]
pub struct RoleFacet {
    pub role: String,
    pub matches: i64,
}

/// One grouped count over a population. A career population reads every
/// stored row and needs no window; anything narrower brings its window's
/// common table expression and join, so the counts beside a filter describe
/// exactly the page it will produce.
pub open spec fn spec_facet_sql(
    window: Option<(Seq<char>, Seq<char>)>,
    select: Seq<char>,
    group_by: Seq<char>,
    order_by: Seq<char>,
) -> Seq<char> {
    let (cte, join) = match window {
        Some((c, j)) => (c, j),
        None => (seq![], seq![]),
    };
    cte + "\n         SELECT "@ + select + "\n           FROM matches m\n           "@ + join
        + "\n          WHERE m.dota_player_id = $1\n          GROUP BY "@ + group_by
        + "\n          ORDER BY "@ + order_by
}

/// `window` is the narrower population's table expression and join, or
/// `None` for the whole career.
pub fn facet_sql(window: Option<(&str, &str)>, select: &str, group_by: &str, order_by: &str) -> (s:
    String)
    ensures
        s@ == spec_facet_sql(
            match window {
                Some((c, j)) => Some((c@, j@)),
                None => None,
            },
            select@,
            group_by@,
            order_by@,
        ),
{
    let (cte, join) = match window {
        Some((c, j)) => (c, j),
        None => ("", ""),
    };
    proof {
        reveal_strlit("");
    }
    let mut s = owned(cte);
    push_str(&mut s, "\n         SELECT ");
    push_str(&mut s, select);
    push_str(&mut s, "\n           FROM matches m\n           ");
    push_str(&mut s, join);
    push_str(&mut s, "\n          WHERE m.dota_player_id = $1\n          GROUP BY ");
    push_str(&mut s, group_by);
    push_str(&mut s, "\n          ORDER BY ");
    push_str(&mut s, order_by);
    s
}

/// No two sorts give the same order. Oldest is newest reversed: both order
/// by when the match started, oldest ascending and newest descending. Every
/// sort but oldest ends on the newest match first, so recency breaks ties.
pub proof fn each_sort_orders_its_own_way(a: MatchSort, b: MatchSort)
    ensures
        a != b ==> spec_order_by(a) != spec_order_by(b),
        spec_order_by(MatchSort::Newest) == "m.started_at"@ + " DESC"@,
        spec_order_by(MatchSort::Oldest) == "m.started_at"@ + " ASC"@,
        a != MatchSort::Oldest ==> spec_order_by(a).len() >= 17 && spec_order_by(a).skip(
            spec_order_by(a).len() - 17,
        ) == "m.started_at DESC"@,
{
    reveal_strlit("m.started_at");
    reveal_strlit(" DESC");
    reveal_strlit(" ASC");
    reveal_strlit("m.started_at DESC");
    reveal_strlit("m.started_at ASC");
    reveal_strlit("m.gpm DESC, m.started_at DESC");
    reveal_strlit("m.gpm ASC, m.started_at DESC");
    reveal_strlit("mm.kda DESC NULLS LAST, m.started_at DESC");
    assert("m.started_at DESC"@ =~= "m.started_at"@ + " DESC"@);
    assert("m.started_at ASC"@ =~= "m.started_at"@ + " ASC"@);
    let o = spec_order_by(a);
    if a != MatchSort::Oldest {
        assert(o.skip(o.len() - 17) =~= "m.started_at DESC"@);
    }
}

} // verus!
