use vstd::prelude::*;

use crate::rank::{lemma_ranked_sorted, rank_descending, ranked};
use crate::record::{order_key, total_order_key, Team};
use crate::report::{bottom_n, top_n};
use crate::text::{decimal, decimal_text, push_updated_line, updated_line};

verus! {

/// The name shown for a team: one whose name is not approved yet appears
/// under a fixed label.
pub open spec fn shown_name(name: Seq<char>) -> Seq<char> {
    if name == "* (Name not yet approved)"@ {
        "<kein>"@
    } else {
        name
    }
}

/// The name shown for a team named `name`.
pub fn display_name(name: &String) -> (r: String)
    ensures
        r@ == shown_name(name@),
{
    let placeholder = String::from_str("* (Name not yet approved)");
    if name.eq(&placeholder) {
        String::from_str("<kein>")
    } else {
        name.clone()
    }
}

/// The ordering keys of the depot values of `ts`.
pub open spec fn depot_keys(ts: Seq<Team>) -> Seq<i64> {
    Seq::new(ts.len(), |i: int| order_key(ts[i].depot_value.bits))
}

/// `ts` by descending depot value, equal values in their given order.
pub open spec fn ranked_teams(ts: Seq<Team>) -> Seq<Team> {
    let order = ranked(depot_keys(ts), ts.len());
    Seq::new(ts.len(), |i: int| ts[order[i] as int])
}

/// The ranking holds every entry of `xs` once and its depot values never increase
/// along it.
pub proof fn lemma_ranked_teams_descend(xs: Seq<Team>)
    requires
        xs.len() <= usize::MAX,
    ensures
        ranked_teams(xs).len() == xs.len(),
        forall|a: int, b: int|
            0 <= a < b < xs.len() ==> order_key(ranked_teams(xs)[a].depot_value.bits) >= order_key(
                ranked_teams(xs)[b].depot_value.bits,
            ),
        exists|order: Seq<usize>|
            order.len() == xs.len() && (forall|a: int, b: int|
                0 <= a < b < xs.len() ==> order[a] != order[b]) && (forall|t: int|
                0 <= t < xs.len() ==> #[trigger] order[t] < xs.len() && ranked_teams(xs)[t]
                    == xs[order[t] as int]),
{
    let order = ranked(depot_keys(xs), xs.len());
    lemma_ranked_sorted(depot_keys(xs), xs.len());
    assert forall|a: int, b: int| 0 <= a < b < xs.len() implies order_key(
        ranked_teams(xs)[a].depot_value.bits,
    ) >= order_key(ranked_teams(xs)[b].depot_value.bits) by {
        assert(depot_keys(xs)[order[a] as int] >= depot_keys(xs)[order[b] as int]);
    }
}

/// One line of the team lists.
pub open spec fn team_line(t: Team) -> Seq<char> {
    "`* "@ + shown_name(t.name@) + " ("@ + t.depot_value.text@ + "€, #"@ + decimal_text(
        t.performance_rank as nat,
    ) + " / "@ + t.performance.text@ + "%)`\n"@
}

/// The lines of `ts`, one after the other.
pub open spec fn team_lines(ts: Seq<Team>) -> Seq<char>
    decreases ts.len(),
{
    if ts.len() == 0 {
        Seq::empty()
    } else {
        team_lines(ts.drop_last()) + team_line(ts.last())
    }
}

/// The team report: the `n` teams with the largest depots, the `n` with the
/// smallest (smallest first), the total number of teams and the time of the
/// update.
pub open spec fn team_report_text(ts: Seq<Team>, n: nat, total: nat, now: nat) -> Seq<char> {
    "top "@ + decimal_text(n) + " teams (nach depot)\n"@ + team_lines(top_n(ranked_teams(ts), n))
        + "\n"@ + "bottom "@ + decimal_text(n) + " teams (nach depot)\n"@ + team_lines(
        bottom_n(ranked_teams(ts), n),
    ) + "\n("@ + decimal_text(total) + " teams insgesamt)"@ + updated_line(now)
}

fn push_team_line(s: &mut String, t: &Team)
    ensures
        final(s)@ == old(s)@ + team_line(*t),
{
    let mut line = String::from_str("`* ");
    line.append(display_name(&t.name).as_str());
    line.append(" (");
    line.append(t.depot_value.text.as_str());
    line.append("€, #");
    line.append(decimal(t.performance_rank as u64).as_str());
    line.append(" / ");
    line.append(t.performance.text.as_str());
    line.append("%)`\n");
    s.append(line.as_str());
}

/// Appends the lines of the first `count` teams of the ranking `order`, or,
/// when `from_bottom`, of its last `count`, last first.
fn push_team_lines(
    s: &mut String,
    teams: &Vec<Team>,
    order: &Vec<usize>,
    from_bottom: bool,
    count: usize,
)
    requires
        order@ == ranked(depot_keys(teams@), teams@.len()),
        order@.len() == teams@.len(),
        forall|t: int| 0 <= t < teams@.len() ==> order@[t] < teams@.len(),
        count <= teams@.len(),
    ensures
        final(s)@ == old(s)@ + team_lines(
            if from_bottom {
                bottom_n(ranked_teams(teams@), count as nat)
            } else {
                top_n(ranked_teams(teams@), count as nat)
            },
        ),
{
    let ghost all = ranked_teams(teams@);
    let ghost rs = if from_bottom {
        bottom_n(all, count as nat)
    } else {
        top_n(all, count as nat)
    };
    let ghost start = s@;
    let n = teams.len();
    let mut i: usize = 0;
    while i < count
        invariant
            count <= n == teams@.len(),
            order@ == ranked(depot_keys(teams@), teams@.len()),
            order@.len() == n,
            forall|t: int| 0 <= t < n ==> order@[t] < n,
            all == ranked_teams(teams@),
            rs == if from_bottom {
                bottom_n(all, count as nat)
            } else {
                top_n(all, count as nat)
            },
            rs.len() == count,
            i <= count,
            s@ == start + team_lines(rs.take(i as int)),
        decreases count - i,
    {
        let pos = if from_bottom {
            n - 1 - i
        } else {
            i
        };
        let t = &teams[order[pos]];
        push_team_line(s, t);
        proof {
            assert(rs[i as int] == *t);
            assert(rs.take(i + 1).drop_last() =~= rs.take(i as int));
            vstd::seq_lib::lemma_concat_associative(
                start,
                team_lines(rs.take(i as int)),
                team_line(*t),
            );
        }
        i += 1;
    }
    assert(rs.take(count as int) =~= rs);
}

/// Renders the team report: the `n` teams with the largest depot values,
/// then the `n` with the smallest, smallest first (ties in their given
/// order), then `total`, the number of teams the source reported, and the
/// time of the update.
pub fn team_report(teams: &Vec<Team>, n: u64, total: u64, now: u64) -> (r: String)
    ensures
        r@ == team_report_text(teams@, n as nat, total as nat, now as nat),
{
    let len = teams.len();
    let mut keys: Vec<i64> = Vec::new();
    let mut i: usize = 0;
    while i < len
        invariant
            len == teams@.len(),
            i <= len,
            keys@ == depot_keys(teams@).take(i as int),
        decreases len - i,
    {
        keys.push(total_order_key(teams[i].depot_value.bits));
        i += 1;
        assert(keys@ =~= depot_keys(teams@).take(i as int));
    }
    assert(keys@ =~= depot_keys(teams@));
    let order = rank_descending(&keys);
    let count: usize = if (len as u64) < n {
        len
    } else {
        n as usize
    };
    let mut s = String::from_str("top ");
    s.append(decimal(n).as_str());
    s.append(" teams (nach depot)\n");
    push_team_lines(&mut s, teams, &order, false, count);
    s.append("\n");
    s.append("bottom ");
    s.append(decimal(n).as_str());
    s.append(" teams (nach depot)\n");
    push_team_lines(&mut s, teams, &order, true, count);
    s.append("\n(");
    s.append(decimal(total).as_str());
    s.append(" teams insgesamt)");
    push_updated_line(&mut s, now);
    proof {
        let all = ranked_teams(teams@);
        assert(top_n(all, count as nat) == top_n(all, n as nat));
        assert(bottom_n(all, count as nat) =~= bottom_n(all, n as nat));
    }
    s
}

} // verus!
