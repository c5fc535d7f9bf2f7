use vstd::prelude::*;

use crate::rank::{lemma_ranked_sorted, rank_descending, ranked};
use crate::record::{order_key, total_order_key, Figure, Instrument};
use crate::report::top_n;
use crate::snapshot::{lookup, Snapshot};
use crate::text::{decimal, decimal_text, push_updated_line, updated_line};

verus! {

/// The relative performance of one instrument now and in a past snapshot,
/// as bit patterns; the caller forms their difference.
pub struct RelPair {
    pub key: u64,
    pub current: u32,
    pub past: u32,
}

/// The change of one instrument's relative performance over a window.
pub struct Delta {
    pub key: u64,
    pub change: Figure,
}

/// The pairs for the last `n` entries of `current`, taken from the bottom
/// up, skipping those that `past` does not hold.
pub open spec fn rel_pairs(current: Seq<Instrument>, past: Seq<Instrument>, n: nat) -> Seq<
    RelPair,
>
    decreases n,
{
    if n == 0 || n > current.len() {
        Seq::empty()
    } else {
        let prev = rel_pairs(current, past, (n - 1) as nat);
        let r = current[current.len() - n];
        match lookup(past, r.key) {
            Some(p) => prev.push(
                RelPair {
                    key: r.key,
                    current: r.performance_rel.bits,
                    past: p.performance_rel.bits,
                },
            ),
            None => prev,
        }
    }
}

/// For every instrument of `current`, from the worst ranked up, that `past`
/// also holds: its key and its relative performance now and then.
/// Without a past snapshot there is nothing to compare and no pairs.
pub fn rank_change_pairs(current: &Snapshot, past: Option<&Snapshot>) -> (r: Option<Vec<RelPair>>)
    ensures
        past is None <==> r is None,
        r is Some ==> r->0@ == rel_pairs(current@, past->0@, current@.len()),
{
    match past {
        None => None,
        Some(p) => {
            let n = current.len();
            let mut pairs: Vec<RelPair> = Vec::new();
            let mut i: usize = 0;
            while i < n
                invariant
                    n == current@.len(),
                    i <= n,
                    pairs@ == rel_pairs(current@, p@, i as nat),
                decreases n - i,
            {
                let r = current.entry(n - 1 - i);
                match p.get(r.key) {
                    Some(q) => {
                        pairs.push(
                            RelPair {
                                key: r.key,
                                current: r.performance_rel.bits,
                                past: q.performance_rel.bits,
                            },
                        );
                    },
                    None => {},
                }
                i += 1;
            }
            Some(pairs)
        },
    }
}

/// The ordering keys of the changes in `ds`.
pub open spec fn delta_keys(ds: Seq<Delta>) -> Seq<i64> {
    Seq::new(ds.len(), |i: int| order_key(ds[i].change.bits))
}

/// `ds` by descending change, equal changes in their given order.
pub open spec fn ranked_deltas(ds: Seq<Delta>) -> Seq<Delta> {
    let order = ranked(delta_keys(ds), ds.len());
    Seq::new(ds.len(), |i: int| ds[order[i] as int])
}

/// The name under which `past` lists `key`, or `?`.
pub open spec fn past_name(past: Seq<Instrument>, key: u64) -> Seq<char> {
    match lookup(past, key) {
        Some(r) => r.name@,
        None => "?"@,
    }
}

/// The ranking holds every entry of `xs` once and its changes never increase
/// along it.
pub proof fn lemma_ranked_deltas_descend(xs: Seq<Delta>)
    requires
        xs.len() <= usize::MAX,
    ensures
        ranked_deltas(xs).len() == xs.len(),
        forall|a: int, b: int|
            0 <= a < b < xs.len() ==> order_key(ranked_deltas(xs)[a].change.bits) >= order_key(
                ranked_deltas(xs)[b].change.bits,
            ),
        exists|order: Seq<usize>|
            order.len() == xs.len() && (forall|a: int, b: int|
                0 <= a < b < xs.len() ==> order[a] != order[b]) && (forall|t: int|
                0 <= t < xs.len() ==> #[trigger] order[t] < xs.len() && ranked_deltas(xs)[t]
                    == xs[order[t] as int]),
{
    let order = ranked(delta_keys(xs), xs.len());
    lemma_ranked_sorted(delta_keys(xs), xs.len());
    assert forall|a: int, b: int| 0 <= a < b < xs.len() implies order_key(
        ranked_deltas(xs)[a].change.bits,
    ) >= order_key(ranked_deltas(xs)[b].change.bits) by {
        assert(delta_keys(xs)[order[a] as int] >= delta_keys(xs)[order[b] as int]);
    }
}

/// One line of the rank-change list.
pub open spec fn delta_line(d: Delta, past: Seq<Instrument>) -> Seq<char> {
    "`* "@ + past_name(past, d.key) + " (Δ: "@ + d.change.text@ + "%)`\n"@
}

/// The lines of `ds`, one after the other.
pub open spec fn delta_lines(ds: Seq<Delta>, past: Seq<Instrument>) -> Seq<char>
    decreases ds.len(),
{
    if ds.len() == 0 {
        Seq::empty()
    } else {
        delta_lines(ds.drop_last(), past) + delta_line(ds.last(), past)
    }
}

/// The rank-change report: the `n` largest changes, then the time of the
/// update.
pub open spec fn rank_change_text(ds: Seq<Delta>, past: Seq<Instrument>, n: nat, now: nat) -> Seq<
    char,
> {
    "top "@ + decimal_text(n) + " kurse (nach diff. in rel. veränderung vor 2h)\n"@
        + delta_lines(top_n(ranked_deltas(ds), n), past) + updated_line(now)
}

fn past_name_of<'a>(past: &'a Snapshot, key: u64) -> (r: &'a str)
    ensures
        r@ == past_name(past@, key),
{
    match past.get(key) {
        Some(r) => r.name.as_str(),
        None => "?",
    }
}

/// Renders the rank-change report: the `n` largest of `deltas` (ties in
/// their given order), each under the name that `past` gives its key, then
/// the time of the update.
pub fn rank_change_report(deltas: &Vec<Delta>, past: &Snapshot, n: u64, now: u64) -> (r: String)
    ensures
        r@ == rank_change_text(deltas@, past@, n as nat, now as nat),
{
    let len = deltas.len();
    let mut keys: Vec<i64> = Vec::new();
    let mut i: usize = 0;
    while i < len
        invariant
            len == deltas@.len(),
            i <= len,
            keys@ == delta_keys(deltas@).take(i as int),
        decreases len - i,
    {
        keys.push(total_order_key(deltas[i].change.bits));
        i += 1;
        assert(keys@ =~= delta_keys(deltas@).take(i as int));
    }
    assert(keys@ =~= delta_keys(deltas@));
    let order = rank_descending(&keys);
    let count: usize = if (len as u64) < n {
        len
    } else {
        n as usize
    };
    let ghost rs = top_n(ranked_deltas(deltas@), n as nat);
    let mut s = String::from_str("top ");
    s.append(decimal(n).as_str());
    s.append(" kurse (nach diff. in rel. veränderung vor 2h)\n");
    let ghost start = s@;
    assert(rs.len() == count);
    let mut i: usize = 0;
    while i < count
        invariant
            len == deltas@.len(),
            order@ == ranked(delta_keys(deltas@), deltas@.len()),
            order@.len() == len,
            forall|t: int| 0 <= t < len ==> order@[t] < len,
            rs == top_n(ranked_deltas(deltas@), n as nat),
            count <= len,
            rs.len() == count,
            i <= count,
            s@ == start + delta_lines(rs.take(i as int), past@),
        decreases count - i,
    {
        let d = &deltas[order[i]];
        let mut line = String::from_str("`* ");
        line.append(past_name_of(past, d.key));
        line.append(" (Δ: ");
        line.append(d.change.text.as_str());
        line.append("%)`\n");
        s.append(line.as_str());
        proof {
            assert(rs[i as int] == *d);
            assert(rs.take(i + 1).drop_last() =~= rs.take(i as int));
            vstd::seq_lib::lemma_concat_associative(
                start,
                delta_lines(rs.take(i as int), past@),
                delta_line(*d, past@),
            );
        }
        i += 1;
    }
    assert(rs.take(count as int) =~= rs);
    push_updated_line(&mut s, now);
    s
}

} // verus!
