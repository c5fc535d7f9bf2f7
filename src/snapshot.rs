use vstd::prelude::*;

use crate::rank::{lemma_ranked_sorted, rank_descending, ranked};
use crate::record::{order_key, total_order_key, Instrument};

verus! {

/// The ordering keys of the relative performances of `recs`.
pub open spec fn rel_keys(recs: Seq<Instrument>) -> Seq<i64> {
    Seq::new(recs.len(), |i: int| order_key(recs[i].performance_rel.bits))
}

/// Whether the `i`-th entry of `order` shares its registration code with an
/// entry ranked before it.
pub open spec fn wkn_seen_before(recs: Seq<Instrument>, order: Seq<usize>, i: int) -> bool {
    exists|j: int|
        0 <= j < i && #[trigger] recs[order[j] as int].wkn@ == recs[order[i] as int].wkn@
}

/// The records that the first `n` entries of `order` point to, each
/// registration code kept at its first occurrence only.
pub open spec fn first_listings(recs: Seq<Instrument>, order: Seq<usize>, n: nat) -> Seq<
    Instrument,
>
    decreases n,
{
    if n == 0 {
        Seq::empty()
    } else {
        let prev = first_listings(recs, order, (n - 1) as nat);
        if wkn_seen_before(recs, order, n - 1) {
            prev
        } else {
            prev.push(recs[order[n - 1] as int])
        }
    }
}

/// `recs` by descending relative performance (ties in their given order),
/// with duplicate listings of one instrument collapsed onto the best ranked.
pub open spec fn ranked_listing(recs: Seq<Instrument>) -> Seq<Instrument> {
    first_listings(recs, ranked(rel_keys(recs), recs.len()), recs.len())
}

/// The first entry from position `i` on whose key is `key`.
pub open spec fn find_from(entries: Seq<Instrument>, key: u64, i: int) -> Option<Instrument>
    decreases entries.len() - i,
{
    if i < 0 || i >= entries.len() {
        None
    } else if entries[i].key == key {
        Some(entries[i])
    } else {
        find_from(entries, key, i + 1)
    }
}

/// The record of `key` in `entries`; the first one wins.
pub open spec fn lookup(entries: Seq<Instrument>, key: u64) -> Option<Instrument> {
    find_from(entries, key, 0)
}

/// The observed instruments of one sampling instant, ranked by descending
/// relative performance, one listing per registration code.
pub struct Snapshot {
    entries: Vec<Instrument>,
}

impl View for Snapshot {
    type V = Seq<Instrument>;

    closed spec fn view(&self) -> Seq<Instrument> {
        self.entries@
    }
}

impl Snapshot {
    /// Ranks `records` and seals them into a snapshot.
    pub fn from_records(records: Vec<Instrument>) -> (s: Snapshot)
        ensures
            s@ == ranked_listing(records@),
            forall|a: int, b: int|
                0 <= a < b < s@.len() ==> order_key(s@[a].performance_rel.bits) >= order_key(
                    s@[b].performance_rel.bits,
                ),
            forall|a: int, b: int| 0 <= a < b < s@.len() ==> s@[a].wkn@ != s@[b].wkn@,
    {
        let n = records.len();
        let mut keys: Vec<i64> = Vec::new();
        let mut i: usize = 0;
        while i < n
            invariant
                n == records@.len(),
                i <= n,
                keys@ == rel_keys(records@).take(i as int),
            decreases n - i,
        {
            keys.push(total_order_key(records[i].performance_rel.bits));
            i += 1;
            assert(keys@ =~= rel_keys(records@).take(i as int));
        }
        assert(keys@ =~= rel_keys(records@));
        let order = rank_descending(&keys);
        let mut entries: Vec<Instrument> = Vec::new();
        let mut i: usize = 0;
        while i < n
            invariant
                n == records@.len(),
                order@.len() == n,
                forall|t: int| 0 <= t < n ==> order@[t] < n,
                order@ == ranked(rel_keys(records@), records@.len()),
                i <= n,
                entries@ == first_listings(records@, order@, i as nat),
            decreases n - i,
        {
            let cur = &records[order[i]];
            let mut seen = false;
            let mut j: usize = 0;
            while j < i
                invariant
                    i < n,
                    n == records@.len(),
                    order@.len() == n,
                    forall|t: int| 0 <= t < n ==> order@[t] < n,
                    *cur == records@[order@[i as int] as int],
                    j <= i,
                    seen == exists|m: int|
                        0 <= m < j && #[trigger] records@[order@[m] as int].wkn@
                            == records@[order@[i as int] as int].wkn@,
                decreases i - j,
            {
                if records[order[j]].wkn == cur.wkn {
                    seen = true;
                }
                j += 1;
            }
            if !seen {
                entries.push(cur.duplicate());
            }
            i += 1;
        }
        proof {
            lemma_one_listing_per_code(records@);
            assert(entries@ == ranked_listing(records@));
        }
        Snapshot { entries }
    }

    /// The number of instruments in the snapshot.
    pub fn len(&self) -> (r: usize)
        ensures
            r == self@.len(),
    {
        self.entries.len()
    }

    /// The instrument ranked at `i`.
    pub fn entry(&self, i: usize) -> (r: &Instrument)
        requires
            i < self@.len(),
        ensures
            *r == self@[i as int],
    {
        &self.entries[i]
    }

    /// The instrument with `key`, if the snapshot holds it.
    pub fn get(&self, key: u64) -> (r: Option<&Instrument>)
        ensures
            match r {
                Some(x) => lookup(self@, key) == Some(*x),
                None => lookup(self@, key) is None,
            },
    {
        let mut i: usize = 0;
        while i < self.entries.len()
            invariant
                i <= self.entries@.len(),
                find_from(self.entries@, key, 0) == find_from(self.entries@, key, i as int),
            decreases self.entries@.len() - i,
        {
            if self.entries[i].key == key {
                return Some(&self.entries[i]);
            }
            i += 1;
        }
        None
    }
}

/// Two listings that share a registration code never both survive: the
/// ranked listing holds each code once, and each entry is the record ranked
/// first among those with its code. The entries descend by relative
/// performance.
pub proof fn lemma_one_listing_per_code(recs: Seq<Instrument>)
    requires
        recs.len() <= usize::MAX,
    ensures
        forall|a: int, b: int|
            0 <= a < b < ranked_listing(recs).len() ==> order_key(
                ranked_listing(recs)[a].performance_rel.bits,
            ) >= order_key(ranked_listing(recs)[b].performance_rel.bits),
        forall|a: int, b: int|
            0 <= a < b < ranked_listing(recs).len() ==> ranked_listing(recs)[a].wkn@
                != ranked_listing(recs)[b].wkn@,
        forall|a: int|
            0 <= a < ranked_listing(recs).len() ==> exists|i: int|
                0 <= i < recs.len() && !#[trigger] wkn_seen_before(
                    recs,
                    ranked(rel_keys(recs), recs.len()),
                    i,
                ) && #[trigger] ranked_listing(recs)[a] == recs[ranked(rel_keys(recs), recs.len())[i] as int],
{
    let order = ranked(rel_keys(recs), recs.len());
    lemma_ranked_sorted(rel_keys(recs), recs.len());
    lemma_first_listings(recs, order, recs.len());
}

proof fn lemma_first_listings(recs: Seq<Instrument>, order: Seq<usize>, n: nat)
    requires
        n <= order.len(),
        forall|t: int| 0 <= t < order.len() ==> order[t] < recs.len(),
        forall|a: int, b: int|
            0 <= a < b < order.len() ==> order_key(recs[order[a] as int].performance_rel.bits)
                >= order_key(recs[order[b] as int].performance_rel.bits),
    ensures
        forall|a: int, b: int|
            0 <= a < b < first_listings(recs, order, n).len() ==> order_key(
                first_listings(recs, order, n)[a].performance_rel.bits,
            ) >= order_key(first_listings(recs, order, n)[b].performance_rel.bits),
        forall|a: int, b: int|
            0 <= a < b < first_listings(recs, order, n).len() ==> first_listings(
                recs,
                order,
                n,
            )[a].wkn@ != first_listings(recs, order, n)[b].wkn@,
        forall|a: int|
            0 <= a < first_listings(recs, order, n).len() ==> exists|i: int|
                0 <= i < n && !#[trigger] wkn_seen_before(recs, order, i) && #[trigger] first_listings(
                    recs,
                    order,
                    n,
                )[a] == recs[order[i] as int],
    decreases n,
{
    if n > 0 {
        lemma_first_listings(recs, order, (n - 1) as nat);
        let prev = first_listings(recs, order, (n - 1) as nat);
        let cur = first_listings(recs, order, n);
        if !wkn_seen_before(recs, order, n - 1) {
            assert forall|a: int| 0 <= a < prev.len() implies prev[a].wkn@ != recs[order[n
                - 1] as int].wkn@ by {
                let i = choose|i: int|
                    0 <= i < n - 1 && !wkn_seen_before(recs, order, i) && prev[a] == recs[order[
                        i
                    ] as int];
                if prev[a].wkn@ == recs[order[n - 1] as int].wkn@ {
                    assert(recs[order[i] as int].wkn@ == recs[order[n - 1] as int].wkn@);
                }
            }
            assert forall|a: int| 0 <= a < prev.len() implies order_key(
                prev[a].performance_rel.bits,
            ) >= order_key(recs[order[n - 1] as int].performance_rel.bits) by {
                let i = choose|i: int|
                    0 <= i < n - 1 && !wkn_seen_before(recs, order, i) && prev[a] == recs[order[
                        i
                    ] as int];
            }
            assert forall|a: int, b: int| 0 <= a < b < cur.len() implies order_key(
                cur[a].performance_rel.bits,
            ) >= order_key(cur[b].performance_rel.bits) by {
                assert(cur[a] == prev[a]);
                if b < prev.len() {
                    assert(cur[b] == prev[b]);
                }
            }
            assert forall|a: int| 0 <= a < cur.len() implies exists|i: int|
                0 <= i < n && !#[trigger] wkn_seen_before(recs, order, i) && #[trigger] cur[a]
                    == recs[order[i] as int] by {
                if a == prev.len() {
                    assert(cur[a] == recs[order[n - 1] as int]);
                } else {
                    assert(cur[a] == prev[a]);
                }
            }
        }
    }
}

} // verus!
