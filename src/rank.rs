use vstd::prelude::*;

verus! {

/// Where an entry of key `k` goes in `order` when the search starts at `j`:
/// before the first entry whose key is smaller, else at the end.
pub open spec fn insert_pos(keys: Seq<i64>, order: Seq<usize>, k: i64, j: int) -> int
    decreases order.len() - j,
{
    if j >= order.len() {
        order.len() as int
    } else if keys[order[j] as int] < k {
        j
    } else {
        insert_pos(keys, order, k, j + 1)
    }
}

/// The indices `0 .. n` ordered by descending key; entries with equal keys
/// keep their order in `keys`.
pub open spec fn ranked(keys: Seq<i64>, n: nat) -> Seq<usize>
    decreases n,
{
    if n == 0 {
        Seq::empty()
    } else {
        let prev = ranked(keys, (n - 1) as nat);
        prev.insert(insert_pos(keys, prev, keys[n - 1], 0), (n - 1) as usize)
    }
}

proof fn lemma_insert_pos_bounds(keys: Seq<i64>, order: Seq<usize>, k: i64, j: int)
    requires
        0 <= j <= order.len(),
    ensures
        j <= insert_pos(keys, order, k, j) <= order.len(),
        forall|t: int|
            j <= t < insert_pos(keys, order, k, j) ==> keys[order[t] as int] >= k,
        insert_pos(keys, order, k, j) < order.len() ==> keys[order[insert_pos(
            keys,
            order,
            k,
            j,
        )] as int] < k,
    decreases order.len() - j,
{
    if j < order.len() && keys[order[j] as int] >= k {
        lemma_insert_pos_bounds(keys, order, k, j + 1);
    }
}

/// Every index of `ranked(keys, n)` is below `n`, each appears once, and
/// the keys they point to never increase along the sequence.
pub proof fn lemma_ranked_sorted(keys: Seq<i64>, n: nat)
    requires
        n <= keys.len(),
        n <= usize::MAX,
    ensures
        ranked(keys, n).len() == n,
        forall|t: int| 0 <= t < n ==> ranked(keys, n)[t] < n,
        forall|a: int, b: int|
            0 <= a < b < n ==> ranked(keys, n)[a] != ranked(keys, n)[b],
        forall|a: int, b: int|
            0 <= a < b < n ==> keys[ranked(keys, n)[a] as int] >= keys[ranked(
                keys,
                n,
            )[b] as int],
    decreases n,
{
    if n > 0 {
        let prev = ranked(keys, (n - 1) as nat);
        lemma_ranked_sorted(keys, (n - 1) as nat);
        let k = keys[n - 1];
        lemma_insert_pos_bounds(keys, prev, k, 0);
        let p = insert_pos(keys, prev, k, 0);
        let r = ranked(keys, n);
        let last = (n - 1) as usize;
        assert(r == prev.insert(p, last));
        assert forall|t: int| 0 <= t < n implies (t < p ==> r[t] == prev[t]) && (t == p ==> r[t]
            == last) && (t > p ==> r[t] == prev[t - 1]) by {}
        assert forall|a: int, b: int| 0 <= a < b < n implies r[a] != r[b] by {}
        assert forall|a: int, b: int| 0 <= a < b < n implies keys[r[a] as int] >= keys[r[
            b
        ] as int] by {
            if a < p && b > p {
                assert(keys[prev[p] as int] < k);
                assert(b - 1 == p || keys[prev[p] as int] >= keys[prev[b - 1] as int]);
            } else if a == p {
                assert(keys[prev[p] as int] < k);
                assert(b - 1 == p || keys[prev[p] as int] >= keys[prev[b - 1] as int]);
            }
        }
    }
}

/// The indices of `keys` ordered by descending key, equal keys in the
/// order they have in `keys`.
pub fn rank_descending(keys: &Vec<i64>) -> (r: Vec<usize>)
    ensures
        r@ == ranked(keys@, keys@.len()),
        r@.len() == keys@.len(),
        forall|t: int| 0 <= t < r@.len() ==> r@[t] < keys@.len(),
        forall|a: int, b: int| 0 <= a < b < r@.len() ==> r@[a] != r@[b],
        forall|a: int, b: int|
            0 <= a < b < r@.len() ==> keys@[r@[a] as int] >= keys@[r@[b] as int],
{
    let mut order: Vec<usize> = Vec::new();
    let mut i: usize = 0;
    while i < keys.len()
        invariant
            i <= keys.len(),
            order@ == ranked(keys@, i as nat),
        decreases keys.len() - i,
    {
        proof {
            lemma_ranked_sorted(keys@, i as nat);
        }
        let k = keys[i];
        let mut j: usize = 0;
        while j < order.len() && keys[order[j]] >= k
            invariant
                i < keys.len(),
                order@.len() == i,
                forall|t: int| 0 <= t < order@.len() ==> order@[t] < i,
                j <= order.len(),
                insert_pos(keys@, order@, k, 0) == insert_pos(keys@, order@, k, j as int),
            decreases order.len() - j,
        {
            j += 1;
        }
        order.insert(j, i);
        i += 1;
    }
    proof {
        lemma_ranked_sorted(keys@, keys@.len());
    }
    order
}

} // verus!
