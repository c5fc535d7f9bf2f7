use vstd::prelude::*;

verus! {

/// What the buffer holds after `x` is appended to `items` and, if that
/// overflows `capacity`, the oldest entry is dropped.
pub open spec fn after_push<T>(items: Seq<T>, capacity: nat, x: T) -> Seq<T> {
    if items.len() + 1 > capacity {
        items.push(x).drop_first()
    } else {
        items.push(x)
    }
}

/// The entry that a push of one more item makes fall out of the window.
pub open spec fn evicted_by_push<T>(items: Seq<T>, capacity: nat) -> Option<T> {
    if items.len() + 1 > capacity && items.len() > 0 {
        Some(items[0])
    } else {
        None
    }
}

/// The entry `offset` pushes older than the newest one (offset 0 is the newest).
pub open spec fn entry_at_offset<T>(items: Seq<T>, offset: int) -> Option<T> {
    if 0 <= offset < items.len() {
        Some(items[items.len() - 1 - offset])
    } else {
        None
    }
}

/// The contents of a buffer of `capacity` that started empty and received
/// `pushes` in order.
pub open spec fn history_of<T>(capacity: nat, pushes: Seq<T>) -> Seq<T>
    decreases pushes.len(),
{
    if pushes.len() == 0 {
        Seq::empty()
    } else {
        after_push(history_of(capacity, pushes.drop_last()), capacity, pushes.last())
    }
}

/// A bounded, ordered store of snapshots, oldest first.
///
/// Pushing beyond the capacity evicts the oldest entry; entries are looked
/// up by their distance from the newest one.
pub struct HistoryBuffer<T> {
    items: Vec<T>,
    capacity: usize,
}

impl<T> View for HistoryBuffer<T> {
    type V = Seq<T>;

    closed spec fn view(&self) -> Seq<T> {
        self.items@
    }
}

impl<T> HistoryBuffer<T> {
    pub closed spec fn spec_capacity(&self) -> nat {
        self.capacity as nat
    }

    /// The buffer never holds more entries than its capacity, which is positive.
    pub open spec fn wf(&self) -> bool {
        &&& self.spec_capacity() >= 1
        &&& self@.len() <= self.spec_capacity()
    }

    /// An empty buffer that keeps at most `capacity` entries.
    pub fn new(capacity: usize) -> (r: Self)
        requires
            capacity >= 1,
        ensures
            r.wf(),
            r@ == Seq::<T>::empty(),
            r.spec_capacity() == capacity,
    {
        HistoryBuffer { items: Vec::new(), capacity }
    }

    pub fn capacity(&self) -> (r: usize)
        ensures
            r == self.spec_capacity(),
    {
        self.capacity
    }

    pub fn len(&self) -> (r: usize)
        ensures
            r == self@.len(),
    {
        self.items.len()
    }

    pub fn is_empty(&self) -> (r: bool)
        ensures
            r == (self@.len() == 0),
    {
        self.items.len() == 0
    }

    /// Appends `snapshot` as the newest entry. When that takes the buffer
    /// over its capacity, the oldest entry is removed and returned.
    pub fn push(&mut self, snapshot: T) -> (evicted: Option<T>)
        requires
            old(self).wf(),
        ensures
            final(self).wf(),
            final(self).spec_capacity() == old(self).spec_capacity(),
            final(self)@ == after_push(old(self)@, old(self).spec_capacity(), snapshot),
            evicted == evicted_by_push(old(self)@, old(self).spec_capacity()),
    {
        self.items.push(snapshot);
        if self.items.len() > self.capacity {
            let oldest = self.items.remove(0);
            assert(self.items@ =~= old(self)@.push(snapshot).drop_first());
            Some(oldest)
        } else {
            None
        }
    }

    /// The entry `offset` pushes older than the newest one, if the buffer
    /// still holds it. Offset 0 is the entry pushed last.
    pub fn lookback(&self, offset: usize) -> (r: Option<&T>)
        ensures
            match r {
                Some(x) => entry_at_offset(self@, offset as int) == Some(*x),
                None => entry_at_offset(self@, offset as int) is None,
            },
    {
        let n = self.items.len();
        if offset < n {
            Some(&self.items[n - 1 - offset])
        } else {
            None
        }
    }
}

/// After `n` pushes into an empty buffer of capacity `c`, it holds
/// `min(n, c)` entries, never more than `c`, and they are the last pushes
/// in order.
pub proof fn lemma_bounded_growth<T>(capacity: nat, pushes: Seq<T>)
    requires
        capacity >= 1,
    ensures
        history_of(capacity, pushes).len() <= capacity,
        history_of(capacity, pushes).len() == if pushes.len() <= capacity {
            pushes.len()
        } else {
            capacity
        },
        history_of(capacity, pushes) == pushes.subrange(
            pushes.len() - history_of(capacity, pushes).len(),
            pushes.len() as int,
        ),
    decreases pushes.len(),
{
    if pushes.len() > 0 {
        let prev = pushes.drop_last();
        lemma_bounded_growth(capacity, prev);
        let h = history_of(capacity, prev);
        if h.len() + 1 > capacity {
            assert(history_of(capacity, pushes) =~= pushes.subrange(
                pushes.len() - capacity,
                pushes.len() as int,
            ));
        } else {
            assert(history_of(capacity, pushes) =~= pushes.subrange(
                pushes.len() - (h.len() + 1),
                pushes.len() as int,
            ));
        }
    } else {
        assert(history_of(capacity, pushes) =~= pushes.subrange(0, 0));
    }
}

/// After pushing `s1 .. sn` with `n` at most the capacity, offset `k` finds
/// `s(n-k)` for every `k < n`, and nothing for `k >= n`.
pub proof fn lemma_offsets<T>(capacity: nat, pushes: Seq<T>, k: int)
    requires
        capacity >= 1,
        pushes.len() <= capacity,
        k >= 0,
    ensures
        k < pushes.len() ==> entry_at_offset(history_of(capacity, pushes), k) == Some(
            pushes[pushes.len() - 1 - k],
        ),
        k >= pushes.len() ==> entry_at_offset(history_of(capacity, pushes), k) is None,
{
    lemma_bounded_growth(capacity, pushes);
    assert(history_of(capacity, pushes) =~= pushes);
}

/// What a push evicts is exactly the entry found at offset `capacity - 1`
/// just before that push.
pub proof fn lemma_eviction_identity<T>(capacity: nat, items: Seq<T>)
    requires
        capacity >= 1,
        items.len() <= capacity,
    ensures
        evicted_by_push(items, capacity) is Some ==> evicted_by_push(items, capacity)
            == entry_at_offset(items, capacity - 1),
{
}

} // verus!
