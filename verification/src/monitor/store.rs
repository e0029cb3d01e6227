//! Bounded storage for time series.
use vstd::arithmetic::div_mod::{lemma_mod_self_0, lemma_small_mod};
use vstd::prelude::*;

verus! {

/// A fixed-capacity ring buffer that overwrites the oldest entries when full.
/// Its view is the items that it holds, oldest first.
#[derive(Debug, Clone)]
pub struct RingBuffer<T> {
    data: Vec<T>,
    head: usize,
    len: usize,
    capacity: usize,
}

impl<T> View for RingBuffer<T> {
    type V = Seq<T>;

    closed spec fn view(&self) -> Seq<T> {
        if self.len < self.capacity {
            self.data@
        } else {
            self.data@.skip(self.head as int) + self.data@.take(self.head as int)
        }
    }
}

/// The last `n` items of `items`, or all of them where there are fewer.
pub open spec fn newest<T>(items: Seq<T>, n: nat) -> Seq<T> {
    if n < items.len() {
        items.skip(items.len() - n)
    } else {
        items
    }
}

impl<T> RingBuffer<T> {
    /// The buffer's internal layout is consistent.
    pub closed spec fn wf(&self) -> bool {
        &&& self.len == self.data@.len()
        &&& self.len <= self.capacity
        &&& self.len < self.capacity ==> self.head == self.len
        &&& self.len == self.capacity && self.capacity > 0 ==> self.head < self.capacity
        &&& self.capacity == 0 ==> self.head == 0
    }

    /// The number of items that the buffer holds at most.
    pub closed spec fn bound(&self) -> nat {
        self.capacity as nat
    }

    /// A buffer never holds more than its bound.
    pub proof fn lemma_bounded(&self)
        requires
            self.wf(),
        ensures
            self@.len() <= self.bound(),
    {
    }

    /// An empty buffer for at most `capacity` items.
    pub fn new(capacity: usize) -> (buffer: Self)
        ensures
            buffer.wf(),
            buffer@ == Seq::<T>::empty(),
            buffer.bound() == capacity,
    {
        let buffer = RingBuffer { data: Vec::new(), head: 0, len: 0, capacity };
        assert(buffer@ =~= Seq::<T>::empty());
        buffer
    }

    /// Adds `item` as the newest one; a full buffer gives up its oldest.
    pub fn push(&mut self, item: T)
        requires
            old(self).wf(),
            old(self).bound() > 0,
        ensures
            final(self).wf(),
            final(self).bound() == old(self).bound(),
            final(self)@ == newest(old(self)@.push(item), old(self).bound()),
            final(self)@.last() == item,
            old(self)@.len() < old(self).bound() ==> final(self)@.drop_last() == old(self)@,
            old(self)@.len() == old(self).bound() ==> final(self)@.drop_last() == old(self)@.skip(
                1,
            ),
    {
        let ghost before = self@;
        if self.len < self.capacity {
            self.data.push(item);
            self.len = self.len + 1;
            self.head = self.len % self.capacity;
            proof {
                if self.len < self.capacity {
                    lemma_small_mod(self.len as nat, self.capacity as nat);
                } else {
                    lemma_mod_self_0(self.capacity as int);
                }
            }
            assert(self@ =~= before.push(item));
        } else {
            let ghost data = self.data@;
            let ghost head = self.head as int;
            self.data.set(self.head, item);
            if self.head + 1 < self.capacity {
                self.head = self.head + 1;
                assert(self@ =~= before.push(item).skip(1));
            } else {
                self.head = 0;
                assert(self@ =~= before.push(item).skip(1));
            }
        }
    }

    /// The items in chronological order, oldest first.
    pub fn to_vec(&self) -> (items: Vec<&T>)
        requires
            self.wf(),
        ensures
            items@.len() == self@.len(),
            forall|i: int| 0 <= i < items@.len() ==> *(#[trigger] items@[i]) == self@[i],
    {
        let start: usize = if self.len < self.capacity {
            0
        } else {
            self.head
        };
        let mut items: Vec<&T> = Vec::new();
        let mut i: usize = 0;
        while i < self.len
            invariant
                self.wf(),
                i <= self.len,
                start == (if self.len < self.capacity {
                    0
                } else {
                    self.head
                }),
                items@.len() == i,
                forall|j: int| 0 <= j < i ==> *(#[trigger] items@[j]) == self@[j],
            decreases self.len - i,
        {
            // Index `start + i` modulo the capacity, without leaving the range of `usize`.
            let index: usize = if i < self.capacity - start {
                start + i
            } else {
                i - (self.capacity - start)
            };
            items.push(&self.data[index]);
            i = i + 1;
        }
        items
    }

    /// The number of items held.
    pub fn len(&self) -> (n: usize)
        requires
            self.wf(),
        ensures
            n == self@.len(),
    {
        self.len
    }

    /// Whether nothing is held.
    pub fn is_empty(&self) -> (empty: bool)
        requires
            self.wf(),
        ensures
            empty == (self@.len() == 0),
    {
        self.len == 0
    }

    /// The newest item.
    pub fn last(&self) -> (item: Option<&T>)
        requires
            self.wf(),
        ensures
            item is Some <==> self@.len() > 0,
            item matches Some(x) ==> *x == self@.last(),
    {
        if self.is_empty() {
            return None;
        }
        if self.len < self.capacity {
            Some(&self.data[self.len - 1])
        } else {
            let index: usize = if self.head == 0 {
                self.capacity - 1
            } else {
                self.head - 1
            };
            Some(&self.data[index])
        }
    }

    /// The newest `n` items in chronological order.
    pub fn recent(&self, n: usize) -> (items: Vec<&T>)
        requires
            self.wf(),
        ensures
            items@.len() == newest(self@, n as nat).len(),
            forall|i: int|
                0 <= i < items@.len() ==> *(#[trigger] items@[i]) == newest(self@, n as nat)[i],
    {
        let count: usize = if n < self.len {
            n
        } else {
            self.len
        };
        let all = self.to_vec();
        let skipped: usize = self.len - count;
        let mut items: Vec<&T> = Vec::new();
        let mut i: usize = skipped;
        while i < all.len()
            invariant
                self.wf(),
                all@.len() == self@.len(),
                forall|j: int| 0 <= j < all@.len() ==> *(#[trigger] all@[j]) == self@[j],
                skipped <= i <= all@.len(),
                items@.len() == i - skipped,
                forall|j: int| 0 <= j < items@.len() ==> *(#[trigger] items@[j]) == self@[skipped + j],
            decreases all@.len() - i,
        {
            items.push(all[i]);
            i = i + 1;
        }
        items
    }
}

/// Pushing `items` one after the other leaves the newest of everything pushed: what a
/// buffer holds is the end of its input, in order.
pub proof fn lemma_ring_keeps_newest<T>(held: Seq<T>, items: Seq<T>, bound: nat)
    requires
        bound > 0,
        held.len() <= bound,
    ensures
        items.fold_left(held, |acc: Seq<T>, x: T| newest(acc.push(x), bound)) == newest(
            held + items,
            bound,
        ),
    decreases items.len(),
{
    let f = |acc: Seq<T>, x: T| newest(acc.push(x), bound);
    if items.len() == 0 {
        assert(held + items =~= held);
    } else {
        let init = items.drop_last();
        lemma_ring_keeps_newest(held, init, bound);
        assert(items.fold_left(held, f) == f(init.fold_left(held, f), items.last()));
        assert((held + init).push(items.last()) =~= held + items);
        assert(newest(newest(held + init, bound).push(items.last()), bound) =~= newest(
            held + items,
            bound,
        ));
    }
}

} // verus!
