//! Preallocated ring buffer that overwrites its oldest entry when full.
//!
//! The storage is a `Vec<Option<T>>` sized once at construction; `push` only
//! moves an element into an existing slot and advances the write cursor, so no
//! allocation happens after `new`. When the buffer is full the oldest element
//! is evicted ("keep only the latest N frames").
use vstd::prelude::*;

verus! {

/// Ring buffer errors.
#[derive(Debug, Clone, Copy, PartialEq, Eq, Structural)]
pub enum RingError {
    /// The buffer is empty.
    Empty,
    /// The requested capacity is invalid (zero).
    InvalidCapacity,
}

/// One push on the stored sequence of a ring of capacity `cap`: append,
/// dropping the oldest element when the ring is full.
pub open spec fn push_model<T>(s: Seq<T>, cap: nat, x: T) -> Seq<T> {
    if s.len() < cap {
        s.push(x)
    } else {
        s.drop_first().push(x)
    }
}

/// The stored sequence after pushing `xs`, in order, onto `s`.
pub open spec fn pushes_model<T>(s: Seq<T>, cap: nat, xs: Seq<T>) -> Seq<T>
    decreases xs.len(),
{
    if xs.len() == 0 {
        s
    } else {
        push_model(pushes_model(s, cap, xs.drop_last()), cap, xs.last())
    }
}

/// Preallocated ring buffer (single-threaded view).
pub struct FixedRingBuffer<T> {
    buf: Vec<Option<T>>,
    cap: usize,
    /// Write cursor (next slot to write).
    head: usize,
    /// Number of stored elements.
    len: usize,
}

impl<T> FixedRingBuffer<T> {
    /// Physical slot of the oldest element.
    closed spec fn start(&self) -> int {
        if self.head >= self.len {
            self.head - self.len
        } else {
            self.head + self.cap - self.len
        }
    }

    /// Physical slot of the `k`-th oldest position (for `0 <= k < cap`).
    closed spec fn phys(&self, k: int) -> int {
        let s = self.start() + k;
        if s < self.cap {
            s
        } else {
            s - self.cap
        }
    }

    /// Well-formedness: exactly the first `len` logical positions are occupied.
    pub closed spec fn wf(&self) -> bool {
        &&& self.cap > 0
        &&& self.buf@.len() == self.cap
        &&& self.head < self.cap
        &&& self.len <= self.cap
        &&& forall|k: int|
            0 <= k < self.cap ==> (#[trigger] self.buf@[self.phys(k)] is Some <==> k < self.len)
    }

    /// The stored elements, oldest first.
    pub closed spec fn view(&self) -> Seq<T> {
        Seq::new(self.len as nat, |k: int| self.buf@[self.phys(k)]->Some_0)
    }

    /// The fixed capacity chosen at construction.
    pub closed spec fn spec_capacity(&self) -> nat {
        self.cap as nat
    }

    /// Creates a ring buffer of capacity `cap`; `cap` must be positive.
    pub fn new(cap: usize) -> (r: Result<Self, RingError>)
        ensures
            cap == 0 <==> r is Err,
            r matches Err(e) ==> e == RingError::InvalidCapacity,
            r matches Ok(b) ==> b.wf() && b.view() == Seq::<T>::empty() && b.spec_capacity()
                == cap,
    {
        if cap == 0 {
            return Err(RingError::InvalidCapacity);
        }
        let mut buf: Vec<Option<T>> = Vec::new();
        let mut i: usize = 0;
        while i < cap
            invariant
                i <= cap,
                buf@.len() == i,
                forall|j: int| 0 <= j < i ==> #[trigger] buf@[j] is None,
            decreases cap - i,
        {
            buf.push(None);
            i = i + 1;
        }
        let r = FixedRingBuffer { buf, cap, head: 0, len: 0 };
        assert(r.view() =~= Seq::<T>::empty());
        Ok(r)
    }

    /// Writes one element. When full, the oldest element is overwritten and returned.
    pub fn push(&mut self, item: T) -> (evicted: Option<T>)
        requires
            old(self).wf(),
        ensures
            final(self).wf(),
            final(self).spec_capacity() == old(self).spec_capacity(),
            final(self).view() == push_model(old(self).view(), old(self).spec_capacity(), item),
            old(self).view().len() < old(self).spec_capacity() ==> {
                &&& evicted is None
                &&& final(self).view() == old(self).view().push(item)
            },
            old(self).view().len() == old(self).spec_capacity() ==> {
                &&& evicted == Some(old(self).view()[0])
                &&& final(self).view() == old(self).view().drop_first().push(item)
            },
    {
        let ghost old_view = self.view();
        let ghost old_self = *self;
        let h = self.head;
        assert(self.phys(self.len as int) == h || self.len == self.cap);
        let evicted = self.buf[h].take();
        self.buf.set(h, Some(item));
        self.head = if h + 1 == self.cap {
            0
        } else {
            h + 1
        };
        if self.len < self.cap {
            self.len = self.len + 1;
            proof {
                assert forall|k: int| 0 <= k < self.cap implies self.phys(k) == old_self.phys(k) by {}
                assert forall|k: int| 0 <= k < self.cap implies (#[trigger] self.buf@[self.phys(
                    k,
                )] is Some <==> k < self.len) by {
                    assert(old_self.phys(k) == h <==> k == old_self.len);
                }
                assert(self.view() =~= old_view.push(item)) by {
                    assert forall|k: int| 0 <= k < old_self.len implies self.view()[k]
                        == old_view[k] by {
                        assert(old_self.phys(k) != h);
                    }
                }
            }
        } else {
            proof {
                assert(old_self.phys(0) == h);
                assert forall|k: int| 0 <= k < self.cap implies self.phys(k) == (if k + 1
                    < self.cap {
                    old_self.phys(k + 1)
                } else {
                    h as int
                }) by {}
                assert forall|k: int| 0 <= k < self.cap implies (#[trigger] self.buf@[self.phys(
                    k,
                )] is Some <==> k < self.len) by {
                    if k + 1 < self.cap {
                        assert(old_self.phys(k + 1) != h);
                    }
                }
                assert(self.view() =~= old_view.drop_first().push(item)) by {
                    assert forall|k: int| 0 <= k < self.len - 1 implies self.view()[k]
                        == old_view[k + 1] by {
                        assert(old_self.phys(k + 1) != h);
                    }
                }
            }
        }
        evicted
    }

    /// Physical slot of the oldest element, computed without overflow.
    fn oldest_slot(&self) -> (idx: usize)
        requires
            self.wf(),
        ensures
            idx == self.start(),
            idx < self.cap,
    {
        if self.head >= self.len {
            self.head - self.len
        } else {
            self.head + (self.cap - self.len)
        }
    }

    /// Removes and returns the oldest element (FIFO order).
    pub fn pop_oldest(&mut self) -> (r: Option<T>)
        requires
            old(self).wf(),
        ensures
            final(self).wf(),
            final(self).spec_capacity() == old(self).spec_capacity(),
            old(self).view().len() == 0 ==> r is None && final(self).view() == old(self).view(),
            old(self).view().len() > 0 ==> {
                &&& r == Some(old(self).view()[0])
                &&& final(self).view() == old(self).view().drop_first()
            },
    {
        if self.len == 0 {
            return None;
        }
        let ghost old_view = self.view();
        let ghost old_self = *self;
        let idx = self.oldest_slot();
        assert(old_self.phys(0) == idx);
        self.len = self.len - 1;
        let r = self.buf[idx].take();
        proof {
            assert forall|k: int| 0 <= k < self.cap implies self.phys(k) == (if k + 1 < self.cap {
                old_self.phys(k + 1)
            } else {
                idx as int
            }) by {}
            assert forall|k: int| 0 <= k < self.cap implies (#[trigger] self.buf@[self.phys(
                k,
            )] is Some <==> k < self.len) by {
                if k + 1 < self.cap {
                    assert(old_self.phys(k + 1) != idx);
                }
            }
            assert(self.view() =~= old_view.drop_first()) by {
                assert forall|k: int| 0 <= k < self.len implies self.view()[k] == old_view[k
                    + 1] by {
                    assert(old_self.phys(k + 1) != idx);
                }
            }
        }
        r
    }

    /// Reads the `i`-th oldest element (`i < len`).
    pub fn get(&self, i: usize) -> (r: Option<&T>)
        requires
            self.wf(),
        ensures
            i < self.view().len() ==> r == Some(&self.view()[i as int]),
            i >= self.view().len() ==> r is None,
    {
        if i >= self.len {
            return None;
        }
        let s = self.oldest_slot();
        let idx = if i < self.cap - s {
            s + i
        } else {
            i - (self.cap - s)
        };
        assert(idx == self.phys(i as int));
        self.buf[idx].as_ref()
    }

    /// The stored elements, oldest first.
    pub fn iter(&self) -> (r: std::vec::IntoIter<&T>)
        requires
            self.wf(),
        ensures
            vstd::std_specs::iter::IteratorSpec::remaining(&r).len() == self.view().len(),
            forall|k: int| 0 <= k < self.view().len() ==> *vstd::std_specs::iter::IteratorSpec::remaining(&r)[k] == self.view()[k],
    {
        let mut items: Vec<&T> = Vec::new();
        let mut i: usize = 0;
        while i < self.len
            invariant
                self.wf(),
                i <= self.len,
                items@.len() == i,
                forall|k: int| 0 <= k < i ==> *items@[k] == self.view()[k],
            decreases self.len - i,
        {
            match self.get(i) {
                Some(x) => items.push(x),
                None => {},
            }
            i = i + 1;
        }
        items.into_iter()
    }

    /// Number of stored elements.
    pub fn len(&self) -> (n: usize)
        requires
            self.wf(),
        ensures
            n == self.view().len(),
    {
        self.len
    }

    /// Whether the buffer holds no element.
    pub fn is_empty(&self) -> (b: bool)
        requires
            self.wf(),
        ensures
            b == (self.view().len() == 0),
    {
        self.len == 0
    }

    /// Whether the buffer is at capacity.
    pub fn is_full(&self) -> (b: bool)
        requires
            self.wf(),
        ensures
            b == (self.view().len() == self.spec_capacity()),
    {
        self.len == self.cap
    }

    /// The capacity.
    pub fn capacity(&self) -> (c: usize)
        ensures
            c == self.spec_capacity(),
    {
        self.cap
    }

    /// Removes every element.
    pub fn clear(&mut self)
        requires
            old(self).wf(),
        ensures
            final(self).wf(),
            final(self).spec_capacity() == old(self).spec_capacity(),
            final(self).view() == Seq::<T>::empty(),
    {
        let mut i: usize = 0;
        let n = self.buf.len();
        while i < n
            invariant
                n == self.buf@.len(),
                n == self.cap,
                self.cap == old(self).cap,
                self.cap > 0,
                i <= n,
                forall|j: int| 0 <= j < i ==> #[trigger] self.buf@[j] is None,
            decreases n - i,
        {
            self.buf.set(i, None);
            i = i + 1;
        }
        self.head = 0;
        self.len = 0;
        assert(self.view() =~= Seq::<T>::empty());
    }
}


/// A ring never holds more elements than its capacity.
pub proof fn law_len_within_capacity<T>(b: FixedRingBuffer<T>)
    requires
        b.wf(),
    ensures
        b.view().len() <= b.spec_capacity(),
        b.spec_capacity() > 0,
{
}

/// Pushing `xs` onto an empty ring of capacity `cap` leaves exactly the last
/// `cap` of them (all of them when there are fewer), oldest first: FIFO order
/// with the oldest overwritten.
pub proof fn law_pushes_keep_newest<T>(cap: nat, xs: Seq<T>)
    requires
        cap > 0,
    ensures
        pushes_model(Seq::<T>::empty(), cap, xs) == xs.subrange(
            if xs.len() > cap {
                xs.len() - cap
            } else {
                0
            },
            xs.len() as int,
        ),
    decreases xs.len(),
{
    if xs.len() > 0 {
        let ys = xs.drop_last();
        law_pushes_keep_newest(cap, ys);
        let lo = if ys.len() > cap {
            ys.len() - cap
        } else {
            0
        };
        let prev = ys.subrange(lo, ys.len() as int);
        if prev.len() < cap {
            assert(prev.push(xs.last()) =~= xs.subrange(lo, xs.len() as int));
        } else {
            assert(prev.drop_first().push(xs.last()) =~= xs.subrange(xs.len() - cap, xs.len() as int));
        }
    } else {
        assert(xs.subrange(0, 0) =~= Seq::<T>::empty());
    }
}

/// A ring that has taken the pushes `xs` since it was created or cleared holds
/// `min(xs.len(), capacity)` elements, and is full exactly when at least
/// `capacity` elements were pushed.
pub proof fn law_full_after_pushes<T>(b: FixedRingBuffer<T>, xs: Seq<T>)
    requires
        b.wf(),
        b.view() == pushes_model(Seq::<T>::empty(), b.spec_capacity(), xs),
    ensures
        b.view().len() == (if xs.len() < b.spec_capacity() {
            xs.len()
        } else {
            b.spec_capacity()
        }),
        (b.view().len() == b.spec_capacity()) <==> xs.len() >= b.spec_capacity(),
{
    law_len_within_capacity(b);
    law_pushes_keep_newest(b.spec_capacity(), xs);
}

} // verus!

verus! {

/// The lock predicate of a shared ring: a well-formed buffer of capacity `cap`.
pub open spec fn ring_pred<T>(cap: nat) -> spec_fn(FixedRingBuffer<T>) -> bool {
    |b: FixedRingBuffer<T>| b.wf() && b.spec_capacity() == cap
}

/// Thread-safe shared ring buffer: the buffer lives behind a lock so several
/// loops or threads can share it through `&self`.
#[verifier::reject_recursive_types(T)]
pub struct SharedRing<T> {
    inner: vstd::rwlock::RwLock<FixedRingBuffer<T>, spec_fn(FixedRingBuffer<T>) -> bool>,
    cap: usize,
}

impl<T> SharedRing<T> {
    /// Well-formedness: the lock guards a well-formed buffer of capacity `cap`.
    pub closed spec fn wf(&self) -> bool {
        self.inner.pred() == ring_pred::<T>(self.cap as nat)
    }

    /// The capacity fixed at construction.
    pub closed spec fn spec_capacity(&self) -> nat {
        self.cap as nat
    }

    /// Whether `b` is a state the shared ring can be in: a well-formed buffer
    /// of the ring's capacity. The calls below are stated over some such state;
    /// which one the lock held is not stated (other threads may change it
    /// between two calls).
    pub open spec fn is_state(&self, b: FixedRingBuffer<T>) -> bool {
        b.wf() && b.spec_capacity() == self.spec_capacity()
    }

    /// Creates a shared ring of capacity `cap`; `cap` must be positive.
    pub fn new(cap: usize) -> (r: Result<Self, RingError>)
        ensures
            cap == 0 <==> r is Err,
            r matches Err(e) ==> e == RingError::InvalidCapacity,
            r matches Ok(s) ==> s.wf() && s.spec_capacity() == cap,
    {
        let b = FixedRingBuffer::new(cap)?;
        let inner = vstd::rwlock::RwLock::new(b, Ghost(ring_pred::<T>(cap as nat)));
        Ok(SharedRing { inner, cap })
    }

    /// Writes one element; returns the overwritten oldest element when the ring
    /// was full. Stated: for some possible state before and after, the push
    /// took the one to the other.
    pub fn push(&self, item: T) -> (evicted: Option<T>)
        requires
            self.wf(),
        ensures
            exists|before: FixedRingBuffer<T>, after: FixedRingBuffer<T>|
                #![trigger self.is_state(before), self.is_state(after)]
                {
                    &&& self.is_state(before)
                    &&& self.is_state(after)
                    &&& after.view() == push_model(before.view(), self.spec_capacity(), item)
                    &&& before.view().len() < self.spec_capacity() ==> evicted is None
                    &&& before.view().len() == self.spec_capacity() ==> evicted == Some(
                        before.view()[0],
                    )
                },
    {
        let (mut b, handle) = self.inner.acquire_write();
        let ghost before = b;
        let evicted = b.push(item);
        proof {
            assert(self.is_state(before) && self.is_state(b));
        }
        handle.release_write(b);
        evicted
    }

    /// Removes and returns the oldest element. Stated: for some possible state
    /// before and after, the removal took the one to the other.
    pub fn pop_oldest(&self) -> (r: Option<T>)
        requires
            self.wf(),
        ensures
            exists|before: FixedRingBuffer<T>, after: FixedRingBuffer<T>|
                #![trigger self.is_state(before), self.is_state(after)]
                {
                    &&& self.is_state(before)
                    &&& self.is_state(after)
                    &&& before.view().len() == 0 ==> r is None && after.view() == before.view()
                    &&& before.view().len() > 0 ==> r == Some(before.view()[0]) && after.view()
                        == before.view().drop_first()
                },
    {
        let (mut b, handle) = self.inner.acquire_write();
        let ghost before = b;
        let r = b.pop_oldest();
        proof {
            assert(self.is_state(before) && self.is_state(b));
        }
        handle.release_write(b);
        r
    }

    /// Number of stored elements: stated as the length of some possible state.
    pub fn len(&self) -> (n: usize)
        requires
            self.wf(),
        ensures
            n <= self.spec_capacity(),
            exists|b: FixedRingBuffer<T>| #[trigger] self.is_state(b) && n == b.view().len(),
    {
        let handle = self.inner.acquire_read();
        let n = handle.borrow().len();
        proof {
            assert(self.is_state(handle.view()));
        }
        handle.release_read();
        n
    }

    /// Whether the ring holds no element: stated over some possible state.
    pub fn is_empty(&self) -> (e: bool)
        requires
            self.wf(),
        ensures
            exists|b: FixedRingBuffer<T>| #[trigger] self.is_state(b) && e == (b.view().len() == 0),
    {
        self.len() == 0
    }

    /// The capacity.
    pub fn capacity(&self) -> (c: usize)
        requires
            self.wf(),
        ensures
            c == self.spec_capacity(),
    {
        let handle = self.inner.acquire_read();
        let c = handle.borrow().capacity();
        handle.release_read();
        c
    }

    /// Whether the ring is full: stated over some possible state.
    pub fn is_full(&self) -> (f: bool)
        requires
            self.wf(),
        ensures
            exists|b: FixedRingBuffer<T>|
                #[trigger] self.is_state(b) && f == (b.view().len() == self.spec_capacity()),
    {
        let handle = self.inner.acquire_read();
        let f = handle.borrow().is_full();
        proof {
            assert(self.is_state(handle.view()));
        }
        handle.release_read();
        f
    }
    /// A clone of the `i`-th oldest element: stated over some possible state.
    pub fn get(&self, i: usize) -> (r: Option<T>) where T: Clone
        requires
            self.wf(),
        ensures
            i >= self.spec_capacity() ==> r is None,
            exists|b: FixedRingBuffer<T>|
                #[trigger] self.is_state(b) && (i < b.view().len() ==> (r matches Some(x)
                    && cloned(b.view()[i as int], x))) && (i >= b.view().len() ==> r is None),
    {
        let handle = self.inner.acquire_read();
        let r = match handle.borrow().get(i) {
            Some(x) => Some(x.clone()),
            None => None,
        };
        proof {
            assert(self.is_state(handle.view()));
        }
        handle.release_read();
        r
    }

    /// Clones of the stored elements, oldest first: stated over some possible
    /// state.
    pub fn iter(&self) -> (r: Vec<T>) where T: Clone
        requires
            self.wf(),
        ensures
            r@.len() <= self.spec_capacity(),
            exists|b: FixedRingBuffer<T>|
                #[trigger] self.is_state(b) && r@.len() == b.view().len() && forall|k: int|
                    0 <= k < r@.len() ==> cloned(b.view()[k], #[trigger] r@[k]),
    {
        let handle = self.inner.acquire_read();
        let b = handle.borrow();
        let n = b.len();
        let mut out: Vec<T> = Vec::new();
        let mut i: usize = 0;
        while i < n
            invariant
                b.wf(),
                n == b.view().len(),
                n <= self.spec_capacity(),
                i <= n,
                out@.len() == i,
                forall|k: int| 0 <= k < i ==> cloned(b.view()[k], #[trigger] out@[k]),
            decreases n - i,
        {
            match b.get(i) {
                Some(x) => out.push(x.clone()),
                None => {},
            }
            i = i + 1;
        }
        proof {
            assert(self.is_state(*b));
        }
        handle.release_read();
        out
    }
}

} // verus!
