//! Bounded windowing of a stream by a signed count: a non-negative count
//! selects the first `count` elements, a negative count selects everything
//! but the last `|count|`. The negative case is computed with a
//! fixed-capacity ring buffer that emits each evicted element in arrival
//! order, so the complement of the suffix streams out without holding the
//! whole input.
use vstd::prelude::*;

verus! {

/// The elements a window with signed count `n` selects from `s`: the first
/// `n` (all of `s` when it is shorter) when `n >= 0`, and all but the last
/// `|n|` (nothing when `s` is shorter than `|n|`) when `n < 0`.
pub open spec fn window<A>(s: Seq<A>, n: int) -> Seq<A> {
    if n >= 0 {
        if n <= s.len() {
            s.take(n)
        } else {
            s
        }
    } else {
        if s.len() + n >= 0 {
            s.take(s.len() + n)
        } else {
            Seq::empty()
        }
    }
}

/// A non-negative count selects `min(n, len)` elements: the prefix of the
/// stream, in original order, each element unchanged.
pub proof fn lemma_window_nonnegative<A>(s: Seq<A>, n: int)
    requires
        n >= 0,
    ensures
        window(s, n).len() == if n <= s.len() {
            n
        } else {
            s.len() as int
        },
        forall|i: int| 0 <= i < window(s, n).len() ==> window(s, n)[i] == s[i],
{
    if n > s.len() {
        assert(window(s, n) =~= s);
    }
}

/// A negative count with `|n| <= len` selects exactly `len - |n|` elements:
/// the stream with its last `|n|` elements removed, order preserved.
pub proof fn lemma_window_negative<A>(s: Seq<A>, n: int)
    requires
        -(s.len() as int) <= n < 0,
    ensures
        window(s, n).len() == s.len() + n,
        window(s, n) == s.subrange(0, s.len() + n),
        window(s, n) + s.subrange(s.len() + n, s.len() as int) == s,
{
    assert(window(s, n) =~= s.subrange(0, s.len() + n));
    assert(window(s, n) + s.subrange(s.len() + n, s.len() as int) =~= s);
}

/// A fixed-capacity circular buffer. Once full, pushing a new element
/// evicts and returns the oldest one, so a full pass over a stream leaves
/// the stream's last `capacity` elements inside and has handed every
/// earlier element back out in arrival order.
pub struct RingBuffer<T> {
    buf: Vec<T>,
    start: usize,
    cap: usize,
}

impl<T> View for RingBuffer<T> {
    type V = Seq<T>;

    /// The buffered elements, oldest first.
    closed spec fn view(&self) -> Seq<T> {
        self.buf@.skip(self.start as int) + self.buf@.take(self.start as int)
    }
}

impl<T> RingBuffer<T> {
    /// Structural invariant: the storage never exceeds the capacity, and the
    /// oldest-element index is zero until the buffer has filled once.
    pub closed spec fn wf(&self) -> bool {
        &&& self.cap > 0
        &&& self.buf@.len() <= self.cap
        &&& (self.buf@.len() < self.cap ==> self.start == 0)
        &&& (self.buf@.len() == self.cap ==> self.start < self.cap)
    }

    /// The fixed capacity the buffer was created with.
    pub closed spec fn capacity(&self) -> nat {
        self.cap as nat
    }

    /// Creates an empty ring buffer that holds at most `cap` elements.
    pub fn new(cap: usize) -> (r: RingBuffer<T>)
        requires
            cap > 0,
        ensures
            r.wf(),
            r@ == Seq::<T>::empty(),
            r.capacity() == cap,
    {
        let r = RingBuffer { buf: Vec::new(), start: 0, cap };
        proof {
            assert(r@ =~= Seq::<T>::empty());
        }
        r
    }

    /// Appends an element; when the buffer is already full, first evicts
    /// and returns the oldest element.
    pub fn push_evict(&mut self, x: T) -> (evicted: Option<T>)
        requires
            old(self).wf(),
        ensures
            final(self).wf(),
            final(self).capacity() == old(self).capacity(),
            old(self)@.len() < old(self).capacity() ==> {
                &&& evicted is None
                &&& final(self)@ == old(self)@.push(x)
            },
            old(self)@.len() == old(self).capacity() ==> {
                &&& evicted == Some(old(self)@[0])
                &&& final(self)@ == old(self)@.drop_first().push(x)
            },
    {
        if self.buf.len() < self.cap {
            self.buf.push(x);
            proof {
                assert(self@ =~= old(self)@.push(x));
            }
            None
        } else {
            let oldest = self.buf.remove(self.start);
            self.buf.insert(self.start, x);
            proof {
                assert(self.buf@ =~= old(self).buf@.update(old(self).start as int, x));
            }
            self.start = if self.start + 1 == self.cap {
                0
            } else {
                self.start + 1
            };
            proof {
                assert(old(self)@[0] == old(self).buf@[old(self).start as int]);
                assert(self@ =~= old(self)@.drop_first().push(x));
            }
            Some(oldest)
        }
    }

    /// How many elements are currently buffered.
    pub fn len(&self) -> (n: usize)
        requires
            self.wf(),
        ensures
            n == self@.len(),
    {
        self.buf.len()
    }
}

} // verus!
