//! A fixed-capacity rolling window of samples: pushing past capacity drops
//! the oldest sample, like a ring buffer.

use std::collections::VecDeque;
use std::collections::vec_deque::Iter;
use vstd::prelude::*;
use vstd::std_specs::iter::IteratorSpec;

verus! {

broadcast use vstd::std_specs::vecdeque::group_vec_dequeue_axioms;

/// Fixed-capacity rolling window of samples. Pushing past capacity drops the
/// oldest sample.
pub struct History<T> {
    buf: VecDeque<T>,
    cap: usize,
}

/// What a window of capacity `cap` becomes when `value` is pushed: the last
/// `cap` samples of the window followed by `value`. A full window drops its
/// oldest sample; a window of capacity zero stays empty.
pub open spec fn pushed<T>(window: Seq<T>, cap: nat, value: T) -> Seq<T> {
    let w = window.push(value);
    if w.len() > cap {
        w.subrange(w.len() - cap, w.len() as int)
    } else {
        w
    }
}

impl<T> View for History<T> {
    type V = Seq<T>;

    /// The samples held, oldest first.
    closed spec fn view(&self) -> Seq<T> {
        self.buf@
    }
}

impl<T> History<T> {
    /// The window never holds more samples than its capacity.
    #[verifier::type_invariant]
    spec fn within_capacity(self) -> bool {
        self.buf@.len() <= self.cap
    }
}

impl<T: Copy + Default> History<T> {
    /// The capacity the history was made with.
    pub closed spec fn capacity(&self) -> nat {
        self.cap as nat
    }

    /// A history pre-filled with `cap` default values (zeros for numbers), so
    /// charts have a full window from the first frame.
    pub fn new(cap: usize) -> (h: Self)
        ensures
            h.capacity() == cap,
            h@.len() == cap,
            forall|i: int| 0 <= i < cap ==> #[trigger] h@[i] == h@[0],
            cap > 0 ==> call_ensures(T::default, (), h@[0]),
    {
        let zero = T::default();
        let mut buf: VecDeque<T> = VecDeque::with_capacity(cap);
        let mut i: usize = 0;
        while i < cap
            invariant
                i <= cap,
                buf@.len() == i,
                call_ensures(T::default, (), zero),
                forall|k: int| 0 <= k < i ==> #[trigger] buf@[k] == zero,
            decreases cap - i,
        {
            buf.push_back(zero);
            i += 1;
        }
        History { buf, cap }
    }

    /// Adds a sample, dropping the oldest one when the window is full.
    pub fn push(&mut self, value: T)
        ensures
            final(self).capacity() == old(self).capacity(),
            final(self)@ == pushed(old(self)@, old(self).capacity(), value),
            final(self)@.len() <= final(self).capacity(),
    {
        proof {
            use_type_invariant(&*self);
        }
        if self.cap == 0 {
            assert(self@ =~= pushed(old(self)@, 0, value));
            return;
        }
        // Work on the samples outside `self`, so the window never exceeds
        // its capacity while it is being changed.
        let mut buf: VecDeque<T> = VecDeque::new();
        std::mem::swap(&mut buf, &mut self.buf);
        if buf.len() == self.cap {
            let _ = buf.pop_front();
        }
        buf.push_back(value);
        self.buf = buf;
        proof {
            if old(self)@.len() == old(self).capacity() {
                assert(self@ =~= old(self)@.push(value).subrange(1, old(self).capacity() as int + 1));
            }
        }
    }

    /// The samples, oldest first.
    pub fn iter(&self) -> (it: Iter<'_, T>)
        ensures
            it.remaining() == self@.as_ref(),
    {
        self.buf.iter()
    }

    /// The most recent sample, or the default value (zero for numbers) when
    /// there is none.
    pub fn last(&self) -> (v: T)
        ensures
            self@.len() > 0 ==> v == self@.last(),
            self@.len() == 0 ==> call_ensures(T::default, (), v),
    {
        let n = self.buf.len();
        if n > 0 {
            self.buf[n - 1]
        } else {
            T::default()
        }
    }
}


/// A push onto a window within its capacity leaves `min(len + 1, cap)`
/// samples: the window grows until it is full and then keeps its length; a
/// window of capacity zero stays empty.
pub proof fn lemma_pushed_keeps_len<T>(window: Seq<T>, cap: nat, value: T)
    requires
        window.len() <= cap,
    ensures
        pushed(window, cap, value).len() == if window.len() + 1 <= cap {
            window.len() + 1
        } else {
            cap
        },
{
}

/// A push onto a full window drops exactly the oldest sample and appends the
/// new one.
pub proof fn lemma_pushed_slides<T>(window: Seq<T>, cap: nat, value: T)
    requires
        window.len() == cap,
        cap > 0,
    ensures
        pushed(window, cap, value) == window.drop_first().push(value),
{
    assert(pushed(window, cap, value) =~= window.drop_first().push(value));
}

/// With a nonzero capacity, the most recent sample is the last value pushed.
pub proof fn lemma_pushed_last<T>(window: Seq<T>, cap: nat, value: T)
    requires
        cap > 0,
    ensures
        pushed(window, cap, value).len() > 0,
        pushed(window, cap, value).last() == value,
{
}

} // verus!
