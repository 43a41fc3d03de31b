//! A bounded first-in-first-out window over the most recent values.

use std::collections::VecDeque;
use vstd::prelude::*;

verus! {

/// How many tracking errors a PID controller remembers.
pub const PID_HISTORY_LEN: usize = 100;

/// The last `cap` elements of `s`, or all of `s` when it has no more than `cap`.
pub open spec fn last_n<T>(s: Seq<T>, cap: nat) -> Seq<T> {
    if s.len() <= cap {
        s
    } else {
        s.skip(s.len() - cap)
    }
}

/// What `last_n` keeps: `min(|s|, cap)` values, the ones at the end of `s`,
/// in their order there.
pub proof fn lemma_last_n_elements<T>(s: Seq<T>, cap: nat)
    ensures
        last_n(s, cap).len() == (if s.len() <= cap { s.len() } else { cap }),
        forall|i: int|
            0 <= i < last_n(s, cap).len() ==> #[trigger] last_n(s, cap)[i] == s[s.len() - last_n(
                s,
                cap,
            ).len() + i],
{
}

/// Keeping the last `cap` values is stable under appending: trimming `s` to its
/// last `cap` values, appending `x` and trimming again gives the last `cap`
/// values of `s` followed by `x`, and (for a positive capacity) `x` is the
/// newest of them.
pub proof fn lemma_last_n_push<T>(s: Seq<T>, x: T, cap: nat)
    ensures
        last_n(last_n(s, cap).push(x), cap) == last_n(s.push(x), cap),
        last_n(s.push(x), cap).len() <= cap,
        cap > 0 ==> last_n(s.push(x), cap).last() == x,
{
    if s.len() > cap {
        let t = s.skip(s.len() - cap);
        assert(t.push(x).skip(1) =~= s.push(x).skip(s.push(x).len() - cap));
    }
}

/// The window that `record` leaves after recording each of `xs` in turn,
/// starting from an empty window of capacity `cap`.
pub open spec fn recorded<T>(xs: Seq<T>, cap: nat) -> Seq<T>
    decreases xs.len(),
{
    if xs.len() == 0 {
        Seq::empty()
    } else {
        last_n(recorded(xs.drop_last(), cap).push(xs.last()), cap)
    }
}

/// Whatever values have been recorded, a window of capacity `cap` holds
/// exactly the last `cap` of them, oldest first.
pub proof fn lemma_recorded_is_last_n<T>(xs: Seq<T>, cap: nat)
    ensures
        recorded(xs, cap) == last_n(xs, cap),
    decreases xs.len(),
{
    if xs.len() > 0 {
        let init = xs.drop_last();
        lemma_recorded_is_last_n(init, cap);
        lemma_last_n_push(init, xs.last(), cap);
        assert(init.push(xs.last()) =~= xs);
    }
}

/// The most recent values pushed, oldest first, never more than a fixed capacity.
pub struct History<T> {
    items: VecDeque<T>,
    cap: usize,
}

impl<T> View for History<T> {
    type V = Seq<T>;

    closed spec fn view(&self) -> Seq<T> {
        self.items@
    }
}

impl<T> History<T> {
    /// The number of values the window keeps.
    pub closed spec fn capacity(&self) -> nat {
        self.cap as nat
    }

    /// The window never holds more values than its capacity.
    pub closed spec fn wf(&self) -> bool {
        self.items@.len() <= self.cap
    }

    /// An empty window that keeps at most `cap` values.
    pub fn new(cap: usize) -> (h: Self)
        ensures
            h.wf(),
            h@ == Seq::<T>::empty(),
            h.capacity() == cap,
    {
        History { items: VecDeque::new(), cap }
    }

    /// Appends `item` as the newest value; when that makes the window longer
    /// than its capacity, the oldest value leaves.
    pub fn record(&mut self, item: T)
        requires
            old(self).wf(),
        ensures
            final(self).wf(),
            final(self).capacity() == old(self).capacity(),
            final(self)@ == last_n(old(self)@.push(item), old(self).capacity()),
            final(self)@.len() == (if old(self)@.len() < old(self).capacity() {
                old(self)@.len() + 1
            } else {
                old(self).capacity()
            }),
            forall|i: int|
                0 <= i < final(self)@.len() ==> #[trigger] final(self)@[i] == old(self)@.push(item)[old(
                    self,
                )@.len() + 1 - final(self)@.len() + i],
    {
        self.items.push_back(item);
        if self.items.len() > self.cap {
            let _ = self.items.pop_front();
        }
        proof {
            let s = old(self)@.push(item);
            if s.len() > self.cap {
                assert(self.items@ =~= s.skip(s.len() - self.cap));
            }
            lemma_last_n_elements(s, self.cap as nat);
        }
    }

    /// How many values the window holds.
    pub fn len(&self) -> (n: usize)
        ensures
            n == self@.len(),
    {
        self.items.len()
    }

    /// The value at position `i`, counting from the oldest.
    pub fn get(&self, i: usize) -> (r: &T)
        requires
            i < self@.len(),
        ensures
            *r == self@[i as int],
    {
        &self.items[i]
    }
}

} // verus!
