use vstd::prelude::*;
use crate::poll::Poll;
use crate::sleep::SleepFuture;

verus! {

/// Wake times in nondecreasing order.
pub open spec fn sorted_times(times: Seq<u64>) -> bool {
    forall|i: int, j: int| 0 <= i <= j < times.len() ==> times[i] <= times[j]
}

/// Wakers keyed by the time at which they are due. Wakers due at the same time
/// come out in the order they were registered.
///
/// The wakers are kept in two parallel vectors ordered by due time, not in a
/// `BTreeMap` from time to a list of wakers: taking out the earliest entries
/// needs `first_key_value` and `pop_first` (or `split_off`), which vstd does
/// not specify for `BTreeMap`, while the `Vec` operations used here are
/// specified. The order of the vectors, earliest first and same-time wakers in
/// registration order, is what the map and its lists held.
pub struct TimerTree<W> {
    times: Vec<u64>,
    wakers: Vec<W>,
}

impl<W> TimerTree<W> {
    #[verifier::type_invariant]
    spec fn well_formed(self) -> bool {
        &&& self.times.len() == self.wakers.len()
        &&& sorted_times(self.times@)
    }

    /// The wake times, in the order the wakers come out.
    pub closed spec fn times(self) -> Seq<u64> {
        self.times@
    }

    /// The wakers, in the order they come out.
    pub closed spec fn wakers(self) -> Seq<W> {
        self.wakers@
    }

    /// An empty tree.
    pub fn new() -> (tree: TimerTree<W>)
        ensures
            tree.times().len() == 0,
            tree.wakers().len() == 0,
    {
        TimerTree { times: Vec::new(), wakers: Vec::new() }
    }

    /// Every tree holds one wake time per waker, in nondecreasing order.
    pub fn len(&self) -> (n: usize)
        ensures
            n == self.times().len(),
            n == self.wakers().len(),
            sorted_times(self.times()),
    {
        proof {
            use_type_invariant(self);
        }
        self.times.len()
    }

    pub fn is_empty(&self) -> (b: bool)
        ensures
            b == (self.times().len() == 0),
    {
        proof {
            use_type_invariant(self);
        }
        self.times.len() == 0
    }

    /// Adds `waker`, due at `wake_time`, after every waker due no later.
    pub fn register(&mut self, wake_time: u64, waker: W)
        ensures
            sorted_times(final(self).times()),
            final(self).times().len() == final(self).wakers().len(),
            exists|k: int|
                0 <= k <= old(self).times().len() && (forall|i: int|
                    0 <= i < k ==> #[trigger] old(self).times()[i] <= wake_time) && (forall|i: int|
                    k <= i < old(self).times().len() ==> #[trigger] old(self).times()[i] > wake_time)
                    && final(self).times() == old(self).times().insert(k, wake_time)
                    && final(self).wakers() == old(self).wakers().insert(k, waker),
    {
        proof {
            use_type_invariant(&*self);
        }
        let mut taken = TimerTree::new();
        std::mem::swap(&mut taken, self);
        let TimerTree { mut times, mut wakers } = taken;
        let mut k: usize = 0;
        while k < times.len() && times[k] <= wake_time
            invariant
                k <= times.len(),
                times@ == old(self).times(),
                sorted_times(times@),
                forall|i: int| 0 <= i < k ==> times@[i] <= wake_time,
            decreases times.len() - k,
        {
            k = k + 1;
        }
        proof {
            if k < times.len() {
                assert forall|i: int| k <= i < times.len() implies times@[i] > wake_time by {
                    assert(times@[k as int] <= times@[i]);
                }
            }
        }
        times.insert(k, wake_time);
        wakers.insert(k, waker);
        proof {
            assert forall|i: int, j: int| 0 <= i <= j < times@.len() implies times@[i] <= times@[j] by {
                let old_t = old(self).times();
                if i < k && j < k {
                    assert(times@[i] == old_t[i] && times@[j] == old_t[j]);
                } else if i < k && j == k {
                } else if i < k {
                    assert(times@[i] == old_t[i] && times@[j] == old_t[j - 1]);
                } else if i == k && j == k {
                } else if i == k {
                    assert(times@[j] == old_t[j - 1]);
                } else {
                    assert(times@[i] == old_t[i - 1] && times@[j] == old_t[j - 1]);
                }
            }
        }
        *self = TimerTree { times, wakers };
    }

    /// The earliest wake time, if any waker is registered.
    pub fn first_wake_time(&self) -> (first: Option<u64>)
        ensures
            self.times().len() == 0 ==> first is None,
            self.times().len() > 0 ==> first == Some(self.times()[0]),
            first matches Some(t) ==> forall|i: int|
                0 <= i < self.times().len() ==> t <= #[trigger] self.times()[i],
    {
        proof {
            use_type_invariant(self);
        }
        if self.times.len() == 0 {
            None
        } else {
            Some(self.times[0])
        }
    }

    /// How long to sleep when the clock reads `now` until the earliest waker is
    /// due (zero if it is already due), or `None` if no waker is registered.
    pub fn time_until_first(&self, now: u64) -> (wait: Option<u64>)
        ensures
            self.times().len() == 0 ==> wait is None,
            self.times().len() > 0 ==> wait == Some(
                if self.times()[0] > now {
                    (self.times()[0] - now) as u64
                } else {
                    0u64
                },
            ),
    {
        match self.first_wake_time() {
            Some(t) => Some(t.saturating_sub(now)),
            None => None,
        }
    }

    /// Takes out every waker due at or before `now`, earliest first; those due
    /// later stay.
    pub fn pop_expired(&mut self, now: u64) -> (woken: Vec<W>)
        ensures
            sorted_times(final(self).times()),
            final(self).times().len() == final(self).wakers().len(),
            exists|k: int|
                0 <= k <= old(self).times().len() && (forall|i: int|
                    0 <= i < k ==> #[trigger] old(self).times()[i] <= now) && (forall|i: int|
                    k <= i < old(self).times().len() ==> #[trigger] old(self).times()[i] > now)
                    && woken@ == old(self).wakers().take(k)
                    && final(self).times() == old(self).times().skip(k)
                    && final(self).wakers() == old(self).wakers().skip(k),
    {
        proof {
            use_type_invariant(&*self);
        }
        let mut taken = TimerTree::new();
        std::mem::swap(&mut taken, self);
        let TimerTree { mut times, mut wakers } = taken;
        let mut k: usize = 0;
        while k < times.len() && times[k] <= now
            invariant
                k <= times.len(),
                times@ == old(self).times(),
                sorted_times(times@),
                forall|i: int| 0 <= i < k ==> times@[i] <= now,
            decreases times.len() - k,
        {
            k = k + 1;
        }
        proof {
            if k < times.len() {
                assert forall|i: int| k <= i < times.len() implies times@[i] > now by {
                    assert(times@[k as int] <= times@[i]);
                }
            }
        }
        let later_times = times.split_off(k);
        let later_wakers = wakers.split_off(k);
        proof {
            assert(later_times@ =~= old(self).times().skip(k as int));
            assert(later_wakers@ =~= old(self).wakers().skip(k as int));
            assert(wakers@ =~= old(self).wakers().take(k as int));
        }
        *self = TimerTree { times: later_times, wakers: later_wakers };
        wakers
    }
}

impl SleepFuture {
    /// Polls the sleep on behalf of a task with waker `waker`: ready once the
    /// clock reaches the wake time, else the waker is registered in `tree`, due
    /// at the wake time.
    pub fn poll_with_timers<W>(&self, now: u64, tree: &mut TimerTree<W>, waker: W) -> (result: Poll<()>)
        ensures
            now >= self.wake_time ==> result == Poll::Ready(()) && final(tree).times() == old(
                tree,
            ).times() && final(tree).wakers() == old(tree).wakers(),
            now < self.wake_time ==> result == Poll::<()>::Pending && exists|k: int|
                0 <= k <= old(tree).times().len() && (forall|i: int|
                    0 <= i < k ==> #[trigger] old(tree).times()[i] <= self.wake_time) && (forall|
                    i: int,
                |
                    k <= i < old(tree).times().len() ==> #[trigger] old(tree).times()[i]
                        > self.wake_time) && final(tree).times() == old(tree).times().insert(
                    k,
                    self.wake_time,
                ) && final(tree).wakers() == old(tree).wakers().insert(k, waker),
            sorted_times(final(tree).times()),
            final(tree).times().len() == final(tree).wakers().len(),
    {
        if now >= self.wake_time {
            let _ = tree.len();
            Poll::Ready(())
        } else {
            tree.register(self.wake_time, waker);
            Poll::Pending
        }
    }
}

/// A waker registered for `wake_time` is handed out by a sweep at any instant
/// at or after `wake_time`: registering at position `k` and then sweeping at
/// `now >= wake_time` puts the waker at position `k` among those woken.
pub proof fn lemma_due_waker_is_woken<W>(
    times: Seq<u64>,
    wakers: Seq<W>,
    wake_time: u64,
    waker: W,
    k: int,
    now: u64,
    j: int,
)
    requires
        times.len() == wakers.len(),
        sorted_times(times.insert(k, wake_time)),
        0 <= k <= times.len(),
        wake_time <= now,
        0 <= j <= times.len() + 1,
        forall|i: int| 0 <= i < j ==> #[trigger] times.insert(k, wake_time)[i] <= now,
        forall|i: int| j <= i < times.len() + 1 ==> #[trigger] times.insert(k, wake_time)[i] > now,
    ensures
        k < j,
        wakers.insert(k, waker).take(j)[k] == waker,
{
    assert(times.insert(k, wake_time)[k] == wake_time);
}

} // verus!
