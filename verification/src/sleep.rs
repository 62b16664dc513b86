use vstd::prelude::*;
use crate::context::{Context, ContextView, lemma_steps_lead_to};
use crate::future::Future;
use crate::poll::Poll;

verus! {

/// A future that finishes once the clock reaches its wake time.
#[derive(Clone, Copy)]
pub struct SleepFuture {
    pub wake_time: u64,
}

/// A sleep of `duration` that starts at `now`.
pub fn sleep(now: u64, duration: u64) -> (s: SleepFuture)
    requires
        now + duration <= u64::MAX,
    ensures
        s.wake_time == now + duration,
{
    SleepFuture { wake_time: now + duration }
}

impl SleepFuture {
    /// Whether the wake time has come at `now`.
    pub fn is_elapsed(&self, now: u64) -> (b: bool)
        ensures
            b == (now >= self.wake_time),
    {
        now >= self.wake_time
    }

    /// How long is left until the wake time, or `None` once it has come: what a
    /// sleep that wakes its task from a helper thread hands to that thread.
    pub fn time_remaining(&self, now: u64) -> (left: Option<u64>)
        ensures
            now >= self.wake_time ==> left is None,
            now < self.wake_time ==> left == Some((self.wake_time - now) as u64),
    {
        if now >= self.wake_time {
            None
        } else {
            Some(self.wake_time - now)
        }
    }
}

impl Future for SleepFuture {
    type Output = ();

    open spec fn pollable(&self) -> bool {
        true
    }

    /// Ready once the clock reaches the wake time; otherwise the wake time is
    /// registered in the context and the poll is pending.
    open spec fn poll_step(
        &self,
        cx: ContextView,
        post: Self,
        cx_post: ContextView,
        result: Poll<()>,
    ) -> bool {
        &&& post == *self
        &&& if cx.now >= self.wake_time {
            cx_post == cx && result == Poll::Ready(())
        } else {
            cx_post == cx.registered(self.wake_time) && result == Poll::<()>::Pending
        }
    }

    fn poll(&mut self, cx: &mut Context) -> (result: Poll<()>) {
        proof {
            lemma_steps_lead_to(cx@, self.wake_time, Seq::empty(), 0);
        }
        if cx.now() >= self.wake_time {
            Poll::Ready(())
        } else {
            cx.register_wake(self.wake_time);
            Poll::Pending
        }
    }
}

/// A sleep of `duration` started at `start` is ready at a poll exactly when the
/// clock has moved on by `duration`.
pub proof fn lemma_sleep_ready_exactly_after(
    start: u64,
    duration: u64,
    s: SleepFuture,
    cx: ContextView,
    post: SleepFuture,
    cx_post: ContextView,
    result: Poll<()>,
)
    requires
        s.wake_time == start + duration,
        s.poll_step(cx, post, cx_post, result),
    ensures
        (result is Ready) <==> cx.now >= start + duration,
{
}

/// Once a sleep is ready it stays ready at every later poll.
pub proof fn lemma_sleep_stays_ready(
    s: SleepFuture,
    cx1: ContextView,
    post1: SleepFuture,
    cx1_post: ContextView,
    r1: Poll<()>,
    cx2: ContextView,
    post2: SleepFuture,
    cx2_post: ContextView,
    r2: Poll<()>,
)
    requires
        s.poll_step(cx1, post1, cx1_post, r1),
        post1.poll_step(cx2, post2, cx2_post, r2),
        r1 is Ready,
        cx1.now <= cx2.now,
    ensures
        r2 is Ready,
{
}

/// A pending sleep leaves behind a registered wake time no later than its own:
/// whoever drives the poll knows when to poll again.
pub proof fn lemma_pending_sleep_registers_wakeup(
    s: SleepFuture,
    cx: ContextView,
    post: SleepFuture,
    cx_post: ContextView,
    result: Poll<()>,
)
    requires
        s.poll_step(cx, post, cx_post, result),
        result is Pending,
    ensures
        cx_post.next_wake matches Some(t) && t <= s.wake_time,
{
}

/// Sleeping for what `Context::next_wait` hands out wakes the earliest sleep in
/// time: a sleep due at the registered wake time `t` is ready at any poll once
/// the clock, read as `now` when the wait was worked out, has moved on by the
/// wait.
pub proof fn lemma_waiting_wakes_the_earliest_sleep(
    t: u64,
    now: u64,
    wait: u64,
    s: SleepFuture,
    cx: ContextView,
    post: SleepFuture,
    cx_post: ContextView,
    result: Poll<()>,
)
    requires
        wait == (if t > now {
            (t - now) as u64
        } else {
            0u64
        }),
        s.wake_time == t,
        cx.now >= now + wait,
        s.poll_step(cx, post, cx_post, result),
    ensures
        result is Ready,
{
}

/// A run of polls of the sleeps `sleeps`, one after another: poll `i` goes from
/// context `contexts[i]` to `contexts[i + 1]` with result `results[i]`.
pub open spec fn sleep_run(
    sleeps: Seq<SleepFuture>,
    contexts: Seq<ContextView>,
    results: Seq<Poll<()>>,
) -> bool {
    &&& contexts.len() == sleeps.len() + 1
    &&& results.len() == sleeps.len()
    &&& forall|i: int|
        0 <= i < sleeps.len() ==> #[trigger] sleeps[i].poll_step(
            contexts[i],
            sleeps[i],
            contexts[i + 1],
            results[i],
        )
}

/// After the first `m` polls of a run that started with no wake time, the
/// registered wake time is the earliest wake time of the sleeps that were
/// pending, or none if none was.
proof fn lemma_sleep_run_prefix(
    sleeps: Seq<SleepFuture>,
    contexts: Seq<ContextView>,
    results: Seq<Poll<()>>,
    m: int,
)
    requires
        sleep_run(sleeps, contexts, results),
        contexts[0].next_wake is None,
        0 <= m <= sleeps.len(),
    ensures
        (forall|i: int| 0 <= i < m ==> #[trigger] results[i] is Ready) ==> contexts[m].next_wake
            is None,
        (exists|i: int| 0 <= i < m && #[trigger] results[i] is Pending) ==> (
        contexts[m].next_wake matches Some(t) && (exists|i: int|
            0 <= i < m && #[trigger] results[i] is Pending && sleeps[i].wake_time == t) && (forall|
            i: int,
        | 0 <= i < m && #[trigger] results[i] is Pending ==> t <= sleeps[i].wake_time)),
    decreases m,
{
    if m > 0 {
        let k = m - 1;
        lemma_sleep_run_prefix(sleeps, contexts, results, k);
        assert(sleeps[k].poll_step(contexts[k], sleeps[k], contexts[k + 1], results[k]));
        if exists|i: int| 0 <= i < k && #[trigger] results[i] is Pending {
            let t = contexts[k].next_wake->0;
            let j = choose|i: int| 0 <= i < k && #[trigger] results[i] is Pending && sleeps[i].wake_time == t;
            if results[k] is Pending {
                let u = contexts[m].next_wake->0;
                if sleeps[k].wake_time < t {
                    assert(results[k] is Pending && sleeps[k].wake_time == u);
                } else {
                    assert(results[j] is Pending && sleeps[j].wake_time == u);
                }
            } else {
                assert(results[j] is Pending && sleeps[j].wake_time == t);
            }
        } else {
            if results[k] is Pending {
                assert(results[k] is Pending && sleeps[k].wake_time == sleeps[k].wake_time);
            }
        }
    }
}

/// Sleeps polled one after another from a context with no wake time leave
/// registered the earliest wake time of those that were pending, and none if
/// every one was ready: polls that are ready leave the context unchanged.
pub proof fn lemma_sleep_run_registers_earliest(
    sleeps: Seq<SleepFuture>,
    contexts: Seq<ContextView>,
    results: Seq<Poll<()>>,
)
    requires
        sleep_run(sleeps, contexts, results),
        contexts[0].next_wake is None,
    ensures
        forall|i: int|
            0 <= i < sleeps.len() && #[trigger] results[i] is Ready ==> contexts[i + 1]
                == contexts[i],
        (forall|i: int| 0 <= i < sleeps.len() ==> #[trigger] results[i] is Ready)
            ==> contexts[sleeps.len() as int].next_wake is None,
        (exists|i: int| 0 <= i < sleeps.len() && #[trigger] results[i] is Pending) ==> (
        contexts[sleeps.len() as int].next_wake matches Some(t) && (exists|i: int|
            0 <= i < sleeps.len() && #[trigger] results[i] is Pending && sleeps[i].wake_time == t)
            && (forall|i: int|
            0 <= i < sleeps.len() && #[trigger] results[i] is Pending ==> t
                <= sleeps[i].wake_time)),
{
    lemma_sleep_run_prefix(sleeps, contexts, results, sleeps.len() as int);
    assert forall|i: int| 0 <= i < sleeps.len() && #[trigger] results[i] is Ready implies contexts[i + 1]
        == contexts[i] by {
        assert(sleeps[i].poll_step(contexts[i], sleeps[i], contexts[i + 1], results[i]));
    }
}

/// The order of the polls does not matter: two runs from contexts with no wake
/// time, whose pending sleeps have the same wake times, leave the same wake
/// time registered.
pub proof fn lemma_sleep_runs_agree(
    sleeps_a: Seq<SleepFuture>,
    contexts_a: Seq<ContextView>,
    results_a: Seq<Poll<()>>,
    sleeps_b: Seq<SleepFuture>,
    contexts_b: Seq<ContextView>,
    results_b: Seq<Poll<()>>,
)
    requires
        sleep_run(sleeps_a, contexts_a, results_a),
        sleep_run(sleeps_b, contexts_b, results_b),
        contexts_a[0].next_wake is None,
        contexts_b[0].next_wake is None,
        forall|i: int|
            0 <= i < sleeps_a.len() && #[trigger] results_a[i] is Pending ==> exists|j: int|
                0 <= j < sleeps_b.len() && #[trigger] results_b[j] is Pending
                    && sleeps_b[j].wake_time == sleeps_a[i].wake_time,
        forall|j: int|
            0 <= j < sleeps_b.len() && #[trigger] results_b[j] is Pending ==> exists|i: int|
                0 <= i < sleeps_a.len() && #[trigger] results_a[i] is Pending
                    && sleeps_a[i].wake_time == sleeps_b[j].wake_time,
    ensures
        contexts_a[sleeps_a.len() as int].next_wake == contexts_b[sleeps_b.len() as int].next_wake,
{
    lemma_sleep_run_registers_earliest(sleeps_a, contexts_a, results_a);
    lemma_sleep_run_registers_earliest(sleeps_b, contexts_b, results_b);
    let na = sleeps_a.len() as int;
    let nb = sleeps_b.len() as int;
    if exists|i: int| 0 <= i < na && #[trigger] results_a[i] is Pending {
        let i = choose|i: int| 0 <= i < na && #[trigger] results_a[i] is Pending;
        assert(exists|j: int| 0 <= j < nb && #[trigger] results_b[j] is Pending
            && sleeps_b[j].wake_time == sleeps_a[i].wake_time);
        let ta = contexts_a[na].next_wake->0;
        let tb = contexts_b[nb].next_wake->0;
        let ia = choose|x: int| 0 <= x < na && #[trigger] results_a[x] is Pending && sleeps_a[x].wake_time == ta;
        let ib = choose|x: int| 0 <= x < nb && #[trigger] results_b[x] is Pending && sleeps_b[x].wake_time == tb;
        let jb = choose|j: int| 0 <= j < nb && #[trigger] results_b[j] is Pending && sleeps_b[j].wake_time == sleeps_a[ia].wake_time;
        let ja = choose|j: int| 0 <= j < na && #[trigger] results_a[j] is Pending && sleeps_a[j].wake_time == sleeps_b[ib].wake_time;
        assert(tb <= ta);
        assert(ta <= tb);
    } else {
        if exists|j: int| 0 <= j < nb && #[trigger] results_b[j] is Pending {
            let j = choose|j: int| 0 <= j < nb && #[trigger] results_b[j] is Pending;
            assert(exists|i: int| 0 <= i < na && #[trigger] results_a[i] is Pending
                && sleeps_a[i].wake_time == sleeps_b[j].wake_time);
        }
    }
}

} // verus!
