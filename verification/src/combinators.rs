use vstd::prelude::*;
use crate::context::{Context, ContextView, lemma_leads_to_transitive, lemma_leads_to_reflexive};
use crate::future::Future;
use crate::poll::Poll;
use crate::sleep::{SleepFuture, sleep};
use crate::work::{WorkFuture, lemma_work_prints_in_order};

verus! {

/// One child of a combinator during one poll: left alone if it has already
/// finished, polled once otherwise; `done_post` says whether it has finished now.
pub open spec fn child_step<F: Future>(
    f: F,
    done: bool,
    cx: ContextView,
    f_post: F,
    cx_post: ContextView,
    done_post: bool,
) -> bool {
    if done {
        f_post == f && cx_post == cx && done_post
    } else {
        exists|r: Poll<F::Output>| #[trigger] f.poll_step(cx, f_post, cx_post, r) && done_post == (
        r is Ready)
    }
}

/// [`child_step`] for a child tracked by a "still pending" flag.
pub open spec fn pending_child_step<F: Future>(
    f: F,
    pending: bool,
    cx: ContextView,
    f_post: F,
    cx_post: ContextView,
    pending_post: bool,
) -> bool {
    child_step(f, !pending, cx, f_post, cx_post, !pending_post)
}

/// Polls one child unless it has finished; returns whether it has finished now.
fn poll_child<F: Future>(f: &mut F, done: bool, cx: &mut Context) -> (done_post: bool)
    requires
        done || old(f).pollable(),
    ensures
        child_step(*old(f), done, old(cx)@, *final(f), final(cx)@, done_post),
        !done_post ==> final(f).pollable(),
        !done_post ==> final(cx)@.next_wake is Some,
        old(cx)@.leads_to(final(cx)@),
{
    if done {
        proof {
            lemma_leads_to_reflexive(cx@);
        }
        true
    } else {
        let r = f.poll(cx);
        let ready = r.is_ready();
        proof {
            assert(old(f).poll_step(old(cx)@, *f, cx@, r));
        }
        ready
    }
}

/// Finishes once both futures have finished; each is polled until it has
/// finished and never after.
pub struct JoinFuture<F1, F2> {
    pub f1: F1,
    pub f1_ready: bool,
    pub f2: F2,
    pub f2_ready: bool,
}

/// Both futures, run together.
pub fn join<F1: Future, F2: Future>(f1: F1, f2: F2) -> (j: JoinFuture<F1, F2>)
    ensures
        j.f1 == f1,
        j.f2 == f2,
        !j.f1_ready,
        !j.f2_ready,
{
    JoinFuture { f1, f1_ready: false, f2, f2_ready: false }
}

impl<F1: Future, F2: Future> Future for JoinFuture<F1, F2> {
    type Output = ();

    open spec fn pollable(&self) -> bool {
        &&& (self.f1_ready || self.f1.pollable())
        &&& (self.f2_ready || self.f2.pollable())
    }

    /// The first child, then the second, each unless it has finished; ready
    /// when both have finished.
    open spec fn poll_step(
        &self,
        cx: ContextView,
        post: Self,
        cx_post: ContextView,
        result: Poll<()>,
    ) -> bool {
        &&& exists|mid: ContextView|
            child_step(self.f1, self.f1_ready, cx, post.f1, mid, post.f1_ready) && child_step(
                self.f2,
                self.f2_ready,
                mid,
                post.f2,
                cx_post,
                post.f2_ready,
            )
        &&& result == if post.f1_ready && post.f2_ready {
            Poll::Ready(())
        } else {
            Poll::<()>::Pending
        }
    }

    fn poll(&mut self, cx: &mut Context) -> (result: Poll<()>) {
        let ghost cx0 = cx@;
        self.f1_ready = poll_child(&mut self.f1, self.f1_ready, cx);
        let ghost mid = cx@;
        self.f2_ready = poll_child(&mut self.f2, self.f2_ready, cx);
        proof {
            lemma_leads_to_transitive(cx0, mid, cx@);
            assert(child_step(old(self).f1, old(self).f1_ready, cx0, self.f1, mid, self.f1_ready)
                && child_step(old(self).f2, old(self).f2_ready, mid, self.f2, cx@, self.f2_ready));
        }
        if self.f1_ready && self.f2_ready {
            Poll::Ready(())
        } else {
            Poll::Pending
        }
    }
}

/// Finishes once all three futures have finished.
pub struct Join3<F1, F2, F3> {
    pub f1: F1,
    pub f1_pending: bool,
    pub f2: F2,
    pub f2_pending: bool,
    pub f3: F3,
    pub f3_pending: bool,
}

/// All three futures, run together.
pub fn join3<F1: Future, F2: Future, F3: Future>(f1: F1, f2: F2, f3: F3) -> (j: Join3<F1, F2, F3>)
    ensures
        j.f1 == f1,
        j.f2 == f2,
        j.f3 == f3,
        j.f1_pending,
        j.f2_pending,
        j.f3_pending,
{
    Join3 { f1, f1_pending: true, f2, f2_pending: true, f3, f3_pending: true }
}

impl<F1: Future, F2: Future, F3: Future> Future for Join3<F1, F2, F3> {
    type Output = ();

    open spec fn pollable(&self) -> bool {
        &&& (!self.f1_pending || self.f1.pollable())
        &&& (!self.f2_pending || self.f2.pollable())
        &&& (!self.f3_pending || self.f3.pollable())
    }

    /// The three children in order, each unless it has finished; ready when
    /// none is pending.
    open spec fn poll_step(
        &self,
        cx: ContextView,
        post: Self,
        cx_post: ContextView,
        result: Poll<()>,
    ) -> bool {
        &&& exists|mid1: ContextView, mid2: ContextView|
            #[trigger] pending_child_step(self.f1, self.f1_pending, cx, post.f1, mid1, post.f1_pending)
                && #[trigger] pending_child_step(self.f2, self.f2_pending, mid1, post.f2, mid2, post.f2_pending)
                && pending_child_step(self.f3, self.f3_pending, mid2, post.f3, cx_post, post.f3_pending)
        &&& result == if post.f1_pending || post.f2_pending || post.f3_pending {
            Poll::<()>::Pending
        } else {
            Poll::Ready(())
        }
    }

    fn poll(&mut self, cx: &mut Context) -> (result: Poll<()>) {
        let ghost cx0 = cx@;
        self.f1_pending = !poll_child(&mut self.f1, !self.f1_pending, cx);
        let ghost mid1 = cx@;
        self.f2_pending = !poll_child(&mut self.f2, !self.f2_pending, cx);
        let ghost mid2 = cx@;
        self.f3_pending = !poll_child(&mut self.f3, !self.f3_pending, cx);
        proof {
            lemma_leads_to_transitive(cx0, mid1, mid2);
            lemma_leads_to_transitive(cx0, mid2, cx@);
            assert(pending_child_step(old(self).f1, old(self).f1_pending, cx0, self.f1, mid1, self.f1_pending));
            assert(pending_child_step(old(self).f2, old(self).f2_pending, mid1, self.f2, mid2, self.f2_pending));
        }
        if self.f1_pending || self.f2_pending || self.f3_pending {
            Poll::Pending
        } else {
            Poll::Ready(())
        }
    }
}

/// Finishes as soon as either future has finished; both are polled on every
/// poll until they have finished.
pub struct FirstFuture<F1, F2> {
    pub f1: F1,
    pub f1_ready: bool,
    pub f2: F2,
    pub f2_ready: bool,
}

/// Whichever of the two futures finishes first.
pub fn first<F1: Future, F2: Future>(f1: F1, f2: F2) -> (f: FirstFuture<F1, F2>)
    ensures
        f.f1 == f1,
        f.f2 == f2,
        !f.f1_ready,
        !f.f2_ready,
{
    FirstFuture { f1, f1_ready: false, f2, f2_ready: false }
}

impl<F1: Future, F2: Future> Future for FirstFuture<F1, F2> {
    type Output = ();

    open spec fn pollable(&self) -> bool {
        &&& (self.f1_ready || self.f1.pollable())
        &&& (self.f2_ready || self.f2.pollable())
    }

    /// The first child, then the second, each unless it has finished; ready
    /// when either has finished.
    open spec fn poll_step(
        &self,
        cx: ContextView,
        post: Self,
        cx_post: ContextView,
        result: Poll<()>,
    ) -> bool {
        &&& exists|mid: ContextView|
            child_step(self.f1, self.f1_ready, cx, post.f1, mid, post.f1_ready) && child_step(
                self.f2,
                self.f2_ready,
                mid,
                post.f2,
                cx_post,
                post.f2_ready,
            )
        &&& result == if post.f1_ready || post.f2_ready {
            Poll::Ready(())
        } else {
            Poll::<()>::Pending
        }
    }

    fn poll(&mut self, cx: &mut Context) -> (result: Poll<()>) {
        let ghost cx0 = cx@;
        self.f1_ready = poll_child(&mut self.f1, self.f1_ready, cx);
        let ghost mid = cx@;
        self.f2_ready = poll_child(&mut self.f2, self.f2_ready, cx);
        proof {
            lemma_leads_to_transitive(cx0, mid, cx@);
            assert(child_step(old(self).f1, old(self).f1_ready, cx0, self.f1, mid, self.f1_ready)
                && child_step(old(self).f2, old(self).f2_ready, mid, self.f2, cx@, self.f2_ready));
        }
        if self.f1_ready || self.f2_ready {
            Poll::Ready(())
        } else {
            Poll::Pending
        }
    }
}

/// Runs `inner` until its deadline: `Ready(Some(output))` if it finishes first,
/// `Ready(None)` once the deadline has come.
pub struct Timeout<F> {
    pub sleep_future: SleepFuture,
    pub inner: F,
}

/// `inner`, given `duration` from `now`.
pub fn timeout<F: Future>(inner: F, now: u64, duration: u64) -> (t: Timeout<F>)
    requires
        now + duration <= u64::MAX,
    ensures
        t.inner == inner,
        t.sleep_future.wake_time == now + duration,
{
    Timeout { sleep_future: sleep(now, duration), inner }
}

impl<F: Future> Future for Timeout<F> {
    type Output = Option<F::Output>;

    open spec fn pollable(&self) -> bool {
        self.inner.pollable()
    }

    /// The deadline first: once it has come the result is `Ready(None)` and the
    /// inner future is not polled. Before it, the deadline is registered and the
    /// inner future is polled from there, its result passed on inside `Some`.
    open spec fn poll_step(
        &self,
        cx: ContextView,
        post: Self,
        cx_post: ContextView,
        result: Poll<Option<F::Output>>,
    ) -> bool {
        &&& post.sleep_future == self.sleep_future
        &&& if cx.now >= self.sleep_future.wake_time {
            post.inner == self.inner && cx_post == cx && result == Poll::<Option<F::Output>>::Ready(
                None,
            )
        } else {
            let cx_mid = cx.registered(self.sleep_future.wake_time);
            &&& cx_mid.leads_to(cx_post)
            &&& match result {
                Poll::Pending => self.inner.poll_step(
                    cx_mid,
                    post.inner,
                    cx_post,
                    Poll::<F::Output>::Pending,
                ),
                Poll::Ready(Some(output)) => self.inner.poll_step(
                    cx_mid,
                    post.inner,
                    cx_post,
                    Poll::Ready(output),
                ),
                Poll::Ready(None) => false,
            }
        }
    }

    fn poll(&mut self, cx: &mut Context) -> (result: Poll<Option<F::Output>>) {
        let ghost cx0 = cx@;
        if self.sleep_future.poll(cx).is_ready() {
            return Poll::Ready(None);
        }
        let ghost mid = cx@;
        let r = self.inner.poll(cx);
        proof {
            lemma_leads_to_transitive(cx0, mid, cx@);
        }
        match r {
            Poll::Pending => Poll::Pending,
            Poll::Ready(output) => Poll::Ready(Some(output)),
        }
    }
}

/// A join is ready exactly when both children have finished.
pub proof fn lemma_join_ready_iff_both_finished<F1: Future, F2: Future>(
    j: JoinFuture<F1, F2>,
    cx: ContextView,
    post: JoinFuture<F1, F2>,
    cx_post: ContextView,
    result: Poll<()>,
)
    requires
        j.poll_step(cx, post, cx_post, result),
    ensures
        (result is Ready) <==> (post.f1_ready && post.f2_ready),
{
}

/// A child that has finished stays finished and is not polled again.
pub proof fn lemma_join_leaves_finished_child<F1: Future, F2: Future>(
    j: JoinFuture<F1, F2>,
    cx: ContextView,
    post: JoinFuture<F1, F2>,
    cx_post: ContextView,
    result: Poll<()>,
)
    requires
        j.poll_step(cx, post, cx_post, result),
    ensures
        j.f1_ready ==> post.f1_ready && post.f1 == j.f1,
        j.f2_ready ==> post.f2_ready && post.f2 == j.f2,
        j.f1_ready && j.f2_ready ==> post == j && cx_post == cx && result == Poll::Ready(()),
{
    let mid = choose|mid: ContextView|
        child_step(j.f1, j.f1_ready, cx, post.f1, mid, post.f1_ready) && child_step(
            j.f2,
            j.f2_ready,
            mid,
            post.f2,
            cx_post,
            post.f2_ready,
        );
}

/// A three-way join is ready exactly when no child is pending, and a child
/// that has finished is not polled again.
pub proof fn lemma_join3_ready_iff_all_finished<F1: Future, F2: Future, F3: Future>(
    j: Join3<F1, F2, F3>,
    cx: ContextView,
    post: Join3<F1, F2, F3>,
    cx_post: ContextView,
    result: Poll<()>,
)
    requires
        j.poll_step(cx, post, cx_post, result),
    ensures
        (result is Ready) <==> (!post.f1_pending && !post.f2_pending && !post.f3_pending),
        !j.f1_pending ==> !post.f1_pending && post.f1 == j.f1,
        !j.f2_pending ==> !post.f2_pending && post.f2 == j.f2,
        !j.f3_pending ==> !post.f3_pending && post.f3 == j.f3,
{
    let (mid1, mid2) = choose|mid1: ContextView, mid2: ContextView|
        #[trigger] pending_child_step(j.f1, j.f1_pending, cx, post.f1, mid1, post.f1_pending)
            && #[trigger] pending_child_step(j.f2, j.f2_pending, mid1, post.f2, mid2, post.f2_pending)
            && pending_child_step(j.f3, j.f3_pending, mid2, post.f3, cx_post, post.f3_pending);
}

/// "First" is ready exactly when either child has finished.
pub proof fn lemma_first_ready_iff_either_finished<F1: Future, F2: Future>(
    f: FirstFuture<F1, F2>,
    cx: ContextView,
    post: FirstFuture<F1, F2>,
    cx_post: ContextView,
    result: Poll<()>,
)
    requires
        f.poll_step(cx, post, cx_post, result),
    ensures
        (result is Ready) <==> (post.f1_ready || post.f2_ready),
        f.f1_ready ==> post.f1_ready && post.f1 == f.f1,
        f.f2_ready ==> post.f2_ready && post.f2 == f.f2,
{
    let mid = choose|mid: ContextView|
        child_step(f.f1, f.f1_ready, cx, post.f1, mid, post.f1_ready) && child_step(
            f.f2,
            f.f2_ready,
            mid,
            post.f2,
            cx_post,
            post.f2_ready,
        );
}

/// Once the deadline has come a timeout gives `Ready(None)` without touching the
/// inner future; before it, `Ready(None)` never comes out.
pub proof fn lemma_timeout_deadline_wins<F: Future>(
    t: Timeout<F>,
    cx: ContextView,
    post: Timeout<F>,
    cx_post: ContextView,
    result: Poll<Option<F::Output>>,
)
    requires
        t.poll_step(cx, post, cx_post, result),
    ensures
        cx.now >= t.sleep_future.wake_time ==> result == Poll::<Option<F::Output>>::Ready(None)
            && post == t && cx_post == cx,
        cx.now < t.sleep_future.wake_time ==> result != Poll::<Option<F::Output>>::Ready(None),
{
}

/// A timeout that is pending leaves a wake time registered no later than its
/// deadline, so whoever drives it polls it again by the deadline at the latest.
pub proof fn lemma_timeout_pending_wakes_by_deadline<F: Future>(
    t: Timeout<F>,
    cx: ContextView,
    post: Timeout<F>,
    cx_post: ContextView,
    result: Poll<Option<F::Output>>,
)
    requires
        t.poll_step(cx, post, cx_post, result),
        result is Pending,
    ensures
        cx.now < t.sleep_future.wake_time,
        cx_post.next_wake matches Some(w) && w <= t.sleep_future.wake_time,
{
}

/// A three-way join polls its children in argument order: joining three
/// pieces of work that are all still running, a poll prints the next lines of
/// the first, then those of the second, then those of the third.
pub proof fn lemma_join3_of_work_prints_in_argument_order(
    j: Join3<WorkFuture, WorkFuture, WorkFuture>,
    cx: ContextView,
    post: Join3<WorkFuture, WorkFuture, WorkFuture>,
    cx_post: ContextView,
    result: Poll<()>,
)
    requires
        j.f1_pending,
        j.f2_pending,
        j.f3_pending,
        j.pollable(),
        j.poll_step(cx, post, cx_post, result),
    ensures
        cx_post.output == cx.output + j.f1.lines().subrange(
            j.f1.phase() as int,
            post.f1.phase() as int,
        ) + j.f2.lines().subrange(j.f2.phase() as int, post.f2.phase() as int)
            + j.f3.lines().subrange(j.f3.phase() as int, post.f3.phase() as int),
{
    let (mid1, mid2) = choose|mid1: ContextView, mid2: ContextView|
        #[trigger] pending_child_step(j.f1, j.f1_pending, cx, post.f1, mid1, post.f1_pending)
            && #[trigger] pending_child_step(j.f2, j.f2_pending, mid1, post.f2, mid2, post.f2_pending)
            && pending_child_step(j.f3, j.f3_pending, mid2, post.f3, cx_post, post.f3_pending);
    let r1 = choose|r: Poll<()>| #[trigger] j.f1.poll_step(cx, post.f1, mid1, r) && !post.f1_pending == (r is Ready);
    let r2 = choose|r: Poll<()>| #[trigger] j.f2.poll_step(mid1, post.f2, mid2, r) && !post.f2_pending == (r is Ready);
    let r3 = choose|r: Poll<()>| #[trigger] j.f3.poll_step(mid2, post.f3, cx_post, r) && !post.f3_pending == (r is Ready);
    lemma_work_prints_in_order(j.f1, cx, post.f1, mid1, r1);
    lemma_work_prints_in_order(j.f2, mid1, post.f2, mid2, r2);
    lemma_work_prints_in_order(j.f3, mid2, post.f3, cx_post, r3);
    let a = j.f1.lines().subrange(j.f1.phase() as int, post.f1.phase() as int);
    let b = j.f2.lines().subrange(j.f2.phase() as int, post.f2.phase() as int);
    let c = j.f3.lines().subrange(j.f3.phase() as int, post.f3.phase() as int);
    assert(cx.output + a + b + c =~= ((cx.output + a) + b) + c);
}

} // verus!
