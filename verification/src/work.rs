use vstd::prelude::*;
use vstd::string::*;
use crate::context::{Context, ContextView, MAX_DURATION, MAX_INSTANT, lemma_steps_lead_to, lemma_leads_to_transitive};
use crate::future::Future;
use crate::poll::Poll;
use crate::sleep::{SleepFuture, sleep};

verus! {

/// Nanoseconds in a second.
pub const SECOND: u64 = 1_000_000_000;

/// Where a [`WorkFuture`] stands.
#[derive(Clone, Copy)]
pub enum WorkState {
    Start,
    FirstSleep(SleepFuture),
    SecondSleep(SleepFuture),
    End,
}

/// A named piece of work: prints "<name> start", sleeps, prints
/// "<name> middle", sleeps again, prints "<name> end" and finishes. Each sleep
/// starts when the line before it is printed.
pub struct WorkFuture {
    pub name: String,
    pub first: u64,
    pub second: u64,
    pub state: WorkState,
}

impl WorkFuture {
    /// The line `name` followed by `suffix`.
    pub open spec fn line(self, suffix: Seq<char>) -> Seq<char> {
        self.name@ + suffix
    }

    /// Waiting in the second sleep `s`.
    pub open spec fn wait_second(self, s: SleepFuture, cx: ContextView) -> (
        WorkFuture,
        ContextView,
        Poll<()>,
    ) {
        if cx.now >= s.wake_time {
            (
                WorkFuture { state: WorkState::End, ..self },
                cx.printed(self.line(" end"@)),
                Poll::Ready(()),
            )
        } else {
            (
                WorkFuture { state: WorkState::SecondSleep(s), ..self },
                cx.registered(s.wake_time),
                Poll::Pending,
            )
        }
    }

    /// Waiting in the first sleep `s`; once it is over, the middle line is
    /// printed and the second sleep starts at the same instant.
    pub open spec fn wait_first(self, s: SleepFuture, cx: ContextView) -> (
        WorkFuture,
        ContextView,
        Poll<()>,
    ) {
        if cx.now >= s.wake_time {
            self.wait_second(
                SleepFuture { wake_time: (cx.now + self.second) as u64 },
                cx.printed(self.line(" middle"@)),
            )
        } else {
            (
                WorkFuture { state: WorkState::FirstSleep(s), ..self },
                cx.registered(s.wake_time),
                Poll::Pending,
            )
        }
    }

    /// One poll, state by state.
    pub open spec fn transition(self, cx: ContextView) -> (WorkFuture, ContextView, Poll<()>) {
        match self.state {
            WorkState::Start => self.wait_first(
                SleepFuture { wake_time: (cx.now + self.first) as u64 },
                cx.printed(self.line(" start"@)),
            ),
            WorkState::FirstSleep(s) => self.wait_first(s, cx),
            WorkState::SecondSleep(s) => self.wait_second(s, cx),
            WorkState::End => (self, cx, Poll::Pending),
        }
    }

    fn line_with(&self, suffix: &str) -> (line: String)
        ensures
            line@ == self.line(suffix@),
    {
        self.name.clone().concat(suffix)
    }
}

impl Future for WorkFuture {
    type Output = ();

    /// Not yet finished, with sleeps no longer than a context allows.
    open spec fn pollable(&self) -> bool {
        &&& !(self.state is End)
        &&& self.first <= MAX_DURATION
        &&& self.second <= MAX_DURATION
    }

    open spec fn poll_step(
        &self,
        cx: ContextView,
        post: Self,
        cx_post: ContextView,
        result: Poll<()>,
    ) -> bool {
        (post, cx_post, result) == self.transition(cx)
    }

    fn poll(&mut self, cx: &mut Context) -> (result: Poll<()>) {
        let ghost cx0 = cx@;
        if let WorkState::Start = self.state {
            let line = self.line_with(" start");
            proof {
                lemma_steps_lead_to(cx@, 0, line@, 0);
            }
            cx.print(line);
            let sleep_future = sleep(cx.now(), self.first);
            self.state = WorkState::FirstSleep(sleep_future);
        }
        if let WorkState::FirstSleep(s) = self.state {
            let mut sleep_future = s;
            let ghost cx1 = cx@;
            if sleep_future.poll(cx).is_pending() {
                proof {
                    lemma_leads_to_transitive(cx0, cx1, cx@);
                }
                return Poll::Pending;
            }
            let line = self.line_with(" middle");
            proof {
                lemma_steps_lead_to(cx@, 0, line@, 0);
                lemma_leads_to_transitive(cx0, cx1, cx@);
            }
            cx.print(line);
            let sleep_future = sleep(cx.now(), self.second);
            self.state = WorkState::SecondSleep(sleep_future);
        }
        if let WorkState::SecondSleep(s) = self.state {
            let mut sleep_future = s;
            let ghost cx2 = cx@;
            if sleep_future.poll(cx).is_pending() {
                proof {
                    lemma_leads_to_transitive(cx0, cx2, cx@);
                }
                return Poll::Pending;
            }
            let line = self.line_with(" end");
            proof {
                lemma_steps_lead_to(cx@, 0, line@, 0);
                lemma_leads_to_transitive(cx0, cx2, cx@);
            }
            cx.print(line);
            self.state = WorkState::End;
            return Poll::Ready(());
        }
        proof {
            assert(false);
        }
        Poll::Pending
    }
}

/// Work named `name` that takes `duration` in all, split into two equal sleeps.
pub fn work(name: &str, duration: u64) -> (w: WorkFuture)
    ensures
        w.name@ == name@,
        w.first == duration / 2,
        w.second == duration / 2,
        w.state is Start,
        w.pollable(),
{
    WorkFuture { name: String::from_str(name), first: duration / 2, second: duration / 2, state: WorkState::Start }
}

/// "foo": half a second, then a second.
pub fn foo() -> (w: WorkFuture)
    ensures
        w.name@ == "foo"@,
        w.first == SECOND / 2,
        w.second == SECOND,
        w.state is Start,
        w.pollable(),
{
    WorkFuture { name: String::from_str("foo"), first: SECOND / 2, second: SECOND, state: WorkState::Start }
}

/// "bar": a second, then another second.
pub fn bar() -> (w: WorkFuture)
    ensures
        w.name@ == "bar"@,
        w.first == SECOND,
        w.second == SECOND,
        w.state is Start,
        w.pollable(),
{
    WorkFuture { name: String::from_str("bar"), first: SECOND, second: SECOND, state: WorkState::Start }
}

impl WorkFuture {
    /// How many of its three lines the work has printed.
    pub open spec fn phase(self) -> nat {
        match self.state {
            WorkState::Start => 0,
            WorkState::FirstSleep(_) => 1,
            WorkState::SecondSleep(_) => 2,
            WorkState::End => 3,
        }
    }

    /// The three lines, in the order they are printed.
    pub open spec fn lines(self) -> Seq<Seq<char>> {
        seq![self.line(" start"@), self.line(" middle"@), self.line(" end"@)]
    }
}

/// Each poll prints the next lines of the three, in order, none twice and none
/// skipped, and the work is ready exactly when the last has been printed.
pub proof fn lemma_work_prints_in_order(
    w: WorkFuture,
    cx: ContextView,
    post: WorkFuture,
    cx_post: ContextView,
    result: Poll<()>,
)
    requires
        w.pollable(),
        w.poll_step(cx, post, cx_post, result),
    ensures
        w.phase() <= post.phase() <= 3,
        post.name == w.name,
        cx_post.output == cx.output + w.lines().subrange(w.phase() as int, post.phase() as int),
        (result is Ready) <==> post.phase() == 3,
{
    let l = w.lines();
    assert(l.subrange(0, 0) =~= Seq::<Seq<char>>::empty());
    assert(l.subrange(1, 1) =~= Seq::<Seq<char>>::empty());
    assert(l.subrange(2, 2) =~= Seq::<Seq<char>>::empty());
    assert(l.subrange(0, 1) =~= seq![l[0]]);
    assert(l.subrange(0, 2) =~= seq![l[0], l[1]]);
    assert(l.subrange(0, 3) =~= seq![l[0], l[1], l[2]]);
    assert(l.subrange(1, 2) =~= seq![l[1]]);
    assert(l.subrange(1, 3) =~= seq![l[1], l[2]]);
    assert(l.subrange(2, 3) =~= seq![l[2]]);
    assert(cx.output + Seq::<Seq<char>>::empty() =~= cx.output);
    assert(cx.output.push(l[0]).push(l[1]) =~= cx.output + seq![l[0], l[1]]);
    assert(cx.output.push(l[0]).push(l[1]).push(l[2]) =~= cx.output + seq![l[0], l[1], l[2]]);
    assert(cx.output.push(l[1]).push(l[2]) =~= cx.output + seq![l[1], l[2]]);
    assert(cx.output.push(l[0]) =~= cx.output + seq![l[0]]);
    assert(cx.output.push(l[1]) =~= cx.output + seq![l[1]]);
    assert(cx.output.push(l[2]) =~= cx.output + seq![l[2]]);
}

/// The middle line comes no sooner than the first sleep after the start line,
/// and the end line no sooner than the second sleep after the middle line: a
/// poll that moves the work on from a sleep happens at or after its wake time,
/// and each sleep is started at the instant of the line before it.
pub proof fn lemma_work_sleeps_in_full(
    w: WorkFuture,
    cx: ContextView,
    post: WorkFuture,
    cx_post: ContextView,
    result: Poll<()>,
)
    requires
        cx.now <= crate::context::MAX_INSTANT,
        w.pollable(),
        w.poll_step(cx, post, cx_post, result),
    ensures
        w.state matches WorkState::FirstSleep(s) ==> (post.phase() > 1 ==> cx.now >= s.wake_time),
        w.state matches WorkState::SecondSleep(s) ==> (post.phase() > 2 ==> cx.now >= s.wake_time),
        post.state matches WorkState::FirstSleep(s) ==> (w.state is Start ==> s.wake_time == cx.now
            + w.first),
        post.state matches WorkState::SecondSleep(s) ==> (w.phase() < 2 ==> s.wake_time == cx.now
            + w.second),
{
}

/// Where a work's sleeps stand against the instant `t0` of its first poll:
/// the first sleep ends `first` after `t0`, the second no sooner than `first`
/// and `second` after `t0`.
pub open spec fn on_schedule(w: WorkFuture, t0: int) -> bool {
    match w.state {
        WorkState::Start => false,
        WorkState::FirstSleep(s) => s.wake_time == t0 + w.first,
        WorkState::SecondSleep(s) => s.wake_time >= t0 + w.first + w.second,
        WorkState::End => true,
    }
}

/// The first `m` polls of a run keep the work on schedule, leave its
/// durations alone, and finish it only at an instant no sooner than both
/// sleeps after the first poll.
proof fn lemma_run_on_schedule(
    works: Seq<WorkFuture>,
    contexts: Seq<ContextView>,
    posts: Seq<ContextView>,
    results: Seq<Poll<()>>,
    m: int,
)
    requires
        results.len() > 0,
        works.len() == results.len() + 1,
        contexts.len() == results.len(),
        posts.len() == results.len(),
        works[0].state is Start,
        works[0].pollable(),
        forall|i: int|
            0 <= i < results.len() ==> #[trigger] works[i].poll_step(
                contexts[i],
                works[i + 1],
                posts[i],
                results[i],
            ),
        forall|i: int| 0 <= i < results.len() - 1 ==> #[trigger] results[i] is Pending,
        forall|i: int| 0 <= i < results.len() ==> #[trigger] contexts[i].now <= MAX_INSTANT,
        1 <= m <= results.len(),
    ensures
        works[m].first == works[0].first,
        works[m].second == works[0].second,
        on_schedule(works[m], contexts[0].now as int),
        results[m - 1] is Ready ==> contexts[m - 1].now >= contexts[0].now + works[0].first
            + works[0].second,
        results[m - 1] is Ready <==> works[m].state is End,
    decreases m,
{
    let k = m - 1;
    assert(works[k].poll_step(contexts[k], works[k + 1], posts[k], results[k]));
    if m > 1 {
        lemma_run_on_schedule(works, contexts, posts, results, m - 1);
        assert(results[m - 2] is Pending);
    }
}

/// A work is ready no sooner than both its sleeps after its first poll: over
/// any run of polls from the start, each made while the work is still
/// pending, the poll that makes it ready comes at an instant at least `first`
/// plus `second` after the first poll. The second sleep starts only once the
/// first is over.
pub proof fn lemma_work_ready_no_sooner(
    works: Seq<WorkFuture>,
    contexts: Seq<ContextView>,
    posts: Seq<ContextView>,
    results: Seq<Poll<()>>,
)
    requires
        results.len() > 0,
        works.len() == results.len() + 1,
        contexts.len() == results.len(),
        posts.len() == results.len(),
        works[0].state is Start,
        works[0].pollable(),
        forall|i: int|
            0 <= i < results.len() ==> #[trigger] works[i].poll_step(
                contexts[i],
                works[i + 1],
                posts[i],
                results[i],
            ),
        forall|i: int| 0 <= i < results.len() - 1 ==> #[trigger] results[i] is Pending,
        forall|i: int| 0 <= i < results.len() ==> #[trigger] contexts[i].now <= MAX_INSTANT,
        results[results.len() - 1] is Ready,
    ensures
        contexts[results.len() - 1].now >= contexts[0].now + works[0].first + works[0].second,
{
    lemma_run_on_schedule(works, contexts, posts, results, results.len() as int);
}

/// `foo` is ready no sooner than a second and a half after its first poll.
pub proof fn lemma_foo_ready_no_sooner(
    works: Seq<WorkFuture>,
    contexts: Seq<ContextView>,
    posts: Seq<ContextView>,
    results: Seq<Poll<()>>,
)
    requires
        results.len() > 0,
        works.len() == results.len() + 1,
        contexts.len() == results.len(),
        posts.len() == results.len(),
        works[0].state is Start,
        works[0].first == SECOND / 2,
        works[0].second == SECOND,
        forall|i: int|
            0 <= i < results.len() ==> #[trigger] works[i].poll_step(
                contexts[i],
                works[i + 1],
                posts[i],
                results[i],
            ),
        forall|i: int| 0 <= i < results.len() - 1 ==> #[trigger] results[i] is Pending,
        forall|i: int| 0 <= i < results.len() ==> #[trigger] contexts[i].now <= MAX_INSTANT,
        results[results.len() - 1] is Ready,
    ensures
        contexts[results.len() - 1].now >= contexts[0].now + 1_500_000_000,
{
    lemma_work_ready_no_sooner(works, contexts, posts, results);
}

} // verus!
