use vstd::prelude::*;
use std::collections::VecDeque;
use crate::context::{Context, ContextView, MAX_INSTANT, lemma_leads_to_reflexive, lemma_leads_to_transitive, lemma_prefix_transitive};
use crate::future::Future;
use crate::job::{JobFuture, JobState, job};
use crate::poll::Poll;

verus! {

/// The polls of a run over a list of tasks: the context before each poll (and
/// after the last), each task as its poll left it, and each result.
pub struct PollTrace {
    pub contexts: Seq<ContextView>,
    pub posts: Seq<JobFuture>,
    pub results: Seq<Poll<()>>,
}

/// The tasks among `posts` whose poll stayed pending, in order.
pub open spec fn pending_posts(posts: Seq<JobFuture>, results: Seq<Poll<()>>) -> Seq<JobFuture>
    decreases posts.len(),
{
    if posts.len() == 0 || results.len() == 0 {
        Seq::empty()
    } else {
        pending_posts(posts.drop_last(), results.drop_last()) + if results.last() is Pending {
            seq![posts.last()]
        } else {
            Seq::empty()
        }
    }
}

impl PollTrace {
    /// The trace is one of polling `tasks` once each, in order, from `cx` to
    /// `cx_post`, keeping `kept`.
    pub open spec fn explains(
        self,
        tasks: Seq<JobFuture>,
        cx: ContextView,
        kept: Seq<JobFuture>,
        cx_post: ContextView,
    ) -> bool {
        &&& self.contexts.len() == tasks.len() + 1
        &&& self.posts.len() == tasks.len()
        &&& self.results.len() == tasks.len()
        &&& self.contexts[0] == cx
        &&& self.contexts[tasks.len() as int] == cx_post
        &&& forall|i: int|
            0 <= i < tasks.len() ==> #[trigger] tasks[i].poll_step(
                self.contexts[i],
                self.posts[i],
                self.contexts[i + 1],
                self.results[i],
            )
        &&& kept == pending_posts(self.posts, self.results)
    }
}

/// Polling `tasks` once each, in order, from context `cx` to `cx_post`, keeps
/// exactly the tasks that stayed pending, as they were left by their poll, in
/// their order.
pub open spec fn polled_in_order(
    tasks: Seq<JobFuture>,
    cx: ContextView,
    kept: Seq<JobFuture>,
    cx_post: ContextView,
) -> bool {
    exists|trace: PollTrace| #[trigger] trace.explains(tasks, cx, kept, cx_post)
}

/// The jobs started for the spawned numbers `spawned`, in order. A number with
/// no successor (`u64::MAX`) names a job whose children could not be numbered,
/// and is not started.
pub open spec fn fresh_jobs(spawned: Seq<u64>) -> Seq<JobFuture>
    decreases spawned.len(),
{
    if spawned.len() == 0 {
        Seq::empty()
    } else {
        let n = spawned.last();
        fresh_jobs(spawned.drop_last()) + if n < u64::MAX {
            seq![JobFuture { n, state: JobState::Start }]
        } else {
            Seq::empty()
        }
    }
}

/// One round of the task loop: every task is polled once and the pending ones
/// are kept; then every job spawned so far is started, polled once, and kept
/// if pending, after the older tasks.
pub open spec fn round(
    tasks: Seq<JobFuture>,
    cx: ContextView,
    tasks_post: Seq<JobFuture>,
    cx_post: ContextView,
) -> bool {
    exists|kept: Seq<JobFuture>, mid: ContextView, started: Seq<JobFuture>|
        #[trigger] polled_in_order(tasks, cx, kept, mid) && #[trigger] polled_in_order(
            fresh_jobs(mid.spawned),
            mid.without_spawned(),
            started,
            cx_post,
        ) && tasks_post == kept + started
}

/// Polls each task once, in order, and keeps the pending ones.
fn poll_jobs(tasks: VecDeque<JobFuture>, cx: &mut Context) -> (kept: VecDeque<JobFuture>)
    requires
        forall|i: int| 0 <= i < tasks@.len() ==> #[trigger] tasks@[i].pollable(),
    ensures
        polled_in_order(tasks@, old(cx)@, kept@, final(cx)@),
        forall|i: int| 0 <= i < kept@.len() ==> #[trigger] kept@[i].pollable(),
        old(cx)@.leads_to(final(cx)@),
{
    let ghost cx0 = cx@;
    let ghost all = tasks@;
    let ghost n = all.len();
    let ghost mut trace = PollTrace { contexts: seq![cx0], posts: Seq::empty(), results: Seq::empty() };
    proof {
        lemma_leads_to_reflexive(cx0);
        assert(all.take(0).len() == 0);
        assert(all.skip(0) =~= all);
        assert(trace.explains(all.take(0), cx0, Seq::empty(), cx0));
    }
    let mut rest = tasks;
    let mut kept: VecDeque<JobFuture> = VecDeque::new();
    while rest.len() > 0
        invariant
            rest@.len() <= n,
            n == all.len(),
            rest@ == all.skip(n - rest@.len()),
            trace.explains(all.take(n - rest@.len()), cx0, kept@, cx@),
            forall|i: int| 0 <= i < n ==> #[trigger] all[i].pollable(),
            forall|i: int| 0 <= i < kept@.len() ==> #[trigger] kept@[i].pollable(),
            cx0.leads_to(cx@),
        decreases rest.len(),
    {
        let ghost i = n - rest@.len();
        let ghost before = kept@;
        let ghost mid = cx@;
        let mut t = rest.pop_front().unwrap();
        proof {
            assert(all[i] == t) by {
                assert(all.skip(i)[0] == all[i]);
            }
            assert(rest@ =~= all.skip(n - rest@.len()));
        }
        let r = t.poll(cx);
        let ghost t_post = t;
        if r.is_pending() {
            kept.push_back(t);
        }
        proof {
            let old_trace = trace;
            trace = PollTrace {
                contexts: trace.contexts.push(cx@),
                posts: trace.posts.push(t_post),
                results: trace.results.push(r),
            };
            assert(trace.posts.drop_last() =~= old_trace.posts);
            assert(trace.results.drop_last() =~= old_trace.results);
            assert forall|k: int| 0 <= k < i + 1 implies #[trigger] all.take(i + 1)[k].poll_step(
                trace.contexts[k],
                trace.posts[k],
                trace.contexts[k + 1],
                trace.results[k],
            ) by {
                if k < i {
                    assert(all.take(i)[k] == all.take(i + 1)[k]);
                }
            }
            assert(trace.contexts[0] == cx0);
            assert(trace.contexts[i + 1] == cx@);
            assert(all.take(i + 1).len() == i + 1);
            assert(kept@ == pending_posts(trace.posts, trace.results));
            assert(trace.explains(all.take(i + 1), cx0, kept@, cx@));
            lemma_leads_to_transitive(cx0, mid, cx@);
        }
    }
    proof {
        assert(all.take(n as int) =~= all);
        assert(trace.explains(all, cx0, kept@, cx@));
    }
    kept
}

/// The first poll of a job only starts its sleep: the context keeps its
/// instant and spawned jobs, and the job stays pending.
proof fn lemma_first_polls_spawn_nothing(
    jobs: Seq<JobFuture>,
    cx: ContextView,
    kept: Seq<JobFuture>,
    cx_post: ContextView,
    trace: PollTrace,
    m: int,
)
    requires
        trace.explains(jobs, cx, kept, cx_post),
        forall|i: int| 0 <= i < jobs.len() ==> (#[trigger] jobs[i]).state is Start,
        cx.now <= MAX_INSTANT,
        0 <= m <= jobs.len(),
    ensures
        trace.contexts[m].now == cx.now,
        trace.contexts[m].spawned == cx.spawned,
        forall|i: int| 0 <= i < m ==> #[trigger] trace.results[i] is Pending,
    decreases m,
{
    if m > 0 {
        lemma_first_polls_spawn_nothing(jobs, cx, kept, cx_post, trace, m - 1);
        let j = jobs[m - 1];
        let k = m - 1;
        assert(jobs[k].poll_step(
            trace.contexts[k],
            trace.posts[k],
            trace.contexts[k + 1],
            trace.results[k],
        ));
        let heads = choose|heads: bool|
            (trace.posts[m - 1], trace.contexts[m], trace.results[m - 1]) == #[trigger] j.transition(
                trace.contexts[m - 1],
                heads,
            );
        assert(j.state is Start);
    }
}

/// When every poll of a run stayed pending, every task is kept.
proof fn lemma_all_pending_all_kept(posts: Seq<JobFuture>, results: Seq<Poll<()>>)
    requires
        posts.len() == results.len(),
        forall|i: int| 0 <= i < results.len() ==> #[trigger] results[i] is Pending,
    ensures
        pending_posts(posts, results) == posts,
    decreases posts.len(),
{
    if posts.len() > 0 {
        let rs = results.drop_last();
        assert forall|i: int| 0 <= i < rs.len() implies #[trigger] rs[i] is Pending by {
            assert(rs[i] == results[i]);
        }
        lemma_all_pending_all_kept(posts.drop_last(), rs);
        assert(results.last() == results[results.len() - 1]);
        assert(posts.drop_last().push(posts.last()) =~= posts);
    }
}

/// Starts the jobs for the spawned numbers, in order.
fn start_jobs(spawned: Vec<u64>) -> (jobs: VecDeque<JobFuture>)
    ensures
        jobs@ == fresh_jobs(spawned@),
        forall|i: int| 0 <= i < jobs@.len() ==> #[trigger] jobs@[i].pollable(),
        forall|i: int| 0 <= i < jobs@.len() ==> (#[trigger] jobs@[i]).state is Start,
{
    let mut jobs: VecDeque<JobFuture> = VecDeque::new();
    let mut i: usize = 0;
    while i < spawned.len()
        invariant
            i <= spawned@.len(),
            jobs@ == fresh_jobs(spawned@.take(i as int)),
            forall|k: int| 0 <= k < jobs@.len() ==> #[trigger] jobs@[k].pollable(),
            forall|k: int| 0 <= k < jobs@.len() ==> (#[trigger] jobs@[k]).state is Start,
        decreases spawned.len() - i,
    {
        let n = spawned[i];
        proof {
            assert(spawned@.take(i + 1).drop_last() =~= spawned@.take(i as int));
            assert(spawned@.take(i + 1).last() == n);
        }
        if n < u64::MAX {
            jobs.push_back(job(n));
            proof {
                assert(jobs@ =~= fresh_jobs(spawned@.take(i + 1)));
            }
        } else {
            proof {
                assert(jobs@ =~= fresh_jobs(spawned@.take(i + 1)));
            }
        }
        i = i + 1;
    }
    proof {
        assert(spawned@.take(i as int) =~= spawned@);
    }
    jobs
}

/// The task loop of a runtime that polls every task on every round.
pub struct Executor {
    tasks: VecDeque<JobFuture>,
}

impl Executor {
    #[verifier::type_invariant]
    spec fn all_pollable(self) -> bool {
        forall|i: int| 0 <= i < self.tasks@.len() ==> #[trigger] self.tasks@[i].pollable()
    }

    /// The tasks still running, in the order they are polled.
    pub closed spec fn tasks(self) -> Seq<JobFuture> {
        self.tasks@
    }

    /// A runtime with job number `first` as its one task.
    pub fn new(first: u64) -> (ex: Executor)
        requires
            first < u64::MAX,
        ensures
            ex.tasks() == seq![JobFuture { n: first, state: JobState::Start }],
    {
        let mut tasks = VecDeque::new();
        tasks.push_back(job(first));
        proof {
            assert(tasks@ =~= seq![JobFuture { n: first, state: JobState::Start }]);
        }
        Executor { tasks }
    }

    /// How many tasks are still running; each of them may be polled.
    pub fn len(&self) -> (n: usize)
        ensures
            n == self.tasks().len(),
            forall|i: int| 0 <= i < self.tasks().len() ==> #[trigger] self.tasks()[i].pollable(),
    {
        proof {
            use_type_invariant(self);
        }
        self.tasks.len()
    }

    /// One round: polls every task and keeps the pending ones, then starts the
    /// jobs spawned meanwhile, polling each once. Starting a job never spawns
    /// another, so no spawned job is left waiting. Returns whether any task is
    /// left: when none is, the loop is over.
    pub fn run_round(&mut self, cx: &mut Context) -> (busy: bool)
        ensures
            round(old(self).tasks(), old(cx)@, final(self).tasks(), final(cx)@),
            busy == (final(self).tasks().len() > 0),
            final(cx)@.spawned.len() == 0,
            final(cx)@.now == old(cx)@.now,
            old(cx)@.output.is_prefix_of(final(cx)@.output),
    {
        proof {
            use_type_invariant(&*self);
        }
        // Reading the instant brings its bound into the proofs below.
        let _now = cx.now();
        let mut taken = Executor { tasks: VecDeque::new() };
        std::mem::swap(&mut taken, self);
        let Executor { tasks } = taken;
        let kept = poll_jobs(tasks, cx);
        let ghost mid = cx@;
        let spawned = cx.take_spawned();
        let fresh = start_jobs(spawned);
        let ghost fresh_view = fresh@;
        let ghost cx_started = cx@;
        let started = poll_jobs(fresh, cx);
        proof {
            lemma_prefix_transitive(old(cx)@.output, mid.output, cx_started.output);
            let trace = choose|trace: PollTrace|
                #[trigger] trace.explains(fresh_view, cx_started, started@, cx@);
            lemma_first_polls_spawn_nothing(
                fresh_view,
                cx_started,
                started@,
                cx@,
                trace,
                fresh_view.len() as int,
            );
        }
        let mut all = kept;
        let mut started_mut = started;
        let ghost kept_view = all@;
        let ghost started_view = started_mut@;
        all.append(&mut started_mut);
        proof {
            assert(polled_in_order(old(self).tasks(), old(cx)@, kept_view, mid));
            assert(polled_in_order(fresh_jobs(mid.spawned), mid.without_spawned(), started_view, cx@));
            assert(all@ == kept_view + started_view);
            lemma_prefix_transitive(old(cx)@.output, cx_started.output, cx@.output);
            assert forall|i: int| 0 <= i < all@.len() implies #[trigger] all@[i].pollable() by {
                if i < kept_view.len() {
                    assert(all@[i] == kept_view[i]);
                } else {
                    assert(all@[i] == started_view[i - kept_view.len()]);
                }
            }
        }
        let busy = all.len() > 0;
        *self = Executor { tasks: all };
        busy
    }
}

/// Starting jobs loses none of them: every freshly started job stays pending
/// after its first poll and is kept, in order, with its number.
pub proof fn lemma_started_jobs_all_kept(
    jobs: Seq<JobFuture>,
    cx: ContextView,
    kept: Seq<JobFuture>,
    cx_post: ContextView,
)
    requires
        polled_in_order(jobs, cx, kept, cx_post),
        forall|i: int| 0 <= i < jobs.len() ==> (#[trigger] jobs[i]).state is Start,
        cx.now <= MAX_INSTANT,
    ensures
        kept.len() == jobs.len(),
        forall|i: int| 0 <= i < jobs.len() ==> (#[trigger] kept[i]).n == jobs[i].n,
        cx_post.spawned == cx.spawned,
        cx_post.output == cx.output,
{
    let trace = choose|trace: PollTrace| #[trigger] trace.explains(jobs, cx, kept, cx_post);
    lemma_first_polls_spawn_nothing(jobs, cx, kept, cx_post, trace, jobs.len() as int);
    lemma_all_pending_all_kept(trace.posts, trace.results);
    lemma_first_polls_keep_output(jobs, cx, kept, cx_post, trace, jobs.len() as int);
    assert forall|i: int| 0 <= i < jobs.len() implies (#[trigger] kept[i]).n == jobs[i].n by {
        assert(jobs[i].poll_step(
            trace.contexts[i],
            trace.posts[i],
            trace.contexts[i + 1],
            trace.results[i],
        ));
        let heads = choose|heads: bool|
            (trace.posts[i], trace.contexts[i + 1], trace.results[i]) == #[trigger] jobs[i].transition(
                trace.contexts[i],
                heads,
            );
    }
}

/// The first poll of a job prints nothing.
proof fn lemma_first_polls_keep_output(
    jobs: Seq<JobFuture>,
    cx: ContextView,
    kept: Seq<JobFuture>,
    cx_post: ContextView,
    trace: PollTrace,
    m: int,
)
    requires
        trace.explains(jobs, cx, kept, cx_post),
        forall|i: int| 0 <= i < jobs.len() ==> (#[trigger] jobs[i]).state is Start,
        cx.now <= MAX_INSTANT,
        0 <= m <= jobs.len(),
    ensures
        trace.contexts[m].output == cx.output,
    decreases m,
{
    if m > 0 {
        lemma_first_polls_keep_output(jobs, cx, kept, cx_post, trace, m - 1);
        lemma_first_polls_spawn_nothing(jobs, cx, kept, cx_post, trace, m - 1);
        let k = m - 1;
        assert(jobs[k].poll_step(
            trace.contexts[k],
            trace.posts[k],
            trace.contexts[k + 1],
            trace.results[k],
        ));
        let heads = choose|heads: bool|
            (trace.posts[k], trace.contexts[m], trace.results[k]) == #[trigger] jobs[k].transition(
                trace.contexts[k],
                heads,
            );
    }
}

/// Every spawned number below `u64::MAX` starts one job, in the order
/// spawned, and no other job is started: when all numbers are below
/// `u64::MAX`, the `i`-th job started is job number `spawned[i]`, not yet
/// polled.
pub proof fn lemma_fresh_jobs_start_each_spawned(spawned: Seq<u64>)
    ensures
        fresh_jobs(spawned).len() <= spawned.len(),
        forall|i: int| 0 <= i < fresh_jobs(spawned).len() ==> (#[trigger] fresh_jobs(spawned)[i]).state is Start,
        (forall|i: int| 0 <= i < spawned.len() ==> #[trigger] spawned[i] < u64::MAX) ==> (
        fresh_jobs(spawned).len() == spawned.len() && forall|i: int|
            0 <= i < spawned.len() ==> #[trigger] fresh_jobs(spawned)[i] == JobFuture {
                n: spawned[i],
                state: JobState::Start,
            }),
    decreases spawned.len(),
{
    if spawned.len() > 0 {
        let rest = spawned.drop_last();
        lemma_fresh_jobs_start_each_spawned(rest);
        let f = fresh_jobs(spawned);
        let fr = fresh_jobs(rest);
        assert forall|i: int| 0 <= i < f.len() implies (#[trigger] f[i]).state is Start by {
            if i < fr.len() {
                assert(f[i] == fr[i]);
            }
        }
        if forall|i: int| 0 <= i < spawned.len() ==> #[trigger] spawned[i] < u64::MAX {
            assert forall|i: int| 0 <= i < rest.len() implies #[trigger] rest[i] < u64::MAX by {
                assert(rest[i] == spawned[i]);
            }
            assert(spawned[spawned.len() - 1] < u64::MAX);
            assert forall|i: int| 0 <= i < spawned.len() implies #[trigger] f[i] == JobFuture {
                n: spawned[i],
                state: JobState::Start,
            } by {
                if i < rest.len() {
                    assert(f[i] == fr[i]);
                    assert(rest[i] == spawned[i]);
                }
            }
        }
    }
}

/// Polls of jobs keep the instant.
proof fn lemma_polls_keep_now(
    tasks: Seq<JobFuture>,
    cx: ContextView,
    kept: Seq<JobFuture>,
    cx_post: ContextView,
    trace: PollTrace,
    m: int,
)
    requires
        trace.explains(tasks, cx, kept, cx_post),
        0 <= m <= tasks.len(),
    ensures
        trace.contexts[m].now == cx.now,
    decreases m,
{
    if m > 0 {
        lemma_polls_keep_now(tasks, cx, kept, cx_post, trace, m - 1);
        let k = m - 1;
        assert(tasks[k].poll_step(
            trace.contexts[k],
            trace.posts[k],
            trace.contexts[k + 1],
            trace.results[k],
        ));
        let heads = choose|heads: bool|
            (trace.contexts[k].coins.len() > 0 ==> heads == trace.contexts[k].coins[0]) && (
            trace.posts[k],
            trace.contexts[m],
            trace.results[k],
        ) == #[trigger] tasks[k].transition(trace.contexts[k], heads);
    }
}

/// After a round, the task list is the older tasks still pending followed by
/// one job for each number spawned during the round (and before it), in the
/// order spawned, each polled once: when the spawned numbers are all below
/// `u64::MAX`, the last of the tasks are exactly jobs with those numbers. A
/// heads on job `n` thus leaves two tasks numbered `n + 1` at the end.
pub proof fn lemma_round_runs_every_spawned_job(
    tasks: Seq<JobFuture>,
    cx: ContextView,
    tasks_post: Seq<JobFuture>,
    cx_post: ContextView,
)
    requires
        round(tasks, cx, tasks_post, cx_post),
        cx.now <= MAX_INSTANT,
    ensures
        exists|kept: Seq<JobFuture>, mid: ContextView|
            #[trigger] polled_in_order(tasks, cx, kept, mid) && ((forall|i: int|
                0 <= i < mid.spawned.len() ==> #[trigger] mid.spawned[i] < u64::MAX) ==> (
            tasks_post.len() == kept.len() + mid.spawned.len() && forall|i: int|
                0 <= i < mid.spawned.len() ==> (#[trigger] tasks_post[kept.len() + i]).n
                    == mid.spawned[i])),
{
    let (kept, mid, started) = choose|kept: Seq<JobFuture>, mid: ContextView, started: Seq<JobFuture>|
        #[trigger] polled_in_order(tasks, cx, kept, mid) && #[trigger] polled_in_order(
            fresh_jobs(mid.spawned),
            mid.without_spawned(),
            started,
            cx_post,
        ) && tasks_post == kept + started;
    let trace = choose|trace: PollTrace| #[trigger] trace.explains(tasks, cx, kept, mid);
    lemma_polls_keep_now(tasks, cx, kept, mid, trace, tasks.len() as int);
    let fresh = fresh_jobs(mid.spawned);
    lemma_fresh_jobs_start_each_spawned(mid.spawned);
    lemma_started_jobs_all_kept(fresh, mid.without_spawned(), started, cx_post);
    if forall|i: int| 0 <= i < mid.spawned.len() ==> #[trigger] mid.spawned[i] < u64::MAX {
        assert forall|i: int| 0 <= i < mid.spawned.len() implies (#[trigger] tasks_post[kept.len()
            + i]).n == mid.spawned[i] by {
            assert(tasks_post[kept.len() + i] == started[i]);
            assert(fresh[i] == JobFuture { n: mid.spawned[i], state: JobState::Start });
        }
    }
}

} // verus!
