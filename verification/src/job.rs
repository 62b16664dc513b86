use vstd::prelude::*;
use vstd::string::*;
use crate::context::{Context, ContextView, lemma_coin_drawn_leads_to, lemma_steps_lead_to, lemma_leads_to_transitive, lemma_leads_to_reflexive};
use crate::future::Future;
use crate::poll::Poll;
use crate::sleep::{SleepFuture, sleep};

verus! {

/// How long a job sleeps before it prints its number: a tenth of a second,
/// given as the `f32` 0.1, which is 100 000 001 nanoseconds.
pub const JOB_SLEEP: u64 = 100_000_001;

/// The character of the decimal digit `d`.
pub open spec fn digit_char(d: nat) -> char {
    (d + 48) as char
}

/// The decimal digits of `n`, most significant first, without leading zeros.
pub open spec fn decimal(n: nat) -> Seq<char>
    decreases n,
{
    if n < 10 {
        seq![digit_char(n)]
    } else {
        decimal(n / 10).push(digit_char(n % 10))
    }
}

fn digit_str(d: u64) -> (s: &'static str)
    requires
        d < 10,
    ensures
        s@ == seq![digit_char(d as nat)],
{
    match d {
        0 => {
            proof {
                reveal_strlit("0");
            }
            "0"
        },
        1 => {
            proof {
                reveal_strlit("1");
            }
            "1"
        },
        2 => {
            proof {
                reveal_strlit("2");
            }
            "2"
        },
        3 => {
            proof {
                reveal_strlit("3");
            }
            "3"
        },
        4 => {
            proof {
                reveal_strlit("4");
            }
            "4"
        },
        5 => {
            proof {
                reveal_strlit("5");
            }
            "5"
        },
        6 => {
            proof {
                reveal_strlit("6");
            }
            "6"
        },
        7 => {
            proof {
                reveal_strlit("7");
            }
            "7"
        },
        8 => {
            proof {
                reveal_strlit("8");
            }
            "8"
        },
        _ => {
            proof {
                reveal_strlit("9");
            }
            "9"
        },
    }
}

fn push_decimal(s: &mut String, n: u64)
    ensures
        final(s)@ == old(s)@ + decimal(n as nat),
    decreases n,
{
    if n >= 10 {
        push_decimal(s, n / 10);
    }
    s.append(digit_str(n % 10));
    proof {
        if n >= 10 {
            assert(decimal(n as nat) == decimal((n / 10) as nat).push(digit_char((n % 10) as nat)));
        }
    }
}

/// `n` written in decimal.
pub fn decimal_string(n: u64) -> (s: String)
    ensures
        s@ == decimal(n as nat),
{
    let mut s = String::new();
    push_decimal(&mut s, n);
    proof {
        assert(s@ =~= decimal(n as nat));
    }
    s
}

/// Hands job `job` to the runtime, which starts it after the current poll.
pub fn spawn_task(cx: &mut Context, job: u64)
    ensures
        final(cx)@ == old(cx)@.with_spawned(job),
{
    cx.spawn(job);
}

/// Where a [`JobFuture`] stands.
#[derive(Clone, Copy)]
pub enum JobState {
    Start,
    Sleeping(SleepFuture),
    Done,
}

/// Job number `n`: sleeps a tenth of a second from its first poll, prints its
/// number, then flips a coin and on heads spawns two jobs numbered `n + 1`.
pub struct JobFuture {
    pub n: u64,
    pub state: JobState,
}

/// Job number `n`, not yet started.
pub fn job(n: u64) -> (j: JobFuture)
    ensures
        j.n == n,
        j.state is Start,
{
    JobFuture { n, state: JobState::Start }
}

impl JobFuture {
    /// What the job leaves in the context once its sleep is over, for either side
    /// of the coin.
    pub open spec fn finished_in(self, cx: ContextView, heads: bool) -> ContextView {
        let printed = cx.printed(decimal(self.n as nat));
        if heads {
            printed.with_spawned((self.n + 1) as u64).with_spawned((self.n + 1) as u64)
        } else {
            printed
        }
    }

    /// Waiting in the sleep `s`.
    pub open spec fn wait(self, s: SleepFuture, cx: ContextView, heads: bool) -> (
        JobFuture,
        ContextView,
        Poll<()>,
    ) {
        if cx.now >= s.wake_time {
            (
                JobFuture { state: JobState::Done, ..self },
                self.finished_in(cx.coin_drawn(), heads),
                Poll::Ready(()),
            )
        } else {
            (
                JobFuture { state: JobState::Sleeping(s), ..self },
                cx.registered(s.wake_time),
                Poll::Pending,
            )
        }
    }

    /// One poll, given the side the coin shows if it is flipped.
    pub open spec fn transition(self, cx: ContextView, heads: bool) -> (
        JobFuture,
        ContextView,
        Poll<()>,
    ) {
        match self.state {
            JobState::Start => self.wait(
                SleepFuture { wake_time: (cx.now + JOB_SLEEP) as u64 },
                cx,
                heads,
            ),
            JobState::Sleeping(s) => self.wait(s, cx, heads),
            JobState::Done => (self, cx, Poll::Pending),
        }
    }

    /// The end of the job once the coin shows `heads`: prints the number, and
    /// on heads spawns two jobs numbered one higher.
    pub fn finish(&mut self, cx: &mut Context, heads: bool)
        requires
            old(self).n < u64::MAX,
        ensures
            final(cx)@ == old(self).finished_in(old(cx)@, heads),
            final(self).n == old(self).n,
            final(self).state is Done,
            old(cx)@.leads_to(final(cx)@),
    {
        let ghost cx0 = cx@;
        let line = decimal_string(self.n);
        proof {
            lemma_steps_lead_to(cx@, 0, line@, 0);
        }
        cx.print(line);
        if heads {
            let ghost cx1 = cx@;
            proof {
                lemma_steps_lead_to(cx1, 0, Seq::empty(), (self.n + 1) as u64);
            }
            spawn_task(cx, self.n + 1);
            let ghost cx2 = cx@;
            proof {
                lemma_steps_lead_to(cx2, 0, Seq::empty(), (self.n + 1) as u64);
            }
            spawn_task(cx, self.n + 1);
            proof {
                lemma_leads_to_transitive(cx0, cx1, cx2);
                lemma_leads_to_transitive(cx0, cx2, cx@);
            }
        }
        self.state = JobState::Done;
    }
}

impl Future for JobFuture {
    type Output = ();

    open spec fn pollable(&self) -> bool {
        &&& !(self.state is Done)
        &&& self.n < u64::MAX
    }

    /// The coin is the only thing left open: the step is the transition for
    /// one side or the other.
    open spec fn poll_step(
        &self,
        cx: ContextView,
        post: Self,
        cx_post: ContextView,
        result: Poll<()>,
    ) -> bool {
        exists|heads: bool|
            (cx.coins.len() > 0 ==> heads == cx.coins[0]) && (post, cx_post, result)
                == #[trigger] self.transition(cx, heads)
    }

    fn poll(&mut self, cx: &mut Context) -> (result: Poll<()>) {
        let ghost cx0 = cx@;
        let ghost me = *self;
        proof {
            lemma_leads_to_reflexive(cx0);
        }
        if let JobState::Start = self.state {
            let sleep_future = sleep(cx.now(), JOB_SLEEP);
            self.state = JobState::Sleeping(sleep_future);
        }
        if let JobState::Sleeping(s) = self.state {
            let mut sleep_future = s;
            if sleep_future.poll(cx).is_pending() {
                proof {
                    let heads = if cx0.coins.len() > 0 {
                        cx0.coins[0]
                    } else {
                        true
                    };
                    assert((*self, cx@, Poll::<()>::Pending) == me.transition(cx0, heads));
                }
                return Poll::Pending;
            }
            let ghost cx_flip = cx@;
            let heads = cx.flip_coin();
            let ghost cx1 = cx@;
            proof {
                lemma_coin_drawn_leads_to(cx_flip);
                lemma_leads_to_transitive(cx0, cx_flip, cx1);
            }
            self.finish(cx, heads);
            proof {
                lemma_leads_to_transitive(cx0, cx1, cx@);
                assert((*self, cx@, Poll::Ready(())) == me.transition(cx0, heads));
            }
            return Poll::Ready(());
        }
        proof {
            assert(false);
        }
        Poll::Pending
    }
}

/// A job prints its number only at the poll that finishes it, and then spawns
/// either nothing or two jobs numbered one higher; a poll that leaves it
/// pending prints and spawns nothing.
pub proof fn lemma_job_step(
    j: JobFuture,
    cx: ContextView,
    post: JobFuture,
    cx_post: ContextView,
    result: Poll<()>,
)
    requires
        j.pollable(),
        j.poll_step(cx, post, cx_post, result),
    ensures
        post.n == j.n,
        result is Pending ==> cx_post.output == cx.output && cx_post.spawned == cx.spawned,
        result is Ready ==> cx_post.output == cx.output.push(decimal(j.n as nat)),
        result is Ready ==> cx_post.spawned == cx.spawned || cx_post.spawned == cx.spawned.push(
            (j.n + 1) as u64,
        ).push((j.n + 1) as u64),
        (result is Ready) <==> (post.state is Done),
{
    let heads = choose|heads: bool|
        (post, cx_post, result) == #[trigger] j.transition(cx, heads);
}

/// The coin decides the walk: a job that finishes at a poll where a coin is
/// supplied uses up that coin, and spawns two jobs numbered one higher when it
/// shows heads and none when it shows tails. A pending poll uses no coin.
pub proof fn lemma_job_follows_the_coin(
    j: JobFuture,
    cx: ContextView,
    post: JobFuture,
    cx_post: ContextView,
    result: Poll<()>,
)
    requires
        j.pollable(),
        j.poll_step(cx, post, cx_post, result),
    ensures
        result is Pending ==> cx_post.coins == cx.coins,
        result is Ready && cx.coins.len() > 0 ==> cx_post.coins == cx.coins.drop_first(),
        result is Ready && cx.coins.len() > 0 && cx.coins[0] ==> cx_post.spawned
            == cx.spawned.push((j.n + 1) as u64).push((j.n + 1) as u64),
        result is Ready && cx.coins.len() > 0 && !cx.coins[0] ==> cx_post.spawned == cx.spawned,
{
    let heads = choose|heads: bool|
        (cx.coins.len() > 0 ==> heads == cx.coins[0]) && (post, cx_post, result)
            == #[trigger] j.transition(cx, heads);
}

} // verus!
