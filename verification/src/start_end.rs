use vstd::prelude::*;
use vstd::string::*;
use crate::context::{Context, ContextView, lemma_steps_lead_to, lemma_leads_to_transitive, lemma_leads_to_reflexive};
use crate::future::Future;
use crate::poll::Poll;
use crate::sleep::{SleepFuture, sleep};

verus! {

/// Prints "<name> start" on its first poll and "<name> end" once the sleep it
/// was made with is over. The sleep starts when the future is made.
pub struct StartEndFuture {
    pub name: String,
    pub sleep_future: SleepFuture,
    pub is_start: bool,
}

impl StartEndFuture {
    /// A future named `name` whose sleep of `duration` starts at `now`.
    pub fn new(name: &str, now: u64, duration: u64) -> (f: StartEndFuture)
        requires
            now + duration <= u64::MAX,
        ensures
            f.name@ == name@,
            f.sleep_future.wake_time == now + duration,
            f.is_start,
    {
        StartEndFuture { name: String::from_str(name), sleep_future: sleep(now, duration), is_start: true }
    }

    /// The line `name` followed by `suffix`.
    pub open spec fn line(self, suffix: Seq<char>) -> Seq<char> {
        self.name@ + suffix
    }
}

impl Future for StartEndFuture {
    type Output = ();

    open spec fn pollable(&self) -> bool {
        true
    }

    /// The start line on the first poll only; then the end line and `Ready`
    /// once the wake time has come, else a registered wake time and `Pending`.
    open spec fn poll_step(
        &self,
        cx: ContextView,
        post: Self,
        cx_post: ContextView,
        result: Poll<()>,
    ) -> bool {
        let started = if self.is_start {
            cx.printed(self.line(" start"@))
        } else {
            cx
        };
        &&& post == StartEndFuture { is_start: false, ..*self }
        &&& if cx.now >= self.sleep_future.wake_time {
            cx_post == started.printed(self.line(" end"@)) && result == Poll::Ready(())
        } else {
            cx_post == started.registered(self.sleep_future.wake_time) && result
                == Poll::<()>::Pending
        }
    }

    fn poll(&mut self, cx: &mut Context) -> (result: Poll<()>) {
        let ghost cx0 = cx@;
        proof {
            lemma_leads_to_reflexive(cx0);
        }
        if self.is_start {
            let line = self.name.clone().concat(" start");
            proof {
                lemma_steps_lead_to(cx@, 0, line@, 0);
            }
            cx.print(line);
            self.is_start = false;
        }
        let ghost cx1 = cx@;
        if self.sleep_future.poll(cx).is_pending() {
            proof {
                lemma_leads_to_transitive(cx0, cx1, cx@);
            }
            return Poll::Pending;
        }
        let line = self.name.clone().concat(" end");
        proof {
            lemma_steps_lead_to(cx@, 0, line@, 0);
            lemma_leads_to_transitive(cx0, cx1, cx@);
        }
        cx.print(line);
        Poll::Ready(())
    }
}

/// The start line comes out on the first poll only, and the end line exactly
/// when the poll is ready, at or after the wake time.
pub proof fn lemma_start_end_lines(
    f: StartEndFuture,
    cx: ContextView,
    post: StartEndFuture,
    cx_post: ContextView,
    result: Poll<()>,
)
    requires
        f.poll_step(cx, post, cx_post, result),
    ensures
        !post.is_start,
        post.sleep_future == f.sleep_future,
        (result is Ready) <==> cx.now >= f.sleep_future.wake_time,
        f.is_start && result is Ready ==> cx_post.output == cx.output + seq![
            f.line(" start"@),
            f.line(" end"@),
        ],
        f.is_start && result is Pending ==> cx_post.output == cx.output.push(f.line(" start"@)),
        !f.is_start && result is Ready ==> cx_post.output == cx.output.push(f.line(" end"@)),
        !f.is_start && result is Pending ==> cx_post.output == cx.output,
{
    assert(cx.output.push(f.line(" start"@)).push(f.line(" end"@)) =~= cx.output + seq![
        f.line(" start"@),
        f.line(" end"@),
    ]);
}

} // verus!
