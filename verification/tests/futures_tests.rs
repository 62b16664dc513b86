use handmade_async::combinators::{first, join, join3, timeout};
use handmade_async::context::Context;
use handmade_async::future::Future;
use handmade_async::poll::Poll;
use handmade_async::sleep::{sleep, SleepFuture};
use handmade_async::start_end::StartEndFuture;
use handmade_async::work::{bar, foo, work, WorkState, SECOND};

const MS: u64 = 1_000_000;

/// Polls `f` until it is ready, sleeping (in virtual time) until the registered
/// wake time between polls. Returns the lines printed with the instant of the
/// poll that printed them, and the instant at which `f` finished.
fn run<F: Future>(f: &mut F, start: u64) -> (Vec<(u64, String)>, u64, F::Output) {
    let mut cx = Context::new(start);
    let mut lines = Vec::new();
    loop {
        let r = f.poll(&mut cx);
        let now = cx.now();
        for line in cx.take_output() {
            lines.push((now, line));
        }
        match r {
            Poll::Ready(out) => return (lines, now, out),
            Poll::Pending => {
                let wait = cx.next_wait(now).expect("someone must want a wakeup");
                cx.advance_to(now + wait);
            }
        }
    }
}

fn texts(lines: &[(u64, String)]) -> Vec<&str> {
    lines.iter().map(|(_, l)| l.as_str()).collect()
}

#[test]
fn sleep_is_ready_exactly_at_its_wake_time() {
    let mut s = sleep(100, 50);
    assert_eq!(s.wake_time, 150);
    let mut cx = Context::new(149);
    assert_eq!(s.poll(&mut cx), Poll::Pending);
    assert_eq!(cx.next_wake(), Some(150));
    let mut cx = Context::new(150);
    assert_eq!(s.poll(&mut cx), Poll::Ready(()));
    assert_eq!(cx.next_wake(), None);
    assert_eq!(s.time_remaining(120), Some(30));
    assert_eq!(s.time_remaining(150), None);
    assert!(s.is_elapsed(151));
    assert!(!s.is_elapsed(149));
}

#[test]
fn zero_sleep_is_ready_at_once() {
    let mut s = sleep(7, 0);
    let mut cx = Context::new(7);
    assert_eq!(s.poll(&mut cx), Poll::Ready(()));
}

#[test]
fn pending_sleeps_register_the_earliest_wake_time() {
    let mut cx = Context::new(0);
    let mut a = SleepFuture { wake_time: 300 };
    let mut b = SleepFuture { wake_time: 100 };
    let mut c = SleepFuture { wake_time: 200 };
    assert!(a.poll(&mut cx).is_pending());
    assert_eq!(cx.next_wake(), Some(300));
    assert!(b.poll(&mut cx).is_pending());
    assert!(c.poll(&mut cx).is_pending());
    assert_eq!(cx.next_wake(), Some(100));
    // Order does not matter.
    let mut cx2 = Context::new(0);
    cx2.register_wake(200);
    cx2.register_wake(100);
    cx2.register_wake(300);
    assert_eq!(cx2.next_wake(), Some(100));
}

#[test]
fn next_wait_saturates_and_clears() {
    let mut cx = Context::new(0);
    assert_eq!(cx.next_wait(5), None);
    cx.register_wake(10);
    assert_eq!(cx.next_wait(4), Some(6));
    assert_eq!(cx.next_wake(), None);
    cx.register_wake(10);
    assert_eq!(cx.next_wait(25), Some(0));
}

#[test]
fn foo_prints_three_lines_on_time() {
    let mut f = foo();
    let (lines, end, ()) = run(&mut f, 0);
    assert_eq!(
        lines,
        vec![
            (0, "foo start".to_string()),
            (500 * MS, "foo middle".to_string()),
            (1500 * MS, "foo end".to_string()),
        ]
    );
    assert_eq!(end, 1500 * MS);
    assert!(matches!(f.state, WorkState::End));
}

#[test]
fn bar_takes_two_seconds() {
    let mut b = bar();
    let (lines, end, ()) = run(&mut b, 10);
    assert_eq!(texts(&lines), vec!["bar start", "bar middle", "bar end"]);
    assert_eq!(end, 10 + 2 * SECOND);
}

#[test]
fn work_splits_its_duration() {
    let mut w = work("foo", 1500 * MS);
    assert_eq!(w.first, 750 * MS);
    assert_eq!(w.second, 750 * MS);
    let (lines, end, ()) = run(&mut w, 0);
    assert_eq!(texts(&lines), vec!["foo start", "foo middle", "foo end"]);
    assert_eq!(end, 1500 * MS);
}

#[test]
fn work_with_no_duration_finishes_in_one_poll() {
    let mut w = work("quick", 1);
    let mut cx = Context::new(3);
    assert_eq!(w.poll(&mut cx), Poll::Ready(()));
    assert_eq!(cx.take_output(), vec!["quick start", "quick middle", "quick end"]);
}

#[test]
fn repeated_poll_at_same_instant_prints_nothing_more() {
    let mut w = foo();
    let mut cx = Context::new(0);
    assert!(w.poll(&mut cx).is_pending());
    assert_eq!(cx.take_output(), vec!["foo start"]);
    assert!(w.poll(&mut cx).is_pending());
    assert!(cx.take_output().is_empty());
}

#[test]
fn join_of_foo_and_bar_interleaves() {
    let mut j = join(foo(), bar());
    let (lines, end, ()) = run(&mut j, 0);
    assert_eq!(
        lines,
        vec![
            (0, "foo start".to_string()),
            (0, "bar start".to_string()),
            (500 * MS, "foo middle".to_string()),
            (SECOND, "bar middle".to_string()),
            (1500 * MS, "foo end".to_string()),
            (2 * SECOND, "bar end".to_string()),
        ]
    );
    assert_eq!(end, 2 * SECOND);
    assert!(j.f1_ready && j.f2_ready);
}

#[test]
fn combo_join_of_work() {
    let mut j = join(work("foo", 1500 * MS), work("bar", 2 * SECOND));
    let (lines, end, ()) = run(&mut j, 0);
    assert_eq!(
        texts(&lines),
        vec!["foo start", "bar start", "foo middle", "bar middle", "foo end", "bar end"]
    );
    assert_eq!(end, 2 * SECOND);
}

#[test]
fn ready_join_stays_ready_without_polling_children() {
    let mut j = join(sleep(0, 5), sleep(0, 10));
    let mut cx = Context::new(10);
    assert_eq!(j.poll(&mut cx), Poll::Ready(()));
    assert_eq!(j.poll(&mut cx), Poll::Ready(()));
    assert_eq!(cx.next_wake(), None);
}

#[test]
fn first_finishes_with_the_earlier_child() {
    let mut f = first(foo(), bar());
    let (lines, end, ()) = run(&mut f, 0);
    assert_eq!(
        texts(&lines),
        vec!["foo start", "bar start", "foo middle", "bar middle", "foo end"]
    );
    assert_eq!(end, 1500 * MS);
    assert!(f.f1_ready);
    assert!(!f.f2_ready);
}

#[test]
fn join3_waits_for_all_three() {
    let mut j = join3(sleep(0, SECOND), sleep(0, SECOND), sleep(0, SECOND));
    let (lines, end, ()) = run(&mut j, 0);
    assert!(lines.is_empty());
    assert_eq!(end, SECOND);
    assert!(!j.f1_pending && !j.f2_pending && !j.f3_pending);
}

#[test]
fn join3_of_different_lengths() {
    let mut j = join3(sleep(0, 3), sleep(0, 1), sleep(0, 2));
    let mut cx = Context::new(1);
    assert_eq!(j.poll(&mut cx), Poll::Pending);
    assert!(j.f1_pending && !j.f2_pending && j.f3_pending);
    assert_eq!(cx.next_wake(), Some(2));
    cx.advance_to(3);
    assert_eq!(j.poll(&mut cx), Poll::Ready(()));
}

#[test]
fn timeout_gives_none_at_the_deadline() {
    let mut t = timeout(bar(), 0, SECOND);
    let (lines, end, out) = run(&mut t, 0);
    assert_eq!(out, None);
    assert_eq!(end, SECOND);
    assert_eq!(texts(&lines), vec!["bar start"]);
}

#[test]
fn timeout_passes_on_the_output_before_the_deadline() {
    let mut t = timeout(foo(), 0, 2 * SECOND);
    let (lines, end, out) = run(&mut t, 0);
    assert_eq!(out, Some(()));
    assert_eq!(end, 1500 * MS);
    assert_eq!(texts(&lines), vec!["foo start", "foo middle", "foo end"]);
}

#[test]
fn timeout_checks_the_deadline_first() {
    // Both the deadline and the inner sleep are due: the deadline wins.
    let mut t = timeout(sleep(0, 5), 0, 5);
    let mut cx = Context::new(5);
    assert_eq!(t.poll(&mut cx), Poll::Ready(None));
}

#[test]
fn start_end_prints_start_once() {
    let mut f = StartEndFuture::new("foo", 0, 2500 * MS);
    assert!(f.is_start);
    let mut cx = Context::new(0);
    assert!(f.poll(&mut cx).is_pending());
    cx.advance_to(SECOND);
    assert!(f.poll(&mut cx).is_pending());
    cx.advance_to(2500 * MS);
    assert!(f.poll(&mut cx).is_ready());
    assert_eq!(cx.take_output(), vec!["foo start", "foo end"]);
}

#[test]
fn foobar_join_of_start_end_futures() {
    let mut j = join(
        StartEndFuture::new("foo", 0, 2500 * MS),
        StartEndFuture::new("bar", 0, 2 * SECOND),
    );
    let (lines, end, ()) = run(&mut j, 0);
    assert_eq!(
        lines,
        vec![
            (0, "foo start".to_string()),
            (0, "bar start".to_string()),
            (2 * SECOND, "bar end".to_string()),
            (2500 * MS, "foo end".to_string()),
        ]
    );
    assert_eq!(end, 2500 * MS);
}
