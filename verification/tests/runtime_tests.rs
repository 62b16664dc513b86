use handmade_async::context::Context;
use handmade_async::echo::{echo_reply, escape_ascii};
use handmade_async::executor::Executor;
use handmade_async::future::Future;
use handmade_async::job::{decimal_string, job, spawn_task, JobState, JOB_SLEEP};
use handmade_async::poll::Poll;
use handmade_async::sleep::SleepFuture;
use handmade_async::wakers::TimerTree;

#[test]
fn timer_tree_hands_out_wakers_in_time_order() {
    let mut tree: TimerTree<&str> = TimerTree::new();
    assert!(tree.is_empty());
    assert_eq!(tree.first_wake_time(), None);
    assert_eq!(tree.time_until_first(0), None);
    tree.register(30, "c");
    tree.register(10, "a");
    tree.register(20, "b1");
    tree.register(20, "b2");
    tree.register(40, "d");
    assert_eq!(tree.len(), 5);
    assert_eq!(tree.first_wake_time(), Some(10));
    assert_eq!(tree.time_until_first(4), Some(6));
    assert_eq!(tree.time_until_first(15), Some(0));
    assert_eq!(tree.pop_expired(5), Vec::<&str>::new());
    assert_eq!(tree.pop_expired(20), vec!["a", "b1", "b2"]);
    assert_eq!(tree.first_wake_time(), Some(30));
    assert_eq!(tree.pop_expired(100), vec!["c", "d"]);
    assert!(tree.is_empty());
}

#[test]
fn sleep_registers_its_waker_in_the_tree() {
    let mut tree: TimerTree<u32> = TimerTree::new();
    let s = SleepFuture { wake_time: 50 };
    assert_eq!(s.poll_with_timers(10, &mut tree, 1), Poll::Pending);
    assert_eq!(s.poll_with_timers(20, &mut tree, 2), Poll::Pending);
    assert_eq!(s.poll_with_timers(50, &mut tree, 3), Poll::Ready(()));
    assert_eq!(tree.len(), 2);
    assert_eq!(tree.pop_expired(50), vec![1, 2]);
}

#[test]
fn decimal_strings() {
    assert_eq!(decimal_string(0), "0");
    assert_eq!(decimal_string(7), "7");
    assert_eq!(decimal_string(10), "10");
    assert_eq!(decimal_string(20_000), "20000");
    assert_eq!(decimal_string(u64::MAX), u64::MAX.to_string());
}

#[test]
fn escape_matches_std() {
    let samples: [&[u8]; 5] = [
        b"hello",
        b"tab\there\r\n",
        b"quote \" apostrophe ' backslash \\",
        &[0u8, 1, 0x7f, 0x80, 0x9d, 0xff, b' ', b'~'],
        b"",
    ];
    for s in samples {
        let ours = escape_ascii(s);
        let std: Vec<u8> = s.escape_ascii().collect();
        assert_eq!(ours, std);
    }
    assert_eq!(escape_ascii(b"\x9d"), b"\\x9d".to_vec());
}

#[test]
fn echo_reply_quotes_the_escaped_bytes() {
    assert_eq!(echo_reply(b"hi\n"), b"echo: \"hi\\n\"\n".to_vec());
    assert_eq!(echo_reply(b""), b"echo: \"\"\n".to_vec());
}

#[test]
fn job_sleeps_then_prints_its_number() {
    let mut j = job(7);
    let mut cx = Context::new(0);
    assert_eq!(j.poll(&mut cx), Poll::Pending);
    assert_eq!(cx.next_wake(), Some(JOB_SLEEP));
    assert!(cx.take_output().is_empty());
    cx.advance_to(JOB_SLEEP);
    assert_eq!(j.poll(&mut cx), Poll::Ready(()));
    assert_eq!(cx.take_output(), vec!["7"]);
    let spawned = cx.take_spawned();
    assert!(spawned.is_empty() || spawned == vec![8, 8]);
    assert!(matches!(j.state, JobState::Done));
}

#[test]
fn job_finish_on_heads_spawns_two() {
    let mut j = job(3);
    let mut cx = Context::new(0);
    j.finish(&mut cx, true);
    assert_eq!(cx.take_output(), vec!["3"]);
    assert_eq!(cx.take_spawned(), vec![4, 4]);
    let mut k = job(3);
    k.finish(&mut cx, false);
    assert_eq!(cx.take_output(), vec!["3"]);
    assert!(cx.take_spawned().is_empty());
}

#[test]
fn spawn_task_queues_jobs() {
    let mut cx = Context::new(0);
    spawn_task(&mut cx, 5);
    spawn_task(&mut cx, 6);
    assert_eq!(cx.take_spawned(), vec![5, 6]);
}

#[test]
fn executor_rounds_keep_the_random_walk_consistent() {
    let mut ex = Executor::new(1);
    let mut cx = Context::new(0);
    let mut printed: Vec<String> = Vec::new();
    for _ in 0..40 {
        let busy = ex.run_round(&mut cx);
        printed.extend(cx.take_output());
        assert_eq!(busy, ex.len() > 0);
        assert!(cx.take_spawned().is_empty());
        if !busy || ex.len() > 200 {
            break;
        }
        let now = cx.now();
        let wait = cx.next_wait(now).expect("sleep forever?");
        assert_eq!(wait, JOB_SLEEP);
        cx.advance_to(now + wait);
    }
    assert_eq!(printed[0], "1");
    // Every number printed after the first is one more than some number
    // printed before it.
    for (i, line) in printed.iter().enumerate().skip(1) {
        let n: u64 = line.parse().unwrap();
        assert!(printed[..i].iter().any(|p| p.parse::<u64>().unwrap() + 1 == n));
    }
}

#[test]
fn executor_first_round_only_starts_the_job() {
    let mut ex = Executor::new(1);
    let mut cx = Context::new(0);
    assert!(ex.run_round(&mut cx));
    assert_eq!(ex.len(), 1);
    assert!(cx.take_output().is_empty());
    assert_eq!(cx.next_wake(), Some(JOB_SLEEP));
}

#[test]
fn job_sleep_is_a_tenth_of_a_second_as_f32() {
    assert_eq!(
        std::time::Duration::from_secs_f32(0.1).as_nanos(),
        JOB_SLEEP as u128
    );
}

#[test]
fn sleep_waker_goes_after_wakers_due_at_the_same_time() {
    let mut tree: TimerTree<&str> = TimerTree::new();
    tree.register(50, "earlier");
    tree.register(60, "later");
    let s = SleepFuture { wake_time: 50 };
    assert_eq!(s.poll_with_timers(10, &mut tree, "sleep"), Poll::Pending);
    assert_eq!(tree.pop_expired(50), vec!["earlier", "sleep"]);
    assert_eq!(tree.pop_expired(60), vec!["later"]);
}
