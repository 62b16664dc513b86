use vstd::prelude::*;

verus! {

/// The earlier of a registered wake time (if any) and a new one.
pub open spec fn earliest(current: Option<u64>, wake_time: u64) -> u64 {
    match current {
        Some(t) => if wake_time < t { wake_time } else { t },
        None => wake_time,
    }
}

/// The latest instant a context may stand at; with durations up to
/// [`MAX_DURATION`], a wake time always fits in a `u64`.
pub const MAX_INSTANT: u64 = 0x7fff_ffff_ffff_ffff;

/// The longest duration a sleep may ask for.
pub const MAX_DURATION: u64 = 0x8000_0000_0000_0000;

/// What a poll sees and leaves behind: the instant of the poll, the earliest
/// wake time that a pending sleep asked for, the lines printed, the jobs
/// spawned, and the coins supplied for the flips still to come (once they run
/// out, a flip asks the random generator).
pub struct Context {
    now: u64,
    next_wake: Option<u64>,
    output: Vec<String>,
    spawned: Vec<u64>,
    coins: Vec<bool>,
}

pub struct ContextView {
    pub now: u64,
    pub next_wake: Option<u64>,
    pub output: Seq<Seq<char>>,
    pub spawned: Seq<u64>,
    pub coins: Seq<bool>,
}

impl View for Context {
    type V = ContextView;

    closed spec fn view(&self) -> ContextView {
        ContextView {
            now: self.now,
            next_wake: self.next_wake,
            output: self.output.deep_view(),
            spawned: self.spawned@,
            coins: self.coins@,
        }
    }
}

/// Every context can follow itself.
pub proof fn lemma_leads_to_reflexive(cx: ContextView)
    ensures
        cx.leads_to(cx),
{
    assert(cx.output.subrange(0, cx.output.len() as int) =~= cx.output);
    assert(cx.spawned.subrange(0, cx.spawned.len() as int) =~= cx.spawned);
}

/// Being a prefix is transitive.
pub proof fn lemma_prefix_transitive<A>(a: Seq<A>, b: Seq<A>, c: Seq<A>)
    requires
        a.is_prefix_of(b),
        b.is_prefix_of(c),
    ensures
        a.is_prefix_of(c),
{
    assert(c.subrange(0, a.len() as int) =~= c.subrange(0, b.len() as int).subrange(0, a.len() as int));
}

/// Following within a poll is transitive.
pub proof fn lemma_leads_to_transitive(a: ContextView, b: ContextView, c: ContextView)
    requires
        a.leads_to(b),
        b.leads_to(c),
    ensures
        a.leads_to(c),
{
    assert(c.output.subrange(0, a.output.len() as int) =~= b.output.subrange(
        0,
        b.output.len() as int,
    ).subrange(0, a.output.len() as int));
    assert(c.spawned.subrange(0, a.spawned.len() as int) =~= b.spawned.subrange(
        0,
        b.spawned.len() as int,
    ).subrange(0, a.spawned.len() as int));
}

/// Registering a wake time and printing a line each lead from a context to the result.
pub proof fn lemma_steps_lead_to(cx: ContextView, wake_time: u64, line: Seq<char>, job: u64)
    ensures
        cx.leads_to(cx.registered(wake_time)),
        cx.leads_to(cx.printed(line)),
        cx.leads_to(cx.with_spawned(job)),
{
    lemma_leads_to_reflexive(cx);
    assert(cx.output.push(line).subrange(0, cx.output.len() as int) =~= cx.output);
    assert(cx.spawned.push(job).subrange(0, cx.spawned.len() as int) =~= cx.spawned);
}

/// Flipping a coin leads from a context to the result.
pub proof fn lemma_coin_drawn_leads_to(cx: ContextView)
    ensures
        cx.leads_to(cx.coin_drawn()),
{
    lemma_leads_to_reflexive(cx);
}

/// The order in which two pending sleeps register does not matter.
pub proof fn lemma_register_commutes(cx: ContextView, a: u64, b: u64)
    ensures
        cx.registered(a).registered(b) == cx.registered(b).registered(a),
{
}

/// Registering the same wake time twice is the same as registering it once.
pub proof fn lemma_register_idempotent(cx: ContextView, a: u64)
    ensures
        cx.registered(a).registered(a) == cx.registered(a),
{
}

/// After a run of registrations, the registered wake time is the earliest of
/// the one before and all registered ones: it is one of them, and no later
/// than any of them.
pub proof fn lemma_registered_is_earliest(cx: ContextView, times: Seq<u64>)
    requires
        times.len() > 0,
    ensures
        cx.registered_all(times).next_wake matches Some(m) && {
            &&& (cx.next_wake == Some(m) || times.contains(m))
            &&& forall|i: int| 0 <= i < times.len() ==> m <= #[trigger] times[i]
            &&& (cx.next_wake matches Some(t) ==> m <= t)
        },
        cx.registered_all(times).now == cx.now,
        cx.registered_all(times).output == cx.output,
        cx.registered_all(times).spawned == cx.spawned,
    decreases times.len(),
{
    let prefix = times.drop_last();
    let last = times.last();
    if prefix.len() == 0 {
        assert(times[0] == last);
        assert(times.contains(last));
    } else {
        lemma_registered_is_earliest(cx, prefix);
        let m0 = cx.registered_all(prefix).next_wake->0;
        assert(cx.next_wake == Some(m0) || times.contains(m0)) by {
            if prefix.contains(m0) {
                let j = choose|j: int| 0 <= j < prefix.len() && prefix[j] == m0;
                assert(times[j] == m0);
            }
        }
        assert(times[times.len() - 1] == last);
        assert forall|i: int| 0 <= i < times.len() implies earliest(Some(m0), last) <= #[trigger] times[i] by {
            if i < times.len() - 1 {
                assert(times[i] == prefix[i]);
            }
        }
    }
}

impl Context {
    #[verifier::type_invariant]
    spec fn within_horizon(self) -> bool {
        self.now <= MAX_INSTANT
    }
}

impl ContextView {
    /// `later` can follow `self` within one poll: the same instant, output and
    /// spawned jobs only appended to, and the registered wake time never later.
    pub open spec fn leads_to(self, later: ContextView) -> bool {
        &&& later.now == self.now
        &&& self.output.is_prefix_of(later.output)
        &&& self.spawned.is_prefix_of(later.spawned)
        &&& (self.next_wake matches Some(t) ==> (later.next_wake matches Some(u) && u <= t))
    }

    /// The context after a pending sleep that wakes at `wake_time` registered itself.
    pub open spec fn registered(self, wake_time: u64) -> ContextView {
        ContextView { next_wake: Some(earliest(self.next_wake, wake_time)), ..self }
    }

    /// The context after pending sleeps waking at each of `times`, in order,
    /// registered themselves.
    pub open spec fn registered_all(self, times: Seq<u64>) -> ContextView
        decreases times.len(),
    {
        if times.len() == 0 {
            self
        } else {
            self.registered_all(times.drop_last()).registered(times.last())
        }
    }

    /// The context after `line` was printed.
    pub open spec fn printed(self, line: Seq<char>) -> ContextView {
        ContextView { output: self.output.push(line), ..self }
    }

    /// The context with its printed lines handed out.
    pub open spec fn without_output(self) -> ContextView {
        ContextView { output: Seq::empty(), ..self }
    }

    /// The context with `more` coins supplied after those it has.
    pub open spec fn with_coins(self, more: Seq<bool>) -> ContextView {
        ContextView { coins: self.coins + more, ..self }
    }

    /// The context after a coin flip: the first supplied coin, if any, is used up.
    pub open spec fn coin_drawn(self) -> ContextView {
        if self.coins.len() > 0 {
            ContextView { coins: self.coins.drop_first(), ..self }
        } else {
            self
        }
    }

    /// The context with its spawned jobs handed out.
    pub open spec fn without_spawned(self) -> ContextView {
        ContextView { spawned: Seq::empty(), ..self }
    }

    /// The context with its registered wake time cleared.
    pub open spec fn without_wake(self) -> ContextView {
        ContextView { next_wake: None, ..self }
    }

    /// The context moved to the instant `now`.
    pub open spec fn at(self, now: u64) -> ContextView {
        ContextView { now, ..self }
    }

    /// The context after job `job` was spawned.
    pub open spec fn with_spawned(self, job: u64) -> ContextView {
        ContextView { spawned: self.spawned.push(job), ..self }
    }
}

impl Context {
    /// A fresh context for a poll at `now`: no wake time, no output, no spawned job.
    pub fn new(now: u64) -> (cx: Context)
        requires
            now <= MAX_INSTANT,
        ensures
            cx@.now == now,
            cx@.next_wake is None,
            cx@.output.len() == 0,
            cx@.spawned.len() == 0,
            cx@.coins.len() == 0,
    {
        Context { now, next_wake: None, output: Vec::new(), spawned: Vec::new(), coins: Vec::new() }
    }

    pub fn now(&self) -> (t: u64)
        ensures
            t == self@.now,
            t <= MAX_INSTANT,
    {
        proof {
            use_type_invariant(self);
        }
        self.now
    }

    pub fn next_wake(&self) -> (t: Option<u64>)
        ensures
            t == self@.next_wake,
    {
        self.next_wake
    }

    /// Asks for a wakeup at `wake_time`: the registered wake time becomes the
    /// earlier of the two.
    pub fn register_wake(&mut self, wake_time: u64)
        ensures
            final(self)@ == old(self)@.registered(wake_time),
    {
        proof {
            use_type_invariant(&*self);
        }
        match self.next_wake {
            Some(t) => {
                if wake_time < t {
                    self.next_wake = Some(wake_time);
                }
            },
            None => {
                self.next_wake = Some(wake_time);
            },
        }
    }

    /// Prints a line.
    pub fn print(&mut self, line: String)
        ensures
            final(self)@ == old(self)@.printed(line@),
    {
        proof {
            use_type_invariant(&*self);
        }
        let mut output = Vec::new();
        std::mem::swap(&mut output, &mut self.output);
        output.push(line);
        self.output = output;
        proof {
            assert(self.output.deep_view() =~= old(self).output.deep_view().push(line@));
        }
    }
}

impl Context {
    /// Records job `job` as spawned.
    pub fn spawn(&mut self, job: u64)
        ensures
            final(self)@ == old(self)@.with_spawned(job),
    {
        proof {
            use_type_invariant(&*self);
        }
        let mut spawned = Vec::new();
        std::mem::swap(&mut spawned, &mut self.spawned);
        spawned.push(job);
        self.spawned = spawned;
    }

    /// Hands out the printed lines, oldest first, and forgets them.
    pub fn take_output(&mut self) -> (lines: Vec<String>)
        ensures
            lines.deep_view() == old(self)@.output,
            final(self)@ == old(self)@.without_output(),
    {
        proof {
            use_type_invariant(&*self);
        }
        let mut lines = Vec::new();
        std::mem::swap(&mut lines, &mut self.output);
        proof {
            assert(self.output.deep_view() =~= Seq::<Seq<char>>::empty());
        }
        lines
    }

    /// Hands out the spawned jobs, oldest first, and forgets them.
    pub fn take_spawned(&mut self) -> (jobs: Vec<u64>)
        ensures
            jobs@ == old(self)@.spawned,
            final(self)@ == old(self)@.without_spawned(),
    {
        proof {
            use_type_invariant(&*self);
        }
        let mut jobs = Vec::new();
        std::mem::swap(&mut jobs, &mut self.spawned);
        jobs
    }

    /// Moves the context to the instant `now` for the next poll.
    pub fn advance_to(&mut self, now: u64)
        requires
            now <= MAX_INSTANT,
        ensures
            final(self)@ == old(self)@.at(now),
    {
        self.now = now;
    }

    /// Between two polls of a pending future: how long to sleep when the clock
    /// reads `now`, until the registered wake time (zero if it has passed), and
    /// the registration is cleared. `None`, with the context unchanged, when no
    /// pending sleep asked for a wakeup.
    pub fn next_wait(&mut self, now: u64) -> (wait: Option<u64>)
        ensures
            old(self)@.next_wake is None ==> wait is None && final(self)@ == old(self)@,
            old(self)@.next_wake matches Some(t) ==> wait == Some(
                if t > now {
                    (t - now) as u64
                } else {
                    0u64
                },
            ) && final(self)@ == old(self)@.without_wake(),
    {
        proof {
            use_type_invariant(&*self);
        }
        match self.next_wake {
            Some(t) => {
                self.next_wake = None;
                Some(t.saturating_sub(now))
            },
            None => None,
        }
    }
}

/// Calls `rand::random::<bool>()`, a coin from the thread's random generator.
/// Nothing is stated of the result: either side may come up.
#[verifier::external_body]
fn coin_flip() -> bool {
    rand::random::<bool>()
}

impl Context {
    /// Supplies `coins` for the coming flips, after those already supplied.
    pub fn supply_coins(&mut self, coins: Vec<bool>)
        ensures
            final(self)@ == old(self)@.with_coins(coins@),
    {
        proof {
            use_type_invariant(&*self);
        }
        let mut all = Vec::new();
        std::mem::swap(&mut all, &mut self.coins);
        let mut more = coins;
        all.append(&mut more);
        self.coins = all;
    }

    /// Flips a coin: the first supplied coin if there is one, used up; else a
    /// coin from the random generator.
    pub fn flip_coin(&mut self) -> (heads: bool)
        ensures
            old(self)@.coins.len() > 0 ==> heads == old(self)@.coins[0],
            final(self)@ == old(self)@.coin_drawn(),
    {
        proof {
            use_type_invariant(&*self);
        }
        if self.coins.len() > 0 {
            let mut coins = Vec::new();
            std::mem::swap(&mut coins, &mut self.coins);
            let heads = coins.remove(0);
            self.coins = coins;
            proof {
                assert(self.coins@ =~= old(self)@.coins.drop_first());
            }
            heads
        } else {
            coin_flip()
        }
    }
}

} // verus!
