//! What the backend worker decides: snapshots arrive faster than a backend should reload, so
//! each one replaces the last and restarts a short quiet period; when the period passes with
//! nothing new, the latest snapshot is applied.
use vstd::prelude::*;

verus! {

/// How long, in milliseconds, nothing new must arrive before the latest snapshot is applied:
/// long enough that a drag does not make the backend reload every frame.
pub const QUIET_MS: u64 = 140;

/// What woke the worker.
pub enum Wake<S> {
    /// a new snapshot arrived
    Snapshot(S),
    /// the quiet period passed
    Timeout,
    /// the sending side is gone
    Disconnected,
}

/// What the worker does next.
pub enum Step<S> {
    /// (re)start the quiet period, this many milliseconds long
    Arm(u64),
    /// apply this snapshot, then wait without a deadline
    Apply(S),
    /// nothing to apply; wait without a deadline
    Disarm,
    /// stop the worker
    Stop,
}

/// The snapshot waiting for the quiet period to pass.
pub struct Debounce<S> {
    pending: Option<S>,
}

impl<S> View for Debounce<S> {
    type V = Option<S>;

    closed spec fn view(&self) -> Option<S> {
        self.pending
    }
}

/// One event: the next pending snapshot and the step taken.
pub open spec fn wake_spec<S>(pending: Option<S>, w: Wake<S>) -> (Option<S>, Step<S>) {
    match w {
        Wake::Snapshot(s) => (Some(s), Step::Arm(QUIET_MS)),
        Wake::Timeout => (
            None,
            match pending {
                Some(s) => Step::Apply(s),
                None => Step::Disarm,
            },
        ),
        Wake::Disconnected => (pending, Step::Stop),
    }
}

impl<S> Debounce<S> {
    pub fn new() -> (r: Debounce<S>)
        ensures
            r@.is_none(),
    {
        Debounce { pending: None }
    }

    /// Takes one event and says what to do.
    pub fn wake(&mut self, w: Wake<S>) -> (r: Step<S>)
        ensures
            (final(self)@, r) == wake_spec(old(self)@, w),
    {
        match w {
            Wake::Snapshot(s) => {
                self.pending = Some(s);
                Step::Arm(QUIET_MS)
            },
            Wake::Timeout => match self.pending.take() {
                Some(s) => Step::Apply(s),
                None => Step::Disarm,
            },
            Wake::Disconnected => Step::Stop,
        }
    }
}

/// What is pending after a run of snapshots arrived, starting from `pending`.
pub open spec fn after_snapshots<S>(pending: Option<S>, xs: Seq<S>) -> Option<S>
    decreases xs.len(),
{
    if xs.len() == 0 {
        pending
    } else {
        wake_spec(after_snapshots(pending, xs.drop_last()), Wake::Snapshot(xs.last())).0
    }
}

/// Only the latest snapshot of a burst is applied: whatever was pending before, once a run of
/// snapshots has arrived and the quiet period passes, the last of them is applied, and nothing
/// is left pending.
pub proof fn law_last_snapshot_wins<S>(pending: Option<S>, xs: Seq<S>)
    requires
        xs.len() > 0,
    ensures
        wake_spec(after_snapshots(pending, xs), Wake::Timeout) == (
            None::<S>,
            Step::Apply(xs.last()),
        ),
{
}

/// Every snapshot restarts the full quiet period: whatever was pending, a new snapshot is
/// pending next and the worker waits the whole 140 ms again before applying anything.
pub proof fn law_snapshot_restarts_quiet_period<S>(pending: Option<S>, x: S)
    ensures
        wake_spec(pending, Wake::Snapshot(x)) == (Some(x), Step::<S>::Arm(140)),
{
}

/// A quiet period with nothing pending applies nothing, and a second one after an apply
/// applies nothing again.
pub proof fn law_apply_once<S>(pending: Option<S>)
    ensures
        wake_spec(None::<S>, Wake::Timeout) == (None::<S>, Step::<S>::Disarm),
        wake_spec(wake_spec(pending, Wake::Timeout).0, Wake::Timeout).1 == Step::<S>::Disarm,
{
}


/// The end of a quiet period armed at `now` for `ms` milliseconds, on the worker's millisecond
/// clock (held at the clock's last value rather than wrapping).
pub open spec fn deadline_spec(now: u64, ms: u64) -> u64 {
    if now + ms <= u64::MAX {
        (now + ms) as u64
    } else {
        u64::MAX
    }
}

/// How long the worker waits from `now` before its quiet period ends: `None` when nothing is
/// due, and no time at all once the deadline has passed.
pub open spec fn wait_spec(due: Option<u64>, now: u64) -> Option<u64> {
    match due {
        Some(d) => Some(if d >= now { (d - now) as u64 } else { 0u64 }),
        None => None,
    }
}

/// One event at time `now`: the debounce's step, with the deadline it arms or clears.
pub open spec fn clocked_spec<S>(st: (Option<S>, Option<u64>), now: u64, w: Wake<S>) -> (
    (Option<S>, Option<u64>),
    Step<S>,
) {
    let (pending, step) = wake_spec(st.0, w);
    let due = match step {
        Step::Arm(ms) => Some(deadline_spec(now, ms)),
        Step::Stop => st.1,
        _ => None,
    };
    ((pending, due), step)
}

/// The worker on its millisecond clock: the snapshot waiting, and when its quiet period ends.
pub struct Worker<S> {
    debounce: Debounce<S>,
    due: Option<u64>,
}

impl<S> View for Worker<S> {
    type V = (Option<S>, Option<u64>);

    closed spec fn view(&self) -> (Option<S>, Option<u64>) {
        (self.debounce@, self.due)
    }
}

impl<S> Worker<S> {
    pub fn new() -> (r: Worker<S>)
        ensures
            r@ == (None::<S>, None::<u64>),
    {
        Worker { debounce: Debounce::new(), due: None }
    }

    /// How many milliseconds to wait for the next snapshot, from `now`; `None` to wait without a
    /// deadline.
    pub fn wait(&self, now: u64) -> (r: Option<u64>)
        ensures
            r == wait_spec(self@.1, now),
    {
        match self.due {
            Some(d) => Some(if d >= now { d - now } else { 0 }),
            None => None,
        }
    }

    /// Takes the event that woke the worker at `now` and says what to do.
    pub fn event(&mut self, now: u64, w: Wake<S>) -> (r: Step<S>)
        ensures
            (final(self)@, r) == clocked_spec(old(self)@, now, w),
    {
        let step = self.debounce.wake(w);
        match &step {
            Step::Arm(ms) => {
                self.due = Some(now.saturating_add(*ms));
            },
            Step::Stop => {},
            _ => {
                self.due = None;
            },
        }
        step
    }
}

/// A run of events as the runtime can deliver them: the clock never goes back, and a timeout is
/// only reported once the wait the worker asked for has passed.
pub open spec fn well_timed<S>(st: (Option<S>, Option<u64>), last: u64, trace: Seq<(u64, Wake<S>)>) -> bool
    decreases trace.len(),
{
    if trace.len() == 0 {
        true
    } else {
        let t = trace[0].0;
        let w = trace[0].1;
        &&& last <= t
        &&& (w is Timeout ==> match st.1 {
            Some(d) => d <= t,
            None => true,
        })
        &&& well_timed(clocked_spec(st, t, w).0, t, trace.drop_first())
    }
}

/// The snapshots applied over a run of events, each with the time it was applied.
pub open spec fn applied<S>(st: (Option<S>, Option<u64>), trace: Seq<(u64, Wake<S>)>) -> Seq<(u64, S)>
    decreases trace.len(),
{
    if trace.len() == 0 {
        Seq::empty()
    } else {
        let t = trace[0].0;
        let next = clocked_spec(st, t, trace[0].1);
        let rest = applied(next.0, trace.drop_first());
        match next.1 {
            Step::Apply(s) => seq![(t, s)] + rest,
            _ => rest,
        }
    }
}

/// A burst: each snapshot arriving at its time, then the timeout at `t`.
pub open spec fn burst<S>(xs: Seq<(u64, S)>, t: u64) -> Seq<(u64, Wake<S>)> {
    xs.map_values(|x: (u64, S)| (x.0, Wake::Snapshot(x.1))).push((t, Wake::Timeout))
}

proof fn lemma_burst<S>(st: (Option<S>, Option<u64>), last: u64, xs: Seq<(u64, S)>, t: u64)
    requires
        xs.len() > 0,
        xs.last().0 + QUIET_MS <= u64::MAX,
        well_timed(st, last, burst(xs, t)),
    ensures
        applied(st, burst(xs, t)) == seq![(t, xs.last().1)],
        t >= xs.last().0 + QUIET_MS,
    decreases xs.len(),
{
    let tr = burst(xs, t);
    let next = clocked_spec(st, xs[0].0, Wake::Snapshot(xs[0].1));
    assert(tr[0] == (xs[0].0, Wake::Snapshot(xs[0].1)));
    assert(next.1 == Step::<S>::Arm(QUIET_MS));
    assert(well_timed(next.0, xs[0].0, tr.drop_first()));
    assert(applied(st, tr) == applied(next.0, tr.drop_first()));
    if xs.len() == 1 {
        let rest = tr.drop_first();
        assert(rest =~= seq![(t, Wake::<S>::Timeout)]);
        assert(rest.drop_first() =~= Seq::<(u64, Wake<S>)>::empty());
        assert(next.0.1 == Some((xs[0].0 + QUIET_MS) as u64));
        assert(rest[0] == (t, Wake::<S>::Timeout));
        let fin = clocked_spec(next.0, t, Wake::<S>::Timeout);
        assert(fin.1 == Step::Apply(xs[0].1));
        assert(applied(fin.0, rest.drop_first()) =~= Seq::<(u64, S)>::empty());
        assert(applied(next.0, rest) =~= seq![(t, xs[0].1)]);
    } else {
        let ys = xs.drop_first();
        assert(tr.drop_first() =~= burst(ys, t));
        lemma_burst(next.0, xs[0].0, ys, t);
    }
}

/// A burst of snapshots is applied once, with its last snapshot, no sooner than the quiet period
/// after that snapshot: from a worker with nothing pending, when snapshots arrive at their times
/// and then the runtime reports the timeout (and so the wait the worker asked for has passed),
/// the only snapshot applied is the last, at that timeout.
pub proof fn law_burst_applied_once<S>(start: u64, xs: Seq<(u64, S)>, t: u64)
    requires
        xs.len() > 0,
        xs.last().0 + QUIET_MS <= u64::MAX,
        well_timed((None::<S>, None::<u64>), start, burst(xs, t)),
    ensures
        applied((None::<S>, None::<u64>), burst(xs, t)) == seq![(t, xs.last().1)],
        t >= xs.last().0 + QUIET_MS,
{
    lemma_burst((None::<S>, None::<u64>), start, xs, t);
}

/// No timeout comes inside a burst: after a snapshot at `t0`, the runtime cannot report a
/// timeout before the quiet period has passed, so a snapshot that is followed by the next one
/// within 140 ms is never applied.
pub proof fn law_no_timeout_within_quiet<S>(st: (Option<S>, Option<u64>), t0: u64, x: S, t: u64)
    requires
        t0 <= t < t0 + QUIET_MS,
        t0 + QUIET_MS <= u64::MAX,
    ensures
        !well_timed(st, t0, seq![(t0, Wake::Snapshot(x)), (t, Wake::<S>::Timeout)]),
{
    let tr = seq![(t0, Wake::Snapshot(x)), (t, Wake::<S>::Timeout)];
    let next = clocked_spec(st, t0, Wake::Snapshot(x));
    assert(next.0.1 == Some(deadline_spec(t0, QUIET_MS)));
    assert(tr.drop_first() =~= seq![(t, Wake::<S>::Timeout)]);
    assert(tr.drop_first()[0] == (t, Wake::<S>::Timeout));
    assert(!well_timed(next.0, t0, tr.drop_first()));
}

} // verus!
