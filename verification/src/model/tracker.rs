//! How a model tells its watchers that it changed, and how it names the bands it holds.
//!
//! `revision` is what the UI and the backend worker watch, and a batch moves it once; `edits`
//! counts every mutation, so a read in the middle of a batch can tell that something changed.
use vstd::prelude::*;

use super::band::BandId;

verus! {

pub struct ChangeTracker {
    revision: u64,
    edits: u64,
    hold: u32,
    pending: bool,
}

/// The tracker's state: revision, edit count, batch depth, and whether a change waits for the
/// outermost batch to end.
pub struct TrackerView {
    pub revision: nat,
    pub edits: nat,
    pub hold: nat,
    pub pending: bool,
}

/// A change waits only inside a batch.
pub open spec fn tracker_wf(t: TrackerView) -> bool {
    t.pending ==> t.hold > 0
}

pub open spec fn touch_spec(t: TrackerView) -> TrackerView {
    if t.hold > 0 {
        TrackerView { edits: t.edits + 1, pending: true, ..t }
    } else {
        TrackerView { edits: t.edits + 1, revision: t.revision + 1, ..t }
    }
}

pub open spec fn begin_spec(t: TrackerView) -> TrackerView {
    TrackerView { hold: t.hold + 1, ..t }
}

pub open spec fn end_spec(t: TrackerView) -> TrackerView {
    let h = (t.hold - 1) as nat;
    if h > 0 || !t.pending {
        TrackerView { hold: h, ..t }
    } else {
        TrackerView { hold: h, pending: false, revision: t.revision + 1, ..t }
    }
}

impl ChangeTracker {
    /// A change waits only inside a batch.
    #[verifier::type_invariant]
    spec fn inv(&self) -> bool {
        self.pending ==> self.hold > 0
    }
}

impl View for ChangeTracker {
    type V = TrackerView;

    closed spec fn view(&self) -> TrackerView {
        TrackerView {
            revision: self.revision as nat,
            edits: self.edits as nat,
            hold: self.hold as nat,
            pending: self.pending,
        }
    }
}

impl ChangeTracker {
    pub fn new() -> (r: ChangeTracker)
        ensures
            r@ == (TrackerView { revision: 0, edits: 0, hold: 0, pending: false }),
    {
        ChangeTracker { revision: 0, edits: 0, hold: 0, pending: false }
    }

    pub fn revision(&self) -> (r: u64)
        ensures
            r == self@.revision,
    {
        self.revision
    }

    pub fn edits(&self) -> (r: u64)
        ensures
            r == self@.edits,
    {
        self.edits
    }

    /// How many batches are open.
    pub fn batch_depth(&self) -> (r: u32)
        ensures
            r == self@.hold,
    {
        self.hold
    }

    /// Inside a batch.
    pub fn holding(&self) -> (r: bool)
        ensures
            r == (self@.hold > 0),
    {
        self.hold > 0
    }

    /// Records one change: the revision moves now, or when the outermost batch ends.
    pub fn touch(&mut self)
        requires
            old(self)@.edits < u64::MAX,
            old(self)@.revision < u64::MAX,
        ensures
            final(self)@ == touch_spec(old(self)@),
            tracker_wf(final(self)@),
    {
        proof {
            use_type_invariant(&*self);
        }
        self.edits += 1;
        if self.hold > 0 {
            self.pending = true;
        } else {
            self.revision += 1;
        }
    }

    /// Opens a batch.
    pub fn begin_batch(&mut self)
        requires
            old(self)@.hold < u32::MAX,
        ensures
            final(self)@ == begin_spec(old(self)@),
            tracker_wf(final(self)@),
    {
        proof {
            use_type_invariant(&*self);
        }
        self.hold += 1;
    }

    /// Closes a batch; closing the outermost one moves the revision once if anything changed.
    pub fn end_batch(&mut self)
        requires
            old(self)@.hold > 0,
            old(self)@.revision < u64::MAX,
        ensures
            final(self)@ == end_spec(old(self)@),
            tracker_wf(final(self)@),
    {
        proof {
            use_type_invariant(&*self);
        }
        let h = self.hold - 1;
        if h == 0 && self.pending {
            self.pending = false;
            self.revision += 1;
        }
        self.hold = h;
    }
}

/// `k` changes in a row.
pub open spec fn touches(t: TrackerView, k: nat) -> TrackerView
    decreases k,
{
    if k == 0 {
        t
    } else {
        touch_spec(touches(t, (k - 1) as nat))
    }
}

proof fn lemma_touches_in_batch(t: TrackerView, k: nat)
    requires
        t.hold > 0,
    ensures
        touches(t, k).hold == t.hold,
        touches(t, k).revision == t.revision,
        touches(t, k).edits == t.edits + k,
        touches(t, k).pending == (t.pending || k > 0),
    decreases k,
{
    if k > 0 {
        lemma_touches_in_batch(t, (k - 1) as nat);
    }
}

proof fn lemma_touches_outside(t: TrackerView, k: nat)
    requires
        t.hold == 0,
    ensures
        touches(t, k).hold == 0,
        touches(t, k).revision == t.revision + k,
        touches(t, k).edits == t.edits + k,
        touches(t, k).pending == t.pending,
    decreases k,
{
    if k > 0 {
        lemma_touches_outside(t, (k - 1) as nat);
    }
}

/// A batch moves the revision at most once: opening a batch outside any other, making `k`
/// changes and closing it moves the revision by one when `k > 0` and not at all when `k == 0`,
/// while every change is counted in `edits`. Outside a batch each change moves it by one.
pub proof fn law_batch_moves_revision_once(t: TrackerView, k: nat)
    requires
        tracker_wf(t),
        t.hold == 0,
    ensures
        end_spec(touches(begin_spec(t), k)).revision == t.revision + if k > 0 {
            1int
        } else {
            0int
        },
        end_spec(touches(begin_spec(t), k)).edits == t.edits + k,
        end_spec(touches(begin_spec(t), k)).hold == 0,
        tracker_wf(end_spec(touches(begin_spec(t), k))),
        touches(t, k).revision == t.revision + k,
{
    lemma_touches_in_batch(begin_spec(t), k);
    lemma_touches_outside(t, k);
}

/// A batch opened inside another moves nothing when it closes: the change waits for the
/// outermost batch.
pub proof fn law_inner_batch_defers(t: TrackerView, k: nat)
    requires
        tracker_wf(t),
        t.hold > 0,
    ensures
        end_spec(touches(begin_spec(t), k)).revision == t.revision,
        end_spec(touches(begin_spec(t), k)).hold == t.hold,
        end_spec(touches(begin_spec(t), k)).pending == (t.pending || k > 0),
{
    lemma_touches_in_batch(begin_spec(t), k);
}

/// One thing done to a tracker.
pub enum TrackerOp {
    Touch,
    Begin,
    End,
}

pub open spec fn op_spec(t: TrackerView, op: TrackerOp) -> TrackerView {
    match op {
        TrackerOp::Touch => touch_spec(t),
        TrackerOp::Begin => begin_spec(t),
        TrackerOp::End => end_spec(t),
    }
}

/// Doing `ops` in order.
pub open spec fn run_ops(t: TrackerView, ops: Seq<TrackerOp>) -> TrackerView
    decreases ops.len(),
{
    if ops.len() == 0 {
        t
    } else {
        run_ops(op_spec(t, ops[0]), ops.drop_first())
    }
}

/// With `open` of its own batches open, `ops` never closes a batch it did not open, and closes
/// all of its own.
pub open spec fn nested(ops: Seq<TrackerOp>, open: nat) -> bool
    decreases ops.len(),
{
    if ops.len() == 0 {
        open == 0
    } else {
        match ops[0] {
            TrackerOp::Touch => nested(ops.drop_first(), open),
            TrackerOp::Begin => nested(ops.drop_first(), open + 1),
            TrackerOp::End => open > 0 && nested(ops.drop_first(), (open - 1) as nat),
        }
    }
}

pub open spec fn has_touch(ops: Seq<TrackerOp>) -> bool {
    exists|i: int| 0 <= i < ops.len() && ops[i] is Touch
}

proof fn lemma_run_inside(t: TrackerView, ops: Seq<TrackerOp>, open: nat)
    requires
        t.hold >= 1 + open,
        nested(ops, open),
    ensures
        run_ops(t, ops).revision == t.revision,
        run_ops(t, ops).hold == t.hold - open,
        run_ops(t, ops).edits >= t.edits,
        run_ops(t, ops).pending == (t.pending || has_touch(ops)),
    decreases ops.len(),
{
    if ops.len() > 0 {
        let rest = ops.drop_first();
        let t1 = op_spec(t, ops[0]);
        match ops[0] {
            TrackerOp::Touch => lemma_run_inside(t1, rest, open),
            TrackerOp::Begin => lemma_run_inside(t1, rest, open + 1),
            TrackerOp::End => lemma_run_inside(t1, rest, (open - 1) as nat),
        }
        if has_touch(ops) && !(ops[0] is Touch) {
            let i = choose|i: int| 0 <= i < ops.len() && ops[i] is Touch;
            assert(rest[i - 1] is Touch);
        }
        if has_touch(rest) {
            let i = choose|i: int| 0 <= i < rest.len() && rest[i] is Touch;
            assert(ops[i + 1] is Touch);
        }
        if ops[0] is Touch {
            assert(has_touch(ops));
        }
    }
}

/// A batch moves the revision at most once, whatever it does: opening a batch outside any
/// other, doing any mix of changes and properly nested inner batches, and closing it moves the
/// revision by one when something changed inside and not at all otherwise, and leaves nothing
/// pending.
pub proof fn law_outer_batch_moves_revision_once(t: TrackerView, ops: Seq<TrackerOp>)
    requires
        tracker_wf(t),
        t.hold == 0,
        nested(ops, 0),
    ensures
        end_spec(run_ops(begin_spec(t), ops)).revision == t.revision + if has_touch(ops) {
            1int
        } else {
            0int
        },
        end_spec(run_ops(begin_spec(t), ops)).hold == 0,
        !end_spec(run_ops(begin_spec(t), ops)).pending,
{
    lemma_run_inside(begin_spec(t), ops, 0);
}

/// Hands out band ids, each once, in increasing order starting at 1.
pub struct BandIds {
    next: u64,
}

impl BandIds {
    /// The id the next band will get.
    pub closed spec fn next_spec(&self) -> u64 {
        self.next
    }

    pub fn new() -> (r: BandIds)
        ensures
            r.next_spec() == 1,
    {
        BandIds { next: 1 }
    }

    /// The id the next band will get.
    pub fn peek(&self) -> (r: u64)
        ensures
            r == self.next_spec(),
    {
        self.next
    }

    pub fn issue(&mut self) -> (r: BandId)
        requires
            old(self).next_spec() < u64::MAX,
        ensures
            r.0 == old(self).next_spec(),
            final(self).next_spec() == old(self).next_spec() + 1,
    {
        let id = BandId(self.next);
        self.next += 1;
        id
    }
}

} // verus!
