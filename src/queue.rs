//! The unit-of-work capability that the worker pool schedules, the decisions each
//! worker takes, and the pool's life from open to shut down.
use vstd::prelude::*;

verus! {

/// Something a worker can run once, producing a value or nothing.
pub trait Task {
    type Output: Send;

    fn run(&self) -> Option<Self::Output>;
}

} // verus!

verus! {

/// What a worker has just observed.
pub enum WorkerEvent<O> {
    /// The inbound queue is closed and empty.
    Closed,
    /// A unit of work ran and produced this outcome.
    Ran(Option<O>),
    /// A produced value reached the outbound channel.
    Delivered,
    /// The outbound channel has no receiver any more.
    Undeliverable,
}

/// What a worker does next.
pub enum WorkerAction<O> {
    /// Wait for the next unit of work.
    Fetch,
    /// Send this value on the outbound channel.
    Deliver(O),
    /// Leave the loop; the thread ends.
    Exit,
}

/// The action that follows `event` in a worker's loop.
pub open spec fn next_action<O>(event: WorkerEvent<O>) -> WorkerAction<O> {
    match event {
        WorkerEvent::Closed => WorkerAction::Exit,
        WorkerEvent::Ran(None) => WorkerAction::Fetch,
        WorkerEvent::Ran(Some(v)) => WorkerAction::Deliver(v),
        WorkerEvent::Delivered => WorkerAction::Fetch,
        WorkerEvent::Undeliverable => WorkerAction::Exit,
    }
}

/// Decides a worker's next action: a closed queue or a vanished receiver ends the
/// worker, a produced value is delivered, and otherwise the worker fetches more work.
pub fn worker_step<O>(event: WorkerEvent<O>) -> (a: WorkerAction<O>)
    ensures
        a == next_action(event),
{
    match event {
        WorkerEvent::Closed => WorkerAction::Exit,
        WorkerEvent::Ran(None) => WorkerAction::Fetch,
        WorkerEvent::Ran(Some(v)) => WorkerAction::Deliver(v),
        WorkerEvent::Delivered => WorkerAction::Fetch,
        WorkerEvent::Undeliverable => WorkerAction::Exit,
    }
}

/// The life of a worker pool: open for work, then closed while its workers are joined
/// one by one, then shut down.
pub struct Lifecycle {
    accepting: bool,
    live_workers: usize,
    pool_size: usize,
}

impl Lifecycle {
    /// New units of work are accepted.
    pub closed spec fn is_accepting(&self) -> bool {
        self.accepting
    }

    /// Workers not yet joined.
    pub closed spec fn live(&self) -> nat {
        self.live_workers as nat
    }

    /// Workers started with the pool.
    pub closed spec fn pool(&self) -> nat {
        self.pool_size as nat
    }

    /// At least one worker was started, none is joined while the pool is open, and
    /// never more are live than were started.
    pub open spec fn wf(&self) -> bool {
        &&& self.pool() >= 1
        &&& self.live() <= self.pool()
        &&& self.is_accepting() ==> self.live() == self.pool()
    }

    /// `b` is `a` closed: closing an already closed pool changes nothing.
    pub open spec fn closes(a: Lifecycle, b: Lifecycle) -> bool {
        &&& !b.is_accepting()
        &&& b.live() == a.live()
        &&& b.pool() == a.pool()
    }

    /// `b` is the closed pool `a` with one more worker joined.
    pub open spec fn joins(a: Lifecycle, b: Lifecycle) -> bool {
        &&& !a.is_accepting()
        &&& a.live() > 0
        &&& !b.is_accepting()
        &&& b.live() == a.live() - 1
        &&& b.pool() == a.pool()
    }

    /// A pool of `n_workers` live workers, open for work.
    pub fn new(n_workers: usize) -> (l: Lifecycle)
        requires
            n_workers >= 1,
        ensures
            l.wf(),
            l.is_accepting(),
            l.live() == n_workers,
            l.pool() == n_workers,
    {
        Lifecycle { accepting: true, live_workers: n_workers, pool_size: n_workers }
    }

    /// Whether a unit of work may be enqueued now.
    pub fn accepts_work(&self) -> (r: bool)
        ensures
            r == self.is_accepting(),
    {
        self.accepting
    }

    /// The number of workers not yet joined.
    pub fn live_workers(&self) -> (r: usize)
        ensures
            r == self.live(),
    {
        self.live_workers
    }

    /// Stops accepting work. Returns whether the pool was open until now, that is
    /// whether the queue still has to be closed and drained.
    pub fn close(&mut self) -> (was_open: bool)
        requires
            old(self).wf(),
        ensures
            final(self).wf(),
            Self::closes(*old(self), *final(self)),
            was_open == old(self).is_accepting(),
    {
        let was_open = self.accepting;
        self.accepting = false;
        was_open
    }

    /// Records that one more worker of the closed pool has been joined.
    pub fn worker_joined(&mut self)
        requires
            old(self).wf(),
            !old(self).is_accepting(),
            old(self).live() > 0,
        ensures
            final(self).wf(),
            Self::joins(*old(self), *final(self)),
    {
        self.live_workers = self.live_workers - 1;
    }

    /// Whether the pool is closed and every worker joined.
    pub fn is_shut_down(&self) -> (r: bool)
        ensures
            r == (!self.is_accepting() && self.live() == 0),
    {
        !self.accepting && self.live_workers == 0
    }
}

/// State `i + 1` of `t` is state `i` closed.
pub open spec fn closes_at(t: Seq<Lifecycle>, i: int) -> bool {
    Lifecycle::closes(t[i], t[i + 1])
}

/// State `i + 1` of `t` is state `i` with one more worker joined.
pub open spec fn joins_at(t: Seq<Lifecycle>, i: int) -> bool {
    Lifecycle::joins(t[i], t[i + 1])
}

/// Each state of `t` follows from the one before by closing or by joining a worker.
pub open spec fn is_run(t: Seq<Lifecycle>) -> bool {
    forall|i: int| 0 <= i < t.len() - 1 ==> #[trigger] closes_at(t, i) || joins_at(t, i)
}

/// No step of `t` before state `i` closes the pool.
pub open spec fn open_through(t: Seq<Lifecycle>, i: int) -> bool {
    forall|j: int| 0 <= j < i ==> !#[trigger] closes_at(t, j)
}

proof fn lemma_accepting_at(t: Seq<Lifecycle>, i: int)
    requires
        0 <= i < t.len(),
        t[0].is_accepting(),
        is_run(t),
    ensures
        t[i].is_accepting() <==> open_through(t, i),
    decreases i,
{
    if i > 0 {
        lemma_accepting_at(t, i - 1);
        assert(closes_at(t, i - 1) || joins_at(t, i - 1));
        if open_through(t, i - 1) && !closes_at(t, i - 1) {
            assert forall|j: int| 0 <= j < i implies !#[trigger] closes_at(t, j) by {
                if j < i - 1 {
                }
            }
        }
    }
}

/// Along any run of a pool that starts open, work is accepted exactly up to the first
/// close: before it enqueuing never fails, and from it on enqueuing always fails.
pub proof fn law_enqueue_accepted_until_closed(t: Seq<Lifecycle>)
    requires
        t.len() >= 1,
        t[0].is_accepting(),
        is_run(t),
    ensures
        forall|i: int|
            0 <= i < t.len() ==> (#[trigger] t[i].is_accepting() <==> open_through(t, i)),
{
    assert forall|i: int| 0 <= i < t.len() implies (#[trigger] t[i].is_accepting()
        <==> open_through(t, i)) by {
        lemma_accepting_at(t, i);
    }
}

proof fn lemma_joins_count(t: Seq<Lifecycle>)
    requires
        t.len() >= 1,
        t[0].wf(),
        !t[0].is_accepting(),
        forall|i: int| 0 <= i < t.len() - 1 ==> #[trigger] joins_at(t, i),
    ensures
        t.len() <= t[0].live() + 1,
        forall|i: int| 0 <= i < t.len() ==> #[trigger] t[i].live() == t[0].live() - i,
        t.len() == t[0].live() + 1 ==> !t.last().is_accepting() && t.last().live() == 0,
    decreases t.len(),
{
    if t.len() > 1 {
        let p = t.drop_last();
        let n = t.len() - 1;
        assert forall|i: int| 0 <= i < p.len() - 1 implies #[trigger] joins_at(p, i) by {
            assert(joins_at(t, i));
            assert(p[i] == t[i] && p[i + 1] == t[i + 1]);
        }
        lemma_joins_count(p);
        assert(joins_at(t, n - 1));
        assert(p[n - 1] == t[n - 1]);
        assert(t[n - 1].live() == t[0].live() - (n - 1));
        assert forall|i: int| 0 <= i < t.len() implies #[trigger] t[i].live() == t[0].live() - i by {
            if i < n {
                assert(p[i] == t[i]);
            }
        }
    }
}

/// Shutting down always ends with no worker alive: from any well-formed pool, open or
/// already closed, a close followed by joins takes at most one join per worker started,
/// and after one join per live worker the pool is shut down.
pub proof fn law_shutdown_leaves_no_worker(t: Seq<Lifecycle>)
    requires
        t.len() >= 2,
        t[0].wf(),
        closes_at(t, 0),
        forall|i: int| 1 <= i < t.len() - 1 ==> #[trigger] joins_at(t, i),
    ensures
        t.len() <= t[0].pool() + 2,
        t.len() == t[0].live() + 2 ==> !t.last().is_accepting() && t.last().live() == 0,
{
    let r = t.subrange(1, t.len() as int);
    assert forall|i: int| 0 <= i < r.len() - 1 implies #[trigger] joins_at(r, i) by {
        assert(joins_at(t, i + 1));
        assert(r[i] == t[i + 1] && r[i + 1] == t[i + 2]);
    }
    assert(r[0] == t[1]);
    lemma_joins_count(r);
    assert(r.last() == t.last());
}

} // verus!
