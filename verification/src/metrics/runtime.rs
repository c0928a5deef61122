//! The figures of the runtime since they were last looked at.

use vstd::prelude::*;

verus! {

/// What a worker thread has done since the start.
#[derive(Debug, Clone, Copy, PartialEq, Eq, Structural)]
pub struct WorkerReading {
    pub busy_ns: u64,
    pub polls: u64,
    pub steals: u64,
    pub noops: u64,
}

/// What a worker thread has done since the last look.
#[derive(Debug, Clone, Copy, PartialEq, Eq, Structural)]
pub struct WorkerDelta {
    pub busy_us: u64,
    pub polls: u64,
    pub steals: u64,
    pub noops: u64,
}

/// The figures at the last look.
#[derive(Debug)]
pub struct RuntimeSnapshot {
    /// Empty before the first look.
    pub workers: Vec<WorkerReading>,
    pub budget_yield: u64,
    pub io_ready: u64,
}

/// What has happened since the last look.
#[derive(Debug)]
pub struct RuntimeDelta {
    pub workers: Vec<WorkerDelta>,
    pub total_busy_us: u64,
    pub budget_yield: u64,
    pub io_ready: u64,
}

/// By how much a figure has grown; one that has shrunk counts as unchanged.
pub open spec fn growth(new: u64, old: u64) -> u64 {
    if new > old {
        (new - old) as u64
    } else {
        0
    }
}

fn growth_of(new: u64, old: u64) -> (r: u64)
    ensures
        r == growth(new, old),
{
    if new > old {
        new - old
    } else {
        0
    }
}

pub open spec fn worker_delta(new: WorkerReading, old: WorkerReading) -> WorkerDelta {
    WorkerDelta {
        busy_us: growth(new.busy_ns, old.busy_ns) / 1000,
        polls: growth(new.polls, old.polls),
        steals: growth(new.steals, old.steals),
        noops: growth(new.noops, old.noops),
    }
}

/// The figure of a worker at the last look, nothing before the first.
pub open spec fn prior(workers: Seq<WorkerReading>, i: int) -> WorkerReading {
    if workers.len() == 0 {
        WorkerReading { busy_ns: 0, polls: 0, steals: 0, noops: 0 }
    } else {
        workers[i]
    }
}

/// How long the first `n` workers were busy, together.
pub open spec fn busy_sum(workers: Seq<WorkerDelta>, n: int) -> u64
    decreases n,
{
    if n <= 0 {
        0
    } else {
        busy_sum(workers, n - 1).wrapping_add(workers[n - 1].busy_us)
    }
}

impl RuntimeSnapshot {
    pub fn new() -> (r: Self)
        ensures
            r.workers@.len() == 0,
            r.budget_yield == 0 && r.io_ready == 0,
    {
        RuntimeSnapshot { workers: Vec::new(), budget_yield: 0, io_ready: 0 }
    }

    /// Looks at the figures: what has happened since the last look is returned.
    pub fn sample(&mut self, workers: &Vec<WorkerReading>, budget_yield: u64, io_ready: u64) -> (r:
        RuntimeDelta)
        requires
            old(self).workers@.len() == 0 || old(self).workers@.len() == workers@.len(),
        ensures
            final(self).workers@ == workers@,
            final(self).budget_yield == budget_yield && final(self).io_ready == io_ready,
            r.workers@.len() == workers@.len(),
            forall|i: int|
                0 <= i < workers@.len() ==> #[trigger] r.workers@[i] == worker_delta(
                    workers@[i],
                    prior(old(self).workers@, i),
                ),
            r.total_busy_us == busy_sum(r.workers@, r.workers@.len() as int),
            r.budget_yield == growth(budget_yield, old(self).budget_yield),
            r.io_ready == growth(io_ready, old(self).io_ready),
    {
        let mut deltas: Vec<WorkerDelta> = Vec::new();
        let mut now: Vec<WorkerReading> = Vec::new();
        let mut total: u64 = 0;
        let first: bool = self.workers.len() == 0;
        let mut i: usize = 0;
        while i < workers.len()
            invariant
                *self == *old(self),
                first == (self.workers@.len() == 0),
                first || self.workers@.len() == workers@.len(),
                i <= workers@.len(),
                deltas@.len() == i,
                now@ == workers@.take(i as int),
                forall|k: int|
                    0 <= k < i ==> #[trigger] deltas@[k] == worker_delta(
                        workers@[k],
                        prior(self.workers@, k),
                    ),
                total == busy_sum(deltas@, i as int),
            decreases workers@.len() - i,
        {
            let w: WorkerReading = workers[i];
            let p: WorkerReading = if first {
                WorkerReading { busy_ns: 0, polls: 0, steals: 0, noops: 0 }
            } else {
                self.workers[i]
            };
            let d = WorkerDelta {
                busy_us: growth_of(w.busy_ns, p.busy_ns) / 1000,
                polls: growth_of(w.polls, p.polls),
                steals: growth_of(w.steals, p.steals),
                noops: growth_of(w.noops, p.noops),
            };
            let ghost before = deltas@;
            total = total.wrapping_add(d.busy_us);
            deltas.push(d);
            now.push(w);
            proof {
                lemma_busy_kept(before, d, i as int);
                assert(now@ =~= workers@.take(i + 1));
            }
            i += 1;
        }
        assert(workers@.take(i as int) =~= workers@);
        let r = RuntimeDelta {
            workers: deltas,
            total_busy_us: total,
            budget_yield: growth_of(budget_yield, self.budget_yield),
            io_ready: growth_of(io_ready, self.io_ready),
        };
        self.workers = now;
        self.budget_yield = budget_yield;
        self.io_ready = io_ready;
        r
    }
}

proof fn lemma_busy_kept(a: Seq<WorkerDelta>, d: WorkerDelta, n: int)
    requires
        n <= a.len(),
    ensures
        busy_sum(a.push(d), n) == busy_sum(a, n),
    decreases n,
{
    if n > 0 {
        lemma_busy_kept(a, d, n - 1);
    }
}

} // verus!
