//! A fixed-capacity worker pool as a state machine: it decides which job
//! starts next and keeps the number of running jobs within its capacity.
//! The caller does the work and reports each job that has ended.

use vstd::prelude::*;

verus! {

/// Where a job of the pool stands.
#[derive(Clone, Copy, Debug, PartialEq, Eq, Structural)]
pub enum JobState {
    Pending,
    Running,
    Done,
}

/// What the caller of a pool has to do next.
#[derive(Clone, Copy, Debug, PartialEq, Eq, Structural)]
pub enum PoolStep {
    /// Start the job with this index; it now holds a slot.
    Start(usize),
    /// Every slot is taken, or nothing is left to start: wait for a
    /// running job to end and report it.
    Wait,
    /// Every job is done.
    Finished,
}

/// The number of jobs of `states` that are in state `which`.
pub open spec fn count_in_state(states: Seq<JobState>, which: JobState) -> nat
    decreases states.len(),
{
    if states.len() == 0 {
        0
    } else {
        count_in_state(states.drop_last(), which) + if states.last() == which {
            1nat
        } else {
            0nat
        }
    }
}

proof fn lemma_count_update(states: Seq<JobState>, i: int, to: JobState, which: JobState)
    requires
        0 <= i < states.len(),
    ensures
        count_in_state(states.update(i, to), which) + (if states[i] == which {
            1nat
        } else {
            0nat
        }) == count_in_state(states, which) + (if to == which {
            1nat
        } else {
            0nat
        }),
    decreases states.len(),
{
    let after = states.update(i, to);
    if i == states.len() - 1 {
        assert(after.drop_last() =~= states.drop_last());
    } else {
        assert(after.drop_last() =~= states.drop_last().update(i, to));
        lemma_count_update(states.drop_last(), i, to, which);
    }
}

proof fn lemma_count_bounds(states: Seq<JobState>, which: JobState)
    ensures
        count_in_state(states, which) <= states.len(),
        (forall|i: int| 0 <= i < states.len() ==> states[i] != which) ==> count_in_state(
            states,
            which,
        ) == 0,
        count_in_state(states, which) == 0 ==> (forall|i: int|
            0 <= i < states.len() ==> states[i] != which),
    decreases states.len(),
{
    if states.len() > 0 {
        lemma_count_bounds(states.drop_last(), which);
        assert forall|i: int|
            count_in_state(states, which) == 0 && 0 <= i < states.len() implies states[i]
            != which by {
            if i < states.len() - 1 {
                assert(states.drop_last()[i] == states[i]);
            }
        }
        if forall|i: int| 0 <= i < states.len() ==> states[i] != which {
            assert forall|i: int| 0 <= i < states.drop_last().len() implies states.drop_last()[i]
                != which by {
                assert(states.drop_last()[i] == states[i]);
            }
        }
    }
}

/// A pool of `capacity` slots over a fixed list of jobs, which are known
/// by their index. Jobs start in the order of their indices.
pub struct WorkPool {
    capacity: usize,
    states: Vec<JobState>,
    next: usize,
    running: usize,
}

impl WorkPool {
    /// The number of slots.
    pub closed spec fn capacity(&self) -> nat {
        self.capacity as nat
    }

    /// The state of every job, by index.
    pub closed spec fn states(&self) -> Seq<JobState> {
        self.states@
    }

    /// The number of jobs that hold a slot.
    pub open spec fn running(&self) -> nat {
        count_in_state(self.states(), JobState::Running)
    }

    /// The number of jobs that have ended.
    pub open spec fn done(&self) -> nat {
        count_in_state(self.states(), JobState::Done)
    }

    /// The index of the job that starts next: the first pending one.
    pub closed spec fn next(&self) -> nat {
        self.next as nat
    }

    /// The invariant of a pool: a slot for every running job, and the
    /// pending jobs are exactly those from `next` on.
    pub closed spec fn wf(&self) -> bool {
        &&& self.capacity >= 1
        &&& self.running == count_in_state(self.states@, JobState::Running)
        &&& self.running <= self.capacity
        &&& self.next <= self.states.len()
        &&& forall|i: int|
            0 <= i < self.states.len() ==> ((#[trigger] self.states[i]) == JobState::Pending <==> i
                >= self.next)
    }

    /// Whether a job can start now: one is pending and a slot is free.
    pub open spec fn can_start(&self) -> bool {
        self.next() < self.states().len() && self.running() < self.capacity()
    }

    /// A pool of `capacity` slots for `job_count` jobs, all pending. A pool
    /// without slots could never start a job, so there is none.
    pub fn new(job_count: usize, capacity: usize) -> (r: Option<WorkPool>)
        ensures
            r is Some <==> capacity >= 1,
            r matches Some(pool) ==> {
                &&& pool.wf()
                &&& pool.capacity() == capacity
                &&& pool.states() == Seq::new(job_count as nat, |i: int| JobState::Pending)
                &&& pool.next() == 0
                &&& pool.running() == 0
                &&& pool.done() == 0
            },
    {
        if capacity == 0 {
            return None;
        }
        let mut states: Vec<JobState> = Vec::new();
        while states.len() < job_count
            invariant
                states.len() <= job_count,
                forall|i: int| 0 <= i < states.len() ==> states[i] == JobState::Pending,
            decreases job_count - states.len(),
        {
            states.push(JobState::Pending);
        }
        proof {
            lemma_count_bounds(states@, JobState::Running);
            lemma_count_bounds(states@, JobState::Done);
            assert(states@ =~= Seq::new(job_count as nat, |i: int| JobState::Pending));
        }
        Some(WorkPool { capacity, states, next: 0, running: 0 })
    }

    /// The number of jobs that hold a slot.
    pub fn in_flight(&self) -> (r: usize)
        requires
            self.wf(),
        ensures
            r == self.running(),
            r <= self.capacity(),
    {
        self.running
    }

    /// The number of slots.
    pub fn slots(&self) -> (r: usize)
        ensures
            r == self.capacity(),
    {
        self.capacity
    }

    /// The number of jobs.
    pub fn job_count(&self) -> (r: usize)
        ensures
            r == self.states().len(),
    {
        self.states.len()
    }

    /// The state of job `job`; `None` where the pool has no such job.
    pub fn state_of(&self, job: usize) -> (r: Option<JobState>)
        ensures
            r == if job < self.states().len() {
                Some(self.states()[job as int])
            } else {
                None
            },
    {
        if job < self.states.len() {
            Some(self.states[job])
        } else {
            None
        }
    }

    /// Decides the next step. A pending job starts as soon as a slot is
    /// free, lowest index first; otherwise the caller waits while jobs
    /// run; and the pool has finished once every job is done.
    pub fn next_step(&mut self) -> (r: PoolStep)
        requires
            old(self).wf(),
        ensures
            final(self).wf(),
            final(self).capacity() == old(self).capacity(),
            match r {
                PoolStep::Start(job) => {
                    &&& old(self).can_start()
                    &&& job == old(self).next()
                    &&& final(self).next() == job + 1
                    &&& final(self).states() == old(self).states().update(
                        job as int,
                        JobState::Running,
                    )
                    &&& final(self).running() == old(self).running() + 1
                    &&& final(self).done() == old(self).done()
                },
                PoolStep::Wait => {
                    &&& !old(self).can_start()
                    &&& old(self).running() > 0
                    &&& *final(self) == *old(self)
                },
                PoolStep::Finished => {
                    &&& old(self).done() == old(self).states().len()
                    &&& old(self).next() == old(self).states().len()
                    &&& old(self).running() == 0
                    &&& *final(self) == *old(self)
                },
            },
    {
        if self.next < self.states.len() && self.running < self.capacity {
            let job = self.next;
            proof {
                lemma_count_update(self.states@, job as int, JobState::Running, JobState::Running);
                lemma_count_update(self.states@, job as int, JobState::Running, JobState::Done);
            }
            self.states.set(job, JobState::Running);
            self.running = self.running + 1;
            self.next = job + 1;
            PoolStep::Start(job)
        } else if self.running > 0 {
            PoolStep::Wait
        } else {
            proof {
                self.lemma_idle_means_done();
            }
            PoolStep::Finished
        }
    }

    /// Takes back the slot of job `job`, which has ended, however it
    /// ended. Returns whether the job held a slot; if it did not, nothing
    /// changes.
    pub fn complete(&mut self, job: usize) -> (r: bool)
        requires
            old(self).wf(),
        ensures
            final(self).wf(),
            final(self).capacity() == old(self).capacity(),
            final(self).next() == old(self).next(),
            r == (job < old(self).states().len() && old(self).states()[job as int]
                == JobState::Running),
            r ==> {
                &&& final(self).states() == old(self).states().update(job as int, JobState::Done)
                &&& final(self).running() + 1 == old(self).running()
                &&& final(self).done() == old(self).done() + 1
            },
            !r ==> *final(self) == *old(self),
    {
        if job < self.states.len() {
            if self.states[job] == JobState::Running {
                proof {
                    lemma_count_update(self.states@, job as int, JobState::Done, JobState::Running);
                    lemma_count_update(self.states@, job as int, JobState::Done, JobState::Done);
                }
                self.states.set(job, JobState::Done);
                self.running = self.running - 1;
                return true;
            }
        }
        false
    }

    proof fn lemma_idle_means_done(&self)
        requires
            self.wf(),
            self.next() == self.states().len(),
            self.running() == 0,
        ensures
            self.done() == self.states().len(),
    {
        lemma_count_bounds(self.states@, JobState::Running);
        lemma_all_in_state(self.states@, JobState::Done);
    }

    /// In every state of a pool, the job that starts next is the pending
    /// job of the lowest index.
    pub proof fn lemma_first_pending(&self)
        requires
            self.wf(),
        ensures
            self.next() <= self.states().len(),
            forall|i: int|
                0 <= i < self.states().len() ==> (self.states()[i] == JobState::Pending <==> i
                    >= self.next()),
    {
    }

    /// Bounded concurrency: in every state of a pool the number of running
    /// jobs is at most its capacity.
    pub proof fn lemma_running_within_capacity(&self)
        requires
            self.wf(),
        ensures
            self.running() <= self.capacity(),
    {
    }
}

proof fn lemma_all_in_state(states: Seq<JobState>, which: JobState)
    requires
        forall|i: int| 0 <= i < states.len() ==> states[i] == which,
    ensures
        count_in_state(states, which) == states.len(),
    decreases states.len(),
{
    if states.len() > 0 {
        assert forall|i: int| 0 <= i < states.drop_last().len() implies states.drop_last()[i]
            == which by {
            assert(states.drop_last()[i] == states[i]);
        }
        lemma_all_in_state(states.drop_last(), which);
    }
}

/// A list of jobs of which none is pending or running is done throughout.
pub proof fn lemma_none_running(states: Seq<JobState>)
    ensures
        (count_in_state(states, JobState::Running) == 0 && forall|i: int|
            0 <= i < states.len() ==> states[i] != JobState::Pending) ==> forall|i: int|
            0 <= i < states.len() ==> states[i] == JobState::Done,
{
    lemma_count_bounds(states, JobState::Running);
}

/// The number of running jobs over all of `pools`.
pub open spec fn total_running(pools: Seq<WorkPool>) -> nat
    decreases pools.len(),
{
    if pools.len() == 0 {
        0
    } else {
        total_running(pools.drop_last()) + pools.last().running()
    }
}

/// The number of slots over all of `pools`.
pub open spec fn total_capacity(pools: Seq<WorkPool>) -> nat
    decreases pools.len(),
{
    if pools.len() == 0 {
        0
    } else {
        total_capacity(pools.drop_last()) + pools.last().capacity()
    }
}

/// Pools that run side by side stay within the sum of their capacities:
/// the jobs running over all of them never outnumber all their slots.
pub proof fn lemma_total_running_within_capacity(pools: Seq<WorkPool>)
    requires
        forall|i: int| 0 <= i < pools.len() ==> (#[trigger] pools[i]).wf(),
    ensures
        total_running(pools) <= total_capacity(pools),
    decreases pools.len(),
{
    if pools.len() > 0 {
        assert forall|i: int| 0 <= i < pools.drop_last().len() implies (
        #[trigger] pools.drop_last()[i]).wf() by {
            assert(pools.drop_last()[i] == pools[i]);
        }
        lemma_total_running_within_capacity(pools.drop_last());
        assert(pools.last() == pools[pools.len() - 1]);
        pools.last().lemma_running_within_capacity();
    }
}

} // verus!
