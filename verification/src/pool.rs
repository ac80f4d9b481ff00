//! The bookkeeping of a fixed pool of workers that share one queue of jobs.
//! The pool here decides and records; whoever owns the workers asks it what
//! each of them is to do next and acts on the answer. A worker waits for a
//! job, runs it to completion, and asks again, until the pool is closed and
//! its queue is empty: then the worker is told to leave.

use vstd::prelude::*;
use std::collections::VecDeque;

verus! {

/// What a worker is doing.
#[derive(Clone, Copy, Debug, PartialEq, Eq)]
pub enum WorkerState {
    /// Waiting for a job.
    Idle,
    /// Running a job that it took.
    Running,
    /// Gone: it was told to leave and takes no further job.
    Terminated,
}

/// What a worker that asked is to do next.
pub enum Step<J> {
    /// Run this job, then ask again.
    Run(J),
    /// There is no job at the moment: wait until something changes, then ask
    /// again.
    Wait,
    /// Leave.
    Exit,
}

/// The number of running workers.
pub open spec fn running(workers: Seq<WorkerState>) -> nat
    decreases workers.len(),
{
    if workers.len() == 0 {
        0
    } else {
        running(workers.drop_last()) + if workers.last() is Running {
            1nat
        } else {
            0nat
        }
    }
}

/// What a pool is: whether it still takes jobs, the jobs that wait, the
/// state of each worker, every job that was ever taken in, first to last,
/// and how many jobs were run to their end.
pub struct ThreadPoolView<J> {
    pub open: bool,
    pub queue: Seq<J>,
    pub workers: Seq<WorkerState>,
    pub accepted: Seq<J>,
    pub finished: nat,
}

impl<J> ThreadPoolView<J> {
    /// Whether the worker with this number has left.
    pub open spec fn has_left(self, worker: int) -> bool {
        0 <= worker < self.workers.len() && self.workers[worker] is Terminated
    }

    /// Whether every worker has left.
    pub open spec fn shut_down(self) -> bool {
        forall|i: int| 0 <= i < self.workers.len() ==> #[trigger] self.has_left(i)
    }

    /// The number of jobs that were handed to a worker.
    pub open spec fn handed(self) -> int {
        self.accepted.len() - self.queue.len()
    }

    /// The state of a pool that lost no job and handed none out twice: the
    /// jobs that wait are the last that were taken in, in the order in which
    /// they came; every job before them is being run or was run to its end;
    /// and no worker has left while the pool was open or a job was waiting.
    pub open spec fn well_formed(self) -> bool {
        &&& self.workers.len() >= 1
        &&& 0 <= self.handed()
        &&& self.queue =~= self.accepted.skip(self.handed())
        &&& self.handed() == running(self.workers) + self.finished
        &&& forall|i: int| #[trigger] self.has_left(i) ==> !self.open && self.queue.len() == 0
    }

    /// The state after the worker has reported back: a job that it was
    /// running counts as finished, and the worker waits.
    pub open spec fn reported(self, worker: int) -> ThreadPoolView<J> {
        if self.workers[worker] is Running {
            ThreadPoolView {
                workers: self.workers.update(worker, WorkerState::Idle),
                finished: self.finished + 1,
                ..self
            }
        } else {
            self
        }
    }

    /// Whether the worker with this number may ask for work: it exists and
    /// has not left.
    pub open spec fn serves(self, worker: int) -> bool {
        0 <= worker < self.workers.len() && !(self.workers[worker] is Terminated)
    }

    /// The pool after a job was offered to it: an open pool puts the job at
    /// the end of its queue, a closed pool stays as it is.
    pub open spec fn after_execute(self, job: J) -> ThreadPoolView<J> {
        if self.open {
            ThreadPoolView {
                queue: self.queue.push(job),
                accepted: self.accepted.push(job),
                ..self
            }
        } else {
            self
        }
    }

    /// What the pool answers a worker that asks what to do next: to leave,
    /// where the worker has left before or is none of the pool's; else to
    /// run the job that waited longest, if one waits; to leave, if none
    /// waits and the pool is closed; to wait, if none waits and the pool is
    /// open.
    pub open spec fn answer(self, worker: int) -> Step<J> {
        if !self.serves(worker) {
            Step::Exit
        } else if self.queue.len() > 0 {
            Step::Run(self.queue[0])
        } else if !self.open {
            Step::Exit
        } else {
            Step::Wait
        }
    }

    /// The pool after it answered a worker: the worker has reported back,
    /// and then runs the job it was given, has left, or waits.
    pub open spec fn after_take(self, worker: int) -> ThreadPoolView<J> {
        if !self.serves(worker) {
            self
        } else if self.queue.len() > 0 {
            ThreadPoolView {
                queue: self.queue.drop_first(),
                workers: self.workers.update(worker, WorkerState::Running),
                ..self.reported(worker)
            }
        } else if !self.open {
            ThreadPoolView {
                workers: self.workers.update(worker, WorkerState::Terminated),
                ..self.reported(worker)
            }
        } else {
            ThreadPoolView {
                workers: self.workers.update(worker, WorkerState::Idle),
                ..self.reported(worker)
            }
        }
    }

    /// The pool after it was closed: it takes no further job; the jobs that
    /// wait stay, and so does every worker.
    pub open spec fn after_close(self) -> ThreadPoolView<J> {
        ThreadPoolView { open: false, ..self }
    }
}

/// A fixed pool of workers and its queue of jobs.
pub struct ThreadPool<J> {
    open: bool,
    queue: VecDeque<J>,
    workers: Vec<WorkerState>,
    accepted: Ghost<Seq<J>>,
    finished: Ghost<nat>,
}

impl<J> View for ThreadPool<J> {
    type V = ThreadPoolView<J>;

    closed spec fn view(&self) -> ThreadPoolView<J> {
        ThreadPoolView {
            open: self.open,
            queue: self.queue@,
            workers: self.workers@,
            accepted: self.accepted@,
            finished: self.finished@,
        }
    }
}

/// Changing the state of one worker changes the number of running workers
/// by that worker alone.
pub proof fn lemma_running_update(workers: Seq<WorkerState>, i: int, state: WorkerState)
    requires
        0 <= i < workers.len(),
    ensures
        running(workers.update(i, state)) + (if workers[i] is Running {
            1nat
        } else {
            0nat
        }) == running(workers) + (if state is Running {
            1nat
        } else {
            0nat
        }),
    decreases workers.len(),
{
    let changed = workers.update(i, state);
    if i == workers.len() - 1 {
        assert(changed.drop_last() =~= workers.drop_last());
    } else {
        assert(changed.drop_last() =~= workers.drop_last().update(i, state));
        lemma_running_update(workers.drop_last(), i, state);
    }
}

/// Where no worker is running, the number of running workers is zero.
pub proof fn lemma_running_none(workers: Seq<WorkerState>)
    requires
        forall|i: int| 0 <= i < workers.len() ==> !(#[trigger] workers[i] is Running),
    ensures
        running(workers) == 0,
    decreases workers.len(),
{
    if workers.len() > 0 {
        lemma_running_none(workers.drop_last());
    }
}

/// A pool stays well formed when a job is offered to it.
pub proof fn lemma_execute_keeps_well_formed<J>(pool: ThreadPoolView<J>, job: J)
    requires
        pool.well_formed(),
    ensures
        pool.after_execute(job).well_formed(),
{
    let after = pool.after_execute(job);
    if pool.open {
        assert(after.queue =~= after.accepted.skip(after.handed()));
        assert forall|i: int| #[trigger] after.has_left(i) implies !after.open && after.queue.len()
            == 0 by {
            assert(pool.has_left(i));
        }
    }
}

/// A pool stays well formed when it answers a worker.
pub proof fn lemma_take_keeps_well_formed<J>(pool: ThreadPoolView<J>, worker: int)
    requires
        pool.well_formed(),
    ensures
        pool.after_take(worker).well_formed(),
{
    let after = pool.after_take(worker);
    if pool.serves(worker) {
        let back = pool.reported(worker);
        lemma_running_update(pool.workers, worker, WorkerState::Idle);
        lemma_running_update(pool.workers, worker, after.workers[worker]);
        assert(back.workers.update(worker, after.workers[worker]) =~= pool.workers.update(
            worker,
            after.workers[worker],
        ));
        assert(after.queue =~= after.accepted.skip(after.handed()));
        assert forall|i: int| #[trigger] after.has_left(i) implies !after.open && after.queue.len()
            == 0 by {
            if i != worker {
                assert(pool.has_left(i));
            }
        }
    }
}

/// A pool stays well formed when it is closed.
pub proof fn lemma_close_keeps_well_formed<J>(pool: ThreadPoolView<J>)
    requires
        pool.well_formed(),
    ensures
        pool.after_close().well_formed(),
{
    let after = pool.after_close();
    assert forall|i: int| #[trigger] after.has_left(i) implies !after.open && after.queue.len()
        == 0 by {
        assert(pool.has_left(i));
    }
}

/// A closed pool takes no job: an offer changes nothing. And nothing opens
/// a pool again: it stays closed whatever is done with it.
pub proof fn lemma_closed_for_good<J>(pool: ThreadPoolView<J>, job: J, worker: int)
    requires
        !pool.open,
    ensures
        pool.after_execute(job) == pool,
        !pool.after_take(worker).open,
        !pool.after_close().open,
{
}

/// The pool keeps the number of workers that it was made with.
pub proof fn lemma_worker_count_is_fixed<J>(pool: ThreadPoolView<J>, job: J, worker: int)
    ensures
        pool.after_execute(job).workers.len() == pool.workers.len(),
        pool.after_take(worker).workers.len() == pool.workers.len(),
        pool.after_close().workers.len() == pool.workers.len(),
{
}

/// The job that a worker gets next is the oldest that no worker has had:
/// the jobs leave in the order in which they came, each of them once.
pub proof fn lemma_next_job_is_oldest<J>(pool: ThreadPoolView<J>, worker: int)
    requires
        pool.well_formed(),
        pool.answer(worker) is Run,
    ensures
        0 <= pool.handed() < pool.accepted.len(),
        pool.answer(worker) == Step::Run(pool.accepted[pool.handed()]),
        pool.after_take(worker).handed() == pool.handed() + 1,
        pool.after_take(worker).accepted == pool.accepted,
{
}

/// Once every worker has left, nothing is left undone: the pool is closed,
/// no job waits, and every job that was taken in was run to its end.
pub proof fn lemma_shut_down_leaves_nothing<J>(pool: ThreadPoolView<J>)
    requires
        pool.well_formed(),
        pool.shut_down(),
    ensures
        !pool.open,
        pool.queue.len() == 0,
        pool.finished == pool.accepted.len(),
{
    assert(pool.has_left(0));
    assert forall|i: int| 0 <= i < pool.workers.len() implies !(#[trigger] pool.workers[i]
        is Running) by {
        assert(pool.has_left(i));
    }
    lemma_running_none(pool.workers);
}

impl<J> ThreadPool<J> {
    /// A pool of `n_workers` workers, all waiting, open and with no job.
    pub fn new(n_workers: usize) -> (pool: ThreadPool<J>)
        requires
            n_workers >= 1,
        ensures
            pool@.well_formed(),
            pool@.open,
            pool@.queue == Seq::<J>::empty(),
            pool@.workers == Seq::new(n_workers as nat, |i: int| WorkerState::Idle),
            pool@.accepted == Seq::<J>::empty(),
            pool@.finished == 0,
    {
        let mut workers: Vec<WorkerState> = Vec::new();
        let mut i: usize = 0;
        while i < n_workers
            invariant
                i <= n_workers,
                workers@ == Seq::new(i as nat, |k: int| WorkerState::Idle),
            decreases n_workers - i,
        {
            workers.push(WorkerState::Idle);
            i += 1;
            assert(workers@ =~= Seq::new(i as nat, |k: int| WorkerState::Idle));
        }
        proof {
            lemma_running_none(workers@);
        }
        ThreadPool {
            open: true,
            queue: VecDeque::new(),
            workers,
            accepted: Ghost(Seq::empty()),
            finished: Ghost(0),
        }
    }

    /// Takes a job in. An open pool puts it at the end of its queue; a
    /// closed pool drops it and changes nothing. Says whether the job was
    /// taken.
    pub fn execute(&mut self, job: J) -> (taken: bool)
        requires
            old(self)@.well_formed(),
        ensures
            final(self)@.well_formed(),
            taken == old(self)@.open,
            final(self)@ == old(self)@.after_execute(job),
    {
        proof {
            lemma_execute_keeps_well_formed(self@, job);
        }
        if !self.open {
            return false;
        }
        self.queue.push_back(job);
        proof {
            self.accepted@ = self.accepted@.push(job);
        }
        true
    }

    /// Answers a worker that asks what to do next. A worker that was
    /// running has thereby reported that its job is done. A worker that has
    /// left, or that the pool does not have, is told to leave and nothing
    /// changes. Any other gets the job that waited longest, if one waits;
    /// is told to leave, if none waits and the pool is closed; and is told
    /// to wait, if none waits and the pool is open.
    pub fn take(&mut self, worker: usize) -> (step: Step<J>)
        requires
            old(self)@.well_formed(),
        ensures
            final(self)@.well_formed(),
            step == old(self)@.answer(worker as int),
            final(self)@ == old(self)@.after_take(worker as int),
    {
        proof {
            lemma_take_keeps_well_formed(self@, worker as int);
        }
        if worker >= self.workers.len() {
            return Step::Exit;
        }
        let state = self.workers[worker];
        match state {
            WorkerState::Terminated => {
                return Step::Exit;
            },
            WorkerState::Running => {
                proof {
                    self.finished@ = self.finished@ + 1;
                }
            },
            WorkerState::Idle => {},
        }
        let ghost back = old(self)@.reported(worker as int);
        if self.queue.len() > 0 {
            let job = self.queue.pop_front().unwrap();
            self.workers.set(worker, WorkerState::Running);
            proof {
                assert(self.queue@ =~= old(self)@.queue.drop_first());
                assert(self.workers@ =~= back.workers.update(worker as int, WorkerState::Running));
            }
            Step::Run(job)
        } else if !self.open {
            self.workers.set(worker, WorkerState::Terminated);
            proof {
                assert(self.workers@ =~= back.workers.update(
                    worker as int,
                    WorkerState::Terminated,
                ));
            }
            Step::Exit
        } else {
            self.workers.set(worker, WorkerState::Idle);
            proof {
                assert(self.workers@ =~= back.workers.update(worker as int, WorkerState::Idle));
            }
            Step::Wait
        }
    }

    /// Closes the pool: it takes no further job. The jobs that wait stay,
    /// and so does every worker.
    pub fn close(&mut self)
        requires
            old(self)@.well_formed(),
        ensures
            final(self)@.well_formed(),
            final(self)@ == old(self)@.after_close(),
    {
        proof {
            lemma_close_keeps_well_formed(self@);
        }
        self.open = false;
    }

    /// Whether the pool still takes jobs.
    pub fn is_open(&self) -> (open: bool)
        ensures
            open == self@.open,
    {
        self.open
    }

    /// The number of jobs that wait.
    pub fn pending(&self) -> (n: usize)
        ensures
            n == self@.queue.len(),
    {
        self.queue.len()
    }

    /// The number of workers, whatever they are doing.
    pub fn worker_count(&self) -> (n: usize)
        ensures
            n == self@.workers.len(),
    {
        self.workers.len()
    }

    /// What the worker with this number is doing, or nothing where the pool
    /// has no such worker.
    pub fn state_of(&self, worker: usize) -> (state: Option<WorkerState>)
        ensures
            worker < self@.workers.len() ==> state == Some(self@.workers[worker as int]),
            worker >= self@.workers.len() ==> state.is_none(),
    {
        if worker < self.workers.len() {
            Some(self.workers[worker])
        } else {
            None
        }
    }

    /// Whether every worker has left.
    pub fn is_shut_down(&self) -> (done: bool)
        ensures
            done == self@.shut_down(),
    {
        let mut i: usize = 0;
        while i < self.workers.len()
            invariant
                i <= self.workers.len(),
                forall|k: int| 0 <= k < i ==> #[trigger] self@.has_left(k),
            decreases self.workers.len() - i,
        {
            match self.workers[i] {
                WorkerState::Terminated => {},
                _ => {
                    assert(!self@.has_left(i as int));
                    return false;
                },
            }
            i += 1;
        }
        true
    }
}

} // verus!
