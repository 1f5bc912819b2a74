use vstd::prelude::*;
use std::collections::VecDeque;
use crate::message::Message;
use crate::worker::{step, next_action, next_state, Received, WorkerAction, WorkerState};

verus! {

/// The pool's own lifecycle: it accepts work while active, drains after the
/// terminate signals are sent, and is stopped once every worker was joined.
#[derive(PartialEq, Eq, Structural, Clone, Copy, Debug)]
pub enum Phase {
    Active,
    Draining,
    Stopped,
}

/// The messages that carry the given jobs, in the same order.
pub open spec fn jobs<J>(s: Seq<J>) -> Seq<Message<J>> {
    Seq::new(s.len(), |i: int| Message::NewJob(s[i]))
}

/// `n` terminate signals.
pub open spec fn terms<J>(n: nat) -> Seq<Message<J>> {
    Seq::new(n, |i: int| Message::Terminate)
}

/// How many of the workers stand in state `st`.
pub open spec fn count_in(ws: Seq<WorkerState>, st: WorkerState) -> nat
    decreases ws.len(),
{
    if ws.len() == 0 {
        0
    } else {
        count_in(ws.drop_last(), st) + if ws.last() == st {
            1nat
        } else {
            0nat
        }
    }
}

pub proof fn lemma_count_in_bound(ws: Seq<WorkerState>, st: WorkerState)
    ensures
        count_in(ws, st) <= ws.len(),
    decreases ws.len(),
{
    if ws.len() > 0 {
        lemma_count_in_bound(ws.drop_last(), st);
    }
}

pub proof fn lemma_count_in_update(ws: Seq<WorkerState>, i: int, v: WorkerState, st: WorkerState)
    requires
        0 <= i < ws.len(),
    ensures
        count_in(ws.update(i, v), st) + (if ws[i] == st { 1nat } else { 0nat }) == count_in(ws, st)
            + (if v == st { 1nat } else { 0nat }),
    decreases ws.len(),
{
    let u = ws.update(i, v);
    if i == ws.len() - 1 {
        assert(u.drop_last() =~= ws.drop_last());
    } else {
        assert(u.drop_last() =~= ws.drop_last().update(i, v));
        lemma_count_in_update(ws.drop_last(), i, v, st);
    }
}

pub proof fn lemma_count_in_all(ws: Seq<WorkerState>, st: WorkerState)
    requires
        forall|i: int| 0 <= i < ws.len() ==> ws[i] == st,
    ensures
        count_in(ws, st) == ws.len(),
    decreases ws.len(),
{
    if ws.len() > 0 {
        lemma_count_in_all(ws.drop_last(), st);
    }
}

/// A fixed set of workers around one FIFO job queue.
///
/// Workers are known by their index. Each job that the pool accepts is
/// taken from the queue by exactly one worker, in the order of submission;
/// shutdown puts one terminate signal per worker behind the queued jobs, so
/// that the jobs are all taken before any worker stops.
pub struct ThreadPool<J> {
    workers: Vec<WorkerState>,
    queue: VecDeque<Message<J>>,
    live: usize,
    phase: Phase,
    next_join: usize,
    submitted: Ghost<Seq<J>>,
    started: Ghost<Seq<J>>,
    cutoff: Ghost<nat>,
    done: Ghost<nat>,
}

impl<J> ThreadPool<J> {
    /// The states of the workers, by index.
    pub closed spec fn workers_view(&self) -> Seq<WorkerState> {
        self.workers@
    }

    /// The messages in the queue, front first.
    pub closed spec fn queue_view(&self) -> Seq<Message<J>> {
        self.queue@
    }

    pub closed spec fn phase_view(&self) -> Phase {
        self.phase
    }

    /// Every job that the pool accepted, in order of submission.
    pub closed spec fn submitted(&self) -> Seq<J> {
        self.submitted@
    }

    /// Every job that a worker took from the queue, in the order taken.
    pub closed spec fn started(&self) -> Seq<J> {
        self.started@
    }

    /// How many jobs had been accepted when shutdown began.
    pub closed spec fn cutoff(&self) -> nat {
        self.cutoff@
    }

    /// How many taken jobs were reported finished.
    pub closed spec fn done(&self) -> nat {
        self.done@
    }

    /// How many workers were joined, in index order.
    pub closed spec fn joined(&self) -> nat {
        self.next_join as nat
    }

    /// The workers that have not left their loop.
    pub open spec fn live(&self) -> nat {
        (self.workers_view().len() - count_in(self.workers_view(), WorkerState::Terminated)) as nat
    }

    /// The workers in the middle of a job.
    pub open spec fn running(&self) -> nat {
        count_in(self.workers_view(), WorkerState::Running)
    }

    /// What the queue holds, given what was accepted and taken: the jobs not
    /// yet taken, with one terminate signal per live worker behind the jobs
    /// accepted before shutdown.
    pub open spec fn expected_queue(&self) -> Seq<Message<J>> {
        let s = self.submitted();
        let k = self.started().len() as int;
        if self.phase_view() == Phase::Active {
            jobs(s.subrange(k, s.len() as int))
        } else {
            jobs(s.subrange(k, self.cutoff() as int)) + terms(self.live()) + jobs(
                s.subrange(self.cutoff() as int, s.len() as int),
            )
        }
    }

    pub closed spec fn wf(&self) -> bool {
        &&& self.workers@.len() > 0
        &&& self.live as nat == self.live()
        &&& self.started@.len() <= self.submitted@.len()
        &&& self.started@ =~= self.submitted@.subrange(0, self.started@.len() as int)
        &&& self.running() + self.done@ == self.started@.len()
        &&& self.queue@ =~= self.expected_queue()
        &&& self.next_join <= self.workers@.len()
        &&& if self.phase == Phase::Active {
            &&& self.live() == self.workers@.len()
            &&& self.next_join == 0
        } else {
            &&& self.started@.len() <= self.cutoff@ <= self.submitted@.len()
            &&& self.live() < self.workers@.len() ==> self.started@.len() == self.cutoff@
            &&& (self.phase == Phase::Stopped <==> self.next_join == self.workers@.len())
        }
    }

    /// A pool of `size` workers, all waiting on an empty queue.
    pub fn new(size: usize) -> (r: Self)
        requires
            size > 0,
        ensures
            r.wf(),
            r.workers_view().len() == size,
            forall|i: int| 0 <= i < size ==> r.workers_view()[i] == WorkerState::Waiting,
            r.live() == size,
            r.running() == 0,
            r.queue_view().len() == 0,
            r.phase_view() == Phase::Active,
            r.submitted().len() == 0,
            r.started().len() == 0,
            r.done() == 0,
    {
        let mut workers: Vec<WorkerState> = Vec::with_capacity(size);
        let mut id: usize = 0;
        while id < size
            invariant
                id <= size,
                workers@.len() == id,
                forall|i: int| 0 <= i < id ==> workers@[i] == WorkerState::Waiting,
            decreases size - id,
        {
            workers.push(WorkerState::Waiting);
            id = id + 1;
        }
        let r = ThreadPool {
            workers,
            queue: VecDeque::new(),
            live: size,
            phase: Phase::Active,
            next_join: 0,
            submitted: Ghost(Seq::empty()),
            started: Ghost(Seq::empty()),
            cutoff: Ghost(0),
            done: Ghost(0),
        };
        proof {
            lemma_count_in_all(workers@, WorkerState::Waiting);
            lemma_count_in_bound(workers@, WorkerState::Terminated);
            lemma_count_in_bound(workers@, WorkerState::Running);
            lemma_count_in_none(workers@, WorkerState::Terminated);
            lemma_count_in_none(workers@, WorkerState::Running);
            assert(r.queue@ =~= r.expected_queue());
        }
        r
    }

    /// Puts a job at the back of the queue, unless no worker is left to take
    /// it: then the job is handed back.
    pub fn execute(&mut self, job: J) -> (r: Result<(), J>)
        requires
            old(self).wf(),
        ensures
            final(self).wf(),
            r is Ok <==> old(self).live() > 0,
            r is Ok ==> {
                &&& final(self).queue_view() == old(self).queue_view().push(Message::NewJob(job))
                &&& final(self).submitted() == old(self).submitted().push(job)
            },
            r matches Err(j) ==> j == job && final(self).queue_view() == old(self).queue_view()
                && final(self).submitted() == old(self).submitted(),
            final(self).workers_view() == old(self).workers_view(),
            final(self).phase_view() == old(self).phase_view(),
            final(self).started() == old(self).started(),
            final(self).cutoff() == old(self).cutoff(),
            final(self).done() == old(self).done(),
            final(self).joined() == old(self).joined(),
    {
        if self.live == 0 {
            return Err(job);
        }
        let ghost s0 = self.submitted@;
        let ghost k = self.started@.len() as int;
        self.queue.push_back(Message::NewJob(job));
        self.submitted = Ghost(self.submitted@.push(job));
        proof {
            let s1 = self.submitted@;
            assert(s1.subrange(0, k) =~= s0.subrange(0, k));
            if self.phase == Phase::Active {
                assert(jobs(s1.subrange(k, s1.len() as int)) =~= jobs(s0.subrange(k, s0.len() as int)).push(Message::NewJob(job)));
            } else {
                let c = self.cutoff@ as int;
                assert(s1.subrange(k, c) =~= s0.subrange(k, c));
                assert(jobs(s1.subrange(c, s1.len() as int)) =~= jobs(s0.subrange(c, s0.len() as int)).push(Message::NewJob(job)));
            }
            assert(self.queue@ =~= self.expected_queue());
        }
        Ok(())
    }

    /// What bounds the rest of a drain: each job still ahead of the
    /// terminate signals counts twice (taken, then finished), each running
    /// job and each live worker once.
    pub open spec fn drain_measure(&self) -> nat {
        (2 * (self.cutoff() - self.started().len()) + self.running() + self.live()) as nat
    }

    /// Worker `id`, waiting, takes the message at the front of the queue:
    /// a job makes it run that job, a terminate signal makes it leave its
    /// loop, and an empty queue makes it block.
    pub fn receive(&mut self, id: usize) -> (r: WorkerAction<J>)
        requires
            old(self).wf(),
            id < old(self).workers_view().len(),
            old(self).workers_view()[id as int] == WorkerState::Waiting,
        ensures
            final(self).wf(),
            old(self).queue_view().len() == 0 ==> {
                &&& r is Wait
                &&& final(self).queue_view() == old(self).queue_view()
                &&& final(self).workers_view() == old(self).workers_view()
                &&& final(self).started() == old(self).started()
            },
            old(self).queue_view().len() > 0 ==> {
                let got = Received::Got(old(self).queue_view()[0]);
                &&& r == next_action(got)
                &&& final(self).queue_view() == old(self).queue_view().drop_first()
                &&& final(self).workers_view() == old(self).workers_view().update(id as int, next_state(got))
                &&& final(self).started() == match r {
                    WorkerAction::Run(j) => old(self).started().push(j),
                    _ => old(self).started(),
                }
            },
            final(self).live() == old(self).live() - if r is Exit { 1int } else { 0int },
            final(self).running() == old(self).running() + if r is Run { 1int } else { 0int },
            old(self).phase_view() != Phase::Active ==> !(r is Wait),
            old(self).phase_view() != Phase::Active ==> final(self).drain_measure() < old(self).drain_measure(),
            final(self).submitted() == old(self).submitted(),
            final(self).phase_view() == old(self).phase_view(),
            final(self).cutoff() == old(self).cutoff(),
            final(self).done() == old(self).done(),
            final(self).joined() == old(self).joined(),
    {
        let ghost ws0 = self.workers@;
        let ghost s = self.submitted@;
        let ghost k = self.started@.len() as int;
        let ghost q0 = self.queue@;
        let ghost live0 = self.live();
        proof {
            lemma_count_in_update(ws0, id as int, WorkerState::Terminated, WorkerState::Terminated);
            lemma_count_in_bound(ws0.update(id as int, WorkerState::Terminated), WorkerState::Terminated);
            if self.phase != Phase::Active && k == self.cutoff@ as int {
                assert(q0 =~= terms(live0) + jobs(s.subrange(k, s.len() as int)));
                assert(q0[0] == Message::<J>::Terminate);
            } else if k < s.len() {
                assert(q0[0] == Message::NewJob(s[k]));
            }
        }
        match self.queue.pop_front() {
            None => WorkerAction::Wait,
            Some(msg) => {
                let ghost m = msg;
                let (st, act) = step(Received::Got(msg));
                self.workers.set(id, st);
                proof {
                    lemma_count_in_update(ws0, id as int, st, WorkerState::Terminated);
                    lemma_count_in_update(ws0, id as int, st, WorkerState::Running);
                }
                if st == WorkerState::Terminated {
                    self.live = self.live - 1;
                }
                proof {
                    let q1 = self.queue@;
                    if m is NewJob {
                        assert(k < s.len());
                        assert(m == Message::NewJob(s[k]));
                        self.started = Ghost(self.started@.push(s[k]));
                        assert(self.started@ =~= s.subrange(0, k + 1));
                        if self.phase == Phase::Active {
                            assert(q1 =~= jobs(s.subrange(k + 1, s.len() as int)));
                        } else {
                            let c = self.cutoff@ as int;
                            assert(k < c);
                            assert(q1 =~= jobs(s.subrange(k + 1, c)) + terms(live0) + jobs(
                                s.subrange(c, s.len() as int),
                            ));
                        }
                    } else {
                        assert(self.phase != Phase::Active);
                        let c = self.cutoff@ as int;
                        assert(q1 =~= jobs(s.subrange(k, c)) + terms((live0 - 1) as nat) + jobs(
                            s.subrange(c, s.len() as int),
                        ));
                    }
                    assert(self.queue@ =~= self.expected_queue());
                }
                act
            },
        }
    }

    /// Worker `id` is done with its job and waits again.
    pub fn finish_job(&mut self, id: usize)
        requires
            old(self).wf(),
            id < old(self).workers_view().len(),
            old(self).workers_view()[id as int] == WorkerState::Running,
        ensures
            final(self).wf(),
            final(self).workers_view() == old(self).workers_view().update(id as int, WorkerState::Waiting),
            final(self).done() == old(self).done() + 1,
            final(self).live() == old(self).live(),
            final(self).running() == old(self).running() - 1,
            final(self).queue_view() == old(self).queue_view(),
            final(self).submitted() == old(self).submitted(),
            final(self).started() == old(self).started(),
            final(self).phase_view() == old(self).phase_view(),
            final(self).cutoff() == old(self).cutoff(),
            final(self).joined() == old(self).joined(),
            old(self).phase_view() != Phase::Active ==> final(self).drain_measure() < old(self).drain_measure(),
    {
        let ghost ws0 = self.workers@;
        self.workers.set(id, WorkerState::Waiting);
        self.done = Ghost(self.done@ + 1);
        proof {
            lemma_count_in_update(ws0, id as int, WorkerState::Waiting, WorkerState::Terminated);
            lemma_count_in_update(ws0, id as int, WorkerState::Waiting, WorkerState::Running);
            assert(self.queue@ =~= self.expected_queue());
        }
    }

    /// Begins shutdown: one terminate signal per worker goes behind every
    /// job queued so far, all of them before any worker is joined. Returns
    /// how many signals were sent.
    pub fn shutdown(&mut self) -> (r: usize)
        requires
            old(self).wf(),
            old(self).phase_view() == Phase::Active,
        ensures
            final(self).wf(),
            r == old(self).workers_view().len(),
            final(self).queue_view() == old(self).queue_view() + terms(r as nat),
            final(self).phase_view() == Phase::Draining,
            final(self).cutoff() == old(self).submitted().len(),
            final(self).workers_view() == old(self).workers_view(),
            final(self).submitted() == old(self).submitted(),
            final(self).started() == old(self).started(),
            final(self).done() == old(self).done(),
            final(self).joined() == 0,
    {
        let ghost q0 = self.queue@;
        let ghost p0 = *self;
        let n = self.workers.len();
        let mut sent: usize = 0;
        while sent < n
            invariant
                sent <= n,
                n == self.workers@.len(),
                self.queue@ =~= q0 + terms::<J>(sent as nat),
                self.workers@ == p0.workers@,
                self.live == p0.live,
                self.phase == p0.phase,
                self.next_join == p0.next_join,
                self.submitted@ == p0.submitted@,
                self.started@ == p0.started@,
                self.done@ == p0.done@,
            decreases n - sent,
        {
            self.queue.push_back(Message::Terminate);
            sent = sent + 1;
            assert(self.queue@ =~= q0 + terms::<J>(sent as nat));
        }
        self.phase = Phase::Draining;
        self.cutoff = Ghost(self.submitted@.len());
        proof {
            let s = self.submitted@;
            let k = self.started@.len() as int;
            assert(jobs(s.subrange(s.len() as int, s.len() as int)) =~= Seq::<Message<J>>::empty());
            assert(q0 =~= jobs(s.subrange(k, s.len() as int)));
            assert(self.queue@ =~= self.expected_queue());
        }
        sent
    }

    /// Joining goes through the workers in index order: the next to join,
    /// or `None` once every one was. The pool is stopped after the last.
    pub fn join_next(&mut self) -> (r: Option<usize>)
        requires
            old(self).wf(),
            old(self).phase_view() != Phase::Active,
        ensures
            final(self).wf(),
            old(self).joined() < old(self).workers_view().len() ==> r == Some(old(self).joined() as usize)
                && final(self).joined() == old(self).joined() + 1,
            old(self).joined() == old(self).workers_view().len() ==> r is None && final(self).joined()
                == old(self).joined(),
            final(self).phase_view() == if final(self).joined() == old(self).workers_view().len() {
                Phase::Stopped
            } else {
                Phase::Draining
            },
            final(self).workers_view() == old(self).workers_view(),
            final(self).queue_view() == old(self).queue_view(),
            final(self).submitted() == old(self).submitted(),
            final(self).started() == old(self).started(),
            final(self).cutoff() == old(self).cutoff(),
            final(self).done() == old(self).done(),
    {
        if self.next_join == self.workers.len() {
            return None;
        }
        let id = self.next_join;
        self.next_join = self.next_join + 1;
        if self.next_join == self.workers.len() {
            self.phase = Phase::Stopped;
        }
        proof {
            assert(self.queue@ =~= self.expected_queue());
        }
        Some(id)
    }

    /// How many workers the pool was made with.
    pub fn num_workers(&self) -> (r: usize)
        ensures
            r == self.workers_view().len(),
    {
        self.workers.len()
    }

    /// How many messages wait in the queue.
    pub fn pending(&self) -> (r: usize)
        ensures
            r == self.queue_view().len(),
    {
        self.queue.len()
    }

    pub fn phase(&self) -> (r: Phase)
        ensures
            r == self.phase_view(),
    {
        self.phase
    }

    pub fn worker_state(&self, id: usize) -> (r: WorkerState)
        requires
            id < self.workers_view().len(),
        ensures
            r == self.workers_view()[id as int],
    {
        self.workers[id]
    }

    /// How many workers have not left their loop.
    pub fn live_workers(&self) -> (r: usize)
        requires
            self.wf(),
        ensures
            r == self.live(),
    {
        self.live
    }
}

pub proof fn lemma_count_in_none(ws: Seq<WorkerState>, st: WorkerState)
    requires
        forall|i: int| 0 <= i < ws.len() ==> ws[i] != st,
    ensures
        count_in(ws, st) == 0,
    decreases ws.len(),
{
    if ws.len() > 0 {
        lemma_count_in_none(ws.drop_last(), st);
    }
}

pub proof fn lemma_count_in_two(ws: Seq<WorkerState>, a: WorkerState, b: WorkerState)
    requires
        a != b,
    ensures
        count_in(ws, a) + count_in(ws, b) <= ws.len(),
    decreases ws.len(),
{
    if ws.len() > 0 {
        lemma_count_in_two(ws.drop_last(), a, b);
    }
}

/// Jobs leave the queue in the order in which they were accepted, each one
/// once: what the workers took is always a prefix of what was submitted, so
/// no job runs twice and none is passed over, however submissions and
/// receives interleave.
pub proof fn lemma_jobs_taken_once_in_order<J>(p: ThreadPool<J>)
    requires
        p.wf(),
    ensures
        p.started().len() <= p.submitted().len(),
        p.started() == p.submitted().subrange(0, p.started().len() as int),
        p.running() + p.done() == p.started().len(),
{
    assert(p.started() =~= p.submitted().subrange(0, p.started().len() as int));
}

/// Once every worker has left its loop after shutdown, every job accepted
/// before shutdown was taken exactly once and finished, and only jobs
/// accepted after shutdown are left in the queue.
pub proof fn lemma_drained<J>(p: ThreadPool<J>)
    requires
        p.wf(),
        p.phase_view() != Phase::Active,
        p.live() == 0,
    ensures
        p.started() == p.submitted().subrange(0, p.cutoff() as int),
        p.running() == 0,
        p.done() == p.cutoff(),
        p.queue_view() == jobs(p.submitted().subrange(p.cutoff() as int, p.submitted().len() as int)),
{
    let ws = p.workers_view();
    lemma_count_in_two(ws, WorkerState::Running, WorkerState::Terminated);
    assert(p.started() =~= p.submitted().subrange(0, p.cutoff() as int));
    assert(p.queue_view() =~= jobs(p.submitted().subrange(p.cutoff() as int, p.submitted().len() as int)));
}

/// During shutdown a waiting worker never blocks: one terminate signal per
/// live worker stays queued, so the queue is not empty.
pub proof fn lemma_drain_never_blocks<J>(p: ThreadPool<J>, id: int)
    requires
        p.wf(),
        p.phase_view() != Phase::Active,
        0 <= id < p.workers_view().len(),
        p.workers_view()[id] == WorkerState::Waiting,
    ensures
        p.queue_view().len() > 0,
        p.drain_measure() > 0,
{
    let ws = p.workers_view();
    lemma_count_in_update(ws, id, WorkerState::Terminated, WorkerState::Terminated);
    lemma_count_in_bound(ws.update(id, WorkerState::Terminated), WorkerState::Terminated);
    assert(p.live() > 0);
    assert(p.queue_view().len() >= p.live());
}

} // verus!
