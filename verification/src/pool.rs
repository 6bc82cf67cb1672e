//! The choice of a worker for each task: the workers take turns, so that
//! none is idle while another has two tasks waiting that arrived after
//! its last one.

use vstd::prelude::*;

verus! {

/// The mathematical content of a `WorkerPool`.
pub struct WorkerPoolView {
    /// The number of workers.
    pub workers: nat,
    /// The worker whose turn it is.
    pub next: nat,
}

/// A fixed set of workers and the turn among them.
#[derive(Clone, Copy, Debug, PartialEq, Eq)]
pub struct WorkerPool {
    workers: usize,
    next: usize,
}

impl View for WorkerPool {
    type V = WorkerPoolView;

    closed spec fn view(&self) -> WorkerPoolView {
        WorkerPoolView { workers: self.workers as nat, next: self.next as nat }
    }
}

/// The worker that gets the task number `k` (from zero) of a pool of
/// `workers` workers that starts with worker zero.
pub open spec fn turn(workers: nat, k: nat) -> nat
    recommends
        workers > 0,
{
    k % workers
}

impl WorkerPool {
    /// Whether the pool is in order: it has a worker, and the turn is on
    /// one of them.
    pub open spec fn wf(&self) -> bool {
        self@.workers > 0 && self@.next < self@.workers
    }

    /// A pool of `workers` workers, or `None` where that is none at all.
    pub fn new(workers: usize) -> (pool: Option<WorkerPool>)
        ensures
            workers == 0 ==> pool.is_none(),
            workers > 0 ==> pool.is_some() && pool.unwrap().wf() && pool.unwrap()@ == (
            WorkerPoolView { workers: workers as nat, next: 0 }),
    {
        if workers == 0 {
            None
        } else {
            Some(WorkerPool { workers, next: 0 })
        }
    }

    /// The number of workers.
    pub fn workers(&self) -> (n: usize)
        ensures
            n == self@.workers,
    {
        self.workers
    }

    /// The worker that takes the next task. The turn passes to the worker
    /// after it, and from the last worker back to the first.
    pub fn pick(&mut self) -> (worker: usize)
        requires
            old(self).wf(),
        ensures
            worker == old(self)@.next,
            final(self)@ == (WorkerPoolView {
                workers: old(self)@.workers,
                next: (old(self)@.next + 1) % old(self)@.workers,
            }),
            final(self).wf(),
    {
        let worker = self.next;
        if self.next + 1 == self.workers {
            self.next = 0;
        } else {
            self.next = self.next + 1;
        }
        assert((worker + 1) % (self.workers as int) == self.next as int) by {
            if worker + 1 == self.workers {
                assert((self.workers as int) % (self.workers as int) == 0) by (nonlinear_arith)
                    requires
                        self.workers > 0,
                ;
            } else {
                assert((worker + 1) % (self.workers as int) == worker + 1) by (nonlinear_arith)
                    requires
                        0 <= worker + 1 < self.workers,
                ;
            }
        }
        worker
    }
}

/// The workers take turns: the task number `k` goes to worker
/// `k mod workers`, so of any `workers` tasks in a row each worker gets
/// exactly one, and no task is left without a worker.
pub proof fn law_round_robin(workers: nat, k: nat)
    requires
        workers > 0,
    ensures
        turn(workers, k) < workers,
        turn(workers, k + workers) == turn(workers, k),
        (turn(workers, k) + 1) % workers == turn(workers, k + 1),
        forall|j: nat| k <= j < k + workers && j != k ==> turn(workers, j) != turn(workers, k),
{
    let w = workers as int;
    assert((k as int) % w < w) by (nonlinear_arith)
        requires
            w > 0,
    ;
    assert(((k + workers) as int) % w == (k as int) % w) by {
        vstd::arithmetic::div_mod::lemma_mod_add_multiples_vanish(k as int, w);
    }
    assert((((k as int) % w) + 1) % w == ((k + 1) as int) % w) by {
        vstd::arithmetic::div_mod::lemma_add_mod_noop(k as int, 1, w);
        vstd::arithmetic::div_mod::lemma_mod_twice(k as int, w);
        if w == 1 {
            assert(((k as int) % w + 1) % w == 0) by (nonlinear_arith)
                requires
                    w == 1,
            ;
            assert(((k + 1) as int) % w == 0) by (nonlinear_arith)
                requires
                    w == 1,
            ;
        } else {
            assert(1int % w == 1) by (nonlinear_arith)
                requires
                    w > 1,
            ;
        }
    }
    assert forall|j: nat| k <= j < k + workers && j != k implies turn(workers, j) != turn(
        workers,
        k,
    ) by {
        if (j as int) % w == (k as int) % w {
            vstd::arithmetic::div_mod::lemma_fundamental_div_mod(j as int, w);
            vstd::arithmetic::div_mod::lemma_fundamental_div_mod(k as int, w);
            let dj = (j as int) / w;
            let dk = (k as int) / w;
            assert(j - k == w * (dj - dk)) by (nonlinear_arith)
                requires
                    j == w * dj + (j as int) % w,
                    k == w * dk + (k as int) % w,
                    (j as int) % w == (k as int) % w,
            ;
            assert(false) by (nonlinear_arith)
                requires
                    0 < j - k < w,
                    j - k == w * (dj - dk),
            ;
        }
    }
}

} // verus!
