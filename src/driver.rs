//! The compile/patch iteration driver, as a state machine. Its caller
//! compiles, runs the error-processing step, and feeds each outcome in as an
//! event until the driver has finished.
use vstd::prelude::*;

verus! {

/// The final status of one repair attempt.
pub struct RepairResult {
    pub success: bool,
    pub repair_count: i32,
    pub has_non_elidible_lifetime: bool,
    pub has_struct_lt: bool,
}

/// A repair strategy, implemented by the users of this library.
pub trait RepairSystem {
    fn name(&self) -> &str;

    fn repair_project(&self, src_path: &str, manifest_path: &str, fn_name: &str) -> RepairResult;

    fn repair_file(&self, file_name: &str, new_file_name: &str) -> RepairResult;

    fn repair_function(&self, file_name: &str, new_file_name: &str, fn_name: &str) -> RepairResult;
}

/// The iteration budget when none is given.
pub const DEFAULT_MAX_ITERATIONS: i32 = 25;

/// What one iteration observed.
#[derive(Clone, Copy, PartialEq, Eq, Structural, Debug)]
pub enum CompileEvent {
    /// The compile command succeeded.
    Compiled,
    /// It failed, and the error processing made progress or did not.
    Failed { progress: bool },
}

/// The state of the iteration driver.
#[derive(Clone, Copy, PartialEq, Eq, Structural, Debug)]
pub struct RepairDriver {
    pub max_iterations: i32,
    /// Failed compilations so far.
    pub count: i32,
    pub finished: bool,
    pub success: bool,
}

pub open spec fn initial(max_iterations: i32) -> RepairDriver {
    RepairDriver { max_iterations, count: 0, finished: false, success: false }
}

/// One transition: success ends the run; a failure counts one iteration and
/// ends the run when no progress was made or the budget is spent. A finished
/// driver ignores further events.
pub open spec fn next(d: RepairDriver, e: CompileEvent) -> RepairDriver {
    if d.finished {
        d
    } else {
        match e {
            CompileEvent::Compiled => RepairDriver { finished: true, success: true, ..d },
            CompileEvent::Failed { progress } => RepairDriver {
                count: (d.count + 1) as i32,
                finished: !progress || d.count + 1 >= d.max_iterations,
                success: false,
                ..d
            },
        }
    }
}

/// The state after the events of `es`, in order.
pub open spec fn run(d: RepairDriver, es: Seq<CompileEvent>) -> RepairDriver
    decreases es.len(),
{
    if es.len() == 0 {
        d
    } else {
        next(run(d, es.drop_last()), es.last())
    }
}

impl RepairDriver {
    /// The reachable states: the count stays within the budget, except for a
    /// budget below one, which the first failure ends.
    pub open spec fn wf(&self) -> bool {
        0 <= self.count && (self.count <= self.max_iterations || self.count <= 1) && (!self.finished
            ==> (self.count < self.max_iterations || self.count == 0))
    }

    /// A driver that has not compiled yet; the budget defaults to 25.
    pub fn new(max_iterations: Option<i32>) -> (r: RepairDriver)
        ensures
            r == initial(
                match max_iterations {
                    Some(m) => m,
                    None => DEFAULT_MAX_ITERATIONS,
                },
            ),
            r.wf(),
    {
        let max_iterations = match max_iterations {
            Some(m) => m,
            None => DEFAULT_MAX_ITERATIONS,
        };
        RepairDriver { max_iterations, count: 0, finished: false, success: false }
    }

    /// Feeds one event in.
    pub fn step(&mut self, e: CompileEvent)
        requires
            old(self).wf(),
        ensures
            *final(self) == next(*old(self), e),
            final(self).wf(),
    {
        if self.finished {
            return;
        }
        match e {
            CompileEvent::Compiled => {
                self.finished = true;
                self.success = true;
            },
            CompileEvent::Failed { progress } => {
                self.count = self.count + 1;
                self.finished = !progress || self.count >= self.max_iterations;
                self.success = false;
            },
        }
    }

    pub fn is_finished(&self) -> (r: bool)
        ensures
            r == self.finished,
    {
        self.finished
    }

    /// The result reported to the caller.
    pub fn result(&self) -> (r: RepairResult)
        ensures
            r.success == self.success,
            r.repair_count == self.count,
            !r.has_non_elidible_lifetime,
            !r.has_struct_lt,
    {
        RepairResult {
            success: self.success,
            repair_count: self.count,
            has_non_elidible_lifetime: false,
            has_struct_lt: false,
        }
    }
}

proof fn lemma_next_wf(d: RepairDriver, e: CompileEvent)
    requires
        d.wf(),
    ensures
        next(d, e).wf(),
        d.finished ==> next(d, e) == d,
{
}

proof fn lemma_run_take(d: RepairDriver, es: Seq<CompileEvent>, k: int)
    requires
        0 <= k < es.len(),
    ensures
        run(d, es.take(k + 1)) == next(run(d, es.take(k)), es[k]),
{
    assert(es.take(k + 1).drop_last() =~= es.take(k));
}

/// Every state the driver passes through is well formed, and while it runs
/// its count equals the number of events fed in.
proof fn lemma_run_invariant(max_iterations: i32, es: Seq<CompileEvent>)
    ensures
        run(initial(max_iterations), es).wf(),
        run(initial(max_iterations), es).max_iterations == max_iterations,
        !run(initial(max_iterations), es).finished ==> run(initial(max_iterations), es).count
            == es.len(),
    decreases es.len(),
{
    if es.len() > 0 {
        lemma_run_invariant(max_iterations, es.drop_last());
        lemma_next_wf(run(initial(max_iterations), es.drop_last()), es.last());
    }
}

/// Termination: with a budget of at least one, whatever the compile and
/// error-processing outcomes are, the driver has finished after at most
/// `max_iterations` compilations, and its repair count never exceeds the
/// budget.
pub proof fn lemma_driver_terminates(max_iterations: i32, es: Seq<CompileEvent>)
    requires
        max_iterations >= 1,
        es.len() >= max_iterations,
    ensures
        run(initial(max_iterations), es.take(max_iterations as int)).finished,
        forall|k: int|
            0 <= k <= es.len() ==> #[trigger] run(initial(max_iterations), es.take(k)).count
                <= max_iterations,
{
    let d = run(initial(max_iterations), es.take(max_iterations as int));
    lemma_run_invariant(max_iterations, es.take(max_iterations as int));
    assert(d.wf());
    assert(es.take(max_iterations as int).len() == max_iterations);
    assert(d.finished);
    assert forall|k: int| 0 <= k <= es.len() implies #[trigger] run(
        initial(max_iterations),
        es.take(k),
    ).count <= max_iterations by {
        lemma_run_invariant(max_iterations, es.take(k));
        assert(run(initial(max_iterations), es.take(k)).wf());
    }
}

/// Progress contract: when the error processing reports no progress on an
/// iteration of a run that is still going, the driver stops right there,
/// unsuccessfully, having counted that iteration.
pub proof fn lemma_no_progress_stops(max_iterations: i32, es: Seq<CompileEvent>, k: int)
    requires
        0 <= k < es.len(),
        es[k] == (CompileEvent::Failed { progress: false }),
        !run(initial(max_iterations), es.take(k)).finished,
    ensures
        run(initial(max_iterations), es.take(k + 1)).finished,
        !run(initial(max_iterations), es.take(k + 1)).success,
        run(initial(max_iterations), es.take(k + 1)).count == k + 1,
{
    lemma_run_invariant(max_iterations, es.take(k));
    lemma_run_take(initial(max_iterations), es, k);
}

/// A finished driver stays finished with the same result, whatever follows.
pub proof fn lemma_finished_is_final(max_iterations: i32, es: Seq<CompileEvent>, k: int)
    requires
        0 <= k <= es.len(),
        run(initial(max_iterations), es.take(k)).finished,
    ensures
        run(initial(max_iterations), es) == run(initial(max_iterations), es.take(k)),
    decreases es.len() - k,
{
    if k < es.len() {
        lemma_run_take(initial(max_iterations), es, k);
        lemma_run_invariant(max_iterations, es.take(k));
        lemma_next_wf(run(initial(max_iterations), es.take(k)), es[k]);
        lemma_finished_is_final(max_iterations, es, k + 1);
    } else {
        assert(es.take(k) =~= es);
    }
}

} // verus!
