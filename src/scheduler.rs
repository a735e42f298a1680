use vstd::prelude::*;
use crate::error::{Error, FailedTest, TestResult};
use crate::test_spec::TestSpec;

verus! {

broadcast use vstd::std_specs::vec::group_vec_axioms;

/// Dispatch of one class of tests with bounded parallelism: tests start in order while fewer
/// than `parallel` run; after the first failure no further test starts.
#[derive(Debug)]
pub struct Batch {
    pub total: usize,
    pub next: usize,
    pub running: usize,
    pub parallel: usize,
    pub stopped: bool,
}

/// What the runner of a batch is to do next.
#[derive(Clone, Copy, Debug, PartialEq, Eq, Structural)]
pub enum BatchAction {
    /// Start the test with this index.
    Start(usize),
    /// Wait until one running test finishes.
    AwaitOne,
    /// Nothing runs and nothing is left to start.
    Finished,
}

impl Batch {
    /// Never more tests run than `parallel`; a stopped batch starts nothing more.
    pub open spec fn wf(&self) -> bool {
        &&& self.next <= self.total
        &&& self.running <= self.parallel
        &&& self.running <= self.next
        &&& (self.stopped ==> self.next == self.total)
    }

    pub fn new(total: usize, parallel: usize) -> (r: Batch)
        ensures
            r.wf(),
            r.total == total,
            r.parallel == parallel,
            r.next == 0,
            r.running == 0,
            !r.stopped,
    {
        Batch { total, next: 0, running: 0, parallel, stopped: false }
    }

    /// Starts the next test while a slot is free, else waits for a running one, else is done.
    pub fn next_action(&mut self) -> (r: BatchAction)
        requires
            old(self).wf(),
        ensures
            final(self).wf(),
            final(self).total == old(self).total,
            final(self).parallel == old(self).parallel,
            final(self).stopped == old(self).stopped,
            old(self).next < old(self).total && old(self).running < old(self).parallel ==> {
                &&& r == BatchAction::Start(old(self).next)
                &&& final(self).next == old(self).next + 1
                &&& final(self).running == old(self).running + 1
            },
            !(old(self).next < old(self).total && old(self).running < old(self).parallel) ==> {
                &&& final(self).next == old(self).next
                &&& final(self).running == old(self).running
                &&& r == (if old(self).running > 0 {
                    BatchAction::AwaitOne
                } else {
                    BatchAction::Finished
                })
            },
    {
        if self.next < self.total && self.running < self.parallel {
            let i = self.next;
            self.next = self.next + 1;
            self.running = self.running + 1;
            BatchAction::Start(i)
        } else if self.running > 0 {
            BatchAction::AwaitOne
        } else {
            BatchAction::Finished
        }
    }

    /// A running test finished. After the first failure the tests not yet started are
    /// skipped; their indices come back.
    pub fn finished(&mut self, passed: bool) -> (skipped: Vec<usize>)
        requires
            old(self).wf(),
            old(self).running > 0,
        ensures
            final(self).wf(),
            final(self).total == old(self).total,
            final(self).parallel == old(self).parallel,
            final(self).running == old(self).running - 1,
            passed ==> final(self).next == old(self).next && final(self).stopped == old(self).stopped
                && skipped@.len() == 0,
            !passed ==> final(self).stopped && final(self).next == old(self).total,
            !passed ==> skipped@.len() == old(self).total - old(self).next && forall|i: int|
                0 <= i < skipped@.len() ==> #[trigger] skipped@[i] == old(self).next + i,
    {
        self.running = self.running - 1;
        let mut skipped: Vec<usize> = Vec::new();
        if !passed {
            let start = self.next;
            while self.next < self.total
                invariant
                    start <= self.next <= self.total,
                    start == old(self).next,
                    old(self).wf(),
                    self.total == old(self).total,
                    self.parallel == old(self).parallel,
                    self.running + 1 == old(self).running,
                    skipped@.len() == self.next - start,
                    forall|i: int| 0 <= i < skipped@.len() ==> #[trigger] skipped@[i] == start + i,
                decreases self.total - self.next,
            {
                skipped.push(self.next);
                self.next = self.next + 1;
            }
            self.stopped = true;
        }
        skipped
    }
}

/// Whether a test runs once more after its `attempt`-th run (counting from one): it failed,
/// not by an interruption, and fewer runs were made than it may have. Its own `attempts`
/// counts where it gives one, else the default of its type.
pub fn runs_again(result: &TestResult, attempt: u16, own: Option<u16>, type_default: u16) -> (r: bool)
    ensures
        r == ((result matches Err(f) && !(f.failure is SIGINT)) && attempt < match own {
            Some(a) => a,
            None => type_default,
        }),
{
    let limit = match own {
        Some(a) => a,
        None => type_default,
    };
    match result {
        Ok(_) => false,
        Err(f) => match f.failure {
            Error::SIGINT => false,
            _ => attempt < limit,
        },
    }
}

/// The outcome of a test that was not started because an earlier one failed.
pub fn not_executed(test_name: String) -> (r: TestResult)
    ensures
        r matches Err(f) && f.test_name@ == test_name@ && f.step_name@.len() == 0
            && f.failure is NotExecuted,
{
    Err(FailedTest { test_name, step_name: String::new(), failure: Error::NotExecuted })
}

/// Whether every result is a pass.
pub fn all_passed(results: &Vec<TestResult>) -> (r: bool)
    ensures
        r == forall|i: int| 0 <= i < results@.len() ==> (#[trigger] results@[i]) is Ok,
{
    let mut i: usize = 0;
    while i < results.len()
        invariant
            i <= results@.len(),
            forall|j: int| 0 <= j < i ==> (#[trigger] results@[j]) is Ok,
        decreases results@.len() - i,
    {
        if results[i].is_err() {
            return false;
        }
        i = i + 1;
    }
    true
}

/// After the cluster tests: `None` where they all passed and the user tests are to run,
/// else every user test reported as not executed, in order.
pub fn user_phase(cluster_results: &Vec<TestResult>, user_tests: &Vec<TestSpec>) -> (r: Option<
    Vec<TestResult>,
>)
    ensures
        r is None <==> forall|i: int|
            0 <= i < cluster_results@.len() ==> (#[trigger] cluster_results@[i]) is Ok,
        r matches Some(skipped) ==> skipped@.len() == user_tests@.len() && forall|i: int|
            0 <= i < skipped@.len() ==> ((#[trigger] skipped@[i]) matches Err(f)
                && f.test_name@ == user_tests@[i].name@ && f.step_name@.len() == 0
                && f.failure is NotExecuted),
{
    if all_passed(cluster_results) {
        None
    } else {
        let mut skipped: Vec<TestResult> = Vec::new();
        let mut i: usize = 0;
        while i < user_tests.len()
            invariant
                i <= user_tests@.len(),
                skipped@.len() == i,
                forall|j: int|
                    0 <= j < i ==> ((#[trigger] skipped@[j]) matches Err(f) && f.test_name@
                        == user_tests@[j].name@ && f.step_name@.len() == 0 && f.failure is NotExecuted),
            decreases user_tests@.len() - i,
        {
            skipped.push(not_executed(user_tests[i].name.clone()));
            i = i + 1;
        }
        Some(skipped)
    }
}

/// The verdict on a whole run: no tests at all, some failed, or success.
pub fn suite_outcome(results: &Vec<TestResult>) -> (r: Result<(), Error>)
    ensures
        results@.len() == 0 ==> (r matches Err(e) && e is NoTestsFoundError),
        results@.len() > 0 && (exists|i: int| 0 <= i < results@.len() && (#[trigger] results@[i]) is Err)
            ==> (r matches Err(e) && e is SomeTestsFailedError),
        results@.len() > 0 && (forall|i: int| 0 <= i < results@.len() ==> (#[trigger] results@[i]) is Ok)
            ==> r is Ok,
{
    if results.len() == 0 {
        Err(Error::NoTestsFoundError)
    } else if all_passed(results) {
        Ok(())
    } else {
        Err(Error::SomeTestsFailedError)
    }
}

} // verus!
