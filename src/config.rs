use vstd::prelude::*;

verus! {

/// Concurrency and retries for one type of test.
#[derive(Clone, Copy, Debug, PartialEq, Eq, Structural)]
pub struct TestTypeConfig {
    pub parallel: u16,
    pub attempts: u16,
}

impl TestTypeConfig {
    /// Cluster tests run one at a time, once.
    pub fn cluster_default() -> (r: TestTypeConfig)
        ensures
            r.parallel == 1 && r.attempts == 1,
    {
        TestTypeConfig { parallel: 1, attempts: 1 }
    }

    /// User tests run four at a time, with two attempts.
    pub fn user_default() -> (r: TestTypeConfig)
        ensures
            r.parallel == 4 && r.attempts == 2,
    {
        TestTypeConfig { parallel: 4, attempts: 2 }
    }

    /// This configuration with `parallel` replaced where one is given.
    pub fn with_parallel(self, parallel: Option<u16>) -> (r: TestTypeConfig)
        ensures
            r.parallel == (match parallel {
                Some(p) => p,
                None => self.parallel,
            }),
            r.attempts == self.attempts,
    {
        match parallel {
            Some(p) => TestTypeConfig { parallel: p, attempts: self.attempts },
            None => self,
        }
    }

    /// This configuration with `attempts` replaced where one is given.
    pub fn with_attempts(self, attempts: Option<u16>) -> (r: TestTypeConfig)
        ensures
            r.attempts == (match attempts {
                Some(a) => a,
                None => self.attempts,
            }),
            r.parallel == self.parallel,
    {
        match attempts {
            Some(a) => TestTypeConfig { parallel: self.parallel, attempts: a },
            None => self,
        }
    }
}

} // verus!
