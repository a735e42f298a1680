use vstd::prelude::*;
use crate::check::AssertDiagnostic;
use crate::test_spec::WaitSpec;

verus! {

/// What can go wrong in a test run. Failures of the cluster client, the file system and
/// the parsers reach the library as their messages.
#[derive(Debug)]
pub enum Error {
    FileError(String),
    StringError,
    PathError(String),
    DiscoveryError(String),
    WatcherError(String),
    CommandlineParseError(String),
    EnvSubstError(String),
    KubeError(String),
    ParseGroupVersionError(String),
    SerializationYamlError(String),
    SerializationJsonError(String),
    MultipleErrors(Vec<Error>),
    NamespaceExists,
    ConditionsFailed(TestFailures),
    PathEncodingError,
    JoinError(String),
    SIGINT,
    NotExecuted,
    NoTestsFoundError,
    NoUidError,
    ScriptFailed(String, String),
    SomeTestsFailedError,
    Other(String),
}

/// A wait condition that did not come to hold, with why.
#[derive(Debug)]
pub struct TestFailure {
    pub assert_diagnostic: AssertDiagnostic,
    pub spec: WaitSpec,
}

/// The wait conditions of a step that did not come to hold.
#[derive(Debug)]
pub struct TestFailures(pub Vec<TestFailure>);

/// A test that failed, and in which step (empty where no step was running).
#[derive(Debug)]
pub struct FailedTest {
    pub test_name: String,
    pub step_name: String,
    pub failure: Error,
}

/// The outcome of one test: its name, or how it failed.
pub type TestResult = Result<String, FailedTest>;

} // verus!
