use vstd::prelude::*;

verus! {

/// The ways a comparison can fail. Each of them ends the whole comparison.
#[derive(Debug, Clone, Copy, PartialEq, Eq, Structural)]
pub enum ReferendumError {
    /// The harness process of a toolkit ended unsuccessfully.
    TestRunFailure(),
    /// A transcript names a test and tells no result of it, or cannot be read
    /// for another reason.
    TestResultExtractionFailure(),
    /// There is no record at all to vote on.
    TestNotFound(),
}

impl ReferendumError {
    /// What the message of the error says.
    pub open spec fn text(self) -> Seq<char> {
        match self {
            ReferendumError::TestRunFailure() => "Test run failed to execute"@,
            ReferendumError::TestResultExtractionFailure() => "Test run extraction failure"@,
            ReferendumError::TestNotFound() => "Tests not found failure"@,
        }
    }

    /// The message of the error, for the user to read.
    pub fn message(&self) -> (message: &'static str)
        ensures
            message@ == self.text(),
    {
        match self {
            ReferendumError::TestRunFailure() => "Test run failed to execute",
            ReferendumError::TestResultExtractionFailure() => "Test run extraction failure",
            ReferendumError::TestNotFound() => "Tests not found failure",
        }
    }
}

} // verus!
