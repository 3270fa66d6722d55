//! Errors of the producer, and the engine's response codes they are made from.

use vstd::prelude::*;

verus! {

/// The response code with which the engine reports that nothing went wrong.
pub const RESP_ERR_NO_ERROR: i32 = 0;

/// Whether a response code of the engine stands for a failure.
pub open spec fn spec_is_error(code: i32) -> bool {
    code != RESP_ERR_NO_ERROR
}

/// Tells whether a response code of the engine stands for a failure: every
/// code but `RESP_ERR_NO_ERROR` does.
#[verifier::when_used_as_spec(spec_is_error)]
pub fn is_error(code: i32) -> (failed: bool)
    ensures
        failed == spec_is_error(code),
{
    code != RESP_ERR_NO_ERROR
}

/// What can go wrong when a message is produced.
#[derive(Debug, Clone, Copy, PartialEq, Eq, Structural)]
pub enum KafkaError {
    /// The topic name cannot be written as a nul-terminated byte string: the
    /// byte at this position of its UTF-8 form is zero.
    Nul(usize),
    /// The engine refused or lost the message; holds the engine's response code.
    MessageProduction(i32),
}

/// The result of an operation of the producer.
pub type KafkaResult<T> = Result<T, KafkaError>;

impl KafkaError {
    /// The engine's response code that the error carries, if it came from the
    /// engine.
    pub open spec fn spec_code(&self) -> Option<i32> {
        match *self {
            KafkaError::Nul(_) => None,
            KafkaError::MessageProduction(code) => Some(code),
        }
    }

    /// The engine's response code that the error carries, if it came from the
    /// engine.
    #[verifier::when_used_as_spec(spec_code)]
    pub fn code(&self) -> (code: Option<i32>)
        ensures
            code == self.spec_code(),
    {
        match *self {
            KafkaError::Nul(_) => None,
            KafkaError::MessageProduction(code) => Some(code),
        }
    }
}

} // verus!
