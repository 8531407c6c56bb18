//! The failures of a leaf-range query and their form on the wire.

use vstd::prelude::*;

verus! {

/// Why the state engine could not serve one fetch.
#[derive(Clone, Copy, Debug, PartialEq, Eq, Hash)]
pub enum EngineError {
    /// The snapshot that was asked for does not exist in the engine.
    SnapshotNotFound,
    /// The engine knows no tree under the identifier.
    TreeNotFound,
    /// Any other failure of the engine.
    EngineUnavailable,
}

/// Why a query produced no leaf sequence.
#[derive(Clone, Copy, Debug, PartialEq, Eq, Hash)]
pub enum QueryError {
    /// The range spans `MAX_SPAN` indices or more.
    RangeTooLarge,
    /// The range ends before it starts.
    InvalidRange,
    /// The engine failed on a fetch; its error is passed on as it came.
    Engine(EngineError),
}

/// The error object of `jsonrpc_core`, carried through as it is.
#[verifier::external_type_specification]
#[verifier::external_body]
pub struct ExRpcError(jsonrpc_core::Error);

/// The error object that `jsonrpc_core` holds for a server error with the
/// given code, message and data string.
pub uninterp spec fn server_error_object(code: i64, message: Seq<char>, data: Seq<char>) -> jsonrpc_core::Error;

/// Builds a `jsonrpc_core::Error` by its public fields: the code is
/// `ErrorCode::ServerError(code)`, the message is `message` as a `String`, and
/// the data is `Some` of `data` as a JSON string (`serde_json::Value::from`).
/// Nothing is proved of it; the contract only gives the object a name that
/// depends on the three arguments.
#[verifier::external_body]
fn server_error(code: i64, message: &str, data: &str) -> (e: jsonrpc_core::Error)
    ensures
        e == server_error_object(code, message@, data@),
{
    jsonrpc_core::Error {
        code: jsonrpc_core::ErrorCode::ServerError(code),
        message: message.into(),
        data: Some(data.into()),
    }
}

impl QueryError {
    /// The machine-readable code of the error.
    pub open spec fn code_spec(self) -> i64 {
        match self {
            QueryError::RangeTooLarge => 1512,
            QueryError::InvalidRange => 1513,
            QueryError::Engine(EngineError::SnapshotNotFound) => 1514,
            QueryError::Engine(EngineError::TreeNotFound) => 1515,
            QueryError::Engine(EngineError::EngineUnavailable) => 1516,
        }
    }

    /// The human-readable message of the error.
    pub open spec fn message_spec(self) -> Seq<char> {
        match self {
            QueryError::RangeTooLarge => "TooManyLeaves"@,
            QueryError::InvalidRange => "InvalidRange"@,
            QueryError::Engine(EngineError::SnapshotNotFound) => "SnapshotNotFound"@,
            QueryError::Engine(EngineError::TreeNotFound) => "TreeNotFound"@,
            QueryError::Engine(EngineError::EngineUnavailable) => "EngineUnavailable"@,
        }
    }

    /// The diagnostic detail of the error: the limit that a range broke, or
    /// where the failure arose.
    pub open spec fn data_spec(self) -> Seq<char> {
        match self {
            QueryError::RangeTooLarge => "MaxRange512"@,
            QueryError::InvalidRange => "FromAfterTo"@,
            QueryError::Engine(_) => "StateEngine"@,
        }
    }

    /// The machine-readable code: 1512 for a range that is too large, and a
    /// code of its own for each other failure.
    pub fn code(&self) -> (c: i64)
        ensures
            c == self.code_spec(),
    {
        match self {
            QueryError::RangeTooLarge => 1512,
            QueryError::InvalidRange => 1513,
            QueryError::Engine(EngineError::SnapshotNotFound) => 1514,
            QueryError::Engine(EngineError::TreeNotFound) => 1515,
            QueryError::Engine(EngineError::EngineUnavailable) => 1516,
        }
    }

    /// The human-readable message.
    pub fn message(&self) -> (m: &'static str)
        ensures
            m@ == self.message_spec(),
    {
        match self {
            QueryError::RangeTooLarge => "TooManyLeaves",
            QueryError::InvalidRange => "InvalidRange",
            QueryError::Engine(EngineError::SnapshotNotFound) => "SnapshotNotFound",
            QueryError::Engine(EngineError::TreeNotFound) => "TreeNotFound",
            QueryError::Engine(EngineError::EngineUnavailable) => "EngineUnavailable",
        }
    }

    /// The diagnostic detail.
    pub fn data(&self) -> (d: &'static str)
        ensures
            d@ == self.data_spec(),
    {
        match self {
            QueryError::RangeTooLarge => "MaxRange512",
            QueryError::InvalidRange => "FromAfterTo",
            QueryError::Engine(_) => "StateEngine",
        }
    }

    /// The error as the JSON-RPC transport carries it: a server error made of
    /// this error's code, message and detail.
    pub fn to_rpc_error(&self) -> (e: jsonrpc_core::Error)
        ensures
            e == server_error_object(self.code_spec(), self.message_spec(), self.data_spec()),
    {
        server_error(self.code(), self.message(), self.data())
    }
}

} // verus!
