//! The answers a node can send, as one type.

use vstd::prelude::*;
use crate::base::error::PyralogError;
use crate::base::log::LogId;
use crate::protocol::api::{ConsumeResponse, ProduceResponse};

verus! {

/// An answer on the wire.
#[derive(Debug)]
pub enum Response {
    Produce(ProduceResponse),
    Consume(ConsumeResponse),
    CreateLog(Result<(), PyralogError>),
    DeleteLog(Result<(), PyralogError>),
    ListLogs(Result<Vec<LogId>, PyralogError>),
    Error(String),
}

impl Response {
    /// The number that stands for the kind of answer on the wire.
    pub fn tag(&self) -> (r: u32)
        ensures
            r == match self {
                Response::Produce(_) => 0u32,
                Response::Consume(_) => 1u32,
                Response::CreateLog(_) => 2u32,
                Response::DeleteLog(_) => 3u32,
                Response::ListLogs(_) => 4u32,
                Response::Error(_) => 5u32,
            },
    {
        match self {
            Response::Produce(_) => 0,
            Response::Consume(_) => 1,
            Response::CreateLog(_) => 2,
            Response::DeleteLog(_) => 3,
            Response::ListLogs(_) => 4,
            Response::Error(_) => 5,
        }
    }

    /// Whether the answer reports a failure.
    pub fn is_error(&self) -> (r: bool)
        ensures
            r == match self {
                Response::Produce(p) => p.error is Some,
                Response::Consume(c) => c.error is Some,
                Response::CreateLog(x) => x is Err,
                Response::DeleteLog(x) => x is Err,
                Response::ListLogs(x) => x is Err,
                Response::Error(_) => true,
            },
    {
        match self {
            Response::Produce(p) => p.error.is_some(),
            Response::Consume(c) => c.error.is_some(),
            Response::CreateLog(x) => x.is_err(),
            Response::DeleteLog(x) => x.is_err(),
            Response::ListLogs(x) => x.is_err(),
            Response::Error(_) => true,
        }
    }
}

} // verus!
