//! The requests a client can send, as one type.

use vstd::prelude::*;
use crate::base::log::LogId;
use crate::protocol::api::{ConsumeRequest, CreateLogRequest, ProduceRequest};

verus! {

/// A request on the wire.
#[derive(Debug, Clone)]
pub enum Request {
    Produce(ProduceRequest),
    Consume(ConsumeRequest),
    CreateLog(CreateLogRequest),
    DeleteLog(LogId),
    ListLogs,
}

impl Request {
    /// The number that stands for the kind of request on the wire.
    pub fn tag(&self) -> (r: u32)
        ensures
            r == match self {
                Request::Produce(_) => 0u32,
                Request::Consume(_) => 1u32,
                Request::CreateLog(_) => 2u32,
                Request::DeleteLog(_) => 3u32,
                Request::ListLogs => 4u32,
            },
    {
        match self {
            Request::Produce(_) => 0,
            Request::Consume(_) => 1,
            Request::CreateLog(_) => 2,
            Request::DeleteLog(_) => 3,
            Request::ListLogs => 4,
        }
    }
}

} // verus!
