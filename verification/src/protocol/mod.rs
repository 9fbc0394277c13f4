//! What clients say to a node and what the node answers.

pub mod api;
pub mod kafka;
pub mod partitioner;
pub mod request;
pub mod response;
