//! Fundamental value types shared by every subsystem.

pub mod buffer;
pub mod clock;
pub mod epoch;
pub mod epoch_store;
pub mod error;
pub mod log;
pub mod offset;
pub mod partition;
pub mod random;
pub mod record;
pub mod sequencer;
pub mod traits;
pub mod wire;
