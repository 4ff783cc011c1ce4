//! Participant selection and fair team partitioning for voice-channel
//! commands: the verified engine behind `winner` and `teamup`.

pub mod model;
pub mod random;
pub mod partition;
pub mod filter;
pub mod channels;
pub mod commands;
pub mod executor;
