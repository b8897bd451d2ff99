//! Time-tagged identifiers: the verified kernel and its machine protocol.

pub mod binary64;
pub mod cli;
pub mod client;
pub mod machine;
pub mod properties;
pub mod text;
pub mod ttid;
