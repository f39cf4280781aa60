//! A verified core for a single-file transfer tool: a length-prefixed,
//! tagged-message wire codec, chunked-transfer arithmetic, and the
//! sender/receiver session logic, each with a proved contract.

pub mod chunks;
pub mod cli;
pub mod file_metadata;
pub mod protocol;
pub mod receiver;
pub mod sender;
pub mod utils;
