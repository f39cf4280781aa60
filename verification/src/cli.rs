//! The two operations the command line selects: host a file, or download one
//! from a literal `host:port` address.

use vstd::prelude::*;

verus! {

/// The parsed command line.
#[derive(Debug)]
pub struct CLI {
    pub subcommand: Commands,
}

/// `send <file>` hosts a file; `receive <address>` downloads it.
#[derive(Debug)]
pub enum Commands {
    Send { file: String },
    Receive { address: String },
}

} // verus!
