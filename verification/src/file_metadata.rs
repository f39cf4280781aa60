//! What the sender knows of the file it serves: where it lies on disk, the
//! name it announces, and its size in bytes. Read once at startup and shared
//! read-only by every session.

use vstd::prelude::*;

verus! {

/// The served file's path, announced name, and size.
#[derive(Debug, Clone)]
pub struct FileMetaData {
    pub file_path: String,
    pub name: String,
    pub size: u64,
}

} // verus!
