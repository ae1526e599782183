//! Chunked file storage core: a dedup-aware data model (content records,
//! ownership records and the file views joining them), the storage provider
//! operations keyed by a derived storage key, the filesystem path mapping and
//! chunk enumeration logic, and the ordered assembly of chunk streams.

pub mod app_file;
pub mod digits;
pub mod error;
pub mod fs;
pub mod memory;
pub mod order;
pub mod sessions;
pub mod streamer;

use vstd::prelude::*;

verus! {

/// The sentinel content type that marks a directory placeholder.
pub open spec fn dir_mime() -> Seq<char> {
    "dir"@
}

} // verus!
