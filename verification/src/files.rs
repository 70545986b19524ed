//! The size up to which a file is read into the editor.

use vstd::prelude::*;

verus! {

/// The largest file that is read, in bytes: 50 MiB.
pub const MAX_FILE_SIZE: u64 = 52_428_800;

/// Whether a file of `size` bytes is small enough to be read.
pub fn within_read_cap(size: u64) -> (allowed: bool)
    ensures
        allowed == (size <= MAX_FILE_SIZE),
{
    size <= MAX_FILE_SIZE
}

} // verus!
