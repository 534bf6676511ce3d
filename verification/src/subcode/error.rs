//! What can be wrong with a buffer of subchannel bytes.

use vstd::prelude::*;

verus! {

/// The ways in which a buffer fails to be subchannel data. Each carries the
/// number that was found in place of the one that was expected.
#[derive(Debug, Clone, Copy, PartialEq, Eq, Structural)]
pub enum InvalidDataError {
    /// The buffer's length is not a multiple of `SECTOR_LEN`.
    InvalidSubcodeDataLength { length: usize },
    /// A position within a sector that names no channel.
    InvalidSubcodeIndex { index: usize },
    /// A sector's worth of bytes is not exactly `SECTOR_LEN` long.
    InvalidSectorLength { length: usize },
}

} // verus!
