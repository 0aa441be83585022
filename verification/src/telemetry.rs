//! Memory telemetry arithmetic.
use vstd::prelude::*;

verus! {

/// Bytes in a megabyte (2^20).
pub const BYTES_PER_MEGABYTE: u64 = 1_048_576;

/// A byte count in whole megabytes, rounded down.
pub fn to_megabytes(bytes: u64) -> (mb: u64)
    ensures
        mb == bytes / BYTES_PER_MEGABYTE,
        mb * BYTES_PER_MEGABYTE <= bytes < (mb + 1) * BYTES_PER_MEGABYTE,
{
    bytes / BYTES_PER_MEGABYTE
}

} // verus!
