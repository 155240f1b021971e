//! Frecency constants. The decay itself is floating-point and lives with
//! the store in `app/`.

use vstd::prelude::*;

verus! {

/// Total score of a table above which every score is scaled down.
pub const AGE_THRESHOLD: u32 = 10_000;

/// Half-life of a score, in seconds (one week).
pub const HALF_LIFE_SECS: i64 = 604_800;

} // verus!
