//! The size scanner's decision logic.
//!
//! The filesystem walk itself happens outside the library; it reports whether
//! the path exists, whether it is a directory, and the byte length of every
//! regular file it could read under it. This module turns those observations
//! into the scan result: an error for a missing or non-directory path, and
//! otherwise the byte total over the observed files.

use vstd::prelude::*;

verus! {

/// Why a scan refused a path outright.
#[derive(Clone, Copy, Debug, PartialEq, Eq, Structural)]
pub enum ScanError {
    /// The path does not exist.
    NotFound,
    /// The path exists but is not a directory.
    NotADirectory,
}

/// Sum of a sequence of byte sizes, as an unbounded integer.
pub open spec fn sum_sizes_spec(s: Seq<u64>) -> int
    decreases s.len(),
{
    if s.len() == 0 {
        0
    } else {
        sum_sizes_spec(s.drop_last()) + s.last()
    }
}

/// A sum clamped to the largest representable byte count.
pub open spec fn saturate_u64(x: int) -> u64 {
    if x > u64::MAX {
        u64::MAX
    } else if x < 0 {
        0
    } else {
        x as u64
    }
}

/// What a scan returns, given the observations the walk reported.
pub open spec fn scan_spec(exists: bool, is_dir: bool, sizes: Seq<u64>) -> Result<u64, ScanError> {
    if !exists {
        Err(ScanError::NotFound)
    } else if !is_dir {
        Err(ScanError::NotADirectory)
    } else {
        Ok(saturate_u64(sum_sizes_spec(sizes)))
    }
}

proof fn lemma_sum_sizes_nonneg(s: Seq<u64>)
    ensures
        0 <= sum_sizes_spec(s),
    decreases s.len(),
{
    if s.len() > 0 {
        lemma_sum_sizes_nonneg(s.drop_last());
    }
}

/// Total of the observed file sizes, saturating at `u64::MAX`.
pub fn sum_sizes(sizes: &Vec<u64>) -> (r: u64)
    ensures
        r == saturate_u64(sum_sizes_spec(sizes@)),
{
    let mut total: u64 = 0;
    let mut i: usize = 0;
    proof {
        lemma_sum_sizes_nonneg(sizes@);
    }
    while i < sizes.len()
        invariant
            i <= sizes.len(),
            total == saturate_u64(sum_sizes_spec(sizes@.take(i as int))),
        decreases sizes.len() - i,
    {
        proof {
            assert(sizes@.take(i + 1).drop_last() =~= sizes@.take(i as int));
            lemma_sum_sizes_nonneg(sizes@.take(i as int));
        }
        total = total.saturating_add(sizes[i]);
        i += 1;
    }
    proof {
        assert(sizes@.take(sizes@.len() as int) =~= sizes@);
    }
    total
}

/// The scan result for a path, from the walk's observations: `NotFound` for a
/// missing path, `NotADirectory` for a non-directory, and otherwise the byte
/// total over the regular files the walk could read.
pub fn scan_total(exists: bool, is_dir: bool, sizes: &Vec<u64>) -> (r: Result<u64, ScanError>)
    ensures
        r == scan_spec(exists, is_dir, sizes@),
{
    if !exists {
        Err(ScanError::NotFound)
    } else if !is_dir {
        Err(ScanError::NotADirectory)
    } else {
        Ok(sum_sizes(sizes))
    }
}

/// Scanning is deterministic in what the walk observes: two scans of the same
/// unchanged tree — the same existence, kind, and file sizes — yield the same
/// result, byte for byte.
pub proof fn lemma_scan_idempotent(
    exists: bool,
    is_dir: bool,
    sizes: Seq<u64>,
    r1: Result<u64, ScanError>,
    r2: Result<u64, ScanError>,
)
    requires
        r1 == scan_spec(exists, is_dir, sizes),
        r2 == scan_spec(exists, is_dir, sizes),
    ensures
        r1 == r2,
{
}

} // verus!
