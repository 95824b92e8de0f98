//! The decisions of the block-index queries of the consensus database. The
//! reads themselves belong to the storage engine: the caller reads the index
//! at the height these functions name and reports whether one was there.
use vstd::prelude::*;

verus! {

/// The first height that a query for the indexes up to `height` reads: the
/// height below the one asked for (zero stays zero), or where none is asked
/// for, the latest stored height, or zero in an empty store.
pub open spec fn query_begin_spec(height: Option<u64>, latest: Option<u64>) -> u64 {
    match height {
        Some(h) => if h > 0 {
            (h - 1) as u64
        } else {
            0
        },
        None => match latest {
            Some(k) => k,
            None => 0,
        },
    }
}

pub fn query_begin(height: Option<u64>, latest: Option<u64>) -> (r: u64)
    ensures
        r == query_begin_spec(height, latest),
{
    match height {
        Some(h) => if h > 0 {
            h - 1
        } else {
            0
        },
        None => match latest {
            Some(k) => k,
            None => 0,
        },
    }
}

/// After the read at `height`, with `collected` indexes gathered of the
/// `size` asked for: the next height to read, one lower, while an index was
/// found, more are wanted, and height zero is not yet read.
pub fn query_next(height: u64, found: bool, collected: usize, size: usize) -> (r: Option<u64>)
    ensures
        r is Some <==> found && collected < size && height > 0,
        r matches Some(next) ==> next == height - 1,
{
    if found && collected < size && height > 0 {
        Some(height - 1)
    } else {
        None
    }
}

/// After the read at `height` for a forward query, with `collected` blocks
/// gathered of the `size` asked for: the next height to read, one higher,
/// while a block was found, more are wanted, and the height can grow.
pub fn query_forward_next(height: u64, found: bool, collected: usize, size: usize) -> (r: Option<
    u64,
>)
    ensures
        r is Some <==> found && collected < size && height < u64::MAX,
        r matches Some(next) ==> next == height + 1,
{
    if found && collected < size && height < u64::MAX {
        Some(height + 1)
    } else {
        None
    }
}

} // verus!
