//! Batch conversion: the scalar codec applied across an ordered
//! sequence of inputs, with a size guard and deterministic,
//! lowest-index-first error reporting.
//!
//! Elements are converted in parallel; every per-element outcome is
//! collected into its original position before any error is chosen, so
//! the surfaced error never depends on worker scheduling.

use vstd::prelude::*;
use rayon::iter::IntoParallelRefIterator;
use rayon::iter::ParallelIterator;
use crate::DecodeError;
use crate::b62_of;
use crate::decode;
use crate::decode_spec;
use crate::encode;

verus! {

/// The largest batch either batch operation accepts.
pub const MAX_BATCH_SIZE: usize = 1000000;

/// Why a batch call failed.
#[derive(Clone, Copy, Debug, PartialEq, Eq, Structural)]
pub enum BatchError {
    /// The batch held `actual` elements, more than the `limit` allowed.
    BatchTooLarge { actual: usize, limit: usize },
    /// The element at 0-based position `index` failed to decode, and no
    /// element before it failed.
    Element { index: usize, error: DecodeError },
}

/// Relies on rayon's `par_iter`, `map` and `collect` on a `Vec`: the
/// parallel iterator over a `Vec` is indexed, and an indexed iterator
/// collects into a `Vec` of the same length in the original order, each
/// slot holding the closure's result for the input at that index. The
/// closure calls the verified `encode`.
#[verifier::external_body]
fn par_encode_all(nums: &Vec<u64>) -> (r: Vec<String>)
    ensures
        r@.len() == nums@.len(),
        forall|i: int| 0 <= i < nums@.len() ==> r@[i]@ == b62_of(nums@[i] as nat),
{
    nums.par_iter().map(|n| encode(*n)).collect()
}

/// Relies on rayon's `par_iter`, `map` and `collect` on a `Vec`, as
/// `par_encode_all` does. The closure calls the verified `decode`.
#[verifier::external_body]
fn par_decode_all(strs: &Vec<String>) -> (r: Vec<Result<u64, DecodeError>>)
    ensures
        r@.len() == strs@.len(),
        forall|i: int| 0 <= i < strs@.len() ==> r@[i] == decode_spec(strs@[i]@),
{
    strs.par_iter().map(|s| decode(s)).collect()
}

/// Encode every number of a batch, in parallel; the output holds, in
/// order, the encoding of each input. Fails only when the batch is
/// larger than `MAX_BATCH_SIZE`, before any conversion work.
pub fn encode_batch(nums: Vec<u64>) -> (r: Result<Vec<String>, BatchError>)
    ensures
        match r {
            Ok(out) => nums@.len() <= MAX_BATCH_SIZE && out@.len() == nums@.len()
                && forall|i: int| 0 <= i < nums@.len() ==> out@[i]@ == b62_of(nums@[i] as nat),
            Err(e) => nums@.len() > MAX_BATCH_SIZE && e == (BatchError::BatchTooLarge {
                actual: nums@.len() as usize,
                limit: MAX_BATCH_SIZE,
            }),
        },
{
    if nums.is_empty() {
        return Ok(Vec::new());
    }
    if nums.len() > MAX_BATCH_SIZE {
        return Err(BatchError::BatchTooLarge { actual: nums.len(), limit: MAX_BATCH_SIZE });
    }
    Ok(par_encode_all(&nums))
}

/// Decode every string of a batch, in parallel, all-or-nothing: either
/// every element decodes and the values come back in order, or the call
/// fails with the failure of the lowest-index bad element, whatever
/// order the workers finished in. A batch larger than `MAX_BATCH_SIZE`
/// is rejected before any conversion work.
pub fn decode_batch(strs: Vec<String>) -> (r: Result<Vec<u64>, BatchError>)
    ensures
        match r {
            Ok(out) => strs@.len() <= MAX_BATCH_SIZE && out@.len() == strs@.len()
                && forall|i: int|
                    0 <= i < strs@.len() ==> decode_spec(strs@[i]@) == Ok::<u64, DecodeError>(
                        out@[i],
                    ),
            Err(BatchError::BatchTooLarge { actual, limit }) => strs@.len() > MAX_BATCH_SIZE
                && actual == strs@.len() && limit == MAX_BATCH_SIZE,
            Err(BatchError::Element { index, error }) => strs@.len() <= MAX_BATCH_SIZE && index
                < strs@.len() && decode_spec(strs@[index as int]@) == Err::<u64, DecodeError>(error)
                && forall|k: int| 0 <= k < index ==> decode_spec(strs@[k]@) is Ok,
        },
{
    if strs.is_empty() {
        return Ok(Vec::new());
    }
    if strs.len() > MAX_BATCH_SIZE {
        return Err(BatchError::BatchTooLarge { actual: strs.len(), limit: MAX_BATCH_SIZE });
    }
    let results = par_decode_all(&strs);
    let mut out: Vec<u64> = Vec::new();
    let mut i: usize = 0;
    while i < results.len()
        invariant
            strs@.len() <= MAX_BATCH_SIZE,
            results@.len() == strs@.len(),
            forall|k: int| 0 <= k < results@.len() ==> results@[k] == decode_spec(strs@[k]@),
            i <= results@.len(),
            out@.len() == i,
            forall|k: int| 0 <= k < i ==> results@[k] == Ok::<u64, DecodeError>(out@[k]),
        decreases results@.len() - i,
    {
        match results[i] {
            Ok(v) => {
                out.push(v);
            },
            Err(e) => {
                proof {
                    assert forall|k: int| 0 <= k < i implies decode_spec(strs@[k]@) is Ok by {
                        assert(results@[k] == Ok::<u64, DecodeError>(out@[k]));
                        assert(results@[k] == decode_spec(strs@[k]@));
                    }
                }
                return Err(BatchError::Element { index: i, error: e });
            },
        }
        i = i + 1;
    }
    proof {
        assert forall|k: int|
            0 <= k < strs@.len() implies decode_spec(strs@[k]@) == Ok::<u64, DecodeError>(
            out@[k],
        ) by {
            assert(results@[k] == Ok::<u64, DecodeError>(out@[k]));
            assert(results@[k] == decode_spec(strs@[k]@));
        }
    }
    Ok(out)
}

} // verus!
