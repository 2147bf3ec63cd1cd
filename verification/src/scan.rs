//! Finding where a field ends.

use vstd::prelude::*;

verus! {

/// The number of bytes at the start of `input` that stand before the first
/// byte of `stops`; the whole length where no byte of `stops` occurs.
pub open spec fn run_len(input: Seq<u8>, stops: Set<u8>) -> nat
    decreases input.len(),
{
    if input.len() == 0 || stops.contains(input[0]) {
        0
    } else {
        1 + run_len(input.drop_first(), stops)
    }
}

/// A run ends inside the input, holds no stop byte, and is followed by a
/// stop byte or by the end of the input.
pub proof fn lemma_run_len_bounds(input: Seq<u8>, stops: Set<u8>)
    ensures
        run_len(input, stops) <= input.len(),
        forall|j: int| 0 <= j < run_len(input, stops) ==> !stops.contains(#[trigger] input[j]),
        run_len(input, stops) < input.len() ==> stops.contains(
            input[run_len(input, stops) as int],
        ),
    decreases input.len(),
{
    if input.len() > 0 && !stops.contains(input[0]) {
        let tail = input.drop_first();
        lemma_run_len_bounds(tail, stops);
        assert forall|j: int| 0 <= j < run_len(input, stops) implies !stops.contains(
            #[trigger] input[j],
        ) by {
            if j > 0 {
                assert(input[j] == tail[j - 1]);
            }
        }
    }
}

/// The run is the only prefix that holds no stop byte and is followed by a
/// stop byte or by the end of the input.
pub proof fn lemma_run_len_is(input: Seq<u8>, stops: Set<u8>, n: int)
    requires
        0 <= n <= input.len(),
        forall|j: int| 0 <= j < n ==> !stops.contains(#[trigger] input[j]),
        n < input.len() ==> stops.contains(input[n]),
    ensures
        run_len(input, stops) == n,
{
    lemma_run_len_bounds(input, stops);
}

/// A prefix without a stop byte lies inside the run.
pub proof fn lemma_run_len_at_least(input: Seq<u8>, stops: Set<u8>, n: int)
    requires
        0 <= n <= input.len(),
        forall|j: int| 0 <= j < n ==> !stops.contains(#[trigger] input[j]),
    ensures
        n <= run_len(input, stops),
{
    lemma_run_len_bounds(input, stops);
}

/// Counts the bytes that stand before the first `first` or `second`.
pub fn scan(bytes: &[u8], first: u8, second: u8) -> (n: usize)
    ensures
        n == run_len(bytes@, set![first, second]),
        n <= bytes@.len(),
{
    let mut n: usize = 0;
    while n < bytes.len() && bytes[n] != first && bytes[n] != second
        invariant
            n <= bytes@.len(),
            forall|j: int| 0 <= j < n ==> !set![first, second].contains(#[trigger] bytes@[j]),
        decreases bytes@.len() - n,
    {
        n += 1;
    }
    proof {
        lemma_run_len_is(bytes@, set![first, second], n as int);
    }
    n
}

} // verus!
