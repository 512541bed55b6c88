//! Blocks of samples.

use vstd::prelude::*;

verus! {

/// A block of silence.
pub open spec fn silence(len: nat) -> Seq<i32> {
    Seq::new(len, |i: int| 0i32)
}

/// The blocks that a list of input buffers holds.
pub open spec fn blocks(inputs: Seq<&[i32]>) -> Seq<Seq<i32>> {
    Seq::new(inputs.len(), |k: int| inputs[k]@)
}

/// Overwrites a whole buffer with silence.
pub fn clear(output: &mut [i32])
    ensures
        final(output)@ == silence(old(output)@.len()),
{
    let len: usize = output.len();
    let mut i: usize = 0;
    while i < len
        invariant
            len == output@.len(),
            len == old(output)@.len(),
            i <= len,
            forall|j: int| 0 <= j < i ==> #[trigger] output@[j] == 0,
        decreases len - i,
    {
        output[i] = 0;
        i = i + 1;
    }
    assert(output@ =~= silence(len as nat));
}

} // verus!
