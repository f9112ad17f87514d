use vstd::prelude::*;

use crate::nibbles::{num_nibbles_in_key, Nibbles};
use crate::u256::{is_u64_bytes, U256};

verus! {

/// Creates nibbles that are easily readable for tests and logging: the
/// value `k`, as many nibbles long as it takes to write it. Unlike a trie
/// key, these are not of a fixed size.
pub fn nibbles(k: u64) -> (r: Nibbles)
    ensures
        r.wf(),
        is_u64_bytes(r.packed.be, k),
        r.count == num_nibbles_in_key(r.packed),
{
    let key = U256::from(k);
    let mut n: Nibbles = Nibbles::from(key);
    n.count = Nibbles::get_num_nibbles_in_key(&key);
    n
}

/// `b` without its leading zero bytes.
pub open spec fn strip_leading_zeros(b: Seq<u8>) -> Seq<u8>
    decreases b.len(),
{
    if b.len() == 0 || b[0] != 0 {
        b
    } else {
        strip_leading_zeros(b.drop_first())
    }
}

/// The bytes from the first non-zero one on; empty where all are zero.
pub fn get_slice_removing_any_trailing_zero_bytes_be(bytes: &[u8]) -> (r: &[u8])
    ensures
        r@ == strip_leading_zeros(bytes@),
{
    let mut i: usize = 0;
    assert(bytes@.subrange(0, bytes@.len() as int) =~= bytes@);
    while i < bytes.len()
        invariant
            i <= bytes@.len(),
            strip_leading_zeros(bytes@) == strip_leading_zeros(bytes@.subrange(i as int, bytes@.len() as int)),
        decreases bytes.len() - i,
    {
        if bytes[i] != 0 {
            return &bytes[i..bytes.len()];
        }
        assert(bytes@.subrange(i as int, bytes@.len() as int).drop_first() =~= bytes@.subrange(i + 1, bytes@.len() as int));
        i = i + 1;
    }
    &bytes[i..bytes.len()]
}

} // verus!
