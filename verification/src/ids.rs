//! Plain-value identifiers used throughout the pool: 256-bit hashes,
//! shard identifiers and extended block identifiers.

use vstd::prelude::*;

verus! {

/// A 256-bit identifier (message hash, key id, queue id), held as four
/// big-endian 64-bit words: `w0` is the most significant.
#[derive(Clone, Copy, Debug, PartialEq, Eq, Structural)]
pub struct Uint256 {
    pub w0: u64,
    pub w1: u64,
    pub w2: u64,
    pub w3: u64,
}

impl Uint256 {
    pub fn zero() -> (r: Uint256)
        ensures
            r == (Uint256 { w0: 0, w1: 0, w2: 0, w3: 0 }),
    {
        Uint256 { w0: 0, w1: 0, w2: 0, w3: 0 }
    }
}

/// An owned copy of a byte vector, element for element.
pub fn copy_bytes(v: &Vec<u8>) -> (r: Vec<u8>)
    ensures
        r@ == v@,
{
    let mut r: Vec<u8> = Vec::new();
    let mut i: usize = 0;
    while i < v.len()
        invariant
            i <= v@.len(),
            r@ == v@.take(i as int),
        decreases v@.len() - i,
    {
        r.push(v[i]);
        proof {
            assert(v@.take(i + 1) =~= v@.take(i as int).push(v@[i as int]));
        }
        i += 1;
    }
    proof {
        assert(v@.take(v@.len() as int) =~= v@);
    }
    r
}

/// Identifier of one shard of the blockchain state.
#[derive(Clone, Copy, Debug, PartialEq, Eq, Structural)]
pub struct ShardIdent {
    pub workchain: i32,
    pub prefix: u64,
}

/// Extended block identifier: the shard the block belongs to, its sequence
/// number, and the two content hashes.
#[derive(Clone, Copy, Debug, PartialEq, Eq, Structural)]
pub struct BlockIdExt {
    pub shard: ShardIdent,
    pub seqno: u32,
    pub root_hash: Uint256,
    pub file_hash: Uint256,
}

} // verus!
