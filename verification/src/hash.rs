//! Hashes of object handles.
use vstd::prelude::*;
use crate::task::{Id, Task};

verus! {

/// What the hash function `wyhash` returns for the bytes `bytes` and the
/// seed `seed`.
pub uninterp spec fn wyhash_of(bytes: Seq<u8>, seed: u64) -> u64;

/// Calls `wyhash::wyhash`. The function computes its result from the bytes
/// and the seed alone, reading the bytes one by one, so the result is the
/// same wherever it runs. No input makes it fail.
#[verifier::external_body]
fn wyhash_bytes(bytes: &Vec<u8>, seed: u64) -> (r: u64)
    ensures
        r == wyhash_of(bytes@, seed),
{
    wyhash::wyhash(bytes.as_slice(), seed)
}

/// The hash of `bytes` under `seed`.
pub fn hash_bytes(bytes: &Vec<u8>, seed: u64) -> (r: u64)
    ensures
        r == wyhash_of(bytes@, seed),
{
    wyhash_bytes(bytes, seed)
}

/// Byte `i` of the identifier `id`, the lowest byte being byte 0.
pub open spec fn id_byte(id: Id, i: int) -> u8 {
    ((id as u64 >> ((8 * i) as u64)) & 0xff) as u8
}

/// The eight bytes of the identifier `id`, lowest first.
pub open spec fn spec_id_bytes(id: Id) -> Seq<u8> {
    Seq::new(8, |i: int| id_byte(id, i))
}

pub fn id_bytes(id: Id) -> (r: Vec<u8>)
    ensures
        r@ == spec_id_bytes(id),
{
    let x: u64 = id as u64;
    let mut r: Vec<u8> = Vec::new();
    let mut i: u64 = 0;
    while i < 8
        invariant
            i <= 8,
            x == id as u64,
            r@.len() == i,
            forall|j: int| 0 <= j < i ==> r@[j] == id_byte(id, j),
        decreases 8 - i,
    {
        let shifted: u64 = x >> (8 * i);
        let low: u64 = shifted & 0xff;
        assert(low <= 0xff) by (bit_vector)
            requires
                low == shifted & 0xff,
        ;
        r.push(low as u8);
        i += 1;
    }
    proof {
        assert(r@ =~= spec_id_bytes(id));
    }
    r
}

impl Task {
    /// The hash of the handle under `seed`: that of the bytes of its
    /// identifier. Handles to the same task have the same hash.
    pub fn hash_with_seed(self, seed: u64) -> (r: u64)
        ensures
            r == wyhash_of(spec_id_bytes(self.id), seed),
    {
        let bytes = id_bytes(self.id);
        hash_bytes(&bytes, seed)
    }
}

} // verus!
