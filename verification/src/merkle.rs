//! Merkle inclusion proofs.
//!
//! A Merkle-backed fragment claims a root and carries the sibling hashes
//! along the path from its leaf to that root.  The root is recomputed here:
//! the leaf hash is the digest of a leaf-prefix byte and the payload, and
//! each step combines the running hash with the next sibling — ordered by
//! the bit of the fragment index at that level — under a node-prefix byte.
//! The domain-separating prefixes keep leaves and inner nodes apart.

use crate::crypto::hash_of;
use crate::crypto::hashv32;
use crate::fragment::copy_bytes;
use vstd::prelude::*;

verus! {

/// The domain-separation byte in front of a leaf.
pub const LEAF_PREFIX: u8 = 0x00;

/// The domain-separation byte in front of an inner node.
pub const NODE_PREFIX: u8 = 0x01;

/// The digest of a leaf holding `payload`.
pub open spec fn leaf_hash(payload: Seq<u8>) -> Seq<u8> {
    hash_of(seq![seq![LEAF_PREFIX], payload])
}

/// The digest of an inner node over the child digests `left` and `right`.
pub open spec fn node_hash(left: Seq<u8>, right: Seq<u8>) -> Seq<u8> {
    hash_of(seq![seq![NODE_PREFIX], left, right])
}

/// The root reached from the digest `cur` at position `pos` of its level by
/// absorbing the sibling digests in `proof`, leaf level first.
pub open spec fn merkle_fold(cur: Seq<u8>, pos: nat, proof: Seq<Seq<u8>>) -> Seq<u8>
    decreases proof.len(),
{
    if proof.len() == 0 {
        cur
    } else {
        let next = if pos % 2 == 0 {
            node_hash(cur, proof[0])
        } else {
            node_hash(proof[0], cur)
        };
        merkle_fold(next, pos / 2, proof.drop_first())
    }
}

/// The root a fragment's payload, index and proof path resolve to.
pub open spec fn fragment_root(payload: Seq<u8>, index: u32, proof: Seq<Seq<u8>>) -> Seq<u8> {
    merkle_fold(leaf_hash(payload), index as nat, proof)
}

/// Computes the digest of a leaf holding `payload`.
fn hash_leaf(payload: &Vec<u8>) -> (r: Vec<u8>)
    ensures
        r@ == leaf_hash(payload@),
        r@.len() == 32,
{
    let mut prefix: Vec<u8> = Vec::new();
    prefix.push(LEAF_PREFIX);
    let mut parts: Vec<Vec<u8>> = Vec::new();
    parts.push(prefix);
    parts.push(copy_bytes(payload));
    proof {
        assert(parts@.map_values(|v: Vec<u8>| v@) =~= seq![seq![LEAF_PREFIX], payload@]);
    }
    hashv32(&parts)
}

/// Computes the digest of an inner node over `left` and `right`.
fn hash_node(left: &Vec<u8>, right: &Vec<u8>) -> (r: Vec<u8>)
    ensures
        r@ == node_hash(left@, right@),
        r@.len() == 32,
{
    let mut prefix: Vec<u8> = Vec::new();
    prefix.push(NODE_PREFIX);
    let mut parts: Vec<Vec<u8>> = Vec::new();
    parts.push(prefix);
    parts.push(copy_bytes(left));
    parts.push(copy_bytes(right));
    proof {
        assert(parts@.map_values(|v: Vec<u8>| v@) =~= seq![seq![NODE_PREFIX], left@, right@]);
    }
    hashv32(&parts)
}

/// Recomputes the root that a fragment's payload, index and proof path
/// resolve to.
pub fn merkle_root_of(payload: &Vec<u8>, index: u32, proof: &Vec<Vec<u8>>) -> (r: Vec<u8>)
    ensures
        r@ == fragment_root(payload@, index, proof@.map_values(|v: Vec<u8>| v@)),
        r@.len() == 32,
{
    let ghost pv: Seq<Seq<u8>> = proof@.map_values(|v: Vec<u8>| v@);
    let mut cur = hash_leaf(payload);
    let mut pos: u32 = index;
    let mut i: usize = 0;
    proof {
        assert(pv.skip(0) =~= pv);
    }
    while i < proof.len()
        invariant
            i <= proof.len(),
            pv == proof@.map_values(|v: Vec<u8>| v@),
            cur@.len() == 32,
            merkle_fold(cur@, pos as nat, pv.skip(i as int)) == fragment_root(
                payload@,
                index,
                pv,
            ),
        decreases proof.len() - i,
    {
        let sib = &proof[i];
        proof {
            assert(pv.skip(i as int)[0] == pv[i as int]);
            assert(pv.skip(i as int).drop_first() =~= pv.skip(i as int + 1));
        }
        let next = if pos % 2 == 0 {
            hash_node(&cur, sib)
        } else {
            hash_node(sib, &cur)
        };
        cur = next;
        pos = pos / 2;
        i = i + 1;
    }
    proof {
        assert(pv.skip(proof@.len() as int) =~= Seq::<Seq<u8>>::empty());
    }
    cur
}

} // verus!
