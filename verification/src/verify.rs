//! The cryptographic acceptance rule.
//!
//! A fragment is verified only when both checks pass: the producer's
//! signature over the claimed Merkle root, and the inclusion proof resolving
//! to that same root.  A fragment without the Merkle-backed representation
//! cannot be confirmed and is rejected, never accepted silently.  Failures
//! are contained per fragment: one bad fragment never blocks its batch.

use crate::crypto::ed25519_verify;
use crate::crypto::sig_valid;
use crate::fragment::bytes_eq;
use crate::fragment::Fragment;
use crate::fragment::FragmentView;
use crate::merkle::fragment_root;
use crate::merkle::merkle_root_of;
use vstd::prelude::*;

verus! {

/// Holds exactly when a fragment passes both checks against the producer's
/// public key: the signature signs the claimed root, and the proof path
/// resolves to that root.  A fragment without a Merkle section never
/// qualifies.
pub open spec fn fragment_verified(f: FragmentView, pk: Seq<u8>) -> bool {
    match f.merkle {
        Some(m) => sig_valid(pk, m.root, f.signature) && fragment_root(f.payload, f.index, m.proof)
            == m.root,
        None => false,
    }
}

/// The fragment with its Merkle section cleared.
pub open spec fn without_proof(f: FragmentView) -> FragmentView {
    FragmentView {
        slot: f.slot,
        kind: f.kind,
        index: f.index,
        total: f.total,
        payload: f.payload,
        signature: f.signature,
        merkle: None,
    }
}

/// A fragment lacking the Merkle-backed representation is always rejected;
/// in particular, clearing any fragment's proof section makes it rejected,
/// whatever its signature says.
pub proof fn lemma_non_merkle_rejected(f: FragmentView, pk: Seq<u8>)
    ensures
        f.merkle is None ==> !fragment_verified(f, pk),
        !fragment_verified(without_proof(f), pk),
{
}

/// Decides whether one sampled fragment is verified: its signature is
/// checked against the producer identity, and its inclusion proof against
/// its own claimed root.
pub fn verify_sample(fragment: &Fragment, leader: &Vec<u8>) -> (r: bool)
    ensures
        r == fragment_verified(fragment@, leader@),
{
    match &fragment.merkle {
        Some(m) => {
            let sig_ok = ed25519_verify(leader, &m.root, &fragment.signature);
            if !sig_ok {
                return false;
            }
            let root = merkle_root_of(&fragment.payload, fragment.index, &m.proof);
            bytes_eq(&root, &m.root)
        },
        None => false,
    }
}

/// The verified members of a batch, in batch order.  Empty entries and
/// failing fragments drop out; nothing else does.
pub open spec fn verified_of(batch: Seq<Option<FragmentView>>, pk: Seq<u8>) -> Seq<FragmentView>
    decreases batch.len(),
{
    if batch.len() == 0 {
        Seq::empty()
    } else {
        let rest = verified_of(batch.drop_last(), pk);
        match batch.last() {
            Some(f) => if fragment_verified(f, pk) {
                rest.push(f)
            } else {
                rest
            },
            None => rest,
        }
    }
}

/// How many entries of a batch hold a fragment at all.
pub open spec fn candidate_count(batch: Seq<Option<FragmentView>>) -> nat
    decreases batch.len(),
{
    if batch.len() == 0 {
        0
    } else {
        candidate_count(batch.drop_last()) + if batch.last() is Some {
            1nat
        } else {
            0nat
        }
    }
}

/// How many entries of a batch hold a fragment that fails verification.
pub open spec fn failing_count(batch: Seq<Option<FragmentView>>, pk: Seq<u8>) -> nat
    decreases batch.len(),
{
    if batch.len() == 0 {
        0
    } else {
        failing_count(batch.drop_last(), pk) + match batch.last() {
            Some(f) => if fragment_verified(f, pk) {
                0nat
            } else {
                1nat
            },
            None => 0nat,
        }
    }
}

/// Partial-failure isolation: when some fragments of a batch fail
/// verification, exactly the others come through — the failures cost
/// nothing beyond themselves.
pub proof fn lemma_partial_failure_isolation(batch: Seq<Option<FragmentView>>, pk: Seq<u8>)
    ensures
        verified_of(batch, pk).len() + failing_count(batch, pk) == candidate_count(batch),
    decreases batch.len(),
{
    if batch.len() > 0 {
        lemma_partial_failure_isolation(batch.drop_last(), pk);
    }
}

/// The views of a batch of optional fragments.
pub open spec fn batch_views(batch: Seq<Option<Fragment>>) -> Seq<Option<FragmentView>> {
    batch.map_values(
        |o: Option<Fragment>|
            match o {
                Some(f) => Some(f@),
                None => None,
            },
    )
}

/// Checks every fragment of a batch independently and keeps exactly the
/// verified ones, in batch order.
pub fn verify_batch(batch: &Vec<Option<Fragment>>, leader: &Vec<u8>) -> (out: Vec<Fragment>)
    ensures
        out@.map_values(|f: Fragment| f@) == verified_of(batch_views(batch@), leader@),
{
    let ghost bv: Seq<Option<FragmentView>> = batch_views(batch@);
    let mut out: Vec<Fragment> = Vec::new();
    let mut i: usize = 0;
    proof {
        assert(bv.subrange(0, 0) =~= Seq::<Option<FragmentView>>::empty());
    }
    while i < batch.len()
        invariant
            i <= batch.len(),
            bv == batch_views(batch@),
            bv.len() == batch@.len(),
            out@.map_values(|f: Fragment| f@) == verified_of(bv.subrange(0, i as int), leader@),
        decreases batch.len() - i,
    {
        proof {
            assert(bv.subrange(0, i as int + 1).drop_last() =~= bv.subrange(0, i as int));
            assert(bv[i as int] == (match batch@[i as int] {
                Some(f) => Some(f@),
                None => None,
            }));
        }
        match &batch[i] {
            Some(f) => {
                if verify_sample(f, leader) {
                    out.push(f.clone_fragment());
                    proof {
                        assert(out@.map_values(|f: Fragment| f@) =~= verified_of(
                            bv.subrange(0, i as int + 1),
                            leader@,
                        ));
                    }
                } else {
                    proof {
                        assert(out@.map_values(|f: Fragment| f@) =~= verified_of(
                            bv.subrange(0, i as int + 1),
                            leader@,
                        ));
                    }
                }
            },
            None => {
                proof {
                    assert(out@.map_values(|f: Fragment| f@) =~= verified_of(
                        bv.subrange(0, i as int + 1),
                        leader@,
                    ));
                }
            },
        }
        i = i + 1;
    }
    proof {
        assert(bv.subrange(0, batch@.len() as int) =~= bv);
    }
    out
}

/// Decides whether every candidate fragment of a batch is verified — the
/// acceptance rule of a one-shot pull-and-verify pass over a slot.
pub fn all_samples_verified(batch: &Vec<Option<Fragment>>, leader: &Vec<u8>) -> (r: bool)
    ensures
        r == (failing_count(batch_views(batch@), leader@) == 0),
{
    let ghost bv: Seq<Option<FragmentView>> = batch_views(batch@);
    let mut i: usize = 0;
    proof {
        assert(failing_count(bv.subrange(0, 0), leader@) == 0);
    }
    while i < batch.len()
        invariant
            i <= batch.len(),
            bv == batch_views(batch@),
            bv.len() == batch@.len(),
            failing_count(bv.subrange(0, i as int), leader@) == 0,
        decreases batch.len() - i,
    {
        proof {
            assert(bv.subrange(0, i as int + 1).drop_last() =~= bv.subrange(0, i as int));
            assert(bv[i as int] == (match batch@[i as int] {
                Some(f) => Some(f@),
                None => None,
            }));
        }
        match &batch[i] {
            Some(f) => {
                if !verify_sample(f, leader) {
                    proof {
                        lemma_failing_prefix(bv, leader@, i as int);
                    }
                    return false;
                }
            },
            None => {},
        }
        i = i + 1;
    }
    proof {
        assert(bv.subrange(0, batch@.len() as int) =~= bv);
    }
    true
}

/// A batch with a failing fragment at position `i` has a nonzero failing
/// count.
proof fn lemma_failing_prefix(batch: Seq<Option<FragmentView>>, pk: Seq<u8>, i: int)
    requires
        0 <= i < batch.len(),
        batch[i] is Some,
        !fragment_verified(batch[i].unwrap(), pk),
    ensures
        failing_count(batch, pk) > 0,
    decreases batch.len(),
{
    if i == batch.len() - 1 {
        assert(batch.last() == batch[i]);
    } else {
        lemma_failing_prefix(batch.drop_last(), pk, i);
    }
}

} // verus!
