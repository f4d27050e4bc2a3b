//! The fragment ("shred") data model.
//!
//! A fragment is one erasure-coded or raw piece of a slot's payload,
//! identified by `(slot, kind, index)`.  It carries its payload bytes, the
//! producer's signature, the kind-specific total fragment count of its slot,
//! and — for the Merkle-backed representation — an inclusion proof together
//! with the root the proof claims.  Fragments arrive from the RPC boundary
//! as a tagged union of two mutually exclusive payload shapes; the union is
//! resolved into a proper sum right here and never propagates inward.

use vstd::prelude::*;

verus! {

/// The two disjoint encodings of a slot's payload.
#[derive(Clone, Copy, Debug, PartialEq, Eq, Structural)]
pub enum FragmentKind {
    Data,
    Coding,
}

/// The Merkle section of a fragment: the sibling hashes along the path from
/// the fragment's leaf to the root, and the root the fragment claims.
#[derive(Clone, Debug)]
pub struct MerkleSection {
    /// Sibling hashes, leaf level first.
    pub proof: Vec<Vec<u8>>,
    /// The root commitment the fragment claims to be included under.
    pub root: Vec<u8>,
}

/// A fragment as the pipeline passes it between stages.
#[derive(Clone, Debug)]
pub struct Fragment {
    pub slot: u64,
    pub kind: FragmentKind,
    pub index: u32,
    /// The slot's total fragment count for this fragment's kind, as declared
    /// by the fragment's own header.
    pub total: u32,
    pub payload: Vec<u8>,
    /// The producer's signature over the claimed Merkle root.
    pub signature: Vec<u8>,
    /// Present only for the Merkle-backed representation.
    pub merkle: Option<MerkleSection>,
}

/// The mathematical value of a Merkle section.
pub struct MerkleSectionView {
    pub proof: Seq<Seq<u8>>,
    pub root: Seq<u8>,
}

/// The mathematical value of a fragment.
pub struct FragmentView {
    pub slot: u64,
    pub kind: FragmentKind,
    pub index: u32,
    pub total: u32,
    pub payload: Seq<u8>,
    pub signature: Seq<u8>,
    pub merkle: Option<MerkleSectionView>,
}

impl View for MerkleSection {
    type V = MerkleSectionView;

    open spec fn view(&self) -> MerkleSectionView {
        MerkleSectionView {
            proof: self.proof@.map_values(|v: Vec<u8>| v@),
            root: self.root@,
        }
    }
}

impl View for Fragment {
    type V = FragmentView;

    open spec fn view(&self) -> FragmentView {
        FragmentView {
            slot: self.slot,
            kind: self.kind,
            index: self.index,
            total: self.total,
            payload: self.payload@,
            signature: self.signature@,
            merkle: match self.merkle {
                Some(m) => Some(m@),
                None => None,
            },
        }
    }
}

impl Fragment {
    /// Copies the fragment, field by field.
    pub fn clone_fragment(&self) -> (r: Fragment)
        ensures
            r@ == self@,
    {
        Fragment {
            slot: self.slot,
            kind: self.kind,
            index: self.index,
            total: self.total,
            payload: copy_bytes(&self.payload),
            signature: copy_bytes(&self.signature),
            merkle: match &self.merkle {
                Some(m) => Some(
                    MerkleSection { proof: clone_proof(&m.proof), root: copy_bytes(&m.root) },
                ),
                None => None,
            },
        }
    }
}

/// The wire shape of one fragment in an RPC response: a tagged union whose
/// two payload fields are meant to be mutually exclusive.  The fields carry
/// the same contents; which one is present tells the fragment's kind.
#[derive(Clone, Debug)]
pub struct RpcShred {
    pub shred_data: Option<WireFragment>,
    pub shred_code: Option<WireFragment>,
}

/// The kind-agnostic contents of a wire fragment.
#[derive(Clone, Debug)]
pub struct WireFragment {
    pub slot: u64,
    pub index: u32,
    pub total: u32,
    pub payload: Vec<u8>,
    pub signature: Vec<u8>,
    pub merkle: Option<MerkleSection>,
}

impl WireFragment {
    /// The fragment this wire record describes, once its kind is known.
    pub open spec fn spec_with_kind(&self, kind: FragmentKind) -> FragmentView {
        FragmentView {
            slot: self.slot,
            kind: kind,
            index: self.index,
            total: self.total,
            payload: self.payload@,
            signature: self.signature@,
            merkle: match self.merkle {
                Some(m) => Some(m@),
                None => None,
            },
        }
    }

    fn with_kind(&self, kind: FragmentKind) -> (r: Fragment)
        ensures
            r@ == self.spec_with_kind(kind),
    {
        Fragment {
            slot: self.slot,
            kind: kind,
            index: self.index,
            total: self.total,
            payload: copy_bytes(&self.payload),
            signature: copy_bytes(&self.signature),
            merkle: match &self.merkle {
                Some(m) => Some(
                    MerkleSection { proof: clone_proof(&m.proof), root: copy_bytes(&m.root) },
                ),
                None => None,
            },
        }
    }
}

/// Copies a byte vector element by element.
pub fn copy_bytes(v: &Vec<u8>) -> (r: Vec<u8>)
    ensures
        r@ == v@,
{
    let mut out: Vec<u8> = Vec::new();
    let mut i: usize = 0;
    while i < v.len()
        invariant
            i <= v.len(),
            out@ =~= v@.subrange(0, i as int),
        decreases v.len() - i,
    {
        out.push(v[i]);
        proof {
            assert(out@ =~= v@.subrange(0, i as int + 1));
        }
        i = i + 1;
    }
    proof {
        assert(v@.subrange(0, v@.len() as int) =~= v@);
    }
    out
}

/// Clones a proof path element by element.
fn clone_proof(proof: &Vec<Vec<u8>>) -> (r: Vec<Vec<u8>>)
    ensures
        r@.map_values(|v: Vec<u8>| v@) == proof@.map_values(|v: Vec<u8>| v@),
{
    let mut out: Vec<Vec<u8>> = Vec::new();
    let mut i: usize = 0;
    while i < proof.len()
        invariant
            i <= proof.len(),
            out@.len() == i,
            forall|j: int| 0 <= j < i ==> (#[trigger] out@[j])@ == proof@[j]@,
        decreases proof.len() - i,
    {
        out.push(copy_bytes(&proof[i]));
        i = i + 1;
    }
    proof {
        assert(out@.map_values(|v: Vec<u8>| v@) =~= proof@.map_values(|v: Vec<u8>| v@));
    }
    out
}

/// What a wire record resolves to: the kind read off the tagged union, or
/// nothing when the union is ambiguous or empty.
pub open spec fn spec_coerce(rs: RpcShred) -> Option<FragmentView> {
    match (rs.shred_data, rs.shred_code) {
        (Some(w), None) => Some(w.spec_with_kind(FragmentKind::Data)),
        (None, Some(w)) => Some(w.spec_with_kind(FragmentKind::Coding)),
        _ => None,
    }
}

/// Resolves the tagged union of a wire record: exactly one payload field
/// present gives a fragment of that kind; none or both give nothing.
pub fn coerce_fragment(rs: &RpcShred) -> (r: Option<Fragment>)
    ensures
        match r {
            Some(f) => spec_coerce(*rs) == Some(f@),
            None => spec_coerce(*rs) is None,
        },
{
    match (&rs.shred_data, &rs.shred_code) {
        (Some(w), None) => Some(w.with_kind(FragmentKind::Data)),
        (None, Some(w)) => Some(w.with_kind(FragmentKind::Coding)),
        _ => None,
    }
}

/// Byte-for-byte equality of two byte vectors.
pub fn bytes_eq(a: &Vec<u8>, b: &Vec<u8>) -> (r: bool)
    ensures
        r == (a@ =~= b@),
{
    if a.len() != b.len() {
        return false;
    }
    let mut i: usize = 0;
    while i < a.len()
        invariant
            i <= a.len(),
            a@.len() == b@.len(),
            forall|j: int| 0 <= j < i ==> a@[j] == b@[j],
        decreases a.len() - i,
    {
        if a[i] != b[i] {
            return false;
        }
        i = i + 1;
    }
    true
}

/// Holds exactly when two fragments have equal mathematical values.
pub open spec fn frag_eq(a: FragmentView, b: FragmentView) -> bool {
    &&& a.slot == b.slot
    &&& a.kind == b.kind
    &&& a.index == b.index
    &&& a.total == b.total
    &&& a.payload == b.payload
    &&& a.signature == b.signature
    &&& match (a.merkle, b.merkle) {
        (Some(x), Some(y)) => x.proof == y.proof && x.root == y.root,
        (None, None) => true,
        _ => false,
    }
}

/// Decides equality of two fragments, field by field.
pub fn fragment_eq(a: &Fragment, b: &Fragment) -> (r: bool)
    ensures
        r == frag_eq(a@, b@),
{
    if a.slot != b.slot || a.index != b.index || a.total != b.total {
        return false;
    }
    let kind_same = match (a.kind, b.kind) {
        (FragmentKind::Data, FragmentKind::Data) => true,
        (FragmentKind::Coding, FragmentKind::Coding) => true,
        _ => false,
    };
    if !kind_same {
        return false;
    }
    if !bytes_eq(&a.payload, &b.payload) || !bytes_eq(&a.signature, &b.signature) {
        return false;
    }
    match (&a.merkle, &b.merkle) {
        (Some(x), Some(y)) => proofs_eq(&x.proof, &y.proof) && bytes_eq(&x.root, &y.root),
        (None, None) => true,
        _ => false,
    }
}

/// Element-for-element equality of two proof paths.
fn proofs_eq(a: &Vec<Vec<u8>>, b: &Vec<Vec<u8>>) -> (r: bool)
    ensures
        r == (a@.map_values(|v: Vec<u8>| v@) =~= b@.map_values(|v: Vec<u8>| v@)),
{
    if a.len() != b.len() {
        return false;
    }
    let mut i: usize = 0;
    while i < a.len()
        invariant
            i <= a.len(),
            a@.len() == b@.len(),
            forall|j: int| 0 <= j < i ==> (#[trigger] a@[j])@ == b@[j]@,
        decreases a.len() - i,
    {
        if !bytes_eq(&a[i], &b[i]) {
            proof {
                assert(a@.map_values(|v: Vec<u8>| v@)[i as int] == a@[i as int]@);
                assert(b@.map_values(|v: Vec<u8>| v@)[i as int] == b@[i as int]@);
            }
            return false;
        }
        i = i + 1;
    }
    true
}

} // verus!
