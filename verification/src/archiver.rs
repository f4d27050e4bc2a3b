//! The content-addressed archive.
//!
//! A verified fragment is stored under a fixed-width key: the digest of its
//! `(slot, kind, index)` identity — never of its payload — so re-fetching
//! the same logical fragment overwrites its entry instead of duplicating
//! it.  The fragment itself is serialized to a storage-agnostic,
//! length-prefixed byte form.  The store keeps one value per key with
//! last-write-wins upsert semantics; its observable state is a map from key
//! bytes to value bytes.

use crate::crypto::hash_of;
use crate::crypto::hashv32;
use crate::fragment::bytes_eq;
use crate::fragment::Fragment;
use crate::fragment::FragmentKind;
use crate::fragment::FragmentView;
use crate::fragment::MerkleSection;
use crate::fragment::MerkleSectionView;
use vstd::prelude::*;

verus! {

/// The key-material tag byte of a data fragment.
pub const DATA_KIND_TAG: u8 = 0xa5;

/// The key-material tag byte of a coding fragment.
pub const CODING_KIND_TAG: u8 = 0x5a;

/// The tag byte a fragment kind contributes to key material and to the
/// serialized form.
pub open spec fn kind_tag(kind: FragmentKind) -> u8 {
    match kind {
        FragmentKind::Data => DATA_KIND_TAG,
        FragmentKind::Coding => CODING_KIND_TAG,
    }
}

/// The eight little-endian bytes of `x`.
pub open spec fn u64_le(x: u64) -> Seq<u8> {
    seq![
        (x & 0xff) as u8,
        ((x >> 8) & 0xff) as u8,
        ((x >> 16) & 0xff) as u8,
        ((x >> 24) & 0xff) as u8,
        ((x >> 32) & 0xff) as u8,
        ((x >> 40) & 0xff) as u8,
        ((x >> 48) & 0xff) as u8,
        ((x >> 56) & 0xff) as u8,
    ]
}

/// The four little-endian bytes of `x`.
pub open spec fn u32_le(x: u32) -> Seq<u8> {
    seq![(x & 0xff) as u8, ((x >> 8) & 0xff) as u8, ((x >> 16) & 0xff) as u8, ((x >> 24)
        & 0xff) as u8]
}

/// The low byte of a 64-bit value is below 256.
proof fn lemma_low_byte64(x: u64)
    ensures
        x & 0xff < 256,
{
    assert(x & 0xff < 256) by (bit_vector);
}

/// The low byte of a 32-bit value is below 256.
proof fn lemma_low_byte32(x: u32)
    ensures
        x & 0xff < 256,
{
    assert(x & 0xff < 256) by (bit_vector);
}

/// Writes the eight little-endian bytes of `x`.
fn u64_le_bytes(x: u64) -> (r: Vec<u8>)
    ensures
        r@ == u64_le(x),
{
    proof {
        lemma_low_byte64(x);
        lemma_low_byte64(x >> 8);
        lemma_low_byte64(x >> 16);
        lemma_low_byte64(x >> 24);
        lemma_low_byte64(x >> 32);
        lemma_low_byte64(x >> 40);
        lemma_low_byte64(x >> 48);
        lemma_low_byte64(x >> 56);
    }
    let mut out: Vec<u8> = Vec::new();
    out.push((x & 0xff) as u8);
    out.push(((x >> 8) & 0xff) as u8);
    out.push(((x >> 16) & 0xff) as u8);
    out.push(((x >> 24) & 0xff) as u8);
    out.push(((x >> 32) & 0xff) as u8);
    out.push(((x >> 40) & 0xff) as u8);
    out.push(((x >> 48) & 0xff) as u8);
    out.push(((x >> 56) & 0xff) as u8);
    proof {
        assert(out@ =~= u64_le(x));
    }
    out
}

/// Writes the four little-endian bytes of `x`.
fn u32_le_bytes(x: u32) -> (r: Vec<u8>)
    ensures
        r@ == u32_le(x),
{
    proof {
        lemma_low_byte32(x);
        lemma_low_byte32(x >> 8);
        lemma_low_byte32(x >> 16);
        lemma_low_byte32(x >> 24);
    }
    let mut out: Vec<u8> = Vec::new();
    out.push((x & 0xff) as u8);
    out.push(((x >> 8) & 0xff) as u8);
    out.push(((x >> 16) & 0xff) as u8);
    out.push(((x >> 24) & 0xff) as u8);
    proof {
        assert(out@ =~= u32_le(x));
    }
    out
}

/// Two values with the same eight little-endian bytes are the same value.
proof fn lemma_u64_le_injective(x: u64, y: u64)
    requires
        u64_le(x) == u64_le(y),
    ensures
        x == y,
{
    lemma_low_byte64(x);
    lemma_low_byte64(x >> 8);
    lemma_low_byte64(x >> 16);
    lemma_low_byte64(x >> 24);
    lemma_low_byte64(x >> 32);
    lemma_low_byte64(x >> 40);
    lemma_low_byte64(x >> 48);
    lemma_low_byte64(x >> 56);
    lemma_low_byte64(y);
    lemma_low_byte64(y >> 8);
    lemma_low_byte64(y >> 16);
    lemma_low_byte64(y >> 24);
    lemma_low_byte64(y >> 32);
    lemma_low_byte64(y >> 40);
    lemma_low_byte64(y >> 48);
    lemma_low_byte64(y >> 56);
    assert(u64_le(x)[0] == u64_le(y)[0]);
    assert(u64_le(x)[1] == u64_le(y)[1]);
    assert(u64_le(x)[2] == u64_le(y)[2]);
    assert(u64_le(x)[3] == u64_le(y)[3]);
    assert(u64_le(x)[4] == u64_le(y)[4]);
    assert(u64_le(x)[5] == u64_le(y)[5]);
    assert(u64_le(x)[6] == u64_le(y)[6]);
    assert(u64_le(x)[7] == u64_le(y)[7]);
    assert((x & 0xff == y & 0xff && (x >> 8) & 0xff == (y >> 8) & 0xff && (x >> 16) & 0xff == (y
        >> 16) & 0xff && (x >> 24) & 0xff == (y >> 24) & 0xff && (x >> 32) & 0xff == (y >> 32)
        & 0xff && (x >> 40) & 0xff == (y >> 40) & 0xff && (x >> 48) & 0xff == (y >> 48) & 0xff && (x
        >> 56) & 0xff == (y >> 56) & 0xff) ==> x == y) by (bit_vector);
}

/// Two values with the same four little-endian bytes are the same value.
proof fn lemma_u32_le_injective(x: u32, y: u32)
    requires
        u32_le(x) == u32_le(y),
    ensures
        x == y,
{
    lemma_low_byte32(x);
    lemma_low_byte32(x >> 8);
    lemma_low_byte32(x >> 16);
    lemma_low_byte32(x >> 24);
    lemma_low_byte32(y);
    lemma_low_byte32(y >> 8);
    lemma_low_byte32(y >> 16);
    lemma_low_byte32(y >> 24);
    assert(u32_le(x)[0] == u32_le(y)[0]);
    assert(u32_le(x)[1] == u32_le(y)[1]);
    assert(u32_le(x)[2] == u32_le(y)[2]);
    assert(u32_le(x)[3] == u32_le(y)[3]);
    assert((x & 0xff == y & 0xff && (x >> 8) & 0xff == (y >> 8) & 0xff && (x >> 16) & 0xff == (y
        >> 16) & 0xff && (x >> 24) & 0xff == (y >> 24) & 0xff) ==> x == y) by (bit_vector);
}

/// Reads the value whose eight little-endian bytes stand at `pos`.
fn read_u64_le(bytes: &Vec<u8>, pos: usize) -> (r: u64)
    requires
        pos + 8 <= bytes@.len(),
    ensures
        u64_le(r) == bytes@.subrange(pos as int, pos as int + 8),
{
    let n = bytes.len();
    proof {
        assert(pos + 8 <= n);
    }
    let b0 = bytes[pos] as u64;
    let b1 = bytes[pos + 1] as u64;
    let b2 = bytes[pos + 2] as u64;
    let b3 = bytes[pos + 3] as u64;
    let b4 = bytes[pos + 4] as u64;
    let b5 = bytes[pos + 5] as u64;
    let b6 = bytes[pos + 6] as u64;
    let b7 = bytes[pos + 7] as u64;
    let r = b0 | (b1 << 8) | (b2 << 16) | (b3 << 24) | (b4 << 32) | (b5 << 40) | (b6 << 48) | (b7
        << 56);
    proof {
        assert((b0 | (b1 << 8) | (b2 << 16) | (b3 << 24) | (b4 << 32) | (b5 << 40) | (b6 << 48) | (
        b7 << 56)) & 0xff == b0 && ((b0 | (b1 << 8) | (b2 << 16) | (b3 << 24) | (b4 << 32) | (b5
            << 40) | (b6 << 48) | (b7 << 56)) >> 8) & 0xff == b1 && ((b0 | (b1 << 8) | (b2 << 16)
            | (b3 << 24) | (b4 << 32) | (b5 << 40) | (b6 << 48) | (b7 << 56)) >> 16) & 0xff == b2
            && ((b0 | (b1 << 8) | (b2 << 16) | (b3 << 24) | (b4 << 32) | (b5 << 40) | (b6 << 48) | (
        b7 << 56)) >> 24) & 0xff == b3 && ((b0 | (b1 << 8) | (b2 << 16) | (b3 << 24) | (b4 << 32)
            | (b5 << 40) | (b6 << 48) | (b7 << 56)) >> 32) & 0xff == b4 && ((b0 | (b1 << 8) | (b2
            << 16) | (b3 << 24) | (b4 << 32) | (b5 << 40) | (b6 << 48) | (b7 << 56)) >> 40) & 0xff
            == b5 && ((b0 | (b1 << 8) | (b2 << 16) | (b3 << 24) | (b4 << 32) | (b5 << 40) | (b6
            << 48) | (b7 << 56)) >> 48) & 0xff == b6 && ((b0 | (b1 << 8) | (b2 << 16) | (b3 << 24)
            | (b4 << 32) | (b5 << 40) | (b6 << 48) | (b7 << 56)) >> 56) & 0xff == b7) by (bit_vector)
            requires
                b0 < 256 && b1 < 256 && b2 < 256 && b3 < 256 && b4 < 256 && b5 < 256 && b6 < 256
                    && b7 < 256,
        ;
        assert(u64_le(r) =~= bytes@.subrange(pos as int, pos as int + 8));
    }
    r
}

/// Reads the value whose four little-endian bytes stand at `pos`.
fn read_u32_le(bytes: &Vec<u8>, pos: usize) -> (r: u32)
    requires
        pos + 4 <= bytes@.len(),
    ensures
        u32_le(r) == bytes@.subrange(pos as int, pos as int + 4),
{
    let n = bytes.len();
    proof {
        assert(pos + 4 <= n);
    }
    let b0 = bytes[pos] as u32;
    let b1 = bytes[pos + 1] as u32;
    let b2 = bytes[pos + 2] as u32;
    let b3 = bytes[pos + 3] as u32;
    let r = b0 | (b1 << 8) | (b2 << 16) | (b3 << 24);
    proof {
        assert((b0 | (b1 << 8) | (b2 << 16) | (b3 << 24)) & 0xff == b0 && ((b0 | (b1 << 8) | (b2
            << 16) | (b3 << 24)) >> 8) & 0xff == b1 && ((b0 | (b1 << 8) | (b2 << 16) | (b3 << 24))
            >> 16) & 0xff == b2 && ((b0 | (b1 << 8) | (b2 << 16) | (b3 << 24)) >> 24) & 0xff == b3)
            by (bit_vector)
            requires
                b0 < 256 && b1 < 256 && b2 < 256 && b3 < 256,
        ;
        assert(u32_le(r) =~= bytes@.subrange(pos as int, pos as int + 4));
    }
    r
}

/// Copies the `len` bytes standing at `pos`.
fn take_bytes(bytes: &Vec<u8>, pos: usize, len: usize) -> (r: Vec<u8>)
    requires
        pos + len <= bytes@.len(),
    ensures
        r@ == bytes@.subrange(pos as int, pos as int + len),
{
    let n = bytes.len();
    proof {
        assert(pos + len <= n);
    }
    let mut out: Vec<u8> = Vec::new();
    let mut i: usize = 0;
    while i < len
        invariant
            i <= len,
            n == bytes@.len(),
            pos + len <= n,
            out@ =~= bytes@.subrange(pos as int, pos as int + i),
        decreases len - i,
    {
        out.push(bytes[pos + i]);
        proof {
            assert(out@ =~= bytes@.subrange(pos as int, pos as int + i + 1));
        }
        i = i + 1;
    }
    out
}

/// The key material of a fragment identity: slot, kind tag, index — and
/// nothing else.
pub open spec fn key_parts(slot: u64, kind: FragmentKind, index: u32) -> Seq<Seq<u8>> {
    seq![u64_le(slot), seq![kind_tag(kind)], u32_le(index)]
}

/// The archive key of a fragment identity: the digest of its key material.
pub open spec fn archive_key(slot: u64, kind: FragmentKind, index: u32) -> Seq<u8> {
    hash_of(key_parts(slot, kind, index))
}

/// Reads the tag byte of a kind.
pub fn kind_tag_byte(kind: FragmentKind) -> (r: u8)
    ensures
        r == kind_tag(kind),
{
    match kind {
        FragmentKind::Data => DATA_KIND_TAG,
        FragmentKind::Coding => CODING_KIND_TAG,
    }
}

/// Derives the 32-byte archive key of a fragment identity.
pub fn derive_archive_key(slot: u64, kind: FragmentKind, index: u32) -> (r: Vec<u8>)
    ensures
        r@ == archive_key(slot, kind, index),
        r@.len() == 32,
{
    let mut tag: Vec<u8> = Vec::new();
    tag.push(kind_tag_byte(kind));
    let mut parts: Vec<Vec<u8>> = Vec::new();
    parts.push(u64_le_bytes(slot));
    parts.push(tag);
    parts.push(u32_le_bytes(index));
    proof {
        assert(parts@.map_values(|v: Vec<u8>| v@) =~= key_parts(slot, kind, index));
    }
    hashv32(&parts)
}

/// Archive key determinism: the key is a pure function of slot, kind and
/// index — two fragments with the same identity share a key whatever their
/// payloads hold.
pub proof fn lemma_key_determinism(a: FragmentView, b: FragmentView)
    requires
        a.slot == b.slot,
        a.kind == b.kind,
        a.index == b.index,
    ensures
        archive_key(a.slot, a.kind, a.index) == archive_key(b.slot, b.kind, b.index),
{
}

/// Whether every variable-length field of a fragment fits a 32-bit length
/// prefix.
pub open spec fn bounded(f: FragmentView) -> bool {
    &&& f.payload.len() <= 0xffffffff
    &&& f.signature.len() <= 0xffffffff
    &&& match f.merkle {
        Some(m) => {
            &&& m.root.len() <= 0xffffffff
            &&& m.proof.len() <= 0xffffffff
            &&& forall|i: int| 0 <= i < m.proof.len() ==> (#[trigger] m.proof[i]).len()
                <= 0xffffffff
        },
        None => true,
    }
}

/// A byte string behind its 32-bit little-endian length.
pub open spec fn enc_bytes(b: Seq<u8>) -> Seq<u8> {
    u32_le(b.len() as u32) + b
}

/// A proof path, element by element, each behind its length.
pub open spec fn enc_proof(p: Seq<Seq<u8>>) -> Seq<u8>
    decreases p.len(),
{
    if p.len() == 0 {
        Seq::empty()
    } else {
        enc_proof(p.drop_last()) + enc_bytes(p.last())
    }
}

/// The Merkle section's serialized form: a presence byte, then root, proof
/// count and proof path.
pub open spec fn enc_merkle(m: Option<MerkleSectionView>) -> Seq<u8> {
    match m {
        None => seq![0u8],
        Some(ms) => seq![1u8] + enc_bytes(ms.root) + u32_le(ms.proof.len() as u32) + enc_proof(
            ms.proof,
        ),
    }
}

/// The storage-agnostic serialized form of a fragment: identity, counts,
/// payload, signature, Merkle section, every variable-length field behind a
/// 32-bit little-endian length.
pub open spec fn encode_fragment_spec(f: FragmentView) -> Seq<u8> {
    u64_le(f.slot) + seq![kind_tag(f.kind)] + u32_le(f.index) + u32_le(f.total) + enc_bytes(
        f.payload,
    ) + enc_bytes(f.signature) + enc_merkle(f.merkle)
}

/// A range of `e` known to hold `x + y` splits at `x`'s length into a range
/// holding `x` and a range holding `y`.
proof fn lemma_split_range(e: Seq<u8>, lo: int, hi: int, x: Seq<u8>, y: Seq<u8>)
    requires
        0 <= lo <= hi <= e.len(),
        e.subrange(lo, hi) == x + y,
    ensures
        lo + x.len() == hi - y.len(),
        e.subrange(lo, lo + x.len() as int) == x,
        e.subrange(lo + x.len() as int, hi) == y,
{
    assert(e.subrange(lo, hi).len() == hi - lo);
    assert((x + y).len() == x.len() + y.len());
    assert(x.len() + y.len() == hi - lo);
    assert forall|j: int| 0 <= j < x.len() implies e.subrange(lo, lo + x.len() as int)[j]
        == x[j] by {
        assert(e.subrange(lo, lo + x.len() as int)[j] == e[lo + j]);
        assert(e.subrange(lo, hi)[j] == e[lo + j]);
        assert(e.subrange(lo, hi)[j] == (x + y)[j]);
        assert((x + y)[j] == x[j]);
    }
    assert(e.subrange(lo, lo + x.len() as int) =~= x);
    assert forall|j: int| 0 <= j < y.len() implies e.subrange(lo + x.len() as int, hi)[j]
        == y[j] by {
        assert(e.subrange(lo + x.len() as int, hi)[j] == e[lo + x.len() + j]);
        assert(e.subrange(lo, hi)[x.len() + j] == e[lo + x.len() + j]);
        assert(e.subrange(lo, hi)[x.len() + j] == (x + y)[x.len() + j]);
        assert((x + y)[x.len() + j] == y[j]);
    }
    assert(e.subrange(lo + x.len() as int, hi) =~= y);
}

/// `enc_proof` unrolled from the front: the first element's encoding, then
/// the rest.
proof fn lemma_enc_proof_first(p: Seq<Seq<u8>>)
    requires
        p.len() > 0,
    ensures
        enc_proof(p) == enc_bytes(p.first()) + enc_proof(p.drop_first()),
    decreases p.len(),
{
    if p.len() == 1 {
        assert(p.drop_last() =~= Seq::<Seq<u8>>::empty());
        assert(p.drop_first() =~= Seq::<Seq<u8>>::empty());
        assert(enc_proof(p) =~= enc_bytes(p.first()) + enc_proof(p.drop_first()));
    } else {
        lemma_enc_proof_first(p.drop_last());
        assert(p.drop_last().first() == p.first());
        assert(p.drop_last().drop_first() =~= p.drop_first().drop_last());
        assert(p.drop_first().last() == p.last());
        assert(enc_proof(p) =~= enc_bytes(p.first()) + enc_proof(p.drop_first()));
    }
}

/// Appends `b` to `out`.
fn append_bytes(out: &mut Vec<u8>, b: &Vec<u8>)
    ensures
        final(out)@ == old(out)@ + b@,
{
    let mut i: usize = 0;
    while i < b.len()
        invariant
            i <= b.len(),
            out@ =~= old(out)@ + b@.subrange(0, i as int),
        decreases b.len() - i,
    {
        out.push(b[i]);
        proof {
            assert(old(out)@ + b@.subrange(0, i as int + 1) =~= (old(out)@ + b@.subrange(
                0,
                i as int,
            )).push(b@[i as int]));
        }
        i = i + 1;
    }
    proof {
        assert(b@.subrange(0, b@.len() as int) =~= b@);
    }
}

/// Appends `b` behind its 32-bit little-endian length.
fn append_len_bytes(out: &mut Vec<u8>, b: &Vec<u8>)
    requires
        b@.len() <= 0xffffffff,
    ensures
        final(out)@ == old(out)@ + enc_bytes(b@),
{
    let len = u32_le_bytes(b.len() as u32);
    append_bytes(out, &len);
    append_bytes(out, b);
    proof {
        assert(out@ =~= old(out)@ + enc_bytes(b@));
    }
}

/// Serializes a fragment to its storage byte form.
pub fn encode_fragment(f: &Fragment) -> (r: Vec<u8>)
    requires
        bounded(f@),
    ensures
        r@ == encode_fragment_spec(f@),
{
    let mut out: Vec<u8> = Vec::new();
    append_bytes(&mut out, &u64_le_bytes(f.slot));
    out.push(kind_tag_byte(f.kind));
    append_bytes(&mut out, &u32_le_bytes(f.index));
    append_bytes(&mut out, &u32_le_bytes(f.total));
    append_len_bytes(&mut out, &f.payload);
    append_len_bytes(&mut out, &f.signature);
    let ghost head: Seq<u8> = out@;
    proof {
        assert(head =~= u64_le(f@.slot) + seq![kind_tag(f@.kind)] + u32_le(f@.index) + u32_le(
            f@.total,
        ) + enc_bytes(f@.payload) + enc_bytes(f@.signature));
    }
    match &f.merkle {
        None => {
            out.push(0);
            proof {
                assert(out@ =~= head + enc_merkle(f@.merkle));
                assert(out@ =~= encode_fragment_spec(f@));
            }
        },
        Some(m) => {
            out.push(1);
            append_len_bytes(&mut out, &m.root);
            append_bytes(&mut out, &u32_le_bytes(m.proof.len() as u32));
            let ghost mid: Seq<u8> = out@;
            let ghost pv: Seq<Seq<u8>> = m.proof@.map_values(|v: Vec<u8>| v@);
            let mut i: usize = 0;
            proof {
                assert(enc_proof(pv.subrange(0, 0)) =~= Seq::<u8>::empty());
                assert(out@ =~= mid + enc_proof(pv.subrange(0, 0)));
            }
            while i < m.proof.len()
                invariant
                    i <= m.proof.len(),
                    pv == m.proof@.map_values(|v: Vec<u8>| v@),
                    pv.len() == m.proof@.len(),
                    forall|j: int| 0 <= j < pv.len() ==> (#[trigger] pv[j]).len() <= 0xffffffff,
                    out@ =~= mid + enc_proof(pv.subrange(0, i as int)),
                decreases m.proof.len() - i,
            {
                proof {
                    assert(pv[i as int] == m.proof@[i as int]@);
                }
                append_len_bytes(&mut out, &m.proof[i]);
                proof {
                    assert(pv.subrange(0, i as int + 1).drop_last() =~= pv.subrange(0, i as int));
                    assert(pv.subrange(0, i as int + 1).last() == pv[i as int]);
                    assert(out@ =~= mid + enc_proof(pv.subrange(0, i as int + 1)));
                }
                i = i + 1;
            }
            proof {
                assert(pv.subrange(0, pv.len() as int) =~= pv);
                let mv = f@.merkle.unwrap();
                assert(mv.proof == pv);
                assert(out@ =~= head + enc_merkle(f@.merkle));
                assert(out@ =~= encode_fragment_spec(f@));
            }
        },
    }
    out
}

/// Where each field of a fragment stands inside its serialized form.
proof fn lemma_encoding_layout(f: FragmentView)
    ensures
        encode_fragment_spec(f).len() == 25 + f.payload.len() + f.signature.len() + enc_merkle(
            f.merkle,
        ).len(),
        encode_fragment_spec(f).subrange(0, 8) == u64_le(f.slot),
        encode_fragment_spec(f)[8] == kind_tag(f.kind),
        encode_fragment_spec(f).subrange(9, 13) == u32_le(f.index),
        encode_fragment_spec(f).subrange(13, 17) == u32_le(f.total),
        encode_fragment_spec(f).subrange(17, 21) == u32_le(f.payload.len() as u32),
        encode_fragment_spec(f).subrange(21, 21 + f.payload.len() as int) == f.payload,
        encode_fragment_spec(f).subrange(
            21 + f.payload.len() as int,
            25 + f.payload.len() as int,
        ) == u32_le(f.signature.len() as u32),
        encode_fragment_spec(f).subrange(
            25 + f.payload.len() as int,
            25 + f.payload.len() + f.signature.len() as int,
        ) == f.signature,
        encode_fragment_spec(f).subrange(
            25 + f.payload.len() + f.signature.len() as int,
            encode_fragment_spec(f).len() as int,
        ) == enc_merkle(f.merkle),
{
    let e = encode_fragment_spec(f);
    let pl = f.payload.len() as int;
    let m0 = 25 + pl + f.signature.len() as int;
    assert(e.subrange(0, e.len() as int) =~= e);
    lemma_split_range(
        e,
        0,
        e.len() as int,
        u64_le(f.slot) + seq![kind_tag(f.kind)] + u32_le(f.index) + u32_le(f.total) + enc_bytes(
            f.payload,
        ) + enc_bytes(f.signature),
        enc_merkle(f.merkle),
    );
    lemma_split_range(
        e,
        0,
        m0,
        u64_le(f.slot) + seq![kind_tag(f.kind)] + u32_le(f.index) + u32_le(f.total) + enc_bytes(
            f.payload,
        ),
        enc_bytes(f.signature),
    );
    lemma_split_range(
        e,
        0,
        21 + pl,
        u64_le(f.slot) + seq![kind_tag(f.kind)] + u32_le(f.index) + u32_le(f.total),
        enc_bytes(f.payload),
    );
    lemma_split_range(
        e,
        0,
        17,
        u64_le(f.slot) + seq![kind_tag(f.kind)] + u32_le(f.index),
        u32_le(f.total),
    );
    lemma_split_range(e, 0, 13, u64_le(f.slot) + seq![kind_tag(f.kind)], u32_le(f.index));
    lemma_split_range(e, 0, 9, u64_le(f.slot), seq![kind_tag(f.kind)]);
    lemma_split_range(e, 17, 21 + pl, u32_le(f.payload.len() as u32), f.payload);
    lemma_split_range(e, 21 + pl, m0, u32_le(f.signature.len() as u32), f.signature);
    assert(e[8] == e.subrange(8, 9)[0]);
}

/// Reads a fragment back from its storage byte form.  The archive's values
/// are exactly the records `encode_fragment` writes, and this function is
/// specified on those records: handed the serialized form of a fragment, it
/// returns a fragment with the same mathematical value, so decoding inverts
/// encoding.
#[verifier::rlimit(50)]
pub fn decode_fragment(bytes: &Vec<u8>) -> (r: Fragment)
    requires
        exists|fv: FragmentView| bounded(fv) && encode_fragment_spec(fv) == bytes@,
    ensures
        bounded(r@),
        encode_fragment_spec(r@) == bytes@,
        forall|fv: FragmentView|
            bounded(fv) && encode_fragment_spec(fv) == bytes@ ==> r@ == fv,
{
    let ghost fv = choose|fv: FragmentView|
        bounded(fv) && encode_fragment_spec(fv) == bytes@;
    let ghost e = bytes@;
    let ghost pl = fv.payload.len() as int;
    let ghost sl = fv.signature.len() as int;
    let ghost m0 = 25 + pl + sl;
    let n = bytes.len();
    proof {
        lemma_encoding_layout(fv);
        assert(enc_merkle(fv.merkle).len() >= 1);
        assert(m0 + 1 <= n);
    }
    let slot = read_u64_le(bytes, 0);
    proof {
        lemma_u64_le_injective(slot, fv.slot);
    }
    let tag = bytes[8];
    let kind = if tag == DATA_KIND_TAG {
        FragmentKind::Data
    } else {
        FragmentKind::Coding
    };
    proof {
        assert(kind == fv.kind);
    }
    let index = read_u32_le(bytes, 9);
    let total = read_u32_le(bytes, 13);
    proof {
        lemma_u32_le_injective(index, fv.index);
        lemma_u32_le_injective(total, fv.total);
    }
    let payload_len = read_u32_le(bytes, 17) as usize;
    proof {
        lemma_u32_le_injective(payload_len as u32, fv.payload.len() as u32);
        assert(payload_len == pl);
    }
    let payload = take_bytes(bytes, 21, payload_len);
    let sig_pos = 21 + payload_len;
    let sig_len = read_u32_le(bytes, sig_pos) as usize;
    proof {
        lemma_u32_le_injective(sig_len as u32, fv.signature.len() as u32);
        assert(sig_len == sl);
    }
    let signature = take_bytes(bytes, sig_pos + 4, sig_len);
    let merkle_pos = sig_pos + 4 + sig_len;
    let merkle = if bytes[merkle_pos] == 0 {
        proof {
            assert(fv.merkle is None);
        }
        None
    } else {
        proof {
            assert(fv.merkle is Some);
        }
        Some(decode_merkle_section(bytes, merkle_pos, Ghost(fv.merkle.unwrap())))
    };
    let g = Fragment { slot, kind, index, total, payload, signature, merkle };
    proof {
        assert(g@ == fv);
        assert forall|other: FragmentView|
            bounded(other) && encode_fragment_spec(other) == bytes@ implies g@ == other by {
            lemma_encoding_unique(fv, other);
        }
    }
    g
}

/// Reads the Merkle section standing at `start`, known to be the serialized
/// form of `mv`.
fn decode_merkle_section(bytes: &Vec<u8>, start: usize, Ghost(mv): Ghost<MerkleSectionView>) -> (r:
    MerkleSection)
    requires
        start <= bytes@.len(),
        bytes@.subrange(start as int, bytes@.len() as int) == enc_merkle(Some(mv)),
        mv.root.len() <= 0xffffffff,
        mv.proof.len() <= 0xffffffff,
        forall|k: int| 0 <= k < mv.proof.len() ==> (#[trigger] mv.proof[k]).len() <= 0xffffffff,
    ensures
        r@ == mv,
{
    let ghost e = bytes@;
    let ghost rl = mv.root.len() as int;
    let ghost pv = mv.proof;
    let n = bytes.len();
    proof {
        lemma_split_range(
            e,
            start as int,
            e.len() as int,
            seq![1u8] + enc_bytes(mv.root) + u32_le(mv.proof.len() as u32),
            enc_proof(pv),
        );
        lemma_split_range(
            e,
            start as int,
            start as int + 9 + rl,
            seq![1u8] + enc_bytes(mv.root),
            u32_le(mv.proof.len() as u32),
        );
        lemma_split_range(e, start as int, start as int + 5 + rl, seq![1u8], enc_bytes(mv.root));
        lemma_split_range(
            e,
            start as int + 1,
            start as int + 5 + rl,
            u32_le(mv.root.len() as u32),
            mv.root,
        );
        assert(start as int + 9 + rl <= n as int);
    }
    let root_len = read_u32_le(bytes, start + 1) as usize;
    proof {
        lemma_u32_le_injective(root_len as u32, mv.root.len() as u32);
        assert(root_len == rl);
    }
    let root = take_bytes(bytes, start + 5, root_len);
    let count_pos = start + 5 + root_len;
    let count = read_u32_le(bytes, count_pos) as usize;
    proof {
        lemma_u32_le_injective(count as u32, mv.proof.len() as u32);
        assert(count == pv.len());
    }
    let mut proof_path: Vec<Vec<u8>> = Vec::new();
    let mut pos = count_pos + 4;
    let mut i: usize = 0;
    proof {
        assert(pv.skip(0) =~= pv);
    }
    while i < count
        invariant
            i <= count,
            count == pv.len(),
            e == bytes@,
            n == e.len(),
            pos <= n,
            e.subrange(pos as int, e.len() as int) == enc_proof(pv.skip(i as int)),
            forall|k: int| 0 <= k < pv.len() ==> (#[trigger] pv[k]).len() <= 0xffffffff,
            proof_path@.len() == i,
            forall|k: int| 0 <= k < i ==> (#[trigger] proof_path@[k])@ == pv[k],
        decreases count - i,
    {
        proof {
            assert(pv.skip(i as int).len() > 0);
            lemma_enc_proof_first(pv.skip(i as int));
            assert(pv.skip(i as int).first() == pv[i as int]);
            assert(pv.skip(i as int).drop_first() =~= pv.skip(i as int + 1));
            lemma_split_range(
                e,
                pos as int,
                e.len() as int,
                enc_bytes(pv[i as int]),
                enc_proof(pv.skip(i as int + 1)),
            );
            lemma_split_range(
                e,
                pos as int,
                pos as int + 4 + pv[i as int].len() as int,
                u32_le(pv[i as int].len() as u32),
                pv[i as int],
            );
        }
        let elem_len = read_u32_le(bytes, pos) as usize;
        proof {
            lemma_u32_le_injective(elem_len as u32, pv[i as int].len() as u32);
            assert(elem_len == pv[i as int].len());
        }
        let elem = take_bytes(bytes, pos + 4, elem_len);
        proof_path.push(elem);
        pos = pos + 4 + elem_len;
        i = i + 1;
    }
    proof {
        assert(proof_path@.map_values(|v: Vec<u8>| v@) =~= pv);
    }
    MerkleSection { proof: proof_path, root }
}

/// One byte form serializes one fragment: two fragments with the same
/// serialized form are the same value.
proof fn lemma_encoding_unique(a: FragmentView, b: FragmentView)
    requires
        bounded(a),
        bounded(b),
        encode_fragment_spec(a) == encode_fragment_spec(b),
    ensures
        a == b,
{
    lemma_encoding_layout(a);
    lemma_encoding_layout(b);
    lemma_u64_le_injective(a.slot, b.slot);
    assert(a.kind == b.kind);
    lemma_u32_le_injective(a.index, b.index);
    lemma_u32_le_injective(a.total, b.total);
    lemma_u32_le_injective(a.payload.len() as u32, b.payload.len() as u32);
    assert(a.payload == b.payload);
    lemma_u32_le_injective(a.signature.len() as u32, b.signature.len() as u32);
    assert(a.signature == b.signature);
    lemma_enc_merkle_unique(a.merkle, b.merkle);
}

/// One byte form serializes one Merkle section.
proof fn lemma_enc_merkle_unique(a: Option<MerkleSectionView>, b: Option<MerkleSectionView>)
    requires
        enc_merkle(a) == enc_merkle(b),
        (a matches Some(x) ==> x.root.len() <= 0xffffffff && x.proof.len() <= 0xffffffff && (
        forall|k: int| 0 <= k < x.proof.len() ==> (#[trigger] x.proof[k]).len() <= 0xffffffff)),
        (b matches Some(x) ==> x.root.len() <= 0xffffffff && x.proof.len() <= 0xffffffff && (
        forall|k: int| 0 <= k < x.proof.len() ==> (#[trigger] x.proof[k]).len() <= 0xffffffff)),
    ensures
        a == b,
{
    let e = enc_merkle(a);
    match (a, b) {
        (None, None) => {},
        (Some(x), Some(y)) => {
            let xrl = x.root.len() as int;
            let yrl = y.root.len() as int;
            assert(e.subrange(1, 5) =~= u32_le(x.root.len() as u32));
            assert(e.subrange(1, 5) =~= u32_le(y.root.len() as u32));
            lemma_u32_le_injective(x.root.len() as u32, y.root.len() as u32);
            assert(xrl == yrl);
            assert(e.subrange(5, 5 + xrl) =~= x.root);
            assert(e.subrange(5, 5 + yrl) =~= y.root);
            assert(e.subrange(5 + xrl, 9 + xrl) =~= u32_le(x.proof.len() as u32));
            assert(e.subrange(5 + yrl, 9 + yrl) =~= u32_le(y.proof.len() as u32));
            lemma_u32_le_injective(x.proof.len() as u32, y.proof.len() as u32);
            assert(e.subrange(9 + xrl, e.len() as int) =~= enc_proof(x.proof));
            assert(e.subrange(9 + yrl, e.len() as int) =~= enc_proof(y.proof));
            lemma_enc_proof_unique(x.proof, y.proof);
            assert(x == y);
        },
        (None, Some(y)) => {
            assert(e[0] == 0 && e[0] == 1);
        },
        (Some(x), None) => {
            assert(e[0] == 1 && e[0] == 0);
        },
    }
}

/// One byte form serializes one proof path of a given element count.
proof fn lemma_enc_proof_unique(a: Seq<Seq<u8>>, b: Seq<Seq<u8>>)
    requires
        a.len() == b.len(),
        enc_proof(a) == enc_proof(b),
        forall|k: int| 0 <= k < a.len() ==> (#[trigger] a[k]).len() <= 0xffffffff,
        forall|k: int| 0 <= k < b.len() ==> (#[trigger] b[k]).len() <= 0xffffffff,
    ensures
        a == b,
    decreases a.len(),
{
    if a.len() > 0 {
        lemma_enc_proof_first(a);
        lemma_enc_proof_first(b);
        let e = enc_proof(a);
        assert(e.subrange(0, 4) =~= u32_le(a.first().len() as u32));
        assert(e.subrange(0, 4) =~= u32_le(b.first().len() as u32));
        lemma_u32_le_injective(a.first().len() as u32, b.first().len() as u32);
        let al = a.first().len() as int;
        assert(e.subrange(4, 4 + al) =~= a.first());
        assert(e.subrange(4, 4 + al) =~= b.first());
        assert(a.first() == b.first());
        assert(e.subrange(4 + al, e.len() as int) =~= enc_proof(a.drop_first()));
        assert(e.subrange(4 + al, e.len() as int) =~= enc_proof(b.drop_first()));
        lemma_enc_proof_unique(a.drop_first(), b.drop_first());
        assert forall|k: int| 0 <= k < a.len() implies a[k] == b[k] by {
            if k > 0 {
                assert(a.drop_first()[k - 1] == a[k]);
                assert(b.drop_first()[k - 1] == b[k]);
            }
        }
        assert(a =~= b);
    } else {
        assert(a =~= b);
    }
}

/// One stored record of the archive.
struct ArchiveEntry {
    key: Vec<u8>,
    value: Vec<u8>,
}

/// The observable state of a list of records, later writes winning.
spec fn store_map(entries: Seq<ArchiveEntry>) -> Map<Seq<u8>, Seq<u8>>
    decreases entries.len(),
{
    if entries.len() == 0 {
        Map::empty()
    } else {
        store_map(entries.drop_last()).insert(entries.last().key@, entries.last().value@)
    }
}

/// The archived-fragments namespace: one value per key, upsert on rewrite.
pub struct Archive {
    entries: Vec<ArchiveEntry>,
}

impl View for Archive {
    type V = Map<Seq<u8>, Seq<u8>>;

    closed spec fn view(&self) -> Map<Seq<u8>, Seq<u8>> {
        store_map(self.entries@)
    }
}

/// No two records of a well-formed archive share a key.
spec fn entries_unique(entries: Seq<ArchiveEntry>) -> bool {
    forall|i: int, j: int|
        0 <= i < j < entries.len() ==> (#[trigger] entries[i]).key@ != (#[trigger] entries[j]).key@
}

/// A record list with a key at `i` maps that key to the latest value under
/// it — with unique keys, the value at `i`.
proof fn lemma_store_found(entries: Seq<ArchiveEntry>, i: int)
    requires
        entries_unique(entries),
        0 <= i < entries.len(),
    ensures
        store_map(entries).dom().contains(entries[i].key@),
        store_map(entries)[entries[i].key@] == entries[i].value@,
    decreases entries.len(),
{
    if i < entries.len() - 1 {
        lemma_store_found(entries.drop_last(), i);
    }
}

/// A key no record holds is outside the store's domain.
proof fn lemma_store_absent(entries: Seq<ArchiveEntry>, k: Seq<u8>)
    requires
        forall|j: int| 0 <= j < entries.len() ==> (#[trigger] entries[j]).key@ != k,
    ensures
        !store_map(entries).dom().contains(k),
    decreases entries.len(),
{
    if entries.len() > 0 {
        lemma_store_absent(entries.drop_last(), k);
    }
}

/// Replacing the record that holds a key acts on the observable state as
/// inserting the new value under that key.
proof fn lemma_store_update(entries: Seq<ArchiveEntry>, i: int, e: ArchiveEntry)
    requires
        entries_unique(entries),
        0 <= i < entries.len(),
        entries[i].key@ == e.key@,
    ensures
        store_map(entries.update(i, e)) == store_map(entries).insert(e.key@, e.value@),
    decreases entries.len(),
{
    let updated = entries.update(i, e);
    if i == entries.len() - 1 {
        assert(updated.drop_last() =~= entries.drop_last());
        assert(store_map(updated) =~= store_map(entries).insert(e.key@, e.value@));
    } else {
        assert(updated.drop_last() =~= entries.drop_last().update(i, e));
        lemma_store_update(entries.drop_last(), i, e);
        assert(entries.last().key@ != e.key@);
        assert(store_map(updated) =~= store_map(entries).insert(e.key@, e.value@));
    }
}

impl Archive {
    /// Every archive this module hands out satisfies this; methods keep it.
    pub closed spec fn wf(&self) -> bool {
        entries_unique(self.entries@)
    }

    /// An empty archive.
    pub fn new() -> (r: Archive)
        ensures
            r.wf(),
            r@ == Map::<Seq<u8>, Seq<u8>>::empty(),
    {
        Archive { entries: Vec::new() }
    }

    /// Upserts a record: the store afterwards holds `value` under `key` and
    /// is otherwise unchanged.  Rewriting a key raises no error and leaves
    /// no second record.
    pub fn put(&mut self, key: Vec<u8>, value: Vec<u8>)
        requires
            old(self).wf(),
        ensures
            final(self).wf(),
            final(self)@ == old(self)@.insert(key@, value@),
    {
        let n = self.entries.len();
        let mut i: usize = 0;
        while i < n
            invariant
                n == self.entries@.len(),
                i <= n,
                self == old(self),
                self.wf(),
                forall|j: int| 0 <= j < i ==> (#[trigger] self.entries@[j]).key@ != key@,
            decreases n - i,
        {
            if bytes_eq(&self.entries[i].key, &key) {
                let ghost pre = self.entries@;
                proof {
                    lemma_store_update(pre, i as int, ArchiveEntry { key: key, value: value });
                }
                self.entries.set(i, ArchiveEntry { key, value });
                proof {
                    assert forall|a: int, b: int|
                        0 <= a < b < self.entries@.len() implies (
                    #[trigger] self.entries@[a]).key@ != (#[trigger] self.entries@[b]).key@ by {
                        assert(pre[a].key@ != pre[b].key@);
                        if a != i {
                            assert(self.entries@[a] == pre[a]);
                        }
                        if b != i {
                            assert(self.entries@[b] == pre[b]);
                        }
                    }
                }
                return ;
            }
            i = i + 1;
        }
        proof {
            assert(store_map(self.entries@.push(ArchiveEntry { key: key, value: value }))
                =~= store_map(self.entries@).insert(key@, value@)) by {
                assert(self.entries@.push(ArchiveEntry { key: key, value: value }).drop_last()
                    =~= self.entries@);
            }
        }
        self.entries.push(ArchiveEntry { key, value });
    }

    /// Looks a key up: the stored value when the key is in the store's
    /// domain, nothing otherwise.
    pub fn get(&self, key: &Vec<u8>) -> (r: Option<&Vec<u8>>)
        requires
            self.wf(),
        ensures
            match r {
                Some(v) => self@.dom().contains(key@) && self@[key@] == v@,
                None => !self@.dom().contains(key@),
            },
    {
        let n = self.entries.len();
        let mut i: usize = 0;
        while i < n
            invariant
                n == self.entries@.len(),
                i <= n,
                self.wf(),
                forall|j: int| 0 <= j < i ==> (#[trigger] self.entries@[j]).key@ != key@,
            decreases n - i,
        {
            if bytes_eq(&self.entries[i].key, key) {
                proof {
                    lemma_store_found(self.entries@, i as int);
                }
                return Some(&self.entries[i].value);
            }
            i = i + 1;
        }
        proof {
            lemma_store_absent(self.entries@, key@);
        }
        None
    }

}

/// Archive idempotence: writing one record twice, with identical content,
/// leaves the store in the state that writing it once leaves.
pub proof fn lemma_archive_idempotent(m: Map<Seq<u8>, Seq<u8>>, k: Seq<u8>, v: Seq<u8>)
    ensures
        m.insert(k, v).insert(k, v) == m.insert(k, v),
{
    assert(m.insert(k, v).insert(k, v) =~= m.insert(k, v));
}

/// Archives one verified fragment: the store afterwards holds the
/// fragment's serialized form under the digest of its identity, and is
/// otherwise unchanged.
pub fn archive_fragment(archive: &mut Archive, f: &Fragment)
    requires
        old(archive).wf(),
        bounded(f@),
    ensures
        final(archive).wf(),
        final(archive)@ == old(archive)@.insert(
            archive_key(f@.slot, f@.kind, f@.index),
            encode_fragment_spec(f@),
        ),
{
    let key = derive_archive_key(f.slot, f.kind, f.index);
    let value = encode_fragment(f);
    archive.put(key, value);
}

} // verus!
