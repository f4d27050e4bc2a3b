use tinydancer::archiver::archive_fragment;
use tinydancer::archiver::decode_fragment;
use tinydancer::archiver::derive_archive_key;
use tinydancer::archiver::encode_fragment;
use tinydancer::archiver::Archive;
use tinydancer::fragment::fragment_eq;
use tinydancer::fragment::Fragment;
use tinydancer::fragment::FragmentKind;
use tinydancer::fragment::MerkleSection;

fn fragment(slot: u64, kind: FragmentKind, index: u32, payload: Vec<u8>) -> Fragment {
    Fragment {
        slot,
        kind,
        index,
        total: 50,
        payload,
        signature: vec![7u8; 64],
        merkle: None,
    }
}

#[test]
fn key_is_32_bytes_and_deterministic() {
    let a = derive_archive_key(1963754, FragmentKind::Data, 11);
    let b = derive_archive_key(1963754, FragmentKind::Data, 11);
    assert_eq!(a.len(), 32);
    assert_eq!(a, b);
}

#[test]
fn key_ignores_payload_content() {
    let one = fragment(12345, FragmentKind::Data, 3, vec![1, 2, 3]);
    let other = fragment(12345, FragmentKind::Data, 3, vec![9, 9, 9, 9]);
    assert_eq!(
        derive_archive_key(one.slot, one.kind, one.index),
        derive_archive_key(other.slot, other.kind, other.index)
    );
}

#[test]
fn key_separates_identities() {
    let base = derive_archive_key(12345, FragmentKind::Data, 3);
    assert_ne!(base, derive_archive_key(12346, FragmentKind::Data, 3));
    assert_ne!(base, derive_archive_key(12345, FragmentKind::Coding, 3));
    assert_ne!(base, derive_archive_key(12345, FragmentKind::Data, 4));
}

#[test]
fn writing_twice_equals_writing_once() {
    let f = fragment(12345, FragmentKind::Data, 3, vec![1, 2, 3]);
    let key = derive_archive_key(f.slot, f.kind, f.index);

    let mut once = Archive::new();
    archive_fragment(&mut once, &f);

    let mut twice = Archive::new();
    archive_fragment(&mut twice, &f);
    archive_fragment(&mut twice, &f);

    assert_eq!(once.get(&key), twice.get(&key));
    assert_eq!(twice.get(&key), Some(&encode_fragment(&f)));
}

#[test]
fn rewriting_an_identity_overwrites_its_entry() {
    let first = fragment(12345, FragmentKind::Data, 3, vec![1, 2, 3]);
    let second = fragment(12345, FragmentKind::Data, 3, vec![4, 5, 6]);
    let key = derive_archive_key(12345, FragmentKind::Data, 3);

    let mut archive = Archive::new();
    archive_fragment(&mut archive, &first);
    archive_fragment(&mut archive, &second);
    assert_eq!(archive.get(&key), Some(&encode_fragment(&second)));
}

#[test]
fn extreme_identities_key_cleanly() {
    let a = derive_archive_key(u64::MAX, FragmentKind::Coding, u32::MAX);
    let b = derive_archive_key(u64::MAX, FragmentKind::Coding, u32::MAX);
    assert_eq!(a.len(), 32);
    assert_eq!(a, b);
    assert_ne!(a, derive_archive_key(0, FragmentKind::Data, 0));
}

#[test]
fn missing_key_reads_back_nothing() {
    let archive = Archive::new();
    let key = derive_archive_key(1, FragmentKind::Data, 0);
    assert_eq!(archive.get(&key), None);
}

#[test]
fn decoding_inverts_encoding() {
    let plain = fragment(12345, FragmentKind::Data, 3, vec![1, 2, 3]);
    assert!(fragment_eq(&decode_fragment(&encode_fragment(&plain)), &plain));

    let with_merkle = Fragment {
        slot: 7,
        kind: FragmentKind::Coding,
        index: 9,
        total: 11,
        payload: vec![4, 5],
        signature: vec![6u8; 64],
        merkle: Some(MerkleSection {
            proof: vec![vec![0xaa; 32], vec![0xbb; 32]],
            root: vec![0xcc; 32],
        }),
    };
    assert!(fragment_eq(
        &decode_fragment(&encode_fragment(&with_merkle)),
        &with_merkle
    ));
}

#[test]
fn archived_records_read_back_as_their_fragment() {
    let f = Fragment {
        slot: 1963754,
        kind: FragmentKind::Data,
        index: 11,
        total: 50,
        payload: vec![8, 8, 8],
        signature: vec![1u8; 64],
        merkle: Some(MerkleSection { proof: vec![], root: vec![0xee; 32] }),
    };
    let mut archive = Archive::new();
    archive_fragment(&mut archive, &f);
    let key = derive_archive_key(f.slot, f.kind, f.index);
    // The archive's values are exactly the records encode_fragment writes,
    // so decoding what comes back yields the archived fragment.
    let stored = archive.get(&key).expect("the record was just written");
    assert!(fragment_eq(&decode_fragment(stored), &f));
}

#[test]
fn encoding_is_the_documented_byte_layout() {
    let f = Fragment {
        slot: 1,
        kind: FragmentKind::Data,
        index: 2,
        total: 3,
        payload: vec![9],
        signature: vec![7, 8],
        merkle: None,
    };
    let expected: Vec<u8> = vec![
        1, 0, 0, 0, 0, 0, 0, 0, // slot, little endian
        0xa5, // data-kind tag
        2, 0, 0, 0, // index
        3, 0, 0, 0, // total
        1, 0, 0, 0, 9, // payload behind its length
        2, 0, 0, 0, 7, 8, // signature behind its length
        0, // no Merkle section
    ];
    assert_eq!(encode_fragment(&f), expected);
}

#[test]
fn encoding_covers_the_merkle_section() {
    let f = Fragment {
        slot: 1,
        kind: FragmentKind::Coding,
        index: 0,
        total: 1,
        payload: vec![],
        signature: vec![5],
        merkle: Some(MerkleSection {
            proof: vec![vec![0xaa], vec![0xbb, 0xcc]],
            root: vec![0xdd],
        }),
    };
    let expected: Vec<u8> = vec![
        1, 0, 0, 0, 0, 0, 0, 0, // slot
        0x5a, // coding-kind tag
        0, 0, 0, 0, // index
        1, 0, 0, 0, // total
        0, 0, 0, 0, // empty payload behind its length
        1, 0, 0, 0, 5, // signature behind its length
        1, // Merkle section present
        1, 0, 0, 0, 0xdd, // root behind its length
        2, 0, 0, 0, // proof element count
        1, 0, 0, 0, 0xaa, // first sibling behind its length
        2, 0, 0, 0, 0xbb, 0xcc, // second sibling behind its length
    ];
    assert_eq!(encode_fragment(&f), expected);
}
