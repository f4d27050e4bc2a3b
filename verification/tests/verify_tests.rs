use solana_sdk::signer::keypair::Keypair;
use solana_sdk::signer::Signer;
use tinydancer::fragment::Fragment;
use tinydancer::fragment::FragmentKind;
use tinydancer::fragment::MerkleSection;
use tinydancer::merkle::merkle_root_of;
use tinydancer::verify::all_samples_verified;
use tinydancer::verify::verify_batch;
use tinydancer::verify::verify_sample;

/// A fragment whose proof path really resolves to its claimed root and whose
/// signature really signs that root.
fn valid_fragment(keypair: &Keypair, slot: u64, index: u32, payload: Vec<u8>) -> Fragment {
    let proof: Vec<Vec<u8>> = Vec::new();
    let root = merkle_root_of(&payload, index, &proof);
    let signature = keypair.sign_message(&root).as_ref().to_vec();
    Fragment {
        slot,
        kind: FragmentKind::Data,
        index,
        total: 50,
        payload,
        signature,
        merkle: Some(MerkleSection { proof, root }),
    }
}

#[test]
fn valid_signature_and_proof_pass() {
    let keypair = Keypair::new();
    let leader = keypair.pubkey().to_bytes().to_vec();
    let fragment = valid_fragment(&keypair, 12345, 7, vec![1, 2, 3]);
    assert!(verify_sample(&fragment, &leader));
}

#[test]
fn deeper_proof_paths_pass_on_both_sides() {
    let keypair = Keypair::new();
    let leader = keypair.pubkey().to_bytes().to_vec();
    let left_payload = vec![1, 2, 3];
    let right_payload = vec![4, 5, 6];
    let empty: Vec<Vec<u8>> = Vec::new();
    // A leaf's digest is the root of an empty proof path.
    let left_leaf = merkle_root_of(&left_payload, 0, &empty);
    let right_leaf = merkle_root_of(&right_payload, 1, &empty);

    let root_from_left = merkle_root_of(&left_payload, 0, &vec![right_leaf.clone()]);
    let root_from_right = merkle_root_of(&right_payload, 1, &vec![left_leaf.clone()]);
    assert_eq!(root_from_left, root_from_right);

    let signature = keypair.sign_message(&root_from_left).as_ref().to_vec();
    let left_fragment = Fragment {
        slot: 1,
        kind: FragmentKind::Data,
        index: 0,
        total: 2,
        payload: left_payload,
        signature: signature.clone(),
        merkle: Some(MerkleSection { proof: vec![right_leaf], root: root_from_left.clone() }),
    };
    let right_fragment = Fragment {
        slot: 1,
        kind: FragmentKind::Data,
        index: 1,
        total: 2,
        payload: right_payload,
        signature,
        merkle: Some(MerkleSection { proof: vec![left_leaf], root: root_from_right }),
    };
    assert!(verify_sample(&left_fragment, &leader));
    assert!(verify_sample(&right_fragment, &leader));
}

#[test]
fn fragment_without_proof_is_rejected() {
    let keypair = Keypair::new();
    let leader = keypair.pubkey().to_bytes().to_vec();
    let mut fragment = valid_fragment(&keypair, 12345, 7, vec![1, 2, 3]);
    // Clearing the proof section must reject the fragment, whatever its
    // signature says.
    fragment.merkle = None;
    assert!(!verify_sample(&fragment, &leader));
}

#[test]
fn flipping_any_signature_byte_rejects() {
    let keypair = Keypair::new();
    let leader = keypair.pubkey().to_bytes().to_vec();
    let fragment = valid_fragment(&keypair, 12345, 7, vec![1, 2, 3]);
    for position in 0..fragment.signature.len() {
        let mut mutated = fragment.clone_fragment();
        mutated.signature[position] ^= 0x01;
        assert!(!verify_sample(&mutated, &leader));
    }
}

#[test]
fn flipping_a_proof_byte_rejects() {
    let keypair = Keypair::new();
    let leader = keypair.pubkey().to_bytes().to_vec();
    let payload = vec![1, 2, 3];
    let empty: Vec<Vec<u8>> = Vec::new();
    let sibling = merkle_root_of(&vec![9, 9, 9], 1, &empty);
    let root = merkle_root_of(&payload, 0, &vec![sibling.clone()]);
    let signature = keypair.sign_message(&root).as_ref().to_vec();
    let fragment = Fragment {
        slot: 5,
        kind: FragmentKind::Coding,
        index: 0,
        total: 2,
        payload,
        signature,
        merkle: Some(MerkleSection { proof: vec![sibling], root }),
    };
    assert!(verify_sample(&fragment, &leader));

    let mut mutated = fragment.clone_fragment();
    if let Some(section) = &mut mutated.merkle {
        section.proof[0][0] ^= 0x01;
    }
    assert!(!verify_sample(&mutated, &leader));

    let mut mutated_root = fragment.clone_fragment();
    if let Some(section) = &mut mutated_root.merkle {
        section.root[0] ^= 0x01;
    }
    assert!(!verify_sample(&mutated_root, &leader));
}

#[test]
fn wrong_producer_identity_rejects() {
    let keypair = Keypair::new();
    let other = Keypair::new().pubkey().to_bytes().to_vec();
    let fragment = valid_fragment(&keypair, 12345, 7, vec![1, 2, 3]);
    assert!(!verify_sample(&fragment, &other));
}

#[test]
fn batch_keeps_exactly_the_verified_fragments() {
    let keypair = Keypair::new();
    let leader = keypair.pubkey().to_bytes().to_vec();
    let good_a = valid_fragment(&keypair, 12345, 1, vec![1]);
    let good_b = valid_fragment(&keypair, 12345, 2, vec![2]);
    let mut bad = valid_fragment(&keypair, 12345, 3, vec![3]);
    bad.signature[0] ^= 0x01;

    let batch = vec![Some(good_a), None, Some(bad), Some(good_b)];
    let verified = verify_batch(&batch, &leader);
    assert_eq!(verified.len(), 2);
    assert_eq!(verified[0].index, 1);
    assert_eq!(verified[1].index, 2);
}

#[test]
fn one_failure_makes_the_whole_sample_fail() {
    let keypair = Keypair::new();
    let leader = keypair.pubkey().to_bytes().to_vec();
    let good = valid_fragment(&keypair, 12345, 1, vec![1]);
    let mut bad = valid_fragment(&keypair, 12345, 2, vec![2]);
    bad.signature[0] ^= 0x01;

    let all_good = vec![Some(good.clone_fragment()), None];
    assert!(all_samples_verified(&all_good, &leader));

    let with_bad = vec![Some(good), Some(bad)];
    assert!(!all_samples_verified(&with_bad, &leader));
}
