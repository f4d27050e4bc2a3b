use solana_sdk::signer::keypair::Keypair;
use solana_sdk::signer::Signer;
use tinydancer::archiver::archive_fragment;
use tinydancer::archiver::derive_archive_key;
use tinydancer::archiver::Archive;
use tinydancer::fragment::Fragment;
use tinydancer::fragment::FragmentKind;
use tinydancer::fragment::MerkleSection;
use tinydancer::fragment::RpcShred;
use tinydancer::fragment::WireFragment;
use tinydancer::merkle::merkle_root_of;
use tinydancer::sampler::plan_slot;
use tinydancer::sampler::reconcile_fetch;
use tinydancer::sampler::GetShredResponse;
use tinydancer::sampler::GetShredResult;
use tinydancer::sampler::SlotPlan;
use tinydancer::verify::verify_batch;

const SLOT: u64 = 12345;
const TOTAL: u32 = 50;
const SAMPLE_QTY: usize = 10;

/// A wire fragment whose proof resolves to its root and whose signature
/// signs that root.
fn signed_wire_fragment(keypair: &Keypair, index: u32) -> WireFragment {
    let payload = vec![index as u8, 1, 2];
    let proof: Vec<Vec<u8>> = Vec::new();
    let root = merkle_root_of(&payload, index, &proof);
    let signature = keypair.sign_message(&root).as_ref().to_vec();
    WireFragment {
        slot: SLOT,
        index,
        total: TOTAL,
        payload,
        signature,
        merkle: Some(MerkleSection { proof, root }),
    }
}

fn data_shred(keypair: &Keypair, index: u32) -> RpcShred {
    RpcShred { shred_data: Some(signed_wire_fragment(keypair, index)), shred_code: None }
}

/// One whole slot cycle over fabricated responses: probe, plan, fetch,
/// reconcile, verify, archive — every sampled fragment with a valid
/// signature and proof ends under its identity's digest.
#[test]
fn sampled_slot_ends_archived_under_identity_keys() {
    let keypair = Keypair::new();
    let leader_bytes = keypair.pubkey().to_bytes().to_vec();

    // Probe response: one leading entry, then the entry of requested index 0.
    let probe = vec![None, Some(data_shred(&keypair, 0))];
    let indices = match plan_slot(Some(&probe), SAMPLE_QTY) {
        SlotPlan::Fetch(indices) => indices,
        SlotPlan::Abandon(_) => panic!("a usable probe must yield a fetch plan"),
    };
    assert_eq!(indices.len(), SAMPLE_QTY + 1);
    assert_eq!(*indices.last().unwrap(), 0);
    assert!(indices.iter().all(|&i| i < TOTAL as usize));

    // Fetch response: one leading entry, then one entry per requested index.
    let mut shreds: Vec<Option<RpcShred>> = vec![None];
    for &index in &indices {
        shreds.push(Some(data_shred(&keypair, index as u32)));
    }
    let response = GetShredResponse {
        jsonrpc: String::from("2.0"),
        result: GetShredResult { leader: keypair.pubkey().to_string(), shreds },
        id: 1,
    };

    let batch = reconcile_fetch(&indices, Some(&response))
        .expect("a well-formed response must reconcile");
    assert_eq!(batch.leader, leader_bytes);
    assert!(batch.fulfilled <= indices.len());

    let verified: Vec<Fragment> = verify_batch(&batch.fragments, &batch.leader);
    // Every fetched fragment carries a valid signature and proof, so every
    // distinct fetched index survives verification.
    let mut distinct = indices.clone();
    distinct.sort();
    distinct.dedup();
    assert!(verified.len() >= distinct.len());

    let mut archive = Archive::new();
    for fragment in &verified {
        archive_fragment(&mut archive, fragment);
    }
    for &index in &indices {
        let key = derive_archive_key(SLOT, FragmentKind::Data, index as u32);
        assert!(archive.get(&key).is_some());
    }
}

/// A malformed probe abandons the slot before anything is fetched, verified
/// or archived, and nothing panics.
#[test]
fn ambiguous_probe_writes_nothing() {
    let keypair = Keypair::new();
    let both = RpcShred {
        shred_data: Some(signed_wire_fragment(&keypair, 0)),
        shred_code: Some(signed_wire_fragment(&keypair, 0)),
    };
    let probe = vec![None, Some(both)];
    let archive = Archive::new();
    match plan_slot(Some(&probe), SAMPLE_QTY) {
        SlotPlan::Fetch(_) => panic!("an ambiguous probe must abandon the slot"),
        SlotPlan::Abandon(_) => {}
    }
    // The slot was abandoned before any fetch, so the archive saw no write.
    let key = derive_archive_key(SLOT, FragmentKind::Data, 0);
    assert!(archive.get(&key).is_none());
}
