use solana_sdk::signer::keypair::Keypair;
use solana_sdk::signer::Signer;
use tinydancer::fragment::FragmentKind;
use tinydancer::fragment::RpcShred;
use tinydancer::fragment::WireFragment;
use tinydancer::sampler::classify_probe;
use tinydancer::sampler::gen_random_indices;
use tinydancer::sampler::plan_slot;
use tinydancer::sampler::reconcile_fetch;
use tinydancer::sampler::sample_indices_with_probe;
use tinydancer::sampler::AbandonReason;
use tinydancer::sampler::GetShredResponse;
use tinydancer::sampler::GetShredResult;
use tinydancer::sampler::SlotPlan;

fn wire_fragment(slot: u64, index: u32, total: u32, payload: Vec<u8>) -> WireFragment {
    WireFragment {
        slot,
        index,
        total,
        payload,
        signature: vec![0u8; 64],
        merkle: None,
    }
}

fn data_shred(slot: u64, index: u32, total: u32, payload: Vec<u8>) -> RpcShred {
    RpcShred {
        shred_data: Some(wire_fragment(slot, index, total, payload)),
        shred_code: None,
    }
}

#[test]
fn random_indices_have_requested_length_and_range() {
    let indices = gen_random_indices(10, 10);
    assert_eq!(indices.len(), 10);
    assert!(indices.iter().all(|&i| i < 10));
}

#[test]
fn sample_always_includes_probe_index() {
    let indices = sample_indices_with_probe(50, 10);
    assert_eq!(indices.len(), 11);
    assert_eq!(*indices.last().unwrap(), 0);
    assert!(indices.iter().all(|&i| i < 50));
}

#[test]
fn duplicate_indices_survive_the_draw() {
    // Sampling is with replacement, and the probe index is appended even
    // when it was already drawn: with one fragment in the slot, the request
    // set is exactly [0, 0].
    let indices = sample_indices_with_probe(1, 1);
    assert_eq!(indices, vec![0, 0]);
}

#[test]
fn probe_classifies_data_kind_with_total() {
    let shreds = vec![None, Some(data_shred(12345, 0, 50, vec![1, 2, 3]))];
    assert_eq!(classify_probe(&shreds), Some((FragmentKind::Data, 50)));
}

#[test]
fn probe_classifies_coding_kind_with_total() {
    let shreds = vec![
        None,
        Some(RpcShred {
            shred_data: None,
            shred_code: Some(wire_fragment(7, 0, 32, vec![4])),
        }),
    ];
    assert_eq!(classify_probe(&shreds), Some((FragmentKind::Coding, 32)));
}

#[test]
fn plan_issues_probe_plus_sample_for_usable_slot() {
    let shreds = vec![None, Some(data_shred(12345, 0, 50, vec![1, 2, 3]))];
    match plan_slot(Some(&shreds), 10) {
        SlotPlan::Fetch(indices) => {
            assert_eq!(indices.len(), 11);
            assert_eq!(*indices.last().unwrap(), 0);
            assert!(indices.iter().all(|&i| i < 50));
        }
        SlotPlan::Abandon(_) => panic!("usable probe must yield a fetch plan"),
    }
}

#[test]
fn ambiguous_probe_abandons_slot() {
    let both = RpcShred {
        shred_data: Some(wire_fragment(9, 0, 50, vec![1])),
        shred_code: Some(wire_fragment(9, 0, 50, vec![1])),
    };
    let shreds = vec![None, Some(both)];
    match plan_slot(Some(&shreds), 10) {
        SlotPlan::Abandon(reason) => assert_eq!(reason, AbandonReason::Malformed),
        SlotPlan::Fetch(_) => panic!("an ambiguous probe must abandon the slot"),
    }
}

#[test]
fn empty_probe_union_abandons_slot() {
    let neither = RpcShred { shred_data: None, shred_code: None };
    let shreds = vec![None, Some(neither)];
    assert!(matches!(
        plan_slot(Some(&shreds), 10),
        SlotPlan::Abandon(AbandonReason::Malformed)
    ));
}

#[test]
fn missing_probe_entry_abandons_slot() {
    let shreds: Vec<Option<RpcShred>> = vec![None, None];
    assert!(matches!(
        plan_slot(Some(&shreds), 10),
        SlotPlan::Abandon(AbandonReason::Malformed)
    ));
    let short: Vec<Option<RpcShred>> = vec![None];
    assert!(matches!(
        plan_slot(Some(&short), 10),
        SlotPlan::Abandon(AbandonReason::Malformed)
    ));
}

#[test]
fn failed_probe_call_abandons_slot() {
    assert!(matches!(
        plan_slot(None, 10),
        SlotPlan::Abandon(AbandonReason::TransportError)
    ));
}

#[test]
fn count_equal_to_sample_size_is_usable() {
    let shreds = vec![None, Some(data_shred(12345, 0, 10, vec![1]))];
    match plan_slot(Some(&shreds), 10) {
        SlotPlan::Fetch(indices) => {
            assert_eq!(indices.len(), 11);
            assert!(indices.iter().all(|&i| i < 10));
        }
        SlotPlan::Abandon(_) => panic!("a count equal to the sample size is usable"),
    }
}

#[test]
fn zero_count_abandons_slot() {
    let shreds = vec![None, Some(data_shred(12345, 0, 0, vec![1]))];
    assert!(matches!(
        plan_slot(Some(&shreds), 0),
        SlotPlan::Abandon(AbandonReason::Malformed)
    ));
}

#[test]
fn count_below_sample_size_abandons_slot() {
    let shreds = vec![None, Some(data_shred(12345, 0, 4, vec![1]))];
    assert!(matches!(
        plan_slot(Some(&shreds), 10),
        SlotPlan::Abandon(AbandonReason::Malformed)
    ));
}

fn response_with(leader: String, shreds: Vec<Option<RpcShred>>) -> GetShredResponse {
    GetShredResponse {
        jsonrpc: String::from("2.0"),
        result: GetShredResult { leader, shreds },
        id: 1,
    }
}

#[test]
fn partial_response_lowers_fulfillment_and_flags_degraded() {
    let leader = Keypair::new().pubkey().to_string();
    let requested: Vec<usize> = (0..10).collect();
    // Only six of the ten requested indices come back; the rest are empty.
    let mut shreds: Vec<Option<RpcShred>> = vec![None];
    for index in 0..6u32 {
        shreds.push(Some(data_shred(12345, index, 50, vec![index as u8])));
    }
    for _ in 6..10 {
        shreds.push(None);
    }
    let batch = reconcile_fetch(&requested, Some(&response_with(leader, shreds)))
        .expect("a well-formed response must reconcile");
    assert_eq!(batch.fulfilled, 6);
    assert!(batch.degraded);
    let forwarded = batch.fragments.iter().filter(|f| f.is_some()).count();
    assert_eq!(forwarded, 6);
}

#[test]
fn duplicate_fragments_are_collapsed_before_forwarding() {
    let leader = Keypair::new().pubkey().to_string();
    let requested: Vec<usize> = vec![3, 3, 0];
    let shreds = vec![
        None,
        Some(data_shred(12345, 3, 50, vec![3])),
        Some(data_shred(12345, 3, 50, vec![3])),
        Some(data_shred(12345, 0, 50, vec![0])),
    ];
    let batch = reconcile_fetch(&requested, Some(&response_with(leader, shreds)))
        .expect("a well-formed response must reconcile");
    let forwarded = batch.fragments.iter().filter(|f| f.is_some()).count();
    assert_eq!(forwarded, 2);
    assert_eq!(batch.fulfilled, 2);
    assert!(batch.degraded);
}

#[test]
fn duplicates_at_a_distance_are_dropped() {
    let leader = Keypair::new().pubkey().to_string();
    let requested: Vec<usize> = vec![3, 0, 3];
    // The duplicate of index 3 sits apart from its first occurrence, with
    // another entry in between; it must still be dropped.
    let shreds = vec![
        None,
        Some(data_shred(12345, 3, 50, vec![3])),
        Some(data_shred(12345, 0, 50, vec![0])),
        Some(data_shred(12345, 3, 50, vec![3])),
    ];
    let batch = reconcile_fetch(&requested, Some(&response_with(leader, shreds)))
        .expect("a well-formed response must reconcile");
    let forwarded: Vec<_> = batch.fragments.iter().flatten().collect();
    assert_eq!(forwarded.len(), 2);
    assert_eq!(forwarded[0].index, 3);
    assert_eq!(forwarded[1].index, 0);
    assert_eq!(batch.fulfilled, 2);
    assert!(batch.degraded);
}

#[test]
fn unrequested_fragments_are_kept() {
    let leader = Keypair::new().pubkey().to_string();
    let requested: Vec<usize> = vec![0];
    let shreds = vec![
        None,
        Some(data_shred(12345, 0, 50, vec![0])),
        Some(data_shred(12345, 49, 50, vec![49])),
    ];
    let batch = reconcile_fetch(&requested, Some(&response_with(leader, shreds)))
        .expect("a well-formed response must reconcile");
    let forwarded = batch.fragments.iter().filter(|f| f.is_some()).count();
    assert_eq!(forwarded, 2);
    assert_eq!(batch.fulfilled, 1);
    assert!(!batch.degraded);
}

#[test]
fn failed_fetch_call_abandons_slot() {
    let requested: Vec<usize> = vec![0];
    assert_eq!(
        reconcile_fetch(&requested, None).unwrap_err(),
        AbandonReason::TransportError
    );
}

#[test]
fn undecodable_leader_abandons_slot() {
    let requested: Vec<usize> = vec![0];
    let resp = response_with(String::from("not-a-key"), vec![None]);
    assert_eq!(
        reconcile_fetch(&requested, Some(&resp)).unwrap_err(),
        AbandonReason::Malformed
    );
}

#[test]
fn leader_identity_decodes_to_its_key_bytes() {
    let keypair = Keypair::new();
    let requested: Vec<usize> = vec![];
    let resp = response_with(keypair.pubkey().to_string(), vec![None]);
    let batch = reconcile_fetch(&requested, Some(&resp))
        .expect("a well-formed response must reconcile");
    assert_eq!(batch.leader, keypair.pubkey().to_bytes().to_vec());
}
