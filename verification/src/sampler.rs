//! The sampling and fetch policy.
//!
//! For each slot the pipeline probes fragment index 0 to learn the slot's
//! kind-specific total fragment count, draws a fixed-size random sample of
//! indices (with replacement) from that range, appends index 0 so the probed
//! fragment itself ends up verified, and reconciles the batched fetch
//! response against the request: returned-but-unrequested fragments are kept,
//! requested-but-missing ones lower a fulfillment counter, and every exact
//! duplicate is dropped before the batch goes to the verifier, so that no
//! two equal fragments are ever forwarded.
//!
//! Failures are contained per slot: a transport fault or a malformed
//! response abandons that one slot and nothing else.

use crate::crypto::decode_pubkey;
use crate::crypto::parsed_pubkey;
use crate::crypto::random_index_below;
use crate::fragment::coerce_fragment;
use crate::fragment::fragment_eq;
use crate::fragment::spec_coerce;
use crate::fragment::Fragment;
use crate::fragment::FragmentKind;
use crate::fragment::FragmentView;
use crate::fragment::RpcShred;
use crate::verify::batch_views;
use vstd::prelude::*;

verus! {

/// A batched fragment-fetch response: the slot producer's identity as a
/// base58 string, and one entry per requested index (plus one leading probe
/// entry), each either a fragment record or nothing.
pub struct GetShredResult {
    pub leader: String,
    pub shreds: Vec<Option<RpcShred>>,
}

/// The envelope of a batched fragment-fetch response.
pub struct GetShredResponse {
    pub jsonrpc: String,
    pub result: GetShredResult,
    pub id: i64,
}

/// Why a slot's processing was given up.  Failures never spread past the
/// slot that suffered them.
#[derive(Clone, Copy, Debug, PartialEq, Eq, Structural)]
pub enum AbandonReason {
    /// The probe or fetch call itself failed.
    TransportError,
    /// The response had no usable shape: a missing probe entry, an ambiguous
    /// or empty kind union, an unusable count, or an undecodable producer
    /// identity.
    Malformed,
}

/// What the sampler decides after the probe: fetch a concrete index set, or
/// abandon the slot.
pub enum SlotPlan {
    Fetch(Vec<usize>),
    Abandon(AbandonReason),
}

/// Draws `sample_qty` indices uniformly at random from
/// `[0, max_shreds_per_slot)`, with replacement: duplicates are possible and
/// deliberately kept.
pub fn gen_random_indices(max_shreds_per_slot: usize, sample_qty: usize) -> (r: Vec<usize>)
    requires
        sample_qty <= max_shreds_per_slot,
    ensures
        r@.len() == sample_qty,
        forall|j: int| 0 <= j < r@.len() ==> r@[j] < max_shreds_per_slot,
{
    let mut out: Vec<usize> = Vec::new();
    let mut i: usize = 0;
    while i < sample_qty
        invariant
            i <= sample_qty,
            sample_qty <= max_shreds_per_slot,
            out@.len() == i,
            forall|j: int| 0 <= j < out@.len() ==> out@[j] < max_shreds_per_slot,
        decreases sample_qty - i,
    {
        out.push(random_index_below(max_shreds_per_slot));
        i = i + 1;
    }
    out
}

/// The random sample plus the probe index 0, which is always requested
/// again so the probed fragment itself passes through verification.
pub fn sample_indices_with_probe(total: usize, sample_qty: usize) -> (r: Vec<usize>)
    requires
        1 <= total,
        sample_qty <= total,
    ensures
        r@.len() == sample_qty + 1,
        r@.last() == 0usize,
        forall|j: int| 0 <= j < r@.len() ==> r@[j] < total,
{
    let mut indices = gen_random_indices(total, sample_qty);
    indices.push(0);
    indices
}

/// What the probe entry of a probe response classifies to: the probed
/// fragment's kind and its slot's kind-specific total count.  The response
/// carries one leading entry before the entry of the single requested
/// index, so the probe entry sits at position 1.  Nothing usable comes from
/// a short response, an empty probe entry, or an ambiguous kind union.
pub open spec fn probe_classification(shreds: Seq<Option<RpcShred>>) -> Option<
    (FragmentKind, u32),
> {
    if shreds.len() < 2 {
        None
    } else {
        match shreds[1] {
            Some(rs) => match spec_coerce(rs) {
                Some(f) => Some((f.kind, f.total)),
                None => None,
            },
            None => None,
        }
    }
}

/// The total count the sampler may sample from, if the probe response is
/// usable for a sample of `sample_qty`: the classification must succeed and
/// the count must be at least 1 and at least the sample size.
pub open spec fn usable_total(shreds: Seq<Option<RpcShred>>, sample_qty: usize) -> Option<u32> {
    match probe_classification(shreds) {
        Some((kind, total)) => if 1 <= total && sample_qty <= total as usize {
            Some(total)
        } else {
            None
        },
        None => None,
    }
}

/// Classifies the probe entry of a probe response.
pub fn classify_probe(shreds: &Vec<Option<RpcShred>>) -> (r: Option<(FragmentKind, u32)>)
    ensures
        r == probe_classification(shreds@),
{
    if shreds.len() < 2 {
        return None;
    }
    match &shreds[1] {
        Some(rs) => match coerce_fragment(rs) {
            Some(f) => Some((f.kind, f.total)),
            None => None,
        },
        None => None,
    }
}

/// Decides a slot's fate from its probe outcome: a failed probe call or an
/// unusable probe response abandons the slot; a usable one yields the index
/// set to fetch — `sample_qty` random draws below the discovered total,
/// plus the trailing probe index 0.
pub fn plan_slot(probe: Option<&Vec<Option<RpcShred>>>, sample_qty: usize) -> (r: SlotPlan)
    ensures
        match r {
            SlotPlan::Fetch(indices) => probe matches Some(s) && usable_total(s@, sample_qty)
                matches Some(total) && indices@.len() == sample_qty + 1 && indices@.last() == 0usize
                && (forall|j: int| 0 <= j < indices@.len() ==> indices@[j] < total as usize),
            SlotPlan::Abandon(AbandonReason::TransportError) => probe is None,
            SlotPlan::Abandon(AbandonReason::Malformed) => probe matches Some(s) && usable_total(
                s@,
                sample_qty,
            ) is None,
        },
{
    match probe {
        None => SlotPlan::Abandon(AbandonReason::TransportError),
        Some(shreds) => match classify_probe(shreds) {
            Some((kind, total)) => {
                if total >= 1 && sample_qty <= total as usize {
                    SlotPlan::Fetch(sample_indices_with_probe(total as usize, sample_qty))
                } else {
                    SlotPlan::Abandon(AbandonReason::Malformed)
                }
            },
            None => SlotPlan::Abandon(AbandonReason::Malformed),
        },
    }
}

/// The fragments of a fetch response, each wire entry resolved to a
/// fragment or to nothing.
pub open spec fn coerced_views(shreds: Seq<Option<RpcShred>>) -> Seq<Option<FragmentView>> {
    shreds.map_values(
        |o: Option<RpcShred>|
            match o {
                Some(rs) => spec_coerce(rs),
                None => None,
            },
    )
}

/// The list with every exact duplicate dropped: each entry's first
/// occurrence is kept, in order, and no two equal entries remain.
pub open spec fn dedup_exact(s: Seq<Option<FragmentView>>) -> Seq<Option<FragmentView>>
    decreases s.len(),
{
    if s.len() == 0 {
        Seq::empty()
    } else {
        let rest = dedup_exact(s.drop_last());
        if rest.contains(s.last()) {
            rest
        } else {
            rest.push(s.last())
        }
    }
}

/// What deduplication means: the result holds no two equal entries.
pub proof fn lemma_dedup_no_duplicates(s: Seq<Option<FragmentView>>)
    ensures
        forall|i: int, j: int|
            0 <= i < j < dedup_exact(s).len() ==> #[trigger] dedup_exact(s)[i]
                != #[trigger] dedup_exact(s)[j],
    decreases s.len(),
{
    if s.len() > 0 {
        lemma_dedup_no_duplicates(s.drop_last());
        let rest = dedup_exact(s.drop_last());
        if !rest.contains(s.last()) {
            assert forall|i: int, j: int|
                0 <= i < j < dedup_exact(s).len() implies #[trigger] dedup_exact(s)[i]
                != #[trigger] dedup_exact(s)[j] by {
                if j == dedup_exact(s).len() - 1 {
                    assert(rest[i] == dedup_exact(s)[i]);
                }
            }
        }
    }
}

/// How many entries of a batch hold a fragment whose index was requested.
pub open spec fn fulfilled_count(batch: Seq<Option<FragmentView>>, requested: Seq<usize>) -> nat
    decreases batch.len(),
{
    if batch.len() == 0 {
        0
    } else {
        fulfilled_count(batch.drop_last(), requested) + match batch.last() {
            Some(f) => if requested.contains(f.index as usize) {
                1nat
            } else {
                0nat
            },
            None => 0nat,
        }
    }
}

/// What the fetch stage hands to the verifier for one slot: the deduplicated
/// fragment batch, the decoded producer identity, and the reconciliation
/// figures.
#[derive(Debug)]
pub struct FetchBatch {
    /// The response's entries, coerced, with every exact duplicate removed
    /// (first occurrences kept, in arrival order).
    pub fragments: Vec<Option<Fragment>>,
    /// The producer's 32 public-key bytes.
    pub leader: Vec<u8>,
    /// How many batch entries answer a requested index.
    pub fulfilled: usize,
    /// Whether fewer entries answered than were requested — a degraded
    /// sample, reported but not fatal.
    pub degraded: bool,
}

/// Decides whether a requested index set contains `idx`.
fn contains_index(requested: &Vec<usize>, idx: usize) -> (r: bool)
    ensures
        r == requested@.contains(idx),
{
    let mut i: usize = 0;
    while i < requested.len()
        invariant
            i <= requested.len(),
            forall|j: int| 0 <= j < i ==> requested@[j] != idx,
        decreases requested.len() - i,
    {
        if requested[i] == idx {
            return true;
        }
        i = i + 1;
    }
    false
}

/// Reconciles a batched fetch response against the requested index set: a
/// failed call or an undecodable producer identity abandons the slot;
/// otherwise the entries are coerced, exact duplicates are dropped, entries
/// answering a requested index are counted, and a shortfall is flagged as
/// degraded.  Unrequested fragments are kept for processing all the same.
pub fn reconcile_fetch(requested: &Vec<usize>, response: Option<&GetShredResponse>) -> (r: Result<
    FetchBatch,
    AbandonReason,
>)
    ensures
        match r {
            Ok(batch) => response matches Some(resp) && parsed_pubkey(resp.result.leader@)
                matches Some(pk) && batch.leader@ == pk && batch_views(batch.fragments@)
                == dedup_exact(coerced_views(resp.result.shreds@)) && batch.fulfilled
                == fulfilled_count(batch_views(batch.fragments@), requested@) && batch.degraded == (
            batch.fulfilled < requested@.len()),
            Err(AbandonReason::TransportError) => response is None,
            Err(AbandonReason::Malformed) => response matches Some(resp) && parsed_pubkey(
                resp.result.leader@,
            ) is None,
        },
{
    let resp = match response {
        Some(resp) => resp,
        None => {
            return Err(AbandonReason::TransportError);
        },
    };
    let leader = match decode_pubkey(resp.result.leader.as_str()) {
        Some(pk) => pk,
        None => {
            return Err(AbandonReason::Malformed);
        },
    };
    let fragments = dedup_fragments(&resp.result.shreds);
    let fulfilled = count_fulfilled(&fragments, requested);
    let degraded = fulfilled < requested.len();
    Ok(FetchBatch { fragments, leader, fulfilled, degraded })
}

/// Decides whether a batch already holds an entry equal to `needle`.
fn contains_fragment(haystack: &Vec<Option<Fragment>>, needle: &Option<Fragment>) -> (r: bool)
    ensures
        r == batch_views(haystack@).contains(opt_view(*needle)),
{
    let mut i: usize = 0;
    while i < haystack.len()
        invariant
            i <= haystack.len(),
            forall|j: int|
                0 <= j < i ==> #[trigger] batch_views(haystack@)[j] != opt_view(*needle),
        decreases haystack.len() - i,
    {
        proof {
            assert(batch_views(haystack@)[i as int] == opt_view(haystack@[i as int]));
        }
        if opt_fragment_eq(&haystack[i], needle) {
            return true;
        }
        i = i + 1;
    }
    proof {
        assert(!batch_views(haystack@).contains(opt_view(*needle))) by {
            if batch_views(haystack@).contains(opt_view(*needle)) {
                let j = choose|j: int|
                    0 <= j < batch_views(haystack@).len() && batch_views(haystack@)[j] == opt_view(
                        *needle,
                    );
                assert(batch_views(haystack@)[j] != opt_view(*needle));
            }
        }
    }
    false
}

/// Coerces each wire entry of a fetch response and drops every exact
/// duplicate, keeping first occurrences in arrival order.
fn dedup_fragments(shreds: &Vec<Option<RpcShred>>) -> (out: Vec<Option<Fragment>>)
    ensures
        batch_views(out@) == dedup_exact(coerced_views(shreds@)),
{
    let ghost cv: Seq<Option<FragmentView>> = coerced_views(shreds@);
    let mut out: Vec<Option<Fragment>> = Vec::new();
    let mut i: usize = 0;
    proof {
        assert(cv.subrange(0, 0) =~= Seq::<Option<FragmentView>>::empty());
    }
    while i < shreds.len()
        invariant
            i <= shreds.len(),
            cv == coerced_views(shreds@),
            cv.len() == shreds@.len(),
            batch_views(out@) == dedup_exact(cv.subrange(0, i as int)),
        decreases shreds.len() - i,
    {
        proof {
            assert(cv[i as int] == (match shreds@[i as int] {
                Some(rs) => spec_coerce(rs),
                None => None,
            }));
            assert(cv.subrange(0, i as int + 1).drop_last() =~= cv.subrange(0, i as int));
            assert(cv.subrange(0, i as int + 1).last() == cv[i as int]);
        }
        let entry = match &shreds[i] {
            Some(rs) => coerce_fragment(rs),
            None => None,
        };
        if !contains_fragment(&out, &entry) {
            out.push(clone_opt_fragment(&entry));
            proof {
                assert(batch_views(out@) =~= dedup_exact(cv.subrange(0, i as int + 1)));
            }
        } else {
            proof {
                assert(batch_views(out@) =~= dedup_exact(cv.subrange(0, i as int + 1)));
            }
        }
        i = i + 1;
    }
    proof {
        assert(cv.subrange(0, shreds@.len() as int) =~= cv);
    }
    out
}

/// The view of an optional fragment.
pub open spec fn opt_view(o: Option<Fragment>) -> Option<FragmentView> {
    match o {
        Some(f) => Some(f@),
        None => None,
    }
}

/// Decides equality of two optional fragments.
fn opt_fragment_eq(a: &Option<Fragment>, b: &Option<Fragment>) -> (r: bool)
    ensures
        r == (opt_view(*a) == opt_view(*b)),
{
    match (a, b) {
        (Some(x), Some(y)) => fragment_eq(x, y),
        (None, None) => true,
        _ => false,
    }
}

/// Copies an optional fragment.
fn clone_opt_fragment(o: &Option<Fragment>) -> (r: Option<Fragment>)
    ensures
        opt_view(r) == opt_view(*o),
{
    match o {
        Some(f) => Some(f.clone_fragment()),
        None => None,
    }
}

/// Counts the batch entries holding a fragment whose index was requested.
fn count_fulfilled(batch: &Vec<Option<Fragment>>, requested: &Vec<usize>) -> (r: usize)
    ensures
        r == fulfilled_count(batch_views(batch@), requested@),
{
    let ghost bv: Seq<Option<FragmentView>> = batch_views(batch@);
    let mut count: usize = 0;
    let mut i: usize = 0;
    proof {
        assert(fulfilled_count(bv.subrange(0, 0), requested@) == 0);
    }
    while i < batch.len()
        invariant
            i <= batch.len(),
            bv == batch_views(batch@),
            bv.len() == batch@.len(),
            count == fulfilled_count(bv.subrange(0, i as int), requested@),
            count <= i,
        decreases batch.len() - i,
    {
        proof {
            assert(bv.subrange(0, i as int + 1).drop_last() =~= bv.subrange(0, i as int));
            assert(bv[i as int] == opt_view(batch@[i as int]));
        }
        match &batch[i] {
            Some(f) => {
                if contains_index(requested, f.index as usize) {
                    count = count + 1;
                }
            },
            None => {},
        }
        i = i + 1;
    }
    proof {
        assert(bv.subrange(0, batch@.len() as int) =~= bv);
    }
    count
}

} // verus!
