//! The querying core of the UDP RPC client: the overlay-query prefix,
//! the roundtrip estimate with its per-attempt budget, and the assembly
//! of outgoing query data.
//!
//! The transport itself — ADNL for small queries, RLDP for bulk
//! downloads — lives outside this crate; it receives the query bytes and
//! the budget computed here and hands back the answer and the observed
//! roundtrip.

use vstd::prelude::*;

verus! {

/// Milliseconds added to the roundtrip budget per retry attempt.
pub const ATTEMPT_INTERVAL_MS: u64 = 50;

/// The short id of the overlay built for the masterchain over the given
/// zerostate file hash. It depends on the workchain and the hash alone.
pub uninterp spec fn overlay_short_id_of(workchain: int, zerostate_file_hash: Seq<u8>) -> Seq<u8>;

/// The serialized overlay-query prefix carrying the given overlay short
/// id. It depends on the short id alone.
pub uninterp spec fn overlay_query_prefix_of(short_id: Seq<u8>) -> Seq<u8>;

/// Relies on overlay::IdFull::for_workchain_overlay and
/// IdFull::compute_short_id of everscale-network: the 32-byte short id
/// of the public shard overlay is a hash of the workchain and the
/// zerostate file hash, and depends on nothing else.
#[verifier::external_body]
pub fn overlay_short_id(workchain: i32, zerostate_file_hash: &[u8; 32]) -> (r: [u8; 32])
    ensures
        r@ == overlay_short_id_of(workchain as int, zerostate_file_hash@),
        r@.len() == 32,
{
    let id_full = everscale_network::overlay::IdFull::for_workchain_overlay(
        workchain,
        zerostate_file_hash,
    );
    *id_full.compute_short_id().as_slice()
}

/// Relies on tl::serialize of everscale-network (its tl-proto) over
/// everscale_network::proto::rpc::OverlayQuery: the TL encoding of the
/// overlay-query prefix is a function of the overlay short id alone.
#[verifier::external_body]
pub fn overlay_query_prefix(short_id: &[u8; 32]) -> (r: Vec<u8>)
    ensures
        r@ == overlay_query_prefix_of(short_id@),
{
    everscale_network::tl::serialize(
        everscale_network::proto::rpc::OverlayQuery { overlay: short_id },
    )
}

/// Builds the full query prefix for the masterchain overlay identified
/// by the zerostate file hash: the serialized overlay query that every
/// outgoing request is prefixed with.
pub fn make_query_prefix(zerostate_file_hash: &[u8; 32]) -> (r: Vec<u8>)
    ensures
        r@ == overlay_query_prefix_of(
            overlay_short_id_of(crate::types::MASTERCHAIN_ID as int, zerostate_file_hash@),
        ),
{
    let short_id = overlay_short_id(crate::types::MASTERCHAIN_ID, zerostate_file_hash);
    overlay_query_prefix(&short_id)
}

/// Concatenates the overlay-query prefix and a serialized query into
/// the datagram handed to the transport.
pub fn build_query_data(prefix: &Vec<u8>, query: &Vec<u8>) -> (r: Vec<u8>)
    requires
        prefix@.len() + query@.len() <= usize::MAX,
    ensures
        r@ == prefix@ + query@,
{
    let mut out: Vec<u8> = Vec::new();
    let np = prefix.len();
    let mut i: usize = 0;
    while i < np
        invariant
            np == prefix@.len(),
            i <= np,
            out@ == prefix@.take(i as int),
        decreases np - i,
    {
        out.push(prefix[i]);
        proof {
            assert(out@ =~= prefix@.take(i + 1));
        }
        i = i + 1;
    }
    proof {
        assert(prefix@.take(np as int) =~= prefix@);
    }
    let nq = query.len();
    let mut j: usize = 0;
    while j < nq
        invariant
            np == prefix@.len(),
            nq == query@.len(),
            j <= nq,
            out@ == prefix@ + query@.take(j as int),
        decreases nq - j,
    {
        out.push(query[j]);
        proof {
            assert(out@ =~= prefix@ + query@.take(j + 1));
        }
        j = j + 1;
    }
    proof {
        assert(prefix@ + query@.take(nq as int) =~= prefix@ + query@);
    }
    out
}

/// One roundtrip observation folded into the estimate: the first
/// observation sets the estimate, each later one replaces it by the
/// arithmetic mean of the prior estimate and the observation.
pub open spec fn spec_updated_roundtrip(current: u64, observed: u64) -> u64 {
    if current > 0 {
        ((current + observed) / 2) as u64
    } else {
        observed
    }
}

/// Folds one observed roundtrip into the current estimate.
pub fn update_roundtrip(current: u64, observed: u64) -> (r: u64)
    ensures
        r == spec_updated_roundtrip(current, observed),
{
    if current > 0 {
        let sum = current as u128 + observed as u128;
        (sum / 2) as u64
    } else {
        observed
    }
}

/// The roundtrip budget for one RLDP attempt: the current estimate plus
/// a fixed interval per attempt already made, saturated at the numeric
/// limit, or no budget at all while no roundtrip has been observed (the
/// transport then uses its own default).
pub open spec fn spec_roundtrip_budget(estimate: u64, attempt: u64) -> Option<u64> {
    if estimate > 0 {
        if estimate + attempt * ATTEMPT_INTERVAL_MS > u64::MAX {
            Some(u64::MAX)
        } else {
            Some((estimate + attempt * ATTEMPT_INTERVAL_MS) as u64)
        }
    } else {
        None::<u64>
    }
}

/// Computes the roundtrip budget for one RLDP attempt.
pub fn rldp_roundtrip_budget(estimate: u64, attempt: u64) -> (r: Option<u64>)
    ensures
        r == spec_roundtrip_budget(estimate, attempt),
{
    if estimate > 0 {
        let extra = if attempt > u64::MAX / ATTEMPT_INTERVAL_MS {
            proof {
                assert(attempt * ATTEMPT_INTERVAL_MS > u64::MAX) by (nonlinear_arith)
                    requires
                        attempt > u64::MAX / ATTEMPT_INTERVAL_MS,
                        ATTEMPT_INTERVAL_MS == 50,
                ;
            }
            u64::MAX
        } else {
            proof {
                assert(attempt * ATTEMPT_INTERVAL_MS <= u64::MAX) by (nonlinear_arith)
                    requires
                        attempt <= u64::MAX / ATTEMPT_INTERVAL_MS,
                        ATTEMPT_INTERVAL_MS == 50,
                ;
            }
            attempt * ATTEMPT_INTERVAL_MS
        };
        Some(estimate.saturating_add(extra))
    } else {
        None
    }
}

/// Folds one RLDP outcome into the roundtrip estimate: only a query
/// that was answered updates it, with the observed roundtrip.
pub fn fold_roundtrip(estimate: u64, answered: bool, observed: u64) -> (r: u64)
    ensures
        r == if answered {
            spec_updated_roundtrip(estimate, observed)
        } else {
            estimate
        },
{
    if answered {
        update_roundtrip(estimate, observed)
    } else {
        estimate
    }
}

/// IP resolution retries the DHT lookup up to this many times; the
/// failure after them is surfaced.
pub const RESOLVE_RETRY_COUNT: u64 = 10;

/// The retry counter of the peer-address lookup: each failed attempt
/// is counted, the first ten failures are retried, the eleventh is
/// surfaced.
pub struct ResolveIpRetry {
    pub attempt: u64,
}

impl ResolveIpRetry {
    /// A fresh lookup: no attempts failed yet.
    pub fn new() -> (r: ResolveIpRetry)
        ensures
            r.attempt == 0,
    {
        ResolveIpRetry { attempt: 0 }
    }

    /// Counts one failed attempt and says whether to try again.
    pub fn on_failure(&mut self) -> (retry: bool)
        requires
            old(self).attempt < u64::MAX,
        ensures
            final(self).attempt == old(self).attempt + 1,
            retry == (final(self).attempt <= RESOLVE_RETRY_COUNT),
    {
        self.attempt = self.attempt + 1;
        self.attempt <= RESOLVE_RETRY_COUNT
    }
}

/// The estimate after a run of observations, starting from no estimate.
pub open spec fn spec_estimate_after(obs: Seq<u64>) -> u64
    decreases obs.len(),
{
    if obs.len() == 0 {
        0u64
    } else {
        spec_updated_roundtrip(spec_estimate_after(obs.drop_last()), obs.last())
    }
}

/// The nested mean of a run of observations: the first observation,
/// then each later one averaged in: `((…((o1 + o2)/2 + o3)/2 …) + on)/2`.
pub open spec fn spec_nested_mean(obs: Seq<u64>) -> u64
    recommends
        obs.len() > 0,
    decreases obs.len(),
{
    if obs.len() <= 1 {
        if obs.len() == 1 {
            obs[0]
        } else {
            0u64
        }
    } else {
        ((spec_nested_mean(obs.drop_last()) + obs.last()) / 2) as u64
    }
}

/// Estimator law: after a run of successful answers with positive
/// observed roundtrips, the estimate equals the nested mean of the
/// observations — and stays positive. (A zero observation would reset
/// the estimate instead of being averaged in, so zeros are excluded.)
pub proof fn lemma_estimate_is_nested_mean(obs: Seq<u64>)
    requires
        obs.len() > 0,
        forall|i: int| 0 <= i < obs.len() ==> obs[i] >= 1,
    ensures
        spec_estimate_after(obs) == spec_nested_mean(obs),
        spec_estimate_after(obs) >= 1,
    decreases obs.len(),
{
    if obs.len() == 1 {
        assert(obs.drop_last().len() == 0);
        assert(spec_estimate_after(obs.drop_last()) == 0);
        assert(obs.last() == obs[0]);
        assert(obs[0] >= 1);
        assert(spec_estimate_after(obs) == obs[0]);
    } else {
        let dl = obs.drop_last();
        assert forall|i: int| 0 <= i < dl.len() implies dl[i] >= 1 by {
            assert(dl[i] == obs[i]);
        }
        lemma_estimate_is_nested_mean(dl);
        assert(obs.last() == obs[obs.len() - 1]);
        assert(obs.last() >= 1);
        assert(spec_estimate_after(obs) == ((spec_estimate_after(dl) + obs.last()) / 2) as u64);
        assert(spec_nested_mean(obs) == ((spec_nested_mean(dl) + obs.last()) / 2) as u64);
    }
}

} // verus!
