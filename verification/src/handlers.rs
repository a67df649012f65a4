use vstd::prelude::*;

verus! {

use crate::binder::{lt_contains, lt_worker};
use crate::ecosystem::{AutocompleteOutcome, BatchOutcome, Ecosystem};
use crate::engine::{batch_match_spec, match_spec};
use crate::fold::folded;
use crate::records::{exact_spec, Dataset, EngineInputData};
use crate::timer::{tq_contains, tq_deadline};

/// Body of an interactive autocomplete request.
pub struct FuzzyAutocompleteRequest {
    pub string: String,
}

/// Reply to an interactive autocomplete request: up to ten records, best
/// first.
pub struct FuzzyAutocompleteResponse {
    pub matches: Vec<EngineInputData>,
}

/// Body of a batch fuzzy-match request: the queries, and how many results
/// each may yield.
pub struct FuzzyMatchRequest {
    pub strings: Vec<String>,
    pub n_first_results: u32,
}

/// Reply to a batch fuzzy-match request: for each query, between zero and
/// `n_first_results` records, best first.
pub struct FuzzyMatchResponse {
    pub matches: Vec<Vec<EngineInputData>>,
}

/// Body of a batch exact-lookup request.
pub struct ExactMatchRequest {
    pub strings: Vec<String>,
}

/// Reply to a batch exact-lookup request: for each query, the record it
/// names or nothing.
pub struct ExactMatchResponse {
    pub matches: Vec<Option<EngineInputData>>,
}

/// The session-affine autocomplete endpoint, given the session's engine id
/// and the current instant: the request-body boundary over
/// `Ecosystem::autocomplete`, carrying its whole contract — rejection
/// exactly on the empty query, the owed match for a bound session on its
/// own worker, the lease and refreshed timer behind a success, and every
/// other session's lease and timer untouched.
pub fn fuzzy_autocomplete(
    eco: &mut Ecosystem,
    engine_key: Option<u128>,
    req: &FuzzyAutocompleteRequest,
    now: u64,
) -> (r: AutocompleteOutcome)
    requires
        old(eco).wf(),
        now + old(eco).engine_expiry_ms <= u64::MAX,
    ensures
        final(eco).wf(),
        old(eco).same_config(*final(eco)),
        final(eco).timers.is_closed() == old(eco).timers.is_closed(),
        (r is Rejected) <==> req.string@.len() == 0,
        r is Rejected ==> old(eco).unchanged(*final(eco)),
        r is Busy ==> old(eco).unchanged(*final(eco)) && ((old(eco).pool.available_view().len() == 0 && old(eco).pool.created() == old(eco).pool.capacity()) || old(eco).leases.leases_view().len() > 0 || old(eco).timers.entries_view().len() > 0),
        r matches AutocompleteOutcome::Matched { matches, engine_id, fresh_session } ==> {
            &&& matches@ == match_spec(old(eco).pool.dataset_view(), req.string@)
            &&& matches@.len() <= 10
            &&& lt_contains(final(eco).leases.leases_view(), engine_id)
            &&& lt_worker(final(eco).leases.leases_view(), engine_id).prev_pattern_view()
                == folded(req.string@)
            &&& tq_contains(final(eco).timers.entries_view(), engine_id)
            &&& tq_deadline(final(eco).timers.entries_view(), engine_id) == now + old(eco).engine_expiry_ms
            &&& (fresh_session ==> !lt_contains(old(eco).leases.leases_view(), engine_id)
                && final(eco).leases.leases_view().len() == old(eco).leases.leases_view().len() + 1 && final(eco).pool.in_use() == old(eco).pool.in_use() + 1)
            &&& (!fresh_session ==> engine_key == Some(engine_id) && lt_contains(
                old(eco).leases.leases_view(),
                engine_id,
            ) && final(eco).leases.leases_view().len() == old(eco).leases.leases_view().len()
                && final(eco).pool.available_view() == old(eco).pool.available_view() && final(eco).pool.created() == old(eco).pool.created() && lt_worker(
                final(eco).leases.leases_view(),
                engine_id,
            ).tag_view() == lt_worker(old(eco).leases.leases_view(), engine_id).tag_view())
        },
        // a bound session is owed a match under its own id
        engine_key matches Some(sid) ==> ((req.string@.len() > 0 && lt_contains(
            old(eco).leases.leases_view(),
            sid,
        )) ==> (r matches AutocompleteOutcome::Matched { engine_id, fresh_session, .. }
            && engine_id == sid && !fresh_session)),
        // every other session's lease and timer are untouched
        forall|u: u128|
            u != r.engine_id_or(u128::MAX) && #[trigger] lt_contains(
                old(eco).leases.leases_view(),
                u,
            ) ==> lt_contains(final(eco).leases.leases_view(), u) && lt_worker(
                final(eco).leases.leases_view(),
                u,
            ) == lt_worker(old(eco).leases.leases_view(), u),
        forall|u: u128|
            u != r.engine_id_or(u128::MAX) && #[trigger] tq_contains(
                old(eco).timers.entries_view(),
                u,
            ) ==> tq_contains(final(eco).timers.entries_view(), u) && tq_deadline(
                final(eco).timers.entries_view(),
                u,
            ) == tq_deadline(old(eco).timers.entries_view(), u),
{
    eco.autocomplete(engine_key, &req.string, now)
}

/// The stateless batch fuzzy-match endpoint: the request-body boundary over
/// `Ecosystem::fuzzy_batch`, carrying its whole contract — rejection
/// exactly on an empty batch or a zero limit, `Busy` only from a dry pool
/// at its cap, one worker serving the whole batch and returned afterwards,
/// and leases and timers untouched.
pub fn fuzzy_match(eco: &mut Ecosystem, req: &FuzzyMatchRequest) -> (r: BatchOutcome)
    requires
        old(eco).wf(),
    ensures
        final(eco).wf(),
        old(eco).same_config(*final(eco)),
        final(eco).timers.is_closed() == old(eco).timers.is_closed(),
        final(eco).leases.leases_view() == old(eco).leases.leases_view(),
        final(eco).timers.entries_view() == old(eco).timers.entries_view(),
        (r is Rejected) <==> (req.strings@.len() == 0 || req.n_first_results == 0),
        r is Rejected ==> old(eco).unchanged(*final(eco)),
        r is Busy ==> old(eco).unchanged(*final(eco)) && old(eco).pool.available_view().len() == 0 && old(eco).pool.created() == old(eco).pool.capacity(),
        r matches BatchOutcome::Matched { matches } ==> {
            &&& matches@.len() == req.strings@.len()
            &&& forall|i: int|
                0 <= i < req.strings@.len() ==> (#[trigger] matches@[i])@ == batch_match_spec(
                    old(eco).pool.dataset_view(),
                    req.strings@[i]@,
                    req.n_first_results as int,
                )
            &&& final(eco).pool.in_use() == old(eco).pool.in_use()
            &&& final(eco).pool.created() >= old(eco).pool.created()
        },
{
    eco.fuzzy_batch(&req.strings, req.n_first_results)
}

/// The stateless batch exact-lookup endpoint: for each query string, a copy
/// of the first record carrying it, or nothing.  No pool is involved and
/// nothing can fail, so this always answers.
pub fn exact_match(dataset: &Dataset, req: &ExactMatchRequest) -> (r: ExactMatchResponse)
    ensures
        r.matches@.len() == req.strings@.len(),
        forall|i: int|
            0 <= i < req.strings@.len() ==> #[trigger] r.matches@[i] == exact_spec(
                dataset.records@,
                req.strings@[i]@,
            ),
{
    let mut matches: Vec<Option<EngineInputData>> = Vec::new();
    let n = req.strings.len();
    for i in 0..n
        invariant
            n == req.strings@.len(),
            matches@.len() == i,
            forall|t: int|
                0 <= t < i ==> #[trigger] matches@[t] == exact_spec(
                    dataset.records@,
                    req.strings@[t]@,
                ),
    {
        matches.push(dataset.exact(&req.strings[i]));
    }
    ExactMatchResponse { matches }
}

} // verus!
