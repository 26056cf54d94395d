//! Laws of the aggregator oracle: what its operations keep, what one of them
//! undoes of another, and what a request and its answer amount to.

use vstd::prelude::*;
use crate::origin::{AccountId, BlockNumber, Origin, signer, callback_name};
use crate::ares::{AresState, AresError, RequestInfo, AggregatorInfo, EventInfo, removal_events};
use crate::store::{
    lemma_filter_increasing, lemma_filter_all, lemma_filter_none, lemma_ids_index_push, lemma_ids_index_remove,
    lemma_ids_index_filter,
};

verus! {

/// Every operation keeps the state valid: registered aggregators are stored
/// under their own account, pending request ids are distinct, listed in the
/// order they were filed, and all below the next request id.
pub proof fn law_operations_keep_validity(
    s: AresState,
    origin: Origin,
    who: AccountId,
    source: Seq<u8>,
    spec_index: Seq<u8>,
    data_version: u64,
    data: Seq<u8>,
    request_id: u64,
    result: u64,
    n: BlockNumber,
)
    requires
        s.valid(),
        !s.request_would_overflow(origin, who),
    ensures
        s.register_aggregator(origin, source).0.valid(),
        s.unregister_aggregator(origin).0.valid(),
        s.initiate_request(origin, who, spec_index, data_version, data).0.valid(),
        s.feed_result(origin, request_id, result).0.valid(),
        s.on_finalize(n).valid(),
{
    if let Some(_) = signer(origin) {
        if s.aggregators.contains_key(who) {
            lemma_ids_index_push(
                s.request_ids,
                s.requests,
                s.next_request_id,
                RequestInfo { aggregator: who, created_at: s.block_number, spec_index },
            );
        }
        if s.requests.contains_key(request_id) {
            lemma_ids_index_remove(s.request_ids, s.requests, s.next_request_id, request_id);
        }
    }
    lemma_ids_index_filter(s.request_ids, s.requests, s.next_request_id, s.survives(n));
}

/// Registering an account and then unregistering it leaves the aggregators
/// as they were, and touches no request and no result.
pub proof fn law_unregister_undoes_register(s: AresState, who: AccountId, source: Seq<u8>)
    requires
        s.valid(),
        !s.aggregators.contains_key(who),
    ensures
        s.register_aggregator(Origin::Signed(who), source).1 == Ok::<(), AresError>(()),
        s.register_aggregator(Origin::Signed(who), source).0.unregister_aggregator(Origin::Signed(who)).1
            == Ok::<(), AresError>(()),
        s.register_aggregator(Origin::Signed(who), source).0.unregister_aggregator(Origin::Signed(who)).0.aggregators
            == s.aggregators,
        s.register_aggregator(Origin::Signed(who), source).0.unregister_aggregator(Origin::Signed(who)).0.requests
            == s.requests,
        s.register_aggregator(Origin::Signed(who), source).0.unregister_aggregator(Origin::Signed(who)).0.oracle_results
            == s.oracle_results,
{
    let s1 = s.register_aggregator(Origin::Signed(who), source).0;
    let s2 = s1.unregister_aggregator(Origin::Signed(who)).0;
    assert(s2.aggregators =~= s.aggregators);
}

/// An account can be registered only once: a second registration is refused
/// and changes nothing.
pub proof fn law_register_is_exclusive(s: AresState, who: AccountId, source: Seq<u8>, source2: Seq<u8>)
    requires
        s.register_aggregator(Origin::Signed(who), source).1 is Ok,
    ensures
        s.register_aggregator(Origin::Signed(who), source).0.register_aggregator(Origin::Signed(who), source2)
            == (s.register_aggregator(Origin::Signed(who), source).0, Err::<(), AresError>(AresError::AggregatorAlreadyRegistered)),
{
}

/// Once unregistered, an aggregator can be sent no request.
pub proof fn law_unregistered_gets_no_request(
    s: AresState,
    who: AccountId,
    requester: AccountId,
    spec_index: Seq<u8>,
    data_version: u64,
    data: Seq<u8>,
)
    requires
        s.unregister_aggregator(Origin::Signed(who)).1 is Ok,
    ensures
        s.unregister_aggregator(Origin::Signed(who)).0.initiate_request(Origin::Signed(requester), who, spec_index, data_version, data).1
            == Err::<(), AresError>(AresError::UnknownAggregator),
{
}

/// A request filed with a registered aggregator gets the next request id and
/// is pending under it; when that aggregator answers it, the answer is what
/// the results hold for the request's specification index, and the request
/// is no longer pending.
pub proof fn law_answer_is_recorded(
    s: AresState,
    requester: AccountId,
    aggregator: AccountId,
    spec_index: Seq<u8>,
    data_version: u64,
    data: Seq<u8>,
    value: u64,
)
    requires
        s.valid(),
        s.aggregators.contains_key(aggregator),
        s.next_request_id < u64::MAX,
    ensures
        ({
            let (s1, r1) = s.initiate_request(Origin::Signed(requester), aggregator, spec_index, data_version, data);
            let id = s.next_request_id;
            let (s2, r2) = s1.feed_result(Origin::Signed(aggregator), id, value);
            &&& r1 == Ok::<(), AresError>(())
            &&& s1.requests.contains_key(id)
            &&& s1.requests[id] == (RequestInfo { aggregator, created_at: s.block_number, spec_index })
            &&& r2 == Ok::<(), AresError>(())
            &&& s2.oracle_results.contains_key(spec_index)
            &&& s2.oracle_results[spec_index] == value
            &&& !s2.requests.contains_key(id)
            &&& s2.requests == s.requests
        }),
{
    let (s1, r1) = s.initiate_request(Origin::Signed(requester), aggregator, spec_index, data_version, data);
    let id = s.next_request_id;
    assert(!s.requests.contains_key(id));
    let (s2, r2) = s1.feed_result(Origin::Signed(aggregator), id, value);
    assert(s2.requests =~= s.requests);
}

/// Only the aggregator that a request names can answer it: anyone else is
/// refused and changes nothing.
pub proof fn law_only_named_aggregator_answers(s: AresState, request_id: u64, other: AccountId, value: u64)
    requires
        s.requests.contains_key(request_id),
        s.requests[request_id].aggregator != other,
    ensures
        s.feed_result(Origin::Signed(other), request_id, value) == (s, Err::<(), AresError>(AresError::WrongAggregator)),
{
}

/// A request is answered at most once: a second answer is refused.
pub proof fn law_answered_once(s: AresState, who: AccountId, request_id: u64, value: u64, value2: u64)
    requires
        s.feed_result(Origin::Signed(who), request_id, value).1 is Ok,
    ensures
        s.feed_result(Origin::Signed(who), request_id, value).0.feed_result(Origin::Signed(who), request_id, value2).1
            == Err::<(), AresError>(AresError::UnknownRequest),
{
}

/// A request survives the end of every block up to the one where its
/// validity period runs out.
pub proof fn law_request_lives_through_validity(s: AresState, id: u64, n: BlockNumber)
    requires
        s.requests.contains_key(id),
        n <= s.requests[id].created_at + s.validity_period,
    ensures
        s.on_finalize(n).requests.contains_key(id),
        s.on_finalize(n).requests[id] == s.requests[id],
{
}

/// Finalizing the same block twice drops nothing more the second time and
/// reports nothing more.
pub proof fn law_finalize_is_idempotent(s: AresState, n: BlockNumber)
    requires
        s.valid(),
    ensures
        s.on_finalize(n).on_finalize(n).requests == s.on_finalize(n).requests,
        s.on_finalize(n).on_finalize(n).request_ids == s.on_finalize(n).request_ids,
        s.on_finalize(n).on_finalize(n).events == s.on_finalize(n).events,
{
    let s1 = s.on_finalize(n);
    lemma_filter_increasing(s.request_ids, s.survives(n));
    let ids = s1.request_ids;
    assert(forall|x: u64| #[trigger] ids.contains(x) ==> s1.requests.contains_key(x) && !s1.expired(x, n));
    lemma_filter_all(ids, s1.survives(n));
    lemma_filter_none(ids, s1.drops(n));
    assert(s1.on_finalize(n).requests =~= s1.requests);
    assert(s1.on_finalize(n).events =~= s1.events);
}


/// Registering succeeds exactly when the call is signed by an account that is
/// not registered yet. The account is then registered, as of the current
/// block, with exactly the source it gave; no other aggregator, request or
/// result changes, and the registration is reported. A refused registration
/// changes nothing.
pub proof fn law_register_records_source(s: AresState, who: AccountId, source: Seq<u8>)
    ensures
        ({
            let (t, r) = s.register_aggregator(Origin::Signed(who), source);
            &&& (r is Ok <==> !s.aggregators.contains_key(who))
            &&& r is Ok ==> t.aggregators == s.aggregators.insert(
                who,
                AggregatorInfo { account: who, registered_at: s.block_number, source },
            )
            &&& r is Ok ==> t.events == s.events.push(EventInfo::AggregatorRegistered(who))
            &&& r is Ok ==> t.requests == s.requests && t.request_ids == s.request_ids
                && t.oracle_results == s.oracle_results && t.next_request_id == s.next_request_id
            &&& r is Err ==> t == s
        }),
        s.register_aggregator(Origin::Unsigned, source) == (s, Err::<(), AresError>(AresError::BadOrigin)),
        s.register_aggregator(Origin::Root, source) == (s, Err::<(), AresError>(AresError::BadOrigin)),
{
}

/// Unregistering succeeds exactly when the signer is registered; it then
/// removes that one aggregator and reports it, and touches nothing else.
pub proof fn law_unregister_removes_only_signer(s: AresState, who: AccountId)
    ensures
        ({
            let (t, r) = s.unregister_aggregator(Origin::Signed(who));
            &&& (r is Ok <==> s.aggregators.contains_key(who))
            &&& r is Ok ==> t.aggregators == s.aggregators.remove(who)
            &&& r is Ok ==> t.events == s.events.push(EventInfo::AggregatorUnregistered(who))
            &&& r is Ok ==> t.requests == s.requests && t.oracle_results == s.oracle_results
            &&& r is Err ==> t == s
        }),
{
}

/// Filing a request succeeds exactly when the call is signed and names a
/// registered aggregator. The request then gets the old next request id, is
/// pending under that id, as of the current block, with the aggregator and
/// specification index it was filed with, is listed last, and the reported
/// request carries that same id, the requester, the data and the callback
/// name. No other request and no result changes. A refused request changes
/// nothing.
pub proof fn law_request_gets_next_id(
    s: AresState,
    requester: AccountId,
    aggregator: AccountId,
    spec_index: Seq<u8>,
    data_version: u64,
    data: Seq<u8>,
)
    requires
        s.valid(),
        !s.request_would_overflow(Origin::Signed(requester), aggregator),
    ensures
        ({
            let (t, r) = s.initiate_request(Origin::Signed(requester), aggregator, spec_index, data_version, data);
            let id = s.next_request_id;
            &&& (r is Ok <==> s.aggregators.contains_key(aggregator))
            &&& r is Ok ==> !s.requests.contains_key(id)
            &&& r is Ok ==> t.next_request_id == id + 1
            &&& r is Ok ==> t.requests == s.requests.insert(
                id,
                RequestInfo { aggregator, created_at: s.block_number, spec_index },
            )
            &&& r is Ok ==> t.request_ids == s.request_ids.push(id)
            &&& r is Ok ==> t.events == s.events.push(
                EventInfo::OracleRequest(aggregator, spec_index, id, requester, data_version, data, callback_name()),
            )
            &&& r is Ok ==> t.aggregators == s.aggregators && t.oracle_results == s.oracle_results
            &&& r is Err ==> t == s
        }),
{
}

/// Answering succeeds exactly when the request is pending and the signer is
/// the aggregator it names, in whatever block the answer comes. The answer
/// is then the stored result for the request's specification index, no other
/// result changes, the request is no longer pending nor listed, no other
/// request changes, and the answer is reported. A refused answer changes
/// nothing.
pub proof fn law_answer_is_stored(s: AresState, who: AccountId, request_id: u64, value: u64)
    requires
        s.valid(),
    ensures
        ({
            let (t, r) = s.feed_result(Origin::Signed(who), request_id, value);
            &&& (r is Ok <==> s.requests.contains_key(request_id) && s.requests[request_id].aggregator == who)
            &&& !s.requests.contains_key(request_id) ==> r == Err::<(), AresError>(AresError::UnknownRequest)
            &&& r is Ok ==> t.oracle_results == s.oracle_results.insert(s.requests[request_id].spec_index, value)
            &&& r is Ok ==> t.requests == s.requests.remove(request_id)
            &&& r is Ok ==> !t.request_ids.contains(request_id)
            &&& r is Ok ==> t.events == s.events.push(EventInfo::OracleResult(who, request_id, who, value))
            &&& r is Ok ==> t.aggregators == s.aggregators && t.block_number == s.block_number
            &&& r is Err ==> t == s
        }),
{
    if s.requests.contains_key(request_id) {
        lemma_ids_index_remove(s.request_ids, s.requests, s.next_request_id, request_id);
    }
}

/// Finalizing block `n` keeps exactly the pending requests filed no more than
/// the validity period before `n`, unchanged, and drops every other one. The
/// events reported so far stay as they were; after them come only removal
/// reports, one for each dropped request and none for any other id, in the
/// order the requests were filed.
pub proof fn law_finalize_drops_exactly_expired(s: AresState, n: BlockNumber, id: u64)
    requires
        s.valid(),
    ensures
        ({
            let t = s.on_finalize(n);
            let reported = t.events.subrange(s.events.len() as int, t.events.len() as int);
            &&& (t.requests.contains_key(id)
                <==> s.requests.contains_key(id) && n <= s.requests[id].created_at + s.validity_period)
            &&& t.requests.contains_key(id) ==> t.requests[id] == s.requests[id]
            &&& (t.request_ids.contains(id) <==> t.requests.contains_key(id))
            &&& s.events.len() <= t.events.len()
            &&& t.events.subrange(0, s.events.len() as int) == s.events
            &&& (reported.contains(EventInfo::RemoveRequest(id))
                <==> s.requests.contains_key(id) && n > s.requests[id].created_at + s.validity_period)
            &&& forall|k: int| 0 <= k < reported.len() ==> #[trigger] reported[k] is RemoveRequest
            &&& forall|j: int, k: int| 0 <= j < k < reported.len()
                ==> #[trigger] reported[j]->RemoveRequest_0 < #[trigger] reported[k]->RemoveRequest_0
            &&& t.aggregators == s.aggregators && t.oracle_results == s.oracle_results
            &&& t.next_request_id == s.next_request_id
        }),
{
    let t = s.on_finalize(n);
    let d = s.drops(n);
    let f = s.request_ids.filter(d);
    lemma_filter_increasing(s.request_ids, d);
    lemma_ids_index_filter(s.request_ids, s.requests, s.next_request_id, s.survives(n));
    let reported = t.events.subrange(s.events.len() as int, t.events.len() as int);
    assert(reported =~= removal_events(f));
    assert(t.events.subrange(0, s.events.len() as int) =~= s.events);
    if f.contains(id) {
        let i = choose|i: int| 0 <= i < f.len() && f[i] == id;
        assert(reported[i] == EventInfo::RemoveRequest(id));
    }
    if reported.contains(EventInfo::RemoveRequest(id)) {
        let i = choose|i: int| 0 <= i < reported.len() && reported[i] == EventInfo::RemoveRequest(id);
        assert(f[i] == id);
        assert(f.contains(id));
    }
}

} // verus!
