//! Laws of the operator oracle and of the runtime around it: what the
//! oracle's operations keep, and what an answer amounts to for the module
//! that asked.

use vstd::prelude::*;
use crate::origin::{AccountId, BlockNumber, Origin, signer, callback_name};
use crate::operator::{
    OperatorState, OperatorRequestInfo, OperatorError, OperatorEventInfo, CallbackWithParameter, answer_request, kill_events,
};
use crate::template::{TemplateCallInfo, TemplateError, le_i128};
use crate::runtime::{RuntimeState, dispatch_effect, answer_effect};
use crate::store::{lemma_ids_index_push, lemma_ids_index_filter, lemma_filter_increasing};

verus! {

/// Every operation of the operator oracle keeps its state valid: pending
/// request ids are distinct, listed in the order they were filed, all below
/// the next request id, and each request carries exactly one call.
pub proof fn law_oracle_operations_keep_validity<C: CallbackWithParameter>(
    s: OperatorState<C::V>,
    origin: Origin,
    operator: AccountId,
    spec_index: Seq<u8>,
    data_version: u64,
    data: Seq<u8>,
    fee: u64,
    callback: C::V,
    request_id: u64,
    result: Seq<u8>,
    n: BlockNumber,
)
    requires
        s.valid(),
        !s.request_would_overflow(origin),
    ensures
        s.initiate_request(origin, operator, spec_index, data_version, data, fee, callback).0.valid(),
        answer_request::<C>(s, origin, request_id, result).0.valid(),
        s.on_finalize(n).valid(),
{
    if let Some(_) = signer(origin) {
        lemma_ids_index_push(
            s.request_ids,
            s.requests,
            s.next_request_identifier,
            OperatorRequestInfo { operator, callbacks: seq![callback], created_at: s.block_number, fee },
        );
    }
    lemma_ids_index_filter(s.request_ids, s.requests, s.next_request_identifier, s.survives(n));
}

/// The answer to a request that the template module sends reaches it: when
/// the operator that the request names answers with the encoding of an
/// `i128`, the template module holds that `i128`.
pub proof fn law_answer_reaches_requester(
    s: RuntimeState,
    requester: AccountId,
    operator: AccountId,
    specid: Seq<u8>,
    answer: Seq<u8>,
)
    requires
        s.oracle.valid(),
        s.oracle.next_request_identifier < u64::MAX,
        answer.len() >= 16,
    ensures
        ({
            let (s1, r1) = dispatch_effect(s, TemplateCallInfo::SendRequest(operator, specid), Origin::Signed(requester));
            let id = s.oracle.next_request_identifier;
            let (s2, r2) = answer_effect(s1, Origin::Signed(operator), id, answer);
            &&& r1 == Ok::<(), TemplateError>(())
            &&& s1.oracle.requests.contains_key(id)
            &&& s1.oracle.requests[id].operator == operator
            &&& r2 == Ok::<(), OperatorError>(())
            &&& s2.stored == le_i128(answer)
        }),
{
}

/// Only the operator that a request names can answer it: anyone else is
/// refused, and neither the oracle nor the asking module changes.
pub proof fn law_only_named_operator_answers(s: RuntimeState, request_id: u64, other: AccountId, answer: Seq<u8>)
    requires
        s.oracle.requests.contains_key(request_id),
        s.oracle.requests[request_id].operator != other,
    ensures
        answer_effect(s, Origin::Signed(other), request_id, answer) == (s, Err::<(), OperatorError>(OperatorError::WrongOperator)),
{
    assert(answer_effect(s, Origin::Signed(other), request_id, answer).0 =~= s);
}

/// Answering leaves the request pending until it expires, so its operator
/// can answer it again: the asking module then holds the latest answer.
pub proof fn law_latest_answer_counts(
    s: RuntimeState,
    operator: AccountId,
    request_id: u64,
    first: Seq<u8>,
    second: Seq<u8>,
)
    requires
        s.oracle.requests.contains_key(request_id),
        s.oracle.requests[request_id].operator == operator,
        s.oracle.requests[request_id].callbacks.len() == 1,
        s.oracle.requests[request_id].callbacks[0] is Callback,
        first.len() >= 16,
        second.len() >= 16,
    ensures
        ({
            let (s1, r1) = answer_effect(s, Origin::Signed(operator), request_id, first);
            let (s2, r2) = answer_effect(s1, Origin::Signed(operator), request_id, second);
            &&& r1 == Ok::<(), OperatorError>(())
            &&& s1.oracle.requests == s.oracle.requests
            &&& s1.stored == le_i128(first)
            &&& r2 == Ok::<(), OperatorError>(())
            &&& s2.stored == le_i128(second)
        }),
{
}


/// Filing a request with the operator oracle succeeds exactly when the call
/// is signed. The request then gets the old next request id, is pending
/// under that id, as of the current block, with the operator, the one call
/// and the fee it was filed with, is listed last, and the reported request
/// carries that same id, the requester, the data, the callback name and the
/// fee. No other request changes. A refused request changes nothing.
pub proof fn law_oracle_request_gets_next_id<V>(
    s: OperatorState<V>,
    requester: AccountId,
    operator: AccountId,
    spec_index: Seq<u8>,
    data_version: u64,
    data: Seq<u8>,
    fee: u64,
    callback: V,
)
    requires
        s.valid(),
        !s.request_would_overflow(Origin::Signed(requester)),
    ensures
        ({
            let (t, r) = s.initiate_request(Origin::Signed(requester), operator, spec_index, data_version, data, fee, callback);
            let id = s.next_request_identifier;
            &&& r == Ok::<(), OperatorError>(())
            &&& !s.requests.contains_key(id)
            &&& t.next_request_identifier == id + 1
            &&& t.requests == s.requests.insert(
                id,
                OperatorRequestInfo { operator, callbacks: seq![callback], created_at: s.block_number, fee },
            )
            &&& t.request_ids == s.request_ids.push(id)
            &&& t.events == s.events.push(
                OperatorEventInfo::OracleRequest(operator, spec_index, id, requester, data_version, data, callback_name(), fee),
            )
        }),
        s.initiate_request(Origin::Unsigned, operator, spec_index, data_version, data, fee, callback)
            == (s, Err::<(), OperatorError>(OperatorError::BadOrigin)),
{
}

/// Answering succeeds exactly when the request is pending, the signer is the
/// operator it names, and the call it carries takes a result. The call handed
/// back is then that call with the answer put into it; the request stays
/// pending, and the answer is reported with the request's fee. A refused
/// answer changes nothing.
pub proof fn law_oracle_answer_hands_back_call<C: CallbackWithParameter>(
    s: OperatorState<C::V>,
    who: AccountId,
    request_id: u64,
    result: Seq<u8>,
)
    ensures
        ({
            let (t, r) = answer_request::<C>(s, Origin::Signed(who), request_id, result);
            let req = s.requests[request_id];
            &&& (r is Ok <==> s.requests.contains_key(request_id) && req.operator == who
                && C::result_call(req.callbacks[0], result) is Some)
            &&& !s.requests.contains_key(request_id) ==> r == Err::<C::V, OperatorError>(OperatorError::UnknownRequest)
            &&& r is Ok ==> r == Ok::<C::V, OperatorError>(C::result_call(req.callbacks[0], result).unwrap())
            &&& r is Ok ==> t.requests == s.requests && t.request_ids == s.request_ids
            &&& r is Ok ==> t.events == s.events.push(
                OperatorEventInfo::OracleAnswer(who, request_id, who, result, req.fee),
            )
            &&& r is Err ==> t == s
        }),
{
}

/// Finalizing block `n` keeps exactly the pending requests filed no more than
/// the validity period before `n`, unchanged, and drops every other one, so
/// that a later answer to it is refused. The events reported so far stay as
/// they were; after them come only kill reports, one for each dropped request
/// and none for any other id, in the order the requests were filed.
pub proof fn law_oracle_finalize_drops_exactly_expired<C: CallbackWithParameter>(
    s: OperatorState<C::V>,
    n: BlockNumber,
    id: u64,
    who: AccountId,
    result: Seq<u8>,
)
    requires
        s.valid(),
    ensures
        ({
            let t = s.on_finalize(n);
            let reported = t.events.subrange(s.events.len() as int, t.events.len() as int);
            &&& (t.requests.contains_key(id)
                <==> s.requests.contains_key(id) && n <= s.requests[id].created_at + s.validity_period)
            &&& t.requests.contains_key(id) ==> t.requests[id] == s.requests[id]
            &&& (t.request_ids.contains(id) <==> t.requests.contains_key(id))
            &&& s.events.len() <= t.events.len()
            &&& t.events.subrange(0, s.events.len() as int) == s.events
            &&& (reported.contains(OperatorEventInfo::KillRequest(id))
                <==> s.requests.contains_key(id) && n > s.requests[id].created_at + s.validity_period)
            &&& forall|k: int| 0 <= k < reported.len() ==> #[trigger] reported[k] is KillRequest
            &&& forall|j: int, k: int| 0 <= j < k < reported.len()
                ==> #[trigger] reported[j]->KillRequest_0 < #[trigger] reported[k]->KillRequest_0
            &&& !t.requests.contains_key(id) ==> answer_request::<C>(t, Origin::Signed(who), id, result).1
                == Err::<C::V, OperatorError>(OperatorError::UnknownRequest)
            &&& t.next_request_identifier == s.next_request_identifier
        }),
{
    let t = s.on_finalize(n);
    let d = s.drops(n);
    let f = s.request_ids.filter(d);
    lemma_filter_increasing(s.request_ids, d);
    lemma_ids_index_filter(s.request_ids, s.requests, s.next_request_identifier, s.survives(n));
    let reported = t.events.subrange(s.events.len() as int, t.events.len() as int);
    assert(reported =~= kill_events(f));
    assert(t.events.subrange(0, s.events.len() as int) =~= s.events);
    if f.contains(id) {
        let i = choose|i: int| 0 <= i < f.len() && f[i] == id;
        assert(reported[i] == OperatorEventInfo::KillRequest(id));
    }
    if reported.contains(OperatorEventInfo::KillRequest(id)) {
        let i = choose|i: int| 0 <= i < reported.len() && reported[i] == OperatorEventInfo::KillRequest(id);
        assert(f[i] == id);
        assert(f.contains(id));
    }
}

} // verus!
