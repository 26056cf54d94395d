//! The operator oracle: users file requests that carry a call and a fee,
//! the operator that a request names answers it with raw bytes, the call
//! that the request carries is then handed back with the answer put into
//! it, and requests that stay unanswered for longer than the validity period
//! are dropped when a block is finalized.

use vstd::prelude::*;
use crate::origin::{AccountId, BlockNumber, Origin, signer, ensure_signed, callback_name, callback_name_bytes};
use crate::store::{
    entries_map, keys_distinct, entry_keys, lemma_entries_map_push, lemma_entries_map_dom, lemma_entries_map_index,
    copy_bytes, entry_views, ids_increasing, ids_index, keep_where, Dated, made_by, lives_past, dies_at, find_entry,
    split_expired, lemma_increasing_distinct, lemma_entries_index,
};

verus! {

/// Amounts of the currency that pays for requests.
pub type Balance = u64;

/// A call that can have the result of an oracle request injected into it.
pub trait CallbackWithParameter: View + Sized {
    /// What `call` becomes when it is given `result`: `None` when it is a
    /// call that takes no result.
    spec fn result_call(call: Self::V, result: Seq<u8>) -> Option<Self::V>;

    /// The same call carrying `result`, when it is a call that takes one.
    fn with_result(&self, result: Vec<u8>) -> (r: Option<Self>)
        ensures
            match r {
                Some(c) => Self::result_call(self@, result@) == Some(c@),
                None => Self::result_call(self@, result@) is None,
            },
    ;
}

/// A pending request: the operator that must answer it, the calls that the
/// answer goes to, the block it was filed in, and the fee offered.
pub struct OperatorRequest<C> {
    pub operator: AccountId,
    pub callbacks: Vec<C>,
    pub created_at: BlockNumber,
    pub fee: Balance,
}

/// A pending request as a mathematical value.
pub struct OperatorRequestInfo<V> {
    pub operator: AccountId,
    pub callbacks: Seq<V>,
    pub created_at: BlockNumber,
    pub fee: Balance,
}

impl<C: View> View for OperatorRequest<C> {
    type V = OperatorRequestInfo<C::V>;

    open spec fn view(&self) -> OperatorRequestInfo<C::V> {
        OperatorRequestInfo {
            operator: self.operator,
            callbacks: self.callbacks@.map_values(|c: C| c@),
            created_at: self.created_at,
            fee: self.fee,
        }
    }
}

/// What the module reports.
#[derive(Debug, PartialEq, Eq)]
pub enum OperatorEvent {
    /// operator, specification index, request id, requester, data version, data, callback name, fee
    OracleRequest(AccountId, Vec<u8>, u64, AccountId, u64, Vec<u8>, Vec<u8>, Balance),
    /// operator, request id, answering account, result, fee
    OracleAnswer(AccountId, u64, AccountId, Vec<u8>, Balance),
    OperatorRegistered(AccountId),
    OperatorUnregistered(AccountId),
    /// A request that got no answer in time was dropped.
    KillRequest(u64),
}

/// An event as a mathematical value.
pub enum OperatorEventInfo {
    OracleRequest(AccountId, Seq<u8>, u64, AccountId, u64, Seq<u8>, Seq<u8>, Balance),
    OracleAnswer(AccountId, u64, AccountId, Seq<u8>, Balance),
    OperatorRegistered(AccountId),
    OperatorUnregistered(AccountId),
    KillRequest(u64),
}

impl View for OperatorEvent {
    type V = OperatorEventInfo;

    open spec fn view(&self) -> OperatorEventInfo {
        match self {
            OperatorEvent::OracleRequest(o, s, id, who, v, d, c, f) =>
                OperatorEventInfo::OracleRequest(*o, s@, *id, *who, *v, d@, c@, *f),
            OperatorEvent::OracleAnswer(o, id, who, r, f) => OperatorEventInfo::OracleAnswer(*o, *id, *who, r@, *f),
            OperatorEvent::OperatorRegistered(o) => OperatorEventInfo::OperatorRegistered(*o),
            OperatorEvent::OperatorUnregistered(o) => OperatorEventInfo::OperatorUnregistered(*o),
            OperatorEvent::KillRequest(id) => OperatorEventInfo::KillRequest(*id),
        }
    }
}

pub open spec fn operator_event_views(s: Seq<OperatorEvent>) -> Seq<OperatorEventInfo> {
    s.map_values(|e: OperatorEvent| e@)
}

proof fn lemma_operator_event_views_push(s: Seq<OperatorEvent>, e: OperatorEvent)
    ensures
        operator_event_views(s.push(e)) == operator_event_views(s).push(e@),
{
    assert(operator_event_views(s.push(e)) =~= operator_event_views(s).push(e@));
}

/// The events that report the dropping of the requests `ids`, in order.
pub open spec fn kill_events(ids: Seq<u64>) -> Seq<OperatorEventInfo> {
    ids.map_values(|id: u64| OperatorEventInfo::KillRequest(id))
}

/// Why a call was refused.
#[derive(Clone, Copy, Debug, PartialEq, Eq, Structural)]
pub enum OperatorError {
    /// The call was not signed.
    BadOrigin,
    UnknownOperator,
    /// No pending request has that id.
    UnknownRequest,
    /// The request names another operator.
    WrongOperator,
    OperatorAlreadyRegistered,
    /// The call that the request carries takes no result.
    UnknownCallback,
    InsufficientFee,
}

/// The block a pending request was filed in, as a function.
pub open spec fn request_made_at<V>() -> spec_fn(OperatorRequestInfo<V>) -> u64 {
    |v: OperatorRequestInfo<V>| v.created_at
}

/// The state of the module as mathematical values.
#[verifier::ext_equal]
pub struct OperatorState<V> {
    /// The registered operators. No call of the module registers one.
    pub operators: Set<AccountId>,
    /// The id that the next request gets.
    pub next_request_identifier: u64,
    /// Pending requests by id.
    pub requests: Map<u64, OperatorRequestInfo<V>>,
    /// The ids of the pending requests, in the order they were filed.
    pub request_ids: Seq<u64>,
    /// The current block.
    pub block_number: BlockNumber,
    /// How many blocks a request stays valid after the one it was filed in.
    pub validity_period: BlockNumber,
    /// Every event reported so far, oldest first.
    pub events: Seq<OperatorEventInfo>,
}

impl<V> OperatorState<V> {
    /// The invariant that every reachable state keeps.
    pub open spec fn valid(self) -> bool {
        &&& ids_index(self.request_ids, self.requests, self.next_request_identifier)
        &&& forall|id: u64| #[trigger] self.requests.contains_key(id) ==> self.requests[id].callbacks.len() == 1
    }

    /// Filing a request, signed by `origin`, to be answered by `operator`,
    /// whose answer goes to `callback`.
    pub open spec fn initiate_request(
        self,
        origin: Origin,
        operator: AccountId,
        spec_index: Seq<u8>,
        data_version: u64,
        data: Seq<u8>,
        fee: Balance,
        callback: V,
    ) -> (OperatorState<V>, Result<(), OperatorError>) {
        match signer(origin) {
            None => (self, Err(OperatorError::BadOrigin)),
            Some(who) => {
                let id = self.next_request_identifier;
                (OperatorState {
                    next_request_identifier: (id + 1) as u64,
                    requests: self.requests.insert(
                        id,
                        OperatorRequestInfo { operator, callbacks: seq![callback], created_at: self.block_number, fee },
                    ),
                    request_ids: self.request_ids.push(id),
                    events: self.events.push(
                        OperatorEventInfo::OracleRequest(
                            operator, spec_index, id, who, data_version, data, callback_name(), fee,
                        ),
                    ),
                    ..self
                }, Ok(()))
            },
        }
    }

    /// Whether filing a request would need a request id past the largest one.
    pub open spec fn request_would_overflow(self, origin: Origin) -> bool {
        signer(origin) is Some && self.next_request_identifier == u64::MAX
    }

    /// Whether pending request `id` has outlived its validity when block `n` ends.
    pub open spec fn expired(self, id: u64, n: BlockNumber) -> bool {
        n > self.requests[id].created_at + self.validity_period
    }

    /// Whether no pending request's last valid block lies past the largest block number.
    pub open spec fn expiry_fits(self) -> bool {
        forall|id: u64| #[trigger] self.requests.contains_key(id)
            ==> self.requests[id].created_at + self.validity_period <= u64::MAX
    }

    pub open spec fn survives(self, n: BlockNumber) -> spec_fn(u64) -> bool {
        lives_past(self.requests, request_made_at::<V>(), n, self.validity_period)
    }

    pub open spec fn drops(self, n: BlockNumber) -> spec_fn(u64) -> bool {
        dies_at(self.requests, request_made_at::<V>(), n, self.validity_period)
    }

    /// Finalizing block `n`: every pending request that has outlived its
    /// validity is dropped and reported, in the order the requests were filed.
    pub open spec fn on_finalize(self, n: BlockNumber) -> OperatorState<V> {
        OperatorState {
            requests: keep_where(self.requests, self.survives(n)),
            request_ids: self.request_ids.filter(self.survives(n)),
            events: self.events + kill_events(self.request_ids.filter(self.drops(n))),
            ..self
        }
    }
}

/// Answering request `request_id` with `result`, signed by `origin`: the
/// new state, and the call to dispatch with the answer in it.
pub open spec fn answer_request<C: CallbackWithParameter>(
    s: OperatorState<C::V>,
    origin: Origin,
    request_id: u64,
    result: Seq<u8>,
) -> (OperatorState<C::V>, Result<C::V, OperatorError>) {
    match signer(origin) {
        None => (s, Err(OperatorError::BadOrigin)),
        Some(who) => if !s.requests.contains_key(request_id) {
            (s, Err(OperatorError::UnknownRequest))
        } else if s.requests[request_id].operator != who {
            (s, Err(OperatorError::WrongOperator))
        } else {
            let req = s.requests[request_id];
            match C::result_call(req.callbacks[0], result) {
                None => (s, Err(OperatorError::UnknownCallback)),
                Some(call) => (OperatorState {
                    events: s.events.push(OperatorEventInfo::OracleAnswer(req.operator, request_id, who, result, req.fee)),
                    ..s
                }, Ok(call)),
            }
        },
    }
}

/// A result whose call is taken by its view.
pub open spec fn call_result_view<C: View>(r: Result<C, OperatorError>) -> Result<C::V, OperatorError> {
    match r {
        Ok(c) => Ok(c@),
        Err(e) => Err(e),
    }
}

/// The operator oracle module, generic over the calls that answers go to.
pub struct OperatorModule<C> {
    operators: Vec<AccountId>,
    next_request_identifier: u64,
    requests: Vec<(u64, OperatorRequest<C>)>,
    block_number: BlockNumber,
    validity_period: BlockNumber,
    events: Vec<OperatorEvent>,
}

impl<C: View> OperatorModule<C> {
    pub closed spec fn request_entries(&self) -> Seq<(u64, OperatorRequestInfo<C::V>)> {
        entry_views(self.requests@)
    }

    /// The representation invariant.
    pub closed spec fn wf(&self) -> bool {
        &&& ids_increasing(self.requests@)
        &&& forall|i: int| 0 <= i < self.requests@.len() ==> self.requests@[i].0 < self.next_request_identifier
        &&& forall|i: int| 0 <= i < self.requests@.len() ==> self.requests@[i].1.callbacks@.len() == 1
    }
}

impl<C: View> View for OperatorModule<C> {
    type V = OperatorState<C::V>;

    closed spec fn view(&self) -> OperatorState<C::V> {
        OperatorState {
            operators: self.operators@.to_set(),
            next_request_identifier: self.next_request_identifier,
            requests: entries_map(self.request_entries()),
            request_ids: entry_keys(self.request_entries()),
            block_number: self.block_number,
            validity_period: self.validity_period,
            events: operator_event_views(self.events@),
        }
    }
}

impl<C: CallbackWithParameter> OperatorModule<C> {
    /// A module with no requests, at block 0.
    pub fn new(validity_period: BlockNumber) -> (m: OperatorModule<C>)
        ensures
            m.wf(),
            m@.operators == Set::<AccountId>::empty(),
            m@.next_request_identifier == 0,
            m@.requests == Map::<u64, OperatorRequestInfo<C::V>>::empty(),
            m@.request_ids == Seq::<u64>::empty(),
            m@.block_number == 0,
            m@.validity_period == validity_period,
            m@.events == Seq::<OperatorEventInfo>::empty(),
    {
        let m = OperatorModule {
            operators: Vec::new(),
            next_request_identifier: 0,
            requests: Vec::new(),
            block_number: 0,
            validity_period,
            events: Vec::new(),
        };
        assert(m.request_entries() =~= Seq::empty());
        assert(m@.operators =~= Set::empty());
        assert(m@.request_ids =~= Seq::empty());
        assert(m@.events =~= Seq::empty());
        m
    }

    /// Every well-formed module stands for a valid state.
    pub proof fn lemma_view_valid(&self)
        requires
            self.wf(),
        ensures
            self@.valid(),
    {
        let re = self.request_entries();
        lemma_entries_index(self.requests@, self.next_request_identifier);
        assert forall|id: u64| #[trigger] self@.requests.contains_key(id) implies self@.requests[id].callbacks.len() == 1 by {
            lemma_entries_map_dom(re, id);
            let i = choose|i: int| 0 <= i < re.len() && re[i].0 == id;
            lemma_entries_map_index(re, i);
        }
    }

    /// Moves the module to block `n`.
    pub fn set_block_number(&mut self, n: BlockNumber)
        requires
            old(self).wf(),
        ensures
            final(self).wf(),
            final(self)@ == (OperatorState { block_number: n, ..old(self)@ }),
    {
        self.block_number = n;
        assert(self@ =~= (OperatorState { block_number: n, ..old(self)@ }));
    }

    /// Files a request to be answered by `operator`, with `callback` as the
    /// call that the answer goes to and `fee` as the fee offered. The request
    /// gets the next request id. Fails if the call is unsigned.
    pub fn initiate_request(
        &mut self,
        origin: Origin,
        operator: AccountId,
        spec_index: Vec<u8>,
        data_version: u64,
        data: Vec<u8>,
        fee: Balance,
        callback: C,
    ) -> (r: Result<(), OperatorError>)
        requires
            old(self).wf(),
            !old(self)@.request_would_overflow(origin),
        ensures
            final(self).wf(),
            final(self)@ == old(self)@.initiate_request(origin, operator, spec_index@, data_version, data@, fee, callback@).0,
            r == old(self)@.initiate_request(origin, operator, spec_index@, data_version, data@, fee, callback@).1,
    {
        let who = match ensure_signed(origin) {
            Ok(w) => w,
            Err(_) => return Err(OperatorError::BadOrigin),
        };
        let request_id = self.next_request_identifier;
        self.next_request_identifier = request_id + 1;
        let now = self.block_number;
        let ghost re = self.request_entries();
        let ghost old_events = self.events@;
        let ghost cb = callback@;
        let mut callbacks: Vec<C> = Vec::new();
        callbacks.push(callback);
        assert(callbacks@.map_values(|c: C| c@) =~= seq![cb]);
        self.requests.push((request_id, OperatorRequest { operator, callbacks, created_at: now, fee }));
        let tag = callback_name_bytes();
        let ev = OperatorEvent::OracleRequest(operator, spec_index, request_id, who, data_version, data, tag, fee);
        self.events.push(ev);
        proof {
            let info = OperatorRequestInfo { operator, callbacks: seq![cb], created_at: now, fee };
            assert(self.request_entries() =~= re.push((request_id, info)));
            lemma_entries_map_push(re, (request_id, info));
            assert(entry_keys(self.request_entries()) =~= entry_keys(re).push(request_id));
            lemma_operator_event_views_push(old_events, ev);
            assert(self@ =~= old(self)@.initiate_request(origin, operator, spec_index@, data_version, data@, fee, cb).0);
        }
        Ok(())
    }

    /// Answers pending request `request_id` with `result`: gives back the
    /// call that the request carries, with `result` put into it, for the
    /// caller to dispatch. The request stays pending. Fails if the call is
    /// unsigned, no request has that id, the request names another operator
    /// than the signer, or the call it carries takes no result.
    pub fn callback(&mut self, origin: Origin, request_id: u64, result: Vec<u8>) -> (r: Result<C, OperatorError>)
        requires
            old(self).wf(),
        ensures
            final(self).wf(),
            final(self)@ == answer_request::<C>(old(self)@, origin, request_id, result@).0,
            call_result_view(r) == answer_request::<C>(old(self)@, origin, request_id, result@).1,
    {
        let who = match ensure_signed(origin) {
            Ok(w) => w,
            Err(_) => return Err(OperatorError::BadOrigin),
        };
        let ghost re = self.request_entries();
        proof {
            lemma_entries_map_dom(re, request_id);
            assert(keys_distinct(re));
        }
        let i = match find_entry(&self.requests, request_id) {
            Some(i) => i,
            None => return Err(OperatorError::UnknownRequest),
        };
        proof {
            assert(re[i as int].0 == request_id);
            lemma_entries_map_index(re, i as int);
        }
        let operator = self.requests[i].1.operator;
        if operator != who {
            return Err(OperatorError::WrongOperator);
        }
        let fee = self.requests[i].1.fee;
        let answer = copy_bytes(&result);
        let ghost first = self.requests@[i as int].1.callbacks@[0];
        assert(self@.requests[request_id].callbacks[0] == first@);
        match self.requests[i].1.callbacks[0].with_result(answer) {
            None => Err(OperatorError::UnknownCallback),
            Some(call) => {
                let ghost old_events = self.events@;
                let ev = OperatorEvent::OracleAnswer(operator, request_id, who, result, fee);
                self.events.push(ev);
                proof {
                    lemma_operator_event_views_push(old_events, ev);
                    assert(self@ =~= answer_request::<C>(old(self)@, origin, request_id, result@).0);
                }
                Ok(call)
            },
        }
    }
}


impl<C: View> Dated for OperatorRequest<C> {
    open spec fn made_at(v: OperatorRequestInfo<C::V>) -> u64 {
        v.created_at
    }

    fn block_made(&self) -> (r: u64) {
        self.created_at
    }
}

/// Reports the dropping of the requests `ids`, in order.
fn report_kills(events: &mut Vec<OperatorEvent>, ids: &Vec<u64>)
    ensures
        operator_event_views(final(events)@) == operator_event_views(old(events)@) + kill_events(ids@),
{
    let ghost ev0 = events@;
    let mut i: usize = 0;
    assert(kill_events(ids@.take(0)) =~= Seq::empty());
    while i < ids.len()
        invariant
            0 <= i <= ids@.len(),
            operator_event_views(events@) == operator_event_views(ev0) + kill_events(ids@.take(i as int)),
        decreases ids@.len() - i,
    {
        let ghost evs = events@;
        events.push(OperatorEvent::KillRequest(ids[i]));
        proof {
            lemma_operator_event_views_push(evs, OperatorEvent::KillRequest(ids@[i as int]));
            assert(kill_events(ids@.take(i + 1)) =~= kill_events(ids@.take(i as int)).push(
                OperatorEventInfo::KillRequest(ids@[i as int]),
            ));
        }
        i = i + 1;
    }
    assert(ids@.take(i as int) =~= ids@);
}

impl<C: CallbackWithParameter> OperatorModule<C> {
    /// Ends block `n`: drops every pending request that was filed more than
    /// the validity period before `n`, and reports each one, in the order the
    /// requests were filed.
    pub fn on_finalize(&mut self, n: BlockNumber)
        requires
            old(self).wf(),
            old(self)@.expiry_fits(),
        ensures
            final(self).wf(),
            final(self)@ == old(self)@.on_finalize(n),
    {
        let ghost s0 = self@;
        let ghost re = self.request_entries();
        proof {
            self.lemma_view_valid();
            assert(keys_distinct(re));
        }
        let mut pending: Vec<(u64, OperatorRequest<C>)> = Vec::new();
        std::mem::swap(&mut pending, &mut self.requests);
        proof {
            assert forall|j: int| 0 <= j < pending@.len() implies OperatorRequest::<C>::made_at(#[trigger] pending@[j].1@)
                + s0.validity_period <= u64::MAX by {
                lemma_entries_map_index(re, j);
                assert(s0.requests.contains_key(pending@[j].0));
            }
        }
        let ghost orig = pending@;
        let (kept, dropped) = split_expired(pending, n, self.validity_period);
        self.requests = kept;
        report_kills(&mut self.events, &dropped);
        proof {
            assert(made_by::<OperatorRequest<C>>() =~= request_made_at::<C::V>());
            assert forall|i: int| 0 <= i < self.requests@.len() implies self.requests@[i].0 < self.next_request_identifier
                && self.requests@[i].1.callbacks@.len() == 1 by {
                let id = self.requests@[i].0;
                assert(s0.requests.contains_key(id));
                lemma_increasing_distinct(self.requests@);
                lemma_entries_map_index(entry_views(self.requests@), i);
            }
            assert(self@ =~= s0.on_finalize(n));
        }
    }
}

impl<C: CallbackWithParameter> OperatorModule<C> {
    /// The id that the next request gets.
    pub fn request_identifier(&self) -> (r: u64)
        ensures
            r == self@.next_request_identifier,
    {
        self.next_request_identifier
    }

    /// Whether `who` is a registered operator.
    pub fn operator(&self, who: AccountId) -> (r: bool)
        ensures
            r == self@.operators.contains(who),
    {
        let mut i: usize = 0;
        while i < self.operators.len()
            invariant
                0 <= i <= self.operators@.len(),
                forall|j: int| 0 <= j < i ==> self.operators@[j] != who,
            decreases self.operators@.len() - i,
        {
            if self.operators[i] == who {
                assert(self.operators@.contains(who));
                return true;
            }
            i = i + 1;
        }
        false
    }

    /// Whether request `id` is pending.
    pub fn contains_request(&self, id: u64) -> (r: bool)
        requires
            self.wf(),
        ensures
            r == self@.requests.contains_key(id),
    {
        let ghost re = self.request_entries();
        proof {
            lemma_entries_map_dom(re, id);
        }
        match find_entry(&self.requests, id) {
            Some(i) => {
                assert(re[i as int].0 == id);
                true
            },
            None => false,
        }
    }

    /// The calls that pending request `id` carries, as stored; empty when no
    /// request with that id is pending.
    pub closed spec fn stored_calls(&self, id: u64) -> Seq<C> {
        if exists|i: int| 0 <= i < self.requests@.len() && self.requests@[i].0 == id {
            let i = choose|i: int| 0 <= i < self.requests@.len() && self.requests@[i].0 == id;
            self.requests@[i].1.callbacks@
        } else {
            Seq::empty()
        }
    }

    /// The stored calls of a request are the ones its view lists.
    pub proof fn lemma_stored_calls(&self, id: u64)
        requires
            self.wf(),
        ensures
            self@.requests.contains_key(id) ==> self.stored_calls(id).map_values(|c: C| c@)
                == self@.requests[id].callbacks,
            !self@.requests.contains_key(id) ==> self.stored_calls(id) == Seq::<C>::empty(),
    {
        let re = self.request_entries();
        lemma_entries_map_dom(re, id);
        lemma_increasing_distinct(self.requests@);
        if exists|i: int| 0 <= i < self.requests@.len() && self.requests@[i].0 == id {
            let i = choose|i: int| 0 <= i < self.requests@.len() && self.requests@[i].0 == id;
            assert(re[i].0 == id);
            lemma_entries_map_index(re, i);
        } else {
            assert forall|i: int| 0 <= i < re.len() implies re[i].0 != id by {
                assert(self.requests@[i].0 == re[i].0);
            }
        }
    }

    /// The pending request `id`: the operator it names, clones of the calls
    /// it carries, the block it was filed in and its fee; `(0, [], 0, 0)`
    /// when no request with that id is pending.
    pub fn request(&self, id: u64) -> (r: (AccountId, Vec<C>, BlockNumber, Balance))
        where C: Clone,
        requires
            self.wf(),
        ensures
            self@.requests.contains_key(id) ==> r.0 == self@.requests[id].operator
                && r.2 == self@.requests[id].created_at && r.3 == self@.requests[id].fee,
            r.1@.len() == self.stored_calls(id).len(),
            forall|k: int| 0 <= k < r.1@.len() ==> cloned::<C>(self.stored_calls(id)[k], #[trigger] r.1@[k]),
            !self@.requests.contains_key(id) ==> r.0 == 0 && r.1@.len() == 0 && r.2 == 0 && r.3 == 0,
    {
        let ghost re = self.request_entries();
        proof {
            lemma_entries_map_dom(re, id);
            lemma_increasing_distinct(self.requests@);
            self.lemma_stored_calls(id);
        }
        match find_entry(&self.requests, id) {
            Some(i) => {
                proof {
                    lemma_entries_map_index(re, i as int);
                    let j = choose|j: int| 0 <= j < self.requests@.len() && self.requests@[j].0 == id;
                    assert(re[j].0 == id && re[i as int].0 == id);
                    assert(j == i);
                }
                let q = &self.requests[i].1;
                let calls = q.callbacks.clone();
                (q.operator, calls, q.created_at, q.fee)
            },
            None => (0, Vec::new(), 0, 0),
        }
    }

    /// Every event reported so far, oldest first.
    pub fn events(&self) -> (r: &Vec<OperatorEvent>)
        ensures
            operator_event_views(r@) == self@.events,
    {
        &self.events
    }
}
} // verus!
