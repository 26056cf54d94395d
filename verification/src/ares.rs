//! The aggregator oracle: aggregators register themselves, users file
//! requests for a price named by a specification index, the aggregator that a
//! request names answers it, and requests that stay unanswered for longer than
//! the validity period are dropped when a block is finalized.

use vstd::prelude::*;
use crate::origin::{AccountId, BlockNumber, Origin, signer, ensure_signed, callback_name, callback_name_bytes};
use crate::store::{
    entries_map, keys_distinct, entry_keys, lemma_entries_map_push, lemma_entries_map_dom, lemma_entries_map_index, lemma_entries_map_remove, lemma_entries_map_update, bytes_eq, copy_bytes,
    entry_views, ids_increasing, ids_index, keep_where, Dated, made_by, lives_past, dies_at, find_entry, split_expired, lemma_entries_index,
};

verus! {

/// A registered aggregator.
#[derive(Debug, PartialEq, Eq)]
pub struct Aggregator {
    pub account: AccountId,
    pub registered_at: BlockNumber,
    pub source: Vec<u8>,
}

/// What a registered aggregator is, as a mathematical value.
pub struct AggregatorInfo {
    pub account: AccountId,
    pub registered_at: BlockNumber,
    pub source: Seq<u8>,
}

impl View for Aggregator {
    type V = AggregatorInfo;

    open spec fn view(&self) -> AggregatorInfo {
        AggregatorInfo { account: self.account, registered_at: self.registered_at, source: self.source@ }
    }
}

/// A pending request: the aggregator that must answer it, the block it was
/// filed in, and the specification index that names the price.
#[derive(Debug, PartialEq, Eq)]
pub struct Request {
    pub aggregator: AccountId,
    pub created_at: BlockNumber,
    pub spec_index: Vec<u8>,
}

/// What a pending request is, as a mathematical value.
pub struct RequestInfo {
    pub aggregator: AccountId,
    pub created_at: BlockNumber,
    pub spec_index: Seq<u8>,
}

impl View for Request {
    type V = RequestInfo;

    open spec fn view(&self) -> RequestInfo {
        RequestInfo { aggregator: self.aggregator, created_at: self.created_at, spec_index: self.spec_index@ }
    }
}

/// What the module reports.
#[derive(Debug, PartialEq, Eq)]
pub enum Event {
    /// aggregator, specification index, request id, requester, data version, data, callback name
    OracleRequest(AccountId, Vec<u8>, u64, AccountId, u64, Vec<u8>, Vec<u8>),
    /// aggregator, request id, answering account, result
    OracleResult(AccountId, u64, AccountId, u64),
    AggregatorRegistered(AccountId),
    AggregatorUnregistered(AccountId),
    /// A request that got no answer in time was dropped.
    RemoveRequest(u64),
}

/// An event as a mathematical value.
pub enum EventInfo {
    OracleRequest(AccountId, Seq<u8>, u64, AccountId, u64, Seq<u8>, Seq<u8>),
    OracleResult(AccountId, u64, AccountId, u64),
    AggregatorRegistered(AccountId),
    AggregatorUnregistered(AccountId),
    RemoveRequest(u64),
}

impl View for Event {
    type V = EventInfo;

    open spec fn view(&self) -> EventInfo {
        match self {
            Event::OracleRequest(a, s, id, who, v, d, c) => EventInfo::OracleRequest(*a, s@, *id, *who, *v, d@, c@),
            Event::OracleResult(a, id, who, r) => EventInfo::OracleResult(*a, *id, *who, *r),
            Event::AggregatorRegistered(a) => EventInfo::AggregatorRegistered(*a),
            Event::AggregatorUnregistered(a) => EventInfo::AggregatorUnregistered(*a),
            Event::RemoveRequest(id) => EventInfo::RemoveRequest(*id),
        }
    }
}

/// The views of a sequence of events.
pub open spec fn event_views(s: Seq<Event>) -> Seq<EventInfo> {
    s.map_values(|e: Event| e@)
}

proof fn lemma_event_views_push(s: Seq<Event>, e: Event)
    ensures
        event_views(s.push(e)) == event_views(s).push(e@),
{
    assert(event_views(s.push(e)) =~= event_views(s).push(e@));
}

/// The events that report the dropping of the requests `ids`, in order.
pub open spec fn removal_events(ids: Seq<u64>) -> Seq<EventInfo> {
    ids.map_values(|id: u64| EventInfo::RemoveRequest(id))
}

/// Why a call was refused.
#[derive(Clone, Copy, Debug, PartialEq, Eq, Structural)]
pub enum AresError {
    /// The call was not signed.
    BadOrigin,
    /// The aggregator is not registered.
    UnknownAggregator,
    /// No pending request has that id.
    UnknownRequest,
    /// The request names another aggregator.
    WrongAggregator,
    /// The account is registered already.
    AggregatorAlreadyRegistered,
}

/// The state of the module as mathematical values.
#[verifier::ext_equal]
pub struct AresState {
    /// Registered aggregators by account.
    pub aggregators: Map<AccountId, AggregatorInfo>,
    /// The id that the next request gets.
    pub next_request_id: u64,
    /// Pending requests by id.
    pub requests: Map<u64, RequestInfo>,
    /// The ids of the pending requests, in the order they were filed.
    pub request_ids: Seq<u64>,
    /// The last answer for each specification index.
    pub oracle_results: Map<Seq<u8>, u64>,
    /// The current block.
    pub block_number: BlockNumber,
    /// How many blocks a request stays valid after the one it was filed in.
    pub validity_period: BlockNumber,
    /// Every event reported so far, oldest first.
    pub events: Seq<EventInfo>,
}

impl AresState {
    /// The invariant that every reachable state keeps.
    pub open spec fn valid(self) -> bool {
        &&& forall|a: AccountId| #[trigger] self.aggregators.contains_key(a) ==> self.aggregators[a].account == a
        &&& ids_index(self.request_ids, self.requests, self.next_request_id)
    }

    /// Registering the signer of `origin` as an aggregator that reads `source`.
    pub open spec fn register_aggregator(self, origin: Origin, source: Seq<u8>) -> (AresState, Result<(), AresError>) {
        match signer(origin) {
            None => (self, Err(AresError::BadOrigin)),
            Some(who) => if self.aggregators.contains_key(who) {
                (self, Err(AresError::AggregatorAlreadyRegistered))
            } else {
                (AresState {
                    aggregators: self.aggregators.insert(
                        who,
                        AggregatorInfo { account: who, registered_at: self.block_number, source },
                    ),
                    events: self.events.push(EventInfo::AggregatorRegistered(who)),
                    ..self
                }, Ok(()))
            },
        }
    }

    /// Unregistering the signer of `origin`.
    pub open spec fn unregister_aggregator(self, origin: Origin) -> (AresState, Result<(), AresError>) {
        match signer(origin) {
            None => (self, Err(AresError::BadOrigin)),
            Some(who) => if !self.aggregators.contains_key(who) {
                (self, Err(AresError::UnknownAggregator))
            } else {
                (AresState {
                    aggregators: self.aggregators.remove(who),
                    events: self.events.push(EventInfo::AggregatorUnregistered(who)),
                    ..self
                }, Ok(()))
            },
        }
    }
}

/// The aggregator oracle module.
pub struct AresModule {
    aggregators: Vec<Aggregator>,
    next_request_id: u64,
    requests: Vec<(u64, Request)>,
    oracle_results: Vec<(Vec<u8>, u64)>,
    block_number: BlockNumber,
    validity_period: BlockNumber,
    events: Vec<Event>,
}

impl AresModule {
    pub closed spec fn aggregator_entries(&self) -> Seq<(AccountId, AggregatorInfo)> {
        self.aggregators@.map_values(|a: Aggregator| (a.account, a@))
    }

    pub closed spec fn request_entries(&self) -> Seq<(u64, RequestInfo)> {
        entry_views(self.requests@)
    }

    pub closed spec fn result_entries(&self) -> Seq<(Seq<u8>, u64)> {
        self.oracle_results@.map_values(|e: (Vec<u8>, u64)| (e.0@, e.1))
    }

    /// The representation invariant.
    pub closed spec fn wf(&self) -> bool {
        &&& keys_distinct(self.aggregator_entries())
        &&& keys_distinct(self.result_entries())
        &&& ids_increasing(self.requests@)
        &&& forall|i: int| 0 <= i < self.requests@.len() ==> self.requests@[i].0 < self.next_request_id
    }
}

impl View for AresModule {
    type V = AresState;

    closed spec fn view(&self) -> AresState {
        AresState {
            aggregators: entries_map(self.aggregator_entries()),
            next_request_id: self.next_request_id,
            requests: entries_map(self.request_entries()),
            request_ids: entry_keys(self.request_entries()),
            oracle_results: entries_map(self.result_entries()),
            block_number: self.block_number,
            validity_period: self.validity_period,
            events: event_views(self.events@),
        }
    }
}

impl AresModule {
    /// A module with no aggregators, no requests and no results, at block 0.
    pub fn new(validity_period: BlockNumber) -> (m: AresModule)
        ensures
            m.wf(),
            m@.aggregators == Map::<AccountId, AggregatorInfo>::empty(),
            m@.next_request_id == 0,
            m@.requests == Map::<u64, RequestInfo>::empty(),
            m@.request_ids == Seq::<u64>::empty(),
            m@.oracle_results == Map::<Seq<u8>, u64>::empty(),
            m@.block_number == 0,
            m@.validity_period == validity_period,
            m@.events == Seq::<EventInfo>::empty(),
    {
        let m = AresModule {
            aggregators: Vec::new(),
            next_request_id: 0,
            requests: Vec::new(),
            oracle_results: Vec::new(),
            block_number: 0,
            validity_period,
            events: Vec::new(),
        };
        assert(m.aggregator_entries() =~= Seq::empty());
        assert(m.request_entries() =~= Seq::empty());
        assert(m.result_entries() =~= Seq::empty());
        assert(m@.request_ids =~= Seq::empty());
        assert(m@.events =~= Seq::empty());
        m
    }

    /// Every well-formed module stands for a valid state.
    pub proof fn lemma_view_valid(&self)
        requires
            self.wf(),
        ensures
            self@.valid(),
    {
        let ae = self.aggregator_entries();
        assert forall|a: AccountId| #[trigger] self@.aggregators.contains_key(a) implies self@.aggregators[a].account == a by {
            lemma_entries_map_dom(ae, a);
            let i = choose|i: int| 0 <= i < ae.len() && ae[i].0 == a;
            lemma_entries_map_index(ae, i);
        }
        lemma_entries_index(self.requests@, self.next_request_id);
    }

    /// Moves the module to block `n`.
    pub fn set_block_number(&mut self, n: BlockNumber)
        requires
            old(self).wf(),
        ensures
            final(self).wf(),
            final(self)@ == (AresState { block_number: n, ..old(self)@ }),
    {
        self.block_number = n;
        assert(self@ =~= (AresState { block_number: n, ..old(self)@ }));
    }

    /// The index of `who` among the aggregators.
    fn find_aggregator(&self, who: AccountId) -> (r: Option<usize>)
        ensures
            match r {
                Some(i) => i < self.aggregators@.len() && self.aggregators@[i as int].account == who,
                None => forall|i: int| 0 <= i < self.aggregators@.len() ==> self.aggregators@[i].account != who,
            },
    {
        let mut i: usize = 0;
        while i < self.aggregators.len()
            invariant
                0 <= i <= self.aggregators@.len(),
                forall|j: int| 0 <= j < i ==> self.aggregators@[j].account != who,
            decreases self.aggregators@.len() - i,
        {
            if self.aggregators[i].account == who {
                return Some(i);
            }
            i = i + 1;
        }
        None
    }

    /// Registers the signer as an aggregator that reads prices from `source`.
    /// Fails if the call is unsigned or the signer is registered already.
    pub fn register_aggregator(&mut self, origin: Origin, source: Vec<u8>) -> (r: Result<(), AresError>)
        requires
            old(self).wf(),
        ensures
            final(self).wf(),
            final(self)@ == old(self)@.register_aggregator(origin, source@).0,
            r == old(self)@.register_aggregator(origin, source@).1,
    {
        let who = match ensure_signed(origin) {
            Ok(w) => w,
            Err(_) => return Err(AresError::BadOrigin),
        };
        let ghost ae = self.aggregator_entries();
        proof {
            lemma_entries_map_dom(ae, who);
        }
        if let Some(i) = self.find_aggregator(who) {
            assert(ae[i as int].0 == who);
            return Err(AresError::AggregatorAlreadyRegistered);
        }
        let now = self.block_number;
        let ghost old_events = self.events@;
        self.aggregators.push(Aggregator { account: who, registered_at: now, source });
        self.events.push(Event::AggregatorRegistered(who));
        proof {
            let info = AggregatorInfo { account: who, registered_at: now, source: source@ };
            assert(self.aggregator_entries() =~= ae.push((who, info)));
            lemma_entries_map_push(ae, (who, info));
            lemma_event_views_push(old_events, Event::AggregatorRegistered(who));
            assert(self@ =~= old(self)@.register_aggregator(origin, source@).0);
        }
        Ok(())
    }

    /// Unregisters the signer. Fails if the call is unsigned or the signer
    /// is not registered.
    pub fn unregister_aggregator(&mut self, origin: Origin) -> (r: Result<(), AresError>)
        requires
            old(self).wf(),
        ensures
            final(self).wf(),
            final(self)@ == old(self)@.unregister_aggregator(origin).0,
            r == old(self)@.unregister_aggregator(origin).1,
    {
        let who = match ensure_signed(origin) {
            Ok(w) => w,
            Err(_) => return Err(AresError::BadOrigin),
        };
        let ghost ae = self.aggregator_entries();
        proof {
            lemma_entries_map_dom(ae, who);
        }
        let i = match self.find_aggregator(who) {
            Some(i) => i,
            None => return Err(AresError::UnknownAggregator),
        };
        let ghost old_events = self.events@;
        let removed = self.aggregators.remove(i);
        // The stored record always names the account it is stored under.
        assert(removed.account == who);
        self.events.push(Event::AggregatorUnregistered(who));
        proof {
            assert(self.aggregator_entries() =~= ae.remove(i as int));
            lemma_entries_map_remove(ae, i as int);
            lemma_event_views_push(old_events, Event::AggregatorUnregistered(who));
            assert(self@ =~= old(self)@.unregister_aggregator(origin).0);
        }
        Ok(())
    }
}


impl AresState {
    /// Filing a request, signed by `origin`, for the price that `spec_index`
    /// names, to be answered by `aggregator`.
    pub open spec fn initiate_request(
        self,
        origin: Origin,
        aggregator: AccountId,
        spec_index: Seq<u8>,
        data_version: u64,
        data: Seq<u8>,
    ) -> (AresState, Result<(), AresError>) {
        match signer(origin) {
            None => (self, Err(AresError::BadOrigin)),
            Some(who) => if !self.aggregators.contains_key(aggregator) {
                (self, Err(AresError::UnknownAggregator))
            } else {
                let id = self.next_request_id;
                (AresState {
                    next_request_id: (id + 1) as u64,
                    requests: self.requests.insert(
                        id,
                        RequestInfo { aggregator, created_at: self.block_number, spec_index },
                    ),
                    request_ids: self.request_ids.push(id),
                    events: self.events.push(
                        EventInfo::OracleRequest(aggregator, spec_index, id, who, data_version, data, callback_name()),
                    ),
                    ..self
                }, Ok(()))
            },
        }
    }

    /// Whether filing a request would need a request id past the largest one.
    pub open spec fn request_would_overflow(self, origin: Origin, aggregator: AccountId) -> bool {
        &&& signer(origin) is Some
        &&& self.aggregators.contains_key(aggregator)
        &&& self.next_request_id == u64::MAX
    }

    /// Answering request `request_id` with `result`, signed by `origin`.
    pub open spec fn feed_result(self, origin: Origin, request_id: u64, result: u64) -> (AresState, Result<(), AresError>) {
        match signer(origin) {
            None => (self, Err(AresError::BadOrigin)),
            Some(who) => if !self.requests.contains_key(request_id) {
                (self, Err(AresError::UnknownRequest))
            } else if self.requests[request_id].aggregator != who {
                (self, Err(AresError::WrongAggregator))
            } else {
                let req = self.requests[request_id];
                (AresState {
                    requests: self.requests.remove(request_id),
                    request_ids: self.request_ids.remove(self.request_ids.index_of(request_id)),
                    oracle_results: self.oracle_results.insert(req.spec_index, result),
                    events: self.events.push(EventInfo::OracleResult(req.aggregator, request_id, who, result)),
                    ..self
                }, Ok(()))
            },
        }
    }

    /// Whether pending request `id` has outlived its validity when block `n` ends.
    pub open spec fn expired(self, id: u64, n: BlockNumber) -> bool {
        n > self.requests[id].created_at + self.validity_period
    }

    /// Whether no pending request's last valid block lies past the largest block number.
    pub open spec fn expiry_fits(self) -> bool {
        forall|id: u64| #[trigger] self.requests.contains_key(id)
            ==> self.requests[id].created_at + self.validity_period <= u64::MAX
    }

    /// The requests that survive the end of block `n`.
    pub open spec fn survives(self, n: BlockNumber) -> spec_fn(u64) -> bool {
        lives_past(self.requests, made_by::<Request>(), n, self.validity_period)
    }

    /// The requests that are dropped at the end of block `n`.
    pub open spec fn drops(self, n: BlockNumber) -> spec_fn(u64) -> bool {
        dies_at(self.requests, made_by::<Request>(), n, self.validity_period)
    }

    /// Finalizing block `n`: every pending request that has outlived its
    /// validity is dropped and reported, in the order the requests were filed.
    pub open spec fn on_finalize(self, n: BlockNumber) -> AresState {
        AresState {
            requests: keep_where(self.requests, self.survives(n)),
            request_ids: self.request_ids.filter(self.survives(n)),
            events: self.events + removal_events(self.request_ids.filter(self.drops(n))),
            ..self
        }
    }
}

impl AresModule {
    /// The index of the stored result for `key`.
    fn find_result(&self, key: &[u8]) -> (r: Option<usize>)
        ensures
            match r {
                Some(i) => i < self.oracle_results@.len() && self.oracle_results@[i as int].0@ == key@,
                None => forall|i: int| 0 <= i < self.oracle_results@.len() ==> self.oracle_results@[i].0@ != key@,
            },
    {
        let mut i: usize = 0;
        while i < self.oracle_results.len()
            invariant
                0 <= i <= self.oracle_results@.len(),
                forall|j: int| 0 <= j < i ==> self.oracle_results@[j].0@ != key@,
            decreases self.oracle_results@.len() - i,
        {
            if bytes_eq(self.oracle_results[i].0.as_slice(), key) {
                return Some(i);
            }
            i = i + 1;
        }
        None
    }

    /// Files a request for the price that `spec_index` names, to be answered
    /// by `aggregator`. The request gets the next request id. Fails if the
    /// call is unsigned or `aggregator` is not registered.
    pub fn initiate_request(
        &mut self,
        origin: Origin,
        aggregator: AccountId,
        spec_index: Vec<u8>,
        data_version: u64,
        data: Vec<u8>,
    ) -> (r: Result<(), AresError>)
        requires
            old(self).wf(),
            !old(self)@.request_would_overflow(origin, aggregator),
        ensures
            final(self).wf(),
            final(self)@ == old(self)@.initiate_request(origin, aggregator, spec_index@, data_version, data@).0,
            r == old(self)@.initiate_request(origin, aggregator, spec_index@, data_version, data@).1,
    {
        let who = match ensure_signed(origin) {
            Ok(w) => w,
            Err(_) => return Err(AresError::BadOrigin),
        };
        let ghost ae = self.aggregator_entries();
        proof {
            lemma_entries_map_dom(ae, aggregator);
        }
        match self.find_aggregator(aggregator) {
            Some(i) => {
                assert(ae[i as int].0 == aggregator);
            },
            None => return Err(AresError::UnknownAggregator),
        }
        let request_id = self.next_request_id;
        self.next_request_id = request_id + 1;
        let now = self.block_number;
        let ghost re = self.request_entries();
        let ghost old_events = self.events@;
        let stored_index = copy_bytes(&spec_index);
        self.requests.push((request_id, Request { aggregator, created_at: now, spec_index: stored_index }));
        let tag = callback_name_bytes();
        let ev = Event::OracleRequest(aggregator, spec_index, request_id, who, data_version, data, tag);
        let ghost evv = ev@;
        self.events.push(ev);
        proof {
            let info = RequestInfo { aggregator, created_at: now, spec_index: spec_index@ };
            assert(self.request_entries() =~= re.push((request_id, info)));
            lemma_entries_map_push(re, (request_id, info));
            assert(entry_keys(self.request_entries()) =~= entry_keys(re).push(request_id));
            lemma_event_views_push(old_events, ev);
            assert(self@ =~= old(self)@.initiate_request(origin, aggregator, spec_index@, data_version, data@).0);
        }
        Ok(())
    }

    /// Answers pending request `request_id` with `result`: the request is
    /// dropped and `result` becomes the stored answer for its specification
    /// index. Fails if the call is unsigned, no request has that id, or the
    /// request names another aggregator than the signer.
    pub fn feed_result(&mut self, origin: Origin, request_id: u64, result: u64) -> (r: Result<(), AresError>)
        requires
            old(self).wf(),
        ensures
            final(self).wf(),
            final(self)@ == old(self)@.feed_result(origin, request_id, result).0,
            r == old(self)@.feed_result(origin, request_id, result).1,
    {
        let who = match ensure_signed(origin) {
            Ok(w) => w,
            Err(_) => return Err(AresError::BadOrigin),
        };
        let ghost re = self.request_entries();
        proof {
            lemma_entries_map_dom(re, request_id);
            assert(keys_distinct(re));
        }
        let i = match find_entry(&self.requests, request_id) {
            Some(i) => i,
            None => return Err(AresError::UnknownRequest),
        };
        proof {
            assert(re[i as int].0 == request_id);
            lemma_entries_map_index(re, i as int);
        }
        if self.requests[i].1.aggregator != who {
            return Err(AresError::WrongAggregator);
        }
        let ghost kid = entry_keys(re);
        let ghost rese = self.result_entries();
        let ghost old_events = self.events@;
        let (_, req) = self.requests.remove(i);
        let aggregator = req.aggregator;
        let ghost key = req.spec_index@;
        proof {
            assert(self.request_entries() =~= re.remove(i as int));
            lemma_entries_map_remove(re, i as int);
            assert(kid[i as int] == request_id);
            let j = kid.index_of(request_id);
            assert(0 <= j < kid.len() && kid[j] == request_id);
            assert(re[j].0 == request_id);
            assert(j == i);
            assert(entry_keys(self.request_entries()) =~= kid.remove(i as int));
            lemma_entries_map_dom(rese, key);
        }
        match self.find_result(req.spec_index.as_slice()) {
            Some(j) => {
                proof {
                    assert(rese[j as int].0 == key);
                    lemma_entries_map_update(rese, j as int, result);
                }
                let spec_index = req.spec_index;
                self.oracle_results.set(j, (spec_index, result));
                assert(self.result_entries() =~= rese.update(j as int, (key, result)));
            },
            None => {
                let spec_index = req.spec_index;
                self.oracle_results.push((spec_index, result));
                proof {
                    assert(self.result_entries() =~= rese.push((key, result)));
                    lemma_entries_map_push(rese, (key, result));
                }
            },
        }
        self.events.push(Event::OracleResult(aggregator, request_id, who, result));
        proof {
            lemma_event_views_push(old_events, Event::OracleResult(aggregator, request_id, who, result));
            assert(self@ =~= old(self)@.feed_result(origin, request_id, result).0);
        }
        Ok(())
    }
}

impl Dated for Request {
    open spec fn made_at(v: RequestInfo) -> u64 {
        v.created_at
    }

    fn block_made(&self) -> (r: u64) {
        self.created_at
    }
}

/// Reports the dropping of the requests `ids`, in order.
fn report_removals(events: &mut Vec<Event>, ids: &Vec<u64>)
    ensures
        event_views(final(events)@) == event_views(old(events)@) + removal_events(ids@),
{
    let ghost ev0 = events@;
    let mut i: usize = 0;
    assert(removal_events(ids@.take(0)) =~= Seq::empty());
    while i < ids.len()
        invariant
            0 <= i <= ids@.len(),
            event_views(events@) == event_views(ev0) + removal_events(ids@.take(i as int)),
        decreases ids@.len() - i,
    {
        let ghost evs = events@;
        events.push(Event::RemoveRequest(ids[i]));
        proof {
            lemma_event_views_push(evs, Event::RemoveRequest(ids@[i as int]));
            assert(removal_events(ids@.take(i + 1)) =~= removal_events(ids@.take(i as int)).push(
                EventInfo::RemoveRequest(ids@[i as int]),
            ));
        }
        i = i + 1;
    }
    assert(ids@.take(i as int) =~= ids@);
}

impl AresModule {
    /// Ends block `n`: drops every pending request that was filed more than
    /// the validity period before `n`, and reports each one, in the order the
    /// requests were filed.
    pub fn on_finalize(&mut self, n: BlockNumber)
        requires
            old(self).wf(),
            old(self)@.expiry_fits(),
        ensures
            final(self).wf(),
            final(self)@ == old(self)@.on_finalize(n),
    {
        let ghost s0 = self@;
        let ghost re = self.request_entries();
        proof {
            self.lemma_view_valid();
            assert(keys_distinct(re));
        }
        let mut pending: Vec<(u64, Request)> = Vec::new();
        std::mem::swap(&mut pending, &mut self.requests);
        proof {
            assert forall|j: int| 0 <= j < pending@.len() implies Request::made_at(#[trigger] pending@[j].1@)
                + s0.validity_period <= u64::MAX by {
                lemma_entries_map_index(re, j);
                assert(s0.requests.contains_key(pending@[j].0));
            }
        }
        let (kept, dropped) = split_expired(pending, n, self.validity_period);
        self.requests = kept;
        report_removals(&mut self.events, &dropped);
        proof {
            assert forall|i: int| 0 <= i < self.requests@.len() implies self.requests@[i].0 < self.next_request_id by {
                assert(s0.requests.contains_key(self.requests@[i].0));
            }
            assert(self@ =~= s0.on_finalize(n));
        }
    }
}

impl AresModule {
    /// Whether `who` is a registered aggregator.
    pub fn is_aggregator(&self, who: AccountId) -> (r: bool)
        requires
            self.wf(),
        ensures
            r == self@.aggregators.contains_key(who),
    {
        proof {
            lemma_entries_map_dom(self.aggregator_entries(), who);
        }
        match self.find_aggregator(who) {
            Some(i) => {
                assert(self.aggregator_entries()[i as int].0 == who);
                true
            },
            None => false,
        }
    }

    /// The registration of `who`: its account, the block it registered in
    /// and its source; `(0, 0, [])` when `who` is not registered.
    pub fn aggregator(&self, who: AccountId) -> (r: (AccountId, BlockNumber, Vec<u8>))
        requires
            self.wf(),
        ensures
            self@.aggregators.contains_key(who) ==> r.0 == self@.aggregators[who].account
                && r.1 == self@.aggregators[who].registered_at && r.2@ == self@.aggregators[who].source,
            !self@.aggregators.contains_key(who) ==> r.0 == 0 && r.1 == 0 && r.2@ == Seq::<u8>::empty(),
    {
        let ghost ae = self.aggregator_entries();
        proof {
            lemma_entries_map_dom(ae, who);
        }
        match self.find_aggregator(who) {
            Some(i) => {
                proof {
                    lemma_entries_map_index(ae, i as int);
                }
                let a = &self.aggregators[i];
                (a.account, a.registered_at, copy_bytes(&a.source))
            },
            None => (0, 0, Vec::new()),
        }
    }

    /// The id that the next request gets.
    pub fn request_id(&self) -> (r: u64)
        ensures
            r == self@.next_request_id,
    {
        self.next_request_id
    }

    /// Whether request `id` is pending.
    pub fn contains_request(&self, id: u64) -> (r: bool)
        requires
            self.wf(),
        ensures
            r == self@.requests.contains_key(id),
    {
        let ghost re = self.request_entries();
        proof {
            lemma_entries_map_dom(re, id);
        }
        match find_entry(&self.requests, id) {
            Some(i) => {
                assert(re[i as int].0 == id);
                true
            },
            None => false,
        }
    }

    /// The pending request `id`: the aggregator it names, the block it was
    /// filed in and its specification index; `(0, 0, [])` when no request
    /// with that id is pending.
    pub fn request(&self, id: u64) -> (r: (AccountId, BlockNumber, Vec<u8>))
        requires
            self.wf(),
        ensures
            self@.requests.contains_key(id) ==> r.0 == self@.requests[id].aggregator
                && r.1 == self@.requests[id].created_at && r.2@ == self@.requests[id].spec_index,
            !self@.requests.contains_key(id) ==> r.0 == 0 && r.1 == 0 && r.2@ == Seq::<u8>::empty(),
    {
        let ghost re = self.request_entries();
        proof {
            lemma_entries_map_dom(re, id);
            assert(keys_distinct(re));
        }
        match find_entry(&self.requests, id) {
            Some(i) => {
                proof {
                    lemma_entries_map_index(re, i as int);
                }
                let q = &self.requests[i].1;
                (q.aggregator, q.created_at, copy_bytes(&q.spec_index))
            },
            None => (0, 0, Vec::new()),
        }
    }

    /// The stored answer for the specification index `spec_index`; 0 when
    /// none is stored.
    pub fn oracle_results(&self, spec_index: &[u8]) -> (r: u64)
        requires
            self.wf(),
        ensures
            r == if self@.oracle_results.contains_key(spec_index@) {
                self@.oracle_results[spec_index@]
            } else {
                0
            },
    {
        let ghost rese = self.result_entries();
        proof {
            lemma_entries_map_dom(rese, spec_index@);
        }
        match self.find_result(spec_index) {
            Some(i) => {
                proof {
                    lemma_entries_map_index(rese, i as int);
                }
                self.oracle_results[i].1
            },
            None => 0,
        }
    }

    /// The current block.
    pub fn block_number(&self) -> (r: BlockNumber)
        ensures
            r == self@.block_number,
    {
        self.block_number
    }

    /// Every event reported so far, oldest first.
    pub fn events(&self) -> (r: &Vec<Event>)
        ensures
            event_views(r@) == self@.events,
    {
        &self.events
    }
}
} // verus!
