//! A runtime made of the operator oracle and its client, the template
//! module: an answer to an oracle request is dispatched, from root, to the
//! call that the request carries.

use vstd::prelude::*;
use crate::origin::{BlockNumber, Origin};
use crate::operator::{OperatorModule, OperatorState, OperatorError, answer_request};
use crate::template::{
    TemplateModule, TemplateCall, TemplateCallInfo, TemplateError, send_request_effect, callback_effect,
};

verus! {

/// The runtime's state as mathematical values.
#[verifier::ext_equal]
pub struct RuntimeState {
    pub oracle: OperatorState<TemplateCallInfo>,
    /// The answer that the template module holds.
    pub stored: int,
}

/// Dispatching a template call from `origin`.
pub open spec fn dispatch_effect(s: RuntimeState, call: TemplateCallInfo, origin: Origin) -> (RuntimeState, Result<(), TemplateError>) {
    match call {
        TemplateCallInfo::SendRequest(operator, specid) => {
            let (o, r) = send_request_effect(s.oracle, origin, operator, specid);
            (RuntimeState { oracle: o, ..s }, r)
        },
        TemplateCallInfo::Callback(result) => {
            let (v, r) = callback_effect(s.stored, origin, result);
            (RuntimeState { stored: v, ..s }, r)
        },
    }
}

/// Answering oracle request `request_id` with `result`: the oracle checks
/// the answer, and the call that the request carries is dispatched from root
/// with the answer in it; what that dispatch returns is dropped.
pub open spec fn answer_effect(s: RuntimeState, origin: Origin, request_id: u64, result: Seq<u8>) -> (RuntimeState, Result<(), OperatorError>) {
    let (o, r) = answer_request::<TemplateCall>(s.oracle, origin, request_id, result);
    let s1 = RuntimeState { oracle: o, ..s };
    match r {
        Err(e) => (s1, Err(e)),
        Ok(call) => (dispatch_effect(s1, call, Origin::Root).0, Ok(())),
    }
}

/// The runtime: the operator oracle and the template module.
pub struct Runtime {
    oracle: OperatorModule<TemplateCall>,
    template: TemplateModule,
}

impl View for Runtime {
    type V = RuntimeState;

    closed spec fn view(&self) -> RuntimeState {
        RuntimeState { oracle: self.oracle@, stored: self.template.stored() as int }
    }
}

impl Runtime {
    pub closed spec fn wf(&self) -> bool {
        self.oracle.wf()
    }

    /// A runtime at block 0 with no requests, whose template module holds 0.
    pub fn new(validity_period: BlockNumber) -> (r: Runtime)
        ensures
            r.wf(),
            r@.oracle == (OperatorState::<TemplateCallInfo> {
                operators: Set::empty(),
                next_request_identifier: 0,
                requests: Map::empty(),
                request_ids: Seq::empty(),
                block_number: 0,
                validity_period,
                events: Seq::empty(),
            }),
            r@.stored == 0,
    {
        let r = Runtime { oracle: OperatorModule::new(validity_period), template: TemplateModule::new() };
        assert(r@.oracle =~= (OperatorState::<TemplateCallInfo> {
            operators: Set::empty(),
            next_request_identifier: 0,
            requests: Map::empty(),
            request_ids: Seq::empty(),
            block_number: 0,
            validity_period,
            events: Seq::empty(),
        }));
        r
    }

    /// The operator oracle.
    pub fn oracle(&self) -> (o: &OperatorModule<TemplateCall>)
        ensures
            o@ == self@.oracle,
            o.wf() == self.wf(),
    {
        &self.oracle
    }

    /// The answer that the template module holds.
    pub fn get_result(&self) -> (v: i128)
        ensures
            v as int == self@.stored,
    {
        self.template.get_result()
    }

    /// Dispatches a template call from `origin`.
    pub fn dispatch(&mut self, call: TemplateCall, origin: Origin) -> (r: Result<(), TemplateError>)
        requires
            old(self).wf(),
            call is SendRequest ==> !old(self)@.oracle.request_would_overflow(origin),
        ensures
            final(self).wf(),
            final(self)@ == dispatch_effect(old(self)@, call@, origin).0,
            r == dispatch_effect(old(self)@, call@, origin).1,
    {
        let r = match call {
            TemplateCall::SendRequest(operator, specid) => TemplateModule::send_request(&mut self.oracle, origin, operator, specid),
            TemplateCall::Callback(result) => self.template.callback(origin, result),
        };
        assert(self@ =~= dispatch_effect(old(self)@, call@, origin).0);
        r
    }

    /// Answers oracle request `request_id` with `result`, signed by
    /// `origin`, and dispatches the call that the request carries, from root,
    /// with the answer in it.
    pub fn oracle_callback(&mut self, origin: Origin, request_id: u64, result: Vec<u8>) -> (r: Result<(), OperatorError>)
        requires
            old(self).wf(),
        ensures
            final(self).wf(),
            final(self)@ == answer_effect(old(self)@, origin, request_id, result@).0,
            r == answer_effect(old(self)@, origin, request_id, result@).1,
    {
        let call = match self.oracle.callback(origin, request_id, result) {
            Ok(c) => c,
            Err(e) => {
                assert(self@ =~= answer_effect(old(self)@, origin, request_id, result@).0);
                return Err(e);
            },
        };
        let _ = self.dispatch(call, Origin::Root);
        assert(self@ =~= answer_effect(old(self)@, origin, request_id, result@).0);
        Ok(())
    }

    /// Moves the runtime to block `n`.
    pub fn set_block_number(&mut self, n: BlockNumber)
        requires
            old(self).wf(),
        ensures
            final(self).wf(),
            final(self)@ == (RuntimeState { oracle: OperatorState { block_number: n, ..old(self)@.oracle }, ..old(self)@ }),
    {
        self.oracle.set_block_number(n);
        assert(self@ =~= (RuntimeState { oracle: OperatorState { block_number: n, ..old(self)@.oracle }, ..old(self)@ }));
    }

    /// Ends block `n` in the oracle.
    pub fn on_finalize(&mut self, n: BlockNumber)
        requires
            old(self).wf(),
            old(self)@.oracle.expiry_fits(),
        ensures
            final(self).wf(),
            final(self)@ == (RuntimeState { oracle: old(self)@.oracle.on_finalize(n), ..old(self)@ }),
    {
        self.oracle.on_finalize(n);
        assert(self@ =~= (RuntimeState { oracle: old(self)@.oracle.on_finalize(n), ..old(self)@ }));
    }
}

} // verus!
