//! The template module, a client of the operator oracle: it files a request
//! for the ETH price in USD whose answer goes to its own `callback` call, and
//! that call stores the answer, a SCALE-encoded `i128`.

use vstd::prelude::*;
use vstd::string::StringSliceAdditionalSpecFns;
use crate::origin::{AccountId, Origin, signer, ensure_signed, ensure_root};
use crate::operator::{CallbackWithParameter, OperatorModule, OperatorError, OperatorState, Balance};

verus! {

#[verifier::external_type_specification]
#[verifier::external_body]
pub struct ExCodecError(parity_scale_codec::Error);

/// The number that little-endian bytes spell.
pub open spec fn le_value(b: Seq<u8>) -> nat
    decreases b.len(),
{
    if b.len() == 0 {
        0
    } else {
        (b[0] + 256 * le_value(b.drop_first())) as nat
    }
}

/// The two's-complement `i128` that the first sixteen little-endian bytes
/// of `b` spell.
pub open spec fn le_i128(b: Seq<u8>) -> int {
    let u = le_value(b.take(16));
    if u >= 0x8000_0000_0000_0000_0000_0000_0000_0000 {
        u - 0x1_0000_0000_0000_0000_0000_0000_0000_0000int
    } else {
        u as int
    }
}

/// The `k` little-endian bytes of `v`, higher ones dropped.
pub open spec fn le_bytes(v: nat, k: nat) -> Seq<u8>
    decreases k,
{
    if k == 0 {
        Seq::empty()
    } else {
        seq![(v % 256) as u8] + le_bytes(v / 256, (k - 1) as nat)
    }
}

/// 256 to the power `k`: one more than the largest number `k` bytes hold.
pub open spec fn byte_base(k: nat) -> nat
    decreases k,
{
    if k == 0 {
        1
    } else {
        256 * byte_base((k - 1) as nat)
    }
}

proof fn lemma_byte_base_positive(k: nat)
    ensures
        byte_base(k) > 0,
    decreases k,
{
    if k > 0 {
        lemma_byte_base_positive((k - 1) as nat);
    }
}

/// Reading back the `k` little-endian bytes of `v` gives `v` modulo 256 to
/// the power `k`.
pub proof fn lemma_le_value_of_bytes(v: nat, k: nat)
    ensures
        le_bytes(v, k).len() == k,
        le_value(le_bytes(v, k)) == v % byte_base(k),
    decreases k,
{
    if k > 0 {
        let k1 = (k - 1) as nat;
        lemma_le_value_of_bytes(v / 256, k1);
        lemma_byte_base_positive(k1);
        let b = le_bytes(v, k);
        assert(b.drop_first() =~= le_bytes(v / 256, k1));
        vstd::arithmetic::div_mod::lemma_breakdown(v as int, 256, byte_base(k1) as int);
        assert(byte_base(k) == 256 * byte_base(k1));
    }
}

/// Every `i128`, written as its sixteen little-endian two's-complement bytes,
/// reads back as itself.
pub proof fn law_i128_bytes_read_back(v: i128)
    ensures
        le_i128(le_bytes(
            if v >= 0 { v as nat } else { (v + 0x1_0000_0000_0000_0000_0000_0000_0000_0000int) as nat },
            16,
        )) == v,
{
    let u: nat = if v >= 0 { v as nat } else { (v + 0x1_0000_0000_0000_0000_0000_0000_0000_0000int) as nat };
    let b = le_bytes(u, 16);
    lemma_le_value_of_bytes(u, 16);
    reveal_with_fuel(byte_base, 17);
    assert(byte_base(16) == 0x1_0000_0000_0000_0000_0000_0000_0000_0000nat);
    vstd::arithmetic::div_mod::lemma_small_mod(u, byte_base(16));
    assert(b.take(16) =~= b);
}

/// The SCALE compact encoding of a length that fits a `u32`.
pub open spec fn compact_length(n: nat) -> Seq<u8> {
    if n < 64 {
        seq![(n * 4) as u8]
    } else if n < 16384 {
        le_bytes(n * 4 + 1, 2)
    } else if n < 1073741824 {
        le_bytes(n * 4 + 2, 4)
    } else {
        seq![3u8] + le_bytes(n, 4)
    }
}

/// The SCALE encoding of a byte string: its compact length, then its bytes.
pub open spec fn scale_bytes(b: Seq<u8>) -> Seq<u8> {
    compact_length(b.len()) + b
}

/// `parity_scale_codec::Decode::decode` for `i128` on a byte slice. The
/// crate reads sixteen bytes and turns them into an `i128` with
/// `from_le_bytes`; it fails when fewer than sixteen bytes are left. The
/// error value's content is not stated.
#[verifier::external_body]
fn decode_i128(bytes: &[u8]) -> (r: Result<i128, parity_scale_codec::Error>)
    ensures
        r is Ok <==> bytes@.len() >= 16,
        r matches Ok(v) ==> v as int == le_i128(bytes@),
{
    <i128 as parity_scale_codec::Decode>::decode(&mut &bytes[..])
}

/// `parity_scale_codec::Encode::encode` on a tuple of six string slices. The
/// crate encodes a tuple as its elements one after the other, and a string
/// slice as its UTF-8 bytes behind their compact length; it panics on a
/// length past `u32::MAX`.
#[verifier::external_body]
fn encode_six_strs(a: &str, b: &str, c: &str, d: &str, e: &str, f: &str) -> (r: Vec<u8>)
    requires
        a.spec_bytes().len() <= u32::MAX,
        b.spec_bytes().len() <= u32::MAX,
        c.spec_bytes().len() <= u32::MAX,
        d.spec_bytes().len() <= u32::MAX,
        e.spec_bytes().len() <= u32::MAX,
        f.spec_bytes().len() <= u32::MAX,
    ensures
        r@ == scale_bytes(a.spec_bytes()) + scale_bytes(b.spec_bytes()) + scale_bytes(c.spec_bytes())
            + scale_bytes(d.spec_bytes()) + scale_bytes(e.spec_bytes()) + scale_bytes(f.spec_bytes()),
{
    parity_scale_codec::Encode::encode(&(a, b, c, d, e, f))
}

/// The calls of the template module.
#[derive(Clone, Debug, PartialEq, Eq)]
pub enum TemplateCall {
    /// operator, specification index
    SendRequest(AccountId, Vec<u8>),
    /// the SCALE-encoded answer
    Callback(Vec<u8>),
}

/// A call as a mathematical value.
pub enum TemplateCallInfo {
    SendRequest(AccountId, Seq<u8>),
    Callback(Seq<u8>),
}

impl View for TemplateCall {
    type V = TemplateCallInfo;

    open spec fn view(&self) -> TemplateCallInfo {
        match self {
            TemplateCall::SendRequest(o, s) => TemplateCallInfo::SendRequest(*o, s@),
            TemplateCall::Callback(r) => TemplateCallInfo::Callback(r@),
        }
    }
}

impl CallbackWithParameter for TemplateCall {
    /// A `callback` call takes the result in place of its own; no other call
    /// takes one.
    open spec fn result_call(call: TemplateCallInfo, result: Seq<u8>) -> Option<TemplateCallInfo> {
        match call {
            TemplateCallInfo::Callback(_) => Some(TemplateCallInfo::Callback(result)),
            _ => None,
        }
    }

    fn with_result(&self, result: Vec<u8>) -> (r: Option<TemplateCall>) {
        match self {
            TemplateCall::Callback(_) => Some(TemplateCall::Callback(result)),
            _ => None,
        }
    }
}

/// Why a call of the template module was refused.
#[derive(Clone, Copy, Debug, PartialEq, Eq, Structural)]
pub enum TemplateError {
    NoneValue,
    StorageOverflow,
    /// The call came from an origin that it does not accept.
    BadOrigin,
    /// The answer is no SCALE-encoded `i128`.
    CannotDecode,
    /// The oracle refused the request.
    Oracle(OperatorError),
}

/// The parameters that the template module sends with its request: the
/// SCALE encoding of the six strings `get`, the price service's address,
/// `path`, `RAW.ETH.USD.PRICE`, `times` and `100000000`.
pub open spec fn request_parameters() -> Seq<u8> {
    scale_bytes("get".spec_bytes())
        + scale_bytes("https://min-api.cryptocompare.com/data/pricemultifull?fsyms=ETH&tsyms=USD".spec_bytes())
        + scale_bytes("path".spec_bytes()) + scale_bytes("RAW.ETH.USD.PRICE".spec_bytes())
        + scale_bytes("times".spec_bytes()) + scale_bytes("100000000".spec_bytes())
}

/// The fee that the template module offers with its request.
pub open spec fn request_fee() -> Balance {
    100
}

/// What `send_request` does to the oracle's state, and what it returns.
pub open spec fn send_request_effect(
    oracle: OperatorState<TemplateCallInfo>,
    origin: Origin,
    operator: AccountId,
    specid: Seq<u8>,
) -> (OperatorState<TemplateCallInfo>, Result<(), TemplateError>) {
    match signer(origin) {
        None => (oracle, Err(TemplateError::BadOrigin)),
        Some(_) => (oracle.initiate_request(
            origin,
            operator,
            specid,
            0,
            request_parameters(),
            request_fee(),
            TemplateCallInfo::Callback(Seq::empty()),
        ).0, Ok(())),
    }
}

/// What `callback` does to the stored answer, and what it returns.
pub open spec fn callback_effect(stored: int, origin: Origin, result: Seq<u8>) -> (int, Result<(), TemplateError>) {
    if origin != Origin::Root {
        (stored, Err(TemplateError::BadOrigin))
    } else if result.len() < 16 {
        (stored, Err(TemplateError::CannotDecode))
    } else {
        (le_i128(result), Ok(()))
    }
}

/// The template module: it holds the last answer it got.
pub struct TemplateModule {
    result: i128,
}

impl TemplateModule {
    /// A module whose stored answer is 0.
    pub fn new() -> (m: TemplateModule)
        ensures
            m.stored() == 0,
    {
        TemplateModule { result: 0 }
    }

    /// The stored answer.
    pub closed spec fn stored(&self) -> i128 {
        self.result
    }

    /// The stored answer.
    pub fn get_result(&self) -> (r: i128)
        ensures
            r == self.stored(),
    {
        self.result
    }

    /// Files a request with the operator oracle `ares`, signed by `origin`,
    /// to be answered by `operator`: the request carries the parameters of
    /// the ETH price lookup, data version 0, a fee of 100 and an empty
    /// `callback` call for the answer to go to.
    pub fn send_request(
        ares: &mut OperatorModule<TemplateCall>,
        origin: Origin,
        operator: AccountId,
        specid: Vec<u8>,
    ) -> (r: Result<(), TemplateError>)
        requires
            old(ares).wf(),
            !old(ares)@.request_would_overflow(origin),
        ensures
            final(ares).wf(),
            final(ares)@ == send_request_effect(old(ares)@, origin, operator, specid@).0,
            r == send_request_effect(old(ares)@, origin, operator, specid@).1,
    {
        if ensure_signed(origin).is_err() {
            return Err(TemplateError::BadOrigin);
        }
        proof {
            reveal_strlit("get");
            reveal_strlit("https://min-api.cryptocompare.com/data/pricemultifull?fsyms=ETH&tsyms=USD");
            reveal_strlit("path");
            reveal_strlit("RAW.ETH.USD.PRICE");
            reveal_strlit("times");
            reveal_strlit("100000000");
            vstd::string::is_ascii_spec_bytes("get");
            vstd::string::is_ascii_spec_bytes("https://min-api.cryptocompare.com/data/pricemultifull?fsyms=ETH&tsyms=USD");
            vstd::string::is_ascii_spec_bytes("path");
            vstd::string::is_ascii_spec_bytes("RAW.ETH.USD.PRICE");
            vstd::string::is_ascii_spec_bytes("times");
            vstd::string::is_ascii_spec_bytes("100000000");
        }
        let parameters = encode_six_strs(
            "get",
            "https://min-api.cryptocompare.com/data/pricemultifull?fsyms=ETH&tsyms=USD",
            "path",
            "RAW.ETH.USD.PRICE",
            "times",
            "100000000",
        );
        let call = TemplateCall::Callback(Vec::new());
        assert(call@ == TemplateCallInfo::Callback(Seq::empty()));
        match ares.initiate_request(origin, operator, specid, 0, parameters, 100, call) {
            Ok(()) => Ok(()),
            Err(e) => Err(TemplateError::Oracle(e)),
        }
    }

    /// Stores the answer `result`, a SCALE-encoded `i128`. Only the root
    /// origin may call it; it fails when `result` holds fewer than sixteen
    /// bytes.
    pub fn callback(&mut self, origin: Origin, result: Vec<u8>) -> (r: Result<(), TemplateError>)
        ensures
            final(self).stored() as int == callback_effect(old(self).stored() as int, origin, result@).0,
            r == callback_effect(old(self).stored() as int, origin, result@).1,
    {
        if ensure_root(origin).is_err() {
            return Err(TemplateError::BadOrigin);
        }
        match decode_i128(result.as_slice()) {
            Ok(v) => {
                self.result = v;
                Ok(())
            },
            Err(_) => Err(TemplateError::CannotDecode),
        }
    }
}

} // verus!
