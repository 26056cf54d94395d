//! What the modules share: where a call comes from (the chain itself, a
//! signed account, or nobody), account and block types, and the name of the
//! callback that oracle requests report.

use vstd::prelude::*;

verus! {

/// Account identifiers.
pub type AccountId = u64;

/// Block heights.
pub type BlockNumber = u64;

/// The origin of a dispatched call.
#[derive(Clone, Copy, Debug, PartialEq, Eq, Structural)]
pub enum Origin {
    Root,
    Signed(AccountId),
    Unsigned,
}

/// A call came from an origin that it does not accept.
#[derive(Clone, Copy, Debug, PartialEq, Eq, Structural)]
pub struct BadOrigin;

/// The account that signed a call, if any.
pub open spec fn signer(origin: Origin) -> Option<AccountId> {
    match origin {
        Origin::Signed(who) => Some(who),
        _ => None,
    }
}

/// Accepts a signed origin and gives its account.
pub fn ensure_signed(origin: Origin) -> (r: Result<AccountId, BadOrigin>)
    ensures
        match signer(origin) {
            Some(who) => r == Ok::<AccountId, BadOrigin>(who),
            None => r == Err::<AccountId, BadOrigin>(BadOrigin),
        },
{
    match origin {
        Origin::Signed(who) => Ok(who),
        _ => Err(BadOrigin),
    }
}

/// Accepts the root origin only.
pub fn ensure_root(origin: Origin) -> (r: Result<(), BadOrigin>)
    ensures
        r is Ok <==> origin == Origin::Root,
{
    match origin {
        Origin::Root => Ok(()),
        _ => Err(BadOrigin),
    }
}

/// The name of the callback that oracle requests report: the bytes of
/// `Ares.callback`.
pub open spec fn callback_name() -> Seq<u8> {
    seq![65u8, 114u8, 101u8, 115u8, 46u8, 99u8, 97u8, 108u8, 108u8, 98u8, 97u8, 99u8, 107u8]
}

/// The bytes of the callback name.
pub fn callback_name_bytes() -> (r: Vec<u8>)
    ensures
        r@ == callback_name(),
{
    let r: Vec<u8> = vec![65u8, 114u8, 101u8, 115u8, 46u8, 99u8, 97u8, 108u8, 108u8, 98u8, 97u8, 99u8, 107u8];
    assert(r@ =~= callback_name());
    r
}

} // verus!
