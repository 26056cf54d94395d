//! An oracle pallet modelled as verified state machines: aggregators register,
//! users file price requests, the assigned aggregator answers them, and
//! unanswered requests expire.

pub mod store;
pub mod origin;
pub mod ares;
pub mod ares_laws;
pub mod json;
pub mod price;
pub mod operator;
pub mod template;
pub mod runtime;
pub mod oracle_laws;
