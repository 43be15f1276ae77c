//! Decoding of ledger blocks into a compact model of their transactions.
use vstd::prelude::*;

pub mod channel;
pub mod cmd;
pub mod messages;
pub mod records;
pub mod trusted;
pub mod wire;

verus! {

} // verus!
