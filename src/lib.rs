//! A registry of event tickets: who owns which ticket, which tickets are
//! listed for resale and at what price, and the settlement of purchases.
//! Every operation keeps the ticket table, the owner index and the listing
//! book consistent, and either applies all of its changes or none.
use vstd::prelude::*;

pub mod laws;
pub mod model;
pub mod registry;
pub mod types;

verus! {

} // verus!
