use vstd::prelude::*;

pub mod event;
pub mod fork;
pub mod harness;
pub mod report;
pub mod sim;
pub mod store;
pub mod weight;

verus! {

} // verus!
