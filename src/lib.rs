use vstd::prelude::*;

pub mod address;
pub mod blockserver;
pub mod error;
pub mod peerstore;

verus! {

} // verus!
