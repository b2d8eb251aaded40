use vstd::prelude::*;

pub mod blob_store;
pub mod bucket;
pub mod chunk;
pub mod cluster;
pub mod codec;
pub mod log_store;
pub mod ordered;
pub mod params;
pub mod shortener;
pub mod state_machine;
pub mod types;

verus! {

} // verus!
