use vstd::prelude::*;

pub mod amount;
pub mod text;
pub mod split;
pub mod order;
pub mod clock;
pub mod platform;
pub mod error;
pub mod sums;
pub mod status;
pub mod models;
pub mod node_id;
pub mod ledger;
pub mod batch;
pub mod cycle;
pub mod cli;
pub mod alloc_release_task;
pub mod dao;
pub mod api;

verus! {

} // verus!
