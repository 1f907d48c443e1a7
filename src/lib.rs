//! Event-delivery and connector-lifecycle runtime of a stream-processing engine.
use vstd::prelude::*;

pub mod errors;
pub mod graph;
pub mod connector;
pub mod contraflow;
pub mod clickhouse;
pub mod groups;

verus! {

} // verus!
