//! The decision core of the apex inference server.

use vstd::prelude::*;

pub mod admission;
pub mod config;
pub mod config_hash;
pub mod dispatcher;
pub mod error;
pub mod grpc;
pub mod ort_bridge;
pub mod registry;
pub mod reload;
pub mod rounding;
pub mod text;
pub mod views;

verus! {

} // verus!
