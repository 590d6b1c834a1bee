//! Local control plane for agent-driven development: a contract lifecycle,
//! port and endpoint arbitration, and a daemon that fuses them behind a
//! request/response API with a replayable event stream.
use vstd::prelude::*;

pub mod daemon;
pub mod display;
pub mod endpoints;
pub mod lifecycle;
pub mod modules;
pub mod requests;
pub mod resources;
pub mod sessions;
pub mod store;
pub mod text;
pub mod tools;

verus! {

pub fn crate_identity() -> (r: &'static str)
    ensures
        r@ == "stead"@,
{
    "stead"
}

} // verus!
