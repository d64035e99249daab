//! Driver for agent development containers: mounts, sessions, policies and
//! the isolator protocol, with every rule stated and proved.

pub mod command;
pub mod digest;
pub mod error;
pub mod framework;
pub mod identity;
pub mod isolators;
pub mod lifecycle;
pub mod lock;
pub mod mount;
pub mod order;
pub mod path;
pub mod plan;
pub mod preflight;
pub mod prepare;
pub mod profile;
pub mod registry;
pub mod session;
pub mod spike;
pub mod table;
pub mod template;
pub mod text;
pub mod transport;

use vstd::prelude::*;

verus! {

/// Returns the package version.
pub fn version() -> (s: &'static str)
    ensures
        s@ == "0.2.0"@,
{
    "0.2.0"
}

} // verus!
