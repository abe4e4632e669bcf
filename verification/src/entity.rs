//! Account-facing entity kinds that the control layer carries.
//!
//! The telemetry core itself only needs championship ids and ports;
//! these enums describe the accounts that own championships and ride
//! along in the control layer's records.

use vstd::prelude::*;

verus! {

/// How an account authenticates.
#[derive(Clone, Copy, Debug, PartialEq, Eq, Structural)]
pub enum Provider {
    Local,
    Google,
}

/// What an account may do.
#[derive(Clone, Copy, Debug, PartialEq, Eq, Structural)]
pub enum Role {
    User,
    Admin,
}

} // verus!
