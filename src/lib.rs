//! Decisions and data shaping for running a process on the local machine
//! inside a throw-away sandbox directory.
use vstd::prelude::*;

pub mod error;
pub mod outputs;
pub mod process;
pub mod script;
pub mod text;
pub mod workdir;

verus! {

} // verus!
