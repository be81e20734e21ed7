//! Coverage collection for test executables: branch regions of source files,
//! trace maps of hit counts and their merging, the traps planted in a traced
//! process, and the state machine that drives it.
use vstd::prelude::*;

pub mod branching;
pub mod traces;
pub mod breakpoints;
pub mod statemachine;
pub mod driver;
pub mod source_analysis;

verus! {

} // verus!
