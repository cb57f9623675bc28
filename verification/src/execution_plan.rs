//! What is to be executed, and how.
use crate::config::{Cpu, Process};
use crate::execution_modes::ExecutionMode;
use vstd::prelude::*;

verus! {

/// A plan. `F` is the type of measured quantities, `S` that of scenarios and `P` that of processes
/// under observation.
#[derive(Debug)]
pub struct ExecutionPlan<'a, F, S, P> {
    pub cpu: Cpu<F>,
    pub processes_to_execute: Vec<&'a Process>,
    pub external_processes_to_observe: Option<Vec<P>>,
    pub execution_mode: ExecutionMode<'a, S>,
}

} // verus!
