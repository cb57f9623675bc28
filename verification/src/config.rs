//! What the configuration says of an application and of the machine that it runs on.
use crate::graph::names_of;
use crate::ordering::Node;
use vstd::prelude::*;

verus! {

/// A process of the application: its name, the command that brings it up, and the names of the
/// processes that it depends on.
#[derive(Debug)]
pub struct Process {
    pub name: String,
    pub up: String,
    pub deps: Vec<String>,
}

impl View for Process {
    type V = Node;

    open spec fn view(&self) -> Node {
        Node { name: self.name@, deps: names_of(self.deps@) }
    }
}

/// What a processor draws: its thermal design power, or the coefficients of its power curve. `F` is
/// the type of measured quantities.
#[derive(Debug)]
pub enum Power<F> {
    Tdp(F),
    Curve(F, F, F, F),
}

/// The processor of the machine.
#[derive(Debug)]
pub struct Cpu<F> {
    pub name: String,
    pub power: Power<F>,
}

} // verus!
