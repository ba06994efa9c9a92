use vstd::prelude::*;

pub mod binaries;
pub mod cli;
pub mod descriptions;
pub mod man;
pub mod roff;
pub mod simple_app;
pub mod states;
pub mod text;
pub mod widgets;

verus! {

} // verus!
