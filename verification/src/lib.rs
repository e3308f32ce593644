use vstd::prelude::*;

pub mod text;
pub mod events;
pub mod ui;
pub mod chrome;
pub mod process;
pub mod paths;
pub mod node;
pub mod runtime;
pub mod lifecycle;

verus! {

} // verus!
