use vstd::prelude::*;

pub mod commands;
pub mod grid;
pub mod input;
pub mod pathfind;
pub mod scene;
pub mod script;
pub mod search;

verus! {

} // verus!
