use vstd::prelude::*;

pub mod types;
pub mod assets;
pub mod bindings;
pub mod call_stack;
pub mod local;
pub mod contract;
pub mod global;
pub mod env;

verus! {

pub const MAX_CONTEXT_DEPTH: u16 = 256;

} // verus!
