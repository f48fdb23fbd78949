use vstd::prelude::*;

pub mod initargs;
pub mod system;
pub mod ids;
pub mod resources;
pub mod virt_res;
pub mod pass;

verus! {

} // verus!
