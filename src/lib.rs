use vstd::prelude::*;

pub mod class;
pub mod ctxt;
pub mod driver;
pub mod gc;
pub mod laws;
pub mod object;
pub mod param;
pub mod stacktrace;
pub mod stdlib;

verus! {

} // verus!
