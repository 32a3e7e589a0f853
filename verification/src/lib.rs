use vstd::prelude::*;

pub mod cli;
pub mod daemon;
pub mod codec;
pub mod imgproc;
pub mod textfmt;

verus! {

} // verus!
