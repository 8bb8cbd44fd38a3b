use vstd::prelude::*;

pub mod compile;
pub mod errors;
pub mod expand;
pub mod fire;
pub mod parser;
pub mod statics;
pub mod systemd;
pub mod text;

verus! {

} // verus!
