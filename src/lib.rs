//! Parsing of the kernel's TCP connection table and a monitor that decides
//! whether a local port has activity.
use vstd::prelude::*;

pub mod scanner;
pub mod table;
pub mod monitor;

verus! {

} // verus!
