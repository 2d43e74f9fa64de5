//! Names of the nodes of the graph.
use vstd::prelude::*;

verus! {

pub const UI_PASS: &'static str = "ui_pass";

} // verus!
