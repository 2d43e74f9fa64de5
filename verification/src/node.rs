//! Names of the nodes that drive the user interface.
use vstd::prelude::*;

verus! {

pub const UI_PASS_DRIVER: &'static str = "ui_pass_driver";

} // verus!
