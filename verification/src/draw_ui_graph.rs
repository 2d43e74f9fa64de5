//! Names in the graph that draws the user interface of one view.
use vstd::prelude::*;

pub mod input;
pub mod node;

verus! {

pub const NAME: &'static str = "draw_ui";

} // verus!
