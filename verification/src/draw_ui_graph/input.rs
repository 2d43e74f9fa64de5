//! Names of the inputs of the graph.
use vstd::prelude::*;

verus! {

pub const VIEW_ENTITY: &'static str = "view_entity";

} // verus!
