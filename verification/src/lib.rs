//! The rendering side of a user interface.
//!
//! A frame goes through the modules in this order: [`camera`] finds the views that show the user
//! interface, [`extract`] collects the boxes to draw, [`quad`] and [`sort`] place and order them,
//! [`prepare`] makes vertices and batches of them, and [`queue`] hands the batches to the views.
//! [`graph`] wires the pass that draws them into a render graph.
pub mod bind_groups;
pub mod camera;
pub mod draw_ui_graph;
pub mod extract;
pub mod geometry;
pub mod graph;
pub mod node;
pub mod params_buffer;
pub mod prepare;
pub mod quad;
pub mod queue;
pub mod scalar;
pub mod sort;
pub mod vertex_buffer;
