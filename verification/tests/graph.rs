use bevy_core_pipeline::core_2d;
use bevy_core_pipeline::core_3d;
use bevy_render::render_graph::{
    Edge, EmptyNode, NodeId, RenderGraph, RunGraphOnViewNode, SlotInfo, SlotType,
};
use bevy_ui_render::draw_ui_graph;
use bevy_ui_render::graph::{
    attach_ui_graph, connect_ui_pass, new_ui_graph, CoreGraph, UiGraphError, IN_VIEW, INPUT_NODE,
};
use bevy_ui_render::node;

fn core_names() -> CoreGraph {
    CoreGraph {
        main_pass: core_2d::graph::node::MAIN_PASS,
        end_main_pass_post_processing: core_2d::graph::node::END_MAIN_PASS_POST_PROCESSING,
        upscaling: core_2d::graph::node::UPSCALING,
        view_entity: core_2d::graph::input::VIEW_ENTITY,
    }
}

fn core_graph() -> RenderGraph {
    let mut graph = RenderGraph::default();
    graph.add_node(core_2d::graph::node::MAIN_PASS, EmptyNode);
    graph.add_node(core_2d::graph::node::END_MAIN_PASS_POST_PROCESSING, EmptyNode);
    graph.add_node(core_2d::graph::node::UPSCALING, EmptyNode);
    graph
        .add_node_edge(
            core_2d::graph::node::END_MAIN_PASS_POST_PROCESSING,
            core_2d::graph::node::UPSCALING,
        )
        .unwrap();
    graph.set_input(vec![SlotInfo::new(core_2d::graph::input::VIEW_ENTITY, SlotType::Entity)]);
    graph
}

fn has_edge(graph: &RenderGraph, from: &'static str, to: &'static str) -> bool {
    let output_node: NodeId = graph.get_node_id(from).unwrap();
    let input_node: NodeId = graph.get_node_id(to).unwrap();
    graph.has_edge(&Edge::NodeEdge { output_node, input_node })
}

#[test]
fn names_are_those_of_the_graphs() {
    assert_eq!(IN_VIEW, RunGraphOnViewNode::IN_VIEW);
    assert_eq!(INPUT_NODE, RenderGraph::INPUT_NODE_NAME);
    assert_eq!(draw_ui_graph::NAME, "draw_ui");
    assert_eq!(draw_ui_graph::input::VIEW_ENTITY, "view_entity");
    assert_eq!(draw_ui_graph::node::UI_PASS, "ui_pass");
    assert_eq!(node::UI_PASS_DRIVER, "ui_pass_driver");
    assert_eq!(core_3d::graph::node::MAIN_PASS, core_2d::graph::node::MAIN_PASS);
}

#[test]
fn a_new_graph_has_an_input_for_the_view() {
    let (graph, input) = new_ui_graph();
    let state = graph.input_node().unwrap();
    assert_eq!(state.id, input);
    let slot = state.output_slots.get_slot(draw_ui_graph::input::VIEW_ENTITY).unwrap();
    assert_eq!(slot.slot_type, SlotType::Entity);
    assert_eq!(graph.iter_nodes().count(), 1);
}

#[test]
fn the_pass_gets_the_view() {
    let (mut graph, input) = new_ui_graph();
    assert!(matches!(connect_ui_pass(&mut graph, input), Err(UiGraphError::SlotEdge(_))));
    let pass = graph.add_node(draw_ui_graph::node::UI_PASS, RunGraphOnViewNode::new("inner"));
    assert!(connect_ui_pass(&mut graph, input).is_ok());
    assert!(graph.has_edge(&Edge::SlotEdge {
        output_node: input,
        output_index: 0,
        input_node: pass,
        input_index: 0,
    }));
    assert!(matches!(connect_ui_pass(&mut graph, input), Err(UiGraphError::SlotEdge(_))));
}

#[test]
fn ui_graphs_have_one_structure() {
    let build = || {
        let (mut graph, input) = new_ui_graph();
        let pass = graph.add_node(draw_ui_graph::node::UI_PASS, RunGraphOnViewNode::new("inner"));
        assert!(connect_ui_pass(&mut graph, input).is_ok());
        (graph, input, pass)
    };
    let (a, input_a, pass_a) = build();
    let (b, input_b, pass_b) = build();
    assert_ne!(input_a, input_b);
    for (graph, input, pass) in [(&a, input_a, pass_a), (&b, input_b, pass_b)] {
        assert_eq!(graph.iter_nodes().count(), 2);
        assert_eq!(graph.get_node_id(INPUT_NODE).unwrap(), input);
        assert_eq!(graph.get_node_id(draw_ui_graph::node::UI_PASS).unwrap(), pass);
        assert_eq!(graph.iter_sub_graphs().count(), 0);
        let edges = &graph.get_node_state(pass).unwrap().edges;
        assert_eq!(edges.input_edges().len(), 1);
        assert_eq!(edges.output_edges().len(), 0);
        assert_eq!(
            edges.input_edges()[0],
            Edge::SlotEdge { output_node: input, output_index: 0, input_node: pass, input_index: 0 }
        );
    }
}

#[test]
fn the_ui_pass_is_in_its_place() {
    let mut graph = core_graph();
    let (ui_graph, ui_input) = new_ui_graph();
    assert!(attach_ui_graph(&mut graph, ui_graph, core_names()).is_ok());
    let ui_pass = draw_ui_graph::node::UI_PASS;
    assert!(has_edge(&graph, core_2d::graph::node::MAIN_PASS, ui_pass));
    assert!(has_edge(&graph, core_2d::graph::node::END_MAIN_PASS_POST_PROCESSING, ui_pass));
    assert!(has_edge(&graph, ui_pass, core_2d::graph::node::UPSCALING));
    assert!(!has_edge(&graph, ui_pass, core_2d::graph::node::MAIN_PASS));
    assert!(has_edge(
        &graph,
        core_2d::graph::node::END_MAIN_PASS_POST_PROCESSING,
        core_2d::graph::node::UPSCALING
    ));
    let sub_graph = graph.get_sub_graph(draw_ui_graph::NAME).unwrap();
    assert_eq!(sub_graph.input_node().unwrap().id, ui_input);
    assert!(graph.get_node::<RunGraphOnViewNode>(ui_pass).is_ok());
    let input = graph.input_node().unwrap().id;
    assert!(graph.has_edge(&Edge::SlotEdge {
        output_node: input,
        output_index: 0,
        input_node: graph.get_node_id(ui_pass).unwrap(),
        input_index: 0,
    }));
}

#[test]
fn a_graph_that_is_wired_twice_keeps_one_pass() {
    let mut graph = core_graph();
    assert!(attach_ui_graph(&mut graph, new_ui_graph().0, core_names()).is_ok());
    let first = graph.get_node_id(draw_ui_graph::node::UI_PASS).unwrap();
    assert!(attach_ui_graph(&mut graph, new_ui_graph().0, core_names()).is_ok());
    assert_ne!(graph.get_node_id(draw_ui_graph::node::UI_PASS).unwrap(), first);
}

#[test]
fn a_graph_without_an_input_is_left_alone() {
    let mut graph = RenderGraph::default();
    graph.add_node(core_2d::graph::node::MAIN_PASS, EmptyNode);
    let result = attach_ui_graph(&mut graph, new_ui_graph().0, core_names());
    assert!(matches!(result, Err(UiGraphError::NoInput)));
    assert!(graph.get_sub_graph(draw_ui_graph::NAME).is_none());
    assert_eq!(graph.iter_nodes().count(), 1);
}

#[test]
fn a_missing_pass_is_an_error() {
    let mut graph = core_graph();
    graph.remove_node(core_2d::graph::node::UPSCALING).unwrap();
    let result = attach_ui_graph(&mut graph, new_ui_graph().0, core_names());
    assert!(matches!(result, Err(UiGraphError::NodeEdge(_))));

    let mut names = core_names();
    names.main_pass = names.end_main_pass_post_processing;
    let result = attach_ui_graph(&mut core_graph(), new_ui_graph().0, names);
    assert!(matches!(result, Err(UiGraphError::NodeEdge(_))));
}

#[test]
fn a_missing_view_is_an_error() {
    let mut names = core_names();
    names.view_entity = "no_such_slot";
    let result = attach_ui_graph(&mut core_graph(), new_ui_graph().0, names);
    assert!(matches!(result, Err(UiGraphError::SlotEdge(_))));
}
