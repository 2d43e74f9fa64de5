//! Where in a render graph the user interface is drawn.
use crate::draw_ui_graph;
use bevy_render::render_graph::{
    NodeId, RenderGraph, RenderGraphError, RunGraphOnViewNode, SlotInfo, SlotType,
};
use vstd::prelude::*;

verus! {

/// Declares `RenderGraph`; what one holds is given by the names below.
#[verifier::external_type_specification]
#[verifier::external_body]
pub struct ExRenderGraph(RenderGraph);

/// Declares `RenderGraphError`, which is handed on to callers.
#[verifier::external_type_specification]
#[verifier::external_body]
pub struct ExRenderGraphError(RenderGraphError);

/// Declares `NodeId`, which is handed from one call to another.
#[verifier::external_type_specification]
#[verifier::external_body]
pub struct ExNodeId(NodeId);

/// The name of the slot through which a pass gets its view.
pub const IN_VIEW: &'static str = "view";

/// The name that a graph gives to its input node.
pub const INPUT_NODE: &'static str = "GraphInputNode";

/// The names of the nodes in a graph. With the name of a node that runs another graph once for
/// its view goes the name of that graph.
pub uninterp spec fn graph_nodes(graph: RenderGraph) -> Map<Seq<char>, Option<Seq<char>>>;

/// The pairs of nodes, by their names, of which the first has to run before the second: either
/// node lists the edge.
pub uninterp spec fn graph_edges(graph: RenderGraph) -> Set<(Seq<char>, Seq<char>)>;

/// The connections from an output slot of a node, given by its id, to an input slot of a node,
/// given by its name: either node lists the edge. A slot is the first of its name at its node.
pub uninterp spec fn graph_slot_edges(graph: RenderGraph) -> Set<
    (NodeId, Seq<char>, Seq<char>, Seq<char>),
>;

/// The output slots that give an entity, each with the id of its node.
pub uninterp spec fn graph_entity_outputs(graph: RenderGraph) -> Set<(NodeId, Seq<char>)>;

/// The input slots that take an entity and to which their node lists no edge, each with the name
/// of its node.
pub uninterp spec fn graph_free_inputs(graph: RenderGraph) -> Set<(Seq<char>, Seq<char>)>;

/// The graphs within a graph, by their names.
pub uninterp spec fn graph_sub_graphs(graph: RenderGraph) -> Map<Seq<char>, RenderGraph>;

/// Whether a graph has been given an input node.
pub uninterp spec fn graph_has_input(graph: RenderGraph) -> bool;

/// The id of the input node of a graph, if the graph holds it.
pub uninterp spec fn graph_input_node(graph: RenderGraph) -> Option<NodeId>;

/// The edges that do not touch the node of this name.
pub open spec fn edges_without(edges: Set<(Seq<char>, Seq<char>)>, name: Seq<char>) -> Set<
    (Seq<char>, Seq<char>),
> {
    edges.filter(|e: (Seq<char>, Seq<char>)| e.0 != name && e.1 != name)
}

/// The connections that do not lead to the node of this name.
pub open spec fn slot_edges_without(
    edges: Set<(NodeId, Seq<char>, Seq<char>, Seq<char>)>,
    name: Seq<char>,
) -> Set<(NodeId, Seq<char>, Seq<char>, Seq<char>)> {
    edges.filter(|e: (NodeId, Seq<char>, Seq<char>, Seq<char>)| e.2 != name)
}

/// The slots of other nodes than that of this name.
pub open spec fn slots_without(slots: Set<(Seq<char>, Seq<char>)>, name: Seq<char>) -> Set<
    (Seq<char>, Seq<char>),
> {
    slots.filter(|e: (Seq<char>, Seq<char>)| e.0 != name)
}

/// Calls `RenderGraph::default`: the new graph is empty.
#[verifier::external_body]
fn new_graph() -> (r: RenderGraph)
    ensures
        (graph_nodes(r) == Map::<Seq<char>, Option<Seq<char>>>::empty()),
        (graph_edges(r) == Set::<(Seq<char>, Seq<char>)>::empty()),
        (graph_slot_edges(r) == Set::<(NodeId, Seq<char>, Seq<char>, Seq<char>)>::empty()),
        (graph_entity_outputs(r) == Set::<(NodeId, Seq<char>)>::empty()),
        (graph_free_inputs(r) == Set::<(Seq<char>, Seq<char>)>::empty()),
        (graph_sub_graphs(r) == Map::<Seq<char>, RenderGraph>::empty()),
        !graph_has_input(r),
        graph_input_node(r) is None,
{
    RenderGraph::default()
}

/// Calls `RenderGraph::set_input` with one slot, which takes an entity and gives it on: the graph
/// gets an input node under the name that it reserves for it, in place of any other node of that
/// name, and the id of the node is returned. It panics on a graph that has been given an input
/// node.
#[verifier::external_body]
fn set_input(graph: &mut RenderGraph, slot: &'static str) -> (r: NodeId)
    requires
        !graph_has_input(*old(graph)),
    ensures
        graph_nodes(*final(graph)) == graph_nodes(*old(graph)).insert(INPUT_NODE@, None),
        graph_edges(*final(graph)) == edges_without(graph_edges(*old(graph)), INPUT_NODE@),
        graph_slot_edges(*final(graph)) == slot_edges_without(
            graph_slot_edges(*old(graph)),
            INPUT_NODE@,
        ),
        graph_entity_outputs(*final(graph)) == graph_entity_outputs(*old(graph)).insert((r, slot@)),
        graph_free_inputs(*final(graph)) == slots_without(
            graph_free_inputs(*old(graph)),
            INPUT_NODE@,
        ).insert((INPUT_NODE@, slot@)),
        graph_sub_graphs(*final(graph)) == graph_sub_graphs(*old(graph)),
        graph_has_input(*final(graph)),
        graph_input_node(*final(graph)) == Some(r),
{
    graph.set_input(vec![SlotInfo::new(slot, SlotType::Entity)])
}

/// Calls `RenderGraph::input_node`: the id of the input node, if the graph holds it.
#[verifier::external_body]
fn input_node(graph: &RenderGraph) -> (r: Option<NodeId>)
    ensures
        r == graph_input_node(*graph),
{
    graph.input_node().map(|node| node.id)
}

/// Calls `RenderGraph::add_sub_graph`: the graph within gets the name, in place of any other that
/// had it, and nothing else changes.
#[verifier::external_body]
fn add_sub_graph(graph: &mut RenderGraph, name: &'static str, sub_graph: RenderGraph)
    ensures
        graph_sub_graphs(*final(graph)) == graph_sub_graphs(*old(graph)).insert(name@, sub_graph),
        graph_nodes(*final(graph)) == graph_nodes(*old(graph)),
        graph_edges(*final(graph)) == graph_edges(*old(graph)),
        graph_slot_edges(*final(graph)) == graph_slot_edges(*old(graph)),
        graph_entity_outputs(*final(graph)) == graph_entity_outputs(*old(graph)),
        graph_free_inputs(*final(graph)) == graph_free_inputs(*old(graph)),
        graph_input_node(*final(graph)) == graph_input_node(*old(graph)),
{
    graph.add_sub_graph(name, sub_graph);
}

/// Calls `RenderGraph::add_node` with a `RunGraphOnViewNode`, whose one slot takes the view: the
/// node gets the name, in place of any other that had it, and no edge leads to it or from it.
#[verifier::external_body]
fn add_run_graph_node(graph: &mut RenderGraph, name: &'static str, graph_name: &'static str)
    ensures
        graph_nodes(*final(graph)) == graph_nodes(*old(graph)).insert(name@, Some(graph_name@)),
        graph_edges(*final(graph)) == edges_without(graph_edges(*old(graph)), name@),
        graph_slot_edges(*final(graph)) == slot_edges_without(graph_slot_edges(*old(graph)), name@),
        graph_entity_outputs(*final(graph)) == graph_entity_outputs(*old(graph)),
        graph_free_inputs(*final(graph)) == slots_without(
            graph_free_inputs(*old(graph)),
            name@,
        ).insert((name@, IN_VIEW@)),
        graph_sub_graphs(*final(graph)) == graph_sub_graphs(*old(graph)),
        graph_input_node(*final(graph)) == graph_input_node(*old(graph)),
{
    graph.add_node(name, RunGraphOnViewNode::new(graph_name));
}

/// Calls `RenderGraph::add_node_edge`: the edge is added if there are nodes of both names and it
/// is not there yet. Otherwise an error is returned and nothing changes.
#[verifier::external_body]
fn add_node_edge(graph: &mut RenderGraph, from: &'static str, to: &'static str) -> (r: Result<
    (),
    RenderGraphError,
>)
    ensures
        r is Ok == (graph_nodes(*old(graph)).contains_key(from@) && graph_nodes(
            *old(graph),
        ).contains_key(to@) && !graph_edges(*old(graph)).contains((from@, to@))),
        graph_edges(*final(graph)) == (if r is Ok {
            graph_edges(*old(graph)).insert((from@, to@))
        } else {
            graph_edges(*old(graph))
        }),
        graph_nodes(*final(graph)) == graph_nodes(*old(graph)),
        graph_slot_edges(*final(graph)) == graph_slot_edges(*old(graph)),
        graph_entity_outputs(*final(graph)) == graph_entity_outputs(*old(graph)),
        graph_free_inputs(*final(graph)) == graph_free_inputs(*old(graph)),
        graph_sub_graphs(*final(graph)) == graph_sub_graphs(*old(graph)),
        graph_input_node(*final(graph)) == graph_input_node(*old(graph)),
{
    graph.add_node_edge(from, to)
}

/// Calls `RenderGraph::add_slot_edge`: the slots are connected, or else an error is returned and
/// nothing changes. A free slot that takes an entity can be connected to every slot that gives
/// one, unless it is already, and to no other. It is an error if there is no node of the name
/// `to`. When slots of other kinds can be connected is left unsaid.
#[verifier::external_body]
fn add_slot_edge(
    graph: &mut RenderGraph,
    from: NodeId,
    from_slot: &'static str,
    to: &'static str,
    to_slot: &'static str,
) -> (r: Result<(), RenderGraphError>)
    ensures
        r is Ok ==> graph_nodes(*old(graph)).contains_key(to@),
        graph_free_inputs(*old(graph)).contains((to@, to_slot@)) ==> r is Ok == (
        graph_entity_outputs(*old(graph)).contains((from, from_slot@)) && !graph_slot_edges(
            *old(graph),
        ).contains((from, from_slot@, to@, to_slot@))),
        graph_slot_edges(*final(graph)) == (if r is Ok {
            graph_slot_edges(*old(graph)).insert((from, from_slot@, to@, to_slot@))
        } else {
            graph_slot_edges(*old(graph))
        }),
        graph_free_inputs(*final(graph)) == (if r is Ok {
            graph_free_inputs(*old(graph)).remove((to@, to_slot@))
        } else {
            graph_free_inputs(*old(graph))
        }),
        graph_nodes(*final(graph)) == graph_nodes(*old(graph)),
        graph_edges(*final(graph)) == graph_edges(*old(graph)),
        graph_entity_outputs(*final(graph)) == graph_entity_outputs(*old(graph)),
        graph_sub_graphs(*final(graph)) == graph_sub_graphs(*old(graph)),
        graph_input_node(*final(graph)) == graph_input_node(*old(graph)),
{
    graph.add_slot_edge(from, from_slot, to, to_slot)
}

/// The names in the graph that a kind of camera runs.
#[derive(Clone, Copy, Debug)]
pub struct CoreGraph {
    pub main_pass: &'static str,
    pub end_main_pass_post_processing: &'static str,
    pub upscaling: &'static str,
    /// The slot of the input node that gives the view.
    pub view_entity: &'static str,
}

/// Why the user interface could not be wired into a graph.
#[derive(Debug)]
pub enum UiGraphError {
    /// The graph has no input node.
    NoInput,
    /// An edge was refused.
    NodeEdge(RenderGraphError),
    /// A connection was refused.
    SlotEdge(RenderGraphError),
}

impl CoreGraph {
    /// The edges that put the pass of the user interface in its place.
    pub open spec fn ui_edges(self) -> Seq<(Seq<char>, Seq<char>)> {
        let ui_pass = draw_ui_graph::node::UI_PASS@;
        seq![
            (self.main_pass@, ui_pass),
            (self.end_main_pass_post_processing@, ui_pass),
            (ui_pass, self.upscaling@),
        ]
    }

    /// Whether these edges can be added to a graph with these nodes: they are different, and they
    /// are between nodes that exist once the pass does.
    pub open spec fn can_order(self, nodes: Map<Seq<char>, Option<Seq<char>>>) -> bool {
        &&& self.ui_edges().no_duplicates()
        &&& forall|name: Seq<char>| #[trigger]
            self.names().contains(name) ==> nodes.contains_key(name) || name
                == draw_ui_graph::node::UI_PASS@
    }

    /// The names of the nodes that the pass is ordered with.
    pub open spec fn names(self) -> Set<Seq<char>> {
        set![self.main_pass@, self.end_main_pass_post_processing@, self.upscaling@]
    }
}

/// Whether this is the graph that draws the user interface of one view, before its pass is added:
/// nothing but an input node, which gives on the view that it takes.
pub open spec fn is_new_ui_graph(graph: RenderGraph, input: NodeId) -> bool {
    &&& graph_nodes(graph) == map![INPUT_NODE@ => None::<Seq<char>>]
    &&& graph_edges(graph) == Set::<(Seq<char>, Seq<char>)>::empty()
    &&& graph_slot_edges(graph) == Set::<(NodeId, Seq<char>, Seq<char>, Seq<char>)>::empty()
    &&& graph_entity_outputs(graph) == set![(input, draw_ui_graph::input::VIEW_ENTITY@)]
    &&& graph_free_inputs(graph) == set![(INPUT_NODE@, draw_ui_graph::input::VIEW_ENTITY@)]
    &&& graph_sub_graphs(graph) == Map::<Seq<char>, RenderGraph>::empty()
    &&& graph_input_node(graph) == Some(input)
}

/// Whether `after` is `before` with the pass added: a node that runs no other graph, whose one
/// slot takes the view.
pub open spec fn is_with_pass(before: RenderGraph, after: RenderGraph) -> bool {
    let ui_pass = draw_ui_graph::node::UI_PASS@;
    &&& graph_nodes(after) == graph_nodes(before).insert(ui_pass, None)
    &&& graph_edges(after) == edges_without(graph_edges(before), ui_pass)
    &&& graph_slot_edges(after) == slot_edges_without(graph_slot_edges(before), ui_pass)
    &&& graph_entity_outputs(after) == graph_entity_outputs(before)
    &&& graph_free_inputs(after) == slots_without(graph_free_inputs(before), ui_pass).insert(
        (ui_pass, IN_VIEW@),
    )
    &&& graph_sub_graphs(after) == graph_sub_graphs(before)
    &&& graph_input_node(after) == graph_input_node(before)
}

/// The connection that gives the pass the view.
pub open spec fn view_edge(input: NodeId) -> (NodeId, Seq<char>, Seq<char>, Seq<char>) {
    (input, draw_ui_graph::input::VIEW_ENTITY@, draw_ui_graph::node::UI_PASS@, IN_VIEW@)
}

/// Whether the pass, whose slot for the view is free, can be given the view by this node: the
/// node gives it, and not to the pass yet.
pub open spec fn gives_view(graph: RenderGraph, input: NodeId) -> bool {
    graph_entity_outputs(graph).contains((input, draw_ui_graph::input::VIEW_ENTITY@))
        && !graph_slot_edges(graph).contains(view_edge(input))
}

/// Whether `after` is `before` with the pass connected to this node, and otherwise the same.
pub open spec fn is_connected(before: RenderGraph, after: RenderGraph, input: NodeId) -> bool {
    &&& graph_slot_edges(after) == graph_slot_edges(before).insert(view_edge(input))
    &&& graph_free_inputs(after) == graph_free_inputs(before).remove(
        (draw_ui_graph::node::UI_PASS@, IN_VIEW@),
    )
    &&& graph_nodes(after) == graph_nodes(before)
    &&& graph_edges(after) == graph_edges(before)
    &&& graph_entity_outputs(after) == graph_entity_outputs(before)
    &&& graph_sub_graphs(after) == graph_sub_graphs(before)
    &&& graph_input_node(after) == graph_input_node(before)
}

/// Whether both graphs hold the same.
pub open spec fn is_unchanged(before: RenderGraph, after: RenderGraph) -> bool {
    &&& graph_slot_edges(after) == graph_slot_edges(before)
    &&& graph_free_inputs(after) == graph_free_inputs(before)
    &&& graph_nodes(after) == graph_nodes(before)
    &&& graph_edges(after) == graph_edges(before)
    &&& graph_entity_outputs(after) == graph_entity_outputs(before)
    &&& graph_sub_graphs(after) == graph_sub_graphs(before)
    &&& graph_input_node(after) == graph_input_node(before)
}

/// The graph that draws the user interface of one view, before its pass is added, and the id of
/// its input node.
pub fn new_ui_graph() -> (r: (RenderGraph, NodeId))
    ensures
        is_new_ui_graph(r.0, r.1),
        graph_has_input(r.0),
{
    let mut graph = new_graph();
    let input = set_input(&mut graph, draw_ui_graph::input::VIEW_ENTITY);
    proof {
        assert(edges_without(Set::empty(), INPUT_NODE@) =~= Set::empty());
        assert(slot_edges_without(Set::empty(), INPUT_NODE@) =~= Set::empty());
        assert(graph_free_inputs(graph) =~= set![
            (INPUT_NODE@, draw_ui_graph::input::VIEW_ENTITY@),
        ]);
        assert(graph_nodes(graph) =~= map![INPUT_NODE@ => None::<Seq<char>>]);
        assert(graph_entity_outputs(graph) =~= set![(input, draw_ui_graph::input::VIEW_ENTITY@)]);
    }
    (graph, input)
}

/// Connects the input node of the graph that draws the user interface to its pass, which then
/// gets the view. The connection is refused, and the graph does not change, where the graph has
/// no such pass or the input node does not give the view.
pub fn connect_ui_pass(ui_graph: &mut RenderGraph, input: NodeId) -> (r: Result<(), UiGraphError>)
    ensures
        r is Ok ==> graph_nodes(*old(ui_graph)).contains_key(draw_ui_graph::node::UI_PASS@),
        graph_free_inputs(*old(ui_graph)).contains((draw_ui_graph::node::UI_PASS@, IN_VIEW@))
            ==> r is Ok == gives_view(*old(ui_graph), input),
        r is Ok ==> is_connected(*old(ui_graph), *final(ui_graph), input),
        r is Err ==> r->Err_0 is SlotEdge && is_unchanged(*old(ui_graph), *final(ui_graph)),
{
    match add_slot_edge(
        ui_graph,
        input,
        draw_ui_graph::input::VIEW_ENTITY,
        draw_ui_graph::node::UI_PASS,
        IN_VIEW,
    ) {
        Ok(()) => Ok(()),
        Err(error) => Err(UiGraphError::SlotEdge(error)),
    }
}

/// What wiring the graph that draws the user interface into a graph does to that graph, from `before`
/// to `after`, and what it returns.
pub open spec fn is_attached(
    before: RenderGraph,
    ui_graph: RenderGraph,
    core: CoreGraph,
    after: RenderGraph,
    r: Result<(), UiGraphError>,
) -> bool {
    let ui_pass = draw_ui_graph::node::UI_PASS@;
    let edges = edges_without(graph_edges(before), ui_pass);
    let slot_edges = slot_edges_without(graph_slot_edges(before), ui_pass);
    let slots = slots_without(graph_free_inputs(before), ui_pass);
    let input = graph_input_node(before);
    let view = graph_entity_outputs(before).contains((input->0, core.view_entity@));
    let ordered = core.can_order(graph_nodes(before));
    &&& r is Ok <==> input is Some && ordered && view
    &&& r is Err && r->Err_0 is NoInput <==> input is None
    &&& r is Err && r->Err_0 is NodeEdge <==> input is Some && !ordered
    &&& r is Err && r->Err_0 is SlotEdge <==> input is Some && ordered && !view
    &&& input is Some ==> graph_nodes(after) == graph_nodes(before).insert(
        ui_pass,
        Some(draw_ui_graph::NAME@),
    )
    &&& input is Some ==> graph_sub_graphs(after) == graph_sub_graphs(
        before,
    ).insert(draw_ui_graph::NAME@, ui_graph)
    &&& input is Some && ordered ==> graph_edges(after) == edges.union(
        core.ui_edges().to_set(),
    )
    &&& input is Some && !ordered ==> edges.subset_of(graph_edges(after))
        && graph_edges(after).subset_of(edges.union(core.ui_edges().to_set()))
    &&& r is Ok ==> graph_slot_edges(after) == slot_edges.insert(
        (input->0, core.view_entity@, ui_pass, IN_VIEW@),
    )
    &&& input is Some && r is Err ==> graph_slot_edges(after) == slot_edges
    &&& r is Ok ==> graph_free_inputs(after) == slots
    &&& input is Some && r is Err ==> graph_free_inputs(after) == slots.insert(
        (ui_pass, IN_VIEW@),
    )
    &&& graph_input_node(before) is None ==> is_unchanged(before, after)
    &&& graph_entity_outputs(after) == graph_entity_outputs(before)
    &&& graph_input_node(after) == graph_input_node(before)
}

/// Wires the graph that draws the user interface into the graph of a kind of camera: its pass
/// runs after the main pass and all that is done to its picture, before the picture is scaled up
/// to the screen, and for the view of the camera.
///
/// This fails where the graph has no input node, and then the graph does not change; where a node
/// that the pass is ordered with is missing; and where the input node does not give the view.
pub fn attach_ui_graph(graph: &mut RenderGraph, ui_graph: RenderGraph, core: CoreGraph) -> (r:
    Result<(), UiGraphError>)
    ensures
        is_attached(*old(graph), ui_graph, core, *final(graph), r),
{
    let input = match input_node(graph) {
        Some(input) => input,
        None => {
            return Err(UiGraphError::NoInput);
        },
    };
    let ghost ui_edges = core.ui_edges();
    proof {
        assert(ui_edges[0] == (core.main_pass@, draw_ui_graph::node::UI_PASS@));
        assert(ui_edges[1] == (
            core.end_main_pass_post_processing@,
            draw_ui_graph::node::UI_PASS@,
        ));
        assert(ui_edges[2] == (draw_ui_graph::node::UI_PASS@, core.upscaling@));
        assert(core.names().contains(core.main_pass@));
        assert(core.names().contains(core.end_main_pass_post_processing@));
        assert(core.names().contains(core.upscaling@));
        assert(ui_edges.to_set().contains(ui_edges[0]));
        assert(ui_edges.to_set().contains(ui_edges[1]));
        assert(ui_edges.to_set().contains(ui_edges[2]));
    }
    add_sub_graph(graph, draw_ui_graph::NAME, ui_graph);
    add_run_graph_node(graph, draw_ui_graph::node::UI_PASS, draw_ui_graph::NAME);
    if let Err(error) = add_node_edge(graph, core.main_pass, draw_ui_graph::node::UI_PASS) {
        return Err(UiGraphError::NodeEdge(error));
    }
    if let Err(error) = add_node_edge(
        graph,
        core.end_main_pass_post_processing,
        draw_ui_graph::node::UI_PASS,
    ) {
        return Err(UiGraphError::NodeEdge(error));
    }
    if let Err(error) = add_node_edge(graph, draw_ui_graph::node::UI_PASS, core.upscaling) {
        return Err(UiGraphError::NodeEdge(error));
    }
    proof {
        assert(core.ui_edges().no_duplicates());
        let edges = edges_without(graph_edges(*old(graph)), draw_ui_graph::node::UI_PASS@);
        assert(graph_edges(*graph) =~= edges.union(ui_edges.to_set())) by {
            assert forall|e: (Seq<char>, Seq<char>)| #[trigger]
                graph_edges(*graph).contains(e) implies edges.union(ui_edges.to_set()).contains(
                e,
            ) by {
                assert(edges.contains(e) || e == ui_edges[0] || e == ui_edges[1] || e
                    == ui_edges[2]);
            }
        }
    }
    if let Err(error) = add_slot_edge(
        graph,
        input,
        core.view_entity,
        draw_ui_graph::node::UI_PASS,
        IN_VIEW,
    ) {
        return Err(UiGraphError::SlotEdge(error));
    }
    assert(graph_free_inputs(*graph) =~= slots_without(
        graph_free_inputs(*old(graph)),
        draw_ui_graph::node::UI_PASS@,
    ));
    Ok(())
}

/// Once the pass is added to a new graph, it can be given the view: its slot is free, and the input
/// node gives the view.
pub proof fn law_new_pass_can_be_connected(new: RenderGraph, passed: RenderGraph, input: NodeId)
    requires
        is_new_ui_graph(new, input),
        is_with_pass(new, passed),
    ensures
        graph_free_inputs(passed).contains((draw_ui_graph::node::UI_PASS@, IN_VIEW@)),
        gives_view(passed, input),
{
}

/// All graphs that draw the user interface have one structure: two of them, each made anew, with
/// the pass added and connected, have the same nodes, edges, free slots and graphs within, and
/// their connections and outputs are the same but for the ids of their input nodes.
pub proof fn law_ui_graphs_have_one_structure(
    new_a: RenderGraph,
    passed_a: RenderGraph,
    a: RenderGraph,
    input_a: NodeId,
    new_b: RenderGraph,
    passed_b: RenderGraph,
    b: RenderGraph,
    input_b: NodeId,
)
    requires
        is_new_ui_graph(new_a, input_a),
        is_with_pass(new_a, passed_a),
        is_connected(passed_a, a, input_a),
        is_new_ui_graph(new_b, input_b),
        is_with_pass(new_b, passed_b),
        is_connected(passed_b, b, input_b),
    ensures
        graph_nodes(a) == graph_nodes(b),
        graph_edges(a) == graph_edges(b),
        graph_free_inputs(a) == graph_free_inputs(b),
        graph_sub_graphs(a) == graph_sub_graphs(b),
        graph_slot_edges(a) == set![view_edge(input_a)],
        graph_slot_edges(b) == set![view_edge(input_b)],
        graph_entity_outputs(a) == set![(input_a, draw_ui_graph::input::VIEW_ENTITY@)],
        graph_entity_outputs(b) == set![(input_b, draw_ui_graph::input::VIEW_ENTITY@)],
        graph_input_node(a) == Some(input_a),
        graph_input_node(b) == Some(input_b),
{
}

/// Once the graph is wired in, the pass of the user interface runs after the main pass and after
/// all that is done to its picture, and before the picture is scaled up; all other nodes keep
/// their order.
pub proof fn law_ui_pass_is_in_its_place(
    edges: Set<(Seq<char>, Seq<char>)>,
    core: CoreGraph,
    from: Seq<char>,
    to: Seq<char>,
)
    ensures
        ({
            let ui_pass = draw_ui_graph::node::UI_PASS@;
            let after = edges_without(edges, ui_pass).union(core.ui_edges().to_set());
            &&& after.contains((core.main_pass@, ui_pass))
            &&& after.contains((core.end_main_pass_post_processing@, ui_pass))
            &&& after.contains((ui_pass, core.upscaling@))
            &&& from != ui_pass && to != ui_pass ==> after.contains((from, to)) == edges.contains(
                (from, to),
            )
        }),
{
    let ui_edges = core.ui_edges();
    assert(ui_edges[0] == (core.main_pass@, draw_ui_graph::node::UI_PASS@));
    assert(ui_edges[1] == (core.end_main_pass_post_processing@, draw_ui_graph::node::UI_PASS@));
    assert(ui_edges[2] == (draw_ui_graph::node::UI_PASS@, core.upscaling@));
    assert(ui_edges.to_set().contains(ui_edges[0]));
    assert(ui_edges.to_set().contains(ui_edges[1]));
    assert(ui_edges.to_set().contains(ui_edges[2]));
}

/// What is left without a node is what does not touch it: edges at neither end, connections that do not
/// lead to it, and slots of other nodes.
pub proof fn law_without_a_node_the_rest_is_left(
    edges: Set<(Seq<char>, Seq<char>)>,
    slot_edges: Set<(NodeId, Seq<char>, Seq<char>, Seq<char>)>,
    slots: Set<(Seq<char>, Seq<char>)>,
    name: Seq<char>,
    id: NodeId,
    from: Seq<char>,
    to: Seq<char>,
    slot: Seq<char>,
)
    ensures
        edges_without(edges, name).contains((from, to)) <==> edges.contains((from, to)) && from
            != name && to != name,
        slot_edges_without(slot_edges, name).contains((id, from, to, slot)) <==> slot_edges.contains(
            (id, from, to, slot),
        ) && to != name,
        slots_without(slots, name).contains((to, slot)) <==> slots.contains((to, slot)) && to
            != name,
{
}

/// The user interface can be wired in if and only if the graph has an input node that gives the view, and
/// the nodes that the pass is ordered with are there, or are the pass itself, and make three different
/// edges. Each thing that is missing has its own error, and the input node is looked for first.
pub proof fn law_attaching_succeeds_where_all_is_there(
    before: RenderGraph,
    ui_graph: RenderGraph,
    core: CoreGraph,
    after: RenderGraph,
    r: Result<(), UiGraphError>,
)
    requires
        is_attached(before, ui_graph, core, after, r),
    ensures
        ({
            let ui_pass = draw_ui_graph::node::UI_PASS@;
            let (main, end, up) = (
                core.main_pass@,
                core.end_main_pass_post_processing@,
                core.upscaling@,
            );
            let nodes = graph_nodes(before);
            let has_input = graph_input_node(before) is Some;
            let there = (nodes.contains_key(main) || main == ui_pass) && (nodes.contains_key(end)
                || end == ui_pass) && (nodes.contains_key(up) || up == ui_pass);
            let differ = main != end && !(up == ui_pass && (main == ui_pass || end == ui_pass));
            let view = graph_entity_outputs(before).contains(
                (graph_input_node(before)->0, core.view_entity@),
            );
            &&& r is Ok <==> has_input && there && differ && view
            &&& r is Err && r->Err_0 is NoInput <==> !has_input
            &&& r is Err && r->Err_0 is NodeEdge <==> has_input && !(there && differ)
            &&& r is Err && r->Err_0 is SlotEdge <==> has_input && there && differ && !view
        }),
{
    let ui_pass = draw_ui_graph::node::UI_PASS@;
    let e = core.ui_edges();
    assert(e.len() == 3);
    assert(e[0] == (core.main_pass@, ui_pass));
    assert(e[1] == (core.end_main_pass_post_processing@, ui_pass));
    assert(e[2] == (ui_pass, core.upscaling@));
    assert(e.no_duplicates() == (e[0] != e[1] && e[0] != e[2] && e[1] != e[2]));
    assert(core.names().contains(core.main_pass@));
    assert(core.names().contains(core.end_main_pass_post_processing@));
    assert(core.names().contains(core.upscaling@));
}

/// Once the user interface is wired in, the graph has a pass that runs the graph that draws it, after the
/// main pass and after all that is done to its picture, before the picture is scaled up, and for the
/// view that the input node gives. No other edge touches the pass, and all other nodes, graphs, edges
/// and connections are as they were.
pub proof fn law_attached_graph_runs_the_ui_pass(
    before: RenderGraph,
    ui_graph: RenderGraph,
    core: CoreGraph,
    after: RenderGraph,
    r: Result<(), UiGraphError>,
    id: NodeId,
    from: Seq<char>,
    to: Seq<char>,
    slot: Seq<char>,
)
    requires
        is_attached(before, ui_graph, core, after, r),
        r is Ok,
    ensures
        ({
            let ui_pass = draw_ui_graph::node::UI_PASS@;
            let input = graph_input_node(before)->0;
            let is_ui_edge = (from, to) == (core.main_pass@, ui_pass) || (from, to) == (
                core.end_main_pass_post_processing@,
                ui_pass,
            ) || (from, to) == (ui_pass, core.upscaling@);
            let is_view_edge = (id, from, to, slot) == (
                input,
                core.view_entity@,
                ui_pass,
                IN_VIEW@,
            );
            &&& graph_nodes(after).contains_key(ui_pass)
            &&& graph_nodes(after)[ui_pass] == Some(draw_ui_graph::NAME@)
            &&& from != ui_pass ==> graph_nodes(after).contains_key(from) == graph_nodes(
                before,
            ).contains_key(from) && graph_nodes(after)[from] == graph_nodes(before)[from]
            &&& graph_sub_graphs(after).contains_key(draw_ui_graph::NAME@)
            &&& graph_sub_graphs(after)[draw_ui_graph::NAME@] == ui_graph
            &&& from != draw_ui_graph::NAME@ ==> graph_sub_graphs(after).contains_key(from)
                == graph_sub_graphs(before).contains_key(from) && graph_sub_graphs(after)[from]
                == graph_sub_graphs(before)[from]
            &&& graph_edges(after).contains((from, to)) <==> is_ui_edge || graph_edges(
                before,
            ).contains((from, to)) && from != ui_pass && to != ui_pass
            &&& graph_slot_edges(after).contains((id, from, to, slot)) <==> is_view_edge
                || graph_slot_edges(before).contains((id, from, to, slot)) && to != ui_pass
            &&& graph_free_inputs(after).contains((to, slot)) <==> graph_free_inputs(
                before,
            ).contains((to, slot)) && to != ui_pass
            &&& graph_entity_outputs(after) == graph_entity_outputs(before)
            &&& graph_input_node(after) == graph_input_node(before)
        }),
{
    let ui_pass = draw_ui_graph::node::UI_PASS@;
    let e = core.ui_edges();
    assert(e.len() == 3);
    assert(e[0] == (core.main_pass@, ui_pass));
    assert(e[1] == (core.end_main_pass_post_processing@, ui_pass));
    assert(e[2] == (ui_pass, core.upscaling@));
    assert(e.to_set().contains(e[0]) && e.to_set().contains(e[1]) && e.to_set().contains(e[2]));
}

/// The pass that draws the user interface can be given the view by a node that gives it and does not give
/// it to the pass yet. Once connected, that is the one connection more, the slot of the pass is free no
/// longer, and all else is as it was.
pub proof fn law_connected_pass_gets_the_view(
    before: RenderGraph,
    after: RenderGraph,
    input: NodeId,
    id: NodeId,
    from: Seq<char>,
    to: Seq<char>,
    slot: Seq<char>,
)
    requires
        is_connected(before, after, input),
    ensures
        ({
            let view = draw_ui_graph::input::VIEW_ENTITY@;
            let ui_pass = draw_ui_graph::node::UI_PASS@;
            &&& gives_view(before, input) <==> graph_entity_outputs(before).contains((input, view))
                && !graph_slot_edges(before).contains((input, view, ui_pass, IN_VIEW@))
            &&& graph_slot_edges(after).contains((id, from, to, slot)) <==> graph_slot_edges(
                before,
            ).contains((id, from, to, slot)) || (id, from, to, slot) == (
                input,
                view,
                ui_pass,
                IN_VIEW@,
            )
            &&& graph_free_inputs(after).contains((to, slot)) <==> graph_free_inputs(
                before,
            ).contains((to, slot)) && !(to == ui_pass && slot == IN_VIEW@)
            &&& graph_nodes(after) == graph_nodes(before)
            &&& graph_edges(after) == graph_edges(before)
            &&& graph_entity_outputs(after) == graph_entity_outputs(before)
            &&& graph_sub_graphs(after) == graph_sub_graphs(before)
            &&& graph_input_node(after) == graph_input_node(before)
        }),
{
}

/// A new graph for the user interface has one node, its input node, which takes the view and gives it on,
/// and no edge, connection or graph within.
pub proof fn law_new_graph_has_only_its_input(
    graph: RenderGraph,
    input: NodeId,
    id: NodeId,
    from: Seq<char>,
    to: Seq<char>,
    slot: Seq<char>,
)
    requires
        is_new_ui_graph(graph, input),
    ensures
        graph_nodes(graph).contains_key(from) <==> from == INPUT_NODE@,
        graph_nodes(graph)[INPUT_NODE@] is None,
        !graph_edges(graph).contains((from, to)),
        !graph_slot_edges(graph).contains((id, from, to, slot)),
        graph_entity_outputs(graph).contains((id, slot)) <==> id == input && slot
            == draw_ui_graph::input::VIEW_ENTITY@,
        graph_free_inputs(graph).contains((to, slot)) <==> to == INPUT_NODE@ && slot
            == draw_ui_graph::input::VIEW_ENTITY@,
        !graph_sub_graphs(graph).contains_key(from),
        graph_input_node(graph) == Some(input),
{
}

} // verus!
