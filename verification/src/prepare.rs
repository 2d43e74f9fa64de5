//! Turning the boxes of a frame into vertices, and into batches that are drawn at once.
use crate::extract::UiNodeType;
use crate::params_buffer::{params_label, params_words, UiParamsUniforms};
use crate::quad::{law_vertices_carry_their_corner, PlacedNode, UiVertex, QUAD_VERTICES};
use crate::scalar::Scalar;
use crate::sort::{
    is_stable_sort_of, law_sorted_boxes_follow_the_stack, law_stable_sort_is_unique,
    lemma_filter_same, lemma_sort_keeps_boxes, sort_by_stack_index,
};
use crate::vertex_buffer::{vertex_usage, vertex_words, VertexBuffer, VERTEX_USAGE};
use bevy_render::render_resource::BindGroup;
use std::ops::Range;
use vstd::multiset::Multiset;
use vstd::prelude::*;

verus! {

/// Declares `BindGroup`, which the library keeps and does not look into.
#[verifier::external_type_specification]
#[verifier::external_body]
pub struct ExBindGroup(BindGroup);

/// What the frames share.
pub struct UiMeta {
    pub vertices: VertexBuffer,
    pub view_bind_group: Option<BindGroup>,
    /// The parameters for drawing sprites.
    pub sprite_params_uniforms: Option<UiParamsUniforms>,
    /// The parameters for drawing text.
    pub text_params_uniforms: Option<UiParamsUniforms>,
}

/// The parameters that a shader reads for a kind of node.
#[derive(Clone, Copy, Debug, PartialEq, Eq, Structural)]
pub struct UiParamsUniform {
    pub node_type: u32,
    pub pad0: u32,
    pub pad1: u32,
    pub pad2: u32,
}

/// A range of vertices that one image and one kind of node suffice to draw.
#[derive(Debug)]
pub struct UiBatch {
    pub range: Range<u32>,
    /// The key of the image.
    pub image: u64,
    pub node_type: UiNodeType,
    /// The depth of the topmost box of the batch.
    pub z: Scalar,
}

/// What preparing a frame leaves to be done.
#[derive(Debug)]
pub struct PreparedUi {
    /// The kinds of node whose parameters have just been made and are not on the device yet.
    pub new_params: Vec<UiNodeType>,
    /// The batches, in the order in which they are drawn.
    pub batches: Vec<UiBatch>,
}

impl UiNodeType {
    /// The number by which the shader knows the kind.
    pub open spec fn number(self) -> u32 {
        match self {
            UiNodeType::Sprite => 0,
            UiNodeType::Text => 1,
        }
    }

    /// The label of the buffer that holds the parameters of the kind.
    pub open spec fn params_label_spec(self) -> Seq<char> {
        match self {
            UiNodeType::Sprite => "ui_sprite_params_buffer"@,
            UiNodeType::Text => "ui_text_params_buffer"@,
        }
    }

    /// The parameters of the kind.
    pub fn params(self) -> (r: UiParamsUniform)
        ensures
            r == (UiParamsUniform { node_type: self.number(), pad0: 0, pad1: 0, pad2: 0 }),
    {
        let number: u32 = match self {
            UiNodeType::Sprite => 0,
            UiNodeType::Text => 1,
        };
        UiParamsUniform { node_type: number, pad0: 0, pad1: 0, pad2: 0 }
    }

    /// Whether the buffer holds the parameters of the kind, and nothing else, under its label.
    pub open spec fn is_described_by(self, buffer: UiParamsUniforms) -> bool {
        &&& params_words(buffer) == seq![[self.number(), 0, 0, 0]]
        &&& params_label(buffer) == Some(self.params_label_spec())
    }

    /// A buffer that holds the parameters of the kind.
    fn new_params(self) -> (r: UiParamsUniforms)
        ensures
            self.is_described_by(r),
    {
        let mut buffer = UiParamsUniforms::new();
        buffer.push(self.params().words());
        buffer.set_label(
            match self {
                UiNodeType::Sprite => "ui_sprite_params_buffer",
                UiNodeType::Text => "ui_text_params_buffer",
            },
        );
        assert(params_words(buffer) =~= seq![[self.number(), 0, 0, 0]]);
        buffer
    }
}

impl UiParamsUniform {
    /// The words of the parameters in the order in which the shader reads them.
    fn words(&self) -> (r: [u32; 4])
        ensures
            r == [self.node_type, self.pad0, self.pad1, self.pad2],
    {
        [self.node_type, self.pad0, self.pad1, self.pad2]
    }
}

impl Default for UiMeta {
    fn default() -> (r: Self)
        ensures
            vertex_words(r.vertices) == Seq::<[u32; 9]>::empty(),
            vertex_usage(r.vertices) == VERTEX_USAGE,
            r.view_bind_group is None,
            r.sprite_params_uniforms is None,
            r.text_params_uniforms is None,
    {
        UiMeta {
            vertices: VertexBuffer::new(VERTEX_USAGE),
            view_bind_group: None,
            sprite_params_uniforms: None,
            text_params_uniforms: None,
        }
    }
}

impl UiMeta {
    /// The buffer of parameters for a kind of node.
    pub open spec fn params_spec(self, node_type: UiNodeType) -> Option<UiParamsUniforms> {
        match node_type {
            UiNodeType::Sprite => self.sprite_params_uniforms,
            UiNodeType::Text => self.text_params_uniforms,
        }
    }

    /// The buffer of parameters for a kind of node, if it has been made.
    pub fn params_uniforms(&self, node_type: UiNodeType) -> (r: Option<&UiParamsUniforms>)
        ensures
            r is Some == self.params_spec(node_type) is Some,
            r is Some ==> *r->0 == self.params_spec(node_type)->0,
    {
        match node_type {
            UiNodeType::Sprite => self.sprite_params_uniforms.as_ref(),
            UiNodeType::Text => self.text_params_uniforms.as_ref(),
        }
    }

    /// The kinds of node whose parameters are missing.
    pub open spec fn missing_params_spec(self) -> Seq<UiNodeType> {
        let sprite = if self.sprite_params_uniforms is None {
            seq![UiNodeType::Sprite]
        } else {
            seq![]
        };
        let text = if self.text_params_uniforms is None {
            seq![UiNodeType::Text]
        } else {
            seq![]
        };
        sprite + text
    }

    /// Makes the parameters that are missing, and returns the kinds of node that they are for.
    fn make_missing_params(&mut self) -> (r: Vec<UiNodeType>)
        ensures
            r@ == old(self).missing_params_spec(),
            final(self).has_params_after(*old(self)),
            final(self).vertices == old(self).vertices,
            final(self).view_bind_group == old(self).view_bind_group,
    {
        let mut kinds: Vec<UiNodeType> = Vec::new();
        if self.sprite_params_uniforms.is_none() {
            self.sprite_params_uniforms = Some(UiNodeType::Sprite.new_params());
            kinds.push(UiNodeType::Sprite);
        }
        if self.text_params_uniforms.is_none() {
            self.text_params_uniforms = Some(UiNodeType::Text.new_params());
            kinds.push(UiNodeType::Text);
        }
        kinds
    }

    /// Whether every kind of node has its parameters: those that it had before, or else new ones.
    pub open spec fn has_params_after(self, before: UiMeta) -> bool {
        forall|kind: UiNodeType|
            {
                let params = #[trigger] self.params_spec(kind);
                if before.params_spec(kind) is Some {
                    params == before.params_spec(kind)
                } else {
                    params is Some && kind.is_described_by(params->0)
                }
            }
    }
}

/// The vertices of the boxes that are drawn, box after box.
pub open spec fn vertices_of(nodes: Seq<PlacedNode>) -> Seq<[u32; 9]>
    decreases nodes.len(),
{
    if nodes.len() == 0 {
        Seq::empty()
    } else if nodes.last().is_culled_spec() {
        vertices_of(nodes.drop_last())
    } else {
        vertices_of(nodes.drop_last()) + nodes.last().vertices_spec().map_values(
            |v: UiVertex| v.words_spec(),
        )
    }
}

/// The boxes that are drawn.
pub open spec fn drawn(nodes: Seq<PlacedNode>) -> Seq<PlacedNode> {
    nodes.filter(|p: PlacedNode| !p.is_culled_spec())
}

/// Whether one batch can hold both boxes.
pub open spec fn share_batch(a: PlacedNode, b: PlacedNode) -> bool {
    a.node.image == b.node.image && a.node.node_type == b.node.node_type
}

/// Whether a box that is drawn can share its batch with all boxes after it.
pub open spec fn has_open_batch(nodes: Seq<PlacedNode>) -> bool {
    exists|j: int|
        0 <= j < nodes.len() && !(#[trigger] nodes[j]).is_culled_spec() && forall|k: int|
            j <= k < nodes.len() ==> share_batch(#[trigger] nodes[k], nodes.last())
}

/// The batch of a box, with the vertices from `start` to `end`.
pub open spec fn batch(start: int, end: int, node: PlacedNode) -> UiBatch {
    UiBatch {
        range: Range { start: start as u32, end: end as u32 },
        image: node.node.image,
        node_type: node.node.node_type,
        z: node.z(),
    }
}

/// The batches of the boxes. A box that is drawn joins the last batch if it and all boxes since
/// one of that batch, drawn or not, show one image in one way; otherwise it starts a batch.
pub open spec fn batches_of(nodes: Seq<PlacedNode>) -> Seq<UiBatch>
    decreases nodes.len(),
{
    if nodes.len() == 0 {
        Seq::empty()
    } else {
        let rest = nodes.drop_last();
        let node = nodes.last();
        let earlier = batches_of(rest);
        let start = vertices_of(rest).len() as int;
        let end = vertices_of(nodes).len() as int;
        if node.is_culled_spec() {
            earlier
        } else if has_open_batch(rest) && share_batch(rest.last(), node) {
            earlier.drop_last().push(batch(earlier.last().range.start as int, end, node))
        } else {
            earlier.push(batch(start, end, node))
        }
    }
}

/// A batch is open after a box that is drawn, and otherwise if one was open before and the box
/// could share it.
proof fn lemma_open_batch_step(nodes: Seq<PlacedNode>)
    requires
        nodes.len() > 0,
    ensures
        has_open_batch(nodes) == (!nodes.last().is_culled_spec() || has_open_batch(
            nodes.drop_last(),
        ) && share_batch(nodes.drop_last().last(), nodes.last())),
{
    let rest = nodes.drop_last();
    let top = nodes.len() - 1;
    if has_open_batch(nodes) && nodes.last().is_culled_spec() {
        let j = choose|j: int|
            0 <= j < nodes.len() && !(#[trigger] nodes[j]).is_culled_spec() && forall|k: int|
                j <= k < nodes.len() ==> share_batch(#[trigger] nodes[k], nodes.last());
        assert(share_batch(nodes[top - 1], nodes.last()));
        assert(!rest[j].is_culled_spec());
        assert forall|k: int| j <= k < rest.len() implies share_batch(
            #[trigger] rest[k],
            rest.last(),
        ) by {
            assert(share_batch(nodes[k], nodes.last()));
        }
    }
    if !nodes.last().is_culled_spec() {
        assert(!nodes[top].is_culled_spec());
    } else if has_open_batch(rest) && share_batch(rest.last(), nodes.last()) {
        let j = choose|j: int|
            0 <= j < rest.len() && !(#[trigger] rest[j]).is_culled_spec() && forall|k: int|
                j <= k < rest.len() ==> share_batch(#[trigger] rest[k], rest.last());
        assert(!nodes[j].is_culled_spec());
        assert forall|k: int| j <= k < nodes.len() implies share_batch(
            #[trigger] nodes[k],
            nodes.last(),
        ) by {
            if k < top {
                assert(share_batch(rest[k], rest.last()));
            }
        }
    }
}

/// A part of the boxes has no more vertices than all of them.
proof fn lemma_vertices_grow(nodes: Seq<PlacedNode>, n: int)
    requires
        0 <= n <= nodes.len(),
    ensures
        vertices_of(nodes.take(n)).len() <= vertices_of(nodes).len(),
    decreases nodes.len(),
{
    if n == nodes.len() {
        assert(nodes.take(n) =~= nodes);
    } else {
        lemma_vertices_grow(nodes.drop_last(), n);
        assert(nodes.drop_last().take(n) =~= nodes.take(n));
    }
}

/// The number of boxes that are drawn depends on which boxes there are, and not on their order.
proof fn lemma_drawn_of_multiset(nodes: Seq<PlacedNode>)
    ensures
        drawn(nodes).len() == nodes.to_multiset().filter(|p: PlacedNode| !p.is_culled_spec()).len(),
    decreases nodes.len(),
{
    broadcast use vstd::seq_lib::group_to_multiset_ensures;

    reveal(Seq::filter);
    let f = |p: PlacedNode| !p.is_culled_spec();
    if nodes.len() == 0 {
        assert(nodes.to_multiset().filter(f) =~= Multiset::empty());
    } else {
        let rest = nodes.drop_last();
        let node = nodes.last();
        lemma_drawn_of_multiset(rest);
        assert(nodes =~= rest.push(node));
        assert(nodes.to_multiset() =~= rest.to_multiset().insert(node));
        if f(node) {
            assert(nodes.to_multiset().filter(f) =~= rest.to_multiset().filter(f).insert(node));
        } else {
            assert(nodes.to_multiset().filter(f) =~= rest.to_multiset().filter(f));
        }
    }
}

/// Sorting keeps the number of boxes that are drawn.
proof fn lemma_sort_keeps_drawn(before: Seq<PlacedNode>, after: Seq<PlacedNode>)
    requires
        is_stable_sort_of(before, after),
    ensures
        drawn(after).len() == drawn(before).len(),
{
    lemma_sort_keeps_boxes(before, after);
    lemma_drawn_of_multiset(before);
    lemma_drawn_of_multiset(after);
}

/// Appends the vertices of a box.
fn push_quad(vertices: &mut VertexBuffer, uinode: &PlacedNode)
    ensures
        vertex_words(*final(vertices)) == vertex_words(*old(vertices))
            + uinode.vertices_spec().map_values(|v: UiVertex| v.words_spec()),
        vertex_usage(*final(vertices)) == vertex_usage(*old(vertices)),
{
    let ghost words = uinode.vertices_spec().map_values(|v: UiVertex| v.words_spec());
    let mut i: usize = 0;
    while i < 6
        invariant
            i <= 6,
            words == uinode.vertices_spec().map_values(|v: UiVertex| v.words_spec()),
            vertex_words(*vertices) == vertex_words(*old(vertices)) + words.take(i as int),
            vertex_usage(*vertices) == vertex_usage(*old(vertices)),
        decreases 6 - i,
    {
        let vertex = uinode.vertex(i);
        vertices.push(vertex.words());
        assert(words.take(i + 1) =~= words.take(i as int).push(vertex.words_spec()));
        i = i + 1;
    }
    assert(words.take(6) =~= words);
}

/// What preparing a frame does to what the frames share, from `before` to `after`, and to the
/// boxes, from `nodes` to `sorted`, and what it returns.
pub open spec fn is_prepared(
    before: UiMeta,
    nodes: Seq<PlacedNode>,
    after: UiMeta,
    sorted: Seq<PlacedNode>,
    r: PreparedUi,
) -> bool {
    &&& is_stable_sort_of(nodes, sorted)
    &&& vertex_words(after.vertices) == vertices_of(sorted)
    &&& vertex_usage(after.vertices) == vertex_usage(before.vertices)
    &&& r.batches@ == batches_of(sorted)
    &&& r.new_params@ == before.missing_params_spec()
    &&& after.has_params_after(before)
    &&& after.view_bind_group == before.view_bind_group
}

/// Sorts the boxes of a frame by their place in the stack, and replaces the vertices of the last
/// frame by those of the boxes that are drawn. Makes the parameters of a kind of node where they
/// are missing. Returns the batches of these vertices, and the kinds with new parameters.
pub fn prepare_uinodes(ui_meta: &mut UiMeta, uinodes: &mut Vec<PlacedNode>) -> (r: PreparedUi)
    requires
        QUAD_VERTICES * drawn(old(uinodes)@).len() <= u32::MAX,
    ensures
        is_prepared(*old(ui_meta), old(uinodes)@, *final(ui_meta), final(uinodes)@, r),
{
    ui_meta.vertices.clear();
    let new_params = ui_meta.make_missing_params();
    let ghost made = *ui_meta;
    sort_by_stack_index(uinodes);
    proof {
        lemma_sort_keeps_drawn(old(uinodes)@, uinodes@);
        law_six_vertices_for_each_drawn_box(uinodes@);
    }

    let mut batches: Vec<UiBatch> = Vec::new();
    let mut start: u32 = 0;
    let mut end: u32 = 0;
    let mut current_image: u64 = 0;
    let mut current_node_type = UiNodeType::Sprite;
    let mut last_z = Scalar::zero();
    let ghost sorted = uinodes@;
    let mut i: usize = 0;
    while i < uinodes.len()
        invariant
            i <= uinodes@.len(),
            uinodes@ == sorted,
            is_stable_sort_of(old(uinodes)@, sorted),
            vertices_of(sorted).len() <= u32::MAX,
            vertex_words(ui_meta.vertices) == vertices_of(sorted.take(i as int)),
            vertex_usage(ui_meta.vertices) == vertex_usage(old(ui_meta).vertices),
            start <= end,
            end == vertices_of(sorted.take(i as int)).len(),
            (start != end) == has_open_batch(sorted.take(i as int)),
            i > 0 ==> current_image == sorted[i - 1].node.image && current_node_type == sorted[i
                - 1].node.node_type,
            batches_of(sorted.take(i as int)) == if start == end {
                batches@
            } else {
                batches@.push(
                    UiBatch {
                        range: Range { start, end },
                        image: current_image,
                        node_type: current_node_type,
                        z: last_z,
                    },
                )
            },
            ui_meta.view_bind_group == old(ui_meta).view_bind_group,
            ui_meta.sprite_params_uniforms == made.sprite_params_uniforms,
            ui_meta.text_params_uniforms == made.text_params_uniforms,
        decreases uinodes@.len() - i,
    {
        let uinode = uinodes[i];
        let ghost rest = sorted.take(i as int);
        let ghost nodes = sorted.take(i + 1);
        proof {
            assert(nodes.drop_last() =~= rest && nodes.last() == uinode);
            lemma_open_batch_step(nodes);
            lemma_vertices_grow(sorted, i + 1);
        }
        if current_image != uinode.node.image || current_node_type != uinode.node.node_type {
            if start != end {
                batches.push(
                    UiBatch {
                        range: Range { start, end },
                        image: current_image,
                        node_type: current_node_type,
                        z: last_z,
                    },
                );
                start = end;
            }
            current_image = uinode.node.image;
            current_node_type = uinode.node.node_type;
        }
        if !uinode.is_culled() {
            push_quad(&mut ui_meta.vertices, &uinode);
            last_z = uinode.node.transform.w_axis.z;
            end = end + QUAD_VERTICES;
        }
        i = i + 1;
    }
    proof {
        assert(sorted.take(i as int) =~= sorted);
    }
    assert(ui_meta.has_params_after(*old(ui_meta))) by {
        assert forall|kind: UiNodeType| #[trigger] ui_meta.params_spec(kind) == made.params_spec(
            kind,
        ) by {}
    }
    // The last batch is still open.
    if start != end {
        batches.push(
            UiBatch {
                range: Range { start, end },
                image: current_image,
                node_type: current_node_type,
                z: last_z,
            },
        );
    }
    PreparedUi { new_params, batches }
}

/// Parameters are made once: after a frame none are missing, so that no later frame makes any.
pub proof fn law_params_are_made_once(before: UiMeta, after: UiMeta)
    requires
        after.has_params_after(before),
    ensures
        after.missing_params_spec() == Seq::<UiNodeType>::empty(),
{
    assert(after.params_spec(UiNodeType::Sprite) is Some);
    assert(after.params_spec(UiNodeType::Text) is Some);
}

/// A box that is drawn has six vertices, and one that is culled has none.
pub proof fn law_six_vertices_for_each_drawn_box(nodes: Seq<PlacedNode>)
    ensures
        vertices_of(nodes).len() == QUAD_VERTICES * drawn(nodes).len(),
        vertices_of(nodes).len() <= QUAD_VERTICES * nodes.len(),
    decreases nodes.len(),
{
    reveal(Seq::filter);
    if nodes.len() > 0 {
        law_six_vertices_for_each_drawn_box(nodes.drop_last());
    }
}

/// An open batch is the last one, and it shows what the last box shows.
proof fn lemma_open_batch_is_last(nodes: Seq<PlacedNode>)
    requires
        has_open_batch(nodes),
    ensures
        batches_of(nodes).len() > 0,
        batches_of(nodes).last().image == nodes.last().node.image,
        batches_of(nodes).last().node_type == nodes.last().node.node_type,
    decreases nodes.len(),
{
    lemma_open_batch_step(nodes);
    if nodes.last().is_culled_spec() {
        lemma_open_batch_is_last(nodes.drop_last());
    }
}

/// The batches divide the vertices among them: the first starts at the first vertex, each ends
/// where the next one starts, the last ends at the last vertex, and each holds whole quads and at
/// least one.
pub proof fn law_batches_partition_the_vertices(nodes: Seq<PlacedNode>)
    requires
        QUAD_VERTICES * drawn(nodes).len() <= u32::MAX,
    ensures
        ({
            let batches = batches_of(nodes);
            &&& batches.len() == 0 <==> vertices_of(nodes).len() == 0
            &&& batches.len() > 0 ==> batches[0].range.start == 0 && batches.last().range.end
                == vertices_of(nodes).len()
            &&& forall|i: int|
                #![trigger batches[i]]
                0 <= i < batches.len() ==> batches[i].range.start < batches[i].range.end
                    <= vertices_of(nodes).len() && (batches[i].range.end
                    - batches[i].range.start) % (QUAD_VERTICES as int) == 0
            &&& forall|i: int, j: int|
                #![trigger batches[i], batches[j]]
                0 <= i < batches.len() && j == i + 1 && j < batches.len()
                    ==> batches[i].range.end == batches[j].range.start
        }),
    decreases nodes.len(),
{
    if nodes.len() > 0 {
        let rest = nodes.drop_last();
        let earlier = batches_of(rest);
        let batches = batches_of(nodes);
        law_six_vertices_for_each_drawn_box(rest);
        law_six_vertices_for_each_drawn_box(nodes);
        law_batches_partition_the_vertices(rest);
        if has_open_batch(rest) {
            lemma_open_batch_is_last(rest);
        }
        if !nodes.last().is_culled_spec() {
            assert(vertices_of(nodes).len() == vertices_of(rest).len() + QUAD_VERTICES);
            assert forall|i: int|
                #![trigger batches[i]]
                0 <= i < batches.len() implies batches[i].range.start < batches[i].range.end
                <= vertices_of(nodes).len() && (batches[i].range.end - batches[i].range.start) % (
            QUAD_VERTICES as int) == 0 by {
                if i < earlier.len() {
                    assert(earlier[i].range.start < earlier[i].range.end);
                }
            }
            assert forall|i: int, j: int|
                #![trigger batches[i], batches[j]]
                0 <= i < batches.len() && j == i + 1 && j
                    < batches.len() implies batches[i].range.end == batches[j].range.start by {
                if j < earlier.len() {
                    assert(earlier[i].range.end == earlier[j].range.start);
                }
            }
        }
    }
}

/// Every box that is drawn has its vertices in one batch, which shows the image of the box in the
/// way of its kind.
pub proof fn law_boxes_are_drawn_by_their_batch(nodes: Seq<PlacedNode>, n: int)
    requires
        QUAD_VERTICES * drawn(nodes).len() <= u32::MAX,
        0 <= n < nodes.len(),
        !nodes[n].is_culled_spec(),
    ensures
        exists|i: int|
            #![trigger batches_of(nodes)[i]]
            0 <= i < batches_of(nodes).len() && {
                let b = batches_of(nodes)[i];
                &&& b.range.start <= vertices_of(nodes.take(n)).len()
                &&& vertices_of(nodes.take(n)).len() + QUAD_VERTICES <= b.range.end
                &&& b.image == nodes[n].node.image
                &&& b.node_type == nodes[n].node.node_type
            },
    decreases nodes.len(),
{
    let rest = nodes.drop_last();
    let earlier = batches_of(rest);
    let batches = batches_of(nodes);
    law_six_vertices_for_each_drawn_box(rest);
    law_six_vertices_for_each_drawn_box(nodes);
    law_batches_partition_the_vertices(rest);
    if has_open_batch(rest) {
        lemma_open_batch_is_last(rest);
    }
    if n < rest.len() {
        law_boxes_are_drawn_by_their_batch(rest, n);
        assert(rest.take(n) =~= nodes.take(n));
        let i = choose|i: int|
            #![trigger earlier[i]]
            0 <= i < earlier.len() && {
                let b = earlier[i];
                &&& b.range.start <= vertices_of(rest.take(n)).len()
                &&& vertices_of(rest.take(n)).len() + QUAD_VERTICES <= b.range.end
                &&& b.image == rest[n].node.image
                &&& b.node_type == rest[n].node.node_type
            };
        assert(0 <= i < batches.len());
        assert(batches[i].range.start == earlier[i].range.start);
        assert(batches[i].image == earlier[i].image);
    } else {
        assert(nodes.take(n) =~= rest);
        let i = batches.len() - 1;
        assert(batches[i].range.end == vertices_of(nodes).len());
    }
}

/// The depth of a batch is that of the last box in it.
pub proof fn law_batch_has_the_depth_of_its_last_box(nodes: Seq<PlacedNode>, i: int)
    requires
        QUAD_VERTICES * drawn(nodes).len() <= u32::MAX,
        0 <= i < batches_of(nodes).len(),
    ensures
        exists|n: int|
            #![trigger nodes[n]]
            0 <= n < nodes.len() && !nodes[n].is_culled_spec() && batches_of(nodes)[i].range.end
                == vertices_of(nodes.take(n)).len() + QUAD_VERTICES && batches_of(nodes)[i].z
                == nodes[n].z(),
    decreases nodes.len(),
{
    let rest = nodes.drop_last();
    let earlier = batches_of(rest);
    let batches = batches_of(nodes);
    law_six_vertices_for_each_drawn_box(rest);
    law_six_vertices_for_each_drawn_box(nodes);
    if has_open_batch(rest) {
        lemma_open_batch_is_last(rest);
    }
    if i == batches.len() - 1 && !nodes.last().is_culled_spec() {
        assert(nodes.take(nodes.len() - 1) =~= rest);
        assert(batches[i].z == nodes[nodes.len() - 1].z());
    } else {
        assert(batches[i] == earlier[i]);
        law_batch_has_the_depth_of_its_last_box(rest, i);
        let n = choose|n: int|
            #![trigger rest[n]]
            0 <= n < rest.len() && !rest[n].is_culled_spec() && earlier[i].range.end == vertices_of(
                rest.take(n),
            ).len() + QUAD_VERTICES && earlier[i].z == rest[n].z();
        assert(rest.take(n) =~= nodes.take(n));
        assert(nodes[n] == rest[n]);
    }
}

/// Whether a batch starts with vertex `v`.
pub open spec fn batch_starts_at(nodes: Seq<PlacedNode>, v: int) -> bool {
    exists|i: int|
        0 <= i < batches_of(nodes).len() && (#[trigger] batches_of(nodes)[i]).range.start == v
}

/// A box that is drawn, after `a` which is the last one drawn before it, joins the open batch if and
/// only if no box since `a` shows something else.
proof fn lemma_joins_batch(nodes: Seq<PlacedNode>, a: int, node: PlacedNode)
    requires
        0 <= a < nodes.len(),
        !nodes[a].is_culled_spec(),
        forall|k: int| a < k < nodes.len() ==> (#[trigger] nodes[k]).is_culled_spec(),
    ensures
        (has_open_batch(nodes) && share_batch(nodes.last(), node)) == (share_batch(nodes[a], node)
            && forall|k: int|
            a < k < nodes.len() ==> share_batch(nodes[a], #[trigger] nodes[k])),
{
    if has_open_batch(nodes) {
        let j = choose|j: int|
            0 <= j < nodes.len() && !(#[trigger] nodes[j]).is_culled_spec() && forall|k: int|
                j <= k < nodes.len() ==> share_batch(#[trigger] nodes[k], nodes.last());
        assert(j <= a);
        assert(share_batch(nodes[a], nodes.last()));
    }
    if share_batch(nodes[a], node) && forall|k: int|
        a < k < nodes.len() ==> share_batch(nodes[a], #[trigger] nodes[k]) {
        assert(share_batch(nodes[a], nodes[nodes.len() - 1]));
        assert forall|k: int| a <= k < nodes.len() implies share_batch(
            #[trigger] nodes[k],
            nodes.last(),
        ) by {
            if k > a {
                assert(share_batch(nodes[a], nodes[k]));
            }
        }
        assert(has_open_batch(nodes));
    }
}

/// The boxes after the first `n` do not change where among the vertices of these a batch starts.
proof fn lemma_batch_starts_stay(nodes: Seq<PlacedNode>, n: int, v: int)
    requires
        QUAD_VERTICES * drawn(nodes).len() <= u32::MAX,
        0 <= n <= nodes.len(),
        0 <= v < vertices_of(nodes.take(n)).len(),
    ensures
        batch_starts_at(nodes, v) == batch_starts_at(nodes.take(n), v),
    decreases nodes.len(),
{
    if n == nodes.len() {
        assert(nodes.take(n) =~= nodes);
    } else {
        let rest = nodes.drop_last();
        let (earlier, batches) = (batches_of(rest), batches_of(nodes));
        law_six_vertices_for_each_drawn_box(rest);
        law_six_vertices_for_each_drawn_box(nodes);
        assert(rest.take(n) =~= nodes.take(n));
        lemma_batch_starts_stay(rest, n, v);
        lemma_vertices_grow(rest, n);
        if has_open_batch(rest) {
            lemma_open_batch_is_last(rest);
        }
        if batch_starts_at(nodes, v) {
            let i = choose|i: int| 0 <= i < batches.len() && (#[trigger] batches[i]).range.start == v;
            assert(i < earlier.len());
            assert(earlier[i].range.start == v);
        }
        if batch_starts_at(rest, v) {
            let i = choose|i: int| 0 <= i < earlier.len() && (#[trigger] earlier[i]).range.start == v;
            assert(batches[i].range.start == v);
        }
    }
}

/// The last box, if it is drawn, starts a batch unless it joins the open one.
proof fn lemma_last_box_starts_batch(nodes: Seq<PlacedNode>)
    requires
        QUAD_VERTICES * drawn(nodes).len() <= u32::MAX,
        nodes.len() > 0,
        !nodes.last().is_culled_spec(),
    ensures
        batch_starts_at(nodes, vertices_of(nodes.drop_last()).len() as int) == !(has_open_batch(
            nodes.drop_last(),
        ) && share_batch(nodes.drop_last().last(), nodes.last())),
{
    let rest = nodes.drop_last();
    let v = vertices_of(rest).len() as int;
    let (earlier, batches) = (batches_of(rest), batches_of(nodes));
    law_six_vertices_for_each_drawn_box(rest);
    law_six_vertices_for_each_drawn_box(nodes);
    law_batches_partition_the_vertices(rest);
    if has_open_batch(rest) && share_batch(rest.last(), nodes.last()) {
        lemma_open_batch_is_last(rest);
        assert forall|i: int| 0 <= i < batches.len() implies (
        #[trigger] batches[i]).range.start != v by {
            assert(batches[i].range.start == earlier[i].range.start);
        }
    } else {
        assert(batches[earlier.len() as int].range.start == v);
    }
}

/// Between two boxes that are drawn one after the other, a new batch starts if and only if a box
/// after the first, up to and with the second and drawn or not, shows another image than the first
/// or shows it in another way.
pub proof fn law_batches_start_where_boxes_differ(nodes: Seq<PlacedNode>, a: int, b: int)
    requires
        QUAD_VERTICES * drawn(nodes).len() <= u32::MAX,
        0 <= a < b < nodes.len(),
        !nodes[a].is_culled_spec(),
        !nodes[b].is_culled_spec(),
        forall|k: int| a < k < b ==> (#[trigger] nodes[k]).is_culled_spec(),
    ensures
        batch_starts_at(nodes, vertices_of(nodes.take(b)).len() as int) == (exists|k: int|
            a < k <= b && !share_batch(nodes[a], #[trigger] nodes[k])),
{
    let rest = nodes.take(b);
    let upto = nodes.take(b + 1);
    assert(upto.drop_last() =~= rest && upto.last() == nodes[b]);
    law_six_vertices_for_each_drawn_box(nodes);
    law_six_vertices_for_each_drawn_box(upto);
    lemma_vertices_grow(nodes, b + 1);
    lemma_batch_starts_stay(nodes, b + 1, vertices_of(rest).len() as int);
    lemma_last_box_starts_batch(upto);
    lemma_joins_batch(rest, a, nodes[b]);
    if exists|k: int| a < k <= b && !share_batch(nodes[a], #[trigger] nodes[k]) {
        let k = choose|k: int| a < k <= b && !share_batch(nodes[a], #[trigger] nodes[k]);
        if k < b {
            assert(!share_batch(rest[a], rest[k]));
        }
    } else {
        assert(share_batch(nodes[a], nodes[b]));
        assert forall|k: int| a < k < rest.len() implies share_batch(
            rest[a],
            #[trigger] rest[k],
        ) by {
            assert(share_batch(nodes[a], nodes[k]));
        }
    }
}

/// Preparing a frame again changes nothing: the boxes stay in their order, and the vertices and the
/// batches are the same, whatever the buffer held in between. Where what the frames share was left
/// alone in between, no parameters are made either.
pub proof fn law_preparing_again_changes_nothing(
    before: UiMeta,
    nodes: Seq<PlacedNode>,
    first: UiMeta,
    sorted: Seq<PlacedNode>,
    r: PreparedUi,
    between: UiMeta,
    second: UiMeta,
    sorted_again: Seq<PlacedNode>,
    r_again: PreparedUi,
)
    requires
        is_prepared(before, nodes, first, sorted, r),
        is_prepared(between, sorted, second, sorted_again, r_again),
    ensures
        sorted_again == sorted,
        vertex_words(second.vertices) == vertex_words(first.vertices),
        r_again.batches@ == r.batches@,
        between == first ==> {
            &&& r_again.new_params@ == Seq::<UiNodeType>::empty()
            &&& second.sprite_params_uniforms == first.sprite_params_uniforms
            &&& second.text_params_uniforms == first.text_params_uniforms
            &&& second.view_bind_group == first.view_bind_group
            &&& vertex_usage(second.vertices) == vertex_usage(first.vertices)
        },
        QUAD_VERTICES * drawn(nodes).len() <= u32::MAX ==> QUAD_VERTICES * drawn(sorted).len()
            <= u32::MAX,
{
    lemma_sort_keeps_drawn(nodes, sorted);
    law_stable_sort_is_unique(sorted, sorted, sorted_again);
    if between == first {
        law_params_are_made_once(before, first);
        assert(first.params_spec(UiNodeType::Sprite) is Some);
        assert(first.params_spec(UiNodeType::Text) is Some);
        assert(second.params_spec(UiNodeType::Sprite) == first.params_spec(UiNodeType::Sprite));
        assert(second.params_spec(UiNodeType::Text) == first.params_spec(UiNodeType::Text));
    }
}

/// The vertices of a box that is drawn follow those of the boxes before it.
proof fn lemma_vertices_of_box(nodes: Seq<PlacedNode>, n: int, i: int)
    requires
        0 <= n < nodes.len(),
        !nodes[n].is_culled_spec(),
        0 <= i < 6,
    ensures
        vertices_of(nodes.take(n)).len() + 6 <= vertices_of(nodes).len(),
        vertices_of(nodes)[vertices_of(nodes.take(n)).len() + i]
            == nodes[n].vertices_spec()[i].words_spec(),
    decreases nodes.len(),
{
    let rest = nodes.drop_last();
    if n < rest.len() {
        lemma_vertices_of_box(rest, n, i);
        assert(rest.take(n) =~= nodes.take(n));
    } else {
        assert(nodes.take(n) =~= rest);
    }
}

/// After a frame is prepared, the buffer holds six vertices for each box that is drawn and nothing
/// else. Those of a box come after those of the boxes drawn before it, and each has the position of
/// its own corner of that box, what the mirrored corner of that box shows, and the color of that box.
/// The two triangles of a quad have the corners 0, 2, 3 and 0, 1, 2.
pub proof fn law_drawn_boxes_have_their_own_vertices(
    before: UiMeta,
    nodes: Seq<PlacedNode>,
    after: UiMeta,
    sorted: Seq<PlacedNode>,
    r: PreparedUi,
    is_drawn: spec_fn(PlacedNode) -> bool,
    n: int,
    i: int,
    c: int,
    m: int,
)
    requires
        is_prepared(before, nodes, after, sorted, r),
        forall|p: PlacedNode| #[trigger] is_drawn(p) == !p.is_culled_spec(),
        0 <= n < sorted.len(),
        is_drawn(sorted[n]),
        0 <= i < 6,
        0 <= c < 4,
        0 <= m < 4,
        i == 0 || i == 3 ==> c == 0,
        i == 4 ==> c == 1,
        i == 1 || i == 5 ==> c == 2,
        i == 2 ==> c == 3,
        (m == 1 || m == 2) == ((c == 1 || c == 2) != sorted[n].node.flip_x),
        (m == 2 || m == 3) == ((c == 2 || c == 3) != sorted[n].node.flip_y),
    ensures
        vertex_words(after.vertices).len() == 6 * sorted.filter(is_drawn).len(),
        6 * sorted.take(n).filter(is_drawn).len() + 6 <= vertex_words(after.vertices).len(),
        ({
            let words = vertex_words(after.vertices)[6 * sorted.take(n).filter(is_drawn).len() + i];
            let quad = sorted[n].quad;
            &&& words[0] == quad.corners[c].x.bits
            &&& words[1] == quad.corners[c].y.bits
            &&& words[2] == quad.corners[c].z.bits
            &&& words[3] == quad.uvs[m].x.bits
            &&& words[4] == quad.uvs[m].y.bits
            &&& words[5] == quad.color[0].bits
            &&& words[6] == quad.color[1].bits
            &&& words[7] == quad.color[2].bits
            &&& words[8] == quad.color[3].bits
        }),
{
    lemma_drawn_count(sorted, is_drawn);
    lemma_drawn_count(sorted.take(n), is_drawn);
    lemma_vertices_of_box(sorted, n, i);
    law_vertices_carry_their_corner(sorted[n], i, c, m);
}

/// There are six vertices for each box that is drawn.
proof fn lemma_drawn_count(nodes: Seq<PlacedNode>, is_drawn: spec_fn(PlacedNode) -> bool)
    requires
        forall|p: PlacedNode| #[trigger] is_drawn(p) == !p.is_culled_spec(),
    ensures
        vertices_of(nodes).len() == 6 * nodes.filter(is_drawn).len(),
        drawn(nodes).len() == nodes.filter(is_drawn).len(),
{
    law_six_vertices_for_each_drawn_box(nodes);
    lemma_filter_same(nodes, is_drawn, |p: PlacedNode| !p.is_culled_spec());
}

/// Preparing a frame keeps its boxes, in the order of the stack from the bottom up, and those at one
/// place in the order that they had. A frame without a box that is drawn leaves the buffer empty. The
/// bind group of the view and the usage of the buffer stay.
pub proof fn law_prepared_boxes_follow_the_stack(
    before: UiMeta,
    nodes: Seq<PlacedNode>,
    after: UiMeta,
    sorted: Seq<PlacedNode>,
    r: PreparedUi,
    is_drawn: spec_fn(PlacedNode) -> bool,
    place: spec_fn(PlacedNode) -> bool,
    k: usize,
)
    requires
        is_prepared(before, nodes, after, sorted, r),
        forall|p: PlacedNode| #[trigger] is_drawn(p) == !p.is_culled_spec(),
        forall|p: PlacedNode| #[trigger] place(p) == (p.node.stack_index == k),
    ensures
        sorted.to_multiset() == nodes.to_multiset(),
        forall|i: int, j: int|
            0 <= i < j < sorted.len() ==> (#[trigger] sorted[i]).node.stack_index <= (
            #[trigger] sorted[j]).node.stack_index,
        sorted.filter(place) == nodes.filter(place),
        vertex_words(after.vertices).len() == 6 * sorted.filter(is_drawn).len(),
        vertex_usage(after.vertices) == vertex_usage(before.vertices),
        after.view_bind_group == before.view_bind_group,
{
    law_sorted_boxes_follow_the_stack(nodes, sorted, place, k);
    lemma_drawn_count(sorted, is_drawn);
}

/// After a frame is prepared, both kinds of node have their parameters: those that they had before, or
/// else new ones, which hold the number of the kind, zero for sprites and one for text, under the name
/// of the kind. The kinds with new ones are returned, sprites first.
pub proof fn law_prepared_kinds_have_their_params(
    before: UiMeta,
    nodes: Seq<PlacedNode>,
    after: UiMeta,
    sorted: Seq<PlacedNode>,
    r: PreparedUi,
)
    requires
        is_prepared(before, nodes, after, sorted, r),
    ensures
        after.sprite_params_uniforms is Some,
        after.text_params_uniforms is Some,
        before.sprite_params_uniforms is Some ==> after.sprite_params_uniforms
            == before.sprite_params_uniforms,
        before.text_params_uniforms is Some ==> after.text_params_uniforms
            == before.text_params_uniforms,
        before.sprite_params_uniforms is None ==> params_words(after.sprite_params_uniforms->0)
            == seq![[0u32, 0u32, 0u32, 0u32]] && params_label(after.sprite_params_uniforms->0)
            == Some("ui_sprite_params_buffer"@),
        before.text_params_uniforms is None ==> params_words(after.text_params_uniforms->0)
            == seq![[1u32, 0u32, 0u32, 0u32]] && params_label(after.text_params_uniforms->0)
            == Some("ui_text_params_buffer"@),
        r.new_params@.contains(UiNodeType::Sprite) <==> before.sprite_params_uniforms is None,
        r.new_params@.contains(UiNodeType::Text) <==> before.text_params_uniforms is None,
        r.new_params@.len() == (if before.sprite_params_uniforms is None {
            1int
        } else {
            0
        }) + (if before.text_params_uniforms is None {
            1int
        } else {
            0
        }),
        before.sprite_params_uniforms is None ==> r.new_params@[0] == UiNodeType::Sprite,
        after.params_spec(UiNodeType::Sprite) == after.sprite_params_uniforms,
        after.params_spec(UiNodeType::Text) == after.text_params_uniforms,
{
    assert(after.params_spec(UiNodeType::Sprite) is Some);
    assert(after.params_spec(UiNodeType::Text) is Some);
    assert(before.sprite_params_uniforms is None ==> r.new_params@[0] == UiNodeType::Sprite);
    assert(before.text_params_uniforms is None ==> r.new_params@.last() == UiNodeType::Text);
}

/// The batches of a prepared frame divide its vertices among them, in their order and without a gap,
/// and each holds whole quads and at least one.
pub proof fn law_prepared_batches_divide_the_vertices(
    before: UiMeta,
    nodes: Seq<PlacedNode>,
    after: UiMeta,
    sorted: Seq<PlacedNode>,
    r: PreparedUi,
)
    requires
        is_prepared(before, nodes, after, sorted, r),
        vertex_words(after.vertices).len() <= u32::MAX,
    ensures
        r.batches@.len() == 0 <==> vertex_words(after.vertices).len() == 0,
        r.batches@.len() > 0 ==> r.batches@[0].range.start == 0 && r.batches@.last().range.end
            == vertex_words(after.vertices).len(),
        forall|i: int|
            #![trigger r.batches@[i]]
            0 <= i < r.batches@.len() ==> r.batches@[i].range.start < r.batches@[i].range.end && (
            r.batches@[i].range.end - r.batches@[i].range.start) % 6 == 0,
        forall|i: int, j: int|
            #![trigger r.batches@[i], r.batches@[j]]
            0 <= i < r.batches@.len() && j == i + 1 && j < r.batches@.len()
                ==> r.batches@[i].range.end == r.batches@[j].range.start,
{
    law_six_vertices_for_each_drawn_box(sorted);
    law_batches_partition_the_vertices(sorted);
}

/// The vertices of a box that is drawn lie in one batch, which has the image and the kind of the box.
pub proof fn law_prepared_batches_show_their_boxes(
    before: UiMeta,
    nodes: Seq<PlacedNode>,
    after: UiMeta,
    sorted: Seq<PlacedNode>,
    r: PreparedUi,
    is_drawn: spec_fn(PlacedNode) -> bool,
    n: int,
)
    requires
        is_prepared(before, nodes, after, sorted, r),
        vertex_words(after.vertices).len() <= u32::MAX,
        forall|p: PlacedNode| #[trigger] is_drawn(p) == !p.is_culled_spec(),
        0 <= n < sorted.len(),
        is_drawn(sorted[n]),
    ensures
        exists|i: int|
            #![trigger r.batches@[i]]
            0 <= i < r.batches@.len() && {
                let first = 6 * sorted.take(n).filter(is_drawn).len();
                &&& r.batches@[i].range.start <= first
                &&& first + 6 <= r.batches@[i].range.end
                &&& r.batches@[i].image == sorted[n].node.image
                &&& r.batches@[i].node_type == sorted[n].node.node_type
            },
{
    law_six_vertices_for_each_drawn_box(sorted);
    lemma_drawn_count(sorted.take(n), is_drawn);
    law_boxes_are_drawn_by_their_batch(sorted, n);
    let first = vertices_of(sorted.take(n)).len();
    let i = choose|i: int|
        #![trigger batches_of(sorted)[i]]
        0 <= i < batches_of(sorted).len() && {
            let b = batches_of(sorted)[i];
            &&& b.range.start <= first
            &&& first + QUAD_VERTICES <= b.range.end
            &&& b.image == sorted[n].node.image
            &&& b.node_type == sorted[n].node.node_type
        };
    assert(r.batches@[i].image == sorted[n].node.image);
}

/// The depth of a batch is that of the box whose vertices it ends with.
pub proof fn law_prepared_batches_have_the_depth_of_their_top(
    before: UiMeta,
    nodes: Seq<PlacedNode>,
    after: UiMeta,
    sorted: Seq<PlacedNode>,
    r: PreparedUi,
    is_drawn: spec_fn(PlacedNode) -> bool,
    n: int,
    i: int,
)
    requires
        is_prepared(before, nodes, after, sorted, r),
        vertex_words(after.vertices).len() <= u32::MAX,
        forall|p: PlacedNode| #[trigger] is_drawn(p) == !p.is_culled_spec(),
        0 <= n < sorted.len(),
        is_drawn(sorted[n]),
        0 <= i < r.batches@.len(),
        r.batches@[i].range.end == 6 * sorted.take(n).filter(is_drawn).len() + 6,
    ensures
        r.batches@[i].z.bits == sorted[n].node.transform.w_axis.z.bits,
{
    law_six_vertices_for_each_drawn_box(sorted);
    lemma_drawn_count(sorted.take(n), is_drawn);
    law_batch_has_the_depth_of_its_last_box(sorted, i);
    let top = choose|top: int|
        #![trigger sorted[top]]
        0 <= top < sorted.len() && !sorted[top].is_culled_spec() && batches_of(sorted)[i].range.end
            == vertices_of(sorted.take(top)).len() + QUAD_VERTICES && batches_of(sorted)[i].z
            == sorted[top].z();
    if top < n {
        lemma_vertices_of_box(sorted.take(n), top, 0);
        assert(sorted.take(n).take(top) =~= sorted.take(top));
    } else if n < top {
        lemma_vertices_of_box(sorted.take(top), n, 0);
        assert(sorted.take(top).take(n) =~= sorted.take(n));
    }
}

/// Between two boxes that are drawn one after the other, a new batch starts if and only if a box
/// after the first, up to and with the second and drawn or not, has another image or another kind
/// than the first.
pub proof fn law_prepared_batches_start_where_boxes_differ(
    before: UiMeta,
    nodes: Seq<PlacedNode>,
    after: UiMeta,
    sorted: Seq<PlacedNode>,
    r: PreparedUi,
    is_drawn: spec_fn(PlacedNode) -> bool,
    a: int,
    b: int,
)
    requires
        is_prepared(before, nodes, after, sorted, r),
        vertex_words(after.vertices).len() <= u32::MAX,
        forall|p: PlacedNode| #[trigger] is_drawn(p) == !p.is_culled_spec(),
        0 <= a < b < sorted.len(),
        is_drawn(sorted[a]),
        is_drawn(sorted[b]),
        forall|k: int| a < k < b ==> !is_drawn(#[trigger] sorted[k]),
    ensures
        (exists|i: int|
            0 <= i < r.batches@.len() && (#[trigger] r.batches@[i]).range.start == 6 * sorted.take(
                b,
            ).filter(is_drawn).len()) <==> (exists|k: int|
            a < k <= b && ((#[trigger] sorted[k]).node.image != sorted[a].node.image
                || sorted[k].node.node_type != sorted[a].node.node_type)),
{
    law_six_vertices_for_each_drawn_box(sorted);
    lemma_drawn_count(sorted.take(b), is_drawn);
    law_batches_start_where_boxes_differ(sorted, a, b);
    let v = vertices_of(sorted.take(b)).len() as int;
    if batch_starts_at(sorted, v) {
        let i = choose|i: int|
            0 <= i < batches_of(sorted).len() && (#[trigger] batches_of(sorted)[i]).range.start == v;
        assert(r.batches@[i].range.start == v);
        let k = choose|k: int| a < k <= b && !share_batch(sorted[a], #[trigger] sorted[k]);
        assert(sorted[k].node.image != sorted[a].node.image || sorted[k].node.node_type
            != sorted[a].node.node_type);
    } else {
        assert forall|i: int| 0 <= i < r.batches@.len() implies (
        #[trigger] r.batches@[i]).range.start != v by {
            assert(batches_of(sorted)[i].range.start != v);
        }
        assert forall|k: int| a < k <= b implies (#[trigger] sorted[k]).node.image
            == sorted[a].node.image && sorted[k].node.node_type == sorted[a].node.node_type by {
            assert(share_batch(sorted[a], sorted[k]));
        }
    }
}

} // verus!
