//! What a frame draws: the visible nodes of the stack, as boxes, and the glyphs of its texts.
use crate::geometry::{law_opacity_is_alpha, Color, Mat4, Rect, Vec2};
use crate::scalar::{law_comparisons_follow_the_numbers, Scalar};
use vstd::prelude::*;

verus! {

/// How a node is shaded.
#[derive(Clone, Copy, Debug, PartialEq, Eq, Hash, Structural)]
pub enum UiNodeType {
    /// A box that shows an image.
    Sprite,
    /// A glyph out of a glyph atlas.
    Text,
}

/// A box to draw, with all that drawing it needs.
#[derive(Clone, Copy, Debug)]
pub struct ExtractedUiNode {
    /// The position in the stack; a larger one is drawn on top.
    pub stack_index: usize,
    pub transform: Mat4,
    pub background_color: Color,
    /// The part of the image that is shown.
    pub rect: Rect,
    /// The key of the image.
    pub image: u64,
    /// The size of the atlas that `rect` lies in, where there is one.
    pub atlas_size: Option<Vec2>,
    /// The region outside of which nothing is drawn.
    pub clip: Option<Rect>,
    pub flip_x: bool,
    pub flip_y: bool,
    pub scale_factor: Scalar,
    pub node_type: UiNodeType,
}

/// The boxes of one frame.
#[derive(Debug)]
pub struct ExtractedUiNodes {
    pub uinodes: Vec<ExtractedUiNode>,
}

impl Default for ExtractedUiNodes {
    fn default() -> (r: Self)
        ensures
            r.uinodes@ == Seq::<ExtractedUiNode>::empty(),
    {
        ExtractedUiNodes { uinodes: Vec::new() }
    }
}

/// The image that a node shows.
#[derive(Clone, Copy, Debug)]
pub struct UiImage {
    /// The key of the image.
    pub texture: u64,
    /// Whether the image has been loaded.
    pub loaded: bool,
    pub flip_x: bool,
    pub flip_y: bool,
}

/// A node of the stack, as its components describe it.
#[derive(Clone, Copy, Debug)]
pub struct UiNodeItem {
    pub calculated_size: Vec2,
    pub transform: Mat4,
    pub background_color: Color,
    pub image: Option<UiImage>,
    pub visible: bool,
    pub clip: Option<Rect>,
}

/// The image of a node that names none.
#[derive(Clone, Copy, Debug)]
pub struct DefaultImage {
    pub texture: u64,
    pub loaded: bool,
}

/// One glyph of a laid-out text.
#[derive(Clone, Copy, Debug)]
pub struct PositionedGlyph {
    /// The section of the text that the glyph belongs to.
    pub section_index: usize,
    /// The atlas that holds the glyph, among those of the frame.
    pub atlas: usize,
    /// The glyph's rectangle, among those of its atlas.
    pub glyph_index: usize,
    pub transform: Mat4,
}

/// A text of the stack, as its components describe it.
#[derive(Debug)]
pub struct TextNodeItem {
    pub size: Vec2,
    /// The color of each section.
    pub section_colors: Vec<Color>,
    pub glyphs: Vec<PositionedGlyph>,
    pub visible: bool,
    pub clip: Option<Rect>,
}

/// An image that holds many glyphs.
#[derive(Debug)]
pub struct TextureAtlas {
    /// The key of the image.
    pub texture: u64,
    pub size: Vec2,
    /// Where in the image each glyph lies.
    pub textures: Vec<Rect>,
}

impl UiNodeItem {
    /// The image that the node shows: its own, or else the default, unflipped.
    pub open spec fn shown_image(self, default_image: DefaultImage) -> UiImage {
        match self.image {
            Some(image) => image,
            None => UiImage {
                texture: default_image.texture,
                loaded: default_image.loaded,
                flip_x: false,
                flip_y: false,
            },
        }
    }

    /// Whether the node is drawn: it is visible, its image is loaded, and its color is not
    /// completely transparent.
    pub open spec fn is_drawn(self, default_image: DefaultImage) -> bool {
        self.visible && self.shown_image(default_image).loaded
            && !self.background_color.alpha_spec().is_zero_spec()
    }

    /// The box that shows the node.
    pub open spec fn sprite(
        self,
        stack_index: int,
        default_image: DefaultImage,
        scale_factor: Scalar,
    ) -> ExtractedUiNode {
        let image = self.shown_image(default_image);
        ExtractedUiNode {
            stack_index: stack_index as usize,
            transform: self.transform,
            background_color: self.background_color,
            rect: Rect { min: Vec2::zero(), max: self.calculated_size },
            image: image.texture,
            atlas_size: None,
            clip: self.clip,
            flip_x: image.flip_x,
            flip_y: image.flip_y,
            scale_factor,
            node_type: UiNodeType::Sprite,
        }
    }
}

/// The boxes of the nodes on the stack, from the bottom up. Where the stack names an entity that
/// is no such node, its place is empty.
pub open spec fn sprites_of(
    stack: Seq<Option<UiNodeItem>>,
    default_image: DefaultImage,
    scale_factor: Scalar,
) -> Seq<ExtractedUiNode>
    decreases stack.len(),
{
    if stack.len() == 0 {
        Seq::empty()
    } else {
        let below = sprites_of(stack.drop_last(), default_image, scale_factor);
        match stack.last() {
            Some(item) if item.is_drawn(default_image) => below.push(
                item.sprite(stack.len() - 1, default_image, scale_factor),
            ),
            _ => below,
        }
    }
}

/// Replaces the boxes of the last frame by those of the nodes on the stack.
pub fn extract_uinodes(
    extracted_uinodes: &mut ExtractedUiNodes,
    stack: &Vec<Option<UiNodeItem>>,
    default_image: DefaultImage,
    scale_factor: Scalar,
)
    ensures
        final(extracted_uinodes).uinodes@ == sprites_of(stack@, default_image, scale_factor),
        forall|i: int|
            #![trigger final(extracted_uinodes).uinodes@[i]]
            0 <= i < final(extracted_uinodes).uinodes@.len() ==> {
                let sprite = final(extracted_uinodes).uinodes@[i];
                let item = stack@[sprite.stack_index as int]->0;
                &&& sprite.stack_index < stack@.len()
                &&& stack@[sprite.stack_index as int] is Some
                &&& item.image is Some ==> sprite.image == item.image->0.texture
                &&& item.image is None ==> sprite.image == default_image.texture
                &&& sprite.clip == item.clip
                &&& sprite.scale_factor == scale_factor
            },
{
    extracted_uinodes.uinodes.clear();
    let mut stack_index: usize = 0;
    while stack_index < stack.len()
        invariant
            stack_index <= stack.len(),
            extracted_uinodes.uinodes@ == sprites_of(
                stack@.take(stack_index as int),
                default_image,
                scale_factor,
            ),
        decreases stack.len() - stack_index,
    {
        proof {
            assert(stack@.take(stack_index + 1).drop_last() =~= stack@.take(stack_index as int));
        }
        if let Some(item) = stack[stack_index] {
            let image = match item.image {
                Some(image) => image,
                None => UiImage {
                    texture: default_image.texture,
                    loaded: default_image.loaded,
                    flip_x: false,
                    flip_y: false,
                },
            };
            if item.visible && image.loaded && !item.background_color.a().is_zero() {
                extracted_uinodes.uinodes.push(
                    ExtractedUiNode {
                        stack_index,
                        transform: item.transform,
                        background_color: item.background_color,
                        rect: Rect { min: Vec2::zero(), max: item.calculated_size },
                        image: image.texture,
                        atlas_size: None,
                        clip: item.clip,
                        flip_x: image.flip_x,
                        flip_y: image.flip_y,
                        scale_factor,
                        node_type: UiNodeType::Sprite,
                    },
                );
            }
        }
        stack_index = stack_index + 1;
    }
    proof {
        assert(stack@.take(stack_index as int) =~= stack@);
        law_sprites_follow_the_stack(stack@, default_image, scale_factor);
    }
}

impl TextNodeItem {
    /// Whether the text is drawn: it is visible, and its size is not zero, as it is where a
    /// parent is not displayed.
    pub open spec fn is_drawn(&self) -> bool {
        self.visible && !self.size.is_zero_spec()
    }

    /// Whether glyph `k` has a color: it belongs to a section of the text, or it and all glyphs
    /// before it carry the largest index, which stands for no section.
    pub open spec fn has_color(&self, k: int) -> bool {
        ||| self.glyphs@[k].section_index < self.section_colors@.len()
        ||| forall|j: int| 0 <= j <= k ==> (#[trigger] self.glyphs@[j]).section_index == usize::MAX
    }

    /// The color of glyph `k`: that of its section, or white where it belongs to none.
    pub open spec fn glyph_color(&self, k: int) -> Color {
        if self.glyphs@[k].section_index == usize::MAX {
            Color::white()
        } else {
            self.section_colors@[self.glyphs@[k].section_index as int]
        }
    }

    /// Whether every glyph that is to be drawn has a color, an atlas and a rectangle there.
    pub open spec fn in_bounds(&self, atlases: Seq<TextureAtlas>) -> bool {
        self.is_drawn() ==> forall|k: int|
            #![trigger self.glyphs@[k]]
            0 <= k < self.glyphs@.len() ==> {
                &&& self.has_color(k)
                &&& self.glyphs@[k].atlas < atlases.len()
                &&& self.glyphs@[k].glyph_index < atlases[self.glyphs@[k].atlas as int].textures@.len()
            }
    }

    /// The box that shows glyph `k`.
    pub open spec fn glyph_box(
        &self,
        k: int,
        stack_index: int,
        atlases: Seq<TextureAtlas>,
        scale_factor: Scalar,
    ) -> ExtractedUiNode {
        let glyph = self.glyphs@[k];
        let atlas = atlases[glyph.atlas as int];
        ExtractedUiNode {
            stack_index: stack_index as usize,
            transform: glyph.transform,
            background_color: self.glyph_color(k),
            rect: atlas.textures@[glyph.glyph_index as int],
            image: atlas.texture,
            atlas_size: Some(atlas.size),
            clip: self.clip,
            flip_x: false,
            flip_y: false,
            scale_factor,
            node_type: UiNodeType::Text,
        }
    }

    /// The boxes of the first `count` glyphs.
    pub open spec fn glyph_boxes(
        &self,
        count: nat,
        stack_index: int,
        atlases: Seq<TextureAtlas>,
        scale_factor: Scalar,
    ) -> Seq<ExtractedUiNode> {
        Seq::new(count, |k: int| self.glyph_box(k, stack_index, atlases, scale_factor))
    }

    /// Whether every glyph that is to be drawn has a color, an atlas and a rectangle there.
    pub fn glyphs_in_bounds(&self, atlases: &Vec<TextureAtlas>) -> (r: bool)
        ensures
            r == self.in_bounds(atlases@),
    {
        if !self.visible || self.size.is_zero() {
            return true;
        }
        let mut no_section_yet: bool = true;
        let mut k: usize = 0;
        while k < self.glyphs.len()
            invariant
                self.is_drawn(),
                k <= self.glyphs.len(),
                no_section_yet == (forall|j: int|
                    0 <= j < k ==> (#[trigger] self.glyphs@[j]).section_index == usize::MAX),
                forall|i: int|
                    #![trigger self.glyphs@[i]]
                    0 <= i < k ==> {
                        &&& self.has_color(i)
                        &&& self.glyphs@[i].atlas < atlases@.len()
                        &&& self.glyphs@[i].glyph_index < atlases@[self.glyphs@[i].atlas as int].textures@.len()
                    },
            decreases self.glyphs.len() - k,
        {
            let glyph = self.glyphs[k];
            no_section_yet = no_section_yet && glyph.section_index == usize::MAX;
            assert(self.has_color(k as int) == (glyph.section_index < self.section_colors@.len()
                || no_section_yet));
            if glyph.section_index >= self.section_colors.len() && !no_section_yet {
                return false;
            }
            if glyph.atlas >= atlases.len() {
                return false;
            }
            if glyph.glyph_index >= atlases[glyph.atlas].textures.len() {
                return false;
            }
            k = k + 1;
        }
        true
    }
}

/// The boxes of the glyphs of the texts on the stack, from the bottom up, each text's glyphs in
/// their order. Where the stack names an entity that is no text, its place is empty.
pub open spec fn glyphs_of(
    stack: Seq<Option<TextNodeItem>>,
    atlases: Seq<TextureAtlas>,
    scale_factor: Scalar,
) -> Seq<ExtractedUiNode>
    decreases stack.len(),
{
    if stack.len() == 0 {
        Seq::empty()
    } else {
        let below = glyphs_of(stack.drop_last(), atlases, scale_factor);
        match stack.last() {
            Some(item) if item.is_drawn() => below + item.glyph_boxes(
                item.glyphs@.len(),
                stack.len() - 1,
                atlases,
                scale_factor,
            ),
            _ => below,
        }
    }
}

/// Appends the boxes of the glyphs of the texts on the stack.
pub fn extract_text_uinodes(
    extracted_uinodes: &mut ExtractedUiNodes,
    stack: &Vec<Option<TextNodeItem>>,
    atlases: &Vec<TextureAtlas>,
    scale_factor: Scalar,
)
    requires
        forall|i: int|
            0 <= i < stack@.len() && (#[trigger] stack@[i]) is Some ==> stack@[i]->0.in_bounds(
                atlases@,
            ),
    ensures
        final(extracted_uinodes).uinodes@ == old(extracted_uinodes).uinodes@ + glyphs_of(
            stack@,
            atlases@,
            scale_factor,
        ),
        old(extracted_uinodes).uinodes@.is_prefix_of(final(extracted_uinodes).uinodes@),
{
    let mut stack_index: usize = 0;
    while stack_index < stack.len()
        invariant
            stack_index <= stack.len(),
            forall|i: int|
                0 <= i < stack@.len() && (#[trigger] stack@[i]) is Some
                    ==> stack@[i]->0.in_bounds(atlases@),
            extracted_uinodes.uinodes@ == old(extracted_uinodes).uinodes@ + glyphs_of(
                stack@.take(stack_index as int),
                atlases@,
                scale_factor,
            ),
        decreases stack.len() - stack_index,
    {
        proof {
            assert(stack@.take(stack_index + 1).drop_last() =~= stack@.take(stack_index as int));
        }
        if let Some(item) = &stack[stack_index] {
            if item.visible && !item.size.is_zero() {
                extract_glyphs(extracted_uinodes, item, stack_index, atlases, scale_factor);
            }
        }
        stack_index = stack_index + 1;
    }
    assert(stack@.take(stack_index as int) =~= stack@);
}

/// Appends the boxes of the glyphs of one text that is drawn.
fn extract_glyphs(
    extracted_uinodes: &mut ExtractedUiNodes,
    item: &TextNodeItem,
    stack_index: usize,
    atlases: &Vec<TextureAtlas>,
    scale_factor: Scalar,
)
    requires
        item.is_drawn(),
        item.in_bounds(atlases@),
    ensures
        final(extracted_uinodes).uinodes@ == old(extracted_uinodes).uinodes@ + item.glyph_boxes(
            item.glyphs@.len(),
            stack_index as int,
            atlases@,
            scale_factor,
        ),
{
    let mut color = Color::white();
    let mut current_section: usize = usize::MAX;
    let mut k: usize = 0;
    while k < item.glyphs.len()
        invariant
            k <= item.glyphs.len(),
            item.is_drawn(),
            item.in_bounds(atlases@),
            extracted_uinodes.uinodes@ == old(extracted_uinodes).uinodes@ + item.glyph_boxes(
                k as nat,
                stack_index as int,
                atlases@,
                scale_factor,
            ),
            k == 0 ==> current_section == usize::MAX,
            k > 0 ==> current_section == item.glyphs@[k - 1].section_index,
            color == (if current_section == usize::MAX {
                Color::white()
            } else {
                item.section_colors@[current_section as int]
            }),
        decreases item.glyphs.len() - k,
    {
        let glyph = item.glyphs[k];
        assert(item.has_color(k as int));
        if glyph.section_index != current_section {
            assert(glyph.section_index < item.section_colors.len()) by {
                if k > 0 {
                    assert(item.glyphs@[k - 1].section_index == current_section);
                }
            }
            color = item.section_colors[glyph.section_index];
            current_section = glyph.section_index;
        }
        let atlas = &atlases[glyph.atlas];
        extracted_uinodes.uinodes.push(
            ExtractedUiNode {
                stack_index,
                transform: glyph.transform,
                background_color: color,
                rect: atlas.textures[glyph.glyph_index],
                image: atlas.texture,
                atlas_size: Some(atlas.size),
                clip: item.clip,
                flip_x: false,
                flip_y: false,
                scale_factor,
                node_type: UiNodeType::Text,
            },
        );
        assert(item.glyph_boxes((k + 1) as nat, stack_index as int, atlases@, scale_factor)
            =~= item.glyph_boxes(k as nat, stack_index as int, atlases@, scale_factor).push(
            item.glyph_box(k as int, stack_index as int, atlases@, scale_factor),
        ));
        k = k + 1;
    }
}

/// The boxes of the nodes are drawn in the order of the stack, at most one for each place, and
/// each is that of a node that is drawn.
pub proof fn law_sprites_follow_the_stack(
    stack: Seq<Option<UiNodeItem>>,
    default_image: DefaultImage,
    scale_factor: Scalar,
)
    requires
        stack.len() <= usize::MAX,
    ensures
        ({
            let sprites = sprites_of(stack, default_image, scale_factor);
            &&& forall|i: int, j: int|
                0 <= i < j < sprites.len() ==> (#[trigger] sprites[i]).stack_index < (
                #[trigger] sprites[j]).stack_index
            &&& forall|i: int|
                #![trigger sprites[i]]
                0 <= i < sprites.len() ==> {
                    let p = sprites[i].stack_index as int;
                    &&& p < stack.len()
                    &&& stack[p] is Some
                    &&& stack[p]->0.is_drawn(default_image)
                    &&& sprites[i] == stack[p]->0.sprite(p, default_image, scale_factor)
                }
        }),
    decreases stack.len(),
{
    if stack.len() > 0 {
        let lower = stack.drop_last();
        let top = stack.len() - 1;
        let sprites = sprites_of(stack, default_image, scale_factor);
        let below = sprites_of(lower, default_image, scale_factor);
        law_sprites_follow_the_stack(lower, default_image, scale_factor);
        assert(below.is_prefix_of(sprites));
        assert forall|i: int| 0 <= i < below.len() implies (#[trigger] below[i]) == sprites[i]
            && below[i].stack_index < top
            && stack[below[i].stack_index as int] == lower[below[i].stack_index as int] by {
            assert(lower[below[i].stack_index as int] is Some);
        }
        assert forall|i: int|
            #![trigger sprites[i]]
            0 <= i < sprites.len() implies {
            let p = sprites[i].stack_index as int;
            &&& p < stack.len()
            &&& stack[p] is Some
            &&& stack[p]->0.is_drawn(default_image)
            &&& sprites[i] == stack[p]->0.sprite(p, default_image, scale_factor)
        } by {
            if i < below.len() {
                assert(sprites[i] == below[i]);
            }
        }
        assert forall|i: int, j: int| 0 <= i < j < sprites.len() implies (
        #[trigger] sprites[i]).stack_index < (#[trigger] sprites[j]).stack_index by {
            assert(sprites[i] == below[i]);
            if j < below.len() {
                assert(sprites[j] == below[j]);
            }
        }
    }
}

/// Every node that is drawn has its box among those of the frame.
pub proof fn law_every_drawn_node_has_a_sprite(
    stack: Seq<Option<UiNodeItem>>,
    default_image: DefaultImage,
    scale_factor: Scalar,
    p: int,
)
    requires
        0 <= p < stack.len(),
        stack[p] is Some,
        stack[p]->0.is_drawn(default_image),
    ensures
        sprites_of(stack, default_image, scale_factor).contains(
            stack[p]->0.sprite(p, default_image, scale_factor),
        ),
    decreases stack.len(),
{
    let sprites = sprites_of(stack, default_image, scale_factor);
    let sprite = stack[p]->0.sprite(p, default_image, scale_factor);
    if p < stack.len() - 1 {
        let below = sprites_of(stack.drop_last(), default_image, scale_factor);
        law_every_drawn_node_has_a_sprite(stack.drop_last(), default_image, scale_factor, p);
        let i = choose|i: int| 0 <= i < below.len() && below[i] == sprite;
        assert(sprites[i] == sprite);
    } else {
        assert(sprites[sprites.len() - 1] == sprite);
    }
}

/// Every glyph of a text that is drawn has its box among those of the frame.
pub proof fn law_every_drawn_glyph_has_a_box(
    stack: Seq<Option<TextNodeItem>>,
    atlases: Seq<TextureAtlas>,
    scale_factor: Scalar,
    p: int,
    k: int,
)
    requires
        0 <= p < stack.len(),
        stack[p] is Some,
        stack[p]->0.is_drawn(),
        0 <= k < stack[p]->0.glyphs@.len(),
    ensures
        glyphs_of(stack, atlases, scale_factor).contains(
            stack[p]->0.glyph_box(k, p, atlases, scale_factor),
        ),
    decreases stack.len(),
{
    let glyphs = glyphs_of(stack, atlases, scale_factor);
    let below = glyphs_of(stack.drop_last(), atlases, scale_factor);
    let glyph_box = stack[p]->0.glyph_box(k, p, atlases, scale_factor);
    if p < stack.len() - 1 {
        law_every_drawn_glyph_has_a_box(stack.drop_last(), atlases, scale_factor, p, k);
        let i = choose|i: int| 0 <= i < below.len() && below[i] == glyph_box;
        assert(glyphs[i] == glyph_box);
    } else {
        assert(glyphs[below.len() + k] == glyph_box);
    }
}

/// The boxes of the glyphs are drawn in the order of the stack, and each comes from a text that
/// is drawn.
pub proof fn law_glyphs_follow_the_stack(
    stack: Seq<Option<TextNodeItem>>,
    atlases: Seq<TextureAtlas>,
    scale_factor: Scalar,
)
    requires
        stack.len() <= usize::MAX,
    ensures
        ({
            let glyphs = glyphs_of(stack, atlases, scale_factor);
            &&& forall|i: int, j: int|
                0 <= i < j < glyphs.len() ==> (#[trigger] glyphs[i]).stack_index <= (
                #[trigger] glyphs[j]).stack_index
            &&& forall|i: int|
                #![trigger glyphs[i]]
                0 <= i < glyphs.len() ==> {
                    let p = glyphs[i].stack_index as int;
                    &&& glyphs[i].node_type == UiNodeType::Text
                    &&& p < stack.len()
                    &&& stack[p] is Some
                    &&& stack[p]->0.is_drawn()
                }
        }),
    decreases stack.len(),
{
    if stack.len() > 0 {
        let lower = stack.drop_last();
        law_glyphs_follow_the_stack(lower, atlases, scale_factor);
        let glyphs = glyphs_of(stack, atlases, scale_factor);
        let below = glyphs_of(lower, atlases, scale_factor);
        assert(forall|i: int| 0 <= i < below.len() ==> below[i] == glyphs[i]);
        assert(forall|p: int| 0 <= p < lower.len() ==> lower[p] == stack[p]);
    }
}

/// A box that shows a node has what the node has: its transform, color, size and clip region, and its
/// place in the stack. It shows the image of the node, flipped as that image is, or else the default
/// one unflipped. Only a node that is visible, whose image is loaded and whose color is not completely
/// transparent has a box.
pub proof fn law_sprites_show_what_their_nodes_have(
    stack: Seq<Option<UiNodeItem>>,
    default_image: DefaultImage,
    scale_factor: Scalar,
    i: int,
)
    requires
        stack.len() <= usize::MAX,
        0 <= i < sprites_of(stack, default_image, scale_factor).len(),
    ensures
        ({
            let sprite = sprites_of(stack, default_image, scale_factor)[i];
            let item = stack[sprite.stack_index as int]->0;
            let alpha = match item.background_color {
                Color::Rgba { red, green, blue, alpha } => alpha,
                Color::RgbaLinear { red, green, blue, alpha } => alpha,
                Color::Hsla { hue, saturation, lightness, alpha } => alpha,
            };
            &&& sprite.stack_index < stack.len()
            &&& stack[sprite.stack_index as int] is Some
            &&& item.visible
            &&& alpha.bits != 0 && alpha.bits != 0x8000_0000
            &&& item.image is Some ==> {
                &&& item.image->0.loaded
                &&& sprite.image == item.image->0.texture
                &&& sprite.flip_x == item.image->0.flip_x
                &&& sprite.flip_y == item.image->0.flip_y
            }
            &&& item.image is None ==> {
                &&& default_image.loaded
                &&& sprite.image == default_image.texture
                &&& !sprite.flip_x
                &&& !sprite.flip_y
            }
            &&& sprite.transform == item.transform
            &&& sprite.background_color == item.background_color
            &&& sprite.rect.min.x.bits == 0 && sprite.rect.min.y.bits == 0
            &&& sprite.rect.max == item.calculated_size
            &&& sprite.atlas_size is None
            &&& sprite.clip == item.clip
            &&& sprite.scale_factor == scale_factor
            &&& sprite.node_type == UiNodeType::Sprite
        }),
{
    law_sprites_follow_the_stack(stack, default_image, scale_factor);
    let sprite = sprites_of(stack, default_image, scale_factor)[i];
    let item = stack[sprite.stack_index as int]->0;
    law_opacity_is_alpha(item.background_color, Vec2::zero());
    law_comparisons_follow_the_numbers(item.background_color.alpha_spec(), Scalar::zero());
}

/// Every node that is visible, whose image is loaded and whose color is not completely transparent has
/// a box at its place of the stack.
pub proof fn law_visible_nodes_have_a_sprite(
    stack: Seq<Option<UiNodeItem>>,
    default_image: DefaultImage,
    scale_factor: Scalar,
    p: int,
)
    requires
        stack.len() <= usize::MAX,
        0 <= p < stack.len(),
        stack[p] is Some,
        stack[p]->0.visible,
        stack[p]->0.image is Some ==> stack[p]->0.image->0.loaded,
        stack[p]->0.image is None ==> default_image.loaded,
        match stack[p]->0.background_color {
            Color::Rgba { red, green, blue, alpha } => alpha.bits != 0 && alpha.bits != 0x8000_0000,
            Color::RgbaLinear { red, green, blue, alpha } => alpha.bits != 0 && alpha.bits
                != 0x8000_0000,
            Color::Hsla { hue, saturation, lightness, alpha } => alpha.bits != 0 && alpha.bits
                != 0x8000_0000,
        },
    ensures
        exists|i: int|
            0 <= i < sprites_of(stack, default_image, scale_factor).len() && (
            #[trigger] sprites_of(stack, default_image, scale_factor)[i]).stack_index == p,
{
    let item = stack[p]->0;
    law_opacity_is_alpha(item.background_color, Vec2::zero());
    law_comparisons_follow_the_numbers(item.background_color.alpha_spec(), Scalar::zero());
    law_every_drawn_node_has_a_sprite(stack, default_image, scale_factor, p);
    let sprites = sprites_of(stack, default_image, scale_factor);
    let sprite = item.sprite(p, default_image, scale_factor);
    let i = choose|i: int| 0 <= i < sprites.len() && sprites[i] == sprite;
    assert(sprites[i].stack_index == p);
}

/// A text adds a box for each of its glyphs to the boxes of the texts below it if it is visible and its
/// size is not zero, and otherwise none, and the texts above it change none of these boxes.
pub proof fn law_texts_add_a_box_for_each_glyph(
    stack: Seq<Option<TextNodeItem>>,
    atlases: Seq<TextureAtlas>,
    scale_factor: Scalar,
    p: int,
)
    requires
        0 <= p < stack.len(),
    ensures
        ({
            let below = glyphs_of(stack.take(p), atlases, scale_factor);
            let upto = glyphs_of(stack.take(p + 1), atlases, scale_factor);
            let (x, y) = (stack[p]->0.size.x.bits, stack[p]->0.size.y.bits);
            let empty = (x == 0 || x == 0x8000_0000) && (y == 0 || y == 0x8000_0000);
            let drawn = stack[p] is Some && stack[p]->0.visible && !empty;
            &&& glyphs_of(stack.take(0), atlases, scale_factor).len() == 0
            &&& drawn ==> upto.len() == below.len() + stack[p]->0.glyphs@.len()
            &&& !drawn ==> upto == below
            &&& below.is_prefix_of(upto)
            &&& upto.is_prefix_of(glyphs_of(stack, atlases, scale_factor))
        }),
    decreases stack.len(),
{
    assert(stack.take(p + 1).drop_last() =~= stack.take(p));
    law_opacity_is_alpha(Color::white(), stack[p]->0.size);
    if p < stack.len() - 1 {
        let lower = stack.drop_last();
        law_texts_add_a_box_for_each_glyph(lower, atlases, scale_factor, p);
        assert(lower.take(p) =~= stack.take(p) && lower.take(p + 1) =~= stack.take(p + 1));
        assert(glyphs_of(lower, atlases, scale_factor).is_prefix_of(
            glyphs_of(stack, atlases, scale_factor),
        ));
    } else {
        assert(stack.take(p + 1) =~= stack);
    }
}

/// The box of a glyph has what the glyph, its text and its atlas have: the transform of the glyph, the
/// clip region and the place of the text, the color of the section of the glyph, or white where it
/// belongs to none, and the image, the size and the rectangle of the atlas. It is not flipped.
pub proof fn law_glyph_boxes_show_what_their_glyphs_have(
    stack: Seq<Option<TextNodeItem>>,
    atlases: Seq<TextureAtlas>,
    scale_factor: Scalar,
    p: int,
    k: int,
)
    requires
        stack.len() <= usize::MAX,
        0 <= p < stack.len(),
        stack[p] is Some,
        stack[p]->0.visible,
        !((stack[p]->0.size.x.bits == 0 || stack[p]->0.size.x.bits == 0x8000_0000) && (
        stack[p]->0.size.y.bits == 0 || stack[p]->0.size.y.bits == 0x8000_0000)),
        0 <= k < stack[p]->0.glyphs@.len(),
    ensures
        ({
            let below = glyphs_of(stack.take(p), atlases, scale_factor).len();
            let shown = glyphs_of(stack, atlases, scale_factor)[below + k];
            let text = stack[p]->0;
            let glyph = text.glyphs@[k];
            let atlas = atlases[glyph.atlas as int];
            let one = Scalar { bits: 0x3f80_0000 };
            &&& shown.stack_index == p
            &&& shown.transform == glyph.transform
            &&& glyph.section_index != usize::MAX ==> shown.background_color
                == text.section_colors@[glyph.section_index as int]
            &&& glyph.section_index == usize::MAX ==> shown.background_color == (Color::Rgba {
                red: one,
                green: one,
                blue: one,
                alpha: one,
            })
            &&& shown.rect == atlas.textures@[glyph.glyph_index as int]
            &&& shown.image == atlas.texture
            &&& shown.atlas_size == Some(atlas.size)
            &&& shown.clip == text.clip
            &&& !shown.flip_x && !shown.flip_y
            &&& shown.scale_factor == scale_factor
            &&& shown.node_type == UiNodeType::Text
        }),
{
    law_texts_add_a_box_for_each_glyph(stack, atlases, scale_factor, p);
    law_opacity_is_alpha(Color::white(), stack[p]->0.size);
    assert(stack.take(p + 1).drop_last() =~= stack.take(p));
    let below = glyphs_of(stack.take(p), atlases, scale_factor);
    let upto = glyphs_of(stack.take(p + 1), atlases, scale_factor);
    assert(upto[below.len() + k] == stack[p]->0.glyph_box(k, p, atlases, scale_factor));
    assert(upto[below.len() + k] == glyphs_of(stack, atlases, scale_factor)[below.len() + k]);
}

/// A text can be extracted if and only if it is not drawn, or each of its glyphs has a section, or
/// like all glyphs before it names none, and an atlas with a rectangle for it.
pub proof fn law_texts_with_known_glyphs_are_in_bounds(
    text: TextNodeItem,
    atlases: Seq<TextureAtlas>,
)
    ensures
        ({
            let (x, y) = (text.size.x.bits, text.size.y.bits);
            let empty = (x == 0 || x == 0x8000_0000) && (y == 0 || y == 0x8000_0000);
            text.in_bounds(atlases) <==> !text.visible || empty || forall|k: int|
                #![trigger text.glyphs@[k]]
                0 <= k < text.glyphs@.len() ==> {
                    let glyph = text.glyphs@[k];
                    &&& glyph.section_index < text.section_colors@.len() || forall|j: int|
                        0 <= j <= k ==> (#[trigger] text.glyphs@[j]).section_index == usize::MAX
                    &&& glyph.atlas < atlases.len()
                    &&& glyph.glyph_index < atlases[glyph.atlas as int].textures@.len()
                }
        }),
{
    law_opacity_is_alpha(Color::white(), text.size);
}

} // verus!
