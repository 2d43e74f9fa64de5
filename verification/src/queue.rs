//! Queueing the batches of a frame for every view, with the bind groups that drawing them needs.
use crate::bind_groups::{
    are_slots_below, bound, has_room, law_binding_again_changes_nothing,
    law_binding_serves_every_key, law_missing_keys_get_new_slots, law_room_for_all_keys_is_enough,
    law_slots_follow_the_keys, lemma_bound_grows, lemma_bound_keys, lemma_next_is_a_slot,
    BindGroupTable, UiImageBindGroups, UiParamsBindGroups,
};
use crate::extract::UiNodeType;
use crate::prepare::UiBatch;
use crate::scalar::Scalar;
use vstd::prelude::*;

verus! {

/// What has become of an image since the last frame.
#[derive(Clone, Copy, Debug)]
pub enum ImageEvent {
    Created { image: u64 },
    Modified { image: u64 },
    Removed { image: u64 },
}

/// What selects the pipeline that draws a view.
#[derive(Clone, Copy, Debug, PartialEq, Eq, Hash, Structural)]
pub struct UiPipelineKey {
    pub hdr: bool,
}

/// A batch, and the entity that carries it.
#[derive(Debug)]
pub struct BatchItem {
    pub entity: u64,
    pub batch: UiBatch,
}

/// A batch to draw, and the depth by which it is sorted.
#[derive(Clone, Copy, Debug, PartialEq, Eq, Structural)]
pub struct TransparentUi {
    pub entity: u64,
    pub sort_key: Scalar,
}

/// What is drawn in one view.
#[derive(Debug)]
pub struct UiPhase {
    pub pipeline_key: UiPipelineKey,
    pub items: Vec<TransparentUi>,
}

/// What queueing a frame leaves to be done.
#[derive(Debug)]
pub struct QueuedUi {
    /// The slots whose bind groups are no longer used.
    pub released_slots: Vec<u64>,
    /// The images whose bind groups have to be made, each with the slot to keep it in.
    pub image_groups: Vec<(u64, u64)>,
    /// The kinds of node whose bind groups have to be made, each with the slot to keep it in.
    pub params_groups: Vec<(UiNodeType, u64)>,
    /// What is drawn in each view.
    pub phases: Vec<UiPhase>,
}

impl ImageEvent {
    /// The image whose bind group the event outdates.
    pub open spec fn outdated(self) -> Option<u64> {
        match self {
            ImageEvent::Created { .. } => None,
            ImageEvent::Modified { image } => Some(image),
            ImageEvent::Removed { image } => Some(image),
        }
    }
}

/// The slots that are left after the events.
pub open spec fn slots_after(slots: Map<u64, u64>, events: Seq<ImageEvent>) -> Map<u64, u64>
    decreases events.len(),
{
    if events.len() == 0 {
        slots
    } else {
        let earlier = slots_after(slots, events.drop_last());
        match events.last().outdated() {
            Some(image) => earlier.remove(image),
            None => earlier,
        }
    }
}

/// The slots that the events release, in their order.
pub open spec fn slots_released(slots: Map<u64, u64>, events: Seq<ImageEvent>) -> Seq<u64>
    decreases events.len(),
{
    if events.len() == 0 {
        Seq::empty()
    } else {
        let left = slots_after(slots, events.drop_last());
        let earlier = slots_released(slots, events.drop_last());
        match events.last().outdated() {
            Some(image) if left.contains_key(image) => earlier.push(left[image]),
            _ => earlier,
        }
    }
}

/// The images of the batches, in their order.
pub open spec fn images_of(batches: Seq<BatchItem>) -> Seq<u64> {
    batches.map_values(|b: BatchItem| b.batch.image)
}

/// The numbers of the kinds of node of the batches, in their order.
pub open spec fn kinds_of(batches: Seq<BatchItem>) -> Seq<u64> {
    batches.map_values(|b: BatchItem| b.batch.node_type.number() as u64)
}

/// The batches as they are drawn.
pub open spec fn items_of(batches: Seq<BatchItem>) -> Seq<TransparentUi> {
    batches.map_values(
        |b: BatchItem| TransparentUi { entity: b.entity, sort_key: b.batch.z },
    )
}

/// Releases the slots of the images that have changed: the bind group of such an image shows what
/// it was.
fn release_outdated(image_bind_groups: &mut UiImageBindGroups, events: &Vec<ImageEvent>) -> (r: Vec<
    u64,
>)
    requires
        old(image_bind_groups).values.wf(),
    ensures
        final(image_bind_groups).values.wf(),
        final(image_bind_groups).values.next() == old(image_bind_groups).values.next(),
        final(image_bind_groups).values@ == slots_after(old(image_bind_groups).values@, events@),
        r@ == slots_released(old(image_bind_groups).values@, events@),
{
    let mut released: Vec<u64> = Vec::new();
    let mut i: usize = 0;
    while i < events.len()
        invariant
            i <= events@.len(),
            image_bind_groups.values.wf(),
            image_bind_groups.values.next() == old(image_bind_groups).values.next(),
            image_bind_groups.values@ == slots_after(
                old(image_bind_groups).values@,
                events@.take(i as int),
            ),
            released@ == slots_released(old(image_bind_groups).values@, events@.take(i as int)),
        decreases events@.len() - i,
    {
        proof {
            assert(events@.take(i + 1).drop_last() =~= events@.take(i as int));
        }
        let slot = match events[i] {
            ImageEvent::Created { .. } => None,
            ImageEvent::Modified { image } | ImageEvent::Removed { image } => {
                image_bind_groups.values.release(image)
            },
        };
        if let Some(slot) = slot {
            released.push(slot);
        }
        i = i + 1;
    }
    assert(events@.take(i as int) =~= events@);
    released
}

/// The batches as they are drawn in one view.
fn phase_items(batches: &Vec<BatchItem>) -> (r: Vec<TransparentUi>)
    ensures
        r@ == items_of(batches@),
{
    let mut items: Vec<TransparentUi> = Vec::new();
    let mut i: usize = 0;
    while i < batches.len()
        invariant
            i <= batches@.len(),
            items@ == items_of(batches@).take(i as int),
        decreases batches@.len() - i,
    {
        items.push(
            TransparentUi { entity: batches[i].entity, sort_key: batches[i].batch.z },
        );
        assert(items@ =~= items_of(batches@).take(i + 1));
        i = i + 1;
    }
    assert(items_of(batches@).take(i as int) =~= items_of(batches@));
    items
}

/// The kinds of node that got a slot, by their numbers.
pub open spec fn numbered(groups: Seq<(UiNodeType, u64)>) -> Seq<(u64, u64)> {
    groups.map_values(|g: (UiNodeType, u64)| (g.0.number() as u64, g.1))
}

/// Gives a slot to every image and to every kind of node that a batch needs and that has none.
fn bind_batches(
    image_bind_groups: &mut UiImageBindGroups,
    params_bind_groups: &mut UiParamsBindGroups,
    batches: &Vec<BatchItem>,
) -> (r: (Vec<(u64, u64)>, Vec<(UiNodeType, u64)>))
    requires
        old(image_bind_groups).values.wf(),
        old(params_bind_groups).values.wf(),
        has_room(
            old(image_bind_groups).values@,
            old(image_bind_groups).values.next(),
            images_of(batches@),
        ),
        has_room(
            old(params_bind_groups).values@,
            old(params_bind_groups).values.next(),
            kinds_of(batches@),
        ),
    ensures
        final(image_bind_groups).values.wf(),
        final(params_bind_groups).values.wf(),
        (final(image_bind_groups).values@, r.0@) == bound(
            old(image_bind_groups).values@,
            old(image_bind_groups).values.next(),
            images_of(batches@),
        ),
        final(image_bind_groups).values.next() == old(image_bind_groups).values.next()
            + r.0@.len(),
        (final(params_bind_groups).values@, numbered(r.1@)) == bound(
            old(params_bind_groups).values@,
            old(params_bind_groups).values.next(),
            kinds_of(batches@),
        ),
        final(params_bind_groups).values.next() == old(params_bind_groups).values.next()
            + r.1@.len(),
{
    let mut images: Vec<(u64, u64)> = Vec::new();
    let mut kinds: Vec<(UiNodeType, u64)> = Vec::new();
    let mut i: usize = 0;
    assert(numbered(kinds@) =~= Seq::<(u64, u64)>::empty());
    while i < batches.len()
        invariant
            i <= batches@.len(),
            has_room(
                old(image_bind_groups).values@,
                old(image_bind_groups).values.next(),
                images_of(batches@),
            ),
            has_room(
                old(params_bind_groups).values@,
                old(params_bind_groups).values.next(),
                kinds_of(batches@),
            ),
            image_bind_groups.values.wf(),
            params_bind_groups.values.wf(),
            (image_bind_groups.values@, images@) == bound(
                old(image_bind_groups).values@,
                old(image_bind_groups).values.next(),
                images_of(batches@).take(i as int),
            ),
            image_bind_groups.values.next() == old(image_bind_groups).values.next() + images@.len(),
            (params_bind_groups.values@, numbered(kinds@)) == bound(
                old(params_bind_groups).values@,
                old(params_bind_groups).values.next(),
                kinds_of(batches@).take(i as int),
            ),
            params_bind_groups.values.next() == old(params_bind_groups).values.next()
                + kinds@.len(),
        decreases batches@.len() - i,
    {
        proof {
            assert(images_of(batches@).take(i + 1).drop_last() =~= images_of(batches@).take(
                i as int,
            ));
            assert(kinds_of(batches@).take(i + 1).drop_last() =~= kinds_of(batches@).take(i as int));
            lemma_bound_grows(
                old(image_bind_groups).values@,
                old(image_bind_groups).values.next(),
                images_of(batches@),
                i + 1,
            );
            lemma_bound_grows(
                old(params_bind_groups).values@,
                old(params_bind_groups).values.next(),
                kinds_of(batches@),
                i + 1,
            );
        }
        let image: u64 = batches[i].batch.image;
        if let Some(slot) = image_bind_groups.values.bind(image) {
            images.push((image, slot));
        }
        let node_type = batches[i].batch.node_type;
        let number: u64 = match node_type {
            UiNodeType::Sprite => 0,
            UiNodeType::Text => 1,
        };
        let ghost before = kinds@;
        if let Some(slot) = params_bind_groups.values.bind(number) {
            kinds.push((node_type, slot));
            assert(numbered(kinds@) =~= numbered(before).push((number, slot)));
        }
        i = i + 1;
    }
    proof {
        assert(images_of(batches@).take(i as int) =~= images_of(batches@));
        assert(kinds_of(batches@).take(i as int) =~= kinds_of(batches@));
    }
    (images, kinds)
}

/// The batches that are drawn in any view.
pub open spec fn drawn_batches(
    views_are_bound: bool,
    views: Seq<UiPipelineKey>,
    batches: Seq<BatchItem>,
) -> Seq<BatchItem> {
    if views_are_bound && views.len() > 0 {
        batches
    } else {
        Seq::empty()
    }
}

/// Whether the tables have slots left for the bind groups that queueing a frame needs and that do
/// not exist.
pub open spec fn can_queue(
    events: Seq<ImageEvent>,
    views_are_bound: bool,
    views: Seq<UiPipelineKey>,
    batches: Seq<BatchItem>,
    images: BindGroupTable,
    params: BindGroupTable,
) -> bool {
    let drawn = drawn_batches(views_are_bound, views, batches);
    &&& has_room(slots_after(images@, events), images.next(), images_of(drawn))
    &&& has_room(params@, params.next(), kinds_of(drawn))
}

/// What queueing a frame does to the tables of the images and of the parameters, and what it
/// returns.
pub open spec fn is_queued(
    events: Seq<ImageEvent>,
    views_are_bound: bool,
    views: Seq<UiPipelineKey>,
    batches: Seq<BatchItem>,
    images: BindGroupTable,
    params: BindGroupTable,
    images_after: BindGroupTable,
    params_after: BindGroupTable,
    r: QueuedUi,
) -> bool {
    let drawn = drawn_batches(views_are_bound, views, batches);
    &&& r.released_slots@ == slots_released(images@, events)
    &&& (images_after@, r.image_groups@) == bound(
        slots_after(images@, events),
        images.next(),
        images_of(drawn),
    )
    &&& (params_after@, numbered(r.params_groups@)) == bound(
        params@,
        params.next(),
        kinds_of(drawn),
    )
    &&& images_after.next() == images.next() + r.image_groups@.len()
    &&& params_after.next() == params.next() + r.params_groups@.len()
    &&& r.phases@.len() == if views_are_bound {
        views.len()
    } else {
        0
    }
    &&& forall|i: int|
        0 <= i < r.phases@.len() ==> (#[trigger] r.phases@[i]).pipeline_key == views[i]
            && r.phases@[i].items@ == items_of(batches)
}

/// Queues the batches for every view. The bind groups of images that have changed are released
/// first. Unless there is nothing to bind the views to, every batch then gets the bind groups
/// that it needs and does not have, if there is a view to draw it in, and every view draws every
/// batch.
pub fn queue_uinodes(
    events: &Vec<ImageEvent>,
    views_are_bound: bool,
    views: &Vec<UiPipelineKey>,
    batches: &Vec<BatchItem>,
    image_bind_groups: &mut UiImageBindGroups,
    params_bind_groups: &mut UiParamsBindGroups,
) -> (r: QueuedUi)
    requires
        old(image_bind_groups).values.wf(),
        old(params_bind_groups).values.wf(),
        can_queue(
            events@,
            views_are_bound,
            views@,
            batches@,
            old(image_bind_groups).values,
            old(params_bind_groups).values,
        ),
    ensures
        final(image_bind_groups).values.wf(),
        final(params_bind_groups).values.wf(),
        is_queued(
            events@,
            views_are_bound,
            views@,
            batches@,
            old(image_bind_groups).values,
            old(params_bind_groups).values,
            final(image_bind_groups).values,
            final(params_bind_groups).values,
            r,
        ),
{
    let released_slots = release_outdated(image_bind_groups, events);
    let mut image_groups: Vec<(u64, u64)> = Vec::new();
    let mut params_groups: Vec<(UiNodeType, u64)> = Vec::new();
    let mut phases: Vec<UiPhase> = Vec::new();
    proof {
        assert(images_of(Seq::empty()) =~= Seq::<u64>::empty());
        assert(kinds_of(Seq::empty()) =~= Seq::<u64>::empty());
        assert(numbered(params_groups@) =~= Seq::<(u64, u64)>::empty());
    }
    if views_are_bound {
        if views.len() > 0 {
            let (images, kinds) = bind_batches(image_bind_groups, params_bind_groups, batches);
            image_groups = images;
            params_groups = kinds;
        }
        let mut i: usize = 0;
        while i < views.len()
            invariant
                i <= views@.len(),
                phases@.len() == i,
                forall|j: int|
                    0 <= j < i ==> (#[trigger] phases@[j]).pipeline_key == views@[j]
                        && phases@[j].items@ == items_of(batches@),
            decreases views@.len() - i,
        {
            let items = phase_items(batches);
            phases.push(UiPhase { pipeline_key: views[i], items });
            i = i + 1;
        }
    }
    QueuedUi { released_slots, image_groups, params_groups, phases }
}

/// An image keeps its bind group unless it was modified or removed: only then is its slot
/// released.
pub proof fn law_events_release_what_they_outdate(
    slots: Map<u64, u64>,
    events: Seq<ImageEvent>,
    image: u64,
)
    ensures
        slots_after(slots, events).contains_key(image) == (slots.contains_key(image) && forall|
            i: int,
        |
            0 <= i < events.len() ==> (#[trigger] events[i]).outdated() != Some(image)),
        slots_after(slots, events).contains_key(image) ==> slots_after(slots, events)[image]
            == slots[image],
        slots_after(slots, events).submap_of(slots),
    decreases events.len(),
{
    if events.len() > 0 {
        let rest = events.drop_last();
        law_events_release_what_they_outdate(slots, rest, image);
        assert(forall|i: int| 0 <= i < rest.len() ==> rest[i] == events[i]);
        assert(events[events.len() - 1] == events.last());
        if slots_after(slots, rest).contains_key(image) && slots_after(
            slots,
            events,
        ).contains_key(image) {
            assert forall|i: int| 0 <= i < events.len() implies (
            #[trigger] events[i]).outdated() != Some(image) by {
                if i < rest.len() {
                    assert(rest[i].outdated() != Some(image));
                }
            }
        }
        if forall|i: int| 0 <= i < events.len() ==> (#[trigger] events[i]).outdated() != Some(image) {
            assert(forall|i: int|
                0 <= i < rest.len() ==> (#[trigger] rest[i]).outdated() != Some(image));
        }
    }
}

/// A released slot was in use, by an image that has none afterwards.
pub proof fn law_released_slots_are_no_longer_used(
    slots: Map<u64, u64>,
    events: Seq<ImageEvent>,
    n: int,
)
    requires
        0 <= n < slots_released(slots, events).len(),
    ensures
        exists|image: u64|
            #![trigger slots.contains_key(image)]
            slots.contains_key(image) && slots[image] == slots_released(slots, events)[n]
                && !slots_after(slots, events).contains_key(image),
    decreases events.len(),
{
    let rest = events.drop_last();
    let left = slots_after(slots, rest);
    let earlier = slots_released(slots, rest);
    if n < earlier.len() {
        law_released_slots_are_no_longer_used(slots, rest, n);
        let image = choose|image: u64|
            #![trigger slots.contains_key(image)]
            slots.contains_key(image) && slots[image] == earlier[n] && !left.contains_key(image);
        assert(!slots_after(slots, events).contains_key(image));
    } else {
        let image = events.last().outdated()->0;
        law_events_release_what_they_outdate(slots, rest, image);
        assert(slots.contains_key(image));
    }
}

/// A batch whose image has changed is drawn with a bind group that is made anew, in a slot that no
/// image ever had.
pub proof fn law_changed_images_are_bound_anew(
    slots: Map<u64, u64>,
    next: int,
    events: Seq<ImageEvent>,
    batches: Seq<BatchItem>,
    e: int,
    b: int,
)
    requires
        0 <= next,
        has_room(slots_after(slots, events), next, images_of(batches)),
        are_slots_below(slots, next),
        0 <= e < events.len(),
        0 <= b < batches.len(),
        events[e].outdated() == Some(batches[b].batch.image),
    ensures
        exists|i: int|
            #![trigger bound(slots_after(slots, events), next, images_of(batches)).1[i]]
            0 <= i < bound(slots_after(slots, events), next, images_of(batches)).1.len() && bound(
                slots_after(slots, events),
                next,
                images_of(batches),
            ).1[i] == (batches[b].batch.image, (next + i) as u64),
        forall|image: u64| #[trigger] slots.contains_key(image) ==> slots[image] < next,
{
    let image = batches[b].batch.image;
    law_events_release_what_they_outdate(slots, events, image);
    assert(images_of(batches)[b] == image);
    law_missing_keys_get_new_slots(slots_after(slots, events), next, images_of(batches), image);
}

/// Every batch that is queued has a bind group for its image and one for its kind of node.
pub proof fn law_queued_batches_are_bound(
    image_slots: Map<u64, u64>,
    next_image: int,
    params_slots: Map<u64, u64>,
    next_params: int,
    batches: Seq<BatchItem>,
    b: int,
)
    requires
        0 <= b < batches.len(),
    ensures
        bound(image_slots, next_image, images_of(batches)).0.contains_key(batches[b].batch.image),
        bound(params_slots, next_params, kinds_of(batches)).0.contains_key(
            batches[b].batch.node_type.number() as u64,
        ),
{
    lemma_bound_keys(image_slots, next_image, images_of(batches));
    lemma_bound_keys(params_slots, next_params, kinds_of(batches));
    assert(images_of(batches)[b] == batches[b].batch.image);
    assert(kinds_of(batches)[b] == batches[b].batch.node_type.number() as u64);
}

/// Queueing a frame again changes nothing: where no image has changed since, the tables keep their
/// slots and need no more room, no bind group is made or released, and every view draws the same.
pub proof fn law_queueing_again_changes_nothing(
    events: Seq<ImageEvent>,
    views_are_bound: bool,
    views: Seq<UiPipelineKey>,
    batches: Seq<BatchItem>,
    images: BindGroupTable,
    params: BindGroupTable,
    images_first: BindGroupTable,
    params_first: BindGroupTable,
    first: QueuedUi,
    images_second: BindGroupTable,
    params_second: BindGroupTable,
    second: QueuedUi,
)
    requires
        can_queue(events, views_are_bound, views, batches, images, params),
        is_queued(
            events,
            views_are_bound,
            views,
            batches,
            images,
            params,
            images_first,
            params_first,
            first,
        ),
        is_queued(
            Seq::empty(),
            views_are_bound,
            views,
            batches,
            images_first,
            params_first,
            images_second,
            params_second,
            second,
        ),
    ensures
        can_queue(Seq::empty(), views_are_bound, views, batches, images_first, params_first),
        images_second@ == images_first@,
        images_second.next() == images_first.next(),
        params_second@ == params_first@,
        params_second.next() == params_first.next(),
        second.released_slots@.len() == 0,
        second.image_groups@.len() == 0,
        second.params_groups@.len() == 0,
        second.phases@.len() == first.phases@.len(),
        forall|i: int|
            0 <= i < second.phases@.len() ==> (#[trigger] second.phases@[i]).pipeline_key
                == first.phases@[i].pipeline_key && second.phases@[i].items@
                == first.phases@[i].items@,
{
    let drawn = drawn_batches(views_are_bound, views, batches);
    let slots = slots_after(images@, events);
    lemma_bound_keys(slots, images.next(), images_of(drawn));
    lemma_bound_keys(params@, params.next(), kinds_of(drawn));
    law_binding_again_changes_nothing(images_first@, images_first.next(), images_of(drawn));
    law_binding_again_changes_nothing(params_first@, params_first.next(), kinds_of(drawn));
    assert(numbered(second.params_groups@).len() == 0);
    assert(numbered(first.params_groups@).len() == first.params_groups@.len());
}

/// Every view draws every batch, if the views are bound, and no batch else: the phase of a view has the
/// dynamic range of the view, and an item for each batch, of either kind, in the order of the batches,
/// with the entity of the batch and the depth of the batch to sort by.
pub proof fn law_views_draw_every_batch(
    events: Seq<ImageEvent>,
    views_are_bound: bool,
    views: Seq<UiPipelineKey>,
    batches: Seq<BatchItem>,
    images: BindGroupTable,
    params: BindGroupTable,
    images_after: BindGroupTable,
    params_after: BindGroupTable,
    r: QueuedUi,
)
    requires
        is_queued(
            events,
            views_are_bound,
            views,
            batches,
            images,
            params,
            images_after,
            params_after,
            r,
        ),
    ensures
        views_are_bound ==> r.phases@.len() == views.len(),
        !views_are_bound ==> r.phases@.len() == 0,
        forall|i: int|
            0 <= i < r.phases@.len() ==> (#[trigger] r.phases@[i]).pipeline_key.hdr == views[i].hdr
                && r.phases@[i].items@.len() == batches.len(),
        forall|i: int, b: int|
            #![trigger r.phases@[i].items@[b]]
            0 <= i < r.phases@.len() && 0 <= b < batches.len() ==> {
                &&& r.phases@[i].items@[b].entity == batches[b].entity
                &&& r.phases@[i].items@[b].sort_key.bits == batches[b].batch.z.bits
            },
{
    assert forall|i: int, b: int|
        #![trigger r.phases@[i].items@[b]]
        0 <= i < r.phases@.len() && 0 <= b < batches.len() implies r.phases@[i].items@[b].entity
        == batches[b].entity && r.phases@[i].items@[b].sort_key.bits
        == batches[b].batch.z.bits by {
        assert(r.phases@[i].items@ == items_of(batches));
    }
}

/// One more event that an image was modified or removed takes the slot of that image, if it has one,
/// and releases it after those that were released before. One that an image was created changes
/// nothing, and without events nothing changes.
pub proof fn law_one_more_event_releases_its_image(
    slots: Map<u64, u64>,
    events: Seq<ImageEvent>,
    image: u64,
)
    ensures
        ({
            let left = slots_after(slots, events);
            let released = slots_released(slots, events);
            let created = events.push(ImageEvent::Created { image });
            let modified = events.push(ImageEvent::Modified { image });
            let removed = events.push(ImageEvent::Removed { image });
            let then = if left.contains_key(image) {
                released.push(left[image])
            } else {
                released
            };
            &&& slots_after(slots, Seq::empty()) == slots
            &&& slots_released(slots, Seq::empty()) == Seq::<u64>::empty()
            &&& slots_after(slots, created) == left
            &&& slots_released(slots, created) == released
            &&& slots_after(slots, modified) == left.remove(image)
            &&& slots_released(slots, modified) == then
            &&& slots_after(slots, removed) == left.remove(image)
            &&& slots_released(slots, removed) == then
        }),
{
    assert(events.push(ImageEvent::Created { image }).drop_last() =~= events);
    assert(events.push(ImageEvent::Modified { image }).drop_last() =~= events);
    assert(events.push(ImageEvent::Removed { image }).drop_last() =~= events);
}

/// After a frame is queued, an image has a bind group if it had one and was neither modified nor removed,
/// and then it is the same one, or if a batch that is drawn shows it, and then it is a new one. A batch
/// is drawn if the views are bound and there is one.
pub proof fn law_queued_images_have_their_bind_groups(
    events: Seq<ImageEvent>,
    views_are_bound: bool,
    views: Seq<UiPipelineKey>,
    batches: Seq<BatchItem>,
    images: BindGroupTable,
    params: BindGroupTable,
    images_after: BindGroupTable,
    params_after: BindGroupTable,
    r: QueuedUi,
    image: u64,
)
    requires
        can_queue(events, views_are_bound, views, batches, images, params),
        is_queued(
            events,
            views_are_bound,
            views,
            batches,
            images,
            params,
            images_after,
            params_after,
            r,
        ),
    ensures
        ({
            let kept = images@.contains_key(image) && forall|e: int|
                0 <= e < events.len() ==> #[trigger] events[e] != (ImageEvent::Modified { image })
                    && events[e] != (ImageEvent::Removed { image });
            let shown = views_are_bound && views.len() > 0 && exists|b: int|
                0 <= b < batches.len() && (#[trigger] batches[b]).batch.image == image;
            &&& images_after@.contains_key(image) <==> kept || shown
            &&& kept ==> images_after@[image] == images@[image]
            &&& shown && !kept ==> exists|i: int|
                0 <= i < r.image_groups@.len() && #[trigger] r.image_groups@[i] == (
                    image,
                    images_after@[image],
                )
            &&& forall|i: int|
                0 <= i < r.image_groups@.len() && (#[trigger] r.image_groups@[i]).0 == image
                    ==> shown && !kept && r.image_groups@[i].1 == images_after@[image]
        }),
        forall|i: int|
            0 <= i < r.image_groups@.len() ==> (#[trigger] r.image_groups@[i]).1 == images.next()
                + i,
        images_after.next() == images.next() + r.image_groups@.len(),
{
    let drawn = drawn_batches(views_are_bound, views, batches);
    let slots = slots_after(images@, events);
    let keys = images_of(drawn);
    lemma_next_is_a_slot(images);
    law_events_release_what_they_outdate(images@, events, image);
    law_binding_serves_every_key(slots, images.next(), keys);
    let kept = images@.contains_key(image) && forall|e: int|
        0 <= e < events.len() ==> #[trigger] events[e] != (ImageEvent::Modified { image })
            && events[e] != (ImageEvent::Removed { image });
    let shown = views_are_bound && views.len() > 0 && exists|b: int|
        0 <= b < batches.len() && (#[trigger] batches[b]).batch.image == image;
    assert(kept == slots.contains_key(image)) by {
        if slots.contains_key(image) {
            assert forall|e: int| 0 <= e < events.len() implies #[trigger] events[e] != (
            ImageEvent::Modified { image }) && events[e] != (ImageEvent::Removed { image }) by {
                assert(events[e].outdated() != Some(image));
            }
        }
        if kept {
            assert forall|e: int| 0 <= e < events.len() implies (
            #[trigger] events[e]).outdated() != Some(image) by {
                assert(events[e] != (ImageEvent::Modified { image }));
            }
        }
    }
    assert(shown == keys.contains(image)) by {
        if shown {
            let b = choose|b: int|
                0 <= b < batches.len() && (#[trigger] batches[b]).batch.image == image;
            assert(keys[b] == image);
        }
        if keys.contains(image) {
            let b = choose|b: int| 0 <= b < keys.len() && keys[b] == image;
            assert(drawn[b].batch.image == image);
        }
    }
    if shown {
        let k = choose|k: int| 0 <= k < keys.len() && keys[k] == image;
        assert(images_after@.contains_key(keys[k]));
    }
    if shown && !kept {
        law_missing_keys_get_new_slots(slots, images.next(), keys, image);
        let i = choose|i: int|
            #![trigger bound(slots, images.next(), keys).1[i]]
            0 <= i < bound(slots, images.next(), keys).1.len() && bound(
                slots,
                images.next(),
                keys,
            ).1[i] == (image, (images.next() + i) as u64);
        assert(r.image_groups@[i] == (image, images_after@[image]));
    }
}

/// Bind groups of images are made in the order in which the batches first show the images.
pub proof fn law_image_groups_follow_the_batches(
    events: Seq<ImageEvent>,
    views_are_bound: bool,
    views: Seq<UiPipelineKey>,
    batches: Seq<BatchItem>,
    images: BindGroupTable,
    params: BindGroupTable,
    images_after: BindGroupTable,
    params_after: BindGroupTable,
    r: QueuedUi,
    i: int,
    j: int,
)
    requires
        can_queue(events, views_are_bound, views, batches, images, params),
        is_queued(
            events,
            views_are_bound,
            views,
            batches,
            images,
            params,
            images_after,
            params_after,
            r,
        ),
        0 <= i < j < r.image_groups@.len(),
    ensures
        exists|b: int|
            0 <= b < batches.len() && (#[trigger] batches[b]).batch.image == r.image_groups@[i].0
                && forall|c: int|
                0 <= c <= b ==> (#[trigger] batches[c]).batch.image != r.image_groups@[j].0,
{
    let drawn = drawn_batches(views_are_bound, views, batches);
    let slots = slots_after(images@, events);
    let keys = images_of(drawn);
    lemma_next_is_a_slot(images);
    law_slots_follow_the_keys(slots, images.next(), keys, i, j);
    let x = choose|x: int|
        0 <= x < keys.len() && #[trigger] keys[x] == r.image_groups@[i].0 && forall|y: int|
            0 <= y <= x ==> #[trigger] keys[y] != r.image_groups@[j].0;
    assert(drawn == batches);
    assert(batches[x].batch.image == r.image_groups@[i].0);
    assert forall|c: int| 0 <= c <= x implies (#[trigger] batches[c]).batch.image
        != r.image_groups@[j].0 by {
        assert(keys[c] != r.image_groups@[j].0);
    }
}

/// After a frame is queued, a kind of node, known by the number zero for sprites and one for text, has a
/// bind group if it had one, and then it is the same one, or if a batch that is drawn is of that kind,
/// and then it is a new one.
pub proof fn law_queued_kinds_have_their_bind_groups(
    events: Seq<ImageEvent>,
    views_are_bound: bool,
    views: Seq<UiPipelineKey>,
    batches: Seq<BatchItem>,
    images: BindGroupTable,
    params: BindGroupTable,
    images_after: BindGroupTable,
    params_after: BindGroupTable,
    r: QueuedUi,
    kind: UiNodeType,
    number: u64,
)
    requires
        can_queue(events, views_are_bound, views, batches, images, params),
        is_queued(
            events,
            views_are_bound,
            views,
            batches,
            images,
            params,
            images_after,
            params_after,
            r,
        ),
        kind == UiNodeType::Sprite ==> number == 0,
        kind == UiNodeType::Text ==> number == 1,
    ensures
        ({
            let had = params@.contains_key(number);
            let shown = views_are_bound && views.len() > 0 && exists|b: int|
                0 <= b < batches.len() && (#[trigger] batches[b]).batch.node_type == kind;
            &&& params_after@.contains_key(number) <==> had || shown
            &&& had ==> params_after@[number] == params@[number]
            &&& shown && !had ==> exists|i: int|
                0 <= i < r.params_groups@.len() && #[trigger] r.params_groups@[i] == (
                    kind,
                    params_after@[number],
                )
            &&& forall|i: int|
                0 <= i < r.params_groups@.len() && (#[trigger] r.params_groups@[i]).0 == kind
                    ==> shown && !had && r.params_groups@[i].1 == params_after@[number]
        }),
        forall|i: int|
            0 <= i < r.params_groups@.len() ==> (#[trigger] r.params_groups@[i]).1 == params.next()
                + i,
        params_after.next() == params.next() + r.params_groups@.len(),
{
    let drawn = drawn_batches(views_are_bound, views, batches);
    let keys = kinds_of(drawn);
    let groups = numbered(r.params_groups@);
    lemma_next_is_a_slot(params);
    law_binding_serves_every_key(params@, params.next(), keys);
    let had = params@.contains_key(number);
    let shown = views_are_bound && views.len() > 0 && exists|b: int|
        0 <= b < batches.len() && (#[trigger] batches[b]).batch.node_type == kind;
    assert(shown == keys.contains(number)) by {
        if shown {
            let b = choose|b: int|
                0 <= b < batches.len() && (#[trigger] batches[b]).batch.node_type == kind;
            assert(keys[b] == number);
        }
        if keys.contains(number) {
            let b = choose|b: int| 0 <= b < keys.len() && keys[b] == number;
            assert(drawn[b].batch.node_type == kind);
        }
    }
    if shown {
        let k = choose|k: int| 0 <= k < keys.len() && keys[k] == number;
        assert(params_after@.contains_key(keys[k]));
    }
    assert forall|i: int| 0 <= i < r.params_groups@.len() implies (
    #[trigger] r.params_groups@[i]).1 == params.next() + i && (r.params_groups@[i].0 == kind
        ==> shown && !had && r.params_groups@[i].1 == params_after@[number]) by {
        assert(groups[i] == (r.params_groups@[i].0.number() as u64, r.params_groups@[i].1));
    }
    if shown && !had {
        law_missing_keys_get_new_slots(params@, params.next(), keys, number);
        let i = choose|i: int|
            #![trigger bound(params@, params.next(), keys).1[i]]
            0 <= i < bound(params@, params.next(), keys).1.len() && bound(
                params@,
                params.next(),
                keys,
            ).1[i] == (number, (params.next() + i) as u64);
        assert(groups[i] == (r.params_groups@[i].0.number() as u64, r.params_groups@[i].1));
        assert(r.params_groups@[i] == (kind, params_after@[number]));
    }
}

/// A frame can be queued as long as there are as many slots left as there are batches.
pub proof fn law_frames_can_be_queued(
    events: Seq<ImageEvent>,
    views_are_bound: bool,
    views: Seq<UiPipelineKey>,
    batches: Seq<BatchItem>,
    images: BindGroupTable,
    params: BindGroupTable,
)
    requires
        images.next() + batches.len() <= u64::MAX,
        params.next() + batches.len() <= u64::MAX,
    ensures
        can_queue(events, views_are_bound, views, batches, images, params),
{
    let drawn = drawn_batches(views_are_bound, views, batches);
    law_room_for_all_keys_is_enough(
        slots_after(images@, events),
        images.next(),
        images_of(drawn),
    );
    law_room_for_all_keys_is_enough(params@, params.next(), kinds_of(drawn));
}

/// Queueing a frame releases the slot of every image that was modified or removed and had one.
pub proof fn law_changed_images_lose_their_slots(
    events: Seq<ImageEvent>,
    views_are_bound: bool,
    views: Seq<UiPipelineKey>,
    batches: Seq<BatchItem>,
    images: BindGroupTable,
    params: BindGroupTable,
    images_after: BindGroupTable,
    params_after: BindGroupTable,
    r: QueuedUi,
    image: u64,
    e: int,
)
    requires
        is_queued(
            events,
            views_are_bound,
            views,
            batches,
            images,
            params,
            images_after,
            params_after,
            r,
        ),
        images@.contains_key(image),
        0 <= e < events.len(),
        events[e] == (ImageEvent::Modified { image }) || events[e] == (ImageEvent::Removed {
            image,
        }),
    ensures
        r.released_slots@.contains(images@[image]),
{
    lemma_outdated_slots_are_released(images@, events, image, e);
}

proof fn lemma_outdated_slots_are_released(
    slots: Map<u64, u64>,
    events: Seq<ImageEvent>,
    image: u64,
    e: int,
)
    requires
        slots.contains_key(image),
        0 <= e < events.len(),
        events[e].outdated() == Some(image),
    ensures
        slots_released(slots, events).contains(slots[image]),
    decreases events.len(),
{
    let rest = events.drop_last();
    let earlier = slots_released(slots, rest);
    let released = slots_released(slots, events);
    law_events_release_what_they_outdate(slots, rest, image);
    if slots_after(slots, rest).contains_key(image) {
        if e < rest.len() {
            assert(rest[e].outdated() == Some(image));
        }
        assert(released[released.len() - 1] == slots[image]);
    } else {
        let d = choose|d: int| 0 <= d < rest.len() && (#[trigger] rest[d]).outdated() == Some(image);
        lemma_outdated_slots_are_released(slots, rest, image, d);
        let n = choose|n: int| 0 <= n < earlier.len() && earlier[n] == slots[image];
        assert(released[n] == slots[image]);
    }
}

/// Queueing a frame releases no other slots than those of images that were modified or removed, each of
/// them once.
pub proof fn law_only_changed_images_lose_their_slots(
    events: Seq<ImageEvent>,
    views_are_bound: bool,
    views: Seq<UiPipelineKey>,
    batches: Seq<BatchItem>,
    images: BindGroupTable,
    params: BindGroupTable,
    images_after: BindGroupTable,
    params_after: BindGroupTable,
    r: QueuedUi,
    n: int,
)
    requires
        images.wf(),
        is_queued(
            events,
            views_are_bound,
            views,
            batches,
            images,
            params,
            images_after,
            params_after,
            r,
        ),
        0 <= n < r.released_slots@.len(),
    ensures
        r.released_slots@.no_duplicates(),
        exists|e: int, image: u64|
            #![trigger events[e], images@.contains_key(image)]
            0 <= e < events.len() && (events[e] == (ImageEvent::Modified { image }) || events[e]
                == (ImageEvent::Removed { image })) && images@.contains_key(image)
                && images@[image] == r.released_slots@[n],
{
    lemma_released_once(images@, images.next(), events);
    law_released_slots_are_no_longer_used(images@, events, n);
    let image = choose|image: u64|
        #![trigger images@.contains_key(image)]
        images@.contains_key(image) && images@[image] == slots_released(images@, events)[n]
            && !slots_after(images@, events).contains_key(image);
    law_events_release_what_they_outdate(images@, events, image);
    let e = choose|e: int|
        0 <= e < events.len() && (#[trigger] events[e]).outdated() == Some(image);
    assert(events[e] == (ImageEvent::Modified { image }) || events[e] == (ImageEvent::Removed {
        image,
    }));
    assert(images@.contains_key(image));
}

proof fn lemma_released_once(slots: Map<u64, u64>, next: int, events: Seq<ImageEvent>)
    requires
        are_slots_below(slots, next),
    ensures
        slots_released(slots, events).no_duplicates(),
    decreases events.len(),
{
    if events.len() > 0 {
        let rest = events.drop_last();
        let left = slots_after(slots, rest);
        let earlier = slots_released(slots, rest);
        lemma_released_once(slots, next, rest);
        if events.last().outdated() is Some && left.contains_key(events.last().outdated()->0) {
            let image = events.last().outdated()->0;
            law_events_release_what_they_outdate(slots, rest, image);
            assert forall|n: int| 0 <= n < earlier.len() implies #[trigger] earlier[n]
                != left[image] by {
                law_released_slots_are_no_longer_used(slots, rest, n);
                let other = choose|other: u64|
                    #![trigger slots.contains_key(other)]
                    slots.contains_key(other) && slots[other] == earlier[n] && !left.contains_key(
                        other,
                    );
                assert(slots.contains_key(image));
            }
        }
    }
}

} // verus!
