use bevy_ui_render::bind_groups::{BindGroupTable, UiImageBindGroups, UiParamsBindGroups};
use bevy_ui_render::extract::UiNodeType;
use bevy_ui_render::prepare::UiBatch;
use bevy_ui_render::queue::{
    queue_uinodes, BatchItem, ImageEvent, QueuedUi, TransparentUi, UiPipelineKey,
};
use bevy_ui_render::scalar::Scalar;

fn item(entity: u64, image: u64, node_type: UiNodeType, z: f32) -> BatchItem {
    BatchItem {
        entity,
        batch: UiBatch {
            range: 0..6,
            image,
            node_type,
            z: Scalar { bits: z.to_bits() },
        },
    }
}

fn batches() -> Vec<BatchItem> {
    vec![
        item(100, 1, UiNodeType::Sprite, 0.5),
        item(101, 2, UiNodeType::Text, 1.5),
        item(102, 1, UiNodeType::Text, 2.5),
    ]
}

fn one_view() -> Vec<UiPipelineKey> {
    vec![UiPipelineKey { hdr: false }]
}

fn queue(
    events: Vec<ImageEvent>,
    images: &mut UiImageBindGroups,
    params: &mut UiParamsBindGroups,
) -> QueuedUi {
    queue_uinodes(&events, true, &one_view(), &batches(), images, params)
}

#[test]
fn a_table_gives_out_each_slot_once() {
    let mut table = BindGroupTable::new();
    assert_eq!(table.slot(5), None);
    assert_eq!(table.bind(5), Some(0));
    assert_eq!(table.bind(6), Some(1));
    assert_eq!(table.bind(5), None);
    assert_eq!(table.slot(5), Some(0));
    assert_eq!(table.release(5), Some(0));
    assert_eq!(table.release(5), None);
    assert_eq!(table.slot(5), None);
    assert_eq!(table.slot(6), Some(1));
    assert_eq!(table.bind(5), Some(2));
    assert_eq!(table.next_slot(), 3);
}

#[test]
fn queued_batches_are_bound() {
    let mut images = UiImageBindGroups::default();
    let mut params = UiParamsBindGroups::default();
    let queued = queue(vec![], &mut images, &mut params);
    assert_eq!(queued.image_groups, vec![(1, 0), (2, 1)]);
    assert_eq!(queued.params_groups, vec![(UiNodeType::Sprite, 0), (UiNodeType::Text, 1)]);
    assert!(queued.released_slots.is_empty());
    assert_eq!(images.values.slot(1), Some(0));
    assert_eq!(images.values.slot(2), Some(1));
    assert_eq!(params.values.slot(0), Some(0));
    assert_eq!(params.values.slot(1), Some(1));
}

#[test]
fn bind_groups_are_made_once() {
    let mut images = UiImageBindGroups::default();
    let mut params = UiParamsBindGroups::default();
    queue(vec![], &mut images, &mut params);
    let again = queue(vec![], &mut images, &mut params);
    assert!(again.image_groups.is_empty());
    assert!(again.params_groups.is_empty());
    assert_eq!(again.phases.len(), 1);
    assert_eq!(again.phases[0].items.len(), 3);
}

#[test]
fn changed_images_are_bound_anew() {
    let mut images = UiImageBindGroups::default();
    let mut params = UiParamsBindGroups::default();
    queue(vec![], &mut images, &mut params);
    let modified = queue(vec![ImageEvent::Modified { image: 1 }], &mut images, &mut params);
    assert_eq!(modified.released_slots, vec![0]);
    assert_eq!(modified.image_groups, vec![(1, 2)]);
    let removed = queue(vec![ImageEvent::Removed { image: 2 }], &mut images, &mut params);
    assert_eq!(removed.released_slots, vec![1]);
    assert_eq!(removed.image_groups, vec![(2, 3)]);
    assert_eq!(images.values.slot(1), Some(2));
}

#[test]
fn created_and_unknown_images_release_nothing() {
    let mut images = UiImageBindGroups::default();
    let mut params = UiParamsBindGroups::default();
    queue(vec![], &mut images, &mut params);
    let events = vec![
        ImageEvent::Created { image: 1 },
        ImageEvent::Modified { image: 77 },
        ImageEvent::Removed { image: 78 },
    ];
    let queued = queue(events, &mut images, &mut params);
    assert!(queued.released_slots.is_empty());
    assert!(queued.image_groups.is_empty());
    assert_eq!(images.values.slot(1), Some(0));
}

#[test]
fn an_image_is_released_once() {
    let mut images = UiImageBindGroups::default();
    let mut params = UiParamsBindGroups::default();
    queue(vec![], &mut images, &mut params);
    let events = vec![ImageEvent::Modified { image: 2 }, ImageEvent::Removed { image: 2 }];
    let queued = queue(events, &mut images, &mut params);
    assert_eq!(queued.released_slots, vec![1]);
}

#[test]
fn every_view_draws_every_batch() {
    let mut images = UiImageBindGroups::default();
    let mut params = UiParamsBindGroups::default();
    let views = vec![UiPipelineKey { hdr: true }, UiPipelineKey { hdr: false }];
    let queued = queue_uinodes(&vec![], true, &views, &batches(), &mut images, &mut params);
    assert_eq!(queued.phases.len(), 2);
    assert_eq!(queued.phases[0].pipeline_key, UiPipelineKey { hdr: true });
    assert_eq!(queued.phases[1].pipeline_key, UiPipelineKey { hdr: false });
    for phase in &queued.phases {
        assert_eq!(phase.items.len(), 3);
        let sort_key = Scalar { bits: 1.5f32.to_bits() };
        assert_eq!(phase.items[1], TransparentUi { entity: 101, sort_key });
    }
    assert_eq!(queued.image_groups.len(), 2);
}

#[test]
fn nothing_is_queued_before_the_views_are_bound() {
    let mut images = UiImageBindGroups::default();
    let mut params = UiParamsBindGroups::default();
    images.values.bind(1);
    let events = vec![ImageEvent::Removed { image: 1 }];
    let queued = queue_uinodes(&events, false, &one_view(), &batches(), &mut images, &mut params);
    assert_eq!(queued.released_slots, vec![0]);
    assert!(queued.phases.is_empty());
    assert!(queued.image_groups.is_empty());
    assert!(queued.params_groups.is_empty());
    assert_eq!(images.values.slot(1), None);
}

#[test]
fn without_views_nothing_is_bound() {
    let mut images = UiImageBindGroups::default();
    let mut params = UiParamsBindGroups::default();
    let queued = queue_uinodes(&vec![], true, &vec![], &batches(), &mut images, &mut params);
    assert!(queued.phases.is_empty());
    assert!(queued.image_groups.is_empty());
    assert_eq!(images.values.next_slot(), 0);
}
