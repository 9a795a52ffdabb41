use interlink_worldgen::plates::compact_extinct_plates;
use interlink_worldgen::error::WorldgenError;
use interlink_worldgen::plates::{validate_forward_state, ForwardRasterShape, FragmentOwnership};

#[test]
fn extinct_plates_are_removed_and_survivors_renumbered() {
    let mut owners = vec![0u16, 2, 2, 0, 3];
    let mut velocities = vec![[1.0f64, 0.0, 0.0], [0.0, 1.0, 0.0], [0.0, 0.0, 1.0], [0.5, 0.5, 0.0]];
    let removed = compact_extinct_plates(&mut owners, &mut velocities);
    assert_eq!(removed, 1);
    assert_eq!(owners, vec![0, 1, 1, 0, 2]);
    assert_eq!(velocities, vec![[1.0, 0.0, 0.0], [0.0, 0.0, 1.0], [0.5, 0.5, 0.0]]);
}

#[test]
fn nothing_changes_when_every_plate_owns_a_sample() {
    let mut owners = vec![1u16, 0, 7];
    let mut velocities = vec![10u32, 20];
    assert_eq!(compact_extinct_plates(&mut owners, &mut velocities), 0);
    assert_eq!(owners, vec![1, 0, 7]);
    assert_eq!(velocities, vec![10, 20]);
}

#[test]
fn every_plate_can_go_extinct_at_once() {
    let mut owners: Vec<u16> = Vec::new();
    let mut velocities = vec![1u8, 2, 3];
    assert_eq!(compact_extinct_plates(&mut owners, &mut velocities), 3);
    assert!(velocities.is_empty());
}

fn shape(samples: usize, plates: usize) -> ForwardRasterShape {
    ForwardRasterShape {
        crust_kind_len: samples,
        crust_birth_age_len: samples,
        weakness_len: samples,
        weakness_in_unit_interval: true,
        plate_velocity_count: plates,
        velocities_finite: true,
    }
}

fn fragments() -> Vec<FragmentOwnership> {
    vec![
        FragmentOwnership { origin_plate_id: 0, current_plate_id: 0 },
        FragmentOwnership { origin_plate_id: 1, current_plate_id: 1 },
    ]
}

#[test]
fn consistent_forward_state_is_accepted() {
    let result = validate_forward_state(3, &vec![0, 1, 1], &vec![0, 1, 1], &vec![0, 1, 1], shape(3, 2), &fragments(), 2, 2);
    assert_eq!(result, Ok(()));
}

#[test]
fn forward_state_errors_follow_check_order() {
    let tect = |text: &'static str| Err(WorldgenError::InvalidTectonics(text));
    let mut bad_shape = shape(3, 2);
    bad_shape.velocities_finite = false;
    assert_eq!(
        validate_forward_state(3, &vec![0, 1, 1], &vec![0, 1, 1], &vec![0, 1, 1], bad_shape, &fragments(), 2, 2),
        tect("forward plate evolution produced incomplete material rasters")
    );
    assert_eq!(
        validate_forward_state(3, &vec![0, 1], &vec![0, 1, 1], &vec![0, 1, 1], shape(3, 2), &fragments(), 2, 2),
        tect("forward plate evolution produced incomplete material rasters")
    );
    assert_eq!(
        validate_forward_state(3, &vec![0, 1, 1], &vec![0, 2, 1], &vec![0, 1, 1], shape(3, 2), &fragments(), 2, 2),
        tect("forward plate evolution produced an invalid material/owner id")
    );
    assert_eq!(
        validate_forward_state(3, &vec![0, 1, 1], &vec![0, 0, 1], &vec![0, 1, 1], shape(3, 2), &fragments(), 2, 2),
        Err(WorldgenError::InvalidLithosphere("forward plate evolution lost fragment/material ownership consistency"))
    );
    assert_eq!(
        validate_forward_state(2, &vec![0, 0], &vec![0, 0], &vec![0, 0], shape(2, 2), &fragments(), 2, 2),
        tect("forward plate evolution retained an empty plate id after compaction")
    );
}
