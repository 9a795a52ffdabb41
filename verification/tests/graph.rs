use interlink_worldgen::error::WorldgenError;
use interlink_worldgen::graph::{
    component_sizes, count_marked, label_components, plate_core_samples, reach_within, smooth_mask,
    smoothing_rounds, spatial_side_connected, validate_nonempty, Adjacency, NO_COMPONENT,
};

fn chain(count: usize) -> Adjacency {
    let mut neighbors = vec![Vec::new(); count];
    for i in 0..count - 1 {
        neighbors[i].push((i + 1) as u32);
        neighbors[i + 1].push(i as u32);
    }
    Adjacency { neighbors }
}

#[test]
fn sample_count_is_the_number_of_rows() {
    assert_eq!(chain(5).sample_count(), 5);
}

#[test]
fn reach_stops_at_disallowed_samples() {
    let adjacency = chain(4);
    let seen = reach_within(&adjacency, &vec![true, true, false, true], 0);
    assert_eq!(seen, vec![true, true, false, false]);
    let seen = reach_within(&adjacency, &vec![true, true, true, true], 3);
    assert_eq!(seen, vec![true, true, true, true]);
}

#[test]
fn count_marked_counts_set_entries() {
    assert_eq!(count_marked(&vec![true, false, true, true]), 3);
    assert_eq!(count_marked(&vec![]), 0);
}

#[test]
fn side_connectivity_requires_one_piece_of_the_expected_size() {
    let adjacency = chain(4);
    let owners = vec![5, 5, 5, 5];
    let side = vec![true, true, false, true];
    assert!(!spatial_side_connected(&adjacency, 5, &owners, &side, true, 3));
    assert!(spatial_side_connected(&adjacency, 5, &owners, &side, true, 2));
    assert!(spatial_side_connected(&adjacency, 5, &owners, &side, false, 1));
    assert!(!spatial_side_connected(&adjacency, 6, &owners, &side, true, 0));
}

#[test]
fn smoothing_takes_the_local_majority() {
    let adjacency = chain(4);
    assert_eq!(smooth_mask(&adjacency, &vec![true, false, true, true], 1), vec![true, true, true, true]);
    // a tie keeps the sample's own value
    assert_eq!(smooth_mask(&adjacency, &vec![true, false, false, false], 1), vec![true, false, false, false]);
    assert_eq!(smooth_mask(&adjacency, &vec![false, true, false, false], 1), vec![false, false, false, false]);
    assert_eq!(smooth_mask(&adjacency, &vec![false, true, true, false], 0), vec![false, true, true, false]);
}

#[test]
fn smoothing_leaves_uniform_masks_alone() {
    let adjacency = chain(6);
    assert_eq!(smooth_mask(&adjacency, &vec![true; 6], 5), vec![true; 6]);
    assert_eq!(smooth_mask(&adjacency, &vec![false; 6], 5), vec![false; 6]);
}

#[test]
fn smoothing_rounds_double_per_level_between_four_and_seven() {
    assert_eq!(smoothing_rounds(0), (1, 3));
    assert_eq!(smoothing_rounds(4), (1, 3));
    assert_eq!(smoothing_rounds(5), (2, 6));
    assert_eq!(smoothing_rounds(6), (4, 12));
    assert_eq!(smoothing_rounds(7), (8, 24));
    assert_eq!(smoothing_rounds(255), (8, 24));
}

#[test]
fn validation_reports_invalid_owners_before_empty_plates() {
    assert_eq!(validate_nonempty(&vec![0, 1, 1], 2), Ok(()));
    assert_eq!(
        validate_nonempty(&vec![0, 1, 1], 3),
        Err(WorldgenError::InvalidTectonics("material-aware boundary synthesis eliminated a modern plate"))
    );
    assert_eq!(
        validate_nonempty(&vec![0, 3], 3),
        Err(WorldgenError::InvalidTectonics("material-aware boundary synthesis produced an invalid owner"))
    );
}

#[test]
fn plate_cores_have_the_most_same_plate_neighbors() {
    let adjacency = chain(4);
    let owners = vec![0, 0, 0, 1];
    assert_eq!(plate_core_samples(&adjacency, &owners, 3), vec![Some(1), Some(3), None]);
    // ties go to the lowest sample index
    let owners = vec![2, 2, 1, 1];
    assert_eq!(plate_core_samples(&adjacency, &owners, 3), vec![None, Some(2), Some(0)]);
}

#[test]
fn components_are_labelled_from_their_smallest_sample() {
    let adjacency = chain(6);
    let (labels, count) = label_components(&adjacency, &vec![true, true, false, true, false, true]);
    assert_eq!(count, 3);
    assert_eq!(labels, vec![0, 0, NO_COMPONENT, 1, NO_COMPONENT, 2]);
    assert_eq!(component_sizes(&labels, count), vec![2, 1, 1]);
}

#[test]
fn a_ring_is_one_component() {
    let mut adjacency = chain(5);
    adjacency.neighbors[0].push(4);
    adjacency.neighbors[4].push(0);
    let (labels, count) = label_components(&adjacency, &vec![true, true, false, true, true]);
    assert_eq!(count, 1);
    assert_eq!(labels, vec![0, 0, NO_COMPONENT, 0, 0]);
    assert_eq!(component_sizes(&labels, count), vec![4]);
}

#[test]
fn an_empty_mask_has_no_components() {
    let adjacency = chain(3);
    let (labels, count) = label_components(&adjacency, &vec![false; 3]);
    assert_eq!(count, 0);
    assert_eq!(labels, vec![NO_COMPONENT; 3]);
    assert!(component_sizes(&labels, count).is_empty());
}

#[test]
fn adjacency_is_checked_on_construction() {
    let valid = Adjacency::new(vec![vec![1], vec![0, 2], vec![1]]).unwrap();
    assert_eq!(valid.neighbors, vec![vec![1], vec![0, 2], vec![1]]);
    assert!(Adjacency::new(vec![vec![1], vec![3]]).is_none());
    assert_eq!(Adjacency::new(Vec::new()).map(|a| a.neighbors.len()), Some(0));
}
