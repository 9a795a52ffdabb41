use interlink_worldgen::error::WorldgenError;
use interlink_worldgen::fragment_split::{split_fragments_at_final_boundaries, FragmentRecord};
use interlink_worldgen::historical::{validate_lineage, FragmentLineage};

fn record(id: u16, parent: Option<u16>, origin: u16, current: u16, seed: u32, count: u32) -> FragmentRecord {
    FragmentRecord {
        id,
        parent_fragment_id: parent,
        origin_plate_id: origin,
        current_plate_id: current,
        seed_sample: seed,
        sample_count: count,
    }
}

fn lineage(fragments: &[FragmentRecord]) -> Vec<FragmentLineage> {
    fragments
        .iter()
        .map(|f| FragmentLineage { id: f.id, parent_fragment_id: f.parent_fragment_id, origin_plate_id: f.origin_plate_id })
        .collect()
}

#[test]
fn straddling_fragment_splits_into_one_child_per_plate() {
    let fragments = vec![record(0, None, 4, 0, 0, 3), record(1, Some(0), 4, 1, 3, 2)];
    let fragment_ids = vec![0u16, 0, 0, 1, 1];
    let current = vec![2u16, 0, 2, 1, 1];
    let split = split_fragments_at_final_boundaries(&fragments, &fragment_ids, &current).unwrap();
    assert_eq!(split.fragment_ids, vec![3, 2, 3, 1, 1]);
    assert_eq!(split.fragments.len(), 4);
    assert_eq!(split.fragments[0], fragments[0]);
    assert_eq!(split.fragments[1], fragments[1]);
    assert_eq!(split.fragments[2], record(2, Some(0), 4, 0, 1, 1));
    assert_eq!(split.fragments[3], record(3, Some(0), 4, 2, 0, 2));
}

#[test]
fn fragment_on_one_plate_takes_that_plate() {
    let fragments = vec![record(0, None, 1, 5, 0, 2), record(1, None, 2, 6, 2, 0)];
    let fragment_ids = vec![0u16, 0];
    let current = vec![3u16, 3];
    let split = split_fragments_at_final_boundaries(&fragments, &fragment_ids, &current).unwrap();
    assert_eq!(split.fragment_ids, vec![0, 0]);
    assert_eq!(split.fragments, vec![record(0, None, 1, 3, 0, 2), record(1, None, 2, 6, 2, 0)]);
}

#[test]
fn children_of_several_fragments_follow_fragment_then_plate_order() {
    let fragments = vec![record(0, None, 0, 0, 0, 2), record(1, None, 1, 1, 2, 2)];
    let fragment_ids = vec![1u16, 0, 1, 0];
    let current = vec![7u16, 4, 1, 9];
    let split = split_fragments_at_final_boundaries(&fragments, &fragment_ids, &current).unwrap();
    assert_eq!(split.fragment_ids, vec![5, 2, 4, 3]);
    assert_eq!(split.fragments[2], record(2, Some(0), 0, 4, 1, 1));
    assert_eq!(split.fragments[3], record(3, Some(0), 0, 9, 3, 1));
    assert_eq!(split.fragments[4], record(4, Some(1), 1, 1, 2, 1));
    assert_eq!(split.fragments[5], record(5, Some(1), 1, 7, 0, 1));
}

#[test]
fn split_keeps_a_valid_lineage_valid_and_ownership_consistent() {
    let fragments = vec![record(0, None, 0, 0, 0, 4), record(1, Some(0), 0, 1, 4, 2), record(2, None, 3, 2, 6, 1)];
    let fragment_ids = vec![0u16, 0, 0, 0, 1, 1, 2];
    let current = vec![0u16, 1, 0, 2, 1, 2, 2];
    assert_eq!(validate_lineage(&lineage(&fragments), &fragment_ids, &vec![]), Ok(()));
    let split = split_fragments_at_final_boundaries(&fragments, &fragment_ids, &current).unwrap();
    assert_eq!(validate_lineage(&lineage(&split.fragments), &split.fragment_ids, &vec![]), Ok(()));
    for (sample, &fragment) in split.fragment_ids.iter().enumerate() {
        let owner = &split.fragments[fragment as usize];
        assert_eq!(owner.current_plate_id, current[sample]);
        assert_eq!(owner.origin_plate_id, fragments[fragment_ids[sample] as usize].origin_plate_id);
    }
}

#[test]
fn split_is_refused_when_fragment_ids_run_out() {
    let fragments: Vec<FragmentRecord> = (0..65533u32).map(|i| record(i as u16, None, 0, 0, 0, 0)).collect();
    let fragment_ids = vec![7u16, 7];
    let current = vec![0u16, 1];
    assert_eq!(
        split_fragments_at_final_boundaries(&fragments, &fragment_ids, &current).err(),
        Some(WorldgenError::InvalidLithosphere("forward plate evolution exhausted fragment id capacity"))
    );
    let fewer = &fragments[..65532];
    let split = split_fragments_at_final_boundaries(&fewer.to_vec(), &fragment_ids, &current).unwrap();
    assert_eq!(split.fragment_ids, vec![65532, 65533]);
}

#[test]
fn full_fragment_table_is_accepted_when_nothing_splits() {
    let fragments: Vec<FragmentRecord> = (0..65535u32).map(|i| record(i as u16, None, 0, 0, 0, 0)).collect();
    let fragment_ids = vec![3u16, 3];
    let current = vec![1u16, 1];
    let split = split_fragments_at_final_boundaries(&fragments, &fragment_ids, &current).unwrap();
    assert_eq!(split.fragments.len(), 65535);
    assert_eq!(split.fragments[3].current_plate_id, 1);
}
