use interlink_worldgen::events::{build_event_skeletons, capture_order, pair_representatives, EventSkeleton};
use interlink_worldgen::fnv::mix64;
use interlink_worldgen::geology::{BoundaryEdge, NormalBand, PlateBoundaryKind};
use interlink_worldgen::historical::HistoricalEventKind;

fn edge(plate_a: u16, plate_b: u16, sample_a: u32, sample_b: u32, kind: PlateBoundaryKind) -> BoundaryEdge {
    BoundaryEdge {
        sample_a,
        sample_b,
        plate_a,
        plate_b,
        kind,
        converging: kind == PlateBoundaryKind::Convergent,
        normal_band: NormalBand::AtLeastHalf,
    }
}

fn edges() -> Vec<BoundaryEdge> {
    vec![
        edge(2, 1, 0, 1, PlateBoundaryKind::Convergent),
        edge(0, 1, 2, 3, PlateBoundaryKind::Divergent),
        edge(1, 2, 4, 5, PlateBoundaryKind::Transform),
        edge(0, 1, 6, 7, PlateBoundaryKind::Convergent),
    ]
}

#[test]
fn representatives_are_first_edges_in_pair_order() {
    assert_eq!(pair_representatives(&edges()), vec![1, 0]);
    assert_eq!(pair_representatives(&vec![]), Vec::<usize>::new());
}

#[test]
fn captures_follow_group_then_plate_order() {
    assert_eq!(capture_order(&vec![0, 0, 2]), vec![1]);
    assert_eq!(capture_order(&vec![3, 1, 3, 1, 3]), vec![3, 2, 4]);
    assert_eq!(capture_order(&vec![0, 1, 2]), Vec::<usize>::new());
}

#[test]
fn event_skeletons_list_boundary_events_then_captures() {
    let seed = 0x1234u64;
    let fragment_ids: Vec<u16> = (10..18).collect();
    let crust_kind = vec![1u8, 3, 1, 1, 3, 3, 1, 1];
    let plate_ids = vec![2u16, 1, 0, 1, 1, 2, 0, 1];
    let groups = vec![0u16, 0, 2];
    let seed_samples = vec![100u32, 101, 102];
    let events = build_event_skeletons(&edges(), &fragment_ids, &crust_kind, &groups, &plate_ids, &seed_samples, seed);

    let pair_stream = |a: u64, b: u64| {
        seed ^ a.wrapping_mul(0x9e37_79b9_7f4a_7c15) ^ b.wrapping_mul(0xbf58_476d_1ce4_e5b9)
    };
    let first = pair_stream(0, 1);
    let second = pair_stream(1, 2);
    let capture = seed ^ 0u64.wrapping_mul(0xd6e8_feb8_6659_fd93) ^ 1u64.wrapping_mul(0xa5a3_56d9_2d85_85ad);
    assert_eq!(
        events,
        vec![
            EventSkeleton {
                id: 0,
                kind: HistoricalEventKind::Spreading,
                epoch: (mix64(first) % 8) as u8,
                stream: first,
                plate_a: 0,
                plate_b: 1,
                fragment_a: 12,
                fragment_b: 13,
                geometry_sample_a: 2,
                geometry_sample_b: 3,
                boundary: Some(1),
            },
            EventSkeleton {
                id: 1,
                kind: HistoricalEventKind::Accretion,
                epoch: (mix64(second) % 8) as u8,
                stream: second,
                plate_a: 1,
                plate_b: 2,
                fragment_a: 10,
                fragment_b: 11,
                geometry_sample_a: 0,
                geometry_sample_b: 1,
                boundary: Some(0),
            },
            EventSkeleton {
                id: 2,
                kind: HistoricalEventKind::Capture,
                epoch: 0,
                stream: capture,
                plate_a: 0,
                plate_b: 1,
                fragment_a: 12,
                fragment_b: 11,
                geometry_sample_a: 100,
                geometry_sample_b: 101,
                boundary: None,
            },
        ]
    );
}

#[test]
fn a_captured_plate_without_samples_takes_the_anchor_fragment() {
    let fragment_ids = vec![5u16, 5, 6];
    let plate_ids = vec![0u16, 0, 0];
    let events = build_event_skeletons(&vec![], &fragment_ids, &vec![1, 1, 1], &vec![0, 0], &plate_ids, &vec![7, 8], 9);
    assert_eq!(events.len(), 1);
    assert_eq!(events[0].fragment_a, 5);
    assert_eq!(events[0].fragment_b, 5);
    assert_eq!((events[0].plate_a, events[0].plate_b), (0, 1));
}
