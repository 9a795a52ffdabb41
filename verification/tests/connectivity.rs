use interlink_worldgen::connectivity::{pieces_by_size, remnant_fate, RemnantFate};

#[test]
fn pieces_are_ranked_by_size_then_label() {
    assert_eq!(pieces_by_size(&vec![3, 9, 3, 1, 9]), vec![1, 4, 0, 2, 3]);
    assert_eq!(pieces_by_size(&vec![]), Vec::<u32>::new());
    assert_eq!(pieces_by_size(&vec![5]), vec![0]);
}

#[test]
fn substantial_remnant_becomes_a_microplate_while_slots_remain() {
    // 16 samples and a quarter of the 64-sample primary piece
    assert_eq!(remnant_fate(16, 64, Some(3), Some(4), 10, 24), RemnantFate::Microplate);
    // no slot left: it joins the plate it touches most
    assert_eq!(remnant_fate(16, 64, Some(3), Some(4), 24, 24), RemnantFate::Accrete(4));
    assert_eq!(remnant_fate(16, 64, Some(3), None, 24, 24), RemnantFate::Stays);
}

#[test]
fn small_scraps_accrete_preferring_convergence() {
    // 15 samples are too few; 16 samples under a quarter of 65 are too small
    assert_eq!(remnant_fate(15, 20, Some(3), Some(4), 10, 24), RemnantFate::Accrete(3));
    assert_eq!(remnant_fate(16, 65, None, Some(4), 10, 24), RemnantFate::Accrete(4));
    assert_eq!(remnant_fate(2, 100, None, None, 10, 24), RemnantFate::Microplate);
    assert_eq!(remnant_fate(2, 100, None, None, 24, 24), RemnantFate::Stays);
}
