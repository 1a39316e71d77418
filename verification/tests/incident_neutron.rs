use endf::incident_neutron::{redundant_reactions, sums_from_ace};

#[test]
fn photon_production_and_level_reactions_are_completed_as_sums() {
    let present = vec![1, 2, 51, 52, 102, 301, 600, 601, 650, 875, 876];
    // Photons are produced by MT=4, which the table gives only as levels,
    // and by capture, which it has.
    let sums = sums_from_ace(&present, &vec![4, 102]);
    assert_eq!(sums, vec![(4, vec![51, 52]), (16, vec![875, 876]), (103, vec![600, 601]), (104, vec![650])]);
}

#[test]
fn a_sum_built_earlier_is_part_of_a_later_one() {
    // MT=103 is built from its levels; nothing later contains it, but it is
    // present once built, so it is not built twice.
    let present = vec![600, 601];
    let sums = sums_from_ace(&present, &vec![103, 103]);
    assert_eq!(sums, vec![(103, vec![600, 601])]);
}

#[test]
fn photon_production_with_no_parts_has_nothing_to_sum() {
    let sums = sums_from_ace(&vec![2, 102], &vec![4, 5]);
    assert!(sums.is_empty());
}

#[test]
fn sums_and_the_damage_reactions_are_redundant() {
    let present = vec![1, 2, 4, 16, 51, 52, 102, 103, 104, 301, 444, 600, 601, 650, 875, 876];
    assert_eq!(redundant_reactions(&present), vec![1, 4, 16, 103, 104, 444]);
}

#[test]
fn a_sum_with_none_of_its_parts_is_not_redundant() {
    // MT=4 with no levels stands for itself.
    assert!(redundant_reactions(&vec![2, 4, 102]).is_empty());
}
