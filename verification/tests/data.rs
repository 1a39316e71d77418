use endf::data::{atomic_number, atomic_symbol, gnds_name, reaction_components, sum_rule, zam};

#[test]
fn symbols_and_numbers_round_trip() {
    assert_eq!(atomic_symbol(0).as_deref(), Some("n"));
    assert_eq!(atomic_symbol(95).as_deref(), Some("Am"));
    assert_eq!(atomic_symbol(118).as_deref(), Some("Og"));
    for z in 0..=118u32 {
        let symbol = atomic_symbol(z).unwrap();
        assert_eq!(atomic_number(&symbol), Some(z), "{symbol}");
    }
    assert_eq!(atomic_symbol(119), None);
    assert_eq!(atomic_number("Xx"), None);
}

#[test]
fn gnds_names_round_trip() {
    for (z, a, m, name) in [
        (95, 242, 1, "Am242_m1"),
        (95, 244, 0, "Am244"),
        (1, 1, 0, "H1"),
        (0, 1, 0, "n1"),
    ] {
        assert_eq!(gnds_name(z, a, m), name);
        assert_eq!(zam(name).unwrap(), (z, a, m));
    }
}

#[test]
fn zam_rejects_what_is_not_a_nuclide() {
    for bad in ["", "Am", "242", "_m1", "Am242_x1", "Am242_m", "Xx242"] {
        assert!(zam(bad).is_err(), "{bad:?} should not parse");
    }
    // An excited state uses _e rather than _m and is read the same way.
    assert_eq!(zam("Am242_e2").unwrap(), (95, 242, 2));
}

#[test]
fn sum_rules_are_looked_up_by_mt() {
    assert_eq!(sum_rule(1), Some(vec![2, 3]));
    assert_eq!(sum_rule(18).unwrap(), [19, 20, 21, 38]);
    // MT=4 is the sum of the discrete inelastic levels.
    assert_eq!(sum_rule(4).unwrap().len(), 42);
    assert_eq!(sum_rule(2), None);
}

#[test]
fn an_unknown_element_is_written_as_a_question_mark() {
    assert_eq!(gnds_name(200, 5, 0), "?5");
    assert_eq!(gnds_name(92, 235, 0), "U235");
    assert!(zam("?5").is_err());
}

/// The reactions a Li-6-like evaluation gives: no MT=4, only its levels.
const LI6_LIKE: [i32; 11] = [1, 2, 51, 52, 53, 54, 55, 91, 102, 105, 107];

#[test]
fn a_reaction_given_only_as_levels_is_summed_from_them() {
    assert_eq!(reaction_components(&LI6_LIKE, 4), [51, 52, 53, 54, 55, 91]);
}

#[test]
fn a_reaction_that_is_no_sum_is_its_own_component() {
    assert_eq!(reaction_components(&LI6_LIKE, 2), [2]);
    assert_eq!(reaction_components(&LI6_LIKE, 102), [102]);
}

#[test]
fn a_reaction_that_is_absent_has_no_components() {
    assert!(reaction_components(&LI6_LIKE, 18).is_empty());
    assert!(reaction_components(&LI6_LIKE, 16).is_empty());
    assert!(reaction_components(&[], 1).is_empty());
}

#[test]
fn sum_rules_unfold_through_every_level() {
    // MT=1 is 2 + 3, MT=3 holds MT=4 and MT=27, MT=27 holds MT=101.
    assert_eq!(
        reaction_components(&LI6_LIKE, 1),
        [2, 51, 52, 53, 54, 55, 91, 102, 105, 107]
    );
    // MT=101 holds 102 and the charged-particle sums 105 and 107, which
    // are present themselves since none of their levels are.
    assert_eq!(reaction_components(&LI6_LIKE, 101), [102, 105, 107]);
}

#[test]
fn a_sum_present_with_its_parts_gives_the_parts() {
    let present = [4, 51, 52];
    assert_eq!(reaction_components(&present, 4), [51, 52]);
    // With no level present the sum stands for itself.
    assert_eq!(reaction_components(&[4], 4), [4]);
}

#[test]
fn the_photon_total_is_made_of_the_channels_below_it() {
    let present = [501, 502, 504, 515, 517, 534, 535, 540];
    let components = reaction_components(&present, 501);
    assert_eq!(components, [502, 504, 515, 517, 534, 535, 540]);
    assert!(!components.contains(&501));
}
