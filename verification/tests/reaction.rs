use endf::error::Error;
use endf::reaction::{merge_by_name, reaction_mt, reaction_name, reaction_product_plan, NeutronEnergy, ProductStep};

#[test]
fn names_the_reactions_the_format_names() {
    assert_eq!(reaction_name(2).as_deref(), Some("(n,elastic)"));
    assert_eq!(reaction_name(16).as_deref(), Some("(n,2n)"));
    assert_eq!(reaction_name(102).as_deref(), Some("(n,gamma)"));
    assert_eq!(reaction_name(444).as_deref(), Some("damage-energy"));
    // An MT the format does not assign.
    assert_eq!(reaction_name(999), None);
}

#[test]
fn names_the_level_reactions_by_their_level() {
    // The first inelastic level is MT=51 and is named for level 1.
    assert_eq!(reaction_name(51).as_deref(), Some("(n,n1)"));
    assert_eq!(reaction_name(90).as_deref(), Some("(n,n40)"));
    // MT=91 ends the run and is the continuum, not level 41.
    assert_eq!(reaction_name(91).as_deref(), Some("(n,nc)"));
    assert_eq!(reaction_name(600).as_deref(), Some("(n,p0)"));
    assert_eq!(reaction_name(648).as_deref(), Some("(n,p48)"));
    assert_eq!(reaction_name(649).as_deref(), Some("(n,pc)"));
    assert_eq!(reaction_name(750).as_deref(), Some("(n,3He0)"));
    assert_eq!(reaction_name(875).as_deref(), Some("(n,2n0)"));
    assert_eq!(reaction_name(890).as_deref(), Some("(n,2n15)"));
    assert_eq!(reaction_name(891).as_deref(), Some("(n,2nc)"));
}

#[test]
fn looks_up_reactions_by_name_and_by_alias() {
    assert_eq!(reaction_mt("(n,elastic)"), Some(2));
    assert_eq!(reaction_mt("(n,n3)"), Some(53));
    // The aliases the package adds on top of the format's own names.
    assert_eq!(reaction_mt("total"), Some(1));
    assert_eq!(reaction_mt("elastic"), Some(2));
    assert_eq!(reaction_mt("fission"), Some(18));
    assert_eq!(reaction_mt("absorption"), Some(27));
    assert_eq!(reaction_mt("capture"), Some(102));
    assert_eq!(reaction_mt("(n,nonsense)"), None);
}

#[test]
fn every_name_round_trips_to_its_own_mt() {
    for mt in 0..1200 {
        if let Some(name) = reaction_name(mt) {
            assert_eq!(reaction_mt(&name), Some(mt), "{name} came back wrong");
        }
    }
}

#[test]
fn negative_and_huge_mts_have_no_name() {
    assert_eq!(reaction_name(-1), None);
    assert_eq!(reaction_name(i32::MAX), None);
    assert_eq!(reaction_mt(""), None);
    // A level beyond the run is not a name the table holds.
    assert_eq!(reaction_mt("(n,n41)"), None);
}

#[test]
fn mf6_products_are_taken_in_order() {
    let names = vec!["neutron".to_string(), "photon".to_string(), "Fe55".to_string()];
    let plan = reaction_product_plan(16, 0, true, &names, true, true, false, false).unwrap();
    assert_eq!(plan, [ProductStep::Mf6(0), ProductStep::Mf6(1), ProductStep::Mf6(2)]);
}

#[test]
fn the_fission_neutron_of_mf6_goes_onto_the_first_from_mf1() {
    let names = vec!["photon".to_string(), "neutron".to_string()];
    let plan = reaction_product_plan(18, 3, true, &names, false, false, false, true).unwrap();
    assert_eq!(plan, [ProductStep::Mf6(0), ProductStep::Mf6IntoFission(1), ProductStep::Activation]);
    // With no fission neutron from MF=1, it is added like any other.
    let plan = reaction_product_plan(18, 0, true, &names, false, false, false, false).unwrap();
    assert_eq!(plan, [ProductStep::Mf6(0), ProductStep::Mf6(1)]);
}

#[test]
fn a_neutron_is_built_from_mf4_and_mf5() {
    let none: Vec<String> = Vec::new();
    let plan = reaction_product_plan(2, 0, false, &none, true, false, false, false).unwrap();
    assert_eq!(plan, [ProductStep::Neutron { energy: NeutronEnergy::Elastic, angle: true, into_fission: false }]);
    let plan = reaction_product_plan(51, 0, false, &none, true, false, true, false).unwrap();
    assert_eq!(plan, [ProductStep::Neutron { energy: NeutronEnergy::LevelInelastic, angle: true, into_fission: false }]);
    let plan = reaction_product_plan(91, 0, false, &none, false, true, false, false).unwrap();
    assert_eq!(plan, [ProductStep::Neutron { energy: NeutronEnergy::Mf5, angle: false, into_fission: false }]);
    let plan = reaction_product_plan(22, 0, false, &none, true, false, false, false).unwrap();
    assert_eq!(plan, [ProductStep::Neutron { energy: NeutronEnergy::Absent, angle: true, into_fission: false }]);
    let plan = reaction_product_plan(18, 2, false, &none, true, true, false, false).unwrap();
    assert_eq!(plan, [ProductStep::Neutron { energy: NeutronEnergy::Mf5, angle: true, into_fission: true }]);
    let plan = reaction_product_plan(102, 0, false, &none, false, false, false, true).unwrap();
    assert_eq!(plan, [ProductStep::Activation]);
}

#[test]
fn level_inelastic_scattering_needs_mf1_mt451() {
    let none: Vec<String> = Vec::new();
    assert_eq!(
        reaction_product_plan(60, 0, false, &none, true, false, false, false),
        Err(Error::Unsupported { what: "level inelastic scattering without MF=1 MT=451" })
    );
    // MF=5 gives the energy instead, so MT=451 is not needed.
    assert!(reaction_product_plan(60, 0, false, &none, true, true, false, false).is_ok());
}

#[test]
fn merging_by_name_replaces_the_first_namesake() {
    let names = vec!["neutron".to_string(), "Co60".to_string(), "neutron".to_string()];
    let added = vec!["neutron".to_string(), "Co60_e1".to_string(), "Co60_e1".to_string(), "Co60".to_string()];
    assert_eq!(merge_by_name(&names, &added), [Some(0), None, Some(3), Some(1)]);
    assert!(merge_by_name(&names, &Vec::new()).is_empty());
}
