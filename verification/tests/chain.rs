use endf::chain::{
    reaction_info, reaction_paths, reactions, replace_missing, replace_missing_fpy, same_element, DecaySummary,
    TransmutationPath,
};

#[test]
fn the_reaction_table_matches_the_format() {
    // A few entries, spot-checked against what the reaction does.
    let two_n = reaction_info("(n,2n)").unwrap();
    assert_eq!((two_n.delta_a, two_n.delta_z), (-1, 0));
    // The level reactions all mean the same transmutation.
    assert!(two_n.mts.contains(&16));
    assert!(two_n.mts.contains(&891));

    let capture = reaction_info("(n,gamma)").unwrap();
    assert_eq!((capture.delta_a, capture.delta_z), (1, 0));
    assert!(capture.secondaries.is_empty());

    let alpha = reaction_info("(n,a)").unwrap();
    assert_eq!((alpha.delta_a, alpha.delta_z), (-3, -2));
    assert_eq!(alpha.secondaries, ["He4"]);

    assert!(reaction_info("(n,nonsense)").is_none());

    // Every reaction conserves nucleons: the change in A plus what the
    // secondaries carry away accounts for the incident neutron.
    for rx in &reactions() {
        let carried: i64 = rx
            .secondaries
            .iter()
            .map(|s| match s.as_str() {
                "H1" => 1,
                "H2" => 2,
                "H3" => 3,
                "He3" => 3,
                "He4" => 4,
                other => panic!("unexpected secondary {other}"),
            })
            .sum();
        assert!(
            rx.delta_a + carried <= 1,
            "{} gains nucleons from nowhere",
            rx.name
        );
    }
}

#[test]
fn a_missing_product_walks_to_one_the_library_has() {
    // An empty library has nothing to walk to, and the walk stops rather
    // than running off the table.
    let empty: Vec<DecaySummary> = Vec::new();
    assert_eq!(replace_missing("Cd116", &empty), None);
    // A neutron has no stand-in at all.
    assert_eq!(replace_missing("n1", &empty), None);
}

fn decay(name: &str, stable: bool, half_life: f64) -> DecaySummary {
    DecaySummary {
        name: name.to_string(),
        stable,
        half_life_key: if half_life > 0.0 { half_life.to_bits() } else { 0 },
    }
}

#[test]
fn the_reaction_table_holds_every_transmutation_once() {
    let all = reactions();
    assert_eq!(all.len(), 84);
    assert_eq!(all[0].name, "(n,2nd)");
    assert_eq!(all[83].name, "(n,5n2p)");
    let p = reaction_info("(n,p)").unwrap();
    assert_eq!(p.mts.len(), 51);
    assert_eq!(p.mts[0], 103);
    assert_eq!(p.mts[50], 649);
    let n3a = reaction_info("(n,n3a)").unwrap();
    assert_eq!(n3a.secondaries, ["He4", "He4", "He4"]);
    assert_eq!((n3a.delta_a, n3a.delta_z), (-12, -6));
}

#[test]
fn isotopes_of_an_element_are_recognised() {
    assert_eq!(same_element("Cd116", "Cd"), Some((116, false)));
    assert_eq!(same_element("Am242_m1", "Am"), Some((242, true)));
    // Another element that happens to start with the same letters.
    assert_eq!(same_element("Cd116", "C"), None);
    assert_eq!(same_element("Cd", "Cd"), None);
    assert_eq!(same_element("Cd116x", "Cd"), None);
}

#[test]
fn a_missing_product_walks_towards_the_longest_lived_isotope() {
    // Sn116 is stable and lighter than Cd119, whose element's only isotope in
    // the data is stable at A=114: so the walk goes up in Z at fixed A.
    let data = vec![
        decay("Cd114", true, 0.0),
        decay("In119", false, 144.0),
        decay("Sn119", true, 0.0),
    ];
    assert_eq!(replace_missing("Cd119", &data).as_deref(), Some("In119"));
    // A metastable product starts from its ground state.
    assert_eq!(replace_missing("In119_m1", &data).as_deref(), Some("In119"));
    // A product the data holds is its own stand-in.
    assert_eq!(replace_missing("Sn119", &data).as_deref(), Some("Sn119"));
    // Heavier than the longest-lived isotope: beta-minus, so Z goes up.
    let data = vec![
        decay("Cd112", false, 10.0),
        decay("Cd113", false, 1.0e9),
        decay("Sn115", true, 0.0),
    ];
    assert_eq!(replace_missing("Cd113_m1", &data).as_deref(), Some("Cd113"));
    assert_eq!(replace_missing("Cd115", &data).as_deref(), Some("Sn115"));
    // An element the data has no isotope of walks down in Z.
    assert_eq!(replace_missing("In113", &data).as_deref(), Some("Cd113"));
    // Above Z=98 the walk goes by alpha decay.
    let data = vec![decay("Cf248", false, 3.0e7)];
    assert_eq!(replace_missing("Fm252", &data).as_deref(), Some("Cf248"));
    // Not a nuclide name at all.
    assert_eq!(replace_missing("banana", &data), None);
}

#[test]
fn a_missing_actinide_borrows_yields_from_a_neighbour() {
    let fpy = vec!["U235".to_string(), "Pu239".to_string(), "Am242_m1".to_string()];
    let empty: Vec<DecaySummary> = Vec::new();
    // The metastable state is tried first.
    assert_eq!(replace_missing_fpy("Am242", &fpy, &empty), "Am242_m1");
    // With no decay data the isotones cannot be walked, so U235 it is.
    assert_eq!(replace_missing_fpy("Cm245", &fpy, &empty), "U235");
    assert_eq!(replace_missing_fpy("banana", &fpy, &empty), "U235");
    // Np238 is in the decay data, so the walk reaches its isotone Pu239.
    let data = vec![decay("Np238", false, 1.8e5)];
    assert_eq!(replace_missing_fpy("Np238", &fpy, &data), "Pu239");
    // Downwards: Am240 is in the data; Pu239 is its isotone below.
    let data = vec![decay("Am240", false, 1.8e5)];
    assert_eq!(replace_missing_fpy("Am240", &fpy, &data), "Pu239");
}

fn available(sections: &[(i32, &str)]) -> Vec<(i32, String)> {
    sections.iter().map(|(mt, q)| (*mt, q.to_string())).collect()
}

fn names(v: &[&str]) -> Vec<String> {
    v.iter().map(|s| s.to_string()).collect()
}

#[test]
fn reactions_follow_the_evaluation_and_fission_comes_last() {
    let decay_data = vec![
        decay("U237", false, 5.8e5),
        decay("U238", false, 1.4e17),
        decay("U239", false, 1.4e3),
    ];
    let (paths, fissionable) = reaction_paths(
        92,
        238,
        &available(&[(16, "-6.15200+6"), (18, " 1.93700+8"), (102, " 4.80600+6")]),
        &names(&["(n,2n)", "(n,3n)", "(n,gamma)", "(n,nonsense)"]),
        &decay_data,
    );
    assert!(fissionable);
    assert_eq!(
        paths,
        vec![
            TransmutationPath {
                kind: "(n,2n)".to_string(),
                target: Some("U237".to_string()),
                q_value: Some("-6.15200+6".to_string()),
            },
            TransmutationPath {
                kind: "(n,gamma)".to_string(),
                target: Some("U239".to_string()),
                q_value: Some(" 4.80600+6".to_string()),
            },
            TransmutationPath { kind: "fission".to_string(), target: None, q_value: Some(" 1.93700+8".to_string()) },
        ]
    );
}

#[test]
fn a_level_mt_stands_for_its_reaction_and_a_missing_target_is_replaced() {
    // Only the second level of (n,2n) is given; Am241 has no decay data, so
    // the walk goes towards the longest-lived Am isotope's side.
    let decay_data = vec![decay("Am242", false, 5.8e4), decay("Am243", false, 2.3e11)];
    let (paths, fissionable) =
        reaction_paths(95, 242, &available(&[(876, " 1.0+0")]), &names(&["(n,2n)"]), &decay_data);
    assert!(!fissionable);
    assert_eq!(paths.len(), 1);
    assert_eq!(paths[0].q_value.as_deref(), Some(" 1.0+0"));
    assert_eq!(paths[0].target, replace_missing("Am241", &decay_data));
}

#[test]
fn fission_without_mt_18_has_no_q_value() {
    let (paths, fissionable) = reaction_paths(94, 239, &available(&[(19, " 2.0+8")]), &names(&[]), &vec![]);
    assert!(fissionable);
    assert_eq!(paths, vec![TransmutationPath { kind: "fission".to_string(), target: None, q_value: None }]);
}

#[test]
fn a_nuclide_without_an_evaluation_has_no_reactions() {
    let (paths, fissionable) = reaction_paths(26, 56, &vec![], &names(&["(n,gamma)"]), &vec![]);
    assert!(paths.is_empty());
    assert!(!fissionable);
}

#[test]
fn the_first_mt_of_a_reaction_in_table_order_gives_its_q_value() {
    let decay_data = vec![decay("Am241", false, 1.4e10)];
    let (paths, _) =
        reaction_paths(95, 242, &available(&[(877, " 3.0+0"), (876, " 1.0+0")]), &names(&["(n,2n)"]), &decay_data);
    assert_eq!(paths[0].q_value.as_deref(), Some(" 1.0+0"));
    assert_eq!(paths[0].target.as_deref(), Some("Am241"));
}

#[test]
fn every_target_is_a_nuclide_of_the_decay_data() {
    let decay_data = vec![
        decay("Np237", false, 6.7e13),
        decay("U235", false, 2.2e16),
        decay("U236", false, 7.4e14),
        decay("U238", false, 1.4e17),
    ];
    let (paths, _) = reaction_paths(
        92,
        238,
        &available(&[(16, " 1.0+0"), (17, " 1.0+0"), (102, " 1.0+0"), (18, " 1.0+0")]),
        &names(&["(n,2n)", "(n,3n)", "(n,gamma)"]),
        &decay_data,
    );
    assert_eq!(paths.len(), 4);
    for p in &paths {
        if let Some(t) = &p.target {
            assert!(decay_data.iter().any(|d| &d.name == t), "{t} is not in the decay data");
        }
    }
    // U236 is there; U237 and U239 are not, and neither walk ends at a
    // nuclide the data holds.
    assert_eq!(paths[1].target.as_deref(), Some("U236"));
    assert_eq!(paths[0].target, replace_missing("U237", &decay_data));
    assert_eq!(paths[2].target, replace_missing("U239", &decay_data));
}
