use endf::chain::{DecaySummary, TransmutationPath};
use endf::depletion::{chain_nuclides, chain_target, decay_library, DecayRecord, YieldSource};

fn rec(name: &str, z: i32, a: i32, half_life: f64, modes: &[(&str, Option<&str>)]) -> DecayRecord {
    DecayRecord {
        summary: DecaySummary {
            name: name.to_string(),
            stable: half_life == 0.0,
            half_life_key: if half_life > 0.0 { half_life.to_bits() } else { 0 },
        },
        z,
        a,
        radioactive: half_life > 0.0,
        modes: modes.iter().map(|(k, d)| (k.to_string(), d.map(|s| s.to_string()))).collect(),
    }
}

fn strings(v: &[&str]) -> Vec<String> {
    v.iter().map(|s| s.to_string()).collect()
}

fn records() -> Vec<DecayRecord> {
    vec![
        rec("n1", 0, 1, 613.9, &[("beta-", Some("H1"))]),
        rec("U238", 92, 238, 1.0, &[]),
        rec("U239", 92, 239, 1407.0, &[("beta-", Some("Np239"))]),
        rec("Th234", 90, 234, 2.08e6, &[("beta-", Some("Pa234_m1"))]),
        rec("Pa234", 91, 234, 2.41e4, &[("beta-", Some("U234"))]),
        rec("U235", 92, 235, 2.2e16, &[("alpha", Some("Th231")), ("sf", None)]),
        rec("U237", 92, 237, 5.8e5, &[("beta-", Some("Np237"))]),
        rec("U238", 92, 238, 1.4e17, &[("alpha", Some("Th234"))]),
        rec("Np239", 93, 239, 2.0e5, &[]),
        rec("U234", 92, 234, 0.0, &[]),
    ]
}

#[test]
fn the_decay_library_keeps_the_last_record_of_each_name_in_name_order() {
    let lib = decay_library(&records());
    let names: Vec<&str> = lib.iter().map(|d| d.name.as_str()).collect();
    assert_eq!(names, ["Np239", "Pa234", "Th234", "U234", "U235", "U237", "U238", "U239"]);
    let u238 = lib.iter().find(|d| d.name == "U238").unwrap();
    assert_eq!(u238.half_life_key, 1.4e17f64.to_bits());
}

#[test]
fn a_chain_is_ordered_by_zam_with_targets_led_to_known_nuclides() {
    let decay = records();
    let neutron = vec![
        ("U238".to_string(), vec![(102, " 4.80600+6".to_string()), (16, "-6.15200+6".to_string())]),
        ("U235".to_string(), vec![(18, " 1.93700+8".to_string())]),
        ("U238".to_string(), vec![(18, " 1.97000+8".to_string()), (102, " 4.90000+6".to_string())]),
    ];
    let reactions = strings(&["(n,gamma)", "(n,2n)"]);
    let fpy = strings(&["U235"]);
    let chain = chain_nuclides(&decay, &neutron, &reactions, &fpy);
    let names: Vec<&str> = chain.iter().map(|n| n.name.as_str()).collect();
    assert_eq!(names, ["Th234", "Pa234", "U234", "U235", "U237", "U238", "U239", "Np239"]);

    // Th234 decays to Pa234_m1, which the library lacks: its ground state
    // stands in.
    let th = &chain[0];
    assert_eq!(th.decay_modes, [("beta-".to_string(), Some("Pa234".to_string()))]);
    assert!(th.reactions.is_empty());
    assert!(matches!(th.yields, YieldSource::NotFissionable));

    // U235's spontaneous fission leaves no single nuclide; it has its own
    // yields.
    let u235 = &chain[3];
    assert_eq!(u235.decay_modes[1], ("sf".to_string(), None));
    assert_eq!(
        u235.reactions,
        [TransmutationPath { kind: "fission".to_string(), target: None, q_value: Some(" 1.93700+8".to_string()) }]
    );
    assert!(matches!(u235.yields, YieldSource::Own(0)));

    // U238 is the later record, and both of its neutron evaluations count,
    // the later value of an MT replacing the earlier.
    let u238 = &chain[5];
    assert_eq!(u238.record, 7);
    assert_eq!(u238.decay_modes, [("alpha".to_string(), Some("Th234".to_string()))]);
    assert_eq!(
        u238.reactions,
        [
            TransmutationPath {
                kind: "(n,gamma)".to_string(),
                target: Some("U239".to_string()),
                q_value: Some(" 4.90000+6".to_string()),
            },
            TransmutationPath {
                kind: "(n,2n)".to_string(),
                target: Some("U237".to_string()),
                q_value: Some("-6.15200+6".to_string()),
            },
            TransmutationPath { kind: "fission".to_string(), target: None, q_value: Some(" 1.97000+8".to_string()) },
        ]
    );
    // It has no yields of its own, so it borrows U235's.
    match &u238.yields {
        YieldSource::Borrowed { from, source } => {
            assert_eq!(from, "U235");
            assert_eq!(*source, Some(3));
        }
        _ => panic!("U238 should borrow its yields"),
    }

    // A stable nuclide has no decay modes.
    assert!(chain[2].decay_modes.is_empty());
}

#[test]
fn an_empty_library_makes_an_empty_chain() {
    let chain = chain_nuclides(&Vec::new(), &Vec::new(), &strings(&["(n,gamma)"]), &Vec::new());
    assert!(chain.is_empty());
}

#[test]
fn a_fission_product_is_led_to_the_library() {
    let lib = decay_library(&records());
    assert_eq!(chain_target("U235", &lib).as_deref(), Some("U235"));
    assert_eq!(chain_target("Pa234_m1", &lib).as_deref(), Some("Pa234"));
    assert_eq!(chain_target("n1", &lib), None);
}
