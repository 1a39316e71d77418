use endf::material::Material;
use endf::mf::mf1::{
    fission_energy_components, parse_mf1_mt452, parse_mf1_mt455, parse_mf1_mt458, parse_mf1_mt460,
    FissionEnergyRelease, Nu,
};
use endf::records::{float_buffer, Reader};

fn float(s: &str) -> f64 {
    if s.trim().is_empty() {
        return 0.0;
    }
    String::from_utf8(float_buffer(s)).unwrap().parse().unwrap()
}

fn floats(v: &[String]) -> Vec<f64> {
    v.iter().map(|s| float(s)).collect()
}

fn f(v: f64) -> String {
    format!("{v:>11}")
}
fn i(v: i64) -> String {
    format!("{v:>11}")
}
fn blank() -> String {
    String::new()
}
fn line(fields: [String; 6]) -> String {
    format!("{:<66}9228 1452\n", fields.concat())
}

#[test]
fn the_neutrons_per_fission_as_a_polynomial() {
    let text = line([f(92235.0), f(233.0248), i(0), i(1), i(0), i(0)])
        + &line([f(0.0), f(0.0), i(0), i(0), i(2), i(0)])
        + &line([f(2.4367), f(1.0e-7), blank(), blank(), blank(), blank()]);
    let d = parse_mf1_mt452(&mut Reader::new(&text)).unwrap();
    assert_eq!(d.lnu, 1);
    match &d.nu {
        Nu::Polynomial(c) => assert_eq!(floats(c), [2.4367, 1.0e-7]),
        other => panic!("expected a polynomial, got {other:?}"),
    }
}

#[test]
fn the_neutrons_per_fission_as_a_table() {
    let text = line([f(92235.0), f(233.0248), i(0), i(2), i(0), i(0)])
        + &line([f(0.0), f(0.0), i(0), i(0), i(1), i(2)])
        + &line([i(2), i(2), blank(), blank(), blank(), blank()])
        + &line([f(1.0e-5), f(2.43), f(2.0e7), f(5.2), blank(), blank()]);
    let d = parse_mf1_mt452(&mut Reader::new(&text)).unwrap();
    match &d.nu {
        Nu::Tabulated(t) => assert_eq!(floats(&t.y), [2.43, 5.2]),
        other => panic!("expected a table, got {other:?}"),
    }
    // A section cut short is an error, not a guess.
    let short: String = text.lines().take(3).map(|l| format!("{l}\n")).collect();
    assert!(parse_mf1_mt452(&mut Reader::new(&short)).is_err());
}

#[test]
fn delayed_neutron_constants_per_group() {
    // LDG=0: one list of decay constants; LNU=2: a tabulated yield.
    let text = line([f(92235.0), f(233.0248), i(0), i(2), i(0), i(0)])
        + &line([f(0.0), f(0.0), i(0), i(0), i(2), i(0)])
        + &line([f(0.0133), f(0.0327), blank(), blank(), blank(), blank()])
        + &line([f(0.0), f(0.0), i(0), i(0), i(1), i(2)])
        + &line([i(2), i(2), blank(), blank(), blank(), blank()])
        + &line([f(1.0e-5), f(0.0167), f(2.0e7), f(0.009), blank(), blank()]);
    let d = parse_mf1_mt455(&mut Reader::new(&text)).unwrap();
    assert_eq!((d.ldg, d.lnu), (0, 2));
    assert_eq!(floats(&d.lambda), [0.0133, 0.0327]);
    assert!(d.e_int.is_none() && d.constants.is_empty());
    assert!(matches!(d.nu, Nu::Tabulated(_)));
}

#[test]
fn energy_dependent_delayed_neutron_constants() {
    // LDG=1: a TAB2 record over two energies, then a LIST per energy of
    // (lambda, alpha) pairs; LNU=1.
    let text = line([f(94239.0), f(236.99), i(1), i(1), i(0), i(0)])
        + &line([f(0.0), f(0.0), i(0), i(0), i(1), i(2)])
        + &line([i(2), i(2), blank(), blank(), blank(), blank()])
        + &line([f(0.0), f(1.0e-5), i(0), i(0), i(4), i(0)])
        + &line([f(0.0133), f(0.04), f(0.0309), f(0.28), blank(), blank()])
        + &line([f(0.0), f(2.0e7), i(0), i(0), i(4), i(0)])
        + &line([f(0.0134), f(0.05), f(0.0310), f(0.27), blank(), blank()])
        + &line([f(0.0), f(0.0), i(0), i(0), i(1), i(0)])
        + &line([f(0.0065), blank(), blank(), blank(), blank(), blank()]);
    let d = parse_mf1_mt455(&mut Reader::new(&text)).unwrap();
    assert_eq!(d.ldg, 1);
    assert_eq!(d.e_int.as_ref().unwrap().interpolation, [2]);
    assert_eq!(d.constants.len(), 2);
    assert_eq!(float(&d.constants[1].energy), 2.0e7);
    assert_eq!(floats(&d.constants[0].lambda), [0.0133, 0.0309]);
    assert_eq!(floats(&d.constants[0].alpha), [0.04, 0.28]);
    match &d.nu {
        Nu::Polynomial(c) => assert_eq!(floats(c), [0.0065]),
        other => panic!("expected a polynomial, got {other:?}"),
    }
}

/// Eighteen numbers per polynomial order: a value and an uncertainty for
/// each of the nine components.
fn mt458(lfc: i64, tabs: &[(i64, i64)]) -> String {
    let mut text = line([f(92235.0), f(233.0248), i(0), i(lfc), i(0), i(tabs.len() as i64)])
        + &line([f(0.0), f(0.0), i(0), i(1), i(36), i(0)]);
    let values: Vec<f64> = (0..36).map(|k| (k + 1) as f64).collect();
    for chunk in values.chunks(6) {
        let mut fields = [blank(), blank(), blank(), blank(), blank(), blank()];
        for (slot, v) in fields.iter_mut().zip(chunk) {
            *slot = f(*v);
        }
        text += &line(fields);
    }
    for &(ldrv, ifc) in tabs {
        text += &line([f(0.0), f(0.0), i(ldrv), i(ifc), i(1), i(2)]);
        text += &line([i(2), i(2), blank(), blank(), blank(), blank()]);
        text += &line([f(1.0e-5), f(1.7e8), f(2.0e7), f(1.6e8), blank(), blank()]);
    }
    text
}

#[test]
fn fission_energy_release_components_are_polynomials() {
    let text = mt458(0, &[]);
    let d = parse_mf1_mt458(&mut Reader::new(&text)).unwrap();
    assert_eq!(d.nply, 1);
    assert_eq!(d.components.len(), 9);
    // Component EB is the sixth: values 11 and 12 for order 0, 29 and 30
    // for order 1.
    match d.component("EB").unwrap() {
        FissionEnergyRelease::Polynomial(pairs) => {
            let got: Vec<(f64, f64)> =
                pairs.iter().map(|p| (float(&p.value), float(&p.uncertainty))).collect();
            assert_eq!(got, [(11.0, 12.0), (29.0, 30.0)]);
        }
        other => panic!("expected a polynomial, got {other:?}"),
    }
    assert!(d.component("EX").is_none());
    let names = fission_energy_components();
    assert_eq!(names, ["EFR", "ENP", "END", "EGP", "EGD", "EB", "ENU", "ER", "ET"]);
}

#[test]
fn a_tabulation_replaces_the_component_ifc_names() {
    // IFC=2 is ENP, IFC=9 is ET; a second IFC=2 replaces the first.
    let text = mt458(1, &[(0, 2), (1, 9), (3, 2)]);
    let d = parse_mf1_mt458(&mut Reader::new(&text)).unwrap();
    match d.component("ENP").unwrap() {
        FissionEnergyRelease::Tabulated { ldrv, eifc } => {
            assert_eq!(*ldrv, 3);
            assert_eq!(floats(&eifc.y), [1.7e8, 1.6e8]);
        }
        other => panic!("expected a table, got {other:?}"),
    }
    assert!(matches!(d.component("ET"), Some(FissionEnergyRelease::Tabulated { ldrv: 1, .. })));
    assert!(matches!(d.component("EFR"), Some(FissionEnergyRelease::Polynomial(_))));
}

#[test]
fn delayed_photon_data_by_lo() {
    let text = line([f(92235.0), f(233.0248), i(1), i(0), i(1), i(0)])
        + &line([f(3.2e5), f(0.0), i(0), i(0), i(1), i(2)])
        + &line([i(2), i(2), blank(), blank(), blank(), blank()])
        + &line([f(0.0), f(1.0), f(1.0e4), f(0.1), blank(), blank()]);
    let d = parse_mf1_mt460(&mut Reader::new(&text)).unwrap();
    assert_eq!((d.lo, d.ng), (1, 1));
    assert_eq!(floats(&d.energy), [3.2e5]);
    assert_eq!(floats(&d.time[0].y), [1.0, 0.1]);

    let text = line([f(92235.0), f(233.0248), i(2), i(0), i(0), i(0)])
        + &line([f(0.0), f(0.0), i(0), i(0), i(3), i(0)])
        + &line([f(0.0127), f(0.0317), f(0.115), blank(), blank(), blank()]);
    let d = parse_mf1_mt460(&mut Reader::new(&text)).unwrap();
    assert_eq!(d.ng, 0);
    assert_eq!(floats(&d.lambda), [0.0127, 0.0317, 0.115]);
}

#[test]
fn a_material_reads_its_fission_data_on_demand() {
    let body = line([f(92235.0), f(233.0248), i(0), i(1), i(0), i(0)])
        + &line([f(0.0), f(0.0), i(0), i(0), i(1), i(0)])
        + &line([f(2.4367), blank(), blank(), blank(), blank(), blank()]);
    let tape = format!("{:<66}   1 0  0\n", " tape id")
        + &body
        + &format!("{:<66}9228 1  0\n", "")
        + &format!("{:<66}9228 0  0\n", "")
        + &format!("{:<66}   0 0  0\n", "")
        + &format!("{:<66}  -1 0  0\n", "");
    let m = Material::from_str(&tape).unwrap();
    let d = m.mf1_mt452(452).expect("MF=1 MT=452 is present");
    assert!(matches!(d.nu, Nu::Polynomial(_)));
    assert!(m.mf1_mt452(456).is_none());
    assert!(m.mf1_mt458().is_none());
}
