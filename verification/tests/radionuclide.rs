use endf::material::Material;
use endf::radionuclide::{activation_product_name, activation_products, excitation_source, radionuclide_production};

fn line(body: &str, mat: i32, mf: i32, mt: i32) -> String {
    format!("{body:<66}{mat:>4}{mf:>2}{mt:>3}\n")
}

/// One state of an MF=9 or MF=10 section: its TAB1 record, two points.
fn state(qm: &str, qi: &str, izap: i64, lfs: i64) -> Vec<String> {
    vec![
        format!("{qm:>11}{qi:>11}{izap:>11}{lfs:>11}{:>11}{:>11}", 1, 2),
        format!("{:>11}{:>11}", 2, 2),
        " 1.000000+6 1.000000+0 2.000000+7 5.000000-1".to_string(),
    ]
}

fn section(mf: i32, mt: i32, states: &[Vec<String>]) -> String {
    let mut s = line(&format!(" 2.705900+4 5.840000+1{:>11}{:>11}{:>11}{:>11}", 0, 0, states.len(), 0), 2725, mf, mt);
    for st in states {
        for l in st {
            s += &line(l, 2725, mf, mt);
        }
    }
    s + &line("", 2725, mf, 0)
}

fn material() -> Material {
    let tape = line(" tape id", 1, 0, 0)
        + &line(" 2.705900+4 5.840000+1          0          0          2          1", 2725, 8, 102)
        + &line(" 2.706000+4 0.000000+0          9          1          0          0", 2725, 8, 102)
        + &line(" 2.706000+4 0.000000+0         10          0          0          0", 2725, 8, 102)
        + &line("", 2725, 8, 0)
        + &line("", 2725, 0, 0)
        + &section(9, 102, &[state(" 7.491000+6", " 7.432000+6", 27060, 1)])
        + &line("", 2725, 0, 0)
        + &section(
            10,
            16,
            &[state("-1.038000+7", "-1.038000+7", 27058, 0), state("-1.038000+7", "-1.040000+7", 27058, 1)],
        )
        + &section(
            10,
            102,
            &[state(" 7.491000+6", " 7.000000+6", 27060, 1), state(" 7.491000+6", " 7.491000+6", 27060, 0)],
        )
        + &line("", 2725, 0, 0)
        + &line("", 0, 0, 0)
        + &line("", -1, 0, 0);
    Material::from_str(&tape).unwrap()
}

#[test]
fn production_is_grouped_by_reaction_and_final_state() {
    let m = material();
    let p = radionuclide_production(&m);
    assert_eq!(p.iter().map(|e| e.0).collect::<Vec<_>>(), [16, 102]);

    let n2n = &p[0].1;
    assert_eq!(n2n.iter().map(|s| (s.zap, s.lfs)).collect::<Vec<_>>(), [(27058, 0), (27058, 1)]);
    assert_eq!((n2n[0].yields, n2n[0].cross_section), (None, Some(0)));
    assert_eq!((n2n[1].yields, n2n[1].cross_section), (None, Some(1)));
    assert_eq!(n2n[1].qi, "-1.040000+7");

    // MF=9 and MF=10 data for the same state are one entry, which keeps the
    // Q values of MF=9, read first.
    let capture = &p[1].1;
    assert_eq!(capture.iter().map(|s| (s.zap, s.lfs)).collect::<Vec<_>>(), [(27060, 1), (27060, 0)]);
    assert_eq!((capture[0].yields, capture[0].cross_section), (Some(0), Some(0)));
    assert_eq!(capture[0].qi, " 7.432000+6");
    assert_eq!((capture[1].yields, capture[1].cross_section), (None, Some(1)));
}

#[test]
fn a_material_without_production_data_has_none() {
    let tape = line(" tape id", 1, 0, 0)
        + &section(8, 102, &[])
        + &line("", 2725, 0, 0)
        + &line("", 0, 0, 0)
        + &line("", -1, 0, 0);
    let m = Material::from_str(&tape).unwrap();
    assert!(radionuclide_production(&m).is_empty());
}

#[test]
fn the_last_mf8_subsection_of_a_state_gives_its_energy() {
    let keys = vec![(27060, 0), (27060, 1), (27060, 1)];
    assert_eq!(excitation_source(&keys, 27060, 1), Some(2));
    assert_eq!(excitation_source(&keys, 27060, 0), Some(0));
    assert_eq!(excitation_source(&keys, 27058, 0), None);
}

#[test]
fn radioactive_products_are_named_by_their_level() {
    assert_eq!(activation_product_name(27060, 1), "Co60_e1");
    assert_eq!(activation_product_name(27060, 0), "Co60");
    assert_eq!(activation_product_name(95242, 2), "Am242_e2");
    assert_eq!(activation_product_name(200001, 0), "1");
    assert_eq!(activation_product_name(-5, 0), "n-5");
}

#[test]
fn mf8_says_which_files_give_the_radioactive_products() {
    let m = material();
    let acts = activation_products(&m, 102);
    let got: Vec<(i64, usize, &str)> = acts.iter().map(|a| (a.file, a.index, a.name.as_str())).collect();
    assert_eq!(got, [(9, 0, "Co60_e1"), (10, 0, "Co60_e1"), (10, 1, "Co60")]);
    // Without an MF=8 section there are none, whatever MF=10 holds.
    assert!(activation_products(&m, 16).is_empty());
}
