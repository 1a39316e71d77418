use endf::material::{control, materials_from_str, Material, Section};
use endf::records::float_buffer;

/// One line of an ENDF-6 file: 66 columns of body, then MAT, MF and MT.
fn line(body: &str, mat: i32, mf: i32, mt: i32) -> String {
    format!("{body:<66}{mat:>4}{mf:>2}{mt:>3}\n")
}

/// An MF=3 section: a HEAD record, then a two-point TAB1 record.
fn mf3(mat: i32, mt: i32, y0: &str, y1: &str) -> String {
    line(" 9.524400+4 2.419680+2          0          0          0          0", mat, 3, mt)
        + &line(" 0.000000+0 0.000000+0          0          0          1          2", mat, 3, mt)
        + &line("          2          2", mat, 3, mt)
        + &line(&format!(" 1.000000-5{y0} 2.000000+7{y1}"), mat, 3, mt)
        + &line("", mat, 3, 0)
}

/// The descriptive header and directory of the evaluation below.
fn mf1_451(mat: i32) -> String {
    let dir = |mf: i32, mt: i32, nc: i32| {
        line(&format!("{:22}{mf:>11}{mt:>11}{nc:>11}{:>11}", "", 0), mat, 1, 451)
    };
    line(" 9.524400+4 2.419680+2          0          1          0          2", mat, 1, 451)
        + &line(" 0.000000+0 0.000000+0          0          0          0          6", mat, 1, 451)
        + &line(" 1.000000+0 2.000000+7          1          0         10          8", mat, 1, 451)
        + &line(" 0.000000+0 0.000000+0          0          0          5          6", mat, 1, 451)
        + &line(" 95-Am-244 LANL       EVAL-MAR07 A. Author", mat, 1, 451)
        + &line(" CH99                 DIST-DEC06 REV1-", mat, 1, 451)
        + &line("----ENDF/B-VII.1      MATERIAL 9552", mat, 1, 451)
        + &line("-----INCIDENT NEUTRON DATA", mat, 1, 451)
        + &line("------ENDF-6 FORMAT", mat, 1, 451)
        + &dir(1, 451, 13)
        + &dir(2, 151, 1)
        + &dir(3, 1, 4)
        + &dir(3, 2, 4)
        + &dir(3, 18, 4)
        + &dir(3, 102, 4)
}

/// A small evaluation shaped like an incident-neutron one for Am-244: MF=1,
/// MF=2 and MF=3 sections, each file closed by its FEND record.
fn am244() -> String {
    let mat = 9552;
    line(" tape id", 1, 0, 0)
        + &mf1_451(mat)
        + &line("", mat, 1, 0)
        + &line("", mat, 0, 0)
        + &line(" 9.524400+4 2.419680+2          0          0          1          0", mat, 2, 151)
        + &line("", mat, 2, 0)
        + &line("", mat, 0, 0)
        + &mf3(mat, 1, " 1.000000+1", " 5.000000+0")
        + &mf3(mat, 2, " 6.000000+0", " 3.000000+0")
        + &mf3(mat, 18, " 3.000000+0", " 1.000000+0")
        + &mf3(mat, 102, " 1.000000+0", " 1.000000+0")
        + &line("", mat, 0, 0)
        + &line("", 0, 0, 0)
        + &line("", -1, 0, 0)
}

fn float(s: &str) -> f64 {
    String::from_utf8(float_buffer(s)).unwrap().parse().unwrap()
}

#[test]
fn reads_the_material_number() {
    let m = Material::from_str(&am244()).unwrap();
    assert_eq!(m.mat, 9552);
}

#[test]
fn finds_the_expected_sections() {
    let m = Material::from_str(&am244()).unwrap();
    let sections = m.sections();
    // The evaluation opens with the descriptive MF=1/MT=451 section and
    // carries resonance parameters and cross sections.
    assert!(sections.contains(&(1, 451)));
    assert!(sections.contains(&(2, 151)));
    assert!(sections.contains(&(3, 1)));
    assert!(sections.contains(&(3, 2)));
    assert!(sections.contains(&(3, 18)));
    assert!(!sections.is_empty());
}

#[test]
fn section_text_excludes_the_send_record() {
    let m = Material::from_str(&am244()).unwrap();
    let text = m.text(3, 1).unwrap();
    for line in text.lines() {
        let (_, mf, mt) = control(line).unwrap();
        assert_eq!(mf, 3);
        assert_ne!(mt, 0, "a SEND record leaked into the section body");
    }
}

#[test]
fn every_section_is_dispatched() {
    let m = Material::from_str(&am244()).unwrap();
    assert_eq!(m.section_text().len(), m.section_data().len());
}

#[test]
fn reads_the_whole_file_as_one_material() {
    let materials = materials_from_str(&am244()).unwrap();
    assert_eq!(materials.len(), 1);
    assert_eq!(materials[0].mat, 9552);
}

#[test]
fn the_sum_rule_holds_at_the_first_energy() {
    // MT=1 is total, and here elastic (2), fission (18) and capture (102) are
    // its parts at the first energy.
    let m = Material::from_str(&am244()).unwrap();
    let total = m.mf3(1).unwrap();
    let parts: f64 = [2, 18, 102]
        .iter()
        .filter_map(|&mt| m.mf3(mt))
        .map(|r| float(&r.sigma.y[0]))
        .sum();
    let got = float(&total.sigma.y[0]);
    assert!(
        (got - parts).abs() <= 1e-5 * got.abs(),
        "total {got} != sum of parts {parts}"
    );
}

#[test]
fn sections_come_in_ascending_order_and_lookups_agree() {
    let m = Material::from_str(&am244()).unwrap();
    let sections = m.sections();
    assert_eq!(sections, [(1, 451), (2, 151), (3, 1), (3, 2), (3, 18), (3, 102)]);
    for &(mf, mt) in &sections {
        assert!(m.contains(mf, mt));
        assert!(m.get(mf, mt).is_some());
    }
    assert!(!m.contains(3, 16));
    assert!(m.mf3(16).is_none());
    // An unparsed file keeps its text and says which section it was.
    assert!(matches!(m.get(1, 451), Some(Section::Unparsed { mf: 1, mt: 451 })));
    assert_eq!(m.text(2, 151).unwrap().lines().count(), 1);
    let elastic = m.mf3(2).unwrap();
    assert_eq!(elastic.za, " 9.524400+4");
    assert_eq!(elastic.sigma.x.len(), 2);
    assert_eq!(float(&elastic.sigma.x[1]), 2.0e7);
}

#[test]
fn a_material_cut_short_is_an_unexpected_end() {
    let text = am244();
    let cut: String = text.lines().take(12).map(|l| format!("{l}\n")).collect();
    assert!(Material::from_str(&cut).is_err());
    // An empty file has no materials, and no first material either.
    assert!(materials_from_str("").unwrap().is_empty());
    assert!(Material::from_str("").is_err());
}

#[test]
fn a_malformed_control_field_is_reported() {
    let bad = line(" tape id", 1, 0, 0) + &format!("{:<66}9552 3 1x\n", " body");
    assert!(Material::from_str(&bad).is_err());
    assert!(control(&format!("{:<66}95x2 3  1", "")).is_err());
    assert_eq!(control(&format!("{:<66}9552 3  1", "")).unwrap(), (9552, 3, 1));
    // Blank control fields read as zero.
    assert_eq!(control("").unwrap(), (0, 0, 0));
}

#[test]
fn reads_the_descriptive_header() {
    let m = Material::from_str(&am244()).unwrap();
    let d = m.mf1_mt451().expect("MF=1 MT=451 is present");
    assert_eq!(float(&d.za), 95244.0);
    // NSUB=10 is incident-neutron data.
    assert_eq!(d.nsub, 10);
    assert_eq!(d.zsymam.as_deref(), Some(" 95-Am-244 "));
    assert_eq!(d.hsub.len(), 3);
    assert!(d.description.is_empty());
    assert_eq!((d.nlib, d.nver, d.lrel, d.liso), (0, 8, 1, 0));
    // The directory lists every section in the material.
    assert_eq!(d.section_list.len(), d.nxc as usize);
    assert!(!d.section_list.is_empty());
}

#[test]
fn the_directory_agrees_with_the_sections_present() {
    let m = Material::from_str(&am244()).unwrap();
    let d = m.mf1_mt451().unwrap();
    for &(mf, mt, ..) in &d.section_list {
        assert!(
            m.contains(mf as i32, mt as i32),
            "the directory lists MF={mf} MT={mt} but it is not in the file"
        );
    }
    assert_eq!(d.section_list[0], (1, 451, 13, 0));
}
