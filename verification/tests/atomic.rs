use endf::material::Material;
use endf::mf::atomic::{parse_mf26, ElectroAtomicDistribution};
use endf::records::{float_buffer, Reader};

fn line(body: &str, mat: i32, mf: i32, mt: i32) -> String {
    format!("{body:<66}{mat:>4}{mf:>2}{mt:>3}\n")
}

fn float(s: &str) -> f64 {
    String::from_utf8(float_buffer(s)).unwrap().parse().unwrap()
}

/// A HEAD record, then a three-point TAB1 record.
fn head_tab1(mat: i32, mf: i32, mt: i32, c1: &str, c2: &str, l1: i64, l2: i64, xy: &str) -> String {
    line(" 1.000000+3 9.991673-1          0          0          0          0", mat, mf, mt)
        + &line(&format!("{c1}{c2}{l1:>11}{l2:>11}{:>11}{:>11}", 1, 3), mat, mf, mt)
        + &line("          3          2", mat, mf, mt)
        + &line(xy, mat, mf, mt)
        + &line("", mat, mf, 0)
}

/// Photo-atomic data for hydrogen: the total cross section and the
/// incoherent scattering function.
fn photoat_h() -> String {
    line(" tape id", 1, 0, 0)
        + &head_tab1(
            100,
            23,
            501,
            " 0.000000+0",
            " 0.000000+0",
            0,
            0,
            " 1.000000+0 2.000000+1 1.000000+3 5.000000+0 1.000000+5 1.000000-1",
        )
        + &line("", 100, 0, 0)
        + &head_tab1(
            100,
            27,
            504,
            " 0.000000+0",
            " 1.000000+0",
            0,
            0,
            " 0.000000+0 0.000000+0 1.000000+0 5.000000-1 1.000000+9 1.000000+0",
        )
        + &line("", 100, 0, 0)
        + &line("", 0, 0, 0)
        + &line("", -1, 0, 0)
}

#[test]
fn reads_photo_atomic_cross_sections() {
    let m = Material::from_str(&photoat_h()).unwrap();
    // MT=501 is the total photon interaction cross section.
    let total = m.mf23(501).expect("MF=23 MT=501 is present");
    assert_eq!(float(&total.za), 1000.0, "photo-atomic data is per element, so A=0");
    let x: Vec<f64> = total.sigma.x.iter().map(|s| float(s)).collect();
    let y: Vec<f64> = total.sigma.y.iter().map(|s| float(s)).collect();
    assert!(!x.is_empty());
    assert!(x.windows(2).all(|w| w[1] >= w[0]));
    assert!(y.iter().all(|&v| v >= 0.0));
    assert!(m.mf23(502).is_none());
}

#[test]
fn reads_the_incoherent_scattering_function() {
    let m = Material::from_str(&photoat_h()).unwrap();
    // MT=502 coherent form factor, MT=504 incoherent scattering function.
    let sf = m.mf27(504).expect("MF=27 MT=504 is present");
    assert_eq!(float(&sf.z), 1.0, "hydrogen");
    // The incoherent scattering function rises from 0 towards Z.
    let y: Vec<f64> = sf.h.y.iter().map(|s| float(s)).collect();
    assert!(y.first().copied().unwrap() >= 0.0);
    assert!(y.last().copied().unwrap() <= 1.0 + 1e-9);
}

/// MF=8 and MF=9 MT=102 and MF=10 MT=16 for In-115: capture leaves In-116
/// in its ground state or its first isomer, and (n,2n) leaves In-114 in its
/// ground state and its first isomer.
fn in115() -> String {
    let mat = 4931;
    line(" tape id", 1, 0, 0)
        + &line(" 4.911500+4 1.139180+2          0          0          2          1", mat, 8, 102)
        + &line(&format!(" 4.911600+4 0.000000+0{:>11}{:>11}{:>11}{:>11}", 9, 0, 0, 0), mat, 8, 102)
        + &line(&format!(" 4.911600+4 1.272670+5{:>11}{:>11}{:>11}{:>11}", 9, 1, 0, 0), mat, 8, 102)
        + &line("", mat, 8, 0)
        + &line("", mat, 0, 0)
        + &line(" 4.911500+4 1.139180+2          0          0          2          0", mat, 9, 102)
        + &line(&format!(" 6.784000+6 6.784000+6{:>11}{:>11}{:>11}{:>11}", 49116, 0, 1, 2), mat, 9, 102)
        + &line("          2          2", mat, 9, 102)
        + &line(" 1.000000-5 4.000000-1 2.000000+7 6.000000-1", mat, 9, 102)
        + &line(&format!(" 6.784000+6 6.656700+6{:>11}{:>11}{:>11}{:>11}", 49116, 1, 1, 2), mat, 9, 102)
        + &line("          2          2", mat, 9, 102)
        + &line(" 1.000000-5 6.000000-1 2.000000+7 4.000000-1", mat, 9, 102)
        + &line("", mat, 9, 0)
        + &line("", mat, 0, 0)
        + &line(" 4.911500+4 1.139180+2          0          0          2          0", mat, 10, 16)
        + &line(&format!(" 0.000000+0-9.038000+6{:>11}{:>11}{:>11}{:>11}", 49114, 0, 1, 2), mat, 10, 16)
        + &line("          2          2", mat, 10, 16)
        + &line(" 9.100000+6 0.000000+0 2.000000+7 1.000000+0", mat, 10, 16)
        + &line(&format!(" 0.000000+0-9.228000+6{:>11}{:>11}{:>11}{:>11}", 49114, 1, 1, 2), mat, 10, 16)
        + &line("          2          2", mat, 10, 16)
        + &line(" 9.300000+6 0.000000+0 2.000000+7 5.000000-1", mat, 10, 16)
        + &line("", mat, 10, 0)
        + &line("", mat, 0, 0)
        + &line("", 0, 0, 0)
}

#[test]
fn reads_isomer_production() {
    let m = Material::from_str(&in115()).unwrap();
    // In-115 (n,gamma) populating the In-116 first isomeric state. This is
    // where an isomeric branching ratio comes from.
    let mf9 = m.mf9(102).expect("MF=9 MT=102 is present");
    assert_eq!(mf9.mf, 9);
    assert_eq!(mf9.levels.len(), mf9.ns as usize);

    let level = &mf9.levels[1];
    assert_eq!(level.izap, 49116, "the product is In-116");
    assert_eq!(level.lfs, 1, "the first isomeric state");
    // MF=9 gives a multiplicity, so it is bounded by one.
    assert!(!level.func.x.is_empty());
    assert!(level.func.y.iter().all(|v| (0.0..=1.0).contains(&float(v))));
}

#[test]
fn reads_radioactive_production() {
    let m = Material::from_str(&in115()).unwrap();
    let mf8 = m.mf8(102).expect("MF=8 MT=102 is present");
    assert_eq!(mf8.subsections.len(), mf8.ns as usize);
    assert!(!mf8.subsections.is_empty());
    // NO=1 means the decay chain lives in MT=457 rather than here.
    assert_eq!(mf8.no, 1);
    assert_eq!(mf8.subsections[0].nd, None);
}

#[test]
fn reads_isomer_production_cross_sections() {
    let m = Material::from_str(&in115()).unwrap();
    // MF=10 carries a cross section for the same kind of product.
    let mf10 = m.mf10(16).expect("MF=10 MT=16 is present");
    assert_eq!(mf10.mf, 10);
    assert_eq!(mf10.levels.len(), 2);
    let level = &mf10.levels[0];
    assert_eq!(level.izap, 49114, "(n,2n) leaves In-114");
    assert!(level.func.y.iter().all(|v| float(v) >= 0.0));
    assert_eq!((mf10.levels[1].lfs, float(&mf10.levels[1].qi)), (1, -9.228e6));
    // The same text read as MF=9 would say so; there is none here.
    assert!(m.mf9(16).is_none());
}

#[test]
fn a_section_cut_short_is_not_read() {
    let mut text = in115();
    // Drop the last data line of the second level.
    let lines: Vec<&str> = text.lines().collect();
    let last_level = lines.iter().rposition(|l| l.starts_with(" 9.300000+6")).unwrap();
    let cut: Vec<&str> = lines.iter().enumerate().filter(|(i, _)| *i != last_level).map(|(_, l)| *l).collect();
    text = cut.join("\n") + "\n";
    let m = Material::from_str(&text).unwrap();
    assert!(m.contains(10, 16));
    assert!(m.mf10(16).is_none());
}

/// Atomic relaxation data for hydrogen: the K shell alone.
fn atom_h() -> String {
    line(" tape id", 1, 0, 0)
        + &line(" 1.000000+3 9.991673-1          0          0          1          0", 100, 28, 533)
        + &line(" 1.000000+0 0.000000+0          0          0          6          0", 100, 28, 533)
        + &line(" 1.360000+1 1.000000+0 0.000000+0 0.000000+0 0.000000+0 0.000000+0", 100, 28, 533)
        + &line("", 100, 28, 0)
        + &line("", 100, 0, 0)
        + &line("", 0, 0, 0)
        + &line("", -1, 0, 0)
}

#[test]
fn reads_atomic_relaxation() {
    let m = Material::from_str(&atom_h()).unwrap();
    let relax = m.mf28(533).expect("MF=28 MT=533 is present");
    assert_eq!(relax.shells.len(), relax.nss as usize);
    // Hydrogen has only the K shell, and with one electron there is
    // nothing to relax from, so it lists no transitions.
    assert_eq!(relax.shells.len(), 1);
    let k = &relax.shells[0];
    assert_eq!(float(&k.subi), 1.0, "the K shell");
    assert_eq!(float(&k.eln), 1.0, "one electron");
    assert!(float(&k.ebi) > 0.0, "binding energy");
    assert_eq!(k.ntr, 0);
    assert!(k.subj.is_empty());
}

#[test]
fn an_energy_transfer_law_and_an_unknown_one() {
    let text = [
        " 1.000000+3 9.991673-1          0          0          2          0",
        " 1.100000+1 5.485799-4          0          8          1          2",
        "          2          2",
        " 1.000000+1 1.000000+0 1.00000+11 1.000000+0",
        " 0.000000+0 0.000000+0          0          0          1          2",
        "          2          2",
        " 1.000000+1 1.000000+1 1.00000+11 2.000000+1",
        " 0.000000+0 0.000000+0          0          3          1          2",
        "          2          2",
        " 1.000000+1 1.000000+0 1.00000+11 1.000000+0",
    ]
    .iter()
    .map(|b| line(b, 100, 26, 528))
    .collect::<String>();
    let mut r = Reader::new(&text);
    let d = parse_mf26(&mut r).unwrap();
    assert!(r.is_empty());
    assert_eq!(d.nk, 2);
    assert_eq!(d.products.len(), 2);
    let electron = &d.products[0];
    assert_eq!(float(&electron.zap), 11.0);
    assert_eq!(electron.law, 8);
    match &electron.distribution {
        ElectroAtomicDistribution::EnergyTransfer(t) => assert_eq!(float(&t.y[1]), 20.0),
        other => panic!("expected an energy transfer, got {other:?}"),
    }
    assert_eq!(d.products[1].law, 3);
    assert_eq!(d.products[1].distribution, ElectroAtomicDistribution::Absent);
}
