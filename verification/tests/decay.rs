use endf::material::Material;
use endf::mf::mf8::{parse_mf8, parse_mf8_mt454, parse_mf8_mt457};
use endf::records::{float_buffer, Reader};

fn line(body: &str, mat: i32, mf: i32, mt: i32) -> String {
    format!("{body:<66}{mat:>4}{mf:>2}{mt:>3}\n")
}

fn float(s: &str) -> f64 {
    if s.trim().is_empty() {
        return 0.0;
    }
    String::from_utf8(float_buffer(s)).unwrap().parse().unwrap()
}

fn section(mt: i32, bodies: &[&str]) -> String {
    bodies.iter().map(|b| line(b, 2725, 8, mt)).collect()
}

/// Decay data for a Co-60-like nuclide: one beta- mode, a gamma spectrum
/// with two lines and a continuous beta spectrum with its covariance.
fn co60_decay() -> String {
    section(
        457,
        &[
            " 2.706000+4 5.940000+1          0          0          0          2",
            " 1.663000+8 2.000000+4          0          0          6          0",
            " 9.600000+4 1.000000+2 2.504000+6 5.000000+1 0.000000+0 0.000000+0",
            " 5.000000+0 1.000000+0          0          0          6          1",
            " 1.000000+0 0.000000+0 2.823900+6 2.100000+1 1.000000+0 0.000000+0",
            " 0.000000+0 0.000000+0          0          0          6          2",
            " 1.000000+0 0.000000+0 2.504000+6 5.000000+1 0.000000+0 0.000000+0",
            " 1.173228+6 3.000000+0          0          0         12          0",
            " 1.000000+0 0.000000+0 9.985000-1 3.000000-4 6.000000-6 1.000000-7",
            " 1.680000-4 3.000000-6 1.500000-4 2.000000-6 1.500000-5 3.000000-7",
            " 1.332492+6 4.000000+0          0          0          6          0",
            " 1.000000+0 0.000000+0 9.998000-1 6.000000-6 0.000000+0 0.000000+0",
            " 0.000000+0 1.000000+0          1          1          6          0",
            " 1.000000+0 0.000000+0 9.600000+4 1.000000+2 1.000000+0 0.000000+0",
            " 1.000000+0 0.000000+0          0          0          1          2",
            "          2          2",
            " 0.000000+0 1.000000-6 3.180000+5 0.000000+0",
            " 0.000000+0 0.000000+0          0          2          4          0",
            " 0.000000+0 1.000000-2 3.180000+5 2.000000-2",
        ],
    )
}

#[test]
fn decay_data_gives_half_life_modes_and_spectra() {
    let text = co60_decay();
    let mut r = Reader::new(&text);
    let d = parse_mf8_mt457(&mut r).unwrap();
    assert_eq!(float(&d.za), 27060.0);
    assert_eq!(float(&d.awr), 59.4);
    assert_eq!((d.lis, d.liso, d.nst, d.nsp), (0, 0, 0, 2));
    let hl = d.half_life.as_ref().unwrap();
    assert_eq!(float(&hl.value), 1.663e8);
    assert_eq!(float(&hl.uncertainty), 2.0e4);
    assert_eq!(d.nc, 3);
    assert_eq!(d.ex.len(), 3);
    assert_eq!(float(&d.ex[1].value), 2.504e6);
    assert_eq!(float(&d.ex[1].uncertainty), 50.0);
    assert_eq!(float(&d.spi), 5.0);
    assert_eq!(float(&d.par), 1.0);
    assert_eq!(d.ndk, 1);
    assert_eq!(d.modes.len(), 1);
    assert_eq!(float(&d.modes[0].rtyp), 1.0);
    assert_eq!(float(&d.modes[0].q.value), 2.8239e6);
    assert_eq!(float(&d.modes[0].br.value), 1.0);
    assert_eq!(d.spectra.len(), 2);
}

#[test]
fn a_gamma_spectrum_lists_its_discrete_lines() {
    let text = co60_decay();
    let d = parse_mf8_mt457(&mut Reader::new(&text)).unwrap();
    let gamma = &d.spectra[0];
    assert_eq!(float(&gamma.styp), 0.0);
    assert_eq!((gamma.lcon, gamma.lcov, gamma.ner), (0, 0, 2));
    assert_eq!(float(&gamma.er_av.value), 2.504e6);
    assert_eq!(gamma.discrete.len(), 2);
    let first = &gamma.discrete[0];
    assert_eq!(float(&first.er.value), 1.173228e6);
    assert_eq!(float(&first.ri.value), 0.9985);
    assert_eq!(float(&first.ris.value), 6.0e-6);
    assert_eq!(float(&first.ricc.value), 1.68e-4);
    assert_eq!(float(&first.ricl.uncertainty), 3.0e-7);
    // A line written with six values has no conversion coefficients: past
    // the end of its record they read as zero.
    let second = &gamma.discrete[1];
    assert_eq!(float(&second.ri.value), 0.9998);
    assert!(second.ricc.value.is_empty());
    assert!(gamma.continuous.is_none());
    assert!(gamma.continuous_covariance.is_none());
    assert!(gamma.discrete_covariance.is_none());
}

#[test]
fn a_beta_spectrum_is_continuous_with_its_covariance() {
    let text = co60_decay();
    let d = parse_mf8_mt457(&mut Reader::new(&text)).unwrap();
    let beta = &d.spectra[1];
    assert_eq!(float(&beta.styp), 1.0);
    assert_eq!((beta.lcon, beta.lcov, beta.ner), (1, 1, 0));
    assert!(beta.discrete.is_empty());
    let c = beta.continuous.as_ref().unwrap();
    assert_eq!(float(&c.rtyp), 1.0);
    assert_eq!(c.rp.x.len(), 2);
    assert_eq!(float(&c.rp.x[1]), 3.18e5);
    let cov = beta.continuous_covariance.as_ref().unwrap();
    assert_eq!(cov.lb, 2);
    assert_eq!(cov.ek.iter().map(|s| float(s)).collect::<Vec<_>>(), [0.0, 3.18e5]);
    assert_eq!(cov.fk.iter().map(|s| float(s)).collect::<Vec<_>>(), [1.0e-2, 2.0e-2]);
    assert!(beta.discrete_covariance.is_none());
}

#[test]
fn a_stable_nuclide_carries_only_spin_and_parity() {
    let text = section(
        457,
        &[
            " 2.605600+4 5.545000+1          0          0          1          0",
            " 0.000000+0 0.000000+0          0          0          6          0",
            " 0.000000+0 0.000000+0 0.000000+0 0.000000+0 0.000000+0 0.000000+0",
            " 0.000000+0 1.000000+0          0          0          6          0",
            " 0.000000+0 0.000000+0 0.000000+0 0.000000+0 0.000000+0 0.000000+0",
        ],
    );
    let d = parse_mf8_mt457(&mut Reader::new(&text)).unwrap();
    assert_eq!(d.nst, 1);
    assert_eq!(float(&d.spi), 0.0);
    assert_eq!(float(&d.par), 1.0);
    assert!(d.half_life.is_none());
    assert!(d.modes.is_empty() && d.spectra.is_empty() && d.ex.is_empty());
    assert_eq!((d.nc, d.ndk), (0, 0));
}

#[test]
fn stable_decay_data_consumes_both_lists() {
    let text = section(
        457,
        &[
            " 2.605600+4 5.545000+1          0          0          1          0",
            " 1.500000+0 2.000000+0          0          0          6          0",
            " 0.000000+0 0.000000+0 0.000000+0 0.000000+0 0.000000+0 0.000000+0",
            " 5.000000-1-1.000000+0          0          0          6          0",
            " 0.000000+0 0.000000+0 0.000000+0 0.000000+0 0.000000+0 0.000000+0",
        ],
    );
    let mut r = Reader::new(&text);
    let d = parse_mf8_mt457(&mut r).unwrap();
    assert_eq!(float(&d.za), 26056.0);
    assert_eq!(float(&d.awr), 55.45);
    assert_eq!((d.nst, d.nsp), (1, 0));
    assert_eq!(float(&d.spi), 0.5);
    assert_eq!(float(&d.par), -1.0);
    assert!(d.half_life.is_none());
    assert!(d.ex.is_empty() && d.modes.is_empty() && d.spectra.is_empty());
    assert!(r.is_empty());
}

#[test]
fn decay_data_cut_short_is_an_error() {
    let text = co60_decay();
    let lines: Vec<&str> = text.lines().collect();
    for n in 0..lines.len() {
        let short = lines[..n].join("\n");
        assert!(parse_mf8_mt457(&mut Reader::new(&short)).is_err(), "{n} lines");
    }
}

#[test]
fn a_negative_energy_count_halves_toward_zero() {
    let text = section(
        457,
        &[
            " 2.706000+4 5.940000+1          0          0          0          0",
            " 1.663000+8 2.000000+4          0          0         -3          0",
            " 5.000000+0 1.000000+0          0          0          0          0",
        ],
    );
    let d = parse_mf8_mt457(&mut Reader::new(&text)).unwrap();
    assert_eq!(d.nc, -1);
    assert!(d.ex.is_empty());
}

#[test]
fn fission_yields_are_read_per_energy() {
    let text = section(
        454,
        &[
            " 9.223500+4 2.330250+2          2          0          0          0",
            " 2.530000-2 0.000000+0          2          0          8          2",
            " 3.008500+4 0.000000+0 1.000000-5 2.000000-7 5.413500+4 1.000000+0",
            " 6.500000-2 1.000000-3",
            " 5.000000+5 0.000000+0          2          0          4          1",
            " 3.008500+4 0.000000+0 2.000000-5 4.000000-7",
        ],
    );
    let d = parse_mf8_mt454(&mut Reader::new(&text)).unwrap();
    assert_eq!(d.le, 1);
    assert_eq!(d.yields.len(), 2);
    let thermal = &d.yields[0];
    assert_eq!(float(&thermal.energy), 0.0253);
    assert_eq!((thermal.nn, thermal.nfp, thermal.le_or_interpolation), (8, 2, 2));
    assert_eq!(float(&thermal.products[1].zafp), 54135.0);
    assert_eq!(float(&thermal.products[1].fps), 1.0);
    assert_eq!(float(&thermal.products[1].y.value), 0.065);
    assert_eq!(float(&thermal.products[1].y.uncertainty), 0.001);
    let fast = &d.yields[1];
    assert_eq!(fast.products.len(), 1);
    assert_eq!(float(&fast.products[0].y.value), 2.0e-5);
}

#[test]
fn radionuclide_production_lists_each_product_decay_chain() {
    let text = section(
        102,
        &[
            " 2.705900+4 5.840000+1          0          0          2          0",
            " 2.706000+4 0.000000+0         10          0          6          0",
            " 1.663000+8 1.000000+0 2.806000+4 1.000000+0 0.000000+0 0.000000+0",
            " 2.706000+4 5.860000+4         10          1         12          0",
            " 6.300000+2 3.000000+0 2.706000+4 1.000000+0 0.000000+0 0.000000+0",
            " 1.663000+8 1.000000+0 2.806000+4 1.000000+0 0.000000+0 0.000000+0",
        ],
    );
    let d = parse_mf8(&mut Reader::new(&text)).unwrap();
    assert_eq!((d.ns, d.no), (2, 0));
    assert_eq!(d.subsections.len(), 2);
    let ground = &d.subsections[0];
    assert_eq!((ground.lmf, ground.lfs, ground.nd), (10, 0, Some(1)));
    assert_eq!(float(&ground.hl[0]), 1.663e8);
    assert_eq!(float(&ground.zan[0]), 28060.0);
    let isomer = &d.subsections[1];
    assert_eq!(isomer.nd, Some(2));
    assert_eq!(isomer.hl.iter().map(|s| float(s)).collect::<Vec<_>>(), [630.0, 1.663e8]);
    assert_eq!(isomer.rtyp.iter().map(|s| float(s)).collect::<Vec<_>>(), [3.0, 1.0]);
}

#[test]
fn a_decay_chain_given_elsewhere_leaves_only_the_product() {
    let text = section(
        102,
        &[
            " 2.705900+4 5.840000+1          0          0          1          1",
            " 2.706000+4 0.000000+0         10          0          0          0",
        ],
    );
    let d = parse_mf8(&mut Reader::new(&text)).unwrap();
    assert_eq!(d.no, 1);
    let p = &d.subsections[0];
    assert_eq!(float(&p.zap), 27060.0);
    assert_eq!(p.nd, None);
    assert!(p.hl.is_empty());
}

#[test]
fn a_material_reads_its_decay_section_on_demand() {
    let tape = line(" tape id", 1, 0, 0)
        + &co60_decay()
        + &line("", 2725, 8, 0)
        + &line("", 2725, 0, 0)
        + &line("", 0, 0, 0)
        + &line("", -1, 0, 0);
    let m = Material::from_str(&tape).unwrap();
    let d = m.mf8_mt457().expect("MF=8 MT=457 is present");
    assert_eq!(d.spectra.len(), 2);
    assert!(m.mf8_mt454(454).is_none());
}
