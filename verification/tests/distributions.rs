use endf::material::Material;
use endf::mf::mf5::{parse_mf5, EnergyDistribution};
use endf::mf::mf6::{parse_mf6, Distribution};
use endf::records::{float_buffer, Reader};

fn float(s: &str) -> f64 {
    if s.trim().is_empty() {
        return 0.0;
    }
    String::from_utf8(float_buffer(s)).unwrap().parse().unwrap()
}

fn floats(v: &[String]) -> Vec<f64> {
    v.iter().map(|s| float(s)).collect()
}

fn tape_line(body: &str, mat: i32, mf: i32, mt: i32) -> String {
    format!("{body:<66}{mat:>4}{mf:>2}{mt:>3}\n")
}

fn f(v: f64) -> String {
    format!("{v:>11}")
}
fn i(v: i64) -> String {
    format!("{v:>11}")
}
fn blank() -> String {
    String::new()
}
fn line(fields: [String; 6]) -> String {
    format!("{:<66}9552 6  5\n", fields.concat())
}

/// Am-244: Legendre coefficients for elastic scattering, and the fission
/// spectrum as a simple Maxwellian.
fn am244() -> String {
    let mat = 9552;
    let l = |body: &str, mf: i32, mt: i32| tape_line(body, mat, mf, mt);
    tape_line(" tape id", 1, 0, 0)
        + &l(" 9.524400+4 2.419680+2          0          1          0          0", 4, 2)
        + &l(" 0.000000+0 2.419680+2          0          2          0          0", 4, 2)
        + &l(" 0.000000+0 0.000000+0          0          0          1          2", 4, 2)
        + &l("          2          2", 4, 2)
        + &l(" 0.000000+0 1.000000-5          0          0          1          0", 4, 2)
        + &l(" 0.000000+0", 4, 2)
        + &l(" 0.000000+0 2.000000+7          0          0          2          0", 4, 2)
        + &l(" 1.200000-1 3.000000-2", 4, 2)
        + &l("", 4, 0)
        + &l("", 0, 0)
        + &l(" 9.524400+4 2.419680+2          0          0          1          0", 5, 18)
        + &l("-2.000000+7 0.000000+0          0          7          1          2", 5, 18)
        + &l("          2          2", 5, 18)
        + &l(" 1.000000-5 1.000000+0 2.000000+7 1.000000+0", 5, 18)
        + &l(" 0.000000+0 0.000000+0          0          0          1          2", 5, 18)
        + &l("          2          2", 5, 18)
        + &l(" 1.000000-5 1.300000+6 2.000000+7 1.400000+6", 5, 18)
        + &l("", 5, 0)
        + &l("", 0, 0)
        + &tape_line("", 0, 0, 0)
        + &tape_line("", -1, 0, 0)
}

#[test]
fn reads_legendre_angular_distributions() {
    let m = Material::from_str(&am244()).unwrap();
    let d = m.mf4(2).expect("MF=4 MT=2 is present");
    assert_eq!(float(&d.za), 95244.0);
    // Elastic scattering is given in the centre-of-mass frame.
    assert_eq!(d.lct, 2);

    let leg = d.legendre.as_ref().expect("LTT=1 gives Legendre coefficients");
    assert_eq!(leg.energy.len(), leg.a_l.len());
    assert!(!leg.energy.is_empty());
    let energy = floats(&leg.energy);
    assert!(energy.windows(2).all(|w| w[1] >= w[0]));
    assert_eq!(floats(&leg.a_l[1]), [0.12, 0.03]);
    assert!(d.tabulated.is_none() && !d.had_transformation_matrix);
}

#[test]
fn reads_the_fission_neutron_spectrum() {
    let m = Material::from_str(&am244()).unwrap();
    let d = m.mf5(18).expect("MF=5 MT=18 is present");
    assert_eq!(float(&d.za), 95244.0);
    assert_eq!(d.subsections.len(), d.nk as usize);
    assert!(!d.subsections.is_empty());

    // The applicability of a single subsection is unity throughout.
    let sub = &d.subsections[0];
    assert!(sub.p.y.iter().all(|v| float(v) == 1.0));

    // Am244 gives its fission spectrum as a simple Maxwellian.
    assert_eq!(sub.lf, 7);
    match &sub.distribution {
        EnergyDistribution::MaxwellEnergy { u, theta } => {
            // U bounds the outgoing energy by 0 <= E' <= E - U, so a
            // negative U widens that range rather than narrowing it. This
            // evaluation uses -20 MeV.
            assert_eq!(float(u), -2.0e7);
            // Theta is the Maxwellian temperature in eV, constant here.
            assert!(!theta.x.is_empty());
            assert!(theta.y.iter().all(|v| float(v) > 0.0));
        }
        other => panic!("unexpected distribution {other:?}"),
    }
}

#[test]
fn an_unknown_energy_law_is_unsupported() {
    let text = line([f(95244.0), f(241.968), i(0), i(0), i(1), i(0)])
        + &line([f(0.0), f(0.0), i(0), i(3), i(1), i(2)])
        + &line([i(2), i(2), blank(), blank(), blank(), blank()])
        + &line([f(1.0e-5), f(1.0), f(2.0e7), f(1.0), blank(), blank()]);
    let err = parse_mf5(&mut Reader::new(&text)).unwrap_err();
    assert!(matches!(err, endf::error::Error::Unsupported { .. }), "{err:?}");
}

#[test]
fn a_watt_spectrum_has_two_parameters() {
    let text = line([f(92235.0), f(233.0), i(0), i(0), i(1), i(0)])
        + &line([f(-3.0e6), f(0.0), i(0), i(11), i(1), i(2)])
        + &line([i(2), i(2), blank(), blank(), blank(), blank()])
        + &line([f(1.0e-5), f(1.0), f(2.0e7), f(1.0), blank(), blank()])
        + &line([f(0.0), f(0.0), i(0), i(0), i(1), i(2)])
        + &line([i(2), i(2), blank(), blank(), blank(), blank()])
        + &line([f(1.0e-5), f(9.9e5), f(2.0e7), f(1.1e6), blank(), blank()])
        + &line([f(0.0), f(0.0), i(0), i(0), i(1), i(2)])
        + &line([i(2), i(2), blank(), blank(), blank(), blank()])
        + &line([f(1.0e-5), f(2.5e-6), f(2.0e7), f(2.6e-6), blank(), blank()]);
    let d = parse_mf5(&mut Reader::new(&text)).unwrap();
    match &d.subsections[0].distribution {
        EnergyDistribution::WattEnergy { u, a, b } => {
            assert_eq!(float(u), -3.0e6);
            assert_eq!(floats(&a.y), [9.9e5, 1.1e6]);
            assert_eq!(floats(&b.y), [2.5e-6, 2.6e-6]);
        }
        other => panic!("unexpected distribution {other:?}"),
    }
}

#[test]
fn continuum_rows_are_split_by_na() {
    // One neutron product, LAW=1 with NA=1: rows of three values.
    let text = line([f(4009.0), f(8.93), i(0), i(1), i(2), i(0)])
        + &line([f(1.0), f(1.0), i(0), i(1), i(1), i(2)])
        + &line([i(2), i(2), blank(), blank(), blank(), blank()])
        + &line([f(1.0e-5), f(2.0), f(2.0e7), f(2.0), blank(), blank()])
        + &line([f(0.0), f(0.0), i(2), i(2), i(1), i(1)])
        + &line([i(1), i(2), blank(), blank(), blank(), blank()])
        + &line([f(0.0), f(2.0e7), i(0), i(1), i(6), i(2)])
        + &line([f(0.0), f(1.0e-6), f(0.1), f(1.0e6), f(2.0e-7), f(0.2)])
        // The residual nucleus: LAW=0, nothing of its own.
        + &line([f(4008.0), f(7.94), i(0), i(0), i(1), i(2)])
        + &line([i(2), i(2), blank(), blank(), blank(), blank()])
        + &line([f(1.0e-5), f(1.0), f(2.0e7), f(1.0), blank(), blank()]);
    let d = parse_mf6(&mut Reader::new(&text)).unwrap();
    assert_eq!((d.jp, d.lct, d.nk), (0, 1, 2));
    let neutron = &d.products[0];
    assert_eq!(neutron.law, 1);
    match &neutron.distribution {
        Distribution::ContinuumEnergyAngle(c) => {
            assert_eq!((c.lang, c.lep, c.ne), (2, 2, 1));
            assert_eq!(floats(&c.energy), [2.0e7]);
            let sub = &c.distribution[0];
            assert_eq!((sub.na, sub.nep), (1, 2));
            assert_eq!(floats(&sub.e_out), [0.0, 1.0e6]);
            assert_eq!(floats(&sub.b[0]), [1.0e-6, 0.1]);
            assert_eq!(floats(&sub.b[1]), [2.0e-7, 0.2]);
        }
        other => panic!("unexpected distribution {other:?}"),
    }
    assert!(matches!(d.products[1].distribution, Distribution::Absent));
}

#[test]
fn n_body_phase_space_and_laboratory_laws() {
    let text = line([f(1002.0), f(1.99), i(0), i(1), i(2), i(0)])
        + &line([f(1.0), f(1.0), i(0), i(6), i(1), i(2)])
        + &line([i(2), i(2), blank(), blank(), blank(), blank()])
        + &line([f(1.0e-5), f(1.0), f(2.0e7), f(1.0), blank(), blank()])
        + &line([f(2.98), f(0.0), i(0), i(0), i(0), i(3)])
        + &line([f(1.0), f(1.0), i(0), i(7), i(1), i(2)])
        + &line([i(2), i(2), blank(), blank(), blank(), blank()])
        + &line([f(1.0e-5), f(1.0), f(2.0e7), f(1.0), blank(), blank()])
        + &line([f(0.0), f(0.0), i(0), i(0), i(1), i(1)])
        + &line([i(1), i(2), blank(), blank(), blank(), blank()])
        + &line([f(0.0), f(2.0e7), i(0), i(0), i(1), i(1)])
        + &line([i(1), i(2), blank(), blank(), blank(), blank()])
        + &line([f(0.0), f(-1.0), i(0), i(0), i(1), i(2)])
        + &line([i(2), i(2), blank(), blank(), blank(), blank()])
        + &line([f(0.0), f(0.5), f(1.0e7), f(0.5), blank(), blank()]);
    let d = parse_mf6(&mut Reader::new(&text)).unwrap();
    match &d.products[0].distribution {
        Distribution::NBodyPhaseSpace { apsx, npsx } => {
            assert_eq!(float(apsx), 2.98);
            assert_eq!(*npsx, 3);
        }
        other => panic!("unexpected distribution {other:?}"),
    }
    match &d.products[1].distribution {
        Distribution::LaboratoryAngleEnergy(lab) => {
            assert_eq!(lab.ne, 1);
            let sub = &lab.distribution[0];
            assert_eq!(float(&sub.energy), 2.0e7);
            assert_eq!(sub.nmu, 1);
            assert_eq!(float(&sub.mu[0].mu), -1.0);
            assert_eq!(floats(&sub.mu[0].f.y), [0.5, 0.5]);
        }
        other => panic!("unexpected distribution {other:?}"),
    }
    // Cut anywhere, the section is not read.
    let lines: Vec<&str> = text.lines().collect();
    for n in 0..lines.len() {
        let short = lines[..n].join("\n");
        assert!(parse_mf6(&mut Reader::new(&short)).is_err(), "{n} lines");
    }
}
