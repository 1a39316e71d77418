use endf::error::Error;
use endf::material::Material;
use endf::mf::mf2::{parse_mf2, ResonanceParameters, UnresolvedParameters};
use endf::records::{float_buffer, Reader};

fn float(s: &str) -> f64 {
    if s.trim().is_empty() {
        return 0.0;
    }
    String::from_utf8(float_buffer(s)).unwrap().parse().unwrap()
}

fn floats(v: &[String]) -> Vec<f64> {
    v.iter().map(|s| float(s)).collect()
}

// Plain decimals, right-justified in the format's 11-column fields.
fn f(v: f64) -> String {
    format!("{v:>11}")
}
fn i(v: i64) -> String {
    format!("{v:>11}")
}
fn line(fields: [String; 6]) -> String {
    format!("{:<66}9999 2151\n", fields.concat())
}
fn tape_line(body: &str, mat: i32, mf: i32, mt: i32) -> String {
    format!("{body:<66}{mat:>4}{mf:>2}{mt:>3}\n")
}

/// Am-244 gives no resonance parameters, only the scattering radius.
fn am244() -> String {
    let mat = 9552;
    tape_line(" tape id", 1, 0, 0)
        + &tape_line(" 9.524400+4 2.419680+2          0          0          1          0", mat, 2, 151)
        + &tape_line(" 9.524400+4 1.000000+0          0          0          1          0", mat, 2, 151)
        + &tape_line(" 1.000000-5 1.000000+2          0          0          0          0", mat, 2, 151)
        + &tape_line(" 0.000000+0 9.600000-1          0          0          0          0", mat, 2, 151)
        + &tape_line("", mat, 2, 0)
        + &tape_line("", mat, 0, 0)
        + &tape_line("", 0, 0, 0)
        + &tape_line("", -1, 0, 0)
}

#[test]
fn reads_a_scattering_radius_only_range() {
    let m = Material::from_str(&am244()).unwrap();
    let d = m.mf2().expect("MF=2 MT=151 is present");
    assert_eq!(float(&d.za), 95244.0);
    assert_eq!(d.isotopes.len(), 1);
    let iso = &d.isotopes[0];
    assert_eq!(iso.ranges.len(), iso.ner as usize);

    // This evaluation gives no resonance parameters, only the radius.
    let range = &iso.ranges[0];
    assert_eq!(range.lru, 0);
    assert_eq!(range.lrf, 0);
    match &range.parameters {
        ResonanceParameters::ScatteringRadius { ap, .. } => assert!(float(ap) > 0.0),
        other => panic!("expected a scattering radius, got {other:?}"),
    }
}

/// An unresolved range with LRF=1, Case A, is read, and its records are
/// consumed so a following range stays aligned.
#[test]
fn an_unresolved_range_with_lrf_1_is_read() {
    // NIS=1; LFW=0 and NER=2, so a Case A range and then a resolved one.
    let text = line([f(95244.0), f(241.968), i(0), i(0), i(1), i(0)])
        + &line([f(95244.0), f(1.0), i(0), i(0), i(2), i(0)])
        // Range 1: LRU=2, LRF=1.
        + &line([f(100.0), f(1000.0), i(2), i(1), i(0), i(0)])
        + &line([f(2.5), f(0.9), i(0), i(0), i(1), i(0)])
        + &line([f(241.968), f(0.0), i(0), i(0), i(6), i(1)])
        + &line([f(10.0), f(3.0), f(1.0), f(0.5), f(0.04), f(0.0)])
        // Range 2: LRU=1, LRF=2, one resonance. Only reachable if the
        // range above consumed exactly its own two records.
        + &line([f(1000.0), f(9000.0), i(1), i(2), i(0), i(0)])
        + &line([f(2.5), f(0.9), i(0), i(0), i(1), i(0)])
        + &line([f(241.968), f(0.0), i(0), i(0), i(6), i(1)])
        + &line([f(500.0), f(3.0), f(1.2), f(1.0), f(0.2), f(0.0)]);

    let d = parse_mf2(&mut Reader::new(&text)).unwrap();
    assert_eq!(d.isotopes[0].ranges.len(), 2);

    let range = &d.isotopes[0].ranges[0];
    assert_eq!((range.lru, range.lrf), (2, 1));
    match &range.parameters {
        ResonanceParameters::Unresolved(u) => {
            assert_eq!(float(&u.spi), 2.5);
            assert_eq!(float(&u.ap), 0.9);
            assert_eq!(u.nls, 1);
            // Case A: energy-independent parameters, not a `parameters`
            // list, which is what Cases B and C build.
            assert_eq!(floats(&u.ranges[0].d), [10.0]);
            assert_eq!(floats(&u.ranges[0].gno), [0.5]);
            assert!(u.ranges[0].parameters.is_empty());
        }
        other => panic!("expected unresolved Case A parameters, got {other:?}"),
    }

    // The range after it is read from its own header.
    let after = &d.isotopes[0].ranges[1];
    assert_eq!((after.lru, after.lrf), (1, 2));
    assert_eq!((float(&after.el), float(&after.eh)), (1000.0, 9000.0));
    match &after.parameters {
        ResonanceParameters::BreitWigner(b) => assert_eq!(floats(&b.sections[0].er), [500.0]),
        other => panic!("expected Breit-Wigner parameters, got {other:?}"),
    }
}

#[test]
fn reich_moore_with_an_energy_dependent_radius() {
    // NRO=1 puts a TAB1 record for the radius before the CONT record.
    let text = line([f(26056.0), f(55.454), i(0), i(0), i(1), i(0)])
        + &line([f(26056.0), f(1.0), i(0), i(0), i(1), i(0)])
        + &line([f(1.0e-5), f(8.5e5), i(1), i(3), i(1), i(0)])
        + &line([f(0.0), f(0.0), i(0), i(0), i(1), i(2)])
        + &line([i(2), i(2), String::new(), String::new(), String::new(), String::new()])
        + &line([f(1.0e-5), f(0.6), f(8.5e5), f(0.55), String::new(), String::new()])
        + &line([f(0.0), f(0.54), i(0), i(0), i(1), i(0)])
        + &line([f(55.454), f(0.54), i(0), i(0), i(12), i(2)])
        + &line([f(1150.0), f(0.5), f(0.06), f(0.9), f(0.0), f(0.0)])
        + &line([f(2300.0), f(0.5), f(0.04), f(1.1), f(0.0), f(0.0)]);
    let d = parse_mf2(&mut Reader::new(&text)).unwrap();
    let range = &d.isotopes[0].ranges[0];
    match &range.parameters {
        ResonanceParameters::ReichMoore(rm) => {
            let ape = rm.ape.as_ref().expect("NRO=1 gives the radius as a function");
            assert_eq!(floats(&ape.y), [0.6, 0.55]);
            assert_eq!(float(&rm.ap), 0.54);
            assert_eq!(rm.nls, 1);
            let s = &rm.sections[0];
            assert_eq!(s.nrs, 2);
            assert_eq!(floats(&s.er), [1150.0, 2300.0]);
            assert_eq!(floats(&s.gn), [0.06, 0.04]);
            assert_eq!(floats(&s.gg), [0.9, 1.1]);
        }
        other => panic!("expected Reich-Moore parameters, got {other:?}"),
    }
}

#[test]
fn r_matrix_limited_transposes_the_widths() {
    // One spin group with two channels and two resonances, and a
    // background R-matrix given by its energy bounds (LBK=2).
    let text = line([f(17035.0), f(34.6), i(0), i(0), i(1), i(0)])
        + &line([f(17035.0), f(1.0), i(0), i(0), i(1), i(0)])
        + &line([f(1.0e-5), f(1.2e6), i(1), i(7), i(0), i(0)])
        + &line([f(0.0), f(0.0), i(0), i(3), i(1), i(0)])
        + &line([f(0.0), f(0.0), i(2), i(0), i(24), i(4)])
        + &line([f(0.0), f(1.0), f(0.0), f(17.0), f(0.0), f(1.5)])
        + &line([f(0.0), f(0.0), f(0.0), f(102.0), f(0.0), f(0.0)])
        + &line([f(1.0), f(34.6), f(0.0), f(17.0), f(0.5), f(1.5)])
        + &line([f(0.0), f(0.0), f(1.0), f(2.0), f(0.0), f(0.0)])
        + &line([f(1.0), f(0.0), i(1), i(0), i(12), i(2)])
        + &line([f(1.0), f(0.0), f(0.0), f(0.0), f(0.0), f(0.48)])
        + &line([f(2.0), f(1.0), f(0.5), f(0.0), f(0.48), f(0.48)])
        + &line([f(0.0), f(0.0), i(0), i(2), i(6), i(2)])
        + &line([f(100.0), f(0.1), f(0.2), f(200.0), f(0.3), f(0.4)])
        + &line([f(0.0), f(0.0), i(1), i(2), i(0), i(0)])
        + &line([f(1.0e-5), f(1.2e6), i(0), i(0), i(0), i(0)]);
    let d = parse_mf2(&mut Reader::new(&text)).unwrap();
    match &d.isotopes[0].ranges[0].parameters {
        ResonanceParameters::RMatrixLimited(rml) => {
            assert_eq!((rml.krm, rml.njs, rml.npp), (3, 1, 2));
            assert_eq!(floats(&rml.particle_pairs.mt), [102.0, 2.0]);
            let g = &rml.spin_groups[0];
            assert_eq!((g.kbk, g.kps, g.nch), (1, 0, 2));
            assert_eq!(floats(&g.channels.ppi), [1.0, 2.0]);
            assert_eq!((g.nrs, g.nx), (2, 2));
            assert_eq!(floats(&g.er), [100.0, 200.0]);
            // Stored resonance by resonance, returned channel by channel.
            assert_eq!(floats(&g.gam[0]), [0.1, 0.3]);
            assert_eq!(floats(&g.gam[1]), [0.2, 0.4]);
            assert_eq!((g.lch, g.lbk), (Some(1), Some(2)));
            assert_eq!(float(g.eu.as_ref().unwrap()), 1.2e6);
            assert!(g.rbr.is_none() && g.lps.is_none());
        }
        other => panic!("expected R-matrix limited parameters, got {other:?}"),
    }
}

#[test]
fn unresolved_cases_b_and_c() {
    // LFW=1, so an LRF=1 range is Case B; an LRF=2 range is Case C.
    let text = line([f(94239.0), f(236.99), i(0), i(0), i(1), i(0)])
        + &line([f(94239.0), f(1.0), i(0), i(1), i(2), i(0)])
        // Case B: the energies the fission widths are given on, then one
        // L with one J.
        + &line([f(2500.0), f(3.0e4), i(2), i(1), i(0), i(0)])
        + &line([f(0.5), f(0.94), i(0), i(0), i(2), i(1)])
        + &line([f(2500.0), f(3.0e4), String::new(), String::new(), String::new(), String::new()])
        + &line([f(236.99), f(0.0), i(0), i(0), i(1), i(0)])
        + &line([f(0.0), f(0.0), i(0), i(1), i(8), i(0)])
        + &line([f(9.0), f(0.5), f(1.0), f(1.0e-3), f(0.04), f(0.0)])
        + &line([f(0.1), f(0.2), String::new(), String::new(), String::new(), String::new()])
        // Case C: one L with one J at two energies.
        + &line([f(3.0e4), f(1.0e5), i(2), i(2), i(0), i(0)])
        + &line([f(0.5), f(0.94), i(0), i(0), i(1), i(0)])
        + &line([f(236.99), f(0.0), i(0), i(0), i(1), i(0)])
        + &line([f(0.5), f(0.0), i(2), i(0), i(18), i(2)])
        + &line([f(0.0), f(0.0), f(1.0), f(1.0), f(0.0), f(2.0)])
        + &line([f(3.0e4), f(9.0), f(0.0), f(1.0e-3), f(0.04), f(0.1)])
        + &line([f(1.0e5), f(8.0), f(0.0), f(2.0e-3), f(0.05), f(0.3)]);
    let d = parse_mf2(&mut Reader::new(&text)).unwrap();
    let ranges = &d.isotopes[0].ranges;
    match &ranges[0].parameters {
        ResonanceParameters::Unresolved(u) => {
            assert_eq!(u.ne, Some(2));
            assert_eq!(floats(&u.es), [2500.0, 3.0e4]);
            match &u.ranges[0].parameters[0] {
                UnresolvedParameters::CaseB { muf, d, gf, .. } => {
                    assert_eq!(*muf, 1);
                    assert_eq!(float(d), 9.0);
                    assert_eq!(floats(gf), [0.1, 0.2]);
                }
                other => panic!("expected Case B, got {other:?}"),
            }
        }
        other => panic!("expected unresolved parameters, got {other:?}"),
    }
    match &ranges[1].parameters {
        ResonanceParameters::Unresolved(u) => {
            assert_eq!(u.ne, None);
            match &u.ranges[0].parameters[0] {
                UnresolvedParameters::CaseC { interpolation, ne, amuf, e, gf, .. } => {
                    assert_eq!((*interpolation, *ne), (2, 2));
                    assert_eq!(float(amuf), 2.0);
                    assert_eq!(floats(e), [3.0e4, 1.0e5]);
                    assert_eq!(floats(gf), [0.1, 0.3]);
                }
                other => panic!("expected Case C, got {other:?}"),
            }
        }
        other => panic!("expected unresolved parameters, got {other:?}"),
    }
}

#[test]
fn the_adler_adler_formalism_is_unsupported() {
    let text = line([f(95244.0), f(241.968), i(0), i(0), i(1), i(0)])
        + &line([f(95244.0), f(1.0), i(0), i(0), i(1), i(0)])
        + &line([f(1.0e-5), f(100.0), i(1), i(4), i(0), i(0)]);
    let err = parse_mf2(&mut Reader::new(&text)).unwrap_err();
    assert!(matches!(err, Error::Unsupported { .. }), "{err:?}");
    // A range that is cut short is merely short.
    let short: String = text.lines().take(2).map(|l| format!("{l}\n")).collect();
    let err = parse_mf2(&mut Reader::new(&short)).unwrap_err();
    assert!(matches!(err, Error::UnexpectedEof { .. }), "{err:?}");
}
