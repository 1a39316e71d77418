use endf::error::Error;
use endf::mf::photon::{parse_mf12, parse_mf13, parse_mf14, parse_mf15};
use endf::records::{float_buffer, Reader};

fn lines(bodies: &[&str], mf: i32, mt: i32) -> String {
    bodies.iter().map(|b| format!("{b:<66}{:>4}{mf:>2}{mt:>3}\n", 2631)).collect()
}

fn float(s: &str) -> f64 {
    String::from_utf8(float_buffer(s)).unwrap().parse().unwrap()
}

#[test]
fn multiplicities_of_one_photon_have_no_total() {
    let text = lines(
        &[
            " 1.001000+3 9.991673-1          1          0          1          0",
            " 2.224600+6 0.000000+0          0          2          1          2",
            "          2          2",
            " 1.000000-5 1.000000+0 2.000000+7 1.000000+0",
        ],
        12,
        102,
    );
    let mut r = Reader::new(&text);
    let d = parse_mf12(&mut r).unwrap();
    assert!(r.is_empty());
    assert_eq!((d.lo, d.nk), (1, 1));
    assert!(!d.unrecognised_lo);
    assert!(d.total_yield.is_none());
    assert_eq!(d.multiplicities.len(), 1);
    let m = &d.multiplicities[0];
    assert_eq!(float(&m.eg), 2.2246e6);
    assert_eq!((m.lp, m.lf), (0, 2));
    assert_eq!(m.y.x.len(), 2);
    assert!(d.lg.is_none());
    assert!(d.transitions.is_empty());
}

#[test]
fn transition_probabilities_carry_the_conditional_ones_for_lg_2() {
    let text = lines(
        &[
            " 9.223500+4 2.330248+2          2          2          1          0",
            " 1.000000+6 0.000000+0          0          0          6          2",
            " 5.000000+5 7.000000-1 9.000000-1 0.000000+0 3.000000-1 1.000000+0",
        ],
        12,
        51,
    );
    let mut r = Reader::new(&text);
    let d = parse_mf12(&mut r).unwrap();
    assert!(r.is_empty());
    assert_eq!(d.lo, 2);
    assert_eq!(d.lg, Some(2));
    assert_eq!(float(&d.es_ns), 1.0e6);
    assert_eq!(d.nt, 2);
    assert_eq!(d.transitions.len(), 2);
    assert_eq!(float(&d.transitions[0].es), 5.0e5);
    assert_eq!(float(&d.transitions[0].tp), 0.7);
    assert_eq!(d.transitions[0].gp.as_deref().map(float), Some(0.9));
    assert_eq!(float(&d.transitions[1].tp), 0.3);
    assert!(d.multiplicities.is_empty());
}

#[test]
fn transitions_without_lg_2_have_two_values_each() {
    let text = lines(
        &[
            " 9.223500+4 2.330248+2          2          1          1          0",
            " 1.000000+6 0.000000+0          0          0          4          2",
            " 5.000000+5 7.000000-1 0.000000+0 3.000000-1",
        ],
        12,
        51,
    );
    let mut r = Reader::new(&text);
    let d = parse_mf12(&mut r).unwrap();
    assert_eq!(d.transitions.len(), 2);
    assert!(d.transitions.iter().all(|t| t.gp.is_none()));
    assert_eq!(float(&d.transitions[1].tp), 0.3);
}

#[test]
fn an_unknown_lo_reads_no_further() {
    let text = lines(&[" 9.223500+4 2.330248+2          3          0          1          0"], 12, 51);
    let mut r = Reader::new(&text);
    let d = parse_mf12(&mut r).unwrap();
    assert!(d.unrecognised_lo);
    assert!(d.multiplicities.is_empty() && d.transitions.is_empty());
}

#[test]
fn production_cross_sections_of_two_photons_come_with_their_total() {
    let text = lines(
        &[
            " 2.605600+4 5.545400+1          0          0          2          0",
            " 0.000000+0 0.000000+0          0          0          1          2",
            "          2          2",
            " 1.000000+6 1.000000-1 2.000000+7 2.000000-1",
            " 8.468000+5 8.468000+5          0          0          1          2",
            "          2          2",
            " 1.000000+6 5.000000-2 2.000000+7 1.000000-1",
            " 1.238000+6 2.085000+6          0          0          1          2",
            "          2          2",
            " 1.000000+6 5.000000-2 2.000000+7 1.000000-1",
        ],
        13,
        4,
    );
    let mut r = Reader::new(&text);
    let d = parse_mf13(&mut r).unwrap();
    assert!(r.is_empty());
    assert_eq!(d.nk, 2);
    assert_eq!(float(&d.sigma_total.unwrap().y[1]), 0.2);
    assert_eq!(d.photons.len(), 2);
    assert_eq!(float(&d.photons[1].eg), 1.238e6);
    assert_eq!(float(&d.photons[1].es), 2.085e6);
}

#[test]
fn a_production_section_cut_short_is_an_unexpected_end() {
    let text = lines(
        &[
            " 2.605600+4 5.545400+1          0          0          2          0",
            " 0.000000+0 0.000000+0          0          0          1          2",
            "          2          2",
            " 1.000000+6 1.000000-1 2.000000+7 2.000000-1",
        ],
        13,
        4,
    );
    let mut r = Reader::new(&text);
    assert!(matches!(parse_mf13(&mut r), Err(Error::UnexpectedEof { .. })));
}

#[test]
fn all_isotropic_photons_read_nothing_more() {
    let text = lines(&[" 2.605600+4 5.545400+1          1          0          2          0"], 14, 4);
    let mut r = Reader::new(&text);
    let d = parse_mf14(&mut r).unwrap();
    assert_eq!(d.li, 1);
    assert!(d.ltt.is_none() && d.ni.is_none());
    assert!(d.subsections.is_empty());
}

#[test]
fn isotropic_photons_come_before_the_anisotropic_ones() {
    let text = lines(
        &[
            " 2.605600+4 5.545400+1          0          1          2          1",
            " 8.468000+5 8.468000+5          0          0          0          0",
            " 1.238000+6 2.085000+6          0          0          1          2",
            "          2          2",
            " 0.000000+0 1.000000+6          0          0          1          0",
            " 1.000000-1",
            " 0.000000+0 2.000000+7          0          0          2          0",
            " 1.000000-1 2.000000-2",
        ],
        14,
        4,
    );
    let mut r = Reader::new(&text);
    let d = parse_mf14(&mut r).unwrap();
    assert!(r.is_empty());
    assert_eq!((d.ltt, d.ni), (Some(1), Some(1)));
    assert_eq!(d.subsections.len(), 2);
    assert!(d.subsections[0].isotropic);
    assert_eq!(float(&d.subsections[0].eg), 8.468e5);
    let a = &d.subsections[1];
    assert!(!a.isotropic);
    assert_eq!(a.ne, 2);
    assert_eq!(a.energy.len(), 2);
    assert_eq!(float(&a.energy[1]), 2.0e7);
    assert_eq!(a.nl, [1, 2]);
    assert_eq!(a.a_lk[1].len(), 2);
    assert_eq!(float(&a.a_lk[1][1]), 0.02);
}

#[test]
fn a_continuum_photon_spectrum_at_two_energies() {
    let text = lines(
        &[
            " 9.223500+4 2.330248+2          0          0          1          0",
            " 0.000000+0 0.000000+0          0          1          1          2",
            "          2          2",
            " 1.000000-5 1.000000+0 2.000000+7 1.000000+0",
            " 0.000000+0 0.000000+0          0          0          1          2",
            "          2          2",
            " 0.000000+0 1.000000-5          0          0          1          2",
            "          2          2",
            " 0.000000+0 0.000000+0 1.000000+7 1.000000-7",
            " 0.000000+0 2.000000+7          0          0          1          2",
            "          2          2",
            " 0.000000+0 0.000000+0 1.000000+7 2.000000-7",
        ],
        15,
        18,
    );
    let mut r = Reader::new(&text);
    let d = parse_mf15(&mut r).unwrap();
    assert!(r.is_empty());
    assert_eq!(d.nc, 1);
    assert_eq!(d.subsections.len(), 1);
    let s = &d.subsections[0];
    assert_eq!(s.lf, 1);
    assert_eq!(s.ne, 2);
    assert_eq!(s.energy.len(), 2);
    assert_eq!(float(&s.energy[1]), 2.0e7);
    assert_eq!(float(&s.g[1].y[1]), 2.0e-7);
}
