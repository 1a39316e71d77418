use endf::error::Error;
use endf::mf::mf7::{parse_mf7_mt2, parse_mf7_mt4_start, parse_mf7_mt4_tables, parse_mf7_mt451, Mf7Mt4};
use endf::records::{float_buffer, Reader};

fn line(body: &str, mt: i32) -> String {
    format!("{body:<66}{:>4}{:>2}{mt:>3}\n", 1, 7)
}

fn lines(bodies: &[&str], mt: i32) -> String {
    bodies.iter().map(|b| line(b, mt)).collect()
}

fn float(s: &str) -> f64 {
    String::from_utf8(float_buffer(s)).unwrap().parse().unwrap()
}

/// The MT=4 reading with the judgments on the B list made here, as floats.
fn mt4(text: &str) -> Result<Mf7Mt4, Error> {
    let mut r = Reader::new(text);
    let data = parse_mf7_mt4_start(&mut r)?;
    let tabulated = data.b.first().map(|b| float(b)).unwrap_or(0.0) > 0.0;
    let is_zero: Vec<bool> = data.b.iter().map(|b| float(b) == 0.0).collect();
    let d = parse_mf7_mt4_tables(&mut r, data, tabulated, &is_zero)?;
    assert!(r.is_empty());
    Ok(d)
}

#[test]
fn coherent_elastic_keeps_each_temperature() {
    let text = lines(
        &[
            " 1.001000+3 9.991673-1          1          0          0          0",
            " 2.960000+2 0.000000+0          1          0          1          2",
            "          2          1",
            " 1.000000-3 0.000000+0 5.000000-3 2.500000+0",
            " 4.000000+2 0.000000+0          2          0          2          0",
            " 0.000000+0 2.400000+0",
        ],
        2,
    );
    let mut r = Reader::new(&text);
    let d = parse_mf7_mt2(&mut r).unwrap();
    assert!(r.is_empty());
    assert_eq!(d.lthr, 1);
    assert!(d.incoherent.is_none());
    let c = d.coherent.unwrap();
    assert_eq!(float(&c.t), 296.0);
    assert_eq!(c.lt, 1);
    assert_eq!(c.s.x.len(), 2);
    assert_eq!(float(&c.s.y[1]), 2.5);
    assert_eq!(c.others.len(), 1);
    assert_eq!(float(&c.others[0].t), 400.0);
    assert_eq!(c.others[0].li, 2);
    assert_eq!(c.others[0].s.len(), 2);
    assert_eq!(float(&c.others[0].s[1]), 2.4);
}

#[test]
fn incoherent_elastic_is_a_bound_cross_section_and_a_debye_waller_integral() {
    let text = lines(
        &[
            " 1.001000+3 9.991673-1          2          0          0          0",
            " 8.000000+1 0.000000+0          0          0          1          2",
            "          2          2",
            " 2.960000+2 1.500000+1 4.000000+2 1.800000+1",
        ],
        2,
    );
    let mut r = Reader::new(&text);
    let d = parse_mf7_mt2(&mut r).unwrap();
    assert!(d.coherent.is_none());
    let x = d.incoherent.unwrap();
    assert_eq!(float(&x.sb), 80.0);
    assert_eq!(float(&x.w.y[1]), 18.0);
}

#[test]
fn a_short_elastic_section_is_an_unexpected_end() {
    let text = lines(&[" 1.001000+3 9.991673-1          2          0          0          0"], 2);
    let mut r = Reader::new(&text);
    assert!(matches!(parse_mf7_mt2(&mut r), Err(Error::UnexpectedEof { .. })));
}

/// A principal atom with tabulated S(alpha, beta) at one beta, and one
/// secondary atom whose flag in the B list is `flag`.
fn mt4_text(b1: &str, flag: &str, with_secondary_teff: bool) -> String {
    let mut bodies = vec![
        " 1.001000+3 9.991673-1          0          0          0          0",
        " 0.000000+0 0.000000+0          0          0         12          1",
    ];
    let b_first = format!("{b1} 1.985000+2 9.991673-1 5.000000+0 0.000000+0 1.000000+0");
    let b_second = format!("{flag} 3.700000+0 1.585000+1 1.000000+0 0.000000+0 0.000000+0");
    bodies.push(&b_first);
    bodies.push(&b_second);
    if float(b1) > 0.0 {
        bodies.extend([
            " 0.000000+0 0.000000+0          0          0          1          1",
            "          1          4",
            " 2.936000+2 0.000000+0          0          0          1          3",
            "          3          4",
            " 1.000000-2 1.000000-1 2.000000-2 9.000000-2 3.000000-2 8.000000-2",
        ]);
    }
    bodies.extend([
        " 0.000000+0 0.000000+0          0          0          1          1",
        "          1          2",
        " 2.936000+2 1.200000+3",
    ]);
    if with_secondary_teff {
        bodies.extend([
            " 0.000000+0 0.000000+0          0          0          1          1",
            "          1          2",
            " 2.936000+2 4.500000+2",
        ]);
    }
    lines(&bodies, 4)
}

#[test]
fn a_tabulated_scattering_law_and_two_effective_temperatures() {
    let d = mt4(&mt4_text(" 2.043600+1", " 0.000000+0", true)).unwrap();
    assert_eq!((d.lat, d.lasym, d.lln, d.ni, d.ns), (0, 0, 0, 12, 1));
    assert_eq!(d.b.len(), 12);
    assert_eq!(d.nb, 1);
    assert!(d.beta_int.is_some());
    assert_eq!(d.beta_data.len(), 1);
    let law = &d.beta_data[0];
    assert_eq!(float(&law.t), 293.6);
    assert_eq!(float(&law.beta), 0.0);
    assert_eq!(law.s.x.len(), 3);
    assert!(law.others.is_empty());
    assert_eq!(d.teff.len(), 2);
    assert_eq!(float(&d.teff[0].y[0]), 1200.0);
    assert_eq!(float(&d.teff[1].y[0]), 450.0);
}

#[test]
fn an_analytic_secondary_atom_has_no_effective_temperature() {
    let d = mt4(&mt4_text(" 2.043600+1", " 1.000000+0", false)).unwrap();
    assert_eq!(d.teff.len(), 1);
}

#[test]
fn an_analytic_principal_atom_has_no_tabulation() {
    let d = mt4(&mt4_text(" 0.000000+0", " 1.000000+0", false)).unwrap();
    assert!(d.beta_int.is_none());
    assert_eq!(d.nb, 0);
    assert!(d.beta_data.is_empty());
    assert_eq!(d.teff.len(), 1);
}

#[test]
fn a_b_list_too_short_for_its_atoms_is_unsupported() {
    let text = lines(
        &[
            " 1.001000+3 9.991673-1          0          0          0          0",
            " 0.000000+0 0.000000+0          0          0          6          1",
            " 0.000000+0 1.985000+2 9.991673-1 5.000000+0 0.000000+0 1.000000+0",
            " 0.000000+0 0.000000+0          0          0          1          1",
            "          1          2",
            " 2.936000+2 1.200000+3",
        ],
        4,
    );
    assert!(matches!(mt4(&text), Err(Error::Unsupported { .. })));
}

#[test]
fn a_missing_effective_temperature_is_an_unexpected_end() {
    let text = mt4_text(" 2.043600+1", " 0.000000+0", false);
    assert!(matches!(mt4(&text), Err(Error::UnexpectedEof { .. })));
}

#[test]
fn reads_the_elements_of_a_thermal_material() {
    let text = lines(
        &[
            " 1.001000+3 9.991673-1          1          0          0          0",
            " 0.000000+0 0.000000+0          1          0          6          1",
            " 1.001000+3 0.000000+0 1.000000+0 9.991673-1 2.043600+1 0.000000+0",
        ],
        451,
    );
    let mut r = Reader::new(&text);
    let d = parse_mf7_mt451(&mut r).unwrap();
    assert_eq!(d.na, 1);
    assert_eq!(d.elements.len(), 1);
    let e = &d.elements[0];
    assert_eq!((e.nas, e.ni), (1, 1));
    assert_eq!(e.zai.len(), 1);
    assert_eq!(float(&e.zai[0]), 1001.0);
    assert_eq!(float(&e.afi[0]), 1.0);
    assert_eq!(float(&e.sfi[0]), 20.436);
}
