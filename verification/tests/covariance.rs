use endf::error::Error;
use endf::mf::covariance::{parse_mf33, parse_mf33_subsection, parse_mf34, parse_mf40};
use endf::records::{float_buffer, Reader};

fn f(v: f64) -> String {
    format!("{v:>11}")
}
fn i(v: i64) -> String {
    format!("{v:>11}")
}
fn line(fields: [String; 6]) -> String {
    format!("{:<66}9999341251\n", fields.concat())
}

fn float(s: &str) -> f64 {
    if s.trim().is_empty() {
        return 0.0;
    }
    String::from_utf8(float_buffer(s)).unwrap().parse().unwrap()
}

fn floats(v: &[String]) -> Vec<f64> {
    v.iter().map(|s| float(s)).collect()
}

/// MF=34 keeps its subsections, and LB holds LB rather than a copy of LS.
#[test]
fn mf34_keeps_its_subsections_and_reads_lb() {
    // NMT1=1; one (L, L1) pair; one NI block with LS=7 and LB=5, chosen
    // so that copying one into the other is unmistakable.
    let text = line([f(26000.0), f(55.365), i(0), i(1), i(0), i(1)])
        + &line([f(0.0), f(0.0), i(0), i(0), i(1), i(1)])
        + &line([f(0.0), f(0.0), i(1), i(1), i(1), i(1)])
        + &line([f(0.0), f(0.0), i(7), i(5), i(2), i(1)])
        + &line([f(1.0), f(2.0), f(0.0), f(0.0), f(0.0), f(0.0)]);

    let d = parse_mf34(&mut Reader::new(&text), 251).unwrap();
    assert_eq!(d.nmt1, 1);
    assert_eq!(d.subsections.len(), 1, "the parsed subsection is kept");

    let sub = &d.subsections[0];
    assert_eq!(sub.nl, 1);
    assert_eq!(sub.subsubsections.len(), 1);

    let subsub = &sub.subsubsections[0];
    assert_eq!(subsub.ls, [7], "LS is the symmetry flag");
    assert_eq!(subsub.lb, [5], "LB is the matrix type, not a copy of LS");
    assert_eq!(subsub.nt, [2]);
    assert_eq!(floats(&subsub.data[0]), [1.0, 2.0]);
}

#[test]
fn mf33_reads_an_ni_subsection() {
    // NC=0, NI=1, LB=5: a covariance matrix with its energy grid.
    let text = line([f(0.0), f(0.0), i(0), i(2), i(0), i(1)])
        + &line([f(0.0), f(0.0), i(1), i(5), i(5), i(3)])
        + &line([f(1.0), f(2.0), f(3.0), f(10.0), f(20.0), f(0.0)]);

    let sub = parse_mf33_subsection(&mut Reader::new(&text)).unwrap();
    assert_eq!(sub.mt1, 2);
    assert_eq!(sub.ni_subsections.len(), 1);
    let ni = &sub.ni_subsections[0];
    assert_eq!(ni.lb, 5);
    assert_eq!(ni.ne, 3);
    assert_eq!(floats(&ni.ek), vec![1.0, 2.0, 3.0]);
    assert_eq!(floats(&ni.fkk), vec![10.0, 20.0]);
}

#[test]
fn the_symmetric_self_covariance_stores_the_upper_triangle() {
    // MT1 equals the section's MT and NL=2: three (L, L1) pairs.
    let mut text = line([f(26000.0), f(55.365), i(0), i(1), i(0), i(1)])
        + &line([f(0.0), f(0.0), i(0), i(2), i(2), i(2)]);
    for (l, l1) in [(1, 1), (1, 2), (2, 2)] {
        text += &line([f(0.0), f(0.0), i(l), i(l1), i(9), i(0)]);
    }
    let d = parse_mf34(&mut Reader::new(&text), 2).unwrap();
    let sub = &d.subsections[0];
    assert_eq!(sub.nss, 3);
    assert_eq!(sub.l, [1, 1, 2]);
    assert_eq!(sub.l1, [1, 2, 2]);
    assert_eq!(sub.lct, 9, "LCT comes from the first pair");
    // Against another reaction every pair is stored: NL * NL1, so the same
    // lines fall one pair short.
    assert!(parse_mf34(&mut Reader::new(&text), 51).is_err());
    text += &line([f(0.0), f(0.0), i(2), i(1), i(9), i(0)]);
    let d = parse_mf34(&mut Reader::new(&text), 51).unwrap();
    assert_eq!(d.subsections[0].nss, 4);
    assert_eq!(d.subsections[0].l1, [1, 2, 2, 1]);
}

#[test]
fn nc_subsections_give_their_coefficients() {
    // NC=2: LTY=0, then LTY=1; NI=0.
    let text = line([f(0.0), f(0.0), i(0), i(102), i(2), i(0)])
        + &line([f(0.0), f(0.0), i(0), i(0), i(0), i(0)])
        + &line([f(1.0e5), f(2.0e7), i(0), i(0), i(4), i(2)])
        + &line([f(1.0), f(2.0), f(-1.0), f(4.0), f(0.0), f(0.0)])
        + &line([f(0.0), f(0.0), i(0), i(1), i(0), i(0)])
        + &line([f(1.0e5), f(2.0e7), i(9237), i(18), i(6), i(2)])
        + &line([f(3.0), f(0.0), f(1.0e5), f(0.5), f(1.0e6), f(0.25)]);
    let sub = parse_mf33_subsection(&mut Reader::new(&text)).unwrap();
    assert_eq!(sub.nc_subsections.len(), 2, "one entry per NC subsection");
    let derived = &sub.nc_subsections[0];
    assert_eq!(derived.lty, 0);
    assert_eq!(derived.nci, 2);
    assert_eq!(floats(&derived.ci), [1.0, -1.0]);
    assert_eq!(floats(&derived.xmti), [2.0, 4.0]);
    let other = &sub.nc_subsections[1];
    assert_eq!((other.lty, other.mats, other.mts, other.nei), (1, 9237, 18, 2));
    assert_eq!(float(&other.xmfs), 3.0);
    assert_eq!(floats(&other.ei), [1.0e5, 1.0e6]);
    assert_eq!(floats(&other.wei), [0.5, 0.25]);
    assert!(other.ci.is_empty());
}

#[test]
fn ni_layouts_follow_lb() {
    // LB=1 with NT=6 values and NP=2: (E, F) pairs split after NT - NP.
    let text = line([f(0.0), f(0.0), i(0), i(2), i(0), i(3)])
        + &line([f(0.0), f(0.0), i(0), i(1), i(6), i(2)])
        + &line([f(1.0), f(0.1), f(2.0), f(0.2), f(5.0), f(0.5)])
        // LB=6: NT=7, NER=2, so NEC = (7 - 1) / 2 = 3.
        + &line([f(0.0), f(0.0), i(0), i(6), i(7), i(2)])
        + &line([f(1.0), f(2.0), f(10.0), f(20.0), f(30.0), f(0.9)])
        + &line([f(0.8), f(0.0), f(0.0), f(0.0), f(0.0), f(0.0)])
        // LB=8: one table.
        + &line([f(0.0), f(0.0), i(0), i(8), i(4), i(2)])
        + &line([f(1.0), f(0.3), f(2.0), f(0.4), f(0.0), f(0.0)]);
    let sub = parse_mf33_subsection(&mut Reader::new(&text)).unwrap();
    let two = &sub.ni_subsections[0];
    assert_eq!(floats(&two.ek), [1.0, 2.0]);
    assert_eq!(floats(&two.fk), [0.1, 0.2]);
    assert_eq!(floats(&two.el), [5.0]);
    assert_eq!(floats(&two.fl), [0.5]);
    let rect = &sub.ni_subsections[1];
    assert_eq!((rect.ner, rect.nec), (2, 3));
    assert_eq!(floats(&rect.er), [1.0, 2.0]);
    assert_eq!(floats(&rect.ec), [10.0, 20.0, 30.0]);
    assert_eq!(floats(&rect.fkl), [0.9, 0.8]);
    let one = &sub.ni_subsections[2];
    assert_eq!((one.lb, one.np), (8, 2));
    assert_eq!(floats(&one.ek), [1.0, 2.0]);
    assert_eq!(floats(&one.fk), [0.3, 0.4]);
    assert!(one.el.is_empty());
}

#[test]
fn an_unknown_lb_is_unsupported() {
    let text = line([f(0.0), f(0.0), i(0), i(2), i(0), i(1)])
        + &line([f(0.0), f(0.0), i(0), i(7), i(2), i(0)])
        + &line([f(1.0), f(2.0), f(0.0), f(0.0), f(0.0), f(0.0)]);
    let err = parse_mf33_subsection(&mut Reader::new(&text)).unwrap_err();
    assert!(matches!(err, Error::Unsupported { .. }), "{err:?}");
    // Cut before the record, the same section is merely short.
    let short: String = text.lines().take(1).map(|l| format!("{l}\n")).collect();
    let err = parse_mf33_subsection(&mut Reader::new(&short)).unwrap_err();
    assert!(matches!(err, Error::UnexpectedEof { .. }), "{err:?}");
}

#[test]
fn an_mf33_section_holds_nl_subsections() {
    let sub = line([f(0.0), f(0.0), i(0), i(2), i(0), i(1)])
        + &line([f(0.0), f(0.0), i(1), i(5), i(3), i(2)])
        + &line([f(1.0), f(2.0), f(0.04), f(0.0), f(0.0), f(0.0)]);
    let text = line([f(26056.0), f(55.454), i(0), i(0), i(0), i(2)]) + &sub + &sub;
    let d = parse_mf33(&mut Reader::new(&text)).unwrap();
    assert_eq!(float(&d.za), 26056.0);
    assert_eq!(d.nl, 2);
    assert_eq!(d.subsections.len(), 2);
    assert_eq!(floats(&d.subsections[1].ni_subsections[0].fkk), [0.04]);
    let lines: Vec<&str> = text.lines().collect();
    for n in 0..lines.len() {
        let short = lines[..n].join("\n");
        assert!(parse_mf33(&mut Reader::new(&short)).is_err(), "{n} lines");
    }
}

#[test]
fn an_mf40_section_nests_mf33_subsections() {
    let sub = line([f(0.0), f(0.0), i(0), i(102), i(0), i(1)])
        + &line([f(0.0), f(0.0), i(1), i(5), i(2), i(1)])
        + &line([f(1.0e5), f(0.01), f(0.0), f(0.0), f(0.0), f(0.0)]);
    let text = line([f(49115.0), f(113.918), i(0), i(0), i(1), i(0)])
        + &line([f(6.784e6), f(6.6567e6), i(49116), i(1), i(0), i(1)])
        + &sub;
    let d = parse_mf40(&mut Reader::new(&text)).unwrap();
    assert_eq!(d.ns, 1);
    let product = &d.subsections[0];
    assert_eq!((product.izap, product.lfs, product.nl), (49116, 1, 1));
    assert_eq!(product.subsubsections[0].mt1, 102);
    assert_eq!(floats(&product.subsubsections[0].ni_subsections[0].fkk), [0.01]);
}
