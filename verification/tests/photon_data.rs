use endf::error::Error;
use endf::photon_data::{is_float_token, parse_aux, parse_count_exec, photon_aux_fits};

fn chars(s: &str) -> Vec<char> {
    s.chars().collect()
}

const HYDROGEN: &str = "COMPTON\n\
pz 3 0.0 1.0 100.0\n\
Z 1 1 1.0 13.6 0.5 0.25 0.0\n\
\n\
DENSITY\n\
  Z 1 1 19.2 1.0 13.6 trailing words are ignored\n";

#[test]
fn reads_the_grid_and_each_section() {
    assert!(photon_aux_fits(HYDROGEN));
    let d = parse_aux(HYDROGEN).unwrap();
    assert_eq!(d.pz, ["0.0", "1.0", "100.0"]);
    assert_eq!(d.compton.len(), 1);
    let c = &d.compton[0];
    assert_eq!(c.z, 1);
    assert_eq!(c.num_electrons, ["1.0"]);
    assert_eq!(c.binding_energy, ["13.6"]);
    assert_eq!(c.j, [vec!["0.5".to_string(), "0.25".to_string(), "0.0".to_string()]]);
    assert_eq!(d.density.len(), 1);
    let e = &d.density[0];
    assert_eq!((e.z, e.i.as_str()), (1, "19.2"));
    assert_eq!(e.num_electrons, ["1.0"]);
    assert_eq!(e.ionization_energy, ["13.6"]);
}

#[test]
fn profiles_are_cut_into_rows_the_length_of_the_grid() {
    let text = "COMPTON\npz 2 0 1\nZ 8 3 2 2 4 1 1 1 0.9 0.8 0.7 0.6 0.5 0.4\n";
    let d = parse_aux(text).unwrap();
    let c = &d.compton[0];
    assert_eq!(c.num_electrons, ["2", "2", "4"]);
    assert_eq!(c.binding_energy, ["1", "1", "1"]);
    assert_eq!(c.j.len(), 3);
    assert_eq!(c.j[2], ["0.5", "0.4"]);
}

#[test]
fn elements_come_in_the_order_given() {
    let text = "DENSITY\nZ 2 0 41.8\nZ 1 0 19.2\nZ 2 0 42.0\n";
    let d = parse_aux(text).unwrap();
    let z: Vec<i64> = d.density.iter().map(|e| e.z).collect();
    assert_eq!(z, [2, 1, 2]);
    assert_eq!(d.density[2].i, "42.0");
}

#[test]
fn malformed_lines_are_refused() {
    for text in [
        "X 1 2\n",
        "Z 1 0\n",
        "COMPTON\npz 2 1.0 abc\n",
        "COMPTON\npz 3 1.0 2.0\n",
        "COMPTON\npz -1\n",
        "COMPTON\npz 1 0\nZ 1 -0 \n",
        "COMPTON\npz 1 0\nZ one 1 1 1 1\n",
        "DENSITY\nZ 1 2 19.2 1.0 1.0 13.6\n",
        "pz\n",
    ] {
        assert!(photon_aux_fits(text), "{text:?}");
        assert!(matches!(parse_aux(text), Err(Error::Unsupported { .. })), "{text:?}");
    }
}

#[test]
fn a_profile_needs_a_grid_to_be_cut_by() {
    assert!(!photon_aux_fits("COMPTON\nZ 1 1 1.0 13.6\n"));
    assert!(!photon_aux_fits("COMPTON\npz 0\nZ 1 1 1.0 13.6\n"));
    // A line refused first settles it.
    assert!(photon_aux_fits("COMPTON\nZ 1 1 1.0\n"));
    assert!(photon_aux_fits("X\nCOMPTON\nZ 1 1 1.0 13.6\n"));
}

#[test]
fn signs_and_counts_read_as_the_integer_parser_reads_them() {
    let d = parse_aux("DENSITY\nZ +26 +0 286.0\nZ -1 0 1\n").unwrap();
    assert_eq!(d.density[0].z, 26);
    assert_eq!(d.density[1].z, -1);
    assert_eq!(parse_count_exec(&chars("+12")), Some(12));
    assert_eq!(parse_count_exec(&chars("-0")), None);
    assert_eq!(parse_count_exec(&chars("+")), None);
    assert_eq!(parse_count_exec(&chars("")), None);
}

#[test]
fn numbers_are_what_the_float_parser_accepts() {
    for s in [
        "1", "1.", ".5", "1.5", "+1.5", "-1.5", "1e5", "1E-5", "1.e+5", ".5e5", "inf", "+inf", "-Infinity", "NaN",
        "INF", "nan", ".", "e5", "1e", "1e+", "1.0.0", "in", "infin", "0x10", "+", "-", "", "1,0", "--1", "1e5.0",
        "١",
    ] {
        assert_eq!(is_float_token(&chars(s)), s.parse::<f64>().is_ok(), "{s:?}");
    }
}
