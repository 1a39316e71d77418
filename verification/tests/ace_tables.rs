use endf::ace::{tables_from_str, TableType};
use endf::error::Error;

/// The twelve header lines of a 1.0-style table, then its XSS lines.
fn table(name: &str, length: usize, xss: &[&str]) -> String {
    let mut text = format!("  {name}   0.999167  2.5301E-08   12/20/17\n");
    text += " a comment line\n";
    text += "      0   0.000000      0   0.000000\n\n\n\n";
    text += &format!("{length:>9}     1001        0        0        0        0        0        0\n");
    text += "        0        0        0        0        0        0        0        0\n";
    for _ in 0..4 {
        text += "        1        0        0        0        0        0        0        0\n";
    }
    for chunk in xss.chunks(4) {
        text += &format!(" {}\n", chunk.join(" "));
    }
    text
}

#[test]
fn reads_a_table_and_its_arrays() {
    let text = table("1001.80c", 5, &["1.0", "2.0", "3.0", "4.0", "5.0-120"]);
    let tables = tables_from_str(&text, None).unwrap();
    assert_eq!(tables.len(), 1);
    let t = &tables[0];
    assert_eq!(t.name, "1001.80c");
    assert_eq!(t.atomic_weight_ratio, "0.999167");
    assert_eq!(t.kt, "2.5301E-08");
    assert_eq!(t.pairs, [(0, "0.000000".to_string()), (0, "0.000000".to_string())]);
    // One-based: index 0 is the unused element.
    assert_eq!(t.nxs.len(), 17);
    assert_eq!((t.nxs[0], t.nxs[1], t.nxs[2]), (0, 5, 1001));
    assert_eq!(t.jxs.len(), 33);
    assert_eq!(t.jxs[1], 1);
    assert_eq!(t.xss.len(), 6);
    assert_eq!(t.xss[1], "1.0");
    // NJOY drops the `e` when the exponent needs three digits.
    assert_eq!(t.xss[5], "5.0e-120");
    assert_eq!(t.zaid().unwrap(), 1001);
    assert_eq!(t.data_type().unwrap(), TableType::NeutronContinuous);
}

#[test]
fn a_word_that_is_no_number_is_named() {
    let text = table("1001.80c", 2, &["1.0", "banana"]);
    match tables_from_str(&text, None) {
        Err(Error::BadAceTable { what }) => assert_eq!(what, "\"banana\" is not a number"),
        other => panic!("unexpected {other:?}"),
    }
    let text = table("1001.80c", 2, &["1.0", "inf", "3.0"]);
    match tables_from_str(&text, None) {
        Err(Error::BadAceTable { what }) => {
            assert_eq!(what, "table \"1001.80c\" declares 2 values in XSS but 3 were read")
        }
        other => panic!("unexpected {other:?}"),
    }
}

#[test]
fn only_the_wanted_tables_are_read() {
    let text = table("1001.80c", 1, &["1.0"]) + &table("8016.80c", 2, &["3.0", "4.0"]);
    assert_eq!(tables_from_str(&text, None).unwrap().len(), 2);
    let wanted = ["8016.80c".to_string()];
    let tables = tables_from_str(&text, Some(&wanted)).unwrap();
    assert_eq!(tables.len(), 1);
    assert_eq!(tables[0].name, "8016.80c");
    assert_eq!(tables[0].xss, ["0.0", "3.0", "4.0"]);
    // A blank line ends the file.
    let text = table("1001.80c", 1, &["1.0"]) + "\n" + &table("8016.80c", 2, &["3.0", "4.0"]);
    assert_eq!(tables_from_str(&text, None).unwrap().len(), 1);
}

#[test]
fn a_two_point_zero_header_is_read() {
    let one = table("1001.80c", 1, &["1.0"]);
    let body: Vec<&str> = one.lines().skip(1).collect();
    let text = format!("2.0.1   1001.800nc   ENDF/B-VIII.0\n0.999167 2.5301E-08 2017-12-20 1\n{}\n", body.join("\n"));
    let tables = tables_from_str(&text, None).unwrap();
    assert_eq!(tables.len(), 1);
    assert_eq!(tables[0].name, "1001.800nc");
    assert_eq!(tables[0].atomic_weight_ratio, "0.999167");
    assert_eq!(tables[0].xss, ["0.0", "1.0"]);
}

#[test]
fn a_name_without_a_zaid_or_suffix_is_refused() {
    let text = table("abc", 0, &[]);
    let t = &tables_from_str(&text, None).unwrap()[0];
    assert!(matches!(t.zaid(), Err(Error::BadAceTable { .. })));
    match t.data_type() {
        Err(Error::BadAceTable { what }) => assert_eq!(what, "table name \"abc\" has no suffix"),
        other => panic!("unexpected {other:?}"),
    }
}
