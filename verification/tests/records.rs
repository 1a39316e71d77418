use endf::error::Error;
use endf::records::{field, float_buffer, int_endf, Reader};

#[test]
fn int_blank_is_zero() {
    assert_eq!(int_endf("           "), 0);
    assert_eq!(int_endf("        145"), 145);
    assert_eq!(int_endf("         -1"), -1);
}

#[test]
fn field_tolerates_short_lines() {
    assert_eq!(field("abc", 0, 11), "abc");
    assert_eq!(field("abc", 5, 11), "");
}

fn float(s: &str) -> f64 {
    String::from_utf8(float_buffer(s)).unwrap().parse().unwrap()
}

#[test]
fn float_fields_are_normalised_for_parsing() {
    assert_eq!(float_buffer(" 1.234567+5"), b"1.234567e+5".to_vec());
    assert_eq!(float(" 9.524400+4"), 95244.0);
    assert_eq!(float("-2.5-3"), -2.5e-3);
    // Only the first 11 characters are part of the field.
    assert_eq!(float("9.876540000000000"), 9.87654);
    // Blanks inside the field are dropped.
    assert_eq!(float(" 1.0 +2"), 100.0);
}

#[test]
fn reads_a_head_record_as_a_cont() {
    let text = " 9.524400+4 2.419680+2          0          1          0          29552 1451\n";
    let mut r = Reader::new(text);
    assert_eq!(r.remaining(), 1);
    let c = r.cont_record().unwrap();
    assert_eq!(c.c1, " 9.524400+4");
    assert_eq!(c.c2, " 2.419680+2");
    assert_eq!((c.l1, c.l2, c.n1, c.n2), (0, 1, 0, 2));
    assert!(r.is_empty());
    assert!(matches!(r.cont_record(), Err(Error::UnexpectedEof { .. })));
}

#[test]
fn reads_a_tab1_record() {
    let text = " 0.000000+0 0.000000+0          0          0          1          3\n          3          2\n 1.000000-5 1.000000+1 1.000000+0 2.000000+1 2.000000+7 3.000000+1\n";
    let mut r = Reader::new(text);
    let t = r.tab1_record().unwrap();
    assert_eq!(t.breakpoints, [3]);
    assert_eq!(t.interpolation, [2]);
    assert_eq!(t.x.len(), 3);
    assert_eq!(float(&t.x[2]), 2.0e7);
    assert_eq!(float(&t.y[0]), 10.0);
    assert!(r.is_empty());
}

#[test]
fn a_short_tab1_record_is_an_unexpected_end() {
    let text = " 0.000000+0 0.000000+0          0          0          1          3\n";
    let mut r = Reader::new(text);
    assert!(matches!(r.tab1_record(), Err(Error::UnexpectedEof { .. })));
}

#[test]
fn reads_a_list_record_and_text() {
    let text = " 0.000000+0 0.000000+0          0          0          7          0\n 1.0       2.0       3.0       4.0       5.0       6.0       \n 7.0\n a line of text\n";
    let mut r = Reader::new(text);
    let l = r.list_record().unwrap();
    assert_eq!(l.values.len(), 7);
    assert_eq!(l.values[6], " 7.0");
    assert_eq!(r.text_record().unwrap(), " a line of text");
    assert!(r.next_line("more").is_err());
}

#[test]
fn reads_interpolation_pairs_three_to_a_line() {
    let text = "          2          1          5          2          9          5\n         12          4\n";
    let mut r = Reader::new(text);
    let (nbt, int) = r.interpolation_pairs(4).unwrap();
    assert_eq!(nbt, [2, 5, 9, 12]);
    assert_eq!(int, [1, 2, 5, 4]);
}

#[test]
fn an_intg_record_gives_its_nonzero_elements_left_of_the_diagonal() {
    let text = " 0.000000+0 0.000000+0          2          3          2          0\n    2    1  50\n    3    1 -20  0 77\n";
    let mut r = Reader::new(text);
    let intg = r.intg_record().unwrap();
    assert_eq!((intg.ndigit, intg.npar), (2, 3));
    // Row 2 reads one element, row 3 two; the zero is not an entry, and the
    // element at the diagonal is not read.
    assert_eq!(intg.entries, [(1, 0, 50), (2, 0, -20)]);
    assert!(r.is_empty());
}

#[test]
fn an_intg_record_skips_rows_out_of_range_and_refuses_unknown_precision() {
    let text = " 0.000000+0 0.000000+0          3          2          1          0\n    5    1 123\n";
    let mut r = Reader::new(text);
    let intg = r.intg_record().unwrap();
    assert!(intg.entries.is_empty());

    let text = " 0.000000+0 0.000000+0          7          2          0          0\n";
    let mut r = Reader::new(text);
    assert_eq!(r.intg_record(), Err(Error::BadNdigit { ndigit: 7 }));

    // Fewer lines than the header promises.
    let text = " 0.000000+0 0.000000+0          2          2          3          0\n    2    1  50\n";
    let mut r = Reader::new(text);
    assert!(matches!(r.intg_record(), Err(Error::UnexpectedEof { .. })));
}

#[test]
fn running_off_the_end_is_an_error() {
    let mut r = Reader::new("");
    assert!(r.cont_record().is_err());
}

#[test]
fn an_exhausted_reader_says_which_record_it_expected() {
    let mut r = Reader::new(" one line\n");
    assert_eq!(r.text_record().unwrap(), " one line");
    assert_eq!(r.remaining(), 0);
    assert_eq!(r.text_record(), Err(Error::UnexpectedEof { expected: "a TEXT record" }));
    assert_eq!(r.remaining(), 0);
    assert!(matches!(r.cont_record(), Err(Error::UnexpectedEof { expected: "a CONT record" })));
}

#[test]
fn a_right_aligned_integer_reads_back() {
    for n in [0i64, 7, -7, 9552, -1, 1234567890, i64::MAX, i64::MIN] {
        assert_eq!(int_endf(&format!("{n:>11}")), n);
    }
    assert_eq!(int_endf("  12x"), 0);
}
