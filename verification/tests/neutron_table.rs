use endf::ace::Table;
use endf::error::Error;
use endf::neutron_table::{neutron_table_layout, read_integer, AceReaction};

#[test]
fn an_integer_slot_reads_its_value_toward_zero() {
    assert_eq!(read_integer("1.020000000000E+02"), Some(102));
    assert_eq!(read_integer("102"), Some(102));
    assert_eq!(read_integer("-3.000000000000E+00"), Some(-3));
    assert_eq!(read_integer("1.5"), Some(1));
    assert_eq!(read_integer("-1.5"), Some(-1));
    assert_eq!(read_integer("2.5E-01"), Some(0));
    assert_eq!(read_integer("1.02001E5"), Some(102001));
    assert_eq!(read_integer("0.0E+999"), None);
    assert_eq!(read_integer("1E+400"), None);
    assert_eq!(read_integer("9.3E+18"), None);
    assert_eq!(read_integer("nan"), None);
    assert_eq!(read_integer("abc"), None);
}

fn strings(v: &[&str]) -> Vec<String> {
    v.iter().map(|s| s.to_string()).collect()
}

fn table(ntr: i64) -> Table {
    let mut nxs = vec![0i64; 17];
    nxs[1] = 19;
    nxs[3] = 2;
    nxs[4] = ntr;
    nxs[6] = 1;
    let mut jxs = vec![0i64; 33];
    jxs[1] = 1;
    jxs[3] = 11;
    jxs[4] = 12;
    jxs[5] = 13;
    jxs[6] = 14;
    jxs[7] = 15;
    jxs[13] = 19;
    let xss = strings(&[
        "0.0",
        // ESZ: energies, total, absorption, elastic, heating.
        "1.0E-11", "2.0E+01", "3.0", "2.0", "0.0", "0.0", "3.0", "2.0", "1.0", "1.0",
        // MTR, LQR, TYR, LSIG.
        "1.020000000000E+02", "6.5E+00", "0.0", "1",
        // SIG: first energy, count, values.
        "1", "2", "0.1", "0.05",
        // MTRP.
        "1.02001E+05",
    ]);
    Table {
        name: "1001.00c".to_string(),
        atomic_weight_ratio: "0.999167".to_string(),
        kt: "2.5301E-08".to_string(),
        pairs: Vec::new(),
        nxs,
        jxs,
        xss,
    }
}

#[test]
fn a_neutron_table_is_laid_out_from_its_locators() {
    let layout = neutron_table_layout(&table(1)).unwrap();
    assert_eq!((layout.grid_start, layout.n_grid), (1, 2));
    assert_eq!(
        layout.reactions,
        [AceReaction {
            mt: 102,
            q_value: "6.5E+00".to_string(),
            ty: 0,
            first_energy: 1,
            n_energy: 2,
            xs_start: 17,
        }]
    );
    assert_eq!(layout.photon_mts, [102]);
}

#[test]
fn a_reaction_past_the_end_of_xss_is_refused() {
    assert_eq!(
        neutron_table_layout(&table(10)),
        Err(Error::Mismatched { what: "the blocks of an ACE neutron table and its XSS array" })
    );
    let mut short = table(1);
    short.jxs.truncate(10);
    assert!(neutron_table_layout(&short).is_err());
}
