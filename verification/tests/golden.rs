use endf::material::{Material, Section};

#[test]
fn unported_files_keep_their_text() {
    // A section with no parser must still round-trip its text. MF=32
    // (resonance parameter covariances) has none.
    const MF: i32 = 32;
    let line =
        |body: &str, mat: i32, mf: i32, mt: i32| format!("{body:<66}{mat:>4}{mf:>2}{mt:>3}\n");
    let text = line(" tape id", 1, 0, 0)
        + &line(" 1.001000+3 9.991673-1          0          0          1          0", 125, MF, 2)
        + &line(" 0.000000+0 0.000000+0          0          2          1          1", 125, MF, 2)
        + &line("", 125, MF, 0) // SEND
        + &line("", 0, 0, 0); // MEND

    let m = Material::from_str(&text).unwrap();
    assert_eq!(m.mat, 125);

    let unparsed: Vec<(i32, i32)> = m
        .section_data()
        .iter()
        .filter(|(_, s)| matches!(s, Section::Unparsed { .. }))
        .map(|(k, _)| *k)
        .collect();
    assert_eq!(unparsed, vec![(MF, 2)], "MF={MF} should not have a parser");

    // The body is kept whole, SEND excluded.
    let body = m.text(MF, 2).unwrap();
    assert_eq!(body.lines().count(), 2);
    assert!(body.contains("1.001000+3"));
}
