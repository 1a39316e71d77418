use endf::univariate::Interpolation;

#[test]
fn interpolation_names_and_endf_codes_agree() {
    for (code, name) in [
        (1, "histogram"),
        (2, "linear-linear"),
        (3, "linear-log"),
        (4, "log-linear"),
        (5, "log-log"),
    ] {
        let by_code = Interpolation::from_endf_code(code).unwrap();
        assert_eq!(by_code.name(), name);
        assert_eq!(Interpolation::from_name(name).unwrap(), by_code);
    }
    assert!(Interpolation::from_endf_code(9).is_err());
    assert!(Interpolation::from_name("bilinear").is_err());
}
