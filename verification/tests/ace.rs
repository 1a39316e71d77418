use endf::ace::{get_metadata, parse_int, MetastableScheme, TableType};
use endf::error::Error;

#[test]
fn zaids_are_read_the_way_each_library_encodes_them() {
    // Ordinary nuclide, both schemes agree.
    let m = get_metadata(3006, MetastableScheme::Nndc).unwrap();
    assert_eq!(
        (m.name.as_str(), m.z, m.mass_number, m.metastable),
        ("Li6", 3, 6, 0)
    );
    assert_eq!(m.element, "Li");

    // NNDC puts the state in the hundreds digit of A.
    let m = get_metadata(95342, MetastableScheme::Nndc).unwrap();
    assert_eq!(
        (m.name.as_str(), m.mass_number, m.metastable),
        ("Am242_m1", 242, 1)
    );

    // MCNP's two exceptions: 95242 is the metastable one, 95642 the ground
    // state, which is the reverse of what the digits suggest.
    let m = get_metadata(95242, MetastableScheme::Mcnp).unwrap();
    assert_eq!((m.name.as_str(), m.metastable), ("Am242_m1", 1));
    let m = get_metadata(95642, MetastableScheme::Mcnp).unwrap();
    assert_eq!((m.name.as_str(), m.metastable), ("Am242", 0));
    // And the newer SZA form, where the ground state is spelled out.
    let m = get_metadata(1_095_242, MetastableScheme::Mcnp).unwrap();
    assert_eq!((m.name.as_str(), m.metastable), ("Am242", 0));
}

#[test]
fn suffixes_map_to_table_types() {
    assert_eq!(
        TableType::from_suffix("70c").unwrap(),
        TableType::NeutronContinuous
    );
    assert_eq!(
        TableType::from_suffix("12p").unwrap(),
        TableType::Photoatomic
    );
    assert_eq!(
        TableType::from_suffix("00t").unwrap(),
        TableType::ThermalScattering
    );
    assert!(TableType::from_suffix("70z").is_err());
}

#[test]
fn every_table_type_reads_back_from_its_suffix() {
    for t in [
        TableType::NeutronContinuous,
        TableType::NeutronDiscrete,
        TableType::ThermalScattering,
        TableType::Dosimetry,
        TableType::Photoatomic,
        TableType::Photonuclear,
        TableType::Proton,
        TableType::Deuteron,
        TableType::Triton,
        TableType::Helium3,
        TableType::Alpha,
    ] {
        let suffix = format!("80{}", t.suffix());
        assert_eq!(TableType::from_suffix(&suffix).unwrap(), t);
    }
    assert_eq!(TableType::Helium3.suffix(), 's');
}

#[test]
fn an_unknown_suffix_is_named_in_the_error() {
    match TableType::from_suffix("70z") {
        Err(Error::BadAceTable { what }) => {
            assert_eq!(what, "suffix \"70z\" has no corresponding ACE table type")
        }
        other => panic!("unexpected {other:?}"),
    }
    // Only the last character decides.
    assert_eq!(TableType::from_suffix("u").unwrap(), TableType::Photonuclear);
    assert!(TableType::from_suffix("").is_err());
}

#[test]
fn a_zaid_with_no_element_is_refused() {
    assert!(matches!(
        get_metadata(200001, MetastableScheme::Nndc),
        Err(Error::UnknownElement { .. })
    ));
    match get_metadata(200001, MetastableScheme::Nndc) {
        Err(Error::UnknownElement { symbol }) => assert_eq!(symbol, "Z=200"),
        other => panic!("unexpected {other:?}"),
    }
}

#[test]
fn states_are_read_from_the_mass_number_and_the_millions() {
    // NNDC's ZAID is 1000*Z + A + 100*m: each hundred above a possible mass
    // number is one state.
    let m = get_metadata(95442, MetastableScheme::Nndc).unwrap();
    assert_eq!((m.name.as_str(), m.mass_number, m.metastable), ("Am242_m2", 242, 2));
    let m = get_metadata(67266, MetastableScheme::Nndc).unwrap();
    assert_eq!((m.name.as_str(), m.z, m.mass_number, m.metastable), ("Ho166_m1", 67, 166, 1));
    let m = get_metadata(67166, MetastableScheme::Nndc).unwrap();
    assert_eq!((m.name.as_str(), m.metastable), ("Ho166", 0));
    let m = get_metadata(1001, MetastableScheme::Mcnp).unwrap();
    assert_eq!((m.name.as_str(), m.z, m.element.as_str()), ("H1", 1, "H"));
    // The SZA form carries the state in the millions.
    let m = get_metadata(2_052_125, MetastableScheme::Mcnp).unwrap();
    assert_eq!((m.name.as_str(), m.mass_number, m.metastable), ("Te125_m2", 125, 2));
}

#[test]
fn integers_parse_and_the_error_quotes_the_text() {
    assert_eq!(parse_int("42").unwrap(), 42);
    assert_eq!(parse_int("-7").unwrap(), -7);
    match parse_int("4x2") {
        Err(Error::BadAceTable { what }) => assert_eq!(what, "\"4x2\" is not an integer"),
        other => panic!("unexpected {other:?}"),
    }
}
