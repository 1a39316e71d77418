use endf::error::Error;

#[test]
fn errors_read_as_sentences() {
    assert_eq!(
        Error::UnexpectedEof { expected: "a CONT record" }.message(),
        "ENDF section ended while reading a CONT record"
    );
    assert_eq!(
        Error::BadControlField { line: "x\"y".to_string() }.message(),
        "could not read MAT/MF/MT control fields from line: \"x\\\"y\""
    );
    assert_eq!(
        Error::BadNdigit { ndigit: -3 }.message(),
        "INTG record has NDIGIT=-3, expected 2 through 6"
    );
    assert_eq!(
        Error::Unsupported { what: "LTT=3" }.message(),
        "this reader does not implement LTT=3"
    );
    assert_eq!(
        Error::BadNuclideName { name: "Xx1".to_string() }.message(),
        "\"Xx1\" is not a GNDS nuclide name"
    );
}
