use endf::product::EmissionMode;

#[test]
fn emission_modes_are_named() {
    assert_eq!(EmissionMode::Prompt.name(), "prompt");
    assert_eq!(EmissionMode::Delayed.name(), "delayed");
    assert_eq!(EmissionMode::Total.name(), "total");
    assert_eq!(EmissionMode::default(), EmissionMode::Prompt);
}
