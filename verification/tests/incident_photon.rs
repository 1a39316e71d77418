use endf::incident_photon::{photon_reaction_mt, photon_reaction_name};

#[test]
fn names_the_photon_reactions_both_ways() {
    assert_eq!(photon_reaction_name(502).as_deref(), Some("coherent"));
    assert_eq!(photon_reaction_name(522).as_deref(), Some("photoelectric"));
    // The subshell photoelectric reactions are named for their subshell.
    assert_eq!(photon_reaction_name(534).as_deref(), Some("K"));
    assert_eq!(photon_reaction_name(535).as_deref(), Some("L1"));
    assert_eq!(photon_reaction_name(572).as_deref(), Some("Q3"));
    assert_eq!(photon_reaction_name(1), None);

    assert_eq!(photon_reaction_mt("coherent"), Some(502));
    assert_eq!(photon_reaction_mt("K"), Some(534));
    assert_eq!(photon_reaction_mt("Q3"), Some(572));
    assert_eq!(photon_reaction_mt("nonsense"), None);
    // The empty string is the unused zeroth entry, not a subshell.
    assert_eq!(photon_reaction_mt(""), None);

    for mt in 501..600 {
        if let Some(name) = photon_reaction_name(mt) {
            assert_eq!(photon_reaction_mt(&name), Some(mt), "{name} came back wrong");
        }
    }
}
