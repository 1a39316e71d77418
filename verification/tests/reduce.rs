use endf::reduce::{reduce, Kept, NuclideLinks};

fn nuclide(name: &str, decay: Option<&str>) -> NuclideLinks {
    NuclideLinks {
        name: name.to_string(),
        decay_targets: decay.map(|t| vec![Some(t.to_string())]).unwrap_or_default(),
        reaction_targets: Vec::new(),
    }
}

fn names(chain: &[NuclideLinks], kept: &[Kept]) -> Vec<String> {
    kept.iter().map(|k| chain[k.index].name.clone()).collect()
}

#[test]
fn a_reduced_chain_is_closed() {
    let chain = vec![nuclide("A", Some("B")), nuclide("B", Some("C")), nuclide("C", None)];
    // Unbounded: everything reachable comes along.
    let all = reduce(&chain, &vec!["A".to_string()], None);
    assert_eq!(names(&chain, &all), ["A", "B", "C"]);

    // One step: A and B, and A's path to B survives because B is in.
    let one = reduce(&chain, &vec!["A".to_string()], Some(1));
    assert_eq!(names(&chain, &one), ["A", "B"]);
    assert_eq!(one[0].decay_kept, [true]);
    // B's path to C does not: C is outside, so the chain stays closed.
    assert_eq!(one[1].decay_kept, [false]);

    // A starting nuclide the chain does not have contributes nothing.
    assert!(reduce(&chain, &vec!["Z".to_string()], None).is_empty());
}

#[test]
fn a_reduced_chain_is_ordered_by_z_a_and_state() {
    let mut u235 = nuclide("U235", Some("Th231"));
    u235.reaction_targets = vec![Some("U236".to_string()), None];
    let chain = vec![u235, nuclide("Th231", Some("Pa231")), nuclide("Pa231", None)];
    let kept = reduce(&chain, &vec!["U235".to_string()], None);
    assert_eq!(names(&chain, &kept), ["Th231", "Pa231", "U235"]);
    // U236 is not in the chain, so the capture that leads there is dropped;
    // a reaction with no target stays.
    assert_eq!(kept[2].reaction_kept, [false, true]);
    // A name given twice is reached once.
    let twice = reduce(&chain, &vec!["Pa231".to_string(), "Pa231".to_string()], Some(0));
    assert_eq!(names(&chain, &twice), ["Pa231"]);
}
