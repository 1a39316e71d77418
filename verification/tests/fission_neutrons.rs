use endf::error::Error;
use endf::mf::mf1::{Mf1Mt452, Mf1Mt455, Nu};
use endf::mf::mf5::{EnergyDistribution, Mf5, Subsection};
use endf::product::EmissionMode;
use endf::reaction::{fission_neutrons, fission_neutrons_fit, FissionNeutron};
use endf::records::Tab1;

fn nu(values: &[&str]) -> Nu {
    Nu::Polynomial(values.iter().map(|s| s.to_string()).collect())
}

fn mt452(n: Nu) -> Option<Mf1Mt452> {
    Some(Mf1Mt452 { za: " 9.223500+4".to_string(), awr: " 2.330248+2".to_string(), lnu: 1, nu: n })
}

fn mt455(ldg: i64, groups: usize, n: Nu) -> Option<Mf1Mt455> {
    Some(Mf1Mt455 {
        za: " 9.223500+4".to_string(),
        awr: " 2.330248+2".to_string(),
        ldg,
        lnu: 1,
        lambda: (0..groups).map(|k| format!(" {}.000000-2", k + 1)).collect(),
        e_int: None,
        constants: Vec::new(),
        nu: n,
    })
}

fn spectra(nk: i64) -> Option<Mf5> {
    let sub = Subsection {
        lf: 7,
        p: Tab1::default(),
        distribution: EnergyDistribution::MaxwellEnergy { u: " 0.000000+0".to_string(), theta: Tab1::default() },
    };
    Some(Mf5 {
        za: " 9.223500+4".to_string(),
        awr: " 2.330248+2".to_string(),
        nk,
        subsections: (0..nk.max(0)).map(|_| sub.clone()).collect(),
    })
}

fn prompt_neutron() -> FissionNeutron {
    FissionNeutron { emission_mode: EmissionMode::Prompt, group: None, delayed_yield: false, spectrum: None }
}

fn delayed(group: usize, delayed_yield: bool, spectrum: Option<usize>) -> FissionNeutron {
    FissionNeutron { emission_mode: EmissionMode::Delayed, group: Some(group), delayed_yield, spectrum }
}

#[test]
fn prompt_then_a_delayed_neutron_per_group_and_a_derived_total() {
    let (p, t, d, s) = (mt452(nu(&[" 2.4"])), mt452(nu(&[" 2.42"])), mt455(0, 6, nu(&[" 1.6-2"])), spectra(6));
    assert!(fission_neutrons_fit(&p, &t, &d, &s));
    let (products, derived) = fission_neutrons(&p, &t, &d, &s).unwrap();
    assert_eq!(products.len(), 7);
    assert_eq!(products[0], prompt_neutron());
    for k in 0..6 {
        // The last six take the delayed yield; each group its own spectrum.
        assert_eq!(products[1 + k], delayed(k, true, Some(k)));
    }
    assert_eq!(
        derived,
        [FissionNeutron { emission_mode: EmissionMode::Total, group: None, delayed_yield: false, spectrum: None }]
    );
}

#[test]
fn fewer_than_six_products_all_take_the_delayed_yield() {
    let (p, d) = (mt452(nu(&[" 2.4"])), mt455(0, 2, nu(&[" 1.6-2"])));
    let (products, derived) = fission_neutrons(&p, &None, &d, &None).unwrap();
    assert!(derived.is_empty());
    assert_eq!(products.len(), 3);
    assert!(products.iter().all(|n| n.delayed_yield));
    assert_eq!(products[0].emission_mode, EmissionMode::Prompt);
}

#[test]
fn without_a_prompt_section_the_total_is_a_product() {
    let (products, derived) = fission_neutrons(&None, &mt452(nu(&[" 2.42"])), &None, &None).unwrap();
    assert!(derived.is_empty());
    assert_eq!(products.len(), 1);
    assert_eq!(products[0].emission_mode, EmissionMode::Total);
}

#[test]
fn a_prompt_section_without_a_yield_still_makes_the_total_derived() {
    let (products, derived) = fission_neutrons(&mt452(Nu::Absent), &mt452(nu(&[" 2.42"])), &None, &None).unwrap();
    assert!(products.is_empty());
    assert_eq!(derived.len(), 1);
}

#[test]
fn one_group_with_several_spectra_is_split() {
    let (p, d, s) = (mt452(nu(&[" 2.4"])), mt455(0, 1, Nu::Absent), spectra(3));
    assert!(fission_neutrons_fit(&p, &None, &d, &s));
    let (products, _) = fission_neutrons(&p, &None, &d, &s).unwrap();
    assert_eq!(products, [prompt_neutron(), delayed(0, false, Some(0)), delayed(0, false, Some(1)), delayed(0, false, Some(2))]);
}

#[test]
fn energy_dependent_group_constants_are_unsupported() {
    let r = fission_neutrons(&None, &None, &mt455(1, 6, Nu::Absent), &spectra(6));
    assert!(matches!(r, Err(Error::Unsupported { .. })));
}

#[test]
fn spectra_that_match_no_group_count_are_refused() {
    let (p, d, s) = (mt452(nu(&[" 2.4"])), mt455(0, 6, Nu::Absent), spectra(4));
    assert!(fission_neutrons_fit(&p, &None, &d, &s));
    assert!(matches!(fission_neutrons(&p, &None, &d, &s), Err(Error::Mismatched { .. })));
}

#[test]
fn spectra_with_no_product_to_go_on_do_not_fit() {
    // No prompt neutron: the spectra, placed from the second product on,
    // run one past the last delayed neutron.
    let (d, s) = (mt455(0, 2, Nu::Absent), spectra(2));
    assert!(!fission_neutrons_fit(&None, &None, &d, &s));
    // A single group cannot be split without a product before it.
    assert!(!fission_neutrons_fit(&None, &None, &mt455(0, 1, Nu::Absent), &spectra(3)));
}
