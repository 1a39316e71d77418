use endf::njoy::{acer_tapes, deck_commands, library_name, metastable_zaid, tape_plan, Modules};

#[test]
fn a_metastable_target_is_marked_in_the_zaid() {
    // ACER writes no isomeric state, so 400 goes onto the mass number.
    // The header right-justifies the ZAID in ten columns, so the mass
    // number's first digit is the fourth character.
    assert_eq!(&metastable_zaid(" 95242.00c rest", 1)[..6], " 95642");
    // The ground state is left alone.
    assert_eq!(&metastable_zaid(" 95242.00c rest", 0)[..6], " 95242");
    // A first digit above two would carry, so it is left alone.
    assert_eq!(&metastable_zaid(" 95942.00c rest", 1)[..6], " 95942");
}

#[test]
fn names_the_libraries_nlib_numbers() {
    assert_eq!(library_name(0), "ENDF/B");
    assert_eq!(library_name(2), "JEFF");
    assert_eq!(library_name(17), "TENDL");
    assert_eq!(library_name(99), "Unknown");
}

#[test]
fn the_rest_of_the_header_is_kept() {
    assert_eq!(metastable_zaid(" 95242.00c rest", 1), " 95642.00c rest");
    // Too short to carry a ZAID: left as it is.
    assert_eq!(metastable_zaid(" 95", 1), " 95");
    // A first digit of zero or one becomes four or five.
    assert_eq!(metastable_zaid(" 95042.00c", 2), " 95442.00c");
    assert_eq!(metastable_zaid(" 95142.00c", 1), " 95542.00c");
}

fn every_module() -> Modules {
    Modules { pendf: false, broadr: true, heatr: true, gaspr: true, purr: true, acer: true }
}

#[test]
fn the_tapes_thread_through_in_sequence() {
    let plan = tape_plan(every_module(), 2);
    // reconr writes 21 but pendf is off, so 21 is not kept. Then broadr,
    // the two heatr runs, gaspr, purr, and an ACE and xsdir per
    // temperature.
    assert_eq!(plan.kept, [22, 23, 24, 25, 26, 27, 28, 29, 30]);
    assert_eq!(plan.broadr, Some(22));
    assert_eq!(plan.heatr, Some((22, 23, 24)));
    assert_eq!(plan.gaspr, Some((24, 25)));
    assert_eq!(plan.purr, Some((25, 26)));
    assert_eq!(plan.acer, Some((26, vec![(27, 28), (29, 30)])));
}

#[test]
fn turning_a_module_off_closes_the_gap_it_leaves() {
    let modules = Modules { heatr: false, gaspr: false, ..every_module() };
    let plan = tape_plan(modules, 1);
    // purr now reads broadr's tape directly, and the numbering has no hole.
    assert_eq!(plan.purr, Some((22, 23)));
    assert_eq!(plan.heatr, None);
    assert_eq!(plan.kept, [22, 23, 24, 25]);
}

#[test]
fn a_pointwise_run_keeps_the_pendf_tape_alone() {
    let modules = Modules {
        pendf: true,
        broadr: false,
        heatr: false,
        gaspr: false,
        purr: false,
        acer: false,
    };
    let plan = tape_plan(modules, 1);
    assert_eq!(plan.kept, [21]);
    assert_eq!(plan.acer, None);
    // Nothing at all: not even the PENDF tape is kept.
    let plan = tape_plan(Modules { pendf: false, ..modules }, 3);
    assert!(plan.kept.is_empty());
}

fn strings(v: &[&str]) -> Vec<String> {
    v.iter().map(|s| s.to_string()).collect()
}

fn deck(modules: Modules, temperatures: &[&str], smoothing: bool) -> String {
    let plan = tape_plan(modules, temperatures.len());
    deck_commands(9552, "ENDF/B-8.0", " 95-Am-244 ", "0.001", &strings(temperatures), smoothing, &plan)
}

#[test]
fn the_deck_runs_each_module_on_the_tape_before() {
    let commands = deck(every_module(), &["293.6", "900.0"], true);
    let expected = "
reconr / %%%%%%%%%%%%%%%%%%% Reconstruct XS for neutrons %%%%%%%%%%%%%%%%%%%%%%%
20 21
'ENDF/B-8.0 PENDF for  95-Am-244 '/
9552 2/
0.001/ err
'ENDF/B-8.0:  95-Am-244 '/
'Processed by NJOY'/
0/

broadr / %%%%%%%%%%%%%%%%%%%%%%% Doppler broaden XS %%%%%%%%%%%%%%%%%%%%%%%%%%%%
20 21 22
9552 2 0 0 0. /
0.001/ errthn
293.6 900.0
0/

heatr / %%%%%%%%%%%%%%%%% Add heating kerma (local photons) %%%%%%%%%%%%%%%%%%%%
20 22 23 /
9552 4 0 0 1 /
302 318 402 444 /

heatr / %%%%%%%%%%%%%%%%%%%%%%%%% Add heating kerma %%%%%%%%%%%%%%%%%%%%%%%%%%%%
20 22 24 /
9552 4 0 0 0 /
302 318 402 444 /

gaspr / %%%%%%%%%%%%%%%%%%%%%%%%% Add gas production %%%%%%%%%%%%%%%%%%%%%%%%%%%
20 24 25 /

purr / %%%%%%%%%%%%%%%%%%%%%%%% Add probability tables %%%%%%%%%%%%%%%%%%%%%%%%%
20 25 26 /
9552 2 1 20 64 /
293.6 900.0
1.e10
0/

acer / %%%%%%%%%%%%%%%%%%%%%%%% Write out in ACE format %%%%%%%%%%%%%%%%%%%%%%%%
20 26 0 27 28
1 0 1 .01 /
'ENDF/B-8.0:  95-Am-244  at 293.6'/
9552 293.6
1 1 1/
/

acer / %%%%%%%%%%%%%%%%%%%%%%%% Write out in ACE format %%%%%%%%%%%%%%%%%%%%%%%%
20 26 0 29 30
1 0 1 .02 /
'ENDF/B-8.0:  95-Am-244  at 900.0'/
9552 900.0
1 1 1/
/
stop
";
    assert_eq!(commands, expected);
}

#[test]
fn the_acer_tapes_are_named_by_temperature() {
    let plan = tape_plan(every_module(), 2);
    let tapes = acer_tapes(&plan, &strings(&["293.6", "900.0"]));
    assert_eq!(
        tapes,
        [
            (27, "ace_293.6".to_string()),
            (28, "xsdir_293.6".to_string()),
            (29, "ace_900.0".to_string()),
            (30, "xsdir_900.0".to_string()),
        ]
    );
}

#[test]
fn a_module_turned_off_leaves_no_card() {
    let commands = deck(Modules { heatr: false, gaspr: false, ..every_module() }, &["293.6"], true);
    assert!(!commands.contains("heatr"));
    assert!(!commands.contains("gaspr"));
    // purr now reads broadr's tape directly.
    assert!(commands.contains("20 22 23 /"));
}

#[test]
fn a_pointwise_deck_is_reconr_alone() {
    let modules = Modules { pendf: true, broadr: false, heatr: false, gaspr: false, purr: false, acer: false };
    let commands = deck(modules, &["293.6"], true);
    assert!(commands.contains("reconr"));
    for module in ["broadr", "heatr", "gaspr", "purr", "acer"] {
        assert!(!commands.contains(module), "{module} should be off");
    }
    assert!(commands.ends_with("0/\nstop\n"));
    assert!(acer_tapes(&tape_plan(modules, 1), &strings(&["293.6"])).is_empty());
}

#[test]
fn smoothing_shows_up_in_each_acer_card() {
    assert!(deck(every_module(), &["293.6"], true).contains("1 1 1/"));
    assert!(deck(every_module(), &["293.6"], false).contains("1 1 0/"));
    // The tenth table and after take their number as it is.
    let ten: Vec<&str> = vec!["300.0"; 10];
    assert!(deck(every_module(), &ten, true).contains("1 0 1 .10 /"));
}
