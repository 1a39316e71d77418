# endf

A reader for ENDF-6 evaluated nuclear data and ACE tables, with its
contracts proved by Verus.

## Layout

- `src/` is the verified library. Real-valued fields are kept as the text of
  their fields, so that every parser can be stated exactly: each `parse_*`
  function returns `Ok` exactly when its section's records fit in the text,
  and then says, field by field, which columns of which line each value came
  from.
  - `records.rs`: the record types of the format (CONT, LIST, TAB1, TAB2,
    INTG) and the `Reader` over a section's lines.
  - `material.rs`: splitting a tape into materials and sections, and one
    accessor per section type.
  - `mf/`: one module per file (MF) of the format.
  - `data.rs`, `reaction.rs`, `incident_photon.rs`: element symbols, nuclide
    names, reaction names and MT numbers, sum rules, the layout of an
    evaluation's fission neutrons, and how a reaction's products are
    gathered from MF=1, 4, 5, 6 and 8.
  - `radionuclide.rs`: radionuclide production from MF=8, 9 and 10, by
    reaction and final state, and the radioactive products of a reaction.
  - `incident_neutron.rs`: which reactions of an ACE table are sums of others.
  - `chain.rs`, `depletion.rs`, `reduce.rs`: depletion chains:
    transmutation reactions, reaction paths, stand-ins for nuclides without
    decay data or fission yields, assembling a chain from decay records and
    neutron evaluations, and reducing a chain to what a set of nuclides
    reaches.
  - `ace.rs`, `neutron_table.rs`, `njoy.rs`: ACE tables, the layout of a
    continuous-energy neutron table's blocks, and the NJOY input deck, its
    tape units and its text.
- `app/` holds what stands around the library: turning field text into
  floating-point values and the arithmetic on them, reading files, running
  NJOY, and the Python module.
- `tests/` exercises the library on concrete data.

## Not included

- Reading decay and fission product yield evaluations into the records a
  chain is built from: `app/chain.rs` takes them already read.
- Attaching secondary distributions to the reactions of an
  incident-neutron ACE table: `app/neutron.rs` reads the cross sections, Q
  values and frames, and `app/ace_distribution.rs` reads a distribution
  block where one is pointed at, but the two are not joined.
