//! MF=3, reaction cross sections.

use vstd::prelude::*;

use crate::error::Result;
use crate::records::{cont_matches, count_field, lines_for, tab1_matches, Cont, Reader, Tab1};

verus! {

/// A reaction cross section as given in MF=3. The real-valued fields are
/// kept as the text of their fields.
#[derive(Debug, Clone, PartialEq, Eq)]
pub struct Mf3 {
    /// ZA identifier, 1000*Z + A, as written in the HEAD record.
    pub za: String,
    /// Ratio of the target mass to that of a neutron.
    pub awr: String,
    /// Mass-difference Q value, eV.
    pub qm: String,
    /// Reaction Q value for the lowest energy state, eV.
    pub qi: String,
    /// Complex-break-up flag.
    pub lr: i64,
    /// Cross section as a function of incident energy, barns against eV.
    pub sigma: Tab1,
}

/// How many lines an MF=3 section starting at `lines[at]` takes: the HEAD
/// record and one TAB1 record.
pub open spec fn mf3_len(lines: Seq<Seq<char>>, at: int) -> int {
    let t = at + 1;
    1 + 1 + lines_for(count_field(lines[t], 44, 55), 3) + lines_for(
        count_field(lines[t], 55, 66),
        3,
    )
}

/// Whether the lines from `at` hold a whole MF=3 section.
pub open spec fn mf3_fits(lines: Seq<Seq<char>>, at: int) -> bool {
    &&& at + 1 < lines.len()
    &&& at + mf3_len(lines, at) <= lines.len()
}

/// What an MF=3 section read from `lines[at]` onwards holds.
pub open spec fn mf3_matches(m: Mf3, lines: Seq<Seq<char>>, at: int) -> bool {
    let head = lines[at];
    let tab = lines[at + 1];
    &&& m.za@ == crate::records::field_of(head, 0, 11)
    &&& m.awr@ == crate::records::field_of(head, 11, 22)
    &&& m.qm == m.sigma.c1
    &&& m.qi == m.sigma.c2
    &&& m.lr == m.sigma.l2
    &&& tab1_matches(m.sigma, lines, at + 1)
}

/// Parse an MF=3 section.
pub fn parse_mf3(reader: &mut Reader) -> (r: Result<Mf3>)
    requires
        old(reader).wf(),
    ensures
        final(reader).wf(),
        mf3_fits(old(reader).lines_view(), old(reader).position()) ==> (r matches Ok(m)
            && mf3_matches(m, old(reader).lines_view(), old(reader).position())),
        !mf3_fits(old(reader).lines_view(), old(reader).position()) ==> r is Err,
        r matches Err(e) ==> e is UnexpectedEof,
{
    let head: Cont = reader.cont_record()?;
    let tab = reader.tab1_record()?;
    Ok(
        Mf3 {
            za: head.c1,
            awr: head.c2,
            qm: tab.c1.clone(),
            qi: tab.c2.clone(),
            lr: tab.l2,
            sigma: tab,
        },
    )
}

} // verus!
