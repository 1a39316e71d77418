//! MF=1: descriptive data, the MT=451 header and directory of a material;
//! neutron yields; delayed neutron constants; and fission energy release.

use vstd::prelude::*;

use crate::error::Result;
use crate::function::Tabulated2D;
use crate::mf::list::{
    at_least_zero, every_other, every_other_matches, item_text, lemma_items, lemma_lists_stop, lemma_tab1s_stop,
    list_at, list_fits, list_len, list_value, lists_fit, strided, strided_count, tab1_at, tab1_fits, tab1_len,
    tab1s_fit,
};
use crate::mf::mf8::{pair_view, WithUncertainty};
use crate::records::{
    count_field, field, field_of, int_field, lines_for, pairs_match, tab1_matches, values_match, Cont, Reader, Tab1,
};

verus! {

broadcast use vstd::string::group_string_axioms;

/// MF=1 MT=451: what the evaluation is, and the directory of the sections it
/// holds. The real-valued fields are kept as the text of their fields.
#[derive(Debug, Clone, PartialEq, Eq)]
pub struct Mf1Mt451 {
    pub za: String,
    pub awr: String,
    pub lrp: i64,
    pub lfi: i64,
    pub nlib: i64,
    pub nmod: i64,
    pub elis: String,
    pub sta: String,
    pub lis: i64,
    pub liso: i64,
    pub nfor: i64,
    pub awi: String,
    pub emax: String,
    pub lrel: i64,
    pub nsub: i64,
    pub nver: i64,
    pub temp: String,
    pub ldrv: i64,
    pub nwd: i64,
    pub nxc: i64,
    pub zsymam: Option<String>,
    pub alab: Option<String>,
    pub edate: Option<String>,
    pub auth: Option<String>,
    pub reference: Option<String>,
    pub ddate: Option<String>,
    pub rdate: Option<String>,
    pub endate: Option<String>,
    pub hsub: Vec<String>,
    pub description: Vec<String>,
    /// `(MF, MT, NC, MOD)` of each section, as the directory lists them.
    pub section_list: Vec<(i64, i64, i64, i64)>,
}

/// `v.max(0)`.
pub open spec fn nonneg(v: int) -> int {
    if v > 0 {
        v
    } else {
        0
    }
}

/// How many lines MF=1 MT=451 takes from `lines[at]`: four CONT-like
/// records, the text records, and the directory.
pub open spec fn mf1_mt451_len(lines: Seq<Seq<char>>, at: int) -> int {
    4 + count_field(lines[at + 3], 44, 55) + nonneg(int_field(lines[at + 3], 55, 66))
}

/// Whether the lines from `at` hold a whole MF=1 MT=451 section.
pub open spec fn mf1_mt451_fits(lines: Seq<Seq<char>>, at: int) -> bool {
    &&& at + 4 <= lines.len()
    &&& at + mf1_mt451_len(lines, at) <= lines.len()
}

/// A fixed-width field of a text record, kept whole.
pub open spec fn text_field_of(text: Seq<char>, start: int, end: int) -> Option<Seq<char>> {
    Some(field_of(text, start, end))
}

/// The characters of an optional string.
pub open spec fn opt_view(o: Option<String>) -> Option<Seq<char>> {
    match o {
        Some(s) => Some(s@),
        None => None,
    }
}

/// What MF=1 MT=451 read from `lines[at]` holds.
pub open spec fn mf1_mt451_matches(d: Mf1Mt451, lines: Seq<Seq<char>>, at: int) -> bool {
    let h = lines[at];
    let c1 = lines[at + 1];
    let c2 = lines[at + 2];
    let c3 = lines[at + 3];
    let nwd = count_field(c3, 44, 55);
    let nxc = nonneg(int_field(c3, 55, 66));
    let text = |k: int| field_of(lines[at + 4 + k], 0, 66);
    &&& d.za@ == field_of(h, 0, 11)
    &&& d.awr@ == field_of(h, 11, 22)
    &&& d.lrp == int_field(h, 22, 33)
    &&& d.lfi == int_field(h, 33, 44)
    &&& d.nlib == int_field(h, 44, 55)
    &&& d.nmod == int_field(h, 55, 66)
    &&& d.elis@ == field_of(c1, 0, 11)
    &&& d.sta@ == field_of(c1, 11, 22)
    &&& d.lis == int_field(c1, 22, 33)
    &&& d.liso == int_field(c1, 33, 44)
    &&& d.nfor == int_field(c1, 55, 66)
    &&& d.awi@ == field_of(c2, 0, 11)
    &&& d.emax@ == field_of(c2, 11, 22)
    &&& d.lrel == int_field(c2, 22, 33)
    &&& d.nsub == int_field(c2, 44, 55)
    &&& d.nver == int_field(c2, 55, 66)
    &&& d.temp@ == field_of(c3, 0, 11)
    &&& d.ldrv == int_field(c3, 22, 33)
    &&& d.nwd == int_field(c3, 44, 55)
    &&& d.nxc == int_field(c3, 55, 66)
    &&& if nwd >= 5 {
        &&& opt_view(d.zsymam) == text_field_of(text(0), 0, 11)
        &&& opt_view(d.alab) == text_field_of(text(0), 11, 22)
        &&& opt_view(d.edate) == text_field_of(text(0), 22, 32)
        &&& opt_view(d.auth) == text_field_of(text(0), 32, 66)
        &&& opt_view(d.reference) == text_field_of(text(1), 1, 22)
        &&& opt_view(d.ddate) == text_field_of(text(1), 22, 32)
        &&& opt_view(d.rdate) == text_field_of(text(1), 33, 43)
        &&& opt_view(d.endate) == text_field_of(text(1), 55, 63)
        &&& d.hsub@.len() == 3
        &&& forall|k: int| 0 <= k < 3 ==> #[trigger] d.hsub@[k]@ == text(2 + k)
        &&& d.description@.len() == nwd - 5
        &&& forall|k: int| 0 <= k < nwd - 5 ==> #[trigger] d.description@[k]@ == text(5 + k)
    } else {
        &&& d.zsymam is None && d.alab is None && d.edate is None && d.auth is None
        &&& d.reference is None && d.ddate is None && d.rdate is None && d.endate is None
        &&& d.hsub@.len() == 0 && d.description@.len() == 0
    }
    &&& d.section_list@.len() == nxc
    &&& forall|k: int|
        0 <= k < nxc ==> #[trigger] d.section_list@[k] == ({
            let l = lines[at + 4 + nwd + k];
            (
                int_field(l, 22, 33) as i64,
                int_field(l, 33, 44) as i64,
                int_field(l, 44, 55) as i64,
                int_field(l, 55, 66) as i64,
            )
        })
}

/// Trim a fixed-width text field, keeping `None` distinct from empty.
pub fn text_field(line: &str, start: usize, end: usize) -> (r: Option<String>)
    ensures
        opt_view(r) == text_field_of(line@, start as int, end as int),
{
    Some(field(line, start, end).to_owned())
}

/// Parse MF=1 MT=451.
#[verifier::rlimit(40)]
pub fn parse_mf1_mt451(reader: &mut Reader) -> (r: Result<Mf1Mt451>)
    requires
        old(reader).wf(),
    ensures
        final(reader).wf(),
        mf1_mt451_fits(old(reader).lines_view(), old(reader).position()) ==> (r matches Ok(d)
            && mf1_mt451_matches(d, old(reader).lines_view(), old(reader).position())),
        !mf1_mt451_fits(old(reader).lines_view(), old(reader).position()) ==> r is Err,
        r matches Err(e) ==> e is UnexpectedEof,
{
    let ghost lines = reader.lines_view();
    let ghost at = reader.position();
    let head: Cont = reader.cont_record()?;
    let c1: Cont = reader.cont_record()?;
    let c2: Cont = reader.cont_record()?;
    let c3: Cont = reader.cont_record()?;
    let nwd: usize = crate::records::count_exec(c3.n1);
    let mut text: Vec<String> = Vec::new();
    let mut k: usize = 0;
    while k < nwd
        invariant
            reader.wf(),
            reader.lines_view() == lines,
            reader.position() == at + 4 + k,
            reader.position() <= lines.len(),
            at + 4 <= lines.len(),
            lines == old(reader).lines_view(),
            at == old(reader).position(),
            k <= nwd,
            nwd == count_field(lines[at + 3], 44, 55),
            c3.n2 == int_field(lines[at + 3], 55, 66),
            text@.len() == k,
            forall|j: int| 0 <= j < k ==> #[trigger] text@[j]@ == field_of(lines[at + 4 + j], 0, 66),
        decreases nwd - k,
    {
        let t = reader.text_record()?;
        text.push(t.to_owned());
        k = k + 1;
    }
    let mut zsymam = None;
    let mut alab = None;
    let mut edate = None;
    let mut auth = None;
    let mut reference = None;
    let mut ddate = None;
    let mut rdate = None;
    let mut endate = None;
    let mut hsub: Vec<String> = Vec::new();
    let mut description: Vec<String> = Vec::new();
    // Fewer than five text records means the evaluation left the descriptive
    // header out entirely; the reader reports that rather than inventing it.
    if text.len() >= 5 {
        zsymam = text_field(text[0].as_str(), 0, 11);
        alab = text_field(text[0].as_str(), 11, 22);
        edate = text_field(text[0].as_str(), 22, 32);
        auth = text_field(text[0].as_str(), 32, 66);
        reference = text_field(text[1].as_str(), 1, 22);
        ddate = text_field(text[1].as_str(), 22, 32);
        rdate = text_field(text[1].as_str(), 33, 43);
        endate = text_field(text[1].as_str(), 55, 63);
        let mut j: usize = 2;
        while j < 5
            invariant
                2 <= j <= 5,
                text@.len() >= 5,
                hsub@.len() == j - 2,
                forall|i: int| 0 <= i < j - 2 ==> #[trigger] hsub@[i]@ == text@[2 + i]@,
            decreases 5 - j,
        {
            hsub.push(text[j].clone());
            j = j + 1;
        }
        let mut j: usize = 5;
        while j < text.len()
            invariant
                5 <= j <= text@.len(),
                description@.len() == j - 5,
                forall|i: int| 0 <= i < j - 5 ==> #[trigger] description@[i]@ == text@[5 + i]@,
            decreases text.len() - j,
        {
            description.push(text[j].clone());
            j = j + 1;
        }
    }
    let nxc = c3.n2;
    let mut section_list: Vec<(i64, i64, i64, i64)> = Vec::new();
    let mut s: i64 = 0;
    while s < nxc
        invariant
            reader.wf(),
            reader.lines_view() == lines,
            reader.position() == at + 4 + nwd + s,
            reader.position() <= lines.len(),
            lines == old(reader).lines_view(),
            at == old(reader).position(),
            nwd == count_field(lines[at + 3], 44, 55),
            nxc == int_field(lines[at + 3], 55, 66),
            0 <= s,
            s <= nonneg(nxc as int),
            section_list@.len() == s,
            forall|j: int|
                0 <= j < s ==> #[trigger] section_list@[j] == ({
                    let l = lines[at + 4 + nwd + j];
                    (
                        int_field(l, 22, 33) as i64,
                        int_field(l, 33, 44) as i64,
                        int_field(l, 44, 55) as i64,
                        int_field(l, 55, 66) as i64,
                    )
                }),
        decreases nxc - s,
    {
        let c = reader.cont_record()?;
        section_list.push((c.l1, c.l2, c.n1, c.n2));
        s = s + 1;
    }
    Ok(
        Mf1Mt451 {
            za: head.c1,
            awr: head.c2,
            lrp: head.l1,
            lfi: head.l2,
            nlib: head.n1,
            nmod: head.n2,
            elis: c1.c1,
            sta: c1.c2,
            lis: c1.l1,
            liso: c1.l2,
            nfor: c1.n2,
            awi: c2.c1,
            emax: c2.c2,
            lrel: c2.l1,
            nsub: c2.n1,
            nver: c2.n2,
            temp: c3.c1,
            ldrv: c3.l1,
            nwd: c3.n1,
            nxc: c3.n2,
            zsymam,
            alab,
            edate,
            auth,
            reference,
            ddate,
            rdate,
            endate,
            hsub,
            description,
            section_list,
        },
    )
}

/// The average number of neutrons per fission, as a polynomial in energy
/// or a tabulation.
#[derive(Debug, Clone, PartialEq, Eq)]
pub enum Nu {
    Polynomial(Vec<String>),
    Tabulated(Tab1),
    Absent,
}

/// The lines the neutron yield of form LNU at `lines[p]` takes: a LIST
/// record for a polynomial (1), a TAB1 record for a tabulation (2).
pub open spec fn nu_len(lines: Seq<Seq<char>>, p: int, lnu: int) -> int {
    if lnu == 1 {
        list_len(lines, p)
    } else if lnu == 2 {
        tab1_len(lines, p)
    } else {
        0
    }
}

/// Whether the neutron yield of form LNU fits at `lines[p]`.
pub open spec fn nu_fits(lines: Seq<Seq<char>>, p: int, lnu: int) -> bool {
    &&& lnu == 1 ==> list_fits(lines, p)
    &&& lnu == 2 ==> tab1_fits(lines, p)
}

/// What the neutron yield of form LNU read at `lines[p]` is.
pub open spec fn nu_matches(n: Nu, lines: Seq<Seq<char>>, p: int, lnu: int) -> bool {
    if lnu == 1 {
        n matches Nu::Polynomial(v) && values_match(lines, p + 1, count_field(lines[p], 44, 55), v@)
    } else if lnu == 2 {
        n matches Nu::Tabulated(t) && tab1_matches(t, lines, p)
    } else {
        n is Absent
    }
}

fn parse_nu(reader: &mut Reader, lnu: i64) -> (r: Result<Nu>)
    requires
        old(reader).wf(),
    ensures
        final(reader).wf(),
        final(reader).lines_view() == old(reader).lines_view(),
        r matches Err(e) ==> e is UnexpectedEof,
        nu_fits(old(reader).lines_view(), old(reader).position(), lnu as int) ==> {
            &&& r matches Ok(n) && nu_matches(n, old(reader).lines_view(), old(reader).position(), lnu as int)
            &&& final(reader).position() == old(reader).position() + nu_len(
                old(reader).lines_view(),
                old(reader).position(),
                lnu as int,
            )
        },
        !nu_fits(old(reader).lines_view(), old(reader).position(), lnu as int) ==> r is Err,
{
    proof {
        reader.lemma_position_nonneg();
    }
    if lnu == 1 {
        Ok(Nu::Polynomial(reader.list_record()?.values))
    } else if lnu == 2 {
        Ok(Nu::Tabulated(reader.tab1_record()?))
    } else {
        Ok(Nu::Absent)
    }
}

/// MF=1 MT=452 or MT=456: the total or prompt number of neutrons per
/// fission.
#[derive(Debug, Clone, PartialEq, Eq)]
pub struct Mf1Mt452 {
    pub za: String,
    pub awr: String,
    pub lnu: i64,
    pub nu: Nu,
}

/// Whether the lines from `at` hold a whole MF=1 MT=452 or MT=456 section.
pub open spec fn mf1_mt452_fits(lines: Seq<Seq<char>>, at: int) -> bool {
    0 <= at < lines.len() && nu_fits(lines, at + 1, int_field(lines[at], 33, 44))
}

/// What an MF=1 MT=452 or MT=456 section read from `lines[at]` holds.
pub open spec fn mf1_mt452_matches(d: Mf1Mt452, lines: Seq<Seq<char>>, at: int) -> bool {
    &&& d.za@ == field_of(lines[at], 0, 11)
    &&& d.awr@ == field_of(lines[at], 11, 22)
    &&& d.lnu == int_field(lines[at], 33, 44)
    &&& nu_matches(d.nu, lines, at + 1, d.lnu as int)
}

/// Parse MF=1 MT=452 or MT=456.
pub fn parse_mf1_mt452(reader: &mut Reader) -> (r: Result<Mf1Mt452>)
    requires
        old(reader).wf(),
    ensures
        final(reader).wf(),
        mf1_mt452_fits(old(reader).lines_view(), old(reader).position()) ==> (r matches Ok(d)
            && mf1_mt452_matches(d, old(reader).lines_view(), old(reader).position())),
        !mf1_mt452_fits(old(reader).lines_view(), old(reader).position()) ==> r is Err,
        r matches Err(e) ==> e is UnexpectedEof,
{
    proof {
        reader.lemma_position_nonneg();
    }
    let head = reader.cont_record()?;
    let lnu = head.l2;
    let nu = parse_nu(reader, lnu)?;
    Ok(Mf1Mt452 { za: head.c1, awr: head.c2, lnu, nu })
}

/// The delayed neutron group constants at one incident energy.
#[derive(Debug, Clone, PartialEq, Eq)]
pub struct DelayedGroupConstants {
    pub energy: String,
    pub lambda: Vec<String>,
    pub alpha: Vec<String>,
}

/// MF=1 MT=455: delayed neutron data.
#[derive(Debug, Clone, PartialEq, Eq)]
pub struct Mf1Mt455 {
    pub za: String,
    pub awr: String,
    pub ldg: i64,
    pub lnu: i64,
    pub lambda: Vec<String>,
    pub e_int: Option<Tabulated2D>,
    pub constants: Vec<DelayedGroupConstants>,
    pub nu: Nu,
}

/// The lines a TAB2 record at `lines[q]` takes.
pub open spec fn tab2_len(lines: Seq<Seq<char>>, q: int) -> int {
    1 + lines_for(count_field(lines[q], 44, 55), 3)
}

/// Where the decay constants of an MF=1 MT=455 section at `lines[at]` end
/// and the neutron yield starts.
pub open spec fn mt455_nu_at(lines: Seq<Seq<char>>, at: int) -> int {
    let ldg = int_field(lines[at], 22, 33);
    let p = at + 1;
    if ldg == 0 {
        p + list_len(lines, p)
    } else if ldg == 1 {
        list_at(lines, p + tab2_len(lines, p), at_least_zero(int_field(lines[p], 55, 66)))
    } else {
        p
    }
}

/// Whether the lines from `at` hold a whole MF=1 MT=455 section: the HEAD
/// record; the decay constants, in one LIST record for LDG=0 or a TAB2
/// record and one LIST record per energy for LDG=1; then the neutron yield.
pub open spec fn mf1_mt455_fits(lines: Seq<Seq<char>>, at: int) -> bool {
    let ldg = int_field(lines[at], 22, 33);
    let p = at + 1;
    &&& 0 <= at < lines.len()
    &&& ldg == 0 ==> list_fits(lines, p)
    &&& ldg == 1 ==> {
        &&& p < lines.len() && p + tab2_len(lines, p) <= lines.len()
        &&& lists_fit(lines, p + tab2_len(lines, p), at_least_zero(int_field(lines[p], 55, 66)))
    }
    &&& nu_fits(lines, mt455_nu_at(lines, at), int_field(lines[at], 33, 44))
}

/// What an MF=1 MT=455 section read from `lines[at]` holds.
pub open spec fn mf1_mt455_matches(d: Mf1Mt455, lines: Seq<Seq<char>>, at: int) -> bool {
    let p = at + 1;
    let s = p + tab2_len(lines, p);
    &&& d.za@ == field_of(lines[at], 0, 11)
    &&& d.awr@ == field_of(lines[at], 11, 22)
    &&& d.ldg == int_field(lines[at], 22, 33)
    &&& d.lnu == int_field(lines[at], 33, 44)
    &&& if d.ldg == 0 {
        &&& values_match(lines, p + 1, count_field(lines[p], 44, 55), d.lambda@)
        &&& d.e_int is None
        &&& d.constants@.len() == 0
    } else if d.ldg == 1 {
        &&& d.lambda@.len() == 0
        &&& d.e_int matches Some(t) && pairs_match(
            lines,
            p + 1,
            count_field(lines[p], 44, 55),
            t.breakpoints@,
            t.interpolation@,
        )
        &&& d.constants@.len() == at_least_zero(int_field(lines[p], 55, 66))
        &&& forall|k: int|
            0 <= k < d.constants@.len() ==> {
                let q = #[trigger] list_at(lines, s, k);
                let c = d.constants@[k];
                &&& c.energy@ == field_of(lines[q], 11, 22)
                &&& every_other_matches(c.lambda@, lines, q, 0, count_field(lines[q], 44, 55))
                &&& every_other_matches(c.alpha@, lines, q, 1, count_field(lines[q], 44, 55))
            }
    } else {
        d.lambda@.len() == 0 && d.e_int is None && d.constants@.len() == 0
    }
    &&& nu_matches(d.nu, lines, mt455_nu_at(lines, at), d.lnu as int)
}

/// Parse MF=1 MT=455.
#[verifier::rlimit(40)]
pub fn parse_mf1_mt455(reader: &mut Reader) -> (r: Result<Mf1Mt455>)
    requires
        old(reader).wf(),
    ensures
        final(reader).wf(),
        mf1_mt455_fits(old(reader).lines_view(), old(reader).position()) ==> (r matches Ok(d)
            && mf1_mt455_matches(d, old(reader).lines_view(), old(reader).position())),
        !mf1_mt455_fits(old(reader).lines_view(), old(reader).position()) ==> r is Err,
        r matches Err(e) ==> e is UnexpectedEof,
{
    let ghost lines = reader.lines_view();
    let ghost at = reader.position();
    proof {
        reader.lemma_position_nonneg();
    }
    let head = reader.cont_record()?;
    let ldg = head.l1;
    let lnu = head.l2;
    let mut lambda: Vec<String> = Vec::new();
    let mut e_int: Option<Tabulated2D> = None;
    let mut constants: Vec<DelayedGroupConstants> = Vec::new();
    if ldg == 0 {
        lambda = reader.list_record()?.values;
    } else if ldg == 1 {
        let tab2 = reader.tab2_record()?;
        let ne = tab2.cont.n2;
        e_int = Some(tab2.table);
        let ghost s = reader.position();
        let ghost count = at_least_zero(ne as int);
        let mut k: i64 = 0;
        while k < ne
            invariant
                reader.wf(),
                reader.lines_view() == lines,
                lines == old(reader).lines_view(),
                at == old(reader).position(),
                0 <= at < lines.len(),
                at + 1 < lines.len(),
                int_field(lines[at], 22, 33) == 1,
                ne == int_field(lines[at + 1], 55, 66),
                s == at + 1 + tab2_len(lines, at + 1),
                count == at_least_zero(ne as int),
                0 <= k <= count,
                reader.position() == list_at(lines, s, k as int),
                lists_fit(lines, s, k as int),
                constants@.len() == k,
                forall|j: int|
                    0 <= j < k ==> {
                        let q = #[trigger] list_at(lines, s, j);
                        let c = constants@[j];
                        &&& c.energy@ == field_of(lines[q], 11, 22)
                        &&& every_other_matches(c.lambda@, lines, q, 0, count_field(lines[q], 44, 55))
                        &&& every_other_matches(c.alpha@, lines, q, 1, count_field(lines[q], 44, 55))
                    },
            decreases ne - k,
        {
            let ghost q = reader.position();
            let list = match reader.list_record() {
                Ok(l) => l,
                Err(e) => {
                    proof {
                        lemma_lists_stop(lines, s, k as int, count);
                    }
                    return Err(e);
                },
            };
            proof {
                lemma_items(lines, q, list.values@);
            }
            let n = list.values.len();
            constants.push(
                DelayedGroupConstants {
                    energy: list.cont.c2.clone(),
                    lambda: every_other(&list.values, 0, n),
                    alpha: every_other(&list.values, 1, n),
                },
            );
            k = k + 1;
        }
    }
    // With energy-independent group constants the abundances are not given
    // here at all; they come from MF=5 MT=455, which carries one energy
    // distribution per delayed group.
    let nu = parse_nu(reader, lnu)?;
    Ok(Mf1Mt455 { za: head.c1, awr: head.c2, ldg, lnu, lambda, e_int, constants, nu })
}

/// One component of the fission energy release, as a polynomial in the
/// incident energy with each coefficient's uncertainty, or a tabulation.
#[derive(Debug, Clone, PartialEq, Eq)]
pub enum FissionEnergyRelease {
    Polynomial(Vec<WithUncertainty>),
    Tabulated { ldrv: i64, eifc: Tab1 },
}

/// MF=1 MT=458: the components of the energy released in fission.
#[derive(Debug, Clone, PartialEq, Eq)]
pub struct Mf1Mt458 {
    pub za: String,
    pub awr: String,
    pub lfc: i64,
    pub nply: i64,
    pub nfc: i64,
    /// In the order [`component_index`] gives their names.
    pub components: Vec<FissionEnergyRelease>,
}

/// Where the component named `name` stands: EFR, ENP, END, EGP, EGD, EB,
/// ENU, ER and ET, in the order MT=458 stores them.
pub open spec fn component_index(name: Seq<char>) -> Option<int> {
    if name == seq!['E', 'F', 'R'] {
        Some(0)
    } else if name == seq!['E', 'N', 'P'] {
        Some(1)
    } else if name == seq!['E', 'N', 'D'] {
        Some(2)
    } else if name == seq!['E', 'G', 'P'] {
        Some(3)
    } else if name == seq!['E', 'G', 'D'] {
        Some(4)
    } else if name == seq!['E', 'B'] {
        Some(5)
    } else if name == seq!['E', 'N', 'U'] {
        Some(6)
    } else if name == seq!['E', 'R'] {
        Some(7)
    } else if name == seq!['E', 'T'] {
        Some(8)
    } else {
        None
    }
}

/// The names of the components, in the order MT=458 stores them.
pub fn fission_energy_components() -> (r: Vec<String>)
    ensures
        r@.len() == 9,
        forall|i: int| 0 <= i < 9 ==> component_index(#[trigger] r@[i]@) == Some(i),
{
    let mut r: Vec<String> = Vec::new();
    let names: [[char; 3]; 9] = [
        ['E', 'F', 'R'],
        ['E', 'N', 'P'],
        ['E', 'N', 'D'],
        ['E', 'G', 'P'],
        ['E', 'G', 'D'],
        ['E', 'B', ' '],
        ['E', 'N', 'U'],
        ['E', 'R', ' '],
        ['E', 'T', ' '],
    ];
    let mut i: usize = 0;
    while i < 9
        invariant
            i <= 9,
            r@.len() == i,
            names@ == seq![
                ['E', 'F', 'R'],
                ['E', 'N', 'P'],
                ['E', 'N', 'D'],
                ['E', 'G', 'P'],
                ['E', 'G', 'D'],
                ['E', 'B', ' '],
                ['E', 'N', 'U'],
                ['E', 'R', ' '],
                ['E', 'T', ' '],
            ],
            forall|k: int| 0 <= k < i ==> component_index(#[trigger] r@[k]@) == Some(k),
        decreases 9 - i,
    {
        let n = names[i];
        let mut s = String::new();
        crate::text::string_push(&mut s, n[0]);
        crate::text::string_push(&mut s, n[1]);
        if n[2] != ' ' {
            crate::text::string_push(&mut s, n[2]);
        }
        proof {
            if n[2] != ' ' {
                assert(s@ == seq![n[0], n[1], n[2]]);
            } else {
                assert(s@ == seq![n[0], n[1]]);
            }
        }
        r.push(s);
        i = i + 1;
    }
    r
}

impl Mf1Mt458 {
    /// The component with this name, if the name is one of the nine and the
    /// component was read.
    pub fn component(&self, name: &str) -> (r: Option<&FissionEnergyRelease>)
        ensures
            r == (match component_index(name@) {
                Some(i) => if i < self.components@.len() {
                    Some(&self.components@[i])
                } else {
                    None
                },
                None => None,
            }),
    {
        let names = fission_energy_components();
        let mut i: usize = 0;
        while i < 9
            invariant
                i <= 9,
                names@.len() == 9,
                forall|k: int| 0 <= k < 9 ==> component_index(#[trigger] names@[k]@) == Some(k),
                forall|k: int| 0 <= k < i ==> names@[k]@ != name@,
            decreases 9 - i,
        {
            if crate::text::str_eq(names[i].as_str(), name) {
                proof {
                    assert(component_index(names@[i as int]@) == Some(i as int));
                }
                if i < self.components.len() {
                    return Some(&self.components[i]);
                } else {
                    return None;
                }
            }
            i = i + 1;
        }
        proof {
            if component_index(name@) is Some {
                let k = component_index(name@)->0;
                assert(0 <= k < 9);
                assert(component_index(names@[k]@) == Some(k));
                assert(names@[k]@ == name@) by {
                    lemma_component_names_differ(names@[k]@, name@);
                }
            }
        }
        None
    }
}

/// Two names at the same place are the same name.
proof fn lemma_component_names_differ(a: Seq<char>, b: Seq<char>)
    requires
        component_index(a) is Some,
        component_index(a) == component_index(b),
    ensures
        a == b,
{
}

/// The pairs of component `i` of the fission energy release LIST record at
/// `lines[p]`: each polynomial order gives a value and an uncertainty for
/// each of the nine components, 18 numbers per order.
pub open spec fn polynomial_matches(v: Seq<WithUncertainty>, lines: Seq<Seq<char>>, p: int, i: int) -> bool {
    &&& strided_count(v.len() as int, count_field(lines[p], 44, 55), 2 * i + 1, 18)
    &&& forall|j: int|
        0 <= j < v.len() ==> #[trigger] pair_view(v[j]) == (
            list_value(lines, p, 2 * i + 18 * j),
            list_value(lines, p, 2 * i + 1 + 18 * j),
        )
}

/// Which component the TAB1 record at `lines[q]` replaces: IFC - 1.
pub open spec fn replaced_component(lines: Seq<Seq<char>>, q: int) -> int {
    crate::records::count_of(int_field(lines[q], 33, 44) - 1)
}

/// The last of the first `k` TAB1 records from `lines[s]` that replaces
/// component `i`, or -1.
pub open spec fn last_tab_for(lines: Seq<Seq<char>>, s: int, k: int, i: int) -> int
    decreases k,
{
    if k <= 0 {
        -1
    } else if replaced_component(lines, tab1_at(lines, s, k - 1)) == i {
        k - 1
    } else {
        last_tab_for(lines, s, k - 1, i)
    }
}

/// What component `i` is once the first `k` TAB1 records from `lines[s]`
/// have replaced theirs: the last tabulation given for it, or the
/// polynomial of the LIST record at `lines[p]`.
pub open spec fn component_matches(c: FissionEnergyRelease, lines: Seq<Seq<char>>, p: int, s: int, k: int, i: int) -> bool {
    let t = last_tab_for(lines, s, k, i);
    if t >= 0 {
        let q = tab1_at(lines, s, t);
        c matches FissionEnergyRelease::Tabulated { ldrv, eifc } && ldrv == int_field(lines[q], 22, 33)
            && tab1_matches(eifc, lines, q)
    } else {
        c matches FissionEnergyRelease::Polynomial(v) && polynomial_matches(v@, lines, p, i)
    }
}

/// How many TAB1 records an MF=1 MT=458 section at `lines[at]` has: NFC
/// when LFC is 1.
pub open spec fn mt458_tabs(lines: Seq<Seq<char>>, at: int) -> int {
    if int_field(lines[at], 33, 44) == 1 {
        at_least_zero(int_field(lines[at], 55, 66))
    } else {
        0
    }
}

/// Whether the lines from `at` hold a whole MF=1 MT=458 section: a CONT
/// record, a LIST record, and for LFC=1 NFC TAB1 records.
pub open spec fn mf1_mt458_fits(lines: Seq<Seq<char>>, at: int) -> bool {
    &&& 0 <= at < lines.len()
    &&& list_fits(lines, at + 1)
    &&& tab1s_fit(lines, at + 1 + list_len(lines, at + 1), mt458_tabs(lines, at))
}

/// What an MF=1 MT=458 section read from `lines[at]` holds.
pub open spec fn mf1_mt458_matches(d: Mf1Mt458, lines: Seq<Seq<char>>, at: int) -> bool {
    let p = at + 1;
    let s = p + list_len(lines, p);
    &&& d.za@ == field_of(lines[at], 0, 11)
    &&& d.awr@ == field_of(lines[at], 11, 22)
    &&& d.lfc == int_field(lines[at], 33, 44)
    &&& d.nfc == int_field(lines[at], 55, 66)
    &&& d.nply == int_field(lines[p], 33, 44)
    &&& d.components@.len() == 9
    &&& forall|i: int|
        0 <= i < 9 ==> component_matches(#[trigger] d.components@[i], lines, p, s, mt458_tabs(lines, at), i)
}

/// The polynomial of component `i`.
fn polynomial(values: &Vec<String>, i: u128, Ghost(lines): Ghost<Seq<Seq<char>>>, Ghost(p): Ghost<int>) -> (v: Vec<WithUncertainty>)
    requires
        i < 9,
        0 <= p < lines.len(),
        values@.len() == count_field(lines[p], 44, 55),
        forall|k: int| #[trigger] item_text(values@, k) == list_value(lines, p, k),
    ensures
        polynomial_matches(v@, lines, p, i as int),
{
    let n = values.len() as u128;
    let mut v: Vec<WithUncertainty> = Vec::new();
    let mut j: u128 = 0;
    while 2 * i + 1 + 18 * j < n
        invariant
            i < 9,
            n == values@.len(),
            n <= usize::MAX,
            v@.len() == j,
            j > 0 ==> 2 * i + 1 + 18 * (j - 1) < n,
            forall|k: int| #[trigger] item_text(values@, k) == list_value(lines, p, k),
            forall|m: int|
                0 <= m < j ==> #[trigger] pair_view(v@[m]) == (
                    list_value(lines, p, 2 * i + 18 * m),
                    list_value(lines, p, 2 * i + 1 + 18 * m),
                ),
        decreases (n as int) - (j as int),
    {
        let a = crate::mf::list::item(values, 2 * i + 18 * j);
        let b = crate::mf::list::item(values, 2 * i + 1 + 18 * j);
        v.push(WithUncertainty { value: a, uncertainty: b });
        j = j + 1;
    }
    v
}

/// Parse MF=1 MT=458.
#[verifier::rlimit(40)]
pub fn parse_mf1_mt458(reader: &mut Reader) -> (r: Result<Mf1Mt458>)
    requires
        old(reader).wf(),
    ensures
        final(reader).wf(),
        mf1_mt458_fits(old(reader).lines_view(), old(reader).position()) ==> (r matches Ok(d)
            && mf1_mt458_matches(d, old(reader).lines_view(), old(reader).position())),
        !mf1_mt458_fits(old(reader).lines_view(), old(reader).position()) ==> r is Err,
        r matches Err(e) ==> e is UnexpectedEof,
{
    let ghost lines = reader.lines_view();
    let ghost at = reader.position();
    proof {
        reader.lemma_position_nonneg();
    }
    let head = reader.cont_record()?;
    let lfc = head.l2;
    let nfc = head.n2;
    let ghost p = reader.position();
    let list = reader.list_record()?;
    proof {
        lemma_items(lines, p, list.values@);
    }
    let mut components: Vec<FissionEnergyRelease> = Vec::new();
    let mut i: u128 = 0;
    while i < 9
        invariant
            i <= 9,
            0 <= p < lines.len(),
            list.values@.len() == count_field(lines[p], 44, 55),
            forall|k: int| #[trigger] item_text(list.values@, k) == list_value(lines, p, k),
            components@.len() == i,
            forall|m: int|
                0 <= m < i ==> (#[trigger] components@[m] matches FissionEnergyRelease::Polynomial(v)
                    && polynomial_matches(v@, lines, p, m)),
        decreases 9 - i,
    {
        components.push(FissionEnergyRelease::Polynomial(polynomial(&list.values, i, Ghost(lines), Ghost(p))));
        i = i + 1;
    }
    let ghost s = reader.position();
    // LFC=1 replaces some components with a tabulation. IFC says which.
    if lfc == 1 {
        let ghost count = at_least_zero(nfc as int);
        let mut k: i64 = 0;
        while k < nfc
            invariant
                reader.wf(),
                reader.lines_view() == lines,
                lines == old(reader).lines_view(),
                at == old(reader).position(),
                0 <= at < lines.len(),
                p == at + 1,
                s == p + list_len(lines, p),
                int_field(lines[at], 33, 44) == 1,
                nfc == int_field(lines[at], 55, 66),
                count == at_least_zero(nfc as int),
                count == mt458_tabs(lines, at),
                0 <= k <= count,
                reader.position() == tab1_at(lines, s, k as int),
                tab1s_fit(lines, s, k as int),
                components@.len() == 9,
                forall|m: int| 0 <= m < 9 ==> component_matches(#[trigger] components@[m], lines, p, s, k as int, m),
            decreases nfc - k,
        {
            let ghost q = reader.position();
            let tab = match reader.tab1_record() {
                Ok(t) => t,
                Err(e) => {
                    proof {
                        lemma_tab1s_stop(lines, s, k as int, count);
                    }
                    return Err(e);
                },
            };
            let ldrv = tab.l1;
            let ifc = tab.l2;
            let idx: usize = if (ifc as i128) - 1 > 0 {
                #[verifier::truncate]
                (((ifc as i128) - 1) as usize)
            } else {
                0
            };
            proof {
                assert(idx == replaced_component(lines, q));
            }
            if idx < components.len() {
                components.set(idx, FissionEnergyRelease::Tabulated { ldrv, eifc: tab });
            }
            k = k + 1;
        }
    }
    Ok(Mf1Mt458 { za: head.c1, awr: head.c2, lfc, nply: list.cont.l2, nfc, components })
}

/// MF=1 MT=460: delayed photon data.
#[derive(Debug, Clone, PartialEq, Eq)]
pub struct Mf1Mt460 {
    pub za: String,
    pub awr: String,
    pub lo: i64,
    pub ng: i64,
    pub energy: Vec<String>,
    pub time: Vec<Tab1>,
    pub lambda: Vec<String>,
}

/// Whether the lines from `at` hold a whole MF=1 MT=460 section: the HEAD
/// record, then NG TAB1 records for LO=1 or a LIST record for LO=2.
pub open spec fn mf1_mt460_fits(lines: Seq<Seq<char>>, at: int) -> bool {
    let lo = int_field(lines[at], 22, 33);
    &&& 0 <= at < lines.len()
    &&& lo == 1 ==> tab1s_fit(lines, at + 1, at_least_zero(int_field(lines[at], 44, 55)))
    &&& lo == 2 ==> list_fits(lines, at + 1)
}

/// What an MF=1 MT=460 section read from `lines[at]` holds.
pub open spec fn mf1_mt460_matches(d: Mf1Mt460, lines: Seq<Seq<char>>, at: int) -> bool {
    let n = at_least_zero(int_field(lines[at], 44, 55));
    &&& d.za@ == field_of(lines[at], 0, 11)
    &&& d.awr@ == field_of(lines[at], 11, 22)
    &&& d.lo == int_field(lines[at], 22, 33)
    &&& if d.lo == 1 {
        &&& d.ng == int_field(lines[at], 44, 55)
        &&& d.energy@.len() == n && d.time@.len() == n
        &&& forall|k: int|
            0 <= k < n ==> tab1_matches(#[trigger] d.time@[k], lines, tab1_at(lines, at + 1, k))
                && d.energy@[k] == d.time@[k].c1
        &&& d.lambda@.len() == 0
    } else if d.lo == 2 {
        &&& d.ng == 0 && d.energy@.len() == 0 && d.time@.len() == 0
        &&& values_match(lines, at + 2, count_field(lines[at + 1], 44, 55), d.lambda@)
    } else {
        d.ng == 0 && d.energy@.len() == 0 && d.time@.len() == 0 && d.lambda@.len() == 0
    }
}

/// Parse MF=1 MT=460.
pub fn parse_mf1_mt460(reader: &mut Reader) -> (r: Result<Mf1Mt460>)
    requires
        old(reader).wf(),
    ensures
        final(reader).wf(),
        mf1_mt460_fits(old(reader).lines_view(), old(reader).position()) ==> (r matches Ok(d)
            && mf1_mt460_matches(d, old(reader).lines_view(), old(reader).position())),
        !mf1_mt460_fits(old(reader).lines_view(), old(reader).position()) ==> r is Err,
        r matches Err(e) ==> e is UnexpectedEof,
{
    let ghost lines = reader.lines_view();
    let ghost at = reader.position();
    proof {
        reader.lemma_position_nonneg();
    }
    let head = reader.cont_record()?;
    let lo = head.l1;
    let mut ng: i64 = 0;
    let mut energy: Vec<String> = Vec::new();
    let mut time: Vec<Tab1> = Vec::new();
    let mut lambda: Vec<String> = Vec::new();
    if lo == 1 {
        ng = head.n1;
        let ghost count = at_least_zero(ng as int);
        let mut k: i64 = 0;
        while k < ng
            invariant
                reader.wf(),
                reader.lines_view() == lines,
                lines == old(reader).lines_view(),
                at == old(reader).position(),
                0 <= at < lines.len(),
                int_field(lines[at], 22, 33) == 1,
                ng == int_field(lines[at], 44, 55),
                count == at_least_zero(ng as int),
                0 <= k <= count,
                reader.position() == tab1_at(lines, at + 1, k as int),
                tab1s_fit(lines, at + 1, k as int),
                energy@.len() == k && time@.len() == k,
                forall|j: int|
                    0 <= j < k ==> tab1_matches(#[trigger] time@[j], lines, tab1_at(lines, at + 1, j))
                        && energy@[j] == time@[j].c1,
            decreases ng - k,
        {
            let tab = match reader.tab1_record() {
                Ok(t) => t,
                Err(e) => {
                    proof {
                        lemma_tab1s_stop(lines, at + 1, k as int, count);
                    }
                    return Err(e);
                },
            };
            energy.push(tab.c1.clone());
            time.push(tab);
            k = k + 1;
        }
    } else if lo == 2 {
        lambda = reader.list_record()?.values;
    }
    Ok(Mf1Mt460 { za: head.c1, awr: head.c2, lo, ng, energy, time, lambda })
}

} // verus!
