//! Atomic data: MF=23 and MF=27, photo-atomic cross sections and the form
//! factors and scattering functions that modify coherent and incoherent
//! scattering, both laid out as MF=3 is, a HEAD record and one TAB1; MF=26,
//! the secondary distributions of electro-atomic data; and MF=28, atomic
//! relaxation.

use vstd::prelude::*;

use crate::error::Result;
use crate::mf::list::{
    at_least_zero, item, item_text, lemma_items, lemma_lists_stop, list_at, list_value, lists_fit, strided,
    strided_matches, tab1_at, tab1_fits, tab1_len, tab1s_fit,
};
use crate::mf::mf3::mf3_fits;
use crate::mf::mf6::{
    continuum_matches, parse_continuum, parse_discrete_two_body, tab2_lists_end, tab2_lists_fit, two_body_matches,
    ContinuumEnergyAngle, DiscreteTwoBody,
};
use crate::records::{count_field, field_of, int_field, tab1_matches, values_match, Cont, Reader, Tab1};

verus! {

/// MF=23: a photo-atomic or electro-atomic cross section. The real-valued
/// fields are kept as the text of their fields.
#[derive(Debug, Clone, PartialEq, Eq)]
pub struct Mf23 {
    pub za: String,
    pub awr: String,
    /// Subshell binding energy, for the photoelectric subshell reactions.
    pub epe: String,
    /// Fluorescence yield.
    pub efl: String,
    pub sigma: Tab1,
}

/// What an MF=23 section read from `lines[at]` onwards holds.
pub open spec fn mf23_matches(m: Mf23, lines: Seq<Seq<char>>, at: int) -> bool {
    &&& m.za@ == field_of(lines[at], 0, 11)
    &&& m.awr@ == field_of(lines[at], 11, 22)
    &&& m.epe == m.sigma.c1
    &&& m.efl == m.sigma.c2
    &&& tab1_matches(m.sigma, lines, at + 1)
}

/// Parse an MF=23 section.
pub fn parse_mf23(reader: &mut Reader) -> (r: Result<Mf23>)
    requires
        old(reader).wf(),
    ensures
        final(reader).wf(),
        mf3_fits(old(reader).lines_view(), old(reader).position()) ==> (r matches Ok(m)
            && mf23_matches(m, old(reader).lines_view(), old(reader).position())),
        !mf3_fits(old(reader).lines_view(), old(reader).position()) ==> r is Err,
        r matches Err(e) ==> e is UnexpectedEof,
{
    let head: Cont = reader.cont_record()?;
    let tab = reader.tab1_record()?;
    Ok(Mf23 { za: head.c1, awr: head.c2, epe: tab.c1.clone(), efl: tab.c2.clone(), sigma: tab })
}

/// MF=27: an atomic form factor or scattering function.
#[derive(Debug, Clone, PartialEq, Eq)]
pub struct Mf27 {
    pub za: String,
    pub awr: String,
    /// Atomic number, written in a real-valued field.
    pub z: String,
    /// The form factor or scattering function against momentum transfer.
    pub h: Tab1,
}

/// What an MF=27 section read from `lines[at]` onwards holds.
pub open spec fn mf27_matches(m: Mf27, lines: Seq<Seq<char>>, at: int) -> bool {
    &&& m.za@ == field_of(lines[at], 0, 11)
    &&& m.awr@ == field_of(lines[at], 11, 22)
    &&& m.z == m.h.c2
    &&& tab1_matches(m.h, lines, at + 1)
}

/// Parse an MF=27 section.
pub fn parse_mf27(reader: &mut Reader) -> (r: Result<Mf27>)
    requires
        old(reader).wf(),
    ensures
        final(reader).wf(),
        mf3_fits(old(reader).lines_view(), old(reader).position()) ==> (r matches Ok(m)
            && mf27_matches(m, old(reader).lines_view(), old(reader).position())),
        !mf3_fits(old(reader).lines_view(), old(reader).position()) ==> r is Err,
        r matches Err(e) ==> e is UnexpectedEof,
{
    let head: Cont = reader.cont_record()?;
    let tab = reader.tab1_record()?;
    Ok(Mf27 { za: head.c1, awr: head.c2, z: tab.c2.clone(), h: tab })
}

// -------------------------------------------------------------------------
// MF=26
// -------------------------------------------------------------------------

/// One product of an electro-atomic reaction.
#[derive(Debug, Clone, PartialEq, Eq)]
pub struct AtomicProduct {
    /// ZA of the product, as the text of its real-valued field.
    pub zap: String,
    pub awi: String,
    pub law: i64,
    /// Multiplicity as a function of incident energy.
    pub yield_: Tab1,
    pub distribution: ElectroAtomicDistribution,
}

/// The distribution of an electro-atomic product, by law.
#[derive(Debug, Clone, PartialEq, Eq)]
pub enum ElectroAtomicDistribution {
    /// A law the reader does not recognise, and nothing was read for it.
    Absent,
    /// LAW=1, shared with MF=6.
    ContinuumEnergyAngle(Box<ContinuumEnergyAngle>),
    /// LAW=2, shared with MF=6.
    DiscreteTwoBody(Box<DiscreteTwoBody>),
    /// LAW=8: the energy transferred to the atom by excitation.
    EnergyTransfer(Tab1),
}

/// MF=26: secondary distributions for electro-atomic data.
#[derive(Debug, Clone, PartialEq, Eq)]
pub struct Mf26 {
    pub za: String,
    pub awr: String,
    pub nk: i64,
    pub products: Vec<AtomicProduct>,
}

/// The line after the electro-atomic product at `lines[q]`.
pub open spec fn atomic_product_end(lines: Seq<Seq<char>>, q: int) -> int {
    let law = int_field(lines[q], 33, 44);
    let d = q + tab1_len(lines, q);
    if law == 1 || law == 2 {
        tab2_lists_end(lines, d)
    } else if law == 8 {
        d + tab1_len(lines, d)
    } else {
        d
    }
}

/// Whether the electro-atomic product at `lines[q]` fits.
pub open spec fn atomic_product_fits(lines: Seq<Seq<char>>, q: int) -> bool {
    let law = int_field(lines[q], 33, 44);
    let d = q + tab1_len(lines, q);
    &&& tab1_fits(lines, q)
    &&& (law == 1 || law == 2) ==> tab2_lists_fit(lines, d)
    &&& law == 8 ==> tab1_fits(lines, d)
}

/// What the electro-atomic product read from `lines[q]` onwards holds.
pub open spec fn atomic_product_matches(x: AtomicProduct, lines: Seq<Seq<char>>, q: int) -> bool {
    let d = q + tab1_len(lines, q);
    &&& x.zap@ == field_of(lines[q], 0, 11)
    &&& x.awi@ == field_of(lines[q], 11, 22)
    &&& x.law == int_field(lines[q], 33, 44)
    &&& tab1_matches(x.yield_, lines, q)
    &&& if x.law == 1 {
        x.distribution matches ElectroAtomicDistribution::ContinuumEnergyAngle(c) && continuum_matches(*c, lines, d)
    } else if x.law == 2 {
        x.distribution matches ElectroAtomicDistribution::DiscreteTwoBody(c) && two_body_matches(*c, lines, d)
    } else if x.law == 8 {
        x.distribution matches ElectroAtomicDistribution::EnergyTransfer(t) && tab1_matches(t, lines, d)
    } else {
        x.distribution is Absent
    }
}

fn read_atomic_product(reader: &mut Reader) -> (r: Result<AtomicProduct>)
    requires
        old(reader).wf(),
    ensures
        final(reader).wf(),
        final(reader).lines_view() == old(reader).lines_view(),
        r matches Err(e) ==> e is UnexpectedEof,
        atomic_product_fits(old(reader).lines_view(), old(reader).position()) ==> {
            &&& r matches Ok(x) && atomic_product_matches(x, old(reader).lines_view(), old(reader).position())
            &&& final(reader).position() == atomic_product_end(old(reader).lines_view(), old(reader).position())
        },
        !atomic_product_fits(old(reader).lines_view(), old(reader).position()) ==> r is Err,
{
    proof {
        reader.lemma_position_nonneg();
    }
    let tab = reader.tab1_record()?;
    let law = tab.l2;
    let distribution = if law == 1 {
        ElectroAtomicDistribution::ContinuumEnergyAngle(Box::new(parse_continuum(reader)?))
    } else if law == 2 {
        ElectroAtomicDistribution::DiscreteTwoBody(Box::new(parse_discrete_two_body(reader)?))
    } else if law == 8 {
        ElectroAtomicDistribution::EnergyTransfer(reader.tab1_record()?)
    } else {
        ElectroAtomicDistribution::Absent
    };
    Ok(AtomicProduct { zap: tab.c1.clone(), awi: tab.c2.clone(), law, yield_: tab, distribution })
}

/// Where the `k`-th of a run of electro-atomic products from `lines[at]`
/// starts.
pub open spec fn atomic_product_at(lines: Seq<Seq<char>>, at: int, k: int) -> int
    decreases k,
{
    if k <= 0 {
        at
    } else {
        atomic_product_end(lines, atomic_product_at(lines, at, k - 1))
    }
}

/// Whether `k` electro-atomic products from `lines[at]` fit.
pub open spec fn atomic_products_fit(lines: Seq<Seq<char>>, at: int, k: int) -> bool
    decreases k,
{
    if k <= 0 {
        true
    } else {
        atomic_products_fit(lines, at, k - 1) && atomic_product_fits(lines, atomic_product_at(lines, at, k - 1))
    }
}

proof fn lemma_atomic_products_stop(lines: Seq<Seq<char>>, at: int, k: int, n: int)
    requires
        0 <= k < n,
        atomic_products_fit(lines, at, k),
        !atomic_product_fits(lines, atomic_product_at(lines, at, k)),
    ensures
        !atomic_products_fit(lines, at, n),
    decreases n - k,
{
    if k + 1 < n {
        lemma_atomic_products_stop_later(lines, at, k + 1, n);
    }
}

proof fn lemma_atomic_products_stop_later(lines: Seq<Seq<char>>, at: int, k: int, n: int)
    requires
        0 < k <= n,
        !atomic_products_fit(lines, at, k),
    ensures
        !atomic_products_fit(lines, at, n),
    decreases n - k,
{
    if k < n {
        lemma_atomic_products_stop_later(lines, at, k + 1, n);
    }
}

/// Whether the lines from `at` hold a whole MF=26 section.
pub open spec fn mf26_fits(lines: Seq<Seq<char>>, at: int) -> bool {
    0 <= at < lines.len() && atomic_products_fit(lines, at + 1, at_least_zero(int_field(lines[at], 44, 55)))
}

/// What an MF=26 section read from `lines[at]` holds.
pub open spec fn mf26_matches(d: Mf26, lines: Seq<Seq<char>>, at: int) -> bool {
    let n = at_least_zero(int_field(lines[at], 44, 55));
    &&& d.za@ == field_of(lines[at], 0, 11)
    &&& d.awr@ == field_of(lines[at], 11, 22)
    &&& d.nk == int_field(lines[at], 44, 55)
    &&& d.products@.len() == n
    &&& forall|k: int| 0 <= k < n ==> atomic_product_matches(#[trigger] d.products@[k], lines, atomic_product_at(lines, at + 1, k))
}

/// Parse an MF=26 section.
pub fn parse_mf26(reader: &mut Reader) -> (r: Result<Mf26>)
    requires
        old(reader).wf(),
    ensures
        final(reader).wf(),
        mf26_fits(old(reader).lines_view(), old(reader).position()) ==> (r matches Ok(d) && mf26_matches(
            d,
            old(reader).lines_view(),
            old(reader).position(),
        )),
        !mf26_fits(old(reader).lines_view(), old(reader).position()) ==> r is Err,
        r matches Err(e) ==> e is UnexpectedEof,
{
    let ghost lines = reader.lines_view();
    let ghost at = reader.position();
    proof {
        reader.lemma_position_nonneg();
    }
    let head = reader.cont_record()?;
    let nk = head.n1;
    let ghost count = at_least_zero(nk as int);
    let mut products: Vec<AtomicProduct> = Vec::new();
    let mut k: i64 = 0;
    while k < nk
        invariant
            reader.wf(),
            reader.lines_view() == lines,
            lines == old(reader).lines_view(),
            at == old(reader).position(),
            0 <= at < lines.len(),
            nk == int_field(lines[at], 44, 55),
            count == at_least_zero(nk as int),
            0 <= k <= count,
            reader.position() == atomic_product_at(lines, at + 1, k as int),
            atomic_products_fit(lines, at + 1, k as int),
            products@.len() == k,
            forall|j: int| 0 <= j < k ==> atomic_product_matches(#[trigger] products@[j], lines, atomic_product_at(lines, at + 1, j)),
        decreases nk - k,
    {
        let x = match read_atomic_product(reader) {
            Ok(x) => x,
            Err(e) => {
                proof {
                    lemma_atomic_products_stop(lines, at + 1, k as int, count);
                }
                return Err(e);
            },
        };
        products.push(x);
        k = k + 1;
    }
    Ok(Mf26 { za: head.c1, awr: head.c2, nk, products })
}

// -------------------------------------------------------------------------
// MF=28
// -------------------------------------------------------------------------

/// One subshell and the transitions that fill a vacancy in it.
#[derive(Debug, Clone, PartialEq, Eq)]
pub struct Subshell {
    /// Subshell designator.
    pub subi: String,
    /// Number of transitions.
    pub ntr: i64,
    /// Binding energy.
    pub ebi: String,
    /// Number of electrons in the subshell when neutral.
    pub eln: String,
    /// Secondary subshell of each transition.
    pub subj: Vec<String>,
    /// Tertiary subshell, zero for a radiative transition.
    pub subk: Vec<String>,
    /// Energy of each transition.
    pub etr: Vec<String>,
    /// Fractional probability of each transition.
    pub ftr: Vec<String>,
}

/// MF=28: atomic relaxation data.
#[derive(Debug, Clone, PartialEq, Eq)]
pub struct Mf28 {
    pub za: String,
    pub awr: String,
    pub nss: i64,
    pub shells: Vec<Subshell>,
}

/// Whether the lines from `at` hold a whole MF=28 section: the HEAD record
/// and one LIST record per subshell.
pub open spec fn mf28_fits(lines: Seq<Seq<char>>, at: int) -> bool {
    0 <= at < lines.len() && lists_fit(lines, at + 1, at_least_zero(int_field(lines[at], 44, 55)))
}

/// What the subshell read from the LIST record at `lines[p]` holds: six
/// values describe it, and the transitions follow in groups of six.
pub open spec fn subshell_matches(x: Subshell, lines: Seq<Seq<char>>, p: int) -> bool {
    &&& x.subi@ == field_of(lines[p], 0, 11)
    &&& x.ntr == int_field(lines[p], 55, 66)
    &&& x.ebi@ == list_value(lines, p, 0)
    &&& x.eln@ == list_value(lines, p, 1)
    &&& strided_matches(x.subj@, lines, p, 6, 6)
    &&& strided_matches(x.subk@, lines, p, 7, 6)
    &&& strided_matches(x.etr@, lines, p, 8, 6)
    &&& strided_matches(x.ftr@, lines, p, 9, 6)
}

/// What an MF=28 section read from `lines[at]` holds.
pub open spec fn mf28_matches(d: Mf28, lines: Seq<Seq<char>>, at: int) -> bool {
    let n = at_least_zero(int_field(lines[at], 44, 55));
    &&& d.za@ == field_of(lines[at], 0, 11)
    &&& d.awr@ == field_of(lines[at], 11, 22)
    &&& d.nss == int_field(lines[at], 44, 55)
    &&& d.shells@.len() == n
    &&& forall|k: int| 0 <= k < n ==> subshell_matches(#[trigger] d.shells@[k], lines, list_at(lines, at + 1, k))
}

/// Parse an MF=28 section.
pub fn parse_mf28(reader: &mut Reader) -> (r: Result<Mf28>)
    requires
        old(reader).wf(),
    ensures
        final(reader).wf(),
        mf28_fits(old(reader).lines_view(), old(reader).position()) ==> (r matches Ok(d) && mf28_matches(
            d,
            old(reader).lines_view(),
            old(reader).position(),
        )),
        !mf28_fits(old(reader).lines_view(), old(reader).position()) ==> r is Err,
        r matches Err(e) ==> e is UnexpectedEof,
{
    let ghost lines = reader.lines_view();
    let ghost at = reader.position();
    proof {
        reader.lemma_position_nonneg();
    }
    let head = reader.cont_record()?;
    let nss = head.n1;
    let ghost count = at_least_zero(nss as int);
    let mut shells: Vec<Subshell> = Vec::new();
    let mut k: i64 = 0;
    while k < nss
        invariant
            reader.wf(),
            reader.lines_view() == lines,
            lines == old(reader).lines_view(),
            at == old(reader).position(),
            0 <= at < lines.len(),
            nss == int_field(lines[at], 44, 55),
            count == at_least_zero(nss as int),
            0 <= k <= count,
            reader.position() == list_at(lines, at + 1, k as int),
            lists_fit(lines, at + 1, k as int),
            shells@.len() == k,
            forall|j: int| 0 <= j < k ==> subshell_matches(#[trigger] shells@[j], lines, list_at(lines, at + 1, j)),
        decreases nss - k,
    {
        let ghost p = reader.position();
        let list = match reader.list_record() {
            Ok(l) => l,
            Err(e) => {
                proof {
                    lemma_lists_stop(lines, at + 1, k as int, count);
                }
                return Err(e);
            },
        };
        proof {
            lemma_items(lines, p, list.values@);
        }
        let v = &list.values;
        shells.push(
            Subshell {
                subi: list.cont.c1.clone(),
                ntr: list.cont.n2,
                ebi: item(v, 0),
                eln: item(v, 1),
                subj: strided(v, 6, 6),
                subk: strided(v, 7, 6),
                etr: strided(v, 8, 6),
                ftr: strided(v, 9, 6),
            },
        );
        k = k + 1;
    }
    Ok(Mf28 { za: head.c1, awr: head.c2, nss, shells })
}

} // verus!
