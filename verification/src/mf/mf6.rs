//! MF=6, energy-angle distributions of reaction products.
//!
//! These are the four distribution shapes a transport code has to sample.
//! Real-valued fields are kept as the text of their fields.

use vstd::prelude::*;

use crate::error::Result;
use crate::function::Tabulated2D;
use crate::mf::list::{
    at_least_zero, item_text, lemma_items, lemma_lists_stop, lemma_tab1s_stop, list_at, list_value, lists_fit,
    slice_texts, tab1_at, tab1_fits, tab1_len, tab1s_fit,
};
use crate::mf::mf1::tab2_len;
use crate::mf::mf4::energy_count;
use crate::records::{
    cont_matches, count_exec, count_field, count_of, field_of, int_field, pairs_match, tab1_matches, values_match,
    ListRecord, Reader, Tab1,
};

verus! {

/// MF=6: the products of one reaction and their distributions.
#[derive(Debug, Clone, PartialEq, Eq)]
pub struct Mf6 {
    pub za: String,
    pub awr: String,
    pub jp: i64,
    pub lct: i64,
    pub nk: i64,
    pub products: Vec<Product>,
}

/// One reaction product: its yield and how it is distributed.
#[derive(Debug, Clone, PartialEq, Eq)]
pub struct Product {
    /// ZA of the product, as the text of its real-valued field.
    pub zap: String,
    pub awp: String,
    pub lip: i64,
    pub law: i64,
    pub yield_: Tab1,
    pub distribution: Distribution,
}

/// A product's energy-angle distribution, in whichever law it uses.
#[derive(Debug, Clone, PartialEq, Eq)]
pub enum Distribution {
    /// LAW<0, 0, 3 and 4 carry nothing of their own.
    Absent,
    /// LAW=1.
    ContinuumEnergyAngle(ContinuumEnergyAngle),
    /// LAW=2.
    DiscreteTwoBody(DiscreteTwoBody),
    /// LAW=5.
    ChargedParticleElastic(ChargedParticleElastic),
    /// LAW=6.
    NBodyPhaseSpace { apsx: String, npsx: i64 },
    /// LAW=7.
    LaboratoryAngleEnergy(LaboratoryAngleEnergy),
}

/// LAW=1: continuum energy-angle distributions.
#[derive(Debug, Clone, PartialEq, Eq)]
pub struct ContinuumEnergyAngle {
    pub lang: i64,
    pub lep: i64,
    pub nr: i64,
    pub ne: i64,
    pub e_int: Tabulated2D,
    pub energy: Vec<String>,
    pub distribution: Vec<ContinuumSubsection>,
}

/// The outgoing distribution at one incident energy: NEP rows, each an
/// outgoing energy and NA + 1 parameters.
#[derive(Debug, Clone, PartialEq, Eq)]
pub struct ContinuumSubsection {
    pub nd: i64,
    pub na: i64,
    pub nw: i64,
    pub nep: i64,
    pub e_out: Vec<String>,
    pub b: Vec<Vec<String>>,
}

/// LAW=2: discrete two-body scattering.
#[derive(Debug, Clone, PartialEq, Eq)]
pub struct DiscreteTwoBody {
    pub nr: i64,
    pub ne: i64,
    pub e_int: Tabulated2D,
    pub energy: Vec<String>,
    pub distribution: Vec<DiscreteTwoBodySubsection>,
}

/// The angular distribution at one incident energy.
#[derive(Debug, Clone, PartialEq, Eq)]
pub struct DiscreteTwoBodySubsection {
    pub lang: i64,
    pub nw: i64,
    pub nl: i64,
    pub a_l: Vec<String>,
}

/// LAW=5: charged-particle elastic scattering.
#[derive(Debug, Clone, PartialEq, Eq)]
pub struct ChargedParticleElastic {
    pub spi: String,
    pub lidp: i64,
    pub ne: i64,
    pub e_int: Tabulated2D,
    pub distribution: Vec<ChargedParticleSubsection>,
}

/// The distribution at one incident energy.
#[derive(Debug, Clone, PartialEq, Eq)]
pub struct ChargedParticleSubsection {
    pub energy: String,
    pub ltp: i64,
    pub nw: i64,
    pub nl: i64,
    pub a: Vec<String>,
}

/// LAW=7: laboratory angle-energy distributions.
#[derive(Debug, Clone, PartialEq, Eq)]
pub struct LaboratoryAngleEnergy {
    pub ne: i64,
    pub e_int: Tabulated2D,
    pub distribution: Vec<LaboratorySubsection>,
}

/// The distribution at one incident energy, by cosine.
#[derive(Debug, Clone, PartialEq, Eq)]
pub struct LaboratorySubsection {
    pub energy: String,
    pub nrm: i64,
    pub nmu: i64,
    pub mu_int: Tabulated2D,
    pub mu: Vec<AngleEntry>,
}

/// The outgoing energy distribution at one cosine.
#[derive(Debug, Clone, PartialEq, Eq)]
pub struct AngleEntry {
    pub mu: String,
    pub f: Tab1,
}

/// The line after a TAB2 record at `lines[q]` and the LIST record per
/// incident energy that follows it.
pub open spec fn tab2_lists_end(lines: Seq<Seq<char>>, q: int) -> int {
    list_at(lines, q + tab2_len(lines, q), energy_count(lines, q))
}

/// Whether a TAB2 record at `lines[q]` and its LIST records fit.
pub open spec fn tab2_lists_fit(lines: Seq<Seq<char>>, q: int) -> bool {
    &&& 0 <= q < lines.len()
    &&& q + tab2_len(lines, q) <= lines.len()
    &&& lists_fit(lines, q + tab2_len(lines, q), energy_count(lines, q))
}

/// The interpolation of the TAB2 record at `lines[q]`.
pub open spec fn tab2_matches(t: Tabulated2D, lines: Seq<Seq<char>>, q: int) -> bool {
    pairs_match(lines, q + 1, count_field(lines[q], 44, 55), t.breakpoints@, t.interpolation@)
}

/// Whether `k` is how many rows of `stride` values a LIST record of `n`
/// values gives when at most `nep` are taken: the rows that start before
/// the end, up to `nep` of them.
pub open spec fn rows_ok(k: int, n: int, stride: int, nep: int) -> bool {
    &&& 0 <= k <= nep
    &&& k > 0 ==> stride * (k - 1) < n
    &&& k < nep ==> stride * k >= n
}

/// What the outgoing distribution read from the LIST record at `lines[p]`
/// holds: rows of NA + 2 values, an outgoing energy then the rest.
pub open spec fn continuum_sub_matches(s: ContinuumSubsection, lines: Seq<Seq<char>>, p: int) -> bool {
    let n = count_field(lines[p], 44, 55);
    let stride = count_of(int_field(lines[p], 33, 44)) + 2;
    let k = s.e_out@.len();
    &&& s.nd == int_field(lines[p], 22, 33)
    &&& s.na == int_field(lines[p], 33, 44)
    &&& s.nw == int_field(lines[p], 44, 55)
    &&& s.nep == int_field(lines[p], 55, 66)
    &&& rows_ok(k as int, n, stride, count_of(s.nep as int))
    &&& s.b@.len() == k
    &&& forall|r: int|
        0 <= r < k ==> {
            let start = stride * r;
            let end = if start + stride < n {
                start + stride
            } else {
                n
            };
            &&& #[trigger] s.e_out@[r]@ == list_value(lines, p, start)
            &&& s.b@[r]@.len() == end - start - 1
            &&& forall|j: int| 0 <= j < end - start - 1 ==> #[trigger] s.b@[r]@[j]@ == list_value(lines, p, start + 1 + j)
        }
}

/// The rows of a LAW=1 LIST record.
fn continuum_sub(list: &ListRecord, Ghost(lines): Ghost<Seq<Seq<char>>>, Ghost(p): Ghost<int>) -> (s: ContinuumSubsection)
    requires
        0 <= p < lines.len(),
        cont_matches(list.cont, lines[p]),
        values_match(lines, p + 1, count_field(lines[p], 44, 55), list.values@),
    ensures
        continuum_sub_matches(s, lines, p),
{
    proof {
        lemma_items(lines, p, list.values@);
    }
    let v = &list.values;
    let n = v.len();
    let na = list.cont.l2;
    let nep = list.cont.n2;
    let nep_u: usize = count_exec(nep);
    // The values are `nep` rows of `na + 2`: an outgoing energy, then the
    // probability and `na` angular parameters.
    let stride: u128 = count_exec(na) as u128 + 2;
    let mut e_out: Vec<String> = Vec::new();
    let mut b: Vec<Vec<String>> = Vec::new();
    let mut start: u128 = 0;
    let mut r: usize = 0;
    while r < nep_u && start < n as u128
        invariant
            n == v@.len(),
            n == count_field(lines[p], 44, 55),
            stride == count_of(na as int) + 2,
            na == int_field(lines[p], 33, 44),
            nep_u == count_of(nep as int),
            r <= nep_u,
            start == stride * r,
            r > 0 ==> stride * (r - 1) < n,
            e_out@.len() == r && b@.len() == r,
            forall|k: int| #[trigger] item_text(v@, k) == list_value(lines, p, k),
            forall|q: int|
                0 <= q < r ==> {
                    let st = stride * q;
                    let end = if st + stride < n {
                        st + stride
                    } else {
                        n as int
                    };
                    &&& #[trigger] e_out@[q]@ == list_value(lines, p, st)
                    &&& b@[q]@.len() == end - st - 1
                    &&& forall|j: int| 0 <= j < end - st - 1 ==> #[trigger] b@[q]@[j]@ == list_value(lines, p, st + 1 + j)
                },
        decreases nep_u - r,
    {
        let s = start as usize;
        let end: usize = if start + stride < n as u128 {
            (start + stride) as usize
        } else {
            n
        };
        assert(item_text(v@, s as int) == list_value(lines, p, s as int));
        e_out.push(v[s].clone());
        let row = slice_texts(v, s + 1, end);
        proof {
            assert forall|j: int| 0 <= j < end - s - 1 implies #[trigger] row@[j]@ == list_value(lines, p, s + 1 + j) by {
                assert(item_text(v@, s + 1 + j) == list_value(lines, p, s + 1 + j));
            }
        }
        b.push(row);
        proof {
            assert(stride * (r + 1) == stride * r + stride) by (nonlinear_arith);
        }
        start = start + stride;
        r = r + 1;
    }
    ContinuumSubsection { nd: list.cont.l1, na, nw: list.cont.n1, nep, e_out, b }
}

/// Read a TAB2 record and the LIST record per incident energy after it.
fn read_tab2_lists(reader: &mut Reader) -> (r: Result<(crate::records::Tab2, Vec<ListRecord>)>)
    requires
        old(reader).wf(),
    ensures
        final(reader).wf(),
        final(reader).lines_view() == old(reader).lines_view(),
        r matches Err(e) ==> e is UnexpectedEof,
        tab2_lists_fit(old(reader).lines_view(), old(reader).position()) ==> {
            let lines = old(reader).lines_view();
            let q = old(reader).position();
            let s = q + tab2_len(lines, q);
            &&& r matches Ok((t, v)) && cont_matches(t.cont, lines[q]) && tab2_matches(t.table, lines, q)
                && v@.len() == energy_count(lines, q) && forall|k: int|
                0 <= k < v@.len() ==> {
                    let p = #[trigger] list_at(lines, s, k);
                    &&& 0 <= p < lines.len()
                    &&& cont_matches(v@[k].cont, lines[p])
                    &&& values_match(lines, p + 1, count_field(lines[p], 44, 55), v@[k].values@)
                }
            &&& final(reader).position() == tab2_lists_end(lines, q)
        },
        !tab2_lists_fit(old(reader).lines_view(), old(reader).position()) ==> r is Err,
{
    let ghost lines = reader.lines_view();
    let ghost q = reader.position();
    proof {
        reader.lemma_position_nonneg();
    }
    let tab2 = reader.tab2_record()?;
    let n = tab2.cont.n2;
    let ghost s = reader.position();
    let ghost count = at_least_zero(n as int);
    let mut v: Vec<ListRecord> = Vec::new();
    let mut k: i64 = 0;
    while k < n
        invariant
            reader.wf(),
            reader.lines_view() == lines,
            lines == old(reader).lines_view(),
            q == old(reader).position(),
            0 <= q < lines.len(),
            n == int_field(lines[q], 55, 66),
            s == q + tab2_len(lines, q),
            count == at_least_zero(n as int),
            0 <= k <= count,
            reader.position() == list_at(lines, s, k as int),
            lists_fit(lines, s, k as int),
            v@.len() == k,
            forall|j: int|
                0 <= j < k ==> {
                    let p = #[trigger] list_at(lines, s, j);
                    &&& 0 <= p < lines.len()
                    &&& cont_matches(v@[j].cont, lines[p])
                    &&& values_match(lines, p + 1, count_field(lines[p], 44, 55), v@[j].values@)
                },
        decreases n - k,
    {
        let list = match reader.list_record() {
            Ok(l) => l,
            Err(e) => {
                proof {
                    lemma_lists_stop(lines, s, k as int, count);
                }
                return Err(e);
            },
        };
        v.push(list);
        k = k + 1;
    }
    Ok((tab2, v))
}

/// What LAW=1 parameters read from `lines[q]` onwards hold.
pub open spec fn continuum_matches(d: ContinuumEnergyAngle, lines: Seq<Seq<char>>, q: int) -> bool {
    let s = q + tab2_len(lines, q);
    let n = energy_count(lines, q);
    &&& d.lang == int_field(lines[q], 22, 33)
    &&& d.lep == int_field(lines[q], 33, 44)
    &&& d.nr == int_field(lines[q], 44, 55)
    &&& d.ne == int_field(lines[q], 55, 66)
    &&& tab2_matches(d.e_int, lines, q)
    &&& d.energy@.len() == n && d.distribution@.len() == n
    &&& forall|k: int|
        0 <= k < n ==> {
            let p = #[trigger] list_at(lines, s, k);
            &&& d.energy@[k]@ == field_of(lines[p], 11, 22)
            &&& continuum_sub_matches(d.distribution@[k], lines, p)
        }
}

/// What LAW=2 parameters read from `lines[q]` onwards hold.
pub open spec fn two_body_matches(d: DiscreteTwoBody, lines: Seq<Seq<char>>, q: int) -> bool {
    let s = q + tab2_len(lines, q);
    let n = energy_count(lines, q);
    &&& d.nr == int_field(lines[q], 44, 55)
    &&& d.ne == int_field(lines[q], 55, 66)
    &&& tab2_matches(d.e_int, lines, q)
    &&& d.energy@.len() == n && d.distribution@.len() == n
    &&& forall|k: int|
        0 <= k < n ==> {
            let p = #[trigger] list_at(lines, s, k);
            let x = d.distribution@[k];
            &&& d.energy@[k]@ == field_of(lines[p], 11, 22)
            &&& x.lang == int_field(lines[p], 22, 33)
            &&& x.nw == int_field(lines[p], 44, 55)
            &&& x.nl == int_field(lines[p], 55, 66)
            &&& values_match(lines, p + 1, count_field(lines[p], 44, 55), x.a_l@)
        }
}

/// What LAW=5 parameters read from `lines[q]` onwards hold.
pub open spec fn charged_matches(d: ChargedParticleElastic, lines: Seq<Seq<char>>, q: int) -> bool {
    let s = q + tab2_len(lines, q);
    let n = energy_count(lines, q);
    &&& d.spi@ == field_of(lines[q], 0, 11)
    &&& d.lidp == int_field(lines[q], 22, 33)
    &&& d.ne == int_field(lines[q], 55, 66)
    &&& tab2_matches(d.e_int, lines, q)
    &&& d.distribution@.len() == n
    &&& forall|k: int|
        0 <= k < n ==> {
            let p = #[trigger] list_at(lines, s, k);
            let x = d.distribution@[k];
            &&& x.energy@ == field_of(lines[p], 11, 22)
            &&& x.ltp == int_field(lines[p], 22, 33)
            &&& x.nw == int_field(lines[p], 44, 55)
            &&& x.nl == int_field(lines[p], 55, 66)
            &&& values_match(lines, p + 1, count_field(lines[p], 44, 55), x.a@)
        }
}

/// Read LAW=1 parameters.
pub(crate) fn parse_continuum(reader: &mut Reader) -> (r: Result<ContinuumEnergyAngle>)
    requires
        old(reader).wf(),
    ensures
        final(reader).wf(),
        final(reader).lines_view() == old(reader).lines_view(),
        r matches Err(e) ==> e is UnexpectedEof,
        tab2_lists_fit(old(reader).lines_view(), old(reader).position()) ==> {
            &&& r matches Ok(d) && continuum_matches(d, old(reader).lines_view(), old(reader).position())
            &&& final(reader).position() == tab2_lists_end(old(reader).lines_view(), old(reader).position())
        },
        !tab2_lists_fit(old(reader).lines_view(), old(reader).position()) ==> r is Err,
{
    let ghost lines = reader.lines_view();
    let ghost q = reader.position();
    let (tab2, lists) = read_tab2_lists(reader)?;
    let ghost s = q + tab2_len(lines, q);
    let mut energy: Vec<String> = Vec::new();
    let mut distribution: Vec<ContinuumSubsection> = Vec::new();
    let mut k: usize = 0;
    while k < lists.len()
        invariant
            k <= lists@.len(),
            energy@.len() == k && distribution@.len() == k,
            forall|j: int|
                0 <= j < lists@.len() ==> {
                    let p = #[trigger] list_at(lines, s, j);
                    &&& 0 <= p < lines.len()
                    &&& cont_matches(lists@[j].cont, lines[p])
                    &&& values_match(lines, p + 1, count_field(lines[p], 44, 55), lists@[j].values@)
                },
            forall|j: int|
                0 <= j < k ==> {
                    let p = #[trigger] list_at(lines, s, j);
                    &&& energy@[j]@ == field_of(lines[p], 11, 22)
                    &&& continuum_sub_matches(distribution@[j], lines, p)
                },
        decreases lists.len() - k,
    {
        let ghost p = list_at(lines, s, k as int);
        energy.push(lists[k].cont.c2.clone());
        distribution.push(continuum_sub(&lists[k], Ghost(lines), Ghost(p)));
        k = k + 1;
    }
    Ok(
        ContinuumEnergyAngle {
            lang: tab2.cont.l1,
            lep: tab2.cont.l2,
            nr: tab2.cont.n1,
            ne: tab2.cont.n2,
            e_int: tab2.table,
            energy,
            distribution,
        },
    )
}

/// Read LAW=2 parameters.
pub(crate) fn parse_discrete_two_body(reader: &mut Reader) -> (r: Result<DiscreteTwoBody>)
    requires
        old(reader).wf(),
    ensures
        final(reader).wf(),
        final(reader).lines_view() == old(reader).lines_view(),
        r matches Err(e) ==> e is UnexpectedEof,
        tab2_lists_fit(old(reader).lines_view(), old(reader).position()) ==> {
            &&& r matches Ok(d) && two_body_matches(d, old(reader).lines_view(), old(reader).position())
            &&& final(reader).position() == tab2_lists_end(old(reader).lines_view(), old(reader).position())
        },
        !tab2_lists_fit(old(reader).lines_view(), old(reader).position()) ==> r is Err,
{
    let ghost lines = reader.lines_view();
    let ghost q = reader.position();
    let (tab2, lists) = read_tab2_lists(reader)?;
    let ghost s = q + tab2_len(lines, q);
    let mut energy: Vec<String> = Vec::new();
    let mut distribution: Vec<DiscreteTwoBodySubsection> = Vec::new();
    let mut k: usize = 0;
    while k < lists.len()
        invariant
            k <= lists@.len(),
            energy@.len() == k && distribution@.len() == k,
            forall|j: int|
                0 <= j < lists@.len() ==> {
                    let p = #[trigger] list_at(lines, s, j);
                    &&& 0 <= p < lines.len()
                    &&& cont_matches(lists@[j].cont, lines[p])
                    &&& values_match(lines, p + 1, count_field(lines[p], 44, 55), lists@[j].values@)
                },
            forall|j: int|
                0 <= j < k ==> {
                    let p = #[trigger] list_at(lines, s, j);
                    let x = distribution@[j];
                    &&& energy@[j]@ == field_of(lines[p], 11, 22)
                    &&& x.lang == int_field(lines[p], 22, 33)
                    &&& x.nw == int_field(lines[p], 44, 55)
                    &&& x.nl == int_field(lines[p], 55, 66)
                    &&& values_match(lines, p + 1, count_field(lines[p], 44, 55), x.a_l@)
                },
        decreases lists.len() - k,
    {
        let l = &lists[k];
        energy.push(l.cont.c2.clone());
        distribution.push(
            DiscreteTwoBodySubsection { lang: l.cont.l1, nw: l.cont.n1, nl: l.cont.n2, a_l: l.values.clone() },
        );
        proof {
            assert(distribution@[k as int].a_l@ == l.values@);
        }
        k = k + 1;
    }
    Ok(DiscreteTwoBody { nr: tab2.cont.n1, ne: tab2.cont.n2, e_int: tab2.table, energy, distribution })
}

/// Read LAW=5 parameters.
fn parse_charged_particle(reader: &mut Reader) -> (r: Result<ChargedParticleElastic>)
    requires
        old(reader).wf(),
    ensures
        final(reader).wf(),
        final(reader).lines_view() == old(reader).lines_view(),
        r matches Err(e) ==> e is UnexpectedEof,
        tab2_lists_fit(old(reader).lines_view(), old(reader).position()) ==> {
            &&& r matches Ok(d) && charged_matches(d, old(reader).lines_view(), old(reader).position())
            &&& final(reader).position() == tab2_lists_end(old(reader).lines_view(), old(reader).position())
        },
        !tab2_lists_fit(old(reader).lines_view(), old(reader).position()) ==> r is Err,
{
    let ghost lines = reader.lines_view();
    let ghost q = reader.position();
    let (tab2, lists) = read_tab2_lists(reader)?;
    let ghost s = q + tab2_len(lines, q);
    let mut distribution: Vec<ChargedParticleSubsection> = Vec::new();
    let mut k: usize = 0;
    while k < lists.len()
        invariant
            k <= lists@.len(),
            distribution@.len() == k,
            forall|j: int|
                0 <= j < lists@.len() ==> {
                    let p = #[trigger] list_at(lines, s, j);
                    &&& 0 <= p < lines.len()
                    &&& cont_matches(lists@[j].cont, lines[p])
                    &&& values_match(lines, p + 1, count_field(lines[p], 44, 55), lists@[j].values@)
                },
            forall|j: int|
                0 <= j < k ==> {
                    let p = #[trigger] list_at(lines, s, j);
                    let x = distribution@[j];
                    &&& x.energy@ == field_of(lines[p], 11, 22)
                    &&& x.ltp == int_field(lines[p], 22, 33)
                    &&& x.nw == int_field(lines[p], 44, 55)
                    &&& x.nl == int_field(lines[p], 55, 66)
                    &&& values_match(lines, p + 1, count_field(lines[p], 44, 55), x.a@)
                },
        decreases lists.len() - k,
    {
        let l = &lists[k];
        distribution.push(
            ChargedParticleSubsection {
                energy: l.cont.c2.clone(),
                ltp: l.cont.l1,
                nw: l.cont.n1,
                nl: l.cont.n2,
                a: l.values.clone(),
            },
        );
        proof {
            assert(distribution@[k as int].a@ == l.values@);
        }
        k = k + 1;
    }
    Ok(
        ChargedParticleElastic {
            spi: tab2.cont.c1,
            lidp: tab2.cont.l1,
            ne: tab2.cont.n2,
            e_int: tab2.table,
            distribution,
        },
    )
}

/// The line after the laboratory subsection at `lines[s]`: a TAB2 record
/// and one TAB1 record per cosine.
pub open spec fn lab_sub_end(lines: Seq<Seq<char>>, s: int) -> int {
    tab1_at(lines, s + tab2_len(lines, s), energy_count(lines, s))
}

/// Whether the laboratory subsection at `lines[s]` fits.
pub open spec fn lab_sub_fits(lines: Seq<Seq<char>>, s: int) -> bool {
    &&& 0 <= s < lines.len()
    &&& s + tab2_len(lines, s) <= lines.len()
    &&& tab1s_fit(lines, s + tab2_len(lines, s), energy_count(lines, s))
}

/// What the laboratory subsection read from `lines[s]` onwards holds.
pub open spec fn lab_sub_matches(x: LaboratorySubsection, lines: Seq<Seq<char>>, s: int) -> bool {
    let t = s + tab2_len(lines, s);
    let n = energy_count(lines, s);
    &&& x.energy@ == field_of(lines[s], 11, 22)
    &&& x.nrm == int_field(lines[s], 44, 55)
    &&& x.nmu == int_field(lines[s], 55, 66)
    &&& tab2_matches(x.mu_int, lines, s)
    &&& x.mu@.len() == n
    &&& forall|k: int|
        0 <= k < n ==> {
            let p = #[trigger] tab1_at(lines, t, k);
            &&& x.mu@[k].mu@ == field_of(lines[p], 11, 22)
            &&& tab1_matches(x.mu@[k].f, lines, p)
        }
}

/// Where the `k`-th of a run of laboratory subsections from `lines[at]`
/// starts.
pub open spec fn lab_sub_at(lines: Seq<Seq<char>>, at: int, k: int) -> int
    decreases k,
{
    if k <= 0 {
        at
    } else {
        lab_sub_end(lines, lab_sub_at(lines, at, k - 1))
    }
}

/// Whether `k` laboratory subsections from `lines[at]` fit.
pub open spec fn lab_subs_fit(lines: Seq<Seq<char>>, at: int, k: int) -> bool
    decreases k,
{
    if k <= 0 {
        true
    } else {
        lab_subs_fit(lines, at, k - 1) && lab_sub_fits(lines, lab_sub_at(lines, at, k - 1))
    }
}

proof fn lemma_lab_subs_stop(lines: Seq<Seq<char>>, at: int, k: int, n: int)
    requires
        0 <= k < n,
        lab_subs_fit(lines, at, k),
        !lab_sub_fits(lines, lab_sub_at(lines, at, k)),
    ensures
        !lab_subs_fit(lines, at, n),
    decreases n - k,
{
    if k + 1 < n {
        lemma_lab_subs_stop_later(lines, at, k + 1, n);
    }
}

proof fn lemma_lab_subs_stop_later(lines: Seq<Seq<char>>, at: int, k: int, n: int)
    requires
        0 < k <= n,
        !lab_subs_fit(lines, at, k),
    ensures
        !lab_subs_fit(lines, at, n),
    decreases n - k,
{
    if k < n {
        lemma_lab_subs_stop_later(lines, at, k + 1, n);
    }
}

/// The line after the LAW=7 parameters at `lines[q]`.
pub open spec fn laboratory_end(lines: Seq<Seq<char>>, q: int) -> int {
    lab_sub_at(lines, q + tab2_len(lines, q), energy_count(lines, q))
}

/// Whether the LAW=7 parameters at `lines[q]` fit.
pub open spec fn laboratory_fits(lines: Seq<Seq<char>>, q: int) -> bool {
    &&& 0 <= q < lines.len()
    &&& q + tab2_len(lines, q) <= lines.len()
    &&& lab_subs_fit(lines, q + tab2_len(lines, q), energy_count(lines, q))
}

/// What LAW=7 parameters read from `lines[q]` onwards hold.
pub open spec fn laboratory_matches(d: LaboratoryAngleEnergy, lines: Seq<Seq<char>>, q: int) -> bool {
    let s = q + tab2_len(lines, q);
    let n = energy_count(lines, q);
    &&& d.ne == int_field(lines[q], 55, 66)
    &&& tab2_matches(d.e_int, lines, q)
    &&& d.distribution@.len() == n
    &&& forall|k: int| 0 <= k < n ==> lab_sub_matches(#[trigger] d.distribution@[k], lines, lab_sub_at(lines, s, k))
}

fn read_lab_sub(reader: &mut Reader) -> (r: Result<LaboratorySubsection>)
    requires
        old(reader).wf(),
    ensures
        final(reader).wf(),
        final(reader).lines_view() == old(reader).lines_view(),
        r matches Err(e) ==> e is UnexpectedEof,
        lab_sub_fits(old(reader).lines_view(), old(reader).position()) ==> {
            &&& r matches Ok(x) && lab_sub_matches(x, old(reader).lines_view(), old(reader).position())
            &&& final(reader).position() == lab_sub_end(old(reader).lines_view(), old(reader).position())
        },
        !lab_sub_fits(old(reader).lines_view(), old(reader).position()) ==> r is Err,
{
    let ghost lines = reader.lines_view();
    let ghost q = reader.position();
    proof {
        reader.lemma_position_nonneg();
    }
    let tab2 = reader.tab2_record()?;
    let n = tab2.cont.n2;
    let ghost t = reader.position();
    let ghost count = at_least_zero(n as int);
    let mut mu: Vec<AngleEntry> = Vec::new();
    let mut k: i64 = 0;
    while k < n
        invariant
            reader.wf(),
            reader.lines_view() == lines,
            lines == old(reader).lines_view(),
            q == old(reader).position(),
            0 <= q < lines.len(),
            n == int_field(lines[q], 55, 66),
            t == q + tab2_len(lines, q),
            count == at_least_zero(n as int),
            0 <= k <= count,
            reader.position() == tab1_at(lines, t, k as int),
            tab1s_fit(lines, t, k as int),
            mu@.len() == k,
            forall|j: int|
                0 <= j < k ==> {
                    let p = #[trigger] tab1_at(lines, t, j);
                    &&& mu@[j].mu@ == field_of(lines[p], 11, 22)
                    &&& tab1_matches(mu@[j].f, lines, p)
                },
        decreases n - k,
    {
        let tab = match reader.tab1_record() {
            Ok(t) => t,
            Err(e) => {
                proof {
                    lemma_tab1s_stop(lines, t, k as int, count);
                }
                return Err(e);
            },
        };
        mu.push(AngleEntry { mu: tab.c2.clone(), f: tab });
        k = k + 1;
    }
    Ok(LaboratorySubsection { energy: tab2.cont.c2, nrm: tab2.cont.n1, nmu: n, mu_int: tab2.table, mu })
}

/// Read LAW=7 parameters.
fn parse_laboratory(reader: &mut Reader) -> (r: Result<LaboratoryAngleEnergy>)
    requires
        old(reader).wf(),
    ensures
        final(reader).wf(),
        final(reader).lines_view() == old(reader).lines_view(),
        r matches Err(e) ==> e is UnexpectedEof,
        laboratory_fits(old(reader).lines_view(), old(reader).position()) ==> {
            &&& r matches Ok(d) && laboratory_matches(d, old(reader).lines_view(), old(reader).position())
            &&& final(reader).position() == laboratory_end(old(reader).lines_view(), old(reader).position())
        },
        !laboratory_fits(old(reader).lines_view(), old(reader).position()) ==> r is Err,
{
    let ghost lines = reader.lines_view();
    let ghost q = reader.position();
    proof {
        reader.lemma_position_nonneg();
    }
    let tab2 = reader.tab2_record()?;
    let n = tab2.cont.n2;
    let ghost s = reader.position();
    let ghost count = at_least_zero(n as int);
    let mut distribution: Vec<LaboratorySubsection> = Vec::new();
    let mut k: i64 = 0;
    while k < n
        invariant
            reader.wf(),
            reader.lines_view() == lines,
            lines == old(reader).lines_view(),
            q == old(reader).position(),
            0 <= q < lines.len(),
            n == int_field(lines[q], 55, 66),
            s == q + tab2_len(lines, q),
            count == at_least_zero(n as int),
            0 <= k <= count,
            reader.position() == lab_sub_at(lines, s, k as int),
            lab_subs_fit(lines, s, k as int),
            distribution@.len() == k,
            forall|j: int| 0 <= j < k ==> lab_sub_matches(#[trigger] distribution@[j], lines, lab_sub_at(lines, s, j)),
        decreases n - k,
    {
        let x = match read_lab_sub(reader) {
            Ok(x) => x,
            Err(e) => {
                proof {
                    lemma_lab_subs_stop(lines, s, k as int, count);
                }
                return Err(e);
            },
        };
        distribution.push(x);
        k = k + 1;
    }
    Ok(LaboratoryAngleEnergy { ne: n, e_int: tab2.table, distribution })
}

/// The line after the product at `lines[q]`: its yield, then the records
/// its LAW calls for.
pub open spec fn product_end(lines: Seq<Seq<char>>, q: int) -> int {
    let law = int_field(lines[q], 33, 44);
    let d = q + tab1_len(lines, q);
    if law == 1 || law == 2 || law == 5 {
        tab2_lists_end(lines, d)
    } else if law == 6 {
        d + 1
    } else if law == 7 {
        laboratory_end(lines, d)
    } else {
        d
    }
}

/// Whether the product at `lines[q]` fits.
pub open spec fn product_fits(lines: Seq<Seq<char>>, q: int) -> bool {
    let law = int_field(lines[q], 33, 44);
    let d = q + tab1_len(lines, q);
    &&& tab1_fits(lines, q)
    &&& (law == 1 || law == 2 || law == 5) ==> tab2_lists_fit(lines, d)
    &&& law == 6 ==> d < lines.len()
    &&& law == 7 ==> laboratory_fits(lines, d)
}

/// What the product read from `lines[q]` onwards holds.
pub open spec fn product_matches(x: Product, lines: Seq<Seq<char>>, q: int) -> bool {
    let d = q + tab1_len(lines, q);
    &&& x.zap@ == field_of(lines[q], 0, 11)
    &&& x.awp@ == field_of(lines[q], 11, 22)
    &&& x.lip == int_field(lines[q], 22, 33)
    &&& x.law == int_field(lines[q], 33, 44)
    &&& tab1_matches(x.yield_, lines, q)
    &&& if x.law == 1 {
        x.distribution matches Distribution::ContinuumEnergyAngle(c) && continuum_matches(c, lines, d)
    } else if x.law == 2 {
        x.distribution matches Distribution::DiscreteTwoBody(c) && two_body_matches(c, lines, d)
    } else if x.law == 5 {
        x.distribution matches Distribution::ChargedParticleElastic(c) && charged_matches(c, lines, d)
    } else if x.law == 6 {
        x.distribution matches Distribution::NBodyPhaseSpace { apsx, npsx } && apsx@ == field_of(lines[d], 0, 11)
            && npsx == int_field(lines[d], 55, 66)
    } else if x.law == 7 {
        x.distribution matches Distribution::LaboratoryAngleEnergy(c) && laboratory_matches(c, lines, d)
    } else {
        x.distribution is Absent
    }
}

fn read_product(reader: &mut Reader) -> (r: Result<Product>)
    requires
        old(reader).wf(),
    ensures
        final(reader).wf(),
        final(reader).lines_view() == old(reader).lines_view(),
        r matches Err(e) ==> e is UnexpectedEof,
        product_fits(old(reader).lines_view(), old(reader).position()) ==> {
            &&& r matches Ok(x) && product_matches(x, old(reader).lines_view(), old(reader).position())
            &&& final(reader).position() == product_end(old(reader).lines_view(), old(reader).position())
        },
        !product_fits(old(reader).lines_view(), old(reader).position()) ==> r is Err,
{
    proof {
        reader.lemma_position_nonneg();
    }
    let tab = reader.tab1_record()?;
    let law = tab.l2;
    let distribution = if law == 1 {
        Distribution::ContinuumEnergyAngle(parse_continuum(reader)?)
    } else if law == 2 {
        Distribution::DiscreteTwoBody(parse_discrete_two_body(reader)?)
    } else if law == 5 {
        Distribution::ChargedParticleElastic(parse_charged_particle(reader)?)
    } else if law == 6 {
        let c = reader.cont_record()?;
        Distribution::NBodyPhaseSpace { apsx: c.c1, npsx: c.n2 }
    } else if law == 7 {
        Distribution::LaboratoryAngleEnergy(parse_laboratory(reader)?)
    } else {
        Distribution::Absent
    };
    Ok(Product { zap: tab.c1.clone(), awp: tab.c2.clone(), lip: tab.l1, law, yield_: tab, distribution })
}

/// Where the `k`-th of a run of products from `lines[at]` starts.
pub open spec fn product_at(lines: Seq<Seq<char>>, at: int, k: int) -> int
    decreases k,
{
    if k <= 0 {
        at
    } else {
        product_end(lines, product_at(lines, at, k - 1))
    }
}

/// Whether `k` products from `lines[at]` fit.
pub open spec fn products_fit(lines: Seq<Seq<char>>, at: int, k: int) -> bool
    decreases k,
{
    if k <= 0 {
        true
    } else {
        products_fit(lines, at, k - 1) && product_fits(lines, product_at(lines, at, k - 1))
    }
}

proof fn lemma_products_stop(lines: Seq<Seq<char>>, at: int, k: int, n: int)
    requires
        0 <= k < n,
        products_fit(lines, at, k),
        !product_fits(lines, product_at(lines, at, k)),
    ensures
        !products_fit(lines, at, n),
    decreases n - k,
{
    if k + 1 < n {
        lemma_products_stop_later(lines, at, k + 1, n);
    }
}

proof fn lemma_products_stop_later(lines: Seq<Seq<char>>, at: int, k: int, n: int)
    requires
        0 < k <= n,
        !products_fit(lines, at, k),
    ensures
        !products_fit(lines, at, n),
    decreases n - k,
{
    if k < n {
        lemma_products_stop_later(lines, at, k + 1, n);
    }
}

/// Whether the lines from `at` hold a whole MF=6 section: its HEAD record
/// and NK products.
pub open spec fn mf6_fits(lines: Seq<Seq<char>>, at: int) -> bool {
    0 <= at < lines.len() && products_fit(lines, at + 1, at_least_zero(int_field(lines[at], 44, 55)))
}

/// What an MF=6 section read from `lines[at]` holds.
pub open spec fn mf6_matches(d: Mf6, lines: Seq<Seq<char>>, at: int) -> bool {
    let n = at_least_zero(int_field(lines[at], 44, 55));
    &&& d.za@ == field_of(lines[at], 0, 11)
    &&& d.awr@ == field_of(lines[at], 11, 22)
    &&& d.jp == int_field(lines[at], 22, 33)
    &&& d.lct == int_field(lines[at], 33, 44)
    &&& d.nk == int_field(lines[at], 44, 55)
    &&& d.products@.len() == n
    &&& forall|k: int| 0 <= k < n ==> product_matches(#[trigger] d.products@[k], lines, product_at(lines, at + 1, k))
}

/// Parse an MF=6 section.
pub fn parse_mf6(reader: &mut Reader) -> (r: Result<Mf6>)
    requires
        old(reader).wf(),
    ensures
        final(reader).wf(),
        mf6_fits(old(reader).lines_view(), old(reader).position()) ==> (r matches Ok(d) && mf6_matches(
            d,
            old(reader).lines_view(),
            old(reader).position(),
        )),
        !mf6_fits(old(reader).lines_view(), old(reader).position()) ==> r is Err,
        r matches Err(e) ==> e is UnexpectedEof,
{
    let ghost lines = reader.lines_view();
    let ghost at = reader.position();
    proof {
        reader.lemma_position_nonneg();
    }
    let head = reader.cont_record()?;
    let nk = head.n1;
    let ghost count = at_least_zero(nk as int);
    let mut products: Vec<Product> = Vec::new();
    let mut k: i64 = 0;
    while k < nk
        invariant
            reader.wf(),
            reader.lines_view() == lines,
            lines == old(reader).lines_view(),
            at == old(reader).position(),
            0 <= at < lines.len(),
            nk == int_field(lines[at], 44, 55),
            count == at_least_zero(nk as int),
            0 <= k <= count,
            reader.position() == product_at(lines, at + 1, k as int),
            products_fit(lines, at + 1, k as int),
            products@.len() == k,
            forall|j: int| 0 <= j < k ==> product_matches(#[trigger] products@[j], lines, product_at(lines, at + 1, j)),
        decreases nk - k,
    {
        let x = match read_product(reader) {
            Ok(x) => x,
            Err(e) => {
                proof {
                    lemma_products_stop(lines, at + 1, k as int, count);
                }
                return Err(e);
            },
        };
        products.push(x);
        k = k + 1;
    }
    Ok(Mf6 { za: head.c1, awr: head.c2, jp: head.l1, lct: head.l2, nk, products })
}

} // verus!
