//! MF=12 to MF=15, photon production.
//!
//! Grouped into one module because the four files describe one thing between
//! them: how many photons a reaction makes (MF=12), the cross section for
//! making them (MF=13), where they go (MF=14) and with what energy (MF=15).
//! Real-valued fields are kept as the text of their fields.

use vstd::prelude::*;

use crate::error::Result;
use crate::function::Tabulated2D;
use crate::mf::list::{
    at_least_zero, item, item_text, lemma_items, lemma_lists_stop, lemma_tab1s_stop, list_at, list_fits, list_value,
    lists_fit, tab1_at, tab1_fits, tab1_len, tab1s_fit,
};
use crate::mf::mf1::tab2_len;
use crate::mf::mf4::energy_count;
use crate::mf::mf6::tab2_matches;
use crate::records::{count_field, field_of, int_field, tab1_matches, values_match, Reader, Tab1};

verus! {

// -------------------------------------------------------------------------
// MF=12
// -------------------------------------------------------------------------

/// The multiplicity of one photon (LO=1).
#[derive(Debug, Clone, PartialEq, Eq)]
pub struct Multiplicity {
    pub eg: String,
    pub es: String,
    pub lp: i64,
    pub lf: i64,
    pub y: Tab1,
}

/// One transition of a level scheme (LO=2).
#[derive(Debug, Clone, PartialEq, Eq)]
pub struct Transition {
    pub es: String,
    pub tp: String,
    /// The conditional probability of a gamma, given only for LG=2.
    pub gp: Option<String>,
}

/// MF=12: photon multiplicities or transition probabilities.
#[derive(Debug, Clone, PartialEq, Eq)]
pub struct Mf12 {
    pub za: String,
    pub awr: String,
    pub lo: i64,
    pub nk: i64,
    pub total_yield: Option<Tab1>,
    pub multiplicities: Vec<Multiplicity>,
    pub lg: Option<i64>,
    pub es_ns: String,
    pub lp: i64,
    pub nt: i64,
    pub transitions: Vec<Transition>,
    /// True when LO is neither 1 nor 2 and nothing after the HEAD record
    /// was read.
    pub unrecognised_lo: bool,
}

/// Where the photons' own TAB1 records start, for a section whose first
/// record after the HEAD is at `lines[p]`: after the total, which is given
/// only for more than one photon.
pub open spec fn photons_start(lines: Seq<Seq<char>>, p: int, nk: int) -> int {
    if nk > 1 {
        p + tab1_len(lines, p)
    } else {
        p
    }
}

/// Whether the total, where there is one, and NK photon records fit from
/// `lines[p]`.
pub open spec fn photon_tabs_fit(lines: Seq<Seq<char>>, p: int, nk: int) -> bool {
    &&& nk > 1 ==> tab1_fits(lines, p)
    &&& tab1s_fit(lines, photons_start(lines, p, nk), at_least_zero(nk))
}

/// Whether the lines from `at` hold a whole MF=12 section.
pub open spec fn mf12_fits(lines: Seq<Seq<char>>, at: int) -> bool {
    let lo = int_field(lines[at], 22, 33);
    &&& 0 <= at < lines.len()
    &&& lo == 1 ==> photon_tabs_fit(lines, at + 1, int_field(lines[at], 44, 55))
    &&& lo == 2 ==> list_fits(lines, at + 1)
}

/// What transition `i` of the LIST record at `lines[p]` holds: three values
/// per transition for LG=2, two otherwise.
pub open spec fn transition_matches(t: Transition, lines: Seq<Seq<char>>, p: int, lg: int, i: int) -> bool {
    let stride = if lg == 2 {
        3int
    } else {
        2
    };
    &&& t.es@ == list_value(lines, p, stride * i)
    &&& t.tp@ == list_value(lines, p, stride * i + 1)
    &&& if lg == 2 {
        t.gp matches Some(g) && g@ == list_value(lines, p, stride * i + 2)
    } else {
        t.gp is None
    }
}

/// What an MF=12 section read from `lines[at]` holds.
pub open spec fn mf12_matches(d: Mf12, lines: Seq<Seq<char>>, at: int) -> bool {
    let nk = int_field(lines[at], 44, 55);
    let lg = int_field(lines[at], 33, 44);
    let p = at + 1;
    &&& d.za@ == field_of(lines[at], 0, 11)
    &&& d.awr@ == field_of(lines[at], 11, 22)
    &&& d.lo == int_field(lines[at], 22, 33)
    &&& d.nk == nk
    &&& d.unrecognised_lo == !(d.lo == 1 || d.lo == 2)
    &&& if d.lo == 1 {
        &&& if nk > 1 {
            d.total_yield matches Some(t) && tab1_matches(t, lines, p)
        } else {
            d.total_yield is None
        }
        &&& d.multiplicities@.len() == at_least_zero(nk)
        &&& forall|k: int|
            0 <= k < d.multiplicities@.len() ==> {
                let q = tab1_at(lines, photons_start(lines, p, nk), k);
                let m = #[trigger] d.multiplicities@[k];
                &&& tab1_matches(m.y, lines, q)
                &&& m.eg == m.y.c1 && m.es == m.y.c2 && m.lp == m.y.l1 && m.lf == m.y.l2
            }
    } else {
        d.total_yield is None && d.multiplicities@.len() == 0
    }
    &&& if d.lo == 2 {
        &&& d.lg == Some(lg as i64)
        &&& d.es_ns@ == field_of(lines[p], 0, 11)
        &&& d.lp == int_field(lines[p], 22, 33)
        &&& d.nt == int_field(lines[p], 55, 66)
        &&& d.transitions@.len() == at_least_zero(d.nt as int)
        &&& forall|i: int| 0 <= i < d.transitions@.len() ==> transition_matches(#[trigger] d.transitions@[i], lines, p, lg, i)
    } else {
        d.lg is None && d.es_ns@.len() == 0 && d.lp == 0 && d.nt == 0 && d.transitions@.len() == 0
    }
}

/// The transitions of a LO=2 LIST record.
fn transitions(v: &Vec<String>, lg: i64, nt: i64, Ghost(lines): Ghost<Seq<Seq<char>>>, Ghost(p): Ghost<int>) -> (t: Vec<Transition>)
    requires
        0 <= p < lines.len(),
        forall|k: int| #[trigger] item_text(v@, k) == list_value(lines, p, k),
    ensures
        t@.len() == at_least_zero(nt as int),
        forall|i: int| 0 <= i < t@.len() ==> transition_matches(#[trigger] t@[i], lines, p, lg as int, i),
{
    let stride: u128 = if lg == 2 {
        3
    } else {
        2
    };
    let mut t: Vec<Transition> = Vec::new();
    let mut i: i64 = 0;
    while i < nt
        invariant
            0 <= i <= at_least_zero(nt as int),
            stride == (if lg == 2 {
                3int
            } else {
                2
            }),
            t@.len() == i,
            forall|k: int| #[trigger] item_text(v@, k) == list_value(lines, p, k),
            forall|j: int| 0 <= j < i ==> transition_matches(#[trigger] t@[j], lines, p, lg as int, j),
        decreases nt - i,
    {
        let base: u128 = stride * (i as u128);
        let es = item(v, base);
        let tp = item(v, base + 1);
        let gp = if lg == 2 {
            Some(item(v, base + 2))
        } else {
            None
        };
        t.push(Transition { es, tp, gp });
        i = i + 1;
    }
    t
}

/// Parse an MF=12 section.
pub fn parse_mf12(reader: &mut Reader) -> (r: Result<Mf12>)
    requires
        old(reader).wf(),
    ensures
        final(reader).wf(),
        mf12_fits(old(reader).lines_view(), old(reader).position()) ==> (r matches Ok(d) && mf12_matches(
            d,
            old(reader).lines_view(),
            old(reader).position(),
        )),
        !mf12_fits(old(reader).lines_view(), old(reader).position()) ==> r is Err,
        r matches Err(e) ==> e is UnexpectedEof,
{
    let ghost lines = reader.lines_view();
    let ghost at = reader.position();
    proof {
        reader.lemma_position_nonneg();
    }
    let head = reader.cont_record()?;
    let lo = head.l1;
    let lg = head.l2;
    let nk = head.n1;
    let mut total_yield: Option<Tab1> = None;
    let mut multiplicities: Vec<Multiplicity> = Vec::new();
    let mut lg_out: Option<i64> = None;
    let mut es_ns = String::new();
    let mut lp: i64 = 0;
    let mut nt: i64 = 0;
    let mut trans: Vec<Transition> = Vec::new();
    if lo == 1 {
        // The total yield is only written when there is more than one photon
        // to total.
        if nk > 1 {
            total_yield = Some(reader.tab1_record()?);
        }
        let ghost s0 = reader.position();
        let ghost count = at_least_zero(nk as int);
        let mut k: i64 = 0;
        while k < nk
            invariant
                reader.wf(),
                reader.lines_view() == lines,
                lines == old(reader).lines_view(),
                at == old(reader).position(),
                0 <= at < lines.len(),
                int_field(lines[at], 22, 33) == 1,
                nk == int_field(lines[at], 44, 55),
                s0 == photons_start(lines, at + 1, nk as int),
                nk > 1 ==> tab1_fits(lines, at + 1),
                count == at_least_zero(nk as int),
                0 <= k <= count,
                reader.position() == tab1_at(lines, s0, k as int),
                tab1s_fit(lines, s0, k as int),
                multiplicities@.len() == k,
                forall|j: int|
                    0 <= j < k ==> {
                        let m = #[trigger] multiplicities@[j];
                        &&& tab1_matches(m.y, lines, tab1_at(lines, s0, j))
                        &&& m.eg == m.y.c1 && m.es == m.y.c2 && m.lp == m.y.l1 && m.lf == m.y.l2
                    },
            decreases nk - k,
        {
            let y = match reader.tab1_record() {
                Ok(t) => t,
                Err(e) => {
                    proof {
                        lemma_tab1s_stop(lines, s0, k as int, count);
                    }
                    return Err(e);
                },
            };
            multiplicities.push(Multiplicity { eg: y.c1.clone(), es: y.c2.clone(), lp: y.l1, lf: y.l2, y });
            k = k + 1;
        }
    } else if lo == 2 {
        lg_out = Some(lg);
        let ghost p = reader.position();
        let list = reader.list_record()?;
        proof {
            lemma_items(lines, p, list.values@);
        }
        es_ns = list.cont.c1.clone();
        lp = list.cont.l1;
        nt = list.cont.n2;
        trans = transitions(&list.values, lg, nt, Ghost(lines), Ghost(p));
    }
    Ok(
        Mf12 {
            za: head.c1,
            awr: head.c2,
            lo,
            nk,
            total_yield,
            multiplicities,
            lg: lg_out,
            es_ns,
            lp,
            nt,
            transitions: trans,
            unrecognised_lo: !(lo == 1 || lo == 2),
        },
    )
}

// -------------------------------------------------------------------------
// MF=13
// -------------------------------------------------------------------------

/// The production cross section of one photon.
#[derive(Debug, Clone, PartialEq, Eq)]
pub struct PhotonCrossSection {
    pub eg: String,
    pub es: String,
    pub lp: i64,
    pub lf: i64,
    pub sigma: Tab1,
}

/// MF=13: photon production cross sections.
#[derive(Debug, Clone, PartialEq, Eq)]
pub struct Mf13 {
    pub za: String,
    pub awr: String,
    pub nk: i64,
    pub sigma_total: Option<Tab1>,
    pub photons: Vec<PhotonCrossSection>,
}

/// Whether the lines from `at` hold a whole MF=13 section.
pub open spec fn mf13_fits(lines: Seq<Seq<char>>, at: int) -> bool {
    0 <= at < lines.len() && photon_tabs_fit(lines, at + 1, int_field(lines[at], 44, 55))
}

/// What an MF=13 section read from `lines[at]` holds.
pub open spec fn mf13_matches(d: Mf13, lines: Seq<Seq<char>>, at: int) -> bool {
    let nk = int_field(lines[at], 44, 55);
    let s0 = photons_start(lines, at + 1, nk);
    &&& d.za@ == field_of(lines[at], 0, 11)
    &&& d.awr@ == field_of(lines[at], 11, 22)
    &&& d.nk == nk
    &&& if nk > 1 {
        d.sigma_total matches Some(t) && tab1_matches(t, lines, at + 1)
    } else {
        d.sigma_total is None
    }
    &&& d.photons@.len() == at_least_zero(nk)
    &&& forall|k: int|
        0 <= k < d.photons@.len() ==> {
            let x = #[trigger] d.photons@[k];
            &&& tab1_matches(x.sigma, lines, tab1_at(lines, s0, k))
            &&& x.eg == x.sigma.c1 && x.es == x.sigma.c2 && x.lp == x.sigma.l1 && x.lf == x.sigma.l2
        }
}

/// Parse an MF=13 section.
pub fn parse_mf13(reader: &mut Reader) -> (r: Result<Mf13>)
    requires
        old(reader).wf(),
    ensures
        final(reader).wf(),
        mf13_fits(old(reader).lines_view(), old(reader).position()) ==> (r matches Ok(d) && mf13_matches(
            d,
            old(reader).lines_view(),
            old(reader).position(),
        )),
        !mf13_fits(old(reader).lines_view(), old(reader).position()) ==> r is Err,
        r matches Err(e) ==> e is UnexpectedEof,
{
    let ghost lines = reader.lines_view();
    let ghost at = reader.position();
    proof {
        reader.lemma_position_nonneg();
    }
    let head = reader.cont_record()?;
    let nk = head.n1;
    let sigma_total = if nk > 1 {
        Some(reader.tab1_record()?)
    } else {
        None
    };
    let ghost s0 = reader.position();
    let ghost count = at_least_zero(nk as int);
    let mut photons: Vec<PhotonCrossSection> = Vec::new();
    let mut k: i64 = 0;
    while k < nk
        invariant
            reader.wf(),
            reader.lines_view() == lines,
            lines == old(reader).lines_view(),
            at == old(reader).position(),
            0 <= at < lines.len(),
            nk == int_field(lines[at], 44, 55),
            s0 == photons_start(lines, at + 1, nk as int),
            nk > 1 ==> tab1_fits(lines, at + 1),
            count == at_least_zero(nk as int),
            0 <= k <= count,
            reader.position() == tab1_at(lines, s0, k as int),
            tab1s_fit(lines, s0, k as int),
            photons@.len() == k,
            forall|j: int|
                0 <= j < k ==> {
                    let x = #[trigger] photons@[j];
                    &&& tab1_matches(x.sigma, lines, tab1_at(lines, s0, j))
                    &&& x.eg == x.sigma.c1 && x.es == x.sigma.c2 && x.lp == x.sigma.l1 && x.lf == x.sigma.l2
                },
        decreases nk - k,
    {
        let t = match reader.tab1_record() {
            Ok(t) => t,
            Err(e) => {
                proof {
                    lemma_tab1s_stop(lines, s0, k as int, count);
                }
                return Err(e);
            },
        };
        photons.push(PhotonCrossSection { eg: t.c1.clone(), es: t.c2.clone(), lp: t.l1, lf: t.l2, sigma: t });
        k = k + 1;
    }
    Ok(Mf13 { za: head.c1, awr: head.c2, nk, sigma_total, photons })
}

// -------------------------------------------------------------------------
// MF=14
// -------------------------------------------------------------------------

/// The angular distribution of one photon.
#[derive(Debug, Clone, PartialEq, Eq)]
pub struct PhotonAngle {
    pub eg: String,
    pub es: String,
    pub isotropic: bool,
    pub ne: i64,
    pub e_int: Option<Tabulated2D>,
    pub energy: Vec<String>,
    /// The number of Legendre coefficients at each energy (LTT=1).
    pub nl: Vec<i64>,
    pub a_lk: Vec<Vec<String>>,
    pub p_k: Vec<Tab1>,
}

/// MF=14: photon angular distributions.
#[derive(Debug, Clone, PartialEq, Eq)]
pub struct Mf14 {
    pub za: String,
    pub awr: String,
    pub li: i64,
    pub nk: i64,
    pub ltt: Option<i64>,
    pub ni: Option<i64>,
    pub subsections: Vec<PhotonAngle>,
}

/// The line after the anisotropic photon at `lines[s]`: a TAB2 record,
/// then a LIST record per energy for LTT=1 or a TAB1 record per energy for
/// LTT=2.
pub open spec fn aniso_end(lines: Seq<Seq<char>>, s: int, ltt: int) -> int {
    let t = s + tab2_len(lines, s);
    if ltt == 1 {
        list_at(lines, t, energy_count(lines, s))
    } else if ltt == 2 {
        tab1_at(lines, t, energy_count(lines, s))
    } else {
        t
    }
}

/// Whether the anisotropic photon at `lines[s]` fits.
pub open spec fn aniso_fits(lines: Seq<Seq<char>>, s: int, ltt: int) -> bool {
    let t = s + tab2_len(lines, s);
    &&& 0 <= s < lines.len()
    &&& t <= lines.len()
    &&& ltt == 1 ==> lists_fit(lines, t, energy_count(lines, s))
    &&& ltt == 2 ==> tab1s_fit(lines, t, energy_count(lines, s))
}

/// What the anisotropic photon read from `lines[s]` onwards holds.
pub open spec fn aniso_matches(x: PhotonAngle, lines: Seq<Seq<char>>, s: int, ltt: int) -> bool {
    let t = s + tab2_len(lines, s);
    let n = energy_count(lines, s);
    &&& x.eg@ == field_of(lines[s], 0, 11)
    &&& x.es@ == field_of(lines[s], 11, 22)
    &&& !x.isotropic
    &&& x.ne == int_field(lines[s], 55, 66)
    &&& x.e_int matches Some(e) && tab2_matches(e, lines, s)
    &&& if ltt == 1 {
        &&& x.energy@.len() == n && x.nl@.len() == n && x.a_lk@.len() == n && x.p_k@.len() == 0
        &&& forall|k: int|
            0 <= k < n ==> {
                let p = #[trigger] list_at(lines, t, k);
                &&& x.energy@[k]@ == field_of(lines[p], 11, 22)
                &&& x.nl@[k] == int_field(lines[p], 44, 55)
                &&& values_match(lines, p + 1, count_field(lines[p], 44, 55), x.a_lk@[k]@)
            }
    } else if ltt == 2 {
        &&& x.energy@.len() == n && x.p_k@.len() == n && x.nl@.len() == 0 && x.a_lk@.len() == 0
        &&& forall|k: int|
            0 <= k < n ==> {
                let p = #[trigger] tab1_at(lines, t, k);
                &&& x.energy@[k]@ == field_of(lines[p], 11, 22)
                &&& tab1_matches(x.p_k@[k], lines, p)
            }
    } else {
        x.energy@.len() == 0 && x.nl@.len() == 0 && x.a_lk@.len() == 0 && x.p_k@.len() == 0
    }
}

fn read_aniso(reader: &mut Reader, ltt: i64) -> (r: Result<PhotonAngle>)
    requires
        old(reader).wf(),
    ensures
        final(reader).wf(),
        final(reader).lines_view() == old(reader).lines_view(),
        r matches Err(e) ==> e is UnexpectedEof,
        aniso_fits(old(reader).lines_view(), old(reader).position(), ltt as int) ==> {
            &&& r matches Ok(x) && aniso_matches(x, old(reader).lines_view(), old(reader).position(), ltt as int)
            &&& final(reader).position() == aniso_end(old(reader).lines_view(), old(reader).position(), ltt as int)
        },
        !aniso_fits(old(reader).lines_view(), old(reader).position(), ltt as int) ==> r is Err,
{
    let ghost lines = reader.lines_view();
    let ghost s = reader.position();
    proof {
        reader.lemma_position_nonneg();
    }
    let tab2 = reader.tab2_record()?;
    let ne = tab2.cont.n2;
    let ghost t = reader.position();
    let ghost count = at_least_zero(ne as int);
    let mut energy: Vec<String> = Vec::new();
    let mut nl: Vec<i64> = Vec::new();
    let mut a_lk: Vec<Vec<String>> = Vec::new();
    let mut p_k: Vec<Tab1> = Vec::new();
    if ltt == 1 {
        let mut k: i64 = 0;
        while k < ne
            invariant
                reader.wf(),
                reader.lines_view() == lines,
                lines == old(reader).lines_view(),
                s == old(reader).position(),
                0 <= s < lines.len(),
                ne == int_field(lines[s], 55, 66),
                t == s + tab2_len(lines, s),
                count == at_least_zero(ne as int),
                0 <= k <= count,
                ltt == 1,
                reader.position() == list_at(lines, t, k as int),
                lists_fit(lines, t, k as int),
                energy@.len() == k && nl@.len() == k && a_lk@.len() == k && p_k@.len() == 0,
                forall|j: int|
                    0 <= j < k ==> {
                        let p = #[trigger] list_at(lines, t, j);
                        &&& energy@[j]@ == field_of(lines[p], 11, 22)
                        &&& nl@[j] == int_field(lines[p], 44, 55)
                        &&& values_match(lines, p + 1, count_field(lines[p], 44, 55), a_lk@[j]@)
                    },
            decreases ne - k,
        {
            let list = match reader.list_record() {
                Ok(l) => l,
                Err(e) => {
                    proof {
                        lemma_lists_stop(lines, t, k as int, count);
                    }
                    return Err(e);
                },
            };
            energy.push(list.cont.c2);
            nl.push(list.cont.n1);
            a_lk.push(list.values);
            k = k + 1;
        }
    } else if ltt == 2 {
        let mut k: i64 = 0;
        while k < ne
            invariant
                reader.wf(),
                reader.lines_view() == lines,
                lines == old(reader).lines_view(),
                s == old(reader).position(),
                0 <= s < lines.len(),
                ne == int_field(lines[s], 55, 66),
                t == s + tab2_len(lines, s),
                count == at_least_zero(ne as int),
                0 <= k <= count,
                ltt == 2,
                reader.position() == tab1_at(lines, t, k as int),
                tab1s_fit(lines, t, k as int),
                energy@.len() == k && p_k@.len() == k && nl@.len() == 0 && a_lk@.len() == 0,
                forall|j: int|
                    0 <= j < k ==> {
                        let p = #[trigger] tab1_at(lines, t, j);
                        &&& energy@[j]@ == field_of(lines[p], 11, 22)
                        &&& tab1_matches(p_k@[j], lines, p)
                    },
            decreases ne - k,
        {
            let tab = match reader.tab1_record() {
                Ok(t) => t,
                Err(e) => {
                    proof {
                        lemma_tab1s_stop(lines, t, k as int, count);
                    }
                    return Err(e);
                },
            };
            energy.push(tab.c2.clone());
            p_k.push(tab);
            k = k + 1;
        }
    }
    Ok(
        PhotonAngle {
            eg: tab2.cont.c1,
            es: tab2.cont.c2,
            isotropic: false,
            ne,
            e_int: Some(tab2.table),
            energy,
            nl,
            a_lk,
            p_k,
        },
    )
}

/// How many anisotropic photons an MF=14 section at `lines[at]` has: those
/// of the NK that are not among the NI isotropic ones.
pub open spec fn aniso_count(lines: Seq<Seq<char>>, at: int) -> int {
    let d = at_least_zero(int_field(lines[at], 44, 55)) - at_least_zero(int_field(lines[at], 55, 66));
    if d > 0 {
        d
    } else {
        0
    }
}

/// Where the `k`-th of a run of anisotropic photons from `lines[at]`
/// starts.
pub open spec fn aniso_at(lines: Seq<Seq<char>>, at: int, k: int, ltt: int) -> int
    decreases k,
{
    if k <= 0 {
        at
    } else {
        aniso_end(lines, aniso_at(lines, at, k - 1, ltt), ltt)
    }
}

/// Whether `k` anisotropic photons from `lines[at]` fit.
pub open spec fn anisos_fit(lines: Seq<Seq<char>>, at: int, k: int, ltt: int) -> bool
    decreases k,
{
    if k <= 0 {
        true
    } else {
        anisos_fit(lines, at, k - 1, ltt) && aniso_fits(lines, aniso_at(lines, at, k - 1, ltt), ltt)
    }
}

proof fn lemma_anisos_stop(lines: Seq<Seq<char>>, at: int, k: int, n: int, ltt: int)
    requires
        0 <= k < n,
        anisos_fit(lines, at, k, ltt),
        !aniso_fits(lines, aniso_at(lines, at, k, ltt), ltt),
    ensures
        !anisos_fit(lines, at, n, ltt),
    decreases n - k,
{
    if k + 1 < n {
        lemma_anisos_stop_later(lines, at, k + 1, n, ltt);
    }
}

proof fn lemma_anisos_stop_later(lines: Seq<Seq<char>>, at: int, k: int, n: int, ltt: int)
    requires
        0 < k <= n,
        !anisos_fit(lines, at, k, ltt),
    ensures
        !anisos_fit(lines, at, n, ltt),
    decreases n - k,
{
    if k < n {
        lemma_anisos_stop_later(lines, at, k + 1, n, ltt);
    }
}

/// Whether the lines from `at` hold a whole MF=14 section: the HEAD record
/// and, unless every photon is isotropic (LI=1), a CONT record per
/// isotropic photon and the records of each anisotropic one.
pub open spec fn mf14_fits(lines: Seq<Seq<char>>, at: int) -> bool {
    let ni = at_least_zero(int_field(lines[at], 55, 66));
    &&& 0 <= at < lines.len()
    &&& int_field(lines[at], 22, 33) != 1 ==> {
        &&& at + 1 + ni <= lines.len()
        &&& anisos_fit(lines, at + 1 + ni, aniso_count(lines, at), int_field(lines[at], 33, 44))
    }
}

/// What an MF=14 section read from `lines[at]` holds.
pub open spec fn mf14_matches(d: Mf14, lines: Seq<Seq<char>>, at: int) -> bool {
    let ni = at_least_zero(int_field(lines[at], 55, 66));
    let ltt = int_field(lines[at], 33, 44);
    let m = aniso_count(lines, at);
    &&& d.za@ == field_of(lines[at], 0, 11)
    &&& d.awr@ == field_of(lines[at], 11, 22)
    &&& d.li == int_field(lines[at], 22, 33)
    &&& d.nk == int_field(lines[at], 44, 55)
    &&& if d.li == 1 {
        d.ltt is None && d.ni is None && d.subsections@.len() == 0
    } else {
        &&& d.ltt == Some(ltt as i64)
        &&& d.ni == Some(int_field(lines[at], 55, 66) as i64)
        &&& d.subsections@.len() == ni + m
        &&& forall|k: int|
            0 <= k < ni ==> {
                let x = #[trigger] d.subsections@[k];
                let line = lines[at + 1 + k];
                &&& x.eg@ == field_of(line, 0, 11) && x.es@ == field_of(line, 11, 22) && x.isotropic
                &&& x.ne == 0 && x.e_int is None
                &&& x.energy@.len() == 0 && x.nl@.len() == 0 && x.a_lk@.len() == 0 && x.p_k@.len() == 0
            }
        &&& forall|k: int|
            0 <= k < m ==> aniso_matches(
                #[trigger] d.subsections@[ni + k],
                lines,
                aniso_at(lines, at + 1 + ni, k, ltt),
                ltt,
            )
    }
}

/// Parse an MF=14 section.
#[verifier::rlimit(40)]
pub fn parse_mf14(reader: &mut Reader) -> (r: Result<Mf14>)
    requires
        old(reader).wf(),
    ensures
        final(reader).wf(),
        mf14_fits(old(reader).lines_view(), old(reader).position()) ==> (r matches Ok(d) && mf14_matches(
            d,
            old(reader).lines_view(),
            old(reader).position(),
        )),
        !mf14_fits(old(reader).lines_view(), old(reader).position()) ==> r is Err,
        r matches Err(e) ==> e is UnexpectedEof,
{
    let ghost lines = reader.lines_view();
    let ghost at = reader.position();
    proof {
        reader.lemma_position_nonneg();
    }
    let head = reader.cont_record()?;
    let li = head.l1;
    let ltt = head.l2;
    let nk = head.n1;
    let ni = head.n2;
    let mut subsections: Vec<PhotonAngle> = Vec::new();
    // Every photon isotropic: the section ends here.
    if li == 1 {
        return Ok(Mf14 { za: head.c1, awr: head.c2, li, nk, ltt: None, ni: None, subsections });
    }
    let ghost nin = at_least_zero(ni as int);
    let mut k: i64 = 0;
    while k < ni
        invariant
            reader.wf(),
            reader.lines_view() == lines,
            lines == old(reader).lines_view(),
            at == old(reader).position(),
            0 <= at < lines.len(),
            ni == int_field(lines[at], 55, 66),
            int_field(lines[at], 22, 33) != 1,
            nin == at_least_zero(ni as int),
            0 <= k <= nin,
            reader.position() == at + 1 + k,
            at + 1 + k <= lines.len(),
            subsections@.len() == k,
            forall|j: int|
                0 <= j < k ==> {
                    let x = #[trigger] subsections@[j];
                    let line = lines[at + 1 + j];
                    &&& x.eg@ == field_of(line, 0, 11) && x.es@ == field_of(line, 11, 22) && x.isotropic
                    &&& x.ne == 0 && x.e_int is None
                    &&& x.energy@.len() == 0 && x.nl@.len() == 0 && x.a_lk@.len() == 0 && x.p_k@.len() == 0
                },
        decreases ni - k,
    {
        let c = reader.cont_record()?;
        subsections.push(
            PhotonAngle {
                eg: c.c1,
                es: c.c2,
                isotropic: true,
                ne: 0,
                e_int: None,
                energy: Vec::new(),
                nl: Vec::new(),
                a_lk: Vec::new(),
                p_k: Vec::new(),
            },
        );
        k = k + 1;
    }
    let ghost s0 = reader.position();
    let lo: i64 = if ni > 0 {
        ni
    } else {
        0
    };
    let ghost m = aniso_count(lines, at);
    let mut k: i64 = lo;
    while k < nk
        invariant
            reader.wf(),
            reader.lines_view() == lines,
            lines == old(reader).lines_view(),
            at == old(reader).position(),
            0 <= at < lines.len(),
            int_field(lines[at], 22, 33) != 1,
            ltt == int_field(lines[at], 33, 44),
            nk == int_field(lines[at], 44, 55),
            lo == nin,
            nin == at_least_zero(int_field(lines[at], 55, 66)),
            s0 == at + 1 + nin,
            s0 <= lines.len(),
            m == aniso_count(lines, at),
            lo <= k,
            k - lo <= m,
            k > lo ==> k <= nk,
            reader.position() == aniso_at(lines, s0, k - lo, ltt as int),
            anisos_fit(lines, s0, k - lo, ltt as int),
            subsections@.len() == k,
            forall|j: int|
                0 <= j < nin ==> {
                    let x = #[trigger] subsections@[j];
                    let line = lines[at + 1 + j];
                    &&& x.eg@ == field_of(line, 0, 11) && x.es@ == field_of(line, 11, 22) && x.isotropic
                    &&& x.ne == 0 && x.e_int is None
                    &&& x.energy@.len() == 0 && x.nl@.len() == 0 && x.a_lk@.len() == 0 && x.p_k@.len() == 0
                },
            forall|j: int|
                0 <= j < k - lo ==> aniso_matches(
                    #[trigger] subsections@[nin + j],
                    lines,
                    aniso_at(lines, s0, j, ltt as int),
                    ltt as int,
                ),
        decreases nk - k,
    {
        let x = match read_aniso(reader, ltt) {
            Ok(x) => x,
            Err(e) => {
                proof {
                    lemma_anisos_stop(lines, s0, k - lo, m, ltt as int);
                }
                return Err(e);
            },
        };
        subsections.push(x);
        k = k + 1;
    }
    Ok(Mf14 { za: head.c1, awr: head.c2, li, nk, ltt: Some(ltt), ni: Some(ni), subsections })
}

// -------------------------------------------------------------------------
// MF=15
// -------------------------------------------------------------------------

/// One partial photon energy spectrum.
#[derive(Debug, Clone, PartialEq, Eq)]
pub struct PhotonSpectrum {
    pub lf: i64,
    pub p: Tab1,
    pub e_int: Tabulated2D,
    pub ne: i64,
    pub energy: Vec<String>,
    pub g: Vec<Tab1>,
}

/// MF=15: photon energy spectra.
#[derive(Debug, Clone, PartialEq, Eq)]
pub struct Mf15 {
    pub za: String,
    pub awr: String,
    pub nc: i64,
    pub subsections: Vec<PhotonSpectrum>,
}

/// The line after the spectrum at `lines[q]`: its weight, a TAB2 record
/// and a TAB1 record per incident energy.
pub open spec fn spectrum15_end(lines: Seq<Seq<char>>, q: int) -> int {
    let d = q + tab1_len(lines, q);
    tab1_at(lines, d + tab2_len(lines, d), energy_count(lines, d))
}

/// Whether the spectrum at `lines[q]` fits.
pub open spec fn spectrum15_fits(lines: Seq<Seq<char>>, q: int) -> bool {
    let d = q + tab1_len(lines, q);
    &&& tab1_fits(lines, q)
    &&& d < lines.len()
    &&& d + tab2_len(lines, d) <= lines.len()
    &&& tab1s_fit(lines, d + tab2_len(lines, d), energy_count(lines, d))
}

/// What the spectrum read from `lines[q]` onwards holds.
pub open spec fn spectrum15_matches(x: PhotonSpectrum, lines: Seq<Seq<char>>, q: int) -> bool {
    let d = q + tab1_len(lines, q);
    let t = d + tab2_len(lines, d);
    let n = energy_count(lines, d);
    &&& x.lf == int_field(lines[q], 33, 44)
    &&& tab1_matches(x.p, lines, q)
    &&& tab2_matches(x.e_int, lines, d)
    &&& x.ne == int_field(lines[d], 55, 66)
    &&& x.energy@.len() == n && x.g@.len() == n
    &&& forall|k: int|
        0 <= k < n ==> {
            let p = #[trigger] tab1_at(lines, t, k);
            &&& x.energy@[k]@ == field_of(lines[p], 11, 22)
            &&& tab1_matches(x.g@[k], lines, p)
        }
}

fn read_spectrum15(reader: &mut Reader) -> (r: Result<PhotonSpectrum>)
    requires
        old(reader).wf(),
    ensures
        final(reader).wf(),
        final(reader).lines_view() == old(reader).lines_view(),
        r matches Err(e) ==> e is UnexpectedEof,
        spectrum15_fits(old(reader).lines_view(), old(reader).position()) ==> {
            &&& r matches Ok(x) && spectrum15_matches(x, old(reader).lines_view(), old(reader).position())
            &&& final(reader).position() == spectrum15_end(old(reader).lines_view(), old(reader).position())
        },
        !spectrum15_fits(old(reader).lines_view(), old(reader).position()) ==> r is Err,
{
    let ghost lines = reader.lines_view();
    let ghost q = reader.position();
    proof {
        reader.lemma_position_nonneg();
    }
    let p = reader.tab1_record()?;
    let ghost d = reader.position();
    let tab2 = reader.tab2_record()?;
    let ne = tab2.cont.n2;
    let ghost t = reader.position();
    let ghost count = at_least_zero(ne as int);
    let mut energy: Vec<String> = Vec::new();
    let mut g: Vec<Tab1> = Vec::new();
    let mut k: i64 = 0;
    while k < ne
        invariant
            reader.wf(),
            reader.lines_view() == lines,
            lines == old(reader).lines_view(),
            q == old(reader).position(),
            d == q + tab1_len(lines, q),
            0 <= d < lines.len(),
            ne == int_field(lines[d], 55, 66),
            t == d + tab2_len(lines, d),
            count == at_least_zero(ne as int),
            0 <= k <= count,
            reader.position() == tab1_at(lines, t, k as int),
            tab1s_fit(lines, t, k as int),
            energy@.len() == k && g@.len() == k,
            forall|j: int|
                0 <= j < k ==> {
                    let x = #[trigger] tab1_at(lines, t, j);
                    &&& energy@[j]@ == field_of(lines[x], 11, 22)
                    &&& tab1_matches(g@[j], lines, x)
                },
        decreases ne - k,
    {
        let tab = match reader.tab1_record() {
            Ok(t) => t,
            Err(e) => {
                proof {
                    lemma_tab1s_stop(lines, t, k as int, count);
                }
                return Err(e);
            },
        };
        energy.push(tab.c2.clone());
        g.push(tab);
        k = k + 1;
    }
    Ok(PhotonSpectrum { lf: p.l2, p, e_int: tab2.table, ne, energy, g })
}

/// Where the `k`-th of a run of spectra from `lines[at]` starts.
pub open spec fn spectrum15_at(lines: Seq<Seq<char>>, at: int, k: int) -> int
    decreases k,
{
    if k <= 0 {
        at
    } else {
        spectrum15_end(lines, spectrum15_at(lines, at, k - 1))
    }
}

/// Whether `k` spectra from `lines[at]` fit.
pub open spec fn spectra15_fit(lines: Seq<Seq<char>>, at: int, k: int) -> bool
    decreases k,
{
    if k <= 0 {
        true
    } else {
        spectra15_fit(lines, at, k - 1) && spectrum15_fits(lines, spectrum15_at(lines, at, k - 1))
    }
}

#[verifier::rlimit(40)]
proof fn lemma_spectra15_stop(lines: Seq<Seq<char>>, at: int, k: int, n: int)
    requires
        0 <= k < n,
        spectra15_fit(lines, at, k),
        !spectrum15_fits(lines, spectrum15_at(lines, at, k)),
    ensures
        !spectra15_fit(lines, at, n),
    decreases n - k,
{
    if k + 1 < n {
        lemma_spectra15_stop_later(lines, at, k + 1, n);
    }
}

#[verifier::rlimit(40)]
proof fn lemma_spectra15_stop_later(lines: Seq<Seq<char>>, at: int, k: int, n: int)
    requires
        0 < k <= n,
        !spectra15_fit(lines, at, k),
    ensures
        !spectra15_fit(lines, at, n),
    decreases n - k,
{
    if k < n {
        lemma_spectra15_stop_later(lines, at, k + 1, n);
    }
}

/// Whether the lines from `at` hold a whole MF=15 section.
pub open spec fn mf15_fits(lines: Seq<Seq<char>>, at: int) -> bool {
    0 <= at < lines.len() && spectra15_fit(lines, at + 1, at_least_zero(int_field(lines[at], 44, 55)))
}

/// What an MF=15 section read from `lines[at]` holds.
pub open spec fn mf15_matches(d: Mf15, lines: Seq<Seq<char>>, at: int) -> bool {
    let n = at_least_zero(int_field(lines[at], 44, 55));
    &&& d.za@ == field_of(lines[at], 0, 11)
    &&& d.awr@ == field_of(lines[at], 11, 22)
    &&& d.nc == int_field(lines[at], 44, 55)
    &&& d.subsections@.len() == n
    &&& forall|k: int| 0 <= k < n ==> spectrum15_matches(#[trigger] d.subsections@[k], lines, spectrum15_at(lines, at + 1, k))
}

/// Parse an MF=15 section.
pub fn parse_mf15(reader: &mut Reader) -> (r: Result<Mf15>)
    requires
        old(reader).wf(),
    ensures
        final(reader).wf(),
        mf15_fits(old(reader).lines_view(), old(reader).position()) ==> (r matches Ok(d) && mf15_matches(
            d,
            old(reader).lines_view(),
            old(reader).position(),
        )),
        !mf15_fits(old(reader).lines_view(), old(reader).position()) ==> r is Err,
        r matches Err(e) ==> e is UnexpectedEof,
{
    let ghost lines = reader.lines_view();
    let ghost at = reader.position();
    proof {
        reader.lemma_position_nonneg();
    }
    let head = reader.cont_record()?;
    let nc = head.n1;
    let ghost count = at_least_zero(nc as int);
    let mut subsections: Vec<PhotonSpectrum> = Vec::new();
    let mut k: i64 = 0;
    while k < nc
        invariant
            reader.wf(),
            reader.lines_view() == lines,
            lines == old(reader).lines_view(),
            at == old(reader).position(),
            0 <= at < lines.len(),
            nc == int_field(lines[at], 44, 55),
            count == at_least_zero(nc as int),
            0 <= k <= count,
            reader.position() == spectrum15_at(lines, at + 1, k as int),
            spectra15_fit(lines, at + 1, k as int),
            subsections@.len() == k,
            forall|j: int| 0 <= j < k ==> spectrum15_matches(#[trigger] subsections@[j], lines, spectrum15_at(lines, at + 1, j)),
        decreases nc - k,
    {
        let x = match read_spectrum15(reader) {
            Ok(x) => x,
            Err(e) => {
                proof {
                    lemma_spectra15_stop(lines, at + 1, k as int, count);
                }
                return Err(e);
            },
        };
        subsections.push(x);
        k = k + 1;
    }
    Ok(Mf15 { za: head.c1, awr: head.c2, nc, subsections })
}

} // verus!
