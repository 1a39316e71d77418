//! MF=4, angular distributions of secondary particles.
//!
//! Real-valued fields are kept as the text of their fields.

use vstd::prelude::*;

use crate::error::Result;
use crate::function::Tabulated2D;
use crate::mf::list::{at_least_zero, lemma_lists_stop, lemma_tab1s_stop, list_at, lists_fit, tab1_at, tab1s_fit};
use crate::mf::mf1::tab2_len;
use crate::records::{
    count_exec, count_field, count_of, field_of, int_field, lines_for, pairs_match, tab1_matches, values_match, Reader, Tab1,
};

verus! {

/// Angular distributions given as Legendre coefficients (LTT=1).
#[derive(Debug, Clone, PartialEq, Eq)]
pub struct LegendreAngles {
    /// Interpolation across incident energy.
    pub e_int: Tabulated2D,
    /// Temperature. The format gives one per incident energy; only the last
    /// is kept.
    pub t: String,
    /// Test flag, likewise the last one read.
    pub lt: i64,
    /// Incident energies.
    pub energy: Vec<String>,
    /// Legendre coefficients at each incident energy, `a_1` upward: the
    /// `a_0 = 1` term the format omits is not inserted here.
    pub a_l: Vec<Vec<String>>,
}

/// Angular distributions given as tabulated probabilities (LTT=2).
#[derive(Debug, Clone, PartialEq, Eq)]
pub struct TabulatedAngles {
    pub e_int: Tabulated2D,
    pub t: String,
    pub lt: i64,
    pub energy: Vec<String>,
    /// The distribution of the scattering cosine at each incident energy.
    pub mu: Vec<Tab1>,
}

/// MF=4: the angular distribution of one reaction's secondary particle.
#[derive(Debug, Clone, PartialEq, Eq)]
pub struct Mf4 {
    pub za: String,
    pub awr: String,
    /// 0 isotropic, 1 Legendre, 2 tabulated, 3 Legendre then tabulated.
    pub ltt: i64,
    /// 1 when the distribution is isotropic at every energy.
    pub li: i64,
    /// 1 laboratory frame, 2 centre-of-mass.
    pub lct: i64,
    /// Present for LTT=1 and LTT=3.
    pub legendre: Option<LegendreAngles>,
    /// Present for LTT=2 and LTT=3.
    pub tabulated: Option<TabulatedAngles>,
    /// True when the obsolete energy transformation matrix was present and
    /// passed over.
    pub had_transformation_matrix: bool,
}

/// How many incident energies the TAB2 record at `lines[q]` announces.
pub open spec fn energy_count(lines: Seq<Seq<char>>, q: int) -> int {
    at_least_zero(int_field(lines[q], 55, 66))
}

/// The line after the Legendre coefficients at `lines[q]`: a TAB2 record
/// and one LIST record per incident energy.
pub open spec fn legendre_end(lines: Seq<Seq<char>>, q: int) -> int {
    list_at(lines, q + tab2_len(lines, q), energy_count(lines, q))
}

/// Whether the Legendre coefficients at `lines[q]` fit.
pub open spec fn legendre_fits(lines: Seq<Seq<char>>, q: int) -> bool {
    &&& 0 <= q < lines.len()
    &&& q + tab2_len(lines, q) <= lines.len()
    &&& lists_fit(lines, q + tab2_len(lines, q), energy_count(lines, q))
}

/// What the Legendre coefficients read from `lines[q]` onwards hold.
pub open spec fn legendre_matches(d: LegendreAngles, lines: Seq<Seq<char>>, q: int) -> bool {
    let n = energy_count(lines, q);
    let s = q + tab2_len(lines, q);
    &&& pairs_match(lines, q + 1, count_field(lines[q], 44, 55), d.e_int.breakpoints@, d.e_int.interpolation@)
    &&& d.energy@.len() == n && d.a_l@.len() == n
    &&& forall|k: int|
        0 <= k < n ==> {
            let p = #[trigger] list_at(lines, s, k);
            &&& d.energy@[k]@ == field_of(lines[p], 11, 22)
            &&& values_match(lines, p + 1, count_field(lines[p], 44, 55), d.a_l@[k]@)
        }
    &&& if n > 0 {
        let last = list_at(lines, s, n - 1);
        d.t@ == field_of(lines[last], 0, 11) && d.lt == int_field(lines[last], 22, 33)
    } else {
        d.t@.len() == 0 && d.lt == 0
    }
}

/// The line after the tabulated distributions at `lines[q]`: a TAB2 record
/// and one TAB1 record per incident energy.
pub open spec fn tabulated_end(lines: Seq<Seq<char>>, q: int) -> int {
    tab1_at(lines, q + tab2_len(lines, q), energy_count(lines, q))
}

/// Whether the tabulated distributions at `lines[q]` fit.
pub open spec fn tabulated_fits(lines: Seq<Seq<char>>, q: int) -> bool {
    &&& 0 <= q < lines.len()
    &&& q + tab2_len(lines, q) <= lines.len()
    &&& tab1s_fit(lines, q + tab2_len(lines, q), energy_count(lines, q))
}

/// What the tabulated distributions read from `lines[q]` onwards hold.
pub open spec fn tabulated_matches(d: TabulatedAngles, lines: Seq<Seq<char>>, q: int) -> bool {
    let n = energy_count(lines, q);
    let s = q + tab2_len(lines, q);
    &&& pairs_match(lines, q + 1, count_field(lines[q], 44, 55), d.e_int.breakpoints@, d.e_int.interpolation@)
    &&& d.energy@.len() == n && d.mu@.len() == n
    &&& forall|k: int|
        0 <= k < n ==> {
            let p = #[trigger] tab1_at(lines, s, k);
            &&& d.energy@[k]@ == field_of(lines[p], 11, 22)
            &&& tab1_matches(d.mu@[k], lines, p)
        }
    &&& if n > 0 {
        let last = tab1_at(lines, s, n - 1);
        d.t@ == field_of(lines[last], 0, 11) && d.lt == int_field(lines[last], 22, 33)
    } else {
        d.t@.len() == 0 && d.lt == 0
    }
}

fn parse_legendre(reader: &mut Reader) -> (r: Result<LegendreAngles>)
    requires
        old(reader).wf(),
    ensures
        final(reader).wf(),
        final(reader).lines_view() == old(reader).lines_view(),
        r matches Err(e) ==> e is UnexpectedEof,
        legendre_fits(old(reader).lines_view(), old(reader).position()) ==> {
            &&& r matches Ok(d) && legendre_matches(d, old(reader).lines_view(), old(reader).position())
            &&& final(reader).position() == legendre_end(old(reader).lines_view(), old(reader).position())
        },
        !legendre_fits(old(reader).lines_view(), old(reader).position()) ==> r is Err,
{
    let ghost lines = reader.lines_view();
    let ghost q = reader.position();
    proof {
        reader.lemma_position_nonneg();
    }
    let tab2 = reader.tab2_record()?;
    let n = tab2.cont.n2;
    let ghost s = reader.position();
    let ghost count = at_least_zero(n as int);
    let mut t = String::new();
    let mut lt: i64 = 0;
    let mut energy: Vec<String> = Vec::new();
    let mut a_l: Vec<Vec<String>> = Vec::new();
    let mut k: i64 = 0;
    while k < n
        invariant
            reader.wf(),
            reader.lines_view() == lines,
            lines == old(reader).lines_view(),
            q == old(reader).position(),
            0 <= q < lines.len(),
            n == int_field(lines[q], 55, 66),
            s == q + tab2_len(lines, q),
            count == at_least_zero(n as int),
            0 <= k <= count,
            reader.position() == list_at(lines, s, k as int),
            lists_fit(lines, s, k as int),
            energy@.len() == k && a_l@.len() == k,
            forall|j: int|
                0 <= j < k ==> {
                    let p = #[trigger] list_at(lines, s, j);
                    &&& energy@[j]@ == field_of(lines[p], 11, 22)
                    &&& values_match(lines, p + 1, count_field(lines[p], 44, 55), a_l@[j]@)
                },
            if k > 0 {
                let last = list_at(lines, s, k - 1);
                t@ == field_of(lines[last], 0, 11) && lt == int_field(lines[last], 22, 33)
            } else {
                t@.len() == 0 && lt == 0
            },
        decreases n - k,
    {
        let list = match reader.list_record() {
            Ok(l) => l,
            Err(e) => {
                proof {
                    lemma_lists_stop(lines, s, k as int, count);
                }
                return Err(e);
            },
        };
        // T and LT are per incident energy in the format but only one slot
        // is kept, so the last wins.
        t = list.cont.c1;
        lt = list.cont.l1;
        energy.push(list.cont.c2);
        a_l.push(list.values);
        k = k + 1;
    }
    Ok(LegendreAngles { e_int: tab2.table, t, lt, energy, a_l })
}

fn parse_tabulated(reader: &mut Reader) -> (r: Result<TabulatedAngles>)
    requires
        old(reader).wf(),
    ensures
        final(reader).wf(),
        final(reader).lines_view() == old(reader).lines_view(),
        r matches Err(e) ==> e is UnexpectedEof,
        tabulated_fits(old(reader).lines_view(), old(reader).position()) ==> {
            &&& r matches Ok(d) && tabulated_matches(d, old(reader).lines_view(), old(reader).position())
            &&& final(reader).position() == tabulated_end(old(reader).lines_view(), old(reader).position())
        },
        !tabulated_fits(old(reader).lines_view(), old(reader).position()) ==> r is Err,
{
    let ghost lines = reader.lines_view();
    let ghost q = reader.position();
    proof {
        reader.lemma_position_nonneg();
    }
    let tab2 = reader.tab2_record()?;
    let n = tab2.cont.n2;
    let ghost s = reader.position();
    let ghost count = at_least_zero(n as int);
    let mut t = String::new();
    let mut lt: i64 = 0;
    let mut energy: Vec<String> = Vec::new();
    let mut mu: Vec<Tab1> = Vec::new();
    let mut k: i64 = 0;
    while k < n
        invariant
            reader.wf(),
            reader.lines_view() == lines,
            lines == old(reader).lines_view(),
            q == old(reader).position(),
            0 <= q < lines.len(),
            n == int_field(lines[q], 55, 66),
            s == q + tab2_len(lines, q),
            count == at_least_zero(n as int),
            0 <= k <= count,
            reader.position() == tab1_at(lines, s, k as int),
            tab1s_fit(lines, s, k as int),
            energy@.len() == k && mu@.len() == k,
            forall|j: int|
                0 <= j < k ==> {
                    let p = #[trigger] tab1_at(lines, s, j);
                    &&& energy@[j]@ == field_of(lines[p], 11, 22)
                    &&& tab1_matches(mu@[j], lines, p)
                },
            if k > 0 {
                let last = tab1_at(lines, s, k - 1);
                t@ == field_of(lines[last], 0, 11) && lt == int_field(lines[last], 22, 33)
            } else {
                t@.len() == 0 && lt == 0
            },
        decreases n - k,
    {
        let tab = match reader.tab1_record() {
            Ok(t) => t,
            Err(e) => {
                proof {
                    lemma_tab1s_stop(lines, s, k as int, count);
                }
                return Err(e);
            },
        };
        t = tab.c1.clone();
        lt = tab.l1;
        energy.push(tab.c2.clone());
        mu.push(tab);
        k = k + 1;
    }
    Ok(TabulatedAngles { e_int: tab2.table, t, lt, energy, mu })
}

/// Where the distributions of an MF=4 section at `lines[at]` start: after
/// the HEAD and CONT records and, for LVT > 0, the obsolete transformation
/// matrix of NK values.
pub open spec fn mf4_body(lines: Seq<Seq<char>>, at: int) -> int {
    if int_field(lines[at], 22, 33) > 0 {
        at + 2 + lines_for(count_of(int_field(lines[at + 1], 44, 55)), 6)
    } else {
        at + 2
    }
}

/// Whether the lines from `at` hold a whole MF=4 section.
pub open spec fn mf4_fits(lines: Seq<Seq<char>>, at: int) -> bool {
    let ltt = int_field(lines[at], 33, 44);
    let li = int_field(lines[at + 1], 22, 33);
    let b = mf4_body(lines, at);
    &&& 0 <= at
    &&& at + 1 < lines.len()
    &&& b <= lines.len()
    &&& (ltt == 1 || ltt == 3) && li == 0 ==> legendre_fits(lines, b)
    &&& ltt == 2 && li == 0 ==> tabulated_fits(lines, b)
    &&& ltt == 3 && li == 0 ==> tabulated_fits(lines, legendre_end(lines, b))
}

/// What an MF=4 section read from `lines[at]` holds.
pub open spec fn mf4_matches(d: Mf4, lines: Seq<Seq<char>>, at: int) -> bool {
    let b = mf4_body(lines, at);
    &&& d.za@ == field_of(lines[at], 0, 11)
    &&& d.awr@ == field_of(lines[at], 11, 22)
    &&& d.ltt == int_field(lines[at], 33, 44)
    &&& d.li == int_field(lines[at + 1], 22, 33)
    &&& d.lct == int_field(lines[at + 1], 33, 44)
    &&& d.had_transformation_matrix == (int_field(lines[at], 22, 33) > 0)
    &&& if (d.ltt == 1 || d.ltt == 3) && d.li == 0 {
        d.legendre matches Some(l) && legendre_matches(l, lines, b)
    } else {
        d.legendre is None
    }
    &&& if d.ltt == 2 && d.li == 0 {
        d.tabulated matches Some(t) && tabulated_matches(t, lines, b)
    } else if d.ltt == 3 && d.li == 0 {
        d.tabulated matches Some(t) && tabulated_matches(t, lines, legendre_end(lines, b))
    } else {
        d.tabulated is None
    }
}

/// Parse an MF=4 section.
#[verifier::rlimit(40)]
pub fn parse_mf4(reader: &mut Reader) -> (r: Result<Mf4>)
    requires
        old(reader).wf(),
    ensures
        final(reader).wf(),
        mf4_fits(old(reader).lines_view(), old(reader).position()) ==> (r matches Ok(d) && mf4_matches(
            d,
            old(reader).lines_view(),
            old(reader).position(),
        )),
        !mf4_fits(old(reader).lines_view(), old(reader).position()) ==> r is Err,
        r matches Err(e) ==> e is UnexpectedEof,
{
    proof {
        reader.lemma_position_nonneg();
    }
    let head = reader.cont_record()?;
    let lvt = head.l1;
    let ltt = head.l2;
    let c = reader.cont_record()?;
    let li = c.l1;
    let lct = c.l2;
    let nk = c.n1;

    // The energy transformation matrix was removed from the format long
    // ago. Evaluations that still carry one are read past.
    let had_transformation_matrix = lvt > 0;
    if lvt > 0 {
        let n: usize = count_exec(nk);
        let rows = n / 6 + if n % 6 == 0 {
            0
        } else {
            1
        };
        reader.skip_lines(rows)?;
    }

    let mut legendre: Option<LegendreAngles> = None;
    let mut tabulated: Option<TabulatedAngles> = None;
    if li == 0 {
        if ltt == 1 {
            legendre = Some(parse_legendre(reader)?);
        } else if ltt == 2 {
            tabulated = Some(parse_tabulated(reader)?);
        } else if ltt == 3 {
            legendre = Some(parse_legendre(reader)?);
            tabulated = Some(parse_tabulated(reader)?);
        }
    }
    Ok(Mf4 { za: head.c1, awr: head.c2, ltt, li, lct, legendre, tabulated, had_transformation_matrix })
}

} // verus!
