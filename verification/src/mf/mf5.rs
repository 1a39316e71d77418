//! MF=5, energy distributions of secondary particles.
//!
//! Real-valued fields are kept as the text of their fields.

use vstd::prelude::*;

use crate::error::{Error, Result};
use crate::function::Tabulated2D;
use crate::mf::list::{at_least_zero, lemma_tab1s_stop, tab1_at, tab1_fits, tab1_len, tab1s_fit};
use crate::mf::mf1::tab2_len;
use crate::mf::mf4::energy_count;
use crate::records::{count_field, field_of, int_field, pairs_match, tab1_matches, Reader, Tab1};

verus! {

/// MF=5: the energy distributions of one reaction.
#[derive(Debug, Clone, PartialEq, Eq)]
pub struct Mf5 {
    pub za: String,
    pub awr: String,
    pub nk: i64,
    pub subsections: Vec<Subsection>,
}

/// One partial distribution, with the fraction of emission it accounts for.
#[derive(Debug, Clone, PartialEq, Eq)]
pub struct Subsection {
    /// Which law the distribution uses.
    pub lf: i64,
    /// Applicability: the fraction of the emission this subsection
    /// describes, as a function of incident energy.
    pub p: Tab1,
    pub distribution: EnergyDistribution,
}

/// An energy distribution, in whichever ENDF law the evaluation uses.
#[derive(Debug, Clone, PartialEq, Eq)]
pub enum EnergyDistribution {
    /// LF=1: an arbitrary tabulated function of outgoing energy.
    ArbitraryTabulated {
        e_int: Tabulated2D,
        /// Incident energies.
        energy: Vec<String>,
        /// The outgoing distribution at each incident energy.
        g: Vec<Tab1>,
    },
    /// LF=5: general evaporation spectrum.
    GeneralEvaporation { u: String, theta: Tab1, g: Tab1 },
    /// LF=7: simple Maxwellian fission spectrum.
    MaxwellEnergy { u: String, theta: Tab1 },
    /// LF=9: evaporation spectrum.
    Evaporation { u: String, theta: Tab1 },
    /// LF=11: energy-dependent Watt spectrum.
    WattEnergy { u: String, a: Tab1, b: Tab1 },
    /// LF=12: Madland-Nix fission spectrum.
    MadlandNix { efl: String, efh: String, t_m: Tab1 },
}

/// Whether this reader knows energy distribution law LF.
pub open spec fn law_known(lf: int) -> bool {
    lf == 1 || lf == 5 || lf == 7 || lf == 9 || lf == 11 || lf == 12
}

/// How many TAB1 records follow the applicability of a law other than
/// LF=1.
pub open spec fn law_tabs(lf: int) -> int {
    if lf == 5 || lf == 11 {
        2
    } else {
        1
    }
}

/// The line after the subsection at `lines[q]`.
pub open spec fn sub5_end(lines: Seq<Seq<char>>, q: int) -> int {
    let d = q + tab1_len(lines, q);
    if int_field(lines[q], 33, 44) == 1 {
        tab1_at(lines, d + tab2_len(lines, d), energy_count(lines, d))
    } else {
        tab1_at(lines, d, law_tabs(int_field(lines[q], 33, 44)))
    }
}

/// Whether the subsection at `lines[q]` is read whole: its applicability,
/// then the records of a law this reader knows.
pub open spec fn sub5_fits(lines: Seq<Seq<char>>, q: int) -> bool {
    let lf = int_field(lines[q], 33, 44);
    let d = q + tab1_len(lines, q);
    &&& tab1_fits(lines, q)
    &&& law_known(lf)
    &&& lf == 1 ==> {
        &&& d < lines.len() && d + tab2_len(lines, d) <= lines.len()
        &&& tab1s_fit(lines, d + tab2_len(lines, d), energy_count(lines, d))
    }
    &&& lf != 1 ==> tab1s_fit(lines, d, law_tabs(lf))
}

/// Whether reading the subsection at `lines[q]` meets a law this reader
/// does not know.
pub open spec fn sub5_unsupported(lines: Seq<Seq<char>>, q: int) -> bool {
    tab1_fits(lines, q) && !law_known(int_field(lines[q], 33, 44))
}

/// What the subsection read from `lines[q]` onwards holds.
pub open spec fn sub5_matches(s: Subsection, lines: Seq<Seq<char>>, q: int) -> bool {
    let d = q + tab1_len(lines, q);
    let c1 = field_of(lines[q], 0, 11);
    let c2 = field_of(lines[q], 11, 22);
    &&& s.lf == int_field(lines[q], 33, 44)
    &&& tab1_matches(s.p, lines, q)
    &&& match s.distribution {
        EnergyDistribution::ArbitraryTabulated { e_int, energy, g } => {
            let t = d + tab2_len(lines, d);
            let n = energy_count(lines, d);
            &&& s.lf == 1
            &&& pairs_match(lines, d + 1, count_field(lines[d], 44, 55), e_int.breakpoints@, e_int.interpolation@)
            &&& energy@.len() == n && g@.len() == n
            &&& forall|k: int|
                0 <= k < n ==> {
                    let p = #[trigger] tab1_at(lines, t, k);
                    &&& energy@[k]@ == field_of(lines[p], 11, 22)
                    &&& tab1_matches(g@[k], lines, p)
                }
        },
        EnergyDistribution::GeneralEvaporation { u, theta, g } => {
            &&& s.lf == 5 && u@ == c1
            &&& tab1_matches(theta, lines, d) && tab1_matches(g, lines, tab1_at(lines, d, 1))
        },
        EnergyDistribution::MaxwellEnergy { u, theta } => s.lf == 7 && u@ == c1 && tab1_matches(theta, lines, d),
        EnergyDistribution::Evaporation { u, theta } => s.lf == 9 && u@ == c1 && tab1_matches(theta, lines, d),
        EnergyDistribution::WattEnergy { u, a, b } => {
            &&& s.lf == 11 && u@ == c1
            &&& tab1_matches(a, lines, d) && tab1_matches(b, lines, tab1_at(lines, d, 1))
        },
        EnergyDistribution::MadlandNix { efl, efh, t_m } => {
            s.lf == 12 && efl@ == c1 && efh@ == c2 && tab1_matches(t_m, lines, d)
        },
    }
}

/// Read one subsection.
#[verifier::rlimit(40)]
fn read_sub5(reader: &mut Reader) -> (r: Result<Subsection>)
    requires
        old(reader).wf(),
    ensures
        final(reader).wf(),
        final(reader).lines_view() == old(reader).lines_view(),
        sub5_fits(old(reader).lines_view(), old(reader).position()) ==> {
            &&& r matches Ok(s) && sub5_matches(s, old(reader).lines_view(), old(reader).position())
            &&& final(reader).position() == sub5_end(old(reader).lines_view(), old(reader).position())
        },
        !sub5_fits(old(reader).lines_view(), old(reader).position()) ==> r is Err,
        r matches Err(e) ==> e is UnexpectedEof || e is Unsupported,
        (r matches Err(e) && e is Unsupported) <==> sub5_unsupported(
            old(reader).lines_view(),
            old(reader).position(),
        ),
{
    let ghost lines = reader.lines_view();
    let ghost q = reader.position();
    proof {
        reader.lemma_position_nonneg();
    }
    // The applicability record also carries the law and its parameters.
    let applicability = reader.tab1_record()?;
    let lf = applicability.l2;
    let c1 = applicability.c1.clone();
    let c2 = applicability.c2.clone();
    let ghost d = reader.position();
    proof {
        reveal_with_fuel(tab1s_fit, 3);
        reveal_with_fuel(tab1_at, 3);
    }
    let distribution = if lf == 1 {
        let tab2 = reader.tab2_record()?;
        let n = tab2.cont.n2;
        let ghost t = reader.position();
        let ghost count = at_least_zero(n as int);
        let mut energy: Vec<String> = Vec::new();
        let mut g: Vec<Tab1> = Vec::new();
        let mut k: i64 = 0;
        while k < n
            invariant
                reader.wf(),
                reader.lines_view() == lines,
                lines == old(reader).lines_view(),
                q == old(reader).position(),
                0 <= d < lines.len(),
                d == q + tab1_len(lines, q),
                int_field(lines[q], 33, 44) == 1,
                n == int_field(lines[d], 55, 66),
                t == d + tab2_len(lines, d),
                count == at_least_zero(n as int),
                0 <= k <= count,
                reader.position() == tab1_at(lines, t, k as int),
                tab1s_fit(lines, t, k as int),
                energy@.len() == k && g@.len() == k,
                forall|j: int|
                    0 <= j < k ==> {
                        let p = #[trigger] tab1_at(lines, t, j);
                        &&& energy@[j]@ == field_of(lines[p], 11, 22)
                        &&& tab1_matches(g@[j], lines, p)
                    },
            decreases n - k,
        {
            let tab = match reader.tab1_record() {
                Ok(t) => t,
                Err(e) => {
                    proof {
                        lemma_tab1s_stop(lines, t, k as int, count);
                    }
                    return Err(e);
                },
            };
            energy.push(tab.c2.clone());
            g.push(tab);
            k = k + 1;
        }
        EnergyDistribution::ArbitraryTabulated { e_int: tab2.table, energy, g }
    } else if lf == 5 {
        let theta = reader.tab1_record()?;
        let g = reader.tab1_record()?;
        EnergyDistribution::GeneralEvaporation { u: c1, theta, g }
    } else if lf == 7 {
        EnergyDistribution::MaxwellEnergy { u: c1, theta: reader.tab1_record()? }
    } else if lf == 9 {
        EnergyDistribution::Evaporation { u: c1, theta: reader.tab1_record()? }
    } else if lf == 11 {
        let a = reader.tab1_record()?;
        let b = reader.tab1_record()?;
        EnergyDistribution::WattEnergy { u: c1, a, b }
    } else if lf == 12 {
        EnergyDistribution::MadlandNix { efl: c1, efh: c2, t_m: reader.tab1_record()? }
    } else {
        return Err(Error::Unsupported { what: "an unrecognised MF=5 energy distribution law" });
    };
    Ok(Subsection { lf, p: applicability, distribution })
}

/// Where the `k`-th of a run of subsections from `lines[at]` starts.
pub open spec fn sub5_at(lines: Seq<Seq<char>>, at: int, k: int) -> int
    decreases k,
{
    if k <= 0 {
        at
    } else {
        sub5_end(lines, sub5_at(lines, at, k - 1))
    }
}

/// Whether `k` subsections from `lines[at]` are read whole.
pub open spec fn subs5_fit(lines: Seq<Seq<char>>, at: int, k: int) -> bool
    decreases k,
{
    if k <= 0 {
        true
    } else {
        subs5_fit(lines, at, k - 1) && sub5_fits(lines, sub5_at(lines, at, k - 1))
    }
}

/// Whether reading `n` subsections from `lines[at]` meets an unknown law.
pub open spec fn subs5_unsupported(lines: Seq<Seq<char>>, at: int, n: int) -> bool {
    exists|k: int| 0 <= k < n && #[trigger] subs5_fit(lines, at, k) && sub5_unsupported(lines, sub5_at(lines, at, k))
}

proof fn lemma_subs5_each(lines: Seq<Seq<char>>, at: int, j: int, n: int)
    requires
        0 <= j < n,
        subs5_fit(lines, at, n),
    ensures
        subs5_fit(lines, at, j),
        sub5_fits(lines, sub5_at(lines, at, j)),
    decreases n - j,
{
    if j + 1 < n {
        lemma_subs5_each(lines, at, j + 1, n);
    }
}

proof fn lemma_subs5_stop(lines: Seq<Seq<char>>, at: int, k: int, n: int)
    requires
        0 <= k < n,
        subs5_fit(lines, at, k),
        !sub5_fits(lines, sub5_at(lines, at, k)),
    ensures
        !subs5_fit(lines, at, n),
        subs5_unsupported(lines, at, n) <==> sub5_unsupported(lines, sub5_at(lines, at, k)),
{
    if subs5_fit(lines, at, n) {
        lemma_subs5_each(lines, at, k, n);
    }
    if subs5_unsupported(lines, at, n) {
        let m = choose|m: int| 0 <= m < n && #[trigger] subs5_fit(lines, at, m) && sub5_unsupported(lines, sub5_at(lines, at, m));
        if m < k {
            lemma_subs5_each(lines, at, m, k);
        } else if m > k {
            lemma_subs5_each(lines, at, k, m);
        }
    }
    if sub5_unsupported(lines, sub5_at(lines, at, k)) {
        assert(subs5_fit(lines, at, k));
    }
}

proof fn lemma_subs5_fit_supported(lines: Seq<Seq<char>>, at: int, n: int)
    requires
        subs5_fit(lines, at, n),
    ensures
        !subs5_unsupported(lines, at, n),
{
    assert forall|k: int| 0 <= k < n && #[trigger] subs5_fit(lines, at, k) implies !sub5_unsupported(
        lines,
        sub5_at(lines, at, k),
    ) by {
        lemma_subs5_each(lines, at, k, n);
    }
}

/// Whether the lines from `at` hold a whole MF=5 section in laws this
/// reader knows: its HEAD record and NK subsections.
pub open spec fn mf5_fits(lines: Seq<Seq<char>>, at: int) -> bool {
    0 <= at < lines.len() && subs5_fit(lines, at + 1, at_least_zero(int_field(lines[at], 44, 55)))
}

/// What an MF=5 section read from `lines[at]` holds.
pub open spec fn mf5_matches(d: Mf5, lines: Seq<Seq<char>>, at: int) -> bool {
    let n = at_least_zero(int_field(lines[at], 44, 55));
    &&& d.za@ == field_of(lines[at], 0, 11)
    &&& d.awr@ == field_of(lines[at], 11, 22)
    &&& d.nk == int_field(lines[at], 44, 55)
    &&& d.subsections@.len() == n
    &&& forall|k: int| 0 <= k < n ==> sub5_matches(#[trigger] d.subsections@[k], lines, sub5_at(lines, at + 1, k))
}

/// Parse an MF=5 section.
pub fn parse_mf5(reader: &mut Reader) -> (r: Result<Mf5>)
    requires
        old(reader).wf(),
    ensures
        final(reader).wf(),
        mf5_fits(old(reader).lines_view(), old(reader).position()) ==> (r matches Ok(d) && mf5_matches(
            d,
            old(reader).lines_view(),
            old(reader).position(),
        )),
        !mf5_fits(old(reader).lines_view(), old(reader).position()) ==> r is Err,
        r matches Err(e) ==> e is UnexpectedEof || e is Unsupported,
        (r matches Err(e) && e is Unsupported) <==> ({
            let lines = old(reader).lines_view();
            let at = old(reader).position();
            0 <= at < lines.len() && subs5_unsupported(lines, at + 1, at_least_zero(int_field(lines[at], 44, 55)))
        }),
{
    let ghost lines = reader.lines_view();
    let ghost at = reader.position();
    proof {
        reader.lemma_position_nonneg();
    }
    let head = reader.cont_record()?;
    let nk = head.n1;
    let ghost count = at_least_zero(nk as int);
    let mut subsections: Vec<Subsection> = Vec::new();
    let mut k: i64 = 0;
    while k < nk
        invariant
            reader.wf(),
            reader.lines_view() == lines,
            lines == old(reader).lines_view(),
            at == old(reader).position(),
            0 <= at < lines.len(),
            nk == int_field(lines[at], 44, 55),
            count == at_least_zero(nk as int),
            0 <= k <= count,
            reader.position() == sub5_at(lines, at + 1, k as int),
            subs5_fit(lines, at + 1, k as int),
            subsections@.len() == k,
            forall|j: int| 0 <= j < k ==> sub5_matches(#[trigger] subsections@[j], lines, sub5_at(lines, at + 1, j)),
        decreases nk - k,
    {
        let s = match read_sub5(reader) {
            Ok(s) => s,
            Err(e) => {
                proof {
                    lemma_subs5_stop(lines, at + 1, k as int, count);
                }
                return Err(e);
            },
        };
        subsections.push(s);
        k = k + 1;
    }
    proof {
        lemma_subs5_fit_supported(lines, at + 1, count);
    }
    Ok(Mf5 { za: head.c1, awr: head.c2, nk, subsections })
}

} // verus!
