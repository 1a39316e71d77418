//! MF=7, thermal neutron scattering law data.
//!
//! Real-valued fields are kept as the text of their fields. Whether an MT=4
//! section tabulates S(alpha, beta), and which atoms carry an effective
//! temperature, depends on real values of its B list; the reading of the
//! tabulation itself is here.

use vstd::prelude::*;

use crate::error::{Error, Result};
use crate::function::Tabulated2D;
use crate::mf::list::{
    at_least_zero, column, column_matches, lemma_items, lemma_lists_stop, lemma_tab1s_stop, list_at, list_fits, list_len,
    lists_fit, tab1_at, tab1_fits, tab1_len, tab1s_fit,
};
use crate::mf::mf1::tab2_len;
use crate::mf::mf4::energy_count;
use crate::mf::mf6::tab2_matches;
use crate::records::{count_field, field_of, int_field, tab1_matches, values_match, Reader, Tab1};

verus! {

/// Coherent elastic scattering: the structure factor at the first
/// temperature, then at the others.
#[derive(Debug, Clone, PartialEq, Eq)]
pub struct CoherentElastic {
    pub t: String,
    pub lt: i64,
    pub s: Tab1,
    pub others: Vec<CoherentElasticTemperature>,
}

/// The structure factor at one further temperature.
#[derive(Debug, Clone, PartialEq, Eq)]
pub struct CoherentElasticTemperature {
    pub t: String,
    pub li: i64,
    pub s: Vec<String>,
}

/// Incoherent elastic scattering.
#[derive(Debug, Clone, PartialEq, Eq)]
pub struct IncoherentElastic {
    pub sb: String,
    pub w: Tab1,
}

/// MF=7 MT=2: thermal elastic scattering.
#[derive(Debug, Clone, PartialEq, Eq)]
pub struct Mf7Mt2 {
    pub za: String,
    pub awr: String,
    pub lthr: i64,
    pub coherent: Option<CoherentElastic>,
    pub incoherent: Option<IncoherentElastic>,
}

/// S(alpha, beta) at one beta: the first temperature, then the others.
#[derive(Debug, Clone, PartialEq, Eq)]
pub struct ScatteringLaw {
    pub t: String,
    pub beta: String,
    pub lt: i64,
    pub s: Tab1,
    pub others: Vec<ScatteringLawTemperature>,
}

/// S(alpha, beta) at one beta and one further temperature.
#[derive(Debug, Clone, PartialEq, Eq)]
pub struct ScatteringLawTemperature {
    pub t: String,
    pub beta: String,
    /// The LT of the first temperature's record: each further record's own
    /// LI is not kept.
    pub lt: i64,
    pub s: Vec<String>,
}

/// MF=7 MT=4: incoherent inelastic scattering.
#[derive(Debug, Clone, PartialEq, Eq)]
pub struct Mf7Mt4 {
    pub za: String,
    pub awr: String,
    pub lat: i64,
    pub lasym: i64,
    pub lln: i64,
    pub ni: i64,
    pub ns: i64,
    pub b: Vec<String>,
    pub beta_int: Option<Tabulated2D>,
    pub nb: i64,
    pub beta_data: Vec<ScatteringLaw>,
    pub teff: Vec<Tab1>,
}

/// One element of a thermal scattering material.
#[derive(Debug, Clone, PartialEq, Eq)]
pub struct ThermalElement {
    pub nas: i64,
    pub ni: i64,
    pub zai: Vec<String>,
    pub lisi: Vec<String>,
    pub afi: Vec<String>,
    pub awri: Vec<String>,
    pub sfi: Vec<String>,
}

/// MF=7 MT=451: the elements of a thermal scattering material.
#[derive(Debug, Clone, PartialEq, Eq)]
pub struct Mf7Mt451 {
    pub za: String,
    pub awr: String,
    pub na: i64,
    pub elements: Vec<ThermalElement>,
}

/// The line after a TAB1 record at `lines[q]` and the LT LIST records of
/// further temperatures that follow it.
pub open spec fn temperatures_end(lines: Seq<Seq<char>>, q: int) -> int {
    list_at(lines, q + tab1_len(lines, q), at_least_zero(int_field(lines[q], 22, 33)))
}

/// Whether that TAB1 record and its LIST records fit.
pub open spec fn temperatures_fit(lines: Seq<Seq<char>>, q: int) -> bool {
    &&& tab1_fits(lines, q)
    &&& lists_fit(lines, q + tab1_len(lines, q), at_least_zero(int_field(lines[q], 22, 33)))
}

/// What coherent elastic scattering read from `lines[q]` onwards holds.
pub open spec fn coherent_matches(c: CoherentElastic, lines: Seq<Seq<char>>, q: int) -> bool {
    let s = q + tab1_len(lines, q);
    let n = at_least_zero(int_field(lines[q], 22, 33));
    &&& tab1_matches(c.s, lines, q)
    &&& c.t == c.s.c1 && c.lt == c.s.l1
    &&& c.others@.len() == n
    &&& forall|k: int|
        0 <= k < n ==> {
            let p = #[trigger] list_at(lines, s, k);
            let o = c.others@[k];
            &&& o.t@ == field_of(lines[p], 0, 11)
            &&& o.li == int_field(lines[p], 22, 33)
            &&& values_match(lines, p + 1, count_field(lines[p], 44, 55), o.s@)
        }
}

fn parse_coherent(reader: &mut Reader) -> (r: Result<CoherentElastic>)
    requires
        old(reader).wf(),
    ensures
        final(reader).wf(),
        final(reader).lines_view() == old(reader).lines_view(),
        r matches Err(e) ==> e is UnexpectedEof,
        temperatures_fit(old(reader).lines_view(), old(reader).position()) ==> {
            &&& r matches Ok(c) && coherent_matches(c, old(reader).lines_view(), old(reader).position())
            &&& final(reader).position() == temperatures_end(old(reader).lines_view(), old(reader).position())
        },
        !temperatures_fit(old(reader).lines_view(), old(reader).position()) ==> r is Err,
{
    let ghost lines = reader.lines_view();
    let ghost q = reader.position();
    proof {
        reader.lemma_position_nonneg();
    }
    let tab = reader.tab1_record()?;
    let lt = tab.l1;
    let ghost s = reader.position();
    let ghost count = at_least_zero(lt as int);
    let mut others: Vec<CoherentElasticTemperature> = Vec::new();
    let mut k: i64 = 0;
    while k < lt
        invariant
            reader.wf(),
            reader.lines_view() == lines,
            lines == old(reader).lines_view(),
            q == old(reader).position(),
            0 <= q < lines.len(),
            lt == int_field(lines[q], 22, 33),
            s == q + tab1_len(lines, q),
            count == at_least_zero(lt as int),
            0 <= k <= count,
            reader.position() == list_at(lines, s, k as int),
            lists_fit(lines, s, k as int),
            others@.len() == k,
            forall|j: int|
                0 <= j < k ==> {
                    let p = #[trigger] list_at(lines, s, j);
                    let o = others@[j];
                    &&& o.t@ == field_of(lines[p], 0, 11)
                    &&& o.li == int_field(lines[p], 22, 33)
                    &&& values_match(lines, p + 1, count_field(lines[p], 44, 55), o.s@)
                },
        decreases lt - k,
    {
        let list = match reader.list_record() {
            Ok(l) => l,
            Err(e) => {
                proof {
                    lemma_lists_stop(lines, s, k as int, count);
                }
                return Err(e);
            },
        };
        others.push(CoherentElasticTemperature { t: list.cont.c1, li: list.cont.l1, s: list.values });
        k = k + 1;
    }
    Ok(CoherentElastic { t: tab.c1.clone(), lt, s: tab, others })
}

/// Whether the lines from `at` hold a whole MF=7 MT=2 section.
pub open spec fn mf7_mt2_fits(lines: Seq<Seq<char>>, at: int) -> bool {
    let lthr = int_field(lines[at], 22, 33);
    let p = at + 1;
    &&& 0 <= at < lines.len()
    &&& (lthr == 1 || lthr == 3) ==> temperatures_fit(lines, p)
    &&& lthr == 2 ==> tab1_fits(lines, p)
    &&& lthr == 3 ==> tab1_fits(lines, temperatures_end(lines, p))
}

/// What an MF=7 MT=2 section read from `lines[at]` holds.
pub open spec fn mf7_mt2_matches(d: Mf7Mt2, lines: Seq<Seq<char>>, at: int) -> bool {
    let p = at + 1;
    let i = if d.lthr == 2 {
        p
    } else {
        temperatures_end(lines, p)
    };
    &&& d.za@ == field_of(lines[at], 0, 11)
    &&& d.awr@ == field_of(lines[at], 11, 22)
    &&& d.lthr == int_field(lines[at], 22, 33)
    &&& if d.lthr == 1 || d.lthr == 3 {
        d.coherent matches Some(c) && coherent_matches(c, lines, p)
    } else {
        d.coherent is None
    }
    &&& if d.lthr == 2 || d.lthr == 3 {
        d.incoherent matches Some(x) && tab1_matches(x.w, lines, i) && x.sb == x.w.c1
    } else {
        d.incoherent is None
    }
}

/// Parse MF=7 MT=2.
pub fn parse_mf7_mt2(reader: &mut Reader) -> (r: Result<Mf7Mt2>)
    requires
        old(reader).wf(),
    ensures
        final(reader).wf(),
        mf7_mt2_fits(old(reader).lines_view(), old(reader).position()) ==> (r matches Ok(d) && mf7_mt2_matches(
            d,
            old(reader).lines_view(),
            old(reader).position(),
        )),
        !mf7_mt2_fits(old(reader).lines_view(), old(reader).position()) ==> r is Err,
        r matches Err(e) ==> e is UnexpectedEof,
{
    proof {
        reader.lemma_position_nonneg();
    }
    let head = reader.cont_record()?;
    let lthr = head.l1;
    let coherent = if lthr == 1 || lthr == 3 {
        Some(parse_coherent(reader)?)
    } else {
        None
    };
    let incoherent = if lthr == 2 || lthr == 3 {
        let tab = reader.tab1_record()?;
        Some(IncoherentElastic { sb: tab.c1.clone(), w: tab })
    } else {
        None
    };
    Ok(Mf7Mt2 { za: head.c1, awr: head.c2, lthr, coherent, incoherent })
}

/// What S(alpha, beta) at one beta read from `lines[q]` onwards holds.
pub open spec fn law_matches(x: ScatteringLaw, lines: Seq<Seq<char>>, q: int) -> bool {
    let s = q + tab1_len(lines, q);
    let n = at_least_zero(int_field(lines[q], 22, 33));
    &&& tab1_matches(x.s, lines, q)
    &&& x.t == x.s.c1 && x.beta == x.s.c2 && x.lt == x.s.l1
    &&& x.others@.len() == n
    &&& forall|k: int|
        0 <= k < n ==> {
            let p = #[trigger] list_at(lines, s, k);
            let o = x.others@[k];
            &&& o.t@ == field_of(lines[p], 0, 11)
            &&& o.beta@ == field_of(lines[p], 11, 22)
            &&& o.lt == x.lt
            &&& values_match(lines, p + 1, count_field(lines[p], 44, 55), o.s@)
        }
}

fn read_law(reader: &mut Reader) -> (r: Result<ScatteringLaw>)
    requires
        old(reader).wf(),
    ensures
        final(reader).wf(),
        final(reader).lines_view() == old(reader).lines_view(),
        r matches Err(e) ==> e is UnexpectedEof,
        temperatures_fit(old(reader).lines_view(), old(reader).position()) ==> {
            &&& r matches Ok(x) && law_matches(x, old(reader).lines_view(), old(reader).position())
            &&& final(reader).position() == temperatures_end(old(reader).lines_view(), old(reader).position())
        },
        !temperatures_fit(old(reader).lines_view(), old(reader).position()) ==> r is Err,
{
    let ghost lines = reader.lines_view();
    let ghost q = reader.position();
    proof {
        reader.lemma_position_nonneg();
    }
    let tab = reader.tab1_record()?;
    let lt = tab.l1;
    let ghost s = reader.position();
    let ghost count = at_least_zero(lt as int);
    let mut others: Vec<ScatteringLawTemperature> = Vec::new();
    let mut k: i64 = 0;
    while k < lt
        invariant
            reader.wf(),
            reader.lines_view() == lines,
            lines == old(reader).lines_view(),
            q == old(reader).position(),
            0 <= q < lines.len(),
            lt == int_field(lines[q], 22, 33),
            s == q + tab1_len(lines, q),
            count == at_least_zero(lt as int),
            0 <= k <= count,
            reader.position() == list_at(lines, s, k as int),
            lists_fit(lines, s, k as int),
            others@.len() == k,
            forall|j: int|
                0 <= j < k ==> {
                    let p = #[trigger] list_at(lines, s, j);
                    let o = others@[j];
                    &&& o.t@ == field_of(lines[p], 0, 11)
                    &&& o.beta@ == field_of(lines[p], 11, 22)
                    &&& o.lt == lt
                    &&& values_match(lines, p + 1, count_field(lines[p], 44, 55), o.s@)
                },
        decreases lt - k,
    {
        let list = match reader.list_record() {
            Ok(l) => l,
            Err(e) => {
                proof {
                    lemma_lists_stop(lines, s, k as int, count);
                }
                return Err(e);
            },
        };
        // The record's own LI is not kept; the outer LT is stored instead.
        others.push(ScatteringLawTemperature { t: list.cont.c1, beta: list.cont.c2, lt, s: list.values });
        k = k + 1;
    }
    Ok(ScatteringLaw { t: tab.c1.clone(), beta: tab.c2.clone(), lt, s: tab, others })
}

/// Where the `k`-th of a run of betas from `lines[at]` starts.
pub open spec fn law_at(lines: Seq<Seq<char>>, at: int, k: int) -> int
    decreases k,
{
    if k <= 0 {
        at
    } else {
        temperatures_end(lines, law_at(lines, at, k - 1))
    }
}

/// Whether `k` betas from `lines[at]` fit.
pub open spec fn laws_fit(lines: Seq<Seq<char>>, at: int, k: int) -> bool
    decreases k,
{
    if k <= 0 {
        true
    } else {
        laws_fit(lines, at, k - 1) && temperatures_fit(lines, law_at(lines, at, k - 1))
    }
}

proof fn lemma_laws_stop(lines: Seq<Seq<char>>, at: int, k: int, n: int)
    requires
        0 <= k < n,
        laws_fit(lines, at, k),
        !temperatures_fit(lines, law_at(lines, at, k)),
    ensures
        !laws_fit(lines, at, n),
    decreases n - k,
{
    if k + 1 < n {
        lemma_laws_stop_later(lines, at, k + 1, n);
    }
}

proof fn lemma_laws_stop_later(lines: Seq<Seq<char>>, at: int, k: int, n: int)
    requires
        0 < k <= n,
        !laws_fit(lines, at, k),
    ensures
        !laws_fit(lines, at, n),
    decreases n - k,
{
    if k < n {
        lemma_laws_stop_later(lines, at, k + 1, n);
    }
}

/// The line after the tabulated S(alpha, beta) at `lines[q]`: a TAB2
/// record and NB betas.
pub open spec fn scattering_laws_end(lines: Seq<Seq<char>>, q: int) -> int {
    law_at(lines, q + tab2_len(lines, q), energy_count(lines, q))
}

/// Whether the tabulated S(alpha, beta) at `lines[q]` fits.
pub open spec fn scattering_laws_fit(lines: Seq<Seq<char>>, q: int) -> bool {
    &&& 0 <= q < lines.len()
    &&& q + tab2_len(lines, q) <= lines.len()
    &&& laws_fit(lines, q + tab2_len(lines, q), energy_count(lines, q))
}

/// The tabulated S(alpha, beta) of an MF=7 MT=4 section whose B list says
/// that the principal atom has one: the interpolation across beta, NB, and
/// the betas.
pub fn parse_scattering_laws(reader: &mut Reader) -> (r: Result<(Tabulated2D, i64, Vec<ScatteringLaw>)>)
    requires
        old(reader).wf(),
    ensures
        final(reader).wf(),
        final(reader).lines_view() == old(reader).lines_view(),
        r matches Err(e) ==> e is UnexpectedEof,
        scattering_laws_fit(old(reader).lines_view(), old(reader).position()) ==> {
            let lines = old(reader).lines_view();
            let q = old(reader).position();
            let s = q + tab2_len(lines, q);
            &&& r matches Ok((t, nb, v)) && tab2_matches(t, lines, q) && nb == int_field(lines[q], 55, 66)
                && v@.len() == energy_count(lines, q) && forall|k: int|
                0 <= k < v@.len() ==> law_matches(#[trigger] v@[k], lines, law_at(lines, s, k))
            &&& final(reader).position() == scattering_laws_end(lines, q)
        },
        !scattering_laws_fit(old(reader).lines_view(), old(reader).position()) ==> r is Err,
{
    let ghost lines = reader.lines_view();
    let ghost q = reader.position();
    proof {
        reader.lemma_position_nonneg();
    }
    let tab2 = reader.tab2_record()?;
    let nb = tab2.cont.n2;
    let ghost s = reader.position();
    let ghost count = at_least_zero(nb as int);
    let mut laws: Vec<ScatteringLaw> = Vec::new();
    let mut k: i64 = 0;
    while k < nb
        invariant
            reader.wf(),
            reader.lines_view() == lines,
            lines == old(reader).lines_view(),
            q == old(reader).position(),
            0 <= q < lines.len(),
            nb == int_field(lines[q], 55, 66),
            s == q + tab2_len(lines, q),
            count == at_least_zero(nb as int),
            0 <= k <= count,
            reader.position() == law_at(lines, s, k as int),
            laws_fit(lines, s, k as int),
            laws@.len() == k,
            forall|j: int| 0 <= j < k ==> law_matches(#[trigger] laws@[j], lines, law_at(lines, s, j)),
        decreases nb - k,
    {
        let x = match read_law(reader) {
            Ok(x) => x,
            Err(e) => {
                proof {
                    lemma_laws_stop(lines, s, k as int, count);
                }
                return Err(e);
            },
        };
        laws.push(x);
        k = k + 1;
    }
    Ok((tab2.table, nb, laws))
}

/// Whether the HEAD record and the B list of an MF=7 MT=4 section stand
/// from `lines[at]`.
pub open spec fn mf7_mt4_start_fits(lines: Seq<Seq<char>>, at: int) -> bool {
    0 <= at < lines.len() && list_fits(lines, at + 1)
}

/// What the HEAD record and the B list of an MF=7 MT=4 section at
/// `lines[at]` hold; nothing after them is read yet.
pub open spec fn mf7_mt4_start_matches(d: Mf7Mt4, lines: Seq<Seq<char>>, at: int) -> bool {
    let l = lines[at + 1];
    &&& d.za@ == field_of(lines[at], 0, 11)
    &&& d.awr@ == field_of(lines[at], 11, 22)
    &&& d.lat == int_field(lines[at], 33, 44)
    &&& d.lasym == int_field(lines[at], 44, 55)
    &&& d.lln == int_field(l, 22, 33)
    &&& d.ni == int_field(l, 44, 55)
    &&& d.ns == int_field(l, 55, 66)
    &&& values_match(lines, at + 2, count_field(l, 44, 55), d.b@)
    &&& d.beta_int is None && d.nb == 0 && d.beta_data@.len() == 0 && d.teff@.len() == 0
}

/// Read the HEAD record and the B list of an MF=7 MT=4 section. What
/// follows depends on real values of the B list; see
/// [`parse_mf7_mt4_tables`].
pub fn parse_mf7_mt4_start(reader: &mut Reader) -> (r: Result<Mf7Mt4>)
    requires
        old(reader).wf(),
    ensures
        final(reader).wf(),
        final(reader).lines_view() == old(reader).lines_view(),
        r matches Err(e) ==> e is UnexpectedEof,
        mf7_mt4_start_fits(old(reader).lines_view(), old(reader).position()) ==> {
            let lines = old(reader).lines_view();
            let at = old(reader).position();
            &&& r matches Ok(d) && mf7_mt4_start_matches(d, lines, at)
            &&& final(reader).position() == at + 1 + list_len(lines, at + 1)
        },
        !mf7_mt4_start_fits(old(reader).lines_view(), old(reader).position()) ==> r is Err,
{
    proof {
        reader.lemma_position_nonneg();
    }
    let head = reader.cont_record()?;
    let list = reader.list_record()?;
    Ok(
        Mf7Mt4 {
            za: head.c1,
            awr: head.c2,
            lat: head.l2,
            lasym: head.n1,
            lln: list.cont.l1,
            ni: list.cont.n1,
            ns: list.cont.n2,
            b: list.values,
            beta_int: None,
            nb: 0,
            beta_data: Vec::new(),
            teff: Vec::new(),
        },
    )
}

/// How many secondary atoms are looked at before a B list of `n_b` values
/// runs out: atom `i` has its flag at B(6(i+1)), counting from zero.
pub open spec fn secondaries_seen(n_b: int, ns: int) -> int {
    let fit = at_least_zero((n_b - 1) / 6);
    if at_least_zero(ns) <= fit {
        at_least_zero(ns)
    } else {
        fit
    }
}

/// How many of the first `k` secondary atoms have their flag marked zero,
/// and so an effective temperature of their own.
pub open spec fn flagged(is_zero: Seq<bool>, k: int) -> int
    decreases k,
{
    if k <= 0 {
        0
    } else {
        flagged(is_zero, k - 1) + if is_zero[6 * k] {
            1int
        } else {
            0
        }
    }
}

proof fn lemma_flagged_grows(is_zero: Seq<bool>, k: int, n: int)
    requires
        0 <= k <= n,
    ensures
        flagged(is_zero, k) <= flagged(is_zero, n),
    decreases n - k,
{
    if k < n {
        lemma_flagged_grows(is_zero, k, n - 1);
    }
}

/// Where the effective temperatures of an MF=7 MT=4 section start, when
/// what follows the B list starts at `lines[p]`.
pub open spec fn teff_start(lines: Seq<Seq<char>>, p: int, tabulated: bool) -> int {
    if tabulated {
        scattering_laws_end(lines, p)
    } else {
        p
    }
}

/// Read the rest of an MF=7 MT=4 section whose HEAD record and B list are
/// in `data`. `tabulated` says whether B(1) is positive, in which case the
/// tabulated S(alpha, beta) follows; `is_zero[j]` says whether the `j`-th
/// value of the B list is zero. The principal atom has an effective
/// temperature, and so has each secondary atom whose flag B(6(i+1)) is
/// zero. A B list too short for NS secondary atoms is unsupported.
#[verifier::rlimit(40)]
pub fn parse_mf7_mt4_tables(reader: &mut Reader, data: Mf7Mt4, tabulated: bool, is_zero: &Vec<bool>) -> (r: Result<
    Mf7Mt4,
>)
    requires
        old(reader).wf(),
        is_zero@.len() == data.b@.len(),
    ensures
        final(reader).wf(),
        final(reader).lines_view() == old(reader).lines_view(),
        r matches Err(e) ==> e is UnexpectedEof || e is Unsupported,
        ({
            let lines = old(reader).lines_view();
            let p = old(reader).position();
            let q = teff_start(lines, p, tabulated);
            let m = secondaries_seen(data.b@.len() as int, data.ns as int);
            let n = 1 + flagged(is_zero@, m);
            let fits = (tabulated ==> scattering_laws_fit(lines, p)) && tab1s_fit(lines, q, n);
            &&& fits && m == at_least_zero(data.ns as int) ==> (r matches Ok(d) && {
                &&& d.za == data.za && d.awr == data.awr && d.lat == data.lat && d.lasym == data.lasym
                &&& d.lln == data.lln && d.ni == data.ni && d.ns == data.ns && d.b == data.b
                &&& if tabulated {
                    &&& d.beta_int matches Some(t) && tab2_matches(t, lines, p)
                    &&& d.nb == int_field(lines[p], 55, 66)
                    &&& d.beta_data@.len() == energy_count(lines, p)
                    &&& forall|k: int|
                        0 <= k < d.beta_data@.len() ==> law_matches(
                            #[trigger] d.beta_data@[k],
                            lines,
                            law_at(lines, p + tab2_len(lines, p), k),
                        )
                } else {
                    d.beta_int is None && d.nb == 0 && d.beta_data@.len() == 0
                }
                &&& d.teff@.len() == n
                &&& forall|k: int| 0 <= k < n ==> tab1_matches(#[trigger] d.teff@[k], lines, tab1_at(lines, q, k))
            })
            &&& fits && m < at_least_zero(data.ns as int) ==> (r matches Err(e) && e is Unsupported)
            &&& !fits ==> (r matches Err(e) && e is UnexpectedEof)
        }),
{
    let ghost lines = reader.lines_view();
    let ghost p = reader.position();
    let ghost n_b = data.b@.len() as int;
    let ghost m = secondaries_seen(n_b, data.ns as int);
    let ghost n = 1 + flagged(is_zero@, m);
    proof {
        reader.lemma_position_nonneg();
        lemma_flagged_grows(is_zero@, 0, m);
    }
    let ghost d_in = data;
    let mut out = data;
    if tabulated {
        let (t, nb, laws) = parse_scattering_laws(reader)?;
        out.beta_int = Some(t);
        out.nb = nb;
        out.beta_data = laws;
    } else {
        out.beta_int = None;
        out.nb = 0;
        out.beta_data = Vec::new();
    }
    let ghost q = reader.position();
    let ghost d0 = out;
    assert(q == teff_start(lines, p, tabulated));
    assert(tabulated ==> scattering_laws_fit(lines, p));
    let mut teff: Vec<Tab1> = Vec::new();
    let first = match reader.tab1_record() {
        Ok(t) => t,
        Err(e) => {
            proof {
                lemma_tab1s_stop(lines, q, 0, n);
            }
            return Err(e);
        },
    };
    teff.push(first);
    assert(tab1_at(lines, q, 0) == q);
    assert(tab1_at(lines, q, 1) == q + tab1_len(lines, q));
    assert(tab1s_fit(lines, q, 0));
    assert(tab1s_fit(lines, q, 1));
    let ns = out.ns;
    let b_len = out.b.len();
    let mut i: i64 = 0;
    while i < ns
        invariant
            reader.wf(),
            reader.lines_view() == lines,
            lines == old(reader).lines_view(),
            0 <= q <= lines.len(),
            p == old(reader).position(),
            q == teff_start(lines, p, tabulated),
            tabulated ==> scattering_laws_fit(lines, p),
            out == d0,
            d_in == data,
            d0.b == d_in.b && d0.ns == d_in.ns && d0.za == d_in.za && d0.awr == d_in.awr,
            d0.lat == d_in.lat && d0.lasym == d_in.lasym && d0.lln == d_in.lln && d0.ni == d_in.ni,
            n_b == d_in.b@.len(),
            ns == out.ns,
            b_len == n_b,
            is_zero@.len() == n_b,
            m == secondaries_seen(n_b, ns as int),
            n == 1 + flagged(is_zero@, m),
            0 <= i <= m,
            teff@.len() == 1 + flagged(is_zero@, i as int),
            reader.position() == tab1_at(lines, q, teff@.len() as int),
            tab1s_fit(lines, q, teff@.len() as int),
            forall|k: int| 0 <= k < teff@.len() ==> tab1_matches(#[trigger] teff@[k], lines, tab1_at(lines, q, k)),
        decreases ns - i,
    {
        let idx: u128 = 6 * ((i as u128) + 1);
        if idx >= b_len as u128 {
            assert(m == i);
            return Err(Error::Unsupported { what: "an MF=7 MT=4 section whose B list is shorter than NS implies" });
        }
        assert(i < m);
        if is_zero[idx as usize] {
            let ghost c = teff@.len() as int;
            proof {
                lemma_flagged_grows(is_zero@, i + 1, m);
                assert(flagged(is_zero@, i + 1) == c);
            }
            assert(tab1_at(lines, q, c + 1) == tab1_at(lines, q, c) + tab1_len(lines, tab1_at(lines, q, c)));
            let t = match reader.tab1_record() {
                Ok(t) => t,
                Err(e) => {
                    proof {
                        lemma_tab1s_stop(lines, q, c, n);
                    }
                    return Err(e);
                },
            };
            teff.push(t);
        }
        i = i + 1;
    }
    out.teff = teff;
    Ok(out)
}

/// Whether the lines from `at` hold a whole MF=7 MT=451 section: the HEAD
/// record and one LIST record per element.
pub open spec fn mf7_mt451_fits(lines: Seq<Seq<char>>, at: int) -> bool {
    0 <= at < lines.len() && lists_fit(lines, at + 1, at_least_zero(int_field(lines[at], 22, 33)))
}

/// What an MF=7 MT=451 section read from `lines[at]` holds: five values
/// per isotope of each element.
pub open spec fn mf7_mt451_matches(d: Mf7Mt451, lines: Seq<Seq<char>>, at: int) -> bool {
    let n = at_least_zero(int_field(lines[at], 22, 33));
    &&& d.za@ == field_of(lines[at], 0, 11)
    &&& d.awr@ == field_of(lines[at], 11, 22)
    &&& d.na == int_field(lines[at], 22, 33)
    &&& d.elements@.len() == n
    &&& forall|k: int|
        0 <= k < n ==> {
            let p = #[trigger] list_at(lines, at + 1, k);
            let e = d.elements@[k];
            &&& e.nas == int_field(lines[p], 22, 33)
            &&& e.ni == int_field(lines[p], 55, 66)
            &&& column_matches(e.zai@, lines, p, 0)
            &&& column_matches(e.lisi@, lines, p, 1)
            &&& column_matches(e.afi@, lines, p, 2)
            &&& column_matches(e.awri@, lines, p, 3)
            &&& column_matches(e.sfi@, lines, p, 4)
        }
}

/// Parse MF=7 MT=451.
pub fn parse_mf7_mt451(reader: &mut Reader) -> (r: Result<Mf7Mt451>)
    requires
        old(reader).wf(),
    ensures
        final(reader).wf(),
        mf7_mt451_fits(old(reader).lines_view(), old(reader).position()) ==> (r matches Ok(d)
            && mf7_mt451_matches(d, old(reader).lines_view(), old(reader).position())),
        !mf7_mt451_fits(old(reader).lines_view(), old(reader).position()) ==> r is Err,
        r matches Err(e) ==> e is UnexpectedEof,
{
    let ghost lines = reader.lines_view();
    let ghost at = reader.position();
    proof {
        reader.lemma_position_nonneg();
    }
    let head = reader.cont_record()?;
    let na = head.l1;
    let ghost count = at_least_zero(na as int);
    let mut elements: Vec<ThermalElement> = Vec::new();
    let mut k: i64 = 0;
    while k < na
        invariant
            reader.wf(),
            reader.lines_view() == lines,
            lines == old(reader).lines_view(),
            at == old(reader).position(),
            0 <= at < lines.len(),
            na == int_field(lines[at], 22, 33),
            count == at_least_zero(na as int),
            0 <= k <= count,
            reader.position() == list_at(lines, at + 1, k as int),
            lists_fit(lines, at + 1, k as int),
            elements@.len() == k,
            forall|j: int|
                0 <= j < k ==> {
                    let p = #[trigger] list_at(lines, at + 1, j);
                    let e = elements@[j];
                    &&& e.nas == int_field(lines[p], 22, 33)
                    &&& e.ni == int_field(lines[p], 55, 66)
                    &&& column_matches(e.zai@, lines, p, 0)
                    &&& column_matches(e.lisi@, lines, p, 1)
                    &&& column_matches(e.afi@, lines, p, 2)
                    &&& column_matches(e.awri@, lines, p, 3)
                    &&& column_matches(e.sfi@, lines, p, 4)
                },
        decreases na - k,
    {
        let ghost p = reader.position();
        let list = match reader.list_record() {
            Ok(l) => l,
            Err(e) => {
                proof {
                    lemma_lists_stop(lines, at + 1, k as int, count);
                }
                return Err(e);
            },
        };
        proof {
            lemma_items(lines, p, list.values@);
        }
        let v = &list.values;
        elements.push(
            ThermalElement {
                nas: list.cont.l1,
                ni: list.cont.n2,
                zai: column(v, 0),
                lisi: column(v, 1),
                afi: column(v, 2),
                awri: column(v, 3),
                sfi: column(v, 4),
            },
        );
        k = k + 1;
    }
    Ok(Mf7Mt451 { za: head.c1, awr: head.c2, na, elements })
}

} // verus!
