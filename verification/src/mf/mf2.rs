//! MF=2 MT=151, resonance parameters.
//!
//! Real-valued fields are kept as the text of their fields.

use vstd::prelude::*;

use crate::error::{Error, Result};
use crate::mf::list::{
    at_least_zero, column, column_matches, item, lemma_items, lemma_lists_stop, list_at, list_fits,
    list_len, list_value, lists_fit, strided, strided_matches, tab1_fits, tab1_len,
};
use crate::records::{cont_matches, count_exec, count_field, count_of, field_of, int_field, tab1_matches, values_match, Cont, ListRecord, Reader, Tab1};

verus! {

/// MF=2 MT=151.
#[derive(Debug, Clone, PartialEq, Eq)]
pub struct Mf2 {
    pub za: String,
    pub awr: String,
    pub nis: i64,
    pub isotopes: Vec<Isotope>,
}

/// One isotope of the material, with its energy ranges.
#[derive(Debug, Clone, PartialEq, Eq)]
pub struct Isotope {
    pub zai: String,
    pub abn: String,
    pub lfw: i64,
    pub ner: i64,
    pub ranges: Vec<ResonanceRange>,
}

/// One energy range, and the parameters given over it.
#[derive(Debug, Clone, PartialEq, Eq)]
pub struct ResonanceRange {
    pub el: String,
    pub eh: String,
    /// 1 resolved, 2 unresolved, 0 neither.
    pub lru: i64,
    /// Which representation the parameters use.
    pub lrf: i64,
    pub nro: i64,
    pub naps: i64,
    pub parameters: ResonanceParameters,
}

/// The parameters of a range, in whichever representation it uses.
#[derive(Debug, Clone, PartialEq, Eq)]
pub enum ResonanceParameters {
    /// LRF=0: the scattering radius and nothing else.
    ScatteringRadius { spi: String, ap: String, nls: i64 },
    /// LRF=1 single-level or LRF=2 multi-level Breit-Wigner. The two are read
    /// identically; only the reconstruction differs.
    BreitWigner(BreitWigner),
    /// LRF=3.
    ReichMoore(ReichMoore),
    /// LRF=7.
    RMatrixLimited(Box<RMatrixLimited>),
    /// LRU=2.
    Unresolved(Box<Unresolved>),
    /// Nothing was read for this range: LRU is neither resolved nor
    /// unresolved.
    Absent,
}

/// LRF=1 and LRF=2: Breit-Wigner parameters.
#[derive(Debug, Clone, PartialEq, Eq)]
pub struct BreitWigner {
    /// NRO/=0: energy-dependent scattering radius.
    pub ape: Option<Tab1>,
    pub spi: String,
    pub ap: String,
    pub nls: i64,
    pub sections: Vec<BreitWignerSection>,
}

/// The resonances of one orbital angular momentum.
#[derive(Debug, Clone, PartialEq, Eq)]
pub struct BreitWignerSection {
    pub awri: String,
    pub qx: String,
    pub l: i64,
    pub lrx: i64,
    pub nrs: i64,
    /// Resonance energy.
    pub er: Vec<String>,
    /// Spin.
    pub aj: Vec<String>,
    /// Total width.
    pub gt: Vec<String>,
    /// Neutron width.
    pub gn: Vec<String>,
    /// Radiation width.
    pub gg: Vec<String>,
    /// Fission width.
    pub gf: Vec<String>,
}

/// LRF=3: Reich-Moore parameters.
#[derive(Debug, Clone, PartialEq, Eq)]
pub struct ReichMoore {
    pub ape: Option<Tab1>,
    pub spi: String,
    pub ap: String,
    pub lad: i64,
    pub nls: i64,
    pub nlsc: i64,
    pub sections: Vec<ReichMooreSection>,
}

/// The resonances of one orbital angular momentum.
#[derive(Debug, Clone, PartialEq, Eq)]
pub struct ReichMooreSection {
    pub awri: String,
    pub apl: String,
    pub l: i64,
    pub nrs: i64,
    pub er: Vec<String>,
    pub aj: Vec<String>,
    pub gn: Vec<String>,
    pub gg: Vec<String>,
    /// First fission width.
    pub gfa: Vec<String>,
    /// Second fission width.
    pub gfb: Vec<String>,
}

// -------------------------------------------------------------------------
// The scattering radius and the resolved formalisms
// -------------------------------------------------------------------------

/// Where what follows the energy-dependent scattering radius starts: NRO
/// not 0 puts a TAB1 record at `lines[q]`.
pub open spec fn ape_end(lines: Seq<Seq<char>>, q: int, nro: int) -> int {
    if nro != 0 {
        q + tab1_len(lines, q)
    } else {
        q
    }
}

/// Whether the scattering radius that NRO calls for fits at `lines[q]`.
pub open spec fn ape_fits(lines: Seq<Seq<char>>, q: int, nro: int) -> bool {
    nro != 0 ==> tab1_fits(lines, q)
}

/// What the scattering radius read at `lines[q]` is.
pub open spec fn ape_matches(a: Option<Tab1>, lines: Seq<Seq<char>>, q: int, nro: int) -> bool {
    if nro != 0 {
        a matches Some(t) && tab1_matches(t, lines, q)
    } else {
        a is None
    }
}

/// Read the energy-dependent scattering radius that NRO/=0 puts first.
fn parse_ape(reader: &mut Reader, nro: i64) -> (r: Result<Option<Tab1>>)
    requires
        old(reader).wf(),
    ensures
        final(reader).wf(),
        final(reader).lines_view() == old(reader).lines_view(),
        r matches Err(e) ==> e is UnexpectedEof,
        ape_fits(old(reader).lines_view(), old(reader).position(), nro as int) ==> {
            &&& r matches Ok(a) && ape_matches(a, old(reader).lines_view(), old(reader).position(), nro as int)
            &&& final(reader).position() == ape_end(
                old(reader).lines_view(),
                old(reader).position(),
                nro as int,
            )
        },
        !ape_fits(old(reader).lines_view(), old(reader).position(), nro as int) ==> r is Err,
{
    proof {
        reader.lemma_position_nonneg();
    }
    if nro != 0 {
        Ok(Some(reader.tab1_record()?))
    } else {
        Ok(None)
    }
}

/// Where the CONT record of the resolved parameters at `lines[q]` is.
pub open spec fn resolved_head(lines: Seq<Seq<char>>, q: int, nro: int) -> int {
    ape_end(lines, q, nro)
}

/// How many orbital angular momenta the resolved parameters at `lines[q]`
/// give: NLS.
pub open spec fn resolved_count(lines: Seq<Seq<char>>, q: int, nro: int) -> int {
    at_least_zero(int_field(lines[resolved_head(lines, q, nro)], 44, 55))
}

/// The line after the resolved parameters at `lines[q]`.
pub open spec fn resolved_end(lines: Seq<Seq<char>>, q: int, nro: int) -> int {
    list_at(lines, resolved_head(lines, q, nro) + 1, resolved_count(lines, q, nro))
}

/// Whether the Breit-Wigner or Reich-Moore parameters at `lines[q]` fit:
/// the scattering radius, a CONT record and one LIST record per orbital
/// angular momentum.
pub open spec fn resolved_fits(lines: Seq<Seq<char>>, q: int, nro: int) -> bool {
    let h = resolved_head(lines, q, nro);
    &&& 0 <= q
    &&& ape_fits(lines, q, nro)
    &&& 0 <= h < lines.len()
    &&& lists_fit(lines, h + 1, resolved_count(lines, q, nro))
}

/// What a Breit-Wigner section read from the LIST record at `lines[p]`
/// holds: six values per resonance.
pub open spec fn bw_section_matches(s: BreitWignerSection, lines: Seq<Seq<char>>, p: int) -> bool {
    &&& s.awri@ == field_of(lines[p], 0, 11)
    &&& s.qx@ == field_of(lines[p], 11, 22)
    &&& s.l == int_field(lines[p], 22, 33)
    &&& s.lrx == int_field(lines[p], 33, 44)
    &&& s.nrs == int_field(lines[p], 55, 66)
    &&& column_matches(s.er@, lines, p, 0)
    &&& column_matches(s.aj@, lines, p, 1)
    &&& column_matches(s.gt@, lines, p, 2)
    &&& column_matches(s.gn@, lines, p, 3)
    &&& column_matches(s.gg@, lines, p, 4)
    &&& column_matches(s.gf@, lines, p, 5)
}

/// What Breit-Wigner parameters read from `lines[q]` onwards hold.
pub open spec fn bw_matches(b: BreitWigner, lines: Seq<Seq<char>>, q: int, nro: int) -> bool {
    let h = resolved_head(lines, q, nro);
    &&& ape_matches(b.ape, lines, q, nro)
    &&& b.spi@ == field_of(lines[h], 0, 11)
    &&& b.ap@ == field_of(lines[h], 11, 22)
    &&& b.nls == int_field(lines[h], 44, 55)
    &&& b.sections@.len() == resolved_count(lines, q, nro)
    &&& forall|k: int|
        0 <= k < b.sections@.len() ==> bw_section_matches(#[trigger] b.sections@[k], lines, list_at(lines, h + 1, k))
}

/// What a Reich-Moore section read from the LIST record at `lines[p]`
/// holds: six values per resonance.
pub open spec fn rm_section_matches(s: ReichMooreSection, lines: Seq<Seq<char>>, p: int) -> bool {
    &&& s.awri@ == field_of(lines[p], 0, 11)
    &&& s.apl@ == field_of(lines[p], 11, 22)
    &&& s.l == int_field(lines[p], 22, 33)
    &&& s.nrs == int_field(lines[p], 55, 66)
    &&& column_matches(s.er@, lines, p, 0)
    &&& column_matches(s.aj@, lines, p, 1)
    &&& column_matches(s.gn@, lines, p, 2)
    &&& column_matches(s.gg@, lines, p, 3)
    &&& column_matches(s.gfa@, lines, p, 4)
    &&& column_matches(s.gfb@, lines, p, 5)
}

/// What Reich-Moore parameters read from `lines[q]` onwards hold.
pub open spec fn rm_matches(b: ReichMoore, lines: Seq<Seq<char>>, q: int, nro: int) -> bool {
    let h = resolved_head(lines, q, nro);
    &&& ape_matches(b.ape, lines, q, nro)
    &&& b.spi@ == field_of(lines[h], 0, 11)
    &&& b.ap@ == field_of(lines[h], 11, 22)
    &&& b.lad == int_field(lines[h], 22, 33)
    &&& b.nls == int_field(lines[h], 44, 55)
    &&& b.nlsc == int_field(lines[h], 55, 66)
    &&& b.sections@.len() == resolved_count(lines, q, nro)
    &&& forall|k: int|
        0 <= k < b.sections@.len() ==> rm_section_matches(#[trigger] b.sections@[k], lines, list_at(lines, h + 1, k))
}

/// The LIST records of a run, read whole.
fn read_lists(reader: &mut Reader, n: i64) -> (r: Result<Vec<ListRecord>>)
    requires
        old(reader).wf(),
    ensures
        final(reader).wf(),
        final(reader).lines_view() == old(reader).lines_view(),
        r matches Err(e) ==> e is UnexpectedEof,
        lists_fit(old(reader).lines_view(), old(reader).position(), at_least_zero(n as int)) ==> {
            &&& r matches Ok(v) && v@.len() == at_least_zero(n as int) && forall|k: int|
                0 <= k < v@.len() ==> {
                    let p = #[trigger] list_at(old(reader).lines_view(), old(reader).position(), k);
                    &&& cont_matches(v@[k].cont, old(reader).lines_view()[p])
                    &&& values_match(
                        old(reader).lines_view(),
                        p + 1,
                        count_field(old(reader).lines_view()[p], 44, 55),
                        v@[k].values@,
                    )
                    &&& 0 <= p < old(reader).lines_view().len()
                }
            &&& final(reader).position() == list_at(
                old(reader).lines_view(),
                old(reader).position(),
                at_least_zero(n as int),
            )
        },
        !lists_fit(old(reader).lines_view(), old(reader).position(), at_least_zero(n as int)) ==> r is Err,
{
    let ghost lines = reader.lines_view();
    let ghost at = reader.position();
    proof {
        reader.lemma_position_nonneg();
    }
    let ghost count = at_least_zero(n as int);
    let mut v: Vec<ListRecord> = Vec::new();
    let mut k: i64 = 0;
    while k < n
        invariant
            reader.wf(),
            reader.lines_view() == lines,
            lines == old(reader).lines_view(),
            at == old(reader).position(),
            0 <= at,
            count == at_least_zero(n as int),
            0 <= k <= count,
            reader.position() == list_at(lines, at, k as int),
            lists_fit(lines, at, k as int),
            v@.len() == k,
            forall|j: int|
                0 <= j < k ==> {
                    let p = #[trigger] list_at(lines, at, j);
                    &&& cont_matches(v@[j].cont, lines[p])
                    &&& values_match(lines, p + 1, count_field(lines[p], 44, 55), v@[j].values@)
                    &&& 0 <= p < lines.len()
                },
        decreases n - k,
    {
        let list = match reader.list_record() {
            Ok(l) => l,
            Err(e) => {
                proof {
                    lemma_lists_stop(lines, at, k as int, count);
                }
                return Err(e);
            },
        };
        v.push(list);
        k = k + 1;
    }
    Ok(v)
}

fn bw_section(list: &ListRecord, Ghost(lines): Ghost<Seq<Seq<char>>>, Ghost(p): Ghost<int>) -> (s: BreitWignerSection)
    requires
        0 <= p < lines.len(),
        cont_matches(list.cont, lines[p]),
        values_match(lines, p + 1, count_field(lines[p], 44, 55), list.values@),
    ensures
        bw_section_matches(s, lines, p),
{
    proof {
        lemma_items(lines, p, list.values@);
    }
    let v = &list.values;
    BreitWignerSection {
        awri: list.cont.c1.clone(),
        qx: list.cont.c2.clone(),
        l: list.cont.l1,
        lrx: list.cont.l2,
        nrs: list.cont.n2,
        er: column(v, 0),
        aj: column(v, 1),
        gt: column(v, 2),
        gn: column(v, 3),
        gg: column(v, 4),
        gf: column(v, 5),
    }
}

fn rm_section(list: &ListRecord, Ghost(lines): Ghost<Seq<Seq<char>>>, Ghost(p): Ghost<int>) -> (s: ReichMooreSection)
    requires
        0 <= p < lines.len(),
        cont_matches(list.cont, lines[p]),
        values_match(lines, p + 1, count_field(lines[p], 44, 55), list.values@),
    ensures
        rm_section_matches(s, lines, p),
{
    proof {
        lemma_items(lines, p, list.values@);
    }
    let v = &list.values;
    ReichMooreSection {
        awri: list.cont.c1.clone(),
        apl: list.cont.c2.clone(),
        l: list.cont.l1,
        nrs: list.cont.n2,
        er: column(v, 0),
        aj: column(v, 1),
        gn: column(v, 2),
        gg: column(v, 3),
        gfa: column(v, 4),
        gfb: column(v, 5),
    }
}

/// Read Breit-Wigner parameters.
fn parse_breit_wigner(reader: &mut Reader, nro: i64) -> (r: Result<BreitWigner>)
    requires
        old(reader).wf(),
    ensures
        final(reader).wf(),
        final(reader).lines_view() == old(reader).lines_view(),
        r matches Err(e) ==> e is UnexpectedEof,
        resolved_fits(old(reader).lines_view(), old(reader).position(), nro as int) ==> {
            &&& r matches Ok(b) && bw_matches(b, old(reader).lines_view(), old(reader).position(), nro as int)
            &&& final(reader).position() == resolved_end(
                old(reader).lines_view(),
                old(reader).position(),
                nro as int,
            )
        },
        !resolved_fits(old(reader).lines_view(), old(reader).position(), nro as int) ==> r is Err,
{
    let ghost lines = reader.lines_view();
    let ghost q = reader.position();
    proof {
        reader.lemma_position_nonneg();
    }
    let ape = parse_ape(reader, nro)?;
    let ghost h = reader.position();
    let c = reader.cont_record()?;
    let lists = read_lists(reader, c.n1)?;
    let mut sections: Vec<BreitWignerSection> = Vec::new();
    let mut k: usize = 0;
    while k < lists.len()
        invariant
            0 <= h < lines.len(),
            k <= lists@.len(),
            sections@.len() == k,
            forall|j: int|
                0 <= j < lists@.len() ==> {
                    let p = #[trigger] list_at(lines, h + 1, j);
                    &&& cont_matches(lists@[j].cont, lines[p])
                    &&& values_match(lines, p + 1, count_field(lines[p], 44, 55), lists@[j].values@)
                    &&& 0 <= p < lines.len()
                },
            forall|j: int|
                0 <= j < k ==> bw_section_matches(#[trigger] sections@[j], lines, list_at(lines, h + 1, j)),
        decreases lists.len() - k,
    {
        let ghost p = list_at(lines, h + 1, k as int);
        sections.push(bw_section(&lists[k], Ghost(lines), Ghost(p)));
        k = k + 1;
    }
    Ok(BreitWigner { ape, spi: c.c1, ap: c.c2, nls: c.n1, sections })
}

/// Read Reich-Moore parameters.
fn parse_reich_moore(reader: &mut Reader, nro: i64) -> (r: Result<ReichMoore>)
    requires
        old(reader).wf(),
    ensures
        final(reader).wf(),
        final(reader).lines_view() == old(reader).lines_view(),
        r matches Err(e) ==> e is UnexpectedEof,
        resolved_fits(old(reader).lines_view(), old(reader).position(), nro as int) ==> {
            &&& r matches Ok(b) && rm_matches(b, old(reader).lines_view(), old(reader).position(), nro as int)
            &&& final(reader).position() == resolved_end(
                old(reader).lines_view(),
                old(reader).position(),
                nro as int,
            )
        },
        !resolved_fits(old(reader).lines_view(), old(reader).position(), nro as int) ==> r is Err,
{
    let ghost lines = reader.lines_view();
    let ghost q = reader.position();
    proof {
        reader.lemma_position_nonneg();
    }
    let ape = parse_ape(reader, nro)?;
    let ghost h = reader.position();
    let c = reader.cont_record()?;
    let lists = read_lists(reader, c.n1)?;
    let mut sections: Vec<ReichMooreSection> = Vec::new();
    let mut k: usize = 0;
    while k < lists.len()
        invariant
            0 <= h < lines.len(),
            k <= lists@.len(),
            sections@.len() == k,
            forall|j: int|
                0 <= j < lists@.len() ==> {
                    let p = #[trigger] list_at(lines, h + 1, j);
                    &&& cont_matches(lists@[j].cont, lines[p])
                    &&& values_match(lines, p + 1, count_field(lines[p], 44, 55), lists@[j].values@)
                    &&& 0 <= p < lines.len()
                },
            forall|j: int|
                0 <= j < k ==> rm_section_matches(#[trigger] sections@[j], lines, list_at(lines, h + 1, j)),
        decreases lists.len() - k,
    {
        let ghost p = list_at(lines, h + 1, k as int);
        sections.push(rm_section(&lists[k], Ghost(lines), Ghost(p)));
        k = k + 1;
    }
    Ok(ReichMoore { ape, spi: c.c1, ap: c.c2, lad: c.l1, nls: c.n1, nlsc: c.n2, sections })
}

// -------------------------------------------------------------------------
// Unresolved resonance parameters
// -------------------------------------------------------------------------

/// LRU=2: unresolved resonance parameters.
#[derive(Debug, Clone, PartialEq, Eq)]
pub struct Unresolved {
    pub ape: Option<Tab1>,
    pub spi: String,
    pub ap: String,
    pub lssf: i64,
    pub nls: i64,
    /// Case B only: the energies the fission widths are given on.
    pub ne: Option<i64>,
    pub es: Vec<String>,
    pub ranges: Vec<UnresolvedRange>,
}

/// The unresolved parameters of one orbital angular momentum.
#[derive(Debug, Clone, PartialEq, Eq)]
pub struct UnresolvedRange {
    pub awri: String,
    pub l: i64,
    pub njs: i64,
    /// Case A: energy-independent parameters, one entry per J.
    pub d: Vec<String>,
    pub aj: Vec<String>,
    pub amun: Vec<String>,
    pub gno: Vec<String>,
    pub gg: Vec<String>,
    /// Cases B and C: one entry per J.
    pub parameters: Vec<UnresolvedParameters>,
}

/// The unresolved parameters of one spin, in Case B or Case C form.
#[derive(Debug, Clone, PartialEq, Eq)]
pub enum UnresolvedParameters {
    /// LFW=1, LRF=1: only the fission widths are energy dependent.
    CaseB { muf: i64, d: String, aj: String, amun: String, gn0: String, gg: String, gf: Vec<String> },
    /// LRF=2: every parameter is energy dependent.
    CaseC {
        aj: String,
        interpolation: i64,
        ne: i64,
        amux: String,
        amun: String,
        amuf: String,
        e: Vec<String>,
        d: Vec<String>,
        gx: Vec<String>,
        gn0: Vec<String>,
        gg: Vec<String>,
        gf: Vec<String>,
    },
}

/// Case A: no fission widths, everything energy independent.
pub open spec fn case_a(lfw: int, lrf: int) -> bool {
    lfw == 0 && lrf == 1
}

/// Case B: only the fission widths are energy dependent.
pub open spec fn case_b(lfw: int, lrf: int) -> bool {
    lfw == 1 && lrf == 1
}

/// Case C: every parameter is energy dependent.
pub open spec fn case_c(lfw: int, lrf: int) -> bool {
    !case_a(lfw, lrf) && !case_b(lfw, lrf) && lrf == 2
}

/// The line after the unresolved range, its CONT record and one LIST record
/// per spin, at `lines[r]`.
pub open spec fn urange_end(lines: Seq<Seq<char>>, r: int) -> int {
    list_at(lines, r + 1, at_least_zero(int_field(lines[r], 44, 55)))
}

/// Whether the unresolved range at `lines[r]` fits.
pub open spec fn urange_fits(lines: Seq<Seq<char>>, r: int) -> bool {
    0 <= r < lines.len() && lists_fit(lines, r + 1, at_least_zero(int_field(lines[r], 44, 55)))
}

/// Where the `k`-th of a run of unresolved ranges from `lines[at]` starts.
pub open spec fn urange_at(lines: Seq<Seq<char>>, at: int, k: int) -> int
    decreases k,
{
    if k <= 0 {
        at
    } else {
        urange_end(lines, urange_at(lines, at, k - 1))
    }
}

/// Whether `k` unresolved ranges from `lines[at]` fit.
pub open spec fn uranges_fit(lines: Seq<Seq<char>>, at: int, k: int) -> bool
    decreases k,
{
    if k <= 0 {
        true
    } else {
        uranges_fit(lines, at, k - 1) && urange_fits(lines, urange_at(lines, at, k - 1))
    }
}

proof fn lemma_uranges_stop(lines: Seq<Seq<char>>, at: int, k: int, n: int)
    requires
        0 <= k < n,
        uranges_fit(lines, at, k),
        !urange_fits(lines, urange_at(lines, at, k)),
    ensures
        !uranges_fit(lines, at, n),
    decreases n - k,
{
    if k + 1 < n {
        lemma_uranges_stop_later(lines, at, k + 1, n);
    }
}

proof fn lemma_uranges_stop_later(lines: Seq<Seq<char>>, at: int, k: int, n: int)
    requires
        0 < k <= n,
        !uranges_fit(lines, at, k),
    ensures
        !uranges_fit(lines, at, n),
    decreases n - k,
{
    if k < n {
        lemma_uranges_stop_later(lines, at, k + 1, n);
    }
}

/// Values `lo` to the end of the LIST record at `lines[p]`, where `lo` is
/// within it, or nothing.
pub open spec fn tail_matches(c: Seq<String>, lines: Seq<Seq<char>>, p: int, lo: int) -> bool {
    let n = count_field(lines[p], 44, 55);
    &&& c.len() == (if lo <= n {
        n - lo
    } else {
        0
    })
    &&& forall|j: int| 0 <= j < c.len() ==> #[trigger] c[j]@ == list_value(lines, p, lo + j)
}

/// What the Case B or Case C parameters of one spin, read from the LIST
/// record at `lines[p]`, hold.
pub open spec fn uparams_matches(u: UnresolvedParameters, lines: Seq<Seq<char>>, p: int, b: bool) -> bool {
    if b {
        &&& u matches UnresolvedParameters::CaseB { muf, d, aj, amun, gn0, gg, gf }
        &&& muf == int_field(lines[p], 33, 44)
        &&& d@ == list_value(lines, p, 0)
        &&& aj@ == list_value(lines, p, 1)
        &&& amun@ == list_value(lines, p, 2)
        &&& gn0@ == list_value(lines, p, 3)
        &&& gg@ == list_value(lines, p, 4)
        &&& tail_matches(gf@, lines, p, 6)
    } else {
        &&& u matches UnresolvedParameters::CaseC {
            aj,
            interpolation,
            ne,
            amux,
            amun,
            amuf,
            e,
            d,
            gx,
            gn0,
            gg,
            gf,
        }
        &&& aj@ == field_of(lines[p], 0, 11)
        &&& interpolation == int_field(lines[p], 22, 33)
        &&& ne == int_field(lines[p], 55, 66)
        &&& amux@ == list_value(lines, p, 2)
        &&& amun@ == list_value(lines, p, 3)
        &&& amuf@ == list_value(lines, p, 5)
        &&& strided_matches(e@, lines, p, 6, 6)
        &&& strided_matches(d@, lines, p, 7, 6)
        &&& strided_matches(gx@, lines, p, 8, 6)
        &&& strided_matches(gn0@, lines, p, 9, 6)
        &&& strided_matches(gg@, lines, p, 10, 6)
        &&& strided_matches(gf@, lines, p, 11, 6)
    }
}

/// What a Case B or Case C unresolved range read from `lines[r]` onwards
/// holds.
pub open spec fn urange_matches(u: UnresolvedRange, lines: Seq<Seq<char>>, r: int, b: bool) -> bool {
    let n = at_least_zero(int_field(lines[r], 44, 55));
    &&& u.awri@ == field_of(lines[r], 0, 11)
    &&& u.l == int_field(lines[r], 22, 33)
    &&& u.njs == int_field(lines[r], 44, 55)
    &&& u.d@.len() == 0 && u.aj@.len() == 0 && u.amun@.len() == 0 && u.gno@.len() == 0 && u.gg@.len() == 0
    &&& u.parameters@.len() == n
    &&& forall|j: int|
        0 <= j < n ==> uparams_matches(#[trigger] u.parameters@[j], lines, list_at(lines, r + 1, j), b)
}

/// What a Case A unresolved range read from the LIST record at `lines[p]`
/// holds: six values per spin.
pub open spec fn urange_a_matches(u: UnresolvedRange, lines: Seq<Seq<char>>, p: int) -> bool {
    &&& u.awri@ == field_of(lines[p], 0, 11)
    &&& u.l == int_field(lines[p], 22, 33)
    &&& u.njs == int_field(lines[p], 55, 66)
    &&& column_matches(u.d@, lines, p, 0)
    &&& column_matches(u.aj@, lines, p, 1)
    &&& column_matches(u.amun@, lines, p, 2)
    &&& column_matches(u.gno@, lines, p, 3)
    &&& column_matches(u.gg@, lines, p, 4)
    &&& u.parameters@.len() == 0
}

/// The values from `lo` on of a LIST record.
fn tail_texts(values: &Vec<String>, lo: usize) -> (r: Vec<String>)
    ensures
        r@.len() == (if lo <= values@.len() {
            values@.len() - lo
        } else {
            0
        }),
        forall|j: int| 0 <= j < r@.len() ==> #[trigger] r@[j]@ == crate::mf::list::item_text(values@, lo + j),
{
    if lo <= values.len() {
        crate::mf::list::slice_texts(values, lo, values.len())
    } else {
        Vec::new()
    }
}

/// The Case B or Case C parameters of one spin.
fn uparams(list: &ListRecord, b: bool, Ghost(lines): Ghost<Seq<Seq<char>>>, Ghost(p): Ghost<int>) -> (u: UnresolvedParameters)
    requires
        0 <= p < lines.len(),
        cont_matches(list.cont, lines[p]),
        values_match(lines, p + 1, count_field(lines[p], 44, 55), list.values@),
    ensures
        uparams_matches(u, lines, p, b),
{
    proof {
        lemma_items(lines, p, list.values@);
    }
    let v = &list.values;
    if b {
        UnresolvedParameters::CaseB {
            muf: list.cont.l2,
            d: item(v, 0),
            aj: item(v, 1),
            amun: item(v, 2),
            gn0: item(v, 3),
            gg: item(v, 4),
            gf: tail_texts(v, 6),
        }
    } else {
        UnresolvedParameters::CaseC {
            aj: list.cont.c1.clone(),
            interpolation: list.cont.l1,
            ne: list.cont.n2,
            amux: item(v, 2),
            amun: item(v, 3),
            amuf: item(v, 5),
            e: strided(v, 6, 6),
            d: strided(v, 7, 6),
            gx: strided(v, 8, 6),
            gn0: strided(v, 9, 6),
            gg: strided(v, 10, 6),
            gf: strided(v, 11, 6),
        }
    }
}

/// Read one Case B or Case C unresolved range.
fn read_urange(reader: &mut Reader, b: bool) -> (r: Result<UnresolvedRange>)
    requires
        old(reader).wf(),
    ensures
        final(reader).wf(),
        final(reader).lines_view() == old(reader).lines_view(),
        r matches Err(e) ==> e is UnexpectedEof,
        urange_fits(old(reader).lines_view(), old(reader).position()) ==> {
            &&& r matches Ok(u) && urange_matches(u, old(reader).lines_view(), old(reader).position(), b)
            &&& final(reader).position() == urange_end(old(reader).lines_view(), old(reader).position())
        },
        !urange_fits(old(reader).lines_view(), old(reader).position()) ==> r is Err,
{
    let ghost lines = reader.lines_view();
    let ghost at = reader.position();
    proof {
        reader.lemma_position_nonneg();
    }
    let c = reader.cont_record()?;
    let lists = read_lists(reader, c.n1)?;
    let mut parameters: Vec<UnresolvedParameters> = Vec::new();
    let mut k: usize = 0;
    while k < lists.len()
        invariant
            0 <= at < lines.len(),
            k <= lists@.len(),
            parameters@.len() == k,
            forall|j: int|
                0 <= j < lists@.len() ==> {
                    let p = #[trigger] list_at(lines, at + 1, j);
                    &&& cont_matches(lists@[j].cont, lines[p])
                    &&& values_match(lines, p + 1, count_field(lines[p], 44, 55), lists@[j].values@)
                    &&& 0 <= p < lines.len()
                },
            forall|j: int|
                0 <= j < k ==> uparams_matches(#[trigger] parameters@[j], lines, list_at(lines, at + 1, j), b),
        decreases lists.len() - k,
    {
        let ghost p = list_at(lines, at + 1, k as int);
        parameters.push(uparams(&lists[k], b, Ghost(lines), Ghost(p)));
        k = k + 1;
    }
    Ok(
        UnresolvedRange {
            awri: c.c1,
            l: c.l1,
            njs: c.n1,
            d: Vec::new(),
            aj: Vec::new(),
            amun: Vec::new(),
            gno: Vec::new(),
            gg: Vec::new(),
            parameters,
        },
    )
}

/// Read a run of `n` Case B or Case C unresolved ranges.
fn read_uranges(reader: &mut Reader, n: i64, b: bool) -> (r: Result<Vec<UnresolvedRange>>)
    requires
        old(reader).wf(),
    ensures
        final(reader).wf(),
        final(reader).lines_view() == old(reader).lines_view(),
        r matches Err(e) ==> e is UnexpectedEof,
        uranges_fit(old(reader).lines_view(), old(reader).position(), at_least_zero(n as int)) ==> {
            &&& r matches Ok(v) && v@.len() == at_least_zero(n as int) && forall|k: int|
                0 <= k < v@.len() ==> urange_matches(
                    #[trigger] v@[k],
                    old(reader).lines_view(),
                    urange_at(old(reader).lines_view(), old(reader).position(), k),
                    b,
                )
            &&& final(reader).position() == urange_at(
                old(reader).lines_view(),
                old(reader).position(),
                at_least_zero(n as int),
            )
        },
        !uranges_fit(old(reader).lines_view(), old(reader).position(), at_least_zero(n as int)) ==> r is Err,
{
    let ghost lines = reader.lines_view();
    let ghost at = reader.position();
    let ghost count = at_least_zero(n as int);
    let mut v: Vec<UnresolvedRange> = Vec::new();
    let mut k: i64 = 0;
    while k < n
        invariant
            reader.wf(),
            reader.lines_view() == lines,
            lines == old(reader).lines_view(),
            at == old(reader).position(),
            count == at_least_zero(n as int),
            0 <= k <= count,
            reader.position() == urange_at(lines, at, k as int),
            uranges_fit(lines, at, k as int),
            v@.len() == k,
            forall|j: int| 0 <= j < k ==> urange_matches(#[trigger] v@[j], lines, urange_at(lines, at, j), b),
        decreases n - k,
    {
        let u = match read_urange(reader, b) {
            Ok(u) => u,
            Err(e) => {
                proof {
                    lemma_uranges_stop(lines, at, k as int, count);
                }
                return Err(e);
            },
        };
        v.push(u);
        k = k + 1;
    }
    Ok(v)
}

/// Where the unresolved parameters at `lines[q]` put their ranges.
pub open spec fn ur_start(lines: Seq<Seq<char>>, q: int, lfw: int, lrf: int, nro: int) -> int {
    let a = ape_end(lines, q, nro);
    if case_b(lfw, lrf) {
        a + list_len(lines, a)
    } else {
        a + 1
    }
}

/// How many ranges the unresolved parameters at `lines[q]` have.
pub open spec fn ur_count(lines: Seq<Seq<char>>, q: int, lfw: int, lrf: int, nro: int) -> int {
    let a = ape_end(lines, q, nro);
    if case_b(lfw, lrf) {
        at_least_zero(int_field(lines[a], 55, 66))
    } else if case_a(lfw, lrf) || case_c(lfw, lrf) {
        at_least_zero(int_field(lines[a], 44, 55))
    } else {
        0
    }
}

/// The line after the unresolved parameters at `lines[q]`.
pub open spec fn unresolved_end(lines: Seq<Seq<char>>, q: int, lfw: int, lrf: int, nro: int) -> int {
    let s = ur_start(lines, q, lfw, lrf, nro);
    let n = ur_count(lines, q, lfw, lrf, nro);
    if case_a(lfw, lrf) {
        list_at(lines, s, n)
    } else if case_b(lfw, lrf) || case_c(lfw, lrf) {
        urange_at(lines, s, n)
    } else {
        s
    }
}

/// Whether the unresolved parameters at `lines[q]` fit: the scattering
/// radius; a CONT record, or for Case B a LIST record of energies; then the
/// ranges the case calls for.
pub open spec fn unresolved_fits(lines: Seq<Seq<char>>, q: int, lfw: int, lrf: int, nro: int) -> bool {
    let a = ape_end(lines, q, nro);
    let s = ur_start(lines, q, lfw, lrf, nro);
    let n = ur_count(lines, q, lfw, lrf, nro);
    &&& 0 <= q
    &&& ape_fits(lines, q, nro)
    &&& 0 <= a < lines.len()
    &&& case_b(lfw, lrf) ==> list_fits(lines, a)
    &&& case_a(lfw, lrf) ==> lists_fit(lines, s, n)
    &&& (case_b(lfw, lrf) || case_c(lfw, lrf)) ==> uranges_fit(lines, s, n)
}

/// What unresolved parameters read from `lines[q]` onwards hold.
pub open spec fn unresolved_matches(u: Unresolved, lines: Seq<Seq<char>>, q: int, lfw: int, lrf: int, nro: int) -> bool {
    let a = ape_end(lines, q, nro);
    let s = ur_start(lines, q, lfw, lrf, nro);
    let n = ur_count(lines, q, lfw, lrf, nro);
    &&& ape_matches(u.ape, lines, q, nro)
    &&& u.spi@ == field_of(lines[a], 0, 11)
    &&& u.ap@ == field_of(lines[a], 11, 22)
    &&& u.lssf == int_field(lines[a], 22, 33)
    &&& if case_b(lfw, lrf) {
        &&& u.ne == Some(int_field(lines[a], 44, 55) as i64)
        &&& u.nls == int_field(lines[a], 55, 66)
        &&& tail_matches(u.es@, lines, a, 0)
    } else {
        &&& u.ne is None
        &&& u.nls == int_field(lines[a], 44, 55)
        &&& u.es@.len() == 0
    }
    &&& u.ranges@.len() == n
    &&& forall|k: int|
        0 <= k < n ==> if case_a(lfw, lrf) {
            urange_a_matches(#[trigger] u.ranges@[k], lines, list_at(lines, s, k))
        } else {
            urange_matches(u.ranges@[k], lines, urange_at(lines, s, k), case_b(lfw, lrf))
        }
}

fn urange_a(list: &ListRecord, Ghost(lines): Ghost<Seq<Seq<char>>>, Ghost(p): Ghost<int>) -> (u: UnresolvedRange)
    requires
        0 <= p < lines.len(),
        cont_matches(list.cont, lines[p]),
        values_match(lines, p + 1, count_field(lines[p], 44, 55), list.values@),
    ensures
        urange_a_matches(u, lines, p),
{
    proof {
        lemma_items(lines, p, list.values@);
    }
    let v = &list.values;
    UnresolvedRange {
        awri: list.cont.c1.clone(),
        l: list.cont.l1,
        njs: list.cont.n2,
        d: column(v, 0),
        aj: column(v, 1),
        amun: column(v, 2),
        gno: column(v, 3),
        gg: column(v, 4),
        parameters: Vec::new(),
    }
}

/// Read unresolved resonance parameters.
#[verifier::rlimit(40)]
fn parse_unresolved(reader: &mut Reader, lfw: i64, lrf: i64, nro: i64) -> (r: Result<Unresolved>)
    requires
        old(reader).wf(),
    ensures
        final(reader).wf(),
        final(reader).lines_view() == old(reader).lines_view(),
        r matches Err(e) ==> e is UnexpectedEof,
        unresolved_fits(old(reader).lines_view(), old(reader).position(), lfw as int, lrf as int, nro as int) ==> {
            &&& r matches Ok(u) && unresolved_matches(
                u,
                old(reader).lines_view(),
                old(reader).position(),
                lfw as int,
                lrf as int,
                nro as int,
            )
            &&& final(reader).position() == unresolved_end(
                old(reader).lines_view(),
                old(reader).position(),
                lfw as int,
                lrf as int,
                nro as int,
            )
        },
        !unresolved_fits(old(reader).lines_view(), old(reader).position(), lfw as int, lrf as int, nro as int)
            ==> r is Err,
{
    let ghost lines = reader.lines_view();
    let ghost q = reader.position();
    proof {
        reader.lemma_position_nonneg();
    }
    let ape = parse_ape(reader, nro)?;
    let ghost a = reader.position();
    if lfw == 1 && lrf == 1 {
        // Case B carries the header values in its own LIST record instead
        // of a CONT; only the fission widths are energy dependent.
        let list = reader.list_record()?;
        proof {
            lemma_items(lines, a, list.values@);
        }
        let ranges = read_uranges(reader, list.cont.n2, true)?;
        let es = tail_texts(&list.values, 0);
        return Ok(
            Unresolved {
                ape,
                spi: list.cont.c1,
                ap: list.cont.c2,
                lssf: list.cont.l1,
                nls: list.cont.n2,
                ne: Some(list.cont.n1),
                es,
                ranges,
            },
        );
    }
    let c = reader.cont_record()?;
    let ranges = if lfw == 0 && lrf == 1 {
        // Case A: no fission widths, everything energy independent.
        let ghost s = reader.position();
        let lists = read_lists(reader, c.n1)?;
        let mut ranges: Vec<UnresolvedRange> = Vec::new();
        let mut k: usize = 0;
        while k < lists.len()
            invariant
                k <= lists@.len(),
                ranges@.len() == k,
                forall|j: int|
                    0 <= j < lists@.len() ==> {
                        let p = #[trigger] list_at(lines, s, j);
                        &&& cont_matches(lists@[j].cont, lines[p])
                        &&& values_match(lines, p + 1, count_field(lines[p], 44, 55), lists@[j].values@)
                        &&& 0 <= p < lines.len()
                    },
                forall|j: int| 0 <= j < k ==> urange_a_matches(#[trigger] ranges@[j], lines, list_at(lines, s, j)),
            decreases lists.len() - k,
        {
            let ghost p = list_at(lines, s, k as int);
            ranges.push(urange_a(&lists[k], Ghost(lines), Ghost(p)));
            k = k + 1;
        }
        ranges
    } else if lrf == 2 {
        // Case C: every parameter is energy dependent.
        read_uranges(reader, c.n1, false)?
    } else {
        Vec::new()
    };
    Ok(Unresolved { ape, spi: c.c1, ap: c.c2, lssf: c.l1, nls: c.n1, ne: None, es: Vec::new(), ranges })
}

// -------------------------------------------------------------------------
// R-matrix limited
// -------------------------------------------------------------------------

/// The particle pairs of an R-matrix limited evaluation, column-wise.
#[derive(Debug, Clone, PartialEq, Eq)]
pub struct ParticlePairs {
    pub ma: Vec<String>,
    pub mb: Vec<String>,
    pub za: Vec<String>,
    pub zb: Vec<String>,
    pub ia: Vec<String>,
    pub ib: Vec<String>,
    pub q: Vec<String>,
    pub pnt: Vec<String>,
    pub shf: Vec<String>,
    pub mt: Vec<String>,
    pub pa: Vec<String>,
    pub pb: Vec<String>,
}

/// The channels of one spin group, column-wise.
#[derive(Debug, Clone, PartialEq, Eq)]
pub struct Channels {
    pub ppi: Vec<String>,
    pub l: Vec<String>,
    pub sch: Vec<String>,
    pub bnd: Vec<String>,
    pub ape: Vec<String>,
    pub apt: Vec<String>,
}

/// One spin group of an R-matrix limited evaluation.
#[derive(Debug, Clone, PartialEq, Eq)]
pub struct SpinGroup {
    pub aj: String,
    pub pj: String,
    pub kbk: i64,
    pub kps: i64,
    pub nch: i64,
    pub channels: Channels,
    pub nrs: i64,
    pub nx: i64,
    /// Resonance energies.
    pub er: Vec<String>,
    /// Widths, `nch` rows of `nrs`: the transpose of how the file stores them.
    pub gam: Vec<Vec<String>>,
    /// Background R-matrix, present when KBK > 0.
    pub lch: Option<i64>,
    pub lbk: Option<i64>,
    pub rbr: Option<Tab1>,
    pub rbi: Option<Tab1>,
    pub ed: Option<String>,
    pub eu: Option<String>,
    /// Tabulated phase shifts, present when KPS > 0.
    pub lps: Option<i64>,
    pub psr: Option<Tab1>,
    pub psi: Option<Tab1>,
}

/// LRF=7: R-matrix limited parameters.
#[derive(Debug, Clone, PartialEq, Eq)]
pub struct RMatrixLimited {
    pub ifg: i64,
    pub krm: i64,
    pub njs: i64,
    pub krl: i64,
    pub npp: i64,
    pub particle_pairs: ParticlePairs,
    pub spin_groups: Vec<SpinGroup>,
}

/// Where the resonance record of the spin group at `lines[g]` is.
pub open spec fn group_resonances(lines: Seq<Seq<char>>, g: int) -> int {
    g + list_len(lines, g)
}

/// Where the background R-matrix of the spin group at `lines[g]` would be.
pub open spec fn group_background(lines: Seq<Seq<char>>, g: int) -> int {
    let r = group_resonances(lines, g);
    r + list_len(lines, r)
}

/// Where what follows the background header at `lines[b]` starts.
pub open spec fn background_data(lines: Seq<Seq<char>>, b: int) -> int {
    b + list_len(lines, b)
}

/// The line after the background R-matrix of the spin group at `lines[g]`.
pub open spec fn group_background_end(lines: Seq<Seq<char>>, g: int) -> int {
    let b = group_background(lines, g);
    let d = background_data(lines, b);
    let lbk = int_field(lines[b], 33, 44);
    if int_field(lines[g], 22, 33) > 0 {
        if lbk == 1 {
            d + tab1_len(lines, d) + tab1_len(lines, d + tab1_len(lines, d))
        } else if lbk == 2 || lbk == 3 {
            d + list_len(lines, d)
        } else {
            d
        }
    } else {
        b
    }
}

/// The line after the spin group at `lines[g]`.
pub open spec fn group_end(lines: Seq<Seq<char>>, g: int) -> int {
    let p = group_background_end(lines, g);
    let d = p + list_len(lines, p);
    if int_field(lines[g], 33, 44) > 0 {
        if int_field(lines[p], 44, 55) == 1 {
            d + tab1_len(lines, d) + tab1_len(lines, d + tab1_len(lines, d))
        } else {
            d
        }
    } else {
        p
    }
}

/// Whether the spin group at `lines[g]` fits: its channels and its
/// resonances, then the background R-matrix and the phase shifts that KBK
/// and KPS call for.
pub open spec fn group_fits(lines: Seq<Seq<char>>, g: int) -> bool {
    let r = group_resonances(lines, g);
    let b = group_background(lines, g);
    let d = background_data(lines, b);
    let lbk = int_field(lines[b], 33, 44);
    let p = group_background_end(lines, g);
    let e = p + list_len(lines, p);
    &&& list_fits(lines, g)
    &&& list_fits(lines, r)
    &&& int_field(lines[g], 22, 33) > 0 ==> {
        &&& list_fits(lines, b)
        &&& lbk == 1 ==> tab1_fits(lines, d) && tab1_fits(lines, d + tab1_len(lines, d))
        &&& (lbk == 2 || lbk == 3) ==> list_fits(lines, d)
    }
    &&& int_field(lines[g], 33, 44) > 0 ==> {
        &&& list_fits(lines, p)
        &&& int_field(lines[p], 44, 55) == 1 ==> tab1_fits(lines, e) && tab1_fits(lines, e + tab1_len(lines, e))
    }
}

/// The widths of a spin group: `nch` rows of `nrs`, the width of channel `c`
/// of resonance `j` being value `1 + width * j + c` of the resonance record
/// at `lines[r]`, where each resonance takes `width = nch + 1` values.
pub open spec fn widths_matches(gam: Seq<Vec<String>>, lines: Seq<Seq<char>>, r: int, nch: int, nrs: int) -> bool {
    let width = nch + 1;
    &&& gam.len() == nch
    &&& forall|c: int|
        0 <= c < nch ==> {
            let row = #[trigger] gam[c];
            &&& row@.len() == nrs
            &&& forall|j: int| 0 <= j < nrs ==> #[trigger] row@[j]@ == list_value(lines, r, 1 + width * j + c)
        }
}

/// What the spin group read from `lines[g]` onwards holds.
pub open spec fn group_matches(s: SpinGroup, lines: Seq<Seq<char>>, g: int) -> bool {
    let r = group_resonances(lines, g);
    let b = group_background(lines, g);
    let d = background_data(lines, b);
    let lbk = int_field(lines[b], 33, 44);
    let p = group_background_end(lines, g);
    let e = p + list_len(lines, p);
    let nch = count_of(int_field(lines[g], 55, 66));
    &&& s.aj@ == field_of(lines[g], 0, 11)
    &&& s.pj@ == field_of(lines[g], 11, 22)
    &&& s.kbk == int_field(lines[g], 22, 33)
    &&& s.kps == int_field(lines[g], 33, 44)
    &&& s.nch == int_field(lines[g], 55, 66)
    &&& column_matches(s.channels.ppi@, lines, g, 0)
    &&& column_matches(s.channels.l@, lines, g, 1)
    &&& column_matches(s.channels.sch@, lines, g, 2)
    &&& column_matches(s.channels.bnd@, lines, g, 3)
    &&& column_matches(s.channels.ape@, lines, g, 4)
    &&& column_matches(s.channels.apt@, lines, g, 5)
    &&& s.nrs == int_field(lines[r], 33, 44)
    &&& s.nx == int_field(lines[r], 55, 66)
    &&& strided_matches(s.er@, lines, r, 0, nch + 1)
    &&& widths_matches(s.gam@, lines, r, nch, count_of(s.nrs as int))
    &&& if s.kbk > 0 {
        &&& s.lch == Some(int_field(lines[b], 22, 33) as i64)
        &&& s.lbk == Some(lbk as i64)
        &&& if lbk == 1 {
            &&& s.rbr matches Some(t) && tab1_matches(t, lines, d)
            &&& s.rbi matches Some(t) && tab1_matches(t, lines, d + tab1_len(lines, d))
            &&& s.ed is None && s.eu is None
        } else if lbk == 2 || lbk == 3 {
            &&& s.rbr is None && s.rbi is None
            &&& s.ed matches Some(t) && t@ == field_of(lines[d], 0, 11)
            &&& s.eu matches Some(t) && t@ == field_of(lines[d], 11, 22)
        } else {
            s.rbr is None && s.rbi is None && s.ed is None && s.eu is None
        }
    } else {
        s.lch is None && s.lbk is None && s.rbr is None && s.rbi is None && s.ed is None && s.eu is None
    }
    &&& if s.kps > 0 {
        &&& s.lps == Some(int_field(lines[p], 44, 55) as i64)
        &&& if int_field(lines[p], 44, 55) == 1 {
            &&& s.psr matches Some(t) && tab1_matches(t, lines, e)
            &&& s.psi matches Some(t) && tab1_matches(t, lines, e + tab1_len(lines, e))
        } else {
            s.psr is None && s.psi is None
        }
    } else {
        s.lps is None && s.psr is None && s.psi is None
    }
}

/// The channels a spin group's first LIST record gives, six values each.
fn channels(list: &ListRecord, Ghost(lines): Ghost<Seq<Seq<char>>>, Ghost(g): Ghost<int>) -> (c: Channels)
    requires
        0 <= g < lines.len(),
        cont_matches(list.cont, lines[g]),
        values_match(lines, g + 1, count_field(lines[g], 44, 55), list.values@),
    ensures
        column_matches(c.ppi@, lines, g, 0),
        column_matches(c.l@, lines, g, 1),
        column_matches(c.sch@, lines, g, 2),
        column_matches(c.bnd@, lines, g, 3),
        column_matches(c.ape@, lines, g, 4),
        column_matches(c.apt@, lines, g, 5),
{
    proof {
        lemma_items(lines, g, list.values@);
    }
    let v = &list.values;
    Channels { ppi: column(v, 0), l: column(v, 1), sch: column(v, 2), bnd: column(v, 3), ape: column(v, 4), apt: column(v, 5) }
}

/// The resonance energies and widths of a spin group with `nch` channels,
/// from its second LIST record.
fn resonances(list: &ListRecord, nch: i64, Ghost(lines): Ghost<Seq<Seq<char>>>, Ghost(r): Ghost<int>) -> (out: (Vec<String>, Vec<Vec<String>>))
    requires
        0 <= r < lines.len(),
        cont_matches(list.cont, lines[r]),
        values_match(lines, r + 1, count_field(lines[r], 44, 55), list.values@),
    ensures
        strided_matches(out.0@, lines, r, 0, count_of(nch as int) + 1),
        widths_matches(out.1@, lines, r, count_of(nch as int), count_of(list.cont.l2 as int)),
{
    proof {
        lemma_items(lines, r, list.values@);
    }
    let v = &list.values;
    let len = v.len();
    let nch_u: usize = count_exec(nch);
    let nrs_u: usize = count_exec(list.cont.l2);
    let width: u128 = nch_u as u128 + 1;
    // Each resonance is one energy followed by `nch` widths.
    let stride: usize = if width <= len as u128 {
        width as usize
    } else if len > 0 {
        len
    } else {
        1
    };
    let er = strided(v, 0, stride);
    proof {
        if width > len as u128 && len > 0 {
            assert(stride * 0 == 0 && width * 0 == 0) by (nonlinear_arith);
            assert(er@.len() == 1) by (nonlinear_arith)
                requires
                    er@.len() > 0,
                    stride * (er@.len() - 1) < len,
                    stride == len,
            ;
        }
    }
    // Stored resonance-major; transposed to channel-major here.
    let mut gam: Vec<Vec<String>> = Vec::new();
    let mut c: usize = 0;
    while c < nch_u
        invariant
            width == nch_u + 1,
            c <= nch_u,
            gam@.len() == c,
            nch_u == count_of(nch as int),
            nrs_u == count_of(list.cont.l2 as int),
            forall|k: int| #[trigger] crate::mf::list::item_text(v@, k) == list_value(lines, r, k),
            forall|c2: int|
                0 <= c2 < c ==> {
                    let row = #[trigger] gam@[c2];
                    &&& row@.len() == nrs_u
                    &&& forall|j: int| 0 <= j < nrs_u ==> #[trigger] row@[j]@ == list_value(lines, r, 1 + width * j + c2)
                },
        decreases nch_u - c,
    {
        let mut row: Vec<String> = Vec::new();
        let mut j: usize = 0;
        while j < nrs_u
            invariant
                width == nch_u + 1,
                c < nch_u,
                j <= nrs_u,
                row@.len() == j,
                forall|k: int| #[trigger] crate::mf::list::item_text(v@, k) == list_value(lines, r, k),
                forall|j2: int| 0 <= j2 < j ==> #[trigger] row@[j2]@ == list_value(lines, r, 1 + width * j2 + c),
            decreases nrs_u - j,
        {
            proof {
                assert(width * j <= 0x1_0000_0000_0000_0000u128 * 0x1_0000_0000_0000_0000u128 - 0x2_0000_0000_0000_0000u128)
                    by (nonlinear_arith)
                    requires
                        width <= 0x1_0000_0000_0000_0000u128,
                        j < 0x1_0000_0000_0000_0000u128 - 1,
                ;
            }
            let idx: u128 = 1 + width * (j as u128) + c as u128;
            row.push(item(v, idx));
            j = j + 1;
        }
        gam.push(row);
        c = c + 1;
    }
    (er, gam)
}

/// Read one spin group.
#[verifier::rlimit(60)]
#[verifier::spinoff_prover]
fn read_group(reader: &mut Reader) -> (r: Result<SpinGroup>)
    requires
        old(reader).wf(),
    ensures
        final(reader).wf(),
        final(reader).lines_view() == old(reader).lines_view(),
        r matches Err(e) ==> e is UnexpectedEof,
        group_fits(old(reader).lines_view(), old(reader).position()) ==> {
            &&& r matches Ok(s) && group_matches(s, old(reader).lines_view(), old(reader).position())
            &&& final(reader).position() == group_end(old(reader).lines_view(), old(reader).position())
        },
        !group_fits(old(reader).lines_view(), old(reader).position()) ==> r is Err,
{
    let ghost lines = reader.lines_view();
    let ghost g = reader.position();
    proof {
        reader.lemma_position_nonneg();
    }
    let first = reader.list_record()?;
    let nch = first.cont.n2;
    let kbk = first.cont.l1;
    let kps = first.cont.l2;
    let ch = channels(&first, Ghost(lines), Ghost(g));

    // Resonance energies and widths.
    let ghost rp = reader.position();
    let second = reader.list_record()?;
    let (er, gam) = resonances(&second, nch, Ghost(lines), Ghost(rp));

    // Background R-matrix.
    let ghost bp = reader.position();
    let mut lch: Option<i64> = None;
    let mut lbk: Option<i64> = None;
    let mut rbr: Option<Tab1> = None;
    let mut rbi: Option<Tab1> = None;
    let mut ed: Option<String> = None;
    let mut eu: Option<String> = None;
    if kbk > 0 {
        let head = reader.list_record()?;
        lch = Some(head.cont.l1);
        lbk = Some(head.cont.l2);
        if head.cont.l2 == 1 {
            rbr = Some(reader.tab1_record()?);
            rbi = Some(reader.tab1_record()?);
        } else if head.cont.l2 == 2 || head.cont.l2 == 3 {
            let list = reader.list_record()?;
            ed = Some(list.cont.c1);
            eu = Some(list.cont.c2);
        }
    }
    assert(reader.position() == group_background_end(lines, g));

    // Tabulated phase shifts.
    let mut lps: Option<i64> = None;
    let mut psr: Option<Tab1> = None;
    let mut psi: Option<Tab1> = None;
    if kps > 0 {
        let head = reader.list_record()?;
        lps = Some(head.cont.n1);
        if head.cont.n1 == 1 {
            psr = Some(reader.tab1_record()?);
            psi = Some(reader.tab1_record()?);
        }
    }
    Ok(
        SpinGroup {
            aj: first.cont.c1,
            pj: first.cont.c2,
            kbk,
            kps,
            nch,
            channels: ch,
            nrs: second.cont.l2,
            nx: second.cont.n2,
            er,
            gam,
            lch,
            lbk,
            rbr,
            rbi,
            ed,
            eu,
            lps,
            psr,
            psi,
        },
    )
}

/// Where the `k`-th of a run of spin groups from `lines[at]` starts.
pub open spec fn group_at(lines: Seq<Seq<char>>, at: int, k: int) -> int
    decreases k,
{
    if k <= 0 {
        at
    } else {
        group_end(lines, group_at(lines, at, k - 1))
    }
}

/// Whether `k` spin groups from `lines[at]` fit.
pub open spec fn groups_fit(lines: Seq<Seq<char>>, at: int, k: int) -> bool
    decreases k,
{
    if k <= 0 {
        true
    } else {
        groups_fit(lines, at, k - 1) && group_fits(lines, group_at(lines, at, k - 1))
    }
}

proof fn lemma_groups_stop(lines: Seq<Seq<char>>, at: int, k: int, n: int)
    requires
        0 <= k < n,
        groups_fit(lines, at, k),
        !group_fits(lines, group_at(lines, at, k)),
    ensures
        !groups_fit(lines, at, n),
    decreases n - k,
{
    if k + 1 < n {
        lemma_groups_stop_later(lines, at, k + 1, n);
    }
}

proof fn lemma_groups_stop_later(lines: Seq<Seq<char>>, at: int, k: int, n: int)
    requires
        0 < k <= n,
        !groups_fit(lines, at, k),
    ensures
        !groups_fit(lines, at, n),
    decreases n - k,
{
    if k < n {
        lemma_groups_stop_later(lines, at, k + 1, n);
    }
}

/// Where the spin groups of the R-matrix limited parameters at `lines[q]`
/// start: after the CONT record and the particle pairs.
pub open spec fn groups_start(lines: Seq<Seq<char>>, q: int) -> int {
    q + 1 + list_len(lines, q + 1)
}

/// The line after the R-matrix limited parameters at `lines[q]`.
pub open spec fn rml_end(lines: Seq<Seq<char>>, q: int) -> int {
    group_at(lines, groups_start(lines, q), at_least_zero(int_field(lines[q], 44, 55)))
}

/// Whether the R-matrix limited parameters at `lines[q]` fit: a CONT
/// record, the particle pairs and NJS spin groups.
pub open spec fn rml_fits(lines: Seq<Seq<char>>, q: int) -> bool {
    &&& 0 <= q < lines.len()
    &&& list_fits(lines, q + 1)
    &&& groups_fit(lines, groups_start(lines, q), at_least_zero(int_field(lines[q], 44, 55)))
}

/// What R-matrix limited parameters read from `lines[q]` onwards hold.
pub open spec fn rml_matches(d: RMatrixLimited, lines: Seq<Seq<char>>, q: int) -> bool {
    let pp = q + 1;
    let n = at_least_zero(int_field(lines[q], 44, 55));
    &&& d.ifg == int_field(lines[q], 22, 33)
    &&& d.krm == int_field(lines[q], 33, 44)
    &&& d.njs == int_field(lines[q], 44, 55)
    &&& d.krl == int_field(lines[q], 55, 66)
    &&& d.npp == int_field(lines[pp], 22, 33)
    &&& strided_matches(d.particle_pairs.ma@, lines, pp, 0, 12)
    &&& strided_matches(d.particle_pairs.mb@, lines, pp, 1, 12)
    &&& strided_matches(d.particle_pairs.za@, lines, pp, 2, 12)
    &&& strided_matches(d.particle_pairs.zb@, lines, pp, 3, 12)
    &&& strided_matches(d.particle_pairs.ia@, lines, pp, 4, 12)
    &&& strided_matches(d.particle_pairs.ib@, lines, pp, 5, 12)
    &&& strided_matches(d.particle_pairs.q@, lines, pp, 6, 12)
    &&& strided_matches(d.particle_pairs.pnt@, lines, pp, 7, 12)
    &&& strided_matches(d.particle_pairs.shf@, lines, pp, 8, 12)
    &&& strided_matches(d.particle_pairs.mt@, lines, pp, 9, 12)
    &&& strided_matches(d.particle_pairs.pa@, lines, pp, 10, 12)
    &&& strided_matches(d.particle_pairs.pb@, lines, pp, 11, 12)
    &&& d.spin_groups@.len() == n
    &&& forall|k: int|
        0 <= k < n ==> group_matches(#[trigger] d.spin_groups@[k], lines, group_at(lines, groups_start(lines, q), k))
}

/// The particle pairs, twelve values each.
fn particle_pairs(list: &ListRecord, Ghost(lines): Ghost<Seq<Seq<char>>>, Ghost(p): Ghost<int>) -> (pp: ParticlePairs)
    requires
        0 <= p < lines.len(),
        cont_matches(list.cont, lines[p]),
        values_match(lines, p + 1, count_field(lines[p], 44, 55), list.values@),
    ensures
        strided_matches(pp.ma@, lines, p, 0, 12),
        strided_matches(pp.mb@, lines, p, 1, 12),
        strided_matches(pp.za@, lines, p, 2, 12),
        strided_matches(pp.zb@, lines, p, 3, 12),
        strided_matches(pp.ia@, lines, p, 4, 12),
        strided_matches(pp.ib@, lines, p, 5, 12),
        strided_matches(pp.q@, lines, p, 6, 12),
        strided_matches(pp.pnt@, lines, p, 7, 12),
        strided_matches(pp.shf@, lines, p, 8, 12),
        strided_matches(pp.mt@, lines, p, 9, 12),
        strided_matches(pp.pa@, lines, p, 10, 12),
        strided_matches(pp.pb@, lines, p, 11, 12),
{
    proof {
        lemma_items(lines, p, list.values@);
    }
    let v = &list.values;
    ParticlePairs {
        ma: strided(v, 0, 12),
        mb: strided(v, 1, 12),
        za: strided(v, 2, 12),
        zb: strided(v, 3, 12),
        ia: strided(v, 4, 12),
        ib: strided(v, 5, 12),
        q: strided(v, 6, 12),
        pnt: strided(v, 7, 12),
        shf: strided(v, 8, 12),
        mt: strided(v, 9, 12),
        pa: strided(v, 10, 12),
        pb: strided(v, 11, 12),
    }
}

/// Read R-matrix limited parameters.
fn parse_r_matrix_limited(reader: &mut Reader) -> (r: Result<RMatrixLimited>)
    requires
        old(reader).wf(),
    ensures
        final(reader).wf(),
        final(reader).lines_view() == old(reader).lines_view(),
        r matches Err(e) ==> e is UnexpectedEof,
        rml_fits(old(reader).lines_view(), old(reader).position()) ==> {
            &&& r matches Ok(d) && rml_matches(d, old(reader).lines_view(), old(reader).position())
            &&& final(reader).position() == rml_end(old(reader).lines_view(), old(reader).position())
        },
        !rml_fits(old(reader).lines_view(), old(reader).position()) ==> r is Err,
{
    let ghost lines = reader.lines_view();
    let ghost q = reader.position();
    proof {
        reader.lemma_position_nonneg();
    }
    let c = reader.cont_record()?;
    let ghost pp = reader.position();
    let list = reader.list_record()?;
    let pairs = particle_pairs(&list, Ghost(lines), Ghost(pp));
    let njs = c.n1;
    let ghost s0 = reader.position();
    let ghost count = at_least_zero(njs as int);
    let mut spin_groups: Vec<SpinGroup> = Vec::new();
    let mut k: i64 = 0;
    while k < njs
        invariant
            reader.wf(),
            reader.lines_view() == lines,
            lines == old(reader).lines_view(),
            q == old(reader).position(),
            0 <= q < lines.len(),
            njs == int_field(lines[q], 44, 55),
            s0 == groups_start(lines, q),
            count == at_least_zero(njs as int),
            0 <= k <= count,
            reader.position() == group_at(lines, s0, k as int),
            groups_fit(lines, s0, k as int),
            spin_groups@.len() == k,
            forall|j: int| 0 <= j < k ==> group_matches(#[trigger] spin_groups@[j], lines, group_at(lines, s0, j)),
        decreases njs - k,
    {
        let g = match read_group(reader) {
            Ok(g) => g,
            Err(e) => {
                proof {
                    lemma_groups_stop(lines, s0, k as int, count);
                }
                return Err(e);
            },
        };
        spin_groups.push(g);
        k = k + 1;
    }
    Ok(
        RMatrixLimited {
            ifg: c.l1,
            krm: c.l2,
            njs,
            krl: c.n2,
            npp: list.cont.l1,
            particle_pairs: pairs,
            spin_groups,
        },
    )
}

// -------------------------------------------------------------------------
// Ranges, isotopes and the section
// -------------------------------------------------------------------------

/// Whether LRF names a resolved formalism this reader knows: Breit-Wigner
/// (1, 2), Reich-Moore (3) or R-matrix limited (7).
pub open spec fn resolved_known(lrf: int) -> bool {
    lrf == 1 || lrf == 2 || lrf == 3 || lrf == 7
}

/// Whether the range at `lines[q]` is resolved, or neither resolved nor
/// unresolved, in a formalism this reader does not know.
pub open spec fn range_unsupported(lines: Seq<Seq<char>>, q: int) -> bool {
    let lru = int_field(lines[q], 22, 33);
    let lrf = int_field(lines[q], 33, 44);
    0 <= q < lines.len() && lrf != 0 && (lru == 0 || lru == 1) && !resolved_known(lrf)
}

/// The line after the range at `lines[q]` of an isotope with LFW `lfw`.
pub open spec fn range_end(lines: Seq<Seq<char>>, q: int, lfw: int) -> int {
    let lru = int_field(lines[q], 22, 33);
    let lrf = int_field(lines[q], 33, 44);
    let nro = int_field(lines[q], 44, 55);
    let p = q + 1;
    if lrf == 0 {
        p + 1
    } else if lru == 0 || lru == 1 {
        if lrf == 1 || lrf == 2 || lrf == 3 {
            resolved_end(lines, p, nro)
        } else {
            rml_end(lines, p)
        }
    } else if lru == 2 {
        unresolved_end(lines, p, lfw, lrf, nro)
    } else {
        p
    }
}

/// Whether the range at `lines[q]` of an isotope with LFW `lfw` is read
/// whole: it fits, in a formalism this reader knows.
pub open spec fn range_fits(lines: Seq<Seq<char>>, q: int, lfw: int) -> bool {
    let lru = int_field(lines[q], 22, 33);
    let lrf = int_field(lines[q], 33, 44);
    let nro = int_field(lines[q], 44, 55);
    let p = q + 1;
    &&& 0 <= q < lines.len()
    &&& if lrf == 0 {
        p < lines.len()
    } else if lru == 0 || lru == 1 {
        if lrf == 1 || lrf == 2 || lrf == 3 {
            resolved_fits(lines, p, nro)
        } else if lrf == 7 {
            rml_fits(lines, p)
        } else {
            false
        }
    } else if lru == 2 {
        unresolved_fits(lines, p, lfw, lrf, nro)
    } else {
        true
    }
}

/// What the parameters of the range at `lines[q]` of an isotope with LFW
/// `lfw` hold.
pub open spec fn parameters_matches(pm: ResonanceParameters, lines: Seq<Seq<char>>, q: int, lfw: int) -> bool {
    let lru = int_field(lines[q], 22, 33);
    let lrf = int_field(lines[q], 33, 44);
    let nro = int_field(lines[q], 44, 55);
    let p = q + 1;
    if lrf == 0 {
        &&& pm matches ResonanceParameters::ScatteringRadius { spi, ap, nls }
        &&& spi@ == field_of(lines[p], 0, 11)
        &&& ap@ == field_of(lines[p], 11, 22)
        &&& nls == int_field(lines[p], 44, 55)
    } else if lru == 0 || lru == 1 {
        if lrf == 1 || lrf == 2 {
            pm matches ResonanceParameters::BreitWigner(b) && bw_matches(b, lines, p, nro)
        } else if lrf == 3 {
            pm matches ResonanceParameters::ReichMoore(b) && rm_matches(b, lines, p, nro)
        } else {
            pm matches ResonanceParameters::RMatrixLimited(b) && rml_matches(*b, lines, p)
        }
    } else if lru == 2 {
        pm matches ResonanceParameters::Unresolved(u) && unresolved_matches(*u, lines, p, lfw, lrf, nro)
    } else {
        pm is Absent
    }
}

/// What the range read from `lines[q]` onwards holds.
pub open spec fn range_matches(r: ResonanceRange, lines: Seq<Seq<char>>, q: int, lfw: int) -> bool {
    &&& r.el@ == field_of(lines[q], 0, 11)
    &&& r.eh@ == field_of(lines[q], 11, 22)
    &&& r.lru == int_field(lines[q], 22, 33)
    &&& r.lrf == int_field(lines[q], 33, 44)
    &&& r.nro == int_field(lines[q], 44, 55)
    &&& r.naps == int_field(lines[q], 55, 66)
    &&& parameters_matches(r.parameters, lines, q, lfw)
}

/// Read one energy range of an isotope with LFW `lfw`.
#[verifier::rlimit(40)]
fn read_range(reader: &mut Reader, lfw: i64) -> (r: Result<ResonanceRange>)
    requires
        old(reader).wf(),
    ensures
        final(reader).wf(),
        final(reader).lines_view() == old(reader).lines_view(),
        range_fits(old(reader).lines_view(), old(reader).position(), lfw as int) ==> {
            &&& r matches Ok(g) && range_matches(g, old(reader).lines_view(), old(reader).position(), lfw as int)
            &&& final(reader).position() == range_end(old(reader).lines_view(), old(reader).position(), lfw as int)
        },
        !range_fits(old(reader).lines_view(), old(reader).position(), lfw as int) ==> r is Err,
        r matches Err(e) ==> e is UnexpectedEof || e is Unsupported,
        (r matches Err(e) && e is Unsupported) <==> range_unsupported(
            old(reader).lines_view(),
            old(reader).position(),
        ),
{
    proof {
        reader.lemma_position_nonneg();
    }
    let c = reader.cont_record()?;
    let lru = c.l1;
    let lrf = c.l2;
    let nro = c.n1;
    let parameters = if lrf == 0 {
        let h = reader.cont_record()?;
        ResonanceParameters::ScatteringRadius { spi: h.c1, ap: h.c2, nls: h.n1 }
    } else if lru == 0 || lru == 1 {
        if lrf == 1 || lrf == 2 {
            ResonanceParameters::BreitWigner(parse_breit_wigner(reader, nro)?)
        } else if lrf == 3 {
            ResonanceParameters::ReichMoore(parse_reich_moore(reader, nro)?)
        } else if lrf == 4 {
            return Err(Error::Unsupported { what: "the Adler-Adler resonance formalism (MF=2, LRF=4)" });
        } else if lrf == 7 {
            ResonanceParameters::RMatrixLimited(Box::new(parse_r_matrix_limited(reader)?))
        } else {
            return Err(Error::Unsupported { what: "an unrecognised MF=2 resonance formalism" });
        }
    } else if lru == 2 {
        // LRU is what says resolved or unresolved; LRF only selects the
        // formalism within the range.
        ResonanceParameters::Unresolved(Box::new(parse_unresolved(reader, lfw, lrf, nro)?))
    } else {
        ResonanceParameters::Absent
    };
    Ok(ResonanceRange { el: c.c1, eh: c.c2, lru, lrf, nro, naps: c.n2, parameters })
}

/// Where the `k`-th of a run of ranges from `lines[at]` starts.
pub open spec fn range_at(lines: Seq<Seq<char>>, at: int, k: int, lfw: int) -> int
    decreases k,
{
    if k <= 0 {
        at
    } else {
        range_end(lines, range_at(lines, at, k - 1, lfw), lfw)
    }
}

/// Whether `k` ranges from `lines[at]` are read whole.
pub open spec fn ranges_fit(lines: Seq<Seq<char>>, at: int, k: int, lfw: int) -> bool
    decreases k,
{
    if k <= 0 {
        true
    } else {
        ranges_fit(lines, at, k - 1, lfw) && range_fits(lines, range_at(lines, at, k - 1, lfw), lfw)
    }
}

/// Whether reading `n` ranges from `lines[at]` meets a formalism this
/// reader does not know.
pub open spec fn ranges_unsupported(lines: Seq<Seq<char>>, at: int, n: int, lfw: int) -> bool {
    exists|k: int|
        0 <= k < n && #[trigger] ranges_fit(lines, at, k, lfw) && range_unsupported(
            lines,
            range_at(lines, at, k, lfw),
        )
}

proof fn lemma_ranges_each(lines: Seq<Seq<char>>, at: int, j: int, n: int, lfw: int)
    requires
        0 <= j < n,
        ranges_fit(lines, at, n, lfw),
    ensures
        ranges_fit(lines, at, j, lfw),
        range_fits(lines, range_at(lines, at, j, lfw), lfw),
    decreases n - j,
{
    if j + 1 < n {
        lemma_ranges_each(lines, at, j + 1, n, lfw);
    }
}

proof fn lemma_ranges_fit_supported(lines: Seq<Seq<char>>, at: int, n: int, lfw: int)
    requires
        ranges_fit(lines, at, n, lfw),
    ensures
        !ranges_unsupported(lines, at, n, lfw),
{
    assert forall|k: int| 0 <= k < n && #[trigger] ranges_fit(lines, at, k, lfw) implies !range_unsupported(
        lines,
        range_at(lines, at, k, lfw),
    ) by {
        lemma_ranges_each(lines, at, k, n, lfw);
    }
}

proof fn lemma_ranges_stop(lines: Seq<Seq<char>>, at: int, k: int, n: int, lfw: int)
    requires
        0 <= k < n,
        ranges_fit(lines, at, k, lfw),
        !range_fits(lines, range_at(lines, at, k, lfw), lfw),
    ensures
        !ranges_fit(lines, at, n, lfw),
        ranges_unsupported(lines, at, n, lfw) <==> range_unsupported(lines, range_at(lines, at, k, lfw)),
{
    if ranges_fit(lines, at, n, lfw) {
        lemma_ranges_each(lines, at, k, n, lfw);
    }
    if ranges_unsupported(lines, at, n, lfw) {
        let m = choose|m: int|
            0 <= m < n && #[trigger] ranges_fit(lines, at, m, lfw) && range_unsupported(
                lines,
                range_at(lines, at, m, lfw),
            );
        if m < k {
            lemma_ranges_each(lines, at, m, k, lfw);
        } else if m > k {
            lemma_ranges_each(lines, at, k, m, lfw);
        }
    }
    if range_unsupported(lines, range_at(lines, at, k, lfw)) {
        assert(ranges_fit(lines, at, k, lfw));
    }
}

/// How many ranges the isotope at `lines[i]` has.
pub open spec fn isotope_count(lines: Seq<Seq<char>>, i: int) -> int {
    at_least_zero(int_field(lines[i], 44, 55))
}

/// The LFW of the isotope at `lines[i]`.
pub open spec fn isotope_lfw(lines: Seq<Seq<char>>, i: int) -> int {
    int_field(lines[i], 33, 44)
}

/// The line after the isotope at `lines[i]`.
pub open spec fn isotope_end(lines: Seq<Seq<char>>, i: int) -> int {
    range_at(lines, i + 1, isotope_count(lines, i), isotope_lfw(lines, i))
}

/// Whether the isotope at `lines[i]` is read whole.
pub open spec fn isotope_fits(lines: Seq<Seq<char>>, i: int) -> bool {
    0 <= i < lines.len() && ranges_fit(lines, i + 1, isotope_count(lines, i), isotope_lfw(lines, i))
}

/// Whether reading the isotope at `lines[i]` meets a formalism this reader
/// does not know.
pub open spec fn isotope_unsupported(lines: Seq<Seq<char>>, i: int) -> bool {
    0 <= i < lines.len() && ranges_unsupported(lines, i + 1, isotope_count(lines, i), isotope_lfw(lines, i))
}

/// What the isotope read from `lines[i]` onwards holds.
pub open spec fn isotope_matches(iso: Isotope, lines: Seq<Seq<char>>, i: int) -> bool {
    let n = isotope_count(lines, i);
    let lfw = isotope_lfw(lines, i);
    &&& iso.zai@ == field_of(lines[i], 0, 11)
    &&& iso.abn@ == field_of(lines[i], 11, 22)
    &&& iso.lfw == lfw
    &&& iso.ner == int_field(lines[i], 44, 55)
    &&& iso.ranges@.len() == n
    &&& forall|k: int|
        0 <= k < n ==> range_matches(#[trigger] iso.ranges@[k], lines, range_at(lines, i + 1, k, lfw), lfw)
}

/// Read one isotope.
fn read_isotope(reader: &mut Reader) -> (r: Result<Isotope>)
    requires
        old(reader).wf(),
    ensures
        final(reader).wf(),
        final(reader).lines_view() == old(reader).lines_view(),
        isotope_fits(old(reader).lines_view(), old(reader).position()) ==> {
            &&& r matches Ok(g) && isotope_matches(g, old(reader).lines_view(), old(reader).position())
            &&& final(reader).position() == isotope_end(old(reader).lines_view(), old(reader).position())
        },
        !isotope_fits(old(reader).lines_view(), old(reader).position()) ==> r is Err,
        r matches Err(e) ==> e is UnexpectedEof || e is Unsupported,
        (r matches Err(e) && e is Unsupported) <==> isotope_unsupported(
            old(reader).lines_view(),
            old(reader).position(),
        ),
{
    let ghost lines = reader.lines_view();
    let ghost i = reader.position();
    proof {
        reader.lemma_position_nonneg();
    }
    let c = reader.cont_record()?;
    let lfw = c.l2;
    let ner = c.n1;
    let ghost count = at_least_zero(ner as int);
    let mut ranges: Vec<ResonanceRange> = Vec::new();
    let mut k: i64 = 0;
    while k < ner
        invariant
            reader.wf(),
            reader.lines_view() == lines,
            lines == old(reader).lines_view(),
            i == old(reader).position(),
            0 <= i < lines.len(),
            lfw == isotope_lfw(lines, i),
            ner == int_field(lines[i], 44, 55),
            count == at_least_zero(ner as int),
            0 <= k <= count,
            reader.position() == range_at(lines, i + 1, k as int, lfw as int),
            ranges_fit(lines, i + 1, k as int, lfw as int),
            ranges@.len() == k,
            forall|j: int|
                0 <= j < k ==> range_matches(
                    #[trigger] ranges@[j],
                    lines,
                    range_at(lines, i + 1, j, lfw as int),
                    lfw as int,
                ),
        decreases ner - k,
    {
        let g = match read_range(reader, lfw) {
            Ok(g) => g,
            Err(e) => {
                proof {
                    lemma_ranges_stop(lines, i + 1, k as int, count, lfw as int);
                }
                return Err(e);
            },
        };
        ranges.push(g);
        k = k + 1;
    }
    proof {
        lemma_ranges_fit_supported(lines, i + 1, count, lfw as int);
    }
    Ok(Isotope { zai: c.c1, abn: c.c2, lfw, ner, ranges })
}

/// Where the `k`-th of a run of isotopes from `lines[at]` starts.
pub open spec fn isotope_at(lines: Seq<Seq<char>>, at: int, k: int) -> int
    decreases k,
{
    if k <= 0 {
        at
    } else {
        isotope_end(lines, isotope_at(lines, at, k - 1))
    }
}

/// Whether `k` isotopes from `lines[at]` are read whole.
pub open spec fn isotopes_fit(lines: Seq<Seq<char>>, at: int, k: int) -> bool
    decreases k,
{
    if k <= 0 {
        true
    } else {
        isotopes_fit(lines, at, k - 1) && isotope_fits(lines, isotope_at(lines, at, k - 1))
    }
}

/// Whether reading `n` isotopes from `lines[at]` meets a formalism this
/// reader does not know.
pub open spec fn isotopes_unsupported(lines: Seq<Seq<char>>, at: int, n: int) -> bool {
    exists|k: int|
        0 <= k < n && #[trigger] isotopes_fit(lines, at, k) && isotope_unsupported(
            lines,
            isotope_at(lines, at, k),
        )
}

proof fn lemma_isotopes_each(lines: Seq<Seq<char>>, at: int, j: int, n: int)
    requires
        0 <= j < n,
        isotopes_fit(lines, at, n),
    ensures
        isotopes_fit(lines, at, j),
        isotope_fits(lines, isotope_at(lines, at, j)),
    decreases n - j,
{
    if j + 1 < n {
        lemma_isotopes_each(lines, at, j + 1, n);
    }
}

proof fn lemma_isotopes_fit_supported(lines: Seq<Seq<char>>, at: int, n: int)
    requires
        isotopes_fit(lines, at, n),
    ensures
        !isotopes_unsupported(lines, at, n),
{
    assert forall|k: int| 0 <= k < n && #[trigger] isotopes_fit(lines, at, k) implies !isotope_unsupported(
        lines,
        isotope_at(lines, at, k),
    ) by {
        lemma_isotopes_each(lines, at, k, n);
        let i = isotope_at(lines, at, k);
        lemma_ranges_fit_supported(lines, i + 1, isotope_count(lines, i), isotope_lfw(lines, i));
    }
}

proof fn lemma_isotopes_stop(lines: Seq<Seq<char>>, at: int, k: int, n: int)
    requires
        0 <= k < n,
        isotopes_fit(lines, at, k),
        !isotope_fits(lines, isotope_at(lines, at, k)),
    ensures
        !isotopes_fit(lines, at, n),
        isotopes_unsupported(lines, at, n) <==> isotope_unsupported(lines, isotope_at(lines, at, k)),
{
    if isotopes_fit(lines, at, n) {
        lemma_isotopes_each(lines, at, k, n);
    }
    if isotopes_unsupported(lines, at, n) {
        let m = choose|m: int|
            0 <= m < n && #[trigger] isotopes_fit(lines, at, m) && isotope_unsupported(
                lines,
                isotope_at(lines, at, m),
            );
        if m < k {
            lemma_isotopes_each(lines, at, m, k);
            let i = isotope_at(lines, at, m);
            lemma_ranges_fit_supported(lines, i + 1, isotope_count(lines, i), isotope_lfw(lines, i));
        } else if m > k {
            lemma_isotopes_each(lines, at, k, m);
        }
    }
    if isotope_unsupported(lines, isotope_at(lines, at, k)) {
        assert(isotopes_fit(lines, at, k));
    }
}

/// Whether the lines from `at` hold a whole MF=2 MT=151 section in
/// formalisms this reader knows: its HEAD record and NIS isotopes.
pub open spec fn mf2_fits(lines: Seq<Seq<char>>, at: int) -> bool {
    &&& 0 <= at < lines.len()
    &&& isotopes_fit(lines, at + 1, at_least_zero(int_field(lines[at], 44, 55)))
}

/// What an MF=2 MT=151 section read from `lines[at]` onwards holds.
pub open spec fn mf2_matches(d: Mf2, lines: Seq<Seq<char>>, at: int) -> bool {
    let n = at_least_zero(int_field(lines[at], 44, 55));
    &&& d.za@ == field_of(lines[at], 0, 11)
    &&& d.awr@ == field_of(lines[at], 11, 22)
    &&& d.nis == int_field(lines[at], 44, 55)
    &&& d.isotopes@.len() == n
    &&& forall|k: int| 0 <= k < n ==> isotope_matches(#[trigger] d.isotopes@[k], lines, isotope_at(lines, at + 1, k))
}

/// Parse MF=2 MT=151.
pub fn parse_mf2(reader: &mut Reader) -> (r: Result<Mf2>)
    requires
        old(reader).wf(),
    ensures
        final(reader).wf(),
        mf2_fits(old(reader).lines_view(), old(reader).position()) ==> (r matches Ok(d) && mf2_matches(
            d,
            old(reader).lines_view(),
            old(reader).position(),
        )),
        !mf2_fits(old(reader).lines_view(), old(reader).position()) ==> r is Err,
        r matches Err(e) ==> e is UnexpectedEof || e is Unsupported,
        (r matches Err(e) && e is Unsupported) <==> ({
            let lines = old(reader).lines_view();
            let at = old(reader).position();
            0 <= at < lines.len() && isotopes_unsupported(lines, at + 1, at_least_zero(int_field(lines[at], 44, 55)))
        }),
{
    let ghost lines = reader.lines_view();
    let ghost at = reader.position();
    proof {
        reader.lemma_position_nonneg();
    }
    let head = reader.cont_record()?;
    let nis = head.n1;
    let ghost count = at_least_zero(nis as int);
    let mut isotopes: Vec<Isotope> = Vec::new();
    let mut k: i64 = 0;
    while k < nis
        invariant
            reader.wf(),
            reader.lines_view() == lines,
            lines == old(reader).lines_view(),
            at == old(reader).position(),
            0 <= at < lines.len(),
            nis == int_field(lines[at], 44, 55),
            count == at_least_zero(nis as int),
            0 <= k <= count,
            reader.position() == isotope_at(lines, at + 1, k as int),
            isotopes_fit(lines, at + 1, k as int),
            isotopes@.len() == k,
            forall|j: int|
                0 <= j < k ==> isotope_matches(#[trigger] isotopes@[j], lines, isotope_at(lines, at + 1, j)),
        decreases nis - k,
    {
        let iso = match read_isotope(reader) {
            Ok(i) => i,
            Err(e) => {
                proof {
                    lemma_isotopes_stop(lines, at + 1, k as int, count);
                }
                return Err(e);
            },
        };
        isotopes.push(iso);
        k = k + 1;
    }
    proof {
        lemma_isotopes_fit_supported(lines, at + 1, count);
    }
    Ok(Mf2 { za: head.c1, awr: head.c2, nis, isotopes })
}

} // verus!
