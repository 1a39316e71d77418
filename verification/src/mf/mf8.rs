//! MF=8, radioactive decay, fission product yields and nuclide production,
//! and MF=9 and MF=10, the multiplicities and production cross sections of
//! the isomeric states a reaction produces.
//!
//! These are what a transmutation network is built from: MT=457 gives decay
//! modes and spectra, MT=454/459 the fission yields, and the general MF=8
//! sections the radioactive products of a reaction. Real-valued fields are
//! kept as the text of their fields.

use vstd::prelude::*;

use crate::error::Result;
use crate::mf::list::{
    alternate_len, alternate_matches, at_least_zero, column, column_matches, every_other, item, item_text,
    lemma_items, lemma_lists_stop, lemma_tab1s_stop, list_at, list_fits, list_len, list_pair, list_value, lists_fit,
    tab1_at, tab1_fits, tab1_len, tab1s_fit,
};
use crate::records::{cont_matches, count_exec, count_field, field_of, int_field, tab1_matches, values_match, Cont, ListRecord, Reader, Tab1};

verus! {

/// MF=9 (multiplicities) and MF=10 (production cross sections) for the
/// isomeric states a reaction produces. The real-valued fields are kept as
/// the text of their fields.
#[derive(Debug, Clone, PartialEq, Eq)]
pub struct Mf9Mf10 {
    pub za: String,
    pub awr: String,
    pub lis: i64,
    pub ns: i64,
    /// 9 or 10, which says whether `func` is a multiplicity or a cross section.
    pub mf: i64,
    pub levels: Vec<IsomerLevel>,
}

/// One isomeric state of the product.
#[derive(Debug, Clone, PartialEq, Eq)]
pub struct IsomerLevel {
    pub qm: String,
    pub qi: String,
    /// ZA of the product.
    pub izap: i64,
    /// Isomeric state number.
    pub lfs: i64,
    /// The multiplicity for MF=9, the cross section for MF=10.
    pub func: Tab1,
}

/// Whether the lines from `at` hold a whole MF=9 or MF=10 section.
pub open spec fn mf9_mf10_fits(lines: Seq<Seq<char>>, at: int) -> bool {
    &&& at < lines.len()
    &&& tab1s_fit(lines, at + 1, at_least_zero(int_field(lines[at], 44, 55)))
}

/// What an MF=9 or MF=10 section read from `lines[at]` onwards holds.
pub open spec fn mf9_mf10_matches(d: Mf9Mf10, mf: i64, lines: Seq<Seq<char>>, at: int) -> bool {
    let ns = at_least_zero(int_field(lines[at], 44, 55));
    &&& d.za@ == field_of(lines[at], 0, 11)
    &&& d.awr@ == field_of(lines[at], 11, 22)
    &&& d.lis == int_field(lines[at], 22, 33)
    &&& d.ns == int_field(lines[at], 44, 55)
    &&& d.mf == mf
    &&& d.levels@.len() == ns
    &&& forall|k: int|
        0 <= k < ns ==> {
            let l = #[trigger] d.levels@[k];
            &&& tab1_matches(l.func, lines, tab1_at(lines, at + 1, k))
            &&& l.qm == l.func.c1
            &&& l.qi == l.func.c2
            &&& l.izap == l.func.l1
            &&& l.lfs == l.func.l2
        }
}

/// Parse an MF=9 or MF=10 section.
pub fn parse_mf9_mf10(reader: &mut Reader, mf: i64) -> (r: Result<Mf9Mf10>)
    requires
        old(reader).wf(),
    ensures
        final(reader).wf(),
        mf9_mf10_fits(old(reader).lines_view(), old(reader).position()) ==> (r matches Ok(d)
            && mf9_mf10_matches(d, mf, old(reader).lines_view(), old(reader).position())),
        !mf9_mf10_fits(old(reader).lines_view(), old(reader).position()) ==> r is Err,
        r matches Err(e) ==> e is UnexpectedEof,
{
    let ghost lines = reader.lines_view();
    let ghost at = reader.position();
    let head: Cont = reader.cont_record()?;
    let ns = head.n1;
    let mut levels: Vec<IsomerLevel> = Vec::new();
    let mut k: i64 = 0;
    while k < ns
        invariant
            reader.wf(),
            reader.lines_view() == lines,
            lines == old(reader).lines_view(),
            at == old(reader).position(),
            at < lines.len(),
            ns == int_field(lines[at], 44, 55),
            0 <= k,
            k <= at_least_zero(ns as int),
            reader.position() == tab1_at(lines, at + 1, k as int),
            tab1s_fit(lines, at + 1, k as int),
            levels@.len() == k,
            forall|j: int|
                0 <= j < k ==> {
                    let l = #[trigger] levels@[j];
                    &&& tab1_matches(l.func, lines, tab1_at(lines, at + 1, j))
                    &&& l.qm == l.func.c1
                    &&& l.qi == l.func.c2
                    &&& l.izap == l.func.l1
                    &&& l.lfs == l.func.l2
                },
        decreases ns - k,
    {
        let tab = match reader.tab1_record() {
            Ok(t) => t,
            Err(e) => {
                proof {
                    lemma_tab1s_stop(lines, at + 1, k as int, at_least_zero(ns as int));
                }
                return Err(e);
            },
        };
        levels.push(IsomerLevel { qm: tab.c1.clone(), qi: tab.c2.clone(), izap: tab.l1, lfs: tab.l2, func: tab });
        k = k + 1;
    }
    Ok(Mf9Mf10 { za: head.c1, awr: head.c2, lis: head.l1, ns: head.n1, mf, levels })
}

/// A value with its uncertainty, as MF=8 stores most quantities, each kept
/// as the text of its field.
#[derive(Debug, Clone, PartialEq, Eq)]
pub struct WithUncertainty {
    pub value: String,
    pub uncertainty: String,
}

/// The texts of a value and its uncertainty.
pub open spec fn pair_view(v: WithUncertainty) -> (Seq<char>, Seq<char>) {
    (v.value@, v.uncertainty@)
}

/// Values `i` and `i + 1` of a LIST record.
fn item_pair(values: &Vec<String>, i: u128) -> (r: WithUncertainty)
    requires
        i < u128::MAX,
    ensures
        pair_view(r) == (item_text(values@, i as int), item_text(values@, i + 1)),
{
    WithUncertainty { value: item(values, i), uncertainty: item(values, i + 1) }
}

/// MF=8 for a reaction: the radioactive nuclides it produces.
#[derive(Debug, Clone, PartialEq, Eq)]
pub struct Mf8 {
    pub za: String,
    pub awr: String,
    pub lis: i64,
    pub liso: i64,
    pub ns: i64,
    /// 0 when the decay chain is given here, 1 when it is in MT=457.
    pub no: i64,
    pub subsections: Vec<ProductionSubsection>,
}

/// One radioactive product of the reaction.
#[derive(Debug, Clone, PartialEq, Eq)]
pub struct ProductionSubsection {
    pub zap: String,
    pub elfs: String,
    /// Which file the production cross section is in.
    pub lmf: i64,
    pub lfs: i64,
    /// Number of decay chain entries. `None` when NO=1 and the chain is
    /// elsewhere.
    pub nd: Option<i64>,
    pub hl: Vec<String>,
    pub rtyp: Vec<String>,
    pub zan: Vec<String>,
    pub br: Vec<String>,
    pub end: Vec<String>,
    pub ct: Vec<String>,
}

/// Whether the lines from `at` hold a whole general MF=8 section: its HEAD
/// record, then one LIST record per product when NO=0, or one CONT record
/// per product otherwise.
pub open spec fn mf8_fits(lines: Seq<Seq<char>>, at: int) -> bool {
    &&& 0 <= at < lines.len()
    &&& if int_field(lines[at], 55, 66) == 0 {
        lists_fit(lines, at + 1, at_least_zero(int_field(lines[at], 44, 55)))
    } else {
        at + 1 + at_least_zero(int_field(lines[at], 44, 55)) <= lines.len()
    }
}

/// What the product whose record is at `lines[p]` holds.
pub open spec fn production_matches(s: ProductionSubsection, no: int, lines: Seq<Seq<char>>, p: int) -> bool {
    &&& s.zap@ == field_of(lines[p], 0, 11)
    &&& s.elfs@ == field_of(lines[p], 11, 22)
    &&& s.lmf == int_field(lines[p], 22, 33)
    &&& s.lfs == int_field(lines[p], 33, 44)
    &&& if no == 0 {
        &&& s.nd == Some((count_field(lines[p], 44, 55) / 6) as i64)
        &&& column_matches(s.hl@, lines, p, 0)
        &&& column_matches(s.rtyp@, lines, p, 1)
        &&& column_matches(s.zan@, lines, p, 2)
        &&& column_matches(s.br@, lines, p, 3)
        &&& column_matches(s.end@, lines, p, 4)
        &&& column_matches(s.ct@, lines, p, 5)
    } else {
        &&& s.nd is None
        &&& s.hl@.len() == 0 && s.rtyp@.len() == 0 && s.zan@.len() == 0
        &&& s.br@.len() == 0 && s.end@.len() == 0 && s.ct@.len() == 0
    }
}

/// Where the record of product `k` of a general MF=8 section at `at` is.
pub open spec fn production_at(lines: Seq<Seq<char>>, at: int, k: int) -> int {
    if int_field(lines[at], 55, 66) == 0 {
        list_at(lines, at + 1, k)
    } else {
        at + 1 + k
    }
}

/// What a general MF=8 section read from `lines[at]` onwards holds.
pub open spec fn mf8_matches(d: Mf8, lines: Seq<Seq<char>>, at: int) -> bool {
    let ns = at_least_zero(int_field(lines[at], 44, 55));
    &&& d.za@ == field_of(lines[at], 0, 11)
    &&& d.awr@ == field_of(lines[at], 11, 22)
    &&& d.lis == int_field(lines[at], 22, 33)
    &&& d.liso == int_field(lines[at], 33, 44)
    &&& d.ns == int_field(lines[at], 44, 55)
    &&& d.no == int_field(lines[at], 55, 66)
    &&& d.subsections@.len() == ns
    &&& forall|k: int|
        0 <= k < ns ==> production_matches(
            #[trigger] d.subsections@[k],
            d.no as int,
            lines,
            production_at(lines, at, k),
        )
}

/// The product a LIST record describes, its decay chain in six columns.
fn production_from_list(list: ListRecord, Ghost(lines): Ghost<Seq<Seq<char>>>, Ghost(p): Ghost<int>) -> (s: ProductionSubsection)
    requires
        0 <= p < lines.len(),
        cont_matches(list.cont, lines[p]),
        values_match(lines, p + 1, count_field(lines[p], 44, 55), list.values@),
    ensures
        production_matches(s, 0, lines, p),
{
    proof {
        lemma_items(lines, p, list.values@);
    }
    let v = &list.values;
    let nd: i64 = (v.len() / 6) as i64;
    ProductionSubsection {
        zap: list.cont.c1.clone(),
        elfs: list.cont.c2.clone(),
        lmf: list.cont.l1,
        lfs: list.cont.l2,
        nd: Some(nd),
        hl: column(v, 0),
        rtyp: column(v, 1),
        zan: column(v, 2),
        br: column(v, 3),
        end: column(v, 4),
        ct: column(v, 5),
    }
}

/// Parse a general MF=8 section.
pub fn parse_mf8(reader: &mut Reader) -> (r: Result<Mf8>)
    requires
        old(reader).wf(),
    ensures
        final(reader).wf(),
        mf8_fits(old(reader).lines_view(), old(reader).position()) ==> (r matches Ok(d)
            && mf8_matches(d, old(reader).lines_view(), old(reader).position())),
        !mf8_fits(old(reader).lines_view(), old(reader).position()) ==> r is Err,
        r matches Err(e) ==> e is UnexpectedEof,
{
    let ghost lines = reader.lines_view();
    let ghost at = reader.position();
    proof {
        reader.lemma_position_nonneg();
    }
    let head: Cont = reader.cont_record()?;
    let no = head.n2;
    let ns = head.n1;
    let mut subsections: Vec<ProductionSubsection> = Vec::new();
    let mut k: i64 = 0;
    while k < ns
        invariant
            reader.wf(),
            reader.lines_view() == lines,
            lines == old(reader).lines_view(),
            at == old(reader).position(),
            0 <= at < lines.len(),
            cont_matches(head, lines[at]),
            no == head.n2,
            ns == head.n1,
            0 <= k,
            k <= at_least_zero(ns as int),
            reader.position() == production_at(lines, at, k as int),
            no == 0 ==> lists_fit(lines, at + 1, k as int),
            no != 0 ==> at + 1 + k <= lines.len(),
            subsections@.len() == k,
            forall|j: int|
                0 <= j < k ==> production_matches(
                    #[trigger] subsections@[j],
                    no as int,
                    lines,
                    production_at(lines, at, j),
                ),
        decreases ns - k,
    {
        let ghost p = reader.position();
        let sub = if no == 0 {
            let list = match reader.list_record() {
                Ok(l) => l,
                Err(e) => {
                    proof {
                        lemma_lists_stop(lines, at + 1, k as int, at_least_zero(ns as int));
                    }
                    return Err(e);
                },
            };
            production_from_list(list, Ghost(lines), Ghost(p))
        } else {
            let c = reader.cont_record()?;
            ProductionSubsection {
                zap: c.c1,
                elfs: c.c2,
                lmf: c.l1,
                lfs: c.l2,
                nd: None,
                hl: Vec::new(),
                rtyp: Vec::new(),
                zan: Vec::new(),
                br: Vec::new(),
                end: Vec::new(),
                ct: Vec::new(),
            }
        };
        subsections.push(sub);
        k = k + 1;
    }
    Ok(Mf8 { za: head.c1, awr: head.c2, lis: head.l1, liso: head.l2, ns, no, subsections })
}

/// MF=8 MT=454 or MT=459: fission product yields, independent or cumulative.
#[derive(Debug, Clone, PartialEq, Eq)]
pub struct Mf8Mt454 {
    pub za: String,
    pub awr: String,
    /// One less than the number of incident energies.
    pub le: i64,
    pub yields: Vec<FissionYields>,
}

/// The yields at one incident energy.
#[derive(Debug, Clone, PartialEq, Eq)]
pub struct FissionYields {
    pub energy: String,
    pub nn: i64,
    pub nfp: i64,
    /// LE+1 for the first energy, the interpolation scheme for the rest. The
    /// format overloads the same field.
    pub le_or_interpolation: i64,
    pub products: Vec<FissionProduct>,
}

/// One fission product and its yield.
#[derive(Debug, Clone, PartialEq, Eq)]
pub struct FissionProduct {
    pub zafp: String,
    /// Isomeric state of the product.
    pub fps: String,
    /// The yield and its uncertainty.
    pub y: WithUncertainty,
}

/// Whether the lines from `at` hold a whole MF=8 MT=454 or MT=459 section:
/// its HEAD record and one LIST record per incident energy.
pub open spec fn mf8_mt454_fits(lines: Seq<Seq<char>>, at: int) -> bool {
    &&& 0 <= at < lines.len()
    &&& lists_fit(lines, at + 1, at_least_zero(int_field(lines[at], 22, 33)))
}

/// What the yields at one energy, read from the LIST record at `lines[p]`,
/// hold: four values per product.
pub open spec fn yields_matches(y: FissionYields, lines: Seq<Seq<char>>, p: int) -> bool {
    &&& y.energy@ == field_of(lines[p], 0, 11)
    &&& y.le_or_interpolation == int_field(lines[p], 22, 33)
    &&& y.nn == int_field(lines[p], 44, 55)
    &&& y.nfp == int_field(lines[p], 55, 66)
    &&& y.products@.len() == at_least_zero(y.nfp as int)
    &&& forall|j: int|
        0 <= j < y.products@.len() ==> {
            let f = #[trigger] y.products@[j];
            &&& f.zafp@ == list_value(lines, p, 4 * j)
            &&& f.fps@ == list_value(lines, p, 4 * j + 1)
            &&& pair_view(f.y) == list_pair(lines, p, 4 * j + 2)
        }
}

/// What an MF=8 MT=454 or MT=459 section read from `lines[at]` onwards
/// holds.
pub open spec fn mf8_mt454_matches(d: Mf8Mt454, lines: Seq<Seq<char>>, at: int) -> bool {
    let l1 = int_field(lines[at], 22, 33);
    &&& d.za@ == field_of(lines[at], 0, 11)
    &&& d.awr@ == field_of(lines[at], 11, 22)
    &&& d.le == (l1 as i64).wrapping_sub(1)
    &&& d.yields@.len() == at_least_zero(l1)
    &&& forall|k: int|
        0 <= k < d.yields@.len() ==> yields_matches(#[trigger] d.yields@[k], lines, list_at(lines, at + 1, k))
}

/// The yields that a LIST record gives.
fn yields_from_list(list: ListRecord, Ghost(lines): Ghost<Seq<Seq<char>>>, Ghost(p): Ghost<int>) -> (y: FissionYields)
    requires
        0 <= p < lines.len(),
        cont_matches(list.cont, lines[p]),
        values_match(lines, p + 1, count_field(lines[p], 44, 55), list.values@),
    ensures
        yields_matches(y, lines, p),
{
    proof {
        lemma_items(lines, p, list.values@);
    }
    let v = &list.values;
    let nfp = list.cont.n2;
    let mut products: Vec<FissionProduct> = Vec::new();
    let mut j: i64 = 0;
    while j < nfp
        invariant
            0 <= j,
            j <= at_least_zero(nfp as int),
            products@.len() == j,
            forall|k: int| #[trigger] item_text(v@, k) == list_value(lines, p, k),
            forall|i: int|
                0 <= i < j ==> {
                    let f = #[trigger] products@[i];
                    &&& f.zafp@ == list_value(lines, p, 4 * i)
                    &&& f.fps@ == list_value(lines, p, 4 * i + 1)
                    &&& pair_view(f.y) == list_pair(lines, p, 4 * i + 2)
                },
        decreases nfp - j,
    {
        let base: u128 = 4 * (j as u128);
        let zafp = item(v, base);
        let fps = item(v, base + 1);
        let y = item_pair(v, base + 2);
        products.push(FissionProduct { zafp, fps, y });
        j = j + 1;
    }
    FissionYields {
        energy: list.cont.c1.clone(),
        nn: list.cont.n1,
        nfp,
        le_or_interpolation: list.cont.l1,
        products,
    }
}

/// Parse MF=8 MT=454 or MT=459.
pub fn parse_mf8_mt454(reader: &mut Reader) -> (r: Result<Mf8Mt454>)
    requires
        old(reader).wf(),
    ensures
        final(reader).wf(),
        mf8_mt454_fits(old(reader).lines_view(), old(reader).position()) ==> (r matches Ok(d)
            && mf8_mt454_matches(d, old(reader).lines_view(), old(reader).position())),
        !mf8_mt454_fits(old(reader).lines_view(), old(reader).position()) ==> r is Err,
        r matches Err(e) ==> e is UnexpectedEof,
{
    let ghost lines = reader.lines_view();
    let ghost at = reader.position();
    proof {
        reader.lemma_position_nonneg();
    }
    let head: Cont = reader.cont_record()?;
    let le = head.l1.wrapping_sub(1);
    let n = head.l1;
    let mut yields: Vec<FissionYields> = Vec::new();
    let mut k: i64 = 0;
    while k < n
        invariant
            reader.wf(),
            reader.lines_view() == lines,
            lines == old(reader).lines_view(),
            at == old(reader).position(),
            0 <= at < lines.len(),
            cont_matches(head, lines[at]),
            n == head.l1,
            0 <= k,
            k <= at_least_zero(n as int),
            reader.position() == list_at(lines, at + 1, k as int),
            lists_fit(lines, at + 1, k as int),
            yields@.len() == k,
            forall|j: int|
                0 <= j < k ==> yields_matches(#[trigger] yields@[j], lines, list_at(lines, at + 1, j)),
        decreases n - k,
    {
        let ghost p = reader.position();
        let list = match reader.list_record() {
            Ok(l) => l,
            Err(e) => {
                proof {
                    lemma_lists_stop(lines, at + 1, k as int, at_least_zero(n as int));
                }
                return Err(e);
            },
        };
        yields.push(yields_from_list(list, Ghost(lines), Ghost(p)));
        k = k + 1;
    }
    Ok(Mf8Mt454 { za: head.c1, awr: head.c2, le, yields })
}

/// The spectrum of one radiation type emitted in decay.
#[derive(Debug, Clone, PartialEq, Eq)]
pub struct Spectrum {
    /// Radiation type: 0 gamma, 1 beta-, 2 beta+, 4 alpha, and so on, as
    /// the text of the real-valued field the format puts it in.
    pub styp: String,
    /// 0 discrete only, 1 continuous only, 2 both.
    pub lcon: i64,
    pub lcov: i64,
    pub ner: i64,
    /// Discrete normalisation factor.
    pub fd: WithUncertainty,
    /// Average decay energy of this radiation type.
    pub er_av: WithUncertainty,
    /// Continuum normalisation factor.
    pub fc: WithUncertainty,
    pub discrete: Vec<DiscreteRadiation>,
    pub continuous: Option<ContinuousSpectrum>,
    pub continuous_covariance: Option<ContinuousCovariance>,
    pub discrete_covariance: Option<DiscreteCovariance>,
}

/// One discrete line. Its record always holds room for the internal pair
/// formation and conversion coefficients; which of them apply depends on
/// the spectrum's real-valued STYP (`ris` for 0 and 2, the others for 0
/// only), so all four are kept as written.
#[derive(Debug, Clone, PartialEq, Eq)]
pub struct DiscreteRadiation {
    pub er: WithUncertainty,
    pub rtyp: String,
    pub type_: String,
    /// Intensity.
    pub ri: WithUncertainty,
    /// Internal pair formation coefficient.
    pub ris: WithUncertainty,
    /// Total internal conversion coefficient.
    pub ricc: WithUncertainty,
    /// K-shell internal conversion coefficient.
    pub rick: WithUncertainty,
    /// L-shell internal conversion coefficient.
    pub ricl: WithUncertainty,
}

/// A continuous spectrum.
#[derive(Debug, Clone, PartialEq, Eq)]
pub struct ContinuousSpectrum {
    pub rtyp: String,
    pub rp: Tab1,
}

/// Covariance of a continuous spectrum.
#[derive(Debug, Clone, PartialEq, Eq)]
pub struct ContinuousCovariance {
    pub lb: i64,
    pub ek: Vec<String>,
    pub fk: Vec<String>,
}

/// Covariance of the discrete lines.
#[derive(Debug, Clone, PartialEq, Eq)]
pub struct DiscreteCovariance {
    pub ls: i64,
    pub lb: i64,
    pub ne: i64,
    pub nerp: i64,
    pub ek: Vec<String>,
    /// Packed upper-triangular covariance, as written.
    pub fkk: Vec<String>,
}

/// How many discrete lines the spectrum at `lines[p]` lists: NER, unless
/// LCON says the spectrum is continuous only.
pub open spec fn discrete_count(lines: Seq<Seq<char>>, p: int) -> int {
    if int_field(lines[p], 22, 33) != 1 {
        at_least_zero(int_field(lines[p], 55, 66))
    } else {
        0
    }
}

/// Whether the spectrum at `lines[p]` has a continuous part (LCON not 0).
pub open spec fn has_continuous(lines: Seq<Seq<char>>, p: int) -> bool {
    int_field(lines[p], 22, 33) != 0
}

/// Whether the spectrum at `lines[p]` gives the covariance of its
/// continuous part (LCOV 1 or 3, with a continuous part).
pub open spec fn has_continuous_covariance(lines: Seq<Seq<char>>, p: int) -> bool {
    let lcov = int_field(lines[p], 33, 44);
    !(lcov == 0 || lcov == 2) && has_continuous(lines, p)
}

/// Whether the spectrum at `lines[p]` gives the covariance of its discrete
/// lines (LCOV 2 or 3).
pub open spec fn has_discrete_covariance(lines: Seq<Seq<char>>, p: int) -> bool {
    let lcov = int_field(lines[p], 33, 44);
    !(lcov == 0 || lcov == 1)
}

/// Where the discrete lines of the spectrum at `lines[p]` start.
pub open spec fn discrete_start(lines: Seq<Seq<char>>, p: int) -> int {
    p + list_len(lines, p)
}

/// Where the continuous part of the spectrum at `lines[p]` would start.
pub open spec fn discrete_end(lines: Seq<Seq<char>>, p: int) -> int {
    list_at(lines, discrete_start(lines, p), discrete_count(lines, p))
}

/// Where the continuous covariance of the spectrum at `lines[p]` would
/// start.
pub open spec fn continuous_end(lines: Seq<Seq<char>>, p: int) -> int {
    let q = discrete_end(lines, p);
    if has_continuous(lines, p) {
        q + tab1_len(lines, q)
    } else {
        q
    }
}

/// Where the discrete covariance of the spectrum at `lines[p]` would start.
pub open spec fn continuous_covariance_end(lines: Seq<Seq<char>>, p: int) -> int {
    let q = continuous_end(lines, p);
    if has_continuous_covariance(lines, p) {
        q + list_len(lines, q)
    } else {
        q
    }
}

/// The line after the spectrum at `lines[p]`.
pub open spec fn spectrum_end(lines: Seq<Seq<char>>, p: int) -> int {
    let q = continuous_covariance_end(lines, p);
    if has_discrete_covariance(lines, p) {
        q + list_len(lines, q)
    } else {
        q
    }
}

/// Whether every record of the spectrum at `lines[p]` fits.
pub open spec fn spectrum_fits(lines: Seq<Seq<char>>, p: int) -> bool {
    &&& list_fits(lines, p)
    &&& lists_fit(lines, discrete_start(lines, p), discrete_count(lines, p))
    &&& has_continuous(lines, p) ==> tab1_fits(lines, discrete_end(lines, p))
    &&& has_continuous_covariance(lines, p) ==> list_fits(lines, continuous_end(lines, p))
    &&& has_discrete_covariance(lines, p) ==> list_fits(
        lines,
        continuous_covariance_end(lines, p),
    )
}

/// What a discrete line read from the LIST record at `lines[q]` holds.
pub open spec fn discrete_matches(r: DiscreteRadiation, lines: Seq<Seq<char>>, q: int) -> bool {
    &&& pair_view(r.er) == (field_of(lines[q], 0, 11), field_of(lines[q], 11, 22))
    &&& r.rtyp@ == list_value(lines, q, 0)
    &&& r.type_@ == list_value(lines, q, 1)
    &&& pair_view(r.ri) == list_pair(lines, q, 2)
    &&& pair_view(r.ris) == list_pair(lines, q, 4)
    &&& pair_view(r.ricc) == list_pair(lines, q, 6)
    &&& pair_view(r.rick) == list_pair(lines, q, 8)
    &&& pair_view(r.ricl) == list_pair(lines, q, 10)
}

/// What the covariance of discrete lines read from the LIST record at
/// `lines[q]` holds: the first NERP values are energies, the rest the
/// packed matrix.
pub open spec fn discrete_covariance_matches(c: DiscreteCovariance, lines: Seq<Seq<char>>, q: int) -> bool {
    let npl = count_field(lines[q], 44, 55);
    let nerp = count_field(lines[q], 55, 66);
    let split = if nerp < npl {
        nerp
    } else {
        npl
    };
    &&& c.ls == int_field(lines[q], 22, 33)
    &&& c.lb == int_field(lines[q], 33, 44)
    &&& c.ne == int_field(lines[q], 44, 55)
    &&& c.nerp == int_field(lines[q], 55, 66)
    &&& c.ek@.len() == split
    &&& forall|j: int| 0 <= j < split ==> #[trigger] c.ek@[j]@ == list_value(lines, q, j)
    &&& c.fkk@.len() == npl - split
    &&& forall|j: int| 0 <= j < npl - split ==> #[trigger] c.fkk@[j]@ == list_value(lines, q, split + j)
}

/// What a spectrum read from `lines[p]` onwards holds.
pub open spec fn spectrum_matches(s: Spectrum, lines: Seq<Seq<char>>, p: int) -> bool {
    let head = lines[p];
    &&& s.styp@ == field_of(head, 11, 22)
    &&& s.lcon == int_field(head, 22, 33)
    &&& s.lcov == int_field(head, 33, 44)
    &&& s.ner == int_field(head, 55, 66)
    &&& pair_view(s.fd) == list_pair(lines, p, 0)
    &&& pair_view(s.er_av) == list_pair(lines, p, 2)
    &&& pair_view(s.fc) == list_pair(lines, p, 4)
    &&& s.discrete@.len() == discrete_count(lines, p)
    &&& forall|j: int|
        0 <= j < s.discrete@.len() ==> discrete_matches(
            #[trigger] s.discrete@[j],
            lines,
            list_at(lines, discrete_start(lines, p), j),
        )
    &&& if has_continuous(lines, p) {
        s.continuous matches Some(c) && tab1_matches(c.rp, lines, discrete_end(lines, p))
            && c.rtyp == c.rp.c1
    } else {
        s.continuous is None
    }
    &&& if has_continuous_covariance(lines, p) {
        let q = continuous_end(lines, p);
        s.continuous_covariance matches Some(c) && c.lb == int_field(lines[q], 33, 44)
            && alternate_matches(c.ek@, lines, q, 0) && alternate_matches(c.fk@, lines, q, 1)
    } else {
        s.continuous_covariance is None
    }
    &&& if has_discrete_covariance(lines, p) {
        s.discrete_covariance matches Some(c) && discrete_covariance_matches(
            c,
            lines,
            continuous_covariance_end(lines, p),
        )
    } else {
        s.discrete_covariance is None
    }
}

/// The discrete line that a LIST record gives.
fn discrete_from_list(list: ListRecord, Ghost(lines): Ghost<Seq<Seq<char>>>, Ghost(q): Ghost<int>) -> (r: DiscreteRadiation)
    requires
        0 <= q < lines.len(),
        cont_matches(list.cont, lines[q]),
        values_match(lines, q + 1, count_field(lines[q], 44, 55), list.values@),
    ensures
        discrete_matches(r, lines, q),
{
    proof {
        lemma_items(lines, q, list.values@);
    }
    let v = &list.values;
    DiscreteRadiation {
        er: WithUncertainty { value: list.cont.c1.clone(), uncertainty: list.cont.c2.clone() },
        rtyp: item(v, 0),
        type_: item(v, 1),
        ri: item_pair(v, 2),
        ris: item_pair(v, 4),
        ricc: item_pair(v, 6),
        rick: item_pair(v, 8),
        ricl: item_pair(v, 10),
    }
}

/// The covariance of discrete lines that a LIST record gives.
fn discrete_covariance_from_list(list: ListRecord, Ghost(lines): Ghost<Seq<Seq<char>>>, Ghost(q): Ghost<int>) -> (c: DiscreteCovariance)
    requires
        0 <= q < lines.len(),
        cont_matches(list.cont, lines[q]),
        values_match(lines, q + 1, count_field(lines[q], 44, 55), list.values@),
    ensures
        discrete_covariance_matches(c, lines, q),
{
    proof {
        lemma_items(lines, q, list.values@);
    }
    let v = &list.values;
    let nerp: usize = count_exec(list.cont.n2);
    let split = if nerp < v.len() {
        nerp
    } else {
        v.len()
    };
    let mut ek: Vec<String> = Vec::new();
    let mut i: usize = 0;
    while i < split
        invariant
            split <= v@.len(),
            i <= split,
            ek@.len() == i,
            forall|k: int| #[trigger] item_text(v@, k) == list_value(lines, q, k),
            forall|j: int| 0 <= j < i ==> #[trigger] ek@[j]@ == list_value(lines, q, j),
        decreases split - i,
    {
        assert(item_text(v@, i as int) == list_value(lines, q, i as int));
        ek.push(v[i].clone());
        i = i + 1;
    }
    let mut fkk: Vec<String> = Vec::new();
    let mut i: usize = split;
    while i < v.len()
        invariant
            split <= i <= v@.len(),
            fkk@.len() == i - split,
            forall|k: int| #[trigger] item_text(v@, k) == list_value(lines, q, k),
            forall|j: int| 0 <= j < i - split ==> #[trigger] fkk@[j]@ == list_value(lines, q, split + j),
        decreases v.len() - i,
    {
        assert(item_text(v@, i as int) == list_value(lines, q, i as int));
        fkk.push(v[i].clone());
        i = i + 1;
    }
    DiscreteCovariance { ls: list.cont.l1, lb: list.cont.l2, ne: list.cont.n1, nerp: list.cont.n2, ek, fkk }
}

/// Read one spectrum: its LIST record, then the discrete lines, the
/// continuous part and the covariances that its flags call for.
#[verifier::spinoff_prover]
#[verifier::rlimit(40)]
fn read_spectrum(reader: &mut Reader) -> (r: Result<Spectrum>)
    requires
        old(reader).wf(),
    ensures
        final(reader).wf(),
        final(reader).lines_view() == old(reader).lines_view(),
        r matches Err(e) ==> e is UnexpectedEof,
        spectrum_fits(old(reader).lines_view(), old(reader).position()) ==> {
            &&& r matches Ok(s) && spectrum_matches(s, old(reader).lines_view(), old(reader).position())
            &&& final(reader).position() == spectrum_end(
                old(reader).lines_view(),
                old(reader).position(),
            )
        },
        !spectrum_fits(old(reader).lines_view(), old(reader).position()) ==> r is Err,
{
    let ghost lines = reader.lines_view();
    let ghost p = reader.position();
    proof {
        reader.lemma_position_nonneg();
    }
    let list = reader.list_record()?;
    proof {
        lemma_items(lines, p, list.values@);
    }
    let v = &list.values;
    let styp = list.cont.c2.clone();
    let lcon = list.cont.l1;
    let lcov = list.cont.l2;
    let ner = list.cont.n2;
    let fd = item_pair(v, 0);
    let er_av = item_pair(v, 2);
    let fc = item_pair(v, 4);
    let ghost d0 = discrete_start(lines, p);
    let ghost count = discrete_count(lines, p);

    let mut discrete: Vec<DiscreteRadiation> = Vec::new();
    if lcon != 1 {
        let mut k: i64 = 0;
        while k < ner
            invariant
                reader.wf(),
                reader.lines_view() == lines,
                lines == old(reader).lines_view(),
                p == old(reader).position(),
                0 <= p < lines.len(),
                count == at_least_zero(ner as int),
                count == discrete_count(lines, p),
                ner == int_field(lines[p], 55, 66),
                0 <= k <= count,
                d0 == p + list_len(lines, p),
                reader.position() == list_at(lines, d0, k as int),
                lists_fit(lines, d0, k as int),
                discrete@.len() == k,
                forall|j: int|
                    0 <= j < k ==> discrete_matches(#[trigger] discrete@[j], lines, list_at(lines, d0, j)),
            decreases ner - k,
        {
            let ghost q = reader.position();
            let rec = match reader.list_record() {
                Ok(l) => l,
                Err(e) => {
                    proof {
                        lemma_lists_stop(lines, d0, k as int, count);
                    }
                    return Err(e);
                },
            };
            discrete.push(discrete_from_list(rec, Ghost(lines), Ghost(q)));
            k = k + 1;
        }
    }
    assert(reader.position() == discrete_end(lines, p));

    let continuous = if lcon != 0 {
        let tab = reader.tab1_record()?;
        Some(ContinuousSpectrum { rtyp: tab.c1.clone(), rp: tab })
    } else {
        None
    };
    assert(reader.position() == continuous_end(lines, p));

    let continuous_covariance = if !(lcov == 0 || lcov == 2) && lcon != 0 {
        let ghost q = reader.position();
        let rec = reader.list_record()?;
        proof {
            lemma_items(lines, q, rec.values@);
        }
        Some(
            ContinuousCovariance {
                lb: rec.cont.l2,
                ek: every_other(&rec.values, 0, rec.values.len()),
                fk: every_other(&rec.values, 1, rec.values.len()),
            },
        )
    } else {
        None
    };
    assert(reader.position() == continuous_covariance_end(lines, p));

    let discrete_covariance = if !(lcov == 0 || lcov == 1) {
        let ghost q = reader.position();
        let rec = reader.list_record()?;
        Some(discrete_covariance_from_list(rec, Ghost(lines), Ghost(q)))
    } else {
        None
    };
    Ok(
        Spectrum {
            styp,
            lcon,
            lcov,
            ner,
            fd,
            er_av,
            fc,
            discrete,
            continuous,
            continuous_covariance,
            discrete_covariance,
        },
    )
}

/// Where the `k`-th of a run of spectra from `lines[at]` starts.
pub open spec fn spectrum_at(lines: Seq<Seq<char>>, at: int, k: int) -> int
    decreases k,
{
    if k <= 0 {
        at
    } else {
        spectrum_end(lines, spectrum_at(lines, at, k - 1))
    }
}

/// Whether `k` spectra from `lines[at]` fit.
pub open spec fn spectra_fit(lines: Seq<Seq<char>>, at: int, k: int) -> bool
    decreases k,
{
    if k <= 0 {
        true
    } else {
        spectra_fit(lines, at, k - 1) && spectrum_fits(lines, spectrum_at(lines, at, k - 1))
    }
}

proof fn lemma_spectra_stop(lines: Seq<Seq<char>>, at: int, k: int, n: int)
    requires
        0 <= k < n,
        spectra_fit(lines, at, k),
        !spectrum_fits(lines, spectrum_at(lines, at, k)),
    ensures
        !spectra_fit(lines, at, n),
    decreases n - k,
{
    if k + 1 < n {
        lemma_spectra_stop_later(lines, at, k + 1, n);
    }
}

proof fn lemma_spectra_stop_later(lines: Seq<Seq<char>>, at: int, k: int, n: int)
    requires
        0 < k <= n,
        !spectra_fit(lines, at, k),
    ensures
        !spectra_fit(lines, at, n),
    decreases n - k,
{
    if k < n {
        lemma_spectra_stop_later(lines, at, k + 1, n);
    }
}

/// MF=8 MT=457: radioactive decay data.
#[derive(Debug, Clone, PartialEq, Eq)]
pub struct Mf8Mt457 {
    pub za: String,
    pub awr: String,
    pub lis: i64,
    pub liso: i64,
    /// 1 when the nuclide is stable, in which case only the spin and parity
    /// follow.
    pub nst: i64,
    pub nsp: i64,
    pub spi: String,
    pub par: String,
    /// Half-life in seconds. `None` for a stable nuclide.
    pub half_life: Option<WithUncertainty>,
    pub nc: i64,
    /// Average decay energies by radiation type.
    pub ex: Vec<WithUncertainty>,
    pub ndk: i64,
    pub modes: Vec<DecayMode>,
    pub spectra: Vec<Spectrum>,
}

/// One decay mode and its branching ratio.
#[derive(Debug, Clone, PartialEq, Eq)]
pub struct DecayMode {
    /// Decay type: 1 beta-, 2 beta+/EC, 3 IT, 4 alpha, and so on. A value like
    /// 1.5 means a chain of two modes.
    pub rtyp: String,
    /// Isomeric state of the daughter.
    pub rfs: String,
    pub q: WithUncertainty,
    pub br: WithUncertainty,
}

/// `n / 2`, rounded toward zero as integer division does.
pub open spec fn half_toward_zero(n: int) -> int {
    if n >= 0 {
        n / 2
    } else {
        -((-n) / 2)
    }
}

fn half_toward_zero_exec(n: i64) -> (r: i64)
    ensures
        r == half_toward_zero(n as int),
{
    if n >= 0 {
        n / 2
    } else {
        let m: u64 = (0i128 - n as i128) as u64;
        let h: i64 = (m / 2) as i64;
        -h
    }
}

/// Whether the nuclide of an MF=8 MT=457 section at `lines[at]` is stable.
pub open spec fn mt457_stable(lines: Seq<Seq<char>>, at: int) -> bool {
    int_field(lines[at], 44, 55) == 1
}

/// Where the record with the spin and parity of an MF=8 MT=457 section at
/// `lines[at]` is: after the record before it.
pub open spec fn mt457_second(lines: Seq<Seq<char>>, at: int) -> int {
    at + 1 + list_len(lines, at + 1)
}

/// Where the spectra of an MF=8 MT=457 section at `lines[at]` start.
pub open spec fn mt457_spectra_start(lines: Seq<Seq<char>>, at: int) -> int {
    let p2 = mt457_second(lines, at);
    p2 + list_len(lines, p2)
}

/// The line after an MF=8 MT=457 section at `lines[at]`: after its two LIST
/// records, and for an unstable nuclide after its NSP spectra.
pub open spec fn mf8_mt457_end(lines: Seq<Seq<char>>, at: int) -> int {
    let s0 = mt457_spectra_start(lines, at);
    if mt457_stable(lines, at) {
        s0
    } else {
        spectrum_at(lines, s0, at_least_zero(int_field(lines[at], 55, 66)))
    }
}

/// Whether the lines from `at` hold a whole MF=8 MT=457 section: its HEAD
/// record and two LIST records, then for an unstable nuclide NSP spectra.
pub open spec fn mf8_mt457_fits(lines: Seq<Seq<char>>, at: int) -> bool {
    &&& 0 <= at < lines.len()
    &&& list_fits(lines, at + 1)
    &&& list_fits(lines, mt457_second(lines, at))
    &&& !mt457_stable(lines, at) ==> spectra_fit(
        lines,
        mt457_spectra_start(lines, at),
        at_least_zero(int_field(lines[at], 55, 66)),
    )
}

/// What decay mode `i` of the LIST record at `lines[p]` holds: six values
/// per mode.
pub open spec fn mode_matches(m: DecayMode, lines: Seq<Seq<char>>, p: int, i: int) -> bool {
    &&& m.rtyp@ == list_value(lines, p, 6 * i)
    &&& m.rfs@ == list_value(lines, p, 6 * i + 1)
    &&& pair_view(m.q) == list_pair(lines, p, 6 * i + 2)
    &&& pair_view(m.br) == list_pair(lines, p, 6 * i + 4)
}

/// What an MF=8 MT=457 section read from `lines[at]` onwards holds.
pub open spec fn mf8_mt457_matches(d: Mf8Mt457, lines: Seq<Seq<char>>, at: int) -> bool {
    let p1 = at + 1;
    let p2 = mt457_second(lines, at);
    &&& d.za@ == field_of(lines[at], 0, 11)
    &&& d.awr@ == field_of(lines[at], 11, 22)
    &&& d.lis == int_field(lines[at], 22, 33)
    &&& d.liso == int_field(lines[at], 33, 44)
    &&& d.nst == int_field(lines[at], 44, 55)
    &&& d.nsp == int_field(lines[at], 55, 66)
    &&& d.spi@ == field_of(lines[p2], 0, 11)
    &&& d.par@ == field_of(lines[p2], 11, 22)
    &&& if mt457_stable(lines, at) {
        &&& d.half_life is None
        &&& d.nc == 0
        &&& d.ex@.len() == 0
        &&& d.ndk == 0
        &&& d.modes@.len() == 0
        &&& d.spectra@.len() == 0
    } else {
        &&& d.half_life matches Some(h) && pair_view(h) == (
            field_of(lines[p1], 0, 11),
            field_of(lines[p1], 11, 22),
        )
        &&& d.nc == half_toward_zero(int_field(lines[p1], 44, 55))
        &&& d.ex@.len() == alternate_len(count_field(lines[p1], 44, 55), 0)
        &&& forall|j: int| 0 <= j < d.ex@.len() ==> #[trigger] pair_view(d.ex@[j]) == list_pair(lines, p1, 2 * j)
        &&& d.ndk == int_field(lines[p2], 55, 66)
        &&& d.modes@.len() == at_least_zero(d.ndk as int)
        &&& forall|i: int| 0 <= i < d.modes@.len() ==> mode_matches(#[trigger] d.modes@[i], lines, p2, i)
        &&& d.spectra@.len() == at_least_zero(d.nsp as int)
        &&& forall|k: int|
            0 <= k < d.spectra@.len() ==> spectrum_matches(
                #[trigger] d.spectra@[k],
                lines,
                spectrum_at(lines, mt457_spectra_start(lines, at), k),
            )
    }
}

/// The average decay energies a LIST record gives, in pairs.
fn energies_from_list(v: &Vec<String>, Ghost(lines): Ghost<Seq<Seq<char>>>, Ghost(p): Ghost<int>) -> (ex: Vec<WithUncertainty>)
    requires
        0 <= p < lines.len(),
        v@.len() == count_field(lines[p], 44, 55),
        forall|k: int| #[trigger] item_text(v@, k) == list_value(lines, p, k),
    ensures
        ex@.len() == alternate_len(count_field(lines[p], 44, 55), 0),
        forall|j: int| 0 <= j < ex@.len() ==> #[trigger] pair_view(ex@[j]) == list_pair(lines, p, 2 * j),
{
    let n = v.len();
    let count: usize = n / 2 + n % 2;
    let mut ex: Vec<WithUncertainty> = Vec::new();
    let mut j: usize = 0;
    while j < count
        invariant
            n == v@.len(),
            count == alternate_len(n as int, 0),
            j <= count,
            ex@.len() == j,
            forall|k: int| #[trigger] item_text(v@, k) == list_value(lines, p, k),
            forall|i: int| 0 <= i < j ==> #[trigger] pair_view(ex@[i]) == list_pair(lines, p, 2 * i),
        decreases count - j,
    {
        ex.push(item_pair(v, 2 * (j as u128)));
        j = j + 1;
    }
    ex
}

/// The decay modes a LIST record gives, six values each.
fn modes_from_list(v: &Vec<String>, ndk: i64, Ghost(lines): Ghost<Seq<Seq<char>>>, Ghost(p): Ghost<int>) -> (modes: Vec<DecayMode>)
    requires
        0 <= p < lines.len(),
        forall|k: int| #[trigger] item_text(v@, k) == list_value(lines, p, k),
    ensures
        modes@.len() == at_least_zero(ndk as int),
        forall|i: int| 0 <= i < modes@.len() ==> mode_matches(#[trigger] modes@[i], lines, p, i),
{
    let mut modes: Vec<DecayMode> = Vec::new();
    let mut i: i64 = 0;
    while i < ndk
        invariant
            0 <= i <= at_least_zero(ndk as int),
            modes@.len() == i,
            forall|k: int| #[trigger] item_text(v@, k) == list_value(lines, p, k),
            forall|j: int| 0 <= j < i ==> mode_matches(#[trigger] modes@[j], lines, p, j),
        decreases ndk - i,
    {
        let base: u128 = 6 * (i as u128);
        let rtyp = item(v, base);
        let rfs = item(v, base + 1);
        let q = item_pair(v, base + 2);
        let br = item_pair(v, base + 4);
        modes.push(DecayMode { rtyp, rfs, q, br });
        i = i + 1;
    }
    modes
}

/// Parse MF=8 MT=457.
#[verifier::rlimit(40)]
pub fn parse_mf8_mt457(reader: &mut Reader) -> (r: Result<Mf8Mt457>)
    requires
        old(reader).wf(),
    ensures
        final(reader).wf(),
        final(reader).lines_view() == old(reader).lines_view(),
        mf8_mt457_fits(old(reader).lines_view(), old(reader).position()) ==> (r matches Ok(d)
            && mf8_mt457_matches(d, old(reader).lines_view(), old(reader).position())
            && final(reader).position() == mf8_mt457_end(old(reader).lines_view(), old(reader).position())),
        !mf8_mt457_fits(old(reader).lines_view(), old(reader).position()) ==> r is Err,
        r matches Err(e) ==> e is UnexpectedEof,
{
    let ghost lines = reader.lines_view();
    let ghost at = reader.position();
    proof {
        reader.lemma_position_nonneg();
    }
    let head: Cont = reader.cont_record()?;

    // A stable nuclide carries only its spin and parity.
    if head.n1 == 1 {
        reader.list_record()?;
        let list = reader.list_record()?;
        return Ok(
            Mf8Mt457 {
                za: head.c1,
                awr: head.c2,
                lis: head.l1,
                liso: head.l2,
                nst: head.n1,
                nsp: head.n2,
                spi: list.cont.c1,
                par: list.cont.c2,
                half_life: None,
                nc: 0,
                ex: Vec::new(),
                ndk: 0,
                modes: Vec::new(),
                spectra: Vec::new(),
            },
        );
    }

    // Half-life and the average decay energies.
    let ghost p1 = reader.position();
    let first = reader.list_record()?;
    proof {
        lemma_items(lines, p1, first.values@);
    }
    let half_life = Some(WithUncertainty { value: first.cont.c1.clone(), uncertainty: first.cont.c2.clone() });
    let nc = half_toward_zero_exec(first.cont.n1);
    let ex = energies_from_list(&first.values, Ghost(lines), Ghost(p1));

    // Spin, parity and the decay modes.
    let ghost p2 = reader.position();
    let second = reader.list_record()?;
    proof {
        lemma_items(lines, p2, second.values@);
    }
    let ndk = second.cont.n2;
    let modes = modes_from_list(&second.values, ndk, Ghost(lines), Ghost(p2));

    let ghost s0 = reader.position();
    let nsp = head.n2;
    let mut spectra: Vec<Spectrum> = Vec::new();
    let mut k: i64 = 0;
    while k < nsp
        invariant
            reader.wf(),
            reader.lines_view() == lines,
            lines == old(reader).lines_view(),
            at == old(reader).position(),
            0 <= at < lines.len(),
            s0 == mt457_spectra_start(lines, at),
            !mt457_stable(lines, at),
            nsp == int_field(lines[at], 55, 66),
            0 <= k <= at_least_zero(nsp as int),
            reader.position() == spectrum_at(lines, s0, k as int),
            spectra_fit(lines, s0, k as int),
            spectra@.len() == k,
            forall|j: int|
                0 <= j < k ==> spectrum_matches(#[trigger] spectra@[j], lines, spectrum_at(lines, s0, j)),
        decreases nsp - k,
    {
        let s = match read_spectrum(reader) {
            Ok(s) => s,
            Err(e) => {
                proof {
                    lemma_spectra_stop(lines, s0, k as int, at_least_zero(nsp as int));
                }
                return Err(e);
            },
        };
        spectra.push(s);
        k = k + 1;
    }
    Ok(
        Mf8Mt457 {
            za: head.c1,
            awr: head.c2,
            lis: head.l1,
            liso: head.l2,
            nst: head.n1,
            nsp,
            spi: second.cont.c1,
            par: second.cont.c2,
            half_life,
            nc,
            ex,
            ndk,
            modes,
            spectra,
        },
    )
}

} // verus!
