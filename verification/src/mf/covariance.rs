//! MF=33, 34 and 40: covariances.
//!
//! Grouped into one module because MF=40 reuses MF=33's subsection format
//! verbatim, and MF=34 is the same idea applied to angular distributions.
//! Real-valued fields are kept as the text of their fields.

use vstd::prelude::*;

use crate::error::{Error, Result};
use crate::mf::list::{
    alternate_len, at_least_zero, every_other, every_other_matches, item, item_text, lemma_items,
    lemma_lists_stop, list_at, list_fits, list_len, list_value, lists_fit, slice_texts,
};
use crate::records::{cont_matches, count_exec, count_field, count_of, field_of, int_field, values_match, Cont, ListRecord, Reader};

verus! {

// -------------------------------------------------------------------------
// MF=33
// -------------------------------------------------------------------------

/// An NC-type sub-subsection: a covariance derived from other reactions.
#[derive(Debug, Clone, PartialEq, Eq)]
pub struct NcSubsection {
    pub lty: i64,
    pub e1: String,
    pub e2: String,
    /// LTY=0.
    pub nci: i64,
    pub ci: Vec<String>,
    pub xmti: Vec<String>,
    /// LTY/=0.
    pub mats: i64,
    pub mts: i64,
    pub nei: i64,
    pub xmfs: String,
    pub xlfss: String,
    pub ei: Vec<String>,
    pub wei: Vec<String>,
}

/// An NI-type sub-subsection: a covariance given explicitly.
///
/// `lb` selects the layout, and which fields are populated follows from it.
#[derive(Debug, Clone, PartialEq, Eq)]
pub struct NiSubsection {
    pub lt: i64,
    pub ls: i64,
    pub lb: i64,
    pub nt: i64,
    pub np: i64,
    pub ne: i64,
    pub ner: i64,
    pub nec: i64,
    /// LB 0 to 4, and LB 8 or 9.
    pub ek: Vec<String>,
    pub fk: Vec<String>,
    /// LB 0 to 4 only: the second (E, F) table.
    pub el: Vec<String>,
    pub fl: Vec<String>,
    /// LB=5: the covariance matrix, in the format's packed order.
    pub fkk: Vec<String>,
    /// LB=6.
    pub er: Vec<String>,
    pub ec: Vec<String>,
    pub fkl: Vec<String>,
}

/// One MF=33 subsection: the covariance of this reaction with another.
#[derive(Debug, Clone, PartialEq, Eq)]
pub struct Mf33Subsection {
    pub xmf1: String,
    pub xlfs1: String,
    pub mat1: i64,
    pub mt1: i64,
    pub nc: i64,
    pub ni: i64,
    pub nc_subsections: Vec<NcSubsection>,
    pub ni_subsections: Vec<NiSubsection>,
}

/// MF=33: covariances of neutron cross sections.
#[derive(Debug, Clone, PartialEq, Eq)]
pub struct Mf33 {
    pub za: String,
    pub awr: String,
    /// MT of the reaction this one is lumped into, if any.
    pub mtl: i64,
    pub nl: i64,
    pub subsections: Vec<Mf33Subsection>,
}

/// `x / d` rounded toward zero, as integer division does, for `d > 0`.
pub open spec fn trunc_div(x: int, d: int) -> int {
    if x >= 0 {
        x / d
    } else {
        -((-x) / d)
    }
}

fn trunc_div_exec(x: i128, d: i128) -> (r: i128)
    requires
        d > 0,
        x > i128::MIN,
    ensures
        r == trunc_div(x as int, d as int),
{
    if x >= 0 {
        x / d
    } else {
        let q = (0 - x) / d;
        0 - q
    }
}

/// `v.clamp(lo, hi)`.
pub open spec fn clamp(v: int, lo: int, hi: int) -> int {
    if v < lo {
        lo
    } else if v > hi {
        hi
    } else {
        v
    }
}

/// `min(a, b)`.
pub open spec fn min(a: int, b: int) -> int {
    if a < b {
        a
    } else {
        b
    }
}

/// Whether this reader knows the layout of an NI-type sub-subsection with
/// the LB of the record at `line`.
pub open spec fn lb_known(line: Seq<char>) -> bool {
    let lb = int_field(line, 33, 44);
    (0 <= lb <= 4) || lb == 5 || lb == 6 || lb == 8 || lb == 9
}

/// The lines an NC-type sub-subsection at `lines[q]` takes: a CONT record
/// and a LIST record.
pub open spec fn nc_len(lines: Seq<Seq<char>>, q: int) -> int {
    1 + list_len(lines, q + 1)
}

/// Where the `k`-th of a run of NC-type sub-subsections from `lines[at]`
/// starts.
pub open spec fn nc_at(lines: Seq<Seq<char>>, at: int, k: int) -> int
    decreases k,
{
    if k <= 0 {
        at
    } else {
        let q = nc_at(lines, at, k - 1);
        q + nc_len(lines, q)
    }
}

/// Whether `k` NC-type sub-subsections from `lines[at]` fit.
pub open spec fn ncs_fit(lines: Seq<Seq<char>>, at: int, k: int) -> bool
    decreases k,
{
    if k <= 0 {
        true
    } else {
        let q = nc_at(lines, at, k - 1);
        ncs_fit(lines, at, k - 1) && 0 <= q < lines.len() && list_fits(lines, q + 1)
    }
}

/// Whether the first `k` NI-type sub-subsections from `lines[at]` fit and
/// have a layout this reader knows.
pub open spec fn nis_ok(lines: Seq<Seq<char>>, at: int, k: int) -> bool
    decreases k,
{
    if k <= 0 {
        true
    } else {
        let q = list_at(lines, at, k - 1);
        nis_ok(lines, at, k - 1) && list_fits(lines, q) && lb_known(lines[q])
    }
}

/// How many NC-type sub-subsections the subsection at `lines[p]` has.
pub open spec fn nc_count(lines: Seq<Seq<char>>, p: int) -> int {
    at_least_zero(int_field(lines[p], 44, 55))
}

/// How many NI-type sub-subsections the subsection at `lines[p]` has.
pub open spec fn ni_count(lines: Seq<Seq<char>>, p: int) -> int {
    at_least_zero(int_field(lines[p], 55, 66))
}

/// Where the NI-type sub-subsections of the subsection at `lines[p]` start.
pub open spec fn ni_start(lines: Seq<Seq<char>>, p: int) -> int {
    nc_at(lines, p + 1, nc_count(lines, p))
}

/// The line after the subsection at `lines[p]`.
pub open spec fn mf33_sub_end(lines: Seq<Seq<char>>, p: int) -> int {
    list_at(lines, ni_start(lines, p), ni_count(lines, p))
}

/// Whether a whole MF=33 subsection, of layouts this reader knows, stands
/// at `lines[p]`.
pub open spec fn mf33_sub_fits(lines: Seq<Seq<char>>, p: int) -> bool {
    &&& 0 <= p < lines.len()
    &&& ncs_fit(lines, p + 1, nc_count(lines, p))
    &&& nis_ok(lines, ni_start(lines, p), ni_count(lines, p))
}

/// Whether reading the MF=33 subsection at `lines[p]` meets an NI-type
/// sub-subsection whose LB this reader does not know, everything before it
/// having been read.
pub open spec fn mf33_sub_unsupported(lines: Seq<Seq<char>>, p: int) -> bool {
    &&& 0 <= p < lines.len()
    &&& ncs_fit(lines, p + 1, nc_count(lines, p))
    &&& exists|k: int|
        0 <= k < ni_count(lines, p) && #[trigger] nis_ok(lines, ni_start(lines, p), k) && list_fits(
            lines,
            list_at(lines, ni_start(lines, p), k),
        ) && !lb_known(lines[list_at(lines, ni_start(lines, p), k)])
}

/// What an NC-type sub-subsection whose CONT record is at `lines[q]` holds.
pub open spec fn nc_matches(n: NcSubsection, lines: Seq<Seq<char>>, q: int) -> bool {
    let l = q + 1;
    let npl = count_field(lines[l], 44, 55);
    &&& n.lty == int_field(lines[q], 33, 44)
    &&& n.e1@ == field_of(lines[l], 0, 11)
    &&& n.e2@ == field_of(lines[l], 11, 22)
    &&& if n.lty == 0 {
        &&& n.nci == int_field(lines[l], 55, 66)
        &&& every_other_matches(n.ci@, lines, l, 0, npl)
        &&& every_other_matches(n.xmti@, lines, l, 1, npl)
        &&& n.mats == 0 && n.mts == 0 && n.nei == 0
        &&& n.xmfs@.len() == 0 && n.xlfss@.len() == 0
        &&& n.ei@.len() == 0 && n.wei@.len() == 0
    } else {
        &&& n.nci == 0 && n.ci@.len() == 0 && n.xmti@.len() == 0
        &&& n.mats == int_field(lines[l], 22, 33)
        &&& n.mts == int_field(lines[l], 33, 44)
        &&& n.nei == int_field(lines[l], 55, 66)
        &&& n.xmfs@ == list_value(lines, l, 0)
        &&& n.xlfss@ == list_value(lines, l, 1)
        &&& every_other_matches(n.ei@, lines, l, 2, npl)
        &&& every_other_matches(n.wei@, lines, l, 3, npl)
    }
}

/// Values `lo` to `hi` of the LIST record at `lines[q]`.
pub open spec fn slice_matches(c: Seq<String>, lines: Seq<Seq<char>>, q: int, lo: int, hi: int) -> bool {
    &&& c.len() == hi - lo
    &&& forall|j: int| 0 <= j < c.len() ==> #[trigger] c[j]@ == list_value(lines, q, lo + j)
}

/// What an NI-type sub-subsection read from the LIST record at `lines[q]`
/// holds; its layout follows from LB.
pub open spec fn ni_matches(n: NiSubsection, lines: Seq<Seq<char>>, q: int) -> bool {
    let line = lines[q];
    let lb = int_field(line, 33, 44);
    let l1 = int_field(line, 22, 33);
    let nt = int_field(line, 44, 55);
    let n2 = int_field(line, 55, 66);
    let npl = count_field(line, 44, 55);
    &&& n.lb == lb
    &&& n.nt == nt
    &&& if 0 <= lb <= 4 {
        let split = clamp(nt - n2, 0, npl);
        &&& n.lt == l1 && n.np == n2
        &&& n.ls == 0 && n.ne == 0 && n.ner == 0 && n.nec == 0
        &&& every_other_matches(n.ek@, lines, q, 0, split)
        &&& every_other_matches(n.fk@, lines, q, 1, split)
        &&& every_other_matches(n.el@, lines, q, split, npl)
        &&& every_other_matches(n.fl@, lines, q, split + 1, npl)
        &&& n.fkk@.len() == 0 && n.er@.len() == 0 && n.ec@.len() == 0 && n.fkl@.len() == 0
    } else if lb == 5 {
        let cut = clamp(n2, 0, npl);
        &&& n.ls == l1 && n.ne == n2
        &&& n.lt == 0 && n.np == 0 && n.ner == 0 && n.nec == 0
        &&& slice_matches(n.ek@, lines, q, 0, cut)
        &&& slice_matches(n.fkk@, lines, q, cut, npl)
        &&& n.fk@.len() == 0 && n.el@.len() == 0 && n.fl@.len() == 0
        &&& n.er@.len() == 0 && n.ec@.len() == 0 && n.fkl@.len() == 0
    } else if lb == 6 {
        let ner = count_of(n2);
        let nec = if ner > 0 {
            trunc_div(nt - 1, n2) as i64
        } else {
            0i64
        };
        let a = min(ner, npl);
        let b = min(ner + count_of(nec as int), npl);
        &&& n.ner == n2 && n.nec == nec
        &&& n.lt == 0 && n.ls == 0 && n.np == 0 && n.ne == 0
        &&& slice_matches(n.er@, lines, q, 0, a)
        &&& slice_matches(n.ec@, lines, q, a, b)
        &&& slice_matches(n.fkl@, lines, q, b, npl)
        &&& n.ek@.len() == 0 && n.fk@.len() == 0 && n.el@.len() == 0 && n.fl@.len() == 0
        &&& n.fkk@.len() == 0
    } else {
        &&& n.lt == l1 && n.np == n2
        &&& n.ls == 0 && n.ne == 0 && n.ner == 0 && n.nec == 0
        &&& every_other_matches(n.ek@, lines, q, 0, npl)
        &&& every_other_matches(n.fk@, lines, q, 1, npl)
        &&& n.el@.len() == 0 && n.fl@.len() == 0 && n.fkk@.len() == 0
        &&& n.er@.len() == 0 && n.ec@.len() == 0 && n.fkl@.len() == 0
    }
}

/// What an MF=33 subsection read from `lines[p]` onwards holds.
pub open spec fn mf33_sub_matches(s: Mf33Subsection, lines: Seq<Seq<char>>, p: int) -> bool {
    &&& s.xmf1@ == field_of(lines[p], 0, 11)
    &&& s.xlfs1@ == field_of(lines[p], 11, 22)
    &&& s.mat1 == int_field(lines[p], 22, 33)
    &&& s.mt1 == int_field(lines[p], 33, 44)
    &&& s.nc == int_field(lines[p], 44, 55)
    &&& s.ni == int_field(lines[p], 55, 66)
    &&& s.nc_subsections@.len() == nc_count(lines, p)
    &&& forall|k: int|
        0 <= k < s.nc_subsections@.len() ==> nc_matches(
            #[trigger] s.nc_subsections@[k],
            lines,
            nc_at(lines, p + 1, k),
        )
    &&& s.ni_subsections@.len() == ni_count(lines, p)
    &&& forall|k: int|
        0 <= k < s.ni_subsections@.len() ==> ni_matches(
            #[trigger] s.ni_subsections@[k],
            lines,
            list_at(lines, ni_start(lines, p), k),
        )
}

proof fn lemma_ncs_stop(lines: Seq<Seq<char>>, at: int, k: int, n: int)
    requires
        0 <= k < n,
        ncs_fit(lines, at, k),
        !(0 <= nc_at(lines, at, k) < lines.len() && list_fits(lines, nc_at(lines, at, k) + 1)),
    ensures
        !ncs_fit(lines, at, n),
    decreases n - k,
{
    if k + 1 < n {
        lemma_ncs_stop_later(lines, at, k + 1, n);
    }
}

proof fn lemma_ncs_stop_later(lines: Seq<Seq<char>>, at: int, k: int, n: int)
    requires
        0 < k <= n,
        !ncs_fit(lines, at, k),
    ensures
        !ncs_fit(lines, at, n),
    decreases n - k,
{
    if k < n {
        lemma_ncs_stop_later(lines, at, k + 1, n);
    }
}

/// A run of NI-type sub-subsections that is all right up to `n` is all
/// right at each of them.
proof fn lemma_nis_ok_each(lines: Seq<Seq<char>>, at: int, j: int, n: int)
    requires
        0 <= j < n,
        nis_ok(lines, at, n),
    ensures
        nis_ok(lines, at, j),
        list_fits(lines, list_at(lines, at, j)),
        lb_known(lines[list_at(lines, at, j)]),
    decreases n - j,
{
    if j + 1 < n {
        lemma_nis_ok_each(lines, at, j + 1, n);
    }
}

/// Once the `k`-th NI-type sub-subsection does not fit, no run through it
/// is all right, and none of them has an unknown LB that is reached.
proof fn lemma_nis_stop(lines: Seq<Seq<char>>, at: int, k: int, n: int)
    requires
        0 <= k < n,
        nis_ok(lines, at, k),
        !list_fits(lines, list_at(lines, at, k)),
    ensures
        !nis_ok(lines, at, n),
        !(exists|m: int|
            0 <= m < n && #[trigger] nis_ok(lines, at, m) && list_fits(lines, list_at(lines, at, m))
                && !lb_known(lines[list_at(lines, at, m)])),
{
    if nis_ok(lines, at, n) {
        lemma_nis_ok_each(lines, at, k, n);
    }
    assert forall|m: int|
        0 <= m < n && #[trigger] nis_ok(lines, at, m) && list_fits(lines, list_at(lines, at, m)) implies lb_known(
        lines[list_at(lines, at, m)],
    ) by {
        if m < k {
            lemma_nis_ok_each(lines, at, m, k);
        } else if m > k {
            lemma_nis_ok_each(lines, at, k, m);
        }
    }
}

/// An NC-type sub-subsection from its CONT record and LIST record.
fn nc_from_records(lty: i64, list: ListRecord, Ghost(lines): Ghost<Seq<Seq<char>>>, Ghost(q): Ghost<int>) -> (n: NcSubsection)
    requires
        0 <= q,
        q + 1 < lines.len(),
        lty == int_field(lines[q], 33, 44),
        cont_matches(list.cont, lines[q + 1]),
        values_match(lines, q + 2, count_field(lines[q + 1], 44, 55), list.values@),
    ensures
        nc_matches(n, lines, q),
{
    proof {
        lemma_items(lines, q + 1, list.values@);
    }
    let v = &list.values;
    let n = v.len();
    if lty == 0 {
        NcSubsection {
            lty,
            e1: list.cont.c1.clone(),
            e2: list.cont.c2.clone(),
            nci: list.cont.n2,
            ci: every_other(v, 0, n),
            xmti: every_other(v, 1, n),
            mats: 0,
            mts: 0,
            nei: 0,
            xmfs: String::new(),
            xlfss: String::new(),
            ei: Vec::new(),
            wei: Vec::new(),
        }
    } else {
        NcSubsection {
            lty,
            e1: list.cont.c1.clone(),
            e2: list.cont.c2.clone(),
            nci: 0,
            ci: Vec::new(),
            xmti: Vec::new(),
            mats: list.cont.l1,
            mts: list.cont.l2,
            nei: list.cont.n2,
            xmfs: item(v, 0),
            xlfss: item(v, 1),
            ei: every_other(v, 2, n),
            wei: every_other(v, 3, n),
        }
    }
}

/// What the reader needs of an NI-type LIST record at `lines[q]`.
pub open spec fn ni_list(list: ListRecord, lines: Seq<Seq<char>>, q: int) -> bool {
    &&& 0 <= q < lines.len()
    &&& cont_matches(list.cont, lines[q])
    &&& list.values@.len() == count_field(lines[q], 44, 55)
    &&& forall|k: int| #[trigger] item_text(list.values@, k) == list_value(lines, q, k)
}

/// LB 0 to 4: two (E, F) tables, the first NT - NP values and the rest.
fn ni_two_tables(list: &ListRecord, Ghost(lines): Ghost<Seq<Seq<char>>>, Ghost(q): Ghost<int>) -> (n: NiSubsection)
    requires
        ni_list(*list, lines, q),
        0 <= int_field(lines[q], 33, 44) <= 4,
    ensures
        ni_matches(n, lines, q),
{
    let v = &list.values;
    let len = v.len();
    let nt = list.cont.n1;
    let n2 = list.cont.n2;
    let d: i128 = nt as i128 - n2 as i128;
    let split: usize = if d < 0 {
        0
    } else if d > len as i128 {
        len
    } else {
        d as usize
    };
    let after: usize = if split < len {
        split + 1
    } else {
        len
    };
    NiSubsection {
        lt: list.cont.l1,
        ls: 0,
        lb: list.cont.l2,
        nt,
        np: n2,
        ne: 0,
        ner: 0,
        nec: 0,
        ek: every_other(v, 0, split),
        fk: every_other(v, 1, split),
        el: every_other(v, split, len),
        fl: every_other(v, after, len),
        fkk: Vec::new(),
        er: Vec::new(),
        ec: Vec::new(),
        fkl: Vec::new(),
    }
}

/// LB=5: NE energies, then the packed matrix.
fn ni_matrix(list: &ListRecord, Ghost(lines): Ghost<Seq<Seq<char>>>, Ghost(q): Ghost<int>) -> (n: NiSubsection)
    requires
        ni_list(*list, lines, q),
        int_field(lines[q], 33, 44) == 5,
    ensures
        ni_matches(n, lines, q),
{
    let v = &list.values;
    let len = v.len();
    let n2 = list.cont.n2;
    let cut: usize = if n2 < 0 {
        0
    } else if n2 as i128 > len as i128 {
        len
    } else {
        n2 as usize
    };
    NiSubsection {
        lt: 0,
        ls: list.cont.l1,
        lb: list.cont.l2,
        nt: list.cont.n1,
        np: 0,
        ne: n2,
        ner: 0,
        nec: 0,
        ek: slice_texts(v, 0, cut),
        fk: Vec::new(),
        el: Vec::new(),
        fl: Vec::new(),
        fkk: slice_texts(v, cut, len),
        er: Vec::new(),
        ec: Vec::new(),
        fkl: Vec::new(),
    }
}

/// LB=6: NER row energies, NEC column energies, then the matrix.
fn ni_rectangular(list: &ListRecord, Ghost(lines): Ghost<Seq<Seq<char>>>, Ghost(q): Ghost<int>) -> (n: NiSubsection)
    requires
        ni_list(*list, lines, q),
        int_field(lines[q], 33, 44) == 6,
    ensures
        ni_matches(n, lines, q),
{
    let v = &list.values;
    let len = v.len();
    let nt = list.cont.n1;
    let n2 = list.cont.n2;
    let ner: usize = count_exec(n2);
    let nec: i64 = if ner > 0 {
        let qd = trunc_div_exec(nt as i128 - 1, n2 as i128);
        #[verifier::truncate]
        (qd as i64)
    } else {
        0
    };
    let necv: usize = count_exec(nec);
    let a: usize = if ner < len {
        ner
    } else {
        len
    };
    let b: usize = if (ner as u128) + (necv as u128) < len as u128 {
        ner + necv
    } else {
        len
    };
    NiSubsection {
        lt: 0,
        ls: 0,
        lb: list.cont.l2,
        nt,
        np: 0,
        ne: 0,
        ner: n2,
        nec,
        ek: Vec::new(),
        fk: Vec::new(),
        el: Vec::new(),
        fl: Vec::new(),
        fkk: Vec::new(),
        er: slice_texts(v, 0, a),
        ec: slice_texts(v, a, b),
        fkl: slice_texts(v, b, len),
    }
}

/// LB 8 or 9: one (E, F) table.
fn ni_one_table(list: &ListRecord, Ghost(lines): Ghost<Seq<Seq<char>>>, Ghost(q): Ghost<int>) -> (n: NiSubsection)
    requires
        ni_list(*list, lines, q),
        int_field(lines[q], 33, 44) == 8 || int_field(lines[q], 33, 44) == 9,
    ensures
        ni_matches(n, lines, q),
{
    let v = &list.values;
    let len = v.len();
    NiSubsection {
        lt: list.cont.l1,
        ls: 0,
        lb: list.cont.l2,
        nt: list.cont.n1,
        np: list.cont.n2,
        ne: 0,
        ner: 0,
        nec: 0,
        ek: every_other(v, 0, len),
        fk: every_other(v, 1, len),
        el: Vec::new(),
        fl: Vec::new(),
        fkk: Vec::new(),
        er: Vec::new(),
        ec: Vec::new(),
        fkl: Vec::new(),
    }
}

/// An NI-type sub-subsection from its LIST record, laid out by LB; `None`
/// for an LB this reader does not know.
fn ni_from_list(lb: i64, list: ListRecord, Ghost(lines): Ghost<Seq<Seq<char>>>, Ghost(q): Ghost<int>) -> (r: Option<NiSubsection>)
    requires
        0 <= q < lines.len(),
        lb == int_field(lines[q], 33, 44),
        cont_matches(list.cont, lines[q]),
        values_match(lines, q + 1, count_field(lines[q], 44, 55), list.values@),
    ensures
        r is Some <==> lb_known(lines[q]),
        r matches Some(n) ==> ni_matches(n, lines, q),
{
    proof {
        lemma_items(lines, q, list.values@);
    }
    if 0 <= lb && lb <= 4 {
        Some(ni_two_tables(&list, Ghost(lines), Ghost(q)))
    } else if lb == 5 {
        Some(ni_matrix(&list, Ghost(lines), Ghost(q)))
    } else if lb == 6 {
        Some(ni_rectangular(&list, Ghost(lines), Ghost(q)))
    } else if lb == 8 || lb == 9 {
        Some(ni_one_table(&list, Ghost(lines), Ghost(q)))
    } else {
        None
    }
}

/// Parse one MF=33 subsection. Shared with MF=40, which uses the same
/// format.
#[verifier::rlimit(40)]
pub fn parse_mf33_subsection(reader: &mut Reader) -> (r: Result<Mf33Subsection>)
    requires
        old(reader).wf(),
    ensures
        final(reader).wf(),
        final(reader).lines_view() == old(reader).lines_view(),
        mf33_sub_fits(old(reader).lines_view(), old(reader).position()) ==> {
            &&& r matches Ok(s) && mf33_sub_matches(s, old(reader).lines_view(), old(reader).position())
            &&& final(reader).position() == mf33_sub_end(
                old(reader).lines_view(),
                old(reader).position(),
            )
        },
        !mf33_sub_fits(old(reader).lines_view(), old(reader).position()) ==> r is Err,
        r matches Err(e) ==> e is UnexpectedEof || e is Unsupported,
        (r matches Err(e) && e is Unsupported) <==> mf33_sub_unsupported(
            old(reader).lines_view(),
            old(reader).position(),
        ),
{
    let ghost lines = reader.lines_view();
    let ghost p = reader.position();
    proof {
        reader.lemma_position_nonneg();
    }
    let c = reader.cont_record()?;
    let nc = c.n1;
    let ni = c.n2;
    let ghost ncn = nc_count(lines, p);
    let ghost nin = ni_count(lines, p);

    let mut nc_subsections: Vec<NcSubsection> = Vec::new();
    let mut k: i64 = 0;
    while k < nc
        invariant
            reader.wf(),
            reader.lines_view() == lines,
            lines == old(reader).lines_view(),
            p == old(reader).position(),
            0 <= p < lines.len(),
            cont_matches(c, lines[p]),
            nc == c.n1,
            ncn == at_least_zero(nc as int),
            0 <= k <= ncn,
            reader.position() == nc_at(lines, p + 1, k as int),
            ncs_fit(lines, p + 1, k as int),
            nc_subsections@.len() == k,
            forall|j: int|
                0 <= j < k ==> nc_matches(#[trigger] nc_subsections@[j], lines, nc_at(lines, p + 1, j)),
        decreases nc - k,
    {
        let ghost q = reader.position();
        let head = match reader.cont_record() {
            Ok(h) => h,
            Err(e) => {
                proof {
                    lemma_ncs_stop(lines, p + 1, k as int, ncn);
                }
                return Err(e);
            },
        };
        let list = match reader.list_record() {
            Ok(l) => l,
            Err(e) => {
                proof {
                    lemma_ncs_stop(lines, p + 1, k as int, ncn);
                }
                return Err(e);
            },
        };
        nc_subsections.push(nc_from_records(head.l2, list, Ghost(lines), Ghost(q)));
        k = k + 1;
    }

    let ghost s0 = reader.position();
    assert(s0 == ni_start(lines, p));
    let mut ni_subsections: Vec<NiSubsection> = Vec::new();
    let mut k: i64 = 0;
    while k < ni
        invariant
            reader.wf(),
            reader.lines_view() == lines,
            lines == old(reader).lines_view(),
            p == old(reader).position(),
            0 <= p < lines.len(),
            cont_matches(c, lines[p]),
            ncs_fit(lines, p + 1, nc_count(lines, p)),
            s0 == ni_start(lines, p),
            ni == c.n2,
            nin == at_least_zero(ni as int),
            0 <= k <= nin,
            reader.position() == list_at(lines, s0, k as int),
            nis_ok(lines, s0, k as int),
            ni_subsections@.len() == k,
            forall|j: int|
                0 <= j < k ==> ni_matches(#[trigger] ni_subsections@[j], lines, list_at(lines, s0, j)),
        decreases ni - k,
    {
        let ghost q = reader.position();
        // The layout depends on LB, which is in the record about to be read,
        // so look at it first.
        let lb = match reader.peek_cont_record() {
            Ok(h) => h.l2,
            Err(e) => {
                proof {
                    lemma_nis_stop(lines, s0, k as int, nin);
                }
                return Err(e);
            },
        };
        let list = match reader.list_record() {
            Ok(l) => l,
            Err(e) => {
                proof {
                    lemma_nis_stop(lines, s0, k as int, nin);
                }
                return Err(e);
            },
        };
        match ni_from_list(lb, list, Ghost(lines), Ghost(q)) {
            Some(n) => {
                ni_subsections.push(n);
            },
            None => {
                proof {
                    assert(nis_ok(lines, s0, k as int));
                    if nis_ok(lines, s0, nin) {
                        lemma_nis_ok_each(lines, s0, k as int, nin);
                    }
                }
                return Err(Error::Unsupported { what: "an unrecognised MF=33 LB value" });
            },
        }
        k = k + 1;
    }
    proof {
        assert forall|m: int|
            0 <= m < nin && #[trigger] nis_ok(lines, s0, m) && list_fits(lines, list_at(lines, s0, m)) implies lb_known(
            lines[list_at(lines, s0, m)],
        ) by {
            lemma_nis_ok_each(lines, s0, m, nin);
        }
    }
    Ok(
        Mf33Subsection {
            xmf1: c.c1,
            xlfs1: c.c2,
            mat1: c.l1,
            mt1: c.l2,
            nc,
            ni,
            nc_subsections,
            ni_subsections,
        },
    )
}

/// A subsection read whole has no LB this reader does not know.
proof fn lemma_fits_not_unsupported(lines: Seq<Seq<char>>, p: int)
    requires
        mf33_sub_fits(lines, p),
    ensures
        !mf33_sub_unsupported(lines, p),
{
    let s0 = ni_start(lines, p);
    let n = ni_count(lines, p);
    assert forall|m: int|
        0 <= m < n && #[trigger] nis_ok(lines, s0, m) && list_fits(lines, list_at(lines, s0, m)) implies lb_known(
        lines[list_at(lines, s0, m)],
    ) by {
        lemma_nis_ok_each(lines, s0, m, n);
    }
}

/// Where the `k`-th of a run of MF=33 subsections from `lines[at]` starts.
pub open spec fn sub_at(lines: Seq<Seq<char>>, at: int, k: int) -> int
    decreases k,
{
    if k <= 0 {
        at
    } else {
        mf33_sub_end(lines, sub_at(lines, at, k - 1))
    }
}

/// Whether `k` MF=33 subsections from `lines[at]` are read whole.
pub open spec fn subs_fit(lines: Seq<Seq<char>>, at: int, k: int) -> bool
    decreases k,
{
    if k <= 0 {
        true
    } else {
        subs_fit(lines, at, k - 1) && mf33_sub_fits(lines, sub_at(lines, at, k - 1))
    }
}

/// Whether reading `n` MF=33 subsections from `lines[at]` meets an LB this
/// reader does not know.
pub open spec fn subs_unsupported(lines: Seq<Seq<char>>, at: int, n: int) -> bool {
    exists|k: int|
        0 <= k < n && #[trigger] subs_fit(lines, at, k) && mf33_sub_unsupported(lines, sub_at(lines, at, k))
}

proof fn lemma_subs_each(lines: Seq<Seq<char>>, at: int, j: int, n: int)
    requires
        0 <= j < n,
        subs_fit(lines, at, n),
    ensures
        subs_fit(lines, at, j),
        mf33_sub_fits(lines, sub_at(lines, at, j)),
    decreases n - j,
{
    if j + 1 < n {
        lemma_subs_each(lines, at, j + 1, n);
    }
}

/// A run read whole meets no unknown LB.
proof fn lemma_subs_fit_supported(lines: Seq<Seq<char>>, at: int, n: int)
    requires
        subs_fit(lines, at, n),
    ensures
        !subs_unsupported(lines, at, n),
{
    assert forall|k: int| 0 <= k < n && #[trigger] subs_fit(lines, at, k) implies !mf33_sub_unsupported(
        lines,
        sub_at(lines, at, k),
    ) by {
        lemma_subs_each(lines, at, k, n);
        lemma_fits_not_unsupported(lines, sub_at(lines, at, k));
    }
}

/// Once the `k`-th subsection is not read whole, the run is not either,
/// and it meets an unknown LB just when that subsection does.
proof fn lemma_subs_stop(lines: Seq<Seq<char>>, at: int, k: int, n: int)
    requires
        0 <= k < n,
        subs_fit(lines, at, k),
        !mf33_sub_fits(lines, sub_at(lines, at, k)),
    ensures
        !subs_fit(lines, at, n),
        subs_unsupported(lines, at, n) <==> mf33_sub_unsupported(lines, sub_at(lines, at, k)),
{
    if subs_fit(lines, at, n) {
        lemma_subs_each(lines, at, k, n);
    }
    if subs_unsupported(lines, at, n) {
        let m = choose|m: int|
            0 <= m < n && #[trigger] subs_fit(lines, at, m) && mf33_sub_unsupported(lines, sub_at(lines, at, m));
        if m < k {
            lemma_subs_each(lines, at, m, k);
            lemma_fits_not_unsupported(lines, sub_at(lines, at, m));
        } else if m > k {
            lemma_subs_each(lines, at, k, m);
        }
    }
    if mf33_sub_unsupported(lines, sub_at(lines, at, k)) {
        assert(subs_fit(lines, at, k));
    }
}

/// Read a run of `n` MF=33 subsections.
fn read_subsections(reader: &mut Reader, n: i64) -> (r: Result<Vec<Mf33Subsection>>)
    requires
        old(reader).wf(),
    ensures
        final(reader).wf(),
        final(reader).lines_view() == old(reader).lines_view(),
        subs_fit(old(reader).lines_view(), old(reader).position(), at_least_zero(n as int)) ==> {
            &&& r matches Ok(v) && v@.len() == at_least_zero(n as int) && forall|k: int|
                0 <= k < v@.len() ==> mf33_sub_matches(
                    #[trigger] v@[k],
                    old(reader).lines_view(),
                    sub_at(old(reader).lines_view(), old(reader).position(), k),
                )
            &&& final(reader).position() == sub_at(
                old(reader).lines_view(),
                old(reader).position(),
                at_least_zero(n as int),
            )
        },
        !subs_fit(old(reader).lines_view(), old(reader).position(), at_least_zero(n as int)) ==> r is Err,
        r matches Err(e) ==> e is UnexpectedEof || e is Unsupported,
        (r matches Err(e) && e is Unsupported) <==> subs_unsupported(
            old(reader).lines_view(),
            old(reader).position(),
            at_least_zero(n as int),
        ),
{
    let ghost lines = reader.lines_view();
    let ghost at = reader.position();
    let ghost count = at_least_zero(n as int);
    let mut subs: Vec<Mf33Subsection> = Vec::new();
    let mut k: i64 = 0;
    while k < n
        invariant
            reader.wf(),
            reader.lines_view() == lines,
            lines == old(reader).lines_view(),
            at == old(reader).position(),
            count == at_least_zero(n as int),
            0 <= k <= count,
            reader.position() == sub_at(lines, at, k as int),
            subs_fit(lines, at, k as int),
            subs@.len() == k,
            forall|j: int| 0 <= j < k ==> mf33_sub_matches(#[trigger] subs@[j], lines, sub_at(lines, at, j)),
        decreases n - k,
    {
        match parse_mf33_subsection(reader) {
            Ok(s) => {
                subs.push(s);
            },
            Err(e) => {
                proof {
                    lemma_subs_stop(lines, at, k as int, count);
                }
                return Err(e);
            },
        }
        k = k + 1;
    }
    proof {
        lemma_subs_fit_supported(lines, at, count);
    }
    Ok(subs)
}

/// Whether the lines from `at` hold a whole MF=33 section of layouts this
/// reader knows: its HEAD record and NL subsections.
pub open spec fn mf33_fits(lines: Seq<Seq<char>>, at: int) -> bool {
    &&& 0 <= at < lines.len()
    &&& subs_fit(lines, at + 1, at_least_zero(int_field(lines[at], 55, 66)))
}

/// What an MF=33 section read from `lines[at]` onwards holds.
pub open spec fn mf33_matches(d: Mf33, lines: Seq<Seq<char>>, at: int) -> bool {
    let nl = at_least_zero(int_field(lines[at], 55, 66));
    &&& d.za@ == field_of(lines[at], 0, 11)
    &&& d.awr@ == field_of(lines[at], 11, 22)
    &&& d.mtl == int_field(lines[at], 33, 44)
    &&& d.nl == int_field(lines[at], 55, 66)
    &&& d.subsections@.len() == nl
    &&& forall|k: int|
        0 <= k < nl ==> mf33_sub_matches(#[trigger] d.subsections@[k], lines, sub_at(lines, at + 1, k))
}

/// Parse an MF=33 section.
pub fn parse_mf33(reader: &mut Reader) -> (r: Result<Mf33>)
    requires
        old(reader).wf(),
    ensures
        final(reader).wf(),
        mf33_fits(old(reader).lines_view(), old(reader).position()) ==> (r matches Ok(d) && mf33_matches(
            d,
            old(reader).lines_view(),
            old(reader).position(),
        )),
        !mf33_fits(old(reader).lines_view(), old(reader).position()) ==> r is Err,
        r matches Err(e) ==> e is UnexpectedEof || e is Unsupported,
        (r matches Err(e) && e is Unsupported) <==> ({
            let lines = old(reader).lines_view();
            let at = old(reader).position();
            0 <= at < lines.len() && subs_unsupported(lines, at + 1, at_least_zero(int_field(lines[at], 55, 66)))
        }),
{
    proof {
        reader.lemma_position_nonneg();
    }
    let head = reader.cont_record()?;
    let subsections = read_subsections(reader, head.n2)?;
    Ok(Mf33 { za: head.c1, awr: head.c2, mtl: head.l2, nl: head.n2, subsections })
}

// -------------------------------------------------------------------------
// MF=40
// -------------------------------------------------------------------------

/// One MF=40 subsection: the covariance for one reaction product.
#[derive(Debug, Clone, PartialEq, Eq)]
pub struct Mf40Subsection {
    pub qm: String,
    pub qi: String,
    pub izap: i64,
    pub lfs: i64,
    pub nl: i64,
    /// Each has the same format as an MF=33 subsection.
    pub subsubsections: Vec<Mf33Subsection>,
}

/// MF=40: covariances of radionuclide production cross sections.
#[derive(Debug, Clone, PartialEq, Eq)]
pub struct Mf40 {
    pub za: String,
    pub awr: String,
    pub lis: i64,
    pub ns: i64,
    pub subsections: Vec<Mf40Subsection>,
}

/// How many MF=33-format subsections the MF=40 product at `lines[q]` has.
pub open spec fn product_count(lines: Seq<Seq<char>>, q: int) -> int {
    at_least_zero(int_field(lines[q], 55, 66))
}

/// The line after the MF=40 product at `lines[q]`.
pub open spec fn product_end(lines: Seq<Seq<char>>, q: int) -> int {
    sub_at(lines, q + 1, product_count(lines, q))
}

/// Whether the MF=40 product at `lines[q]` is read whole.
pub open spec fn product_fits(lines: Seq<Seq<char>>, q: int) -> bool {
    0 <= q < lines.len() && subs_fit(lines, q + 1, product_count(lines, q))
}

/// Whether reading the MF=40 product at `lines[q]` meets an unknown LB.
pub open spec fn product_unsupported(lines: Seq<Seq<char>>, q: int) -> bool {
    0 <= q < lines.len() && subs_unsupported(lines, q + 1, product_count(lines, q))
}

/// Where the `k`-th of a run of MF=40 products from `lines[at]` starts.
pub open spec fn product_at(lines: Seq<Seq<char>>, at: int, k: int) -> int
    decreases k,
{
    if k <= 0 {
        at
    } else {
        product_end(lines, product_at(lines, at, k - 1))
    }
}

/// Whether `k` MF=40 products from `lines[at]` are read whole.
pub open spec fn products_fit(lines: Seq<Seq<char>>, at: int, k: int) -> bool
    decreases k,
{
    if k <= 0 {
        true
    } else {
        products_fit(lines, at, k - 1) && product_fits(lines, product_at(lines, at, k - 1))
    }
}

/// Whether reading `n` MF=40 products from `lines[at]` meets an unknown LB.
pub open spec fn products_unsupported(lines: Seq<Seq<char>>, at: int, n: int) -> bool {
    exists|k: int|
        0 <= k < n && #[trigger] products_fit(lines, at, k) && product_unsupported(
            lines,
            product_at(lines, at, k),
        )
}

proof fn lemma_products_each(lines: Seq<Seq<char>>, at: int, j: int, n: int)
    requires
        0 <= j < n,
        products_fit(lines, at, n),
    ensures
        products_fit(lines, at, j),
        product_fits(lines, product_at(lines, at, j)),
    decreases n - j,
{
    if j + 1 < n {
        lemma_products_each(lines, at, j + 1, n);
    }
}

proof fn lemma_products_fit_supported(lines: Seq<Seq<char>>, at: int, n: int)
    requires
        products_fit(lines, at, n),
    ensures
        !products_unsupported(lines, at, n),
{
    assert forall|k: int| 0 <= k < n && #[trigger] products_fit(lines, at, k) implies !product_unsupported(
        lines,
        product_at(lines, at, k),
    ) by {
        lemma_products_each(lines, at, k, n);
        let q = product_at(lines, at, k);
        lemma_subs_fit_supported(lines, q + 1, product_count(lines, q));
    }
}

proof fn lemma_products_stop(lines: Seq<Seq<char>>, at: int, k: int, n: int)
    requires
        0 <= k < n,
        products_fit(lines, at, k),
        !product_fits(lines, product_at(lines, at, k)),
    ensures
        !products_fit(lines, at, n),
        products_unsupported(lines, at, n) <==> product_unsupported(lines, product_at(lines, at, k)),
{
    if products_fit(lines, at, n) {
        lemma_products_each(lines, at, k, n);
    }
    if products_unsupported(lines, at, n) {
        let m = choose|m: int|
            0 <= m < n && #[trigger] products_fit(lines, at, m) && product_unsupported(
                lines,
                product_at(lines, at, m),
            );
        if m < k {
            lemma_products_each(lines, at, m, k);
            let q = product_at(lines, at, m);
            lemma_subs_fit_supported(lines, q + 1, product_count(lines, q));
        } else if m > k {
            lemma_products_each(lines, at, k, m);
        }
    }
    if product_unsupported(lines, product_at(lines, at, k)) {
        assert(products_fit(lines, at, k));
    }
}

/// What an MF=40 product read from `lines[q]` onwards holds.
pub open spec fn product_matches(s: Mf40Subsection, lines: Seq<Seq<char>>, q: int) -> bool {
    &&& s.qm@ == field_of(lines[q], 0, 11)
    &&& s.qi@ == field_of(lines[q], 11, 22)
    &&& s.izap == int_field(lines[q], 22, 33)
    &&& s.lfs == int_field(lines[q], 33, 44)
    &&& s.nl == int_field(lines[q], 55, 66)
    &&& s.subsubsections@.len() == product_count(lines, q)
    &&& forall|k: int|
        0 <= k < s.subsubsections@.len() ==> mf33_sub_matches(
            #[trigger] s.subsubsections@[k],
            lines,
            sub_at(lines, q + 1, k),
        )
}

/// Whether the lines from `at` hold a whole MF=40 section of layouts this
/// reader knows: its HEAD record and NS products.
pub open spec fn mf40_fits(lines: Seq<Seq<char>>, at: int) -> bool {
    &&& 0 <= at < lines.len()
    &&& products_fit(lines, at + 1, at_least_zero(int_field(lines[at], 44, 55)))
}

/// What an MF=40 section read from `lines[at]` onwards holds.
pub open spec fn mf40_matches(d: Mf40, lines: Seq<Seq<char>>, at: int) -> bool {
    let ns = at_least_zero(int_field(lines[at], 44, 55));
    &&& d.za@ == field_of(lines[at], 0, 11)
    &&& d.awr@ == field_of(lines[at], 11, 22)
    &&& d.lis == int_field(lines[at], 22, 33)
    &&& d.ns == int_field(lines[at], 44, 55)
    &&& d.subsections@.len() == ns
    &&& forall|k: int|
        0 <= k < ns ==> product_matches(#[trigger] d.subsections@[k], lines, product_at(lines, at + 1, k))
}

/// Parse an MF=40 section.
pub fn parse_mf40(reader: &mut Reader) -> (r: Result<Mf40>)
    requires
        old(reader).wf(),
    ensures
        final(reader).wf(),
        mf40_fits(old(reader).lines_view(), old(reader).position()) ==> (r matches Ok(d) && mf40_matches(
            d,
            old(reader).lines_view(),
            old(reader).position(),
        )),
        !mf40_fits(old(reader).lines_view(), old(reader).position()) ==> r is Err,
        r matches Err(e) ==> e is UnexpectedEof || e is Unsupported,
        (r matches Err(e) && e is Unsupported) <==> ({
            let lines = old(reader).lines_view();
            let at = old(reader).position();
            0 <= at < lines.len() && products_unsupported(
                lines,
                at + 1,
                at_least_zero(int_field(lines[at], 44, 55)),
            )
        }),
{
    let ghost lines = reader.lines_view();
    let ghost at = reader.position();
    proof {
        reader.lemma_position_nonneg();
    }
    let head = reader.cont_record()?;
    let ns = head.n1;
    let ghost count = at_least_zero(ns as int);
    let mut subsections: Vec<Mf40Subsection> = Vec::new();
    let mut k: i64 = 0;
    while k < ns
        invariant
            reader.wf(),
            reader.lines_view() == lines,
            lines == old(reader).lines_view(),
            at == old(reader).position(),
            0 <= at < lines.len(),
            ns == int_field(lines[at], 44, 55),
            count == at_least_zero(ns as int),
            0 <= k <= count,
            reader.position() == product_at(lines, at + 1, k as int),
            products_fit(lines, at + 1, k as int),
            subsections@.len() == k,
            forall|j: int|
                0 <= j < k ==> product_matches(#[trigger] subsections@[j], lines, product_at(lines, at + 1, j)),
        decreases ns - k,
    {
        let ghost q = reader.position();
        let c = match reader.cont_record() {
            Ok(c) => c,
            Err(e) => {
                proof {
                    lemma_products_stop(lines, at + 1, k as int, count);
                }
                return Err(e);
            },
        };
        let subsubsections = match read_subsections(reader, c.n2) {
            Ok(v) => v,
            Err(e) => {
                proof {
                    lemma_products_stop(lines, at + 1, k as int, count);
                }
                return Err(e);
            },
        };
        subsections.push(
            Mf40Subsection { qm: c.c1, qi: c.c2, izap: c.l1, lfs: c.l2, nl: c.n2, subsubsections },
        );
        k = k + 1;
    }
    proof {
        lemma_products_fit_supported(lines, at + 1, count);
    }
    Ok(Mf40 { za: head.c1, awr: head.c2, lis: head.l1, ns, subsections })
}

// -------------------------------------------------------------------------
// MF=34
// -------------------------------------------------------------------------

/// The covariance blocks of one (L, L1) pair.
#[derive(Debug, Clone, PartialEq, Eq)]
pub struct Mf34SubSubsection {
    /// The symmetry flag of each covariance block.
    pub ls: Vec<i64>,
    /// The covariance matrix type of each block.
    pub lb: Vec<i64>,
    pub nt: Vec<i64>,
    pub ne: Vec<i64>,
    pub data: Vec<Vec<String>>,
}

/// One MF=34 subsection.
#[derive(Debug, Clone, PartialEq, Eq)]
pub struct Mf34Subsection {
    pub mat1: i64,
    pub mt1: i64,
    pub nl: i64,
    pub nss: i64,
    pub lct: i64,
    /// Legendre order of each sub-subsection.
    pub l: Vec<i64>,
    pub l1: Vec<i64>,
    pub ni: Vec<i64>,
    pub subsubsections: Vec<Mf34SubSubsection>,
}

/// MF=34: covariances of angular distributions.
#[derive(Debug, Clone, PartialEq, Eq)]
pub struct Mf34 {
    pub za: String,
    pub awr: String,
    pub ltt: i64,
    pub nmt1: i64,
    /// One per (MAT1, MT1) pair the section covers.
    pub subsections: Vec<Mf34Subsection>,
}

/// The number of (L, L1) pairs of an MF=34 subsection of reaction `mt`
/// with reaction `mt1`: a reaction's covariance with itself is symmetric,
/// so only the upper triangle is stored. The products are taken in 64-bit
/// two's complement arithmetic.
pub open spec fn nss_of(mt: i64, mt1: i64, nl: i64, nl1: i64) -> i64 {
    if mt1 == 0 || mt == mt1 {
        trunc_div(nl.wrapping_mul(nl.wrapping_add(1)) as int, 2) as i64
    } else {
        nl.wrapping_mul(nl1)
    }
}

fn nss_exec(mt: i64, mt1: i64, nl: i64, nl1: i64) -> (r: i64)
    ensures
        r == nss_of(mt, mt1, nl, nl1),
{
    if mt1 == 0 || mt == mt1 {
        let p = nl.wrapping_mul(nl.wrapping_add(1));
        let h = trunc_div_exec(p as i128, 2);
        #[verifier::truncate]
        (h as i64)
    } else {
        nl.wrapping_mul(nl1)
    }
}

/// How many LIST records the MF=34 block at `lines[b]` has.
pub open spec fn block_count(lines: Seq<Seq<char>>, b: int) -> int {
    at_least_zero(int_field(lines[b], 55, 66))
}

/// The line after the MF=34 block at `lines[b]`.
pub open spec fn block_end(lines: Seq<Seq<char>>, b: int) -> int {
    list_at(lines, b + 1, block_count(lines, b))
}

/// Whether the MF=34 block at `lines[b]` fits: a CONT record and NI LIST
/// records.
pub open spec fn block_fits(lines: Seq<Seq<char>>, b: int) -> bool {
    0 <= b < lines.len() && lists_fit(lines, b + 1, block_count(lines, b))
}

/// Where the `k`-th of a run of MF=34 blocks from `lines[at]` starts.
pub open spec fn block_at(lines: Seq<Seq<char>>, at: int, k: int) -> int
    decreases k,
{
    if k <= 0 {
        at
    } else {
        block_end(lines, block_at(lines, at, k - 1))
    }
}

/// Whether `k` MF=34 blocks from `lines[at]` fit.
pub open spec fn blocks_fit(lines: Seq<Seq<char>>, at: int, k: int) -> bool
    decreases k,
{
    if k <= 0 {
        true
    } else {
        blocks_fit(lines, at, k - 1) && block_fits(lines, block_at(lines, at, k - 1))
    }
}

proof fn lemma_blocks_stop(lines: Seq<Seq<char>>, at: int, k: int, n: int)
    requires
        0 <= k < n,
        blocks_fit(lines, at, k),
        !block_fits(lines, block_at(lines, at, k)),
    ensures
        !blocks_fit(lines, at, n),
    decreases n - k,
{
    if k + 1 < n {
        lemma_blocks_stop_later(lines, at, k + 1, n);
    }
}

proof fn lemma_blocks_stop_later(lines: Seq<Seq<char>>, at: int, k: int, n: int)
    requires
        0 < k <= n,
        !blocks_fit(lines, at, k),
    ensures
        !blocks_fit(lines, at, n),
    decreases n - k,
{
    if k < n {
        lemma_blocks_stop_later(lines, at, k + 1, n);
    }
}

/// What the LIST records of the MF=34 block at `lines[b]` hold.
pub open spec fn block_matches(s: Mf34SubSubsection, lines: Seq<Seq<char>>, b: int) -> bool {
    let n = block_count(lines, b);
    &&& s.ls@.len() == n && s.lb@.len() == n && s.nt@.len() == n && s.ne@.len() == n
    &&& s.data@.len() == n
    &&& forall|j: int|
        0 <= j < n ==> {
            let q = #[trigger] list_at(lines, b + 1, j);
            &&& s.ls@[j] == int_field(lines[q], 22, 33)
            &&& s.lb@[j] == int_field(lines[q], 33, 44)
            &&& s.nt@[j] == int_field(lines[q], 44, 55)
            &&& s.ne@[j] == int_field(lines[q], 55, 66)
            &&& slice_matches(s.data@[j]@, lines, q, 0, count_field(lines[q], 44, 55))
        }
}

/// Read one MF=34 block; also gives its CONT record.
fn read_block(reader: &mut Reader) -> (r: Result<(Cont, Mf34SubSubsection)>)
    requires
        old(reader).wf(),
    ensures
        final(reader).wf(),
        final(reader).lines_view() == old(reader).lines_view(),
        r matches Err(e) ==> e is UnexpectedEof,
        block_fits(old(reader).lines_view(), old(reader).position()) ==> {
            &&& r matches Ok((c, s)) && cont_matches(c, old(reader).lines_view()[old(reader).position()])
                && block_matches(s, old(reader).lines_view(), old(reader).position())
            &&& final(reader).position() == block_end(old(reader).lines_view(), old(reader).position())
        },
        !block_fits(old(reader).lines_view(), old(reader).position()) ==> r is Err,
{
    let ghost lines = reader.lines_view();
    let ghost b = reader.position();
    proof {
        reader.lemma_position_nonneg();
    }
    let c = reader.cont_record()?;
    let ni = c.n2;
    let ghost count = at_least_zero(ni as int);
    let mut s = Mf34SubSubsection { ls: Vec::new(), lb: Vec::new(), nt: Vec::new(), ne: Vec::new(), data: Vec::new() };
    let mut k: i64 = 0;
    while k < ni
        invariant
            reader.wf(),
            reader.lines_view() == lines,
            lines == old(reader).lines_view(),
            b == old(reader).position(),
            0 <= b < lines.len(),
            ni == int_field(lines[b], 55, 66),
            count == at_least_zero(ni as int),
            0 <= k <= count,
            reader.position() == list_at(lines, b + 1, k as int),
            lists_fit(lines, b + 1, k as int),
            s.ls@.len() == k && s.lb@.len() == k && s.nt@.len() == k && s.ne@.len() == k,
            s.data@.len() == k,
            forall|j: int|
                0 <= j < k ==> {
                    let q = #[trigger] list_at(lines, b + 1, j);
                    &&& s.ls@[j] == int_field(lines[q], 22, 33)
                    &&& s.lb@[j] == int_field(lines[q], 33, 44)
                    &&& s.nt@[j] == int_field(lines[q], 44, 55)
                    &&& s.ne@[j] == int_field(lines[q], 55, 66)
                    &&& slice_matches(s.data@[j]@, lines, q, 0, count_field(lines[q], 44, 55))
                },
        decreases ni - k,
    {
        let ghost q = reader.position();
        let list = match reader.list_record() {
            Ok(l) => l,
            Err(e) => {
                proof {
                    lemma_lists_stop(lines, b + 1, k as int, count);
                }
                return Err(e);
            },
        };
        proof {
            lemma_items(lines, q, list.values@);
            assert(slice_matches(list.values@, lines, q, 0, count_field(lines[q], 44, 55))) by {
                assert forall|m: int| 0 <= m < list.values@.len() implies #[trigger] list.values@[m]@
                    == list_value(lines, q, 0 + m) by {
                    assert(item_text(list.values@, m) == list_value(lines, q, m));
                }
            }
        }
        s.ls.push(list.cont.l1);
        s.lb.push(list.cont.l2);
        s.nt.push(list.cont.n1);
        s.ne.push(list.cont.n2);
        s.data.push(list.values);
        k = k + 1;
    }
    Ok((c, s))
}

/// How many blocks the MF=34 subsection at `lines[q]` of reaction `mt`
/// has.
pub open spec fn nss_count(lines: Seq<Seq<char>>, q: int, mt: i64) -> int {
    at_least_zero(
        nss_of(
            mt,
            int_field(lines[q], 33, 44) as i64,
            int_field(lines[q], 44, 55) as i64,
            int_field(lines[q], 55, 66) as i64,
        ) as int,
    )
}

/// The line after the MF=34 subsection at `lines[q]`.
pub open spec fn sub34_end(lines: Seq<Seq<char>>, q: int, mt: i64) -> int {
    block_at(lines, q + 1, nss_count(lines, q, mt))
}

/// Whether the MF=34 subsection at `lines[q]` fits.
pub open spec fn sub34_fits(lines: Seq<Seq<char>>, q: int, mt: i64) -> bool {
    0 <= q < lines.len() && blocks_fit(lines, q + 1, nss_count(lines, q, mt))
}

/// What the MF=34 subsection read from `lines[q]` onwards holds.
pub open spec fn sub34_matches(s: Mf34Subsection, lines: Seq<Seq<char>>, q: int, mt: i64) -> bool {
    let n = nss_count(lines, q, mt);
    &&& s.mat1 == int_field(lines[q], 22, 33)
    &&& s.mt1 == int_field(lines[q], 33, 44)
    &&& s.nl == int_field(lines[q], 44, 55)
    &&& s.nss == nss_of(mt, s.mt1, s.nl, int_field(lines[q], 55, 66) as i64)
    &&& s.lct == (if n > 0 {
        int_field(lines[q + 1], 44, 55)
    } else {
        0
    })
    &&& s.l@.len() == n && s.l1@.len() == n && s.ni@.len() == n && s.subsubsections@.len() == n
    &&& forall|k: int|
        0 <= k < n ==> {
            let b = #[trigger] block_at(lines, q + 1, k);
            &&& s.l@[k] == int_field(lines[b], 22, 33)
            &&& s.l1@[k] == int_field(lines[b], 33, 44)
            &&& s.ni@[k] == int_field(lines[b], 55, 66)
            &&& block_matches(s.subsubsections@[k], lines, b)
        }
}

/// Read one MF=34 subsection of reaction `mt`.
fn read_sub34(reader: &mut Reader, mt: i64) -> (r: Result<Mf34Subsection>)
    requires
        old(reader).wf(),
    ensures
        final(reader).wf(),
        final(reader).lines_view() == old(reader).lines_view(),
        r matches Err(e) ==> e is UnexpectedEof,
        sub34_fits(old(reader).lines_view(), old(reader).position(), mt) ==> {
            &&& r matches Ok(s) && sub34_matches(s, old(reader).lines_view(), old(reader).position(), mt)
            &&& final(reader).position() == sub34_end(old(reader).lines_view(), old(reader).position(), mt)
        },
        !sub34_fits(old(reader).lines_view(), old(reader).position(), mt) ==> r is Err,
{
    let ghost lines = reader.lines_view();
    let ghost q = reader.position();
    proof {
        reader.lemma_position_nonneg();
    }
    let c = reader.cont_record()?;
    let nss = nss_exec(mt, c.l2, c.n1, c.n2);
    let ghost count = at_least_zero(nss as int);
    let mut s = Mf34Subsection {
        mat1: c.l1,
        mt1: c.l2,
        nl: c.n1,
        nss,
        lct: 0,
        l: Vec::new(),
        l1: Vec::new(),
        ni: Vec::new(),
        subsubsections: Vec::new(),
    };
    let mut n: i64 = 0;
    while n < nss
        invariant
            reader.wf(),
            reader.lines_view() == lines,
            lines == old(reader).lines_view(),
            q == old(reader).position(),
            0 <= q < lines.len(),
            cont_matches(c, lines[q]),
            nss == nss_of(mt, c.l2, c.n1, c.n2),
            count == at_least_zero(nss as int),
            count == nss_count(lines, q, mt),
            0 <= n <= count,
            reader.position() == block_at(lines, q + 1, n as int),
            blocks_fit(lines, q + 1, n as int),
            s.mat1 == c.l1 && s.mt1 == c.l2 && s.nl == c.n1 && s.nss == nss,
            s.lct == (if n > 0 {
                int_field(lines[q + 1], 44, 55)
            } else {
                0
            }),
            s.l@.len() == n && s.l1@.len() == n && s.ni@.len() == n && s.subsubsections@.len() == n,
            forall|k: int|
                0 <= k < n ==> {
                    let b = #[trigger] block_at(lines, q + 1, k);
                    &&& s.l@[k] == int_field(lines[b], 22, 33)
                    &&& s.l1@[k] == int_field(lines[b], 33, 44)
                    &&& s.ni@[k] == int_field(lines[b], 55, 66)
                    &&& block_matches(s.subsubsections@[k], lines, b)
                },
        decreases nss - n,
    {
        let (bc, block) = match read_block(reader) {
            Ok(r) => r,
            Err(e) => {
                proof {
                    lemma_blocks_stop(lines, q + 1, n as int, count);
                }
                return Err(e);
            },
        };
        s.l.push(bc.l1);
        s.l1.push(bc.l2);
        s.ni.push(bc.n2);
        if n == 0 {
            s.lct = bc.n1;
        }
        s.subsubsections.push(block);
        n = n + 1;
    }
    Ok(s)
}

/// Where the `k`-th of a run of MF=34 subsections from `lines[at]` starts.
pub open spec fn sub34_at(lines: Seq<Seq<char>>, at: int, k: int, mt: i64) -> int
    decreases k,
{
    if k <= 0 {
        at
    } else {
        sub34_end(lines, sub34_at(lines, at, k - 1, mt), mt)
    }
}

/// Whether `k` MF=34 subsections from `lines[at]` fit.
pub open spec fn subs34_fit(lines: Seq<Seq<char>>, at: int, k: int, mt: i64) -> bool
    decreases k,
{
    if k <= 0 {
        true
    } else {
        subs34_fit(lines, at, k - 1, mt) && sub34_fits(lines, sub34_at(lines, at, k - 1, mt), mt)
    }
}

proof fn lemma_subs34_stop(lines: Seq<Seq<char>>, at: int, k: int, n: int, mt: i64)
    requires
        0 <= k < n,
        subs34_fit(lines, at, k, mt),
        !sub34_fits(lines, sub34_at(lines, at, k, mt), mt),
    ensures
        !subs34_fit(lines, at, n, mt),
    decreases n - k,
{
    if k + 1 < n {
        lemma_subs34_stop_later(lines, at, k + 1, n, mt);
    }
}

proof fn lemma_subs34_stop_later(lines: Seq<Seq<char>>, at: int, k: int, n: int, mt: i64)
    requires
        0 < k <= n,
        !subs34_fit(lines, at, k, mt),
    ensures
        !subs34_fit(lines, at, n, mt),
    decreases n - k,
{
    if k < n {
        lemma_subs34_stop_later(lines, at, k + 1, n, mt);
    }
}

/// Whether the lines from `at` hold a whole MF=34 section of reaction `mt`:
/// its HEAD record and NMT1 subsections.
pub open spec fn mf34_fits(lines: Seq<Seq<char>>, at: int, mt: i64) -> bool {
    &&& 0 <= at < lines.len()
    &&& subs34_fit(lines, at + 1, at_least_zero(int_field(lines[at], 55, 66)), mt)
}

/// What an MF=34 section of reaction `mt` read from `lines[at]` onwards
/// holds.
pub open spec fn mf34_matches(d: Mf34, lines: Seq<Seq<char>>, at: int, mt: i64) -> bool {
    let n = at_least_zero(int_field(lines[at], 55, 66));
    &&& d.za@ == field_of(lines[at], 0, 11)
    &&& d.awr@ == field_of(lines[at], 11, 22)
    &&& d.ltt == int_field(lines[at], 33, 44)
    &&& d.nmt1 == int_field(lines[at], 55, 66)
    &&& d.subsections@.len() == n
    &&& forall|k: int|
        0 <= k < n ==> sub34_matches(#[trigger] d.subsections@[k], lines, sub34_at(lines, at + 1, k, mt), mt)
}

/// Parse an MF=34 section. `mt` is the reaction the section belongs to,
/// which the subsection count depends on.
pub fn parse_mf34(reader: &mut Reader, mt: i64) -> (r: Result<Mf34>)
    requires
        old(reader).wf(),
    ensures
        final(reader).wf(),
        mf34_fits(old(reader).lines_view(), old(reader).position(), mt) ==> (r matches Ok(d) && mf34_matches(
            d,
            old(reader).lines_view(),
            old(reader).position(),
            mt,
        )),
        !mf34_fits(old(reader).lines_view(), old(reader).position(), mt) ==> r is Err,
        r matches Err(e) ==> e is UnexpectedEof,
{
    let ghost lines = reader.lines_view();
    let ghost at = reader.position();
    proof {
        reader.lemma_position_nonneg();
    }
    let head = reader.cont_record()?;
    let nmt1 = head.n2;
    let ghost count = at_least_zero(nmt1 as int);
    let mut subsections: Vec<Mf34Subsection> = Vec::new();
    let mut k: i64 = 0;
    while k < nmt1
        invariant
            reader.wf(),
            reader.lines_view() == lines,
            lines == old(reader).lines_view(),
            at == old(reader).position(),
            0 <= at < lines.len(),
            nmt1 == int_field(lines[at], 55, 66),
            count == at_least_zero(nmt1 as int),
            0 <= k <= count,
            reader.position() == sub34_at(lines, at + 1, k as int, mt),
            subs34_fit(lines, at + 1, k as int, mt),
            subsections@.len() == k,
            forall|j: int|
                0 <= j < k ==> sub34_matches(
                    #[trigger] subsections@[j],
                    lines,
                    sub34_at(lines, at + 1, j, mt),
                    mt,
                ),
        decreases nmt1 - k,
    {
        let sub = match read_sub34(reader, mt) {
            Ok(s) => s,
            Err(e) => {
                proof {
                    lemma_subs34_stop(lines, at + 1, k as int, count, mt);
                }
                return Err(e);
            },
        };
        subsections.push(sub);
        k = k + 1;
    }
    Ok(Mf34 { za: head.c1, awr: head.c2, ltt: head.l2, nmt1, subsections })
}

} // verus!
