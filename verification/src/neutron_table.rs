//! The layout of an ACE continuous-energy neutron table: where its energy
//! grid lies, which reactions it has (MTR) with their Q values (LQR), their
//! neutron yields and frames (TYR), where each cross section starts (LSIG,
//! SIG), and which reactions produce photons (MTRP).
//!
//! The XSS array holds every value as a real number, integers included. An
//! integer slot is read here from its text.

use vstd::prelude::*;

use crate::ace::{strings_view, table_view, tdiv, Table, TableView, decimal_number, exponent_at, is_decimal_number, mantissa_ok, point_at, unsigned};
use crate::error::Error;
use crate::radionuclide::{insert_rising, rising};
use crate::text::{all_digits, chars_of, digits_upto, digits_value, is_digit, lemma_digits_value_nonneg};

verus! {

broadcast use vstd::string::group_string_axioms;

/// `10^n`.
pub open spec fn pow10(n: nat) -> int
    decreases n,
{
    if n == 0 {
        1
    } else {
        10 * pow10((n - 1) as nat)
    }
}

proof fn lemma_pow10_grows(a: nat, b: nat)
    requires
        a <= b,
    ensures
        1 <= pow10(a) <= pow10(b),
    decreases b,
{
    if b > 0 {
        if a < b {
            lemma_pow10_grows(a, (b - 1) as nat);
        } else {
            lemma_pow10_grows(0, (b - 1) as nat);
        }
    }
}

/// The digits of a mantissa with its point taken out.
pub open spec fn mantissa_digits(m: Seq<char>) -> Seq<char> {
    let d = point_at(m, 0);
    if d >= m.len() {
        m
    } else {
        m.take(d) + m.skip(d + 1)
    }
}

/// How many digits of a mantissa stand after its point.
pub open spec fn fraction_len(m: Seq<char>) -> int {
    let d = point_at(m, 0);
    if d >= m.len() {
        0
    } else {
        m.len() - d - 1
    }
}

/// The value of an exponent's text: a sign, where there is one, and digits.
pub open spec fn exponent_value(t: Seq<char>) -> int {
    if t.len() > 0 && t[0] == '-' {
        -digits_value(unsigned(t))
    } else {
        digits_value(unsigned(t))
    }
}

/// The exponent of a decimal number, zero where it has none.
pub open spec fn exponent_of(u: Seq<char>) -> int {
    let e = exponent_at(u, 0);
    if e >= u.len() {
        0
    } else {
        exponent_value(u.skip(e + 1))
    }
}

/// The largest exponent an integer slot is read with.
pub open spec fn exponent_limit() -> int {
    400
}

/// The digits `ds` times `10^scale`, any fraction cut off.
pub open spec fn scaled_value(ds: Seq<char>, scale: int) -> int {
    if scale >= 0 {
        digits_value(ds) * pow10(scale as nat)
    } else if ds.len() + scale <= 0 {
        0
    } else {
        digits_value(ds.take(ds.len() + scale))
    }
}

/// The magnitude of an unsigned decimal number, its fraction cut off.
pub open spec fn magnitude(u: Seq<char>) -> int {
    let m = u.take(exponent_at(u, 0));
    scaled_value(mantissa_digits(m), exponent_of(u) - fraction_len(m))
}

/// The integer an XSS value holds: its decimal value with any fraction cut
/// off, toward zero. `None` where the text is no decimal number, its
/// exponent is beyond [`exponent_limit`] either way, or the integer does not
/// fit an `i64`.
pub open spec fn xss_integer(s: Seq<char>) -> Option<int> {
    let u = unsigned(s);
    let e = exponent_at(u, 0);
    if !decimal_number(u) {
        None
    } else if e < u.len() && digits_value(unsigned(u.skip(e + 1))) > exponent_limit() {
        None
    } else if magnitude(u) > i64::MAX {
        None
    } else if s.len() > 0 && s[0] == '-' {
        Some(-magnitude(u))
    } else {
        Some(magnitude(u))
    }
}

/// The digits `ds` times `10^scale`, any fraction cut off, where that is
/// at most `i64::MAX`.
fn scale_digits(ds: &Vec<char>, scale: i128) -> (r: Option<u64>)
    requires
        all_digits(ds@),
    ensures
        match r {
            Some(m) => m == scaled_value(ds@, scale as int) && m <= i64::MAX,
            None => scaled_value(ds@, scale as int) > i64::MAX,
        },
{
    let limit: u64 = 0x7fff_ffff_ffff_ffff;
    assert(ds@.subrange(0, ds@.len() as int) =~= ds@);
    if scale >= 0 {
        let base = match digits_upto(ds, 0, ds.len(), limit) {
            Some(b) => b,
            None => {
                proof {
                    lemma_pow10_grows(0, scale as nat);
                    lemma_digits_value_nonneg(ds@);
                    assert(digits_value(ds@) * pow10(scale as nat) >= digits_value(ds@)) by (nonlinear_arith)
                        requires
                            pow10(scale as nat) >= 1,
                            digits_value(ds@) >= 0,
                    ;
                }
                return None;
            },
        };
        let mut acc: u64 = base;
        let mut j: i128 = 0;
        assert(pow10(j as nat) == 1) by {
            reveal_with_fuel(pow10, 1);
        }
        assert(base as int * pow10(j as nat) == base as int);
        while j < scale
            invariant
                0 <= j <= scale,
                acc as int == base as int * pow10(j as nat),
                base as int == digits_value(ds@),
                acc <= limit,
                limit == 0x7fff_ffff_ffff_ffffu64,
            decreases scale - j,
        {
            proof {
                assert(pow10((j + 1) as nat) == 10 * pow10(j as nat));
                assert(base as int * pow10((j + 1) as nat) == 10 * acc) by (nonlinear_arith)
                    requires
                        acc as int == base as int * pow10(j as nat),
                        pow10((j + 1) as nat) == 10 * pow10(j as nat),
                ;
            }
            if acc > limit / 10 {
                proof {
                    lemma_pow10_grows((j + 1) as nat, scale as nat);
                    assert(base as int * pow10(scale as nat) >= base as int * pow10((j + 1) as nat)) by (nonlinear_arith)
                        requires
                            pow10(scale as nat) >= pow10((j + 1) as nat),
                            base >= 0,
                    ;
                }
                return None;
            }
            acc = acc * 10;
            j = j + 1;
        }
        Some(acc)
    } else if (ds.len() as i128) + scale <= 0 {
        Some(0)
    } else {
        let keep = ((ds.len() as i128) + scale) as usize;
        assert(ds@.subrange(0, keep as int) =~= ds@.take(keep as int));
        assert(all_digits(ds@.take(keep as int)));
        digits_upto(ds, 0, keep, limit)
    }
}

/// Where the exponent marker and the point of the number at `v[st..]`
/// stand.
fn number_parts(v: &Vec<char>, st: usize) -> (r: (usize, usize))
    requires
        st <= v.len(),
    ensures
        ({
            let u = v@.subrange(st as int, v.len() as int);
            let (e, d) = r;
            &&& st <= d <= e <= v.len()
            &&& exponent_at(u, 0) == e - st
            &&& point_at(u.take(e - st), 0) == d - st
        }),
{
    let ghost u = v@.subrange(st as int, v.len() as int);
    let n = v.len();
    let mut e: usize = st;
    while e < n && v[e] != 'e' && v[e] != 'E'
        invariant
            st <= e <= n,
            n == v@.len(),
            u == v@.subrange(st as int, n as int),
            exponent_at(u, 0) == exponent_at(u, e - st),
        decreases n - e,
    {
        e = e + 1;
    }
    let ghost m = u.take(e - st);
    assert(m =~= v@.subrange(st as int, e as int));
    let mut d: usize = st;
    while d < e && v[d] != '.'
        invariant
            st <= d <= e <= n,
            n == v@.len(),
            m == v@.subrange(st as int, e as int),
            point_at(m, 0) == point_at(m, d - st),
        decreases e - d,
    {
        d = d + 1;
    }
    (e, d)
}

/// The characters of `v[st..d]` and `v[d + 1..e]`, one after the other.
fn mantissa_exec(v: &Vec<char>, st: usize, d: usize, e: usize) -> (r: Vec<char>)
    requires
        st <= d <= e <= v.len(),
    ensures
        r@ == if d < e {
            v@.subrange(st as int, d as int) + v@.subrange(d + 1, e as int)
        } else {
            v@.subrange(st as int, d as int)
        },
{
    let mut ds: Vec<char> = Vec::new();
    let mut k: usize = st;
    while k < d
        invariant
            st <= k <= d <= e <= v@.len(),
            ds@ == v@.subrange(st as int, k as int),
        decreases d - k,
    {
        ds.push(v[k]);
        k = k + 1;
        assert(ds@ =~= v@.subrange(st as int, k as int));
    }
    if d < e {
        let ghost head = ds@;
        let mut k: usize = d + 1;
        assert(ds@ =~= head + v@.subrange(d + 1, k as int));
        while k < e
            invariant
                d + 1 <= k <= e <= v@.len(),
                ds@ == head + v@.subrange(d + 1, k as int),
            decreases e - k,
        {
            ds.push(v[k]);
            k = k + 1;
            assert(ds@ =~= head + v@.subrange(d + 1, k as int));
        }
    }
    ds
}

/// The exponent of the number at `v[st..]`, whose marker stands at `e`,
/// where it is within [`exponent_limit`].
fn read_exponent(v: &Vec<char>, st: usize, e: usize) -> (r: Option<i128>)
    requires
        st <= e <= v.len(),
        decimal_number(v@.subrange(st as int, v.len() as int)),
        exponent_at(v@.subrange(st as int, v.len() as int), 0) == e - st,
    ensures
        ({
            let u = v@.subrange(st as int, v.len() as int);
            if e < v.len() && digits_value(unsigned(u.skip(e - st + 1))) > exponent_limit() {
                r is None
            } else {
                r matches Some(x) && x == exponent_of(u) && -400 <= x <= 400
            }
        }),
{
    let ghost u = v@.subrange(st as int, v.len() as int);
    let n = v.len();
    if e == n {
        return Some(0);
    }
    let neg = e + 1 < n && v[e + 1] == '-';
    let xs = if e + 1 < n && (v[e + 1] == '+' || v[e + 1] == '-') {
        e + 2
    } else {
        e + 1
    };
    let ghost t = u.skip(e - st + 1);
    assert(t =~= v@.subrange(e + 1, n as int));
    assert(unsigned(t) =~= v@.subrange(xs as int, n as int));
    match digits_upto(v, xs, n, 400) {
        Some(k) => Some(
            if neg {
                0 - (k as i128)
            } else {
                k as i128
            },
        ),
        None => None,
    }
}

proof fn lemma_point_at(s: Seq<char>, i: int)
    requires
        0 <= i <= s.len(),
    ensures
        i <= point_at(s, i) <= s.len(),
    decreases s.len() - i,
{
    if i < s.len() && s[i] != '.' {
        lemma_point_at(s, i + 1);
    }
}

/// A mantissa's digits, its point taken out, are all digits.
proof fn lemma_mantissa_digits(m: Seq<char>)
    requires
        mantissa_ok(m),
    ensures
        all_digits(mantissa_digits(m)),
{
    let dd = point_at(m, 0);
    lemma_point_at(m, 0);
    if dd < m.len() {
        let ds = mantissa_digits(m);
        assert(all_digits(m.take(dd)) && all_digits(m.skip(dd + 1)));
        assert forall|i: int| 0 <= i < ds.len() implies is_digit(#[trigger] ds[i]) by {
            if i < dd {
                assert(ds[i] == m.take(dd)[i]);
            } else {
                assert(ds[i] == m.skip(dd + 1)[i - dd]);
            }
        }
    }
}

/// The magnitude of the decimal number at `v[st..]`, where it is within an
/// `i64` and its exponent within [`exponent_limit`].
fn read_magnitude(v: &Vec<char>, st: usize) -> (r: Option<u64>)
    requires
        st <= v.len(),
        decimal_number(v@.subrange(st as int, v.len() as int)),
    ensures
        ({
            let u = v@.subrange(st as int, v.len() as int);
            let e = exponent_at(u, 0);
            if e < u.len() && digits_value(unsigned(u.skip(e + 1))) > exponent_limit() {
                r is None
            } else {
                &&& r matches Some(g) ==> g as int == magnitude(u) && g <= i64::MAX
                &&& r is None ==> magnitude(u) > i64::MAX
            }
        }),
{
    let ghost u = v@.subrange(st as int, v.len() as int);
    let (e, d) = number_parts(v, st);
    let x = match read_exponent(v, st, e) {
        Some(x) => x,
        None => {
            return None;
        },
    };
    let ghost m = u.take(e - st);
    assert(m =~= v@.subrange(st as int, e as int));
    let ds = mantissa_exec(v, st, d, e);
    proof {
        if d < e {
            assert(m.take(d - st) =~= v@.subrange(st as int, d as int));
            assert(m.skip(d - st + 1) =~= v@.subrange(d + 1, e as int));
        }
        assert(ds@ =~= mantissa_digits(m));
        lemma_mantissa_digits(m);
    }
    let frac: i128 = if d < e {
        (e - d - 1) as i128
    } else {
        0
    };
    assert(frac == fraction_len(m));
    scale_digits(&ds, x - frac)
}

/// The integer an XSS value holds; see [`xss_integer`].
pub fn read_integer(s: &str) -> (r: Option<i64>)
    ensures
        match xss_integer(s@) {
            Some(x) => r matches Some(y) && y as int == x,
            None => r is None,
        },
{
    let v = chars_of(s);
    let n = v.len();
    let st: usize = if n > 0 && (v[0] == '+' || v[0] == '-') {
        1
    } else {
        0
    };
    let ghost u = v@.subrange(st as int, n as int);
    assert(unsigned(v@) =~= u);
    if !is_decimal_number(&v, st) {
        return None;
    }
    let mag = match read_magnitude(&v, st) {
        Some(g) => g,
        None => {
            return None;
        },
    };
    if n > 0 && v[0] == '-' {
        Some(0 - (mag as i64))
    } else {
        Some(mag as i64)
    }
}


/// The integer in the XSS slot `k`, one-based; `None` outside the array or
/// where the slot holds no integer.
pub open spec fn slot(xss: Seq<Seq<char>>, k: int) -> Option<int> {
    if 1 <= k < xss.len() {
        xss_integer(xss[k])
    } else {
        None
    }
}

/// The text in the XSS slot `k`, one-based.
pub open spec fn text_slot(xss: Seq<Seq<char>>, k: int) -> Option<Seq<char>> {
    if 1 <= k < xss.len() {
        Some(xss[k])
    } else {
        None
    }
}

/// Whether `v` fits an `i32`.
pub open spec fn fits_i32(v: int) -> bool {
    i32::MIN <= v <= i32::MAX
}

/// A reaction of the table as plain values: MT, the Q value's text, TY, the
/// one-based energy index its cross section starts at, how many values it
/// has, and the XSS slot of the first.
pub type ReactionView = (int, Seq<char>, int, int, int, int);

/// The `i`-th reaction of the table, one-based: its MT from MTR, its Q
/// value from LQR, its TY from TYR, and from the SIG block, at the locator
/// LSIG gives, where its energies start and how many there are, the values
/// following.
pub open spec fn reaction_at(jxs: Seq<i64>, xss: Seq<Seq<char>>, i: int) -> Option<ReactionView> {
    match (slot(xss, jxs[3] + i - 1), text_slot(xss, jxs[4] + i - 1), slot(xss, jxs[5] + i - 1), slot(xss, jxs[6] + i - 1)) {
        (Some(mt), Some(q), Some(ty), Some(loc)) => if !fits_i32(mt) {
            None
        } else {
            match (slot(xss, jxs[7] + loc - 1), slot(xss, jxs[7] + loc)) {
                (Some(ie), Some(ne)) => Some((mt, q, ty, ie, ne, jxs[7] + loc + 1)),
                _ => None,
            }
        },
        _ => None,
    }
}

/// The first `n` reactions of the table, or `None` where one cannot be read.
pub open spec fn reactions_upto(jxs: Seq<i64>, xss: Seq<Seq<char>>, n: int) -> Option<Seq<ReactionView>>
    decreases n,
{
    if n <= 0 {
        Some(Seq::empty())
    } else {
        match (reactions_upto(jxs, xss, n - 1), reaction_at(jxs, xss, n)) {
            (Some(rs), Some(r)) => Some(rs.push(r)),
            _ => None,
        }
    }
}

/// The MT of the `k`-th photon production reaction, zero-based: MTRP holds
/// `1000 * MT` plus a photon index, so its thousands.
pub open spec fn photon_mt_at(jxs: Seq<i64>, xss: Seq<Seq<char>>, k: int) -> Option<int> {
    match slot(xss, jxs[13] + k) {
        Some(v) => if fits_i32(tdiv(v, 1000)) {
            Some(tdiv(v, 1000))
        } else {
            None
        },
        None => None,
    }
}

/// Whether every one of the first `n` photon production MTs reads.
pub open spec fn photon_mts_read(jxs: Seq<i64>, xss: Seq<Seq<char>>, n: int) -> bool {
    forall|k: int| 0 <= k < n ==> (#[trigger] photon_mt_at(jxs, xss, k)) is Some
}

/// Whether a table's NXS and JXS are long enough to lay out.
pub open spec fn arrays_long_enough(nxs: Seq<i64>, jxs: Seq<i64>) -> bool {
    nxs.len() > 6 && jxs.len() > 13
}

/// Whether an ACE neutron table can be laid out: its arrays are long
/// enough, and each of its NTR reactions and NTRP photon production MTs
/// reads.
pub open spec fn layout_ok(t: TableView) -> bool {
    &&& arrays_long_enough(t.4, t.5)
    &&& reactions_upto(t.5, t.6, t.4[4] as int) is Some
    &&& photon_mts_read(t.5, t.6, t.4[6] as int)
}

/// One reaction of an ACE neutron table, as the table lays it out.
#[derive(Debug, Clone, PartialEq, Eq)]
pub struct AceReaction {
    pub mt: i32,
    /// The Q value, as its text.
    pub q_value: String,
    /// The neutron yield and frame: its magnitude the number of neutrons,
    /// or above 100 a locator of a tabulated yield, 19 for fission; below
    /// zero in the centre-of-mass frame.
    pub ty: i64,
    /// The one-based index on the energy grid where the cross section
    /// starts.
    pub first_energy: i64,
    /// How many cross section values there are.
    pub n_energy: i64,
    /// The XSS slot of the first value.
    pub xs_start: usize,
}

pub open spec fn reaction_view(r: AceReaction) -> ReactionView {
    (r.mt as int, r.q_value@, r.ty as int, r.first_energy as int, r.n_energy as int, r.xs_start as int)
}

/// The layout of an ACE neutron table.
#[derive(Debug, Clone, PartialEq, Eq)]
pub struct NeutronLayout {
    /// The XSS slot where the energy grid (ESZ) starts, and its length; the
    /// total, absorption, elastic and heating columns follow it.
    pub grid_start: i64,
    pub n_grid: i64,
    /// The reactions MTR lists, in its order.
    pub reactions: Vec<AceReaction>,
    /// The MTs with photon production, ascending, each once.
    pub photon_mts: Vec<i32>,
}

/// `v`, or zero where it is below zero.
pub open spec fn at_least_zero(v: int) -> int {
    if v > 0 {
        v
    } else {
        0
    }
}

/// What the layout of a table holds: ESZ at JXS(1), NXS(3) energies long,
/// the reactions, and the photon production MTs as a set.
pub open spec fn layout_matches(l: NeutronLayout, t: TableView) -> bool {
    &&& l.grid_start == at_least_zero(t.5[1] as int)
    &&& l.n_grid == at_least_zero(t.4[3] as int)
    &&& reactions_upto(t.5, t.6, t.4[4] as int) == Some(l.reactions@.map_values(|r: AceReaction| reaction_view(r)))
    &&& rising(l.photon_mts@)
    &&& forall|x: i32|
        l.photon_mts@.contains(x) <==> exists|k: int|
            0 <= k < t.4[6] && #[trigger] photon_mt_at(t.5, t.6, k) == Some(x as int)
}

/// The integer in XSS slot `k`; see [`slot`].
fn slot_exec(xss: &Vec<String>, k: i128) -> (r: Option<i64>)
    ensures
        match slot(strings_view(xss@), k as int) {
            Some(x) => r matches Some(y) && y as int == x,
            None => r is None,
        },
{
    if 1 <= k && k < xss.len() as i128 {
        read_integer(xss[k as usize].as_str())
    } else {
        None
    }
}

/// The `i`-th reaction; see [`reaction_at`].
fn reaction_exec(jxs: &Vec<i64>, xss: &Vec<String>, i: i128) -> (r: Option<AceReaction>)
    requires
        jxs@.len() > 13,
        0 <= i <= i64::MAX,
    ensures
        match reaction_at(jxs@, strings_view(xss@), i as int) {
            Some(v) => r matches Some(a) && reaction_view(a) == v,
            None => r is None,
        },
{
    let ghost x = strings_view(xss@);
    let mt = match slot_exec(xss, jxs[3] as i128 + i - 1) {
        Some(v) => v,
        None => return None,
    };
    let k4 = jxs[4] as i128 + i - 1;
    if !(1 <= k4 && k4 < xss.len() as i128) {
        return None;
    }
    let q = xss[k4 as usize].clone();
    let ty = match slot_exec(xss, jxs[5] as i128 + i - 1) {
        Some(v) => v,
        None => return None,
    };
    let loc = match slot_exec(xss, jxs[6] as i128 + i - 1) {
        Some(v) => v,
        None => return None,
    };
    if mt < i32::MIN as i64 || mt > i32::MAX as i64 {
        return None;
    }
    let at = jxs[7] as i128 + loc as i128;
    let ie = match slot_exec(xss, at - 1) {
        Some(v) => v,
        None => return None,
    };
    let ne = match slot_exec(xss, at) {
        Some(v) => v,
        None => return None,
    };
    Some(AceReaction { mt: mt as i32, q_value: q, ty, first_energy: ie, n_energy: ne, xs_start: (at + 1) as usize })
}

/// The photon production MT `k`; see [`photon_mt_at`].
fn photon_mt_exec(jxs: &Vec<i64>, xss: &Vec<String>, k: i128) -> (r: Option<i32>)
    requires
        jxs@.len() > 13,
        0 <= k <= i64::MAX,
    ensures
        match photon_mt_at(jxs@, strings_view(xss@), k as int) {
            Some(v) => r matches Some(a) && a as int == v,
            None => r is None,
        },
{
    match slot_exec(xss, jxs[13] as i128 + k) {
        Some(v) => {
            let m = v / 1000;
            assert(m as int == tdiv(v as int, 1000));
            if m < i32::MIN as i64 || m > i32::MAX as i64 {
                None
            } else {
                Some(m as i32)
            }
        },
        None => None,
    }
}

/// The layout of an ACE continuous-energy neutron table: `Ok` exactly when
/// [`layout_ok`] holds, with the layout [`layout_matches`] describes; else
/// the table's blocks and its XSS array do not agree.
pub fn neutron_table_layout(table: &Table) -> (r: Result<NeutronLayout, Error>)
    ensures
        (r is Ok) <==> layout_ok(table_view(*table)),
        r matches Ok(l) ==> layout_matches(l, table_view(*table)),
        r matches Err(e) ==> (e == Error::Mismatched { what: "the blocks of an ACE neutron table and its XSS array" }),
{
    let ghost t = table_view(*table);
    if table.nxs.len() <= 6 || table.jxs.len() <= 13 {
        return Err(Error::Mismatched { what: "the blocks of an ACE neutron table and its XSS array" });
    }
    let ghost x = strings_view(table.xss@);
    let ntr: i64 = table.nxs[4];
    let mut reactions: Vec<AceReaction> = Vec::new();
    let mut i: i128 = 1;
    assert(reactions@.map_values(|r: AceReaction| reaction_view(r)) =~= Seq::<ReactionView>::empty());
    while i <= ntr as i128
        invariant
            1 <= i,
            i <= ntr + 1 || (ntr < 1 && i == 1),
            table.jxs@.len() > 13,
            t == table_view(*table),
            x == strings_view(table.xss@),
            ntr == table.nxs@[4],
            reactions_upto(table.jxs@, x, (i - 1) as int) == Some(reactions@.map_values(|r: AceReaction| reaction_view(r))),
        decreases ntr - i + 1,
    {
        match reaction_exec(&table.jxs, &table.xss, i) {
            Some(a) => {
                let ghost before = reactions@;
                reactions.push(a);
                assert(reactions@.map_values(|r: AceReaction| reaction_view(r)) =~= before.map_values(
                    |r: AceReaction| reaction_view(r),
                ).push(reaction_view(a)));
            },
            None => {
                proof {
                    lemma_reactions_stop(table.jxs@, x, i as int, ntr as int);
                }
                return Err(Error::Mismatched { what: "the blocks of an ACE neutron table and its XSS array" });
            },
        }
        i = i + 1;
    }
    assert(reactions_upto(table.jxs@, x, ntr as int) == Some(reactions@.map_values(|r: AceReaction| reaction_view(r))))
        by {
        if ntr < 1 {
            assert(reactions_upto(table.jxs@, x, ntr as int) == Some(Seq::<ReactionView>::empty()));
        }
    }
    let ntrp: i64 = table.nxs[6];
    let mut photon: Vec<i32> = Vec::new();
    let mut k: i64 = 0;
    while k < ntrp
        invariant
            0 <= k,
            k <= ntrp || (ntrp < 0 && k == 0),
            t == table_view(*table),
            reactions_upto(table.jxs@, x, ntr as int) == Some(reactions@.map_values(|r: AceReaction| reaction_view(r))),
            ntr == table.nxs@[4],
            table.jxs@.len() > 13,
            x == strings_view(table.xss@),
            ntrp == table.nxs@[6],
            rising(photon@),
            forall|j: int| 0 <= j < k ==> (#[trigger] photon_mt_at(table.jxs@, x, j)) is Some,
            forall|y: i32| photon@.contains(y) <==> exists|j: int|
                0 <= j < k && #[trigger] photon_mt_at(table.jxs@, x, j) == Some(y as int),
        decreases ntrp - k,
    {
        match photon_mt_exec(&table.jxs, &table.xss, k as i128) {
            Some(m) => {
                insert_rising(&mut photon, m);
                assert forall|y: i32| photon@.contains(y) <==> exists|j: int|
                    0 <= j < k + 1 && #[trigger] photon_mt_at(table.jxs@, x, j) == Some(y as int) by {
                    if y == m {
                        assert(photon_mt_at(table.jxs@, x, k as int) == Some(y as int));
                    }
                    if exists|j: int| 0 <= j < k + 1 && #[trigger] photon_mt_at(table.jxs@, x, j) == Some(y as int) {
                        let j = choose|j: int| 0 <= j < k + 1 && #[trigger] photon_mt_at(table.jxs@, x, j) == Some(y as int);
                        if j == k {
                            assert(y as int == m as int);
                        }
                    }
                }
            },
            None => {
                return Err(Error::Mismatched { what: "the blocks of an ACE neutron table and its XSS array" });
            },
        }
        k = k + 1;
    }
    let grid_start = if table.jxs[1] > 0 {
        table.jxs[1]
    } else {
        0
    };
    let n_grid = if table.nxs[3] > 0 {
        table.nxs[3]
    } else {
        0
    };
    Ok(NeutronLayout { grid_start, n_grid, reactions, photon_mts: photon })
}

/// Where a reaction cannot be read, neither can the reactions up to any
/// later one.
proof fn lemma_reactions_stop(jxs: Seq<i64>, xss: Seq<Seq<char>>, i: int, n: int)
    requires
        1 <= i <= n,
        reaction_at(jxs, xss, i) is None,
    ensures
        reactions_upto(jxs, xss, n) is None,
    decreases n - i,
{
    if i < n {
        lemma_reactions_stop(jxs, xss, i, n - 1);
    }
}

} // verus!
