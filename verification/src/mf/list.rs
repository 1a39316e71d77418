//! Runs of records, and the values of LIST records one by one.
//!
//! A section is a sequence of records whose lengths follow from counts in
//! their own first lines. These spec functions say where each record of a
//! run starts and whether the run fits in the lines at hand, and the exec
//! functions pick values out of a LIST record, a missing one read as an
//! empty text.

use vstd::prelude::*;

use crate::records::{count_field, field_of, lines_for, values_match};

verus! {

/// The lines a TAB1 record whose header is `lines[at]` takes.
pub open spec fn tab1_len(lines: Seq<Seq<char>>, at: int) -> int {
    1 + lines_for(count_field(lines[at], 44, 55), 3) + lines_for(count_field(lines[at], 55, 66), 3)
}

/// Where the `k`-th of a run of TAB1 records from `lines[at]` starts, as far
/// as the records before it fit.
pub open spec fn tab1_at(lines: Seq<Seq<char>>, at: int, k: int) -> int
    decreases k,
{
    if k <= 0 {
        at
    } else {
        let p = tab1_at(lines, at, k - 1);
        p + tab1_len(lines, p)
    }
}

/// Whether `k` TAB1 records from `lines[at]` fit.
pub open spec fn tab1s_fit(lines: Seq<Seq<char>>, at: int, k: int) -> bool
    decreases k,
{
    if k <= 0 {
        true
    } else {
        tab1s_fit(lines, at, k - 1) && tab1_at(lines, at, k - 1) < lines.len() && tab1_at(lines, at, k)
            <= lines.len()
    }
}

/// `v.max(0)`.
pub open spec fn at_least_zero(v: int) -> int {
    if v > 0 {
        v
    } else {
        0
    }
}

/// Where the `k`-th record does not fit, no run of more records does.
pub proof fn lemma_tab1s_stop(lines: Seq<Seq<char>>, at: int, k: int, n: int)
    requires
        0 <= k < n,
        tab1s_fit(lines, at, k),
        !(tab1_at(lines, at, k) < lines.len() && tab1_at(lines, at, k + 1) <= lines.len()),
    ensures
        !tab1s_fit(lines, at, n),
    decreases n - k,
{
    if k + 1 < n {
        lemma_tab1s_stop_later(lines, at, k + 1, n);
    }
}

/// A run that does not fit at `k` does not fit at any later length.
pub proof fn lemma_tab1s_stop_later(lines: Seq<Seq<char>>, at: int, k: int, n: int)
    requires
        0 < k <= n,
        !tab1s_fit(lines, at, k),
    ensures
        !tab1s_fit(lines, at, n),
    decreases n - k,
{
    if k < n {
        lemma_tab1s_stop_later(lines, at, k + 1, n);
    }
}


/// The lines a LIST record whose header is `lines[p]` takes.
pub open spec fn list_len(lines: Seq<Seq<char>>, p: int) -> int {
    1 + lines_for(count_field(lines[p], 44, 55), 6)
}

/// Whether a whole LIST record stands at `lines[p]`.
pub open spec fn list_fits(lines: Seq<Seq<char>>, p: int) -> bool {
    0 <= p < lines.len() && p + list_len(lines, p) <= lines.len()
}

/// The text of the `k`-th value of the LIST record at `lines[p]`; empty
/// past its last value, where the reader takes it as zero.
pub open spec fn list_value(lines: Seq<Seq<char>>, p: int, k: int) -> Seq<char> {
    if 0 <= k < count_field(lines[p], 44, 55) {
        field_of(lines[p + 1 + k / 6], 11 * (k % 6), 11 * (k % 6) + 11)
    } else {
        Seq::empty()
    }
}

/// Values `k` and `k + 1` of the LIST record at `lines[p]`: a quantity and
/// its uncertainty.
pub open spec fn list_pair(lines: Seq<Seq<char>>, p: int, k: int) -> (Seq<char>, Seq<char>) {
    (list_value(lines, p, k), list_value(lines, p, k + 1))
}

/// The text of value `i` of `values`, empty past the end.
pub open spec fn item_text(values: Seq<String>, i: int) -> Seq<char> {
    if 0 <= i < values.len() {
        values[i]@
    } else {
        Seq::empty()
    }
}

/// Where the `k`-th of a run of LIST records from `lines[at]` starts.
pub open spec fn list_at(lines: Seq<Seq<char>>, at: int, k: int) -> int
    decreases k,
{
    if k <= 0 {
        at
    } else {
        let p = list_at(lines, at, k - 1);
        p + list_len(lines, p)
    }
}

/// Whether `k` LIST records from `lines[at]` fit.
pub open spec fn lists_fit(lines: Seq<Seq<char>>, at: int, k: int) -> bool
    decreases k,
{
    if k <= 0 {
        true
    } else {
        lists_fit(lines, at, k - 1) && list_fits(lines, list_at(lines, at, k - 1))
    }
}

/// The values of a LIST record read at `lines[p]` are the ones the lines
/// hold.
pub proof fn lemma_items(lines: Seq<Seq<char>>, p: int, values: Seq<String>)
    requires
        0 <= p < lines.len(),
        values_match(lines, p + 1, count_field(lines[p], 44, 55), values),
    ensures
        forall|k: int| #[trigger] item_text(values, k) == list_value(lines, p, k),
{
    assert forall|k: int| #[trigger] item_text(values, k) == list_value(lines, p, k) by {
        if 0 <= k < values.len() {
            assert(values[k]@ == field_of(lines[p + 1 + k / 6], 11 * (k % 6), 11 * (k % 6) + 11));
        }
    }
}

/// Where the `k`-th record of a run does not fit, no longer run does.
pub proof fn lemma_lists_stop(lines: Seq<Seq<char>>, at: int, k: int, n: int)
    requires
        0 <= k < n,
        lists_fit(lines, at, k),
        !list_fits(lines, list_at(lines, at, k)),
    ensures
        !lists_fit(lines, at, n),
    decreases n - k,
{
    if k + 1 < n {
        lemma_lists_stop_later(lines, at, k + 1, n);
    }
}

pub proof fn lemma_lists_stop_later(lines: Seq<Seq<char>>, at: int, k: int, n: int)
    requires
        0 < k <= n,
        !lists_fit(lines, at, k),
    ensures
        !lists_fit(lines, at, n),
    decreases n - k,
{
    if k < n {
        lemma_lists_stop_later(lines, at, k + 1, n);
    }
}

/// Value `i` of a LIST record, or an empty text past its end.
pub(crate) fn item(values: &Vec<String>, i: u128) -> (r: String)
    ensures
        r@ == item_text(values@, i as int),
{
    if i < values.len() as u128 {
        let k = i as usize;
        values[k].clone()
    } else {
        String::new()
    }
}

/// Every sixth value of a LIST record, from value `off` on.
pub(crate) fn column(values: &Vec<String>, off: usize) -> (r: Vec<String>)
    requires
        off < 6,
    ensures
        r@.len() == column_len(values@.len() as int, off as int),
        forall|j: int| 0 <= j < r@.len() ==> #[trigger] r@[j]@ == item_text(values@, off + 6 * j),
{
    let mut r: Vec<String> = Vec::new();
    let n = values.len();
    let count: usize = if n > off {
        (n - off) / 6 + if (n - off) % 6 != 0 {
            1
        } else {
            0
        }
    } else {
        0
    };
    assert(count == column_len(n as int, off as int));
    let mut j: usize = 0;
    while j < count
        invariant
            off < 6,
            n == values@.len(),
            count == column_len(n as int, off as int),
            j <= count,
            r@.len() == j,
            forall|k: int| 0 <= k < r@.len() ==> #[trigger] r@[k]@ == item_text(values@, off + 6 * k),
        decreases count - j,
    {
        let i = off + 6 * j;
        r.push(values[i].clone());
        j = j + 1;
    }
    r
}

/// How many of `n` values are at `off`, `off + 6`, and so on.
pub open spec fn column_len(n: int, off: int) -> int {
    if n > off {
        (n - off + 5) / 6
    } else {
        0
    }
}

/// Every sixth value of the LIST record at `lines[p]`, from value `off` on.
pub open spec fn column_matches(c: Seq<String>, lines: Seq<Seq<char>>, p: int, off: int) -> bool {
    &&& c.len() == column_len(count_field(lines[p], 44, 55), off)
    &&& forall|j: int| 0 <= j < c.len() ==> #[trigger] c[j]@ == list_value(lines, p, off + 6 * j)
}

/// Every other value of a LIST record from value `from` on, up to value
/// `to`.
pub(crate) fn every_other(values: &Vec<String>, from: usize, to: usize) -> (r: Vec<String>)
    requires
        to <= values@.len(),
    ensures
        r@.len() == alternate_len(to as int, from as int),
        forall|j: int| 0 <= j < r@.len() ==> #[trigger] r@[j]@ == item_text(values@, from + 2 * j),
{
    let mut r: Vec<String> = Vec::new();
    let count: usize = if to > from {
        (to - from) / 2 + (to - from) % 2
    } else {
        0
    };
    let mut j: usize = 0;
    while j < count
        invariant
            to <= values@.len(),
            count == alternate_len(to as int, from as int),
            j <= count,
            r@.len() == j,
            forall|k: int| 0 <= k < r@.len() ==> #[trigger] r@[k]@ == item_text(values@, from + 2 * k),
        decreases count - j,
    {
        let i = from + 2 * j;
        r.push(values[i].clone());
        j = j + 1;
    }
    r
}

/// How many of the values before `to` are at `from`, `from + 2`, and so on.
pub open spec fn alternate_len(to: int, from: int) -> int {
    if to > from {
        (to - from + 1) / 2
    } else {
        0
    }
}

/// Every other value of the LIST record at `lines[p]` from value `from` on,
/// up to value `to`.
pub open spec fn every_other_matches(c: Seq<String>, lines: Seq<Seq<char>>, p: int, from: int, to: int) -> bool {
    &&& c.len() == alternate_len(to, from)
    &&& forall|j: int| 0 <= j < c.len() ==> #[trigger] c[j]@ == list_value(lines, p, from + 2 * j)
}

/// Every other value of the LIST record at `lines[p]`, from value `off` on.
pub open spec fn alternate_matches(c: Seq<String>, lines: Seq<Seq<char>>, p: int, off: int) -> bool {
    every_other_matches(c, lines, p, off, count_field(lines[p], 44, 55))
}

/// Values `lo` to `hi` of a LIST record.
pub(crate) fn slice_texts(values: &Vec<String>, lo: usize, hi: usize) -> (r: Vec<String>)
    requires
        lo <= hi <= values@.len(),
    ensures
        r@.len() == hi - lo,
        forall|j: int| 0 <= j < r@.len() ==> #[trigger] r@[j]@ == item_text(values@, lo + j),
{
    let mut r: Vec<String> = Vec::new();
    let mut i: usize = lo;
    while i < hi
        invariant
            lo <= i <= hi <= values@.len(),
            r@.len() == i - lo,
            forall|j: int| 0 <= j < r@.len() ==> #[trigger] r@[j]@ == item_text(values@, lo + j),
        decreases hi - i,
    {
        r.push(values[i].clone());
        i = i + 1;
    }
    r
}

/// Whether a whole TAB1 record stands at `lines[q]`.
pub open spec fn tab1_fits(lines: Seq<Seq<char>>, q: int) -> bool {
    0 <= q < lines.len() && q + tab1_len(lines, q) <= lines.len()
}

/// Whether `k` is how many of `n` values are at `from`, `from + stride`,
/// and so on.
pub open spec fn strided_count(k: int, n: int, from: int, stride: int) -> bool {
    if n <= from {
        k == 0
    } else {
        k > 0 && from + stride * (k - 1) < n && n <= from + stride * k
    }
}

/// Every `stride`-th value of a LIST record, from value `from` on.
pub(crate) fn strided(values: &Vec<String>, from: usize, stride: usize) -> (r: Vec<String>)
    requires
        stride >= 1,
    ensures
        strided_count(r@.len() as int, values@.len() as int, from as int, stride as int),
        forall|j: int| 0 <= j < r@.len() ==> #[trigger] r@[j]@ == item_text(values@, from + stride * j),
{
    let mut r: Vec<String> = Vec::new();
    let n = values.len();
    if from >= n {
        return r;
    }
    let mut i: usize = from;
    assert(stride * r@.len() == 0) by (nonlinear_arith)
        requires
            r@.len() == 0,
    ;
    loop
        invariant_except_break
            from <= i < n,
            n == values@.len(),
            stride >= 1,
            i == from + stride * r@.len(),
            forall|j: int| 0 <= j < r@.len() ==> #[trigger] r@[j]@ == item_text(values@, from + stride * j),
        ensures
            strided_count(r@.len() as int, n as int, from as int, stride as int),
            forall|j: int| 0 <= j < r@.len() ==> #[trigger] r@[j]@ == item_text(values@, from + stride * j),
        decreases n - i,
    {
        let ghost len = r@.len();
        r.push(values[i].clone());
        assert(stride * (len + 1) == stride * len + stride) by (nonlinear_arith);
        if n - i <= stride {
            break;
        }
        i = i + stride;
    }
    r
}

/// Every `stride`-th value of the LIST record at `lines[p]`, from value
/// `from` on.
pub open spec fn strided_matches(c: Seq<String>, lines: Seq<Seq<char>>, p: int, from: int, stride: int) -> bool {
    &&& strided_count(c.len() as int, count_field(lines[p], 44, 55), from, stride)
    &&& forall|j: int| 0 <= j < c.len() ==> #[trigger] c[j]@ == list_value(lines, p, from + stride * j)
}

} // verus!
