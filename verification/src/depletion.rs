//! Assembling a depletion chain from its three sub-libraries: decay data,
//! fission product yields and neutron reactions.
//!
//! This decides everything about a chain that is a matter of names and
//! integers: which nuclides it holds and in what order, where each decay mode
//! and reaction leads, and whose fission yields each fissionable nuclide
//! takes. The branching ratios, half-lives and yields themselves are
//! attached to that plan by the caller.

use vstd::prelude::*;

use crate::chain::{
    available_view, decay_view, first_q, fission_mts, has_name, mts_distinct, names_ascending, names_view,
    path_view, paths_spec, reaction_paths, replace_missing, replace_missing_fpy, replace_missing_fpy_spec,
    replace_missing_spec, DecaySummary, PathView, TransmutationPath,
};
use crate::reduce::{key_gt, key_gt_exec, opt_chars, zam_key, zam_key_exec};
use crate::text::{chars_lt, chars_lt_exec, chars_of, lemma_chars_lt_order, lemma_chars_lt_trans, str_eq};

verus! {

broadcast use vstd::string::group_string_axioms;

/// What a chain takes from one decay evaluation.
#[derive(Debug, Clone, PartialEq, Eq)]
pub struct DecayRecord {
    /// The nuclide's name, stability and half-life order.
    pub summary: DecaySummary,
    /// Atomic number.
    pub z: i32,
    /// Mass number.
    pub a: i32,
    /// Whether the nuclide decays in the chain: it is not stable and its
    /// half-life is not zero.
    pub radioactive: bool,
    /// Each decay mode: its modes joined by commas, and the daughter it
    /// leaves, `None` where that is a bare neutron.
    pub modes: Vec<(String, Option<String>)>,
}

/// The name of a decay record.
pub open spec fn rec_name(r: DecayRecord) -> Seq<char> {
    r.summary.name@
}

/// Where a record of name `x` goes among the records `s` that are in
/// ascending order of name: after every smaller name, from the `i`-th on.
pub open spec fn name_pos(recs: Seq<DecayRecord>, s: Seq<usize>, x: Seq<char>, i: int) -> int
    decreases s.len() - i,
{
    if i < 0 || i >= s.len() {
        s.len() as int
    } else if chars_lt(rec_name(recs[s[i] as int]), x) {
        name_pos(recs, s, x, i + 1)
    } else {
        i
    }
}

/// The decay records a map keyed by name keeps of the first `n`: each
/// record of a nuclide other than the neutron is put in by name, and
/// replaces an earlier one of the same name. The records' indices, in
/// ascending order of name.
pub open spec fn library_fold(recs: Seq<DecayRecord>, n: int) -> Seq<usize>
    decreases n,
{
    if n <= 0 {
        Seq::empty()
    } else {
        let s = library_fold(recs, n - 1);
        if recs[n - 1].z == 0 {
            s
        } else {
            let x = rec_name(recs[n - 1]);
            let p = name_pos(recs, s, x, 0);
            if p < s.len() && rec_name(recs[s[p] as int]) == x {
                s.update(p, (n - 1) as usize)
            } else {
                s.insert(p, (n - 1) as usize)
            }
        }
    }
}

/// The decay library a chain is built on.
pub open spec fn library_of(recs: Seq<DecayRecord>) -> Seq<usize> {
    library_fold(recs, recs.len() as int)
}

/// The decay summaries of the library, in its order.
pub open spec fn library_view(recs: Seq<DecayRecord>, lib: Seq<usize>) -> Seq<(Seq<char>, bool, u64)> {
    lib.map_values(|k: usize| (rec_name(recs[k as int]), recs[k as int].summary.stable, recs[k as int].summary.half_life_key))
}

/// Whether the indices are records, in strictly ascending order of name.
pub open spec fn ascending_records(recs: Seq<DecayRecord>, s: Seq<usize>) -> bool {
    &&& forall|k: int| 0 <= k < s.len() ==> (#[trigger] s[k]) < recs.len()
    &&& forall|i: int, j: int|
        0 <= i < j < s.len() ==> chars_lt(rec_name(recs[#[trigger] s[i] as int]), rec_name(recs[#[trigger] s[j] as int]))
}

proof fn lemma_name_pos(recs: Seq<DecayRecord>, s: Seq<usize>, x: Seq<char>, i: int)
    requires
        0 <= i <= s.len(),
    ensures
        i <= name_pos(recs, s, x, i) <= s.len(),
        forall|q: int| i <= q < name_pos(recs, s, x, i) ==> chars_lt(rec_name(recs[#[trigger] s[q] as int]), x),
        name_pos(recs, s, x, i) < s.len() ==> !chars_lt(rec_name(recs[s[name_pos(recs, s, x, i)] as int]), x),
    decreases s.len() - i,
{
    if i < s.len() && chars_lt(rec_name(recs[s[i] as int]), x) {
        lemma_name_pos(recs, s, x, i + 1);
    }
}

/// The library stays in strictly ascending order of name.
proof fn lemma_library_ascending(recs: Seq<DecayRecord>, n: int)
    requires
        0 <= n <= recs.len(),
        recs.len() <= usize::MAX,
    ensures
        ascending_records(recs, library_fold(recs, n)),
    decreases n,
{
    if n > 0 {
        lemma_library_ascending(recs, n - 1);
        let s = library_fold(recs, n - 1);
        if recs[n - 1].z != 0 {
            let x = rec_name(recs[n - 1]);
            let p = name_pos(recs, s, x, 0);
            lemma_name_pos(recs, s, x, 0);
            let y = (n - 1) as usize;
            assert(y as int == n - 1);
            let t = library_fold(recs, n);
            if p < s.len() && rec_name(recs[s[p] as int]) == x {
                assert(t == s.update(p, y));
                assert forall|i: int, j: int| 0 <= i < j < t.len() implies chars_lt(
                    rec_name(recs[#[trigger] t[i] as int]),
                    rec_name(recs[#[trigger] t[j] as int]),
                ) by {
                    if i == p {
                        assert(t[i] == y);
                    } else {
                        assert(t[i] == s[i]);
                    }
                    if j == p {
                        assert(t[j] == y);
                    } else {
                        assert(t[j] == s[j]);
                    }
                    assert(rec_name(recs[t[i] as int]) == rec_name(recs[s[i] as int]));
                    assert(rec_name(recs[t[j] as int]) == rec_name(recs[s[j] as int]));
                }
            } else {
                assert(t == s.insert(p, y));
                s.insert_ensures(p, y);
                if p < s.len() {
                    lemma_chars_lt_order(rec_name(recs[s[p] as int]), x);
                }
                assert forall|i: int, j: int| 0 <= i < j < t.len() implies chars_lt(
                    rec_name(recs[#[trigger] t[i] as int]),
                    rec_name(recs[#[trigger] t[j] as int]),
                ) by {
                    if j < p {
                    } else if j == p {
                    } else if i < p {
                        assert(t[j] == s[j - 1]);
                        if j - 1 > p {
                            lemma_chars_lt_trans(rec_name(recs[s[i] as int]), x, rec_name(recs[s[p] as int]));
                            lemma_chars_lt_trans(
                                rec_name(recs[s[i] as int]),
                                rec_name(recs[s[p] as int]),
                                rec_name(recs[s[j - 1] as int]),
                            );
                        } else {
                            lemma_chars_lt_trans(rec_name(recs[s[i] as int]), x, rec_name(recs[s[p] as int]));
                        }
                    } else if i == p {
                        assert(t[j] == s[j - 1]);
                        if j - 1 > p {
                            lemma_chars_lt_trans(x, rec_name(recs[s[p] as int]), rec_name(recs[s[j - 1] as int]));
                        }
                    } else {
                        assert(t[i] == s[i - 1]);
                        assert(t[j] == s[j - 1]);
                    }
                }
            }
        }
    }
}

/// The name of record `k`, as characters.
fn record_chars(recs: &Vec<DecayRecord>, k: usize) -> (r: Vec<char>)
    requires
        k < recs@.len(),
    ensures
        r@ == rec_name(recs@[k as int]),
{
    chars_of(recs[k].summary.name.as_str())
}

/// The indices of the decay library; see [`library_of`].
fn library_indices(recs: &Vec<DecayRecord>) -> (r: Vec<usize>)
    ensures
        r@ == library_of(recs@),
        ascending_records(recs@, r@),
{
    let mut s: Vec<usize> = Vec::new();
    let mut n: usize = 0;
    while n < recs.len()
        invariant
            n <= recs@.len(),
            s@ == library_fold(recs@, n as int),
        decreases recs.len() - n,
    {
        proof {
            lemma_library_ascending(recs@, n as int);
        }
        if recs[n].z != 0 {
            let x = record_chars(recs, n);
            let mut p: usize = 0;
            while p < s.len() && chars_lt_exec(&record_chars(recs, s[p]), &x)
                invariant
                    p <= s@.len(),
                    s@ == library_fold(recs@, n as int),
                    ascending_records(recs@, s@),
                    x@ == rec_name(recs@[n as int]),
                    name_pos(recs@, s@, x@, 0) == name_pos(recs@, s@, x@, p as int),
                decreases s.len() - p,
            {
                p = p + 1;
            }
            let same = p < s.len() && str_eq(recs[s[p]].summary.name.as_str(), recs[n].summary.name.as_str());
            if same {
                s.set(p, n);
            } else {
                s.insert(p, n);
            }
        }
        n = n + 1;
    }
    proof {
        lemma_library_ascending(recs@, recs@.len() as int);
    }
    s
}


/// A copy of a decay summary.
fn copy_summary(d: &DecaySummary) -> (r: DecaySummary)
    ensures
        r.name@ == d.name@,
        r.stable == d.stable,
        r.half_life_key == d.half_life_key,
{
    DecaySummary { name: d.name.clone(), stable: d.stable, half_life_key: d.half_life_key }
}

/// The summaries of the records at `lib`, in that order.
fn summaries_of(recs: &Vec<DecayRecord>, lib: &Vec<usize>) -> (r: Vec<DecaySummary>)
    requires
        forall|k: int| 0 <= k < lib@.len() ==> (#[trigger] lib@[k]) < recs@.len(),
    ensures
        decay_view(r@) == library_view(recs@, lib@),
{
    let mut r: Vec<DecaySummary> = Vec::new();
    let mut i: usize = 0;
    while i < lib.len()
        invariant
            i <= lib@.len(),
            forall|k: int| 0 <= k < lib@.len() ==> (#[trigger] lib@[k]) < recs@.len(),
            decay_view(r@) == library_view(recs@, lib@.take(i as int)),
        decreases lib.len() - i,
    {
        let ghost r0 = r@;
        let c = copy_summary(&recs[lib[i]].summary);
        r.push(c);
        proof {
            let k = lib@[i as int] as int;
            let e = (rec_name(recs@[k]), recs@[k].summary.stable, recs@[k].summary.half_life_key);
            assert(decay_view(r@) =~= decay_view(r0).push(e));
            assert(library_view(recs@, lib@.take(i + 1)) =~= library_view(recs@, lib@.take(i as int)).push(e));
        }
        i = i + 1;
    }
    assert(lib@.take(i as int) =~= lib@);
    r
}

/// The decay library of a chain: one summary for each nuclide other than
/// the neutron, the last record of each name, in ascending order of name as
/// a map keyed by name holds them.
pub fn decay_library(decay: &Vec<DecayRecord>) -> (r: Vec<DecaySummary>)
    ensures
        decay_view(r@) == library_view(decay@, library_of(decay@)),
        names_ascending(decay_view(r@)),
{
    let lib = library_indices(decay);
    let r = summaries_of(decay, &lib);
    assert forall|i: int, j: int| 0 <= i < j < decay_view(r@).len() implies chars_lt(
        #[trigger] decay_view(r@)[i].0,
        #[trigger] decay_view(r@)[j].0,
    ) by {
        assert(chars_lt(rec_name(decay@[lib@[i] as int]), rec_name(decay@[lib@[j] as int])));
    }
    r
}

/// Where a record goes among `s` sorted by the `(Z, A, state)` key of its
/// name: after every record whose key is not greater, from the `i`-th on.
pub open spec fn zam_pos(recs: Seq<DecayRecord>, s: Seq<usize>, x: usize, i: int) -> int
    decreases s.len() - i,
{
    if i < 0 || i >= s.len() {
        s.len() as int
    } else if key_gt(zam_key(rec_name(recs[s[i] as int])), zam_key(rec_name(recs[x as int]))) {
        i
    } else {
        zam_pos(recs, s, x, i + 1)
    }
}

/// The first `n` records of `lib` sorted stably by the `(Z, A, state)` key
/// of their names, a name that is no nuclide's counting as zeros.
pub open spec fn zam_order(recs: Seq<DecayRecord>, lib: Seq<usize>, n: int) -> Seq<usize>
    decreases n,
{
    if n <= 0 {
        Seq::empty()
    } else {
        let s = zam_order(recs, lib, n - 1);
        s.insert(zam_pos(recs, s, lib[n - 1], 0), lib[n - 1])
    }
}

proof fn lemma_zam_pos(recs: Seq<DecayRecord>, s: Seq<usize>, x: usize, i: int)
    requires
        0 <= i <= s.len(),
    ensures
        i <= zam_pos(recs, s, x, i) <= s.len(),
    decreases s.len() - i,
{
    if i < s.len() && !key_gt(zam_key(rec_name(recs[s[i] as int])), zam_key(rec_name(recs[x as int]))) {
        lemma_zam_pos(recs, s, x, i + 1);
    }
}

/// The zam order holds the records of the library, each once.
proof fn lemma_zam_order_members(recs: Seq<DecayRecord>, lib: Seq<usize>, n: int)
    requires
        0 <= n <= lib.len(),
    ensures
        zam_order(recs, lib, n).len() == n,
        forall|m: int| 0 <= m < n ==> exists|i: int| 0 <= i < n && #[trigger] zam_order(recs, lib, n)[m] == lib[i],
        forall|i: int| 0 <= i < n ==> zam_order(recs, lib, n).contains(#[trigger] lib[i]),
    decreases n,
{
    if n > 0 {
        lemma_zam_order_members(recs, lib, n - 1);
        let s = zam_order(recs, lib, n - 1);
        let x = lib[n - 1];
        let p = zam_pos(recs, s, x, 0);
        lemma_zam_pos(recs, s, x, 0);
        let t = s.insert(p, x);
        s.insert_ensures(p, x);
        assert(t == zam_order(recs, lib, n));
        assert forall|m: int| 0 <= m < n implies exists|i: int| 0 <= i < n && #[trigger] t[m] == lib[i] by {
            if m < p {
                let i = choose|i: int| 0 <= i < n - 1 && s[m] == lib[i];
            } else if m > p {
                let i = choose|i: int| 0 <= i < n - 1 && s[m - 1] == lib[i];
            } else {
                assert(t[m] == lib[n - 1]);
            }
        }
        assert forall|i: int| 0 <= i < n implies t.contains(#[trigger] lib[i]) by {
            if i == n - 1 {
                assert(t[p] == x);
            } else {
                assert(s.contains(lib[i]));
                let q = choose|q: int| 0 <= q < s.len() && s[q] == lib[i];
                if q < p {
                    assert(t[q] == lib[i]);
                } else {
                    assert(t[q + 1] == lib[i]);
                }
            }
        }
    }
}

/// The `(Z, A, state)` key of record `k`'s name.
fn record_key(recs: &Vec<DecayRecord>, k: usize) -> (r: (u32, u32, u32))
    requires
        k < recs@.len(),
    ensures
        (r.0 as int, r.1 as int, r.2 as int) == zam_key(rec_name(recs@[k as int])),
{
    zam_key_exec(&recs[k].summary.name)
}

/// The library sorted stably by key; see [`zam_order`].
fn sort_by_zam(recs: &Vec<DecayRecord>, lib: &Vec<usize>) -> (r: Vec<usize>)
    requires
        forall|k: int| 0 <= k < lib@.len() ==> (#[trigger] lib@[k]) < recs@.len(),
    ensures
        r@ == zam_order(recs@, lib@, lib@.len() as int),
{
    let mut s: Vec<usize> = Vec::new();
    let mut n: usize = 0;
    while n < lib.len()
        invariant
            n <= lib@.len(),
            forall|k: int| 0 <= k < lib@.len() ==> (#[trigger] lib@[k]) < recs@.len(),
            s@ == zam_order(recs@, lib@, n as int),
        decreases lib.len() - n,
    {
        proof {
            lemma_zam_order_members(recs@, lib@, n as int);
        }
        let x = lib[n];
        let kx = record_key(recs, x);
        let mut p: usize = 0;
        while p < s.len() && !key_gt_exec(record_key(recs, s[p]), kx)
            invariant
                p <= s@.len(),
                s@ == zam_order(recs@, lib@, n as int),
                forall|m: int| 0 <= m < s@.len() ==> (#[trigger] s@[m]) < recs@.len(),
                zam_pos(recs@, s@, x, 0) == zam_pos(recs@, s@, x, p as int),
                x < recs@.len(),
                (kx.0 as int, kx.1 as int, kx.2 as int) == zam_key(rec_name(recs@[x as int])),
            decreases s.len() - p,
        {
            p = p + 1;
        }
        assert(zam_pos(recs@, s@, x, p as int) == p);
        let ghost s0 = s@;
        s.insert(p, x);
        assert(zam_order(recs@, lib@, n + 1) == s0.insert(zam_pos(recs@, s0, lib@[n as int], 0), lib@[n as int]));
        n = n + 1;
    }
    s
}


/// The first entry of `acc` with MT `mt`, from the `i`-th on.
pub open spec fn mt_index(acc: Seq<(i32, Seq<char>)>, mt: i32, i: int) -> Option<int>
    decreases acc.len() - i,
{
    if i < 0 || i >= acc.len() {
        None
    } else if acc[i].0 == mt {
        Some(i)
    } else {
        mt_index(acc, mt, i + 1)
    }
}

/// `acc` with one more `(MT, QI text)`, as a map keyed by MT takes it: the
/// value of an MT already there is replaced.
pub open spec fn merge_mt(acc: Seq<(i32, Seq<char>)>, e: (i32, Seq<char>)) -> Seq<(i32, Seq<char>)> {
    match mt_index(acc, e.0, 0) {
        Some(p) => acc.update(p, e),
        None => acc.push(e),
    }
}

/// `acc` with each of `entries` merged in, in order.
pub open spec fn merge_mts(acc: Seq<(i32, Seq<char>)>, entries: Seq<(i32, Seq<char>)>) -> Seq<(i32, Seq<char>)>
    decreases entries.len(),
{
    if entries.len() == 0 {
        acc
    } else {
        merge_mt(merge_mts(acc, entries.drop_last()), entries.last())
    }
}

/// The MF=3 sections of the first `n` neutron evaluations named `name`, as
/// `(MT, QI text)`: those of every evaluation of that name, merged in the
/// order given.
pub open spec fn available_for(neutron: Seq<(String, Vec<(i32, String)>)>, name: Seq<char>, n: int) -> Seq<
    (i32, Seq<char>),
>
    decreases n,
{
    if n <= 0 {
        Seq::empty()
    } else {
        let acc = available_for(neutron, name, n - 1);
        if neutron[n - 1].0@ == name {
            merge_mts(acc, available_view(neutron[n - 1].1@))
        } else {
            acc
        }
    }
}

proof fn lemma_mt_index(acc: Seq<(i32, Seq<char>)>, mt: i32, i: int)
    requires
        0 <= i <= acc.len(),
    ensures
        mt_index(acc, mt, i) matches Some(p) ==> i <= p < acc.len() && acc[p].0 == mt,
        mt_index(acc, mt, i) is None ==> forall|q: int| i <= q < acc.len() ==> (#[trigger] acc[q]).0 != mt,
    decreases acc.len() - i,
{
    if i < acc.len() && acc[i].0 != mt {
        lemma_mt_index(acc, mt, i + 1);
    }
}

/// Merging keeps each MT once.
proof fn lemma_merge_distinct(acc: Seq<(i32, Seq<char>)>, entries: Seq<(i32, Seq<char>)>)
    requires
        mts_distinct(acc),
    ensures
        mts_distinct(merge_mts(acc, entries)),
    decreases entries.len(),
{
    if entries.len() > 0 {
        lemma_merge_distinct(acc, entries.drop_last());
        let m = merge_mts(acc, entries.drop_last());
        let e = entries.last();
        lemma_mt_index(m, e.0, 0);
        let t = merge_mt(m, e);
        assert forall|i: int, j: int| 0 <= i < j < t.len() implies #[trigger] t[i].0 != #[trigger] t[j].0 by {
            if mt_index(m, e.0, 0) is None && j == m.len() {
                assert(t[i] == m[i]);
            }
        }
    }
}

/// The available sections of every evaluation of a name hold each MT once.
proof fn lemma_available_distinct(neutron: Seq<(String, Vec<(i32, String)>)>, name: Seq<char>, n: int)
    ensures
        mts_distinct(available_for(neutron, name, n)),
    decreases n,
{
    if n > 0 {
        lemma_available_distinct(neutron, name, n - 1);
        if neutron[n - 1].0@ == name {
            lemma_merge_distinct(available_for(neutron, name, n - 1), available_view(neutron[n - 1].1@));
        }
    }
}

/// Merge one `(MT, QI text)` in.
fn merge_entry(acc: &mut Vec<(i32, String)>, mt: i32, q: &String)
    ensures
        available_view(final(acc)@) == merge_mt(available_view(old(acc)@), (mt, q@)),
{
    let ghost v = available_view(acc@);
    let mut p: usize = 0;
    while p < acc.len() && acc[p].0 != mt
        invariant
            p <= acc@.len(),
            v == available_view(acc@),
            mt_index(v, mt, 0) == mt_index(v, mt, p as int),
        decreases acc.len() - p,
    {
        p = p + 1;
    }
    if p < acc.len() {
        acc.set(p, (mt, q.clone()));
        assert(available_view(acc@) =~= v.update(p as int, (mt, q@)));
    } else {
        acc.push((mt, q.clone()));
        assert(available_view(acc@) =~= v.push((mt, q@)));
    }
}

/// What the neutron evaluations named `name` have; see [`available_for`].
fn available_sections(neutron: &Vec<(String, Vec<(i32, String)>)>, name: &String) -> (r: Vec<(i32, String)>)
    ensures
        available_view(r@) == available_for(neutron@, name@, neutron@.len() as int),
{
    let mut acc: Vec<(i32, String)> = Vec::new();
    assert(available_view(acc@) =~= available_for(neutron@, name@, 0));
    let mut n: usize = 0;
    while n < neutron.len()
        invariant
            n <= neutron@.len(),
            available_view(acc@) == available_for(neutron@, name@, n as int),
        decreases neutron.len() - n,
    {
        if str_eq(neutron[n].0.as_str(), name.as_str()) {
            let entries = &neutron[n].1;
            let ghost start = available_view(acc@);
            let mut j: usize = 0;
            assert(available_view(entries@).take(0) =~= Seq::<(i32, Seq<char>)>::empty());
            while j < entries.len()
                invariant
                    j <= entries@.len(),
                    entries == &neutron@[n as int].1,
                    available_view(acc@) == merge_mts(start, available_view(entries@).take(j as int)),
                decreases entries.len() - j,
            {
                merge_entry(&mut acc, entries[j].0, &entries[j].1);
                proof {
                    let t = available_view(entries@).take(j + 1);
                    assert(t.drop_last() =~= available_view(entries@).take(j as int));
                    assert(t.last() == (entries@[j as int].0, entries@[j as int].1@));
                }
                j = j + 1;
            }
            assert(available_view(entries@).take(j as int) =~= available_view(entries@));
        }
        n = n + 1;
    }
    acc
}


/// The names of the library are in strictly ascending order.
proof fn lemma_library_names_ascending(recs: Seq<DecayRecord>, lib: Seq<usize>)
    requires
        ascending_records(recs, lib),
    ensures
        names_ascending(library_view(recs, lib)),
{
    let v = library_view(recs, lib);
    assert forall|i: int, j: int| 0 <= i < j < v.len() implies chars_lt(#[trigger] v[i].0, #[trigger] v[j].0) by {
        assert(chars_lt(rec_name(recs[lib[i] as int]), rec_name(recs[lib[j] as int])));
    }
}

/// Where a chain path to `product` leads: to `product` where the decay
/// library holds it, else to its stand-in.
pub open spec fn target_of(product: Seq<char>, d: Seq<(Seq<char>, bool, u64)>) -> Option<Seq<char>> {
    if has_name(d, product) {
        Some(product)
    } else {
        replace_missing_spec(product, d)
    }
}

/// Where a chain path to `product` leads; see [`target_of`]. Decay modes
/// and fission products are led there alike.
pub fn chain_target(product: &str, library: &Vec<DecaySummary>) -> (r: Option<String>)
    requires
        names_ascending(decay_view(library@)),
    ensures
        match target_of(product@, decay_view(library@)) {
            Some(t) => r matches Some(s) && s@ == t,
            None => r is None,
        },
{
    let mut i: usize = 0;
    while i < library.len()
        invariant
            i <= library@.len(),
            forall|k: int| 0 <= k < i ==> (#[trigger] decay_view(library@)[k]).0 != product@,
        decreases library.len() - i,
    {
        if str_eq(library[i].name.as_str(), product) {
            assert(decay_view(library@)[i as int].0 == product@);
            return Some(product.to_owned());
        }
        i = i + 1;
    }
    replace_missing(product, library)
}

/// A decay mode of a chain nuclide as `(kind, target)`.
pub type ModeView = (Seq<char>, Option<Seq<char>>);

/// The decay modes of a chain nuclide: none where it does not decay, else
/// each mode of its record, led to its daughter or the daughter's
/// stand-in.
pub open spec fn modes_spec(r: DecayRecord, d: Seq<(Seq<char>, bool, u64)>) -> Seq<ModeView> {
    if r.radioactive {
        Seq::new(
            r.modes@.len(),
            |j: int|
                (
                    r.modes@[j].0@,
                    match r.modes@[j].1 {
                        Some(x) => target_of(x@, d),
                        None => None,
                    },
                ),
        )
    } else {
        Seq::empty()
    }
}

/// Each decay mode as `(kind, target)`.
pub open spec fn modes_view(v: Seq<(String, Option<String>)>) -> Seq<ModeView> {
    v.map_values(|m: (String, Option<String>)| (m.0@, opt_chars(m.1)))
}

/// Whose fission yields a chain nuclide takes.
#[derive(Debug, Clone, PartialEq, Eq)]
pub enum YieldSource {
    /// It does not fission.
    NotFissionable,
    /// Its own: the yield evaluation of that index.
    Own(usize),
    /// Those of the nuclide named `from`, which stands at index `source` of
    /// the chain, if the chain holds it.
    Borrowed { from: String, source: Option<usize> },
}

/// A [`YieldSource`] as plain values.
pub ghost enum YieldView {
    NotFissionable,
    Own(int),
    Borrowed(Seq<char>, Option<int>),
}

pub open spec fn yield_view(y: YieldSource) -> YieldView {
    match y {
        YieldSource::NotFissionable => YieldView::NotFissionable,
        YieldSource::Own(j) => YieldView::Own(j as int),
        YieldSource::Borrowed { from, source } => YieldView::Borrowed(
            from@,
            match source {
                Some(p) => Some(p as int),
                None => None,
            },
        ),
    }
}

/// The last of the first `n` names that equals `x`.
pub open spec fn last_named(names: Seq<Seq<char>>, x: Seq<char>, n: int) -> Option<int>
    decreases n,
{
    if n <= 0 {
        None
    } else if names[n - 1] == x {
        Some(n - 1)
    } else {
        last_named(names, x, n - 1)
    }
}

/// The first place of the chain order, from the `i`-th on, whose record is
/// named `x`.
pub open spec fn position_of(recs: Seq<DecayRecord>, order: Seq<usize>, x: Seq<char>, i: int) -> Option<int>
    decreases order.len() - i,
{
    if i < 0 || i >= order.len() {
        None
    } else if rec_name(recs[order[i] as int]) == x {
        Some(i)
    } else {
        position_of(recs, order, x, i + 1)
    }
}

/// Whose yields the nuclide named `name` takes: none unless it fissions;
/// its own where a yield evaluation has its name (the last such, as a map
/// keyed by name keeps it); else its stand-in's, which stands at the first
/// place of the chain with that name.
pub open spec fn yield_spec(
    recs: Seq<DecayRecord>,
    order: Seq<usize>,
    fpy: Seq<Seq<char>>,
    d: Seq<(Seq<char>, bool, u64)>,
    name: Seq<char>,
    fissionable: bool,
) -> YieldView {
    if !fissionable {
        YieldView::NotFissionable
    } else {
        match last_named(fpy, name, fpy.len() as int) {
            Some(j) => YieldView::Own(j),
            None => {
                let from = replace_missing_fpy_spec(name, fpy, d);
                YieldView::Borrowed(from, position_of(recs, order, from, 0))
            },
        }
    }
}

/// One nuclide of a chain: its name, the decay record it comes from, its
/// decay modes, its reaction paths and whose fission yields it takes.
#[derive(Debug, Clone, PartialEq, Eq)]
pub struct ChainNuclide {
    pub name: String,
    pub record: usize,
    pub decay_modes: Vec<(String, Option<String>)>,
    pub reactions: Vec<TransmutationPath>,
    pub yields: YieldSource,
}

/// A chain nuclide as plain values.
pub type NuclideView = (Seq<char>, int, Seq<ModeView>, Seq<PathView>, YieldView);

pub open spec fn nuclide_view(n: ChainNuclide) -> NuclideView {
    (
        n.name@,
        n.record as int,
        modes_view(n.decay_modes@),
        n.reactions@.map_values(|p: TransmutationPath| path_view(p)),
        yield_view(n.yields),
    )
}

pub open spec fn chain_view(v: Seq<ChainNuclide>) -> Seq<NuclideView> {
    v.map_values(|n: ChainNuclide| nuclide_view(n))
}

/// The chain nuclide of record `k`, with the chain in order `order`.
pub open spec fn nuclide_spec(
    recs: Seq<DecayRecord>,
    order: Seq<usize>,
    neutron: Seq<(String, Vec<(i32, String)>)>,
    reactions: Seq<Seq<char>>,
    fpy: Seq<Seq<char>>,
    k: int,
) -> NuclideView {
    let d = library_view(recs, library_of(recs));
    let r = recs[k];
    let available = available_for(neutron, rec_name(r), neutron.len() as int);
    (
        rec_name(r),
        k,
        modes_spec(r, d),
        paths_spec(r.z as int, r.a as int, available, reactions, d),
        yield_spec(recs, order, fpy, d, rec_name(r), first_q(available, fission_mts()) is Some),
    )
}

/// A chain: one nuclide for each nuclide of the decay library, ordered by
/// `(Z, A, state)` and, among equal keys, by name.
pub open spec fn chain_spec(
    recs: Seq<DecayRecord>,
    neutron: Seq<(String, Vec<(i32, String)>)>,
    reactions: Seq<Seq<char>>,
    fpy: Seq<Seq<char>>,
) -> Seq<NuclideView> {
    let lib = library_of(recs);
    let order = zam_order(recs, lib, lib.len() as int);
    Seq::new(order.len(), |p: int| nuclide_spec(recs, order, neutron, reactions, fpy, order[p] as int))
}


/// The decay modes of record `k`; see [`modes_spec`].
fn build_modes(recs: &Vec<DecayRecord>, k: usize, library: &Vec<DecaySummary>) -> (r: Vec<(String, Option<String>)>)
    requires
        k < recs@.len(),
        names_ascending(decay_view(library@)),
    ensures
        modes_view(r@) == modes_spec(recs@[k as int], decay_view(library@)),
{
    let rec = &recs[k];
    let mut r: Vec<(String, Option<String>)> = Vec::new();
    if !rec.radioactive {
        assert(modes_view(r@) =~= Seq::<ModeView>::empty());
        return r;
    }
    let ghost want = modes_spec(*rec, decay_view(library@));
    let mut j: usize = 0;
    while j < rec.modes.len()
        invariant
            j <= rec.modes@.len(),
            rec == &recs@[k as int],
            rec.radioactive,
            names_ascending(decay_view(library@)),
            want == modes_spec(*rec, decay_view(library@)),
            modes_view(r@) == want.take(j as int),
        decreases rec.modes.len() - j,
    {
        let target = match &rec.modes[j].1 {
            Some(x) => chain_target(x.as_str(), library),
            None => None,
        };
        let ghost r0 = r@;
        let kind = rec.modes[j].0.clone();
        r.push((kind, target));
        proof {
            assert(opt_chars(target) == want[j as int].1);
            assert(modes_view(r@) =~= modes_view(r0).push(want[j as int]));
            assert(want.take(j + 1) =~= want.take(j as int).push(want[j as int]));
        }
        j = j + 1;
    }
    assert(want.take(j as int) =~= want);
    r
}

/// The last yield evaluation named `name`.
fn last_fpy(fpy: &Vec<String>, name: &String) -> (r: Option<usize>)
    ensures
        match last_named(names_view(fpy@), name@, fpy@.len() as int) {
            Some(j) => r matches Some(i) && i as int == j,
            None => r is None,
        },
{
    let mut n: usize = fpy.len();
    while n > 0
        invariant
            n <= fpy@.len(),
            last_named(names_view(fpy@), name@, fpy@.len() as int) == last_named(names_view(fpy@), name@, n as int),
        decreases n,
    {
        if str_eq(fpy[n - 1].as_str(), name.as_str()) {
            return Some(n - 1);
        }
        n = n - 1;
    }
    None
}

/// The first place of the chain order whose record is named `x`.
fn find_in_order(recs: &Vec<DecayRecord>, order: &Vec<usize>, x: &String) -> (r: Option<usize>)
    requires
        forall|m: int| 0 <= m < order@.len() ==> (#[trigger] order@[m]) < recs@.len(),
    ensures
        match position_of(recs@, order@, x@, 0) {
            Some(p) => r matches Some(i) && i as int == p,
            None => r is None,
        },
{
    let mut p: usize = 0;
    while p < order.len()
        invariant
            p <= order@.len(),
            forall|m: int| 0 <= m < order@.len() ==> (#[trigger] order@[m]) < recs@.len(),
            position_of(recs@, order@, x@, 0) == position_of(recs@, order@, x@, p as int),
        decreases order.len() - p,
    {
        if str_eq(recs[order[p]].summary.name.as_str(), x.as_str()) {
            return Some(p);
        }
        p = p + 1;
    }
    None
}

/// Whose yields the nuclide named `name` takes; see [`yield_spec`].
fn yield_source(
    recs: &Vec<DecayRecord>,
    order: &Vec<usize>,
    fpy: &Vec<String>,
    library: &Vec<DecaySummary>,
    name: &String,
    fissionable: bool,
) -> (r: YieldSource)
    requires
        forall|m: int| 0 <= m < order@.len() ==> (#[trigger] order@[m]) < recs@.len(),
    ensures
        yield_view(r) == yield_spec(recs@, order@, names_view(fpy@), decay_view(library@), name@, fissionable),
{
    if !fissionable {
        return YieldSource::NotFissionable;
    }
    match last_fpy(fpy, name) {
        Some(j) => YieldSource::Own(j),
        None => {
            let from = replace_missing_fpy(name.as_str(), fpy, library);
            let source = find_in_order(recs, order, &from);
            YieldSource::Borrowed { from, source }
        },
    }
}


/// The chain nuclide of record `k`; see [`nuclide_spec`].
fn build_nuclide(
    decay: &Vec<DecayRecord>,
    order: &Vec<usize>,
    library: &Vec<DecaySummary>,
    neutron: &Vec<(String, Vec<(i32, String)>)>,
    reactions: &Vec<String>,
    fpy: &Vec<String>,
    k: usize,
) -> (r: ChainNuclide)
    requires
        k < decay@.len(),
        forall|m: int| 0 <= m < order@.len() ==> (#[trigger] order@[m]) < decay@.len(),
        decay_view(library@) == library_view(decay@, library_of(decay@)),
        names_ascending(decay_view(library@)),
    ensures
        nuclide_view(r) == nuclide_spec(decay@, order@, neutron@, names_view(reactions@), names_view(fpy@), k as int),
{
    let rec = &decay[k];
    let name = rec.summary.name.clone();
    let decay_modes = build_modes(decay, k, library);
    let available = available_sections(neutron, &name);
    proof {
        lemma_available_distinct(neutron@, name@, neutron@.len() as int);
    }
    let (paths, fissionable) = reaction_paths(rec.z, rec.a, &available, reactions, library);
    let yields = yield_source(decay, order, fpy, library, &name, fissionable);
    ChainNuclide { name, record: k, decay_modes, reactions: paths, yields }
}

/// Assemble a depletion chain from the records of the decay evaluations,
/// the MF=3 sections of the neutron evaluations (each as its nuclide's name
/// and `(MT, QI text)`), the transmutation reactions to follow, and the
/// names of the nuclides with fission product yields.
///
/// The chain holds one nuclide for each name of the decay library (see
/// [`decay_library`]), ordered by `(Z, A, state)`. A nuclide that decays
/// has its modes, each led to its daughter or the daughter's stand-in; one
/// with a neutron evaluation has its reaction paths, fission last; and one
/// that fissions takes its own yields, or else a stand-in's.
pub fn chain_nuclides(
    decay: &Vec<DecayRecord>,
    neutron: &Vec<(String, Vec<(i32, String)>)>,
    reactions: &Vec<String>,
    fpy: &Vec<String>,
) -> (r: Vec<ChainNuclide>)
    ensures
        chain_view(r@) == chain_spec(decay@, neutron@, names_view(reactions@), names_view(fpy@)),
{
    let lib = library_indices(decay);
    let library = summaries_of(decay, &lib);
    proof {
        lemma_library_names_ascending(decay@, lib@);
    }
    let order = sort_by_zam(decay, &lib);
    proof {
        lemma_zam_order_members(decay@, lib@, lib@.len() as int);
        assert forall|m: int| 0 <= m < order@.len() implies (#[trigger] order@[m]) < decay@.len() by {
            let i = choose|i: int| 0 <= i < lib@.len() && order@[m] == lib@[i];
        }
    }
    let ghost want = chain_spec(decay@, neutron@, names_view(reactions@), names_view(fpy@));
    let mut r: Vec<ChainNuclide> = Vec::new();
    let mut p: usize = 0;
    while p < order.len()
        invariant
            p <= order@.len(),
            order@ == zam_order(decay@, lib@, lib@.len() as int),
            lib@ == library_of(decay@),
            forall|m: int| 0 <= m < order@.len() ==> (#[trigger] order@[m]) < decay@.len(),
            decay_view(library@) == library_view(decay@, library_of(decay@)),
            names_ascending(decay_view(library@)),
            want == chain_spec(decay@, neutron@, names_view(reactions@), names_view(fpy@)),
            want.len() == order@.len(),
            chain_view(r@) == want.take(p as int),
        decreases order.len() - p,
    {
        let n = build_nuclide(decay, &order, &library, neutron, reactions, fpy, order[p]);
        let ghost r0 = r@;
        r.push(n);
        proof {
            assert(chain_view(r@) =~= chain_view(r0).push(want[p as int]));
            assert(want.take(p + 1) =~= want.take(p as int).push(want[p as int]));
        }
        p = p + 1;
    }
    assert(want.take(p as int) =~= want);
    r
}


/// The zam order is sorted by key, and names each nuclide once.
proof fn lemma_zam_order_sorted(recs: Seq<DecayRecord>, lib: Seq<usize>, n: int)
    requires
        0 <= n <= lib.len(),
        ascending_records(recs, lib),
    ensures
        forall|a: int, b: int|
            0 <= a < b < n ==> !key_gt(
                zam_key(rec_name(recs[#[trigger] zam_order(recs, lib, n)[a] as int])),
                zam_key(rec_name(recs[#[trigger] zam_order(recs, lib, n)[b] as int])),
            ) && rec_name(recs[zam_order(recs, lib, n)[a] as int]) != rec_name(recs[zam_order(recs, lib, n)[b] as int]),
    decreases n,
{
    lemma_zam_order_members(recs, lib, n);
    if n > 0 {
        lemma_zam_order_sorted(recs, lib, n - 1);
        lemma_zam_order_members(recs, lib, n - 1);
        let s = zam_order(recs, lib, n - 1);
        let x = lib[n - 1];
        let p = zam_pos(recs, s, x, 0);
        lemma_zam_pos(recs, s, x, 0);
        lemma_zam_pos_order(recs, s, x, 0);
        let t = s.insert(p, x);
        s.insert_ensures(p, x);
        assert(t == zam_order(recs, lib, n));
        let kx = zam_key(rec_name(recs[x as int]));
        // The new name is none of the earlier ones.
        assert forall|m: int| 0 <= m < s.len() implies rec_name(recs[#[trigger] s[m] as int]) != rec_name(recs[x as int]) by {
            let i = choose|i: int| 0 <= i < n - 1 && s[m] == lib[i];
            assert(chars_lt(rec_name(recs[lib[i] as int]), rec_name(recs[lib[n - 1] as int])));
            lemma_chars_lt_order(rec_name(recs[lib[i] as int]), rec_name(recs[lib[n - 1] as int]));
        }
        assert forall|a: int, b: int| 0 <= a < b < n implies !key_gt(
            zam_key(rec_name(recs[#[trigger] t[a] as int])),
            zam_key(rec_name(recs[#[trigger] t[b] as int])),
        ) && rec_name(recs[t[a] as int]) != rec_name(recs[t[b] as int]) by {
            if b < p {
                assert(t[a] == s[a] && t[b] == s[b]);
            } else if b == p {
                assert(t[a] == s[a]);
            } else if a < p {
                assert(t[a] == s[a] && t[b] == s[b - 1]);
            } else if a == p {
                assert(t[b] == s[b - 1]);
                if b - 1 > p {
                    assert(!key_gt(
                        zam_key(rec_name(recs[s[p] as int])),
                        zam_key(rec_name(recs[s[b - 1] as int])),
                    ));
                }
            } else {
                assert(t[a] == s[a - 1] && t[b] == s[b - 1]);
            }
        }
    }
}

proof fn lemma_zam_pos_order(recs: Seq<DecayRecord>, s: Seq<usize>, x: usize, i: int)
    requires
        0 <= i <= s.len(),
    ensures
        forall|j: int|
            i <= j < zam_pos(recs, s, x, i) ==> !key_gt(
                zam_key(rec_name(recs[#[trigger] s[j] as int])),
                zam_key(rec_name(recs[x as int])),
            ),
        zam_pos(recs, s, x, i) < s.len() ==> key_gt(
            zam_key(rec_name(recs[s[zam_pos(recs, s, x, i)] as int])),
            zam_key(rec_name(recs[x as int])),
        ),
    decreases s.len() - i,
{
    if i < s.len() && !key_gt(zam_key(rec_name(recs[s[i] as int])), zam_key(rec_name(recs[x as int]))) {
        lemma_zam_pos_order(recs, s, x, i + 1);
    }
}

/// A chain is ordered by `(Z, A, state)`, a name that is no nuclide's
/// counting as zeros, and holds each nuclide once.
#[verifier::rlimit(50)]
pub proof fn lemma_chain_order(
    recs: Seq<DecayRecord>,
    neutron: Seq<(String, Vec<(i32, String)>)>,
    reactions: Seq<Seq<char>>,
    fpy: Seq<Seq<char>>,
)
    requires
        recs.len() <= usize::MAX,
    ensures
        ({
            let c = chain_spec(recs, neutron, reactions, fpy);
            forall|a: int, b: int|
                0 <= a < b < c.len() ==> !key_gt(zam_key((#[trigger] c[a]).0), zam_key((#[trigger] c[b]).0))
                    && c[a].0 != c[b].0
        }),
{
    let lib = library_of(recs);
    let order = zam_order(recs, lib, lib.len() as int);
    let c = chain_spec(recs, neutron, reactions, fpy);
    lemma_library_ascending(recs, recs.len() as int);
    lemma_zam_order_sorted(recs, lib, lib.len() as int);
    lemma_zam_order_members(recs, lib, lib.len() as int);
    assert forall|p: int| 0 <= p < c.len() implies (#[trigger] c[p]).0 == rec_name(recs[order[p] as int]) by {}
    assert forall|a: int, b: int| 0 <= a < b < c.len() implies !key_gt(
        zam_key((#[trigger] c[a]).0),
        zam_key((#[trigger] c[b]).0),
    ) && c[a].0 != c[b].0 by {
        assert(c[a].0 == rec_name(recs[order[a] as int]));
        assert(c[b].0 == rec_name(recs[order[b] as int]));
    }
}

/// A chain is closed: every decay mode and reaction path that leads to a
/// nuclide leads to one of the chain.
pub proof fn lemma_chain_is_closed(
    recs: Seq<DecayRecord>,
    neutron: Seq<(String, Vec<(i32, String)>)>,
    reactions: Seq<Seq<char>>,
    fpy: Seq<Seq<char>>,
)
    requires
        recs.len() <= usize::MAX,
    ensures
        ({
            let c = chain_spec(recs, neutron, reactions, fpy);
            &&& forall|p: int, j: int|
                0 <= p < c.len() && 0 <= j < c[p].2.len() && (#[trigger] c[p].2[j]).1 is Some ==> exists|q: int|
                    0 <= q < c.len() && c[q].0 == c[p].2[j].1->0
            &&& forall|p: int, j: int|
                0 <= p < c.len() && 0 <= j < c[p].3.len() && (#[trigger] c[p].3[j]).1 is Some ==> exists|q: int|
                    0 <= q < c.len() && c[q].0 == c[p].3[j].1->0
        }),
{
    let lib = library_of(recs);
    let d = library_view(recs, lib);
    let order = zam_order(recs, lib, lib.len() as int);
    let c = chain_spec(recs, neutron, reactions, fpy);
    lemma_library_ascending(recs, recs.len() as int);
    lemma_zam_order_members(recs, lib, lib.len() as int);
    // A name the library holds is that of a nuclide of the chain.
    assert forall|t: Seq<char>| has_name(d, t) implies exists|q: int| 0 <= q < c.len() && c[q].0 == t by {
        let i = choose|i: int| 0 <= i < d.len() && (#[trigger] d[i]).0 == t;
        assert(order.contains(lib[i]));
        let q = choose|q: int| 0 <= q < order.len() && order[q] == lib[i];
        assert(c[q].0 == rec_name(recs[order[q] as int]));
    }
    assert forall|p: int, j: int|
        0 <= p < c.len() && 0 <= j < c[p].2.len() && (#[trigger] c[p].2[j]).1 is Some implies exists|q: int|
            0 <= q < c.len() && c[q].0 == c[p].2[j].1->0 by {
        let r = recs[order[p] as int];
        let x = r.modes@[j].1->0@;
        if !has_name(d, x) {
            crate::chain::lemma_stand_in_is_known(x, d);
        }
        assert(has_name(d, c[p].2[j].1->0));
    }
    assert forall|p: int, j: int|
        0 <= p < c.len() && 0 <= j < c[p].3.len() && (#[trigger] c[p].3[j]).1 is Some implies exists|q: int|
            0 <= q < c.len() && c[q].0 == c[p].3[j].1->0 by {
        let r = recs[order[p] as int];
        let available = available_for(neutron, rec_name(r), neutron.len() as int);
        crate::chain::lemma_reaction_targets_are_chain_nuclides(r.z as int, r.a as int, available, reactions, d);
        assert(has_name(d, c[p].3[j].1->0));
    }
}

} // verus!
