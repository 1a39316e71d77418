//! Radionuclide production: which nuclides a reaction leaves behind, in
//! which state, and where the data for each lies.
//!
//! MF=9 gives each product's yield and MF=10 its production cross section,
//! state by state. The two are joined here by reaction, one entry for each
//! (ZAP, LFS) pair in the order the evaluation first writes it. MF=8 links
//! each pair to an excitation energy, and says which of the two files gives
//! a reaction's radioactive products, which are named here.

use vstd::prelude::*;

use crate::data::{atomic_symbol, symbol};
use crate::material::{has_key, lemma_section_keys_unique, Key, Material};
use crate::mf::list::{at_least_zero, tab1_at};
use crate::mf::mf8::{
    mf8_fits, mf8_matches, mf9_mf10_fits, mf9_mf10_matches, production_at, production_matches, IsomerLevel, Mf8,
    Mf9Mf10, ProductionSubsection,
};
use crate::records::{field_of, int_field, lines_of, tab1_matches};
use crate::text::{push_signed, push_str, signed_decimal, string_push};

verus! {

/// The production data of one final state of one reaction.
#[derive(Debug, Clone, PartialEq, Eq)]
pub struct ProductionLevel {
    /// `1000*Z + A` of the product nuclide.
    pub zap: i64,
    /// Level number of the final state; 0 is the ground state.
    pub lfs: i64,
    /// Mass-difference Q value, as the field's text.
    pub qm: String,
    /// Reaction Q value for this state, as the field's text.
    pub qi: String,
    /// Which state of MF=9 gives the yield, by index, if one does.
    pub yields: Option<usize>,
    /// Which state of MF=10 gives the production cross section, by index,
    /// if one does.
    pub cross_section: Option<usize>,
}

/// One state as a section lists it: the file (9 or 10), its index there,
/// ZAP, LFS, and the text of QM and QI.
pub type LevelItem = (int, int, int, int, Seq<char>, Seq<char>);

/// A production entry: ZAP, LFS, QM, QI and the indices of its MF=9 and
/// MF=10 states.
pub type LevelView = (int, int, Seq<char>, Seq<char>, Option<int>, Option<int>);

/// An optional index as an integer.
pub open spec fn index_view(i: Option<usize>) -> Option<int> {
    match i {
        Some(k) => Some(k as int),
        None => None,
    }
}

/// A production entry as plain values.
pub open spec fn level_view(p: ProductionLevel) -> LevelView {
    (p.zap as int, p.lfs as int, p.qm@, p.qi@, index_view(p.yields), index_view(p.cross_section))
}

/// Each production entry as plain values.
pub open spec fn levels_view(v: Seq<ProductionLevel>) -> Seq<LevelView> {
    v.map_values(|p: ProductionLevel| level_view(p))
}

/// The position of the section with key `k`.
pub open spec fn section_index(secs: Seq<(Key, Seq<char>)>, k: Key) -> int {
    choose|i: int| 0 <= i < secs.len() && (#[trigger] secs[i]).0 == k
}

/// The states that the MF=`mf` section of reaction `mt` lists, in order;
/// none where there is no such section or it cannot be read.
pub open spec fn level_items(secs: Seq<(Key, Seq<char>)>, mf: i32, mt: i32) -> Seq<LevelItem> {
    let lines = lines_of(secs[section_index(secs, (mf, mt))].1);
    if has_key(secs, (mf, mt)) && mf9_mf10_fits(lines, 0) {
        Seq::new(
            at_least_zero(int_field(lines[0], 44, 55)) as nat,
            |k: int|
                {
                    let h = lines[tab1_at(lines, 1, k)];
                    (mf as int, k, int_field(h, 22, 33), int_field(h, 33, 44), field_of(h, 0, 11), field_of(h, 11, 22))
                },
        )
    } else {
        Seq::empty()
    }
}

/// The last entry of `acc` for the pair (`zap`, `lfs`), or -1.
pub open spec fn key_index(acc: Seq<LevelView>, zap: int, lfs: int) -> int
    decreases acc.len(),
{
    if acc.len() == 0 {
        -1
    } else if acc.last().0 == zap && acc.last().1 == lfs {
        acc.len() - 1
    } else {
        key_index(acc.drop_last(), zap, lfs)
    }
}

/// `acc` with one more state: a new entry where its pair is new, and the
/// index of the state recorded on the entry of its pair.
pub open spec fn with_level(acc: Seq<LevelView>, it: LevelItem) -> Seq<LevelView> {
    let j = key_index(acc, it.2, it.3);
    let base = if j < 0 {
        acc.push((it.2, it.3, it.4, it.5, None, None))
    } else {
        acc
    };
    let at = if j < 0 {
        acc.len() as int
    } else {
        j
    };
    let e = base[at];
    base.update(
        at,
        if it.0 == 9 {
            (e.0, e.1, e.2, e.3, Some(it.1), e.5)
        } else {
            (e.0, e.1, e.2, e.3, e.4, Some(it.1))
        },
    )
}

/// The entries the states give, taken in order.
pub open spec fn group_levels(items: Seq<LevelItem>) -> Seq<LevelView>
    decreases items.len(),
{
    if items.len() == 0 {
        Seq::empty()
    } else {
        with_level(group_levels(items.drop_last()), items.last())
    }
}

/// The production entries of reaction `mt`: the states of MF=9, then those
/// of MF=10.
pub open spec fn production_levels(secs: Seq<(Key, Seq<char>)>, mt: i32) -> Seq<LevelView> {
    group_levels(level_items(secs, 9, mt) + level_items(secs, 10, mt))
}

/// Whether reaction `mt` has an MF=9 or MF=10 section.
pub open spec fn produces(secs: Seq<(Key, Seq<char>)>, mt: i32) -> bool {
    has_key(secs, (9i32, mt)) || has_key(secs, (10i32, mt))
}

/// Whether `v` rises strictly.
pub open spec fn rising(v: Seq<i32>) -> bool {
    forall|i: int, j: int| 0 <= i < j < v.len() ==> v[i] < v[j]
}


/// Put `x` into the rising `v`, where it is not there yet.
pub(crate) fn insert_rising(v: &mut Vec<i32>, x: i32)
    requires
        rising(old(v)@),
    ensures
        rising(final(v)@),
        forall|y: i32| final(v)@.contains(y) <==> (old(v)@.contains(y) || y == x),
{
    let mut p: usize = 0;
    while p < v.len() && v[p] < x
        invariant
            p <= v@.len(),
            forall|k: int| 0 <= k < p ==> v@[k] < x,
        decreases v.len() - p,
    {
        p = p + 1;
    }
    if p < v.len() && v[p] == x {
        return;
    }
    let ghost before = v@;
    v.insert(p, x);
    proof {
        before.insert_ensures(p as int, x);
        let after = v@;
        assert forall|i: int, j: int| 0 <= i < j < after.len() implies after[i] < after[j] by {
            if j < p {
            } else if j == p {
            } else if i < p {
                assert(after[j] == before[j - 1]);
            } else if i == p {
                assert(after[j] == before[j - 1]);
                assert(p < before.len() ==> before[p as int] > x);
                if j - 1 > p {
                    assert(before[p as int] < before[j - 1]);
                }
            } else {
                assert(after[i] == before[i - 1]);
                assert(after[j] == before[j - 1]);
            }
        }
        assert forall|y: i32| after.contains(y) <==> (before.contains(y) || y == x) by {
            if after.contains(y) {
                let i = choose|i: int| 0 <= i < after.len() && after[i] == y;
                if i < p {
                    assert(before[i] == y);
                } else if i > p {
                    assert(before[i - 1] == y);
                }
            }
            if before.contains(y) {
                let i = choose|i: int| 0 <= i < before.len() && before[i] == y;
                if i < p {
                    assert(after[i] == y);
                } else {
                    assert(after[i + 1] == y);
                }
            }
            if y == x {
                assert(after[p as int] == y);
            }
        }
    }
}

/// The reactions with an MF=9 or MF=10 section, in ascending order.
fn production_mts(material: &Material) -> (r: Vec<i32>)
    ensures
        rising(r@),
        forall|mt: i32| r@.contains(mt) <==> produces(material.text_view(), mt),
{
    let keys = material.sections();
    let ghost secs = material.text_view();
    let mut r: Vec<i32> = Vec::new();
    let mut i: usize = 0;
    while i < keys.len()
        invariant
            keys@ == secs.map_values(|p: (Key, Seq<char>)| p.0),
            i <= keys@.len(),
            rising(r@),
            forall|mt: i32| r@.contains(mt) <==> exists|k: int| 0 <= k < i && (#[trigger] secs[k]).0.1 == mt
                && (secs[k].0.0 == 9 || secs[k].0.0 == 10),
        decreases keys.len() - i,
    {
        let k = keys[i];
        assert(k == secs[i as int].0);
        if k.0 == 9 || k.0 == 10 {
            insert_rising(&mut r, k.1);
        }
        i = i + 1;
        assert forall|mt: i32| r@.contains(mt) <==> exists|k: int| 0 <= k < i && (#[trigger] secs[k]).0.1 == mt
            && (secs[k].0.0 == 9 || secs[k].0.0 == 10) by {
            if r@.contains(mt) && mt == k.1 && (k.0 == 9 || k.0 == 10) {
                assert(secs[i - 1].0.1 == mt);
            }
        }
    }
    assert forall|mt: i32| r@.contains(mt) <==> produces(secs, mt) by {
        if r@.contains(mt) {
            let k = choose|k: int| 0 <= k < secs.len() && (#[trigger] secs[k]).0.1 == mt
                && (secs[k].0.0 == 9 || secs[k].0.0 == 10);
            assert(secs[k].0 == (secs[k].0.0, mt));
        }
        if has_key(secs, (9i32, mt)) {
            let k = choose|k: int| 0 <= k < secs.len() && (#[trigger] secs[k]).0 == (9i32, mt);
            assert(secs[k].0.1 == mt);
        }
        if has_key(secs, (10i32, mt)) {
            let k = choose|k: int| 0 <= k < secs.len() && (#[trigger] secs[k]).0 == (10i32, mt);
            assert(secs[k].0.1 == mt);
        }
    }
    r
}


/// A state of an MF=`file` section, as [`level_items`] lists it.
pub open spec fn item_of(file: int, k: int, l: IsomerLevel) -> LevelItem {
    (file, k, l.izap as int, l.lfs as int, l.qm@, l.qi@)
}

/// Take one state, the `k`-th of MF=`file`, into the entries.
fn add_level(acc: &mut Vec<ProductionLevel>, file: i64, k: usize, l: &IsomerLevel)
    ensures
        levels_view(final(acc)@) == with_level(levels_view(old(acc)@), item_of(file as int, k as int, *l)),
{
    let ghost v = levels_view(acc@);
    let mut j: usize = acc.len();
    assert(v.take(j as int) =~= v);
    while j > 0 && !(acc[j - 1].zap == l.izap && acc[j - 1].lfs == l.lfs)
        invariant
            j <= acc@.len(),
            acc@ == old(acc)@,
            v == levels_view(acc@),
            key_index(v, l.izap as int, l.lfs as int) == key_index(v.take(j as int), l.izap as int, l.lfs as int),
        decreases j,
    {
        assert(v.take(j as int).drop_last() =~= v.take(j - 1));
        assert(v.take(j as int).last() == v[j - 1]);
        j = j - 1;
    }
    proof {
        if j > 0 {
            assert(v.take(j as int).last() == v[j - 1]);
        } else {
            assert(v.take(0) =~= Seq::<LevelView>::empty());
        }
    }
    let at: usize = if j == 0 {
        acc.push(
            ProductionLevel {
                zap: l.izap,
                lfs: l.lfs,
                qm: l.qm.clone(),
                qi: l.qi.clone(),
                yields: None,
                cross_section: None,
            },
        );
        proof {
            assert(levels_view(acc@) =~= v.push((l.izap as int, l.lfs as int, l.qm@, l.qi@, None, None)));
        }
        acc.len() - 1
    } else {
        j - 1
    };
    let ghost base = levels_view(acc@);
    let mut e = acc.remove(at);
    if file == 9 {
        e.yields = Some(k);
    } else {
        e.cross_section = Some(k);
    }
    let ghost ev = level_view(e);
    acc.insert(at, e);
    proof {
        let it = item_of(file as int, k as int, *l);
        let b = base[at as int];
        assert(ev == if it.0 == 9 {
            (b.0, b.1, b.2, b.3, Some(it.1), b.5)
        } else {
            (b.0, b.1, b.2, b.3, b.4, Some(it.1))
        });
        assert(levels_view(acc@) =~= base.update(at as int, ev));
    }
}


/// The states of a section, as [`level_items`] lists them.
pub open spec fn items_of(file: int, d: Mf9Mf10) -> Seq<LevelItem> {
    Seq::new(d.levels@.len(), |k: int| item_of(file, k, d.levels@[k]))
}

/// Take every state of a section into the entries, in order.
fn add_levels(acc: &mut Vec<ProductionLevel>, file: i64, d: &Mf9Mf10, Ghost(prefix): Ghost<Seq<LevelItem>>)
    requires
        levels_view(old(acc)@) == group_levels(prefix),
    ensures
        levels_view(final(acc)@) == group_levels(prefix + items_of(file as int, *d)),
{
    let ghost items = items_of(file as int, *d);
    let mut k: usize = 0;
    assert(prefix + items.take(0) =~= prefix);
    while k < d.levels.len()
        invariant
            k <= d.levels@.len(),
            items == items_of(file as int, *d),
            levels_view(acc@) == group_levels(prefix + items.take(k as int)),
        decreases d.levels.len() - k,
    {
        add_level(acc, file, k, &d.levels[k]);
        proof {
            let s = prefix + items.take(k + 1);
            assert(s.drop_last() =~= prefix + items.take(k as int));
            assert(s.last() == item_of(file as int, k as int, d.levels@[k as int]));
        }
        k = k + 1;
    }
    assert(items.take(k as int) =~= items);
}

/// What a read of the MF=`mf` section of reaction `mt` gives, as states.
proof fn lemma_read_items(m: Material, mf: i32, mt: i32, r: Option<Mf9Mf10>)
    requires
        m.wf(),
        r matches Some(d) ==> exists|i: int|
            0 <= i < m.text_view().len() && m.text_view()[i].0 == (mf, mt)
                && mf9_mf10_fits(lines_of(m.text_view()[i].1), 0) && mf9_mf10_matches(
                d,
                mf as i64,
                lines_of(m.text_view()[i].1),
                0,
            ),
        r is None ==> !has_key(m.text_view(), (mf, mt)) || exists|i: int|
            0 <= i < m.text_view().len() && m.text_view()[i].0 == (mf, mt)
                && !mf9_mf10_fits(lines_of(m.text_view()[i].1), 0),
    ensures
        level_items(m.text_view(), mf, mt) == match r {
            Some(d) => items_of(mf as int, d),
            None => Seq::empty(),
        },
{
    let secs = m.text_view();
    lemma_section_keys_unique(m);
    let c = section_index(secs, (mf, mt));
    match r {
        Some(d) => {
            let i = choose|i: int|
                0 <= i < secs.len() && secs[i].0 == (mf, mt) && mf9_mf10_fits(lines_of(secs[i].1), 0)
                    && mf9_mf10_matches(d, mf as i64, lines_of(secs[i].1), 0);
            assert(has_key(secs, (mf, mt)));
            assert(secs[c].0 == secs[i].0);
            assert(c == i);
            let lines = lines_of(secs[i].1);
            assert forall|k: int| 0 <= k < d.levels@.len() implies #[trigger] level_items(secs, mf, mt)[k]
                == items_of(mf as int, d)[k] by {
                let l = d.levels@[k];
                assert(tab1_matches(l.func, lines, tab1_at(lines, 1, k)));
            }
            assert(level_items(secs, mf, mt) =~= items_of(mf as int, d));
        },
        None => {
            if has_key(secs, (mf, mt)) {
                let i = choose|i: int|
                    0 <= i < secs.len() && secs[i].0 == (mf, mt) && !mf9_mf10_fits(lines_of(secs[i].1), 0);
                assert(secs[c].0 == secs[i].0);
            }
        },
    }
}

/// The production entries of reaction `mt`.
fn levels_for(material: &Material, mt: i32) -> (v: Vec<ProductionLevel>)
    requires
        material.wf(),
    ensures
        levels_view(v@) == production_levels(material.text_view(), mt),
{
    let ghost secs = material.text_view();
    let mut acc: Vec<ProductionLevel> = Vec::new();
    assert(levels_view(acc@) =~= group_levels(Seq::empty()));
    let r9 = material.mf9(mt);
    proof {
        lemma_read_items(*material, 9, mt, r9);
    }
    if let Some(d) = &r9 {
        add_levels(&mut acc, 9, d, Ghost(Seq::empty()));
        assert(Seq::<LevelItem>::empty() + items_of(9, *d) =~= items_of(9, *d));
    }
    let ghost first = level_items(secs, 9, mt);
    assert(levels_view(acc@) == group_levels(first));
    let r10 = material.mf10(mt);
    proof {
        lemma_read_items(*material, 10, mt, r10);
    }
    if let Some(d) = &r10 {
        add_levels(&mut acc, 10, d, Ghost(first));
    } else {
        assert(first + Seq::<LevelItem>::empty() =~= first);
    }
    acc
}

/// The radionuclide production of a material, by reaction: every reaction
/// with an MF=9 or MF=10 section, in ascending order, with one entry for
/// each (ZAP, LFS) pair its states name, in the order the evaluation first
/// writes it. An entry's QM and QI are those of its first state; it points
/// at its state in MF=9 for the yield and in MF=10 for the production cross
/// section, the last where one file repeats the pair. A section that cannot
/// be read adds no state.
pub fn radionuclide_production(material: &Material) -> (r: Vec<(i32, Vec<ProductionLevel>)>)
    requires
        material.wf(),
    ensures
        forall|i: int, j: int| 0 <= i < j < r@.len() ==> r@[i].0 < r@[j].0,
        forall|mt: i32| produces(material.text_view(), mt) <==> exists|i: int| 0 <= i < r@.len() && r@[i].0 == mt,
        forall|i: int|
            0 <= i < r@.len() ==> levels_view((#[trigger] r@[i]).1@) == production_levels(material.text_view(), r@[i].0),
{
    let mts = production_mts(material);
    let mut r: Vec<(i32, Vec<ProductionLevel>)> = Vec::new();
    let mut i: usize = 0;
    while i < mts.len()
        invariant
            material.wf(),
            i <= mts@.len(),
            rising(mts@),
            forall|mt: i32| mts@.contains(mt) <==> produces(material.text_view(), mt),
            r@.len() == i,
            forall|k: int| 0 <= k < i ==> (#[trigger] r@[k]).0 == mts@[k],
            forall|k: int|
                0 <= k < i ==> levels_view((#[trigger] r@[k]).1@) == production_levels(material.text_view(), r@[k].0),
        decreases mts.len() - i,
    {
        let mt = mts[i];
        let levels = levels_for(material, mt);
        r.push((mt, levels));
        i = i + 1;
    }
    assert forall|mt: i32| produces(material.text_view(), mt) <==> exists|k: int| 0 <= k < r@.len() && r@[k].0 == mt by {
        if produces(material.text_view(), mt) {
            assert(mts@.contains(mt));
            let k = choose|k: int| 0 <= k < mts@.len() && mts@[k] == mt;
            assert(r@[k].0 == mt);
        }
        if exists|k: int| 0 <= k < r@.len() && r@[k].0 == mt {
            let k = choose|k: int| 0 <= k < r@.len() && r@[k].0 == mt;
            assert(mts@[k] == mt);
            assert(mts@.contains(mt));
        }
    }
    r
}


/// The MF=8 subsection that gives the excitation energy of the pair
/// (`zap`, `lfs`): the last of `keys`, the subsections' (ZAP, LFS) pairs in
/// order, that equals it.
pub fn excitation_source(keys: &Vec<(i64, i64)>, zap: i64, lfs: i64) -> (r: Option<usize>)
    ensures
        r matches Some(i) ==> i < keys@.len() && keys@[i as int] == (zap, lfs) && forall|j: int|
            i < j < keys@.len() ==> #[trigger] keys@[j] != (zap, lfs),
        r is None ==> forall|j: int| 0 <= j < keys@.len() ==> #[trigger] keys@[j] != (zap, lfs),
{
    let mut j: usize = keys.len();
    while j > 0
        invariant
            j <= keys@.len(),
            forall|k: int| j <= k < keys@.len() ==> #[trigger] keys@[k] != (zap, lfs),
        decreases j,
    {
        let k = keys[j - 1];
        if k.0 == zap && k.1 == lfs {
            return Some(j - 1);
        }
        j = j - 1;
    }
    None
}

/// Where [`key_index`] points: at an entry of the pair, or nowhere when no
/// entry has it.
proof fn lemma_key_index(acc: Seq<LevelView>, zap: int, lfs: int)
    ensures
        -1 <= key_index(acc, zap, lfs) < acc.len(),
        key_index(acc, zap, lfs) >= 0 ==> acc[key_index(acc, zap, lfs)].0 == zap && acc[key_index(acc, zap, lfs)].1 == lfs,
        key_index(acc, zap, lfs) < 0 ==> forall|i: int| 0 <= i < acc.len() ==> !((#[trigger] acc[i]).0 == zap && acc[i].1 == lfs),
    decreases acc.len(),
{
    if acc.len() > 0 {
        lemma_key_index(acc.drop_last(), zap, lfs);
        if !(acc.last().0 == zap && acc.last().1 == lfs) {
            assert forall|i: int| 0 <= i < acc.len() - 1 implies acc[i] == #[trigger] acc.drop_last()[i] by {}
            if key_index(acc, zap, lfs) < 0 {
                assert forall|i: int| 0 <= i < acc.len() implies !((#[trigger] acc[i]).0 == zap && acc[i].1 == lfs) by {
                    if i < acc.len() - 1 {
                        assert(acc[i] == acc.drop_last()[i]);
                    } else {
                        assert(acc[i] == acc.last());
                    }
                }
            }
        }
    }
}

/// Whether no two entries share a (ZAP, LFS) pair.
pub open spec fn pairs_unique(v: Seq<LevelView>) -> bool {
    forall|i: int, j: int| 0 <= i < j < v.len() ==> !((#[trigger] v[i]).0 == (#[trigger] v[j]).0 && v[i].1 == v[j].1)
}

proof fn lemma_group_unique(items: Seq<LevelItem>)
    ensures
        pairs_unique(group_levels(items)),
    decreases items.len(),
{
    if items.len() > 0 {
        let acc = group_levels(items.drop_last());
        let it = items.last();
        lemma_group_unique(items.drop_last());
        lemma_key_index(acc, it.2, it.3);
        let out = group_levels(items);
        assert(out == with_level(acc, it));
        assert forall|i: int| 0 <= i < out.len() implies (#[trigger] out[i]).0 == (if i < acc.len() { acc[i].0 } else { it.2 })
            && out[i].1 == (if i < acc.len() { acc[i].1 } else { it.3 }) by {}
    }
}

/// A reaction's production entries name each (ZAP, LFS) pair once: MF=9
/// and MF=10 data for the same final state are one entry.
pub proof fn lemma_production_pairs_unique(secs: Seq<(Key, Seq<char>)>, mt: i32)
    ensures
        pairs_unique(production_levels(secs, mt)),
{
    lemma_group_unique(level_items(secs, 9, mt) + level_items(secs, 10, mt));
}


/// The LMF of each product that the MF=8 section of reaction `mt` lists,
/// or `None` where there is no such section or it cannot be read.
pub open spec fn mf8_lmfs(secs: Seq<(Key, Seq<char>)>, mt: i32) -> Option<Seq<int>> {
    let lines = lines_of(secs[section_index(secs, (8i32, mt))].1);
    if has_key(secs, (8i32, mt)) && mf8_fits(lines, 0) {
        Some(
            Seq::new(
                at_least_zero(int_field(lines[0], 44, 55)) as nat,
                |k: int| int_field(lines[production_at(lines, 0, k)], 22, 33),
            ),
        )
    } else {
        None
    }
}

/// `x / d` rounded toward zero, as Rust divides.
pub open spec fn div_toward_zero(x: int, d: int) -> int {
    if x >= 0 {
        x / d
    } else {
        -((-x) / d)
    }
}

/// What is left of `x` after [`div_toward_zero`], with the sign of `x`.
pub open spec fn rem_toward_zero(x: int, d: int) -> int {
    if x >= 0 {
        x % d
    } else {
        -((-x) % d)
    }
}

/// The name of a radioactive product: the symbol of its Z (none outside
/// 0..=118), its A, and `_e` with the level where it is excited.
pub open spec fn activation_name(izap: int, lfs: int) -> Seq<char> {
    let z = div_toward_zero(izap, 1000);
    let sym = if 0 <= z <= 118 {
        symbol(z)
    } else {
        Seq::empty()
    };
    sym + signed_decimal(rem_toward_zero(izap, 1000)) + if lfs > 0 {
        seq!['_', 'e'] + signed_decimal(lfs)
    } else {
        Seq::empty()
    }
}

/// The states of a section as radioactive products: file, index and name.
pub open spec fn named_items(items: Seq<LevelItem>) -> Seq<(int, int, Seq<char>)> {
    items.map_values(|it: LevelItem| (it.0, it.1, activation_name(it.2, it.3)))
}

/// The radioactive products of reaction `mt`: none without a readable
/// MF=8 section; else the states of MF=9 where MF=8 names that file for
/// some product, then those of MF=10 likewise.
pub open spec fn activation_spec(secs: Seq<(Key, Seq<char>)>, mt: i32) -> Seq<(int, int, Seq<char>)> {
    match mf8_lmfs(secs, mt) {
        None => Seq::empty(),
        Some(lmfs) => (if lmfs.contains(9) {
            named_items(level_items(secs, 9, mt))
        } else {
            Seq::empty()
        }) + (if lmfs.contains(10) {
            named_items(level_items(secs, 10, mt))
        } else {
            Seq::empty()
        }),
    }
}

/// One radioactive product of a reaction, and where its data lies.
#[derive(Debug, Clone, PartialEq, Eq)]
pub struct ActivationProduct {
    /// 9 where the yield is given, 10 where the production cross section is.
    pub file: i64,
    /// The state's index in that file's section.
    pub index: usize,
    /// The product's name, e.g. `Co60_e1` for its first excited level.
    pub name: String,
}

/// Each radioactive product as plain values: file, index and name.
pub open spec fn activation_view(v: Seq<ActivationProduct>) -> Seq<(int, int, Seq<char>)> {
    v.map_values(|p: ActivationProduct| (p.file as int, p.index as int, p.name@))
}

/// The name of a radioactive product; see [`activation_name`].
pub fn activation_product_name(izap: i64, lfs: i64) -> (r: String)
    ensures
        r@ == activation_name(izap as int, lfs as int),
{
    let mut s = String::new();
    let neg = izap < 0;
    let mag: u64 = if neg {
        (0i128 - izap as i128) as u64
    } else {
        izap as u64
    };
    let zm: u64 = mag / 1000;
    let am: u64 = mag % 1000;
    proof {
        assert(div_toward_zero(izap as int, 1000) == if neg { -(zm as int) } else { zm as int });
        assert(rem_toward_zero(izap as int, 1000) == if neg { -(am as int) } else { am as int });
    }
    if !neg && zm <= 118 {
        match atomic_symbol(zm as u32) {
            Some(sym) => push_str(&mut s, sym.as_str()),
            None => {},
        }
    } else if neg && zm == 0 {
        match atomic_symbol(0) {
            Some(sym) => push_str(&mut s, sym.as_str()),
            None => {},
        }
    }
    let a: i64 = if neg {
        0 - (am as i64)
    } else {
        am as i64
    };
    push_signed(&mut s, a);
    if lfs > 0 {
        string_push(&mut s, '_');
        string_push(&mut s, 'e');
        push_signed(&mut s, lfs);
    }
    proof {
        let z = div_toward_zero(izap as int, 1000);
        let sym = if 0 <= z <= 118 {
            symbol(z)
        } else {
            Seq::empty()
        };
        let tail: Seq<char> = if lfs > 0 {
            seq!['_', 'e'] + signed_decimal(lfs as int)
        } else {
            Seq::empty()
        };
        if lfs > 0 {
            assert(s@ =~= sym + signed_decimal(a as int) + tail);
        } else {
            assert(s@ =~= sym + signed_decimal(a as int) + tail);
        }
    }
    s
}


/// The LMF of each product of an MF=8 section.
pub open spec fn lmfs_of(d: Mf8) -> Seq<int> {
    d.subsections@.map_values(|p: ProductionSubsection| p.lmf as int)
}

/// What a read of the MF=8 section of reaction `mt` gives, as LMFs.
proof fn lemma_read_lmfs(m: Material, mt: i32, r: Option<Mf8>)
    requires
        m.wf(),
        r matches Some(d) ==> exists|i: int|
            0 <= i < m.text_view().len() && m.text_view()[i].0 == (8i32, mt)
                && mf8_fits(lines_of(m.text_view()[i].1), 0) && mf8_matches(d, lines_of(m.text_view()[i].1), 0),
        r is None ==> !has_key(m.text_view(), (8i32, mt)) || exists|i: int|
            0 <= i < m.text_view().len() && m.text_view()[i].0 == (8i32, mt)
                && !mf8_fits(lines_of(m.text_view()[i].1), 0),
    ensures
        mf8_lmfs(m.text_view(), mt) == match r {
            Some(d) => Some(lmfs_of(d)),
            None => None::<Seq<int>>,
        },
{
    let secs = m.text_view();
    lemma_section_keys_unique(m);
    let c = section_index(secs, (8i32, mt));
    match r {
        Some(d) => {
            let i = choose|i: int|
                0 <= i < secs.len() && secs[i].0 == (8i32, mt) && mf8_fits(lines_of(secs[i].1), 0)
                    && mf8_matches(d, lines_of(secs[i].1), 0);
            assert(has_key(secs, (8i32, mt)));
            assert(secs[c].0 == secs[i].0);
            assert(c == i);
            let lines = lines_of(secs[i].1);
            let l = mf8_lmfs(secs, mt)->0;
            assert forall|k: int| 0 <= k < d.subsections@.len() implies #[trigger] l[k] == lmfs_of(d)[k] by {
                assert(production_matches(d.subsections@[k], d.no as int, lines, production_at(lines, 0, k)));
            }
            assert(l =~= lmfs_of(d));
        },
        None => {
            if has_key(secs, (8i32, mt)) {
                let i = choose|i: int|
                    0 <= i < secs.len() && secs[i].0 == (8i32, mt) && !mf8_fits(lines_of(secs[i].1), 0);
                assert(secs[c].0 == secs[i].0);
            }
        },
    }
}

/// Whether some product of an MF=8 section names file `lmf`.
fn lists_lmf(d: &Mf8, lmf: i64) -> (r: bool)
    ensures
        r == lmfs_of(*d).contains(lmf as int),
{
    let mut k: usize = 0;
    while k < d.subsections.len()
        invariant
            k <= d.subsections@.len(),
            forall|j: int| 0 <= j < k ==> lmfs_of(*d)[j] != lmf,
        decreases d.subsections.len() - k,
    {
        if d.subsections[k].lmf == lmf {
            assert(lmfs_of(*d)[k as int] == lmf);
            return true;
        }
        k = k + 1;
    }
    false
}

/// Add the states of a section as radioactive products.
fn push_named(out: &mut Vec<ActivationProduct>, file: i64, d: &Mf9Mf10)
    ensures
        activation_view(final(out)@) == activation_view(old(out)@) + named_items(items_of(file as int, *d)),
{
    let ghost start = activation_view(out@);
    let mut k: usize = 0;
    while k < d.levels.len()
        invariant
            k <= d.levels@.len(),
            activation_view(out@) == start + named_items(items_of(file as int, *d)).take(k as int),
        decreases d.levels.len() - k,
    {
        let name = activation_product_name(d.levels[k].izap, d.levels[k].lfs);
        let ghost before = out@;
        out.push(ActivationProduct { file, index: k, name });
        proof {
            let it = items_of(file as int, *d)[k as int];
            assert(it == item_of(file as int, k as int, d.levels@[k as int]));
            assert(named_items(items_of(file as int, *d))[k as int] == (it.0, it.1, activation_name(it.2, it.3)));
            assert(activation_view(out@) =~= activation_view(before).push((file as int, k as int, name@)));
            assert(named_items(items_of(file as int, *d)).take(k + 1) =~= named_items(items_of(file as int, *d)).take(
                k as int,
            ).push(named_items(items_of(file as int, *d))[k as int]));
        }
        k = k + 1;
        assert(activation_view(out@) =~= start + named_items(items_of(file as int, *d)).take(k as int));
    }
    assert(named_items(items_of(file as int, *d)).take(k as int) =~= named_items(items_of(file as int, *d)));
}

/// The radioactive products of reaction `mt`; see [`activation_spec`].
pub fn activation_products(material: &Material, mt: i32) -> (r: Vec<ActivationProduct>)
    requires
        material.wf(),
    ensures
        activation_view(r@) == activation_spec(material.text_view(), mt),
{
    let ghost secs = material.text_view();
    let mut out: Vec<ActivationProduct> = Vec::new();
    let mf8 = material.mf8(mt);
    proof {
        lemma_read_lmfs(*material, mt, mf8);
    }
    let d8 = match &mf8 {
        Some(d) => d,
        None => {
            assert(activation_view(out@) =~= Seq::empty());
            return out;
        },
    };
    if lists_lmf(d8, 9) {
        let r9 = material.mf9(mt);
        proof {
            lemma_read_items(*material, 9, mt, r9);
        }
        if let Some(d) = &r9 {
            push_named(&mut out, 9, d);
        }
    }
    let ghost first = activation_view(out@);
    if lists_lmf(d8, 10) {
        let r10 = material.mf10(mt);
        proof {
            lemma_read_items(*material, 10, mt, r10);
        }
        if let Some(d) = &r10 {
            push_named(&mut out, 10, d);
        }
    }
    proof {
        let lmfs = lmfs_of(*d8);
        let a = if lmfs.contains(9) {
            named_items(level_items(secs, 9, mt))
        } else {
            Seq::empty()
        };
        let b = if lmfs.contains(10) {
            named_items(level_items(secs, 10, mt))
        } else {
            Seq::empty()
        };
        assert(named_items(Seq::empty()) =~= Seq::<(int, int, Seq<char>)>::empty());
        assert(first =~= a);
        assert(activation_view(out@) =~= a + b);
    }
    out
}

} // verus!
