//! Continuous-energy neutron data: which of a nuclide's reactions are sums
//! of others.
//!
//! An ACE table gives some reactions only through their parts: photon
//! production for an MT with no cross section of its own, or a transmutation
//! given level by level. Those sums are built from the reactions the table
//! has, and every reaction that is a sum is marked redundant. What is decided
//! here is which reactions those are and what each sums; the cross sections
//! themselves are real-valued and summed elsewhere.

use vstd::prelude::*;

use crate::data::{components_spec, has_mt, reaction_components};

verus! {

/// The transmutation reactions an ACE table may give only as separate
/// levels: (n,2n), (n,p), (n,d), (n,t), (n,3He) and (n,alpha).
pub open spec fn summed_if_absent() -> Seq<i32> {
    seq![16i32, 103, 104, 105, 106, 107]
}

/// Reactions that are sums whatever the nuclide has: the gas production
/// reactions and the damage energy.
pub open spec fn always_redundant(mt: i32) -> bool {
    mt == 203 || mt == 204 || mt == 205 || mt == 206 || mt == 207 || mt == 444
}

/// The sums built for the MTs of `candidates`, in order, starting from the
/// reactions `present`: an MT already present is skipped, as is one none of
/// whose parts is; otherwise it is built from its parts and is present from
/// then on. Gives the sums, as `(MT, parts)`, and the reactions present
/// after them.
pub open spec fn build_sums(present: Seq<i32>, candidates: Seq<i32>) -> (Seq<(i32, Seq<i32>)>, Seq<i32>)
    decreases candidates.len(),
{
    if candidates.len() == 0 {
        (Seq::empty(), present)
    } else {
        let (built, p) = build_sums(present, candidates.drop_last());
        let mt = candidates.last();
        let c = components_spec(p, mt);
        if p.contains(mt) || c.len() == 0 {
            (built, p)
        } else {
            (built.push((mt, c)), p.push(mt))
        }
    }
}

/// The sums as `(MT, parts)`.
pub open spec fn sums_view(v: Seq<(i32, Vec<i32>)>) -> Seq<(i32, Seq<i32>)> {
    Seq::new(v.len(), |i: int| (v[i].0, v[i].1@))
}

/// The sums an ACE table's reactions are completed with, as `(MT, parts)`:
/// first for each MT with photon production (`photon_mts`, in ascending
/// order), then for the transmutations given only as levels. The reactions
/// present grow as sums are built, so a later sum may be made of an earlier
/// one.
pub fn sums_from_ace(present: &Vec<i32>, photon_mts: &Vec<i32>) -> (r: Vec<(i32, Vec<i32>)>)
    ensures
        sums_view(r@) == build_sums(present@, photon_mts@ + summed_if_absent()).0,
{
    let mut candidates: Vec<i32> = photon_mts.clone();
    candidates.push(16);
    candidates.push(103);
    candidates.push(104);
    candidates.push(105);
    candidates.push(106);
    candidates.push(107);
    let ghost all = photon_mts@ + summed_if_absent();
    assert(candidates@ =~= all);
    let mut p: Vec<i32> = present.clone();
    let mut built: Vec<(i32, Vec<i32>)> = Vec::new();
    let mut k: usize = 0;
    assert(all.take(0) =~= Seq::<i32>::empty());
    assert(sums_view(built@) =~= Seq::<(i32, Seq<i32>)>::empty());
    while k < candidates.len()
        invariant
            k <= candidates.len(),
            candidates@ == all,
            (sums_view(built@), p@) == build_sums(present@, all.take(k as int)),
        decreases candidates.len() - k,
    {
        let mt = candidates[k];
        assert(all.take(k + 1).drop_last() =~= all.take(k as int));
        assert(all.take(k + 1).last() == mt);
        if !has_mt(p.as_slice(), mt) {
            let c = reaction_components(p.as_slice(), mt);
            if c.len() > 0 {
                let ghost before = built@;
                built.push((mt, c));
                assert(sums_view(built@) =~= sums_view(before).push((mt, components_spec(p@, mt))));
                p.push(mt);
            }
        }
        k = k + 1;
    }
    assert(all.take(candidates.len() as int) =~= all);
    built
}

/// Which of `keys` are sums of other reactions, given the reactions
/// `present`: those always redundant, and those whose parts are not just
/// themselves.
pub open spec fn redundant_spec(present: Seq<i32>, keys: Seq<i32>) -> Seq<i32>
    decreases keys.len(),
{
    if keys.len() == 0 {
        Seq::empty()
    } else {
        let before = redundant_spec(present, keys.drop_last());
        let mt = keys.last();
        if always_redundant(mt) || components_spec(present, mt) != seq![mt] {
            before.push(mt)
        } else {
            before
        }
    }
}

/// The reactions of a nuclide, `present` in ascending order of MT, that are
/// sums of others and so redundant, in the same order.
pub fn redundant_reactions(present: &Vec<i32>) -> (r: Vec<i32>)
    ensures
        r@ == redundant_spec(present@, present@),
{
    let mut out: Vec<i32> = Vec::new();
    let mut k: usize = 0;
    while k < present.len()
        invariant
            k <= present.len(),
            out@ == redundant_spec(present@, present@.take(k as int)),
        decreases present.len() - k,
    {
        let mt = present[k];
        assert(present@.take(k + 1).drop_last() =~= present@.take(k as int));
        assert(present@.take(k + 1).last() == mt);
        let c = reaction_components(present.as_slice(), mt);
        let itself = c.len() == 1 && c[0] == mt;
        assert(itself == (c@ == seq![mt])) by {
            if c@ == seq![mt] {
                assert(c@.len() == 1 && c@[0] == mt);
            }
            if itself {
                assert(c@ =~= seq![mt]);
            }
        }
        let always = mt == 203 || mt == 204 || mt == 205 || mt == 206 || mt == 207 || mt == 444;
        if always || !itself {
            out.push(mt);
        }
        k = k + 1;
    }
    assert(present@.take(present.len() as int) =~= present@);
    out
}

} // verus!
