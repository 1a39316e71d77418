//! Reducing a depletion chain to what a set of starting nuclides can reach.
//!
//! A chain's nuclides carry real-valued data beside their links; what the
//! reduction reads is the links alone: each nuclide's name and the targets
//! of its decay modes and reactions. It says which nuclides are kept, in
//! which order, and which of their paths.

use vstd::prelude::*;

use crate::data::{zam, zam_spec};
use crate::text::str_eq;

verus! {

broadcast use vstd::string::group_string_axioms;

/// What the reduction reads of one nuclide: its name, and the target of
/// each of its decay modes and reactions, where the path has one.
#[derive(Debug, Clone, PartialEq, Eq)]
pub struct NuclideLinks {
    pub name: String,
    pub decay_targets: Vec<Option<String>>,
    pub reaction_targets: Vec<Option<String>>,
}

/// A nuclide's links as plain values.
pub type LinksView = (Seq<char>, Seq<Option<Seq<char>>>, Seq<Option<Seq<char>>>);

/// The characters of an optional string.
pub open spec fn opt_chars(o: Option<String>) -> Option<Seq<char>> {
    match o {
        Some(s) => Some(s@),
        None => None,
    }
}

/// The links of each nuclide as plain values.
pub open spec fn links_view(c: Seq<NuclideLinks>) -> Seq<LinksView> {
    Seq::new(
        c.len(),
        |i: int|
            (
                c[i].name@,
                Seq::new(c[i].decay_targets@.len(), |j: int| opt_chars(c[i].decay_targets@[j])),
                Seq::new(c[i].reaction_targets@.len(), |j: int| opt_chars(c[i].reaction_targets@[j])),
            ),
    )
}

/// The first nuclide from the `i`-th on with this name.
pub open spec fn find_from(c: Seq<LinksView>, name: Seq<char>, i: int) -> Option<int>
    decreases c.len() - i,
{
    if i < 0 || i >= c.len() {
        None
    } else if c[i].0 == name {
        Some(i)
    } else {
        find_from(c, name, i + 1)
    }
}

/// The targets a list of paths names, in order.
pub open spec fn somes(t: Seq<Option<Seq<char>>>) -> Seq<Seq<char>>
    decreases t.len(),
{
    if t.len() == 0 {
        Seq::empty()
    } else {
        somes(t.drop_last()) + match t.last() {
            Some(x) => seq![x],
            None => Seq::empty(),
        }
    }
}

/// Every target a nuclide's paths lead to: its decay modes', then its
/// reactions'.
pub open spec fn targets_of(x: LinksView) -> Seq<Seq<char>> {
    somes(x.1) + somes(x.2)
}

/// One step of the walk over the names of `frontier` from the `i`-th on: a
/// name not yet reached that the chain holds is reached, and the targets of
/// its paths make up the next frontier.
pub open spec fn step(
    c: Seq<LinksView>,
    reached: Seq<Seq<char>>,
    frontier: Seq<Seq<char>>,
    i: int,
    next: Seq<Seq<char>>,
) -> (Seq<Seq<char>>, Seq<Seq<char>>)
    decreases frontier.len() - i,
{
    if i < 0 || i >= frontier.len() {
        (reached, next)
    } else {
        let n = frontier[i];
        if reached.contains(n) || find_from(c, n, 0) is None {
            step(c, reached, frontier, i + 1, next)
        } else {
            step(c, reached.push(n), frontier, i + 1, next + targets_of(c[find_from(c, n, 0)->0]))
        }
    }
}

/// How many of the chain's nuclides, from the `k`-th back, have a name not
/// yet reached.
pub open spec fn not_reached(c: Seq<LinksView>, reached: Seq<Seq<char>>, k: int) -> nat
    decreases k,
{
    if k <= 0 {
        0
    } else {
        not_reached(c, reached, k - 1) + if reached.contains(c[k - 1].0) {
            0nat
        } else {
            1nat
        }
    }
}

/// Reaching more names leaves no more not_reached, and reaching a name of the
/// chain leaves fewer.
pub proof fn lemma_not_reached_shrinks(c: Seq<LinksView>, r: Seq<Seq<char>>, s: Seq<Seq<char>>, k: int)
    requires
        forall|x: Seq<char>| r.contains(x) ==> s.contains(x),
        0 <= k <= c.len(),
    ensures
        not_reached(c, s, k) <= not_reached(c, r, k),
        (exists|j: int| 0 <= j < k && !r.contains(c[j].0) && s.contains(c[j].0)) ==> not_reached(c, s, k)
            < not_reached(c, r, k),
    decreases k,
{
    if k > 0 {
        lemma_not_reached_shrinks(c, r, s, k - 1);
        if exists|j: int| 0 <= j < k && !r.contains(c[j].0) && s.contains(c[j].0) {
            let j = choose|j: int| 0 <= j < k && !r.contains(c[j].0) && s.contains(c[j].0);
            if j < k - 1 {
                assert(exists|j: int| 0 <= j < k - 1 && !r.contains(c[j].0) && s.contains(c[j].0));
            }
        }
    }
}

/// A step reaches only names it did not have, each a name of the chain; and
/// where it reaches none, it leaves the next frontier as it was.
pub proof fn lemma_step(
    c: Seq<LinksView>,
    reached: Seq<Seq<char>>,
    frontier: Seq<Seq<char>>,
    i: int,
    next: Seq<Seq<char>>,
)
    requires
        0 <= i <= frontier.len(),
    ensures
        forall|x: Seq<char>| reached.contains(x) ==> step(c, reached, frontier, i, next).0.contains(x),
        step(c, reached, frontier, i, next).0.len() >= reached.len(),
        step(c, reached, frontier, i, next).0.len() == reached.len() ==> step(c, reached, frontier, i, next).1
            == next,
        step(c, reached, frontier, i, next).0.len() > reached.len() ==> exists|j: int|
            0 <= j < c.len() && !reached.contains(c[j].0) && step(c, reached, frontier, i, next).0.contains(
                c[j].0,
            ),
    decreases frontier.len() - i,
{
    if i < frontier.len() {
        let n = frontier[i];
        if reached.contains(n) || find_from(c, n, 0) is None {
            lemma_step(c, reached, frontier, i + 1, next);
        } else {
            let k = find_from(c, n, 0)->0;
            lemma_find_from(c, n, 0);
            let r2 = reached.push(n);
            let n2 = next + targets_of(c[k]);
            lemma_step(c, r2, frontier, i + 1, n2);
            assert forall|x: Seq<char>| reached.contains(x) implies r2.contains(x) by {
                let j = choose|j: int| 0 <= j < reached.len() && reached[j] == x;
                assert(r2[j] == x);
            }
            assert(r2.contains(n)) by {
                assert(r2[reached.len() as int] == n);
            }
            assert(step(c, r2, frontier, i + 1, n2).0.contains(c[k].0));
        }
    }
}

/// [`find_from`] finds a nuclide of that name, and none before it.
pub proof fn lemma_find_from(c: Seq<LinksView>, name: Seq<char>, i: int)
    requires
        0 <= i,
    ensures
        find_from(c, name, i) matches Some(k) ==> i <= k < c.len() && c[k].0 == name && forall|j: int|
            i <= j < k ==> c[j].0 != name,
        find_from(c, name, i) is None ==> forall|j: int| i <= j < c.len() ==> c[j].0 != name,
    decreases c.len() - i,
{
    if i < c.len() && c[i].0 != name {
        lemma_find_from(c, name, i + 1);
    }
}

/// The measure the walk shrinks: the nuclides not yet reached, and one more
/// while there is a frontier.
pub open spec fn walk_measure(c: Seq<LinksView>, reached: Seq<Seq<char>>, frontier: Seq<Seq<char>>) -> nat {
    not_reached(c, reached, c.len() as int) + if frontier.len() > 0 {
        1nat
    } else {
        0nat
    }
}

/// The names the walk reaches from `frontier`, `depth` steps in, after those
/// in `reached`: it stops when the frontier is empty or `level` steps have
/// been taken.
pub open spec fn walk(
    c: Seq<LinksView>,
    reached: Seq<Seq<char>>,
    frontier: Seq<Seq<char>>,
    depth: int,
    level: Option<int>,
) -> Seq<Seq<char>>
    decreases walk_measure(c, reached, frontier),
{
    if frontier.len() == 0 || (level matches Some(l) && depth > l) {
        reached
    } else {
        let (r2, next) = step(c, reached, frontier, 0, Seq::empty());
        proof {
            lemma_step(c, reached, frontier, 0, Seq::empty());
            lemma_not_reached_shrinks(c, reached, r2, c.len() as int);
        }
        walk(c, r2, next, depth + 1, level)
    }
}

/// The key a reduced chain is sorted by: a name's `(Z, A, state)`, or zeros
/// for a name that is no nuclide's.
pub open spec fn zam_key(name: Seq<char>) -> (int, int, int) {
    match zam_spec(name) {
        Ok(t) => t,
        Err(_) => (0, 0, 0),
    }
}

/// The order of the keys.
pub open spec fn key_gt(a: (int, int, int), b: (int, int, int)) -> bool {
    a.0 > b.0 || (a.0 == b.0 && (a.1 > b.1 || (a.1 == b.1 && a.2 > b.2)))
}

/// One kept nuclide: its index in the chain, and which of its decay modes
/// and reactions are kept.
#[derive(Debug, Clone, PartialEq, Eq)]
pub struct Kept {
    pub index: usize,
    pub decay_kept: Vec<bool>,
    pub reaction_kept: Vec<bool>,
}

/// A kept nuclide as plain values.
pub open spec fn kept_view(k: Kept) -> (int, Seq<bool>, Seq<bool>) {
    (k.index as int, k.decay_kept@, k.reaction_kept@)
}

/// Whether a path is kept: it leads nowhere, or to a reached name.
pub open spec fn path_kept(t: Option<Seq<char>>, reached: Seq<Seq<char>>) -> bool {
    match t {
        Some(x) => reached.contains(x),
        None => true,
    }
}

/// The kept nuclide a reached name stands for.
pub open spec fn kept_of(c: Seq<LinksView>, reached: Seq<Seq<char>>, name: Seq<char>) -> (int, Seq<bool>, Seq<bool>) {
    let k = find_from(c, name, 0)->0;
    (
        k,
        Seq::new(c[k].1.len(), |j: int| path_kept(c[k].1[j], reached)),
        Seq::new(c[k].2.len(), |j: int| path_kept(c[k].2[j], reached)),
    )
}

/// Where `x` goes in `s`, sorted by key: after every element whose key is
/// not greater.
pub open spec fn insert_at(c: Seq<LinksView>, s: Seq<(int, Seq<bool>, Seq<bool>)>, x: (int, Seq<bool>, Seq<bool>), i: int) -> int
    decreases s.len() - i,
{
    if i < 0 || i >= s.len() {
        s.len() as int
    } else if key_gt(zam_key(c[s[i].0].0), zam_key(c[x.0].0)) {
        i
    } else {
        insert_at(c, s, x, i + 1)
    }
}

/// The kept nuclides, in the order the names were reached, sorted stably by
/// key: the order a stable sort by key gives.
pub open spec fn sorted_kept(c: Seq<LinksView>, reached: Seq<Seq<char>>, n: int) -> Seq<(int, Seq<bool>, Seq<bool>)>
    decreases n,
{
    if n <= 0 {
        Seq::empty()
    } else {
        let s = sorted_kept(c, reached, n - 1);
        let x = kept_of(c, reached, reached[n - 1]);
        s.insert(insert_at(c, s, x, 0), x)
    }
}

/// What reducing the chain keeps, from the starting names and up to `level`
/// steps.
pub open spec fn reduce_spec(c: Seq<LinksView>, initial: Seq<Seq<char>>, level: Option<int>) -> Seq<
    (int, Seq<bool>, Seq<bool>),
> {
    let reached = walk(c, Seq::empty(), initial, 0, level);
    sorted_kept(c, reached, reached.len() as int)
}

/// The characters of each string.
pub open spec fn names_view(v: Seq<String>) -> Seq<Seq<char>> {
    Seq::new(v.len(), |i: int| v[i]@)
}

/// Whether a name is among the names.
fn contains_name(v: &Vec<String>, name: &String) -> (r: bool)
    ensures
        r == names_view(v@).contains(name@),
{
    let mut i: usize = 0;
    while i < v.len()
        invariant
            i <= v.len(),
            forall|j: int| 0 <= j < i ==> (#[trigger] names_view(v@)[j]) != name@,
        decreases v.len() - i,
    {
        if str_eq(v[i].as_str(), name.as_str()) {
            assert(names_view(v@)[i as int] == name@);
            return true;
        }
        i = i + 1;
    }
    false
}

/// The first nuclide with this name.
fn find(chain: &Vec<NuclideLinks>, name: &String) -> (r: Option<usize>)
    ensures
        r matches Some(k) ==> find_from(links_view(chain@), name@, 0) == Some(k as int),
        r is None ==> find_from(links_view(chain@), name@, 0) is None,
{
    let ghost c = links_view(chain@);
    let mut i: usize = 0;
    while i < chain.len()
        invariant
            i <= chain.len(),
            c == links_view(chain@),
            find_from(c, name@, 0) == find_from(c, name@, i as int),
        decreases chain.len() - i,
    {
        if str_eq(chain[i].name.as_str(), name.as_str()) {
            return Some(i);
        }
        i = i + 1;
    }
    None
}

/// Appends the targets a list of paths names.
fn push_targets(out: &mut Vec<String>, paths: &Vec<Option<String>>)
    ensures
        names_view(final(out)@) == names_view(old(out)@) + somes(
            Seq::new(paths@.len(), |j: int| opt_chars(paths@[j])),
        ),
{
    let ghost t = Seq::new(paths@.len(), |j: int| opt_chars(paths@[j]));
    let ghost start = names_view(out@);
    let mut j: usize = 0;
    assert(t.take(0) =~= Seq::<Option<Seq<char>>>::empty());
    assert(start + somes(t.take(0)) =~= start);
    while j < paths.len()
        invariant
            j <= paths.len(),
            t == Seq::new(paths@.len(), |j: int| opt_chars(paths@[j])),
            start == names_view(old(out)@),
            names_view(out@) == start + somes(t.take(j as int)),
        decreases paths.len() - j,
    {
        assert(t.take(j + 1).drop_last() == t.take(j as int));
        assert(t.take(j + 1).last() == opt_chars(paths@[j as int]));
        match &paths[j] {
            Some(x) => {
                let ghost before = names_view(out@);
                out.push(x.clone());
                assert(names_view(out@) =~= before + seq![x@]);
                assert(start + somes(t.take(j + 1)) =~= start + somes(t.take(j as int)) + seq![x@]);
            },
            None => {
                assert(start + somes(t.take(j + 1)) =~= start + somes(t.take(j as int)));
            },
        }
        j = j + 1;
    }
    assert(t.take(paths.len() as int) == t);
}

/// One step of the walk: the frontier's names not yet reached that the
/// chain holds are reached, and the targets of their paths returned.
fn step_exec(chain: &Vec<NuclideLinks>, reached: &mut Vec<String>, frontier: &Vec<String>) -> (next: Vec<String>)
    ensures
        (names_view(final(reached)@), names_view(next@)) == step(
            links_view(chain@),
            names_view(old(reached)@),
            names_view(frontier@),
            0,
            Seq::empty(),
        ),
{
    let ghost c = links_view(chain@);
    let ghost f = names_view(frontier@);
    let ghost target = step(c, names_view(reached@), f, 0, Seq::empty());
    let mut next: Vec<String> = Vec::new();
    let mut i: usize = 0;
    assert(names_view(next@) =~= Seq::<Seq<char>>::empty());
    while i < frontier.len()
        invariant
            i <= frontier.len(),
            c == links_view(chain@),
            f == names_view(frontier@),
            target == step(c, names_view(reached@), f, i as int, names_view(next@)),
        decreases frontier.len() - i,
    {
        let name = &frontier[i];
        assert(f[i as int] == name@);
        if contains_name(reached, name) {
            assert(target == step(c, names_view(reached@), f, i + 1, names_view(next@)));
            i = i + 1;
            continue;
        }
        match find(chain, name) {
            None => {
                assert(target == step(c, names_view(reached@), f, i + 1, names_view(next@)));
                i = i + 1;
            },
            Some(k) => {
                proof {
                    lemma_find_from(c, name@, 0);
                }
                let ghost r0 = names_view(reached@);
                let ghost n0 = names_view(next@);
                reached.push(name.clone());
                assert(names_view(reached@) =~= r0.push(name@));
                push_targets(&mut next, &chain[k].decay_targets);
                push_targets(&mut next, &chain[k].reaction_targets);
                assert(c[k as int].1 == Seq::new(chain@[k as int].decay_targets@.len(), |j: int| opt_chars(chain@[k as int].decay_targets@[j])));
                assert(c[k as int].2 == Seq::new(chain@[k as int].reaction_targets@.len(), |j: int| opt_chars(chain@[k as int].reaction_targets@[j])));
                assert(names_view(next@) =~= n0 + targets_of(c[k as int]));
                assert(target == step(c, names_view(reached@), f, i + 1, names_view(next@)));
                i = i + 1;
            },
        }
    }
    next
}

/// The key a name is sorted by.
pub(crate) fn zam_key_exec(name: &String) -> (r: (u32, u32, u32))
    ensures
        (r.0 as int, r.1 as int, r.2 as int) == zam_key(name@),
{
    proof {
        crate::data::lemma_zam_ranges(name@);
    }
    match zam(name.as_str()) {
        Ok(t) => t,
        Err(_) => (0, 0, 0),
    }
}

/// Whether key `a` comes after key `b`.
pub(crate) fn key_gt_exec(a: (u32, u32, u32), b: (u32, u32, u32)) -> (r: bool)
    ensures
        r == key_gt((a.0 as int, a.1 as int, a.2 as int), (b.0 as int, b.1 as int, b.2 as int)),
{
    a.0 > b.0 || (a.0 == b.0 && (a.1 > b.1 || (a.1 == b.1 && a.2 > b.2)))
}

/// At most as many nuclides are unreached as there are.
proof fn lemma_not_reached_le(c: Seq<LinksView>, r: Seq<Seq<char>>, k: int)
    requires
        0 <= k,
    ensures
        not_reached(c, r, k) <= k,
    decreases k,
{
    if k > 0 {
        lemma_not_reached_le(c, r, k - 1);
    }
}

/// Whether every name is that of a nuclide of the chain.
pub open spec fn all_in_chain(c: Seq<LinksView>, names: Seq<Seq<char>>) -> bool {
    forall|i: int| 0 <= i < names.len() ==> (#[trigger] find_from(c, names[i], 0)) is Some
}

/// A step reaches only names of the chain.
proof fn lemma_step_in_chain(
    c: Seq<LinksView>,
    reached: Seq<Seq<char>>,
    frontier: Seq<Seq<char>>,
    i: int,
    next: Seq<Seq<char>>,
)
    requires
        0 <= i <= frontier.len(),
        all_in_chain(c, reached),
    ensures
        all_in_chain(c, step(c, reached, frontier, i, next).0),
    decreases frontier.len() - i,
{
    if i < frontier.len() {
        let n = frontier[i];
        if reached.contains(n) || find_from(c, n, 0) is None {
            lemma_step_in_chain(c, reached, frontier, i + 1, next);
        } else {
            let r2 = reached.push(n);
            assert forall|j: int| 0 <= j < r2.len() implies (#[trigger] find_from(c, r2[j], 0)) is Some by {
                if j < reached.len() {
                    assert(r2[j] == reached[j]);
                }
            }
            lemma_step_in_chain(c, r2, frontier, i + 1, next + targets_of(c[find_from(c, n, 0)->0]));
        }
    }
}

/// The walk reaches only names of the chain.
proof fn lemma_walk_in_chain(
    c: Seq<LinksView>,
    reached: Seq<Seq<char>>,
    frontier: Seq<Seq<char>>,
    depth: int,
    level: Option<int>,
)
    requires
        all_in_chain(c, reached),
    ensures
        all_in_chain(c, walk(c, reached, frontier, depth, level)),
    decreases walk_measure(c, reached, frontier),
{
    if !(frontier.len() == 0 || (level matches Some(l) && depth > l)) {
        let (r2, next) = step(c, reached, frontier, 0, Seq::empty());
        lemma_step(c, reached, frontier, 0, Seq::empty());
        lemma_not_reached_shrinks(c, reached, r2, c.len() as int);
        lemma_step_in_chain(c, reached, frontier, 0, Seq::empty());
        lemma_walk_in_chain(c, r2, next, depth + 1, level);
    }
}

/// Whether the walk goes on at this depth.
fn within(level: Option<usize>, depth: u128) -> (r: bool)
    ensures
        r == !(level matches Some(l) && depth > l),
{
    match level {
        Some(l) => depth <= l as u128,
        None => true,
    }
}

/// Which of a list of paths are kept: those that lead nowhere or to a
/// reached name.
fn kept_paths(paths: &Vec<Option<String>>, reached: &Vec<String>) -> (r: Vec<bool>)
    ensures
        r@ == Seq::new(paths@.len(), |j: int| path_kept(opt_chars(paths@[j]), names_view(reached@))),
{
    let mut r: Vec<bool> = Vec::new();
    let mut j: usize = 0;
    while j < paths.len()
        invariant
            j <= paths.len(),
            r@ == Seq::new(j as nat, |i: int| path_kept(opt_chars(paths@[i]), names_view(reached@))),
        decreases paths.len() - j,
    {
        let keep = match &paths[j] {
            Some(t) => contains_name(reached, t),
            None => true,
        };
        r.push(keep);
        assert(r@ =~= Seq::new((j + 1) as nat, |i: int| path_kept(opt_chars(paths@[i]), names_view(reached@))));
        j = j + 1;
    }
    r
}

/// The kept nuclides as plain values.
pub open spec fn kepts_view(v: Seq<Kept>) -> Seq<(int, Seq<bool>, Seq<bool>)> {
    Seq::new(v.len(), |i: int| kept_view(v[i]))
}

/// Reduce a chain to what the starting nuclides can reach within `level`
/// steps, or without limit where `level` is `None`. Each nuclide reached is
/// kept once, with the paths that lead nowhere or to another kept nuclide,
/// so the result is closed; the kept nuclides are in order of
/// `(Z, A, state)`, those with equal keys in the order they were reached.
#[verifier::rlimit(40)]
pub fn reduce(chain: &Vec<NuclideLinks>, initial: &Vec<String>, level: Option<usize>) -> (r: Vec<Kept>)
    ensures
        kepts_view(r@) == reduce_spec(
            links_view(chain@),
            names_view(initial@),
            match level {
                Some(l) => Some(l as int),
                None => None,
            },
        ),
{
    let ghost c = links_view(chain@);
    let ghost lv: Option<int> = match level {
        Some(l) => Some(l as int),
        None => None,
    };
    let ghost goal = walk(c, Seq::empty(), names_view(initial@), 0, lv);
    let mut reached: Vec<String> = Vec::new();
    let mut frontier: Vec<String> = initial.clone();
    assert(names_view(frontier@) =~= names_view(initial@));
    let mut depth: u128 = 0;
    assert(names_view(reached@) =~= Seq::<Seq<char>>::empty());
    assert(c.len() == chain.len());
    proof {
        lemma_not_reached_le(c, names_view(reached@), c.len() as int);
        lemma_walk_in_chain(c, Seq::empty(), names_view(initial@), 0, lv);
    }
    while frontier.len() > 0 && within(level, depth)
        invariant
            c == links_view(chain@),
            goal == walk(c, names_view(reached@), names_view(frontier@), depth as int, lv),
            lv == match level {
                Some(l) => Some(l as int),
                None => None,
            },
            depth + walk_measure(c, names_view(reached@), names_view(frontier@)) <= c.len() + 1,
            c.len() <= usize::MAX,
            all_in_chain(c, goal),
        decreases walk_measure(c, names_view(reached@), names_view(frontier@)),
    {
        let ghost r0 = names_view(reached@);
        let ghost f0 = names_view(frontier@);
        let next = step_exec(chain, &mut reached, &frontier);
        proof {
            lemma_step(c, r0, f0, 0, Seq::empty());
            lemma_not_reached_shrinks(c, r0, names_view(reached@), c.len() as int);
        }
        frontier = next;
        depth = depth + 1;
    }
    assert(goal == names_view(reached@));
    // The kept nuclides, each put after every one whose key is not greater.
    let mut out: Vec<Kept> = Vec::new();
    let mut keys: Vec<(u32, u32, u32)> = Vec::new();
    let mut n: usize = 0;
    assert(kepts_view(out@) =~= Seq::<(int, Seq<bool>, Seq<bool>)>::empty());
    while n < reached.len()
        invariant
            n <= reached.len(),
            c == links_view(chain@),
            goal == names_view(reached@),
            all_in_chain(c, goal),
            keys@.len() == out@.len(),
            forall|i: int| 0 <= i < out@.len() ==> #[trigger] out@[i].index < chain@.len(),
            forall|i: int|
                0 <= i < out@.len() ==> (keys@[i].0 as int, keys@[i].1 as int, keys@[i].2 as int)
                    == zam_key(#[trigger] c[out@[i].index as int].0),
            kepts_view(out@) == sorted_kept(c, goal, n as int),
        decreases reached.len() - n,
    {
        let name = &reached[n];
        assert(goal[n as int] == name@);
        assert(find_from(c, goal[n as int], 0) is Some);
        let k = match find(chain, name) {
            Some(k) => k,
            None => {
                assert(false);
                0
            },
        };
        proof {
            lemma_find_from(c, name@, 0);
        }
        let decay_kept = kept_paths(&chain[k].decay_targets, &reached);
        let reaction_kept = kept_paths(&chain[k].reaction_targets, &reached);
        let key = zam_key_exec(&chain[k].name);
        let ghost s = kepts_view(out@);
        let ghost x = kept_of(c, goal, goal[n as int]);
        assert(c[k as int].1 == Seq::new(
            chain@[k as int].decay_targets@.len(),
            |j: int| opt_chars(chain@[k as int].decay_targets@[j]),
        ));
        assert(c[k as int].2 == Seq::new(
            chain@[k as int].reaction_targets@.len(),
            |j: int| opt_chars(chain@[k as int].reaction_targets@[j]),
        ));
        assert(find_from(c, goal[n as int], 0) == Some(k as int));
        assert(x.0 == k);
        assert(x.1.len() == decay_kept@.len());
        assert(forall|j: int| 0 <= j < x.1.len() ==> x.1[j] == decay_kept@[j]);
        assert(x.1 =~= decay_kept@);
        assert(x.2 =~= reaction_kept@);
        assert(x == (k as int, decay_kept@, reaction_kept@));
        let mut p: usize = 0;
        while p < out.len() && !key_gt_exec(keys[p], key)
            invariant
                p <= out@.len(),
                keys@.len() == out@.len(),
                s == kepts_view(out@),
                c == links_view(chain@),
                x.0 == k,
                k < chain@.len(),
                (key.0 as int, key.1 as int, key.2 as int) == zam_key(c[k as int].0),
                forall|i: int| 0 <= i < out@.len() ==> #[trigger] out@[i].index < chain@.len(),
                forall|i: int|
                    0 <= i < out@.len() ==> (keys@[i].0 as int, keys@[i].1 as int, keys@[i].2 as int)
                        == zam_key(#[trigger] c[out@[i].index as int].0),
                insert_at(c, s, x, 0) == insert_at(c, s, x, p as int),
            decreases out.len() - p,
        {
            assert(s[p as int].0 == out@[p as int].index);
            p = p + 1;
        }
        if p < out.len() {
            assert(s[p as int].0 == out@[p as int].index);
        }
        assert(insert_at(c, s, x, p as int) == p);
        let ghost out0 = out@;
        let ghost keys0 = keys@;
        out.insert(p, Kept { index: k, decay_kept, reaction_kept });
        keys.insert(p, key);
        assert(kepts_view(out@) =~= s.insert(p as int, x));
        assert forall|i: int| 0 <= i < out@.len() implies #[trigger] out@[i].index < chain@.len() && (
        keys@[i].0 as int, keys@[i].1 as int, keys@[i].2 as int) == zam_key(c[out@[i].index as int].0) by {
            if i < p {
                assert(out@[i] == out0[i] && keys@[i] == keys0[i]);
            } else if i > p {
                assert(out@[i] == out0[i - 1] && keys@[i] == keys0[i - 1]);
            }
        }
        n = n + 1;
    }
    out
}

/// The sorted kept nuclides are those of the reached names, each once.
proof fn lemma_sorted_kept_members(c: Seq<LinksView>, reached: Seq<Seq<char>>, n: int)
    requires
        0 <= n <= reached.len(),
    ensures
        sorted_kept(c, reached, n).len() == n,
        forall|i: int| 0 <= i < n ==> sorted_kept(c, reached, n).contains(#[trigger] kept_of(c, reached, reached[i])),
        forall|m: int|
            0 <= m < n ==> exists|i: int|
                0 <= i < n && #[trigger] sorted_kept(c, reached, n)[m] == kept_of(c, reached, reached[i]),
    decreases n,
{
    if n > 0 {
        lemma_sorted_kept_members(c, reached, n - 1);
        let s = sorted_kept(c, reached, n - 1);
        let x = kept_of(c, reached, reached[n - 1]);
        let p = insert_at(c, s, x, 0);
        lemma_insert_at(c, s, x, 0);
        let t = s.insert(p, x);
        assert(t == sorted_kept(c, reached, n));
        assert forall|i: int| 0 <= i < n implies t.contains(#[trigger] kept_of(c, reached, reached[i])) by {
            if i == n - 1 {
                assert(t[p] == x);
            } else {
                let y = kept_of(c, reached, reached[i]);
                assert(s.contains(y));
                let q = choose|q: int| 0 <= q < s.len() && s[q] == y;
                if q < p {
                    assert(t[q] == y);
                } else {
                    assert(t[q + 1] == y);
                }
            }
        }
        assert forall|m: int| 0 <= m < n implies exists|i: int|
            0 <= i < n && #[trigger] t[m] == kept_of(c, reached, reached[i]) by {
            if m == p {
                assert(t[m] == kept_of(c, reached, reached[n - 1]));
            } else if m < p {
                assert(t[m] == s[m]);
                let i = choose|i: int| 0 <= i < n - 1 && s[m] == kept_of(c, reached, reached[i]);
                assert(t[m] == kept_of(c, reached, reached[i]));
            } else {
                assert(t[m] == s[m - 1]);
                let i = choose|i: int| 0 <= i < n - 1 && s[m - 1] == kept_of(c, reached, reached[i]);
                assert(t[m] == kept_of(c, reached, reached[i]));
            }
        }
    }
}

/// [`insert_at`] gives a place within the sequence.
proof fn lemma_insert_at(
    c: Seq<LinksView>,
    s: Seq<(int, Seq<bool>, Seq<bool>)>,
    x: (int, Seq<bool>, Seq<bool>),
    i: int,
)
    requires
        0 <= i <= s.len(),
    ensures
        i <= insert_at(c, s, x, i) <= s.len(),
    decreases s.len() - i,
{
    if i < s.len() && !key_gt(zam_key(c[s[i].0].0), zam_key(c[x.0].0)) {
        lemma_insert_at(c, s, x, i + 1);
    }
}

/// The chain a reduction leaves is closed: every kept decay mode or
/// reaction that leads to a nuclide leads to one that is kept.
pub proof fn lemma_reduced_chain_is_closed(c: Seq<LinksView>, initial: Seq<Seq<char>>, level: Option<int>)
    ensures
        ({
            let out = reduce_spec(c, initial, level);
            &&& forall|m: int, j: int|
                0 <= m < out.len() && 0 <= j < out[m].1.len() && #[trigger] out[m].1[j] && c[out[m].0].1[j] is Some
                    ==> exists|m2: int| 0 <= m2 < out.len() && c[out[m2].0].0 == c[out[m].0].1[j]->0
            &&& forall|m: int, j: int|
                0 <= m < out.len() && 0 <= j < out[m].2.len() && #[trigger] out[m].2[j] && c[out[m].0].2[j] is Some
                    ==> exists|m2: int| 0 <= m2 < out.len() && c[out[m2].0].0 == c[out[m].0].2[j]->0
        }),
{
    let reached = walk(c, Seq::empty(), initial, 0, level);
    lemma_walk_in_chain(c, Seq::empty(), initial, 0, level);
    let n = reached.len() as int;
    lemma_sorted_kept_members(c, reached, n);
    let out = reduce_spec(c, initial, level);
    assert(out == sorted_kept(c, reached, n));
    // A reached name stands for a kept nuclide of that name.
    assert forall|t: Seq<char>| reached.contains(t) implies exists|m2: int|
        0 <= m2 < out.len() && c[out[m2].0].0 == t by {
        let i = choose|i: int| 0 <= i < reached.len() && reached[i] == t;
        assert(find_from(c, reached[i], 0) is Some);
        lemma_find_from(c, t, 0);
        let y = kept_of(c, reached, reached[i]);
        assert(out.contains(y));
        let m2 = choose|m2: int| 0 <= m2 < out.len() && out[m2] == y;
        assert(c[out[m2].0].0 == t);
    }
    assert forall|m: int, j: int|
        0 <= m < out.len() && 0 <= j < out[m].1.len() && #[trigger] out[m].1[j] && c[out[m].0].1[j] is Some
            implies exists|m2: int| 0 <= m2 < out.len() && c[out[m2].0].0 == c[out[m].0].1[j]->0 by {
        let i = choose|i: int| 0 <= i < n && out[m] == kept_of(c, reached, reached[i]);
        assert(reached.contains(c[out[m].0].1[j]->0));
    }
    assert forall|m: int, j: int|
        0 <= m < out.len() && 0 <= j < out[m].2.len() && #[trigger] out[m].2[j] && c[out[m].0].2[j] is Some
            implies exists|m2: int| 0 <= m2 < out.len() && c[out[m2].0].0 == c[out[m].0].2[j]->0 by {
        let i = choose|i: int| 0 <= i < n && out[m] == kept_of(c, reached, reached[i]);
        assert(reached.contains(c[out[m].0].2[j]->0));
    }
}


/// Whether no name occurs twice.
pub open spec fn names_distinct(names: Seq<Seq<char>>) -> bool {
    forall|i: int, j: int| 0 <= i < j < names.len() ==> names[i] != names[j]
}

/// A step reaches each name at most once.
proof fn lemma_step_distinct(
    c: Seq<LinksView>,
    reached: Seq<Seq<char>>,
    frontier: Seq<Seq<char>>,
    i: int,
    next: Seq<Seq<char>>,
)
    requires
        0 <= i <= frontier.len(),
        names_distinct(reached),
    ensures
        names_distinct(step(c, reached, frontier, i, next).0),
    decreases frontier.len() - i,
{
    if i < frontier.len() {
        let n = frontier[i];
        if reached.contains(n) || find_from(c, n, 0) is None {
            lemma_step_distinct(c, reached, frontier, i + 1, next);
        } else {
            let r2 = reached.push(n);
            assert forall|a: int, b: int| 0 <= a < b < r2.len() implies r2[a] != r2[b] by {
                if b == reached.len() {
                    assert(r2[a] == reached[a]);
                }
            }
            lemma_step_distinct(c, r2, frontier, i + 1, next + targets_of(c[find_from(c, n, 0)->0]));
        }
    }
}

/// The walk reaches each name at most once.
proof fn lemma_walk_distinct(
    c: Seq<LinksView>,
    reached: Seq<Seq<char>>,
    frontier: Seq<Seq<char>>,
    depth: int,
    level: Option<int>,
)
    requires
        names_distinct(reached),
    ensures
        names_distinct(walk(c, reached, frontier, depth, level)),
    decreases walk_measure(c, reached, frontier),
{
    if !(frontier.len() == 0 || (level matches Some(l) && depth > l)) {
        let (r2, next) = step(c, reached, frontier, 0, Seq::empty());
        lemma_step(c, reached, frontier, 0, Seq::empty());
        lemma_not_reached_shrinks(c, reached, r2, c.len() as int);
        lemma_step_distinct(c, reached, frontier, 0, Seq::empty());
        lemma_walk_distinct(c, r2, next, depth + 1, level);
    }
}

/// The walk keeps every name it had reached.
proof fn lemma_walk_grows(
    c: Seq<LinksView>,
    reached: Seq<Seq<char>>,
    frontier: Seq<Seq<char>>,
    depth: int,
    level: Option<int>,
)
    ensures
        forall|x: Seq<char>| reached.contains(x) ==> walk(c, reached, frontier, depth, level).contains(x),
    decreases walk_measure(c, reached, frontier),
{
    if !(frontier.len() == 0 || (level matches Some(l) && depth > l)) {
        let (r2, next) = step(c, reached, frontier, 0, Seq::empty());
        lemma_step(c, reached, frontier, 0, Seq::empty());
        lemma_not_reached_shrinks(c, reached, r2, c.len() as int);
        lemma_walk_grows(c, r2, next, depth + 1, level);
    }
}

/// A step reaches every name of its frontier, from the `i`-th on, that the
/// chain holds.
proof fn lemma_step_reaches_frontier(
    c: Seq<LinksView>,
    reached: Seq<Seq<char>>,
    frontier: Seq<Seq<char>>,
    i: int,
    next: Seq<Seq<char>>,
)
    requires
        0 <= i <= frontier.len(),
    ensures
        forall|k: int|
            i <= k < frontier.len() && find_from(c, frontier[k], 0) is Some ==> #[trigger] step(
                c,
                reached,
                frontier,
                i,
                next,
            ).0.contains(frontier[k]),
        forall|x: Seq<char>| reached.contains(x) ==> step(c, reached, frontier, i, next).0.contains(x),
    decreases frontier.len() - i,
{
    lemma_step(c, reached, frontier, i, next);
    if i < frontier.len() {
        let n = frontier[i];
        if reached.contains(n) || find_from(c, n, 0) is None {
            lemma_step_reaches_frontier(c, reached, frontier, i + 1, next);
            assert(step(c, reached, frontier, i, next) == step(c, reached, frontier, i + 1, next));
        } else {
            let r2 = reached.push(n);
            let n2 = next + targets_of(c[find_from(c, n, 0)->0]);
            lemma_step_reaches_frontier(c, r2, frontier, i + 1, n2);
            assert(r2[reached.len() as int] == n);
            assert(r2.contains(n));
            assert(step(c, reached, frontier, i, next) == step(c, r2, frontier, i + 1, n2));
            assert forall|x: Seq<char>| reached.contains(x) implies r2.contains(x) by {
                let j = choose|j: int| 0 <= j < reached.len() && reached[j] == x;
                assert(r2[j] == x);
            }
        }
        let out = step(c, reached, frontier, i, next).0;
        assert forall|k: int| i <= k < frontier.len() && find_from(c, frontier[k], 0) is Some implies #[trigger] step(
            c,
            reached,
            frontier,
            i,
            next,
        ).0.contains(frontier[k]) by {
            if k == i && reached.contains(n) {
                assert(out.contains(n));
            }
        }
    }
}

/// The name of the nuclide a kept entry stands for.
pub open spec fn kept_name(c: Seq<LinksView>, k: (int, Seq<bool>, Seq<bool>)) -> Seq<char> {
    c[k.0].0
}

/// Where [`insert_at`] puts an entry: after each whose key is not greater,
/// before one whose key is.
proof fn lemma_insert_at_order(
    c: Seq<LinksView>,
    s: Seq<(int, Seq<bool>, Seq<bool>)>,
    x: (int, Seq<bool>, Seq<bool>),
    i: int,
)
    requires
        0 <= i <= s.len(),
    ensures
        forall|j: int| i <= j < insert_at(c, s, x, i) ==> !key_gt(zam_key(c[s[j].0].0), zam_key(c[x.0].0)),
        insert_at(c, s, x, i) < s.len() ==> key_gt(zam_key(c[s[insert_at(c, s, x, i)].0].0), zam_key(c[x.0].0)),
    decreases s.len() - i,
{
    if i < s.len() && !key_gt(zam_key(c[s[i].0].0), zam_key(c[x.0].0)) {
        lemma_insert_at_order(c, s, x, i + 1);
    }
}

/// Each kept entry names one of the first `n` reached names.
proof fn lemma_sorted_kept_names(c: Seq<LinksView>, reached: Seq<Seq<char>>, n: int)
    requires
        0 <= n <= reached.len(),
        all_in_chain(c, reached),
    ensures
        forall|m: int|
            0 <= m < n ==> exists|i: int|
                0 <= i < n && kept_name(c, #[trigger] sorted_kept(c, reached, n)[m]) == reached[i],
{
    lemma_sorted_kept_members(c, reached, n);
    assert forall|m: int| 0 <= m < n implies exists|i: int|
        0 <= i < n && kept_name(c, #[trigger] sorted_kept(c, reached, n)[m]) == reached[i] by {
        let i = choose|i: int| 0 <= i < n && sorted_kept(c, reached, n)[m] == kept_of(c, reached, reached[i]);
        assert(find_from(c, reached[i], 0) is Some);
        lemma_find_from(c, reached[i], 0);
    }
}

/// The kept entries come sorted by key.
proof fn lemma_sorted_kept_sorted(c: Seq<LinksView>, reached: Seq<Seq<char>>, n: int)
    requires
        0 <= n <= reached.len(),
    ensures
        forall|a: int, b: int|
            0 <= a < b < n ==> !key_gt(
                zam_key(kept_name(c, #[trigger] sorted_kept(c, reached, n)[a])),
                zam_key(kept_name(c, #[trigger] sorted_kept(c, reached, n)[b])),
            ),
    decreases n,
{
    lemma_sorted_kept_members(c, reached, n);
    if n > 0 {
        lemma_sorted_kept_sorted(c, reached, n - 1);
        let s = sorted_kept(c, reached, n - 1);
        let x = kept_of(c, reached, reached[n - 1]);
        let p = insert_at(c, s, x, 0);
        lemma_insert_at(c, s, x, 0);
        lemma_insert_at_order(c, s, x, 0);
        let t = s.insert(p, x);
        assert(t == sorted_kept(c, reached, n));
        s.insert_ensures(p, x);
        assert forall|a: int, b: int| 0 <= a < b < n implies !key_gt(
            zam_key(kept_name(c, #[trigger] t[a])),
            zam_key(kept_name(c, #[trigger] t[b])),
        ) by {
            if b < p {
                assert(t[a] == s[a] && t[b] == s[b]);
            } else if b == p {
                assert(t[a] == s[a]);
            } else if a < p {
                assert(t[a] == s[a] && t[b] == s[b - 1]);
            } else if a == p {
                assert(t[b] == s[b - 1]);
                if b - 1 > p {
                    assert(!key_gt(zam_key(kept_name(c, s[p])), zam_key(kept_name(c, s[b - 1]))));
                }
            } else {
                assert(t[a] == s[a - 1] && t[b] == s[b - 1]);
            }
        }
    }
}

/// The kept entries name each reached name once.
proof fn lemma_sorted_kept_distinct(c: Seq<LinksView>, reached: Seq<Seq<char>>, n: int)
    requires
        0 <= n <= reached.len(),
        names_distinct(reached),
        all_in_chain(c, reached),
    ensures
        forall|a: int, b: int|
            0 <= a < b < n ==> kept_name(c, #[trigger] sorted_kept(c, reached, n)[a]) != kept_name(
                c,
                #[trigger] sorted_kept(c, reached, n)[b],
            ),
    decreases n,
{
    lemma_sorted_kept_members(c, reached, n);
    if n > 0 {
        lemma_sorted_kept_distinct(c, reached, n - 1);
        lemma_sorted_kept_names(c, reached, n - 1);
        let s = sorted_kept(c, reached, n - 1);
        let x = kept_of(c, reached, reached[n - 1]);
        let p = insert_at(c, s, x, 0);
        lemma_insert_at(c, s, x, 0);
        let t = s.insert(p, x);
        assert(t == sorted_kept(c, reached, n));
        s.insert_ensures(p, x);
        assert(find_from(c, reached[n - 1], 0) is Some);
        lemma_find_from(c, reached[n - 1], 0);
        assert(kept_name(c, x) == reached[n - 1]);
        assert forall|a: int, b: int| 0 <= a < b < n implies kept_name(c, #[trigger] t[a]) != kept_name(
            c,
            #[trigger] t[b],
        ) by {
            if b < p {
                assert(t[a] == s[a] && t[b] == s[b]);
            } else if b == p {
                assert(t[a] == s[a]);
                let i = choose|i: int| 0 <= i < n - 1 && kept_name(c, s[a]) == reached[i];
            } else if a < p {
                assert(t[a] == s[a] && t[b] == s[b - 1]);
            } else if a == p {
                assert(t[b] == s[b - 1]);
                let i = choose|i: int| 0 <= i < n - 1 && kept_name(c, s[b - 1]) == reached[i];
            } else {
                assert(t[a] == s[a - 1] && t[b] == s[b - 1]);
            }
        }
    }
}

/// What a reduced chain holds: each nuclide once, sorted by `(Z, A,
/// state)` (a name that is no nuclide's counting as zeros), every one of
/// them named by the chain, and every starting name the chain holds among
/// them.
pub proof fn lemma_reduced_chain_contents(c: Seq<LinksView>, initial: Seq<Seq<char>>, level: Option<int>)
    requires
        level matches Some(l) ==> l >= 0,
    ensures
        ({
            let out = reduce_spec(c, initial, level);
            &&& forall|a: int, b: int|
                0 <= a < b < out.len() ==> !key_gt(
                    zam_key(kept_name(c, #[trigger] out[a])),
                    zam_key(kept_name(c, #[trigger] out[b])),
                ) && kept_name(c, out[a]) != kept_name(c, out[b])
            &&& forall|m: int| 0 <= m < out.len() ==> find_from(c, kept_name(c, #[trigger] out[m]), 0) == Some(out[m].0)
            &&& forall|k: int|
                0 <= k < initial.len() && find_from(c, initial[k], 0) is Some ==> exists|m: int|
                    0 <= m < out.len() && kept_name(c, out[m]) == #[trigger] initial[k]
        }),
{
    let reached = walk(c, Seq::empty(), initial, 0, level);
    let n = reached.len() as int;
    lemma_walk_in_chain(c, Seq::empty(), initial, 0, level);
    lemma_walk_distinct(c, Seq::empty(), initial, 0, level);
    lemma_sorted_kept_sorted(c, reached, n);
    lemma_sorted_kept_distinct(c, reached, n);
    lemma_sorted_kept_members(c, reached, n);
    let out = reduce_spec(c, initial, level);
    assert(out == sorted_kept(c, reached, n));
    assert forall|m: int| 0 <= m < out.len() implies find_from(c, kept_name(c, #[trigger] out[m]), 0) == Some(out[m].0) by {
        let i = choose|i: int| 0 <= i < n && out[m] == kept_of(c, reached, reached[i]);
        assert(find_from(c, reached[i], 0) is Some);
        lemma_find_from(c, reached[i], 0);
    }
    if initial.len() > 0 {
        let (r2, next) = step(c, Seq::empty(), initial, 0, Seq::empty());
        lemma_step_reaches_frontier(c, Seq::empty(), initial, 0, Seq::empty());
        lemma_step(c, Seq::empty(), initial, 0, Seq::empty());
        lemma_not_reached_shrinks(c, Seq::empty(), r2, c.len() as int);
        lemma_walk_grows(c, r2, next, 1, level);
        assert(reached == walk(c, r2, next, 1, level));
    }
    assert forall|k: int| 0 <= k < initial.len() && find_from(c, initial[k], 0) is Some implies exists|m: int|
        0 <= m < out.len() && kept_name(c, out[m]) == #[trigger] initial[k] by {
        let t = initial[k];
        assert(step(c, Seq::empty(), initial, 0, Seq::empty()).0.contains(t));
        assert(reached.contains(t));
        let i = choose|i: int| 0 <= i < reached.len() && reached[i] == t;
        let y = kept_of(c, reached, reached[i]);
        assert(out.contains(y));
        let m = choose|m: int| 0 <= m < out.len() && out[m] == y;
        lemma_find_from(c, t, 0);
        assert(kept_name(c, out[m]) == t);
    }
}


/// Two reached names stand for the same kept entry only where they are the
/// same name.
proof fn lemma_kept_of_injective(c: Seq<LinksView>, reached: Seq<Seq<char>>, i: int, j: int)
    requires
        0 <= i < reached.len(),
        0 <= j < reached.len(),
        all_in_chain(c, reached),
        names_distinct(reached),
        kept_of(c, reached, reached[i]) == kept_of(c, reached, reached[j]),
    ensures
        i == j,
{
    assert(find_from(c, reached[i], 0) is Some);
    assert(find_from(c, reached[j], 0) is Some);
    lemma_find_from(c, reached[i], 0);
    lemma_find_from(c, reached[j], 0);
    if i < j {
        assert(reached[i] != reached[j]);
    } else if j < i {
        assert(reached[j] != reached[i]);
    }
}

/// A reached name is at one place of the walk only.
proof fn lemma_reached_once(reached: Seq<Seq<char>>, i: int, j: int)
    requires
        names_distinct(reached),
        0 <= i < reached.len(),
        0 <= j < reached.len(),
        reached[i] == reached[j],
    ensures
        i == j,
{
    if i < j {
        assert(reached[i] != reached[j]);
    } else if j < i {
        assert(reached[j] != reached[i]);
    }
}

/// Entries of equal key stay in the order their names were reached.
proof fn lemma_sorted_kept_stable(c: Seq<LinksView>, reached: Seq<Seq<char>>, n: int)
    requires
        0 <= n <= reached.len(),
        names_distinct(reached),
        all_in_chain(c, reached),
    ensures
        forall|a: int, b: int, i: int, j: int|
            #![trigger sorted_kept(c, reached, n)[a], sorted_kept(c, reached, n)[b], reached[i], reached[j]]
            0 <= a < b < n && 0 <= i < n && 0 <= j < n && kept_name(c, sorted_kept(c, reached, n)[a]) == reached[i]
                && kept_name(c, sorted_kept(c, reached, n)[b]) == reached[j] && zam_key(
                kept_name(c, sorted_kept(c, reached, n)[a]),
            ) == zam_key(kept_name(c, sorted_kept(c, reached, n)[b])) ==> i < j,
    decreases n,
{
    lemma_sorted_kept_members(c, reached, n);
    if n > 0 {
        lemma_sorted_kept_stable(c, reached, n - 1);
        lemma_sorted_kept_names(c, reached, n - 1);
        lemma_sorted_kept_sorted(c, reached, n - 1);
        let s = sorted_kept(c, reached, n - 1);
        let x = kept_of(c, reached, reached[n - 1]);
        let p = insert_at(c, s, x, 0);
        lemma_insert_at(c, s, x, 0);
        lemma_insert_at_order(c, s, x, 0);
        let t = s.insert(p, x);
        assert(t == sorted_kept(c, reached, n));
        s.insert_ensures(p, x);
        assert(find_from(c, reached[n - 1], 0) is Some);
        lemma_find_from(c, reached[n - 1], 0);
        assert(kept_name(c, x) == reached[n - 1]);
        // An entry of `s` names a name reached before the last.
        assert forall|m: int, i: int| #![trigger s[m], reached[i]] 0 <= m < s.len() && 0 <= i < n && kept_name(c, s[m]) == reached[i] implies i
            < n - 1 by {
            let i0 = choose|i0: int| 0 <= i0 < n - 1 && kept_name(c, s[m]) == reached[i0];
            lemma_reached_once(reached, i, i0);
        }
        assert forall|a: int, b: int, i: int, j: int|
            #![trigger t[a], t[b], reached[i], reached[j]]
            0 <= a < b < n && 0 <= i < n && 0 <= j < n && kept_name(c, t[a]) == reached[i] && kept_name(c, t[b])
                == reached[j] && zam_key(kept_name(c, t[a])) == zam_key(kept_name(c, t[b])) implies i < j by {
            if b < p {
                assert(t[a] == s[a] && t[b] == s[b]);
                assert(i < n - 1 && j < n - 1);
            } else if b == p {
                assert(t[a] == s[a]);
                assert(i < n - 1);
                lemma_reached_once(reached, j, n - 1);
            } else if a < p {
                assert(t[a] == s[a] && t[b] == s[b - 1]);
                assert(i < n - 1 && j < n - 1);
            } else if a == p {
                assert(t[b] == s[b - 1]);
                if b - 1 > p {
                    assert(!key_gt(zam_key(kept_name(c, s[p])), zam_key(kept_name(c, s[b - 1]))));
                }
                assert(key_gt(zam_key(c[s[p].0].0), zam_key(c[x.0].0)));
            } else {
                assert(t[a] == s[a - 1] && t[b] == s[b - 1]);
                assert(i < n - 1 && j < n - 1);
            }
        }
    }
}

/// What a reduced chain keeps of each nuclide: each of its decay modes and
/// reactions stays exactly when it leads nowhere or to a nuclide of the
/// reduced chain. And nuclides of equal `(Z, A, state)` key stay in the
/// order in which the walk from the starting names reached them.
pub proof fn lemma_reduced_chain_paths(c: Seq<LinksView>, initial: Seq<Seq<char>>, level: Option<int>)
    ensures
        ({
            let out = reduce_spec(c, initial, level);
            let reached = walk(c, Seq::empty(), initial, 0, level);
            &&& forall|m: int| 0 <= m < out.len() ==> (#[trigger] out[m]).1.len() == c[out[m].0].1.len() && out[m].2.len()
                == c[out[m].0].2.len()
            &&& forall|m: int, j: int|
                0 <= m < out.len() && 0 <= j < out[m].1.len() ==> (#[trigger] out[m].1[j] <==> match c[out[m].0].1[j] {
                    None => true,
                    Some(t) => exists|m2: int| 0 <= m2 < out.len() && kept_name(c, out[m2]) == t,
                })
            &&& forall|m: int, j: int|
                0 <= m < out.len() && 0 <= j < out[m].2.len() ==> (#[trigger] out[m].2[j] <==> match c[out[m].0].2[j] {
                    None => true,
                    Some(t) => exists|m2: int| 0 <= m2 < out.len() && kept_name(c, out[m2]) == t,
                })
            &&& forall|a: int, b: int, i: int, j: int|
                #![trigger out[a], out[b], reached[i], reached[j]]
                0 <= a < b < out.len() && 0 <= i < reached.len() && 0 <= j < reached.len() && kept_name(c, out[a])
                    == reached[i] && kept_name(c, out[b]) == reached[j] && zam_key(kept_name(c, out[a]))
                    == zam_key(kept_name(c, out[b])) ==> i < j
        }),
{
    let reached = walk(c, Seq::empty(), initial, 0, level);
    let n = reached.len() as int;
    lemma_walk_in_chain(c, Seq::empty(), initial, 0, level);
    lemma_walk_distinct(c, Seq::empty(), initial, 0, level);
    lemma_sorted_kept_members(c, reached, n);
    lemma_sorted_kept_stable(c, reached, n);
    let out = reduce_spec(c, initial, level);
    assert(out == sorted_kept(c, reached, n));
    // A name is reached exactly when an entry of the reduced chain has it.
    assert forall|t: Seq<char>| reached.contains(t) <==> exists|m2: int| 0 <= m2 < out.len() && kept_name(c, out[m2]) == t by {
        if reached.contains(t) {
            let i = choose|i: int| 0 <= i < n && reached[i] == t;
            assert(find_from(c, reached[i], 0) is Some);
            lemma_find_from(c, t, 0);
            let y = kept_of(c, reached, reached[i]);
            assert(out.contains(y));
            let m2 = choose|m2: int| 0 <= m2 < out.len() && out[m2] == y;
            assert(kept_name(c, out[m2]) == t);
        }
        if exists|m2: int| 0 <= m2 < out.len() && kept_name(c, out[m2]) == t {
            let m2 = choose|m2: int| 0 <= m2 < out.len() && kept_name(c, out[m2]) == t;
            let i = choose|i: int| 0 <= i < n && out[m2] == kept_of(c, reached, reached[i]);
            assert(find_from(c, reached[i], 0) is Some);
            lemma_find_from(c, reached[i], 0);
            assert(reached[i] == t);
        }
    }
    assert forall|a: int, b: int, i: int, j: int|
        #![trigger out[a], out[b], reached[i], reached[j]]
        0 <= a < b < out.len() && 0 <= i < reached.len() && 0 <= j < reached.len() && kept_name(c, out[a])
            == reached[i] && kept_name(c, out[b]) == reached[j] && zam_key(kept_name(c, out[a])) == zam_key(
            kept_name(c, out[b]),
        ) implies i < j by {
        assert(out[a] == sorted_kept(c, reached, n)[a]);
        assert(out[b] == sorted_kept(c, reached, n)[b]);
    }
}


/// A target a list of paths names is among its targets.
proof fn lemma_somes_contains(t: Seq<Option<Seq<char>>>, j: int)
    requires
        0 <= j < t.len(),
        t[j] is Some,
    ensures
        somes(t).contains(t[j]->0),
    decreases t.len(),
{
    let s = somes(t.drop_last());
    if j == t.len() - 1 {
        assert(somes(t) == s + seq![t[j]->0]);
        assert(somes(t)[s.len() as int] == t[j]->0);
    } else {
        lemma_somes_contains(t.drop_last(), j);
        assert(t.drop_last()[j] == t[j]);
        let k = choose|k: int| 0 <= k < s.len() && s[k] == t[j]->0;
        assert(somes(t)[k] == s[k]);
    }
}

/// Whether every target of a reached nuclide that the chain holds is
/// reached or waiting in the frontier.
pub open spec fn closed_but_for(c: Seq<LinksView>, reached: Seq<Seq<char>>, frontier: Seq<Seq<char>>) -> bool {
    forall|x: Seq<char>, t: Seq<char>|
        #![trigger reached.contains(x), targets_of(c[find_from(c, x, 0)->0]).contains(t)]
        reached.contains(x) && find_from(c, x, 0) is Some && targets_of(c[find_from(c, x, 0)->0]).contains(t)
            && find_from(c, t, 0) is Some ==> reached.contains(t) || frontier.contains(t)
}

/// A step keeps the next frontier it had, and puts there the targets of
/// every name it newly reaches.
proof fn lemma_step_next(
    c: Seq<LinksView>,
    reached: Seq<Seq<char>>,
    frontier: Seq<Seq<char>>,
    i: int,
    next: Seq<Seq<char>>,
)
    requires
        0 <= i <= frontier.len(),
    ensures
        forall|y: Seq<char>| next.contains(y) ==> step(c, reached, frontier, i, next).1.contains(y),
        forall|x: Seq<char>, t: Seq<char>|
            step(c, reached, frontier, i, next).0.contains(x) && !reached.contains(x) && targets_of(
                c[find_from(c, x, 0)->0],
            ).contains(t) ==> step(c, reached, frontier, i, next).1.contains(t),
        forall|x: Seq<char>|
            step(c, reached, frontier, i, next).0.contains(x) && !reached.contains(x) ==> find_from(c, x, 0) is Some,
    decreases frontier.len() - i,
{
    if i < frontier.len() {
        let n = frontier[i];
        if reached.contains(n) || find_from(c, n, 0) is None {
            lemma_step_next(c, reached, frontier, i + 1, next);
        } else {
            let r2 = reached.push(n);
            let n2 = next + targets_of(c[find_from(c, n, 0)->0]);
            lemma_step_next(c, r2, frontier, i + 1, n2);
            let out = step(c, reached, frontier, i, next);
            assert(out == step(c, r2, frontier, i + 1, n2));
            assert forall|y: Seq<char>| next.contains(y) implies out.1.contains(y) by {
                let k = choose|k: int| 0 <= k < next.len() && next[k] == y;
                assert(n2[k] == y);
                assert(n2.contains(y));
            }
            assert forall|y: Seq<char>| targets_of(c[find_from(c, n, 0)->0]).contains(y) implies out.1.contains(y) by {
                let tg = targets_of(c[find_from(c, n, 0)->0]);
                let k = choose|k: int| 0 <= k < tg.len() && tg[k] == y;
                assert(n2[next.len() + k] == y);
                assert(n2.contains(y));
            }
            assert forall|x: Seq<char>| reached.contains(x) implies r2.contains(x) by {
                let k = choose|k: int| 0 <= k < reached.len() && reached[k] == x;
                assert(r2[k] == x);
            }
            assert forall|x: Seq<char>| !reached.contains(x) && r2.contains(x) implies x == n by {
                let k = choose|k: int| 0 <= k < r2.len() && r2[k] == x;
                if k < reached.len() {
                    assert(reached[k] == x);
                }
            }
        }
    }
}

/// A step keeps the chain closed but for what waits in its next frontier.
proof fn lemma_step_closed(c: Seq<LinksView>, reached: Seq<Seq<char>>, frontier: Seq<Seq<char>>)
    requires
        closed_but_for(c, reached, frontier),
    ensures
        closed_but_for(c, step(c, reached, frontier, 0, Seq::empty()).0, step(c, reached, frontier, 0, Seq::empty()).1),
{
    let (r2, next) = step(c, reached, frontier, 0, Seq::empty());
    lemma_step(c, reached, frontier, 0, Seq::empty());
    lemma_step_next(c, reached, frontier, 0, Seq::empty());
    lemma_step_reaches_frontier(c, reached, frontier, 0, Seq::empty());
    assert forall|x: Seq<char>, t: Seq<char>|
        #![trigger r2.contains(x), targets_of(c[find_from(c, x, 0)->0]).contains(t)]
        r2.contains(x) && find_from(c, x, 0) is Some && targets_of(c[find_from(c, x, 0)->0]).contains(t)
            && find_from(c, t, 0) is Some implies r2.contains(t) || next.contains(t) by {
        if reached.contains(x) {
            if frontier.contains(t) {
                let k = choose|k: int| 0 <= k < frontier.len() && frontier[k] == t;
                assert(step(c, reached, frontier, 0, Seq::empty()).0.contains(frontier[k]));
            }
        }
    }
}

/// With no bound on the steps, the walk ends closed: every target of a
/// reached nuclide that the chain holds is reached.
proof fn lemma_walk_closed(c: Seq<LinksView>, reached: Seq<Seq<char>>, frontier: Seq<Seq<char>>, depth: int)
    requires
        closed_but_for(c, reached, frontier),
    ensures
        closed_but_for(c, walk(c, reached, frontier, depth, None), Seq::empty()),
    decreases walk_measure(c, reached, frontier),
{
    if frontier.len() == 0 {
        assert forall|x: Seq<char>, t: Seq<char>|
            #![trigger reached.contains(x), targets_of(c[find_from(c, x, 0)->0]).contains(t)]
            reached.contains(x) && find_from(c, x, 0) is Some && targets_of(c[find_from(c, x, 0)->0]).contains(t)
                && find_from(c, t, 0) is Some implies reached.contains(t) || Seq::<Seq<char>>::empty().contains(t) by {
            assert(!frontier.contains(t));
        }
    } else {
        let (r2, next) = step(c, reached, frontier, 0, Seq::empty());
        lemma_step(c, reached, frontier, 0, Seq::empty());
        lemma_not_reached_shrinks(c, reached, r2, c.len() as int);
        lemma_step_closed(c, reached, frontier);
        lemma_walk_closed(c, r2, next, depth + 1);
    }
}

/// Reducing a chain with no bound on the steps keeps every nuclide the
/// kept ones lead to: for each kept nuclide, each target of its decay modes
/// and of its reactions that the chain holds is kept too.
pub proof fn lemma_unbounded_reduction_keeps_every_target(c: Seq<LinksView>, initial: Seq<Seq<char>>)
    ensures
        ({
            let out = reduce_spec(c, initial, None);
            &&& forall|m: int, j: int|
                0 <= m < out.len() && 0 <= j < c[out[m].0].1.len() && (#[trigger] c[out[m].0].1[j]) is Some && find_from(
                    c,
                    c[out[m].0].1[j]->0,
                    0,
                ) is Some ==> exists|m2: int| 0 <= m2 < out.len() && kept_name(c, out[m2]) == c[out[m].0].1[j]->0
            &&& forall|m: int, j: int|
                0 <= m < out.len() && 0 <= j < c[out[m].0].2.len() && (#[trigger] c[out[m].0].2[j]) is Some && find_from(
                    c,
                    c[out[m].0].2[j]->0,
                    0,
                ) is Some ==> exists|m2: int| 0 <= m2 < out.len() && kept_name(c, out[m2]) == c[out[m].0].2[j]->0
        }),
{
    let reached = walk(c, Seq::empty(), initial, 0, None);
    let n = reached.len() as int;
    lemma_walk_in_chain(c, Seq::empty(), initial, 0, None);
    lemma_walk_closed(c, Seq::empty(), initial, 0);
    lemma_sorted_kept_members(c, reached, n);
    let out = reduce_spec(c, initial, None);
    assert(out == sorted_kept(c, reached, n));
    // A reached name is that of a kept entry.
    assert forall|t: Seq<char>| reached.contains(t) implies exists|m2: int| 0 <= m2 < out.len() && kept_name(c, out[m2]) == t by {
        let i = choose|i: int| 0 <= i < n && reached[i] == t;
        assert(find_from(c, reached[i], 0) is Some);
        lemma_find_from(c, t, 0);
        let y = kept_of(c, reached, reached[i]);
        assert(out.contains(y));
        let m2 = choose|m2: int| 0 <= m2 < out.len() && out[m2] == y;
        assert(kept_name(c, out[m2]) == t);
    }
    // A kept entry stands for a reached name, at the chain's first nuclide
    // of that name.
    assert forall|m: int| 0 <= m < out.len() implies reached.contains(kept_name(c, #[trigger] out[m]))
        && find_from(c, kept_name(c, out[m]), 0) == Some(out[m].0) by {
        let i = choose|i: int| 0 <= i < n && out[m] == kept_of(c, reached, reached[i]);
        assert(find_from(c, reached[i], 0) is Some);
        lemma_find_from(c, reached[i], 0);
        assert(reached[i] == kept_name(c, out[m]));
    }
    assert forall|m: int, j: int|
        0 <= m < out.len() && 0 <= j < c[out[m].0].1.len() && (#[trigger] c[out[m].0].1[j]) is Some && find_from(
            c,
            c[out[m].0].1[j]->0,
            0,
        ) is Some implies exists|m2: int| 0 <= m2 < out.len() && kept_name(c, out[m2]) == c[out[m].0].1[j]->0 by {
        let x = kept_name(c, out[m]);
        let k = out[m].0;
        let t = c[k].1[j]->0;
        lemma_somes_contains(c[k].1, j);
        let tg = targets_of(c[k]);
        assert(tg == somes(c[k].1) + somes(c[k].2));
        let q = choose|q: int| 0 <= q < somes(c[k].1).len() && somes(c[k].1)[q] == t;
        assert(tg[q] == t);
        assert(targets_of(c[find_from(c, x, 0)->0]).contains(t));
        assert(reached.contains(x));
        assert(reached.contains(t));
    }
    assert forall|m: int, j: int|
        0 <= m < out.len() && 0 <= j < c[out[m].0].2.len() && (#[trigger] c[out[m].0].2[j]) is Some && find_from(
            c,
            c[out[m].0].2[j]->0,
            0,
        ) is Some implies exists|m2: int| 0 <= m2 < out.len() && kept_name(c, out[m2]) == c[out[m].0].2[j]->0 by {
        let x = kept_name(c, out[m]);
        let k = out[m].0;
        let t = c[k].2[j]->0;
        lemma_somes_contains(c[k].2, j);
        let tg = targets_of(c[k]);
        let d = somes(c[k].1);
        assert(tg == d + somes(c[k].2));
        let q = choose|q: int| 0 <= q < somes(c[k].2).len() && somes(c[k].2)[q] == t;
        assert(tg[d.len() + q] == t);
        assert(targets_of(c[find_from(c, x, 0)->0]).contains(t));
        assert(reached.contains(x));
        assert(reached.contains(t));
    }
}


/// A step reaches only names it had or names of its frontier.
proof fn lemma_step_within(
    c: Seq<LinksView>,
    reached: Seq<Seq<char>>,
    frontier: Seq<Seq<char>>,
    i: int,
    next: Seq<Seq<char>>,
)
    requires
        0 <= i <= frontier.len(),
    ensures
        forall|x: Seq<char>|
            #[trigger] step(c, reached, frontier, i, next).0.contains(x) ==> reached.contains(x) || frontier.contains(x),
    decreases frontier.len() - i,
{
    if i < frontier.len() {
        let n = frontier[i];
        if reached.contains(n) || find_from(c, n, 0) is None {
            lemma_step_within(c, reached, frontier, i + 1, next);
            assert(step(c, reached, frontier, i, next) == step(c, reached, frontier, i + 1, next));
        } else {
            let r2 = reached.push(n);
            let n2 = next + targets_of(c[find_from(c, n, 0)->0]);
            lemma_step_within(c, r2, frontier, i + 1, n2);
            assert(step(c, reached, frontier, i, next) == step(c, r2, frontier, i + 1, n2));
            assert forall|x: Seq<char>| r2.contains(x) implies reached.contains(x) || frontier.contains(x) by {
                let k = choose|k: int| 0 <= k < r2.len() && r2[k] == x;
                if k < reached.len() {
                    assert(reached[k] == x);
                } else {
                    assert(frontier[i] == x);
                }
            }
            assert forall|x: Seq<char>| #[trigger] step(c, reached, frontier, i, next).0.contains(x) implies reached.contains(x)
                || frontier.contains(x) by {
                assert(step(c, r2, frontier, i + 1, n2).0.contains(x));
            }
        }
    }
}

/// Reducing a chain by zero steps keeps the starting nuclides alone: every
/// kept nuclide is one of the starting names.
pub proof fn lemma_reduction_by_no_steps_keeps_the_start(c: Seq<LinksView>, initial: Seq<Seq<char>>)
    ensures
        forall|m: int|
            0 <= m < reduce_spec(c, initial, Some(0int)).len() ==> initial.contains(
                kept_name(c, #[trigger] reduce_spec(c, initial, Some(0int))[m]),
            ),
{
    let level = Some(0int);
    let reached = walk(c, Seq::empty(), initial, 0, level);
    let n = reached.len() as int;
    lemma_walk_in_chain(c, Seq::empty(), initial, 0, level);
    lemma_sorted_kept_members(c, reached, n);
    let out = reduce_spec(c, initial, level);
    assert(out == sorted_kept(c, reached, n));
    if initial.len() > 0 {
        let (r2, next) = step(c, Seq::empty(), initial, 0, Seq::empty());
        lemma_step(c, Seq::empty(), initial, 0, Seq::empty());
        lemma_not_reached_shrinks(c, Seq::empty(), r2, c.len() as int);
        lemma_step_within(c, Seq::empty(), initial, 0, Seq::empty());
        assert(reached == walk(c, r2, next, 1, level));
        assert(walk(c, r2, next, 1, level) == r2);
    }
    assert forall|m: int| 0 <= m < out.len() implies initial.contains(kept_name(c, #[trigger] out[m])) by {
        let i = choose|i: int| 0 <= i < n && out[m] == kept_of(c, reached, reached[i]);
        assert(find_from(c, reached[i], 0) is Some);
        lemma_find_from(c, reached[i], 0);
        assert(reached.contains(reached[i]));
        assert(!Seq::<Seq<char>>::empty().contains(reached[i]));
    }
}

} // verus!
