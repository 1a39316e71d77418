//! Names of the photon interaction channels.

use vstd::prelude::*;

use crate::text::{chars_eq, chars_of, string_from_chars};

verus! {

broadcast use vstd::string::group_string_axioms;

/// Atomic subshells, indexed by the designator the format uses. Index 0 is
/// unused and empty.
pub open spec fn subshell(d: int) -> Seq<char> {
    if d == 0 {
        Seq::<char>::empty()
    } else if d == 1 {
        seq!['K']
    } else if d == 2 {
        seq!['L', '1']
    } else if d == 3 {
        seq!['L', '2']
    } else if d == 4 {
        seq!['L', '3']
    } else if d == 5 {
        seq!['M', '1']
    } else if d == 6 {
        seq!['M', '2']
    } else if d == 7 {
        seq!['M', '3']
    } else if d == 8 {
        seq!['M', '4']
    } else if d == 9 {
        seq!['M', '5']
    } else if d == 10 {
        seq!['N', '1']
    } else if d == 11 {
        seq!['N', '2']
    } else if d == 12 {
        seq!['N', '3']
    } else if d == 13 {
        seq!['N', '4']
    } else if d == 14 {
        seq!['N', '5']
    } else if d == 15 {
        seq!['N', '6']
    } else if d == 16 {
        seq!['N', '7']
    } else if d == 17 {
        seq!['O', '1']
    } else if d == 18 {
        seq!['O', '2']
    } else if d == 19 {
        seq!['O', '3']
    } else if d == 20 {
        seq!['O', '4']
    } else if d == 21 {
        seq!['O', '5']
    } else if d == 22 {
        seq!['O', '6']
    } else if d == 23 {
        seq!['O', '7']
    } else if d == 24 {
        seq!['O', '8']
    } else if d == 25 {
        seq!['O', '9']
    } else if d == 26 {
        seq!['P', '1']
    } else if d == 27 {
        seq!['P', '2']
    } else if d == 28 {
        seq!['P', '3']
    } else if d == 29 {
        seq!['P', '4']
    } else if d == 30 {
        seq!['P', '5']
    } else if d == 31 {
        seq!['P', '6']
    } else if d == 32 {
        seq!['P', '7']
    } else if d == 33 {
        seq!['P', '8']
    } else if d == 34 {
        seq!['P', '9']
    } else if d == 35 {
        seq!['P', '1', '0']
    } else if d == 36 {
        seq!['P', '1', '1']
    } else if d == 37 {
        seq!['Q', '1']
    } else if d == 38 {
        seq!['Q', '2']
    } else if d == 39 {
        seq!['Q', '3']
    } else {
        Seq::empty()
    }
}

/// [`subshell`], computed.
fn subshell_exec(d: usize) -> (r: Vec<char>)
    requires
        d < 40,
    ensures
        r@ == subshell(d as int),
{
    match d {
        0 => Vec::new(),
        1 => vec!['K'],
        2 => vec!['L', '1'],
        3 => vec!['L', '2'],
        4 => vec!['L', '3'],
        5 => vec!['M', '1'],
        6 => vec!['M', '2'],
        7 => vec!['M', '3'],
        8 => vec!['M', '4'],
        9 => vec!['M', '5'],
        10 => vec!['N', '1'],
        11 => vec!['N', '2'],
        12 => vec!['N', '3'],
        13 => vec!['N', '4'],
        14 => vec!['N', '5'],
        15 => vec!['N', '6'],
        16 => vec!['N', '7'],
        17 => vec!['O', '1'],
        18 => vec!['O', '2'],
        19 => vec!['O', '3'],
        20 => vec!['O', '4'],
        21 => vec!['O', '5'],
        22 => vec!['O', '6'],
        23 => vec!['O', '7'],
        24 => vec!['O', '8'],
        25 => vec!['O', '9'],
        26 => vec!['P', '1'],
        27 => vec!['P', '2'],
        28 => vec!['P', '3'],
        29 => vec!['P', '4'],
        30 => vec!['P', '5'],
        31 => vec!['P', '6'],
        32 => vec!['P', '7'],
        33 => vec!['P', '8'],
        34 => vec!['P', '9'],
        35 => vec!['P', '1', '0'],
        36 => vec!['P', '1', '1'],
        37 => vec!['Q', '1'],
        38 => vec!['Q', '2'],
        39 => vec!['Q', '3'],
        _ => Vec::new(),
    }
}

/// The `i`-th of the photon reactions the format names outright: its MT and
/// its name. The subshell photoelectric reactions, MT=534 upward, are named
/// for their subshell.
pub open spec fn photon_base(i: int) -> (i32, Seq<char>) {
    if i == 0 {
        (501i32, seq!['t', 'o', 't', 'a', 'l'])
    } else if i == 1 {
        (502i32, seq!['c', 'o', 'h', 'e', 'r', 'e', 'n', 't'])
    } else if i == 2 {
        (504i32, seq!['i', 'n', 'c', 'o', 'h', 'e', 'r', 'e', 'n', 't'])
    } else if i == 3 {
        (515i32, seq!['p', 'a', 'i', 'r', '_', 'p', 'r', 'o', 'd', 'u', 'c', 't', 'i', 'o', 'n', '_', 'e', 'l', 'e', 'c', 't', 'r', 'o', 'n'])
    } else if i == 4 {
        (516i32, seq!['p', 'a', 'i', 'r', '_', 'p', 'r', 'o', 'd', 'u', 'c', 't', 'i', 'o', 'n', '_', 't', 'o', 't', 'a', 'l'])
    } else if i == 5 {
        (517i32, seq!['p', 'a', 'i', 'r', '_', 'p', 'r', 'o', 'd', 'u', 'c', 't', 'i', 'o', 'n', '_', 'n', 'u', 'c', 'l', 'e', 'a', 'r'])
    } else if i == 6 {
        (522i32, seq!['p', 'h', 'o', 't', 'o', 'e', 'l', 'e', 'c', 't', 'r', 'i', 'c'])
    } else if i == 7 {
        (525i32, seq!['h', 'e', 'a', 't', 'i', 'n', 'g'])
    } else if i == 8 {
        (526i32, seq!['e', 'l', 'e', 'c', 't', 'r', 'o', '_', 'a', 't', 'o', 'm', 'i', 'c', '_', 's', 'c', 'a', 't'])
    } else if i == 9 {
        (527i32, seq!['e', 'l', 'e', 'c', 't', 'r', 'o', '_', 'a', 't', 'o', 'm', 'i', 'c', '_', 'b', 'r', 'e', 'm'])
    } else if i == 10 {
        (528i32, seq!['e', 'l', 'e', 'c', 't', 'r', 'o', '_', 'a', 't', 'o', 'm', 'i', 'c', '_', 'e', 'x', 'c', 'i', 't'])
    } else {
        (0i32, Seq::empty())
    }
}

/// [`photon_base`], computed.
fn photon_base_exec(i: usize) -> (r: (i32, Vec<char>))
    requires
        i < 11,
    ensures
        r.0 == photon_base(i as int).0,
        r.1@ == photon_base(i as int).1,
{
    match i {
        0 => (501, vec!['t', 'o', 't', 'a', 'l']),
        1 => (502, vec!['c', 'o', 'h', 'e', 'r', 'e', 'n', 't']),
        2 => (504, vec!['i', 'n', 'c', 'o', 'h', 'e', 'r', 'e', 'n', 't']),
        3 => (515, vec!['p', 'a', 'i', 'r', '_', 'p', 'r', 'o', 'd', 'u', 'c', 't', 'i', 'o', 'n', '_', 'e', 'l', 'e', 'c', 't', 'r', 'o', 'n']),
        4 => (516, vec!['p', 'a', 'i', 'r', '_', 'p', 'r', 'o', 'd', 'u', 'c', 't', 'i', 'o', 'n', '_', 't', 'o', 't', 'a', 'l']),
        5 => (517, vec!['p', 'a', 'i', 'r', '_', 'p', 'r', 'o', 'd', 'u', 'c', 't', 'i', 'o', 'n', '_', 'n', 'u', 'c', 'l', 'e', 'a', 'r']),
        6 => (522, vec!['p', 'h', 'o', 't', 'o', 'e', 'l', 'e', 'c', 't', 'r', 'i', 'c']),
        7 => (525, vec!['h', 'e', 'a', 't', 'i', 'n', 'g']),
        8 => (526, vec!['e', 'l', 'e', 'c', 't', 'r', 'o', '_', 'a', 't', 'o', 'm', 'i', 'c', '_', 's', 'c', 'a', 't']),
        9 => (527, vec!['e', 'l', 'e', 'c', 't', 'r', 'o', '_', 'a', 't', 'o', 'm', 'i', 'c', '_', 'b', 'r', 'e', 'm']),
        10 => (528, vec!['e', 'l', 'e', 'c', 't', 'r', 'o', '_', 'a', 't', 'o', 'm', 'i', 'c', '_', 'e', 'x', 'c', 'i', 't']),
        _ => (0, Vec::new()),
    }
}

/// The name of the first photon reaction from the `i`-th on that the format
/// names outright with MT `mt`.
pub open spec fn photon_base_name(mt: i32, i: int) -> Option<Seq<char>>
    decreases 11 - i,
{
    if i < 0 || i >= 11 {
        None
    } else if photon_base(i).0 == mt {
        Some(photon_base(i).1)
    } else {
        photon_base_name(mt, i + 1)
    }
}

/// The name of a photon reaction: the format's own, or for MT = 533 + d the
/// subshell with designator d.
pub open spec fn photon_reaction_name_spec(mt: i32) -> Option<Seq<char>> {
    match photon_base_name(mt, 0) {
        Some(n) => Some(n),
        None => if 1 <= mt - 533 < 40 {
            Some(subshell(mt - 533))
        } else {
            None
        },
    }
}

/// The name of a photon reaction, e.g. `"coherent"` for MT=502 or `"K"` for
/// MT=534, the K-shell photoelectric cross section.
pub fn photon_reaction_name(mt: i32) -> (r: Option<String>)
    ensures
        r matches Some(s) ==> photon_reaction_name_spec(mt) == Some(s@),
        r is None ==> photon_reaction_name_spec(mt) is None,
{
    let mut i: usize = 0;
    while i < 11
        invariant
            i <= 11,
            photon_base_name(mt, 0) == photon_base_name(mt, i as int),
        decreases 11 - i,
    {
        let (m, name) = photon_base_exec(i);
        if m == mt {
            return Some(string_from_chars(&name));
        }
        i = i + 1;
    }
    // MT = 533 + designator.
    if mt >= 534 && mt < 573 {
        let d = (mt - 533) as usize;
        return Some(string_from_chars(&subshell_exec(d)));
    }
    None
}

/// The MT of the first photon reaction from the `i`-th on that the format
/// names outright `s`.
pub open spec fn photon_base_mt(s: Seq<char>, i: int) -> Option<i32>
    decreases 11 - i,
{
    if i < 0 || i >= 11 {
        None
    } else if photon_base(i).1 == s {
        Some(photon_base(i).0)
    } else {
        photon_base_mt(s, i + 1)
    }
}

/// The first designator from `d` on whose subshell is `s`, skipping the
/// empty zeroth entry.
pub open spec fn subshell_of(s: Seq<char>, d: int) -> Option<int>
    decreases 40 - d,
{
    if d < 0 || d >= 40 {
        None
    } else if subshell(d) == s && subshell(d).len() != 0 {
        Some(d)
    } else {
        subshell_of(s, d + 1)
    }
}

/// The MT a photon reaction name stands for.
pub open spec fn photon_reaction_mt_spec(s: Seq<char>) -> Option<i32> {
    match photon_base_mt(s, 0) {
        Some(mt) => Some(mt),
        None => match subshell_of(s, 0) {
            Some(d) => Some((533 + d) as i32),
            None => None,
        },
    }
}

/// The MT of a named photon reaction.
pub fn photon_reaction_mt(name: &str) -> (r: Option<i32>)
    ensures
        r == photon_reaction_mt_spec(name@),
{
    let v = chars_of(name);
    let ghost s = v@;
    let mut i: usize = 0;
    while i < 11
        invariant
            i <= 11,
            s == v@,
            s == name@,
            photon_base_mt(s, 0) == photon_base_mt(s, i as int),
        decreases 11 - i,
    {
        let (m, n) = photon_base_exec(i);
        if chars_eq(&n, &v) {
            return Some(m);
        }
        i = i + 1;
    }
    let mut d: usize = 0;
    while d < 40
        invariant
            d <= 40,
            s == v@,
            s == name@,
            photon_base_mt(s, 0) is None,
            subshell_of(s, 0) == subshell_of(s, d as int),
        decreases 40 - d,
    {
        let n = subshell_exec(d);
        if chars_eq(&n, &v) && n.len() != 0 {
            return Some((533 + d) as i32);
        }
        d = d + 1;
    }
    None
}

/// The first designator of the subshells of a shell, by the shell's letter.
pub open spec fn shell_start(c: char) -> int {
    if c == 'L' {
        2
    } else if c == 'M' {
        5
    } else if c == 'N' {
        10
    } else if c == 'O' {
        17
    } else if c == 'P' {
        26
    } else if c == 'Q' {
        37
    } else {
        -1
    }
}

/// `d` where `s` is the subshell with designator `d`, and `-1` otherwise.
pub open spec fn subshell_leaf(s: Seq<char>, d: int) -> int {
    if 1 <= d < 40 && s == subshell(d) {
        d
    } else {
        -1
    }
}

/// The designator a subshell's name spells: its shell's first designator
/// plus its number less one; `-1` for a name that is no subshell's.
pub open spec fn subshell_index(s: Seq<char>) -> int {
    if s.len() == 1 {
        subshell_leaf(s, 1)
    } else if s.len() == 2 && '1' <= s[1] <= '9' {
        subshell_leaf(s, shell_start(s[0]) + (s[1] as int - '1' as int))
    } else if s.len() == 3 && s[0] == 'P' && s[1] == '1' && (s[2] == '0' || s[2] == '1') {
        subshell_leaf(s, 35 + (s[2] as int - '0' as int))
    } else {
        -1
    }
}

/// Every subshell is found by [`subshell_index`], and is shorter than any
/// name the format gives outright.
proof fn lemma_subshell_index(d: int)
    requires
        1 <= d < 40,
    ensures
        subshell_index(subshell(d)) == d,
        1 <= subshell(d).len() <= 3,
{
}

/// The photon reactions the format names outright have distinct names of
/// five characters or more.
proof fn lemma_photon_base_names(i: int, j: int)
    requires
        0 <= i < 11,
        0 <= j < 11,
    ensures
        photon_base(i).1.len() >= 5,
        i != j ==> photon_base(i).1 != photon_base(j).1,
{
}

/// The name [`photon_base_name`] gives is that of an entry with MT `mt`.
proof fn lemma_photon_base_name(mt: i32, i: int) -> (j: int)
    requires
        0 <= i,
        photon_base_name(mt, i) is Some,
    ensures
        i <= j < 11,
        photon_base(j).0 == mt,
        photon_base_name(mt, i) == Some(photon_base(j).1),
    decreases 11 - i,
{
    if photon_base(i).0 == mt {
        i
    } else {
        lemma_photon_base_name(mt, i + 1)
    }
}

/// From the `k`-th entry on, up to the `i`-th, the first whose name is the
/// `i`-th's is the `i`-th.
proof fn lemma_photon_base_mt(i: int, k: int)
    requires
        0 <= k <= i < 11,
    ensures
        photon_base_mt(photon_base(i).1, k) == Some(photon_base(i).0),
    decreases i - k,
{
    if k < i {
        lemma_photon_base_names(k, i);
        lemma_photon_base_mt(i, k + 1);
    }
}

/// A name of at most three characters is none the format gives outright.
proof fn lemma_short_not_base(s: Seq<char>, k: int)
    requires
        0 <= k,
        s.len() <= 3,
    ensures
        photon_base_mt(s, k) is None,
    decreases 11 - k,
{
    if k < 11 {
        lemma_photon_base_names(k, k);
        lemma_short_not_base(s, k + 1);
    }
}

/// From designator `k` on, up to `d`, the first subshell named as `d` is
/// `d`.
proof fn lemma_subshell_of(d: int, k: int)
    requires
        0 <= k <= d,
        1 <= d < 40,
    ensures
        subshell_of(subshell(d), k) == Some(d),
    decreases d - k,
{
    lemma_subshell_index(d);
    if k < d {
        if k >= 1 {
            lemma_subshell_index(k);
        }
        lemma_subshell_of(d, k + 1);
    }
}

/// Every name [`photon_reaction_name`] gives is looked up by
/// [`photon_reaction_mt`] as the MT it was given for.
pub proof fn lemma_photon_reaction_name_round_trip(mt: i32)
    requires
        photon_reaction_name_spec(mt) is Some,
    ensures
        photon_reaction_mt_spec(photon_reaction_name_spec(mt).unwrap()) == Some(mt),
{
    if photon_base_name(mt, 0) is Some {
        let i = lemma_photon_base_name(mt, 0);
        lemma_photon_base_mt(i, 0);
    } else {
        let d = mt - 533;
        lemma_subshell_index(d);
        lemma_short_not_base(subshell(d), 0);
        lemma_subshell_of(d, 0);
    }
}

} // verus!
