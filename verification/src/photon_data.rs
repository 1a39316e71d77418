//! Auxiliary photon data: the tabulated Compton profiles and the
//! density-effect data that no ENDF evaluation carries.
//!
//! The file is plain text, one record per line: a section header
//! (`COMPTON` or `DENSITY`), the momentum grid (`pz`, a count and the
//! values), and one line per element (`Z`, the atomic number, a subshell
//! count and the values). Its real values are kept as their tokens; what
//! is checked here is that each is one a float parser accepts.

use vstd::prelude::*;

use crate::error::{Error, Result};
use crate::records::{lines_of, str_lines};
use crate::text::{
    all_digits, chars_eq, chars_of, digits_upto, digits_value, is_digit, parse_i64, parse_int_in, rows_view,
    split_words, string_from_chars, trim, trim_chars, words,
};

verus! {

broadcast use vstd::string::group_string_axioms;

/// The end of the run of decimal digits that starts at `i`.
pub open spec fn digit_run(s: Seq<char>, i: int) -> int
    decreases s.len() - i,
{
    if 0 <= i < s.len() && is_digit(s[i]) {
        digit_run(s, i + 1)
    } else {
        i
    }
}

proof fn lemma_digit_run(s: Seq<char>, i: int)
    requires
        0 <= i <= s.len(),
    ensures
        i <= digit_run(s, i) <= s.len(),
    decreases s.len() - i,
{
    if i < s.len() && is_digit(s[i]) {
        lemma_digit_run(s, i + 1);
    }
}

/// Whether `c` is the letter `w`, given in lower case, in either case.
pub open spec fn same_letter(c: char, w: char) -> bool {
    (c as u32) == (w as u32) || ('A' <= c <= 'Z' && (c as u32) + 32 == (w as u32))
}

/// Whether `s` spells `word`, given in lower case, ignoring the case of
/// ASCII letters.
pub open spec fn spells(s: Seq<char>, word: Seq<char>) -> bool {
    s.len() == word.len() && forall|k: int| 0 <= k < s.len() ==> same_letter(#[trigger] s[k], word[k])
}

/// Whether `s` is a decimal number: digits with an optional point, at least
/// one digit in all, then an optional exponent of `e` or `E`, an optional
/// sign and at least one digit.
pub open spec fn decimal_number(s: Seq<char>) -> bool {
    let a = digit_run(s, 0);
    let b = if a < s.len() && s[a] == '.' {
        digit_run(s, a + 1)
    } else {
        a
    };
    let digits = if a < s.len() && s[a] == '.' {
        a + (b - (a + 1))
    } else {
        a
    };
    &&& digits > 0
    &&& b == s.len() || {
        &&& s[b] == 'e' || s[b] == 'E'
        &&& {
            let c = if b + 1 < s.len() && (s[b + 1] == '+' || s[b + 1] == '-') {
                b + 2
            } else {
                b + 1
            };
            digit_run(s, c) > c && digit_run(s, c) == s.len()
        }
    }
}

/// Whether `str::parse::<f64>` accepts `s`: an optional sign, then `inf`,
/// `infinity` or `nan` in any case, or a decimal number.
pub open spec fn float_token(s: Seq<char>) -> bool {
    let body = if s.len() > 0 && (s[0] == '+' || s[0] == '-') {
        s.drop_first()
    } else {
        s
    };
    ||| spells(body, seq!['i', 'n', 'f'])
    ||| spells(body, seq!['i', 'n', 'f', 'i', 'n', 'i', 't', 'y'])
    ||| spells(body, seq!['n', 'a', 'n'])
    ||| decimal_number(body)
}

/// The end of the run of digits of `v` from `i`.
fn digit_run_exec(v: &Vec<char>, i: usize) -> (r: usize)
    requires
        i <= v.len(),
    ensures
        r == digit_run(v@, i as int),
        i <= r <= v.len(),
{
    let mut j = i;
    while j < v.len() && '0' <= v[j] && v[j] <= '9'
        invariant
            i <= j <= v.len(),
            digit_run(v@, i as int) == digit_run(v@, j as int),
        decreases v.len() - j,
    {
        j = j + 1;
    }
    j
}

/// Whether `v[from..]` spells `word`, ignoring the case of ASCII letters.
fn spells_exec(v: &Vec<char>, from: usize, word: &Vec<char>) -> (r: bool)
    requires
        from <= v.len(),
    ensures
        r == spells(v@.subrange(from as int, v.len() as int), word@),
{
    let ghost s = v@.subrange(from as int, v.len() as int);
    if v.len() - from != word.len() {
        return false;
    }
    let mut k: usize = 0;
    while k < word.len()
        invariant
            k <= word.len(),
            s.len() == word.len(),
            from + word.len() == v.len(),
            s == v@.subrange(from as int, v.len() as int),
            forall|i: int| 0 <= i < k ==> same_letter(#[trigger] s[i], word@[i]),
        decreases word.len() - k,
    {
        let c = v[from + k];
        assert(c == s[k as int]);
        let cu = c as u32;
        let wu = word[k] as u32;
        if !(cu == wu || ('A' <= c && c <= 'Z' && cu + 32 == wu)) {
            return false;
        }
        k = k + 1;
    }
    true
}

/// Whether `str::parse::<f64>` accepts the characters of `v`.
pub fn is_float_token(v: &Vec<char>) -> (r: bool)
    ensures
        r == float_token(v@),
{
    let from: usize = if v.len() > 0 && (v[0] == '+' || v[0] == '-') {
        1
    } else {
        0
    };
    let ghost body = v@.subrange(from as int, v.len() as int);
    assert(body == (if v@.len() > 0 && (v@[0] == '+' || v@[0] == '-') {
        v@.drop_first()
    } else {
        v@
    }));
    if spells_exec(v, from, &vec!['i', 'n', 'f']) || spells_exec(v, from, &vec!['i', 'n', 'f', 'i', 'n', 'i', 't', 'y'])
        || spells_exec(v, from, &vec!['n', 'a', 'n']) {
        return true;
    }
    let a = digit_run_exec(v, from);
    proof {
        lemma_digit_run_shift(v@, from as int, 0);
    }
    let dot = a < v.len() && v[a] == '.';
    let b = if dot {
        digit_run_exec(v, a + 1)
    } else {
        a
    };
    proof {
        if dot {
            lemma_digit_run_shift(v@, from as int, a - from + 1);
        }
    }
    let digits = if dot {
        (a - from) + (b - (a + 1))
    } else {
        a - from
    };
    if digits == 0 {
        return false;
    }
    if b == v.len() {
        return true;
    }
    if !(v[b] == 'e' || v[b] == 'E') {
        return false;
    }
    let c = if b + 1 < v.len() && (v[b + 1] == '+' || v[b + 1] == '-') {
        b + 2
    } else {
        b + 1
    };
    let d = digit_run_exec(v, c);
    proof {
        lemma_digit_run_shift(v@, from as int, c - from);
    }
    d > c && d == v.len()
}

/// A run of digits is the same measured in a suffix.
proof fn lemma_digit_run_shift(s: Seq<char>, from: int, i: int)
    requires
        0 <= from <= s.len(),
        0 <= i <= s.len() - from,
    ensures
        digit_run(s.subrange(from, s.len() as int), i) == digit_run(s, from + i) - from,
    decreases s.len() - from - i,
{
    let t = s.subrange(from, s.len() as int);
    if i < t.len() && is_digit(t[i]) {
        lemma_digit_run_shift(s, from, i + 1);
    }
}

/// What `str::parse::<usize>` gives: an optional `+` and decimal digits, at
/// most `usize::MAX`.
pub open spec fn parse_count(s: Seq<char>) -> Option<int> {
    let body = if s.len() > 0 && s[0] == '+' {
        s.drop_first()
    } else {
        s
    };
    if body.len() > 0 && all_digits(body) && digits_value(body) <= usize::MAX {
        Some(digits_value(body))
    } else {
        None
    }
}

/// `str::parse::<usize>` on the characters of `v`.
pub fn parse_count_exec(v: &Vec<char>) -> (r: Option<usize>)
    ensures
        r matches Some(x) ==> parse_count(v@) == Some(x as int),
        r is None ==> parse_count(v@) is None,
{
    let from: usize = if v.len() > 0 && v[0] == '+' {
        1
    } else {
        0
    };
    assert(v@.subrange(from as int, v.len() as int) == (if v@.len() > 0 && v@[0] == '+' {
        v@.drop_first()
    } else {
        v@
    }));
    if from == v.len() {
        return None;
    }
    match digits_upto(v, from, v.len(), usize::MAX as u64) {
        Some(x) => Some(x as usize),
        None => None,
    }
}

/// The texts of some strings.
pub open spec fn texts(v: Seq<String>) -> Seq<Seq<char>> {
    Seq::new(v.len(), |i: int| v[i]@)
}

/// One element's Compton profiles as plain values: its atomic number, the
/// electrons and binding energy of each subshell, and each subshell's
/// profile on the momentum grid.
pub type ComptonView = (int, Seq<Seq<char>>, Seq<Seq<char>>, Seq<Seq<Seq<char>>>);

/// One element's density-effect data as plain values: its atomic number,
/// mean excitation energy, and the electrons and ionization energy of each
/// subshell.
pub type DensityView = (int, Seq<char>, Seq<Seq<char>>, Seq<Seq<char>>);

/// What the lines read so far give: the section (0 before any header, 1
/// Compton, 2 density), the momentum grid, and the elements of each section
/// in the order read.
pub type AuxState = (int, Seq<Seq<char>>, Seq<ComptonView>, Seq<DensityView>);

/// Whether the `n` words of `w` from `from` are there and are all numbers.
pub open spec fn all_floats(w: Seq<Seq<char>>, from: int, n: int) -> bool {
    &&& 0 <= from
    &&& 0 <= n
    &&& from + n <= w.len()
    &&& forall|k: int| from <= k < from + n ==> float_token(#[trigger] w[k])
}

/// `n` rows of `p` words each, from `from` on.
pub open spec fn rows_of(w: Seq<Seq<char>>, from: int, n: int, p: int) -> Seq<Seq<Seq<char>>> {
    Seq::new(n as nat, |r: int| w.subrange(from + r * p, from + (r + 1) * p))
}

/// The atomic number and subshell count of an element line's words.
pub open spec fn element_head(w: Seq<Seq<char>>) -> Option<(int, int)> {
    let z = if w.len() > 1 {
        parse_int_in(w[1], i64::MIN as int, i64::MAX as int)
    } else {
        None
    };
    let n = if w.len() > 2 {
        parse_count(w[2])
    } else {
        None
    };
    match (z, n) {
        (Some(z), Some(n)) => Some((z, n)),
        _ => None,
    }
}

/// The state after one more line; `None` where the line is refused: a tag
/// other than `pz` or `Z`, a count or atomic number that is not one, fewer
/// values than the counts call for or one that is not a number, or an
/// element before any section header.
pub open spec fn aux_line(st: AuxState, line: Seq<char>) -> Option<AuxState> {
    let t = trim(line);
    let w = words(t);
    if t.len() == 0 {
        Some(st)
    } else if t == seq!['C', 'O', 'M', 'P', 'T', 'O', 'N'] {
        Some((1, st.1, st.2, st.3))
    } else if t == seq!['D', 'E', 'N', 'S', 'I', 'T', 'Y'] {
        Some((2, st.1, st.2, st.3))
    } else if w.len() == 0 {
        None
    } else if w[0] == seq!['p', 'z'] {
        match if w.len() > 1 {
            parse_count(w[1])
        } else {
            None
        } {
            Some(n) => if all_floats(w, 2, n) {
                Some((st.0, w.subrange(2, 2 + n), st.2, st.3))
            } else {
                None
            },
            None => None,
        }
    } else if w[0] != seq!['Z'] {
        None
    } else {
        match element_head(w) {
            Some((z, n)) => if st.0 == 1 {
                let p = st.1.len() as int;
                if all_floats(w, 3, 2 * n + n * p) {
                    Some(
                        (
                            st.0,
                            st.1,
                            st.2.push((z, w.subrange(3, 3 + n), w.subrange(3 + n, 3 + 2 * n), rows_of(w, 3 + 2 * n, n, p))),
                            st.3,
                        ),
                    )
                } else {
                    None
                }
            } else if st.0 == 2 {
                if all_floats(w, 3, 1 + 2 * n) {
                    Some((st.0, st.1, st.2, st.3.push((z, w[3], w.subrange(4, 4 + n), w.subrange(4 + n, 4 + 2 * n)))))
                } else {
                    None
                }
            } else {
                None
            },
            None => None,
        }
    }
}

/// Whether a line would split the Compton profiles by an empty momentum
/// grid, which no reader can do: an element of the Compton section whose
/// subshell values are all there when no grid, or an empty one, came first.
pub open spec fn aux_line_undefined(st: AuxState, line: Seq<char>) -> bool {
    let t = trim(line);
    let w = words(t);
    &&& t.len() > 0
    &&& t != seq!['C', 'O', 'M', 'P', 'T', 'O', 'N']
    &&& t != seq!['D', 'E', 'N', 'S', 'I', 'T', 'Y']
    &&& w.len() > 0
    &&& w[0] == seq!['Z']
    &&& st.0 == 1
    &&& st.1.len() == 0
    &&& element_head(w) matches Some((z, n)) && all_floats(w, 3, 2 * n)
}

/// The state after the first `n` lines; `None` where one of them is
/// refused.
pub open spec fn aux_fold(lines: Seq<Seq<char>>, n: int) -> Option<AuxState>
    decreases n,
{
    if n <= 0 {
        Some((0, Seq::empty(), Seq::empty(), Seq::empty()))
    } else {
        match aux_fold(lines, n - 1) {
            Some(st) => aux_line(st, lines[n - 1]),
            None => None,
        }
    }
}

/// Whether reading the first `n` lines never reaches a line that splits
/// by an empty grid before one is refused.
pub open spec fn aux_defined(lines: Seq<Seq<char>>, n: int) -> bool
    decreases n,
{
    if n <= 0 {
        true
    } else {
        aux_defined(lines, n - 1) && match aux_fold(lines, n - 1) {
            Some(st) => !aux_line_undefined(st, lines[n - 1]),
            None => true,
        }
    }
}

/// One element's Compton profiles, with real values as their tokens.
#[derive(Debug, Clone, PartialEq, Eq)]
pub struct ComptonEntry {
    pub z: i64,
    /// Electrons in each subshell.
    pub num_electrons: Vec<String>,
    /// Binding energy of each subshell.
    pub binding_energy: Vec<String>,
    /// J(pz) of each subshell, on the momentum grid.
    pub j: Vec<Vec<String>>,
}

/// One element's density-effect data, with real values as their tokens.
#[derive(Debug, Clone, PartialEq, Eq)]
pub struct DensityEntry {
    pub z: i64,
    /// Mean excitation energy.
    pub i: String,
    /// Electrons in each subshell.
    pub num_electrons: Vec<String>,
    /// Ionization energy of each subshell.
    pub ionization_energy: Vec<String>,
}

/// The auxiliary photon data, with real values as their tokens. Elements
/// are in the order the file gives them; a later line for the same element
/// stands in for an earlier one.
#[derive(Debug, Clone, PartialEq, Eq)]
pub struct PhotonAux {
    /// The momentum grid of the Compton profiles.
    pub pz: Vec<String>,
    pub compton: Vec<ComptonEntry>,
    pub density: Vec<DensityEntry>,
}

pub open spec fn compton_view(e: ComptonEntry) -> ComptonView {
    (e.z as int, texts(e.num_electrons@), texts(e.binding_energy@), Seq::new(e.j@.len(), |r: int| texts(e.j@[r]@)))
}

pub open spec fn density_view(e: DensityEntry) -> DensityView {
    (e.z as int, e.i@, texts(e.num_electrons@), texts(e.ionization_energy@))
}

/// The data as plain values: the grid and the elements of each section.
pub open spec fn aux_view(d: PhotonAux) -> (Seq<Seq<char>>, Seq<ComptonView>, Seq<DensityView>) {
    (
        texts(d.pz@),
        Seq::new(d.compton@.len(), |i: int| compton_view(d.compton@[i])),
        Seq::new(d.density@.len(), |i: int| density_view(d.density@[i])),
    )
}

/// The `n` words of `w` from `from` as strings, where they are all there
/// and all numbers.
fn take_floats(w: &Vec<Vec<char>>, from: usize, n: usize) -> (r: Option<Vec<String>>)
    requires
        from <= w.len(),
    ensures
        all_floats(rows_view(w@), from as int, n as int) ==> (r matches Some(v) && texts(v@) == rows_view(
            w@,
        ).subrange(from as int, from + n)),
        !all_floats(rows_view(w@), from as int, n as int) ==> r is None,
{
    let ghost ws = rows_view(w@);
    if n > w.len() - from {
        return None;
    }
    let mut out: Vec<String> = Vec::new();
    let mut k: usize = 0;
    while k < n
        invariant
            k <= n,
            from + n <= w.len(),
            ws == rows_view(w@),
            forall|i: int| from <= i < from + k ==> float_token(#[trigger] ws[i]),
            texts(out@) == ws.subrange(from as int, from + k),
        decreases n - k,
    {
        let token = &w[from + k];
        assert(token@ == ws[from + k]);
        if !is_float_token(token) {
            return None;
        }
        let ghost before = out@;
        assert(texts(before).len() == before.len());
        assert(ws.subrange(from as int, from + k).len() == k);
        assert(before.len() == k);
        let item = string_from_chars(token);
        assert(item@ == ws[from + k]);
        out.push(item);
        assert(out@ == before.push(item));
        assert(texts(out@).len() == k + 1);
        assert forall|i: int| 0 <= i < k + 1 implies #[trigger] texts(out@)[i] == ws.subrange(
            from as int,
            from + k + 1,
        )[i] by {
            if i < k {
                assert(out@[i] == before[i]);
                assert(texts(before)[i] == before[i]@);
                assert(texts(before)[i] == ws.subrange(from as int, from + k)[i]);
                assert(ws.subrange(from as int, from + k)[i] == ws[from + i]);
            } else {
                assert(out@[i] == item);
            }
        }
        assert(texts(out@) =~= ws.subrange(from as int, from + k + 1));
        k = k + 1;
    }
    Some(out)
}

/// The state the section and the data read so far stand for.
pub open spec fn state_of(section: u8, d: PhotonAux) -> AuxState {
    (section as int, aux_view(d).0, aux_view(d).1, aux_view(d).2)
}

/// What reading one line came to.
enum Step {
    Next,
    Refused(&'static str),
    Undefined,
}

/// Runs of numbers next to each other make one run.
proof fn lemma_floats_join(w: Seq<Seq<char>>, from: int, a: int, b: int)
    requires
        0 <= from,
        0 <= a,
        0 <= b,
    ensures
        all_floats(w, from, a) && all_floats(w, from + a, b) <==> all_floats(w, from, a + b),
{
    if all_floats(w, from, a + b) {
        assert forall|k: int| from <= k < from + a implies float_token(#[trigger] w[k]) by {}
        assert forall|k: int| from + a <= k < from + a + b implies float_token(#[trigger] w[k]) by {}
    }
    if all_floats(w, from, a) && all_floats(w, from + a, b) {
        assert forall|k: int| from <= k < from + a + b implies float_token(#[trigger] w[k]) by {
            if k < from + a {
            } else {
            }
        }
    }
}

/// A run of numbers holds every shorter run within it.
proof fn lemma_floats_within(w: Seq<Seq<char>>, from: int, n: int, sub: int, m: int)
    requires
        from <= sub,
        0 <= m,
        sub + m <= from + n,
        from + n <= w.len(),
        0 <= from,
    ensures
        all_floats(w, from, n) ==> all_floats(w, sub, m),
{
    if all_floats(w, from, n) {
        assert forall|k: int| sub <= k < sub + m implies float_token(#[trigger] w[k]) by {}
    }
}

/// The profiles of an element of the Compton section: `n` subshells'
/// electrons and binding energies, then `n` rows of `p` values, from the
/// fourth word on.
fn read_compton(w: &Vec<Vec<char>>, z: i64, n: usize, p: usize) -> (r: Option<ComptonEntry>)
    requires
        3 <= w.len(),
        p > 0,
    ensures
        ({
            let ws = rows_view(w@);
            let ni = n as int;
            let pi = p as int;
            &&& all_floats(ws, 3, 2 * ni + ni * pi) ==> (r matches Some(e) && compton_view(e) == (
                z as int,
                ws.subrange(3, 3 + ni),
                ws.subrange(3 + ni, 3 + 2 * ni),
                rows_of(ws, 3 + 2 * ni, ni, pi),
            ))
            &&& !all_floats(ws, 3, 2 * ni + ni * pi) ==> r is None
        }),
{
    let ghost ws = rows_view(w@);
    proof {
        lemma_floats_join(ws, 3, n as int, n as int);
        lemma_floats_join(ws, 3, 2 * n, n * p);
    }
    let num_electrons = match take_floats(w, 3, n) {
        Some(v) => v,
        None => {
            return None;
        },
    };
    let binding_energy = match take_floats(w, 3 + n, n) {
        Some(v) => v,
        None => {
            return None;
        },
    };
    let count = match n.checked_mul(p) {
        Some(c) => c,
        None => {
            return None;
        },
    };
    let base = 3 + 2 * n;
    if count > w.len() - base {
        return None;
    }
    let mut j: Vec<Vec<String>> = Vec::new();
    let mut r: usize = 0;
    while r < n
        invariant
            r <= n,
            count == n * p,
            base == 3 + 2 * n,
            base + count <= w.len(),
            ws == rows_view(w@),
            p > 0,
            j@.len() == r,
            forall|q: int| 0 <= q < r ==> texts(#[trigger] j@[q]@) == ws.subrange(base + q * p, base + (q + 1) * p),
            all_floats(ws, base as int, r * p),
            all_floats(ws, 3, 2 * n),
        decreases n - r,
    {
        assert(r * p + p <= count) by (nonlinear_arith)
            requires
                r < n,
                count == n * p,
        ;
        let start = base + r * p;
        assert((r + 1) * p == r * p + p) by (nonlinear_arith);
        proof {
            lemma_floats_join(ws, base as int, r * p, p as int);
            lemma_floats_join(ws, 3, 2 * n, n * p);
            lemma_floats_within(ws, base as int, count as int, start as int, p as int);
        }
        match take_floats(w, start, p) {
            Some(row) => {
                let ghost before = j@;
                j.push(row);
                assert forall|q: int| 0 <= q < r + 1 implies texts(#[trigger] j@[q]@) == ws.subrange(
                    base + q * p,
                    base + (q + 1) * p,
                ) by {
                    if q < r {
                        assert(j@[q] == before[q]);
                    }
                }
            },
            None => {
                return None;
            },
        }
        r = r + 1;
    }
    proof {
        lemma_floats_join(ws, 3, 2 * n, n * p);
    }
    let e = ComptonEntry { z, num_electrons, binding_energy, j };
    assert(Seq::new(e.j@.len(), |q: int| texts(e.j@[q]@)) =~= rows_of(ws, 3 + 2 * n, n as int, p as int));
    Some(e)
}

/// The density-effect data of an element: the mean excitation energy, then
/// `n` subshells' electrons and ionization energies, from the fourth word on.
fn read_density(w: &Vec<Vec<char>>, z: i64, n: usize) -> (r: Option<DensityEntry>)
    requires
        3 <= w.len(),
    ensures
        ({
            let ws = rows_view(w@);
            let ni = n as int;
            &&& all_floats(ws, 3, 1 + 2 * ni) ==> (r matches Some(e) && density_view(e) == (
                z as int,
                ws[3],
                ws.subrange(4, 4 + ni),
                ws.subrange(4 + ni, 4 + 2 * ni),
            ))
            &&& !all_floats(ws, 3, 1 + 2 * ni) ==> r is None
        }),
{
    let ghost ws = rows_view(w@);
    proof {
        lemma_floats_join(ws, 3, 1, 2 * n);
        lemma_floats_join(ws, 4, n as int, n as int);
    }
    let first = match take_floats(w, 3, 1) {
        Some(v) => v,
        None => {
            return None;
        },
    };
    let num_electrons = match take_floats(w, 4, n) {
        Some(v) => v,
        None => {
            return None;
        },
    };
    let ionization_energy = match take_floats(w, 4 + n, n) {
        Some(v) => v,
        None => {
            return None;
        },
    };
    assert(texts(first@).len() == first@.len());
    assert(texts(first@)[0] == ws.subrange(3, 4)[0]);
    let i = first[0].clone();
    assert(i@ == ws[3]);
    Some(DensityEntry { z, i, num_electrons, ionization_energy })
}

/// Read one line into the section and the data read so far.
#[verifier::rlimit(60)]
fn read_line(section: &mut u8, data: &mut PhotonAux, line: &str) -> (r: Step)
    requires
        *old(section) <= 2,
    ensures
        *final(section) <= 2,
        aux_line_undefined(state_of(*old(section), *old(data)), line@) <==> r is Undefined,
        !aux_line_undefined(state_of(*old(section), *old(data)), line@) ==> match aux_line(
            state_of(*old(section), *old(data)),
            line@,
        ) {
            Some(st) => r is Next && state_of(*final(section), *final(data)) == st,
            None => r is Refused,
        },
{
    let ghost st = state_of(*section, *data);
    let v = chars_of(line);
    let t = trim_chars(&v);
    let ghost tv = t@;
    assert(tv == trim(line@));
    if t.len() == 0 {
        return Step::Next;
    }
    if chars_eq(&t, &vec!['C', 'O', 'M', 'P', 'T', 'O', 'N']) {
        *section = 1;
        return Step::Next;
    }
    if chars_eq(&t, &vec!['D', 'E', 'N', 'S', 'I', 'T', 'Y']) {
        *section = 2;
        return Step::Next;
    }
    let w = split_words(&t);
    let ghost ws = rows_view(w@);
    assert(ws == words(tv));
    assert(tv != seq!['C', 'O', 'M', 'P', 'T', 'O', 'N']);
    assert(tv != seq!['D', 'E', 'N', 'S', 'I', 'T', 'Y']);
    if w.len() == 0 {
        return Step::Refused("an empty photon data line");
    }
    assert(ws[0] == w@[0]@);
    if chars_eq(&w[0], &vec!['p', 'z']) {
        if w.len() < 2 {
            return Step::Refused("the pz count in the photon data");
        }
        assert(ws[1] == w@[1]@);
        let n = match parse_count_exec(&w[1]) {
            Some(n) => n,
            None => {
                return Step::Refused("the pz count in the photon data");
            },
        };
        match take_floats(&w, 2, n) {
            Some(values) => {
                data.pz = values;
                assert(aux_view(*data).1 =~= aux_view(*old(data)).1);
                assert(aux_view(*data).2 =~= aux_view(*old(data)).2);
                return Step::Next;
            },
            None => {
                return Step::Refused("the pz grid in the photon data");
            },
        }
    }
    let tag_z: Vec<char> = vec!['Z'];
    assert(tag_z@ =~= seq!['Z']);
    if !chars_eq(&w[0], &tag_z) {
        assert(ws[0] != seq!['Z']);
        return Step::Refused("an unrecognised line in the photon data");
    }
    if w.len() < 2 {
        return Step::Refused("an atomic number in the photon data");
    }
    assert(ws[1] == w@[1]@);
    assert(w@[1]@.subrange(0, w@[1]@.len() as int) =~= w@[1]@);
    let z = match parse_i64(&w[1], 0, w[1].len()) {
        Some(z) => z,
        None => {
            return Step::Refused("an atomic number in the photon data");
        },
    };
    assert(w@[1]@.subrange(0, w@[1]@.len() as int) =~= w@[1]@);
    assert(parse_int_in(ws[1], i64::MIN as int, i64::MAX as int) == Some(z as int));
    if w.len() < 3 {
        return Step::Refused("a subshell count in the photon data");
    }
    assert(ws[2] == w@[2]@);
    let n = match parse_count_exec(&w[2]) {
        Some(n) => n,
        None => {
            return Step::Refused("a subshell count in the photon data");
        },
    };
    assert(element_head(ws) == Some((z as int, n as int)));
    if *section == 1 {
        let p = data.pz.len();
        if p == 0 {
            proof {
                lemma_floats_join(ws, 3, n as int, n as int);
                lemma_floats_join(ws, 3, 2 * n, 0);
            }
            match take_floats(&w, 3, n) {
                Some(_) => {},
                None => {
                    return Step::Refused("Compton num_electrons");
                },
            }
            match take_floats(&w, 3 + n, n) {
                Some(_) => {},
                None => {
                    return Step::Refused("Compton binding_energy");
                },
            }
            return Step::Undefined;
        }
        match read_compton(&w, z, n, p) {
            Some(e) => {
                let ghost before = data.compton@;
                data.compton.push(e);
                assert(aux_view(*data).1 =~= aux_view(*old(data)).1.push(compton_view(e)));
                assert(aux_view(*data).2 =~= aux_view(*old(data)).2);
                Step::Next
            },
            None => Step::Refused("the Compton profiles in the photon data"),
        }
    } else if *section == 2 {
        match read_density(&w, z, n) {
            Some(e) => {
                data.density.push(e);
                assert(aux_view(*data).1 =~= aux_view(*old(data)).1);
                assert(aux_view(*data).2 =~= aux_view(*old(data)).2.push(density_view(e)));
                Step::Next
            },
            None => Step::Refused("the density-effect data in the photon data"),
        }
    } else {
        Step::Refused("a photon data line before its section header")
    }
}

/// Once a line is refused, the lines after it change nothing.
proof fn lemma_refused_stays(lines: Seq<Seq<char>>, m: int, n: int)
    requires
        0 <= m <= n,
        aux_fold(lines, m) is None,
    ensures
        aux_fold(lines, n) is None,
        aux_defined(lines, n) == aux_defined(lines, m),
    decreases n - m,
{
    if m < n {
        lemma_refused_stays(lines, m, n - 1);
    }
}

/// Once a line is undefined, so is every longer reading.
proof fn lemma_undefined_stays(lines: Seq<Seq<char>>, m: int, n: int)
    requires
        0 <= m <= n,
        !aux_defined(lines, m),
    ensures
        !aux_defined(lines, n),
    decreases n - m,
{
    if m < n {
        lemma_undefined_stays(lines, m, n - 1);
    }
}

/// The lines of `text` read in turn, to the first one refused; `None`
/// where a line would split by an empty grid before that.
fn read_aux(text: &str) -> (r: Option<Result<PhotonAux>>)
    ensures
        ({
            let lines = lines_of(text@);
            let n = lines.len() as int;
            &&& r is Some <==> aux_defined(lines, n)
            &&& aux_defined(lines, n) ==> match aux_fold(lines, n) {
                Some(st) => r matches Some(Ok(d)) && aux_view(d) == (st.1, st.2, st.3),
                None => r matches Some(Err(e)) && e is Unsupported,
            }
        }),
{
    let ghost all = lines_of(text@);
    let lines = str_lines(text);
    let mut section: u8 = 0;
    let mut data = PhotonAux { pz: Vec::new(), compton: Vec::new(), density: Vec::new() };
    assert(state_of(section, data) =~= (0int, Seq::<Seq<char>>::empty(), Seq::<ComptonView>::empty(), Seq::<DensityView>::empty()));
    let mut k: usize = 0;
    while k < lines.len()
        invariant
            k <= lines.len(),
            all == lines_of(text@),
            lines@.len() == all.len(),
            forall|i: int| 0 <= i < lines@.len() ==> #[trigger] lines@[i]@ == all[i],
            section <= 2,
            aux_defined(all, k as int),
            aux_fold(all, k as int) == Some(state_of(section, data)),
        decreases lines.len() - k,
    {
        assert(lines@[k as int]@ == all[k as int]);
        match read_line(&mut section, &mut data, lines[k]) {
            Step::Next => {},
            Step::Refused(what) => {
                proof {
                    lemma_refused_stays(all, k + 1, all.len() as int);
                }
                return Some(Err(Error::Unsupported { what }));
            },
            Step::Undefined => {
                proof {
                    lemma_undefined_stays(all, k + 1, all.len() as int);
                }
                return None;
            },
        }
        k = k + 1;
    }
    Some(Ok(data))
}

/// Whether [`parse_aux`] can read `text`: no element of the Compton
/// section comes with all its subshell values while the momentum grid is
/// missing or empty, before a line is refused.
pub fn photon_aux_fits(text: &str) -> (b: bool)
    ensures
        b == aux_defined(lines_of(text@), lines_of(text@).len() as int),
{
    read_aux(text).is_some()
}

/// Read the auxiliary photon data. `Err` exactly where a line is refused:
/// a tag other than `COMPTON`, `DENSITY`, `pz` or `Z`; a count or atomic
/// number that is not one; fewer values than the counts call for, or one
/// that a float parser rejects; or an element before any section header.
/// Otherwise the momentum grid is the last one given, and the elements are
/// those of each section in the order given, with each Compton profile cut
/// into rows the length of the grid.
pub fn parse_aux(text: &str) -> (r: Result<PhotonAux>)
    requires
        aux_defined(lines_of(text@), lines_of(text@).len() as int),
    ensures
        match aux_fold(lines_of(text@), lines_of(text@).len() as int) {
            Some(st) => r matches Ok(d) && aux_view(d) == (st.1, st.2, st.3),
            None => r matches Err(e) && e is Unsupported,
        },
{
    match read_aux(text) {
        Some(r) => r,
        None => {
            assert(false);
            Err(Error::Unsupported { what: "a Compton profile with no momentum grid" })
        },
    }
}

} // verus!
