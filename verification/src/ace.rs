//! Reading what an ACE table's name says: the nuclide its ZAID identifies
//! and the kind of data its suffix denotes.

use vstd::prelude::*;

use crate::data::{atomic_symbol, gnds_name, gnds_spec, symbol};
use crate::error::Error;
use crate::records::{lines_for, lines_of, str_lines};
use crate::text::{
    all_digits, chars_of, debug_quoted, debug_text, is_digit, parse_i64, parse_int_in, push_literal,
    decimal, push_signed, push_str, rows_view, signed_decimal, slice_chars, split_words,
    string_from_chars, trim, words,
};

verus! {

broadcast use vstd::string::group_string_axioms;

/// How a library encodes the metastable state in a ZAID.
///
/// The plain ZAID, 1000*Z + A, has nowhere to put it, so libraries disagree.
#[derive(Debug, Clone, Copy, PartialEq, Eq, Default)]
pub enum MetastableScheme {
    /// ZAID is 1000*Z + A + 100*m.
    #[default]
    Nndc,
    /// 400 is added for a metastable nuclide, except that 95242 is Am242m and
    /// 95642 is the ground state. Newer libraries use an SZA form above
    /// 1000000.
    Mcnp,
}

/// What a ZAID identifies.
#[derive(Debug, Clone, PartialEq, Eq)]
pub struct Metadata {
    /// GNDS name, e.g. `"Am242_m1"`.
    pub name: String,
    /// Atomic symbol, e.g. `"Am"`.
    pub element: String,
    pub z: u32,
    pub mass_number: u32,
    pub metastable: u32,
}

/// Integer division truncated towards zero, as Rust's `/` does, for `b > 0`.
pub open spec fn tdiv(a: int, b: int) -> int {
    if a >= 0 {
        a / b
    } else {
        -((-a) / b)
    }
}

/// The remainder that goes with [`tdiv`], as Rust's `%` gives it.
pub open spec fn trem(a: int, b: int) -> int {
    a - tdiv(a, b) * b
}

/// The mass number once the offset a state was encoded with is undone:
/// 100 is taken off until the mass number is at most three times `z`.
pub open spec fn undo_offset(mass: int, z: int) -> int {
    if mass <= 3 * z {
        mass
    } else {
        mass - 100 * ((mass - 3 * z + 99) / 100)
    }
}

/// How many hundreds are taken off a mass residue before it is at most
/// three times `z`.
pub open spec fn offset_steps(mass: int, z: int) -> int {
    if mass <= 3 * z {
        0
    } else {
        (mass - 3 * z + 99) / 100
    }
}

/// The atomic number and metastable state a ZAID gives: under NNDC's
/// 1000*Z + A + 100*m the state is the number of hundreds above the mass
/// number; under MCNP's, a residue above 300 is the first state.
pub open spec fn zaid_z_and_state(zaid: int, scheme: MetastableScheme) -> (int, int) {
    let z = tdiv(zaid, 1000);
    let mass = trem(zaid, 1000);
    let plain = if mass > 300 {
        1int
    } else {
        0int
    };
    match scheme {
        MetastableScheme::Mcnp => if zaid > 1_000_000 {
            (trem(z, 1000), if zaid == 1_095_242 {
                0
            } else {
                tdiv(zaid, 1_000_000)
            })
        } else if zaid == 95242 {
            (z, 1)
        } else if zaid == 95642 {
            (z, 0)
        } else {
            (z, plain)
        },
        MetastableScheme::Nndc => (z, offset_steps(mass, z)),
    }
}

/// `v as u32`.
pub open spec fn as_u32(v: int) -> u32 {
    v as u32
}

/// The nuclide a ZAID refers to, as (Z, A, state), or the atomic number
/// that names no element.
pub open spec fn metadata_spec(zaid: int, scheme: MetastableScheme) -> Result<(int, int, int), int> {
    let (z, m) = zaid_z_and_state(zaid, scheme);
    let mass = undo_offset(trem(zaid, 1000), z);
    if 0 <= z <= 118 {
        Ok((z, mass, m))
    } else {
        Err(z)
    }
}

/// Identify the nuclide a ZAID refers to.
pub fn get_metadata(zaid: i64, scheme: MetastableScheme) -> (r: Result<Metadata, Error>)
    ensures
        match metadata_spec(zaid as int, scheme) {
            Ok((z, a, m)) => r matches Ok(md) && md.z == z && md.mass_number == as_u32(a)
                && md.metastable == as_u32(m) && md.element@ == symbol(z) && md.name@ == gnds_spec(
                z,
                as_u32(a) as int,
                as_u32(m) as int,
            ),
            Err(z) => r matches Err(Error::UnknownElement { symbol: s }) && s@ == seq!['Z', '=']
                + signed_decimal(z),
        },
{
    let mut z = zaid / 1000;
    let mut mass_number = zaid % 1000;
    let metastable: i64 = match scheme {
        MetastableScheme::Mcnp => {
            if zaid > 1_000_000 {
                // Newer SZA form: the leading digits carry the state.
                z = z % 1000;
                if zaid == 1_095_242 {
                    0
                } else {
                    zaid / 1_000_000
                }
            } else if zaid == 95242 {
                1
            } else if zaid == 95642 {
                0
            } else if mass_number > 300 {
                1
            } else {
                0
            }
        },
        MetastableScheme::Nndc => 0,
    };
    // Undo the offset the state was encoded with, until the mass number is
    // physically possible; under NNDC's scheme each hundred is one state.
    let mut steps: i64 = 0;
    if mass_number > 3 * z {
        steps = (mass_number - 3 * z + 99) / 100;
        mass_number = mass_number - 100 * steps;
    }
    let metastable: i64 = match scheme {
        MetastableScheme::Nndc => steps,
        MetastableScheme::Mcnp => metastable,
    };
    assert(mass_number == undo_offset(trem(zaid as int, 1000), z as int));
    if z < 0 || z > 118 {
        let mut s = String::new();
        push_literal(&mut s, vec!['Z', '=']);
        push_signed(&mut s, z);
        return Err(Error::UnknownElement { symbol: s });
    }
    let element = match atomic_symbol(z as u32) {
        Some(e) => e,
        None => {
            return Err(Error::UnknownElement { symbol: String::new() });
        },
    };
    let zz = z as u32;
    let a = #[verifier::truncate] (mass_number as u32);
    let m = #[verifier::truncate] (metastable as u32);
    assert(a == as_u32(mass_number as int));
    assert(m == as_u32(metastable as int));
    Ok(Metadata { name: gnds_name(zz, a, m), element, z: zz, mass_number: a, metastable: m })
}

/// The kind of data an ACE table holds, from the letter its suffix ends with.
#[derive(Debug, Clone, Copy, PartialEq, Eq)]
pub enum TableType {
    NeutronContinuous,
    NeutronDiscrete,
    ThermalScattering,
    Dosimetry,
    Photoatomic,
    Photonuclear,
    Proton,
    Deuteron,
    Triton,
    Helium3,
    Alpha,
}

impl TableType {
    /// The letter the format uses for a type.
    pub open spec fn letter(self) -> char {
        match self {
            TableType::NeutronContinuous => 'c',
            TableType::NeutronDiscrete => 'd',
            TableType::ThermalScattering => 't',
            TableType::Dosimetry => 'y',
            TableType::Photoatomic => 'p',
            TableType::Photonuclear => 'u',
            TableType::Proton => 'h',
            TableType::Deuteron => 'o',
            TableType::Triton => 'r',
            TableType::Helium3 => 's',
            TableType::Alpha => 'a',
        }
    }

    /// The type a letter denotes.
    pub open spec fn of_letter(c: char) -> Option<TableType> {
        if c == 'c' {
            Some(TableType::NeutronContinuous)
        } else if c == 'd' {
            Some(TableType::NeutronDiscrete)
        } else if c == 't' {
            Some(TableType::ThermalScattering)
        } else if c == 'y' {
            Some(TableType::Dosimetry)
        } else if c == 'p' {
            Some(TableType::Photoatomic)
        } else if c == 'u' {
            Some(TableType::Photonuclear)
        } else if c == 'h' {
            Some(TableType::Proton)
        } else if c == 'o' {
            Some(TableType::Deuteron)
        } else if c == 'r' {
            Some(TableType::Triton)
        } else if c == 's' {
            Some(TableType::Helium3)
        } else if c == 'a' {
            Some(TableType::Alpha)
        } else {
            None
        }
    }

    /// The type a suffix denotes: the one whose letter the suffix ends with.
    pub open spec fn from_suffix_spec(s: Seq<char>) -> Option<TableType> {
        if s.len() == 0 {
            None
        } else {
            TableType::of_letter(s.last())
        }
    }

    /// The letter the format uses for this type.
    pub fn suffix(self) -> (c: char)
        ensures
            c == self.letter(),
    {
        match self {
            TableType::NeutronContinuous => 'c',
            TableType::NeutronDiscrete => 'd',
            TableType::ThermalScattering => 't',
            TableType::Dosimetry => 'y',
            TableType::Photoatomic => 'p',
            TableType::Photonuclear => 'u',
            TableType::Proton => 'h',
            TableType::Deuteron => 'o',
            TableType::Triton => 'r',
            TableType::Helium3 => 's',
            TableType::Alpha => 'a',
        }
    }

    /// The type a suffix denotes, e.g. `"70c"` is a continuous neutron table.
    pub fn from_suffix(suffix: &str) -> (r: Result<TableType, Error>)
        ensures
            TableType::from_suffix_spec(suffix@) matches Some(t) ==> r == Ok::<TableType, Error>(
                t,
            ),
            TableType::from_suffix_spec(suffix@) is None ==> (r matches Err(
                Error::BadAceTable { what },
            ) && what@ == seq!['s', 'u', 'f', 'f', 'i', 'x', ' '] + debug_text(suffix@) + seq![
                ' ', 'h', 'a', 's', ' ', 'n', 'o', ' ', 'c', 'o', 'r', 'r', 'e', 's', 'p', 'o', 'n',
                'd', 'i', 'n', 'g', ' ', 'A', 'C', 'E', ' ', 't', 'a', 'b', 'l', 'e', ' ', 't', 'y',
                'p', 'e',
            ]),
    {
        let v = chars_of(suffix);
        if v.len() > 0 {
            let c = v[v.len() - 1];
            let t = if c == 'c' {
                Some(TableType::NeutronContinuous)
            } else if c == 'd' {
                Some(TableType::NeutronDiscrete)
            } else if c == 't' {
                Some(TableType::ThermalScattering)
            } else if c == 'y' {
                Some(TableType::Dosimetry)
            } else if c == 'p' {
                Some(TableType::Photoatomic)
            } else if c == 'u' {
                Some(TableType::Photonuclear)
            } else if c == 'h' {
                Some(TableType::Proton)
            } else if c == 'o' {
                Some(TableType::Deuteron)
            } else if c == 'r' {
                Some(TableType::Triton)
            } else if c == 's' {
                Some(TableType::Helium3)
            } else if c == 'a' {
                Some(TableType::Alpha)
            } else {
                None
            };
            if let Some(t) = t {
                return Ok(t);
            }
        }
        let mut what = String::new();
        push_literal(&mut what, vec!['s', 'u', 'f', 'f', 'i', 'x', ' ']);
        let q = debug_quoted(suffix);
        push_str(&mut what, q.as_str());
        push_literal(
            &mut what,
            vec![
                ' ', 'h', 'a', 's', ' ', 'n', 'o', ' ', 'c', 'o', 'r', 'r', 'e', 's', 'p', 'o', 'n',
                'd', 'i', 'n', 'g', ' ', 'A', 'C', 'E', ' ', 't', 'a', 'b', 'l', 'e', ' ', 't', 'y',
                'p', 'e',
            ],
        );
        Err(Error::BadAceTable { what })
    }
}

/// Every type's letter leads back to it.
pub proof fn lemma_suffix_round_trip(t: TableType)
    ensures
        TableType::from_suffix_spec(seq![t.letter()]) == Some(t),
{
    assert(seq![t.letter()].last() == t.letter());
}

/// Parse an integer as an ACE file writes it.
pub fn parse_int(s: &str) -> (r: Result<i64, Error>)
    ensures
        parse_int_in(s@, i64::MIN as int, i64::MAX as int) matches Some(v) ==> r == Ok::<
            i64,
            Error,
        >(v as i64),
        parse_int_in(s@, i64::MIN as int, i64::MAX as int) is None ==> (r matches Err(
            Error::BadAceTable { what },
        ) && what@ == debug_text(s@) + seq![
            ' ', 'i', 's', ' ', 'n', 'o', 't', ' ', 'a', 'n', ' ', 'i', 'n', 't', 'e', 'g', 'e', 'r',
        ]),
{
    let v = chars_of(s);
    assert(v@.subrange(0, v.len() as int) == v@);
    match parse_i64(&v, 0, v.len()) {
        Some(x) => Ok(x),
        None => {
            let mut what = debug_quoted(s);
            push_literal(
                &mut what,
                vec![
                    ' ', 'i', 's', ' ', 'n', 'o', 't', ' ', 'a', 'n', ' ', 'i', 'n', 't', 'e', 'g',
                    'e', 'r',
                ],
            );
            Err(Error::BadAceTable { what })
        },
    }
}

/// `c` with an ASCII capital made small.
pub open spec fn ascii_lower(c: char) -> char {
    if 'A' <= c <= 'Z' {
        ((c as u32) + 32) as char
    } else {
        c
    }
}

/// Whether `s` spells `word`, ignoring the case of ASCII letters.
pub open spec fn spells(s: Seq<char>, word: Seq<char>) -> bool {
    &&& s.len() == word.len()
    &&& forall|i: int| 0 <= i < s.len() ==> ascii_lower(#[trigger] s[i]) == word[i]
}

/// The index of the first `e` or `E` in `s`, or its length.
pub open spec fn exponent_at(s: Seq<char>, i: int) -> int
    decreases s.len() - i,
{
    if i < 0 || i >= s.len() {
        s.len() as int
    } else if s[i] == 'e' || s[i] == 'E' {
        i
    } else {
        exponent_at(s, i + 1)
    }
}

/// The index of the first `.` in `s`, or its length.
pub open spec fn point_at(s: Seq<char>, i: int) -> int
    decreases s.len() - i,
{
    if i < 0 || i >= s.len() {
        s.len() as int
    } else if s[i] == '.' {
        i
    } else {
        point_at(s, i + 1)
    }
}

/// `s` without a leading `+` or `-`.
pub open spec fn unsigned(s: Seq<char>) -> Seq<char> {
    if s.len() > 0 && (s[0] == '+' || s[0] == '-') {
        s.skip(1)
    } else {
        s
    }
}

/// Digits with at most one point among them, and a digit on at least one
/// side of it.
pub open spec fn mantissa_ok(m: Seq<char>) -> bool {
    let d = point_at(m, 0);
    if d >= m.len() {
        m.len() >= 1 && all_digits(m)
    } else {
        all_digits(m.take(d)) && all_digits(m.skip(d + 1)) && (d >= 1 || m.len() - d - 1 >= 1)
    }
}

/// A decimal number: a mantissa, then optionally `e` or `E`, a sign and
/// digits.
pub open spec fn decimal_number(s: Seq<char>) -> bool {
    let e = exponent_at(s, 0);
    &&& mantissa_ok(s.take(e))
    &&& e >= s.len() || (unsigned(s.skip(e + 1)).len() >= 1 && all_digits(unsigned(s.skip(e + 1))))
}

/// Whether `str::parse::<f64>` accepts `s`, by the grammar its
/// documentation gives: an optional sign, then `inf`, `infinity` or `nan`
/// in any case, or a decimal number.
pub open spec fn float_syntax(s: Seq<char>) -> bool {
    let t = unsigned(s);
    ||| spells(t, "inf"@)
    ||| spells(t, "infinity"@)
    ||| spells(t, "nan"@)
    ||| decimal_number(t)
}

/// Whether `v[start..end]` are all digits.
fn digits_between(v: &Vec<char>, start: usize, end: usize) -> (r: bool)
    requires
        start <= end <= v.len(),
    ensures
        r == all_digits(v@.subrange(start as int, end as int)),
{
    let mut k: usize = start;
    while k < end
        invariant
            start <= k <= end <= v.len(),
            forall|j: int| start <= j < k ==> is_digit(#[trigger] v@[j]),
        decreases end - k,
    {
        if !('0' <= v[k] && v[k] <= '9') {
            assert(!is_digit(v@.subrange(start as int, end as int)[k - start]));
            return false;
        }
        k = k + 1;
    }
    assert forall|j: int| 0 <= j < end - start implies #[trigger] is_digit(v@.subrange(start as int, end as int)[j]) by {
        assert(v@.subrange(start as int, end as int)[j] == v@[start + j]);
    }
    true
}

/// Whether `v[start..end]` spells `word`, ignoring the case of ASCII
/// letters.
fn spells_between(v: &Vec<char>, start: usize, end: usize, word: &Vec<char>) -> (r: bool)
    requires
        start <= end <= v.len(),
    ensures
        r == spells(v@.subrange(start as int, end as int), word@),
{
    let ghost t = v@.subrange(start as int, end as int);
    if end - start != word.len() {
        return false;
    }
    let mut k: usize = 0;
    while k < word.len()
        invariant
            k <= word.len(),
            end - start == word.len(),
            start <= end <= v.len(),
            t == v@.subrange(start as int, end as int),
            forall|j: int| 0 <= j < k ==> ascii_lower(#[trigger] t[j]) == word@[j],
        decreases word.len() - k,
    {
        let c = v[start + k];
        let l = if 'A' <= c && c <= 'Z' {
            ((c as u32) + 32) as u8 as char
        } else {
            c
        };
        assert(t[k as int] == c);
        if l != word[k] {
            return false;
        }
        k = k + 1;
    }
    true
}

/// Whether `v[start..]` spells `inf`, `infinity` or `nan`, in any case.
fn is_special_float(v: &Vec<char>, start: usize) -> (r: bool)
    requires
        start <= v.len(),
    ensures
        r == ({
            let t = v@.subrange(start as int, v.len() as int);
            spells(t, "inf"@) || spells(t, "infinity"@) || spells(t, "nan"@)
        }),
{
    proof {
        reveal_strlit("inf");
        reveal_strlit("infinity");
        reveal_strlit("nan");
    }
    spells_between(v, start, v.len(), &vec!['i', 'n', 'f']) || spells_between(
        v,
        start,
        v.len(),
        &vec!['i', 'n', 'f', 'i', 'n', 'i', 't', 'y'],
    ) || spells_between(v, start, v.len(), &vec!['n', 'a', 'n'])
}

/// Whether `v[start..]` is a decimal number.
#[verifier::rlimit(40)]
pub(crate) fn is_decimal_number(v: &Vec<char>, start: usize) -> (r: bool)
    requires
        start <= v.len(),
    ensures
        r == decimal_number(v@.subrange(start as int, v.len() as int)),
{
    let ghost t = v@.subrange(start as int, v.len() as int);
    // The first `e` or `E`, and the first point before it.
    let mut e: usize = start;
    while e < v.len() && v[e] != 'e' && v[e] != 'E'
        invariant
            start <= e <= v.len(),
            t == v@.subrange(start as int, v.len() as int),
            exponent_at(t, 0) == exponent_at(t, e - start),
        decreases v.len() - e,
    {
        e = e + 1;
    }
    let ghost m = t.take(e - start);
    assert(exponent_at(t, e - start) == e - start);
    assert(m == v@.subrange(start as int, e as int));
    let mut d: usize = start;
    while d < e && v[d] != '.'
        invariant
            start <= d <= e <= v.len(),
            m == v@.subrange(start as int, e as int),
            point_at(m, 0) == point_at(m, d - start),
        decreases e - d,
    {
        d = d + 1;
    }
    assert(point_at(m, d - start) == d - start);
    let mantissa = if d == e {
        e > start && digits_between(v, start, e)
    } else {
        assert(m.take(d - start) == v@.subrange(start as int, d as int));
        assert(m.skip(d - start + 1) == v@.subrange(d + 1, e as int));
        digits_between(v, start, d) && digits_between(v, d + 1, e) && (d > start || e - d - 1 >= 1)
    };
    assert(mantissa == mantissa_ok(m));
    if !mantissa {
        return false;
    }
    if e == v.len() {
        return true;
    }
    let x = if e + 1 < v.len() && (v[e + 1] == '+' || v[e + 1] == '-') {
        e + 2
    } else {
        e + 1
    };
    assert(unsigned(t.skip(e - start + 1)) == v@.subrange(x as int, v.len() as int));
    x < v.len() && digits_between(v, x, v.len())
}

/// Whether `str::parse::<f64>` accepts `v`.
fn is_float_syntax(v: &Vec<char>) -> (r: bool)
    ensures
        r == float_syntax(v@),
{
    let start: usize = if v.len() > 0 && (v[0] == '+' || v[0] == '-') {
        1
    } else {
        0
    };
    assert(unsigned(v@) == v@.subrange(start as int, v.len() as int));
    is_special_float(v, start) || is_decimal_number(v, start)
}

/// `s` with an exponent marker put before its `i`-th character.
pub open spec fn patched(s: Seq<char>, i: int) -> Seq<char> {
    s.take(i) + seq!['e'] + s.skip(i)
}

/// Whether the `i`-th character of `s` is a sign that follows a digit or a
/// point: an exponent written without its marker, as NJOY writes values
/// below 1e-100.
pub open spec fn bare_exponent(s: Seq<char>, i: int) -> bool {
    &&& 1 <= i < s.len()
    &&& (s[i] == '+' || s[i] == '-')
    &&& (is_digit(s[i - 1]) || s[i - 1] == '.')
}

/// The first patched form of `s`, from position `i` on, that parses.
pub open spec fn first_patch(s: Seq<char>, i: int) -> Option<Seq<char>>
    decreases s.len() - i,
{
    if i < 1 || i >= s.len() {
        None
    } else if bare_exponent(s, i) && float_syntax(patched(s, i)) {
        Some(patched(s, i))
    } else {
        first_patch(s, i + 1)
    }
}

/// The text of a real number as an ACE file writes it, in the form a
/// floating point parser reads: as it is if it parses, else with the
/// exponent marker NJOY dropped put back.
pub open spec fn float_text(s: Seq<char>) -> Option<Seq<char>> {
    if float_syntax(s) {
        Some(s)
    } else {
        first_patch(s, 1)
    }
}

/// What an ACE reader says of a word that is no number.
pub open spec fn not_a_number(s: Seq<char>) -> Seq<char> {
    debug_text(s) + " is not a number"@
}

/// What an ACE reader says of a word that is no integer.
pub open spec fn not_an_integer(s: Seq<char>) -> Seq<char> {
    debug_text(s) + " is not an integer"@
}

/// Whether an error is the ACE error with this message.
pub open spec fn ace_error(e: Error, what: Seq<char>) -> bool {
    e matches Error::BadAceTable { what: w } && w@ == what
}

/// Read a real number as an ACE file writes it, kept as the text a
/// floating point parser reads.
fn parse_float_text(v: &Vec<char>) -> (r: Result<String, Error>)
    ensures
        match float_text(v@) {
            Some(t) => r matches Ok(x) && x@ == t,
            None => r matches Err(e) && ace_error(e, not_a_number(v@)),
        },
{
    let s = string_from_chars(v);
    if is_float_syntax(v) {
        return Ok(s);
    }
    let mut i: usize = 1;
    while i < v.len()
        invariant
            1 <= i,
            s@ == v@,
            !float_syntax(v@),
            float_text(v@) == first_patch(v@, i as int),
        decreases v.len() - i,
    {
        if (v[i] == '+' || v[i] == '-') && (('0' <= v[i - 1] && v[i - 1] <= '9') || v[i - 1] == '.') {
            let mut pv = slice_chars(v, 0, i);
            pv.push('e');
            let rest = slice_chars(v, i, v.len());
            let mut k: usize = 0;
            while k < rest.len()
                invariant
                    k <= rest.len(),
                    rest@ == v@.subrange(i as int, v.len() as int),
                    pv@ == v@.subrange(0, i as int) + seq!['e'] + rest@.take(k as int),
                decreases rest.len() - k,
            {
                pv.push(rest[k]);
                assert(rest@.take(k + 1) == rest@.take(k as int).push(rest@[k as int]));
                k = k + 1;
            }
            assert(rest@.take(rest.len() as int) == rest@);
            assert(v@.subrange(0, i as int) == v@.take(i as int));
            assert(v@.subrange(i as int, v.len() as int) == v@.skip(i as int));
            assert(pv@ == patched(v@, i as int));
            if is_float_syntax(&pv) {
                return Ok(string_from_chars(&pv));
            }
        }
        i = i + 1;
    }
    let mut what = debug_quoted(s.as_str());
    push_str(&mut what, " is not a number");
    Err(Error::BadAceTable { what })
}

/// Read an integer as an ACE file writes it.
fn parse_int_chars(v: &Vec<char>) -> (r: Result<i64, Error>)
    ensures
        match parse_int_in(v@, i64::MIN as int, i64::MAX as int) {
            Some(x) => r == Ok::<i64, Error>(x as i64),
            None => r matches Err(e) && ace_error(e, not_an_integer(v@)),
        },
{
    assert(v@.subrange(0, v.len() as int) == v@);
    match parse_i64(v, 0, v.len()) {
        Some(x) => Ok(x),
        None => {
            let s = string_from_chars(v);
            let mut what = debug_quoted(s.as_str());
            push_str(&mut what, " is not an integer");
            Err(Error::BadAceTable { what })
        },
    }
}

/// The line at `k`, or an empty line past the end of the text.
pub open spec fn line_or_empty(lines: Seq<Seq<char>>, k: int) -> Seq<char> {
    if 0 <= k < lines.len() {
        lines[k]
    } else {
        Seq::empty()
    }
}

/// The `k`-th word, or `default` where there are fewer.
pub open spec fn word_or(ws: Seq<Seq<char>>, k: int, default: Seq<char>) -> Seq<char> {
    if 0 <= k < ws.len() {
        ws[k]
    } else {
        default
    }
}

/// The words of the lines `lo..hi`, in order.
pub open spec fn words_of_lines(lines: Seq<Seq<char>>, lo: int, hi: int) -> Seq<Seq<char>>
    decreases hi - lo,
{
    if hi <= lo {
        Seq::empty()
    } else {
        words_of_lines(lines, lo, hi - 1) + words(line_or_empty(lines, hi - 1))
    }
}

/// The words as integers, or what is said of the first that is none.
pub open spec fn ints_of(ws: Seq<Seq<char>>) -> Result<Seq<i64>, Seq<char>>
    decreases ws.len(),
{
    if ws.len() == 0 {
        Ok(Seq::empty())
    } else {
        match ints_of(ws.drop_last()) {
            Err(m) => Err(m),
            Ok(v) => match parse_int_in(ws.last(), i64::MIN as int, i64::MAX as int) {
                Some(x) => Ok(v.push(x as i64)),
                None => Err(not_an_integer(ws.last())),
            },
        }
    }
}

/// The words as real numbers' text, or what is said of the first that is
/// none.
pub open spec fn floats_of(ws: Seq<Seq<char>>) -> Result<Seq<Seq<char>>, Seq<char>>
    decreases ws.len(),
{
    if ws.len() == 0 {
        Ok(Seq::empty())
    } else {
        match floats_of(ws.drop_last()) {
            Err(m) => Err(m),
            Ok(v) => match float_text(ws.last()) {
                Some(x) => Ok(v.push(x)),
                None => Err(not_a_number(ws.last())),
            },
        }
    }
}

/// The first `n` pairs of words as `(integer, real)`, or what is said of
/// the first word that does not read.
pub open spec fn pairs_upto(ws: Seq<Seq<char>>, n: int) -> Result<Seq<(i64, Seq<char>)>, Seq<char>>
    decreases n,
{
    if n <= 0 {
        Ok(Seq::empty())
    } else {
        match pairs_upto(ws, n - 1) {
            Err(m) => Err(m),
            Ok(v) => match parse_int_in(ws[2 * n - 2], i64::MIN as int, i64::MAX as int) {
                None => Err(not_an_integer(ws[2 * n - 2])),
                Some(a) => match float_text(ws[2 * n - 1]) {
                    None => Err(not_a_number(ws[2 * n - 1])),
                    Some(b) => Ok(v.push((a as i64, b))),
                },
            },
        }
    }
}

/// The words of the lines `lo..hi`.
fn words_of_lines_exec(lines: &Vec<Vec<char>>, lo: u128, hi: u128) -> (r: Vec<Vec<char>>)
    ensures
        rows_view(r@) == words_of_lines(rows_view(lines@), lo as int, hi as int),
{
    let ghost lv = rows_view(lines@);
    let mut r: Vec<Vec<char>> = Vec::new();
    if hi <= lo {
        assert(rows_view(r@) =~= Seq::<Seq<char>>::empty());
        return r;
    }
    let mut k: u128 = lo;
    assert(rows_view(r@) =~= words_of_lines(lv, lo as int, lo as int));
    while k < hi
        invariant
            lo <= k <= hi,
            lv == rows_view(lines@),
            rows_view(r@) == words_of_lines(lv, lo as int, k as int),
        decreases hi - k,
    {
        let empty: Vec<char> = Vec::new();
        let ws = if k < lines.len() as u128 {
            split_words(&lines[k as usize])
        } else {
            split_words(&empty)
        };
        assert(line_or_empty(lv, k as int) == if k < lines.len() { lines@[k as int]@ } else { empty@ });
        let ghost before = rows_view(r@);
        let mut ws = ws;
        r.append(&mut ws);
        assert(rows_view(r@) =~= before + words(line_or_empty(lv, k as int)));
        k = k + 1;
    }
    r
}

/// The words as integers.
fn ints_exec(ws: &Vec<Vec<char>>) -> (r: Result<Vec<i64>, Error>)
    ensures
        match ints_of(rows_view(ws@)) {
            Ok(v) => r matches Ok(x) && x@ == v,
            Err(m) => r matches Err(e) && ace_error(e, m),
        },
{
    let ghost w = rows_view(ws@);
    let mut out: Vec<i64> = Vec::new();
    let mut k: usize = 0;
    while k < ws.len()
        invariant
            k <= ws.len(),
            w == rows_view(ws@),
            ints_of(w.take(k as int)) == Ok::<Seq<i64>, Seq<char>>(out@),
        decreases ws.len() - k,
    {
        assert(w.take(k + 1).drop_last() == w.take(k as int));
        assert(w.take(k + 1).last() == ws@[k as int]@);
        match parse_int_chars(&ws[k]) {
            Ok(x) => out.push(x),
            Err(e) => {
                proof {
                    lemma_ints_of_prefix(w, k + 1);
                }
                return Err(e);
            },
        }
        k = k + 1;
    }
    assert(w.take(ws.len() as int) == w);
    Ok(out)
}

/// Where a prefix of the words fails to read as integers, all of them do,
/// for the same word.
proof fn lemma_ints_of_prefix(w: Seq<Seq<char>>, k: int)
    requires
        0 <= k <= w.len(),
        ints_of(w.take(k)) is Err,
    ensures
        ints_of(w) == ints_of(w.take(k)),
    decreases w.len() - k,
{
    if k < w.len() {
        assert(w.take(k + 1).drop_last() == w.take(k));
        lemma_ints_of_prefix(w, k + 1);
    } else {
        assert(w.take(k) == w);
    }
}

/// Where a prefix of the words fails to read as real numbers, all of them
/// do, for the same word.
proof fn lemma_floats_of_prefix(w: Seq<Seq<char>>, k: int)
    requires
        0 <= k <= w.len(),
        floats_of(w.take(k)) is Err,
    ensures
        floats_of(w) == floats_of(w.take(k)),
    decreases w.len() - k,
{
    if k < w.len() {
        assert(w.take(k + 1).drop_last() == w.take(k));
        lemma_floats_of_prefix(w, k + 1);
    } else {
        assert(w.take(k) == w);
    }
}

/// Where the first pairs fail to read, all of them do, for the same word.
proof fn lemma_pairs_upto_err(w: Seq<Seq<char>>, k: int, n: int)
    requires
        0 <= k <= n,
        pairs_upto(w, k) is Err,
    ensures
        pairs_upto(w, n) == pairs_upto(w, k),
    decreases n - k,
{
    if k < n {
        lemma_pairs_upto_err(w, k, n - 1);
    }
}

/// The words as real numbers' text.
fn floats_exec(ws: &Vec<Vec<char>>) -> (r: Result<Vec<String>, Error>)
    ensures
        match floats_of(rows_view(ws@)) {
            Ok(v) => r matches Ok(x) && strings_view(x@) == v,
            Err(m) => r matches Err(e) && ace_error(e, m),
        },
{
    let ghost w = rows_view(ws@);
    let mut out: Vec<String> = Vec::new();
    let mut k: usize = 0;
    assert(w.take(0) =~= Seq::<Seq<char>>::empty());
    assert(strings_view(out@) =~= Seq::<Seq<char>>::empty());
    while k < ws.len()
        invariant
            k <= ws.len(),
            w == rows_view(ws@),
            floats_of(w.take(k as int)) == Ok::<Seq<Seq<char>>, Seq<char>>(strings_view(out@)),
        decreases ws.len() - k,
    {
        assert(w.take(k + 1).drop_last() == w.take(k as int));
        assert(w.take(k + 1).last() == ws@[k as int]@);
        match parse_float_text(&ws[k]) {
            Ok(x) => {
                let ghost before = strings_view(out@);
                out.push(x);
                assert(strings_view(out@) =~= before.push(x@));
            },
            Err(e) => {
                proof {
                    lemma_floats_of_prefix(w, k + 1);
                }
                return Err(e);
            },
        }
        k = k + 1;
    }
    assert(w.take(ws.len() as int) == w);
    Ok(out)
}

/// The characters of each string.
pub open spec fn strings_view(v: Seq<String>) -> Seq<Seq<char>> {
    Seq::new(v.len(), |i: int| v[i]@)
}

/// The `(integer, real)` pairs a run of words holds; a last word without a
/// partner is left out.
fn pairs_exec(ws: &Vec<Vec<char>>) -> (r: Result<Vec<(i64, String)>, Error>)
    ensures
        match pairs_upto(rows_view(ws@), rows_view(ws@).len() as int / 2) {
            Ok(v) => r matches Ok(x) && pairs_view(x@) == v,
            Err(m) => r matches Err(e) && ace_error(e, m),
        },
{
    let ghost w = rows_view(ws@);
    let n = ws.len() / 2;
    let mut out: Vec<(i64, String)> = Vec::new();
    let mut k: usize = 0;
    assert(pairs_view(out@) =~= Seq::<(i64, Seq<char>)>::empty());
    while k < n
        invariant
            k <= n,
            n == ws.len() / 2,
            w == rows_view(ws@),
            pairs_upto(w, k as int) == Ok::<Seq<(i64, Seq<char>)>, Seq<char>>(pairs_view(out@)),
        decreases n - k,
    {
        assert(w[2 * k as int] == ws@[2 * k as int]@);
        assert(w[2 * k + 1] == ws@[2 * k + 1]@);
        let a = match parse_int_chars(&ws[2 * k]) {
            Ok(a) => a,
            Err(e) => {
                proof {
                    lemma_pairs_upto_err(w, k + 1, n as int);
                }
                return Err(e);
            },
        };
        let b = match parse_float_text(&ws[2 * k + 1]) {
            Ok(b) => b,
            Err(e) => {
                proof {
                    lemma_pairs_upto_err(w, k + 1, n as int);
                }
                return Err(e);
            },
        };
        let ghost before = pairs_view(out@);
        out.push((a, b));
        assert(pairs_view(out@) =~= before.push((a, b@)));
        k = k + 1;
    }
    Ok(out)
}

/// The pairs with their real numbers as characters.
pub open spec fn pairs_view(v: Seq<(i64, String)>) -> Seq<(i64, Seq<char>)> {
    Seq::new(v.len(), |i: int| (v[i].0, v[i].1@))
}

/// The lines an ACE header takes: the name line, the comment, the
/// `(IZ, AW)` pairs, NXS and JXS.
pub open spec fn ace_header_size() -> int {
    12
}

/// Whether the first word of a header is a version such as `2.0.1`: its
/// second byte is a point.
pub open spec fn two_point_zero(first: Seq<char>) -> bool {
    first.len() > 1 && (first[0] as u32) < 0x80 && first[1] == '.'
}

/// A table's name, atomic weight ratio and temperature, and the line its
/// 1.0-style body is laid out from, read from the header at `lines[at]`;
/// or what is said of the first word that does not read.
pub open spec fn header_spec(lines: Seq<Seq<char>>, at: int) -> Result<
    (Seq<char>, Seq<char>, Seq<char>, int),
    Seq<char>,
> {
    let ws = words(line_or_empty(lines, at));
    if two_point_zero(word_or(ws, 0, Seq::empty())) {
        let second = words(line_or_empty(lines, at + 1));
        let w0 = word_or(second, 0, "0"@);
        let w1 = word_or(second, 1, "0"@);
        let w3 = word_or(second, 3, "0"@);
        match float_text(w0) {
            None => Err(not_a_number(w0)),
            Some(awr) => match float_text(w1) {
                None => Err(not_a_number(w1)),
                Some(kt) => match parse_int_in(w3, i64::MIN as int, i64::MAX as int) {
                    None => Err(not_an_integer(w3)),
                    Some(c) => Ok((word_or(ws, 1, Seq::empty()), awr, kt, at + (c as usize) as int)),
                },
            },
        }
    } else {
        let w1 = word_or(ws, 1, "0"@);
        let w2 = word_or(ws, 2, "0"@);
        match float_text(w1) {
            None => Err(not_a_number(w1)),
            Some(awr) => match float_text(w2) {
                None => Err(not_a_number(w2)),
                Some(kt) => Ok((word_or(ws, 0, Seq::empty()), awr, kt, at)),
            },
        }
    }
}

/// The number of XSS values NXS declares: its first element, not below
/// zero, as a `usize`.
pub open spec fn xss_length(nxs: Seq<i64>) -> int {
    if nxs.len() >= 1 {
        ((if nxs[0] > 0 {
            nxs[0] as int
        } else {
            0
        }) as usize) as int
    } else {
        0
    }
}

/// Whether a table of this name is not among those wanted.
pub open spec fn skipped(wanted: Option<Seq<Seq<char>>>, name: Seq<char>) -> bool {
    wanted matches Some(names) && !names.contains(name)
}

/// What is said of a table whose XSS array is not as long as NXS declares.
pub open spec fn count_mismatch(name: Seq<char>, length: int, read: int) -> Seq<char> {
    "table "@ + debug_text(name) + " declares "@ + decimal(length as nat) + " values in XSS but "@
        + decimal(read as nat) + " were read"@
}

/// A table as plain values: name, atomic weight ratio, temperature, the
/// `(IZ, AW)` pairs, NXS, JXS and XSS, the real numbers as their text.
pub type TableView = (
    Seq<char>,
    Seq<char>,
    Seq<char>,
    Seq<(i64, Seq<char>)>,
    Seq<i64>,
    Seq<i64>,
    Seq<Seq<char>>,
);

/// The table whose header is `lines[at]`, or `None` where it is not wanted,
/// and the line after it; or what is said of the first thing that does not
/// read.
pub open spec fn table_spec(lines: Seq<Seq<char>>, at: int, wanted: Option<Seq<Seq<char>>>) -> Result<
    (Option<TableView>, int),
    Seq<char>,
> {
    match header_spec(lines, at) {
        Err(m) => Err(m),
        Ok((name, awr, kt, body)) => {
            let pw = words_of_lines(lines, body + 2, body + 6);
            match pairs_upto(pw, pw.len() as int / 2) {
                Err(m) => Err(m),
                Ok(pairs) => match ints_of(words_of_lines(lines, body + 6, body + 8)) {
                    Err(m) => Err(m),
                    Ok(nxs) => match ints_of(words_of_lines(lines, body + 8, body + 12)) {
                        Err(m) => Err(m),
                        Ok(jxs) => {
                            let length = xss_length(nxs);
                            let next = body + ace_header_size() + lines_for(length, 4);
                            if skipped(wanted, name) {
                                Ok((None, next))
                            } else {
                                match floats_of(words_of_lines(lines, body + 12, next)) {
                                    Err(m) => Err(m),
                                    Ok(xss) => if xss.len() != length {
                                        Err(count_mismatch(name, length, xss.len() as int))
                                    } else {
                                        Ok(
                                            (
                                                Some(
                                                    (
                                                        name,
                                                        awr,
                                                        kt,
                                                        pairs,
                                                        seq![0i64] + nxs,
                                                        seq![0i64] + jxs,
                                                        seq!["0.0"@] + xss,
                                                    ),
                                                ),
                                                next,
                                            ),
                                        )
                                    },
                                }
                            }
                        },
                    },
                },
            }
        },
    }
}

/// A table always ends at least a header's length after it starts.
pub proof fn lemma_table_next(lines: Seq<Seq<char>>, at: int, wanted: Option<Seq<Seq<char>>>)
    ensures
        table_spec(lines, at, wanted) matches Ok((_, next)) ==> next >= at + 12,
{
    if let Ok((name, awr, kt, body)) = header_spec(lines, at) {
        assert(body >= at);
        if let Ok(nxs) = ints_of(words_of_lines(lines, body + 6, body + 8)) {
            let length = xss_length(nxs);
            assert(length >= 0);
            assert(lines_for(length, 4) >= 0);
        }
    }
}

/// How many lines are left from `at` on.
pub open spec fn lines_left(lines: Seq<Seq<char>>, at: int) -> int {
    if at < lines.len() {
        lines.len() - at
    } else {
        0
    }
}

/// The tables from the header at `lines[at]` on, after those in `acc`, up
/// to a blank line or the end of the text, or until every wanted table has
/// been found; or what is said of the first thing that does not read.
pub open spec fn tables_spec(
    lines: Seq<Seq<char>>,
    at: int,
    wanted: Option<Seq<Seq<char>>>,
    acc: Seq<TableView>,
) -> Result<Seq<TableView>, Seq<char>>
    decreases lines_left(lines, at),
{
    if at < 0 || at >= lines.len() || trim(lines[at]).len() == 0 {
        Ok(acc)
    } else {
        match table_spec(lines, at, wanted) {
            Err(m) => Err(m),
            Ok((t, next)) => {
                proof {
                    lemma_table_next(lines, at, wanted);
                }
                match t {
                    None => tables_spec(lines, next, wanted, acc),
                    Some(x) => if wanted matches Some(names) && acc.len() + 1 == names.len() {
                        Ok(acc.push(x))
                    } else {
                        tables_spec(lines, next, wanted, acc.push(x))
                    },
                }
            },
        }
    }
}

/// One ACE cross section table. The real numbers are kept as text that a
/// floating point parser reads.
///
/// `nxs`, `jxs` and `xss` each carry an unused element at index 0, so that
/// the one-based indices the ACE specification uses can be written
/// directly.
#[derive(Debug, Clone, PartialEq, Eq)]
pub struct Table {
    /// Full identifier, e.g. `"92235.70c"`.
    pub name: String,
    pub atomic_weight_ratio: String,
    /// Temperature in MeV, as the file stores it.
    pub kt: String,
    /// The (IZ, AW) pairs of the header.
    pub pairs: Vec<(i64, String)>,
    pub nxs: Vec<i64>,
    pub jxs: Vec<i64>,
    pub xss: Vec<String>,
}

/// A table as plain values.
pub open spec fn table_view(t: Table) -> TableView {
    (t.name@, t.atomic_weight_ratio@, t.kt@, pairs_view(t.pairs@), t.nxs@, t.jxs@, strings_view(t.xss@))
}

/// The word at `k`, or `default` where there are fewer.
fn word_or_exec(ws: &Vec<Vec<char>>, k: usize, default: Vec<char>) -> (r: Vec<char>)
    ensures
        r@ == word_or(rows_view(ws@), k as int, default@),
{
    if k < ws.len() {
        ws[k].clone()
    } else {
        default
    }
}

/// The words of the line at `k`, or none past the end.
fn line_words(lines: &Vec<Vec<char>>, k: u128) -> (r: Vec<Vec<char>>)
    ensures
        rows_view(r@) == words(line_or_empty(rows_view(lines@), k as int)),
{
    if k < lines.len() as u128 {
        split_words(&lines[k as usize])
    } else {
        let empty: Vec<char> = Vec::new();
        assert(empty@ =~= line_or_empty(rows_view(lines@), k as int));
        split_words(&empty)
    }
}

/// Read the header at `lines[at]`.
#[verifier::rlimit(40)]
fn read_header(lines: &Vec<Vec<char>>, at: u128) -> (r: Result<(String, String, String, u128), Error>)
    requires
        at < lines.len(),
    ensures
        match header_spec(rows_view(lines@), at as int) {
            Ok((name, awr, kt, body)) => r matches Ok((n, a, k, b)) && n@ == name && a@ == awr
                && k@ == kt && b == body,
            Err(m) => r matches Err(e) && ace_error(e, m),
        },
{
    proof {
        reveal_strlit("0");
    }
    let ghost lv = rows_view(lines@);
    let ws = line_words(lines, at);
    let nothing: Vec<char> = Vec::new();
    assert(nothing@ =~= Seq::<char>::empty());
    let first = word_or_exec(&ws, 0, nothing);
    assert(first@ == word_or(words(line_or_empty(lv, at as int)), 0, Seq::empty()));
    if first.len() > 1 && (first[0] as u32) < 0x80 && first[1] == '.' {
        assert(two_point_zero(first@));
        let second = line_words(lines, at + 1);
        let zero: Vec<char> = vec!['0'];
        assert(zero@ == "0"@);
        let w0 = word_or_exec(&second, 0, zero.clone());
        let w1 = word_or_exec(&second, 1, zero.clone());
        let w3 = word_or_exec(&second, 3, zero);
        let awr = parse_float_text(&w0)?;
        let kt = parse_float_text(&w1)?;
        let c = parse_int_chars(&w3)?;
        let nothing: Vec<char> = Vec::new();
        assert(nothing@ =~= Seq::<char>::empty());
        let name = string_from_chars(&word_or_exec(&ws, 1, nothing));
        #[verifier::truncate]
        let comment: usize = c as usize;
        Ok((name, awr, kt, at + comment as u128))
    } else {
        assert(!two_point_zero(first@));
        let zero: Vec<char> = vec!['0'];
        assert(zero@ == "0"@);
        let w1 = word_or_exec(&ws, 1, zero.clone());
        let w2 = word_or_exec(&ws, 2, zero);
        let awr = parse_float_text(&w1)?;
        let kt = parse_float_text(&w2)?;
        let name = string_from_chars(&first);
        Ok((name, awr, kt, at))
    }
}

/// The names of the wanted tables, as characters.
pub open spec fn wanted_view(wanted: Option<&[String]>) -> Option<Seq<Seq<char>>> {
    match wanted {
        Some(w) => Some(strings_view(w@)),
        None => None,
    }
}

/// Whether a table of this name is not among those wanted.
fn is_skipped(wanted: Option<&[String]>, name: &String) -> (r: bool)
    ensures
        r == skipped(wanted_view(wanted), name@),
{
    match wanted {
        None => false,
        Some(names) => {
            assert(wanted_view(wanted) == Some(strings_view(names@)));
            let mut i: usize = 0;
            while i < names.len()
                invariant
                    i <= names@.len(),
                    wanted_view(wanted) == Some(strings_view(names@)),
                    forall|j: int| 0 <= j < i ==> (#[trigger] strings_view(names@)[j]) != name@,
                decreases names.len() - i,
            {
                if crate::text::str_eq(names[i].as_str(), name.as_str()) {
                    assert(strings_view(names@)[i as int] == name@);
                    assert(strings_view(names@).contains(name@));
                    return false;
                }
                i = i + 1;
            }
            true
        },
    }
}

/// Read the table whose header is `lines[at]`.
#[verifier::rlimit(60)]
fn read_table(lines: &Vec<Vec<char>>, at: u128, wanted: Option<&[String]>) -> (r: Result<
    (Option<Table>, u128),
    Error,
>)
    requires
        at < lines.len(),
    ensures
        match table_spec(rows_view(lines@), at as int, wanted_view(wanted)) {
            Ok((t, next)) => r matches Ok((x, n)) && n == next && match t {
                Some(tv) => x matches Some(tt) && table_view(tt) == tv,
                None => x is None,
            },
            Err(m) => r matches Err(e) && ace_error(e, m),
        },
{
    let ghost lv = rows_view(lines@);
    let (name, awr, kt, body) = read_header(lines, at)?;
    assert(body <= at + usize::MAX);
    let pw = words_of_lines_exec(lines, body + 2, body + 6);
    let pairs = pairs_exec(&pw)?;
    let nxs_words = words_of_lines_exec(lines, body + 6, body + 8);
    let nxs0 = ints_exec(&nxs_words)?;
    let jxs_words = words_of_lines_exec(lines, body + 8, body + 12);
    let jxs0 = ints_exec(&jxs_words)?;
    let length: usize = if nxs0.len() >= 1 {
        let v: i64 = if nxs0[0] > 0 {
            nxs0[0]
        } else {
            0
        };
        #[verifier::truncate]
        (v as usize)
    } else {
        0
    };
    assert(length == xss_length(nxs0@));
    let n_lines: u128 = (length as u128 + 3) / 4;
    let next: u128 = body + 12 + n_lines;
    if is_skipped(wanted, &name) {
        return Ok((None, next));
    }
    let xss_words = words_of_lines_exec(lines, body + 12, next);
    let xss0 = floats_exec(&xss_words)?;
    if xss0.len() != length {
        let mut what = String::new();
        push_str(&mut what, "table ");
        let q = debug_quoted(name.as_str());
        push_str(&mut what, q.as_str());
        push_str(&mut what, " declares ");
        crate::text::push_decimal(&mut what, length as u64);
        push_str(&mut what, " values in XSS but ");
        crate::text::push_decimal(&mut what, xss0.len() as u64);
        push_str(&mut what, " were read");
        return Err(Error::BadAceTable { what });
    }
    let mut nxs: Vec<i64> = vec![0];
    nxs.append(&mut nxs0.clone());
    let mut jxs: Vec<i64> = vec![0];
    jxs.append(&mut jxs0.clone());
    let mut xss: Vec<String> = Vec::new();
    let zero = string_from_chars(&vec!['0', '.', '0']);
    proof {
        reveal_strlit("0.0");
    }
    assert(zero@ == "0.0"@);
    xss.push(zero);
    let mut k: usize = 0;
    assert(strings_view(xss@) =~= seq!["0.0"@] + strings_view(xss0@).take(0));
    while k < xss0.len()
        invariant
            k <= xss0.len(),
            xss@.len() == k + 1,
            strings_view(xss@) == seq!["0.0"@] + strings_view(xss0@).take(k as int),
        decreases xss0.len() - k,
    {
        proof {
            reveal_strlit("0.0");
        }
        let ghost before = strings_view(xss@);
        xss.push(xss0[k].clone());
        assert(strings_view(xss0@).take(k + 1) == strings_view(xss0@).take(k as int).push(xss0@[k as int]@));
        assert(strings_view(xss@) =~= before.push(xss0@[k as int]@));
        k = k + 1;
    }
    proof {
        reveal_strlit("0.0");
        assert(strings_view(xss0@).take(xss0.len() as int) == strings_view(xss0@));
        assert(nxs@ =~= seq![0i64] + nxs0@);
        assert(jxs@ =~= seq![0i64] + jxs0@);
    }
    Ok((Some(Table { name, atomic_weight_ratio: awr, kt, pairs, nxs, jxs, xss }), next))
}

/// Read tables from the text of an ASCII ACE file: every table, or those
/// named in `wanted`, stopping once all of those are found.
#[verifier::loop_isolation(false)]
pub fn tables_from_str(text: &str, wanted: Option<&[String]>) -> (r: Result<Vec<Table>, Error>)
    ensures
        match tables_spec(lines_of(text@), 0, wanted_view(wanted), Seq::empty()) {
            Ok(ts) => r matches Ok(v) && v@.len() == ts.len() && forall|i: int|
                0 <= i < ts.len() ==> table_view(#[trigger] v@[i]) == ts[i],
            Err(m) => r matches Err(e) && ace_error(e, m),
        },
{
    let raw = str_lines(text);
    let mut lines: Vec<Vec<char>> = Vec::new();
    let mut i: usize = 0;
    while i < raw.len()
        invariant
            i <= raw.len(),
            rows_view(lines@) == lines_of(text@).take(i as int),
            raw@.len() == lines_of(text@).len(),
            forall|j: int| 0 <= j < raw@.len() ==> #[trigger] raw@[j]@ == lines_of(text@)[j],
        decreases raw.len() - i,
    {
        let ghost before = rows_view(lines@);
        lines.push(chars_of(raw[i]));
        assert(rows_view(lines@) =~= lines_of(text@).take(i + 1));
        i = i + 1;
    }
    let ghost lv = rows_view(lines@);
    assert(lv =~= lines_of(text@));
    let ghost w = wanted_view(wanted);
    let mut tables: Vec<Table> = Vec::new();
    let ghost mut acc: Seq<TableView> = Seq::empty();
    let mut at: u128 = 0;
    loop
        invariant
            lv == rows_view(lines@),
            tables_spec(lv, 0, w, Seq::empty()) == tables_spec(lv, at as int, w, acc),
            tables@.len() == acc.len(),
            forall|j: int| 0 <= j < acc.len() ==> table_view(#[trigger] tables@[j]) == acc[j],
            wanted matches Some(names) ==> acc.len() < names@.len() || acc.len() == 0,
        decreases lines_left(lv, at as int),
    {
        if at >= lines.len() as u128 {
            break;
        }
        let t = crate::text::trim_chars(&lines[at as usize]);
        if t.len() == 0 {
            break;
        }
        proof {
            lemma_table_next(lv, at as int, w);
        }
        let (found, next) = read_table(&lines, at, wanted)?;
        match found {
            None => {
                at = next;
            },
            Some(x) => {
                proof {
                    acc = acc.push(table_view(x));
                }
                tables.push(x);
                match wanted {
                    Some(names) => {
                        if tables.len() == names.len() {
                            break;
                        }
                    },
                    None => {},
                }
                at = next;
            },
        }
    }
    Ok(tables)
}

/// The index of the first `.` in a table name, or its length.
pub open spec fn name_dot(s: Seq<char>) -> int {
    point_at(s, 0)
}

/// The ZAID a table's name opens with: the part before the first point.
pub open spec fn zaid_spec(name: Seq<char>) -> Option<int> {
    parse_int_in(name.take(name_dot(name)), i64::MIN as int, i64::MAX as int)
}

/// The suffix of a table's name: the part after the first point, up to the
/// next.
pub open spec fn suffix_spec(name: Seq<char>) -> Option<Seq<char>> {
    if name_dot(name) < name.len() {
        let rest = name.skip(name_dot(name) + 1);
        Some(rest.take(name_dot(rest)))
    } else {
        None
    }
}

/// The index of the first `.` in `v` from `from` on, or its length.
fn find_point(v: &Vec<char>, from: usize) -> (r: usize)
    requires
        from <= v.len(),
    ensures
        from <= r <= v.len(),
        point_at(v@.subrange(from as int, v.len() as int), 0) == r - from,
{
    let ghost t = v@.subrange(from as int, v.len() as int);
    let mut k: usize = from;
    while k < v.len() && v[k] != '.'
        invariant
            from <= k <= v.len(),
            t == v@.subrange(from as int, v.len() as int),
            point_at(t, 0) == point_at(t, k - from),
        decreases v.len() - k,
    {
        k = k + 1;
    }
    k
}

impl Table {
    /// The ZAID, the part of the name before the first point.
    pub fn zaid(&self) -> (r: Result<i64, Error>)
        ensures
            match zaid_spec(self.name@) {
                Some(z) => r == Ok::<i64, Error>(z as i64),
                None => r matches Err(e) && ace_error(
                    e,
                    "table name "@ + debug_text(self.name@) + " has no ZAID"@,
                ),
            },
    {
        let v = chars_of(self.name.as_str());
        let d = find_point(&v, 0);
        assert(v@.subrange(0, v.len() as int) == v@);
        assert(v@.take(d as int) == v@.subrange(0, d as int));
        match parse_i64(&v, 0, d) {
            Some(z) => Ok(z),
            None => {
                let mut what = String::new();
                push_str(&mut what, "table name ");
                let q = debug_quoted(self.name.as_str());
                push_str(&mut what, q.as_str());
                push_str(&mut what, " has no ZAID");
                Err(Error::BadAceTable { what })
            },
        }
    }

    /// What kind of data this table holds, by its suffix.
    pub fn data_type(&self) -> (r: Result<TableType, Error>)
        ensures
            match suffix_spec(self.name@) {
                Some(suffix) => match TableType::from_suffix_spec(suffix) {
                    Some(t) => r == Ok::<TableType, Error>(t),
                    None => r is Err,
                },
                None => r matches Err(e) && ace_error(
                    e,
                    "table name "@ + debug_text(self.name@) + " has no suffix"@,
                ),
            },
    {
        let v = chars_of(self.name.as_str());
        let d = find_point(&v, 0);
        assert(v@.subrange(0, v.len() as int) == v@);
        if d == v.len() {
            let mut what = String::new();
            push_str(&mut what, "table name ");
            let q = debug_quoted(self.name.as_str());
            push_str(&mut what, q.as_str());
            push_str(&mut what, " has no suffix");
            return Err(Error::BadAceTable { what });
        }
        let e = find_point(&v, d + 1);
        let ghost rest = v@.skip(d + 1);
        assert(rest == v@.subrange(d + 1, v.len() as int));
        assert(rest.take(e - d - 1) == v@.subrange(d + 1, e as int));
        let suffix = string_from_chars(&slice_chars(&v, d + 1, e));
        TableType::from_suffix(suffix.as_str())
    }
}

} // verus!
