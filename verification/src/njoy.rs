//! What NJOY needs of an evaluation that is not a file: the library names
//! its NLIB values stand for, and the metastable marking ACER leaves out of
//! the ZAID.

use vstd::prelude::*;
use vstd::string::*;
use vstd::utf8::*;

use crate::records::str_get;
use crate::text::{
    decimal, lemma_ascii_boundary, lemma_encode_concat, lemma_end_boundary, push_decimal, push_signed, push_str,
    signed_decimal, string_from_chars, string_push,
};

verus! {

broadcast use {
    vstd::string::group_string_axioms,
    vstd::utf8::encode_utf8_valid_utf8,
    vstd::slice::group_slice_axioms,
};

/// The library an NLIB value names.
pub open spec fn library_spec(nlib: i64) -> Seq<char> {
    if nlib == 0 {
        seq!['E', 'N', 'D', 'F', '/', 'B']
    } else if nlib == 1 {
        seq!['E', 'N', 'D', 'F', '/', 'A']
    } else if nlib == 2 {
        seq!['J', 'E', 'F', 'F']
    } else if nlib == 3 {
        seq!['E', 'F', 'F']
    } else if nlib == 4 {
        seq!['E', 'N', 'D', 'F', '/', 'B', ' ', 'H', 'i', 'g', 'h', ' ', 'E', 'n', 'e', 'r', 'g', 'y']
    } else if nlib == 5 {
        seq!['C', 'E', 'N', 'D', 'L']
    } else if nlib == 6 {
        seq!['J', 'E', 'N', 'D', 'L']
    } else if nlib == 17 {
        seq!['T', 'E', 'N', 'D', 'L']
    } else if nlib == 18 {
        seq!['R', 'O', 'S', 'F', 'O', 'N', 'D']
    } else if nlib == 21 {
        seq!['S', 'G', '-', '2', '3']
    } else if nlib == 31 {
        seq!['I', 'N', 'D', 'L', '/', 'V']
    } else if nlib == 32 {
        seq!['I', 'N', 'D', 'L', '/', 'A']
    } else if nlib == 33 {
        seq!['F', 'E', 'N', 'D', 'L']
    } else if nlib == 34 {
        seq!['I', 'R', 'D', 'F']
    } else if nlib == 35 {
        seq!['B', 'R', 'O', 'N', 'D']
    } else if nlib == 36 {
        seq!['I', 'N', 'G', 'D', 'B', '-', '9', '0']
    } else if nlib == 37 {
        seq!['F', 'E', 'N', 'D', 'L', '/', 'A']
    } else if nlib == 38 {
        seq!['I', 'A', 'E', 'A', '/', 'P', 'D']
    } else if nlib == 41 {
        seq!['B', 'R', 'O', 'N', 'D']
    } else {
        seq!['U', 'n', 'k', 'n', 'o', 'w', 'n']
    }
}

/// The library an NLIB value names, or `"Unknown"`.
pub fn library_name(nlib: i64) -> (r: String)
    ensures
        r@ == library_spec(nlib),
{
    let v: Vec<char> = if nlib == 0 {
        vec!['E', 'N', 'D', 'F', '/', 'B']
    } else if nlib == 1 {
        vec!['E', 'N', 'D', 'F', '/', 'A']
    } else if nlib == 2 {
        vec!['J', 'E', 'F', 'F']
    } else if nlib == 3 {
        vec!['E', 'F', 'F']
    } else if nlib == 4 {
        vec!['E', 'N', 'D', 'F', '/', 'B', ' ', 'H', 'i', 'g', 'h', ' ', 'E', 'n', 'e', 'r', 'g', 'y']
    } else if nlib == 5 {
        vec!['C', 'E', 'N', 'D', 'L']
    } else if nlib == 6 {
        vec!['J', 'E', 'N', 'D', 'L']
    } else if nlib == 17 {
        vec!['T', 'E', 'N', 'D', 'L']
    } else if nlib == 18 {
        vec!['R', 'O', 'S', 'F', 'O', 'N', 'D']
    } else if nlib == 21 {
        vec!['S', 'G', '-', '2', '3']
    } else if nlib == 31 {
        vec!['I', 'N', 'D', 'L', '/', 'V']
    } else if nlib == 32 {
        vec!['I', 'N', 'D', 'L', '/', 'A']
    } else if nlib == 33 {
        vec!['F', 'E', 'N', 'D', 'L']
    } else if nlib == 34 {
        vec!['I', 'R', 'D', 'F']
    } else if nlib == 35 {
        vec!['B', 'R', 'O', 'N', 'D']
    } else if nlib == 36 {
        vec!['I', 'N', 'G', 'D', 'B', '-', '9', '0']
    } else if nlib == 37 {
        vec!['F', 'E', 'N', 'D', 'L', '/', 'A']
    } else if nlib == 38 {
        vec!['I', 'A', 'E', 'A', '/', 'P', 'D']
    } else if nlib == 41 {
        vec!['B', 'R', 'O', 'N', 'D']
    } else {
        vec!['U', 'n', 'k', 'n', 'o', 'w', 'n']
    };
    string_from_chars(&v)
}

/// The bytes of a ZAID header once the metastable marking is added: 400 goes
/// onto the mass number by raising the fourth byte, its first digit, by
/// four. Left alone for the ground state, and where that digit is above two
/// and would carry, or is not a digit at all.
pub open spec fn marked_zaid(b: Seq<u8>, isomeric_state: i64) -> Seq<u8> {
    if isomeric_state != 0 && b.len() > 3 && 48 <= b[3] <= 50 {
        b.update(3, (b[3] + 4) as u8)
    } else {
        b
    }
}

/// Mark a metastable target in the ZAID of an ACE header. ACER writes no
/// isomeric state, so 400 goes onto the mass number: the header
/// right-justifies the ZAID in ten columns, so the mass number's first digit
/// is the fourth character.
pub fn metastable_zaid(text: &str, isomeric_state: i64) -> (r: String)
    ensures
        encode_utf8(r@) == marked_zaid(text.spec_bytes(), isomeric_state),
{
    let bytes = text.as_bytes();
    let ghost b = bytes@;
    if isomeric_state == 0 || bytes.len() <= 3 || !(48 <= bytes[3] && bytes[3] <= 50) {
        return text.to_owned();
    }
    let d = bytes[3];
    proof {
        lemma_ascii_boundary(b, 3);
        lemma_end_boundary(b);
    }
    let len = bytes.len();
    let head = match str_get(text, 0, 3) {
        Some(h) => h,
        None => {
            assert(false);
            return text.to_owned();
        },
    };
    let tail = match str_get(text, 4, len) {
        Some(t) => t,
        None => {
            assert(false);
            return text.to_owned();
        },
    };
    let mut r = String::new();
    push_str(&mut r, head);
    let c = digit_after(d);
    string_push(&mut r, c);
    push_str(&mut r, tail);
    proof {
        let hb = head.spec_bytes();
        let tb = tail.spec_bytes();
        lemma_encode_concat(head@, seq![c]);
        lemma_encode_concat(head@ + seq![c], tail@);
        assert(r@ == head@ + seq![c] + tail@);
        assert(encode_utf8(seq![c]) =~= seq![(d + 4) as u8]);
        assert(encode_utf8(r@) =~= hb + seq![(d + 4) as u8] + tb);
        assert(hb + seq![(d + 4) as u8] + tb =~= b.update(3, (d + 4) as u8));
    }
    r
}

/// The digit four above the digit with byte `d`.
fn digit_after(d: u8) -> (c: char)
    requires
        48 <= d <= 50,
    ensures
        c as u32 == d + 4,
        encode_utf8(seq![c]) == seq![(d + 4) as u8],
{
    let c = if d == 48 {
        '4'
    } else if d == 49 {
        '5'
    } else {
        '6'
    };
    proof {
        let u: u32 = (d + 4) as u32;
        assert(c as u32 == u);
        assert(u & 0x7F == u) by (bit_vector)
            requires
                u < 128,
        ;
        let s = seq![c];
        assert(s.drop_first() =~= Seq::<char>::empty());
        assert(encode_utf8(s) =~= encode_scalar(c as u32) + encode_utf8(s.drop_first()));
    }
    c
}

/// Which NJOY modules a deck runs, and whether the PENDF tape that RECONR
/// writes is kept.
#[derive(Debug, Clone, Copy, PartialEq, Eq)]
pub struct Modules {
    pub pendf: bool,
    pub broadr: bool,
    pub heatr: bool,
    pub gaspr: bool,
    pub purr: bool,
    pub acer: bool,
}

/// The tape units of a deck. NJOY refers to files by unit number, and each
/// module reads the tape the one before it wrote, so the numbers thread
/// through in sequence: the evaluation goes in on unit 20 and RECONR writes
/// unit 21.
#[derive(Debug, Clone, PartialEq, Eq)]
pub struct TapePlan {
    /// The unit BROADR writes; it reads 20 and 21.
    pub broadr: Option<i32>,
    /// The unit both HEATR runs read, the one the run with local photons
    /// writes, and the one the other writes.
    pub heatr: Option<(i32, i32, i32)>,
    /// The unit GASPR reads and the one it writes.
    pub gaspr: Option<(i32, i32)>,
    /// The unit PURR reads and the one it writes.
    pub purr: Option<(i32, i32)>,
    /// The unit ACER reads, and for each temperature the units of its ACE
    /// and xsdir tapes.
    pub acer: Option<(i32, Vec<(i32, i32)>)>,
    /// The units written to files, in ascending order.
    pub kept: Vec<i32>,
}

/// The last unit written once BROADR, HEATR, GASPR and PURR have run, as far
/// as they are on, after RECONR's unit 21.
pub open spec fn last_before_acer(m: Modules) -> int {
    21 + (if m.broadr {
        1int
    } else {
        0
    }) + (if m.heatr {
        2int
    } else {
        0
    }) + (if m.gaspr {
        1int
    } else {
        0
    }) + (if m.purr {
        1int
    } else {
        0
    })
}

/// The last unit a deck writes.
pub open spec fn last_unit(m: Modules, n_temperatures: int) -> int {
    last_before_acer(m) + if m.acer {
        2 * n_temperatures
    } else {
        0
    }
}

/// The units in `lo..=hi`, ascending.
pub open spec fn unit_range(lo: int, hi: int) -> Seq<i32>
    decreases hi - lo + 1,
{
    if hi < lo {
        Seq::empty()
    } else {
        unit_range(lo, hi - 1).push(hi as i32)
    }
}

/// Whether a plan threads the units through in sequence as NJOY needs.
pub open spec fn plan_matches(p: TapePlan, m: Modules, n_temperatures: int) -> bool {
    let nb = 21 + if m.broadr {
        1int
    } else {
        0
    };
    let nh = nb + if m.heatr {
        2int
    } else {
        0
    };
    let ng = nh + if m.gaspr {
        1int
    } else {
        0
    };
    let np = ng + if m.purr {
        1int
    } else {
        0
    };
    &&& p.broadr == if m.broadr {
        Some(22i32)
    } else {
        None
    }
    &&& p.heatr == if m.heatr {
        Some((nb as i32, (nb + 1) as i32, (nb + 2) as i32))
    } else {
        None
    }
    &&& p.gaspr == if m.gaspr {
        Some((nh as i32, (nh + 1) as i32))
    } else {
        None
    }
    &&& p.purr == if m.purr {
        Some((ng as i32, (ng + 1) as i32))
    } else {
        None
    }
    &&& match p.acer {
        Some((input, units)) => m.acer && input == np && units@.len() == n_temperatures
            && forall|i: int|
            0 <= i < n_temperatures ==> #[trigger] units@[i] == ((np + 1 + 2 * i) as i32, (np + 2
                + 2 * i) as i32),
        None => !m.acer,
    }
    &&& p.kept@ == unit_range(
        if m.pendf {
            21
        } else {
            22
        },
        last_unit(m, n_temperatures),
    )
}

/// The units from `lo` up to `hi` are one more unit than those up to
/// `hi - 1`.
proof fn lemma_unit_range_push(lo: int, hi: int)
    requires
        lo <= hi,
    ensures
        unit_range(lo, hi) == unit_range(lo, hi - 1).push(hi as i32),
{
}

/// The units a deck reads and writes, for the modules it runs and the
/// number of temperatures ACER writes tables for. Every tape a module
/// writes is kept but RECONR's, which is kept only where the PENDF tape is
/// wanted; so the kept units run on without a hole where a module is off.
pub fn tape_plan(m: Modules, n_temperatures: usize) -> (p: TapePlan)
    requires
        last_unit(m, n_temperatures as int) <= i32::MAX,
    ensures
        plan_matches(p, m, n_temperatures as int),
{
    let ghost first: int = if m.pendf {
        21
    } else {
        22
    };
    let mut kept: Vec<i32> = Vec::new();
    let mut nlast: i32 = 21;
    if m.pendf {
        kept.push(21);
        proof {
            lemma_unit_range_push(21, 21);
        }
        assert(kept@ =~= unit_range(21, 21));
    } else {
        assert(kept@ =~= unit_range(22, 21));
    }
    let broadr = if m.broadr {
        nlast = nlast + 1;
        kept.push(nlast);
        proof {
            lemma_unit_range_push(first, nlast as int);
        }
        Some(nlast)
    } else {
        None
    };
    let heatr = if m.heatr {
        let input = nlast;
        kept.push(input + 1);
        proof {
            lemma_unit_range_push(first, (input + 1) as int);
        }
        kept.push(input + 2);
        proof {
            lemma_unit_range_push(first, (input + 2) as int);
        }
        nlast = nlast + 2;
        Some((input, input + 1, input + 2))
    } else {
        None
    };
    let gaspr = if m.gaspr {
        let input = nlast;
        nlast = nlast + 1;
        kept.push(nlast);
        proof {
            lemma_unit_range_push(first, nlast as int);
        }
        Some((input, nlast))
    } else {
        None
    };
    let purr = if m.purr {
        let input = nlast;
        nlast = nlast + 1;
        kept.push(nlast);
        proof {
            lemma_unit_range_push(first, nlast as int);
        }
        Some((input, nlast))
    } else {
        None
    };
    assert(nlast == last_before_acer(m));
    assert(kept@ == unit_range(first, nlast as int));
    let acer = if m.acer {
        let input = nlast;
        let mut units: Vec<(i32, i32)> = Vec::new();
        let mut i: usize = 0;
        while i < n_temperatures
            invariant
                i <= n_temperatures,
                input == last_before_acer(m),
                m.acer,
                last_unit(m, n_temperatures as int) <= i32::MAX,
                first == (if m.pendf {
                    21int
                } else {
                    22
                }),
                units@.len() == i,
                forall|k: int|
                    0 <= k < i ==> #[trigger] units@[k] == ((input + 1 + 2 * k) as i32, (input + 2 + 2
                        * k) as i32),
                kept@ == unit_range(first, input + 2 * i),
            decreases n_temperatures - i,
        {
            let ace: i32 = input + 1 + 2 * (i as i32);
            units.push((ace, ace + 1));
            kept.push(ace);
            proof {
                lemma_unit_range_push(first, ace as int);
            }
            kept.push(ace + 1);
            proof {
                lemma_unit_range_push(first, (ace + 1) as int);
            }
            i = i + 1;
        }
        Some((input, units))
    } else {
        None
    };
    TapePlan { broadr, heatr, gaspr, purr, acer, kept }
}


/// An integer as the deck writes it.
pub open spec fn dec(v: int) -> Seq<char> {
    signed_decimal(v)
}

/// The temperatures as the deck lists them, separated by single spaces.
pub open spec fn joined(ts: Seq<Seq<char>>) -> Seq<char>
    decreases ts.len(),
{
    if ts.len() == 0 {
        Seq::empty()
    } else if ts.len() == 1 {
        ts[0]
    } else {
        joined(ts.drop_last()) + " "@ + ts.last()
    }
}

/// The suffix of the `k`-th ACE table, `{:02}`: at least two digits.
pub open spec fn ext_text(k: nat) -> Seq<char> {
    if k < 10 {
        seq!['0'] + decimal(k)
    } else {
        decimal(k)
    }
}

/// RECONR: the evaluation on unit 20 reconstructed onto unit 21.
pub open spec fn reconr_text(mat: i32, library: Seq<char>, zsymam: Seq<char>, error: Seq<char>) -> Seq<char> {
    "\nreconr / %%%%%%%%%%%%%%%%%%% Reconstruct XS for neutrons %%%%%%%%%%%%%%%%%%%%%%%\n20 21\n'"@
        + library
        + " PENDF for "@
        + zsymam
        + "'/\n"@
        + dec(mat as int)
        + " 2/\n"@
        + error
        + "/ err\n'"@
        + library
        + ": "@
        + zsymam
        + "'/\n'Processed by NJOY'/\n0/\n"@
}

/// BROADR: Doppler broadening onto unit `nb`.
pub open spec fn broadr_text(nb: i32, mat: i32, nt: int, error: Seq<char>, temps: Seq<char>) -> Seq<char> {
    "\nbroadr / %%%%%%%%%%%%%%%%%%%%%%% Doppler broaden XS %%%%%%%%%%%%%%%%%%%%%%%%%%%%\n20 21 "@
        + dec(nb as int)
        + "\n"@
        + dec(mat as int)
        + " "@
        + decimal(nt as nat)
        + " 0 0 0. /\n"@
        + error
        + "/ errthn\n"@
        + temps
        + "\n0/\n"@
}

/// HEATR, twice: with photons depositing their energy locally, and without.
pub open spec fn heatr_text(input: i32, local: i32, out: i32, mat: i32) -> Seq<char> {
    "\nheatr / %%%%%%%%%%%%%%%%% Add heating kerma (local photons) %%%%%%%%%%%%%%%%%%%%\n20 "@
        + dec(input as int)
        + " "@
        + dec(local as int)
        + " /\n"@
        + dec(mat as int)
        + " 4 0 0 1 /\n302 318 402 444 /\n"@
        + "\nheatr / %%%%%%%%%%%%%%%%%%%%%%%%% Add heating kerma %%%%%%%%%%%%%%%%%%%%%%%%%%%%\n20 "@
        + dec(input as int)
        + " "@
        + dec(out as int)
        + " /\n"@
        + dec(mat as int)
        + " 4 0 0 0 /\n302 318 402 444 /\n"@
}

/// GASPR: gas production.
pub open spec fn gaspr_text(input: i32, out: i32) -> Seq<char> {
    "\ngaspr / %%%%%%%%%%%%%%%%%%%%%%%%% Add gas production %%%%%%%%%%%%%%%%%%%%%%%%%%%\n20 "@
        + dec(input as int)
        + " "@
        + dec(out as int)
        + " /\n"@
}

/// PURR: probability tables.
pub open spec fn purr_text(input: i32, out: i32, mat: i32, nt: int, temps: Seq<char>) -> Seq<char> {
    "\npurr / %%%%%%%%%%%%%%%%%%%%%%%% Add probability tables %%%%%%%%%%%%%%%%%%%%%%%%%\n20 "@
        + dec(input as int)
        + " "@
        + dec(out as int)
        + " /\n"@
        + dec(mat as int)
        + " "@
        + decimal(nt as nat)
        + " 1 20 64 /\n"@
        + temps
        + "\n1.e10\n0/\n"@
}

/// ACER at one temperature: its ACE tape on `ace`, its xsdir on `dir`.
pub open spec fn acer_text(input: i32, ace: i32, dir: i32, ext: Seq<char>, library: Seq<char>, zsymam: Seq<char>, t: Seq<char>, mat: i32, smooth: bool) -> Seq<char> {
    "\nacer / %%%%%%%%%%%%%%%%%%%%%%%% Write out in ACE format %%%%%%%%%%%%%%%%%%%%%%%%\n20 "@
        + dec(input as int)
        + " 0 "@
        + dec(ace as int)
        + " "@
        + dec(dir as int)
        + "\n1 0 1 ."@
        + ext
        + " /\n'"@
        + library
        + ": "@
        + zsymam
        + " at "@
        + t
        + "'/\n"@
        + dec(mat as int)
        + " "@
        + t
        + "\n1 1 "@
        + (if smooth { "1"@ } else { "0"@ })
        + "/\n/\n"@
}

fn reconr_card(mat: i32, library: &str, zsymam: &str, error: &str) -> (r: String)
    ensures
        r@ == reconr_text(mat, library@, zsymam@, error@),
{
    let mut c = String::new();
    push_str(&mut c, "\nreconr / %%%%%%%%%%%%%%%%%%% Reconstruct XS for neutrons %%%%%%%%%%%%%%%%%%%%%%%\n20 21\n'");
    assert(c@ =~= "\nreconr / %%%%%%%%%%%%%%%%%%% Reconstruct XS for neutrons %%%%%%%%%%%%%%%%%%%%%%%\n20 21\n'"@);
    push_str(&mut c, library);
    push_str(&mut c, " PENDF for ");
    push_str(&mut c, zsymam);
    push_str(&mut c, "'/\n");
    push_signed(&mut c, mat as i64);
    push_str(&mut c, " 2/\n");
    push_str(&mut c, error);
    push_str(&mut c, "/ err\n'");
    push_str(&mut c, library);
    push_str(&mut c, ": ");
    push_str(&mut c, zsymam);
    push_str(&mut c, "'/\n'Processed by NJOY'/\n0/\n");
    c
}

fn broadr_card(nb: i32, mat: i32, nt: usize, error: &str, temps: &str) -> (r: String)
    ensures
        r@ == broadr_text(nb, mat, nt as int, error@, temps@),
{
    let mut c = String::new();
    push_str(&mut c, "\nbroadr / %%%%%%%%%%%%%%%%%%%%%%% Doppler broaden XS %%%%%%%%%%%%%%%%%%%%%%%%%%%%\n20 21 ");
    assert(c@ =~= "\nbroadr / %%%%%%%%%%%%%%%%%%%%%%% Doppler broaden XS %%%%%%%%%%%%%%%%%%%%%%%%%%%%\n20 21 "@);
    push_signed(&mut c, nb as i64);
    push_str(&mut c, "\n");
    push_signed(&mut c, mat as i64);
    push_str(&mut c, " ");
    push_decimal(&mut c, nt as u64);
    push_str(&mut c, " 0 0 0. /\n");
    push_str(&mut c, error);
    push_str(&mut c, "/ errthn\n");
    push_str(&mut c, temps);
    push_str(&mut c, "\n0/\n");
    c
}

fn heatr_card(input: i32, local: i32, out: i32, mat: i32) -> (r: String)
    ensures
        r@ == heatr_text(input, local, out, mat),
{
    let mut c = String::new();
    push_str(&mut c, "\nheatr / %%%%%%%%%%%%%%%%% Add heating kerma (local photons) %%%%%%%%%%%%%%%%%%%%\n20 ");
    assert(c@ =~= "\nheatr / %%%%%%%%%%%%%%%%% Add heating kerma (local photons) %%%%%%%%%%%%%%%%%%%%\n20 "@);
    push_signed(&mut c, input as i64);
    push_str(&mut c, " ");
    push_signed(&mut c, local as i64);
    push_str(&mut c, " /\n");
    push_signed(&mut c, mat as i64);
    push_str(&mut c, " 4 0 0 1 /\n302 318 402 444 /\n");
    push_str(&mut c, "\nheatr / %%%%%%%%%%%%%%%%%%%%%%%%% Add heating kerma %%%%%%%%%%%%%%%%%%%%%%%%%%%%\n20 ");
    push_signed(&mut c, input as i64);
    push_str(&mut c, " ");
    push_signed(&mut c, out as i64);
    push_str(&mut c, " /\n");
    push_signed(&mut c, mat as i64);
    push_str(&mut c, " 4 0 0 0 /\n302 318 402 444 /\n");
    c
}

fn gaspr_card(input: i32, out: i32) -> (r: String)
    ensures
        r@ == gaspr_text(input, out),
{
    let mut c = String::new();
    push_str(&mut c, "\ngaspr / %%%%%%%%%%%%%%%%%%%%%%%%% Add gas production %%%%%%%%%%%%%%%%%%%%%%%%%%%\n20 ");
    assert(c@ =~= "\ngaspr / %%%%%%%%%%%%%%%%%%%%%%%%% Add gas production %%%%%%%%%%%%%%%%%%%%%%%%%%%\n20 "@);
    push_signed(&mut c, input as i64);
    push_str(&mut c, " ");
    push_signed(&mut c, out as i64);
    push_str(&mut c, " /\n");
    c
}

fn purr_card(input: i32, out: i32, mat: i32, nt: usize, temps: &str) -> (r: String)
    ensures
        r@ == purr_text(input, out, mat, nt as int, temps@),
{
    let mut c = String::new();
    push_str(&mut c, "\npurr / %%%%%%%%%%%%%%%%%%%%%%%% Add probability tables %%%%%%%%%%%%%%%%%%%%%%%%%\n20 ");
    assert(c@ =~= "\npurr / %%%%%%%%%%%%%%%%%%%%%%%% Add probability tables %%%%%%%%%%%%%%%%%%%%%%%%%\n20 "@);
    push_signed(&mut c, input as i64);
    push_str(&mut c, " ");
    push_signed(&mut c, out as i64);
    push_str(&mut c, " /\n");
    push_signed(&mut c, mat as i64);
    push_str(&mut c, " ");
    push_decimal(&mut c, nt as u64);
    push_str(&mut c, " 1 20 64 /\n");
    push_str(&mut c, temps);
    push_str(&mut c, "\n1.e10\n0/\n");
    c
}

fn acer_card(input: i32, ace: i32, dir: i32, ext: &str, library: &str, zsymam: &str, t: &str, mat: i32, smooth: bool) -> (r: String)
    ensures
        r@ == acer_text(input, ace, dir, ext@, library@, zsymam@, t@, mat, smooth),
{
    let mut c = String::new();
    push_str(&mut c, "\nacer / %%%%%%%%%%%%%%%%%%%%%%%% Write out in ACE format %%%%%%%%%%%%%%%%%%%%%%%%\n20 ");
    assert(c@ =~= "\nacer / %%%%%%%%%%%%%%%%%%%%%%%% Write out in ACE format %%%%%%%%%%%%%%%%%%%%%%%%\n20 "@);
    push_signed(&mut c, input as i64);
    push_str(&mut c, " 0 ");
    push_signed(&mut c, ace as i64);
    push_str(&mut c, " ");
    push_signed(&mut c, dir as i64);
    push_str(&mut c, "\n1 0 1 .");
    push_str(&mut c, ext);
    push_str(&mut c, " /\n'");
    push_str(&mut c, library);
    push_str(&mut c, ": ");
    push_str(&mut c, zsymam);
    push_str(&mut c, " at ");
    push_str(&mut c, t);
    push_str(&mut c, "'/\n");
    push_signed(&mut c, mat as i64);
    push_str(&mut c, " ");
    push_str(&mut c, t);
    push_str(&mut c, "\n1 1 ");
    push_str(&mut c, if smooth { "1" } else { "0" });
    push_str(&mut c, "/\n/\n");
    c
}

/// The ACER runs for the first `n` temperatures, the `i`-th writing units
/// `units[i]`.
pub open spec fn acer_runs(
    input: i32,
    units: Seq<(i32, i32)>,
    temps: Seq<Seq<char>>,
    library: Seq<char>,
    zsymam: Seq<char>,
    mat: i32,
    smooth: bool,
    n: int,
) -> Seq<char>
    decreases n,
{
    if n <= 0 {
        Seq::empty()
    } else {
        acer_runs(input, units, temps, library, zsymam, mat, smooth, n - 1) + acer_text(
            input,
            units[n - 1].0,
            units[n - 1].1,
            ext_text(n as nat),
            library,
            zsymam,
            temps[n - 1],
            mat,
            smooth,
        )
    }
}

/// The whole NJOY input deck for material `mat` of library `library`
/// (ZSYMAM `zsymam`), at tolerance `error` and at each of `temps`, over the
/// units of `plan`: RECONR, then BROADR, both HEATR runs, GASPR and PURR as
/// far as the plan runs them, then one ACER run per temperature, and
/// `stop`.
pub open spec fn deck_text(
    mat: i32,
    library: Seq<char>,
    zsymam: Seq<char>,
    error: Seq<char>,
    temps: Seq<Seq<char>>,
    smoothing: bool,
    plan: TapePlan,
) -> Seq<char> {
    let t = joined(temps);
    let nt = temps.len() as int;
    reconr_text(mat, library, zsymam, error) + (match plan.broadr {
        Some(nb) => broadr_text(nb, mat, nt, error, t),
        None => Seq::empty(),
    }) + (match plan.heatr {
        Some((a, b, c)) => heatr_text(a, b, c, mat),
        None => Seq::empty(),
    }) + (match plan.gaspr {
        Some((a, b)) => gaspr_text(a, b),
        None => Seq::empty(),
    }) + (match plan.purr {
        Some((a, b)) => purr_text(a, b, mat, nt, t),
        None => Seq::empty(),
    }) + (match plan.acer {
        Some((input, units)) => acer_runs(input, units@, temps, library, zsymam, mat, smoothing, nt),
        None => Seq::empty(),
    }) + "stop\n"@
}

/// Whether the plan's ACER runs, where it has them, match the temperatures.
pub open spec fn acer_fits(plan: TapePlan, n: int) -> bool {
    plan.acer matches Some((_, units)) ==> units@.len() == n
}

/// The temperatures joined by spaces.
fn join_temperatures(temps: &Vec<String>) -> (r: String)
    ensures
        r@ == joined(temps@.map_values(|t: String| t@)),
{
    let ghost ts = temps@.map_values(|t: String| t@);
    let mut r = String::new();
    let mut i: usize = 0;
    while i < temps.len()
        invariant
            i <= temps@.len(),
            ts == temps@.map_values(|t: String| t@),
            r@ == joined(ts.take(i as int)),
        decreases temps.len() - i,
    {
        proof {
            assert(ts.take(i + 1).drop_last() =~= ts.take(i as int));
        }
        if i > 0 {
            push_str(&mut r, " ");
        } else {
            assert(ts.take(1) =~= seq![ts[0]]);
            assert(r@ =~= Seq::<char>::empty());
        }
        push_str(&mut r, temps[i].as_str());
        proof {
            if i == 0 {
                assert(r@ =~= ts[0]);
            }
        }
        i = i + 1;
    }
    assert(ts.take(i as int) =~= ts);
    r
}

/// The suffix of the `k`-th ACE table.
fn ext_string(k: usize) -> (r: String)
    ensures
        r@ == ext_text(k as nat),
{
    let mut r = String::new();
    if k < 10 {
        string_push(&mut r, '0');
    }
    push_decimal(&mut r, k as u64);
    proof {
        if k >= 10 {
            assert(r@ =~= decimal(k as nat));
        }
    }
    r
}

/// The NJOY input deck; see [`deck_text`].
pub fn deck_commands(
    mat: i32,
    library: &str,
    zsymam: &str,
    error: &str,
    temperatures: &Vec<String>,
    smoothing: bool,
    plan: &TapePlan,
) -> (r: String)
    requires
        acer_fits(*plan, temperatures@.len() as int),
    ensures
        r@ == deck_text(mat, library@, zsymam@, error@, temperatures@.map_values(|t: String| t@), smoothing, *plan),
{
    let ghost ts = temperatures@.map_values(|t: String| t@);
    let temps = join_temperatures(temperatures);
    let nt = temperatures.len();
    let mut d = reconr_card(mat, library, zsymam, error);
    let ghost d0 = d@;
    match plan.broadr {
        Some(nb) => push_str(&mut d, broadr_card(nb, mat, nt, error, temps.as_str()).as_str()),
        None => {},
    }
    let ghost d1 = d@;
    match plan.heatr {
        Some((a, b, c)) => push_str(&mut d, heatr_card(a, b, c, mat).as_str()),
        None => {},
    }
    let ghost d2 = d@;
    match plan.gaspr {
        Some((a, b)) => push_str(&mut d, gaspr_card(a, b).as_str()),
        None => {},
    }
    let ghost d3 = d@;
    match plan.purr {
        Some((a, b)) => push_str(&mut d, purr_card(a, b, mat, nt, temps.as_str()).as_str()),
        None => {},
    }
    let ghost d4 = d@;
    let mut acer = String::new();
    match &plan.acer {
        Some((input, units)) => {
            let mut i: usize = 0;
            assert(acer@ =~= acer_runs(*input, units@, ts, library@, zsymam@, mat, smoothing, 0));
            while i < nt
                invariant
                    i <= nt,
                    nt == temperatures@.len(),
                    units@.len() == nt,
                    ts == temperatures@.map_values(|t: String| t@),
                    acer@ == acer_runs(*input, units@, ts, library@, zsymam@, mat, smoothing, i as int),
                decreases nt - i,
            {
                let ext = ext_string(i + 1);
                let card = acer_card(
                    *input,
                    units[i].0,
                    units[i].1,
                    ext.as_str(),
                    library,
                    zsymam,
                    temperatures[i].as_str(),
                    mat,
                    smoothing,
                );
                push_str(&mut acer, card.as_str());
                i = i + 1;
            }
        },
        None => {},
    }
    push_str(&mut d, acer.as_str());
    push_str(&mut d, "stop\n");
    proof {
        let t = joined(ts);
        assert(temps@ == t);
        let b: Seq<char> = match plan.broadr {
            Some(nb) => broadr_text(nb, mat, nt as int, error@, t),
            None => Seq::empty(),
        };
        let h: Seq<char> = match plan.heatr {
            Some((a, x, c)) => heatr_text(a, x, c, mat),
            None => Seq::empty(),
        };
        let g: Seq<char> = match plan.gaspr {
            Some((a, x)) => gaspr_text(a, x),
            None => Seq::empty(),
        };
        let pu: Seq<char> = match plan.purr {
            Some((a, x)) => purr_text(a, x, mat, nt as int, t),
            None => Seq::empty(),
        };
        assert(d1 =~= d0 + b);
        assert(d2 =~= d0 + b + h);
        assert(d3 =~= d0 + b + h + g);
        assert(d4 =~= d0 + b + h + g + pu);
    }
    assert(d@ =~= deck_text(mat, library@, zsymam@, error@, ts, smoothing, *plan));
    d
}

/// What `{:.1}`-style labels name the ACER tapes: for each temperature, its
/// ACE tape `ace_<label>` and its xsdir tape `xsdir_<label>`, with their
/// units.
pub open spec fn acer_tape_names(units: Seq<(i32, i32)>, labels: Seq<Seq<char>>) -> Seq<(i32, Seq<char>)>
    decreases labels.len(),
{
    if labels.len() == 0 {
        Seq::empty()
    } else {
        let k = labels.len() - 1;
        acer_tape_names(units, labels.drop_last()).push((units[k].0, "ace_"@ + labels[k])).push(
            (units[k].1, "xsdir_"@ + labels[k]),
        )
    }
}

/// The ACER output tapes by unit; see [`acer_tape_names`].
pub fn acer_tapes(plan: &TapePlan, labels: &Vec<String>) -> (r: Vec<(i32, String)>)
    requires
        acer_fits(*plan, labels@.len() as int),
    ensures
        r@.map_values(|p: (i32, String)| (p.0, p.1@)) == match plan.acer {
            Some((_, units)) => acer_tape_names(units@, labels@.map_values(|t: String| t@)),
            None => Seq::empty(),
        },
{
    let mut r: Vec<(i32, String)> = Vec::new();
    let ghost ls = labels@.map_values(|t: String| t@);
    match &plan.acer {
        Some((_, units)) => {
            let mut i: usize = 0;
            assert(ls.take(0) =~= Seq::<Seq<char>>::empty());
            assert(r@.map_values(|p: (i32, String)| (p.0, p.1@)) =~= Seq::<(i32, Seq<char>)>::empty());
            while i < labels.len()
                invariant
                    i <= labels@.len(),
                    units@.len() == labels@.len(),
                    ls == labels@.map_values(|t: String| t@),
                    r@.map_values(|p: (i32, String)| (p.0, p.1@)) == acer_tape_names(units@, ls.take(i as int)),
                decreases labels.len() - i,
            {
                let ghost r0 = r@;
                let mut ace = String::new();
                push_str(&mut ace, "ace_");
                push_str(&mut ace, labels[i].as_str());
                let mut dir = String::new();
                push_str(&mut dir, "xsdir_");
                push_str(&mut dir, labels[i].as_str());
                r.push((units[i].0, ace));
                r.push((units[i].1, dir));
                proof {
                    assert(ls.take(i + 1).drop_last() =~= ls.take(i as int));
                    assert(r@.map_values(|p: (i32, String)| (p.0, p.1@)) =~= r0.map_values(
                        |p: (i32, String)| (p.0, p.1@),
                    ).push((units@[i as int].0, "ace_"@ + ls[i as int])).push(
                        (units@[i as int].1, "xsdir_"@ + ls[i as int]),
                    ));
                }
                i = i + 1;
            }
            assert(ls.take(i as int) =~= ls);
        },
        None => {},
    }
    r
}

} // verus!
