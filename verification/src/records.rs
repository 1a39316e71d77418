//! The ENDF-6 record primitives: TEXT, CONT, LIST, TAB1, TAB2 and INTG.
//!
//! ENDF-6 is a fixed-width line format. Every record is built from 11-character
//! fields, and the last 14 columns of each line carry the MAT/MF/MT control
//! fields that [`crate::material`] uses to split a file into sections.
//!
//! Integer fields are read here. A real-valued field is kept as the text of
//! the field; [`float_buffer`] gives the digits the format means by it, ready
//! for an ordinary floating point parser.

use vstd::prelude::*;
use vstd::utf8::*;
use vstd::string::*;

use crate::error::{Error, Result};
use crate::function::Tabulated2D;
use crate::text::{
    chars_of, decimal, is_digit, is_space, lemma_decimal_digits, parse_i64, parse_int_in,
    signed_decimal, trim, trim_chars, trim_end, trim_start,
};

verus! {

broadcast use {
    vstd::string::group_string_axioms,
    vstd::utf8::encode_utf8_valid_utf8,
    vstd::utf8::encode_utf8_decode_utf8,
    vstd::slice::group_slice_axioms,
};

/// The bytes of a field from `start` to `end`, as [`field`] takes them: the
/// range is cut back to the line, and is empty where it is backwards or does
/// not fall on character boundaries.
pub open spec fn field_bytes(bytes: Seq<u8>, start: int, end: int) -> Seq<u8> {
    let s = if start < bytes.len() {
        start
    } else {
        bytes.len() as int
    };
    let e = if end < bytes.len() {
        end
    } else {
        bytes.len() as int
    };
    if s >= e {
        Seq::empty()
    } else if is_char_boundary(bytes, s) && is_char_boundary(bytes, e) {
        bytes.subrange(s, e)
    } else {
        Seq::empty()
    }
}

/// The characters of a field of a line, as [`field`] extracts it.
pub open spec fn field_of(line: Seq<char>, start: int, end: int) -> Seq<char> {
    decode_utf8(field_bytes(encode_utf8(line), start, end))
}

/// The value of an integer field, as [`int_endf`] reads it: blank is zero,
/// and so is anything `str::parse::<i64>` refuses.
pub open spec fn int_value(s: Seq<char>) -> int {
    let t = trim(s);
    match parse_int_in(t, i64::MIN as int, i64::MAX as int) {
        Some(v) => v,
        None => 0,
    }
}

/// The integer in a field of a line.
pub open spec fn int_field(line: Seq<char>, start: int, end: int) -> int {
    int_value(field_of(line, start, end))
}

/// Whether `start..end` is a range of `bytes` that begins and ends on
/// character boundaries.
pub open spec fn slice_ok(bytes: Seq<u8>, start: int, end: int) -> bool {
    &&& start <= end <= bytes.len()
    &&& is_char_boundary(bytes, start)
    &&& is_char_boundary(bytes, end)
}

/// `s.get(start..end)`: the bytes `start..end` of `s` where both ends fall
/// on character boundaries within it, and `None` otherwise.
#[verifier::external_body]
pub(crate) fn str_get(s: &str, start: usize, end: usize) -> (r: Option<&str>)
    ensures
        r is Some <==> slice_ok(s.spec_bytes(), start as int, end as int),
        r matches Some(t) ==> t.spec_bytes() == s.spec_bytes().subrange(start as int, end as int),
{
    s.get(start..end)
}

/// Extract a fixed-width field, tolerating lines shorter than the format
/// requires.
///
/// Evaluators do trim trailing blanks, so a CONT record's last field is
/// routinely missing from the line entirely; that gives `""` here.
pub fn field(line: &str, start: usize, end: usize) -> (r: &str)
    ensures
        r.spec_bytes() == field_bytes(line.spec_bytes(), start as int, end as int),
        r@ == field_of(line@, start as int, end as int),
{
    let len = line.as_bytes().len();
    let s = if start < len {
        start
    } else {
        len
    };
    let e = if end < len {
        end
    } else {
        len
    };
    let empty: &str = "";
    proof {
        reveal_strlit("");
        assert(empty@ =~= Seq::<char>::empty());
        assert(empty.spec_bytes() =~= Seq::<u8>::empty());
        assert(decode_utf8(Seq::<u8>::empty()) =~= Seq::<char>::empty());
        assert(line.spec_bytes() == encode_utf8(line@));
        assert(valid_utf8(line.spec_bytes()));
    }
    if s >= e {
        return empty;
    }
    match str_get(line, s, e) {
        Some(t) => {
            proof {
                assert(slice_ok(line.spec_bytes(), s as int, e as int));
                assert(t.spec_bytes() == field_bytes(line.spec_bytes(), start as int, end as int));
                encode_utf8_decode_utf8(t@);
                assert(t.spec_bytes() == encode_utf8(t@));
            }
            t
        },
        None => empty,
    }
}

/// Convert an ENDF integer field to `i64`.
///
/// The format allows an integer to be written as an all-blank field, which
/// means zero; a field that is not an integer also reads as zero.
pub fn int_endf(s: &str) -> (v: i64)
    ensures
        v == int_value(s@),
{
    let chars = chars_of(s);
    let t = trim_chars(&chars);
    if t.len() == 0 {
        return 0;
    }
    assert(t@.subrange(0, t.len() as int) == t@);
    match parse_i64(&t, 0, t.len()) {
        Some(v) => v,
        None => 0,
    }
}

/// `k` blanks, as `format!` puts before a right-aligned value that is
/// narrower than its field.
pub open spec fn blanks(k: nat) -> Seq<char> {
    Seq::new(k, |i: int| ' ')
}

proof fn lemma_trim_start_blanks(k: nat, d: Seq<char>)
    requires
        d.len() > 0,
        !is_space(d[0]),
    ensures
        trim_start(blanks(k) + d) == d,
    decreases k,
{
    if k == 0 {
        assert(blanks(k) + d =~= d);
    } else {
        let s = blanks(k) + d;
        assert(is_space(s[0]));
        assert(s.drop_first() =~= blanks((k - 1) as nat) + d);
        lemma_trim_start_blanks((k - 1) as nat, d);
    }
}

/// Reading back an integer that was written right-aligned in a field gives
/// the integer: whatever blanks pad it on the left, the field holds the
/// decimal text of `v` and nothing else.
pub proof fn lemma_int_read_back(v: i64, k: nat)
    ensures
        int_value(blanks(k) + signed_decimal(v as int)) == v,
{
    let d = signed_decimal(v as int);
    let m: nat = if v < 0 { (-(v as int)) as nat } else { v as nat };
    lemma_decimal_digits(m);
    let dm = decimal(m);
    assert(is_digit(dm[0]) && is_digit(dm.last()));
    if v < 0 {
        assert(d == seq!['-'] + dm);
        assert(d[0] == '-');
        assert(d.last() == dm.last());
        assert(d.drop_first() =~= dm);
    } else {
        assert(d == dm);
    }
    lemma_trim_start_blanks(k, d);
    assert(!is_space(d.last()));
    assert(trim_end(d) == d);
    assert(trim(blanks(k) + d) == d);
}

/// The bytes a real-valued field becomes once the format's shorthand is
/// spelled out: blanks dropped, `d` and `D` and `E` written as `e`, and an
/// `e` put before the sign of an exponent that was written without one, as
/// in `-1.23481+10`. `sig` is whether the significand has begun, `exp`
/// whether the exponent has.
pub open spec fn float_buf(b: Seq<u8>, sig: bool, exp: bool) -> Seq<u8>
    decreases b.len(),
{
    if b.len() == 0 {
        Seq::empty()
    } else {
        let c = b[0];
        let rest = b.drop_first();
        if c == 32u8 {
            float_buf(rest, sig, exp)
        } else if sig && !exp && (c == 43u8 || c == 45u8) {
            seq![101u8, c] + float_buf(rest, sig, true)
        } else if sig && !exp && (c == 101u8 || c == 69u8 || c == 100u8 || c == 68u8) {
            seq![101u8] + float_buf(rest, sig, true)
        } else if !sig && (c == 46u8 || (48u8 <= c <= 57u8)) {
            seq![c] + float_buf(rest, true, exp)
        } else {
            seq![c] + float_buf(rest, sig, exp)
        }
    }
}

/// The first eleven bytes of a field: all of it that belongs to the field.
pub open spec fn field_head(b: Seq<u8>) -> Seq<u8> {
    if b.len() <= 11 {
        b
    } else {
        b.take(11)
    }
}

/// The text of a real-valued ENDF field rewritten in the notation an
/// ordinary floating point parser reads, e.g. `-1.23481+10` becomes
/// `-1.23481e+10`. Only the first 11 bytes are read, matching the width of an
/// ENDF field.
pub fn float_buffer(s: &str) -> (r: Vec<u8>)
    ensures
        r@ == float_buf(field_head(s.spec_bytes()), false, false),
{
    let bytes = s.as_bytes();
    let n = if bytes.len() < 11 {
        bytes.len()
    } else {
        11
    };
    let ghost head = field_head(s.spec_bytes());
    assert(head == bytes@.take(n as int));
    let mut out: Vec<u8> = Vec::new();
    let mut sig = false;
    let mut exp = false;
    let mut i: usize = 0;
    assert(head.subrange(0, n as int) == head);
    while i < n
        invariant
            n <= bytes@.len(),
            head == bytes@.take(n as int),
            i <= n,
            out@ + float_buf(head.subrange(i as int, n as int), sig, exp) == float_buf(
                head,
                false,
                false,
            ),
        decreases n - i,
    {
        let c = bytes[i];
        let ghost rest = head.subrange(i as int, n as int);
        assert(rest[0] == c);
        assert(rest.drop_first() == head.subrange(i + 1, n as int));
        if c == 32u8 {
        } else if sig && !exp && (c == 43u8 || c == 45u8) {
            out.push(101u8);
            out.push(c);
            exp = true;
        } else if sig && !exp && (c == 101u8 || c == 69u8 || c == 100u8 || c == 68u8) {
            out.push(101u8);
            exp = true;
        } else if !sig && (c == 46u8 || (48u8 <= c && c <= 57u8)) {
            out.push(c);
            sig = true;
        } else {
            out.push(c);
        }
        i = i + 1;
    }
    out
}

/// The lines of `text`, as `str::lines` splits them.
pub open spec fn lines_of(s: Seq<char>) -> Seq<Seq<char>>
    decreases s.len(),
{
    if s.len() == 0 {
        Seq::empty()
    } else {
        let i = newline_at(s, 0);
        if i == s.len() {
            seq![s]
        } else {
            proof {
                lemma_newline_at_bounds(s, 0);
            }
            seq![strip_cr(s.take(i))] + lines_of(s.skip(i + 1))
        }
    }
}

/// The index of the first `\n` at or after `from`, or the length.
pub open spec fn newline_at(s: Seq<char>, from: int) -> int
    decreases s.len() - from,
{
    if from >= s.len() {
        s.len() as int
    } else if s[from] == '\n' {
        from
    } else {
        newline_at(s, from + 1)
    }
}

/// A line with a `\r` before its `\n` loses that too.
pub open spec fn strip_cr(s: Seq<char>) -> Seq<char> {
    if s.len() > 0 && s.last() == '\r' {
        s.drop_last()
    } else {
        s
    }
}

pub proof fn lemma_newline_at_bounds(s: Seq<char>, from: int)
    requires
        0 <= from <= s.len(),
    ensures
        from <= newline_at(s, from) <= s.len(),
    decreases s.len() - from,
{
    if from < s.len() && s[from] != '\n' {
        lemma_newline_at_bounds(s, from + 1);
    }
}

/// The lines of a text, as `str::lines` gives them.
#[verifier::external_body]
pub(crate) fn str_lines(text: &str) -> (r: Vec<&str>)
    ensures
        r@.len() == lines_of(text@).len(),
        forall|i: int| 0 <= i < r@.len() ==> #[trigger] r@[i]@ == lines_of(text@)[i],
{
    text.lines().collect()
}

/// The six fields of a CONT record. The two real-valued fields are kept as
/// their text.
#[derive(Debug, Clone, PartialEq, Eq, Default)]
pub struct Cont {
    pub c1: String,
    pub c2: String,
    pub l1: i64,
    pub l2: i64,
    pub n1: i64,
    pub n2: i64,
}

/// A LIST record: a CONT header followed by `n1` real values, each kept as
/// the text of its field.
#[derive(Debug, Clone, PartialEq, Eq, Default)]
pub struct ListRecord {
    pub cont: Cont,
    pub values: Vec<String>,
}

/// A TAB1 record: four header fields, the interpolation regions and the
/// `(x, y)` pairs, each value kept as the text of its field.
#[derive(Debug, Clone, PartialEq, Eq, Default)]
pub struct Tab1 {
    pub c1: String,
    pub c2: String,
    pub l1: i64,
    pub l2: i64,
    /// One-based index of the last point in each interpolation region.
    pub breakpoints: Vec<i32>,
    /// ENDF interpolation scheme per region.
    pub interpolation: Vec<i32>,
    pub x: Vec<String>,
    pub y: Vec<String>,
}

/// A TAB2 record: a CONT header plus the interpolation rules for the
/// subrecords that follow it.
#[derive(Debug, Clone, PartialEq, Eq, Default)]
pub struct Tab2 {
    pub cont: Cont,
    pub table: Tabulated2D,
}

/// What a CONT record read from `line` holds.
pub open spec fn cont_matches(c: Cont, line: Seq<char>) -> bool {
    &&& c.c1@ == field_of(line, 0, 11)
    &&& c.c2@ == field_of(line, 11, 22)
    &&& c.l1 == int_field(line, 22, 33)
    &&& c.l2 == int_field(line, 33, 44)
    &&& c.n1 == int_field(line, 44, 55)
    &&& c.n2 == int_field(line, 55, 66)
}

/// The number of lines `n` items take at `per` to a line.
pub open spec fn lines_for(n: int, per: int) -> int {
    (n + per - 1) / per
}

/// The `(NBT, INT)` pairs of `n` interpolation regions whose lines start at
/// `lines[at]`: three pairs to a line.
pub open spec fn pairs_match(
    lines: Seq<Seq<char>>,
    at: int,
    n: int,
    breakpoints: Seq<i32>,
    interpolation: Seq<i32>,
) -> bool {
    &&& breakpoints.len() == n
    &&& interpolation.len() == n
    &&& forall|k: int|
        0 <= k < n ==> #[trigger] breakpoints[k] == as_i32(int_field(
            lines[at + k / 3],
            22 * (k % 3),
            22 * (k % 3) + 11,
        )) && interpolation[k] == as_i32(int_field(
            lines[at + k / 3],
            22 * (k % 3) + 11,
            22 * (k % 3) + 22,
        ))
}

/// `v as i32`: the low 32 bits, as a two's complement integer.
pub open spec fn as_i32(v: int) -> i32 {
    v as i32
}

/// `v as i32`.
pub fn truncate_i32(v: i64) -> (r: i32)
    ensures
        r == as_i32(v as int),
{
    #[verifier::truncate]
    (v as i32)
}

/// A count read from an integer field: negative counts are zero, and the
/// count is taken as a `usize`.
pub open spec fn count_field(line: Seq<char>, start: int, end: int) -> int {
    count_of(int_field(line, start, end))
}

/// `v.max(0) as usize`.
pub open spec fn count_of(v: int) -> int {
    (if v > 0 {
        v
    } else {
        0
    }) as usize as int
}

/// `v.max(0) as usize`.
pub fn count_exec(v: i64) -> (n: usize)
    ensures
        n == count_of(v as int),
{
    if v > 0 {
        #[verifier::truncate]
        (v as usize)
    } else {
        0
    }
}

/// `n` real values whose lines start at `lines[at]`: six to a line.
pub open spec fn values_match(lines: Seq<Seq<char>>, at: int, n: int, values: Seq<String>) -> bool {
    &&& values.len() == n
    &&& forall|k: int|
        0 <= k < n ==> #[trigger] values[k]@ == field_of(
            lines[at + k / 6],
            11 * (k % 6),
            11 * (k % 6) + 11,
        )
}

/// `n` `(x, y)` pairs whose lines start at `lines[at]`: three to a line.
pub open spec fn points_match(
    lines: Seq<Seq<char>>,
    at: int,
    n: int,
    x: Seq<String>,
    y: Seq<String>,
) -> bool {
    &&& x.len() == n
    &&& y.len() == n
    &&& forall|k: int|
        0 <= k < n ==> #[trigger] x[k]@ == field_of(lines[at + k / 3], 22 * (k % 3), 22 * (k % 3) + 11)
            && y[k]@ == field_of(lines[at + k / 3], 22 * (k % 3) + 11, 22 * (k % 3) + 22)
}

/// What a TAB1 record whose header is `lines[at]` holds. Where the record
/// gives no interpolation regions, the whole table is one linear-linear
/// region.
pub open spec fn tab1_matches(t: Tab1, lines: Seq<Seq<char>>, at: int) -> bool {
    let head = lines[at];
    let nr = count_field(head, 44, 55);
    let np = count_field(head, 55, 66);
    &&& t.c1@ == field_of(head, 0, 11)
    &&& t.c2@ == field_of(head, 11, 22)
    &&& t.l1 == int_field(head, 22, 33)
    &&& t.l2 == int_field(head, 33, 44)
    &&& points_match(lines, at + 1 + lines_for(nr, 3), np, t.x@, t.y@)
    &&& if nr == 0 {
        &&& t.breakpoints@ == seq![as_i32(np)]
        &&& t.interpolation@ == seq![2i32]
    } else {
        pairs_match(lines, at + 1, nr, t.breakpoints@, t.interpolation@)
    }
}

/// A cursor over the lines of one ENDF section.
///
/// Records are read in sequence, mirroring how the format is defined: each
/// `*_record` call consumes as many lines as that record occupies.
pub struct Reader<'a> {
    lines: Vec<&'a str>,
    pos: usize,
}

impl<'a> Reader<'a> {
    /// The characters of each line of the section.
    pub closed spec fn lines_view(&self) -> Seq<Seq<char>> {
        Seq::new(self.lines@.len(), |i: int| self.lines@[i]@)
    }

    /// How many lines have been consumed.
    pub closed spec fn position(&self) -> int {
        self.pos as int
    }

    /// The position never passes the end.
    pub closed spec fn wf(&self) -> bool {
        self.pos <= self.lines@.len()
    }

    /// A position is a count of lines, never negative.
    pub proof fn lemma_position_nonneg(&self)
        ensures
            0 <= self.position(),
    {
    }

    /// A reader never stands past the end of its lines, so the lines that
    /// remain are never fewer than none.
    pub proof fn lemma_within_lines(&self)
        requires
            self.wf(),
        ensures
            0 <= self.position() <= self.lines_view().len(),
    {
    }

    pub fn new(text: &'a str) -> (r: Self)
        ensures
            r.wf(),
            r.lines_view() == lines_of(text@),
            r.position() == 0,
    {
        let lines = str_lines(text);
        let r = Reader { lines, pos: 0 };
        assert(r.lines_view() == lines_of(text@));
        r
    }

    /// Lines not yet consumed.
    pub fn remaining(&self) -> (n: usize)
        requires
            self.wf(),
        ensures
            n == self.lines_view().len() - self.position(),
    {
        self.lines.len() - self.pos
    }

    pub fn is_empty(&self) -> (b: bool)
        requires
            self.wf(),
        ensures
            b == (self.position() == self.lines_view().len()),
    {
        self.remaining() == 0
    }

    /// The next line, or the error saying what was expected of it.
    pub fn next_line(&mut self, expected: &'static str) -> (r: Result<&'a str>)
        requires
            old(self).wf(),
        ensures
            final(self).wf(),
            final(self).lines_view() == old(self).lines_view(),
            r matches Err(e) ==> e is UnexpectedEof,
            old(self).position() < old(self).lines_view().len() ==> {
                &&& r matches Ok(l) && l@ == old(self).lines_view()[old(self).position()]
                &&& final(self).position() == old(self).position() + 1
            },
            old(self).position() >= old(self).lines_view().len() ==> {
                &&& r == Err::<&str, Error>(Error::UnexpectedEof { expected })
                &&& final(self).position() == old(self).position()
            },
            r is Ok ==> final(self).position() == old(self).position() + 1,
            r is Err ==> final(self).position() == final(self).lines_view().len(),
    {
        if self.pos < self.lines.len() {
            let line = self.lines[self.pos];
            self.pos = self.pos + 1;
            Ok(line)
        } else {
            Err(Error::UnexpectedEof { expected })
        }
    }

    /// A TEXT record: the 66 columns before the control fields.
    pub fn text_record(&mut self) -> (r: Result<&'a str>)
        requires
            old(self).wf(),
        ensures
            final(self).wf(),
            final(self).lines_view() == old(self).lines_view(),
            r matches Err(e) ==> e is UnexpectedEof,
            old(self).position() < old(self).lines_view().len() ==> {
                &&& r matches Ok(t) && t@ == field_of(
                    old(self).lines_view()[old(self).position()],
                    0,
                    66,
                )
                &&& final(self).position() == old(self).position() + 1
            },
            old(self).position() >= old(self).lines_view().len() ==> {
                &&& r == Err::<&str, Error>(Error::UnexpectedEof { expected: "a TEXT record" })
                &&& final(self).position() == old(self).position()
            },
    {
        let line = match self.next_line("a TEXT record") {
            Ok(l) => l,
            Err(e) => return Err(e),
        };
        Ok(field(line, 0, 66))
    }

    /// A CONT record.
    pub fn cont_record(&mut self) -> (r: Result<Cont>)
        requires
            old(self).wf(),
        ensures
            final(self).wf(),
            final(self).lines_view() == old(self).lines_view(),
            r matches Err(e) ==> e is UnexpectedEof,
            old(self).position() < old(self).lines_view().len() ==> {
                &&& r matches Ok(c) && cont_matches(
                    c,
                    old(self).lines_view()[old(self).position()],
                )
                &&& final(self).position() == old(self).position() + 1
            },
            old(self).position() >= old(self).lines_view().len() ==> {
                &&& r == Err::<Cont, Error>(Error::UnexpectedEof { expected: "a CONT record" })
                &&& final(self).position() == old(self).position()
            },
            r is Ok ==> final(self).position() == old(self).position() + 1,
            r is Err ==> final(self).position() == final(self).lines_view().len(),
    {
        let line = match self.next_line("a CONT record") {
            Ok(l) => l,
            Err(e) => return Err(e),
        };
        Ok(cont_from_line(line))
    }

    /// Pass over `n` lines, or fail where fewer are left.
    pub fn skip_lines(&mut self, n: usize) -> (r: Result<()>)
        requires
            old(self).wf(),
        ensures
            final(self).wf(),
            final(self).lines_view() == old(self).lines_view(),
            r matches Err(e) ==> e is UnexpectedEof,
            old(self).position() + n <= old(self).lines_view().len() ==> r is Ok && final(self).position()
                == old(self).position() + n,
            old(self).position() + n > old(self).lines_view().len() ==> r is Err && final(self).position()
                == old(self).position(),
    {
        if n <= self.lines.len() - self.pos {
            self.pos = self.pos + n;
            Ok(())
        } else {
            Err(Error::UnexpectedEof { expected: "the lines of a record" })
        }
    }

    /// The CONT record on the next line, without consuming it.
    pub fn peek_cont_record(&self) -> (r: Result<Cont>)
        requires
            self.wf(),
        ensures
            r matches Err(e) ==> e is UnexpectedEof,
            self.position() < self.lines_view().len() ==> (r matches Ok(c) && cont_matches(
                c,
                self.lines_view()[self.position()],
            )),
            self.position() >= self.lines_view().len() ==> r is Err,
    {
        if self.pos < self.lines.len() {
            Ok(cont_from_line(self.lines[self.pos]))
        } else {
            Err(Error::UnexpectedEof { expected: "a CONT record" })
        }
    }

    /// Read the `(NBT, INT)` interpolation pairs shared by TAB1 and TAB2.
    #[verifier::spinoff_prover]
    pub fn interpolation_pairs(&mut self, n_regions: usize) -> (r: Result<(Vec<i32>, Vec<i32>)>)
        requires
            old(self).wf(),
        ensures
            final(self).wf(),
            final(self).lines_view() == old(self).lines_view(),
            r matches Err(e) ==> e is UnexpectedEof,
            ({
                let need = lines_for(n_regions as int, 3);
                let at = old(self).position();
                if at + need <= old(self).lines_view().len() {
                    &&& r matches Ok((b, i)) && pairs_match(
                        old(self).lines_view(),
                        at,
                        n_regions as int,
                        b@,
                        i@,
                    )
                    &&& final(self).position() == at + need
                } else {
                    &&& r is Err
                    &&& final(self).position() == old(self).lines_view().len()
                }
            }),
    {
        let ghost at = self.position();
        let ghost lines = self.lines_view();
        let mut breakpoints: Vec<i32> = Vec::new();
        let mut interpolation: Vec<i32> = Vec::new();
        let n_lines = n_regions / 3 + if n_regions % 3 == 0 {
            0
        } else {
            1
        };
        assert(n_lines == lines_for(n_regions as int, 3));
        let mut l: usize = 0;
        while l < n_lines
            invariant
                self.wf(),
                lines == old(self).lines_view(),
                at == old(self).position(),
                self.lines_view() == lines,
                self.position() == at + l,
                l <= n_lines,
                n_lines == lines_for(n_regions as int, 3),
                breakpoints.len() == interpolation.len(),
                breakpoints.len() == if 3 * l < n_regions {
                    3 * l
                } else {
                    n_regions as int
                },
                forall|k: int|
                    0 <= k < breakpoints.len() ==> #[trigger] breakpoints@[k] == as_i32(int_field(
                        lines[at + k / 3],
                        22 * (k % 3),
                        22 * (k % 3) + 11,
                    )) && interpolation@[k] == as_i32(int_field(
                        lines[at + k / 3],
                        22 * (k % 3) + 11,
                        22 * (k % 3) + 22,
                    )),
            decreases n_lines - l,
        {
            let line = match self.next_line("the interpolation regions of a TAB record") {
                Ok(line) => line,
                Err(e) => {
                    assert(self.position() == lines.len());
                    assert(at + lines_for(n_regions as int, 3) > lines.len());
                    return Err(e);
                },
            };
            let left = n_regions - breakpoints.len();
            let n = if left < 3 {
                left
            } else {
                3
            };
            let mut j: usize = 0;
            while j < n
                invariant
                    j <= n <= 3,
                    n == if n_regions - 3 * l < 3 {
                        n_regions - 3 * l
                    } else {
                        3
                    },
                    3 * l < n_regions,
                    line@ == lines[at + l],
                    breakpoints.len() == interpolation.len(),
                    breakpoints.len() == 3 * l + j,
                    forall|k: int|
                        0 <= k < breakpoints.len() ==> #[trigger] breakpoints@[k] == as_i32(int_field(
                            lines[at + k / 3],
                            22 * (k % 3),
                            22 * (k % 3) + 11,
                        )) && interpolation@[k] == as_i32(int_field(
                            lines[at + k / 3],
                            22 * (k % 3) + 11,
                            22 * (k % 3) + 22,
                        )),
                decreases n - j,
            {
                let o = 22 * j;
                let b = int_endf(field(line, o, o + 11));
                let i = int_endf(field(line, o + 11, o + 22));
                breakpoints.push(truncate_i32(b));
                interpolation.push(truncate_i32(i));
                proof {
                    let k = 3 * l + j;
                    assert(k / 3 == l && k % 3 == j);
                }
                j = j + 1;
            }
            l = l + 1;
        }
        assert(breakpoints.len() == n_regions) by (nonlinear_arith)
            requires
                l == n_lines,
                n_lines == (n_regions + 2) / 3,
                breakpoints.len() == if 3 * l < n_regions {
                    3 * l
                } else {
                    n_regions as int
                },
        ;
        Ok((breakpoints, interpolation))
    }

    /// `n` real values, six to a line, each kept as the text of its field.
    #[verifier::spinoff_prover]
    fn read_values(&mut self, n: usize) -> (r: Result<Vec<String>>)
        requires
            old(self).wf(),
        ensures
            final(self).wf(),
            final(self).lines_view() == old(self).lines_view(),
            r matches Err(e) ==> e is UnexpectedEof,
            ({
                let need = lines_for(n as int, 6);
                let at = old(self).position();
                if at + need <= old(self).lines_view().len() {
                    &&& r matches Ok(v) && values_match(old(self).lines_view(), at, n as int, v@)
                    &&& final(self).position() == at + need
                } else {
                    &&& r is Err
                    &&& final(self).position() == old(self).lines_view().len()
                }
            }),
    {
        let ghost at = self.position();
        let ghost lines = self.lines_view();
        let mut values: Vec<String> = Vec::new();
        let n_lines = n / 6 + if n % 6 == 0 {
            0
        } else {
            1
        };
        let mut l: usize = 0;
        while l < n_lines
            invariant
                self.wf(),
                lines == old(self).lines_view(),
                at == old(self).position(),
                self.lines_view() == lines,
                self.position() == at + l,
                l <= n_lines,
                n_lines == lines_for(n as int, 6),
                values.len() == if 6 * l < n {
                    6 * l
                } else {
                    n as int
                },
                forall|k: int|
                    0 <= k < values.len() ==> #[trigger] values@[k]@ == field_of(
                        lines[at + k / 6],
                        11 * (k % 6),
                        11 * (k % 6) + 11,
                    ),
            decreases n_lines - l,
        {
            let line = match self.next_line("the values of a LIST record") {
                Ok(line) => line,
                Err(e) => {
                    assert(self.position() == lines.len());
                    return Err(e);
                },
            };
            let left = n - values.len();
            let m = if left < 6 {
                left
            } else {
                6
            };
            let mut j: usize = 0;
            while j < m
                invariant
                    j <= m <= 6,
                    m == if n - 6 * l < 6 {
                        n - 6 * l
                    } else {
                        6
                    },
                    6 * l < n,
                    line@ == lines[at + l],
                    values.len() == 6 * l + j,
                    forall|k: int|
                        0 <= k < values.len() ==> #[trigger] values@[k]@ == field_of(
                            lines[at + k / 6],
                            11 * (k % 6),
                            11 * (k % 6) + 11,
                        ),
                decreases m - j,
            {
                let o = 11 * j;
                values.push(field(line, o, o + 11).to_owned());
                proof {
                    let k = 6 * l + j;
                    assert(k / 6 == l && k % 6 == j);
                }
                j = j + 1;
            }
            l = l + 1;
        }
        assert(values.len() == n) by (nonlinear_arith)
            requires
                l == n_lines,
                n_lines == (n + 5) / 6,
                values.len() == if 6 * l < n {
                    6 * l
                } else {
                    n as int
                },
        ;
        Ok(values)
    }

    /// `n` `(x, y)` pairs, three to a line, each value kept as the text of
    /// its field.
    #[verifier::spinoff_prover]
    fn read_points(&mut self, n: usize) -> (r: Result<(Vec<String>, Vec<String>)>)
        requires
            old(self).wf(),
        ensures
            final(self).wf(),
            final(self).lines_view() == old(self).lines_view(),
            r matches Err(e) ==> e is UnexpectedEof,
            ({
                let need = lines_for(n as int, 3);
                let at = old(self).position();
                if at + need <= old(self).lines_view().len() {
                    &&& r matches Ok((x, y)) && points_match(
                        old(self).lines_view(),
                        at,
                        n as int,
                        x@,
                        y@,
                    )
                    &&& final(self).position() == at + need
                } else {
                    &&& r is Err
                    &&& final(self).position() == old(self).lines_view().len()
                }
            }),
    {
        let ghost at = self.position();
        let ghost lines = self.lines_view();
        let mut x: Vec<String> = Vec::new();
        let mut y: Vec<String> = Vec::new();
        let n_lines = n / 3 + if n % 3 == 0 {
            0
        } else {
            1
        };
        let mut l: usize = 0;
        while l < n_lines
            invariant
                self.wf(),
                lines == old(self).lines_view(),
                at == old(self).position(),
                self.lines_view() == lines,
                self.position() == at + l,
                l <= n_lines,
                n_lines == lines_for(n as int, 3),
                x.len() == y.len(),
                x.len() == if 3 * l < n {
                    3 * l
                } else {
                    n as int
                },
                forall|k: int|
                    0 <= k < x.len() ==> #[trigger] x@[k]@ == field_of(
                        lines[at + k / 3],
                        22 * (k % 3),
                        22 * (k % 3) + 11,
                    ) && y@[k]@ == field_of(lines[at + k / 3], 22 * (k % 3) + 11, 22 * (k % 3) + 22),
            decreases n_lines - l,
        {
            let line = match self.next_line("the (x, y) pairs of a TAB1 record") {
                Ok(line) => line,
                Err(e) => {
                    assert(self.position() == lines.len());
                    return Err(e);
                },
            };
            let left = n - x.len();
            let m = if left < 3 {
                left
            } else {
                3
            };
            let mut j: usize = 0;
            while j < m
                invariant
                    j <= m <= 3,
                    m == if n - 3 * l < 3 {
                        n - 3 * l
                    } else {
                        3
                    },
                    3 * l < n,
                    line@ == lines[at + l],
                    x.len() == y.len(),
                    x.len() == 3 * l + j,
                    forall|k: int|
                        0 <= k < x.len() ==> #[trigger] x@[k]@ == field_of(
                            lines[at + k / 3],
                            22 * (k % 3),
                            22 * (k % 3) + 11,
                        ) && y@[k]@ == field_of(
                            lines[at + k / 3],
                            22 * (k % 3) + 11,
                            22 * (k % 3) + 22,
                        ),
                decreases m - j,
            {
                let o = 22 * j;
                x.push(field(line, o, o + 11).to_owned());
                y.push(field(line, o + 11, o + 22).to_owned());
                proof {
                    let k = 3 * l + j;
                    assert(k / 3 == l && k % 3 == j);
                }
                j = j + 1;
            }
            l = l + 1;
        }
        assert(x.len() == n) by (nonlinear_arith)
            requires
                l == n_lines,
                n_lines == (n + 2) / 3,
                x.len() == if 3 * l < n {
                    3 * l
                } else {
                    n as int
                },
        ;
        Ok((x, y))
    }

    /// A LIST record: a CONT header followed by `max(N1, 0)` values.
    #[verifier::spinoff_prover]
    pub fn list_record(&mut self) -> (r: Result<ListRecord>)
        requires
            old(self).wf(),
        ensures
            final(self).wf(),
            final(self).lines_view() == old(self).lines_view(),
            r matches Err(e) ==> e is UnexpectedEof,
            ({
                let lines = old(self).lines_view();
                let at = old(self).position();
                if at < lines.len() {
                    let npl = count_field(lines[at], 44, 55);
                    if at + 1 + lines_for(npl, 6) <= lines.len() {
                        &&& r matches Ok(rec) && cont_matches(rec.cont, lines[at])
                            && values_match(lines, at + 1, npl, rec.values@)
                        &&& final(self).position() == at + 1 + lines_for(npl, 6)
                    } else {
                        r is Err
                    }
                } else {
                    r is Err
                }
            }),
    {
        let cont = self.cont_record()?;
        let npl: usize = count_exec(cont.n1);
        let values = self.read_values(npl)?;
        Ok(ListRecord { cont, values })
    }

    /// A TAB1 record: a header line, the interpolation regions, and the
    /// `(x, y)` pairs.
    #[verifier::spinoff_prover]
    #[verifier::rlimit(40)]
    pub fn tab1_record(&mut self) -> (r: Result<Tab1>)
        requires
            old(self).wf(),
        ensures
            final(self).wf(),
            final(self).lines_view() == old(self).lines_view(),
            r matches Err(e) ==> e is UnexpectedEof,
            ({
                let lines = old(self).lines_view();
                let at = old(self).position();
                if at < lines.len() {
                    let nr = count_field(lines[at], 44, 55);
                    let np = count_field(lines[at], 55, 66);
                    let need = 1 + lines_for(nr, 3) + lines_for(np, 3);
                    if at + need <= lines.len() {
                        &&& r matches Ok(t) && tab1_matches(t, lines, at)
                        &&& final(self).position() == at + need
                    } else {
                        r is Err
                    }
                } else {
                    r is Err
                }
            }),
    {
        let line = self.next_line("a TAB1 record")?;
        let c1 = field(line, 0, 11).to_owned();
        let c2 = field(line, 11, 22).to_owned();
        let l1 = int_endf(field(line, 22, 33));
        let l2 = int_endf(field(line, 33, 44));
        let nr = int_endf(field(line, 44, 55));
        let np = int_endf(field(line, 55, 66));
        let n_regions: usize = count_exec(nr);
        let n_pairs: usize = count_exec(np);
        let (breakpoints, interpolation) = self.interpolation_pairs(n_regions)?;
        let (x, y) = self.read_points(n_pairs)?;
        let (breakpoints, interpolation) = if breakpoints.len() == 0 || interpolation.len() == 0 {
            let n = x.len();
            let mut b: Vec<i32> = Vec::new();
            b.push(truncate_i32(n as i64));
            let mut i: Vec<i32> = Vec::new();
            i.push(2i32);
            assert(b@ == seq![as_i32(n as int)]);
            assert(i@ == seq![2i32]);
            (b, i)
        } else {
            (breakpoints, interpolation)
        };
        Ok(Tab1 { c1, c2, l1, l2, breakpoints, interpolation, x, y })
    }

    /// A TAB2 record: a CONT header and the interpolation regions of the
    /// subrecords that follow.
    #[verifier::spinoff_prover]
    pub fn tab2_record(&mut self) -> (r: Result<Tab2>)
        requires
            old(self).wf(),
        ensures
            final(self).wf(),
            final(self).lines_view() == old(self).lines_view(),
            r matches Err(e) ==> e is UnexpectedEof,
            ({
                let lines = old(self).lines_view();
                let at = old(self).position();
                if at < lines.len() {
                    let nr = count_field(lines[at], 44, 55);
                    if at + 1 + lines_for(nr, 3) <= lines.len() {
                        &&& r matches Ok(t) && cont_matches(t.cont, lines[at]) && pairs_match(
                            lines,
                            at + 1,
                            nr,
                            t.table.breakpoints@,
                            t.table.interpolation@,
                        )
                        &&& final(self).position() == at + 1 + lines_for(nr, 3)
                    } else {
                        r is Err
                    }
                } else {
                    r is Err
                }
            }),
    {
        let cont = self.cont_record()?;
        let n_regions: usize = count_exec(cont.n1);
        let (breakpoints, interpolation) = self.interpolation_pairs(n_regions)?;
        Ok(Tab2 { cont, table: Tabulated2D { breakpoints, interpolation } })
    }
}

/// The CONT record a line holds.
pub fn cont_from_line(line: &str) -> (c: Cont)
    ensures
        cont_matches(c, line@),
{
    Cont {
        c1: field(line, 0, 11).to_owned(),
        c2: field(line, 11, 22).to_owned(),
        l1: int_endf(field(line, 22, 33)),
        l2: int_endf(field(line, 33, 44)),
        n1: int_endf(field(line, 44, 55)),
        n2: int_endf(field(line, 55, 66)),
    }
}

/// The elements a row of an INTG record holds per line, by NDIGIT, or
/// `None` for an NDIGIT the format does not define.
pub open spec fn intg_row_length(ndigit: int) -> Option<int> {
    if ndigit == 2 {
        Some(18)
    } else if ndigit == 3 {
        Some(12)
    } else if ndigit == 4 {
        Some(11)
    } else if ndigit == 5 {
        Some(9)
    } else if ndigit == 6 {
        Some(8)
    } else {
        None
    }
}

/// The nonzero elements of one line of an INTG record, from the `j`-th on,
/// as `(row, column, element)`, zero-based. Only the elements left of the
/// diagonal are read, and each is written to column `jj`, as the reference
/// reader does.
pub open spec fn intg_elements(
    line: Seq<char>,
    ii: int,
    jj: int,
    j: int,
    nrow: int,
    width: int,
) -> Seq<(int, int, int)>
    decreases nrow - j,
{
    if j < 0 || j >= nrow || jj + j >= ii {
        Seq::empty()
    } else {
        let e = int_field(line, 11 + width * j, 11 + width * j + width);
        (if e != 0 {
            seq![(ii, jj, e)]
        } else {
            Seq::empty()
        }) + intg_elements(line, ii, jj, j + 1, nrow, width)
    }
}

/// The nonzero elements of one line of an INTG record: none where its row
/// or column is out of range.
pub open spec fn intg_row(line: Seq<char>, npar: int, nrow: int, width: int) -> Seq<(int, int, int)> {
    let ii = int_field(line, 0, 5) - 1;
    let jj = int_field(line, 5, 10) - 1;
    if ii < 0 || jj < 0 || ii >= npar {
        Seq::empty()
    } else {
        intg_elements(line, ii, jj, 0, nrow, width)
    }
}

/// The nonzero elements of the first `k` lines of an INTG record from
/// `lines[at]` on, in the order written.
pub open spec fn intg_rows(
    lines: Seq<Seq<char>>,
    at: int,
    k: int,
    npar: int,
    nrow: int,
    width: int,
) -> Seq<(int, int, int)>
    decreases k,
{
    if k <= 0 {
        Seq::empty()
    } else {
        intg_rows(lines, at, k - 1, npar, nrow, width) + intg_row(lines[at + k - 1], npar, nrow, width)
    }
}

/// The integer content of an INTG record: the precision and order of the
/// correlation matrix, and its nonzero elements in the order written. An
/// element `e` stands for `(e + 0.5) / 10^NDIGIT` where it is positive and
/// `(e - 0.5) / 10^NDIGIT` where it is negative; the matrix is the identity
/// with those elements set, then the lower triangle reflected onto the upper.
#[derive(Debug, Clone, PartialEq, Eq)]
pub struct IntgRecord {
    pub ndigit: i64,
    pub npar: usize,
    /// `(row, column, element)`, zero-based.
    pub entries: Vec<(usize, usize, i64)>,
}

/// The entries as integers.
pub open spec fn entries_view(v: Seq<(usize, usize, i64)>) -> Seq<(int, int, int)> {
    Seq::new(v.len(), |i: int| (v[i].0 as int, v[i].1 as int, v[i].2 as int))
}

/// The nonzero elements of one line of an INTG record, appended to
/// `entries`.
fn intg_line(
    line: &str,
    npar: usize,
    nrow: usize,
    width: usize,
    entries: &mut Vec<(usize, usize, i64)>,
)
    requires
        nrow <= 18,
        2 <= width <= 7,
    ensures
        entries_view(final(entries)@) == entries_view(old(entries)@) + intg_row(
            line@,
            npar as int,
            nrow as int,
            width as int,
        ),
{
    let ii: i128 = int_endf(field(line, 0, 5)) as i128 - 1;
    let jj: i128 = int_endf(field(line, 5, 10)) as i128 - 1;
    if ii < 0 || jj < 0 || ii >= npar as i128 {
        assert(entries_view(old(entries)@) + Seq::<(int, int, int)>::empty() =~= entries_view(old(entries)@));
        return;
    }
    let ghost base = entries_view(old(entries)@);
    let mut j: usize = 0;
    while j < nrow && jj + (j as i128) < ii
        invariant
            j <= nrow <= 18,
            2 <= width <= 7,
            0 <= ii < npar,
            0 <= jj,
            ii == int_field(line@, 0, 5) - 1,
            jj == int_field(line@, 5, 10) - 1,
            entries_view(entries@) + intg_elements(line@, ii as int, jj as int, j as int, nrow as int, width as int)
                == base + intg_elements(line@, ii as int, jj as int, 0, nrow as int, width as int),
        decreases nrow - j,
    {
        assert(width * j <= 7 * 18) by (nonlinear_arith)
            requires
                width <= 7,
                j <= 18,
        ;
        let o: usize = 11 + width * j;
        let e = int_endf(field(line, o, o + width));
        let ghost rest = intg_elements(line@, ii as int, jj as int, (j + 1) as int, nrow as int, width as int);
        let ghost before = entries_view(entries@);
        if e != 0 {
            entries.push((ii as usize, jj as usize, e));
            assert(entries_view(entries@) =~= before.push((ii as int, jj as int, e as int)));
            assert(seq![(ii as int, jj as int, e as int)] + rest =~= rest.insert(0, (ii as int, jj as int, e as int)));
            assert(entries_view(entries@) + rest =~= before + (seq![(ii as int, jj as int, e as int)] + rest));
        } else {
            assert(Seq::<(int, int, int)>::empty() + rest =~= rest);
        }
        j = j + 1;
    }
    assert(intg_elements(line@, ii as int, jj as int, j as int, nrow as int, width as int) =~= Seq::<(int, int, int)>::empty());
    assert(entries_view(entries@) =~= entries_view(entries@) + Seq::<(int, int, int)>::empty());
}

impl<'a> Reader<'a> {
    /// An INTG record: a CONT header giving NDIGIT, the order of the matrix
    /// and the number of lines, then those lines.
    pub fn intg_record(&mut self) -> (r: Result<IntgRecord>)
        requires
            old(self).wf(),
        ensures
            final(self).wf(),
            final(self).lines_view() == old(self).lines_view(),
            ({
                let lines = old(self).lines_view();
                let at = old(self).position();
                if at < lines.len() {
                    let ndigit = int_field(lines[at], 22, 33);
                    let npar = count_field(lines[at], 33, 44);
                    let nlines = count_field(lines[at], 44, 55);
                    match intg_row_length(ndigit) {
                        None => r == Err::<IntgRecord, Error>(Error::BadNdigit { ndigit: ndigit as i64 }),
                        Some(nrow) => if at + 1 + nlines <= lines.len() {
                            &&& r matches Ok(rec) && rec.ndigit == ndigit && rec.npar == npar
                                && entries_view(rec.entries@) == intg_rows(
                                lines,
                                at + 1,
                                nlines,
                                npar,
                                nrow,
                                ndigit + 1,
                            )
                            &&& final(self).position() == at + 1 + nlines
                        } else {
                            r matches Err(e) && e is UnexpectedEof
                        },
                    }
                } else {
                    r matches Err(e) && e is UnexpectedEof
                }
            }),
    {
        let ghost lines = self.lines_view();
        let ghost at = self.position();
        let items = self.cont_record()?;
        let ndigit = items.l1;
        let npar = count_exec(items.l2);
        let nlines = count_exec(items.n1);
        let nrow: usize = if ndigit == 2 {
            18
        } else if ndigit == 3 {
            12
        } else if ndigit == 4 {
            11
        } else if ndigit == 5 {
            9
        } else if ndigit == 6 {
            8
        } else {
            return Err(Error::BadNdigit { ndigit });
        };
        let width: usize = if ndigit == 2 {
            3
        } else if ndigit == 3 {
            4
        } else if ndigit == 4 {
            5
        } else if ndigit == 5 {
            6
        } else {
            7
        };
        let mut entries: Vec<(usize, usize, i64)> = Vec::new();
        let mut k: usize = 0;
        while k < nlines
            invariant
                self.wf(),
                self.lines_view() == lines,
                lines == old(self).lines_view(),
                at == old(self).position(),
                self.position() == at + 1 + k,
                at < lines.len(),
                k <= nlines,
                nlines == count_field(lines[at], 44, 55),
                npar == count_field(lines[at], 33, 44),
                ndigit == int_field(lines[at], 22, 33),
                intg_row_length(ndigit as int) == Some(nrow as int),
                width == ndigit + 1,
                nrow <= 18,
                2 <= width <= 7,
                entries_view(entries@) == intg_rows(lines, at + 1, k as int, npar as int, nrow as int, width as int),
            decreases nlines - k,
        {
            let line = self.next_line("the rows of an INTG record")?;
            intg_line(line, npar, nrow, width, &mut entries);
            k = k + 1;
        }
        Ok(IntgRecord { ndigit, npar, entries })
    }
}

} // verus!
