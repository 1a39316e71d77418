//! Splitting an ENDF-6 file into materials and their (MF, MT) sections.

use vstd::prelude::*;

use crate::error::Error;
use crate::mf::mf3::{mf3_fits, mf3_matches, parse_mf3, Mf3};
use crate::mf::atomic::{mf23_matches, mf27_matches, parse_mf23, parse_mf27, Mf23, Mf27};
use crate::mf::covariance::{
    mf33_fits, mf33_matches, mf34_fits, mf34_matches, mf40_fits, mf40_matches, parse_mf33, parse_mf34, parse_mf40, Mf33,
    Mf34, Mf40,
};
use crate::mf::mf2::{mf2_fits, mf2_matches, parse_mf2, Mf2};
use crate::mf::atomic::{mf26_fits, mf26_matches, mf28_fits, mf28_matches, parse_mf26, parse_mf28, Mf26, Mf28};
use crate::mf::mf4::{mf4_fits, mf4_matches, parse_mf4, Mf4};
use crate::mf::mf5::{mf5_fits, mf5_matches, parse_mf5, Mf5};
use crate::mf::mf6::{mf6_fits, mf6_matches, parse_mf6, Mf6};
use crate::mf::mf7::{mf7_mt2_fits, mf7_mt2_matches, mf7_mt451_fits, mf7_mt451_matches, parse_mf7_mt2, parse_mf7_mt451, Mf7Mt2, Mf7Mt451};
use crate::mf::photon::{
    mf12_fits, mf12_matches, mf13_fits, mf13_matches, mf14_fits, mf14_matches, mf15_fits, mf15_matches, parse_mf12,
    parse_mf13, parse_mf14, parse_mf15, Mf12, Mf13, Mf14, Mf15,
};
use crate::mf::mf8::{
    mf8_fits, mf8_matches, mf8_mt454_fits, mf8_mt454_matches, mf8_mt457_fits, mf8_mt457_matches, mf9_mf10_fits,
    mf9_mf10_matches, parse_mf8, parse_mf8_mt454, parse_mf8_mt457, parse_mf9_mf10, Mf8, Mf8Mt454, Mf8Mt457, Mf9Mf10,
};
use crate::mf::mf1::{
    mf1_mt452_fits, mf1_mt452_matches, mf1_mt455_fits, mf1_mt455_matches, mf1_mt458_fits, mf1_mt458_matches,
    mf1_mt460_fits, mf1_mt460_matches, parse_mf1_mt452, parse_mf1_mt455, parse_mf1_mt458, parse_mf1_mt460, Mf1Mt452,
    Mf1Mt455, Mf1Mt458, Mf1Mt460, mf1_mt451_fits, mf1_mt451_matches, parse_mf1_mt451, Mf1Mt451};
use crate::records::{field, field_of, lines_of, newline_at, str_lines, strip_cr, Reader};
use crate::text::{chars_of, parse_i64, parse_int_in, push_str, string_push, trim, trim_chars};

verus! {

broadcast use vstd::string::group_string_axioms;

/// A parsed section, one variant per MF/MT family.
///
/// [`Section::Unparsed`] covers the files this reader does not interpret.
/// Their text is still kept in the material, so a consumer can read them
/// itself.
#[derive(Debug, Clone, PartialEq, Eq)]
pub enum Section {
    /// MF=3, reaction cross sections.
    Mf3(Mf3),
    Unparsed { mf: i32, mt: i32 },
}

/// An (MF, MT) pair.
pub type Key = (i32, i32);

/// An ENDF material: one evaluation, made up of (MF, MT) sections.
#[derive(Debug, Clone)]
pub struct Material {
    /// ENDF material number.
    pub mat: i32,
    /// Raw text of each section, in ascending (MF, MT) order, control
    /// columns included.
    section_text: Vec<(Key, String)>,
    /// Parsed form of each section, in the same order.
    section_data: Vec<(Key, Section)>,
}

/// Why splitting a file failed: it ended while the named thing was
/// expected, or a line's control fields could not be read.
pub ghost enum Failure {
    Eof(Seq<char>),
    BadLine(Seq<char>),
    /// A section ended before the records its file calls for.
    Section,
}

/// Whether an error is the one a failure describes.
pub open spec fn failure_is(e: Error, f: Failure) -> bool {
    match f {
        Failure::Eof(what) => e matches Error::UnexpectedEof { expected } && expected@ == what,
        Failure::BadLine(l) => e matches Error::BadControlField { line } && line@ == l,
        Failure::Section => e is UnexpectedEof,
    }
}

/// A MAT/MF/MT control field: blank is zero, otherwise it has to be an
/// `i32`.
pub open spec fn control_value(s: Seq<char>) -> Option<int> {
    let t = trim(s);
    if t.len() == 0 {
        Some(0)
    } else {
        parse_int_in(t, i32::MIN as int, i32::MAX as int)
    }
}

/// The (MAT, MF, MT) control fields in the last 14 columns of a line.
pub open spec fn control_of(line: Seq<char>) -> Option<(i32, i32, i32)> {
    match (
        control_value(field_of(line, 66, 70)),
        control_value(field_of(line, 70, 72)),
        control_value(field_of(line, 72, 75)),
    ) {
        (Some(a), Some(b), Some(c)) => Some((a as i32, b as i32, c as i32)),
        _ => None,
    }
}

/// The MAT field of a line whose control fields read.
pub open spec fn mat_of(line: Seq<char>) -> i32 {
    match control_of(line) {
        Some((m, _, _)) => m,
        None => 0,
    }
}

/// The MF field of a line whose control fields read.
pub open spec fn mf_of(line: Seq<char>) -> i32 {
    match control_of(line) {
        Some((_, f, _)) => f,
        None => 0,
    }
}

/// The MT field of a line whose control fields read.
pub open spec fn mt_of(line: Seq<char>) -> i32 {
    match control_of(line) {
        Some((_, _, t)) => t,
        None => 0,
    }
}

/// The first line from `c` on that belongs to a file (MF != 0).
pub open spec fn first_file_line(lines: Seq<Seq<char>>, c: int) -> Result<int, Failure>
    decreases lines.len() - c,
{
    if c < 0 || c >= lines.len() {
        Err(Failure::Eof("the start of a material"@))
    } else {
        match control_of(lines[c]) {
            None => Err(Failure::BadLine(lines[c])),
            Some((_, mf, _)) => if mf != 0 {
                Ok(c)
            } else {
                first_file_line(lines, c + 1)
            },
        }
    }
}

/// The next section head from `c` on (MT > 0), or the MEND record (MAT = 0).
pub open spec fn next_head(lines: Seq<Seq<char>>, c: int) -> Result<int, Failure>
    decreases lines.len() - c,
{
    if c < 0 || c >= lines.len() {
        Err(Failure::Eof("the next section"@))
    } else {
        match control_of(lines[c]) {
            None => Err(Failure::BadLine(lines[c])),
            Some((mat, _, mt)) => if mt > 0 || mat == 0 {
                Ok(c)
            } else {
                next_head(lines, c + 1)
            },
        }
    }
}

/// The SEND record (MT = 0) that ends the section containing `lines[c]`.
pub open spec fn send_at(lines: Seq<Seq<char>>, c: int) -> Result<int, Failure>
    decreases lines.len() - c,
{
    if c < 0 || c >= lines.len() {
        Err(Failure::Eof("the end of a section"@))
    } else {
        match control_of(lines[c]) {
            None => Err(Failure::BadLine(lines[c])),
            Some((_, _, mt)) => if mt == 0 {
                Ok(c)
            } else {
                send_at(lines, c + 1)
            },
        }
    }
}

/// Lines joined into a section body, each ended by `\n`.
pub open spec fn concat_lines(ls: Seq<Seq<char>>) -> Seq<char>
    decreases ls.len(),
{
    if ls.len() == 0 {
        Seq::empty()
    } else {
        concat_lines(ls.drop_last()) + ls.last() + seq!['\n']
    }
}

/// The order of (MF, MT) pairs.
pub open spec fn key_lt(a: Key, b: Key) -> bool {
    a.0 < b.0 || (a.0 == b.0 && a.1 < b.1)
}

/// Where `k` belongs among the sorted sections, from `i` on.
pub open spec fn insert_pos(list: Seq<(Key, Seq<char>)>, k: Key, i: int) -> int
    decreases list.len() - i,
{
    if i < 0 || i >= list.len() {
        list.len() as int
    } else if !key_lt(list[i].0, k) {
        i
    } else {
        insert_pos(list, k, i + 1)
    }
}

/// The sections with `(k, body)` added, replacing any body `k` had.
pub open spec fn insert_section(list: Seq<(Key, Seq<char>)>, k: Key, body: Seq<char>) -> Seq<
    (Key, Seq<char>),
> {
    let i = insert_pos(list, k, 0);
    if i < list.len() && list[i].0 == k {
        list.update(i, (k, body))
    } else {
        list.insert(i, (k, body))
    }
}

pub proof fn lemma_first_file_line_bounds(lines: Seq<Seq<char>>, c: int)
    ensures
        first_file_line(lines, c) matches Ok(f) ==> c <= f < lines.len() && control_of(
            lines[f],
        ) is Some && mf_of(lines[f]) != 0,
    decreases lines.len() - c,
{
    if 0 <= c < lines.len() && control_of(lines[c]) is Some && mf_of(lines[c]) == 0 {
        lemma_first_file_line_bounds(lines, c + 1);
    }
}

pub proof fn lemma_next_head_bounds(lines: Seq<Seq<char>>, c: int)
    ensures
        next_head(lines, c) matches Ok(h) ==> c <= h < lines.len() && control_of(lines[h]) is Some
            && (mt_of(lines[h]) > 0 || mat_of(lines[h]) == 0),
    decreases lines.len() - c,
{
    if 0 <= c < lines.len() && control_of(lines[c]) is Some && !(mt_of(lines[c]) > 0 || mat_of(lines[c]) == 0) {
        lemma_next_head_bounds(lines, c + 1);
    }
}

/// The SEND record comes after every line of the section, and each of those
/// lines has readable control fields and a non-zero MT.
pub proof fn lemma_send_at_bounds(lines: Seq<Seq<char>>, c: int)
    ensures
        send_at(lines, c) matches Ok(s) ==> {
            &&& c <= s < lines.len()
            &&& control_of(lines[s]) is Some
            &&& mt_of(lines[s]) == 0
            &&& forall|i: int|
                c <= i < s ==> control_of(#[trigger] lines[i]) is Some && mt_of(lines[i]) != 0
        },
    decreases lines.len() - c,
{
    if 0 <= c < lines.len() && control_of(lines[c]) is Some && mt_of(lines[c]) != 0 {
        lemma_send_at_bounds(lines, c + 1);
    }
}

/// The sections from `lines[c]` to the MEND record, added to `acc`, and the
/// line after the MEND record.
pub open spec fn split_from(lines: Seq<Seq<char>>, c: int, acc: Seq<(Key, Seq<char>)>) -> Result<
    (Seq<(Key, Seq<char>)>, int),
    Failure,
>
    decreases lines.len() - c,
{
    match next_head(lines, c) {
        Err(f) => Err(f),
        Ok(h) => {
            proof {
                lemma_next_head_bounds(lines, c);
            }
            if mat_of(lines[h]) == 0 {
                Ok((acc, h + 1))
            } else {
                match send_at(lines, h) {
                    Err(f) => Err(f),
                    Ok(s) => {
                        proof {
                            lemma_send_at_bounds(lines, h);
                        }
                        split_from(
                            lines,
                            s + 1,
                            insert_section(acc, (mf_of(lines[h]), mt_of(lines[h])), concat_lines(lines.subrange(h, s))),
                        )
                    },
                }
            }
        },
    }
}

/// One material read from `lines[c]` on: its number, its sections in
/// ascending (MF, MT) order, and the line after its MEND record.
pub open spec fn material_spec(lines: Seq<Seq<char>>, c: int) -> Result<
    (i32, Seq<(Key, Seq<char>)>, int),
    Failure,
> {
    match first_file_line(lines, c) {
        Err(f) => Err(f),
        Ok(f) => match split_from(lines, f, Seq::empty()) {
            Err(e) => Err(e),
            Ok((secs, end)) => if all_sections_read(secs) {
                Ok((mat_of(lines[f]), secs, end))
            } else {
                Err(Failure::Section)
            },
        },
    }
}

/// Whether a section's text can be read as its file says: only MF=3 is
/// read here, and it has to hold a whole HEAD and TAB1 record.
pub open spec fn section_reads(k: Key, body: Seq<char>) -> bool {
    k.0 != 3 || mf3_fits(lines_of(body), 0)
}

/// What the parsed form of a section holds.
pub open spec fn section_matches(k: Key, body: Seq<char>, s: Section) -> bool {
    if k.0 == 3 {
        s matches Section::Mf3(m) && mf3_matches(m, lines_of(body), 0)
    } else {
        s == (Section::Unparsed { mf: k.0, mt: k.1 })
    }
}

/// The characters of each line.
pub open spec fn line_views(lines: Seq<&str>) -> Seq<Seq<char>> {
    Seq::new(lines.len(), |i: int| lines[i]@)
}

/// Whether every section can be read.
pub open spec fn all_sections_read(secs: Seq<(Key, Seq<char>)>) -> bool {
    forall|i: int| 0 <= i < secs.len() ==> #[trigger] section_reads(secs[i].0, secs[i].1)
}

impl Material {
    /// The section texts, in ascending (MF, MT) order.
    pub closed spec fn text_view(&self) -> Seq<(Key, Seq<char>)> {
        Seq::new(self.section_text@.len(), |i: int| (self.section_text@[i].0, self.section_text@[i].1@))
    }

    /// The material number.
    pub closed spec fn mat_number(&self) -> i32 {
        self.mat
    }

    /// The parsed sections, in the same order.
    pub closed spec fn data_view(&self) -> Seq<(Key, Section)> {
        self.section_data@
    }

    /// The section keys rise strictly, and the parsed sections line up with
    /// the texts they were read from.
    pub closed spec fn wf(&self) -> bool {
        &&& keys_ascending(self.text_view())
        &&& self.section_data@.len() == self.section_text@.len()
        &&& forall|i: int|
            0 <= i < self.section_data@.len() ==> {
                &&& (#[trigger] self.section_data@[i]).0 == self.section_text@[i].0
                &&& section_matches(
                    self.section_text@[i].0,
                    self.section_text@[i].1@,
                    self.section_data@[i].1,
                )
            }
    }
}

pub proof fn lemma_split_from_end(lines: Seq<Seq<char>>, c: int, acc: Seq<(Key, Seq<char>)>)
    ensures
        split_from(lines, c, acc) matches Ok((_, end)) ==> c < end <= lines.len(),
    decreases lines.len() - c,
{
    lemma_next_head_bounds(lines, c);
    if let Ok(h) = next_head(lines, c) {
        if mat_of(lines[h]) != 0 {
            lemma_send_at_bounds(lines, h);
            if let Ok(s) = send_at(lines, h) {
                lemma_split_from_end(
                    lines,
                    s + 1,
                    insert_section(acc, (mf_of(lines[h]), mt_of(lines[h])), concat_lines(lines.subrange(h, s))),
                );
            }
        }
    }
}

/// Reading a material always moves past at least one line.
pub proof fn lemma_material_end(lines: Seq<Seq<char>>, c: int)
    ensures
        material_spec(lines, c) matches Ok((_, _, end)) ==> c < end <= lines.len(),
{
    lemma_first_file_line_bounds(lines, c);
    if let Ok(f) = first_file_line(lines, c) {
        lemma_split_from_end(lines, f, Seq::empty());
    }
}

/// Every material from `lines[c]` on, up to the TEND record (MAT = -1) or
/// the end of the text, after those already in `acc`.
pub open spec fn materials_from(
    lines: Seq<Seq<char>>,
    c: int,
    acc: Seq<(i32, Seq<(Key, Seq<char>)>)>,
) -> core::result::Result<Seq<(i32, Seq<(Key, Seq<char>)>)>, Failure>
    decreases lines.len() - c,
{
    if c < 0 || c >= lines.len() {
        Ok(acc)
    } else {
        match control_value(field_of(lines[c], 66, 70)) {
            None => Err(Failure::BadLine(lines[c])),
            Some(m) => if m == -1 {
                Ok(acc)
            } else {
                match material_spec(lines, c) {
                    Err(f) => Err(f),
                    Ok((mat, secs, end)) => {
                        proof {
                            lemma_material_end(lines, c);
                        }
                        materials_from(lines, end, acc.push((mat, secs)))
                    },
                }
            },
        }
    }
}

/// Every material in the text of an ENDF-6 file, after its TPID record.
pub open spec fn materials_spec(text: Seq<char>) -> core::result::Result<
    Seq<(i32, Seq<(Key, Seq<char>)>)>,
    Failure,
> {
    let lines = lines_of(text);
    if lines.len() == 0 {
        Ok(Seq::empty())
    } else {
        materials_from(lines, 1, Seq::empty())
    }
}

/// Whether `m` is the material described by `spec`.
pub open spec fn material_is(m: Material, spec: (i32, Seq<(Key, Seq<char>)>)) -> bool {
    &&& m.wf()
    &&& m.mat_number() == spec.0
    &&& m.text_view() == spec.1
}

/// Whether the keys of `secs` include `k`.
pub open spec fn has_key(secs: Seq<(Key, Seq<char>)>, k: Key) -> bool {
    exists|i: int| 0 <= i < secs.len() && (#[trigger] secs[i]).0 == k
}

/// The characters of each element of a sequence of `(key, text)` pairs.
pub open spec fn texts_view(s: Seq<(Key, String)>) -> Seq<(Key, Seq<char>)> {
    Seq::new(s.len(), |i: int| (s[i].0, s[i].1@))
}

/// Read a MAT/MF/MT control field.
///
/// A blank field reads as zero, which is what the format means by it.
/// Anything present but not an `i32` is a malformed line.
fn control_field(line: &str, start: usize, end: usize) -> (r: Option<i32>)
    ensures
        r matches Some(v) ==> control_value(field_of(line@, start as int, end as int)) == Some(
            v as int,
        ),
        r is None ==> control_value(field_of(line@, start as int, end as int)) is None,
{
    let chars = chars_of(field(line, start, end));
    let t = trim_chars(&chars);
    if t.len() == 0 {
        return Some(0);
    }
    assert(t@.subrange(0, t.len() as int) == t@);
    match parse_i64(&t, 0, t.len()) {
        Some(v) => if -2147483648 <= v && v <= 2147483647 {
            Some(v as i32)
        } else {
            None
        },
        None => None,
    }
}

/// The (MAT, MF, MT) control fields in the last 14 columns of a line.
pub fn control(line: &str) -> (r: Result<(i32, i32, i32), Error>)
    ensures
        control_of(line@) matches Some(t) ==> r == Ok::<(i32, i32, i32), Error>(t),
        control_of(line@) is None ==> (r matches Err(e) && failure_is(e, Failure::BadLine(line@))),
{
    let a = control_field(line, 66, 70);
    let b = control_field(line, 70, 72);
    let c = control_field(line, 72, 75);
    match (a, b, c) {
        (Some(a), Some(b), Some(c)) => Ok((a, b, c)),
        _ => Err(Error::BadControlField { line: line.to_owned() }),
    }
}

/// Whether one (MF, MT) pair comes before another.
fn key_less(a: Key, b: Key) -> (r: bool)
    ensures
        r == key_lt(a, b),
{
    a.0 < b.0 || (a.0 == b.0 && a.1 < b.1)
}

/// Add a section's text, keeping the keys in ascending order and replacing
/// the text of a key already present.
fn insert_text(v: &mut Vec<(Key, String)>, k: Key, body: String)
    ensures
        texts_view(final(v)@) == insert_section(texts_view(old(v)@), k, body@),
{
    let ghost tv = texts_view(v@);
    let mut i: usize = 0;
    while i < v.len() && key_less(v[i].0, k)
        invariant
            tv == texts_view(v@),
            i <= v.len(),
            insert_pos(tv, k, 0) == insert_pos(tv, k, i as int),
        decreases v.len() - i,
    {
        i = i + 1;
    }
    assert(insert_pos(tv, k, i as int) == i);
    let found = if i < v.len() {
        let vk = v[i].0;
        vk.0 == k.0 && vk.1 == k.1
    } else {
        false
    };
    if found {
        v.set(i, (k, body));
        assert(texts_view(v@) =~= tv.update(i as int, (k, body@)));
    } else {
        v.insert(i, (k, body));
        assert(texts_view(v@) =~= tv.insert(i as int, (k, body@)));
    }
}

/// Dispatch a section to its file's parser. Only MF=3 is read; every other
/// file stays [`Section::Unparsed`] with its text preserved.
fn parse_section(mf: i32, mt: i32, text: &str) -> (r: Result<Section, Error>)
    ensures
        section_reads((mf, mt), text@) ==> (r matches Ok(s) && section_matches(
            (mf, mt),
            text@,
            s,
        )),
        !section_reads((mf, mt), text@) ==> (r matches Err(e) && e is UnexpectedEof),
{
    let mut r = Reader::new(text);
    if mf == 3 {
        let m = parse_mf3(&mut r)?;
        Ok(Section::Mf3(m))
    } else {
        Ok(Section::Unparsed { mf, mt })
    }
}

impl Material {
    /// The (MF, MT) sections present, in ascending order.
    pub fn sections(&self) -> (r: Vec<Key>)
        ensures
            r@ == self.text_view().map_values(|p: (Key, Seq<char>)| p.0),
    {
        let mut r: Vec<Key> = Vec::new();
        let mut i: usize = 0;
        while i < self.section_text.len()
            invariant
                i <= self.section_text@.len(),
                r@ == self.text_view().take(i as int).map_values(|p: (Key, Seq<char>)| p.0),
            decreases self.section_text.len() - i,
        {
            r.push(self.section_text[i].0);
            i = i + 1;
            assert(r@ =~= self.text_view().take(i as int).map_values(|p: (Key, Seq<char>)| p.0));
        }
        assert(self.text_view().take(i as int) =~= self.text_view());
        r
    }

    /// The position of a section, if the material has it.
    fn find(&self, mf: i32, mt: i32) -> (r: Option<usize>)
        ensures
            r matches Some(i) ==> i < self.section_text@.len() && self.text_view()[i as int].0 == (mf, mt),
            r is None ==> !has_key(self.text_view(), (mf, mt)),
    {
        let mut i: usize = 0;
        while i < self.section_text.len()
            invariant
                i <= self.section_text@.len(),
                forall|j: int| 0 <= j < i ==> (#[trigger] self.text_view()[j]).0 != (mf, mt),
            decreases self.section_text.len() - i,
        {
            let k = self.section_text[i].0;
            if k.0 == mf && k.1 == mt {
                return Some(i);
            }
            i = i + 1;
        }
        None
    }

    pub fn contains(&self, mf: i32, mt: i32) -> (r: bool)
        ensures
            r == has_key(self.text_view(), (mf, mt)),
    {
        self.find(mf, mt).is_some()
    }

    /// The parsed form of a section, if the material has it.
    pub fn get(&self, mf: i32, mt: i32) -> (r: Option<&Section>)
        requires
            self.wf(),
        ensures
            r matches Some(s) ==> exists|i: int|
                0 <= i < self.data_view().len() && self.text_view()[i].0 == (mf, mt)
                    && self.data_view()[i].1 == *s,
            r is None ==> !has_key(self.text_view(), (mf, mt)),
            (r is Some) == has_key(self.text_view(), (mf, mt)),
            r matches Some(s) ==> forall|i: int|
                0 <= i < self.text_view().len() && self.text_view()[i].0 == (mf, mt) ==> self.data_view()[i].1 == *s,
    {
        proof {
            lemma_section_keys_unique(*self);
        }
        match self.find(mf, mt) {
            Some(i) => Some(&self.section_data[i].1),
            None => None,
        }
    }

    /// The raw text of a section, control columns included, if the material
    /// has it.
    pub fn text(&self, mf: i32, mt: i32) -> (r: Option<&String>)
        ensures
            r matches Some(t) ==> exists|i: int|
                0 <= i < self.text_view().len() && self.text_view()[i] == ((mf, mt), t@),
            r is None ==> !has_key(self.text_view(), (mf, mt)),
    {
        match self.find(mf, mt) {
            Some(i) => Some(&self.section_text[i].1),
            None => None,
        }
    }

    /// Every section's text, in ascending (MF, MT) order.
    pub fn section_text(&self) -> (r: &Vec<(Key, String)>)
        ensures
            texts_view(r@) == self.text_view(),
    {
        assert(texts_view(self.section_text@) =~= self.text_view());
        &self.section_text
    }

    /// Every section's parsed form, in ascending (MF, MT) order.
    pub fn section_data(&self) -> (r: &Vec<(Key, Section)>)
        ensures
            r@ == self.data_view(),
    {
        &self.section_data
    }

    /// The MF=3 cross section for a reaction, if the material has one.
    pub fn mf3(&self, mt: i32) -> (r: Option<&Mf3>)
        requires
            self.wf(),
        ensures
            r matches Some(m) ==> exists|i: int|
                0 <= i < self.data_view().len() && self.text_view()[i].0 == (3i32, mt)
                    && self.data_view()[i].1 == Section::Mf3(*m) && mf3_matches(
                    *m,
                    lines_of(self.text_view()[i].1),
                    0,
                ),
            r is None ==> !has_key(self.text_view(), (3i32, mt)),
            (r is Some) == has_key(self.text_view(), (3i32, mt)),
            r matches Some(m) ==> exists|i: int|
                0 <= i < self.data_view().len() && self.text_view()[i].0 == (3i32, mt) && self.data_view()[i].1
                    == Section::Mf3(*m) && forall|j: int|
                    0 <= j < self.text_view().len() && self.text_view()[j].0 == (3i32, mt) ==> j == i,
    {
        proof {
            lemma_section_keys_unique(*self);
        }
        match self.find(3, mt) {
            Some(i) => match &self.section_data[i].1 {
                Section::Mf3(m) => Some(m),
                _ => {
                    assert(self.text_view()[i as int].0 == (3i32, mt));
                    assert(false);
                    None
                },
            },
            None => None,
        }
    }

    /// The descriptive header and directory, MF=1 MT=451, read from its
    /// text; `None` where the material has no such section or it is cut
    /// short.
    pub fn mf1_mt451(&self) -> (r: Option<Mf1Mt451>)
        ensures
            r matches Some(d) ==> exists|i: int|
                0 <= i < self.text_view().len() && self.text_view()[i].0 == (1i32, 451i32)
                    && mf1_mt451_fits(lines_of(self.text_view()[i].1), 0) && mf1_mt451_matches(
                    d,
                    lines_of(self.text_view()[i].1),
                    0,
                ),
            r is None ==> !has_key(self.text_view(), (1i32, 451i32)) || exists|i: int|
                0 <= i < self.text_view().len() && self.text_view()[i].0 == (1i32, 451i32)
                    && !mf1_mt451_fits(lines_of(self.text_view()[i].1), 0),
    {
        match self.find(1, 451) {
            Some(i) => {
                let mut r = Reader::new(self.section_text[i].1.as_str());
                match parse_mf1_mt451(&mut r) {
                    Ok(d) => Some(d),
                    Err(_) => None,
                }
            },
            None => None,
        }
    }

    /// The MF=23 cross section of a reaction, read from its text; `None` where the material has no such
    /// section or it is cut short.
    pub fn mf23(&self, mt: i32) -> (r: Option<Mf23>)
        ensures
            r matches Some(d) ==> exists|i: int|
                0 <= i < self.text_view().len() && self.text_view()[i].0 == (23i32, mt)
                    && mf3_fits(lines_of(self.text_view()[i].1), 0) && mf23_matches(
                    d,
                    lines_of(self.text_view()[i].1),
                    0,
                ),
            r is None ==> !has_key(self.text_view(), (23i32, mt)) || exists|i: int|
                0 <= i < self.text_view().len() && self.text_view()[i].0 == (23i32, mt)
                    && !mf3_fits(lines_of(self.text_view()[i].1), 0),
    {
        match self.find(23, mt) {
            Some(i) => {
                let mut r = Reader::new(self.section_text[i].1.as_str());
                match parse_mf23(&mut r) {
                    Ok(d) => Some(d),
                    Err(_) => None,
                }
            },
            None => None,
        }
    }

    /// The MF=27 form factor or scattering function of a reaction, read from its text; `None` where the material has no such
    /// section or it is cut short.
    pub fn mf27(&self, mt: i32) -> (r: Option<Mf27>)
        ensures
            r matches Some(d) ==> exists|i: int|
                0 <= i < self.text_view().len() && self.text_view()[i].0 == (27i32, mt)
                    && mf3_fits(lines_of(self.text_view()[i].1), 0) && mf27_matches(
                    d,
                    lines_of(self.text_view()[i].1),
                    0,
                ),
            r is None ==> !has_key(self.text_view(), (27i32, mt)) || exists|i: int|
                0 <= i < self.text_view().len() && self.text_view()[i].0 == (27i32, mt)
                    && !mf3_fits(lines_of(self.text_view()[i].1), 0),
    {
        match self.find(27, mt) {
            Some(i) => {
                let mut r = Reader::new(self.section_text[i].1.as_str());
                match parse_mf27(&mut r) {
                    Ok(d) => Some(d),
                    Err(_) => None,
                }
            },
            None => None,
        }
    }

    /// The resonance parameters of MF=2 MT=151, read from its text; `None`
    /// where the material has no such section, it is cut short, or it uses
    /// a formalism this reader does not know.
    pub fn mf2(&self) -> (r: Option<Mf2>)
        ensures
            r matches Some(d) ==> exists|i: int|
                0 <= i < self.text_view().len() && self.text_view()[i].0 == (2i32, 151i32)
                    && mf2_fits(lines_of(self.text_view()[i].1), 0) && mf2_matches(
                    d,
                    lines_of(self.text_view()[i].1),
                    0,
                ),
            r is None ==> !has_key(self.text_view(), (2i32, 151i32)) || exists|i: int|
                0 <= i < self.text_view().len() && self.text_view()[i].0 == (2i32, 151i32)
                    && !mf2_fits(lines_of(self.text_view()[i].1), 0),
    {
        match self.find(2, 151) {
            Some(i) => {
                let mut r = Reader::new(self.section_text[i].1.as_str());
                match parse_mf2(&mut r) {
                    Ok(d) => Some(d),
                    Err(_) => None,
                }
            },
            None => None,
        }
    }

    /// The neutrons per fission of MF=1 MT=452 (total) or MT=456 (prompt),
    /// read from its text; `None` where the material has no such section or
    /// it is cut short.
    pub fn mf1_mt452(&self, mt: i32) -> (r: Option<Mf1Mt452>)
        ensures
            r matches Some(d) ==> exists|i: int|
                0 <= i < self.text_view().len() && self.text_view()[i].0 == (1i32, mt)
                    && mf1_mt452_fits(lines_of(self.text_view()[i].1), 0) && mf1_mt452_matches(
                    d,
                    lines_of(self.text_view()[i].1),
                    0,
                ),
            r is None ==> !has_key(self.text_view(), (1i32, mt)) || exists|i: int|
                0 <= i < self.text_view().len() && self.text_view()[i].0 == (1i32, mt)
                    && !mf1_mt452_fits(lines_of(self.text_view()[i].1), 0),
    {
        match self.find(1, mt) {
            Some(i) => {
                let mut r = Reader::new(self.section_text[i].1.as_str());
                match parse_mf1_mt452(&mut r) {
                    Ok(d) => Some(d),
                    Err(_) => None,
                }
            },
            None => None,
        }
    }

    /// The delayed neutron data of MF=1 MT=455, read from its text; `None`
    /// where the material has no such section or it is cut short.
    pub fn mf1_mt455(&self) -> (r: Option<Mf1Mt455>)
        ensures
            r matches Some(d) ==> exists|i: int|
                0 <= i < self.text_view().len() && self.text_view()[i].0 == (1i32, 455i32)
                    && mf1_mt455_fits(lines_of(self.text_view()[i].1), 0) && mf1_mt455_matches(
                    d,
                    lines_of(self.text_view()[i].1),
                    0,
                ),
            r is None ==> !has_key(self.text_view(), (1i32, 455i32)) || exists|i: int|
                0 <= i < self.text_view().len() && self.text_view()[i].0 == (1i32, 455i32)
                    && !mf1_mt455_fits(lines_of(self.text_view()[i].1), 0),
    {
        match self.find(1, 455) {
            Some(i) => {
                let mut r = Reader::new(self.section_text[i].1.as_str());
                match parse_mf1_mt455(&mut r) {
                    Ok(d) => Some(d),
                    Err(_) => None,
                }
            },
            None => None,
        }
    }

    /// The fission energy release of MF=1 MT=458, read from its text; `None`
    /// where the material has no such section or it is cut short.
    pub fn mf1_mt458(&self) -> (r: Option<Mf1Mt458>)
        ensures
            r matches Some(d) ==> exists|i: int|
                0 <= i < self.text_view().len() && self.text_view()[i].0 == (1i32, 458i32)
                    && mf1_mt458_fits(lines_of(self.text_view()[i].1), 0) && mf1_mt458_matches(
                    d,
                    lines_of(self.text_view()[i].1),
                    0,
                ),
            r is None ==> !has_key(self.text_view(), (1i32, 458i32)) || exists|i: int|
                0 <= i < self.text_view().len() && self.text_view()[i].0 == (1i32, 458i32)
                    && !mf1_mt458_fits(lines_of(self.text_view()[i].1), 0),
    {
        match self.find(1, 458) {
            Some(i) => {
                let mut r = Reader::new(self.section_text[i].1.as_str());
                match parse_mf1_mt458(&mut r) {
                    Ok(d) => Some(d),
                    Err(_) => None,
                }
            },
            None => None,
        }
    }

    /// The delayed photon data of MF=1 MT=460, read from its text; `None`
    /// where the material has no such section or it is cut short.
    pub fn mf1_mt460(&self) -> (r: Option<Mf1Mt460>)
        ensures
            r matches Some(d) ==> exists|i: int|
                0 <= i < self.text_view().len() && self.text_view()[i].0 == (1i32, 460i32)
                    && mf1_mt460_fits(lines_of(self.text_view()[i].1), 0) && mf1_mt460_matches(
                    d,
                    lines_of(self.text_view()[i].1),
                    0,
                ),
            r is None ==> !has_key(self.text_view(), (1i32, 460i32)) || exists|i: int|
                0 <= i < self.text_view().len() && self.text_view()[i].0 == (1i32, 460i32)
                    && !mf1_mt460_fits(lines_of(self.text_view()[i].1), 0),
    {
        match self.find(1, 460) {
            Some(i) => {
                let mut r = Reader::new(self.section_text[i].1.as_str());
                match parse_mf1_mt460(&mut r) {
                    Ok(d) => Some(d),
                    Err(_) => None,
                }
            },
            None => None,
        }
    }

    /// The MF=8 radioactive products of a reaction, read from its text;
    /// `None` where the material has no such section or it is cut short.
    pub fn mf8(&self, mt: i32) -> (r: Option<Mf8>)
        ensures
            r matches Some(d) ==> exists|i: int|
                0 <= i < self.text_view().len() && self.text_view()[i].0 == (8i32, mt)
                    && mf8_fits(lines_of(self.text_view()[i].1), 0) && mf8_matches(
                    d,
                    lines_of(self.text_view()[i].1),
                    0,
                ),
            r is None ==> !has_key(self.text_view(), (8i32, mt)) || exists|i: int|
                0 <= i < self.text_view().len() && self.text_view()[i].0 == (8i32, mt)
                    && !mf8_fits(lines_of(self.text_view()[i].1), 0),
    {
        match self.find(8, mt) {
            Some(i) => {
                let mut r = Reader::new(self.section_text[i].1.as_str());
                match parse_mf8(&mut r) {
                    Ok(d) => Some(d),
                    Err(_) => None,
                }
            },
            None => None,
        }
    }

    /// The fission product yields of MF=8 MT=454 (independent) or MT=459
    /// (cumulative), read from its text; `None` where the material has no
    /// such section or it is cut short.
    pub fn mf8_mt454(&self, mt: i32) -> (r: Option<Mf8Mt454>)
        ensures
            r matches Some(d) ==> exists|i: int|
                0 <= i < self.text_view().len() && self.text_view()[i].0 == (8i32, mt)
                    && mf8_mt454_fits(lines_of(self.text_view()[i].1), 0) && mf8_mt454_matches(
                    d,
                    lines_of(self.text_view()[i].1),
                    0,
                ),
            r is None ==> !has_key(self.text_view(), (8i32, mt)) || exists|i: int|
                0 <= i < self.text_view().len() && self.text_view()[i].0 == (8i32, mt)
                    && !mf8_mt454_fits(lines_of(self.text_view()[i].1), 0),
    {
        match self.find(8, mt) {
            Some(i) => {
                let mut r = Reader::new(self.section_text[i].1.as_str());
                match parse_mf8_mt454(&mut r) {
                    Ok(d) => Some(d),
                    Err(_) => None,
                }
            },
            None => None,
        }
    }

    /// The radioactive decay data of MF=8 MT=457, read from its text;
    /// `None` where the material has no such section or it is cut short.
    pub fn mf8_mt457(&self) -> (r: Option<Mf8Mt457>)
        ensures
            r matches Some(d) ==> exists|i: int|
                0 <= i < self.text_view().len() && self.text_view()[i].0 == (8i32, 457i32)
                    && mf8_mt457_fits(lines_of(self.text_view()[i].1), 0) && mf8_mt457_matches(
                    d,
                    lines_of(self.text_view()[i].1),
                    0,
                ),
            r is None ==> !has_key(self.text_view(), (8i32, 457i32)) || exists|i: int|
                0 <= i < self.text_view().len() && self.text_view()[i].0 == (8i32, 457i32)
                    && !mf8_mt457_fits(lines_of(self.text_view()[i].1), 0),
    {
        match self.find(8, 457) {
            Some(i) => {
                let mut r = Reader::new(self.section_text[i].1.as_str());
                match parse_mf8_mt457(&mut r) {
                    Ok(d) => Some(d),
                    Err(_) => None,
                }
            },
            None => None,
        }
    }

    /// The MF=33 covariances of a reaction cross section, read from its text;
    /// `None` where the material has no such section, it is cut short, or
    /// it uses a layout this reader does not know.
    pub fn mf33(&self, mt: i32) -> (r: Option<Mf33>)
        ensures
            r matches Some(d) ==> exists|i: int|
                0 <= i < self.text_view().len() && self.text_view()[i].0 == (33i32, mt)
                    && mf33_fits(lines_of(self.text_view()[i].1), 0) && mf33_matches(
                    d,
                    lines_of(self.text_view()[i].1),
                    0,
                ),
            r is None ==> !has_key(self.text_view(), (33i32, mt)) || exists|i: int|
                0 <= i < self.text_view().len() && self.text_view()[i].0 == (33i32, mt)
                    && !mf33_fits(lines_of(self.text_view()[i].1), 0),
    {
        match self.find(33, mt) {
            Some(i) => {
                let mut r = Reader::new(self.section_text[i].1.as_str());
                match parse_mf33(&mut r) {
                    Ok(d) => Some(d),
                    Err(_) => None,
                }
            },
            None => None,
        }
    }

    /// The MF=34 covariances of the angular distribution of a reaction, read
    /// from its text; `None` where the material has no such section or it
    /// is cut short.
    pub fn mf34(&self, mt: i32) -> (r: Option<Mf34>)
        ensures
            r matches Some(d) ==> exists|i: int|
                0 <= i < self.text_view().len() && self.text_view()[i].0 == (34i32, mt)
                    && mf34_fits(lines_of(self.text_view()[i].1), 0, mt as i64) && mf34_matches(
                    d,
                    lines_of(self.text_view()[i].1),
                    0, mt as i64,
                ),
            r is None ==> !has_key(self.text_view(), (34i32, mt)) || exists|i: int|
                0 <= i < self.text_view().len() && self.text_view()[i].0 == (34i32, mt)
                    && !mf34_fits(lines_of(self.text_view()[i].1), 0, mt as i64),
    {
        match self.find(34, mt) {
            Some(i) => {
                let mut r = Reader::new(self.section_text[i].1.as_str());
                match parse_mf34(&mut r, mt as i64) {
                    Ok(d) => Some(d),
                    Err(_) => None,
                }
            },
            None => None,
        }
    }

    /// The MF=40 covariances of radionuclide production by a reaction, read
    /// from its text; `None` where the material has no such section, it is
    /// cut short, or it uses a layout this reader does not know.
    pub fn mf40(&self, mt: i32) -> (r: Option<Mf40>)
        ensures
            r matches Some(d) ==> exists|i: int|
                0 <= i < self.text_view().len() && self.text_view()[i].0 == (40i32, mt)
                    && mf40_fits(lines_of(self.text_view()[i].1), 0) && mf40_matches(
                    d,
                    lines_of(self.text_view()[i].1),
                    0,
                ),
            r is None ==> !has_key(self.text_view(), (40i32, mt)) || exists|i: int|
                0 <= i < self.text_view().len() && self.text_view()[i].0 == (40i32, mt)
                    && !mf40_fits(lines_of(self.text_view()[i].1), 0),
    {
        match self.find(40, mt) {
            Some(i) => {
                let mut r = Reader::new(self.section_text[i].1.as_str());
                match parse_mf40(&mut r) {
                    Ok(d) => Some(d),
                    Err(_) => None,
                }
            },
            None => None,
        }
    }

    /// The MF=4 angular distribution of a reaction, read from its text; `None`
    /// where the material has no such section or it is cut short.
    pub fn mf4(&self, mt: i32) -> (r: Option<Mf4>)
        ensures
            r matches Some(d) ==> exists|i: int|
                0 <= i < self.text_view().len() && self.text_view()[i].0 == (4i32, mt)
                    && mf4_fits(lines_of(self.text_view()[i].1), 0) && mf4_matches(
                    d,
                    lines_of(self.text_view()[i].1),
                    0,
                ),
            r is None ==> !has_key(self.text_view(), (4i32, mt)) || exists|i: int|
                0 <= i < self.text_view().len() && self.text_view()[i].0 == (4i32, mt)
                    && !mf4_fits(lines_of(self.text_view()[i].1), 0),
    {
        match self.find(4, mt) {
            Some(i) => {
                let mut r = Reader::new(self.section_text[i].1.as_str());
                match parse_mf4(&mut r) {
                    Ok(d) => Some(d),
                    Err(_) => None,
                }
            },
            None => None,
        }
    }

    /// The MF=5 energy distributions of a reaction, read from its text; `None`
    /// where the material has no such section, it is cut short, or it uses
    /// a law this reader does not know.
    pub fn mf5(&self, mt: i32) -> (r: Option<Mf5>)
        ensures
            r matches Some(d) ==> exists|i: int|
                0 <= i < self.text_view().len() && self.text_view()[i].0 == (5i32, mt)
                    && mf5_fits(lines_of(self.text_view()[i].1), 0) && mf5_matches(
                    d,
                    lines_of(self.text_view()[i].1),
                    0,
                ),
            r is None ==> !has_key(self.text_view(), (5i32, mt)) || exists|i: int|
                0 <= i < self.text_view().len() && self.text_view()[i].0 == (5i32, mt)
                    && !mf5_fits(lines_of(self.text_view()[i].1), 0),
    {
        match self.find(5, mt) {
            Some(i) => {
                let mut r = Reader::new(self.section_text[i].1.as_str());
                match parse_mf5(&mut r) {
                    Ok(d) => Some(d),
                    Err(_) => None,
                }
            },
            None => None,
        }
    }

    /// The MF=6 products of a reaction, read from its text; `None`
    /// where the material has no such section or it is cut short.
    pub fn mf6(&self, mt: i32) -> (r: Option<Mf6>)
        ensures
            r matches Some(d) ==> exists|i: int|
                0 <= i < self.text_view().len() && self.text_view()[i].0 == (6i32, mt)
                    && mf6_fits(lines_of(self.text_view()[i].1), 0) && mf6_matches(
                    d,
                    lines_of(self.text_view()[i].1),
                    0,
                ),
            r is None ==> !has_key(self.text_view(), (6i32, mt)) || exists|i: int|
                0 <= i < self.text_view().len() && self.text_view()[i].0 == (6i32, mt)
                    && !mf6_fits(lines_of(self.text_view()[i].1), 0),
    {
        match self.find(6, mt) {
            Some(i) => {
                let mut r = Reader::new(self.section_text[i].1.as_str());
                match parse_mf6(&mut r) {
                    Ok(d) => Some(d),
                    Err(_) => None,
                }
            },
            None => None,
        }
    }

    /// The thermal elastic scattering of MF=7 MT=2, read from its text; `None`
    /// where the material has no such section or it is cut short.
    pub fn mf7_mt2(&self) -> (r: Option<Mf7Mt2>)
        ensures
            r matches Some(d) ==> exists|i: int|
                0 <= i < self.text_view().len() && self.text_view()[i].0 == (7i32, 2i32)
                    && mf7_mt2_fits(lines_of(self.text_view()[i].1), 0) && mf7_mt2_matches(
                    d,
                    lines_of(self.text_view()[i].1),
                    0,
                ),
            r is None ==> !has_key(self.text_view(), (7i32, 2i32)) || exists|i: int|
                0 <= i < self.text_view().len() && self.text_view()[i].0 == (7i32, 2i32)
                    && !mf7_mt2_fits(lines_of(self.text_view()[i].1), 0),
    {
        match self.find(7, 2) {
            Some(i) => {
                let mut r = Reader::new(self.section_text[i].1.as_str());
                match parse_mf7_mt2(&mut r) {
                    Ok(d) => Some(d),
                    Err(_) => None,
                }
            },
            None => None,
        }
    }

    /// The elements of MF=7 MT=451, read from its text; `None`
    /// where the material has no such section or it is cut short.
    pub fn mf7_mt451(&self) -> (r: Option<Mf7Mt451>)
        ensures
            r matches Some(d) ==> exists|i: int|
                0 <= i < self.text_view().len() && self.text_view()[i].0 == (7i32, 451i32)
                    && mf7_mt451_fits(lines_of(self.text_view()[i].1), 0) && mf7_mt451_matches(
                    d,
                    lines_of(self.text_view()[i].1),
                    0,
                ),
            r is None ==> !has_key(self.text_view(), (7i32, 451i32)) || exists|i: int|
                0 <= i < self.text_view().len() && self.text_view()[i].0 == (7i32, 451i32)
                    && !mf7_mt451_fits(lines_of(self.text_view()[i].1), 0),
    {
        match self.find(7, 451) {
            Some(i) => {
                let mut r = Reader::new(self.section_text[i].1.as_str());
                match parse_mf7_mt451(&mut r) {
                    Ok(d) => Some(d),
                    Err(_) => None,
                }
            },
            None => None,
        }
    }

    /// The MF=12 photon multiplicities of a reaction, read from its text; `None`
    /// where the material has no such section or it is cut short.
    pub fn mf12(&self, mt: i32) -> (r: Option<Mf12>)
        ensures
            r matches Some(d) ==> exists|i: int|
                0 <= i < self.text_view().len() && self.text_view()[i].0 == (12i32, mt)
                    && mf12_fits(lines_of(self.text_view()[i].1), 0) && mf12_matches(
                    d,
                    lines_of(self.text_view()[i].1),
                    0,
                ),
            r is None ==> !has_key(self.text_view(), (12i32, mt)) || exists|i: int|
                0 <= i < self.text_view().len() && self.text_view()[i].0 == (12i32, mt)
                    && !mf12_fits(lines_of(self.text_view()[i].1), 0),
    {
        match self.find(12, mt) {
            Some(i) => {
                let mut r = Reader::new(self.section_text[i].1.as_str());
                match parse_mf12(&mut r) {
                    Ok(d) => Some(d),
                    Err(_) => None,
                }
            },
            None => None,
        }
    }

    /// The MF=13 photon production cross sections of a reaction, read from its
    /// text; `None` where the material has no such section or it is cut short.
    pub fn mf13(&self, mt: i32) -> (r: Option<Mf13>)
        ensures
            r matches Some(d) ==> exists|i: int|
                0 <= i < self.text_view().len() && self.text_view()[i].0 == (13i32, mt)
                    && mf13_fits(lines_of(self.text_view()[i].1), 0) && mf13_matches(
                    d,
                    lines_of(self.text_view()[i].1),
                    0,
                ),
            r is None ==> !has_key(self.text_view(), (13i32, mt)) || exists|i: int|
                0 <= i < self.text_view().len() && self.text_view()[i].0 == (13i32, mt)
                    && !mf13_fits(lines_of(self.text_view()[i].1), 0),
    {
        match self.find(13, mt) {
            Some(i) => {
                let mut r = Reader::new(self.section_text[i].1.as_str());
                match parse_mf13(&mut r) {
                    Ok(d) => Some(d),
                    Err(_) => None,
                }
            },
            None => None,
        }
    }

    /// The MF=14 photon angular distributions of a reaction, read from its
    /// text; `None` where the material has no such section or it is cut short.
    pub fn mf14(&self, mt: i32) -> (r: Option<Mf14>)
        ensures
            r matches Some(d) ==> exists|i: int|
                0 <= i < self.text_view().len() && self.text_view()[i].0 == (14i32, mt)
                    && mf14_fits(lines_of(self.text_view()[i].1), 0) && mf14_matches(
                    d,
                    lines_of(self.text_view()[i].1),
                    0,
                ),
            r is None ==> !has_key(self.text_view(), (14i32, mt)) || exists|i: int|
                0 <= i < self.text_view().len() && self.text_view()[i].0 == (14i32, mt)
                    && !mf14_fits(lines_of(self.text_view()[i].1), 0),
    {
        match self.find(14, mt) {
            Some(i) => {
                let mut r = Reader::new(self.section_text[i].1.as_str());
                match parse_mf14(&mut r) {
                    Ok(d) => Some(d),
                    Err(_) => None,
                }
            },
            None => None,
        }
    }

    /// The MF=15 photon energy spectra of a reaction, read from its text; `None`
    /// where the material has no such section or it is cut short.
    pub fn mf15(&self, mt: i32) -> (r: Option<Mf15>)
        ensures
            r matches Some(d) ==> exists|i: int|
                0 <= i < self.text_view().len() && self.text_view()[i].0 == (15i32, mt)
                    && mf15_fits(lines_of(self.text_view()[i].1), 0) && mf15_matches(
                    d,
                    lines_of(self.text_view()[i].1),
                    0,
                ),
            r is None ==> !has_key(self.text_view(), (15i32, mt)) || exists|i: int|
                0 <= i < self.text_view().len() && self.text_view()[i].0 == (15i32, mt)
                    && !mf15_fits(lines_of(self.text_view()[i].1), 0),
    {
        match self.find(15, mt) {
            Some(i) => {
                let mut r = Reader::new(self.section_text[i].1.as_str());
                match parse_mf15(&mut r) {
                    Ok(d) => Some(d),
                    Err(_) => None,
                }
            },
            None => None,
        }
    }

    /// The MF=26 electro-atomic products of a reaction, read from its text;
    /// `None` where the material has no such section or it is cut short.
    pub fn mf26(&self, mt: i32) -> (r: Option<Mf26>)
        ensures
            r matches Some(d) ==> exists|i: int|
                0 <= i < self.text_view().len() && self.text_view()[i].0 == (26i32, mt)
                    && mf26_fits(lines_of(self.text_view()[i].1), 0) && mf26_matches(
                    d,
                    lines_of(self.text_view()[i].1),
                    0,
                ),
            r is None ==> !has_key(self.text_view(), (26i32, mt)) || exists|i: int|
                0 <= i < self.text_view().len() && self.text_view()[i].0 == (26i32, mt)
                    && !mf26_fits(lines_of(self.text_view()[i].1), 0),
    {
        match self.find(26, mt) {
            Some(i) => {
                let mut r = Reader::new(self.section_text[i].1.as_str());
                match parse_mf26(&mut r) {
                    Ok(d) => Some(d),
                    Err(_) => None,
                }
            },
            None => None,
        }
    }

    /// The MF=28 atomic relaxation data, read from its text; `None`
    /// where the material has no such section or it is cut short.
    pub fn mf28(&self, mt: i32) -> (r: Option<Mf28>)
        ensures
            r matches Some(d) ==> exists|i: int|
                0 <= i < self.text_view().len() && self.text_view()[i].0 == (28i32, mt)
                    && mf28_fits(lines_of(self.text_view()[i].1), 0) && mf28_matches(
                    d,
                    lines_of(self.text_view()[i].1),
                    0,
                ),
            r is None ==> !has_key(self.text_view(), (28i32, mt)) || exists|i: int|
                0 <= i < self.text_view().len() && self.text_view()[i].0 == (28i32, mt)
                    && !mf28_fits(lines_of(self.text_view()[i].1), 0),
    {
        match self.find(28, mt) {
            Some(i) => {
                let mut r = Reader::new(self.section_text[i].1.as_str());
                match parse_mf28(&mut r) {
                    Ok(d) => Some(d),
                    Err(_) => None,
                }
            },
            None => None,
        }
    }

    /// The MF=9 multiplicities of the isomeric states a reaction produces, read from its text; `None` where the material has no such
    /// section or it is cut short.
    pub fn mf9(&self, mt: i32) -> (r: Option<Mf9Mf10>)
        ensures
            r matches Some(d) ==> exists|i: int|
                0 <= i < self.text_view().len() && self.text_view()[i].0 == (9i32, mt)
                    && mf9_mf10_fits(lines_of(self.text_view()[i].1), 0) && mf9_mf10_matches(
                    d,
                    9,
                    lines_of(self.text_view()[i].1),
                    0,
                ),
            r is None ==> !has_key(self.text_view(), (9i32, mt)) || exists|i: int|
                0 <= i < self.text_view().len() && self.text_view()[i].0 == (9i32, mt)
                    && !mf9_mf10_fits(lines_of(self.text_view()[i].1), 0),
    {
        match self.find(9, mt) {
            Some(i) => {
                let mut r = Reader::new(self.section_text[i].1.as_str());
                match parse_mf9_mf10(&mut r, 9) {
                    Ok(d) => Some(d),
                    Err(_) => None,
                }
            },
            None => None,
        }
    }

    /// The MF=10 production cross sections of the isomeric states a reaction produces, read from its text; `None` where the material has no such
    /// section or it is cut short.
    pub fn mf10(&self, mt: i32) -> (r: Option<Mf9Mf10>)
        ensures
            r matches Some(d) ==> exists|i: int|
                0 <= i < self.text_view().len() && self.text_view()[i].0 == (10i32, mt)
                    && mf9_mf10_fits(lines_of(self.text_view()[i].1), 0) && mf9_mf10_matches(
                    d,
                    10,
                    lines_of(self.text_view()[i].1),
                    0,
                ),
            r is None ==> !has_key(self.text_view(), (10i32, mt)) || exists|i: int|
                0 <= i < self.text_view().len() && self.text_view()[i].0 == (10i32, mt)
                    && !mf9_mf10_fits(lines_of(self.text_view()[i].1), 0),
    {
        match self.find(10, mt) {
            Some(i) => {
                let mut r = Reader::new(self.section_text[i].1.as_str());
                match parse_mf9_mf10(&mut r, 10) {
                    Ok(d) => Some(d),
                    Err(_) => None,
                }
            },
            None => None,
        }
    }

    /// Parse the first material in `text`, skipping the leading TPID record.
    pub fn from_str(text: &str) -> (r: Result<Material, Error>)
        ensures
            ({
                let lines = lines_of(text@);
                let start: int = if lines.len() > 0 {
                    1
                } else {
                    0
                };
                match material_spec(lines, start) {
                    Err(f) => r matches Err(e) && failure_is(e, f),
                    Ok((mat, secs, _)) => r matches Ok(m) && m.wf() && m.mat_number() == mat
                        && m.text_view() == secs,
                }
            }),
    {
        let lines = str_lines(text);
        let mut cursor: usize = if lines.len() > 0 {
            1
        } else {
            0
        };
        assert(line_views(lines@) == lines_of(text@));
        Material::parse(lines.as_slice(), &mut cursor)
    }

    /// Parse one material starting at `cursor`, leaving `cursor` on the line
    /// after the material's MEND record.
    #[verifier::loop_isolation(false)]
    fn parse(lines: &[&str], cursor: &mut usize) -> (r: Result<Material, Error>)
        ensures
            match material_spec(line_views(lines@), *old(cursor) as int) {
                Err(f) => r matches Err(e) && failure_is(e, f),
                Ok((mat, secs, end)) => r matches Ok(m) && m.wf() && m.mat_number() == mat
                    && m.text_view() == secs && *final(cursor) == end,
            },
    {
        let ghost ls = line_views(lines@);
        let ghost c0 = *cursor as int;
        let mut c: usize = *cursor;
        // Evaluators sometimes write ill-formed TPID records, so the material
        // number is taken from the first line that actually belongs to a file.
        let mut mat: i32 = 0;
        loop
            invariant
                ls == line_views(lines@),
                first_file_line(ls, c0) == first_file_line(ls, c as int),
            decreases lines.len() - c,
        {
            if c >= lines.len() {
                return Err(Error::UnexpectedEof { expected: "the start of a material" });
            }
            let (m, mf, _) = control(lines[c])?;
            if mf != 0 {
                mat = m;
                break;
            }
            c = c + 1;
        }
        proof {
            lemma_first_file_line_bounds(ls, c0);
        }
        let ghost f = c as int;
        let mut text: Vec<(Key, String)> = Vec::new();
        let ghost mut acc: Seq<(Key, Seq<char>)> = Seq::empty();
        loop
            invariant
                ls == line_views(lines@),
                split_from(ls, f, Seq::empty()) == split_from(ls, c as int, acc),
                texts_view(text@) == acc,
                keys_ascending(acc),
            decreases lines.len() - c,
        {
            // Advance to the next section head, or to the end of the material.
            let ghost c1 = c as int;
            let mut cur_mat: i32 = 0;
            let mut mf: i32 = 0;
            let mut mt: i32 = 0;
            loop
                invariant
                    ls == line_views(lines@),
                    c1 <= c,
                    next_head(ls, c1) == next_head(ls, c as int),
                decreases lines.len() - c,
            {
                if c >= lines.len() {
                    return Err(Error::UnexpectedEof { expected: "the next section" });
                }
                let ctl = control(lines[c])?;
                if ctl.2 > 0 || ctl.0 == 0 {
                    cur_mat = ctl.0;
                    mf = ctl.1;
                    mt = ctl.2;
                    break;
                }
                c = c + 1;
            }
            proof {
                lemma_next_head_bounds(ls, c1);
            }
            // MAT=0 is the MEND record: this material is done.
            if cur_mat == 0 {
                c = c + 1;
                break;
            }
            // Collect the section's lines up to its SEND record (MT=0).
            let h = c;
            let mut body = String::new();
            loop
                invariant
                    ls == line_views(lines@),
                    h <= c <= lines.len(),
                    send_at(ls, h as int) == send_at(ls, c as int),
                    body@ == concat_lines(ls.subrange(h as int, c as int)),
                decreases lines.len() - c,
            {
                if c >= lines.len() {
                    return Err(Error::UnexpectedEof { expected: "the end of a section" });
                }
                let line = lines[c];
                let ctl = control(line)?;
                c = c + 1;
                if ctl.2 == 0 {
                    break;
                }
                push_str(&mut body, line);
                string_push(&mut body, '\n');
                proof {
                    assert(ls.subrange(h as int, c as int).drop_last() == ls.subrange(
                        h as int,
                        (c - 1) as int,
                    ));
                }
            }
            proof {
                lemma_send_at_bounds(ls, h as int);
                lemma_insert_section(acc, (mf, mt), body@);
                acc = insert_section(acc, (mf, mt), body@);
            }
            insert_text(&mut text, (mf, mt), body);
        }
        let ghost secs = acc;
        // Every section is read as its file says.
        let mut data: Vec<(Key, Section)> = Vec::new();
        let mut i: usize = 0;
        while i < text.len()
            invariant
                texts_view(text@) == secs,
                i <= text.len(),
                data@.len() == i,
                forall|j: int|
                    0 <= j < i ==> section_reads(#[trigger] secs[j].0, secs[j].1),
                forall|j: int|
                    0 <= j < i ==> {
                        &&& (#[trigger] data@[j]).0 == text@[j].0
                        &&& section_matches(text@[j].0, text@[j].1@, data@[j].1)
                    },
            decreases text.len() - i,
        {
            let k = text[i].0;
            assert(secs[i as int] == (k, text@[i as int].1@));
            let s = match parse_section(k.0, k.1, text[i].1.as_str()) {
                Ok(s) => s,
                Err(e) => {
                    assert((k.0, k.1) == k);
                    assert(!section_reads(secs[i as int].0, secs[i as int].1));
                    assert(!all_sections_read(secs));
                    return Err(e);
                },
            };
            data.push((k, s));
            i = i + 1;
        }
        assert(all_sections_read(secs));
        *cursor = c;
        let m = Material { mat, section_text: text, section_data: data };
        assert(m.text_view() =~= secs);
        Ok(m)
    }
}

/// Read every material in the text of an ENDF-6 file.
#[verifier::loop_isolation(false)]
#[verifier::spinoff_prover]
pub fn materials_from_str(text: &str) -> (r: Result<Vec<Material>, Error>)
    ensures
        match materials_spec(text@) {
            Err(f) => r matches Err(e) && failure_is(e, f),
            Ok(ms) => r matches Ok(v) && v@.len() == ms.len() && forall|i: int|
                0 <= i < ms.len() ==> material_is(#[trigger] v@[i], ms[i]),
        },
{
    let lines = str_lines(text);
    let ghost ls = line_views(lines@);
    assert(ls == lines_of(text@));
    let mut materials: Vec<Material> = Vec::new();
    if lines.len() == 0 {
        return Ok(materials);
    }
    // Skip the TPID record that opens the file.
    let mut cursor: usize = 1;
    let ghost mut acc: Seq<(i32, Seq<(Key, Seq<char>)>)> = Seq::empty();
    while cursor < lines.len()
        invariant
            ls == line_views(lines@),
            ls.len() > 0,
            1 <= cursor,
            materials_from(ls, 1, Seq::empty()) == materials_from(ls, cursor as int, acc),
            materials@.len() == acc.len(),
            forall|i: int| 0 <= i < acc.len() ==> material_is(#[trigger] materials@[i], acc[i]),
        decreases lines.len() - cursor,
    {
        // MAT=-1 is the TEND record that closes the file.
        let m = match control_field(lines[cursor], 66, 70) {
            Some(m) => m,
            None => {
                return Err(Error::BadControlField { line: lines[cursor].to_owned() });
            },
        };
        if m == -1 {
            break;
        }
        let ghost before = cursor as int;
        proof {
            lemma_material_end(ls, before);
        }
        let material = Material::parse(lines.as_slice(), &mut cursor)?;
        proof {
            let spec = material_spec(ls, before)->Ok_0;
            acc = acc.push((spec.0, spec.1));
        }
        materials.push(material);
    }
    assert(materials_from(ls, cursor as int, acc) == Ok::<Seq<(i32, Seq<(Key, Seq<char>)>)>, Failure>(acc));
    Ok(materials)
}

/// Whether the sections' keys rise strictly: each (MF, MT) pair comes once,
/// in ascending order.
pub open spec fn keys_ascending(secs: Seq<(Key, Seq<char>)>) -> bool {
    forall|i: int, j: int| 0 <= i < j < secs.len() ==> key_lt(#[trigger] secs[i].0, #[trigger] secs[j].0)
}

/// Whether each of the lines reads its control fields, is no SEND record
/// (MT = 0), and holds no line break.
pub open spec fn record_lines(b: Seq<Seq<char>>) -> bool {
    forall|i: int|
        0 <= i < b.len() ==> control_of(#[trigger] b[i]) is Some && mt_of(b[i]) != 0 && !b[i].contains('\n')
}

/// Whether a section's text is whole records, each ended by `\n`, with
/// the SEND record that closed the section left out.
pub open spec fn record_body(body: Seq<char>) -> bool {
    exists|b: Seq<Seq<char>>| #[trigger] concat_lines(b) == body && record_lines(b)
}

/// Whether every line holds no line break.
pub open spec fn no_breaks(lines: Seq<Seq<char>>) -> bool {
    forall|i: int| 0 <= i < lines.len() ==> !(#[trigger] lines[i]).contains('\n')
}

/// Where [`insert_pos`] puts a key: after every smaller key and before the
/// first that is not smaller.
proof fn lemma_insert_pos(list: Seq<(Key, Seq<char>)>, k: Key, i: int)
    requires
        keys_ascending(list),
        0 <= i <= list.len(),
        forall|j: int| 0 <= j < i ==> key_lt(#[trigger] list[j].0, k),
    ensures
        i <= insert_pos(list, k, i) <= list.len(),
        forall|j: int| 0 <= j < insert_pos(list, k, i) ==> key_lt(#[trigger] list[j].0, k),
        insert_pos(list, k, i) < list.len() ==> !key_lt(list[insert_pos(list, k, i)].0, k),
    decreases list.len() - i,
{
    if i < list.len() && key_lt(list[i].0, k) {
        lemma_insert_pos(list, k, i + 1);
    }
}

/// Adding a section keeps the keys strictly ascending, and keeps every
/// text whole records.
proof fn lemma_insert_section(list: Seq<(Key, Seq<char>)>, k: Key, body: Seq<char>)
    requires
        keys_ascending(list),
    ensures
        keys_ascending(insert_section(list, k, body)),
        forall|j: int|
            0 <= j < insert_section(list, k, body).len() ==> #[trigger] insert_section(list, k, body)[j] == (k, body)
                || list.contains(insert_section(list, k, body)[j]),
{
    lemma_insert_pos(list, k, 0);
    let p = insert_pos(list, k, 0);
    let out = insert_section(list, k, body);
    if p < list.len() && list[p].0 == k {
        assert forall|j: int| 0 <= j < out.len() implies #[trigger] out[j] == (k, body)
            || list.contains(out[j]) by {
            if j != p {
                assert(out[j] == list[j]);
            }
        }
    } else {
        assert forall|i: int, j: int| 0 <= i < j < out.len() implies key_lt(
            #[trigger] out[i].0,
            #[trigger] out[j].0,
        ) by {
            if j < p {
                assert(out[i] == list[i] && out[j] == list[j]);
            } else if j == p {
                assert(out[i] == list[i]);
            } else if i == p {
                assert(out[j] == list[j - 1]);
                assert(!key_lt(list[p].0, k));
                if j - 1 > p {
                    assert(key_lt(list[p].0, list[j - 1].0));
                }
            } else if i < p {
                assert(out[i] == list[i] && out[j] == list[j - 1]);
            } else {
                assert(out[i] == list[i - 1] && out[j] == list[j - 1]);
            }
        }
        assert forall|j: int| 0 <= j < out.len() implies #[trigger] out[j] == (k, body)
            || list.contains(out[j]) by {
            if j < p {
                assert(out[j] == list[j]);
            } else if j > p {
                assert(out[j] == list[j - 1]);
            }
        }
    }
}

/// The lines of a section, from its head up to its SEND record, are whole
/// records.
proof fn lemma_section_lines(lines: Seq<Seq<char>>, h: int, s: int)
    requires
        no_breaks(lines),
        0 <= h <= s < lines.len(),
        forall|i: int| h <= i < s ==> control_of(#[trigger] lines[i]) is Some && mt_of(lines[i]) != 0,
    ensures
        record_body(concat_lines(lines.subrange(h, s))),
{
    let b = lines.subrange(h, s);
    assert forall|i: int| 0 <= i < b.len() implies control_of(#[trigger] b[i]) is Some && mt_of(b[i])
        != 0 && !b[i].contains('\n') by {
        assert(b[i] == lines[h + i]);
    }
    assert(record_lines(b));
}

/// Splitting sections keeps the keys strictly ascending and every text
/// whole records.
proof fn lemma_split_from_sections(lines: Seq<Seq<char>>, c: int, acc: Seq<(Key, Seq<char>)>)
    requires
        no_breaks(lines),
        keys_ascending(acc),
        forall|i: int| 0 <= i < acc.len() ==> record_body(#[trigger] acc[i].1),
    ensures
        split_from(lines, c, acc) matches Ok((secs, _)) ==> keys_ascending(secs) && forall|i: int|
            0 <= i < secs.len() ==> record_body(#[trigger] secs[i].1),
    decreases lines.len() - c,
{
    lemma_next_head_bounds(lines, c);
    if let Ok(h) = next_head(lines, c) {
        if mat_of(lines[h]) != 0 {
            lemma_send_at_bounds(lines, h);
            if let Ok(s) = send_at(lines, h) {
                let k = (mf_of(lines[h]), mt_of(lines[h]));
                let body = concat_lines(lines.subrange(h, s));
                lemma_section_lines(lines, h, s);
                lemma_insert_section(acc, k, body);
                let next = insert_section(acc, k, body);
                assert forall|i: int| 0 <= i < next.len() implies record_body(#[trigger] next[i].1) by {
                    if next[i] != (k, body) {
                        let j = choose|j: int| 0 <= j < acc.len() && acc[j] == next[i];
                        assert(record_body(acc[j].1));
                    }
                }
                lemma_split_from_sections(lines, s + 1, next);
            }
        }
    }
}

/// The lines [`lines_of`] splits a text into hold no line break.
proof fn lemma_lines_of_no_breaks(t: Seq<char>)
    ensures
        no_breaks(lines_of(t)),
    decreases t.len(),
{
    if t.len() > 0 {
        let i = newline_at(t, 0);
        lemma_newline_at_free(t, 0);
        crate::records::lemma_newline_at_bounds(t, 0);
        if i < t.len() {
            lemma_lines_of_no_breaks(t.skip(i + 1));
            let first = strip_cr(t.take(i));
            assert(!t.take(i).contains('\n')) by {
                assert forall|j: int| 0 <= j < i implies t.take(i)[j] != '\n' by {
                    assert(t.take(i)[j] == t[j]);
                }
            }
            assert(!first.contains('\n')) by {
                assert forall|j: int| 0 <= j < first.len() implies first[j] != '\n' by {
                    assert(first[j] == t.take(i)[j]);
                }
            }
            let rest = lines_of(t.skip(i + 1));
            let all = lines_of(t);
            assert(all == seq![first] + rest);
            assert forall|j: int| 0 <= j < all.len() implies !(#[trigger] all[j]).contains('\n') by {
                if j > 0 {
                    assert(all[j] == rest[j - 1]);
                }
            }
        } else {
            assert(!t.contains('\n'));
            assert(lines_of(t) == seq![t]);
        }
    }
}

/// No line break comes before [`newline_at`] finds one.
proof fn lemma_newline_at_free(s: Seq<char>, from: int)
    requires
        0 <= from,
    ensures
        forall|j: int| from <= j < newline_at(s, from) && j < s.len() ==> s[j] != '\n',
    decreases s.len() - from,
{
    if from < s.len() && s[from] != '\n' {
        lemma_newline_at_free(s, from + 1);
    }
}

/// A material read from the lines of a text lists each (MF, MT) section
/// once, in ascending order, and each section's text is whole records with
/// the SEND record that closed it left out.
pub proof fn lemma_material_sections(text: Seq<char>, c: int)
    ensures
        material_spec(lines_of(text), c) matches Ok((_, secs, _)) ==> keys_ascending(secs)
            && forall|i: int| 0 <= i < secs.len() ==> record_body(#[trigger] secs[i].1),
{
    let lines = lines_of(text);
    lemma_lines_of_no_breaks(text);
    if let Ok(f) = first_file_line(lines, c) {
        lemma_split_from_sections(lines, f, Seq::empty());
    }
}

/// The parsed sections of a material line up one for one with its texts:
/// the same keys in the same order.
pub proof fn lemma_every_section_dispatched(m: Material)
    requires
        m.wf(),
    ensures
        m.data_view().len() == m.text_view().len(),
        forall|i: int| 0 <= i < m.data_view().len() ==> #[trigger] m.data_view()[i].0 == m.text_view()[i].0,
{
}

/// The sections of a material come in strictly ascending (MF, MT) order,
/// so no key is listed twice: two sections with the same key are the same
/// section.
pub proof fn lemma_section_keys_unique(m: Material)
    requires
        m.wf(),
    ensures
        keys_ascending(m.text_view()),
        forall|i: int, j: int|
            0 <= i < m.text_view().len() && 0 <= j < m.text_view().len()
                && #[trigger] m.text_view()[i].0 == #[trigger] m.text_view()[j].0 ==> i == j,
{
    assert forall|i: int, j: int|
        0 <= i < m.text_view().len() && 0 <= j < m.text_view().len()
            && #[trigger] m.text_view()[i].0 == #[trigger] m.text_view()[j].0 implies i == j by {
        if i < j {
            assert(key_lt(m.text_view()[i].0, m.text_view()[j].0));
        } else if j < i {
            assert(key_lt(m.text_view()[j].0, m.text_view()[i].0));
        }
    }
}

/// A material contains a section exactly when [`Material::sections`]
/// lists it.
pub proof fn lemma_contains_iff_listed(m: Material, k: Key)
    ensures
        has_key(m.text_view(), k) <==> m.text_view().map_values(|p: (Key, Seq<char>)| p.0).contains(k),
{
    let keys = m.text_view().map_values(|p: (Key, Seq<char>)| p.0);
    if has_key(m.text_view(), k) {
        let i = choose|i: int| 0 <= i < m.text_view().len() && (#[trigger] m.text_view()[i]).0 == k;
        assert(keys[i] == k);
    }
    if keys.contains(k) {
        let i = choose|i: int| 0 <= i < keys.len() && keys[i] == k;
        assert(m.text_view()[i].0 == k);
    }
}


/// Reading on from `c` keeps the materials already read, in front.
proof fn lemma_materials_from_prefix(lines: Seq<Seq<char>>, c: int, acc: Seq<(i32, Seq<(Key, Seq<char>)>)>)
    ensures
        materials_from(lines, c, acc) matches Ok(r) ==> r.len() >= acc.len() && r.take(acc.len() as int) == acc,
    decreases lines.len() - c,
{
    if 0 <= c < lines.len() {
        if let Some(m) = control_value(field_of(lines[c], 66, 70)) {
            if m != -1 {
                if let Ok((mat, secs, end)) = material_spec(lines, c) {
                    lemma_material_end(lines, c);
                    let a2 = acc.push((mat, secs));
                    lemma_materials_from_prefix(lines, end, a2);
                    if let Ok(r) = materials_from(lines, end, a2) {
                        assert(r.take(acc.len() as int) =~= a2.take(acc.len() as int));
                        assert(a2.take(acc.len() as int) =~= acc);
                    }
                }
            }
        }
    }
    if let Ok(r) = materials_from(lines, c, acc) {
        if !(0 <= c < lines.len()) {
            assert(r.take(acc.len() as int) =~= acc);
        } else if control_value(field_of(lines[c], 66, 70)) == Some(-1int) {
            assert(r.take(acc.len() as int) =~= acc);
        }
    }
}

/// A text with no lines holds no material; and where a file holds any, the
/// first is the one [`Material::from_str`] reads from the same text.
pub proof fn lemma_first_material(text: Seq<char>)
    ensures
        text.len() == 0 ==> materials_spec(text) == Ok::<Seq<(i32, Seq<(Key, Seq<char>)>)>, Failure>(Seq::empty()),
        match materials_spec(text) {
            Ok(ms) => ms.len() > 0 ==> (material_spec(lines_of(text), 1) matches Ok((mat, secs, _)) && ms[0]
                == (mat, secs)),
            Err(_) => true,
        },
{
    let lines = lines_of(text);
    if lines.len() > 0 {
        if let Ok(ms) = materials_spec(text) {
            if ms.len() > 0 && 1 < lines.len() {
                if let Some(m) = control_value(field_of(lines[1], 66, 70)) {
                    if m != -1 {
                        if let Ok((mat, secs, end)) = material_spec(lines, 1) {
                            lemma_material_end(lines, 1);
                            let a = Seq::<(i32, Seq<(Key, Seq<char>)>)>::empty().push((mat, secs));
                            lemma_materials_from_prefix(lines, end, a);
                            assert(ms.take(1)[0] == ms[0]);
                        }
                    }
                }
            }
        }
    }
}


/// Whether the line at `c` holds a material's record: its MAT field reads
/// and is not the TEND record's -1.
pub open spec fn starts_material(lines: Seq<Seq<char>>, c: int) -> bool {
    &&& 0 <= c < lines.len()
    &&& control_value(field_of(lines[c], 66, 70)) is Some
    &&& control_value(field_of(lines[c], 66, 70)) != Some(-1int)
}

/// Whether the tape ends at line `c`: past its last line, or at the TEND
/// record (MAT=-1).
pub open spec fn tape_ends(lines: Seq<Seq<char>>, c: int) -> bool {
    c >= lines.len() || control_value(field_of(lines[c], 66, 70)) == Some(-1int)
}

/// Reading a tape goes on after each material, from the line after its MEND
/// record: where the tape's first material ends at line `e1` and a second
/// starts there, both are read, the first first; and where the tape ends
/// after the second, they are all it holds.
pub proof fn lemma_materials_follow_one_another(
    text: Seq<char>,
    m1: i32,
    s1: Seq<(Key, Seq<char>)>,
    e1: int,
    m2: i32,
    s2: Seq<(Key, Seq<char>)>,
    e2: int,
)
    requires
        starts_material(lines_of(text), 1),
        material_spec(lines_of(text), 1) == Ok::<(i32, Seq<(Key, Seq<char>)>, int), Failure>((m1, s1, e1)),
        starts_material(lines_of(text), e1),
        material_spec(lines_of(text), e1) == Ok::<(i32, Seq<(Key, Seq<char>)>, int), Failure>((m2, s2, e2)),
    ensures
        materials_spec(text) matches Ok(ms) ==> ms.len() >= 2 && ms[0] == (m1, s1) && ms[1] == (m2, s2),
        tape_ends(lines_of(text), e2) ==> materials_spec(text) == Ok::<Seq<(i32, Seq<(Key, Seq<char>)>)>, Failure>(
            seq![(m1, s1), (m2, s2)],
        ),
{
    let lines = lines_of(text);
    lemma_material_end(lines, 1);
    lemma_material_end(lines, e1);
    let a1 = Seq::<(i32, Seq<(Key, Seq<char>)>)>::empty().push((m1, s1));
    let a2 = a1.push((m2, s2));
    assert(materials_spec(text) == materials_from(lines, 1, Seq::empty()));
    assert(materials_from(lines, 1, Seq::empty()) == materials_from(lines, e1, a1));
    assert(materials_from(lines, e1, a1) == materials_from(lines, e2, a2));
    lemma_materials_from_prefix(lines, e2, a2);
    if let Ok(r) = materials_from(lines, e2, a2) {
        assert(r.take(2)[0] == r[0]);
        assert(r.take(2)[1] == r[1]);
    }
    if tape_ends(lines, e2) {
        assert(materials_from(lines, e2, a2) == Ok::<Seq<(i32, Seq<(Key, Seq<char>)>)>, Failure>(a2));
        assert(a2 =~= seq![(m1, s1), (m2, s2)]);
    }
}

} // verus!
