//! How a tabulated density is interpolated between its points.

use vstd::prelude::*;

use crate::error::Error;
use crate::text::{chars_eq, chars_of, push_signed, signed_decimal, string_from_chars};

verus! {

broadcast use vstd::string::group_string_axioms;

/// How a tabulated density is interpolated between its points.
#[derive(Debug, Clone, Copy, PartialEq, Eq, Default)]
pub enum Interpolation {
    Histogram,
    #[default]
    LinearLinear,
    LinearLog,
    LogLinear,
    LogLog,
}

impl Interpolation {
    /// The name of a law, e.g. `linear-linear`.
    pub open spec fn name_spec(self) -> Seq<char> {
        match self {
            Interpolation::Histogram => seq!['h', 'i', 's', 't', 'o', 'g', 'r', 'a', 'm'],
            Interpolation::LinearLinear => seq![
                'l', 'i', 'n', 'e', 'a', 'r', '-', 'l', 'i', 'n', 'e', 'a', 'r',
            ],
            Interpolation::LinearLog => seq!['l', 'i', 'n', 'e', 'a', 'r', '-', 'l', 'o', 'g'],
            Interpolation::LogLinear => seq!['l', 'o', 'g', '-', 'l', 'i', 'n', 'e', 'a', 'r'],
            Interpolation::LogLog => seq!['l', 'o', 'g', '-', 'l', 'o', 'g'],
        }
    }

    /// The law an ENDF interpolation code stands for, as TAB1 records number
    /// them: 1 histogram, 2 linear-linear, 3 linear-log, 4 log-linear,
    /// 5 log-log.
    pub open spec fn from_code_spec(code: i32) -> Option<Interpolation> {
        if code == 1 {
            Some(Interpolation::Histogram)
        } else if code == 2 {
            Some(Interpolation::LinearLinear)
        } else if code == 3 {
            Some(Interpolation::LinearLog)
        } else if code == 4 {
            Some(Interpolation::LogLinear)
        } else if code == 5 {
            Some(Interpolation::LogLog)
        } else {
            None
        }
    }

    /// The law a name stands for.
    pub open spec fn from_name_spec(name: Seq<char>) -> Option<Interpolation> {
        if name == Interpolation::Histogram.name_spec() {
            Some(Interpolation::Histogram)
        } else if name == Interpolation::LinearLinear.name_spec() {
            Some(Interpolation::LinearLinear)
        } else if name == Interpolation::LinearLog.name_spec() {
            Some(Interpolation::LinearLog)
        } else if name == Interpolation::LogLinear.name_spec() {
            Some(Interpolation::LogLinear)
        } else if name == Interpolation::LogLog.name_spec() {
            Some(Interpolation::LogLog)
        } else {
            None
        }
    }

    fn name_chars(self) -> (r: Vec<char>)
        ensures
            r@ == self.name_spec(),
    {
        match self {
            Interpolation::Histogram => vec!['h', 'i', 's', 't', 'o', 'g', 'r', 'a', 'm'],
            Interpolation::LinearLinear => vec![
                'l', 'i', 'n', 'e', 'a', 'r', '-', 'l', 'i', 'n', 'e', 'a', 'r',
            ],
            Interpolation::LinearLog => vec!['l', 'i', 'n', 'e', 'a', 'r', '-', 'l', 'o', 'g'],
            Interpolation::LogLinear => vec!['l', 'o', 'g', '-', 'l', 'i', 'n', 'e', 'a', 'r'],
            Interpolation::LogLog => vec!['l', 'o', 'g', '-', 'l', 'o', 'g'],
        }
    }

    /// The name the Python package uses, e.g. `"linear-linear"`.
    pub fn name(self) -> (r: String)
        ensures
            r@ == self.name_spec(),
    {
        string_from_chars(&self.name_chars())
    }

    /// The law a name stands for; an unknown name is an error carrying it.
    pub fn from_name(name: &str) -> (r: Result<Interpolation, Error>)
        ensures
            Interpolation::from_name_spec(name@) matches Some(i) ==> r == Ok::<
                Interpolation,
                Error,
            >(i),
            Interpolation::from_name_spec(name@) is None ==> (r matches Err(Error::BadInterpolation {
                name: n,
            }) && n@ == name@),
    {
        let v = chars_of(name);
        if chars_eq(&v, &Interpolation::Histogram.name_chars()) {
            Ok(Interpolation::Histogram)
        } else if chars_eq(&v, &Interpolation::LinearLinear.name_chars()) {
            Ok(Interpolation::LinearLinear)
        } else if chars_eq(&v, &Interpolation::LinearLog.name_chars()) {
            Ok(Interpolation::LinearLog)
        } else if chars_eq(&v, &Interpolation::LogLinear.name_chars()) {
            Ok(Interpolation::LogLinear)
        } else if chars_eq(&v, &Interpolation::LogLog.name_chars()) {
            Ok(Interpolation::LogLog)
        } else {
            Err(Error::BadInterpolation { name: string_from_chars(&v) })
        }
    }

    /// The ENDF interpolation code, as TAB1 records number them; an unknown
    /// code is an error carrying its decimal form.
    pub fn from_endf_code(code: i32) -> (r: Result<Interpolation, Error>)
        ensures
            Interpolation::from_code_spec(code) matches Some(i) ==> r == Ok::<
                Interpolation,
                Error,
            >(i),
            Interpolation::from_code_spec(code) is None ==> (r matches Err(
                Error::BadInterpolation { name: n },
            ) && n@ == signed_decimal(code as int)),
    {
        match code {
            1 => Ok(Interpolation::Histogram),
            2 => Ok(Interpolation::LinearLinear),
            3 => Ok(Interpolation::LinearLog),
            4 => Ok(Interpolation::LogLinear),
            5 => Ok(Interpolation::LogLog),
            _ => {
                let mut s = String::new();
                push_signed(&mut s, code as i64);
                Err(Error::BadInterpolation { name: s })
            },
        }
    }
}

/// A law's name leads back to the law.
pub proof fn lemma_interpolation_name_round_trip(i: Interpolation)
    ensures
        Interpolation::from_name_spec(i.name_spec()) == Some(i),
{
    let n = i.name_spec();
    match i {
        Interpolation::Histogram => {},
        Interpolation::LinearLinear => {
            assert(n.len() != Interpolation::Histogram.name_spec().len());
        },
        Interpolation::LinearLog => {
            assert(n[0] != Interpolation::Histogram.name_spec()[0]);
            assert(n.len() != Interpolation::LinearLinear.name_spec().len());
        },
        Interpolation::LogLinear => {
            assert(n[0] != Interpolation::Histogram.name_spec()[0]);
            assert(n.len() != Interpolation::LinearLinear.name_spec().len());
            assert(n[1] != Interpolation::LinearLog.name_spec()[1]);
        },
        Interpolation::LogLog => {
            assert(n.len() != Interpolation::Histogram.name_spec().len());
            assert(n.len() != Interpolation::LinearLinear.name_spec().len());
            assert(n.len() != Interpolation::LinearLog.name_spec().len());
            assert(n.len() != Interpolation::LogLinear.name_spec().len());
        },
    }
}

/// The five ENDF codes name five different laws, and the name of the law a
/// code stands for leads back to that law.
pub proof fn lemma_code_and_name_agree(code: i32)
    ensures
        Interpolation::from_code_spec(code) matches Some(i) ==> Interpolation::from_name_spec(
            i.name_spec(),
        ) == Some(i),
        Interpolation::from_code_spec(code) is Some <==> 1 <= code <= 5,
{
    if let Some(i) = Interpolation::from_code_spec(code) {
        lemma_interpolation_name_round_trip(i);
    }
}

} // verus!
