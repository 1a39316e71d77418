//! Tabulated functions: the TAB2 interpolation metadata.

use vstd::prelude::*;

verus! {

/// Interpolation metadata for a two-dimensional function, the format's TAB2.
///
/// TAB2 carries no values of its own: it describes how to interpolate between
/// the subrecords that follow it.
#[derive(Debug, Clone, PartialEq, Eq, Default)]
pub struct Tabulated2D {
    pub breakpoints: Vec<i32>,
    pub interpolation: Vec<i32>,
}

} // verus!
