//! Secondary particles emitted in a nuclear reaction: how they are emitted.

use vstd::prelude::*;

use crate::text::string_from_chars;

verus! {

broadcast use vstd::string::group_string_axioms;

/// Whether a particle leaves at once or follows the decay of a precursor.
#[derive(Debug, Clone, Copy, PartialEq, Eq, Default)]
pub enum EmissionMode {
    #[default]
    Prompt,
    /// Emitted from the decay of a reaction product, as delayed neutrons are.
    Delayed,
    /// The yield covers prompt and delayed sources together.
    Total,
}

impl EmissionMode {
    /// The name of a mode, e.g. `prompt`.
    pub open spec fn name_spec(self) -> Seq<char> {
        match self {
            EmissionMode::Prompt => seq!['p', 'r', 'o', 'm', 'p', 't'],
            EmissionMode::Delayed => seq!['d', 'e', 'l', 'a', 'y', 'e', 'd'],
            EmissionMode::Total => seq!['t', 'o', 't', 'a', 'l'],
        }
    }

    /// The name the Python package uses, e.g. `"prompt"`.
    pub fn name(self) -> (r: String)
        ensures
            r@ == self.name_spec(),
    {
        let v: Vec<char> = match self {
            EmissionMode::Prompt => vec!['p', 'r', 'o', 'm', 'p', 't'],
            EmissionMode::Delayed => vec!['d', 'e', 'l', 'a', 'y', 'e', 'd'],
            EmissionMode::Total => vec!['t', 'o', 't', 'a', 'l'],
        };
        string_from_chars(&v)
    }
}

} // verus!
