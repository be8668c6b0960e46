use vstd::prelude::*;

verus! {

/// The base in which register values are shown.
#[derive(Clone, Copy, PartialEq, Eq, Structural, Debug)]
pub enum Radix {
    Binary,
    Decimal,
    Hex,
    Octal,
}

impl Default for Radix {
    /// Hexadecimal.
    fn default() -> (r: Self)
        ensures
            r == Radix::Hex,
    {
        Radix::Hex
    }
}

} // verus!
