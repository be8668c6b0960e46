use vstd::prelude::*;

verus! {

/// The instruction reference panel; its rows are read from the bundled table.
pub struct Documentation;

/// A row of the instruction reference: a section header, or an instruction
/// with its opcode and what it does.
pub enum DocRow {
    Header { title: String },
    Instruction { mnem: String, opcode: String, pseudo: String },
}

impl Default for Documentation {
    fn default() -> (d: Self) {
        Documentation
    }
}

} // verus!
