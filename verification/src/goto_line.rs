use vstd::prelude::*;
use crate::numtext::parse_unsigned;
use crate::text::{chars_of, trim_range, trim_space, TrimClass};

verus! {

/// The line a go-to request asks for: the input, trimmed, read as a decimal
/// `usize`; line 0 means line 1. Unreadable input asks for nothing.
pub open spec fn goto_target(input: Seq<char>) -> Option<nat> {
    match parse_unsigned(trim_space(input), 10, usize::MAX as nat) {
        Some(line) => Some(if line < 1 { 1 } else { line }),
        None => None,
    }
}

/// The go-to-line box.
pub struct GotoLine {
    pub open: bool,
    pub input: String,
    focus_input: bool,
}

pub struct GotoLineView {
    pub open: bool,
    pub input: Seq<char>,
    pub focus_input: bool,
}

impl View for GotoLine {
    type V = GotoLineView;

    closed spec fn view(&self) -> GotoLineView {
        GotoLineView { open: self.open, input: self.input@, focus_input: self.focus_input }
    }
}

impl Default for GotoLine {
    fn default() -> (g: Self)
        ensures
            !g@.open,
            g@.input == Seq::<char>::empty(),
            !g@.focus_input,
    {
        GotoLine { open: false, input: String::new(), focus_input: false }
    }
}

impl GotoLine {
    /// Opens the box with an empty input that takes the focus.
    pub fn activate(&mut self)
        ensures
            final(self)@.open,
            final(self)@.focus_input,
            final(self)@.input == Seq::<char>::empty(),
    {
        self.open = true;
        self.focus_input = true;
        self.input = String::new();
    }

    /// Closes the box and empties its input.
    pub fn close(&mut self)
        ensures
            !final(self)@.open,
            final(self)@.input == Seq::<char>::empty(),
            final(self)@.focus_input == old(self)@.focus_input,
    {
        self.open = false;
        self.input = String::new();
    }

    /// Whether the box is shown.
    pub fn is_open(&self) -> (b: bool)
        ensures
            b == self@.open,
    {
        self.open
    }

    /// Whether the input should take the focus; the request is consumed.
    pub fn take_focus_request(&mut self) -> (requested: bool)
        ensures
            requested == old(self)@.focus_input,
            !final(self)@.focus_input,
            final(self)@.open == old(self)@.open,
            final(self)@.input == old(self)@.input,
    {
        let requested = self.focus_input;
        self.focus_input = false;
        requested
    }

    /// Enter was pressed in the input: a readable line number closes the box
    /// and is the line to go to; otherwise nothing changes.
    pub fn submit(&mut self) -> (line: Option<usize>)
        ensures
            line matches Some(l) ==> goto_target(old(self)@.input) == Some(l as nat)
                && !final(self)@.open && final(self)@.input == Seq::<char>::empty()
                && final(self)@.focus_input == old(self)@.focus_input,
            line is None ==> goto_target(old(self)@.input) is None && final(self)@ == old(self)@,
    {
        let v = chars_of(self.input.as_str());
        let (a, b) = trim_range(&v, 0, v.len(), TrimClass::Space);
        assert(v@.subrange(0, v@.len() as int) =~= self.input@);
        match crate::numtext::parse_unsigned_range(&v, a, b, 10, usize::MAX as u64) {
            Some(x) => {
                let line = x as usize;
                self.close();
                Some(
                    if line < 1 {
                        1
                    } else {
                        line
                    },
                )
            },
            None => None,
        }
    }
}

} // verus!
