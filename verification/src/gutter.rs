use vstd::prelude::*;
use crate::numtext::{digits, pad_left, push_padded};
use crate::text::{chars_of, string_from_chars};

verus! {

/// How many times `c` occurs in `s`.
pub open spec fn count_char(s: Seq<char>, c: char) -> nat
    decreases s.len(),
{
    if s.len() == 0 {
        0
    } else {
        count_char(s.drop_last(), c) + if s.last() == c {
            1nat
        } else {
            0nat
        }
    }
}

/// Number `i` right-aligned to width `w`.
pub open spec fn gutter_number(i: nat, w: nat) -> Seq<char> {
    pad_left(digits(i, 10), w, ' ')
}

/// The numbers `1..=k`, each right-aligned to width `w`, one per line.
pub open spec fn gutter_lines(k: nat, w: nat) -> Seq<char>
    decreases k,
{
    if k == 0 {
        Seq::empty()
    } else if k == 1 {
        gutter_number(1, w)
    } else {
        gutter_lines((k - 1) as nat, w) + seq!['\n'] + gutter_number(k, w)
    }
}

/// The gutter text for `n` lines: the line numbers `1..=n`, right-aligned to
/// the width of `n`.
pub open spec fn gutter_text(n: nat) -> Seq<char> {
    gutter_lines(n, digits(n, 10).len())
}

/// The number of lines of `code` that the editor shows: one more than its
/// line breaks (an empty text, or one ending in a line break, has an empty last line).
pub open spec fn shown_lines(code: Seq<char>) -> nat {
    count_char(code, '\n') + 1
}

/// The line numbers shown beside the code.
pub struct Gutter {
    line_count: usize,
    text: String,
}

pub struct GutterView {
    pub line_count: nat,
    pub text: Seq<char>,
}

impl View for Gutter {
    type V = GutterView;

    closed spec fn view(&self) -> GutterView {
        GutterView { line_count: self.line_count as nat, text: self.text@ }
    }
}

impl Gutter {
    #[verifier::type_invariant]
    spec fn inv(self) -> bool {
        self.text@ == gutter_text(self.line_count as nat)
    }
}

impl Default for Gutter {
    fn default() -> (g: Self)
        ensures
            g@.line_count == 0,
            g@.text == Seq::<char>::empty(),
    {
        Gutter { line_count: 0, text: String::new() }
    }
}

impl Gutter {
    /// Brings the line numbers up to date with `code`.
    pub fn update(&mut self, code: &str)
        requires
            code@.len() < usize::MAX,
        ensures
            final(self)@.line_count == shown_lines(code@),
            final(self)@.text == gutter_text(final(self)@.line_count),
    {
        let v = chars_of(code);
        let mut count: usize = 0;
        let mut i: usize = 0;
        assert(v@.take(0) =~= Seq::<char>::empty());
        while i < v.len()
            invariant
                v@ == code@,
                code@.len() < usize::MAX,
                i <= v@.len(),
                count <= i,
                count == count_char(v@.take(i as int), '\n'),
            decreases v@.len() - i,
        {
            assert(v@.take(i + 1).drop_last() =~= v@.take(i as int));
            if v[i] == '\n' {
                count = count + 1;
            }
            i = i + 1;
        }
        assert(v@.take(v@.len() as int) =~= v@);
        let line_count = count + 1;
        if line_count == self.line_count {
            proof {
                use_type_invariant(&*self);
            }
            return;
        }
        let mut width_digits: Vec<char> = Vec::new();
        push_padded(&mut width_digits, line_count as u64, 10, 0, ' ');
        let width = width_digits.len();
        assert(width_digits@ =~= digits(line_count as nat, 10));
        let mut out: Vec<char> = Vec::new();
        let mut k: usize = 0;
        while k < line_count
            invariant
                k <= line_count,
                width == digits(line_count as nat, 10).len(),
                out@ == gutter_lines(k as nat, width as nat),
            decreases line_count - k,
        {
            if k > 0 {
                out.push('\n');
            }
            push_padded(&mut out, (k + 1) as u64, 10, width, ' ');
            k = k + 1;
        }
        let text = string_from_chars(&out);
        *self = Gutter { line_count, text };
    }

    /// The gutter text.
    pub fn text(&self) -> (t: &str)
        ensures
            t@ == self@.text,
    {
        self.text.as_str()
    }

    /// Number of lines numbered.
    pub fn line_count(&self) -> (n: usize)
        ensures
            n == self@.line_count,
    {
        self.line_count
    }
}

/// A text with no line break shows one line, and every line break adds one.
pub proof fn lemma_shown_lines_push(code: Seq<char>, c: char)
    ensures
        shown_lines(Seq::<char>::empty()) == 1,
        shown_lines(code.push(c)) == shown_lines(code) + if c == '\n' {
            1nat
        } else {
            0nat
        },
{
    assert(code.push(c).drop_last() =~= code);
}

} // verus!
