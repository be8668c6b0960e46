use vstd::prelude::*;
use core::ops::Range;
use crate::find_replace::{FindReplace, FindReplaceView};
use crate::goto_line::{GotoLine, GotoLineView};
use crate::gutter::Gutter;
use crate::search::char_index;
use crate::text::{byte_offset, chars_of, lemma_byte_offset_step, str_byte_len, utf8_width, byte_len};

verus! {

/// Character indices of the line breaks of `s`, in order.
pub open spec fn break_positions(s: Seq<char>) -> Seq<int>
    decreases s.len(),
{
    if s.len() == 0 {
        Seq::empty()
    } else {
        let p = break_positions(s.drop_last());
        if s.last() == '\n' {
            p.push(s.len() - 1)
        } else {
            p
        }
    }
}

/// Character index where line `line` (counted from 1) starts: just after the
/// `line - 1`-th line break, at 0 for lines 0 and 1, and at the end of the
/// text for lines past the last.
pub open spec fn line_start_char(s: Seq<char>, line: nat) -> int {
    if line <= 1 {
        0
    } else {
        let p = break_positions(s);
        if line - 2 < p.len() {
            p[line - 2] + 1
        } else {
            s.len() as int
        }
    }
}

/// Index of the first line break at or after `start`, or the end of the text.
pub open spec fn first_break_from(s: Seq<char>, start: int) -> int
    decreases s.len() - start,
{
    if start < 0 || start >= s.len() {
        s.len() as int
    } else if s[start] == '\n' {
        start
    } else {
        first_break_from(s, start + 1)
    }
}

/// Character index where line `line` ends (its line break, or the end of the text).
pub open spec fn line_end_char(s: Seq<char>, line: nat) -> int {
    first_break_from(s, line_start_char(s, line))
}

proof fn lemma_breaks_prefix(s: Seq<char>, i: int)
    requires
        0 <= i <= s.len(),
    ensures
        break_positions(s.take(i)).len() <= break_positions(s).len(),
        break_positions(s).take(break_positions(s.take(i)).len() as int) == break_positions(
            s.take(i),
        ),
    decreases s.len(),
{
    if i == s.len() {
        assert(s.take(i) =~= s);
        assert(break_positions(s).take(break_positions(s).len() as int) =~= break_positions(s));
    } else {
        assert(s.drop_last().take(i) =~= s.take(i));
        lemma_breaks_prefix(s.drop_last(), i);
        let p = break_positions(s.drop_last());
        let q = break_positions(s.take(i));
        assert(break_positions(s).take(q.len() as int) =~= p.take(q.len() as int));
    }
}

proof fn lemma_breaks_bounded(s: Seq<char>)
    ensures
        forall|k: int|
            0 <= k < break_positions(s).len() ==> 0 <= #[trigger] break_positions(s)[k] < s.len()
                && s[break_positions(s)[k]] == '\n',
    decreases s.len(),
{
    if s.len() > 0 {
        lemma_breaks_bounded(s.drop_last());
        let p = break_positions(s.drop_last());
        assert forall|k: int| 0 <= k < break_positions(s).len() implies 0
            <= #[trigger] break_positions(s)[k] < s.len() && s[break_positions(s)[k]] == '\n' by {
            if k < p.len() {
                assert(break_positions(s)[k] == p[k]);
                assert(s.drop_last()[p[k]] == s[p[k]]);
            }
        }
    }
}

/// Byte offset where line `line` (counted from 1) starts.
pub fn line_start_byte_offset(text: &str, line: usize) -> (off: usize)
    ensures
        off == byte_offset(text@, line_start_char(text@, line as nat)),
{
    if line <= 1 {
        assert(text@.take(0) =~= Seq::<char>::empty());
        return 0;
    }
    let v = chars_of(text);
    let total = str_byte_len(text);
    let mut i: usize = 0;
    let mut b: usize = 0;
    let mut count: usize = 0;
    assert(text@.take(0) =~= Seq::<char>::empty());
    assert(text@.take(text@.len() as int) =~= text@);
    while i < v.len()
        invariant
            v@ == text@,
            line >= 2,
            i <= v@.len(),
            total == byte_len(text@),
            byte_offset(text@, text@.len() as int) == byte_len(text@),
            b == byte_offset(text@, i as int),
            count == break_positions(text@.take(i as int)).len(),
            count <= line - 2,
        decreases v@.len() - i,
    {
        proof {
            lemma_byte_offset_step(text@, i as int);
            crate::text::lemma_byte_offset_mono(text@, i + 1, text@.len() as int);
            assert(text@.take(i + 1).drop_last() =~= text@.take(i as int));
            lemma_breaks_prefix(text@, i + 1);
        }
        let next = b + utf8_width(v[i]);
        if v[i] == '\n' {
            if count == line - 2 {
                proof {
                    let q = break_positions(text@.take(i + 1));
                    assert(q[line - 2] == i);
                    assert(break_positions(text@).take(q.len() as int)[line - 2] == i);
                }
                return next;
            }
            count = count + 1;
        }
        b = next;
        i = i + 1;
    }
    proof {
        assert(text@.take(i as int) =~= text@);
    }
    total
}

/// Byte offset where line `line` (counted from 1) ends: its line break, or
/// the end of the text.
pub fn line_end_byte_offset(text: &str, line: usize) -> (off: usize)
    ensures
        off == byte_offset(text@, line_end_char(text@, line as nat)),
{
    let start = line_start_byte_offset(text, line);
    let ghost sc = line_start_char(text@, line as nat);
    proof {
        lemma_breaks_bounded(text@);
        if line >= 2 && line - 2 < break_positions(text@).len() {
            assert(0 <= sc <= text@.len());
        }
    }
    let v = chars_of(text);
    let k = char_index(text, start);
    proof {
        let kk = k as int;
        if kk < sc {
            crate::text::lemma_byte_offset_mono(text@, kk, sc);
        } else if sc < kk {
            crate::text::lemma_byte_offset_mono(text@, sc, kk);
        }
    }
    let mut i = k;
    let mut b = start;
    let total = str_byte_len(text);
    assert(text@.take(text@.len() as int) =~= text@);
    while i < v.len() && v[i] != '\n'
        invariant
            v@ == text@,
            total == byte_len(text@),
            sc <= i <= v@.len(),
            b == byte_offset(text@, i as int),
            byte_offset(text@, text@.len() as int) == byte_len(text@),
            first_break_from(text@, sc) == first_break_from(text@, i as int),
        decreases v@.len() - i,
    {
        proof {
            lemma_byte_offset_step(text@, i as int);
            crate::text::lemma_byte_offset_mono(text@, i + 1, text@.len() as int);
        }
        b = b + utf8_width(v[i]);
        i = i + 1;
    }
    b
}

/// The code editor panel: the find bar, the go-to-line box, the gutter, and
/// the id of the text widget once it has been drawn.
/// `egui::Id`, the identity of a widget, carried as it is.
#[verifier::external_type_specification]
#[verifier::external_body]
pub struct ExWidgetId(egui::Id);

pub struct Editor {
    pub find: FindReplace,
    pub goto: GotoLine,
    pub gutter: Gutter,
    pub editor_id: Option<egui::Id>,
}

impl Default for Editor {
    fn default() -> (e: Self)
        ensures
            !e.find@.open,
            !e.goto@.open,
            e.gutter@.line_count == 0,
            e.editor_id is None,
    {
        Editor {
            find: FindReplace::default(),
            goto: GotoLine::default(),
            gutter: Gutter::default(),
            editor_id: None,
        }
    }
}

impl Editor {
    /// Opens the find bar and closes the go-to-line box; every other setting
    /// of the find bar (query, replacement, case, whole word, current match)
    /// is kept.
    pub fn open_find(&mut self)
        ensures
            final(self).find@ == (FindReplaceView { open: true, focus_query: true, ..old(self).find@ }),
            final(self).goto@ == (GotoLineView { open: false, input: Seq::empty(), ..old(self).goto@ }),
            final(self).gutter@ == old(self).gutter@,
            final(self).editor_id == old(self).editor_id,
    {
        self.goto.close();
        self.find.open_find();
    }

    /// Opens the find bar with its replace row and closes the go-to-line box;
    /// every other setting of the find bar is kept.
    pub fn open_replace(&mut self)
        ensures
            final(self).find@ == (FindReplaceView {
                open: true,
                replace_open: true,
                focus_query: true,
                ..old(self).find@
            }),
            final(self).goto@ == (GotoLineView { open: false, input: Seq::empty(), ..old(self).goto@ }),
            final(self).gutter@ == old(self).gutter@,
            final(self).editor_id == old(self).editor_id,
    {
        self.goto.close();
        self.find.open_replace();
    }

    /// Opens the go-to-line box with an empty input that takes the focus, and
    /// closes the find bar, keeping its settings.
    pub fn activate_goto(&mut self)
        ensures
            final(self).goto@ == (GotoLineView { open: true, focus_input: true, input: Seq::empty() }),
            final(self).find@ == (FindReplaceView { open: false, replace_open: false, ..old(self).find@ }),
            final(self).gutter@ == old(self).gutter@,
            final(self).editor_id == old(self).editor_id,
    {
        self.find.close();
        self.goto.activate();
    }

    /// Whether the find bar or the go-to-line box is shown.
    pub fn overlay_open(&self) -> (b: bool)
        ensures
            b == (self.find@.open || self.goto@.open),
    {
        self.find.is_open() || self.goto.is_open()
    }

    /// Closes the find bar (keeping its settings) and the go-to-line box.
    pub fn close_overlays(&mut self)
        ensures
            final(self).find@ == (FindReplaceView { open: false, replace_open: false, ..old(self).find@ }),
            final(self).goto@ == (GotoLineView { open: false, input: Seq::empty(), ..old(self).goto@ }),
            final(self).gutter@ == old(self).gutter@,
            final(self).editor_id == old(self).editor_id,
    {
        self.find.close();
        self.goto.close();
    }
}

/// The selection to jump to in `text`: the end of the requested line when a
/// line was asked for, otherwise what the find bar chose.
pub fn jump_target(text: &str, goto_line: Option<usize>, find_jump: Option<Range<usize>>) -> (r: Option<
    Range<usize>,
>)
    ensures
        goto_line matches Some(line) ==> (r matches Some(rg) && rg.start == rg.end && rg.start
            == byte_offset(text@, line_end_char(text@, line as nat))),
        goto_line is None ==> r == find_jump,
{
    match goto_line {
        Some(line) => {
            let offset = line_end_byte_offset(text, line);
            Some(offset..offset)
        },
        None => find_jump,
    }
}

proof fn lemma_first_break_from(s: Seq<char>, start: int)
    requires
        0 <= start <= s.len(),
    ensures
        start <= first_break_from(s, start) <= s.len(),
        first_break_from(s, start) < s.len() ==> s[first_break_from(s, start)] == '\n',
        forall|j: int| start <= j < first_break_from(s, start) ==> s[j] != '\n',
    decreases s.len() - start,
{
    if start < s.len() && s[start] != '\n' {
        lemma_first_break_from(s, start + 1);
    }
}

/// A line starts no later than it ends, both inside the text; it ends at a
/// line break or at the end of the text, and holds no line break.
pub proof fn lemma_line_bounds(s: Seq<char>, line: nat)
    ensures
        0 <= line_start_char(s, line) <= line_end_char(s, line) <= s.len(),
        line_end_char(s, line) < s.len() ==> s[line_end_char(s, line)] == '\n',
        forall|j: int|
            line_start_char(s, line) <= j < line_end_char(s, line) ==> s[j] != '\n',
{
    lemma_breaks_bounded(s);
    lemma_first_break_from(s, line_start_char(s, line));
}

} // verus!
