use vstd::prelude::*;
use core::ops::Range;
use crate::search::{are_matches, char_matches, find_matches, fold_case, scan_matches, char_index};
use crate::text::{byte_offset, chars_of, lemma_byte_offset_injective, str_equal, string_from_chars};

verus! {

/// The remembered result of the last search, valid for the text and options
/// it was computed for.
struct MatchCache {
    text: String,
    query: String,
    case_sensitive: bool,
    whole_word: bool,
    matches: Vec<Range<usize>>,
}

impl MatchCache {
    #[verifier::type_invariant]
    spec fn inv(self) -> bool {
        are_matches(self.matches@, self.text@, self.query@, self.case_sensitive, self.whole_word)
    }
}

/// `text` with the character range `r` replaced by `repl`.
pub open spec fn splice(text: Seq<char>, r: (int, int), repl: Seq<char>) -> Seq<char> {
    text.take(r.0) + repl + text.skip(r.1)
}

/// `text` with every one of the sorted, disjoint character ranges `ms`
/// (starting at or after `from`) replaced by `repl`.
pub open spec fn replaced_all_from(text: Seq<char>, ms: Seq<(int, int)>, repl: Seq<char>, from: int) -> Seq<
    char,
>
    decreases ms.len(),
{
    if ms.len() == 0 {
        text.skip(from)
    } else {
        text.subrange(from, ms[0].0) + repl + replaced_all_from(text, ms.drop_first(), repl, ms[0].1)
    }
}

pub open spec fn replaced_all(text: Seq<char>, ms: Seq<(int, int)>, repl: Seq<char>) -> Seq<char> {
    replaced_all_from(text, ms, repl, 0)
}

/// Total number of characters the ranges `ms` cover.
pub open spec fn ranges_span(ms: Seq<(int, int)>) -> int
    decreases ms.len(),
{
    if ms.len() == 0 {
        0
    } else {
        (ms[0].1 - ms[0].0) + ranges_span(ms.drop_first())
    }
}

proof fn lemma_replaced_from_outside(t: Seq<char>, ms: Seq<(int, int)>, repl: Seq<char>, from: int)
    requires
        ordered_ranges(ms, t.len() as int),
        0 <= from <= t.len(),
        ms.len() > 0 ==> from <= ms[0].0,
    ensures
        ms.len() == 0 ==> replaced_all_from(t, ms, repl, from) == t.skip(from),
        replaced_all_from(t, ms, repl, from).len() == (t.len() - from) + ms.len() * repl.len()
            - ranges_span(ms),
        ms.len() > 0 ==> ({
            let r = replaced_all_from(t, ms, repl, from);
            let tail = t.skip(ms.last().1);
            r.len() >= tail.len() && r.skip(r.len() - tail.len()) == tail
        }),
    decreases ms.len(),
{
    if ms.len() > 0 {
        let rest = ms.drop_first();
        assert(ordered_ranges(rest, t.len() as int)) by {
            assert forall|i: int| 0 <= i < rest.len() implies 0 <= (#[trigger] rest[i]).0 <= rest[i].1
                <= t.len() by {
                assert(rest[i] == ms[i + 1]);
            }
            assert forall|i: int, j: int| 0 <= i < j < rest.len() implies (#[trigger] rest[i]).1
                <= (#[trigger] rest[j]).0 by {
                assert(rest[i] == ms[i + 1] && rest[j] == ms[j + 1]);
            }
        }
        assert(0 <= ms[0].0 <= ms[0].1 <= t.len());
        if rest.len() > 0 {
            assert(rest[0] == ms[1]);
            assert(ms[0].1 <= ms[1].0);
        }
        lemma_replaced_from_outside(t, rest, repl, ms[0].1);
        let head = t.subrange(from, ms[0].0) + repl;
        let r2 = replaced_all_from(t, rest, repl, ms[0].1);
        let r = replaced_all_from(t, ms, repl, from);
        assert(r == head + r2);
        assert(ms.len() * repl.len() == repl.len() + rest.len() * repl.len()) by (nonlinear_arith)
            requires
                ms.len() == rest.len() + 1,
        ;
        let tail = t.skip(ms.last().1);
        if rest.len() == 0 {
            assert(ms.last() == ms[0]);
            assert(r2 == tail);
        } else {
            assert(ms.last() == rest.last());
        }
        assert(r.skip(r.len() - tail.len()) =~= r2.skip(r2.len() - tail.len()));
    }
}

/// Replacing every match keeps the text outside the matches: with no match
/// the text is unchanged; otherwise the text before the first match begins
/// the result, followed by the replacement, and the text after the last
/// match ends it; each match of `m` characters changes the length by the
/// replacement's length minus `m`.
pub proof fn lemma_replace_all_keeps_outside(t: Seq<char>, ms: Seq<(int, int)>, repl: Seq<char>)
    requires
        ordered_ranges(ms, t.len() as int),
    ensures
        ms.len() == 0 ==> replaced_all(t, ms, repl) == t,
        replaced_all(t, ms, repl).len() == t.len() + ms.len() * repl.len() - ranges_span(ms),
        ms.len() > 0 ==> replaced_all(t, ms, repl).take(ms[0].0 + repl.len()) == t.take(ms[0].0)
            + repl,
        ms.len() > 0 ==> ({
            let r = replaced_all(t, ms, repl);
            let tail = t.skip(ms.last().1);
            r.len() >= tail.len() && r.skip(r.len() - tail.len()) == tail
        }),
{
    lemma_replaced_from_outside(t, ms, repl, 0);
    if ms.len() == 0 {
        assert(t.skip(0) =~= t);
    } else {
        assert(0 <= ms[0].0 <= ms[0].1 <= t.len());
        let r = replaced_all(t, ms, repl);
        let r2 = replaced_all_from(t, ms.drop_first(), repl, ms[0].1);
        assert(r == t.subrange(0, ms[0].0) + repl + r2);
        assert(r.take(ms[0].0 + repl.len()) =~= t.take(ms[0].0) + repl);
    }
}

/// Sorted, disjoint ranges inside `0..len`.
pub open spec fn ordered_ranges(ms: Seq<(int, int)>, len: int) -> bool {
    &&& forall|i: int| 0 <= i < ms.len() ==> 0 <= (#[trigger] ms[i]).0 <= ms[i].1 <= len
    &&& forall|i: int, j: int| 0 <= i < j < ms.len() ==> (#[trigger] ms[i]).1 <= (#[trigger] ms[j]).0
}

/// Matches reported by a scan are sorted, disjoint, and inside the text.
pub proof fn lemma_scan_ordered(
    hay: Seq<char>,
    needle: Seq<char>,
    text: Seq<char>,
    whole_word: bool,
    from: int,
)
    requires
        needle.len() > 0,
        from >= 0,
    ensures
        ({
            let ms = scan_matches(hay, needle, text, whole_word, from);
            &&& forall|i: int|
                0 <= i < ms.len() ==> from <= (#[trigger] ms[i]).0 && ms[i].1 == ms[i].0
                    + needle.len() && ms[i].1 <= hay.len()
            &&& forall|i: int, j: int|
                0 <= i < j < ms.len() ==> (#[trigger] ms[i]).1 <= (#[trigger] ms[j]).0
        }),
    decreases hay.len() + 1 - from,
{
    crate::search::lemma_first_match_from(hay, needle, from);
    match crate::search::first_match_from(hay, needle, from) {
        Some(k) => {
            let m = needle.len() as int;
            lemma_scan_ordered(hay, needle, text, whole_word, k + m);
            let rest = scan_matches(hay, needle, text, whole_word, k + m);
            let ms = scan_matches(hay, needle, text, whole_word, from);
            if !whole_word || crate::search::whole_word_at(text, k, k + m) {
                assert(ms == seq![(k, k + m)] + rest);
                assert forall|i: int| 0 <= i < ms.len() implies from <= (#[trigger] ms[i]).0
                    && ms[i].1 == ms[i].0 + m && ms[i].1 <= hay.len() by {
                    if i > 0 {
                        assert(ms[i] == rest[i - 1]);
                    }
                }
                assert forall|i: int, j: int| 0 <= i < j < ms.len() implies (#[trigger] ms[i]).1
                    <= (#[trigger] ms[j]).0 by {
                    assert(ms[j] == rest[j - 1]);
                    if i > 0 {
                        assert(ms[i] == rest[i - 1]);
                    }
                }
            }
        },
        None => {},
    }
}

/// The matches of a search are sorted, disjoint character ranges of the text.
pub proof fn lemma_matches_ordered(
    text: Seq<char>,
    query: Seq<char>,
    case_sensitive: bool,
    whole_word: bool,
)
    ensures
        ordered_ranges(char_matches(text, query, case_sensitive, whole_word), text.len() as int),
{
    if query.len() > 0 {
        lemma_scan_ordered(
            fold_case(text, case_sensitive),
            fold_case(query, case_sensitive),
            text,
            whole_word,
            0,
        );
    }
}

/// A byte range corresponds to the character range `m` of `text`.
pub open spec fn range_of(text: Seq<char>, m: (int, int), r: Range<usize>) -> bool {
    r.start == byte_offset(text, m.0) && r.end == byte_offset(text, m.1)
}

/// The character ranges of byte ranges that are known to be the character ranges `found`.
fn to_char_ranges(text: &str, ranges: &Vec<Range<usize>>, Ghost(found): Ghost<Seq<(int, int)>>) -> (r:
    Vec<(usize, usize)>)
    requires
        ranges@.len() == found.len(),
        ordered_ranges(found, text@.len() as int),
        forall|i: int| 0 <= i < found.len() ==> range_of(text@, found[i], #[trigger] ranges@[i]),
    ensures
        r@.len() == found.len(),
        forall|i: int|
            0 <= i < found.len() ==> (#[trigger] r@[i]).0 == found[i].0 && r@[i].1 == found[i].1,
{
    let mut out: Vec<(usize, usize)> = Vec::new();
    let mut i: usize = 0;
    while i < ranges.len()
        invariant
            i <= ranges@.len(),
            ranges@.len() == found.len(),
            ordered_ranges(found, text@.len() as int),
            forall|k: int| 0 <= k < found.len() ==> range_of(text@, found[k], #[trigger] ranges@[k]),
            out@.len() == i,
            forall|k: int|
                0 <= k < i ==> (#[trigger] out@[k]).0 == found[k].0 && out@[k].1 == found[k].1,
        decreases ranges@.len() - i,
    {
        assert(range_of(text@, found[i as int], ranges@[i as int]));
        let a = char_index(text, ranges[i].start);
        let b = char_index(text, ranges[i].end);
        proof {
            lemma_byte_offset_injective(text@, a as int, found[i as int].0);
            lemma_byte_offset_injective(text@, b as int, found[i as int].1);
        }
        out.push((a, b));
        i = i + 1;
    }
    out
}

/// Appends the characters `a..b` of `v` to `out`.
fn push_range(out: &mut Vec<char>, v: &Vec<char>, a: usize, b: usize)
    requires
        a <= b <= v@.len(),
    ensures
        final(out)@ == old(out)@ + v@.subrange(a as int, b as int),
{
    let mut i = a;
    while i < b
        invariant
            a <= i <= b <= v@.len(),
            out@ == old(out)@ + v@.subrange(a as int, i as int),
        decreases b - i,
    {
        out.push(v[i]);
        assert(v@.subrange(a as int, i + 1) =~= v@.subrange(a as int, i as int).push(v@[i as int]));
        i = i + 1;
    }
}

/// `t` with the sorted, disjoint ranges `ms` replaced by `repl`.
fn replace_ranges(t: &Vec<char>, ms: &Vec<(usize, usize)>, repl: &Vec<char>, Ghost(found): Ghost<Seq<(int, int)>>) -> (out: Vec<char>)
    requires
        ms@.len() == found.len(),
        ordered_ranges(found, t@.len() as int),
        forall|i: int| 0 <= i < found.len() ==> (#[trigger] ms@[i]).0 == found[i].0 && ms@[i].1 == found[i].1,
    ensures
        out@ == replaced_all(t@, found, repl@),
{
    let mut out: Vec<char> = Vec::new();
    let mut prev: usize = 0;
    let mut i: usize = 0;
    assert(found.skip(0) =~= found);
    assert(out@ + replaced_all_from(t@, found, repl@, 0) =~= replaced_all(t@, found, repl@));
    while i < ms.len()
        invariant
            i <= ms@.len(),
            ms@.len() == found.len(),
            ordered_ranges(found, t@.len() as int),
            forall|k: int| 0 <= k < found.len() ==> (#[trigger] ms@[k]).0 == found[k].0 && ms@[k].1 == found[k].1,
            prev <= t@.len(),
            i > 0 ==> prev == found[i - 1].1,
            i == 0 ==> prev == 0,
            out@ + replaced_all_from(t@, found.skip(i as int), repl@, prev as int) == replaced_all(t@, found, repl@),
        decreases ms@.len() - i,
    {
        let (a, b) = ms[i];
        assert(found.skip(i as int)[0] == found[i as int]);
        assert(found.skip(i as int).drop_first() =~= found.skip(i + 1));
        if i > 0 {
            assert(found[i - 1].1 <= found[i as int].0);
        }
        let ghost old_out = out@;
        push_range(&mut out, t, prev, a);
        let mut j: usize = 0;
        while j < repl.len()
            invariant
                j <= repl@.len(),
                out@ == old_out + t@.subrange(prev as int, a as int) + repl@.take(j as int),
            decreases repl@.len() - j,
        {
            out.push(repl[j]);
            assert(repl@.take(j + 1) =~= repl@.take(j as int).push(repl@[j as int]));
            j = j + 1;
        }
        assert(repl@.take(repl@.len() as int) =~= repl@);
        assert(out@ + replaced_all_from(t@, found.skip(i + 1), repl@, b as int) =~= old_out
            + replaced_all_from(t@, found.skip(i as int), repl@, prev as int));
        prev = b;
        i = i + 1;
    }
    let ghost old_out = out@;
    push_range(&mut out, t, prev, t.len());
    assert(found.skip(i as int) =~= Seq::<(int, int)>::empty());
    assert(t@.subrange(prev as int, t@.len() as int) =~= t@.skip(prev as int));
    out
}

/// The button and key presses of one frame of the find bar.
pub struct FindActions {
    pub go_next: bool,
    pub go_prev: bool,
    pub replace_one: bool,
    pub replace_all: bool,
}

/// What the find bar saw at the start of a frame: the matches in the text,
/// the clamped current match, and whether the query changed or the bar was
/// just opened.
pub struct FrameStart {
    matches: Vec<Range<usize>>,
    current: usize,
    query_changed: bool,
    just_opened: bool,
    text: Ghost<Seq<char>>,
    found: Ghost<Seq<(int, int)>>,
}

impl FrameStart {
    #[verifier::type_invariant]
    spec fn inv(self) -> bool {
        &&& self.matches@.len() == self.found@.len()
        &&& ordered_ranges(self.found@, self.text@.len() as int)
        &&& forall|i: int|
            0 <= i < self.found@.len() ==> (#[trigger] self.matches@[i]).start == byte_offset(
                self.text@,
                self.found@[i].0,
            ) && self.matches@[i].end == byte_offset(self.text@, self.found@[i].1)
        &&& (self.matches@.len() == 0 ==> self.current == 0)
        &&& (self.matches@.len() > 0 ==> self.current < self.matches@.len())
    }

    /// The text the frame was started on.
    pub closed spec fn text(&self) -> Seq<char> {
        self.text@
    }

    /// The matches as character ranges.
    pub closed spec fn found(&self) -> Seq<(int, int)> {
        self.found@
    }

    pub closed spec fn spec_matches(&self) -> Seq<Range<usize>> {
        self.matches@
    }

    pub closed spec fn spec_current(&self) -> nat {
        self.current as nat
    }

    pub closed spec fn spec_query_changed(&self) -> bool {
        self.query_changed
    }

    pub closed spec fn spec_just_opened(&self) -> bool {
        self.just_opened
    }

    /// The matches found at the start of the frame, as byte ranges.
    pub fn matches(&self) -> (m: &[Range<usize>])
        ensures
            m@ == self.spec_matches(),
    {
        self.matches.as_slice()
    }

    /// The current match at the start of the frame.
    pub fn current(&self) -> (c: usize)
        ensures
            c == self.spec_current(),
    {
        self.current
    }
}

/// Find and replace over the code buffer.
pub struct FindReplace {
    pub open: bool,
    pub replace_open: bool,
    pub query: String,
    pub replacement: String,
    pub case_sensitive: bool,
    pub whole_word: bool,
    current: usize,
    focus_query: bool,
    last_query: String,
    cache: MatchCache,
}

/// The settings and position of the find bar.
pub struct FindReplaceView {
    pub open: bool,
    pub replace_open: bool,
    pub query: Seq<char>,
    pub replacement: Seq<char>,
    pub case_sensitive: bool,
    pub whole_word: bool,
    /// Index of the current match.
    pub current: nat,
    /// Whether the query field should take the keyboard focus.
    pub focus_query: bool,
    /// The query as it was at the start of the last frame.
    pub last_query: Seq<char>,
}

impl View for FindReplace {
    type V = FindReplaceView;

    closed spec fn view(&self) -> FindReplaceView {
        FindReplaceView {
            open: self.open,
            replace_open: self.replace_open,
            query: self.query@,
            replacement: self.replacement@,
            case_sensitive: self.case_sensitive,
            whole_word: self.whole_word,
            current: self.current as nat,
            focus_query: self.focus_query,
            last_query: self.last_query@,
        }
    }
}

/// The match after match `c` of `n`, the first after the last.
pub open spec fn next_match(c: int, n: int) -> int {
    (c + 1) % n
}

/// The match before match `c` of `n`, the last before the first.
pub open spec fn prev_match(c: int, n: int) -> int {
    (c + n - 1) % n
}

/// Stepping to the next match and then to the previous one (or the other
/// way round) comes back to the match one started from, and every step stays
/// among the matches.
pub proof fn lemma_next_prev_inverse(c: int, n: int)
    requires
        0 <= c < n,
    ensures
        0 <= next_match(c, n) < n,
        0 <= prev_match(c, n) < n,
        prev_match(next_match(c, n), n) == c,
        next_match(prev_match(c, n), n) == c,
{
    if c + 1 < n {
        assert((c + 1) % n == c + 1) by {
            vstd::arithmetic::div_mod::lemma_small_mod((c + 1) as nat, n as nat);
        }
        assert((c + 1 + n - 1) % n == c) by {
            vstd::arithmetic::div_mod::lemma_mod_add_multiples_vanish(c, n);
            vstd::arithmetic::div_mod::lemma_small_mod(c as nat, n as nat);
        }
    } else {
        assert((c + 1) % n == 0) by {
            vstd::arithmetic::div_mod::lemma_mod_self_0(n);
        }
        assert((0 + n - 1) % n == c) by {
            vstd::arithmetic::div_mod::lemma_small_mod((n - 1) as nat, n as nat);
        }
    }
    if c > 0 {
        assert((c + n - 1) % n == c - 1) by {
            vstd::arithmetic::div_mod::lemma_mod_add_multiples_vanish(c - 1, n);
            vstd::arithmetic::div_mod::lemma_small_mod((c - 1) as nat, n as nat);
        }
        assert((c - 1 + 1) % n == c) by {
            vstd::arithmetic::div_mod::lemma_small_mod(c as nat, n as nat);
        }
    } else {
        assert((0 + n - 1) % n == n - 1) by {
            vstd::arithmetic::div_mod::lemma_small_mod((n - 1) as nat, n as nat);
        }
        assert((n - 1 + 1) % n == 0) by {
            vstd::arithmetic::div_mod::lemma_mod_self_0(n);
        }
    }
}

/// The current match index clamped into `0..n` (0 when there is no match).
pub open spec fn clamp_current(current: nat, n: nat) -> nat {
    if n == 0 {
        0
    } else if current >= n {
        (n - 1) as nat
    } else {
        current
    }
}

impl Default for FindReplace {
    fn default() -> (f: Self)
        ensures
            !f@.open,
            !f@.replace_open,
            f@.query == Seq::<char>::empty(),
            f@.replacement == Seq::<char>::empty(),
            !f@.case_sensitive,
            !f@.whole_word,
            f@.current == 0,
            !f@.focus_query,
            f@.last_query == Seq::<char>::empty(),
    {
        FindReplace {
            open: false,
            replace_open: false,
            query: String::new(),
            replacement: String::new(),
            case_sensitive: false,
            whole_word: false,
            current: 0,
            focus_query: false,
            last_query: String::new(),
            cache: MatchCache {
                text: String::new(),
                query: String::new(),
                case_sensitive: false,
                whole_word: false,
                matches: Vec::new(),
            },
        }
    }
}

/// The user-visible settings agree.
pub open spec fn same_settings(a: FindReplaceView, b: FindReplaceView) -> bool {
    &&& a.open == b.open
    &&& a.replace_open == b.replace_open
    &&& a.query == b.query
    &&& a.replacement == b.replacement
    &&& a.case_sensitive == b.case_sensitive
    &&& a.whole_word == b.whole_word
}

impl FindReplace {
    /// Opens the bar for searching; its query field takes the focus.
    pub fn open_find(&mut self)
        ensures
            final(self)@.open,
            final(self)@.focus_query,
            final(self)@.replace_open == old(self)@.replace_open,
            final(self)@.query == old(self)@.query,
            final(self)@.replacement == old(self)@.replacement,
            final(self)@.case_sensitive == old(self)@.case_sensitive,
            final(self)@.whole_word == old(self)@.whole_word,
            final(self)@.current == old(self)@.current,
            final(self)@.last_query == old(self)@.last_query,
    {
        self.open = true;
        self.focus_query = true;
    }

    /// Opens the bar with its replace row; its query field takes the focus.
    pub fn open_replace(&mut self)
        ensures
            final(self)@.open,
            final(self)@.replace_open,
            final(self)@.focus_query,
            final(self)@.query == old(self)@.query,
            final(self)@.replacement == old(self)@.replacement,
            final(self)@.case_sensitive == old(self)@.case_sensitive,
            final(self)@.whole_word == old(self)@.whole_word,
            final(self)@.current == old(self)@.current,
            final(self)@.last_query == old(self)@.last_query,
    {
        self.open = true;
        self.replace_open = true;
        self.focus_query = true;
    }

    /// Closes the bar and its replace row.
    pub fn close(&mut self)
        ensures
            !final(self)@.open,
            !final(self)@.replace_open,
            final(self)@.focus_query == old(self)@.focus_query,
            final(self)@.query == old(self)@.query,
            final(self)@.replacement == old(self)@.replacement,
            final(self)@.case_sensitive == old(self)@.case_sensitive,
            final(self)@.whole_word == old(self)@.whole_word,
            final(self)@.current == old(self)@.current,
            final(self)@.last_query == old(self)@.last_query,
    {
        self.open = false;
        self.replace_open = false;
    }

    /// Whether the bar is shown.
    pub fn is_open(&self) -> (b: bool)
        ensures
            b == self@.open,
    {
        self.open
    }

    /// Index of the current match.
    pub fn current(&self) -> (c: usize)
        ensures
            c == self@.current,
    {
        self.current
    }

    /// Whether the query field should take the focus; the request is consumed.
    pub fn take_focus_request(&mut self) -> (requested: bool)
        ensures
            requested == old(self)@.focus_query,
            !final(self)@.focus_query,
            same_settings(final(self)@, old(self)@),
            final(self)@.current == old(self)@.current,
            final(self)@.last_query == old(self)@.last_query,
    {
        let requested = self.focus_query;
        self.focus_query = false;
        requested
    }

    /// The matches of the current query in `text`, computed again only when
    /// the text or the search options changed since the last call.
    pub fn matches(&mut self, text: &str) -> (r: Vec<Range<usize>>)
        ensures
            are_matches(r@, text@, old(self)@.query, old(self)@.case_sensitive, old(self)@.whole_word),
            same_settings(final(self)@, old(self)@),
            final(self)@.current == old(self)@.current,
            final(self)@.focus_query == old(self)@.focus_query,
            final(self)@.last_query == old(self)@.last_query,
    {
        proof {
            use_type_invariant(&self.cache);
        }
        let stale = !str_equal(self.cache.text.as_str(), text) || self.cache.query != self.query
            || self.cache.case_sensitive != self.case_sensitive || self.cache.whole_word
            != self.whole_word;
        if stale {
            let found = find_matches(text, self.query.as_str(), self.case_sensitive, self.whole_word);
            self.cache = MatchCache {
                text: text.to_owned(),
                query: self.query.clone(),
                case_sensitive: self.case_sensitive,
                whole_word: self.whole_word,
                matches: found,
            };
        }
        proof {
            use_type_invariant(&self.cache);
        }
        let mut out: Vec<Range<usize>> = Vec::new();
        let mut i: usize = 0;
        while i < self.cache.matches.len()
            invariant
                i <= self.cache.matches@.len(),
                out@.len() == i,
                forall|j: int| 0 <= j < i ==> #[trigger] out@[j] == self.cache.matches@[j],
            decreases self.cache.matches@.len() - i,
        {
            let r = &self.cache.matches[i];
            out.push(r.start..r.end);
            i = i + 1;
        }
        assert(out@ =~= self.cache.matches@);
        out
    }
}


impl FindReplace {
    /// Starts a frame of the find bar over `code`: notes whether the query
    /// changed and whether the bar was just opened, remembers the query,
    /// searches, and clamps the current match. A closed bar starts nothing.
    pub fn begin_frame(&mut self, code: &str) -> (frame: Option<FrameStart>)
        ensures
            !old(self)@.open ==> frame is None && final(self)@ == old(self)@,
            old(self)@.open ==> (frame matches Some(f) && {
                let m = char_matches(
                    code@,
                    old(self)@.query,
                    old(self)@.case_sensitive,
                    old(self)@.whole_word,
                );
                &&& f.text() == code@
                &&& f.found() == m
                &&& are_matches(
                    f.spec_matches(),
                    code@,
                    old(self)@.query,
                    old(self)@.case_sensitive,
                    old(self)@.whole_word,
                )
                &&& f.spec_query_changed() == (old(self)@.query != old(self)@.last_query)
                &&& f.spec_just_opened() == old(self)@.focus_query
                &&& f.spec_current() == clamp_current(old(self)@.current, m.len())
                &&& final(self)@.current == f.spec_current()
                &&& final(self)@.last_query == old(self)@.query
                &&& same_settings(final(self)@, old(self)@)
                &&& final(self)@.focus_query == old(self)@.focus_query
            }),
    {
        if !self.open {
            return None;
        }
        let query_changed = !(self.query == self.last_query);
        self.last_query = self.query.clone();
        let just_opened = self.focus_query;
        let matches = self.matches(code);
        let ghost found = char_matches(code@, self@.query, self@.case_sensitive, self@.whole_word);
        proof {
            lemma_matches_ordered(code@, self@.query, self@.case_sensitive, self@.whole_word);
        }
        if matches.len() == 0 {
            self.current = 0;
        } else if self.current >= matches.len() {
            self.current = matches.len() - 1;
        }
        Some(
            FrameStart {
                matches,
                current: self.current,
                query_changed,
                just_opened,
                text: Ghost(code@),
                found: Ghost(found),
            },
        )
    }

    /// Ends a frame of the find bar: carries out the presses of `actions` on
    /// `code_buf` and the matches of `frame`, and gives the range to select.
    /// Replace-all replaces every match and selects nothing; replace replaces
    /// the current match, searches again and selects the match now current;
    /// next and previous move the current match cyclically; a changed query or
    /// a newly opened bar selects the current match.
    #[verifier::rlimit(50)]
    pub fn finish_frame(&mut self, code_buf: &mut String, frame: FrameStart, actions: FindActions) -> (r:
        Option<Range<usize>>)
        requires
            frame.text() == old(code_buf)@,
        ensures
            same_settings(final(self)@, old(self)@),
            final(self)@.focus_query == old(self)@.focus_query,
            final(self)@.last_query == old(self)@.last_query,
            ({
                let ms = frame.found();
                let n = ms.len();
                let c = frame.spec_current() as int;
                let t = old(code_buf)@;
                let repl = old(self)@.replacement;
                &&& actions.replace_all ==> {
                    &&& final(code_buf)@ == replaced_all(t, ms, repl)
                    &&& final(self)@.current == 0
                    &&& r is None
                }
                &&& !actions.replace_all && actions.replace_one && n > 0 ==> {
                    let t2 = splice(t, ms[c], repl);
                    let m2 = char_matches(
                        t2,
                        old(self)@.query,
                        old(self)@.case_sensitive,
                        old(self)@.whole_word,
                    );
                    &&& final(code_buf)@ == t2
                    &&& m2.len() == 0 ==> final(self)@.current == 0 && r is None
                    &&& m2.len() > 0 ==> {
                        &&& final(self)@.current == if c < m2.len() - 1 {
                            c
                        } else {
                            m2.len() - 1
                        }
                        &&& (r matches Some(rg) && range_of(t2, m2[final(self)@.current as int], rg))
                    }
                }
                &&& !actions.replace_all && !(actions.replace_one && n > 0) ==> {
                    &&& final(code_buf)@ == t
                    &&& n == 0 ==> r is None && final(self)@.current == c
                    &&& n > 0 && actions.go_next ==> final(self)@.current == next_match(c, n as int)
                        && r == Some(frame.spec_matches()[final(self)@.current as int])
                    &&& n > 0 && !actions.go_next && actions.go_prev ==> final(self)@.current
                        == prev_match(c, n as int) && r == Some(
                        frame.spec_matches()[final(self)@.current as int],
                    )
                    &&& n > 0 && !actions.go_next && !actions.go_prev ==> {
                        &&& final(self)@.current == c
                        &&& r == if frame.spec_query_changed() || frame.spec_just_opened() {
                            Some(frame.spec_matches()[c])
                        } else {
                            None
                        }
                    }
                }
            }),
    {
        proof {
            use_type_invariant(&frame);
        }
        let ghost found = frame.found@;
        let n = frame.matches.len();
        let c = frame.current;
        if actions.replace_all {
            let t = chars_of(code_buf.as_str());
            let repl = chars_of(self.replacement.as_str());
            let ms = to_char_ranges(code_buf.as_str(), &frame.matches, Ghost(found));
            let out = replace_ranges(&t, &ms, &repl, Ghost(found));
            *code_buf = string_from_chars(&out);
            self.current = 0;
            return None;
        }
        if actions.replace_one && n > 0 {
            let t = chars_of(code_buf.as_str());
            let repl = chars_of(self.replacement.as_str());
            let a = char_index(code_buf.as_str(), frame.matches[c].start);
            let b = char_index(code_buf.as_str(), frame.matches[c].end);
            proof {
                lemma_byte_offset_injective(t@, a as int, found[c as int].0);
                lemma_byte_offset_injective(t@, b as int, found[c as int].1);
            }
            let mut out: Vec<char> = Vec::new();
            push_range(&mut out, &t, 0, a);
            let mut j: usize = 0;
            let ghost before = out@;
            while j < repl.len()
                invariant
                    j <= repl@.len(),
                    out@ == before + repl@.take(j as int),
                decreases repl@.len() - j,
            {
                out.push(repl[j]);
                assert(repl@.take(j + 1) =~= repl@.take(j as int).push(repl@[j as int]));
                j = j + 1;
            }
            push_range(&mut out, &t, b, t.len());
            assert(repl@.take(repl@.len() as int) =~= repl@);
            assert(t@.subrange(0, a as int) =~= t@.take(a as int));
            assert(t@.subrange(b as int, t@.len() as int) =~= t@.skip(b as int));
            *code_buf = string_from_chars(&out);
            let again = self.matches(code_buf.as_str());
            if again.len() == 0 {
                self.current = 0;
                return None;
            }
            self.current = if c < again.len() - 1 {
                c
            } else {
                again.len() - 1
            };
            return Some(again[self.current].start..again[self.current].end);
        }
        self.current = c;
        if n == 0 {
            return None;
        }
        if actions.go_next {
            self.current = (c + 1) % n;
            return Some(frame.matches[self.current].start..frame.matches[self.current].end);
        }
        if actions.go_prev {
            self.current = if c == 0 {
                n - 1
            } else {
                c - 1
            };
            assert(self.current == (c + n - 1) % (n as int)) by {
                if c == 0 {
                    vstd::arithmetic::div_mod::lemma_fundamental_div_mod_converse(n - 1, n as int, 0, n - 1);
                } else {
                    vstd::arithmetic::div_mod::lemma_fundamental_div_mod_converse(c + n - 1, n as int, 1, c - 1);
                }
            }
            return Some(frame.matches[self.current].start..frame.matches[self.current].end);
        }
        if frame.query_changed || frame.just_opened {
            return Some(frame.matches[c].start..frame.matches[c].end);
        }
        None
    }
}

} // verus!
