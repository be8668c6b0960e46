use vstd::prelude::*;
use crate::text::{lemma_byte_offset_injective, byte_len, byte_offset, chars_of, char_width, lemma_byte_offset_mono, lemma_byte_offset_step, str_byte_len, utf8_width};

verus! {

/// What `char::is_alphanumeric` answers for `c` (Unicode `Alphabetic` or `Numeric`).
pub uninterp spec fn char_is_alphanumeric(c: char) -> bool;

/// Calls `char::is_alphanumeric`. The contract names its answer and states
/// the ASCII part of it: an ASCII character is alphanumeric exactly when it
/// is a letter or a digit. Which non-ASCII characters count is left to the
/// Unicode tables that the standard library carries.
#[verifier::external_body]
fn alphanumeric(c: char) -> (b: bool)
    ensures
        b == char_is_alphanumeric(c),
        (c as u32) < 0x80 ==> (b <==> (('0' <= c && c <= '9') || ('a' <= c && c <= 'z') || (
        'A' <= c && c <= 'Z'))),
{
    c.is_alphanumeric()
}

/// An ASCII letter or digit.
pub open spec fn ascii_alnum(c: char) -> bool {
    ('0' <= c && c <= '9') || ('a' <= c && c <= 'z') || ('A' <= c && c <= 'Z')
}

/// Characters that belong to a word: alphanumerics and the underscore. An
/// ASCII character is alphanumeric exactly when it is a letter or a digit;
/// beyond ASCII, as `char::is_alphanumeric` answers.
pub open spec fn word_char(c: char) -> bool {
    if (c as u32) < 0x80 {
        ascii_alnum(c) || c == '_'
    } else {
        char_is_alphanumeric(c) || c == '_'
    }
}

/// Whether `c` belongs to a word: a letter or digit, or `_`.
pub fn is_word_char(c: char) -> (b: bool)
    ensures
        b == word_char(c),
        b == (char_is_alphanumeric(c) || c == '_'),
        (c as u32) < 0x80 ==> (b <==> (ascii_alnum(c) || c == '_')),
{
    alphanumeric(c) || c == '_'
}

/// `text[start..end]` is not glued to a word character on either side.
pub open spec fn whole_word_at(text: Seq<char>, start: int, end: int) -> bool {
    &&& (start == 0 || !word_char(text[start - 1]))
    &&& (end == text.len() || !word_char(text[end]))
}

/// Whether the characters `start..end` of `text` stand as a whole word.
pub fn is_whole_word_at(text: &Vec<char>, start: usize, end: usize) -> (b: bool)
    requires
        start <= end <= text@.len(),
    ensures
        b == whole_word_at(text@, start as int, end as int),
{
    let before_ok = start == 0 || !is_word_char(text[start - 1]);
    let after_ok = end == text.len() || !is_word_char(text[end]);
    before_ok && after_ok
}

/// `c` with ASCII upper case folded to lower case, as `char::to_ascii_lowercase`.
pub open spec fn ascii_lower(c: char) -> char {
    if 'A' <= c && c <= 'Z' {
        ((c as u32) + 32) as char
    } else {
        c
    }
}

/// `c` with ASCII lower case raised to upper case, as `char::to_ascii_uppercase`.
pub open spec fn ascii_upper(c: char) -> char {
    if 'a' <= c && c <= 'z' {
        ((c as u32) - 32) as char
    } else {
        c
    }
}

/// `c` with ASCII upper case letters lowered, as `char::to_ascii_lowercase`.
pub fn to_ascii_lower(c: char) -> (d: char)
    ensures
        d == ascii_lower(c),
{
    if 'A' <= c && c <= 'Z' {
        ((c as u8) + 32) as char
    } else {
        c
    }
}

/// The text that is searched: as it is, or ASCII-lowercased when the search
/// ignores case.
pub open spec fn fold_case(s: Seq<char>, case_sensitive: bool) -> Seq<char> {
    if case_sensitive {
        s
    } else {
        s.map_values(|c: char| ascii_lower(c))
    }
}

/// `needle` occurs in `hay` at character index `k`.
pub open spec fn occurs_at(hay: Seq<char>, needle: Seq<char>, k: int) -> bool {
    0 <= k && k + needle.len() <= hay.len() && hay.subrange(k, k + needle.len()) == needle
}

/// The first occurrence of `needle` in `hay` at or after `from`.
pub open spec fn first_match_from(hay: Seq<char>, needle: Seq<char>, from: int) -> Option<int>
    decreases hay.len() + 1 - from,
{
    if from < 0 || from + needle.len() > hay.len() {
        None
    } else if occurs_at(hay, needle, from) {
        Some(from)
    } else {
        first_match_from(hay, needle, from + 1)
    }
}

/// The first occurrence found from `from` is at or after `from`, and is an occurrence.
pub proof fn lemma_first_match_from(hay: Seq<char>, needle: Seq<char>, from: int)
    ensures
        first_match_from(hay, needle, from) matches Some(k) ==> from <= k && occurs_at(
            hay,
            needle,
            k,
        ),
    decreases hay.len() + 1 - from,
{
    if !(from < 0 || from + needle.len() > hay.len()) && !occurs_at(hay, needle, from) {
        lemma_first_match_from(hay, needle, from + 1);
    }
}

/// The character ranges that a search for `needle` reports, scanning `hay`
/// from `from`: each occurrence is taken leftmost, the scan resumes after its
/// end, and when `whole_word` is set only occurrences that stand as whole
/// words of `text` are reported.
pub open spec fn scan_matches(
    hay: Seq<char>,
    needle: Seq<char>,
    text: Seq<char>,
    whole_word: bool,
    from: int,
) -> Seq<(int, int)>
    decreases hay.len() - from,
    when needle.len() > 0
{
    match first_match_from(hay, needle, from) {
        Some(k) => {
            proof {
                lemma_first_match_from(hay, needle, from);
            }
            let rest = scan_matches(hay, needle, text, whole_word, k + needle.len());
            if !whole_word || whole_word_at(text, k, k + needle.len()) {
                seq![(k, k + needle.len())] + rest
            } else {
                rest
            }
        },
        None => Seq::empty(),
    }
}

/// The matches of `query` in `text`, as character ranges: none for an empty
/// query, otherwise the leftmost non-overlapping occurrences (ignoring ASCII
/// case unless `case_sensitive`), restricted to whole words when `whole_word`.
pub open spec fn char_matches(
    text: Seq<char>,
    query: Seq<char>,
    case_sensitive: bool,
    whole_word: bool,
) -> Seq<(int, int)> {
    if query.len() == 0 {
        Seq::empty()
    } else {
        scan_matches(
            fold_case(text, case_sensitive),
            fold_case(query, case_sensitive),
            text,
            whole_word,
            0,
        )
    }
}

/// `ranges` are the matches of `query` in `text`, in UTF-8 byte offsets.
pub open spec fn are_matches(
    ranges: Seq<core::ops::Range<usize>>,
    text: Seq<char>,
    query: Seq<char>,
    case_sensitive: bool,
    whole_word: bool,
) -> bool {
    let m = char_matches(text, query, case_sensitive, whole_word);
    &&& ranges.len() == m.len()
    &&& forall|i: int|
        0 <= i < m.len() ==> (#[trigger] ranges[i]).start == byte_offset(text, m[i].0)
            && ranges[i].end == byte_offset(text, m[i].1)
}

fn fold_chars(v: &Vec<char>, case_sensitive: bool) -> (w: Vec<char>)
    ensures
        w@ == fold_case(v@, case_sensitive),
{
    let mut w: Vec<char> = Vec::new();
    let mut i: usize = 0;
    while i < v.len()
        invariant
            i <= v@.len(),
            w@ == fold_case(v@, case_sensitive).take(i as int),
        decreases v@.len() - i,
    {
        let c = if case_sensitive {
            v[i]
        } else {
            to_ascii_lower(v[i])
        };
        w.push(c);
        assert(w@ =~= fold_case(v@, case_sensitive).take(i + 1));
        i = i + 1;
    }
    assert(w@ =~= fold_case(v@, case_sensitive));
    w
}

fn occurs_at_exec(hay: &Vec<char>, needle: &Vec<char>, k: usize) -> (b: bool)
    requires
        k + needle@.len() <= hay@.len(),
    ensures
        b == occurs_at(hay@, needle@, k as int),
{
    let hay_len = hay.len();
    let mut j: usize = 0;
    while j < needle.len()
        invariant
            hay_len == hay@.len(),
            k + needle@.len() <= hay@.len(),
            j <= needle@.len(),
            forall|t: int| 0 <= t < j ==> hay@[k + t] == needle@[t],
        decreases needle@.len() - j,
    {
        if hay[k + j] != needle[j] {
            assert(hay@.subrange(k as int, k + needle@.len())[j as int] != needle@[j as int]);
            return false;
        }
        j = j + 1;
    }
    assert(hay@.subrange(k as int, k + needle@.len()) =~= needle@);
    true
}

fn find_from(hay: &Vec<char>, needle: &Vec<char>, from: usize) -> (r: Option<usize>)
    requires
        from <= hay@.len(),
        needle@.len() > 0,
    ensures
        r matches Some(k) ==> first_match_from(hay@, needle@, from as int) == Some(k as int),
        r is None ==> first_match_from(hay@, needle@, from as int) is None,
{
    if needle.len() > hay.len() {
        return None;
    }
    let last = hay.len() - needle.len();
    let mut k = from;
    while k <= last
        invariant
            last + needle@.len() == hay@.len(),
            hay@.len() <= usize::MAX,
            needle@.len() > 0,
            from <= k <= hay@.len(),
            first_match_from(hay@, needle@, from as int) == first_match_from(
                hay@,
                needle@,
                k as int,
            ),
        decreases hay@.len() - k,
    {
        if occurs_at_exec(hay, needle, k) {
            return Some(k);
        }
        k = k + 1;
    }
    None
}

/// Byte offset of every character of `v`, and of its end.
fn byte_offsets(v: &Vec<char>, total: usize) -> (offs: Vec<usize>)
    requires
        total == byte_len(v@),
    ensures
        offs@.len() == v@.len() + 1,
        forall|i: int| 0 <= i <= v@.len() ==> #[trigger] offs@[i] == byte_offset(v@, i),
{
    let mut offs: Vec<usize> = Vec::new();
    let mut acc: usize = 0;
    let mut i: usize = 0;
    assert(v@.take(0) =~= Seq::<char>::empty());
    assert(v@.take(v@.len() as int) =~= v@);
    while i < v.len()
        invariant
            i <= v@.len(),
            total == byte_len(v@),
            byte_offset(v@, v@.len() as int) == byte_len(v@),
            acc == byte_offset(v@, i as int),
            offs@.len() == i,
            forall|j: int| 0 <= j < i ==> #[trigger] offs@[j] == byte_offset(v@, j),
        decreases v@.len() - i,
    {
        offs.push(acc);
        proof {
            lemma_byte_offset_step(v@, i as int);
            lemma_byte_offset_mono(v@, i + 1, v@.len() as int);
        }
        acc = acc + utf8_width(v[i]);
        i = i + 1;
    }
    offs.push(acc);
    offs
}

/// The byte ranges of the matches of `query` in `text`.
pub fn find_matches(text: &str, query: &str, case_sensitive: bool, whole_word: bool) -> (r: Vec<
    core::ops::Range<usize>,
>)
    ensures
        are_matches(r@, text@, query@, case_sensitive, whole_word),
{
    let mut matches: Vec<core::ops::Range<usize>> = Vec::new();
    let q = chars_of(query);
    if q.len() == 0 {
        return matches;
    }
    let t = chars_of(text);
    let hay = fold_chars(&t, case_sensitive);
    let needle = fold_chars(&q, case_sensitive);
    let total = str_byte_len(text);
    let offs = byte_offsets(&t, total);
    let ghost all = char_matches(text@, query@, case_sensitive, whole_word);
    let ghost found: Seq<(int, int)> = Seq::empty();
    let mut search_from: usize = 0;
    while search_from <= hay.len()
        invariant
            hay@ == fold_case(text@, case_sensitive),
            needle@ == fold_case(query@, case_sensitive),
            needle@.len() == query@.len(),
            needle@.len() > 0,
            t@ == text@,
            hay@.len() == text@.len(),
            offs@.len() == t@.len() + 1,
            forall|i: int| 0 <= i <= t@.len() ==> #[trigger] offs@[i] == byte_offset(t@, i),
            all == char_matches(text@, query@, case_sensitive, whole_word),
            all == found + scan_matches(hay@, needle@, text@, whole_word, search_from as int),
            matches@.len() == found.len(),
            forall|i: int|
                0 <= i < found.len() ==> (#[trigger] matches@[i]).start == byte_offset(
                    text@,
                    found[i].0,
                ) && matches@[i].end == byte_offset(text@, found[i].1),
        ensures
            all == found,
        decreases hay@.len() + 1 - search_from,
    {
        match find_from(&hay, &needle, search_from) {
            None => {
                assert(scan_matches(hay@, needle@, text@, whole_word, search_from as int)
                    =~= Seq::empty());
                break ;
            },
            Some(start) => {
                proof {
                    lemma_first_match_from(hay@, needle@, search_from as int);
                }
                let end = start + needle.len();
                let ghost rest = scan_matches(hay@, needle@, text@, whole_word, end as int);
                if !whole_word || is_whole_word_at(&t, start, end) {
                    matches.push(offs[start]..offs[end]);
                    proof {
                        let item = (start as int, end as int);
                        assert(found.push(item) + rest =~= found + (seq![item] + rest));
                        found = found.push(item);
                    }
                }
                search_from = end;
            },
        }
    }
    assert(found =~= all);
    matches
}

/// The number of characters before byte offset `byte_idx` of `text`.
pub fn char_index(text: &str, byte_idx: usize) -> (k: usize)
    requires
        exists|j: int| 0 <= j <= text@.len() && byte_offset(text@, j) == byte_idx,
    ensures
        k <= text@.len(),
        byte_offset(text@, k as int) == byte_idx,
{
    let v = chars_of(text);
    let total = str_byte_len(text);
    let mut k: usize = 0;
    let mut acc: usize = 0;
    assert(text@.take(0) =~= Seq::<char>::empty());
    assert(text@.take(text@.len() as int) =~= text@);
    while acc < byte_idx
        invariant
            v@ == text@,
            total == byte_len(text@),
            byte_offset(text@, text@.len() as int) == byte_len(text@),
            k <= v@.len(),
            acc == byte_offset(text@, k as int),
            exists|j: int| k <= j <= text@.len() && byte_offset(text@, j) == byte_idx,
        decreases v@.len() - k,
    {
        proof {
            let j = choose|j: int| k <= j <= text@.len() && byte_offset(text@, j) == byte_idx;
            if j == k {
                assert(false);
            }
            lemma_byte_offset_step(text@, k as int);
            lemma_byte_offset_mono(text@, k + 1, text@.len() as int);
            if j < k + 1 {
                assert(false);
            }
            if k + 1 <= text@.len() {
                lemma_byte_offset_mono(text@, k as int, j);
            }
        }
        acc = acc + utf8_width(v[k]);
        k = k + 1;
    }
    proof {
        let j = choose|j: int| k <= j <= text@.len() && byte_offset(text@, j) == byte_idx;
        if j > k {
            lemma_byte_offset_mono(text@, k as int, j);
        }
    }
    k
}

/// Whether the bytes `start..end` of `text` stand as a whole word: the
/// character before `start` and the one at `end`, where there are such, are
/// not word characters. Both offsets must fall on character boundaries.
pub fn is_whole_word_match(text: &str, start: usize, end: usize) -> (b: bool)
    requires
        start <= end,
        exists|j: int| 0 <= j <= text@.len() && byte_offset(text@, j) == start,
        exists|j: int| 0 <= j <= text@.len() && byte_offset(text@, j) == end,
    ensures
        b == whole_word_bytes(text@, (core::ops::Range { start, end })),
{
    let v = chars_of(text);
    let a = char_index(text, start);
    let e = char_index(text, end);
    proof {
        if e < a {
            lemma_byte_offset_mono(text@, e as int, a as int);
        }
    }
    let b = is_whole_word_at(&v, a, e);
    proof {
        let r = core::ops::Range { start, end };
        if whole_word_bytes(text@, r) {
            let (x, y) = choose|x: int, y: int|
                0 <= x <= y <= text@.len() && #[trigger] byte_offset(text@, x) == r.start
                    && #[trigger] byte_offset(text@, y) == r.end && whole_word_at(text@, x, y);
            lemma_byte_offset_injective(text@, x, a as int);
            lemma_byte_offset_injective(text@, y, e as int);
        }
        if b {
            assert(byte_offset(text@, a as int) == r.start);
            assert(byte_offset(text@, e as int) == r.end);
        }
    }
    b
}

/// Every match a scan reports is an occurrence of the needle, standing as a
/// whole word when whole words are asked for.
pub proof fn lemma_scan_sound(hay: Seq<char>, needle: Seq<char>, text: Seq<char>, whole_word: bool, from: int)
    requires
        needle.len() > 0,
    ensures
        ({
            let ms = scan_matches(hay, needle, text, whole_word, from);
            forall|i: int|
                0 <= i < ms.len() ==> occurs_at(hay, needle, (#[trigger] ms[i]).0) && ms[i].1
                    == ms[i].0 + needle.len() && (whole_word ==> whole_word_at(
                    text,
                    ms[i].0,
                    ms[i].1,
                ))
        }),
    decreases hay.len() + 1 - from,
{
    lemma_first_match_from(hay, needle, from);
    match first_match_from(hay, needle, from) {
        Some(k) => {
            let m = needle.len() as int;
            lemma_scan_sound(hay, needle, text, whole_word, k + m);
            let rest = scan_matches(hay, needle, text, whole_word, k + m);
            let ms = scan_matches(hay, needle, text, whole_word, from);
            if !whole_word || whole_word_at(text, k, k + m) {
                assert forall|i: int| 0 <= i < ms.len() implies occurs_at(hay, needle, (#[trigger] ms[i]).0)
                    && ms[i].1 == ms[i].0 + m && (whole_word ==> whole_word_at(text, ms[i].0, ms[i].1)) by {
                    if i > 0 {
                        assert(ms[i] == rest[i - 1]);
                    }
                }
            }
        },
        None => {},
    }
}

/// Every reported match spells the query (up to ASCII case unless the
/// search is case sensitive) and, for whole-word searches, stands alone.
pub proof fn lemma_matches_sound(text: Seq<char>, query: Seq<char>, case_sensitive: bool, whole_word: bool)
    ensures
        ({
            let ms = char_matches(text, query, case_sensitive, whole_word);
            forall|i: int|
                0 <= i < ms.len() ==> occurs_at(
                    fold_case(text, case_sensitive),
                    fold_case(query, case_sensitive),
                    (#[trigger] ms[i]).0,
                ) && ms[i].1 == ms[i].0 + query.len() && (whole_word ==> whole_word_at(
                    text,
                    ms[i].0,
                    ms[i].1,
                ))
        }),
{
    if query.len() > 0 {
        lemma_scan_sound(
            fold_case(text, case_sensitive),
            fold_case(query, case_sensitive),
            text,
            whole_word,
            0,
        );
    }
}

/// A case-sensitive search reports only matches that spell the query exactly.
pub proof fn lemma_case_sensitive_exact(text: Seq<char>, query: Seq<char>, whole_word: bool, i: int)
    requires
        0 <= i < char_matches(text, query, true, whole_word).len(),
    ensures
        ({
            let m = char_matches(text, query, true, whole_word)[i];
            text.subrange(m.0, m.1) == query
        }),
{
    lemma_matches_sound(text, query, true, whole_word);
}

/// Where the first occurrence from `from` is: no occurrence lies before it,
/// and when there is none, no occurrence lies at or after `from`.
proof fn lemma_first_match_least(hay: Seq<char>, needle: Seq<char>, from: int)
    requires
        from >= 0,
    ensures
        match first_match_from(hay, needle, from) {
            Some(j) => forall|k: int| from <= k < j ==> !occurs_at(hay, needle, k),
            None => forall|k: int| from <= k ==> !occurs_at(hay, needle, k),
        },
    decreases hay.len() + 1 - from,
{
    if !(from + needle.len() > hay.len()) && !occurs_at(hay, needle, from) {
        lemma_first_match_least(hay, needle, from + 1);
    }
}

/// Position `k` lies inside one of the ranges `ms`.
pub open spec fn covered(ms: Seq<(int, int)>, k: int) -> bool {
    exists|i: int| 0 <= i < ms.len() && (#[trigger] ms[i]).0 <= k < ms[i].1
}

/// No occurrence is skipped by a scan that keeps every occurrence: each one
/// starts inside a reported match.
proof fn lemma_scan_complete(hay: Seq<char>, needle: Seq<char>, text: Seq<char>, from: int)
    requires
        needle.len() > 0,
        from >= 0,
    ensures
        forall|k: int|
            from <= k && #[trigger] occurs_at(hay, needle, k) ==> covered(
                scan_matches(hay, needle, text, false, from),
                k,
            ),
    decreases hay.len() + 1 - from,
{
    lemma_first_match_least(hay, needle, from);
    lemma_first_match_from(hay, needle, from);
    match first_match_from(hay, needle, from) {
        Some(j) => {
            let m = needle.len() as int;
            lemma_scan_complete(hay, needle, text, j + m);
            let rest = scan_matches(hay, needle, text, false, j + m);
            let ms = scan_matches(hay, needle, text, false, from);
            assert(ms == seq![(j, j + m)] + rest);
            assert forall|k: int| from <= k && #[trigger] occurs_at(hay, needle, k) implies covered(ms, k) by {
                if k < j + m {
                    assert(ms[0] == (j, j + m));
                } else {
                    assert(covered(rest, k));
                    let i2 = choose|i2: int| 0 <= i2 < rest.len() && (#[trigger] rest[i2]).0 <= k < rest[i2].1;
                    assert(ms[i2 + 1] == rest[i2]);
                }
            }
        },
        None => {},
    }
}

/// A plain, case-sensitive search misses no occurrence of a non-empty query:
/// each occurrence starts inside one of the reported matches (which are the
/// leftmost, non-overlapping occurrences, in order).
pub proof fn lemma_plain_search_complete(text: Seq<char>, query: Seq<char>)
    requires
        query.len() > 0,
    ensures
        forall|k: int|
            #[trigger] occurs_at(text, query, k) ==> covered(char_matches(text, query, true, false), k),
{
    lemma_scan_complete(text, query, text, 0);
    assert forall|k: int| #[trigger] occurs_at(text, query, k) implies 0 <= k by {}
}

proof fn lemma_scan_whole_word_filters(hay: Seq<char>, needle: Seq<char>, text: Seq<char>, from: int)
    requires
        needle.len() > 0,
    ensures
        scan_matches(hay, needle, text, true, from) == scan_matches(hay, needle, text, false, from).filter(
            |m: (int, int)| whole_word_at(text, m.0, m.1),
        ),
    decreases hay.len() + 1 - from,
{
    let p = |m: (int, int)| whole_word_at(text, m.0, m.1);
    lemma_first_match_from(hay, needle, from);
    match first_match_from(hay, needle, from) {
        Some(j) => {
            let m = needle.len() as int;
            lemma_scan_whole_word_filters(hay, needle, text, j + m);
            let rest = scan_matches(hay, needle, text, false, j + m);
            rest.lemma_filter_prepend((j, j + m), p);
            assert(scan_matches(hay, needle, text, false, from) == seq![(j, j + m)] + rest);
            if p((j, j + m)) {
                assert(scan_matches(hay, needle, text, true, from) =~= seq![(j, j + m)] + rest.filter(p));
            } else {
                assert(Seq::<(int, int)>::empty() + rest.filter(p) =~= rest.filter(p));
            }
        },
        None => {
            reveal_with_fuel(Seq::filter, 1);
        },
    }
}

/// A whole-word search reports exactly the matches of the plain search that
/// stand as whole words.
pub proof fn lemma_whole_word_is_filtered(text: Seq<char>, query: Seq<char>, case_sensitive: bool)
    ensures
        char_matches(text, query, case_sensitive, true) == char_matches(
            text,
            query,
            case_sensitive,
            false,
        ).filter(|m: (int, int)| whole_word_at(text, m.0, m.1)),
{
    if query.len() > 0 {
        lemma_scan_whole_word_filters(
            fold_case(text, case_sensitive),
            fold_case(query, case_sensitive),
            text,
            0,
        );
    } else {
        reveal_with_fuel(Seq::filter, 1);
    }
}

/// The byte range `r` of `text` spans characters that stand as a whole word,
/// as `is_whole_word_match` tests it on byte offsets.
pub open spec fn whole_word_bytes(text: Seq<char>, r: core::ops::Range<usize>) -> bool {
    exists|a: int, b: int|
        0 <= a <= b <= text.len() && #[trigger] byte_offset(text, a) == r.start && #[trigger] byte_offset(
            text,
            b,
        ) == r.end && whole_word_at(text, a, b)
}

/// Byte range `r` is the character range `m` of `text`.
pub open spec fn bytes_of(text: Seq<char>, r: core::ops::Range<usize>, m: (int, int)) -> bool {
    r.start == byte_offset(text, m.0) && r.end == byte_offset(text, m.1)
}

proof fn lemma_filter_related(
    text: Seq<char>,
    rs: Seq<core::ops::Range<usize>>,
    ms: Seq<(int, int)>,
)
    requires
        rs.len() == ms.len(),
        forall|i: int| 0 <= i < ms.len() ==> bytes_of(text, #[trigger] rs[i], ms[i]),
        forall|i: int|
            0 <= i < ms.len() ==> whole_word_bytes(text, #[trigger] rs[i]) == whole_word_at(
                text,
                ms[i].0,
                ms[i].1,
            ),
    ensures
        ({
            let fr = rs.filter(|r: core::ops::Range<usize>| whole_word_bytes(text, r));
            let fm = ms.filter(|m: (int, int)| whole_word_at(text, m.0, m.1));
            &&& fr.len() == fm.len()
            &&& forall|i: int| 0 <= i < fr.len() ==> bytes_of(text, #[trigger] fr[i], fm[i])
        }),
    decreases ms.len(),
{
    let pb = |r: core::ops::Range<usize>| whole_word_bytes(text, r);
    let pc = |m: (int, int)| whole_word_at(text, m.0, m.1);
    if ms.len() > 0 {
        let rd = rs.drop_last();
        let md = ms.drop_last();
        assert forall|i: int| 0 <= i < md.len() implies bytes_of(text, #[trigger] rd[i], md[i]) by {
            assert(rd[i] == rs[i] && md[i] == ms[i]);
        }
        assert forall|i: int| 0 <= i < md.len() implies whole_word_bytes(text, #[trigger] rd[i])
            == whole_word_at(text, md[i].0, md[i].1) by {
            assert(rd[i] == rs[i] && md[i] == ms[i]);
        }
        lemma_filter_related(text, rd, md);
        let last = ms.len() - 1;
        assert(pb(rs[last]) == pc(ms[last]));
        let fr = rs.filter(pb);
        let fm = ms.filter(pc);
        reveal_with_fuel(Seq::filter, 1);
        assert(fr == if pb(rs.last()) { rd.filter(pb).push(rs.last()) } else { rd.filter(pb) });
        assert(fm == if pc(ms.last()) { md.filter(pc).push(ms.last()) } else { md.filter(pc) });
        assert forall|i: int| 0 <= i < fr.len() implies bytes_of(text, #[trigger] fr[i], fm[i]) by {
            if i < rd.filter(pb).len() {
                assert(fr[i] == rd.filter(pb)[i]);
                assert(fm[i] == md.filter(pc)[i]);
            }
        }
    } else {
        reveal_with_fuel(Seq::filter, 1);
    }
}

/// At the level of byte ranges, as `find_matches` reports them: a whole-word
/// search gives exactly the ranges of the plain search that stand as whole
/// words.
pub proof fn lemma_whole_word_bytes_filtered(
    text: Seq<char>,
    query: Seq<char>,
    case_sensitive: bool,
    plain: Seq<core::ops::Range<usize>>,
    whole: Seq<core::ops::Range<usize>>,
)
    requires
        are_matches(plain, text, query, case_sensitive, false),
        are_matches(whole, text, query, case_sensitive, true),
    ensures
        whole == plain.filter(|r: core::ops::Range<usize>| whole_word_bytes(text, r)),
{
    let mp = char_matches(text, query, case_sensitive, false);
    let pb = |r: core::ops::Range<usize>| whole_word_bytes(text, r);
    lemma_whole_word_is_filtered(text, query, case_sensitive);
    lemma_matches_sound(text, query, case_sensitive, false);
    assert forall|i: int| 0 <= i < mp.len() implies whole_word_bytes(text, #[trigger] plain[i])
        == whole_word_at(text, mp[i].0, mp[i].1) by {
        let m = mp[i];
        assert(occurs_at(fold_case(text, case_sensitive), fold_case(query, case_sensitive), m.0));
        assert(fold_case(text, case_sensitive).len() == text.len());
        assert(0 <= m.0 <= m.1 <= text.len());
        if whole_word_at(text, m.0, m.1) {
            assert(byte_offset(text, m.0) == plain[i].start);
            assert(byte_offset(text, m.1) == plain[i].end);
        }
        if whole_word_bytes(text, plain[i]) {
            let (a, b) = choose|a: int, b: int|
                0 <= a <= b <= text.len() && #[trigger] byte_offset(text, a) == plain[i].start
                    && #[trigger] byte_offset(text, b) == plain[i].end && whole_word_at(text, a, b);
            lemma_byte_offset_injective(text, a, m.0);
            lemma_byte_offset_injective(text, b, m.1);
        }
    }
    assert forall|i: int| 0 <= i < mp.len() implies bytes_of(text, #[trigger] plain[i], mp[i]) by {}
    lemma_filter_related(text, plain, mp);
    let fr = plain.filter(pb);
    assert(whole.len() == fr.len());
    assert forall|i: int| 0 <= i < whole.len() implies whole[i] == fr[i] by {
        assert(bytes_of(text, fr[i], char_matches(text, query, case_sensitive, true)[i]));
    }
    assert(whole =~= fr);
}

/// A scan depends on the text it tests whole words against only through
/// which of its characters are word characters.
proof fn lemma_scan_same_words(
    hay: Seq<char>,
    needle: Seq<char>,
    t1: Seq<char>,
    t2: Seq<char>,
    whole_word: bool,
    from: int,
)
    requires
        needle.len() > 0,
        t1.len() == t2.len(),
        hay.len() == t1.len(),
        forall|i: int| 0 <= i < t1.len() ==> word_char(#[trigger] t1[i]) == word_char(t2[i]),
    ensures
        scan_matches(hay, needle, t1, whole_word, from) == scan_matches(hay, needle, t2, whole_word, from),
    decreases hay.len() + 1 - from,
{
    lemma_first_match_from(hay, needle, from);
    match first_match_from(hay, needle, from) {
        Some(j) => {
            let m = needle.len() as int;
            lemma_scan_same_words(hay, needle, t1, t2, whole_word, j + m);
            if j > 0 && j - 1 < t1.len() {
                assert(word_char(t1[j - 1]) == word_char(t2[j - 1]));
            }
            if j + m < t1.len() {
                assert(word_char(t1[j + m]) == word_char(t2[j + m]));
            }
            assert(whole_word_at(t1, j, j + m) == whole_word_at(t2, j, j + m));
        },
        None => {},
    }
}

proof fn lemma_byte_len_folded(s: Seq<char>)
    ensures
        byte_len(fold_case(s, false)) == byte_len(s),
    decreases s.len(),
{
    if s.len() > 0 {
        lemma_byte_len_folded(s.drop_last());
        assert(fold_case(s, false).drop_last() =~= fold_case(s.drop_last(), false));
    }
}

/// Ignoring case is searching the ASCII-lowercased text for the
/// ASCII-lowercased query: the same matches, at the same character and byte
/// positions (lowering ASCII letters keeps every character's width).
pub proof fn lemma_ignore_case_is_folded(text: Seq<char>, query: Seq<char>, whole_word: bool)
    ensures
        char_matches(text, query, false, whole_word) == char_matches(
            fold_case(text, false),
            fold_case(query, false),
            true,
            whole_word,
        ),
        forall|k: int|
            0 <= k <= text.len() ==> #[trigger] byte_offset(text, k) == byte_offset(
                fold_case(text, false),
                k,
            ),
        forall|r: Seq<core::ops::Range<usize>>|
            #[trigger] are_matches(r, text, query, false, whole_word) == are_matches(
                r,
                fold_case(text, false),
                fold_case(query, false),
                true,
                whole_word,
            ),
{
    let ft = fold_case(text, false);
    if query.len() > 0 {
        assert forall|i: int| 0 <= i < text.len() implies word_char(#[trigger] text[i]) == word_char(ft[i]) by {
            assert(ft[i] == ascii_lower(text[i]));
        }
        lemma_scan_same_words(ft, fold_case(query, false), text, ft, whole_word, 0);
    }
    assert forall|k: int| 0 <= k <= text.len() implies #[trigger] byte_offset(text, k) == byte_offset(ft, k) by {
        assert(fold_case(text.take(k), false) =~= ft.take(k));
        lemma_byte_len_folded(text.take(k));
    }
    let m = char_matches(text, query, false, whole_word);
    lemma_matches_sound(text, query, false, whole_word);
    assert forall|i: int| 0 <= i < m.len() implies byte_offset(text, (#[trigger] m[i]).0) == byte_offset(
        ft,
        m[i].0,
    ) && byte_offset(text, m[i].1) == byte_offset(ft, m[i].1) by {
        assert(occurs_at(ft, fold_case(query, false), m[i].0));
    }
    assert(fold_case(query, false).len() == query.len());
}

/// Ignoring case, a query and its ASCII-uppercased form find the same matches.
pub proof fn lemma_ignore_case_upper_query(text: Seq<char>, query: Seq<char>, whole_word: bool)
    ensures
        char_matches(text, query, false, whole_word) == char_matches(
            text,
            query.map_values(|c: char| ascii_upper(c)),
            false,
            whole_word,
        ),
        forall|r: Seq<core::ops::Range<usize>>|
            #[trigger] are_matches(r, text, query, false, whole_word) == are_matches(
                r,
                text,
                query.map_values(|c: char| ascii_upper(c)),
                false,
                whole_word,
            ),
{
    let up = query.map_values(|c: char| ascii_upper(c));
    assert(fold_case(up, false) =~= fold_case(query, false));
}

} // verus!
