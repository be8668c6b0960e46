use vstd::prelude::*;
use vstd::utf8::*;

verus! {

/// Number of bytes in the UTF-8 encoding of `c`.
pub open spec fn char_width(c: char) -> nat {
    if (c as u32) < 0x80 {
        1
    } else if (c as u32) < 0x800 {
        2
    } else if (c as u32) < 0x10000 {
        3
    } else {
        4
    }
}

/// Number of bytes in the UTF-8 encoding of `s`.
pub open spec fn byte_len(s: Seq<char>) -> nat
    decreases s.len(),
{
    if s.len() == 0 {
        0
    } else {
        byte_len(s.drop_last()) + char_width(s.last())
    }
}

/// Byte offset of the character at index `i` of `s`.
pub open spec fn byte_offset(s: Seq<char>, i: int) -> nat {
    byte_len(s.take(i))
}

/// A character takes as many UTF-8 bytes as its width says.
pub(crate) proof fn lemma_encode_scalar_len(c: char)
    ensures
        encode_scalar(c as u32).len() == char_width(c),
{
    char_is_scalar(c);
}

/// The UTF-8 encoding of two texts put together is the two encodings put together.
pub(crate) proof fn lemma_encode_utf8_concat(a: Seq<char>, b: Seq<char>)
    ensures
        encode_utf8(a + b) == encode_utf8(a) + encode_utf8(b),
    decreases a.len(),
{
    if a.len() == 0 {
        assert(a + b =~= b);
        assert(encode_utf8(a) =~= Seq::<u8>::empty());
        assert(encode_utf8(a) + encode_utf8(b) =~= encode_utf8(b));
    } else {
        assert((a + b).drop_first() =~= a.drop_first() + b);
        lemma_encode_utf8_concat(a.drop_first(), b);
        assert(encode_utf8(a + b) =~= encode_utf8(a) + encode_utf8(b));
    }
}

/// The byte length of a character sequence is the length of its UTF-8 encoding.
pub proof fn lemma_byte_len_is_encoded_len(s: Seq<char>)
    ensures
        byte_len(s) == encode_utf8(s).len(),
    decreases s.len(),
{
    if s.len() > 0 {
        lemma_byte_len_is_encoded_len(s.drop_last());
        let l = seq![s.last()];
        assert(s.drop_last() + l =~= s);
        lemma_encode_utf8_concat(s.drop_last(), l);
        assert(l.drop_first() =~= Seq::<char>::empty());
        lemma_encode_scalar_len(s.last());
        assert(encode_utf8(l) =~= encode_scalar(s.last() as u32) + encode_utf8(
            Seq::<char>::empty(),
        ));
    }
}

/// Length of `t` in bytes, as `str::len` gives it.
pub fn str_byte_len(t: &str) -> (n: usize)
    ensures
        n == byte_len(t@),
{
    let b = t.as_bytes();
    proof {
        lemma_byte_len_is_encoded_len(t@);
    }
    b.len()
}

/// Appending a character adds its width to the byte length.
pub(crate) proof fn lemma_byte_len_push(s: Seq<char>, c: char)
    ensures
        byte_len(s.push(c)) == byte_len(s) + char_width(c),
{
    assert(s.push(c).drop_last() =~= s);
}

/// The byte offset of the next character is this one's plus its width.
pub(crate) proof fn lemma_byte_offset_step(s: Seq<char>, i: int)
    requires
        0 <= i < s.len(),
    ensures
        byte_offset(s, i + 1) == byte_offset(s, i) + char_width(s[i]),
{
    assert(s.take(i + 1) =~= s.take(i).push(s[i]));
    lemma_byte_len_push(s.take(i), s[i]);
}

/// Byte offsets grow strictly with character positions.
pub(crate) proof fn lemma_byte_offset_mono(s: Seq<char>, i: int, j: int)
    requires
        0 <= i <= j <= s.len(),
    ensures
        byte_offset(s, i) <= byte_offset(s, j),
        i < j ==> byte_offset(s, i) < byte_offset(s, j),
    decreases j - i,
{
    if i < j {
        lemma_byte_offset_step(s, j - 1);
        lemma_byte_offset_mono(s, i, j - 1);
    }
}

/// Width of `c` in UTF-8 bytes, as `char::len_utf8` computes it.
pub fn utf8_width(c: char) -> (w: usize)
    ensures
        w == char_width(c),
{
    let u = c as u32;
    if u < 0x80 {
        1
    } else if u < 0x800 {
        2
    } else if u < 0x10000 {
        3
    } else {
        4
    }
}

/// The characters of `t`, in order.
pub fn chars_of(t: &str) -> (v: Vec<char>)
    ensures
        v@ == t@,
{
    let mut v: Vec<char> = Vec::new();
    for c in it: t.chars()
        invariant
            v@ == it.seq().take(it.index() as int),
    {
        v.push(c);
    }
    v
}

} // verus!

verus! {

/// Unicode `White_Space`, the set that `char::is_whitespace` and `str::trim` use.
pub open spec fn is_unicode_space(c: char) -> bool {
    let u = c as u32;
    ||| 0x09 <= u <= 0x0D
    ||| u == 0x20
    ||| u == 0x85
    ||| u == 0xA0
    ||| u == 0x1680
    ||| 0x2000 <= u <= 0x200A
    ||| u == 0x2028
    ||| u == 0x2029
    ||| u == 0x202F
    ||| u == 0x205F
    ||| u == 0x3000
}

/// `s` with every leading character that satisfies `p` removed.
pub open spec fn trim_start_by(s: Seq<char>, p: spec_fn(char) -> bool) -> Seq<char>
    decreases s.len(),
{
    if s.len() > 0 && p(s[0]) {
        trim_start_by(s.drop_first(), p)
    } else {
        s
    }
}

/// `s` with every trailing character that satisfies `p` removed.
pub open spec fn trim_end_by(s: Seq<char>, p: spec_fn(char) -> bool) -> Seq<char>
    decreases s.len(),
{
    if s.len() > 0 && p(s.last()) {
        trim_end_by(s.drop_last(), p)
    } else {
        s
    }
}

/// `s` with leading and trailing characters that satisfy `p` removed, as `str::trim_matches`.
pub open spec fn trim_by(s: Seq<char>, p: spec_fn(char) -> bool) -> Seq<char> {
    trim_end_by(trim_start_by(s, p), p)
}

/// `s` with leading and trailing white space removed, as `str::trim`.
pub open spec fn trim_space(s: Seq<char>) -> Seq<char> {
    trim_by(s, class_fn(TrimClass::Space))
}

/// The pieces of `s` between occurrences of `sep`, as `str::split` with a `char` pattern.
pub open spec fn split_on(s: Seq<char>, sep: char) -> Seq<Seq<char>>
    decreases s.len(),
{
    if s.len() == 0 {
        seq![Seq::<char>::empty()]
    } else {
        let prev = split_on(s.drop_last(), sep);
        if s.last() == sep {
            prev.push(Seq::<char>::empty())
        } else {
            prev.update(prev.len() - 1, prev.last().push(s.last()))
        }
    }
}

/// Different character positions have different byte offsets.
pub(crate) proof fn lemma_byte_offset_injective(s: Seq<char>, i: int, j: int)
    requires
        0 <= i <= s.len(),
        0 <= j <= s.len(),
        byte_offset(s, i) == byte_offset(s, j),
    ensures
        i == j,
{
    if i < j {
        lemma_byte_offset_mono(s, i, j);
    } else if j < i {
        lemma_byte_offset_mono(s, j, i);
    }
}

/// Splitting yields at least one piece.
pub(crate) proof fn lemma_split_on_nonempty(s: Seq<char>, sep: char)
    ensures
        split_on(s, sep).len() >= 1,
    decreases s.len(),
{
    if s.len() > 0 {
        lemma_split_on_nonempty(s.drop_last(), sep);
    }
}

/// Character classes that the library trims by.
pub enum TrimClass {
    Space,
    Brackets,
    Quote,
    Zero,
}

pub open spec fn in_class_spec(c: char, class: TrimClass) -> bool {
    match class {
        TrimClass::Space => is_unicode_space(c),
        TrimClass::Brackets => c == '[' || c == ']',
        TrimClass::Quote => c == '"',
        TrimClass::Zero => c == '0',
    }
}

pub open spec fn class_fn(class: TrimClass) -> spec_fn(char) -> bool {
    |c: char| in_class_spec(c, class)
}

/// Whether `c` is one of the characters of `class`.
pub fn in_class(c: char, class: &TrimClass) -> (b: bool)
    ensures
        b == in_class_spec(c, *class),
{
    match class {
        TrimClass::Space => {
            let u = c as u32;
            (0x09 <= u && u <= 0x0D) || u == 0x20 || u == 0x85 || u == 0xA0 || u == 0x1680 || (
            0x2000 <= u && u <= 0x200A) || u == 0x2028 || u == 0x2029 || u == 0x202F || u == 0x205F
                || u == 0x3000
        },
        TrimClass::Brackets => c == '[' || c == ']',
        TrimClass::Quote => c == '"',
        TrimClass::Zero => c == '0',
    }
}

/// Narrows `lo..hi` of `v` to the part left after trimming characters of `class`.
pub fn trim_range(v: &Vec<char>, lo: usize, hi: usize, class: TrimClass) -> (r: (usize, usize))
    requires
        lo <= hi <= v@.len(),
    ensures
        lo <= r.0 <= r.1 <= hi,
        v@.subrange(r.0 as int, r.1 as int) == trim_by(
            v@.subrange(lo as int, hi as int),
            class_fn(class),
        ),
{
    let ghost p = class_fn(class);
    let mut a = lo;
    while a < hi && in_class(v[a], &class)
        invariant
            lo <= a <= hi <= v@.len(),
            p == class_fn(class),
            trim_start_by(v@.subrange(lo as int, hi as int), p) == trim_start_by(
                v@.subrange(a as int, hi as int),
                p,
            ),
        decreases hi - a,
    {
        assert(v@.subrange(a as int, hi as int).drop_first() =~= v@.subrange(
            a + 1,
            hi as int,
        ));
        a = a + 1;
    }
    assert(trim_start_by(v@.subrange(a as int, hi as int), p) == v@.subrange(a as int, hi as int));
    let mut b = hi;
    while b > a && in_class(v[b - 1], &class)
        invariant
            lo <= a <= b <= hi <= v@.len(),
            p == class_fn(class),
            trim_by(v@.subrange(lo as int, hi as int), p) == trim_end_by(
                v@.subrange(a as int, b as int),
                p,
            ),
        decreases b - a,
    {
        assert(v@.subrange(a as int, b as int).drop_last() =~= v@.subrange(
            a as int,
            b - 1,
        ));
        b = b - 1;
    }
    (a, b)
}

/// The ranges of the pieces of `v[lo..hi]` between occurrences of `sep`.
pub fn split_ranges(v: &Vec<char>, lo: usize, hi: usize, sep: char) -> (r: Vec<(usize, usize)>)
    requires
        lo <= hi <= v@.len(),
    ensures
        r@.len() == split_on(v@.subrange(lo as int, hi as int), sep).len(),
        forall|j: int|
            0 <= j < r@.len() ==> lo <= (#[trigger] r@[j]).0 <= r@[j].1 <= hi
                && v@.subrange(r@[j].0 as int, r@[j].1 as int) == split_on(
                v@.subrange(lo as int, hi as int),
                sep,
            )[j],
{
    let ghost s = v@.subrange(lo as int, hi as int);
    let mut done: Vec<(usize, usize)> = Vec::new();
    let mut start = lo;
    let mut i = lo;
    while i < hi
        invariant
            lo <= start <= i <= hi <= v@.len(),
            s == v@.subrange(lo as int, hi as int),
            split_on(s.take(i - lo), sep).len() == done@.len() + 1,
            split_on(s.take(i - lo), sep).last() == v@.subrange(start as int, i as int),
            forall|j: int|
                0 <= j < done@.len() ==> lo <= (#[trigger] done@[j]).0 <= done@[j].1 <= hi
                    && v@.subrange(done@[j].0 as int, done@[j].1 as int) == split_on(
                    s.take(i - lo),
                    sep,
                )[j],
        decreases hi - i,
    {
        let ghost prev = split_on(s.take(i - lo), sep);
        assert(s.take(i + 1 - lo).drop_last() =~= s.take(i - lo));
        assert(s.take(i + 1 - lo).last() == v@[i as int]);
        if v[i] == sep {
            done.push((start, i));
            start = i + 1;
            assert(v@.subrange(start as int, i + 1) =~= Seq::<char>::empty());
        } else {
            assert(v@.subrange(start as int, i + 1) =~= v@.subrange(start as int, i as int).push(
                v@[i as int],
            ));
        }
        i = i + 1;
    }
    assert(s.take(hi - lo) =~= s);
    done.push((start, hi));
    done
}

} // verus!

verus! {

/// `String::push` appends one character.
pub assume_specification[ String::push ](s: &mut String, ch: char)
    ensures
        final(s)@ == old(s)@.push(ch),
;

/// A `String` holding the characters of `v`.
pub fn string_from_chars(v: &Vec<char>) -> (s: String)
    ensures
        s@ == v@,
{
    let mut s = String::new();
    let mut i: usize = 0;
    while i < v.len()
        invariant
            i <= v@.len(),
            s@ == v@.take(i as int),
        decreases v@.len() - i,
    {
        s.push(v[i]);
        assert(s@ =~= v@.take(i + 1));
        i = i + 1;
    }
    assert(v@.take(v@.len() as int) =~= v@);
    s
}

/// `t` without its leading and trailing white space, as `str::trim`.
pub fn trim_string(t: &str) -> (r: String)
    ensures
        r@ == trim_space(t@),
{
    let v = chars_of(t);
    let (a, b) = trim_range(&v, 0, v.len(), TrimClass::Space);
    assert(v@.subrange(0, v@.len() as int) =~= t@);
    let mut s = String::new();
    let mut i: usize = a;
    while i < b
        invariant
            a <= i <= b <= v@.len(),
            s@ == v@.subrange(a as int, i as int),
        decreases b - i,
    {
        s.push(v[i]);
        assert(s@ =~= v@.subrange(a as int, i + 1));
        i = i + 1;
    }
    s
}

/// Whether two string slices hold the same characters, as `==` on `str`.
pub(crate) fn str_equal(a: &str, b: &str) -> (r: bool)
    ensures
        r == (a@ == b@),
{
    let va = chars_of(a);
    let vb = chars_of(b);
    if va.len() != vb.len() {
        return false;
    }
    let mut i: usize = 0;
    while i < va.len()
        invariant
            va@ == a@,
            vb@ == b@,
            va@.len() == vb@.len(),
            i <= va@.len(),
            forall|j: int| 0 <= j < i ==> va@[j] == vb@[j],
        decreases va@.len() - i,
    {
        if va[i] != vb[i] {
            return false;
        }
        i = i + 1;
    }
    assert(va@ =~= vb@);
    true
}

} // verus!

verus! {

/// Trimming leaves a text alone when its first and last characters are kept.
pub proof fn lemma_trim_untouched(s: Seq<char>, p: spec_fn(char) -> bool)
    requires
        s.len() > 0 ==> !p(s[0]) && !p(s.last()),
    ensures
        trim_by(s, p) == s,
{
}

} // verus!
