use vstd::prelude::*;
use crate::text::{class_fn, trim_space, TrimClass};

verus! {

/// The digit character for `d` (`0`–`9`, then upper-case `A`–`F`).
pub open spec fn digit_char(d: nat) -> char {
    if d < 10 {
        (d + 48) as char
    } else {
        (d + 55) as char
    }
}

/// The digits of `n` in base `radix`, most significant first, without
/// leading zeros (`0` is the single digit `0`).
pub open spec fn digits(n: nat, radix: nat) -> Seq<char>
    decreases n,
{
    if radix < 2 || n < radix {
        seq![digit_char(n)]
    } else {
        proof {
            vstd::arithmetic::div_mod::lemma_div_decreases(n as int, radix as int);
        }
        digits(n / radix, radix) + seq![digit_char(n % radix)]
    }
}

/// `s` padded on the left with `fill` up to `width` characters.
pub open spec fn pad_left(s: Seq<char>, width: nat, fill: char) -> Seq<char> {
    if s.len() >= width {
        s
    } else {
        Seq::new((width - s.len()) as nat, |i: int| fill) + s
    }
}

fn digit_to_char(d: u64) -> (c: char)
    requires
        d < 16,
    ensures
        c == digit_char(d as nat),
{
    if d < 10 {
        ((d as u8) + 48) as char
    } else {
        ((d as u8) + 55) as char
    }
}

/// Appends the digits of `n` in base `radix`.
fn push_digits(out: &mut Vec<char>, n: u64, radix: u64)
    requires
        2 <= radix <= 16,
    ensures
        final(out)@ == old(out)@ + digits(n as nat, radix as nat),
    decreases n,
{
    if n < radix {
        out.push(digit_to_char(n));
    } else {
        proof {
            vstd::arithmetic::div_mod::lemma_div_decreases(n as int, radix as int);
        }
        push_digits(out, n / radix, radix);
        out.push(digit_to_char(n % radix));
    }
}

/// Appends `count` copies of `fill`.
fn push_fill(out: &mut Vec<char>, fill: char, count: usize)
    ensures
        final(out)@ == old(out)@ + Seq::new(count as nat, |i: int| fill),
{
    let mut i: usize = 0;
    while i < count
        invariant
            i <= count,
            out@ == old(out)@ + Seq::new(i as nat, |k: int| fill),
        decreases count - i,
    {
        out.push(fill);
        assert(Seq::new((i + 1) as nat, |k: int| fill) =~= Seq::new(i as nat, |k: int| fill).push(fill));
        i = i + 1;
    }
}

/// Appends `n` in base `radix`, padded on the left with `fill` to `width`.
pub fn push_padded(out: &mut Vec<char>, n: u64, radix: u64, width: usize, fill: char)
    requires
        2 <= radix <= 16,
    ensures
        final(out)@ == old(out)@ + pad_left(digits(n as nat, radix as nat), width as nat, fill),
{
    let mut ds: Vec<char> = Vec::new();
    push_digits(&mut ds, n, radix);
    assert(ds@ =~= digits(n as nat, radix as nat));
    if ds.len() < width {
        push_fill(out, fill, width - ds.len());
    }
    let mut i: usize = 0;
    let ghost mid = out@;
    while i < ds.len()
        invariant
            i <= ds@.len(),
            out@ == mid + ds@.take(i as int),
        decreases ds@.len() - i,
    {
        out.push(ds[i]);
        assert(ds@.take(i + 1) =~= ds@.take(i as int).push(ds@[i as int]));
        i = i + 1;
    }
    assert(ds@.take(ds@.len() as int) =~= ds@);
    assert(out@ =~= old(out)@ + pad_left(digits(n as nat, radix as nat), width as nat, fill));
}

/// The value of digit character `c` in base `radix`, as `char::to_digit`.
pub open spec fn digit_value(c: char, radix: nat) -> Option<nat> {
    let d: int = if '0' <= c && c <= '9' {
        c as int - 48
    } else if 'a' <= c && c <= 'z' {
        c as int - 87
    } else if 'A' <= c && c <= 'Z' {
        c as int - 55
    } else {
        radix as int
    };
    if d < radix {
        Some(d as nat)
    } else {
        None
    }
}

pub open spec fn all_digits(s: Seq<char>, radix: nat) -> bool {
    forall|i: int| 0 <= i < s.len() ==> (#[trigger] digit_value(s[i], radix)) is Some
}

/// The number that the digits `s` spell in base `radix`.
pub open spec fn digits_value(s: Seq<char>, radix: nat) -> nat
    decreases s.len(),
{
    if s.len() == 0 {
        0
    } else {
        digits_value(s.drop_last(), radix) * radix + digit_value(s.last(), radix)->0
    }
}

/// What `from_str_radix` gives for an unsigned type whose largest value is
/// `max`: an optional leading `+`, then at least one digit, and a value that fits.
pub open spec fn parse_unsigned(s: Seq<char>, radix: nat, max: nat) -> Option<nat> {
    let body = if s.len() > 0 && s[0] == '+' {
        s.drop_first()
    } else {
        s
    };
    if body.len() == 0 || !all_digits(body, radix) || digits_value(body, radix) > max {
        None
    } else {
        Some(digits_value(body, radix))
    }
}

/// What `str::parse::<i16>` gives: an optional sign, then at least one
/// decimal digit, and a value in `-32768..=32767`.
pub open spec fn parse_i16(s: Seq<char>) -> Option<int> {
    if s.len() > 0 && s[0] == '-' {
        let body = s.drop_first();
        if body.len() == 0 || !all_digits(body, 10) || digits_value(body, 10) > 32768 {
            None
        } else {
            Some(-(digits_value(body, 10) as int))
        }
    } else {
        match parse_unsigned(s, 10, 32767) {
            Some(v) => Some(v as int),
            None => None,
        }
    }
}

proof fn lemma_digits_value_grows(s: Seq<char>, radix: nat, k: int)
    requires
        radix >= 1,
        0 <= k <= s.len(),
        all_digits(s, radix),
    ensures
        digits_value(s.take(k), radix) <= digits_value(s, radix),
    decreases s.len() - k,
{
    if k < s.len() {
        assert(s.drop_last().take(k) =~= s.take(k));
        assert(all_digits(s.drop_last(), radix)) by {
            assert forall|i: int| 0 <= i < s.drop_last().len() implies (#[trigger] digit_value(
                s.drop_last()[i],
                radix,
            )) is Some by {
                assert(s.drop_last()[i] == s[i]);
            }
        }
        lemma_digits_value_grows(s.drop_last(), radix, k);
        let a = digits_value(s.drop_last(), radix);
        assert(a <= a * radix) by (nonlinear_arith)
            requires
                radix >= 1,
        ;
    } else {
        assert(s.take(k) =~= s);
    }
}

fn char_digit(c: char, radix: u64) -> (d: Option<u64>)
    requires
        2 <= radix <= 36,
    ensures
        d matches Some(x) ==> digit_value(c, radix as nat) == Some(x as nat),
        d is None ==> digit_value(c, radix as nat) is None,
{
    let v: u64 = if '0' <= c && c <= '9' {
        (c as u32 - 48) as u64
    } else if 'a' <= c && c <= 'z' {
        (c as u32 - 87) as u64
    } else if 'A' <= c && c <= 'Z' {
        (c as u32 - 55) as u64
    } else {
        radix
    };
    if v < radix {
        Some(v)
    } else {
        None
    }
}

/// The value of the digits `v[lo..hi]` in base `radix`, when they are all
/// digits and the value is at most `max`.
fn digits_in_range(v: &Vec<char>, lo: usize, hi: usize, radix: u64, max: u64) -> (r: Option<u64>)
    requires
        lo <= hi <= v@.len(),
        2 <= radix <= 16,
        max >= 16,
    ensures
        ({
            let s = v@.subrange(lo as int, hi as int);
            &&& r matches Some(x) ==> all_digits(s, radix as nat) && x == digits_value(
                s,
                radix as nat,
            ) && x <= max
            &&& r is None ==> !all_digits(s, radix as nat) || digits_value(s, radix as nat) > max
        }),
{
    let ghost s = v@.subrange(lo as int, hi as int);
    let mut acc: u64 = 0;
    let mut i = lo;
    assert(s.take(0) =~= Seq::<char>::empty());
    while i < hi
        invariant
            lo <= i <= hi <= v@.len(),
            2 <= radix <= 16,
            max >= 16,
            s == v@.subrange(lo as int, hi as int),
            all_digits(s.take(i - lo), radix as nat),
            acc == digits_value(s.take(i - lo), radix as nat),
            acc <= max,
        decreases hi - i,
    {
        assert(s.take(i + 1 - lo).drop_last() =~= s.take(i - lo));
        assert(s.take(i + 1 - lo).last() == v@[i as int]);
        match char_digit(v[i], radix) {
            None => {
                assert(!all_digits(s, radix as nat)) by {
                    assert(s[i - lo] == v@[i as int]);
                }
                return None;
            },
            Some(d) => {
                if acc > (max - d) / radix {
                    proof {
                        assert(acc * radix + d > max) by (nonlinear_arith)
                            requires
                                acc > (max - d) / (radix as int),
                                radix > 0,
                                d <= max,
                        ;
                        assert(all_digits(s.take(i + 1 - lo), radix as nat));
                        if all_digits(s, radix as nat) {
                            lemma_digits_value_grows(s, radix as nat, i + 1 - lo);
                        }
                    }
                    return None;
                }
                proof {
                    assert(acc * radix + d <= max) by (nonlinear_arith)
                        requires
                            acc <= (max - d) / (radix as int),
                            radix > 0,
                            d <= max,
                    ;
                    assert(all_digits(s.take(i + 1 - lo), radix as nat));
                }
                acc = acc * radix + d;
            },
        }
        i = i + 1;
    }
    assert(s.take(hi - lo) =~= s);
    Some(acc)
}

/// `from_str_radix` for an unsigned type whose largest value is `max`, on `v[lo..hi]`.
pub fn parse_unsigned_range(v: &Vec<char>, lo: usize, hi: usize, radix: u64, max: u64) -> (r: Option<u64>)
    requires
        lo <= hi <= v@.len(),
        2 <= radix <= 16,
        max >= 16,
    ensures
        r matches Some(x) ==> parse_unsigned(v@.subrange(lo as int, hi as int), radix as nat, max as nat) == Some(x as nat),
        r is None ==> parse_unsigned(v@.subrange(lo as int, hi as int), radix as nat, max as nat) is None,
{
    let ghost s = v@.subrange(lo as int, hi as int);
    let start = if lo < hi && v[lo] == '+' {
        lo + 1
    } else {
        lo
    };
    assert(v@.subrange(start as int, hi as int) =~= (if s.len() > 0 && s[0] == '+' {
        s.drop_first()
    } else {
        s
    }));
    if start == hi {
        return None;
    }
    digits_in_range(v, start, hi, radix, max)
}

/// `str::parse::<i16>` on `v[lo..hi]`.
pub fn parse_i16_range(v: &Vec<char>, lo: usize, hi: usize) -> (r: Option<i16>)
    requires
        lo <= hi <= v@.len(),
    ensures
        r matches Some(x) ==> parse_i16(v@.subrange(lo as int, hi as int)) == Some(x as int),
        r is None ==> parse_i16(v@.subrange(lo as int, hi as int)) is None,
{
    let ghost s = v@.subrange(lo as int, hi as int);
    if lo < hi && v[lo] == '-' {
        assert(v@.subrange(lo + 1, hi as int) =~= s.drop_first());
        if lo + 1 == hi {
            return None;
        }
        match digits_in_range(v, lo + 1, hi, 10, 32768) {
            Some(x) => {
                if x == 32768 {
                    Some(-32768i16)
                } else {
                    Some(-(x as i16))
                }
            },
            None => None,
        }
    } else {
        match parse_unsigned_range(v, lo, hi, 10, 32767) {
            Some(x) => Some(x as i16),
            None => None,
        }
    }
}

} // verus!

verus! {

proof fn lemma_digit_char_value(d: nat, radix: nat)
    requires
        d < radix <= 16,
    ensures
        digit_value(digit_char(d), radix) == Some(d),
        !crate::text::is_unicode_space(digit_char(d)),
        digit_char(d) != '+' && digit_char(d) != '-',
{
}

/// The digits of a number read back as that number.
pub proof fn lemma_digits_read_back(n: nat, radix: nat)
    requires
        2 <= radix <= 16,
    ensures
        digits(n, radix).len() > 0,
        all_digits(digits(n, radix), radix),
        digits_value(digits(n, radix), radix) == n,
        forall|i: int|
            0 <= i < digits(n, radix).len() ==> !crate::text::is_unicode_space(
                #[trigger] digits(n, radix)[i],
            ) && digits(n, radix)[i] != '+' && digits(n, radix)[i] != '-',
    decreases n,
{
    if n < radix {
        lemma_digit_char_value(n, radix);
        assert(seq![digit_char(n)].drop_last() =~= Seq::<char>::empty());
        assert(digits_value(Seq::<char>::empty(), radix) == 0);
        assert(0 * radix == 0);
    } else {
        vstd::arithmetic::div_mod::lemma_div_decreases(n as int, radix as int);
        vstd::arithmetic::div_mod::lemma_fundamental_div_mod(n as int, radix as int);
        let q = n / radix;
        let r = n % radix;
        lemma_digits_read_back(q, radix);
        lemma_digit_char_value(r, radix);
        let s = digits(n, radix);
        assert(s == digits(q, radix) + seq![digit_char(r)]);
        assert(s.drop_last() =~= digits(q, radix));
        assert forall|i: int| 0 <= i < s.len() implies (#[trigger] digit_value(s[i], radix)) is Some by {
            if i < s.len() - 1 {
                assert(s[i] == digits(q, radix)[i]);
            }
        }
        assert forall|i: int| 0 <= i < s.len() implies !crate::text::is_unicode_space(#[trigger] s[i])
            && s[i] != '+' && s[i] != '-' by {
            if i < s.len() - 1 {
                assert(s[i] == digits(q, radix)[i]);
            }
        }
        assert(digits_value(s, radix) == q * radix + r);
    }
}

proof fn lemma_zeros_then_value(z: nat, s: Seq<char>, radix: nat)
    requires
        2 <= radix <= 16,
        all_digits(s, radix),
    ensures
        all_digits(Seq::new(z, |i: int| '0') + s, radix),
        digits_value(Seq::new(z, |i: int| '0') + s, radix) == digits_value(s, radix),
    decreases s.len(), z,
{
    let zs = Seq::new(z, |i: int| '0');
    let t = zs + s;
    assert forall|i: int| 0 <= i < t.len() implies (#[trigger] digit_value(t[i], radix)) is Some by {
        if i >= z {
            assert(t[i] == s[i - z]);
        }
    }
    if s.len() > 0 {
        assert(t.drop_last() =~= zs + s.drop_last());
        assert(all_digits(s.drop_last(), radix)) by {
            assert forall|i: int| 0 <= i < s.drop_last().len() implies (#[trigger] digit_value(
                s.drop_last()[i],
                radix,
            )) is Some by {
                assert(s.drop_last()[i] == s[i]);
            }
        }
        lemma_zeros_then_value(z, s.drop_last(), radix);
        assert(t.last() == s.last());
    } else if z > 0 {
        assert(t =~= zs);
        assert(t.drop_last() =~= Seq::new((z - 1) as nat, |i: int| '0') + s);
        lemma_zeros_then_value((z - 1) as nat, s, radix);
        assert(s =~= Seq::<char>::empty());
        assert(digits_value(Seq::<char>::empty(), radix) == 0);
        assert(t.last() == '0');
        assert(digit_value('0', radix) == Some(0nat));
        assert(0 * radix == 0);
    } else {
        assert(t =~= s);
    }
}

/// Digits padded with zeros, as the memory viewer shows a value, read back
/// as the value in the same base.
pub proof fn lemma_padded_read_back(n: nat, radix: nat, width: nat, max: nat)
    requires
        2 <= radix <= 16,
        n <= max,
    ensures
        parse_unsigned(trim_space(pad_left(digits(n, radix), width, '0')), radix, max) == Some(n),
        trim_space(pad_left(digits(n, radix), width, '0')) == pad_left(digits(n, radix), width, '0'),
        all_digits(pad_left(digits(n, radix), width, '0'), radix),
        pad_left(digits(n, radix), width, '0').len() >= width,
{
    lemma_digits_read_back(n, radix);
    let d = digits(n, radix);
    let s = pad_left(d, width, '0');
    let z: nat = if d.len() >= width { 0 } else { (width - d.len()) as nat };
    assert(s =~= Seq::new(z, |i: int| '0') + d);
    lemma_zeros_then_value(z, d, radix);
    assert(s.len() > 0);
    assert(!crate::text::is_unicode_space(s[0])) by {
        if z == 0 {
            assert(s[0] == d[0]);
        }
    }
    assert(!crate::text::is_unicode_space(s.last())) by {
        assert(s.last() == d[d.len() - 1]);
    }
    assert(s[0] != '+') by {
        if z == 0 {
            assert(s[0] == d[0]);
        }
    }
    crate::text::lemma_trim_untouched(s, class_fn(TrimClass::Space));
}


/// `radix` to the power `w`.
pub open spec fn radix_pow(radix: nat, w: nat) -> nat
    decreases w,
{
    if w == 0 {
        1
    } else {
        radix * radix_pow(radix, (w - 1) as nat)
    }
}

/// A number below `radix` to the power `w` has at most `w` digits.
pub proof fn lemma_digits_len(n: nat, radix: nat, w: nat)
    requires
        2 <= radix <= 16,
        w >= 1,
        n < radix_pow(radix, w),
    ensures
        digits(n, radix).len() <= w,
    decreases n,
{
    if n >= radix {
        let p = radix_pow(radix, (w - 1) as nat);
        if w == 1 {
            assert(radix_pow(radix, 0) == 1);
            assert(n < radix * 1);
        }
        assert(w >= 2);
        vstd::arithmetic::div_mod::lemma_fundamental_div_mod(n as int, radix as int);
        assert(n / radix < p) by (nonlinear_arith)
            requires
                n < radix * p,
                radix > 0,
                n == radix * (n / radix) + n % radix,
                0 <= n % radix,
        ;
        vstd::arithmetic::div_mod::lemma_div_decreases(n as int, radix as int);
        lemma_digits_len(n / radix, radix, (w - 1) as nat);
    }
}

/// Digits of a number below `radix` to the power `w`, padded to `w`, are
/// exactly `w` characters long.
pub proof fn lemma_padded_len(n: nat, radix: nat, w: nat)
    requires
        2 <= radix <= 16,
        w >= 1,
        n < radix_pow(radix, w),
    ensures
        pad_left(digits(n, radix), w, '0').len() == w,
{
    lemma_digits_len(n, radix, w);
}

} // verus!
