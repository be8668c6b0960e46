use vstd::prelude::*;
use crate::numtext::{digit_value, digits, lemma_padded_len, radix_pow, lemma_digits_read_back, lemma_padded_read_back, pad_left, parse_i16, parse_unsigned, parse_i16_range, parse_unsigned_range, push_padded};
use crate::text::{class_fn, lemma_trim_untouched};
use crate::text::{chars_of, str_equal, string_from_chars, trim_range, trim_space, TrimClass};

verus! {

/// `value` in upper-case hexadecimal, at least four digits.
pub open spec fn hex4(value: nat) -> Seq<char> {
    pad_left(digits(value, 16), 4, '0')
}

/// The address text: `0x` and at least four upper-case hexadecimal digits.
pub open spec fn address_text(addr: nat) -> Seq<char> {
    seq!['0', 'x'] + hex4(addr)
}

/// `value` read as a two's complement 16-bit number.
pub open spec fn as_signed(value: u16) -> int {
    if value < 0x8000 {
        value as int
    } else {
        value - 0x10000
    }
}

/// Decimal text of a signed number.
pub open spec fn signed_text(v: int) -> Seq<char> {
    if v < 0 {
        seq!['-'] + digits((-v) as nat, 10)
    } else {
        digits(v as nat, 10)
    }
}

/// The field `name` is the one being edited, so it is left as typed.
pub open spec fn skips(skip_field: Option<&str>, name: Seq<char>) -> bool {
    skip_field matches Some(f) && f@ == name
}

/// `s` with every leading `0x` removed, as `str::trim_start_matches("0x")`.
pub open spec fn strip_hex_prefix(s: Seq<char>) -> Seq<char>
    decreases s.len(),
{
    if s.len() >= 2 && s[0] == '0' && s[1] == 'x' {
        strip_hex_prefix(s.skip(2))
    } else {
        s
    }
}

/// What a memory cell shows as text: its low byte when that is printable
/// ASCII, otherwise a dot.
pub open spec fn cell_char(word: u16) -> char {
    let b = word % 256;
    if 0x20 <= b <= 0x7E {
        (b as u8) as char
    } else {
        '.'
    }
}

/// The character shown for a memory cell, as [`cell_char`] says.
pub fn display_char(word: u16) -> (c: char)
    ensures
        c == cell_char(word),
{
    let b = (word % 256) as u8;
    if 0x20 <= b && b <= 0x7E {
        b as char
    } else {
        '.'
    }
}

/// The memory viewer: the selected cell and its value in every base.
pub struct MemEditor {
    pub hovered_index: Option<usize>,
    pub selected_index: Option<usize>,
    pub last_selected_index: Option<usize>,
    pub address: String,
    pub edit_hex: String,
    pub edit_octal: String,
    pub edit_signed: String,
    pub edit_unsigned: String,
    pub edit_binary: String,
}

impl Default for MemEditor {
    /// Cell 0 selected, nothing hovered, empty fields.
    fn default() -> (m: Self)
        ensures
            m.hovered_index is None,
            m.selected_index == Some(0usize),
            m.last_selected_index is None,
            m.address@ == Seq::<char>::empty(),
            m.edit_hex@ == Seq::<char>::empty(),
            m.edit_octal@ == Seq::<char>::empty(),
            m.edit_signed@ == Seq::<char>::empty(),
            m.edit_unsigned@ == Seq::<char>::empty(),
            m.edit_binary@ == Seq::<char>::empty(),
    {
        MemEditor {
            hovered_index: None,
            selected_index: Some(0),
            last_selected_index: None,
            address: String::new(),
            edit_hex: String::new(),
            edit_octal: String::new(),
            edit_signed: String::new(),
            edit_unsigned: String::new(),
            edit_binary: String::new(),
        }
    }
}

fn padded_string(n: u64, radix: u64, width: usize) -> (s: String)
    requires
        2 <= radix <= 16,
    ensures
        s@ == pad_left(digits(n as nat, radix as nat), width as nat, '0'),
{
    let mut v: Vec<char> = Vec::new();
    push_padded(&mut v, n, radix, width, '0');
    assert(v@ =~= pad_left(digits(n as nat, radix as nat), width as nat, '0'));
    string_from_chars(&v)
}

fn signed_string(value: u16) -> (s: String)
    ensures
        s@ == signed_text(as_signed(value)),
{
    let mut v: Vec<char> = Vec::new();
    if value < 0x8000 {
        push_padded(&mut v, value as u64, 10, 0, '0');
        assert(v@ =~= digits(value as nat, 10));
    } else {
        v.push('-');
        push_padded(&mut v, (0x10000 - value as u32) as u64, 10, 0, '0');
        assert(v@ =~= seq!['-'] + digits((0x10000 - value) as nat, 10));
    }
    string_from_chars(&v)
}

fn skip_is(skip_field: Option<&str>, name: &str) -> (b: bool)
    ensures
        b == skips(skip_field, name@),
{
    match skip_field {
        Some(f) => str_equal(f, name),
        None => false,
    }
}

/// Which field an edit came from.
pub open spec fn field_name(n: int) -> Seq<char> {
    if n == 0 {
        "hex"@
    } else if n == 1 {
        "octal"@
    } else if n == 2 {
        "signed"@
    } else if n == 3 {
        "unsigned"@
    } else {
        "binary"@
    }
}

/// `new` is `old` showing cell `addr` holding `value`: the address, and the
/// value in hexadecimal, octal, signed and unsigned decimal and binary,
/// except in the field named by `skip_field`; the selection is kept.
pub open spec fn shows_cell(old: MemEditor, new: MemEditor, addr: nat, value: u16, skip_field: Option<&str>) -> bool {
    &&& new.address@ == address_text(addr)
    &&& new.edit_hex@ == if skips(skip_field, "hex"@) {
        old.edit_hex@
    } else {
        hex4(value as nat)
    }
    &&& new.edit_octal@ == if skips(skip_field, "octal"@) {
        old.edit_octal@
    } else {
        pad_left(digits(value as nat, 8), 6, '0')
    }
    &&& new.edit_signed@ == if skips(skip_field, "signed"@) {
        old.edit_signed@
    } else {
        signed_text(as_signed(value))
    }
    &&& new.edit_unsigned@ == if skips(skip_field, "unsigned"@) {
        old.edit_unsigned@
    } else {
        digits(value as nat, 10)
    }
    &&& new.edit_binary@ == if skips(skip_field, "binary"@) {
        old.edit_binary@
    } else {
        pad_left(digits(value as nat, 2), 16, '0')
    }
    &&& new.hovered_index == old.hovered_index
    &&& new.selected_index == old.selected_index
    &&& new.last_selected_index == old.last_selected_index
}

/// The value typed into field `field`: the field's text, trimmed, read in
/// the field's base (a negative signed value wraps to 16 bits).
pub open spec fn edited_value(m: MemEditor, field: Seq<char>) -> Option<u16> {
    let read = |t: Seq<char>, radix: nat|
        match parse_unsigned(trim_space(t), radix, 65535) {
            Some(v) => Some(v as u16),
            None => None,
        };
    if field == "hex"@ {
        read(m.edit_hex@, 16)
    } else if field == "octal"@ {
        read(m.edit_octal@, 8)
    } else if field == "signed"@ {
        match parse_i16(trim_space(m.edit_signed@)) {
            Some(v) => Some((if v < 0 { v + 65536 } else { v }) as u16),
            None => None,
        }
    } else if field == "unsigned"@ {
        read(m.edit_unsigned@, 10)
    } else if field == "binary"@ {
        read(m.edit_binary@, 2)
    } else {
        None
    }
}

fn parse_trimmed(t: &String, radix: u64) -> (r: Option<u16>)
    requires
        2 <= radix <= 16,
    ensures
        r == (match parse_unsigned(trim_space(t@), radix as nat, 65535) {
            Some(v) => Some(v as u16),
            None => None::<u16>,
        }),
{
    let v = chars_of(t.as_str());
    let (a, b) = trim_range(&v, 0, v.len(), TrimClass::Space);
    assert(v@.subrange(0, v@.len() as int) =~= t@);
    match parse_unsigned_range(&v, a, b, radix, 65535) {
        Some(x) => Some(x as u16),
        None => None,
    }
}

impl MemEditor {
    /// Shows cell `addr` holding `value`: the address, and the value in
    /// hexadecimal, octal, signed and unsigned decimal and binary, except in
    /// the field named by `skip_field`, which the user is typing in.
    pub fn update_fields(&mut self, addr: usize, value: u16, skip_field: Option<&str>)
        ensures
            shows_cell(*old(self), *final(self), addr as nat, value, skip_field),
    {
        let mut a: Vec<char> = Vec::new();
        a.push('0');
        a.push('x');
        push_padded(&mut a, addr as u64, 16, 4, '0');
        assert(a@ =~= address_text(addr as nat));
        self.address = string_from_chars(&a);
        if !skip_is(skip_field, "hex") {
            self.edit_hex = padded_string(value as u64, 16, 4);
        }
        if !skip_is(skip_field, "octal") {
            self.edit_octal = padded_string(value as u64, 8, 6);
        }
        if !skip_is(skip_field, "signed") {
            self.edit_signed = signed_string(value);
        }
        if !skip_is(skip_field, "unsigned") {
            self.edit_unsigned = padded_string(value as u64, 10, 0);
            assert(pad_left(digits(value as nat, 10), 0, '0') == digits(value as nat, 10));
        }
        if !skip_is(skip_field, "binary") {
            self.edit_binary = padded_string(value as u64, 2, 16);
        }
    }

    /// Writing the memory out is not offered yet: nothing changes.
    pub fn export(&mut self)
        ensures
            *final(self) == *old(self),
    {
    }

    /// Reading memory in is not offered yet: nothing changes.
    pub fn import(&mut self)
        ensures
            *final(self) == *old(self),
    {
    }

    /// When the selection changed since it was last shown, shows the selected
    /// cell of `ram` (if it is inside) and remembers the selection as shown.
    pub fn sync_selection(&mut self, ram: &[u16])
        ensures
            final(self).selected_index == old(self).selected_index,
            final(self).hovered_index == old(self).hovered_index,
            final(self).last_selected_index == old(self).selected_index,
            old(self).selected_index != old(self).last_selected_index && (
            old(self).selected_index matches Some(addr) && addr < ram@.len()) ==> ({
                let addr = old(self).selected_index->0;
                &&& final(self).address@ == address_text(addr as nat)
                &&& final(self).edit_hex@ == hex4(ram@[addr as int] as nat)
                &&& final(self).edit_octal@ == pad_left(digits(ram@[addr as int] as nat, 8), 6, '0')
                &&& final(self).edit_signed@ == signed_text(as_signed(ram@[addr as int]))
                &&& final(self).edit_unsigned@ == digits(ram@[addr as int] as nat, 10)
                &&& final(self).edit_binary@ == pad_left(digits(ram@[addr as int] as nat, 2), 16, '0')
            }),
            !(old(self).selected_index != old(self).last_selected_index && (
            old(self).selected_index matches Some(addr) && addr < ram@.len())) ==> {
                &&& final(self).address@ == old(self).address@
                &&& final(self).edit_hex@ == old(self).edit_hex@
                &&& final(self).edit_octal@ == old(self).edit_octal@
                &&& final(self).edit_signed@ == old(self).edit_signed@
                &&& final(self).edit_unsigned@ == old(self).edit_unsigned@
                &&& final(self).edit_binary@ == old(self).edit_binary@
            },
    {
        if self.selected_index != self.last_selected_index {
            if let Some(addr) = self.selected_index {
                if addr < ram.len() {
                    let value = ram[addr];
                    self.update_fields(addr, value, None);
                }
            }
            self.last_selected_index = self.selected_index;
        }
    }

    /// Enter or leaving the address field: the address typed (leading `0x`
    /// removed, read in base 16) becomes the selection when it is a cell of a
    /// memory of `ram_len` cells, and the address text is normalised; the
    /// fields are shown again on the next sync.
    pub fn commit_address(&mut self, ram_len: usize)
        ensures
            ({
                let typed = parse_unsigned(strip_hex_prefix(old(self).address@), 16, 65535);
                if typed matches Some(n) && n < ram_len {
                    &&& final(self).selected_index == Some(typed->0 as usize)
                    &&& final(self).last_selected_index is None
                    &&& final(self).address@ == address_text(typed->0)
                    &&& final(self).hovered_index == old(self).hovered_index
                    &&& final(self).edit_hex@ == old(self).edit_hex@
                    &&& final(self).edit_octal@ == old(self).edit_octal@
                    &&& final(self).edit_signed@ == old(self).edit_signed@
                    &&& final(self).edit_unsigned@ == old(self).edit_unsigned@
                    &&& final(self).edit_binary@ == old(self).edit_binary@
                } else {
                    *final(self) == *old(self)
                }
            }),
    {
        let v = chars_of(self.address.as_str());
        let mut i: usize = 0;
        assert(v@.subrange(0, v@.len() as int) =~= v@);
        while i < v.len() && v.len() - i >= 2 && v[i] == '0' && v[i + 1] == 'x'
            invariant
                i <= v@.len(),
                v@ == old(self).address@,
                *self == *old(self),
                strip_hex_prefix(v@) == strip_hex_prefix(v@.subrange(i as int, v@.len() as int)),
            decreases v@.len() - i,
        {
            assert(v@.subrange(i as int, v@.len() as int).skip(2) =~= v@.subrange(i + 2, v@.len() as int));
            i = i + 2;
        }
        assert(strip_hex_prefix(v@.subrange(i as int, v@.len() as int)) == v@.subrange(i as int, v@.len() as int));
        match parse_unsigned_range(&v, i, v.len(), 16, 65535) {
            Some(n) => {
                if (n as usize) < ram_len {
                    self.selected_index = Some(n as usize);
                    self.last_selected_index = None;
                    let mut a: Vec<char> = Vec::new();
                    a.push('0');
                    a.push('x');
                    push_padded(&mut a, n, 16, 4, '0');
                    assert(a@ =~= address_text(n as nat));
                    self.address = string_from_chars(&a);
                }
            },
            None => {},
        }
    }

    /// A field was edited while cell `addr` is selected: when its text reads
    /// as a value, every other field shows that value and the value is
    /// returned, to be stored in the cell; otherwise nothing changes.
    pub fn commit_field(&mut self, addr: usize, field: &str) -> (stored: Option<u16>)
        ensures
            stored == edited_value(*old(self), field@),
            stored matches Some(v) ==> shows_cell(*old(self), *final(self), addr as nat, v, Some(field)),
            stored is None ==> *final(self) == *old(self),
    {
        let parsed: Option<u16> = if str_equal(field, "hex") {
            parse_trimmed(&self.edit_hex, 16)
        } else if str_equal(field, "octal") {
            parse_trimmed(&self.edit_octal, 8)
        } else if str_equal(field, "signed") {
            let v = chars_of(self.edit_signed.as_str());
            let (a, b) = trim_range(&v, 0, v.len(), TrimClass::Space);
            assert(v@.subrange(0, v@.len() as int) =~= self.edit_signed@);
            match parse_i16_range(&v, a, b) {
                Some(x) => Some(
                    if x < 0 {
                        (x as i32 + 65536) as u16
                    } else {
                        x as u16
                    },
                ),
                None => None,
            }
        } else if str_equal(field, "unsigned") {
            parse_trimmed(&self.edit_unsigned, 10)
        } else if str_equal(field, "binary") {
            parse_trimmed(&self.edit_binary, 2)
        } else {
            None
        };
        match parsed {
            Some(val) => {
                self.update_fields(addr, val, Some(field));
                Some(val)
            },
            None => None,
        }
    }
}

/// Every field shows the value so that it reads back as that same value:
/// after a cell is shown, committing any field stores the value shown.
pub proof fn lemma_fields_read_back(old: MemEditor, new: MemEditor, addr: nat, v: u16)
    requires
        shows_cell(old, new, addr, v, None),
    ensures
        edited_value(new, "hex"@) == Some(v),
        edited_value(new, "octal"@) == Some(v),
        edited_value(new, "signed"@) == Some(v),
        edited_value(new, "unsigned"@) == Some(v),
        edited_value(new, "binary"@) == Some(v),
{
    reveal_strlit("hex");
    reveal_strlit("octal");
    reveal_strlit("signed");
    reveal_strlit("unsigned");
    reveal_strlit("binary");
    lemma_padded_read_back(v as nat, 16, 4, 65535);
    lemma_padded_read_back(v as nat, 8, 6, 65535);
    lemma_padded_read_back(v as nat, 2, 16, 65535);
    lemma_padded_read_back(v as nat, 10, 0, 65535);
    assert(pad_left(digits(v as nat, 10), 0, '0') == digits(v as nat, 10));
    if v < 0x8000 {
        lemma_padded_read_back(v as nat, 10, 0, 32767);
        lemma_digits_read_back(v as nat, 10);
        assert(signed_text(as_signed(v)) == digits(v as nat, 10));
    } else {
        let m: nat = (0x10000 - v) as nat;
        lemma_digits_read_back(m, 10);
        let t = seq!['-'] + digits(m, 10);
        assert(t.drop_first() =~= digits(m, 10));
        assert(t.last() == digits(m, 10).last());
        lemma_trim_untouched(t, class_fn(TrimClass::Space));
        assert(parse_i16(t) == Some(-(m as int)));
    }
}

/// Each field that a shown cell fills reads back as the cell's value, with
/// no trimming needed, and has its fixed width: four hexadecimal digits, six
/// octal digits, sixteen binary digits; the signed field reads back as the
/// value taken as a 16-bit two's complement number. The address reads
/// `0x` and four hexadecimal digits, and the field being edited is left as
/// typed.
pub proof fn lemma_update_fields_read_back(old: MemEditor, new: MemEditor, addr: nat, v: u16, skip_field: Option<&str>)
    requires
        shows_cell(old, new, addr, v, skip_field),
    ensures
        new.address@ == address_text(addr),
        skips(skip_field, "hex"@) ==> new.edit_hex@ == old.edit_hex@,
        !skips(skip_field, "hex"@) ==> parse_unsigned(new.edit_hex@, 16, 65535) == Some(v as nat)
            && new.edit_hex@.len() == 4,
        skips(skip_field, "octal"@) ==> new.edit_octal@ == old.edit_octal@,
        !skips(skip_field, "octal"@) ==> parse_unsigned(new.edit_octal@, 8, 65535) == Some(v as nat)
            && new.edit_octal@.len() == 6,
        skips(skip_field, "signed"@) ==> new.edit_signed@ == old.edit_signed@,
        !skips(skip_field, "signed"@) ==> parse_i16(new.edit_signed@) == Some(as_signed(v)),
        skips(skip_field, "unsigned"@) ==> new.edit_unsigned@ == old.edit_unsigned@,
        !skips(skip_field, "unsigned"@) ==> parse_unsigned(new.edit_unsigned@, 10, 65535) == Some(
            v as nat,
        ),
        skips(skip_field, "binary"@) ==> new.edit_binary@ == old.edit_binary@,
        !skips(skip_field, "binary"@) ==> parse_unsigned(new.edit_binary@, 2, 65535) == Some(v as nat)
            && new.edit_binary@.len() == 16,
{
    let n = v as nat;
    lemma_padded_read_back(n, 16, 4, 65535);
    lemma_padded_read_back(n, 8, 6, 65535);
    lemma_padded_read_back(n, 2, 16, 65535);
    lemma_padded_read_back(n, 10, 0, 65535);
    reveal_with_fuel(radix_pow, 17);
    lemma_padded_len(n, 16, 4);
    lemma_padded_len(n, 8, 6);
    lemma_padded_len(n, 2, 16);
    assert(pad_left(digits(n, 10), 0, '0') == digits(n, 10));
    if v < 0x8000 {
        lemma_padded_read_back(n, 10, 0, 32767);
        lemma_digits_read_back(n, 10);
        assert(signed_text(as_signed(v)) == digits(n, 10));
        assert(parse_i16(digits(n, 10)) == Some(n as int));
    } else {
        let m: nat = (0x10000 - v) as nat;
        lemma_digits_read_back(m, 10);
        let t = seq!['-'] + digits(m, 10);
        assert(t.drop_first() =~= digits(m, 10));
        assert(signed_text(as_signed(v)) == t);
        assert(parse_i16(t) == Some(-(m as int)));
    }
}

/// The signed field of a cell holding `v` carries a minus sign exactly when
/// `v` is negative as a 16-bit two's complement number; a non-negative value
/// is shown as its plain decimal digits (zero as `0`), and the text reads
/// back as the signed value.
pub proof fn lemma_signed_field_sign(v: u16)
    ensures
        signed_text(as_signed(v)).len() > 0,
        (signed_text(as_signed(v))[0] == '-') <==> v >= 0x8000,
        v < 0x8000 ==> signed_text(as_signed(v)) == digits(v as nat, 10),
        parse_i16(signed_text(as_signed(v))) == Some(as_signed(v)),
{
    if v < 0x8000 {
        lemma_padded_read_back(v as nat, 10, 0, 32767);
        lemma_digits_read_back(v as nat, 10);
        assert(pad_left(digits(v as nat, 10), 0, '0') == digits(v as nat, 10));
        assert(signed_text(as_signed(v)) == digits(v as nat, 10));
        assert(digits(v as nat, 10)[0] != '-');
    } else {
        let m: nat = (0x10000 - v) as nat;
        lemma_digits_read_back(m, 10);
        let t = seq!['-'] + digits(m, 10);
        assert(t.drop_first() =~= digits(m, 10));
        assert(signed_text(as_signed(v)) == t);
        assert(parse_i16(t) == Some(-(m as int)));
    }
}

/// The address shown for a cell reads back as that cell: committing the
/// address field as it is shown selects the same cell again.
pub proof fn lemma_address_read_back(addr: nat)
    requires
        addr <= 65535,
    ensures
        parse_unsigned(strip_hex_prefix(address_text(addr)), 16, 65535) == Some(addr),
{
    lemma_padded_read_back(addr, 16, 4, 65535);
    let h = hex4(addr);
    let s = address_text(addr);
    assert(s.skip(2) =~= h);
    assert(digit_value(h[1], 16) is Some);
    assert(h[1] != 'x');
    assert(strip_hex_prefix(h) == h);
    assert(strip_hex_prefix(s) == strip_hex_prefix(h));
}

} // verus!
