use vstd::prelude::*;
use vstd::arithmetic::div_mod::lemma_fundamental_div_mod;
use crate::text::{chars_of, class_fn, split_on, split_ranges, trim_by, trim_range, trim_space, TrimClass};


verus! {

/// The mathematical content of a [`Charmap`].
pub struct CharmapView {
    pub char_width: nat,
    pub char_height: nat,
    /// RGBA palette, four bytes per colour.
    pub palette: Seq<u8>,
    /// RGBA atlas: one column of glyphs per colour, one row of glyphs per
    /// character (a blank charmap from [`Charmap::new`] holds a zeroed buffer
    /// of one byte per glyph row here instead; see there).
    pub pixels: Seq<u8>,
    /// Glyph rows, one byte per glyph row, most significant bit leftmost (a
    /// blank charmap from [`Charmap::new`] holds a zeroed buffer of atlas size
    /// here instead; see there).
    pub bytes: Seq<u8>,
    pub needs_reload: bool,
    pub needs_reload_editor: bool,
}

/// Character glyphs (one byte per glyph row) together with the palette they
/// are drawn in and the RGBA atlas that results.
#[derive(Clone)]
pub struct Charmap {
    char_width: usize,
    char_height: usize,
    color_palette: Vec<u8>,
    pixels: Vec<u8>,
    bytes: Vec<u8>,
    pub needs_reload: bool,
    pub needs_reload_editor: bool,
}

impl View for Charmap {
    type V = CharmapView;

    closed spec fn view(&self) -> CharmapView {
        CharmapView {
            char_width: self.char_width as nat,
            char_height: self.char_height as nat,
            palette: self.color_palette@,
            pixels: self.pixels@,
            bytes: self.bytes@,
            needs_reload: self.needs_reload,
            needs_reload_editor: self.needs_reload_editor,
        }
    }
}

/// The mask that selects glyph column `off` (0 is the leftmost, most significant bit).
pub open spec fn column_mask(off: int) -> u8 {
    0x80u8 >> (off as u8)
}

/// Whether glyph column `off` is set in the glyph row `row`.
pub open spec fn glyph_bit(row: u8, off: int) -> bool {
    row & column_mask(off) != 0u8
}

/// How palette entry `ci` is drawn: white as it is, every other colour with
/// its red, green and blue channels inverted; alpha is kept.
pub open spec fn shown_rgba(palette: Seq<u8>, ci: int) -> Seq<u8> {
    let r = palette[4 * ci];
    let g = palette[4 * ci + 1];
    let b = palette[4 * ci + 2];
    let a = palette[4 * ci + 3];
    if r == 255 && g == 255 && b == 255 {
        seq![r, g, b, a]
    } else {
        seq![(255 - r) as u8, (255 - g) as u8, (255 - b) as u8, a]
    }
}

/// Opaque black, the colour of an unset glyph pixel.
pub open spec fn black() -> Seq<u8> {
    seq![0u8, 0u8, 0u8, 255u8]
}

pub open spec fn colors_in(palette: Seq<u8>) -> nat {
    palette.len() / 4
}

pub open spec fn chars_in(bytes: Seq<u8>, ch: nat) -> nat {
    bytes.len() / ch
}

/// Width of the atlas in pixels.
pub open spec fn atlas_width(cw: nat, palette: Seq<u8>) -> nat {
    cw * colors_in(palette)
}

/// Height of the atlas in pixels.
pub open spec fn atlas_height(ch: nat, bytes: Seq<u8>) -> nat {
    ch * chars_in(bytes, ch)
}

/// Colour of atlas pixel `p` (row-major, `sw` pixels per row): column `x`
/// belongs to colour `x / cw` and glyph column `x % cw`, row `y` is glyph row `y`.
pub open spec fn rgba_at(cw: nat, palette: Seq<u8>, bytes: Seq<u8>, sw: nat, p: int) -> Seq<u8> {
    let x = p % (sw as int);
    let y = p / (sw as int);
    if glyph_bit(bytes[y], x % (cw as int)) {
        shown_rgba(palette, x / (cw as int))
    } else {
        black()
    }
}

/// The RGBA atlas of glyph rows `bytes` drawn in every colour of `palette`.
pub open spec fn rendered(cw: nat, ch: nat, palette: Seq<u8>, bytes: Seq<u8>) -> Seq<u8> {
    let sw = atlas_width(cw, palette);
    let sh = atlas_height(ch, bytes);
    Seq::new(sw * sh * 4, |i: int| rgba_at(cw, palette, bytes, sw, i / 4)[i % 4])
}

/// When the atlas of these dimensions can be drawn: glyph rows are not empty,
/// glyphs are at most eight columns wide whenever anything is drawn, and the
/// atlas size fits in memory arithmetic.
pub open spec fn render_ok(cw: nat, ch: nat, palette_len: nat, bytes_len: nat) -> bool {
    let nc = palette_len / 4;
    &&& ch > 0
    &&& (cw <= 8 || nc == 0 || bytes_len / ch == 0)
    &&& cw * nc <= usize::MAX
    &&& cw * nc * (ch * (bytes_len / ch)) * 4 <= usize::MAX
}

/// The glyph rows after toggling column `min(x, cw - 1)` of row `y`; rows
/// past the end are left alone.
pub open spec fn toggled(bytes: Seq<u8>, cw: nat, x: nat, y: nat) -> Seq<u8> {
    if y < bytes.len() {
        let off = if x < cw - 1 { x as int } else { cw - 1 };
        bytes.update(y as int, bytes[y as int] ^ column_mask(off))
    } else {
        bytes
    }
}

pub open spec fn is_hex_digit(c: char) -> bool {
    ('0' <= c && c <= '9') || ('a' <= c && c <= 'f') || ('A' <= c && c <= 'F')
}

pub open spec fn hex_value(c: char) -> int {
    if '0' <= c && c <= '9' {
        c as int - '0' as int
    } else if 'a' <= c && c <= 'f' {
        c as int - 'a' as int + 10
    } else {
        c as int - 'A' as int + 10
    }
}

/// Whether the two characters `a b` read as a byte in base 16, as
/// `u8::from_str_radix` reads them (a leading `+` is allowed).
pub open spec fn channel_ok(a: char, b: char) -> bool {
    (is_hex_digit(a) && is_hex_digit(b)) || (a == '+' && is_hex_digit(b))
}

pub open spec fn channel_value(a: char, b: char) -> u8 {
    if a == '+' {
        hex_value(b) as u8
    } else {
        (16 * hex_value(a) + hex_value(b)) as u8
    }
}

/// The colour text of one palette entry: the entry with white space and then
/// double quotes trimmed off.
pub open spec fn palette_entry(piece: Seq<char>) -> Seq<char> {
    trim_by(trim_space(piece), class_fn(TrimClass::Quote))
}

/// An entry reads as `#RRGGBB`: any one-byte character, then three channels.
pub open spec fn entry_ok(e: Seq<char>) -> bool {
    &&& e.len() >= 7
    &&& (e[0] as u32) < 0x80
    &&& channel_ok(e[1], e[2])
    &&& channel_ok(e[3], e[4])
    &&& channel_ok(e[5], e[6])
}

/// The opaque RGBA colour of an entry.
pub open spec fn entry_rgba(e: Seq<char>) -> Seq<u8> {
    seq![channel_value(e[1], e[2]), channel_value(e[3], e[4]), channel_value(e[5], e[6]), 255u8]
}

/// The comma-separated pieces of a palette list: outer white space and then
/// brackets trimmed off, then split at every comma.
pub open spec fn palette_pieces(json: Seq<char>) -> Seq<Seq<char>> {
    split_on(trim_by(trim_space(json), class_fn(TrimClass::Brackets)), ',')
}

/// Every piece of the palette list is a well-formed entry.
pub open spec fn palette_ok(json: Seq<char>) -> bool {
    forall|i: int|
        0 <= i < palette_pieces(json).len() ==> entry_ok(
            #[trigger] palette_entry(palette_pieces(json)[i]),
        )
}

pub open spec fn palette_bytes(pieces: Seq<Seq<char>>) -> Seq<u8>
    decreases pieces.len(),
{
    if pieces.len() == 0 {
        Seq::empty()
    } else {
        palette_bytes(pieces.drop_last()) + entry_rgba(palette_entry(pieces.last()))
    }
}

/// The RGBA palette that a palette list such as `["#000000", "#FF00AA"]` describes.
pub open spec fn parsed_palette(json: Seq<char>) -> Seq<u8> {
    palette_bytes(palette_pieces(json))
}

proof fn lemma_palette_bytes_len(pieces: Seq<Seq<char>>)
    ensures
        palette_bytes(pieces).len() == 4 * pieces.len(),
    decreases pieces.len(),
{
    if pieces.len() > 0 {
        lemma_palette_bytes_len(pieces.drop_last());
    }
}

fn hex_digit_value(c: char) -> (v: u8)
    requires
        is_hex_digit(c),
    ensures
        v == hex_value(c),
{
    if '0' <= c && c <= '9' {
        (c as u32 - '0' as u32) as u8
    } else if 'a' <= c && c <= 'f' {
        (c as u32 - 'a' as u32 + 10) as u8
    } else {
        (c as u32 - 'A' as u32 + 10) as u8
    }
}

fn channel(a: char, b: char) -> (v: u8)
    requires
        channel_ok(a, b),
    ensures
        v == channel_value(a, b),
{
    if a == '+' {
        hex_digit_value(b)
    } else {
        hex_digit_value(a) * 16 + hex_digit_value(b)
    }
}

fn is_hex_digit_exec(c: char) -> (b: bool)
    ensures
        b == is_hex_digit(c),
{
    ('0' <= c && c <= '9') || ('a' <= c && c <= 'f') || ('A' <= c && c <= 'F')
}

fn channel_ok_exec(a: char, b: char) -> (ok: bool)
    ensures
        ok == channel_ok(a, b),
{
    (is_hex_digit_exec(a) && is_hex_digit_exec(b)) || (a == '+' && is_hex_digit_exec(b))
}

/// Whether a palette list reads, every entry being `#RRGGBB`.
pub fn palette_is_valid(json_str: &str) -> (ok: bool)
    ensures
        ok == palette_ok(json_str@),
{
    let v = chars_of(json_str);
    let (a, b) = trim_range(&v, 0, v.len(), TrimClass::Space);
    assert(v@.subrange(0, v@.len() as int) =~= json_str@);
    let (a, b) = trim_range(&v, a, b, TrimClass::Brackets);
    let ranges = split_ranges(&v, a, b, ',');
    let ghost pieces = palette_pieces(json_str@);
    let mut j: usize = 0;
    while j < ranges.len()
        invariant
            j <= ranges@.len(),
            pieces == palette_pieces(json_str@),
            ranges@.len() == pieces.len(),
            forall|k: int|
                0 <= k < ranges@.len() ==> (#[trigger] ranges@[k]).0 <= ranges@[k].1 <= v@.len()
                    && v@.subrange(ranges@[k].0 as int, ranges@[k].1 as int) == pieces[k],
            forall|k: int| 0 <= k < j ==> entry_ok(#[trigger] palette_entry(pieces[k])),
        decreases ranges@.len() - j,
    {
        let (s, e) = ranges[j];
        let (s, e) = trim_range(&v, s, e, TrimClass::Space);
        let (s, e) = trim_range(&v, s, e, TrimClass::Quote);
        assert(v@.subrange(s as int, e as int) == palette_entry(pieces[j as int]));
        let good = e - s >= 7 && (v[s] as u32) < 0x80 && channel_ok_exec(v[s + 1], v[s + 2])
            && channel_ok_exec(v[s + 3], v[s + 4]) && channel_ok_exec(v[s + 5], v[s + 6]);
        if !good {
            assert(!entry_ok(palette_entry(pieces[j as int])));
            return false;
        }
        j = j + 1;
    }
    true
}

/// Whether an atlas of these dimensions can be drawn, as [`render_ok`] says.
fn render_fits(cw: usize, ch: usize, palette_len: usize, bytes_len: usize) -> (ok: bool)
    ensures
        ok == render_ok(cw as nat, ch as nat, palette_len as nat, bytes_len as nat),
{
    if ch == 0 {
        return false;
    }
    let nc = palette_len / 4;
    let nchars = bytes_len / ch;
    if !(cw <= 8 || nc == 0 || nchars == 0) {
        return false;
    }
    let sw = match cw.checked_mul(nc) {
        Some(w) => w,
        None => return false,
    };
    proof {
        assert(ch * nchars <= bytes_len) by (nonlinear_arith)
            requires
                nchars == bytes_len / ch,
                ch > 0,
        ;
    }
    let sh = ch * nchars;
    match sw.checked_mul(sh) {
        Some(area) => match area.checked_mul(4) {
            Some(_) => true,
            None => false,
        },
        None => {
            proof {
                assert(sw * sh * 4 > usize::MAX) by (nonlinear_arith)
                    requires
                        sw * sh > usize::MAX,
                ;
            }
            false
        },
    }
}

/// How a palette entry is shown: a white entry as it is; any other entry
/// with each of its red, green and blue channels turned into 255 minus the
/// channel (so a channel and its shown value add up to 255); alpha is kept.
pub proof fn lemma_shown_colour(palette: Seq<u8>, ci: int)
    requires
        0 <= ci,
        4 * ci + 3 < palette.len(),
    ensures
        shown_rgba(palette, ci).len() == 4,
        shown_rgba(palette, ci)[3] == palette[4 * ci + 3],
        (palette[4 * ci] == 255 && palette[4 * ci + 1] == 255 && palette[4 * ci + 2] == 255)
            ==> forall|k: int| 0 <= k < 4 ==> #[trigger] shown_rgba(palette, ci)[k] == palette[4 * ci + k],
        !(palette[4 * ci] == 255 && palette[4 * ci + 1] == 255 && palette[4 * ci + 2] == 255)
            ==> forall|k: int| 0 <= k < 3 ==> #[trigger] shown_rgba(palette, ci)[k] + palette[4 * ci + k] == 255,
{
}

/// The atlas of a charmap is the one drawn from its glyph rows and palette.
pub open spec fn atlas_current(v: CharmapView) -> bool {
    v.pixels == rendered(v.char_width, v.char_height, v.palette, v.bytes)
}

/// The atlas is `atlas_width * atlas_height` RGBA pixels, and the four bytes
/// of the pixel of glyph column `b` of glyph row `y` in the block of colour
/// `ci` are that colour as it is shown when the glyph bit is set, opaque
/// black otherwise.
pub proof fn lemma_rendered_at(cw: nat, ch: nat, palette: Seq<u8>, bytes: Seq<u8>, ci: int, y: int, b: int, t: int)
    requires
        cw > 0,
        0 <= ci < colors_in(palette),
        0 <= y < atlas_height(ch, bytes),
        0 <= b < cw,
        0 <= t < 4,
    ensures
        rendered(cw, ch, palette, bytes).len() == atlas_width(cw, palette) * atlas_height(ch, bytes) * 4,
        ({
            let sw = atlas_width(cw, palette) as int;
            let i = (y * sw + ci * cw + b) * 4 + t;
            &&& 0 <= i < rendered(cw, ch, palette, bytes).len()
            &&& rendered(cw, ch, palette, bytes)[i] == (if glyph_bit(bytes[y], b) {
                shown_rgba(palette, ci)
            } else {
                black()
            })[t]
        }),
{
    let nc = colors_in(palette) as int;
    let sw = atlas_width(cw, palette) as int;
    let sh = atlas_height(ch, bytes) as int;
    let c = cw as int;
    let x = ci * c + b;
    let p = y * sw + x;
    let i = p * 4 + t;
    assert(sw == c * nc);
    assert(0 <= ci * c && x < sw) by (nonlinear_arith)
        requires
            0 <= ci < nc,
            0 <= b < c,
            x == ci * c + b,
            sw == c * nc,
    ;
    assert(0 <= p && p < sh * sw) by (nonlinear_arith)
        requires
            0 <= y < sh,
            0 <= x < sw,
            p == y * sw + x,
    ;
    assert(i < sw * sh * 4) by (nonlinear_arith)
        requires
            0 <= p < sh * sw,
            0 <= t < 4,
            i == p * 4 + t,
    ;
    vstd::arithmetic::div_mod::lemma_fundamental_div_mod_converse(i, 4, p, t);
    vstd::arithmetic::div_mod::lemma_fundamental_div_mod_converse(p, sw, y, x);
    vstd::arithmetic::div_mod::lemma_fundamental_div_mod_converse(x, c, ci, b);
}

/// Toggling the same glyph pixel twice restores the glyph rows, and with
/// them the atlas drawn from them.
pub proof fn lemma_toggle_twice(bytes: Seq<u8>, cw: nat, x: nat, y: nat)
    ensures
        toggled(toggled(bytes, cw, x, y), cw, x, y) == bytes,
        forall|ch: nat, palette: Seq<u8>|
            #[trigger] rendered(cw, ch, palette, toggled(toggled(bytes, cw, x, y), cw, x, y))
                == rendered(cw, ch, palette, bytes),
{
    if y < bytes.len() {
        let off = if x < cw - 1 { x as int } else { cw - 1 };
        let m = column_mask(off);
        let v = bytes[y as int];
        assert((v ^ m) ^ m == v) by (bit_vector);
        assert(toggled(toggled(bytes, cw, x, y), cw, x, y) =~= bytes);
    }
}

/// Toggling flips exactly one glyph column of one glyph row: column
/// `min(x, cw - 1)` of row `y`; every other column and row keeps its value.
pub proof fn lemma_toggle_flips_one_column(bytes: Seq<u8>, cw: nat, x: nat, y: nat, row: int, col: int)
    requires
        0 < cw <= 8,
        y < bytes.len(),
        0 <= row < bytes.len(),
        0 <= col < 8,
    ensures
        glyph_bit(toggled(bytes, cw, x, y)[row], col) == if row == y && col == (if x < cw - 1 {
            x as int
        } else {
            cw - 1
        }) {
            !glyph_bit(bytes[row], col)
        } else {
            glyph_bit(bytes[row], col)
        },
{
    let off = if x < cw - 1 { x as int } else { cw - 1 };
    if row == y {
        let v = bytes[row];
        let o = off as u8;
        let c = col as u8;
        assert(((v ^ (0x80u8 >> o)) & (0x80u8 >> c) != 0u8) == (if c == o {
            v & (0x80u8 >> c) == 0u8
        } else {
            v & (0x80u8 >> c) != 0u8
        })) by (bit_vector)
            requires
                o < 8u8,
                c < 8u8,
        ;
    }
}

proof fn lemma_div_below(p: int, w: int, h: int)
    requires
        0 <= p < w * h,
        w > 0,
    ensures
        0 <= p / w < h,
        0 <= p % w < w,
{
    lemma_fundamental_div_mod(p, w);
    assert(0 <= p / w < h) by (nonlinear_arith)
        requires
            p == w * (p / w) + p % w,
            0 <= p % w < w,
            0 <= p < w * h,
            w > 0,
    ;
}

proof fn lemma_quad(p: int, k: int)
    requires
        p >= 0,
        0 <= k < 4,
    ensures
        (4 * p + k) / 4 == p,
        (4 * p + k) % 4 == k,
{
    vstd::arithmetic::div_mod::lemma_fundamental_div_mod_converse(4 * p + k, 4, p, k);
}

impl Charmap {
    /// A blank charmap: zeroed palette of `num_colors` entries and zeroed
    /// buffers. The two buffers are sized the other way round from their
    /// meaning: the glyph rows get the size of an RGBA atlas
    /// (`char_width * num_colors * char_height * num_chars * 4` bytes) and the
    /// atlas gets one byte per glyph row (`num_chars * char_height`). A
    /// charmap built from bytes replaces both.
    pub fn new(char_width: usize, char_height: usize, num_colors: usize, num_chars: usize) -> (c:
        Self)
        requires
            char_width * num_colors <= usize::MAX,
            char_height * num_chars <= usize::MAX,
            char_width * num_colors * (char_height * num_chars) * 4 <= usize::MAX,
            num_colors * 4 <= usize::MAX,
        ensures
            c@.char_width == char_width,
            c@.char_height == char_height,
            c@.palette == Seq::new((num_colors * 4) as nat, |i: int| 0u8),
            c@.pixels == Seq::new((num_chars * char_height) as nat, |i: int| 0u8),
            c@.bytes == Seq::new(
                (char_width * num_colors * (char_height * num_chars) * 4) as nat,
                |i: int| 0u8,
            ),
            c@.needs_reload,
            c@.needs_reload_editor,
    {
        let screen_width = char_width * num_colors;
        let screen_height = char_height * num_chars;
        proof {
            assert(num_chars * char_height == char_height * num_chars) by (nonlinear_arith);
        }
        let c = Charmap {
            char_width,
            char_height,
            color_palette: vec![0; num_colors * 4],
            pixels: vec![0; num_chars * char_height],
            bytes: vec![0; screen_width * screen_height * 4],
            needs_reload: true,
            needs_reload_editor: true,
        };
        assert(c@.palette =~= Seq::new((num_colors * 4) as nat, |i: int| 0u8));
        assert(c@.pixels =~= Seq::new((num_chars * char_height) as nat, |i: int| 0u8));
        assert(c@.bytes =~= Seq::new(
            (char_width * num_colors * (char_height * num_chars) * 4) as nat,
            |i: int| 0u8,
        ));
        c
    }

    /// Reads a palette list such as `["#000000", "#FF00AA"]` into RGBA bytes,
    /// alpha always opaque.
    fn parse_palette(json_str: &str) -> (palette: Vec<u8>)
        requires
            palette_ok(json_str@),
        ensures
            palette@ == parsed_palette(json_str@),
    {
        let v = chars_of(json_str);
        let (a, b) = trim_range(&v, 0, v.len(), TrimClass::Space);
        assert(v@.subrange(0, v@.len() as int) =~= json_str@);
        let (a, b) = trim_range(&v, a, b, TrimClass::Brackets);
        let ranges = split_ranges(&v, a, b, ',');
        let ghost pieces = palette_pieces(json_str@);
        let mut out: Vec<u8> = Vec::new();
        let mut j: usize = 0;
        while j < ranges.len()
            invariant
                j <= ranges@.len(),
                pieces == palette_pieces(json_str@),
                ranges@.len() == pieces.len(),
                palette_ok(json_str@),
                forall|k: int|
                    0 <= k < ranges@.len() ==> (#[trigger] ranges@[k]).0 <= ranges@[k].1 <= v@.len()
                        && v@.subrange(ranges@[k].0 as int, ranges@[k].1 as int) == pieces[k],
                out@ == palette_bytes(pieces.take(j as int)),
            decreases ranges@.len() - j,
        {
            let (s, e) = ranges[j];
            let (s, e) = trim_range(&v, s, e, TrimClass::Space);
            let (s, e) = trim_range(&v, s, e, TrimClass::Quote);
            assert(v@.subrange(s as int, e as int) == palette_entry(pieces[j as int]));
            assert(entry_ok(palette_entry(pieces[j as int])));
            let r = channel(v[s + 1], v[s + 2]);
            let g = channel(v[s + 3], v[s + 4]);
            let bl = channel(v[s + 5], v[s + 6]);
            out.push(r);
            out.push(g);
            out.push(bl);
            out.push(0xff);
            assert(pieces.take(j + 1).drop_last() =~= pieces.take(j as int));
            assert(out@ =~= palette_bytes(pieces.take(j + 1)));
            j = j + 1;
        }
        assert(pieces.take(j as int) =~= pieces);
        out
    }

    /// A charmap with the given glyph rows, the palette of `palette_json`, and
    /// the atlas drawn from them.
    pub fn from_bytes(
        char_width: usize,
        char_height: usize,
        num_colors: usize,
        num_chars: usize,
        bytes: Vec<u8>,
        palette_json: &str,
    ) -> (c: Self)
        requires
            char_width * num_colors <= usize::MAX,
            char_height * num_chars <= usize::MAX,
            char_width * num_colors * (char_height * num_chars) * 4 <= usize::MAX,
            num_colors * 4 <= usize::MAX,
            palette_ok(palette_json@),
            render_ok(
                char_width as nat,
                char_height as nat,
                parsed_palette(palette_json@).len(),
                bytes@.len(),
            ),
        ensures
            c@.char_width == char_width,
            c@.char_height == char_height,
            c@.palette == parsed_palette(palette_json@),
            c@.bytes == bytes@,
            c@.pixels == rendered(
                char_width as nat,
                char_height as nat,
                parsed_palette(palette_json@),
                bytes@,
            ),
            c@.needs_reload,
            c@.needs_reload_editor,
            atlas_current(c@),
    {
        let mut charmap = Charmap::new(char_width, char_height, num_colors, num_chars);
        charmap.bytes = bytes;
        charmap.color_palette = Self::parse_palette(palette_json);
        charmap.pixels = charmap.render_pixels();
        charmap
    }

    /// A charmap built as [`Charmap::from_bytes`] builds it, or nothing when
    /// the palette list does not read, or the sizes are out of range for the
    /// atlas.
    pub fn try_from_bytes(
        char_width: usize,
        char_height: usize,
        num_colors: usize,
        num_chars: usize,
        bytes: Vec<u8>,
        palette_json: &str,
    ) -> (r: Option<Self>)
        ensures
            r is Some <==> {
                &&& char_width * num_colors <= usize::MAX
                &&& char_height * num_chars <= usize::MAX
                &&& char_width * num_colors * (char_height * num_chars) * 4 <= usize::MAX
                &&& num_colors * 4 <= usize::MAX
                &&& palette_ok(palette_json@)
                &&& render_ok(
                    char_width as nat,
                    char_height as nat,
                    parsed_palette(palette_json@).len(),
                    bytes@.len(),
                )
            },
            r matches Some(c) ==> {
                &&& c@.char_width == char_width
                &&& c@.char_height == char_height
                &&& c@.palette == parsed_palette(palette_json@)
                &&& c@.bytes == bytes@
                &&& c@.pixels == rendered(
                    char_width as nat,
                    char_height as nat,
                    parsed_palette(palette_json@),
                    bytes@,
                )
                &&& c@.needs_reload
                &&& c@.needs_reload_editor
                &&& atlas_current(c@)
            },
    {
        let sw = match char_width.checked_mul(num_colors) {
            Some(w) => w,
            None => return None,
        };
        let sh = match char_height.checked_mul(num_chars) {
            Some(h) => h,
            None => return None,
        };
        let area = match sw.checked_mul(sh) {
            Some(a) => a,
            None => {
                proof {
                    assert(sw * sh * 4 > usize::MAX) by (nonlinear_arith)
                        requires
                            sw * sh > usize::MAX,
                    ;
                }
                return None;
            },
        };
        if area.checked_mul(4).is_none() || num_colors.checked_mul(4).is_none() {
            return None;
        }
        if !palette_is_valid(palette_json) {
            return None;
        }
        let palette = Self::parse_palette(palette_json);
        if !render_fits(char_width, char_height, palette.len(), bytes.len()) {
            return None;
        }
        Some(Self::from_bytes(char_width, char_height, num_colors, num_chars, bytes, palette_json))
    }

    /// Whether [`Charmap::toggle_pixel`] can flip glyph column `x` of row `y`:
    /// a row past the end is always accepted (nothing changes); otherwise the
    /// glyphs must have a column, the column must fit in a byte, and the atlas
    /// must be drawable.
    pub fn can_toggle(&self, x: usize, y: usize) -> (ok: bool)
        ensures
            ok == (y < self@.bytes.len() ==> {
                &&& self@.char_width > 0
                &&& (x < 8 || self@.char_width <= 8)
                &&& render_ok(
                    self@.char_width,
                    self@.char_height,
                    self@.palette.len(),
                    self@.bytes.len(),
                )
            }),
    {
        if y >= self.bytes.len() {
            return true;
        }
        self.char_width > 0 && (x < 8 || self.char_width <= 8) && render_fits(
            self.char_width,
            self.char_height,
            self.color_palette.len(),
            self.bytes.len(),
        )
    }

    /// The RGBA atlas.
    pub fn pixels(&self) -> (p: &[u8])
        ensures
            p@ == self@.pixels,
    {
        self.pixels.as_slice()
    }

    /// The glyph rows.
    pub fn bytes(&self) -> (b: &[u8])
        ensures
            b@ == self@.bytes,
    {
        self.bytes.as_slice()
    }

    /// Width of a glyph in pixels.
    pub fn char_width(&self) -> (w: usize)
        ensures
            w == self@.char_width,
    {
        self.char_width
    }

    /// Height of a glyph in pixels (its number of rows).
    pub fn char_height(&self) -> (h: usize)
        ensures
            h == self@.char_height,
    {
        self.char_height
    }

    /// Number of palette entries.
    pub fn num_colors(&self) -> (n: usize)
        ensures
            n == colors_in(self@.palette),
    {
        self.color_palette.len() / 4
    }

    /// Number of whole glyphs in the glyph rows.
    pub fn num_chars(&self) -> (n: usize)
        requires
            self@.char_height > 0,
        ensures
            n == chars_in(self@.bytes, self@.char_height),
    {
        self.bytes.len() / self.char_height
    }

    /// Flips glyph column `min(x, char_width - 1)` of glyph row `y` and
    /// redraws the atlas; a row past the end leaves the charmap as it is.
    pub fn toggle_pixel(&mut self, x: usize, y: usize)
        requires
            y < old(self)@.bytes.len() ==> {
                &&& old(self)@.char_width > 0
                &&& (x < 8 || old(self)@.char_width <= 8)
                &&& render_ok(
                    old(self)@.char_width,
                    old(self)@.char_height,
                    old(self)@.palette.len(),
                    old(self)@.bytes.len(),
                )
            },
        ensures
            y >= old(self)@.bytes.len() ==> final(self)@ == old(self)@,
            atlas_current(old(self)@) ==> atlas_current(final(self)@),
            y < old(self)@.bytes.len() ==> {
                &&& final(self)@.bytes == toggled(
                    old(self)@.bytes,
                    old(self)@.char_width,
                    x as nat,
                    y as nat,
                )
                &&& final(self)@.pixels == rendered(
                    final(self)@.char_width,
                    final(self)@.char_height,
                    final(self)@.palette,
                    final(self)@.bytes,
                )
                &&& final(self)@.char_width == old(self)@.char_width
                &&& final(self)@.char_height == old(self)@.char_height
                &&& final(self)@.palette == old(self)@.palette
                &&& final(self)@.needs_reload
                &&& final(self)@.needs_reload_editor
            },
    {
        if y >= self.bytes.len() {
            return;
        }
        let off = if x < self.char_width - 1 {
            x
        } else {
            self.char_width - 1
        };
        let mask = 0b1000_0000u8 >> (off as u8);
        let row = self.bytes[y] ^ mask;
        self.bytes.set(y, row);
        self.pixels = self.render_pixels();
        self.needs_reload = true;
        self.needs_reload_editor = true;
    }

    /// The colour that palette entry `color_index` is drawn in.
    pub fn palette_rgba(&self, color_index: usize) -> (rgba: [u8; 4])
        requires
            color_index * 4 + 3 < self@.palette.len(),
        ensures
            rgba@ == shown_rgba(self@.palette, color_index as int),
    {
        let n = self.color_palette.len();
        let o = color_index * 4;
        let mut r = self.color_palette[o];
        let mut g = self.color_palette[o + 1];
        let mut b = self.color_palette[o + 2];
        let a = self.color_palette[o + 3];
        if !(r == 0xff && g == 0xff && b == 0xff) {
            assert(r ^ 0xffu8 == 255u8 - r) by (bit_vector);
            assert(g ^ 0xffu8 == 255u8 - g) by (bit_vector);
            assert(b ^ 0xffu8 == 255u8 - b) by (bit_vector);
            r ^= 0xff;
            g ^= 0xff;
            b ^= 0xff;
        }
        let rgba = [r, g, b, a];
        assert(rgba@ =~= shown_rgba(self@.palette, color_index as int));
        rgba
    }

    /// Draws every glyph in every palette colour into a fresh RGBA atlas.
    fn render_pixels(&self) -> (px: Vec<u8>)
        requires
            render_ok(self@.char_width, self@.char_height, self@.palette.len(), self@.bytes.len()),
        ensures
            px@ == rendered(self@.char_width, self@.char_height, self@.palette, self@.bytes),
    {
        let cw = self.char_width;
        let ch = self.char_height;
        let num_colors = self.color_palette.len() / 4;
        let num_chars = self.bytes.len() / ch;
        proof {
            lemma_fundamental_div_mod(self@.bytes.len() as int, ch as int);
            lemma_fundamental_div_mod(self@.palette.len() as int, 4);
        }
        let screen_width = cw * num_colors;
        let screen_height = ch * num_chars;
        let total = screen_width * screen_height;
        let ghost target = rendered(cw as nat, ch as nat, self@.palette, self@.bytes);
        let mut px: Vec<u8> = Vec::new();
        let mut p: usize = 0;
        while p < total
            invariant
                p <= total,
                total == screen_width * screen_height,
                total * 4 <= usize::MAX,
                screen_width == atlas_width(cw as nat, self@.palette),
                screen_height == atlas_height(ch as nat, self@.bytes),
                screen_height <= self@.bytes.len(),
                num_colors == colors_in(self@.palette),
                num_colors * 4 <= self@.palette.len(),
                cw == self@.char_width,
                ch == self@.char_height,
                ch > 0,
                cw <= 8 || num_colors == 0 || num_chars == 0,
                num_chars == chars_in(self@.bytes, ch as nat),
                screen_height == ch * num_chars,
                target == rendered(cw as nat, ch as nat, self@.palette, self@.bytes),
                target.len() == total * 4,
                px@ == target.take(4 * p),
            decreases total - p,
        {
            proof {
                assert(screen_width > 0) by (nonlinear_arith)
                    requires
                        p < total,
                        total == screen_width * screen_height,
                ;
                lemma_div_below(p as int, screen_width as int, screen_height as int);
            }
            let x = p % screen_width;
            let y = p / screen_width;
            proof {
                assert(cw > 0 && num_colors > 0) by (nonlinear_arith)
                    requires
                        screen_width == cw * num_colors,
                        screen_width > 0,
                ;
                assert(num_chars > 0) by (nonlinear_arith)
                    requires
                        screen_height == ch * num_chars,
                        y < screen_height,
                ;
                lemma_div_below(x as int, cw as int, num_colors as int);
            }
            let data = self.bytes[y];
            let off = (x % cw) as u8;
            let ci = x / cw;
            assert(off < 8u8);
            assert(((data >> ((7u8 - off) as u8)) & 1u8 == 1u8) == (data & (0x80u8 >> off) != 0u8))
                by (bit_vector)
                requires
                    off < 8u8,
            ;
            let set = (data >> (7 - off)) & 1 == 1;
            let rgba: [u8; 4] = if set {
                self.palette_rgba(ci)
            } else {
                [0, 0, 0, 0xff]
            };
            let ghost expect = rgba_at(cw as nat, self@.palette, self@.bytes, screen_width as nat, p as int);
            assert(rgba@ == expect) by {
                if !set {
                    assert(rgba@ =~= black());
                }
            }
            let ghost before = px@;
            px.push(rgba[0]);
            px.push(rgba[1]);
            px.push(rgba[2]);
            px.push(rgba[3]);
            proof {
                assert forall|k: int| 0 <= k < 4 implies #[trigger] target[4 * p + k] == expect[k] by {
                    lemma_quad(p as int, k);
                    assert(4 * p + k < total * 4);
                }
                assert(px@ =~= target.take(4 * (p + 1)));
            }
            p = p + 1;
        }
        assert(target.take(4 * total) =~= target);
        px
    }
}

} // verus!
