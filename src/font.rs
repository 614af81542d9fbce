//! The composite font: the primary face and the fallbacks accepted for a
//! text, all at one pixel size, in lookup order.

use crate::cache::{loaded_font_wf, LoadedFont};
use crate::coverage::face_maps_char;
use vstd::prelude::*;

verus! {

/// The glyph a face maps a character to, with its horizontal advance in
/// design units when the face has one.
pub uninterp spec fn face_glyph_of(data: Seq<u8>, index: u32, c: char) -> Option<(u16, Option<u16>)>;

/// Relies on `ttf_parser::Face::from_slice`, `Face::glyph_index` and
/// `Face::glyph_hor_advance`; there is a glyph exactly when `glyph_index`
/// finds one, which is what the coverage probe asks.
#[verifier::external_body]
fn lookup_glyph(data: &[u8], index: u32, c: char) -> (r: Option<(u16, Option<u16>)>)
    ensures
        r == face_glyph_of(data@, index, c),
        r is Some <==> face_maps_char(data@, index, c),
{
    let face = ttf_parser::Face::from_slice(data, index).ok()?;
    let id = face.glyph_index(c)?;
    Some((id.0, face.glyph_hor_advance(id)))
}

/// What shaping `text` with a face gives, glyph by glyph: glyph id, cluster
/// (byte offset into `text`), x advance, x offset and y offset, in design
/// units; nothing when the face does not parse.
pub uninterp spec fn shaped_run(data: Seq<u8>, index: u32, text: Seq<char>) -> Seq<
    (u32, u32, i32, i32, i32),
>;

/// Relies on `rustybuzz::Face::from_slice` and `rustybuzz::shape` with no
/// features: one entry per output glyph, from its `GlyphInfo` and
/// `GlyphPosition`.
#[verifier::external_body]
fn shape_with_face(data: &[u8], index: u32, text: &str) -> (r: Vec<(u32, u32, i32, i32, i32)>)
    ensures
        r@ == shaped_run(data@, index, text@),
{
    let face = match rustybuzz::Face::from_slice(data, index) {
        Some(face) => face,
        None => return Vec::new(),
    };
    let mut buffer = rustybuzz::UnicodeBuffer::new();
    buffer.push_str(text);
    let out = rustybuzz::shape(&face, &[], buffer);
    out.glyph_infos().iter().zip(out.glyph_positions().iter()).map(
        |(i, p)| (i.glyph_id, i.cluster, p.x_advance, p.x_offset, p.y_offset),
    ).collect()
}

/// `v` design units at `pixel_size` for a face of `units_per_em`, rounded
/// toward zero.
pub open spec fn scale_units(v: int, pixel_size: int, units_per_em: int) -> int {
    if v >= 0 {
        v * pixel_size / units_per_em
    } else {
        -((-v) * pixel_size / units_per_em)
    }
}

/// Scales `v` design units to layout units.
pub fn scale_to_pixels(v: i32, pixel_size: u32, units_per_em: u16) -> (r: i64)
    requires
        units_per_em >= 16,
    ensures
        r == scale_units(v as int, pixel_size as int, units_per_em as int),
{
    let magnitude: u64 = if v >= 0 {
        v as u64
    } else {
        (-(v as i64)) as u64
    };
    assert(magnitude * (pixel_size as u64) <= 0x8000_0000 * 0xffff_ffff) by (nonlinear_arith)
        requires
            magnitude <= 0x8000_0000,
            pixel_size <= 0xffff_ffff,
    ;
    let p = magnitude * (pixel_size as u64);
    let q = p / (units_per_em as u64);
    assert(q <= p) by (nonlinear_arith)
        requires
            q == p as int / units_per_em as int,
            units_per_em >= 16,
            p >= 0,
    ;
    if v >= 0 {
        q as i64
    } else {
        -(q as i64)
    }
}

/// A face at a pixel size.
#[derive(Clone, Copy, Debug)]
pub struct ScaledFont {
    pub font: LoadedFont,
    pub pixel_size: u32,
}

/// The backend's identifiers of a glyph: the renderer's font and the glyph
/// index, absent for index 0.
#[derive(Clone, Copy, Debug, PartialEq, Eq, Structural)]
pub struct PlatformGlyph {
    pub font_id: Option<u32>,
    pub glyph_id: Option<u16>,
}

/// A positioned glyph, lengths in layout units.
#[derive(Clone, Copy, Debug, PartialEq, Eq, Structural)]
pub struct Glyph {
    pub platform_glyph: PlatformGlyph,
    pub offset_x: i64,
    pub offset_y: i64,
    pub advance: i64,
    pub text_byte_offset: usize,
}

pub open spec fn scaled_ascent(f: ScaledFont) -> int {
    scale_units(f.font.ascent as int, f.pixel_size as int, f.font.units_per_em as int)
}

pub open spec fn scaled_descent(f: ScaledFont) -> int {
    scale_units(f.font.descent as int, f.pixel_size as int, f.font.units_per_em as int)
}

pub open spec fn platform_glyph_of(f: ScaledFont, id: u16) -> PlatformGlyph {
    PlatformGlyph {
        font_id: Some(f.font.shaping_font),
        glyph_id: if id == 0 {
            None
        } else {
            Some(id)
        },
    }
}

/// The glyph of `c` in `f`, if the face maps it.
pub open spec fn char_glyph(f: ScaledFont, c: char) -> Option<Glyph> {
    match face_glyph_of(f.font.data@, f.font.face_index, c) {
        Some((id, adv)) => Some(
            Glyph {
                platform_glyph: platform_glyph_of(f, id),
                offset_x: 0,
                offset_y: 0,
                advance: scale_units(
                    match adv {
                        Some(a) => a as int,
                        None => 0,
                    },
                    f.pixel_size as int,
                    f.font.units_per_em as int,
                ) as i64,
                text_byte_offset: 0,
            },
        ),
        None => None,
    }
}

/// A shaped glyph of `f` in layout units, its cluster moved `shift` bytes on.
pub open spec fn shaped_glyph_at(f: ScaledFont, g: (u32, u32, i32, i32, i32), shift: int) -> Glyph {
    let px = f.pixel_size as int;
    let upem = f.font.units_per_em as int;
    Glyph {
        platform_glyph: platform_glyph_of(f, g.0 as u16),
        offset_x: scale_units(g.3 as int, px, upem) as i64,
        offset_y: scale_units(g.4 as int, px, upem) as i64,
        advance: scale_units(g.2 as int, px, upem) as i64,
        text_byte_offset: (g.1 + shift) as usize,
    }
}

/// A shaped glyph of `f` in layout units.
pub open spec fn shaped_glyph(f: ScaledFont, g: (u32, u32, i32, i32, i32)) -> Glyph {
    shaped_glyph_at(f, g, 0)
}

/// Number of bytes of `c` in UTF-8.
pub open spec fn utf8_len(c: char) -> int {
    let u = c as u32;
    if u < 0x80 {
        1
    } else if u < 0x800 {
        2
    } else if u < 0x10000 {
        3
    } else {
        4
    }
}

pub open spec fn utf8_len_of(s: Seq<char>) -> int
    decreases s.len(),
{
    if s.len() == 0 {
        0
    } else {
        utf8_len_of(s.drop_last()) + utf8_len(s.last())
    }
}

/// Number of bytes of `c` in UTF-8.
pub fn char_utf8_len(c: char) -> (r: u64)
    ensures
        r == utf8_len(c),
{
    let u = c as u32;
    if u < 0x80 {
        1
    } else if u < 0x800 {
        2
    } else if u < 0x10000 {
        3
    } else {
        4
    }
}

/// Builds the glyph for one shaper output entry.
fn glyph_at(f: &ScaledFont, g: (u32, u32, i32, i32, i32), shift: u64) -> (r: Glyph)
    requires
        loaded_font_wf(f.font),
        shift <= 0x1_0000_0000,
    ensures
        r == shaped_glyph_at(*f, g, shift as int),
{
    let (id, cluster, x_advance, x_offset, y_offset) = g;
    let id16 = id as u16;
    Glyph {
        platform_glyph: PlatformGlyph {
            font_id: Some(f.font.shaping_font),
            glyph_id: if id16 == 0 {
                None
            } else {
                Some(id16)
            },
        },
        offset_x: scale_to_pixels(x_offset, f.pixel_size, f.font.units_per_em),
        offset_y: scale_to_pixels(y_offset, f.pixel_size, f.font.units_per_em),
        advance: scale_to_pixels(x_advance, f.pixel_size, f.font.units_per_em),
        text_byte_offset: (cluster as u64 + shift) as usize,
    }
}

/// Shapes `text` with `f` and moves every cluster `shift` bytes on.
fn shape_shifted(f: &ScaledFont, text: &str, shift: u64) -> (r: Vec<Glyph>)
    requires
        loaded_font_wf(f.font),
        shift <= 0x1_0000_0000,
    ensures
        r@ == shaped_run(f.font.data@, f.font.face_index, text@).map_values(
            |g: (u32, u32, i32, i32, i32)| shaped_glyph_at(*f, g, shift as int),
        ),
{
    let raw = shape_with_face(f.font.data, f.font.face_index, text);
    let mut out: Vec<Glyph> = Vec::new();
    let mut i: usize = 0;
    while i < raw.len()
        invariant
            loaded_font_wf(f.font),
            shift <= 0x1_0000_0000,
            i <= raw@.len(),
            out@ == raw@.subrange(0, i as int).map_values(
                |g: (u32, u32, i32, i32, i32)| shaped_glyph_at(*f, g, shift as int),
            ),
        decreases raw@.len() - i,
    {
        out.push(glyph_at(f, raw[i], shift));
        i = i + 1;
        assert(out@ =~= raw@.subrange(0, i as int).map_values(
            |g: (u32, u32, i32, i32, i32)| shaped_glyph_at(*f, g, shift as int),
        ));
    }
    assert(raw@.subrange(0, i as int) == raw@);
    out
}

impl ScaledFont {
    /// Shapes `text` with this face; glyphs come in the order the shaper
    /// gives, each with the byte offset of its cluster.
    pub fn shape_text(&self, text: &str) -> (r: Vec<Glyph>)
        requires
            loaded_font_wf(self.font),
        ensures
            r@ == shaped_run(self.font.data@, self.font.face_index, text@).map_values(
                |g: (u32, u32, i32, i32, i32)| shaped_glyph(*self, g),
            ),
    {
        let r = shape_shifted(self, text, 0);
        assert(r@ =~= shaped_run(self.font.data@, self.font.face_index, text@).map_values(
            |g: (u32, u32, i32, i32, i32)| shaped_glyph(*self, g),
        ));
        r
    }

    pub fn ascent(&self) -> (r: i64)
        requires
            loaded_font_wf(self.font),
        ensures
            r == scaled_ascent(*self),
    {
        scale_to_pixels(self.font.ascent as i32, self.pixel_size, self.font.units_per_em)
    }

    pub fn descent(&self) -> (r: i64)
        requires
            loaded_font_wf(self.font),
        ensures
            r == scaled_descent(*self),
    {
        scale_to_pixels(self.font.descent as i32, self.pixel_size, self.font.units_per_em)
    }

    /// The glyph of `c` without shaping.
    pub fn glyph_for_char(&self, c: char) -> (r: Option<Glyph>)
        requires
            loaded_font_wf(self.font),
        ensures
            r == char_glyph(*self, c),
    {
        match lookup_glyph(self.font.data, self.font.face_index, c) {
            Some((id, adv)) => {
                let units: i32 = match adv {
                    Some(a) => a as i32,
                    None => 0,
                };
                let advance = scale_to_pixels(units, self.pixel_size, self.font.units_per_em);
                Some(
                    Glyph {
                        platform_glyph: PlatformGlyph {
                            font_id: Some(self.font.shaping_font),
                            glyph_id: if id == 0 {
                                None
                            } else {
                                Some(id)
                            },
                        },
                        offset_x: 0,
                        offset_y: 0,
                        advance,
                        text_byte_offset: 0,
                    },
                )
            },
            None => None,
        }
    }
}

/// The largest ascent among the fonts.
pub open spec fn max_ascent(s: Seq<ScaledFont>) -> int
    decreases s.len(),
{
    if s.len() == 0 {
        0
    } else if s.len() == 1 {
        scaled_ascent(s[0])
    } else {
        let a = max_ascent(s.drop_last());
        let b = scaled_ascent(s.last());
        if a >= b {
            a
        } else {
            b
        }
    }
}

/// The smallest (deepest) descent among the fonts.
pub open spec fn min_descent(s: Seq<ScaledFont>) -> int
    decreases s.len(),
{
    if s.len() == 0 {
        0
    } else if s.len() == 1 {
        scaled_descent(s[0])
    } else {
        let a = min_descent(s.drop_last());
        let b = scaled_descent(s.last());
        if a <= b {
            a
        } else {
            b
        }
    }
}

/// The glyph of `c` in the first of the fonts from index `i` on that maps it.
pub open spec fn first_glyph(s: Seq<ScaledFont>, c: char, i: int) -> Option<Glyph>
    decreases s.len() - i,
{
    if i < 0 || i >= s.len() {
        None
    } else {
        match char_glyph(s[i], c) {
            Some(g) => Some(g),
            None => first_glyph(s, c, i + 1),
        }
    }
}

/// Index of the first font from `i` on that maps `c`; the primary (0) when
/// none does.
pub open spec fn font_index_from(s: Seq<ScaledFont>, c: char, i: int) -> int
    decreases s.len() - i,
{
    if i < 0 || i >= s.len() {
        0
    } else if face_maps_char(s[i].font.data@, s[i].font.face_index, c) {
        i
    } else {
        font_index_from(s, c, i + 1)
    }
}

/// End of the run of characters from `i` on that are shaped with font `f`.
pub open spec fn run_end(s: Seq<ScaledFont>, text: Seq<char>, f: int, i: int) -> int
    decreases text.len() - i,
{
    if i < 0 || i >= text.len() {
        text.len() as int
    } else if font_index_from(s, text[i], 0) != f {
        i
    } else {
        run_end(s, text, f, i + 1)
    }
}

/// The glyphs of `text` from character `start` on, which begins `bytes`
/// bytes into the text: each maximal run of characters that go to the same
/// font is shaped with that font.
pub open spec fn shape_runs(s: Seq<ScaledFont>, text: Seq<char>, start: int, bytes: int) -> Seq<
    Glyph,
>
    decreases text.len() - start,
{
    if start < 0 || start >= text.len() {
        seq![]
    } else {
        let f = font_index_from(s, text[start], 0);
        let end = run_end(s, text, f, start + 1);
        let run = text.subrange(start, end);
        if end <= start || end > text.len() {
            seq![]
        } else {
            shaped_run(s[f].font.data@, s[f].font.face_index, run).map_values(
                |g: (u32, u32, i32, i32, i32)| shaped_glyph_at(s[f], g, bytes),
            ) + shape_runs(s, text, end, bytes + utf8_len_of(run))
        }
    }
}

proof fn lemma_font_index_bounds(s: Seq<ScaledFont>, c: char, i: int)
    requires
        s.len() >= 1,
    ensures
        0 <= font_index_from(s, c, i) < s.len(),
    decreases s.len() - i,
{
    if 0 <= i < s.len() {
        lemma_font_index_bounds(s, c, i + 1);
    }
}

proof fn lemma_run_end_bounds(s: Seq<ScaledFont>, text: Seq<char>, f: int, i: int)
    requires
        0 <= i <= text.len(),
    ensures
        i <= run_end(s, text, f, i) <= text.len(),
    decreases text.len() - i,
{
    if i < text.len() {
        lemma_run_end_bounds(s, text, f, i + 1);
    }
}

/// The composite font.
pub struct Font {
    fonts: Vec<ScaledFont>,
    pixel_size: u32,
}

impl Font {
    /// The fonts, primary first, in lookup order.
    pub closed spec fn fonts(&self) -> Seq<ScaledFont> {
        self.fonts@
    }

    pub closed spec fn pixel_size_spec(&self) -> u32 {
        self.pixel_size
    }

    pub open spec fn wf(&self) -> bool {
        &&& self.fonts().len() >= 1
        &&& forall|i: int|
            0 <= i < self.fonts().len() ==> (#[trigger] self.fonts()[i]).pixel_size
                == self.pixel_size_spec() && loaded_font_wf(self.fonts()[i].font)
    }

    /// Puts the fonts together at `pixel_size`, primary first.
    pub fn from_fonts(fonts: &Vec<LoadedFont>, pixel_size: u32) -> (r: Font)
        requires
            fonts@.len() >= 1,
            forall|i: int| 0 <= i < fonts@.len() ==> loaded_font_wf(#[trigger] fonts@[i]),
        ensures
            r.wf(),
            r.pixel_size_spec() == pixel_size,
            r.fonts() == fonts@.map_values(|f: LoadedFont| ScaledFont { font: f, pixel_size }),
    {
        let mut scaled: Vec<ScaledFont> = Vec::new();
        let mut i: usize = 0;
        while i < fonts.len()
            invariant
                i <= fonts@.len(),
                scaled@ == fonts@.subrange(0, i as int).map_values(
                    |f: LoadedFont| ScaledFont { font: f, pixel_size },
                ),
            decreases fonts@.len() - i,
        {
            scaled.push(ScaledFont { font: fonts[i], pixel_size });
            i = i + 1;
            assert(scaled@ =~= fonts@.subrange(0, i as int).map_values(
                |f: LoadedFont| ScaledFont { font: f, pixel_size },
            ));
        }
        assert(fonts@.subrange(0, i as int) == fonts@);
        Font { fonts: scaled, pixel_size }
    }

    pub fn pixel_size(&self) -> (r: u32)
        ensures
            r == self.pixel_size_spec(),
    {
        self.pixel_size
    }

    pub fn font_count(&self) -> (r: usize)
        ensures
            r == self.fonts().len(),
    {
        self.fonts.len()
    }

    pub fn font_at(&self, i: usize) -> (r: ScaledFont)
        requires
            i < self.fonts().len(),
        ensures
            r == self.fonts()[i as int],
    {
        self.fonts[i]
    }

    /// The largest ascent of the fonts at the font's pixel size.
    pub fn ascent(&self) -> (r: i64)
        requires
            self.wf(),
        ensures
            r == max_ascent(self.fonts()),
    {
        let mut best = self.fonts[0].ascent();
        let mut i: usize = 1;
        while i < self.fonts.len()
            invariant
                self.wf(),
                1 <= i <= self.fonts@.len(),
                best == max_ascent(self.fonts@.subrange(0, i as int)),
            decreases self.fonts@.len() - i,
        {
            assert(self.fonts@.subrange(0, i + 1).drop_last() == self.fonts@.subrange(0, i as int));
            let a = self.fonts[i].ascent();
            if a > best {
                best = a;
            }
            i = i + 1;
        }
        assert(self.fonts@.subrange(0, i as int) == self.fonts@);
        best
    }

    /// The deepest descent of the fonts at the font's pixel size.
    pub fn descent(&self) -> (r: i64)
        requires
            self.wf(),
        ensures
            r == min_descent(self.fonts()),
    {
        let mut best = self.fonts[0].descent();
        let mut i: usize = 1;
        while i < self.fonts.len()
            invariant
                self.wf(),
                1 <= i <= self.fonts@.len(),
                best == min_descent(self.fonts@.subrange(0, i as int)),
            decreases self.fonts@.len() - i,
        {
            assert(self.fonts@.subrange(0, i + 1).drop_last() == self.fonts@.subrange(0, i as int));
            let d = self.fonts[i].descent();
            if d < best {
                best = d;
            }
            i = i + 1;
        }
        assert(self.fonts@.subrange(0, i as int) == self.fonts@);
        best
    }

    /// Index of the font `c` is shaped with: the first that maps it, else
    /// the primary.
    pub fn font_index_for(&self, c: char) -> (r: usize)
        requires
            self.wf(),
        ensures
            r == font_index_from(self.fonts(), c, 0),
            r < self.fonts().len(),
    {
        proof {
            lemma_font_index_bounds(self.fonts(), c, 0);
        }
        let mut i: usize = 0;
        while i < self.fonts.len()
            invariant
                self.wf(),
                i <= self.fonts@.len(),
                font_index_from(self.fonts(), c, 0) == font_index_from(self.fonts(), c, i as int),
            decreases self.fonts@.len() - i,
        {
            let f = &self.fonts[i];
            if lookup_glyph(f.font.data, f.font.face_index, c).is_some() {
                return i;
            }
            i = i + 1;
        }
        0
    }

    /// Shapes `text`: runs of characters are shaped with the first font
    /// that maps them, and glyphs keep the byte offsets of their clusters in
    /// `text`, in text order.
    pub fn shape_text(&self, text: &str) -> (r: Vec<Glyph>)
        requires
            self.wf(),
            text@.len() <= 0x3fff_ffff,
        ensures
            r@ == shape_runs(self.fonts(), text@, 0, 0),
    {
        let n = text.unicode_len();
        let ghost fonts = self.fonts();
        let mut out: Vec<Glyph> = Vec::new();
        let mut start: usize = 0;
        let mut bytes: u64 = 0;
        while start < n
            invariant
                self.wf(),
                fonts == self.fonts(),
                n == text@.len() <= 0x3fff_ffff,
                start <= n,
                bytes <= 4 * start,
                out@ + shape_runs(fonts, text@, start as int, bytes as int) == shape_runs(
                    fonts,
                    text@,
                    0,
                    0,
                ),
            decreases n - start,
        {
            let c = text.get_char(start);
            let f = self.font_index_for(c);
            let mut end: usize = start + 1;
            let mut run_bytes: u64 = char_utf8_len(c);
            proof {
                assert(text@.subrange(start as int, end as int).drop_last().len() == 0);
                assert(utf8_len_of(text@.subrange(start as int, end as int).drop_last()) == 0);
                assert(text@.subrange(start as int, end as int).last() == c);
            }
            while end < n
                invariant
                    self.wf(),
                    fonts == self.fonts(),
                    n == text@.len() <= 0x3fff_ffff,
                    start < end <= n,
                    f == font_index_from(fonts, text@[start as int], 0),
                    run_end(fonts, text@, f as int, start + 1) == run_end(
                        fonts,
                        text@,
                        f as int,
                        end as int,
                    ),
                    run_bytes == utf8_len_of(text@.subrange(start as int, end as int)),
                    run_bytes <= 4 * (end - start),
                ensures
                    end == n || font_index_from(fonts, text@[end as int], 0) != f,
                decreases n - end,
            {
                let d = text.get_char(end);
                if self.font_index_for(d) != f {
                    break;
                }
                assert(text@.subrange(start as int, end + 1).drop_last() == text@.subrange(
                    start as int,
                    end as int,
                ));
                run_bytes = run_bytes + char_utf8_len(d);
                end = end + 1;
            }
            proof {
                lemma_run_end_bounds(fonts, text@, f as int, start + 1);
                assert(run_end(fonts, text@, f as int, end as int) == end);
            }
            let piece = text.substring_char(start, end);
            let mut glyphs = shape_shifted(&self.fonts[f], piece, bytes);
            proof {
                let rest = shape_runs(fonts, text@, end as int, bytes + run_bytes);
                assert(shape_runs(fonts, text@, start as int, bytes as int) == glyphs@ + rest);
                assert(out@ + glyphs@ + rest == out@ + (glyphs@ + rest));
            }
            out.append(&mut glyphs);
            bytes = bytes + run_bytes;
            start = end;
        }
        proof {
            assert(out@ + Seq::<Glyph>::empty() == out@);
        }
        out
    }

    /// The glyph of `c` from the first font that maps it.
    pub fn glyph_for_char(&self, c: char) -> (r: Option<Glyph>)
        requires
            self.wf(),
        ensures
            r == first_glyph(self.fonts(), c, 0),
    {
        let mut i: usize = 0;
        while i < self.fonts.len()
            invariant
                self.wf(),
                i <= self.fonts@.len(),
                first_glyph(self.fonts(), c, 0) == first_glyph(self.fonts(), c, i as int),
            decreases self.fonts@.len() - i,
        {
            let g = self.fonts[i].glyph_for_char(c);
            if g.is_some() {
                return g;
            }
            i = i + 1;
        }
        None
    }
}

} // verus!
