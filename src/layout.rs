//! Line layout: wrapping, elision, and horizontal and vertical alignment of a
//! text inside a box.
//!
//! The text is given as its UTF-8 bytes together with its measurements: the
//! advance of every glyph and the byte at which the glyph's cluster starts,
//! the line height and the width of the ellipsis. The width of a byte range is
//! the sum of the advances of the glyphs that start inside it. A line may be
//! broken at the break opportunities the measurements list (word
//! boundaries), after a newline, and at the end of the text; a newline always
//! ends a line.

use vstd::prelude::*;

verus! {

pub const NEWLINE: u8 = 0x0a;

/// One measured glyph: the byte at which its cluster starts and its advance.
#[derive(Clone, Copy, Debug, PartialEq, Eq, Structural)]
pub struct GlyphAdvance {
    pub byte_index: usize,
    pub advance: u32,
}

/// What the measurement service reports for a text.
#[derive(Clone, Debug)]
pub struct TextMeasurements {
    pub glyphs: Vec<GlyphAdvance>,
    /// Byte offsets at which a line may be broken.
    pub breaks: Vec<usize>,
    pub line_height: u32,
    pub ellipsis_width: u32,
}

#[derive(Clone, Copy, Debug, PartialEq, Eq, Structural)]
pub enum HorizontalAlignment {
    Left,
    Center,
    Right,
}

#[derive(Clone, Copy, Debug, PartialEq, Eq, Structural)]
pub enum VerticalAlignment {
    Top,
    Center,
    Bottom,
}

/// The box and the layout options.
#[derive(Clone, Copy, Debug, PartialEq, Eq, Structural)]
pub struct LayoutOptions {
    pub width: u32,
    pub height: u32,
    pub horizontal_alignment: HorizontalAlignment,
    pub vertical_alignment: VerticalAlignment,
    /// Break lines at word boundaries to fit the width.
    pub wrap: bool,
    /// Truncate overflowing lines with an ellipsis.
    pub elide: bool,
    /// Take the whole text as one line, newlines included.
    pub single_line: bool,
}

/// One laid-out line: the bytes `start..end` of the text, followed by an
/// ellipsis when `elided`, drawn at `(x, y)`. `width` is the measured width of
/// the whole line before any truncation.
#[derive(Clone, Copy, Debug, PartialEq, Eq, Structural)]
pub struct LaidOutLine {
    pub start: usize,
    pub end: usize,
    pub elided: bool,
    pub x: u32,
    pub y: i64,
    pub width: u64,
}

/// Sum of the advances of the glyphs whose cluster starts in `s..e`.
pub open spec fn width_in(glyphs: Seq<GlyphAdvance>, s: int, e: int) -> int
    decreases glyphs.len(),
{
    if glyphs.len() == 0 {
        0
    } else {
        let g = glyphs.last();
        width_in(glyphs.drop_last(), s, e) + if s <= g.byte_index && g.byte_index < e {
            g.advance as int
        } else {
            0
        }
    }
}

/// End of the line that starts at `start` when only newlines break: just past
/// the first newline at or after `start`, or the end of the text.
pub open spec fn newline_end(text: Seq<u8>, start: int) -> int
    decreases text.len() - start,
{
    if start >= text.len() {
        text.len() as int
    } else if text[start] == NEWLINE {
        start + 1
    } else {
        newline_end(text, start + 1)
    }
}

/// A line may end at `b`: the end of the paragraph, or a listed break
/// opportunity.
pub open spec fn is_break(breaks: Seq<usize>, b: int, limit: int) -> bool {
    b == limit || exists|i: int| 0 <= i < breaks.len() && breaks[i] == b
}

/// The largest break in `start + 1 ..= b` up to which the text fits in
/// `width`, or 0 when there is none.
pub open spec fn break_search(
    breaks: Seq<usize>,
    glyphs: Seq<GlyphAdvance>,
    start: int,
    limit: int,
    width: int,
    b: int,
) -> int
    decreases b - start,
{
    if b <= start {
        0
    } else if is_break(breaks, b, limit) && width_in(glyphs, start, b) <= width {
        b
    } else {
        break_search(breaks, glyphs, start, limit, width, b - 1)
    }
}

/// Scanning the glyphs from index `i` on, with `acc` the advance accumulated
/// so far over the glyphs of `start..end`: the cluster start of the first
/// glyph of `start..end` at which the accumulated advance reaches `limit`.
pub open spec fn first_overflow(
    glyphs: Seq<GlyphAdvance>,
    start: int,
    end: int,
    limit: int,
    i: int,
    acc: int,
) -> Option<int>
    decreases glyphs.len() - i,
{
    if i < 0 || i >= glyphs.len() {
        None
    } else {
        let g = glyphs[i];
        if start <= g.byte_index && g.byte_index < end {
            if acc + g.advance >= limit {
                Some(g.byte_index as int)
            } else {
                first_overflow(glyphs, start, end, limit, i + 1, acc + g.advance)
            }
        } else {
            first_overflow(glyphs, start, end, limit, i + 1, acc)
        }
    }
}

/// Horizontal position of a line of width `line_width` in a box of width `width`.
pub open spec fn x_origin(align: HorizontalAlignment, width: int, line_width: int) -> int {
    let used = if line_width < width {
        line_width
    } else {
        width
    };
    match align {
        HorizontalAlignment::Left => 0,
        HorizontalAlignment::Center => (width - used) / 2,
        HorizontalAlignment::Right => width - used,
    }
}

/// Vertical position of the first line for a text of height `text_height` in
/// a box of height `height`.
pub open spec fn y_origin(align: VerticalAlignment, height: int, text_height: int) -> int {
    match align {
        VerticalAlignment::Top => 0,
        VerticalAlignment::Center => (height - text_height) / 2,
        VerticalAlignment::Bottom => height - text_height,
    }
}

/// One line produced at byte `start` and height `y`: its end, whether it
/// carries an ellipsis, its measured width, and where the next line starts.
/// With `bounded` false the box has no bottom edge.
pub struct LineStep {
    pub end: int,
    pub elided: bool,
    pub width: int,
    pub next: int,
}

pub open spec fn line_step(
    opts: LayoutOptions,
    text: Seq<u8>,
    m: TextMeasurements,
    start: int,
    y: int,
    bounded: bool,
) -> LineStep {
    let glyphs = m.glyphs@;
    let h = m.line_height as int;
    let room_for_two = !bounded || y + 2 * h <= opts.height;
    let limit = newline_end(text, start);
    let b = break_search(m.breaks@, glyphs, start, limit, opts.width as int, limit);
    if opts.wrap && (!opts.elide || room_for_two) && b > start {
        LineStep { end: b, elided: false, width: width_in(glyphs, start, b), next: b }
    } else {
        let index = if opts.single_line {
            text.len() as int
        } else {
            limit
        };
        let lw = width_in(glyphs, start, index);
        let elide_last = opts.elide && index < text.len() && !room_for_two;
        if lw > opts.width || elide_last {
            let avail = opts.width - if opts.elide {
                m.ellipsis_width as int
            } else {
                0
            };
            match first_overflow(glyphs, start, index, avail, 0, 0) {
                Some(cut) => LineStep { end: cut, elided: opts.elide, width: lw, next: index },
                None => LineStep { end: index, elided: elide_last, width: lw, next: index },
            }
        } else {
            LineStep { end: index, elided: false, width: lw, next: index }
        }
    }
}


/// The lines laid out from byte `start` at height `y` until the text or the
/// box's height runs out.
pub open spec fn lines_from(
    opts: LayoutOptions,
    text: Seq<u8>,
    m: TextMeasurements,
    start: int,
    y: int,
) -> Seq<LaidOutLine>
    decreases text.len() - start,
{
    if start < 0 || start >= text.len() || y + m.line_height > opts.height {
        seq![]
    } else {
        let s = line_step(opts, text, m, start, y, true);
        let line = LaidOutLine {
            start: start as usize,
            end: s.end as usize,
            elided: s.elided,
            x: x_origin(opts.horizontal_alignment, opts.width as int, s.width) as u32,
            y: y as i64,
            width: s.width as u64,
        };
        if s.next <= start || s.next > text.len() {
            seq![line]
        } else {
            seq![line] + lines_from(opts, text, m, s.next, y + m.line_height)
        }
    }
}

/// Number of lines the text takes from byte `start` on in a box without a
/// bottom edge.
pub open spec fn line_count(opts: LayoutOptions, text: Seq<u8>, m: TextMeasurements, start: int) -> int
    decreases text.len() - start,
{
    if start < 0 || start >= text.len() {
        0
    } else {
        let s = line_step(opts, text, m, start, 0, false);
        if s.next <= start || s.next > text.len() {
            1
        } else {
            1 + line_count(opts, text, m, s.next)
        }
    }
}

/// Widest line the text takes from byte `start` on in a box without a bottom
/// edge.
pub open spec fn longest_from(opts: LayoutOptions, text: Seq<u8>, m: TextMeasurements, start: int) -> int
    decreases text.len() - start,
{
    if start < 0 || start >= text.len() {
        0
    } else {
        let s = line_step(opts, text, m, start, 0, false);
        let rest = if s.next <= start || s.next > text.len() {
            0
        } else {
            longest_from(opts, text, m, s.next)
        };
        if s.width >= rest {
            s.width
        } else {
            rest
        }
    }
}

/// The options under which a text is measured: wrapped at `max_width` when
/// there is one, never elided.
pub open spec fn size_options(max_width: Option<u32>) -> LayoutOptions {
    LayoutOptions {
        width: match max_width {
            Some(w) => w,
            None => u32::MAX,
        },
        height: 0,
        horizontal_alignment: HorizontalAlignment::Left,
        vertical_alignment: VerticalAlignment::Top,
        wrap: max_width is Some,
        elide: false,
        single_line: false,
    }
}

/// Height of the laid-out text: one line in single-line mode, else the
/// height of all its lines.
pub open spec fn text_height(opts: LayoutOptions, text: Seq<u8>, m: TextMeasurements) -> int {
    if opts.single_line {
        m.line_height as int
    } else {
        line_count(opts, text, m, 0) * m.line_height
    }
}

/// Where the first line of the text stands.
pub open spec fn baseline_spec(opts: LayoutOptions, text: Seq<u8>, m: TextMeasurements) -> int {
    y_origin(opts.vertical_alignment, opts.height as int, text_height(opts, text, m))
}

pub open spec fn measurements_fit(text: Seq<u8>, m: TextMeasurements) -> bool {
    &&& text.len() <= 0x3fff_ffff
    &&& m.glyphs@.len() <= 0xffff_ffff
}

proof fn lemma_newline_end_bounds(text: Seq<u8>, start: int)
    requires
        0 <= start < text.len(),
    ensures
        start < newline_end(text, start) <= text.len(),
    decreases text.len() - start,
{
    if text[start] != NEWLINE {
        if start + 1 < text.len() {
            lemma_newline_end_bounds(text, start + 1);
        } else {
            assert(newline_end(text, start + 1) == text.len());
        }
    }
}

proof fn lemma_break_search_bounds(
    breaks: Seq<usize>,
    glyphs: Seq<GlyphAdvance>,
    start: int,
    limit: int,
    width: int,
    b: int,
)
    ensures
        ({
            let r = break_search(breaks, glyphs, start, limit, width, b);
            r == 0 || (start < r <= b)
        }),
    decreases b - start,
{
    if b > start {
        lemma_break_search_bounds(breaks, glyphs, start, limit, width, b - 1);
    }
}

proof fn lemma_first_overflow_bounds(
    glyphs: Seq<GlyphAdvance>,
    start: int,
    end: int,
    limit: int,
    i: int,
    acc: int,
)
    ensures
        first_overflow(glyphs, start, end, limit, i, acc) matches Some(c) ==> start <= c < end,
    decreases glyphs.len() - i,
{
    if 0 <= i < glyphs.len() {
        let g = glyphs[i];
        lemma_first_overflow_bounds(glyphs, start, end, limit, i + 1, acc + g.advance);
        lemma_first_overflow_bounds(glyphs, start, end, limit, i + 1, acc);
    }
}

/// Each line consumes at least one byte and ends inside the text.
pub proof fn lemma_line_step_advances(
    opts: LayoutOptions,
    text: Seq<u8>,
    m: TextMeasurements,
    start: int,
    y: int,
    bounded: bool,
)
    requires
        0 <= start < text.len(),
    ensures
        ({
            let s = line_step(opts, text, m, start, y, bounded);
            &&& start < s.next <= text.len()
            &&& start <= s.end <= s.next
        }),
{
    let glyphs = m.glyphs@;
    let limit = newline_end(text, start);
    lemma_newline_end_bounds(text, start);
    lemma_break_search_bounds(m.breaks@, glyphs, start, limit, opts.width as int, limit);
    let index = if opts.single_line {
        text.len() as int
    } else {
        limit
    };
    let avail = opts.width - if opts.elide {
        m.ellipsis_width as int
    } else {
        0
    };
    lemma_first_overflow_bounds(glyphs, start, index, avail, 0, 0);
}


proof fn lemma_width_bound(glyphs: Seq<GlyphAdvance>, s: int, e: int)
    ensures
        0 <= width_in(glyphs, s, e) <= glyphs.len() * 0xffff_ffff,
    decreases glyphs.len(),
{
    if glyphs.len() > 0 {
        lemma_width_bound(glyphs.drop_last(), s, e);
    }
}

/// Measured width of the bytes `s..e`.
pub fn measure_width(glyphs: &Vec<GlyphAdvance>, s: usize, e: usize) -> (r: u64)
    requires
        glyphs@.len() <= 0xffff_ffff,
    ensures
        r == width_in(glyphs@, s as int, e as int),
{
    let mut w: u64 = 0;
    let mut i: usize = 0;
    while i < glyphs.len()
        invariant
            i <= glyphs@.len() <= 0xffff_ffff,
            w == width_in(glyphs@.subrange(0, i as int), s as int, e as int),
            w <= i * 0xffff_ffff,
        decreases glyphs@.len() - i,
    {
        let g = glyphs[i];
        assert(glyphs@.subrange(0, i + 1).drop_last() == glyphs@.subrange(0, i as int));
        if s <= g.byte_index && g.byte_index < e {
            w = w + g.advance as u64;
        }
        i = i + 1;
    }
    assert(glyphs@.subrange(0, i as int) == glyphs@);
    w
}

/// End of the paragraph that starts at `start`.
pub fn find_newline_end(text: &[u8], start: usize) -> (r: usize)
    requires
        start <= text@.len(),
    ensures
        r == newline_end(text@, start as int),
{
    let mut i: usize = start;
    while i < text.len()
        invariant
            start <= i <= text@.len(),
            newline_end(text@, start as int) == newline_end(text@, i as int),
        decreases text@.len() - i,
    {
        if text[i] == NEWLINE {
            return i + 1;
        }
        i = i + 1;
    }
    text.len()
}

/// Whether `b` is a listed break opportunity.
pub fn is_listed_break(breaks: &Vec<usize>, b: usize) -> (r: bool)
    ensures
        r == exists|i: int| 0 <= i < breaks@.len() && breaks@[i] == b,
{
    let mut i: usize = 0;
    while i < breaks.len()
        invariant
            i <= breaks@.len(),
            forall|j: int| 0 <= j < i ==> breaks@[j] != b,
        decreases breaks@.len() - i,
    {
        if breaks[i] == b {
            return true;
        }
        i = i + 1;
    }
    false
}

/// The largest break after `start`, at most `limit`, up to which the text
/// fits in `width`; 0 when there is none.
pub fn find_break(
    breaks: &Vec<usize>,
    glyphs: &Vec<GlyphAdvance>,
    start: usize,
    limit: usize,
    width: u32,
) -> (r: usize)
    requires
        start <= limit,
        glyphs@.len() <= 0xffff_ffff,
    ensures
        r == break_search(breaks@, glyphs@, start as int, limit as int, width as int, limit as int),
{
    let mut b: usize = limit;
    while b > start
        invariant
            start <= b <= limit,
            glyphs@.len() <= 0xffff_ffff,
            break_search(breaks@, glyphs@, start as int, limit as int, width as int, limit as int)
                == break_search(breaks@, glyphs@, start as int, limit as int, width as int, b as int),
        decreases b,
    {
        let opportunity = b == limit || is_listed_break(breaks, b);
        if opportunity && measure_width(glyphs, start, b) <= width as u64 {
            return b;
        }
        b = b - 1;
    }
    0
}

/// The cluster start of the first glyph of `start..end` at which the
/// accumulated advance reaches `limit`.
pub fn find_overflow(glyphs: &Vec<GlyphAdvance>, start: usize, end: usize, limit: i64) -> (r:
    Option<usize>)
    requires
        glyphs@.len() <= 0xffff_ffff,
    ensures
        r matches Some(c) ==> first_overflow(glyphs@, start as int, end as int, limit as int, 0, 0)
            == Some(c as int),
        r is None ==> first_overflow(glyphs@, start as int, end as int, limit as int, 0, 0)
            is None,
{
    let mut acc: u64 = 0;
    let mut i: usize = 0;
    while i < glyphs.len()
        invariant
            i <= glyphs@.len() <= 0xffff_ffff,
            acc <= i * 0xffff_ffff,
            first_overflow(glyphs@, start as int, end as int, limit as int, 0, 0) == first_overflow(
                glyphs@,
                start as int,
                end as int,
                limit as int,
                i as int,
                acc as int,
            ),
        decreases glyphs@.len() - i,
    {
        let g = glyphs[i];
        if start <= g.byte_index && g.byte_index < end {
            let next = acc + g.advance as u64;
            if limit <= 0 || next >= limit as u64 {
                return Some(g.byte_index);
            }
            acc = next;
        }
        i = i + 1;
    }
    None
}

/// One line at byte `start` and height `y`: its end, whether it carries an
/// ellipsis, its measured width, and where the next line starts.
pub fn next_line(
    opts: &LayoutOptions,
    text: &[u8],
    m: &TextMeasurements,
    start: usize,
    y: i64,
    bounded: bool,
) -> (r: (usize, bool, u64, usize))
    requires
        start < text@.len(),
        measurements_fit(text@, *m),
        -0x4000_0000_0000_0000 <= y <= 0x4000_0000_0000_0000,
    ensures
        ({
            let s = line_step(*opts, text@, *m, start as int, y as int, bounded);
            &&& r.0 == s.end
            &&& r.1 == s.elided
            &&& r.2 == s.width
            &&& r.3 == s.next
        }),
{
    proof {
        lemma_line_step_advances(*opts, text@, *m, start as int, y as int, bounded);
        lemma_newline_end_bounds(text@, start as int);
    }
    let h = m.line_height as i64;
    let room_for_two = !bounded || y + 2 * h <= opts.height as i64;
    let limit = find_newline_end(text, start);
    if opts.wrap && (!opts.elide || room_for_two) {
        let b = find_break(&m.breaks, &m.glyphs, start, limit, opts.width);
        if b > start {
            return (b, false, measure_width(&m.glyphs, start, b), b);
        }
    }
    let index = if opts.single_line {
        text.len()
    } else {
        limit
    };
    let lw = measure_width(&m.glyphs, start, index);
    let elide_last = opts.elide && index < text.len() && !room_for_two;
    if lw > opts.width as u64 || elide_last {
        let avail: i64 = opts.width as i64 - if opts.elide {
            m.ellipsis_width as i64
        } else {
            0
        };
        match find_overflow(&m.glyphs, start, index, avail) {
            Some(cut) => (cut, opts.elide, lw, index),
            None => (index, elide_last, lw, index),
        }
    } else {
        (index, false, lw, index)
    }
}


/// Horizontal position of a line of width `line_width` in a box of width `width`.
pub fn horizontal_origin(align: HorizontalAlignment, width: u32, line_width: u64) -> (r: u32)
    ensures
        r == x_origin(align, width as int, line_width as int),
        r <= width,
{
    let used: u32 = if line_width < width as u64 {
        line_width as u32
    } else {
        width
    };
    match align {
        HorizontalAlignment::Left => 0,
        HorizontalAlignment::Center => (width - used) / 2,
        HorizontalAlignment::Right => width - used,
    }
}

/// Vertical position of the first line of a text of height `text_height` in a
/// box of height `height`.
pub fn vertical_origin(align: VerticalAlignment, height: u32, text_height: u64) -> (r: i64)
    requires
        text_height <= 0x4000_0000_0000_0000,
    ensures
        r == y_origin(align, height as int, text_height as int),
{
    let h = height as i64;
    let t = text_height as i64;
    match align {
        VerticalAlignment::Top => 0,
        VerticalAlignment::Center => {
            if h >= t {
                (h - t) / 2
            } else {
                let d = t - h;
                let r = -((d + 1) / 2);
                assert((h - t) / 2 == r) by (nonlinear_arith)
                    requires
                        d == t - h,
                        d > 0,
                        r == -((d + 1) / 2),
                ;
                r
            }
        },
        VerticalAlignment::Bottom => h - t,
    }
}

/// Height of the laid-out text: one line in single-line mode, else the
/// height of all the lines the text takes in a box without a bottom edge.
pub fn measure_text_height(opts: &LayoutOptions, text: &[u8], m: &TextMeasurements) -> (r: u64)
    requires
        measurements_fit(text@, *m),
    ensures
        r == text_height(*opts, text@, *m),
        r <= 0x4000_0000 * 0xffff_ffff,
{
    if opts.single_line {
        return m.line_height as u64;
    }
    let mut count: u64 = 0;
    let mut start: usize = 0;
    while start < text.len()
        invariant
            start <= text@.len() <= 0x3fff_ffff,
            measurements_fit(text@, *m),
            count <= start,
            count + line_count(*opts, text@, *m, start as int) == line_count(*opts, text@, *m, 0),
        decreases text@.len() - start,
    {
        proof {
            lemma_line_step_advances(*opts, text@, *m, start as int, 0, false);
        }
        let (_, _, _, next) = next_line(opts, text, m, start, 0, false);
        count = count + 1;
        start = next;
    }
    assert(count * m.line_height <= 0x4000_0000 * 0xffff_ffff) by (nonlinear_arith)
        requires
            count <= 0x4000_0000,
            m.line_height <= 0xffff_ffff,
    ;
    count * m.line_height as u64
}

proof fn lemma_longest_nonneg(opts: LayoutOptions, text: Seq<u8>, m: TextMeasurements, start: int)
    ensures
        longest_from(opts, text, m, start) >= 0,
    decreases text.len() - start,
{
    if 0 <= start < text.len() {
        let s = line_step(opts, text, m, start, 0, false);
        if !(s.next <= start || s.next > text.len()) {
            lemma_longest_nonneg(opts, text, m, s.next);
        }
    }
}

/// The size the text takes: the width of its widest line and the height of
/// all its lines, wrapped at `max_width` when there is one.
pub fn text_size(text: &[u8], m: &TextMeasurements, max_width: Option<u32>) -> (r: (u64, u64))
    requires
        measurements_fit(text@, *m),
    ensures
        r.0 == longest_from(size_options(max_width), text@, *m, 0),
        r.1 == line_count(size_options(max_width), text@, *m, 0) * m.line_height,
{
    let opts = LayoutOptions {
        width: match max_width {
            Some(w) => w,
            None => u32::MAX,
        },
        height: 0,
        horizontal_alignment: HorizontalAlignment::Left,
        vertical_alignment: VerticalAlignment::Top,
        wrap: max_width.is_some(),
        elide: false,
        single_line: false,
    };
    let ghost total = longest_from(opts, text@, *m, 0);
    proof {
        lemma_longest_nonneg(opts, text@, *m, 0);
    }
    let mut longest: u64 = 0;
    let mut count: u64 = 0;
    let mut start: usize = 0;
    while start < text.len()
        invariant
            opts == size_options(max_width),
            start <= text@.len() <= 0x3fff_ffff,
            measurements_fit(text@, *m),
            count <= start,
            count + line_count(opts, text@, *m, start as int) == line_count(opts, text@, *m, 0),
            total == longest_from(opts, text@, *m, 0),
            total == (if longest >= longest_from(opts, text@, *m, start as int) {
                longest as int
            } else {
                longest_from(opts, text@, *m, start as int)
            }),
        decreases text@.len() - start,
    {
        proof {
            lemma_line_step_advances(opts, text@, *m, start as int, 0, false);
        }
        let (_, _, width, next) = next_line(&opts, text, m, start, 0, false);
        proof {
            lemma_longest_nonneg(opts, text@, *m, next as int);
        }
        if width > longest {
            longest = width;
        }
        count = count + 1;
        start = next;
    }
    assert(count * m.line_height <= 0x4000_0000 * 0xffff_ffff) by (nonlinear_arith)
        requires
            count <= 0x4000_0000,
            m.line_height <= 0xffff_ffff,
    ;
    (longest, count * m.line_height as u64)
}

/// Lays the text out in lines inside the box. Returns the lines, top to
/// bottom, and the vertical position of the first one.
pub fn layout_text_lines(text: &[u8], m: &TextMeasurements, opts: &LayoutOptions) -> (r: (
    Vec<LaidOutLine>,
    i64,
))
    requires
        measurements_fit(text@, *m),
    ensures
        r.1 == baseline_spec(*opts, text@, *m),
        r.0@ == lines_from(*opts, text@, *m, 0, r.1 as int),
{
    let th = measure_text_height(opts, text, m);
    let baseline = vertical_origin(opts.vertical_alignment, opts.height, th);
    let h = m.line_height as i64;
    let mut lines: Vec<LaidOutLine> = Vec::new();
    let mut y: i64 = baseline;
    let mut start: usize = 0;
    while start < text.len() && y + h <= opts.height as i64
        invariant
            start <= text@.len() <= 0x3fff_ffff,
            measurements_fit(text@, *m),
            h == m.line_height,
            -0x4000_0000_0000_0000 <= y <= 0x1_0000_0000,
            lines@ + lines_from(*opts, text@, *m, start as int, y as int) == lines_from(
                *opts,
                text@,
                *m,
                0,
                baseline as int,
            ),
        decreases text@.len() - start,
    {
        proof {
            lemma_line_step_advances(*opts, text@, *m, start as int, y as int, true);
        }
        let (end, elided, width, next) = next_line(opts, text, m, start, y, true);
        let line = LaidOutLine {
            start,
            end,
            elided,
            x: horizontal_origin(opts.horizontal_alignment, opts.width, width),
            y,
            width,
        };
        proof {
            let rest = lines_from(*opts, text@, *m, next as int, y + h);
            assert(lines_from(*opts, text@, *m, start as int, y as int) == seq![line] + rest);
            assert(lines@.push(line) + rest == lines@ + (seq![line] + rest));
        }
        lines.push(line);
        y = y + h;
        start = next;
    }
    proof {
        assert(lines_from(*opts, text@, *m, start as int, y as int) == Seq::<LaidOutLine>::empty());
        assert(lines@ + Seq::<LaidOutLine>::empty() == lines@);
    }
    (lines, baseline)
}


/// Every line is placed by its alignment: at 0 on the left,
/// `(W - min(Lw, W)) / 2` centred and `W - min(Lw, W)` on the right, for a
/// box of width `W` and a line of measured width `Lw`.
pub proof fn law_line_alignment(
    opts: LayoutOptions,
    text: Seq<u8>,
    m: TextMeasurements,
    start: int,
    y: int,
)
    requires
        measurements_fit(text, m),
    ensures
        forall|i: int|
            0 <= i < lines_from(opts, text, m, start, y).len() ==> {
                let l = #[trigger] lines_from(opts, text, m, start, y)[i];
                l.x as int == x_origin(opts.horizontal_alignment, opts.width as int, l.width as int)
            },
    decreases text.len() - start,
{
    let lines = lines_from(opts, text, m, start, y);
    if !(start < 0 || start >= text.len() || y + m.line_height > opts.height) {
        let s = line_step(opts, text, m, start, y, true);
        let glyphs = m.glyphs@;
        let limit = newline_end(text, start);
        let index = if opts.single_line {
            text.len() as int
        } else {
            limit
        };
        lemma_width_bound(glyphs, start, index);
        lemma_width_bound(
            glyphs,
            start,
            break_search(m.breaks@, glyphs, start, limit, opts.width as int, limit),
        );
        assert(0 <= s.width <= 0xffff_ffff * 0xffff_ffff);
        if !(s.next <= start || s.next > text.len()) {
            law_line_alignment(opts, text, m, s.next, y + m.line_height);
            let rest = lines_from(opts, text, m, s.next, y + m.line_height);
            assert forall|i: int| 0 <= i < lines.len() implies {
                let l = #[trigger] lines[i];
                l.x as int == x_origin(opts.horizontal_alignment, opts.width as int, l.width as int)
            } by {
                if i > 0 {
                    assert(lines[i] == rest[i - 1]);
                }
            }
        }
    }
}

/// The first line of a text that takes one line, in a box of height `H`
/// with lines of height `h`, stands at 0 for top alignment, at
/// `(H - h) / 2` centred and at `H - h` for bottom alignment.
pub proof fn law_vertical_placement(opts: LayoutOptions, text: Seq<u8>, m: TextMeasurements)
    requires
        opts.single_line || line_count(opts, text, m, 0) == 1,
    ensures
        baseline_spec(opts, text, m) == match opts.vertical_alignment {
            VerticalAlignment::Top => 0,
            VerticalAlignment::Center => (opts.height - m.line_height) / 2,
            VerticalAlignment::Bottom => opts.height - m.line_height,
        },
{
}


/// Cluster starts increase strictly and lie inside the text.
pub open spec fn glyphs_ordered(glyphs: Seq<GlyphAdvance>, len: int) -> bool {
    &&& forall|i: int, j: int|
        0 <= i < j < glyphs.len() ==> glyphs[i].byte_index < glyphs[j].byte_index
    &&& forall|i: int| 0 <= i < glyphs.len() ==> glyphs[i].byte_index < len
}

proof fn lemma_width_split(g: Seq<GlyphAdvance>, s: int, e: int, k: int)
    requires
        0 <= k <= g.len(),
    ensures
        width_in(g, s, e) == width_in(g.subrange(0, k), s, e) + width_in(
            g.subrange(k, g.len() as int),
            s,
            e,
        ),
    decreases g.len(),
{
    if k == g.len() {
        assert(g.subrange(0, k) == g);
        assert(g.subrange(k, g.len() as int).len() == 0);
    } else {
        let d = g.drop_last();
        lemma_width_split(d, s, e, k);
        assert(d.subrange(0, k) == g.subrange(0, k));
        let t = g.subrange(k, g.len() as int);
        assert(t.drop_last() == d.subrange(k, d.len() as int));
        assert(t.last() == g.last());
    }
}

proof fn lemma_width_zero(g: Seq<GlyphAdvance>, s: int, e: int)
    requires
        forall|i: int| 0 <= i < g.len() ==> !(s <= #[trigger] g[i].byte_index < e),
    ensures
        width_in(g, s, e) == 0,
    decreases g.len(),
{
    if g.len() > 0 {
        let d = g.drop_last();
        assert forall|i: int| 0 <= i < d.len() implies !(s <= #[trigger] d[i].byte_index < e) by {
            assert(d[i] == g[i]);
        }
        lemma_width_zero(d, s, e);
        assert(g.last() == g[g.len() - 1]);
    }
}

proof fn lemma_width_agree(g: Seq<GlyphAdvance>, s1: int, e1: int, s2: int, e2: int)
    requires
        forall|i: int|
            0 <= i < g.len() ==> (s1 <= #[trigger] g[i].byte_index < e1) == (s2 <= g[i].byte_index
                < e2),
    ensures
        width_in(g, s1, e1) == width_in(g, s2, e2),
    decreases g.len(),
{
    if g.len() > 0 {
        let d = g.drop_last();
        assert forall|i: int| 0 <= i < d.len() implies (s1 <= #[trigger] d[i].byte_index < e1) == (
        s2 <= d[i].byte_index < e2) by {
            assert(d[i] == g[i]);
        }
        lemma_width_agree(d, s1, e1, s2, e2);
        assert(g.last() == g[g.len() - 1]);
    }
}

/// The forward scan either finds a glyph before which the accumulated width
/// is within `limit`, or the whole range is within it.
proof fn lemma_first_overflow_width(
    g: Seq<GlyphAdvance>,
    s: int,
    e: int,
    limit: int,
    i: int,
    acc: int,
)
    requires
        0 <= i <= g.len(),
        acc == width_in(g.subrange(0, i), s, e),
        acc <= limit,
    ensures
        first_overflow(g, s, e, limit, i, acc) is None ==> width_in(g, s, e) <= limit,
        first_overflow(g, s, e, limit, i, acc) matches Some(c) ==> exists|k: int|
            i <= k < g.len() && g[k].byte_index == c && width_in(g.subrange(0, k), s, e)
                <= limit,
    decreases g.len() - i,
{
    if i == g.len() {
        assert(g.subrange(0, i) == g);
    } else {
        let x = g[i];
        let next = g.subrange(0, i + 1);
        assert(next.drop_last() == g.subrange(0, i));
        assert(next.last() == x);
        if s <= x.byte_index < e {
            if acc + x.advance < limit {
                lemma_first_overflow_width(g, s, e, limit, i + 1, acc + x.advance);
            }
        } else {
            lemma_first_overflow_width(g, s, e, limit, i + 1, acc);
        }
    }
}

/// With ordered glyphs, the width up to the cluster start of glyph `k` is
/// that of the glyphs before `k`.
proof fn lemma_width_before_glyph(g: Seq<GlyphAdvance>, len: int, k: int)
    requires
        glyphs_ordered(g, len),
        0 <= k < g.len(),
    ensures
        width_in(g, 0, g[k].byte_index as int) == width_in(g.subrange(0, k), 0, len),
{
    let c = g[k].byte_index as int;
    lemma_width_split(g, 0, c, k);
    let tail = g.subrange(k, g.len() as int);
    assert forall|i: int| 0 <= i < tail.len() implies !(0 <= #[trigger] tail[i].byte_index < c) by {
        assert(tail[i] == g[k + i]);
    }
    lemma_width_zero(tail, 0, c);
    let head = g.subrange(0, k);
    assert forall|i: int| 0 <= i < head.len() implies (0 <= #[trigger] head[i].byte_index < c) == (0
        <= head[i].byte_index < len) by {
        assert(head[i] == g[i]);
    }
    lemma_width_agree(head, 0, c, 0, len);
}

proof fn lemma_no_newline_end(text: Seq<u8>, i: int)
    requires
        0 <= i <= text.len(),
        forall|j: int| 0 <= j < text.len() ==> text[j] != NEWLINE,
    ensures
        newline_end(text, i) == text.len(),
    decreases text.len() - i,
{
    if i < text.len() {
        lemma_no_newline_end(text, i + 1);
    }
}

proof fn lemma_no_break(len: int, breaks: Seq<usize>, g: Seq<GlyphAdvance>, width: int, b: int)
    requires
        0 <= b <= len,
        forall|i: int| 0 <= i < breaks.len() ==> !(0 < #[trigger] breaks[i] < len),
        width_in(g, 0, len) > width,
    ensures
        break_search(breaks, g, 0, len, width, b) == 0,
    decreases b,
{
    if b > 0 {
        if b < len && is_break(breaks, b, len) {
            let i = choose|i: int| 0 <= i < breaks.len() && breaks[i] == b;
            assert(!(0 < breaks[i] < len));
        }
        lemma_no_break(len, breaks, g, width, b - 1);
    }
}

/// A word without a newline and without a break opportunity inside it that
/// is wider than the box, laid out with wrapping and elision on a row that
/// fits, becomes one line: a prefix of the word followed by the ellipsis,
/// together no wider than the box, and nothing of the text is left for a
/// next line. The glyphs' cluster starts must increase and the ellipsis
/// alone must fit in the box.
pub proof fn law_unbreakable_word_is_elided(
    opts: LayoutOptions,
    text: Seq<u8>,
    m: TextMeasurements,
    y: int,
)
    requires
        measurements_fit(text, m),
        glyphs_ordered(m.glyphs@, text.len() as int),
        text.len() > 0,
        forall|j: int| 0 <= j < text.len() ==> text[j] != NEWLINE,
        forall|i: int| 0 <= i < m.breaks@.len() ==> !(0 < #[trigger] m.breaks@[i] < text.len()),
        width_in(m.glyphs@, 0, text.len() as int) > opts.width,
        opts.wrap,
        opts.elide,
        m.ellipsis_width <= opts.width,
        y + m.line_height <= opts.height,
    ensures
        line_step(opts, text, m, 0, y, true).next == text.len(),
        lines_from(opts, text, m, 0, y).len() == 1,
        ({
            let l = lines_from(opts, text, m, 0, y)[0];
            &&& l.start == 0
            &&& l.elided
            &&& width_in(m.glyphs@, 0, l.end as int) + m.ellipsis_width <= opts.width
        }),
{
    let g = m.glyphs@;
    let len = text.len() as int;
    lemma_no_newline_end(text, 0);
    lemma_no_break(len, m.breaks@, g, opts.width as int, len);
    let limit = opts.width - m.ellipsis_width;
    assert(g.subrange(0, 0) =~= Seq::<GlyphAdvance>::empty());
    lemma_first_overflow_width(g, 0, len, limit, 0, 0);
    let c = first_overflow(g, 0, len, limit, 0, 0)->Some_0;
    let k = choose|k: int|
        0 <= k < g.len() && g[k].byte_index == c && width_in(g.subrange(0, k), 0, len) <= limit;
    lemma_width_before_glyph(g, len, k);
    lemma_first_overflow_bounds(g, 0, len, limit, 0, 0);
    let st = line_step(opts, text, m, 0, y, true);
    assert(st.end == c && st.elided && st.next == len);
    assert(lines_from(opts, text, m, len, y + m.line_height).len() == 0);
}

} // verus!
