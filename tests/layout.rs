use gl_fonts::layout::{
    horizontal_origin, layout_text_lines, measure_text_height, vertical_origin, GlyphAdvance,
    HorizontalAlignment, LayoutOptions, TextMeasurements, VerticalAlignment,
};

/// Every byte is one glyph of the given advance; lines may break after spaces.
fn uniform(text: &str, advance: u32, line_height: u32, ellipsis_width: u32) -> TextMeasurements {
    let glyphs = (0..text.len()).map(|i| GlyphAdvance { byte_index: i, advance }).collect();
    let breaks = text.bytes().enumerate().filter(|(_, b)| *b == b' ').map(|(i, _)| i + 1).collect();
    TextMeasurements { glyphs, breaks, line_height, ellipsis_width }
}

fn options(width: u32, height: u32) -> LayoutOptions {
    LayoutOptions {
        width,
        height,
        horizontal_alignment: HorizontalAlignment::Left,
        vertical_alignment: VerticalAlignment::Top,
        wrap: false,
        elide: false,
        single_line: false,
    }
}

#[test]
fn alignment_of_a_narrow_line() {
    assert_eq!(horizontal_origin(HorizontalAlignment::Center, 200, 50), 75);
    assert_eq!(horizontal_origin(HorizontalAlignment::Right, 200, 50), 150);
    assert_eq!(horizontal_origin(HorizontalAlignment::Left, 200, 50), 0);
}

#[test]
fn alignment_of_a_line_wider_than_the_box() {
    assert_eq!(horizontal_origin(HorizontalAlignment::Center, 200, 500), 0);
    assert_eq!(horizontal_origin(HorizontalAlignment::Right, 200, 500), 0);
}

#[test]
fn vertical_placement_of_one_line() {
    assert_eq!(vertical_origin(VerticalAlignment::Bottom, 100, 20), 80);
    assert_eq!(vertical_origin(VerticalAlignment::Center, 100, 20), 40);
    assert_eq!(vertical_origin(VerticalAlignment::Top, 100, 20), 0);
}

#[test]
fn vertical_placement_of_text_taller_than_the_box() {
    assert_eq!(vertical_origin(VerticalAlignment::Center, 10, 13), -2);
    assert_eq!(vertical_origin(VerticalAlignment::Bottom, 10, 13), -3);
}

#[test]
fn centred_single_line_in_layout() {
    let text = "hello";
    let m = uniform(text, 10, 20, 5);
    let mut opts = options(200, 100);
    opts.horizontal_alignment = HorizontalAlignment::Center;
    opts.vertical_alignment = VerticalAlignment::Center;
    let (lines, baseline) = layout_text_lines(text.as_bytes(), &m, &opts);
    assert_eq!(baseline, 40);
    assert_eq!(lines.len(), 1);
    assert_eq!(lines[0].x, 75);
    assert_eq!(lines[0].y, 40);
    assert_eq!(lines[0].width, 50);
    assert_eq!((lines[0].start, lines[0].end, lines[0].elided), (0, 5, false));
}

#[test]
fn bottom_aligned_single_line() {
    let text = "hi";
    let m = uniform(text, 10, 20, 5);
    let mut opts = options(200, 100);
    opts.single_line = true;
    opts.vertical_alignment = VerticalAlignment::Bottom;
    let (_, baseline) = layout_text_lines(text.as_bytes(), &m, &opts);
    assert_eq!(baseline, 80);
}

#[test]
fn unbreakable_word_is_elided() {
    let text = "abcdefghij";
    let m = uniform(text, 10, 20, 15);
    let mut opts = options(50, 100);
    opts.wrap = true;
    opts.elide = true;
    let (lines, _) = layout_text_lines(text.as_bytes(), &m, &opts);
    assert_eq!(lines.len(), 1);
    let line = lines[0];
    assert_eq!(line.start, 0);
    assert!(line.elided);
    // "abc" fits before the ellipsis: 30 + 15 <= 50.
    assert_eq!(line.end, 3);
    assert!(line.end as u32 * 10 + 15 <= 50);
    assert_eq!(line.width, 100);
}

#[test]
fn unbreakable_word_is_cut_without_elision() {
    let text = "abcdefghij";
    let m = uniform(text, 10, 20, 15);
    let mut opts = options(45, 100);
    opts.wrap = true;
    let (lines, _) = layout_text_lines(text.as_bytes(), &m, &opts);
    assert_eq!(lines.len(), 1);
    assert_eq!((lines[0].end, lines[0].elided), (4, false));
}

#[test]
fn wrapping_breaks_after_spaces() {
    let text = "aa bb cc";
    let m = uniform(text, 10, 20, 15);
    let mut opts = options(60, 100);
    opts.wrap = true;
    let (lines, baseline) = layout_text_lines(text.as_bytes(), &m, &opts);
    assert_eq!(baseline, 0);
    let ranges: Vec<(usize, usize)> = lines.iter().map(|l| (l.start, l.end)).collect();
    assert_eq!(ranges, vec![(0, 6), (6, 8)]);
    assert_eq!(lines[1].y, 20);
}

#[test]
fn newlines_end_lines() {
    let text = "ab\ncd\nef";
    let m = uniform(text, 10, 20, 15);
    let opts = options(200, 100);
    let (lines, _) = layout_text_lines(text.as_bytes(), &m, &opts);
    let ranges: Vec<(usize, usize)> = lines.iter().map(|l| (l.start, l.end)).collect();
    assert_eq!(ranges, vec![(0, 3), (3, 6), (6, 8)]);
    assert_eq!(measure_text_height(&opts, text.as_bytes(), &m), 60);
}

#[test]
fn last_fitting_row_is_elided() {
    let text = "ab\ncd\nef";
    let m = uniform(text, 10, 20, 15);
    let mut opts = options(200, 45);
    opts.elide = true;
    let (lines, _) = layout_text_lines(text.as_bytes(), &m, &opts);
    assert_eq!(lines.len(), 2);
    assert!(!lines[0].elided);
    assert!(lines[1].elided);
    assert_eq!((lines[1].start, lines[1].end), (3, 6));
}

#[test]
fn lines_stop_at_the_bottom_of_the_box() {
    let text = "a\nb\nc\nd";
    let m = uniform(text, 10, 20, 15);
    let opts = options(200, 50);
    let (lines, _) = layout_text_lines(text.as_bytes(), &m, &opts);
    assert_eq!(lines.len(), 2);
}

#[test]
fn empty_text_has_no_lines() {
    let m = uniform("", 10, 20, 15);
    let mut opts = options(200, 100);
    opts.vertical_alignment = VerticalAlignment::Bottom;
    let (lines, baseline) = layout_text_lines(b"", &m, &opts);
    assert!(lines.is_empty());
    assert_eq!(baseline, 100);
}

#[test]
fn single_line_keeps_newlines() {
    let text = "ab\ncd";
    let m = uniform(text, 10, 20, 15);
    let mut opts = options(200, 100);
    opts.single_line = true;
    let (lines, _) = layout_text_lines(text.as_bytes(), &m, &opts);
    assert_eq!(lines.len(), 1);
    assert_eq!(lines[0].end, 5);
}

#[test]
fn text_size_without_wrapping() {
    let text = "ab\ncdef";
    let m = uniform(text, 10, 20, 15);
    assert_eq!(gl_fonts::layout::text_size(text.as_bytes(), &m, None), (40, 40));
}

#[test]
fn text_size_with_wrapping() {
    let text = "aa bb cc";
    let m = uniform(text, 10, 20, 15);
    assert_eq!(gl_fonts::layout::text_size(text.as_bytes(), &m, Some(60)), (60, 40));
}

#[test]
fn wrapping_uses_listed_breaks_without_spaces() {
    // Three ideographs of three bytes each, one glyph each, breakable between.
    let text = "\u{4E00}\u{4E01}\u{4E02}";
    let m = TextMeasurements {
        glyphs: vec![
            GlyphAdvance { byte_index: 0, advance: 10 },
            GlyphAdvance { byte_index: 3, advance: 10 },
            GlyphAdvance { byte_index: 6, advance: 10 },
        ],
        breaks: vec![3, 6],
        line_height: 20,
        ellipsis_width: 5,
    };
    let mut opts = options(25, 100);
    opts.wrap = true;
    let (lines, _) = layout_text_lines(text.as_bytes(), &m, &opts);
    let ranges: Vec<(usize, usize, bool)> = lines.iter().map(|l| (l.start, l.end, l.elided)).collect();
    assert_eq!(ranges, vec![(0, 6, false), (6, 9, false)]);
}
