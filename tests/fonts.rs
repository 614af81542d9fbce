use gl_fonts::cache::{cache_key, FontCache, FontCacheKey, FontRequest, LoadedFont};
use gl_fonts::coverage::{CoverageCheckResult, CoverageTable, FaceData, Requirement};
use gl_fonts::fallback::{required_coverage, FontAction, FontResolution};
use gl_fonts::font::{scale_to_pixels, ScaledFont};
use gl_fonts::register::FontError;
use gl_fonts::script::{coverage_key, needs_glyph, CoverageKey};

fn be16(v: &mut Vec<u8>, x: u16) {
    v.extend_from_slice(&x.to_be_bytes());
}

fn be32(v: &mut Vec<u8>, x: u32) {
    v.extend_from_slice(&x.to_be_bytes());
}

/// A minimal TrueType font that maps each character of `ranges` (inclusive)
/// to its own glyph, numbered from 1, every glyph 500 units wide.
fn test_font(ascender: i16, descender: i16, units_per_em: u16, ranges: &[(u32, u32)]) -> &'static [u8] {
    let glyph_count: u32 = 1 + ranges.iter().map(|(a, b)| b - a + 1).sum::<u32>();
    let mut head = Vec::new();
    be32(&mut head, 0x0001_0000);
    be32(&mut head, 0x0001_0000);
    be32(&mut head, 0);
    be32(&mut head, 0x5F0F_3CF5);
    be16(&mut head, 0);
    be16(&mut head, units_per_em);
    head.extend_from_slice(&[0u8; 16]);
    head.extend_from_slice(&[0u8; 8]);
    be16(&mut head, 0);
    be16(&mut head, 8);
    be16(&mut head, 2);
    be16(&mut head, 0);
    be16(&mut head, 0);
    let mut hhea = Vec::new();
    be32(&mut hhea, 0x0001_0000);
    be16(&mut hhea, ascender as u16);
    be16(&mut hhea, descender as u16);
    be16(&mut hhea, 0);
    hhea.extend_from_slice(&[0u8; 24]);
    be16(&mut hhea, glyph_count as u16);
    let mut maxp = Vec::new();
    be32(&mut maxp, 0x0000_5000);
    be16(&mut maxp, glyph_count as u16);
    let mut hmtx = Vec::new();
    for _ in 0..glyph_count {
        be16(&mut hmtx, 500);
        be16(&mut hmtx, 0);
    }
    let mut cmap = Vec::new();
    be16(&mut cmap, 0);
    be16(&mut cmap, 1);
    be16(&mut cmap, 0);
    be16(&mut cmap, 4);
    be32(&mut cmap, 12);
    be16(&mut cmap, 12);
    be16(&mut cmap, 0);
    be32(&mut cmap, 16 + 12 * ranges.len() as u32);
    be32(&mut cmap, 0);
    be32(&mut cmap, ranges.len() as u32);
    let mut next_glyph = 1;
    for (a, b) in ranges {
        be32(&mut cmap, *a);
        be32(&mut cmap, *b);
        be32(&mut cmap, next_glyph);
        next_glyph += b - a + 1;
    }
    let tables: Vec<(&[u8; 4], Vec<u8>)> =
        vec![(b"cmap", cmap), (b"head", head), (b"hhea", hhea), (b"hmtx", hmtx), (b"maxp", maxp)];
    let mut out = Vec::new();
    be32(&mut out, 0x0001_0000);
    be16(&mut out, tables.len() as u16);
    be16(&mut out, 64);
    be16(&mut out, 2);
    be16(&mut out, 16);
    let mut offset = 12 + 16 * tables.len() as u32;
    for (tag, data) in &tables {
        out.extend_from_slice(*tag);
        be32(&mut out, 0);
        be32(&mut out, offset);
        be32(&mut out, data.len() as u32);
        offset += (data.len() as u32 + 3) & !3;
    }
    for (_, data) in &tables {
        out.extend_from_slice(data);
        while out.len() % 4 != 0 {
            out.push(0);
        }
    }
    Box::leak(out.into_boxed_slice())
}

fn latin_font(face: u32, shaping_font: u32) -> LoadedFont {
    let data = test_font(800, -200, 1000, &[(0x30, 0x39), (0x41, 0x5A), (0x61, 0x7A)]);
    LoadedFont::new(face, shaping_font, data, 0).unwrap()
}

fn cjk_font(face: u32, shaping_font: u32) -> LoadedFont {
    let data = test_font(900, -300, 1000, &[(0x4E00, 0x4E2F)]);
    LoadedFont::new(face, shaping_font, data, 0).unwrap()
}

fn request(family: Option<&str>) -> FontRequest {
    FontRequest {
        family: family.map(|f| f.to_string()),
        weight: None,
        pixel_size: None,
        letter_spacing: None,
    }
}

fn key(family: &str) -> FontCacheKey {
    FontCacheKey { family: Some(family.to_string()), weight: 400 }
}

#[test]
fn control_and_whitespace_need_no_glyph() {
    assert!(!needs_glyph(' '));
    assert!(!needs_glyph('\n'));
    assert!(!needs_glyph('\u{85}'));
    assert!(needs_glyph('a'));
    assert!(needs_glyph('\u{4E2D}'));
}

#[test]
fn shared_script_characters_are_keyed_by_themselves() {
    assert_eq!(coverage_key('1'), CoverageKey::Char('1'));
    assert_eq!(coverage_key('\u{2713}'), CoverageKey::Char('\u{2713}'));
    assert!(matches!(coverage_key('a'), CoverageKey::Script(_)));
    assert_eq!(coverage_key('a'), coverage_key('z'));
    assert_ne!(coverage_key('a'), coverage_key('\u{4E2D}'));
}

#[test]
fn face_metrics_are_read() {
    let f = latin_font(0, 0);
    assert_eq!((f.ascent, f.descent, f.units_per_em), (800, -200, 1000));
    assert_eq!(LoadedFont::new(0, 0, b"not a font", 0).err(), Some(FontError::UnparsableFace));
}

#[test]
fn design_units_scale_toward_zero() {
    assert_eq!(scale_to_pixels(800, 768, 1000), 614);
    assert_eq!(scale_to_pixels(-200, 768, 1000), -153);
    assert_eq!(scale_to_pixels(0, 768, 1000), 0);
}

#[test]
fn second_coverage_query_costs_no_probe() {
    let f = latin_font(7, 0);
    let face = f.face_data();
    let mut table = CoverageTable::new();
    assert_eq!(table.face_supports_char(&face, 'a'), (true, true));
    assert_eq!(table.face_supports_char(&face, 'a'), (true, false));
    // Same script, already recorded.
    assert_eq!(table.face_supports_char(&face, 'q'), (true, false));
    assert_eq!(table.face_supports_char(&face, '\u{4E2D}'), (false, true));
    assert_eq!(table.face_supports_char(&face, '\u{4E2D}'), (false, false));
    assert_eq!(table.lookup(7, coverage_key('b')), Some(true));
}

#[test]
fn control_and_whitespace_are_supported_without_a_probe() {
    let face = FaceData { face: 1, data: b"garbage", index: 0 };
    let mut table = CoverageTable::new();
    assert_eq!(table.face_supports_char(&face, '\n'), (true, false));
    assert_eq!(table.face_supports_char(&face, ' '), (true, false));
    assert_eq!(table.lookup(1, coverage_key(' ')), None);
}

#[test]
fn unparsable_face_covers_nothing() {
    let face = FaceData { face: 1, data: b"garbage", index: 0 };
    let mut table = CoverageTable::new();
    assert_eq!(table.face_supports_char(&face, 'a'), (false, true));
}

#[test]
fn coverage_check_results() {
    let latin = latin_font(1, 0);
    let cjk = cjk_font(2, 1);
    let mut table = CoverageTable::new();
    let mut uncovered = required_coverage("ab 1\u{4E2D}");
    assert_eq!(uncovered.len(), 3);
    let r = table.check_and_update_coverage(&mut uncovered, &latin.face_data());
    assert_eq!(r, (CoverageCheckResult::Improved, 3));
    assert_eq!(uncovered, vec![Requirement { key: coverage_key('\u{4E2D}'), sample: '\u{4E2D}' }]);
    // Everything left is recorded for this face: no probe.
    let r = table.check_and_update_coverage(&mut uncovered, &latin.face_data());
    assert_eq!(r, (CoverageCheckResult::Incomplete, 0));
    let r = table.check_and_update_coverage(&mut uncovered, &cjk.face_data());
    assert_eq!(r, (CoverageCheckResult::Complete, 1));
    assert!(uncovered.is_empty());
}

#[test]
fn requirements_skip_whitespace_and_repeat_scripts() {
    let reqs = required_coverage("ab\tc 11");
    assert_eq!(
        reqs,
        vec![
            Requirement { key: coverage_key('a'), sample: 'a' },
            Requirement { key: CoverageKey::Char('1'), sample: '1' },
        ]
    );
}

#[test]
fn cache_returns_the_first_loaded_face() {
    let mut cache = FontCache::new(vec!["Latin".to_string()]);
    let k = cache_key(&request(Some("Latin")));
    assert_eq!(k.weight, 400);
    assert!(cache.cached_font(&k).is_none());
    let first = latin_font(1, 10);
    let stored = cache.insert_font(k.clone(), first);
    assert_eq!(stored.shaping_font, 10);
    let again = cache.insert_font(k.clone(), latin_font(1, 11));
    assert_eq!(again.shaping_font, 10);
    assert_eq!(cache.cached_font(&k).unwrap().shaping_font, 10);
    let other = FontCacheKey { family: Some("Latin".to_string()), weight: 700 };
    assert!(cache.cached_font(&other).is_none());
}

#[test]
fn known_families() {
    let cache = FontCache::new(vec!["Latin".to_string(), "Han".to_string()]);
    assert!(cache.is_known_family(&Some("Han".to_string())));
    assert!(!cache.is_known_family(&Some("Nope".to_string())));
    assert!(!cache.is_known_family(&None));
}

#[test]
fn generic_family_key() {
    let k = cache_key(&request(None));
    assert_eq!(k.family, None);
    assert_eq!(k.weight, 400);
}

/// Drives a resolution with faces by family name.
fn resolve(
    cache: &mut FontCache,
    req: &FontRequest,
    text: &str,
    faces: &[(&str, LoadedFont)],
    fallbacks: &[&str],
) -> (gl_fonts::font::Font, Vec<String>) {
    let mut walk = FontResolution::new(req, 64, text);
    let mut loaded = Vec::new();
    loop {
        match walk.action() {
            FontAction::Load(k) => {
                let name = k.family.clone().unwrap_or_default();
                loaded.push(name.clone());
                let font = faces.iter().find(|(n, _)| *n == name).unwrap().1;
                let font = match cache.cached_font(&k) {
                    Some(f) => f,
                    None => cache.insert_font(k, font),
                };
                walk.offer_font(cache, font);
            }
            FontAction::EnumerateFallbacks => {
                let names: Vec<String> = fallbacks.iter().map(|s| s.to_string()).collect();
                walk.offer_fallbacks(cache, &names);
            }
            FontAction::Finish => return (walk.finish(), loaded),
        }
    }
}

#[test]
fn fallback_covers_cjk() {
    let latin = latin_font(1, 100);
    let cjk = cjk_font(2, 200);
    let mut cache = FontCache::new(vec!["Latin".to_string(), "Han".to_string()]);
    let faces = [("Latin", latin), ("Han", cjk)];
    let (font, loaded) = resolve(&mut cache, &request(Some("Latin")), "abc \u{4E2D}", &faces, &["Han"]);
    assert_eq!(loaded, vec!["Latin".to_string(), "Han".to_string()]);
    assert_eq!(font.font_count(), 2);
    assert_eq!(font.font_at(0).font.shaping_font, 100);
    assert_eq!(font.font_at(1).font.shaping_font, 200);
    assert_eq!(font.pixel_size(), 768);
    let g = font.glyph_for_char('\u{4E2D}').unwrap();
    assert_eq!(g.platform_glyph.font_id, Some(200));
    assert_eq!(g.platform_glyph.glyph_id, Some(0x2D + 1));
    assert_eq!(g.advance, 384);
    let g = font.glyph_for_char('a').unwrap();
    assert_eq!(g.platform_glyph.font_id, Some(100));
    assert!(font.glyph_for_char('\u{3042}').is_none());
}

#[test]
fn fallbacks_that_add_nothing_are_dropped_and_walk_stops_when_complete() {
    let latin = latin_font(1, 100);
    let latin2 = latin_font(3, 300);
    let cjk = cjk_font(2, 200);
    let mut cache = FontCache::new(vec!["Latin".to_string(), "Latin2".to_string(), "Han".to_string()]);
    let faces = [("Latin", latin), ("Latin2", latin2), ("Han", cjk)];
    let (font, loaded) = resolve(
        &mut cache,
        &request(Some("Latin")),
        "a\u{4E2D}",
        &faces,
        &["Unknown", "Latin2", "Han", "Latin"],
    );
    // "Unknown" is not in the database; "Latin2" is loaded but adds nothing;
    // after "Han" nothing is uncovered, so "Latin" is never tried again.
    assert_eq!(loaded, vec!["Latin".to_string(), "Latin2".to_string(), "Han".to_string()]);
    assert_eq!(font.font_count(), 2);
    assert_eq!(font.font_at(1).font.shaping_font, 200);
}

#[test]
fn covered_text_needs_no_fallbacks() {
    let latin = latin_font(1, 100);
    let mut cache = FontCache::new(vec!["Latin".to_string()]);
    let faces = [("Latin", latin)];
    let (font, loaded) = resolve(&mut cache, &request(Some("Latin")), "abc", &faces, &["Latin"]);
    assert_eq!(loaded, vec!["Latin".to_string()]);
    assert_eq!(font.font_count(), 1);
}

#[test]
fn composite_metrics_are_the_most_extreme() {
    let latin = latin_font(1, 100);
    let cjk = cjk_font(2, 200);
    let mut cache = FontCache::new(vec!["Latin".to_string(), "Han".to_string()]);
    let faces = [("Latin", latin), ("Han", cjk)];
    let (font, _) = resolve(&mut cache, &request(Some("Latin")), "a\u{4E2D}", &faces, &["Han"]);
    // 900 * 768 / 1000 and -300 * 768 / 1000, toward zero.
    assert_eq!(font.ascent(), 691);
    assert_eq!(font.descent(), -230);
}

#[test]
fn pixel_size_follows_request_and_scale() {
    let mut req = request(Some("Latin"));
    req.pixel_size = Some(640);
    let walk = FontResolution::new(&req, 128, "a");
    let latin = latin_font(1, 100);
    let mut cache = FontCache::new(vec!["Latin".to_string()]);
    let mut walk = walk;
    walk.offer_font(&mut cache, latin);
    assert!(matches!(walk.action(), FontAction::Finish));
    assert_eq!(walk.finish().pixel_size(), 1280);
}

#[test]
fn has_glyph_for_char_uses_the_table() {
    let latin = latin_font(1, 100);
    let mut cache = FontCache::new(Vec::new());
    assert!(cache.has_glyph_for_char(&latin, ' '));
    assert!(cache.has_glyph_for_char(&latin, 'x'));
    assert!(!cache.has_glyph_for_char(&latin, '\u{4E2D}'));
    assert_eq!(cache.face_supports_char(&latin.face_data(), 'y'), (true, false));
}

#[test]
fn shaping_gives_scaled_glyphs_with_byte_offsets() {
    let f = ScaledFont { font: latin_font(1, 100), pixel_size: 768 };
    let glyphs = f.shape_text("ab");
    assert_eq!(glyphs.len(), 2);
    assert_eq!(glyphs[0].text_byte_offset, 0);
    assert_eq!(glyphs[1].text_byte_offset, 1);
    assert_eq!(glyphs[0].advance, 384);
    assert_eq!(glyphs[0].platform_glyph.font_id, Some(100));
    assert!(glyphs[0].platform_glyph.glyph_id.is_some());
}

#[test]
fn single_glyph_lookup_without_shaping() {
    let f = ScaledFont { font: latin_font(1, 100), pixel_size: 768 };
    let g = f.glyph_for_char('B').unwrap();
    assert_eq!(g.platform_glyph.glyph_id, Some(11 + 1));
    assert_eq!(g.advance, 384);
    assert!(f.glyph_for_char('\u{4E2D}').is_none());
}

#[test]
fn composite_shaping_splits_runs_by_font() {
    let latin = latin_font(1, 100);
    let cjk = cjk_font(2, 200);
    let mut cache = FontCache::new(vec!["Latin".to_string(), "Han".to_string()]);
    let faces = [("Latin", latin), ("Han", cjk)];
    let (font, _) = resolve(&mut cache, &request(Some("Latin")), "a\u{4E2D}", &faces, &["Han"]);
    let glyphs = font.shape_text("ab\u{4E2D}c");
    let offsets: Vec<usize> = glyphs.iter().map(|g| g.text_byte_offset).collect();
    assert_eq!(offsets, vec![0, 1, 2, 5]);
    let fonts: Vec<Option<u32>> = glyphs.iter().map(|g| g.platform_glyph.font_id).collect();
    assert_eq!(fonts, vec![Some(100), Some(100), Some(200), Some(100)]);
    assert_eq!(font.font_index_for('\u{4E2D}'), 1);
    assert_eq!(font.font_index_for('\u{3042}'), 0);
}
