//! The font cache: loaded faces keyed by (family, weight), the families the
//! font database knows, and the glyph coverage table.

use crate::coverage::{
    check_result, face_maps_char, keys_distinct, learn, query_outcome, unrecorded_count, still_uncovered, CoverageCheckResult,
    CoverageMap, CoverageTable, FaceData, Requirement,
};
use crate::register::FontError;
use crate::script::{coverage_key_of, needs_glyph_spec};
use vstd::prelude::*;

verus! {

/// CSS "normal".
pub const DEFAULT_FONT_WEIGHT: i32 = 400;

/// 12 px, in layout units of 1/64 px.
pub const DEFAULT_FONT_SIZE: u32 = 768;

/// One unit of scale: a scale factor of 64 leaves sizes as they are.
pub const SCALE_ONE: u32 = 64;

/// A requested font. An absent family stands for the generic sans-serif
/// family; sizes and spacing are in layout units.
#[derive(Clone, Debug)]
pub struct FontRequest {
    pub family: Option<String>,
    pub weight: Option<i32>,
    pub pixel_size: Option<u32>,
    pub letter_spacing: Option<i32>,
}

/// What the cache keys loaded faces by.
#[derive(Clone, Debug)]
pub struct FontCacheKey {
    pub family: Option<String>,
    pub weight: i32,
}

pub type KeyModel = (Option<Seq<char>>, i32);

pub open spec fn family_model(f: Option<String>) -> Option<Seq<char>> {
    match f {
        Some(s) => Some(s@),
        None => None,
    }
}

pub open spec fn key_model(k: FontCacheKey) -> KeyModel {
    (family_model(k.family), k.weight)
}

/// The cache key of a request: its family, and its weight or the default one.
pub open spec fn request_key(r: FontRequest) -> KeyModel {
    (
        family_model(r.family),
        match r.weight {
            Some(w) => w,
            None => DEFAULT_FONT_WEIGHT,
        },
    )
}

/// A loaded face: where it stands in the font database, the id it was
/// registered under with the renderer, its font data and its metrics in
/// design units. Its data stays valid for the life of the process.
#[derive(Clone, Copy, Debug)]
pub struct LoadedFont {
    pub face: u32,
    pub shaping_font: u32,
    pub data: &'static [u8],
    pub face_index: u32,
    pub ascent: i16,
    pub descent: i16,
    pub units_per_em: u16,
}

/// Ascender, descender and units per em of a parsed face.
pub uninterp spec fn face_metrics_of(data: Seq<u8>, index: u32) -> Option<(i16, i16, u16)>;

/// Relies on `ttf_parser::Face::from_slice` and the face's `ascender`,
/// `descender` and `units_per_em`; ttf-parser guarantees units per em in
/// `16..=16384`.
#[verifier::external_body]
fn parse_face_metrics(data: &[u8], index: u32) -> (r: Option<(i16, i16, u16)>)
    ensures
        r == face_metrics_of(data@, index),
        r matches Some(m) ==> 16 <= m.2 <= 16384,
{
    match ttf_parser::Face::from_slice(data, index) {
        Ok(face) => Some((face.ascender(), face.descender(), face.units_per_em())),
        Err(_) => None,
    }
}

pub open spec fn loaded_font_wf(f: LoadedFont) -> bool {
    16 <= f.units_per_em <= 16384
}

impl LoadedFont {
    /// Reads the metrics of a face; `UnparsableFace` when its data does not
    /// parse.
    pub fn new(face: u32, shaping_font: u32, data: &'static [u8], face_index: u32) -> (r: Result<
        LoadedFont,
        FontError,
    >)
        ensures
            r is Ok <==> face_metrics_of(data@, face_index) is Some,
            r is Err ==> r == Err::<LoadedFont, FontError>(FontError::UnparsableFace),
            r matches Ok(f) ==> {
                let m = face_metrics_of(data@, face_index)->Some_0;
                &&& f.face == face
                &&& f.shaping_font == shaping_font
                &&& f.data == data
                &&& f.face_index == face_index
                &&& (f.ascent, f.descent, f.units_per_em) == m
                &&& loaded_font_wf(f)
            },
    {
        match parse_face_metrics(data, face_index) {
            Some((ascent, descent, units_per_em)) => Ok(
                LoadedFont { face, shaping_font, data, face_index, ascent, descent, units_per_em },
            ),
            None => Err(FontError::UnparsableFace),
        }
    }

    /// The face as the coverage table sees it.
    pub fn face_data(&self) -> (r: FaceData<'static>)
        ensures
            r.face == self.face,
            r.data == self.data,
            r.index == self.face_index,
    {
        FaceData { face: self.face, data: self.data, index: self.face_index }
    }
}

/// The loaded faces after offering `f` for `k` to a cache holding `m`, and
/// the face the cache answers with.
pub open spec fn insert_outcome(m: Map<KeyModel, LoadedFont>, k: KeyModel, f: LoadedFont) -> (
    Map<KeyModel, LoadedFont>,
    LoadedFont,
) {
    if m.contains_key(k) {
        (m, m[k])
    } else {
        (m.insert(k, f), f)
    }
}

/// Resolving the same (family, weight) twice gives the same face: after the
/// first resolution the face is cached, so the second one is a cache hit
/// that needs no load, returns the face of the first, and leaves the cache
/// as it was, whatever face a second load would have produced.
pub proof fn law_resolve_idempotent(
    m: Map<KeyModel, LoadedFont>,
    k: KeyModel,
    first: LoadedFont,
    second: LoadedFont,
)
    ensures
        ({
            let (m1, r1) = insert_outcome(m, k, first);
            let (m2, r2) = insert_outcome(m1, k, second);
            &&& m1.contains_key(k)
            &&& m1[k] == r1
            &&& m2 == m1
            &&& r2 == r1
        }),
{
}

#[derive(Clone, Debug)]
struct CacheEntry {
    key: FontCacheKey,
    font: LoadedFont,
}

pub open spec fn find_font(s: Seq<(KeyModel, LoadedFont)>, k: KeyModel) -> Option<LoadedFont>
    decreases s.len(),
{
    if s.len() == 0 {
        None
    } else if s.last().0 == k {
        Some(s.last().1)
    } else {
        find_font(s.drop_last(), k)
    }
}

pub open spec fn fonts_map(s: Seq<(KeyModel, LoadedFont)>) -> Map<KeyModel, LoadedFont> {
    Map::new(|k: KeyModel| find_font(s, k) is Some, |k: KeyModel| find_font(s, k)->Some_0)
}

/// Whether two optional family names are the same.
pub fn same_family(a: &Option<String>, b: &Option<String>) -> (r: bool)
    ensures
        r == (family_model(*a) == family_model(*b)),
{
    match (a, b) {
        (Some(x), Some(y)) => *x == *y,
        (None, None) => true,
        _ => false,
    }
}

/// The process's font cache.
pub struct FontCache {
    loaded: Vec<CacheEntry>,
    families: Vec<String>,
    coverage: CoverageTable,
}

impl FontCache {
    spec fn entries_model(&self) -> Seq<(KeyModel, LoadedFont)> {
        self.loaded@.map_values(|e: CacheEntry| (key_model(e.key), e.font))
    }

    /// The loaded faces by (family, weight).
    pub closed spec fn fonts(&self) -> Map<KeyModel, LoadedFont> {
        fonts_map(self.entries_model())
    }

    /// What is known of the coverage of each face.
    pub closed spec fn coverage(&self) -> CoverageMap {
        self.coverage@
    }

    /// The families the font database knows.
    pub closed spec fn known_families(&self) -> Seq<Seq<char>> {
        self.families@.map_values(|s: String| s@)
    }

    pub closed spec fn wf(&self) -> bool {
        forall|k: KeyModel| #[trigger]
            self.fonts().contains_key(k) ==> loaded_font_wf(self.fonts()[k])
    }

    /// An empty cache over a font database that knows `families`.
    pub fn new(families: Vec<String>) -> (r: FontCache)
        ensures
            r.wf(),
            r.fonts() == Map::<KeyModel, LoadedFont>::empty(),
            r.known_families() == families@.map_values(|s: String| s@),
            r.coverage() == CoverageMap::empty(),
    {
        let r = FontCache { loaded: Vec::new(), families, coverage: CoverageTable::new() };
        assert(r.fonts() =~= Map::<KeyModel, LoadedFont>::empty());
        r
    }

    /// Whether the request names a family the font database knows.
    pub fn is_known_family(&self, family: &Option<String>) -> (r: bool)
        ensures
            r == match family {
                Some(f) => self.known_families().contains(f@),
                None => false,
            },
    {
        match family {
            None => false,
            Some(f) => {
                let mut i: usize = 0;
                while i < self.families.len()
                    invariant
                        *family == Some(*f),
                        i <= self.families@.len(),
                        forall|j: int| 0 <= j < i ==> self.known_families()[j] != f@,
                    decreases self.families@.len() - i,
                {
                    if self.families[i] == *f {
                        assert(self.families@[i as int]@ == f@);
                        assert(self.known_families()[i as int] == f@);
                        assert(self.known_families().contains(f@));
                        return true;
                    }
                    i = i + 1;
                }
                assert(!self.known_families().contains(f@)) by {
                    if self.known_families().contains(f@) {
                        let j = choose|j: int|
                            0 <= j < self.known_families().len() && self.known_families()[j] == f@;
                        assert(self.known_families()[j] != f@);
                    }
                }
                false
            },
        }
    }

    /// Whether the face renders `c`. Control and whitespace characters are
    /// supported without consulting the face; for others the face is probed
    /// only when nothing is recorded yet for the script of `c` (or for `c`
    /// itself, for characters of a shared script). Returns the answer and
    /// whether a probe was made.
    pub fn face_supports_char(&mut self, face: &FaceData, c: char) -> (r: (bool, bool))
        ensures
            final(self).fonts() == old(self).fonts(),
            final(self).known_families() == old(self).known_families(),
            old(self).wf() ==> final(self).wf(),
            (final(self).coverage(), r) == query_outcome(
                old(self).coverage(),
                face.face,
                face.data@,
                face.index,
                c,
            ),
            !needs_glyph_spec(c) ==> r == (true, false) && final(self).coverage()
                == old(self).coverage(),
            needs_glyph_spec(c) ==> ({
                let k = (face.face, coverage_key_of(c));
                if old(self).coverage().contains_key(k) {
                    &&& r == (old(self).coverage()[k], false)
                    &&& final(self).coverage() == old(self).coverage()
                } else {
                    &&& r == (face_maps_char(face.data@, face.index, c), true)
                    &&& final(self).coverage() == old(self).coverage().insert(k, r.0)
                }
            }),
    {
        let r = self.coverage.face_supports_char(face, c);
        assert(self.fonts() == old(self).fonts());
        r
    }

    /// Whether `font` can render `c`: control and whitespace characters
    /// always can; for others the recorded coverage is used, probing the face
    /// when nothing is recorded.
    pub fn has_glyph_for_char(&mut self, font: &LoadedFont, c: char) -> (r: bool)
        ensures
            final(self).fonts() == old(self).fonts(),
            final(self).known_families() == old(self).known_families(),
            old(self).wf() ==> final(self).wf(),
            !needs_glyph_spec(c) ==> r && final(self).coverage() == old(self).coverage(),
            needs_glyph_spec(c) ==> {
                let k = (font.face, coverage_key_of(c));
                if old(self).coverage().contains_key(k) {
                    &&& r == old(self).coverage()[k]
                    &&& final(self).coverage() == old(self).coverage()
                } else {
                    &&& r == face_maps_char(font.data@, font.face_index, c)
                    &&& final(self).coverage() == old(self).coverage().insert(k, r)
                }
            },
    {
        let (supported, _) = self.face_supports_char(&font.face_data(), c);
        supported
    }

    /// Drops from `uncovered` every requirement that the face renders,
    /// probing the face for those of which nothing is recorded yet, and only
    /// for those. Returns the check's result and the number of probes made.
    pub fn check_and_update_script_coverage(
        &mut self,
        uncovered: &mut Vec<Requirement>,
        face: &FaceData,
    ) -> (r: (CoverageCheckResult, usize))
        requires
            keys_distinct(old(uncovered)@),
        ensures
            final(self).fonts() == old(self).fonts(),
            final(self).known_families() == old(self).known_families(),
            old(self).wf() ==> final(self).wf(),
            final(self).coverage() == learn(
                old(self).coverage(),
                face.face,
                face.data@,
                face.index,
                old(uncovered)@,
            ),
            final(uncovered)@ == still_uncovered(final(self).coverage(), face.face, old(uncovered)@),
            keys_distinct(final(uncovered)@),
            final(uncovered)@.len() <= old(uncovered)@.len(),
            r.0 == check_result(old(uncovered)@.len() as int, final(uncovered)@.len() as int),
            r.1 == unrecorded_count(old(self).coverage(), face.face, old(uncovered)@),
            (forall|i: int|
                0 <= i < old(uncovered)@.len() ==> old(self).coverage().contains_key(
                    (face.face, #[trigger] old(uncovered)@[i].key),
                )) ==> r.1 == 0 && final(self).coverage() == old(self).coverage(),
    {
        let r = self.coverage.check_and_update_coverage(uncovered, face);
        assert(self.fonts() == old(self).fonts());
        r
    }

    /// The face loaded for `key`, if any: a hit needs no font database
    /// query and no registration with the renderer.
    pub fn cached_font(&self, key: &FontCacheKey) -> (r: Option<LoadedFont>)
        ensures
            r == (if self.fonts().contains_key(key_model(*key)) {
                Some(self.fonts()[key_model(*key)])
            } else {
                None
            }),
    {
        let ghost k = key_model(*key);
        let mut i: usize = self.loaded.len();
        assert(self.entries_model().subrange(0, i as int) == self.entries_model());
        while i > 0
            invariant
                k == key_model(*key),
                i <= self.loaded@.len(),
                find_font(self.entries_model(), k) == find_font(
                    self.entries_model().subrange(0, i as int),
                    k,
                ),
            decreases i,
        {
            let e = &self.loaded[i - 1];
            assert(self.entries_model().subrange(0, i as int).drop_last()
                == self.entries_model().subrange(0, i - 1));
            assert(self.entries_model().subrange(0, i as int).last() == (
                key_model(e.key),
                e.font,
            ));
            if same_family(&e.key.family, &key.family) && e.key.weight == key.weight {
                assert(family_model(e.key.family) == family_model(key.family));
                assert(e.key.weight == key.weight);
                assert(key_model(e.key) == (family_model(e.key.family), e.key.weight));
                assert(k == (family_model(key.family), key.weight));
                assert(key_model(e.key) == k);
                assert(find_font(self.entries_model().subrange(0, i as int), k) == Some(e.font));
                return Some(e.font);
            }
            i = i - 1;
        }
        None
    }

    /// Adds a newly loaded face under `key`, unless one is there already.
    /// Returns the face that the cache then holds for `key`.
    pub fn insert_font(&mut self, key: FontCacheKey, font: LoadedFont) -> (r: LoadedFont)
        requires
            old(self).wf(),
            loaded_font_wf(font),
        ensures
            final(self).wf(),
            final(self).known_families() == old(self).known_families(),
            final(self).coverage() == old(self).coverage(),
            (final(self).fonts(), r) == insert_outcome(old(self).fonts(), key_model(key), font),
            old(self).fonts().contains_key(key_model(key)) ==> {
                &&& r == old(self).fonts()[key_model(key)]
                &&& final(self).fonts() == old(self).fonts()
            },
            !old(self).fonts().contains_key(key_model(key)) ==> {
                &&& r == font
                &&& final(self).fonts() == old(self).fonts().insert(key_model(key), font)
            },
    {
        if let Some(f) = self.cached_font(&key) {
            return f;
        }
        let ghost before = self.entries_model();
        let ghost k = key_model(key);
        self.loaded.push(CacheEntry { key, font });
        assert(self.entries_model() == before.push((k, font)));
        assert(self.entries_model().drop_last() == before);
        assert(self.fonts() =~= old(self).fonts().insert(k, font));
        font
    }
}

impl FontCacheKey {
    /// A copy of the key.
    pub fn duplicate(&self) -> (r: FontCacheKey)
        ensures
            key_model(r) == key_model(*self),
    {
        let family = match &self.family {
            Some(f) => Some(f.clone()),
            None => None,
        };
        FontCacheKey { family, weight: self.weight }
    }
}

/// The cache key of a request.
pub fn cache_key(request: &FontRequest) -> (r: FontCacheKey)
    ensures
        key_model(r) == request_key(*request),
{
    FontCacheKey {
        family: match &request.family {
            Some(f) => Some(f.clone()),
            None => None,
        },
        weight: match request.weight {
            Some(w) => w,
            None => DEFAULT_FONT_WEIGHT,
        },
    }
}

} // verus!
