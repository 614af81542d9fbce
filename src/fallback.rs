//! Resolution of a request and a reference text into a composite font.
//!
//! The walk is driven from outside: `action` says what it needs next (a face
//! loaded for a key, the platform's fallback families, or nothing more), and
//! `offer_font` and `offer_fallbacks` hand it what was asked for. The primary
//! face is always kept; each fallback is kept only when it covers something
//! that was still uncovered, and the walk ends as soon as nothing is.

use crate::cache::{
    key_model, loaded_font_wf, request_key, FontCache, FontCacheKey, FontRequest, KeyModel,
    LoadedFont, DEFAULT_FONT_SIZE, SCALE_ONE,
};
use crate::coverage::{
    face_maps_char, keys_distinct, law_covering_face_completes, learn, still_uncovered,
    CoverageCheckResult, CoverageMap,
    Requirement,
};
use crate::font::{Font, ScaledFont};
use crate::script::{coverage_key, coverage_key_of, needs_glyph, needs_glyph_spec, CoverageKey};
use vstd::prelude::*;

verus! {

pub open spec fn has_key(reqs: Seq<Requirement>, k: CoverageKey) -> bool {
    exists|i: int| 0 <= i < reqs.len() && reqs[i].key == k
}

/// What a text needs covered: one requirement per script, sampled by its
/// first character, and one per character of a shared script; control and
/// whitespace characters need nothing.
pub open spec fn requirements_of(text: Seq<char>) -> Seq<Requirement>
    decreases text.len(),
{
    if text.len() == 0 {
        seq![]
    } else {
        let prev = requirements_of(text.drop_last());
        let c = text.last();
        if !needs_glyph_spec(c) || has_key(prev, coverage_key_of(c)) {
            prev
        } else {
            prev.push(Requirement { key: coverage_key_of(c), sample: c })
        }
    }
}

/// The requirements of a reference text.
pub fn required_coverage(text: &str) -> (r: Vec<Requirement>)
    ensures
        r@ == requirements_of(text@),
        keys_distinct(r@),
{
    let n = text.unicode_len();
    let mut reqs: Vec<Requirement> = Vec::new();
    let mut i: usize = 0;
    while i < n
        invariant
            n == text@.len(),
            i <= n,
            reqs@ == requirements_of(text@.subrange(0, i as int)),
            keys_distinct(reqs@),
        decreases n - i,
    {
        let c = text.get_char(i);
        assert(text@.subrange(0, i + 1).drop_last() == text@.subrange(0, i as int));
        assert(text@.subrange(0, i + 1).last() == c);
        if needs_glyph(c) {
            let key = coverage_key(c);
            let mut j: usize = 0;
            let mut found = false;
            while j < reqs.len()
                invariant
                    j <= reqs@.len(),
                    key == coverage_key_of(c),
                    found == has_key(reqs@.subrange(0, j as int), key),
                decreases reqs@.len() - j,
            {
                if reqs[j].key == key {
                    found = true;
                }
                proof {
                    let a = reqs@.subrange(0, j as int);
                    let b = reqs@.subrange(0, j + 1);
                    if has_key(b, key) && !has_key(a, key) {
                        let w = choose|w: int| 0 <= w < b.len() && b[w].key == key;
                        if w < j {
                            assert(a[w].key == key);
                        }
                    }
                    if has_key(a, key) {
                        let w = choose|w: int| 0 <= w < a.len() && a[w].key == key;
                        assert(b[w].key == key);
                    }
                    if reqs@[j as int].key == key {
                        assert(b[j as int].key == key);
                    }
                }
                j = j + 1;
            }
            assert(reqs@.subrange(0, j as int) == reqs@);
            if !found {
                reqs.push(Requirement { key, sample: c });
                assert forall|a: int, b: int| 0 <= a < b < reqs@.len() implies reqs@[a].key
                    != reqs@[b].key by {
                    if b == reqs@.len() - 1 {
                        assert(reqs@[a] == reqs@.drop_last()[a]);
                    }
                }
            }
        }
        i = i + 1;
    }
    assert(text@.subrange(0, n as int) == text@);
    reqs
}

/// The fallback families that the font database knows, as cache keys of the
/// given weight, in their order.
pub open spec fn known_candidates(
    families: Seq<Seq<char>>,
    known: Seq<Seq<char>>,
    weight: i32,
) -> Seq<KeyModel>
    decreases families.len(),
{
    if families.len() == 0 {
        seq![]
    } else {
        let prev = known_candidates(families.drop_last(), known, weight);
        if known.contains(families.last()) {
            prev.push((Some(families.last()), weight))
        } else {
            prev
        }
    }
}

/// What the walk needs next.
#[derive(Clone, Debug)]
pub enum FontAction {
    /// The face for this key, from the cache or newly loaded.
    Load(FontCacheKey),
    /// The platform's fallback families for the request and the text.
    EnumerateFallbacks,
    /// Nothing: the font is ready.
    Finish,
}

/// The pixel size of a request at a scale factor (64 is 1.0).
pub open spec fn scaled_pixel_size(request: FontRequest, scale_factor: u32) -> int {
    let size = match request.pixel_size {
        Some(s) => s,
        None => DEFAULT_FONT_SIZE,
    };
    size * scale_factor / (SCALE_ONE as int)
}

/// A resolution in progress.
pub struct FontResolution {
    primary: FontCacheKey,
    pixel_size: u32,
    uncovered: Vec<Requirement>,
    fonts: Vec<LoadedFont>,
    candidates: Option<Vec<FontCacheKey>>,
    next: usize,
}

/// The fallback walk over the candidate faces `fbs`, from candidate `j` on,
/// with table `t` and the requirements `u` still uncovered: the positions of
/// the candidates kept, and the position at which the walk stops. Each
/// candidate is checked once, in order, and kept when its check covered
/// something; the walk stops when nothing is uncovered or no candidate is
/// left. `FontResolution::offer_font` performs one step of it.
pub open spec fn walk_from(t: CoverageMap, u: Seq<Requirement>, fbs: Seq<LoadedFont>, j: int) -> (
    Seq<int>,
    int,
)
    decreases fbs.len() - j,
{
    if u.len() == 0 || j >= fbs.len() {
        (seq![], j)
    } else {
        let f = fbs[j];
        let t2 = learn(t, f.face, f.data@, f.face_index, u);
        let u2 = still_uncovered(t2, f.face, u);
        let rest = walk_from(t2, u2, fbs, j + 1);
        (
            if u2.len() < u.len() {
                seq![j] + rest.0
            } else {
                rest.0
            },
            rest.1,
        )
    }
}

/// The fallback walk ends after at most one check per candidate: it visits
/// candidate positions in increasing order, never twice, keeps at most one
/// face per check that covered something, and checks nothing more once
/// nothing is uncovered.
pub proof fn law_fallback_walk(t: CoverageMap, u: Seq<Requirement>, fbs: Seq<LoadedFont>, j: int)
    requires
        0 <= j <= fbs.len(),
    ensures
        ({
            let (kept, stop) = walk_from(t, u, fbs, j);
            &&& j <= stop <= fbs.len()
            &&& kept.len() <= stop - j
            &&& forall|a: int| 0 <= a < kept.len() ==> j <= #[trigger] kept[a] < stop
            &&& forall|a: int, b: int| 0 <= a < b < kept.len() ==> kept[a] < kept[b]
            &&& u.len() == 0 ==> stop == j && kept.len() == 0
        }),
    decreases fbs.len() - j,
{
    if u.len() > 0 && j < fbs.len() {
        let f = fbs[j];
        let t2 = learn(t, f.face, f.data@, f.face_index, u);
        let u2 = still_uncovered(t2, f.face, u);
        law_fallback_walk(t2, u2, fbs, j + 1);
        let rest = walk_from(t2, u2, fbs, j + 1);
        let kept = walk_from(t, u, fbs, j).0;
        if u2.len() < u.len() {
            assert(kept == seq![j] + rest.0);
            assert forall|a: int| 0 <= a < kept.len() implies j <= #[trigger] kept[a] < rest.1 by {
                if a > 0 {
                    assert(kept[a] == rest.0[a - 1]);
                }
            }
            assert forall|a: int, b: int| 0 <= a < b < kept.len() implies kept[a] < kept[b] by {
                assert(kept[b] == rest.0[b - 1]);
                if a > 0 {
                    assert(kept[a] == rest.0[a - 1]);
                }
            }
        }
    }
}

/// A fallback whose face is not yet recorded and maps every character still
/// uncovered is kept, and the walk stops right after it: with the primary
/// first, the composite font is [primary, that fallback].
pub proof fn law_covering_fallback_is_kept(
    t: CoverageMap,
    u: Seq<Requirement>,
    fbs: Seq<LoadedFont>,
    j: int,
)
    requires
        0 <= j < fbs.len(),
        u.len() > 0,
        keys_distinct(u),
        forall|i: int| 0 <= i < u.len() ==> !t.contains_key((fbs[j].face, #[trigger] u[i].key)),
        forall|i: int|
            0 <= i < u.len() ==> face_maps_char(
                fbs[j].data@,
                fbs[j].face_index,
                #[trigger] u[i].sample,
            ),
    ensures
        walk_from(t, u, fbs, j) == (seq![j], j + 1),
{
    let f = fbs[j];
    law_covering_face_completes(t, f.face, f.data@, f.face_index, u);
    let t2 = learn(t, f.face, f.data@, f.face_index, u);
    let u2 = still_uncovered(t2, f.face, u);
    assert(walk_from(t2, u2, fbs, j + 1) == (Seq::<int>::empty(), j + 1));
    assert(seq![j] + Seq::<int>::empty() == seq![j]);
}

/// Once the primary face is in and nothing is left uncovered, the walk is
/// finished and asks for no further face.
pub proof fn law_covered_walk_loads_nothing_more(r: FontResolution)
    requires
        r.wf(),
        r.accepted().len() > 0,
        r.uncovered().len() == 0,
    ensures
        r.finished(),
        !r.wants_font(),
{
}

/// Once every enumerated candidate has been tried, the walk is finished; as
/// each face handed to it after the primary moves it one candidate on, it
/// asks for at most one face per candidate, each candidate once.
pub proof fn law_walk_ends_with_its_candidates(r: FontResolution)
    requires
        r.wf(),
        r.candidates() is Some,
        r.tried() >= r.candidates()->Some_0.len(),
    ensures
        r.finished(),
        !r.wants_font(),
{
}

impl FontResolution {
    pub closed spec fn primary_key(&self) -> KeyModel {
        key_model(self.primary)
    }

    pub closed spec fn pixel_size_spec(&self) -> u32 {
        self.pixel_size
    }

    /// What no accepted face covers yet.
    pub closed spec fn uncovered(&self) -> Seq<Requirement> {
        self.uncovered@
    }

    /// The accepted faces: the primary first, then the kept fallbacks.
    pub closed spec fn accepted(&self) -> Seq<LoadedFont> {
        self.fonts@
    }

    /// The fallback keys, once enumerated.
    pub closed spec fn candidates(&self) -> Option<Seq<KeyModel>> {
        match self.candidates {
            Some(c) => Some(c@.map_values(|k: FontCacheKey| key_model(k))),
            None => None,
        }
    }

    /// How many fallbacks have been tried.
    pub closed spec fn tried(&self) -> int {
        self.next as int
    }

    pub open spec fn wf(&self) -> bool {
        &&& keys_distinct(self.uncovered())
        &&& forall|i: int|
            0 <= i < self.accepted().len() ==> loaded_font_wf(#[trigger] self.accepted()[i])
        &&& self.accepted().len() == 0 ==> self.candidates() is None
        &&& self.candidates() is None ==> self.tried() == 0
        &&& self.candidates() matches Some(c) ==> self.tried() <= c.len()
    }

    /// The walk has nothing left to do.
    pub open spec fn finished(&self) -> bool {
        &&& self.accepted().len() > 0
        &&& (self.uncovered().len() == 0 || (self.candidates() matches Some(c) && self.tried()
            >= c.len()))
    }

    /// The walk waits for a face.
    pub open spec fn wants_font(&self) -> bool {
        !self.finished() && (self.accepted().len() == 0 || self.candidates() is Some)
    }

    /// Starts resolving `request` at `scale_factor` for `reference_text`.
    pub fn new(request: &FontRequest, scale_factor: u32, reference_text: &str) -> (r: FontResolution)
        requires
            scaled_pixel_size(*request, scale_factor) <= u32::MAX,
        ensures
            r.wf(),
            r.primary_key() == request_key(*request),
            r.pixel_size_spec() == scaled_pixel_size(*request, scale_factor),
            r.uncovered() == requirements_of(reference_text@),
            r.accepted().len() == 0,
            r.candidates() is None,
    {
        let size: u32 = match request.pixel_size {
            Some(s) => s,
            None => DEFAULT_FONT_SIZE,
        };
        let pixel_size = ((size as u64) * (scale_factor as u64) / (SCALE_ONE as u64)) as u32;
        FontResolution {
            primary: crate::cache::cache_key(request),
            pixel_size,
            uncovered: required_coverage(reference_text),
            fonts: Vec::new(),
            candidates: None,
            next: 0,
        }
    }

    /// What the walk needs next.
    pub fn action(&self) -> (r: FontAction)
        requires
            self.wf(),
        ensures
            self.accepted().len() == 0 ==> (r matches FontAction::Load(k) && key_model(k)
                == self.primary_key()),
            self.finished() ==> r is Finish,
            !self.finished() && self.accepted().len() > 0 && self.candidates() is None ==> r is EnumerateFallbacks,
            !self.finished() && self.candidates() is Some ==> (r matches FontAction::Load(k)
                && key_model(k) == self.candidates()->Some_0[self.tried()]),
    {
        if self.fonts.len() == 0 {
            return FontAction::Load(self.primary.duplicate());
        }
        if self.uncovered.len() == 0 {
            return FontAction::Finish;
        }
        match &self.candidates {
            None => FontAction::EnumerateFallbacks,
            Some(c) => {
                if self.next < c.len() {
                    FontAction::Load(c[self.next].duplicate())
                } else {
                    FontAction::Finish
                }
            },
        }
    }

    /// Hands the walk the face it asked for: the primary face first, then
    /// each fallback in order. Returns whether the face was kept.
    pub fn offer_font(&mut self, cache: &mut FontCache, font: LoadedFont) -> (kept: bool)
        requires
            old(self).wf(),
            old(self).wants_font(),
            loaded_font_wf(font),
        ensures
            final(self).wf(),
            final(self).primary_key() == old(self).primary_key(),
            final(self).pixel_size_spec() == old(self).pixel_size_spec(),
            final(self).candidates() == old(self).candidates(),
            final(cache).fonts() == old(cache).fonts(),
            final(cache).known_families() == old(cache).known_families(),
            old(cache).wf() ==> final(cache).wf(),
            final(cache).coverage() == learn(
                old(cache).coverage(),
                font.face,
                font.data@,
                font.face_index,
                old(self).uncovered(),
            ),
            final(self).uncovered() == still_uncovered(
                final(cache).coverage(),
                font.face,
                old(self).uncovered(),
            ),
            final(self).uncovered().len() <= old(self).uncovered().len(),
            old(self).accepted().len() == 0 ==> kept && final(self).tried() == 0,
            old(self).accepted().len() > 0 ==> {
                &&& kept == (final(self).uncovered().len() < old(self).uncovered().len())
                &&& final(self).tried() == old(self).tried() + 1
            },
            kept ==> final(self).accepted() == old(self).accepted().push(font),
            !kept ==> final(self).accepted() == old(self).accepted(),
    {
        let face = font.face_data();
        let (result, _) = cache.check_and_update_script_coverage(&mut self.uncovered, &face);
        let kept = if self.fonts.len() == 0 {
            true
        } else {
            assert(old(self).candidates()->Some_0.len() == self.candidates->Some_0@.len());
            let count = match &self.candidates {
                Some(c) => c.len(),
                None => 0,
            };
            self.next = self.next + 1;
            match result {
                CoverageCheckResult::Incomplete => false,
                _ => true,
            }
        };
        if kept {
            self.fonts.push(font);
            assert(self.fonts@.drop_last() == old(self).fonts@);
            assert forall|i: int| 0 <= i < self.accepted().len() implies loaded_font_wf(
                #[trigger] self.accepted()[i],
            ) by {
                if i < old(self).fonts@.len() {
                    assert(self.accepted()[i] == old(self).accepted()[i]);
                }
            }
        }
        kept
    }

    /// Hands the walk the platform's fallback families, in order; those the
    /// font database does not know are dropped.
    pub fn offer_fallbacks(&mut self, cache: &FontCache, families: &Vec<String>)
        requires
            old(self).wf(),
            !old(self).finished(),
            old(self).accepted().len() > 0,
            old(self).candidates() is None,
        ensures
            final(self).wf(),
            final(self).primary_key() == old(self).primary_key(),
            final(self).pixel_size_spec() == old(self).pixel_size_spec(),
            final(self).uncovered() == old(self).uncovered(),
            final(self).accepted() == old(self).accepted(),
            final(self).tried() == 0,
            final(self).candidates() == Some(
                known_candidates(
                    families@.map_values(|s: String| s@),
                    cache.known_families(),
                    old(self).primary_key().1,
                ),
            ),
    {
        let ghost names = families@.map_values(|s: String| s@);
        let weight = self.primary.weight;
        let mut keys: Vec<FontCacheKey> = Vec::new();
        let mut i: usize = 0;
        while i < families.len()
            invariant
                names == families@.map_values(|s: String| s@),
                i <= families@.len(),
                keys@.map_values(|k: FontCacheKey| key_model(k)) == known_candidates(
                    names.subrange(0, i as int),
                    cache.known_families(),
                    weight,
                ),
            decreases families@.len() - i,
        {
            let family = Some(families[i].clone());
            let known = cache.is_known_family(&family);
            let ghost before = keys@;
            assert(names.subrange(0, i + 1).drop_last() == names.subrange(0, i as int));
            assert(names.subrange(0, i + 1).last() == families@[i as int]@);
            if known {
                keys.push(FontCacheKey { family, weight });
                assert(keys@.map_values(|k: FontCacheKey| key_model(k)) =~= before.map_values(
                    |k: FontCacheKey| key_model(k),
                ).push(key_model(keys@.last())));
            }
            i = i + 1;
        }
        assert(names.subrange(0, i as int) == names);
        self.candidates = Some(keys);
        self.next = 0;
    }

    /// The composite font: the accepted faces at the resolved pixel size.
    pub fn finish(&self) -> (r: Font)
        requires
            self.wf(),
            self.accepted().len() > 0,
        ensures
            r.wf(),
            r.pixel_size_spec() == self.pixel_size_spec(),
            r.fonts() == self.accepted().map_values(
                |f: LoadedFont| ScaledFont { font: f, pixel_size: self.pixel_size_spec() },
            ),
    {
        Font::from_fonts(&self.fonts, self.pixel_size)
    }
}

} // verus!
