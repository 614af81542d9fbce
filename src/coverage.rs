//! The glyph coverage table: what is known, per face, of the scripts and
//! characters that the face can render. Entries are only ever added, so a
//! face is probed at most once for each script or character.

use crate::script::{coverage_key, coverage_key_of, needs_glyph, needs_glyph_spec, CoverageKey};
use vstd::prelude::*;

verus! {

/// Whether the face in `data` (the `index`-th face of a collection) maps the
/// character `c` to a glyph; false when the face does not parse.
pub uninterp spec fn face_maps_char(data: Seq<u8>, index: u32, c: char) -> bool;

/// Relies on `ttf_parser::Face::from_slice` and `ttf_parser::Face::glyph_index`:
/// the result is a function of the font bytes, the face index and the character.
#[verifier::external_body]
fn probe_face(data: &[u8], index: u32, c: char) -> (r: bool)
    ensures
        r == face_maps_char(data@, index, c),
{
    match ttf_parser::Face::from_slice(data, index) {
        Ok(face) => face.glyph_index(c).is_some(),
        Err(_) => false,
    }
}

/// A face as the coverage checks see it: its key in the font database and its
/// font data.
pub struct FaceData<'a> {
    pub face: u32,
    pub data: &'a [u8],
    pub index: u32,
}

/// One recorded probe result.
#[derive(Clone, Copy, Debug, PartialEq, Eq, Structural)]
pub struct CoverageEntry {
    pub face: u32,
    pub key: CoverageKey,
    pub covered: bool,
}

/// A script or character still to be covered, with the character that
/// stands for it when a face is probed.
#[derive(Clone, Copy, Debug, PartialEq, Eq, Structural)]
pub struct Requirement {
    pub key: CoverageKey,
    pub sample: char,
}

#[derive(Clone, Copy, Debug, PartialEq, Eq, Structural)]
pub enum CoverageCheckResult {
    /// Nothing was covered, and something is left.
    Incomplete,
    /// Something was covered, and something is left.
    Improved,
    /// Nothing is left.
    Complete,
}

/// The coverage table. Its view maps (face, key) to whether the face renders
/// that script or character.
pub struct CoverageTable {
    entries: Vec<CoverageEntry>,
}

pub type CoverageMap = Map<(u32, CoverageKey), bool>;

pub open spec fn find_entry(s: Seq<CoverageEntry>, face: u32, key: CoverageKey) -> Option<bool>
    decreases s.len(),
{
    if s.len() == 0 {
        None
    } else if s.last().face == face && s.last().key == key {
        Some(s.last().covered)
    } else {
        find_entry(s.drop_last(), face, key)
    }
}

pub open spec fn entries_map(s: Seq<CoverageEntry>) -> CoverageMap {
    Map::new(
        |k: (u32, CoverageKey)| find_entry(s, k.0, k.1) is Some,
        |k: (u32, CoverageKey)| find_entry(s, k.0, k.1)->Some_0,
    )
}

impl View for CoverageTable {
    type V = CoverageMap;

    closed spec fn view(&self) -> CoverageMap {
        entries_map(self.entries@)
    }
}

/// The table records that `face` renders `key`.
pub open spec fn covered_in(t: CoverageMap, face: u32, key: CoverageKey) -> bool {
    t.contains_key((face, key)) && t[(face, key)]
}

/// The requirements that `face` does not render according to `t`, in order.
pub open spec fn still_uncovered(t: CoverageMap, face: u32, reqs: Seq<Requirement>) -> Seq<
    Requirement,
>
    decreases reqs.len(),
{
    if reqs.len() == 0 {
        seq![]
    } else {
        let prev = still_uncovered(t, face, reqs.drop_last());
        if covered_in(t, face, reqs.last().key) {
            prev
        } else {
            prev.push(reqs.last())
        }
    }
}

/// `t` after probing `face` for every requirement it knows nothing of.
pub open spec fn learn(
    t: CoverageMap,
    face: u32,
    data: Seq<u8>,
    index: u32,
    reqs: Seq<Requirement>,
) -> CoverageMap
    decreases reqs.len(),
{
    if reqs.len() == 0 {
        t
    } else {
        let prev = learn(t, face, data, index, reqs.drop_last());
        let r = reqs.last();
        if prev.contains_key((face, r.key)) {
            prev
        } else {
            prev.insert((face, r.key), face_maps_char(data, index, r.sample))
        }
    }
}

/// How many of `reqs` have nothing recorded for `face` in `t`: the probes a
/// coverage check makes.
pub open spec fn unrecorded_count(t: CoverageMap, face: u32, reqs: Seq<Requirement>) -> int
    decreases reqs.len(),
{
    if reqs.len() == 0 {
        0
    } else {
        unrecorded_count(t, face, reqs.drop_last()) + if t.contains_key((face, reqs.last().key)) {
            0int
        } else {
            1int
        }
    }
}

proof fn lemma_all_recorded_no_probe(t: CoverageMap, face: u32, reqs: Seq<Requirement>)
    requires
        forall|i: int| 0 <= i < reqs.len() ==> t.contains_key((face, #[trigger] reqs[i].key)),
    ensures
        unrecorded_count(t, face, reqs) == 0,
    decreases reqs.len(),
{
    if reqs.len() > 0 {
        let d = reqs.drop_last();
        assert forall|i: int| 0 <= i < d.len() implies t.contains_key((face, #[trigger] d[i].key)) by {
            assert(d[i] == reqs[i]);
        }
        lemma_all_recorded_no_probe(t, face, d);
        assert(reqs.last() == reqs[reqs.len() - 1]);
    }
}

pub open spec fn keys_distinct(reqs: Seq<Requirement>) -> bool {
    forall|i: int, j: int| 0 <= i < j < reqs.len() ==> reqs[i].key != reqs[j].key
}

pub open spec fn check_result(old_len: int, new_len: int) -> CoverageCheckResult {
    if new_len == 0 {
        CoverageCheckResult::Complete
    } else if new_len < old_len {
        CoverageCheckResult::Improved
    } else {
        CoverageCheckResult::Incomplete
    }
}

proof fn lemma_entries_push(s: Seq<CoverageEntry>, e: CoverageEntry)
    ensures
        entries_map(s.push(e)) == entries_map(s).insert((e.face, e.key), e.covered),
{
    assert(s.push(e).drop_last() == s);
    assert(entries_map(s.push(e)) =~= entries_map(s).insert((e.face, e.key), e.covered));
}

proof fn lemma_learn_grows(t: CoverageMap, face: u32, data: Seq<u8>, index: u32, reqs: Seq<Requirement>)
    ensures
        t.submap_of(learn(t, face, data, index, reqs)),
        forall|i: int|
            0 <= i < reqs.len() ==> learn(t, face, data, index, reqs).contains_key(
                (face, #[trigger] reqs[i].key),
            ),
        forall|k: (u32, CoverageKey)| #[trigger]
            learn(t, face, data, index, reqs).contains_key(k) ==> t.contains_key(k) || (k.0
                == face && exists|i: int| 0 <= i < reqs.len() && reqs[i].key == k.1),
    decreases reqs.len(),
{
    if reqs.len() > 0 {
        let p = reqs.drop_last();
        lemma_learn_grows(t, face, data, index, p);
        let prev = learn(t, face, data, index, p);
        let r = reqs.last();
        assert forall|i: int| 0 <= i < reqs.len() implies learn(
            t,
            face,
            data,
            index,
            reqs,
        ).contains_key((face, #[trigger] reqs[i].key)) by {
            if i < reqs.len() - 1 {
                assert(reqs[i] == p[i]);
            }
        }
        assert forall|k: (u32, CoverageKey)| #[trigger]
            learn(t, face, data, index, reqs).contains_key(k) implies t.contains_key(k) || (k.0
                == face && exists|i: int| 0 <= i < reqs.len() && reqs[i].key == k.1) by {
            if prev.contains_key(k) {
                if !t.contains_key(k) {
                    let i = choose|i: int| 0 <= i < p.len() && p[i].key == k.1;
                    assert(reqs[i] == p[i]);
                }
            } else {
                assert(reqs[reqs.len() - 1] == r);
            }
        }
    }
}

proof fn lemma_still_uncovered_agree(
    t1: CoverageMap,
    t2: CoverageMap,
    face: u32,
    reqs: Seq<Requirement>,
)
    requires
        forall|i: int|
            0 <= i < reqs.len() ==> covered_in(t1, face, #[trigger] reqs[i].key) == covered_in(
                t2,
                face,
                reqs[i].key,
            ),
    ensures
        still_uncovered(t1, face, reqs) == still_uncovered(t2, face, reqs),
    decreases reqs.len(),
{
    if reqs.len() > 0 {
        let p = reqs.drop_last();
        assert forall|i: int| 0 <= i < p.len() implies covered_in(t1, face, #[trigger] p[i].key)
            == covered_in(t2, face, p[i].key) by {
            assert(p[i] == reqs[i]);
        }
        lemma_still_uncovered_agree(t1, t2, face, p);
        assert(reqs.last() == reqs[reqs.len() - 1]);
    }
}

proof fn lemma_still_uncovered_shape(t: CoverageMap, face: u32, reqs: Seq<Requirement>)
    ensures
        still_uncovered(t, face, reqs).len() <= reqs.len(),
        forall|i: int|
            0 <= i < still_uncovered(t, face, reqs).len() ==> exists|j: int|
                0 <= j < reqs.len() && reqs[j] == #[trigger] still_uncovered(t, face, reqs)[i],
        keys_distinct(reqs) ==> keys_distinct(still_uncovered(t, face, reqs)),
    decreases reqs.len(),
{
    if reqs.len() > 0 {
        let p = reqs.drop_last();
        lemma_still_uncovered_shape(t, face, p);
        let prev = still_uncovered(t, face, p);
        let res = still_uncovered(t, face, reqs);
        assert forall|i: int| 0 <= i < res.len() implies exists|j: int|
            0 <= j < reqs.len() && reqs[j] == #[trigger] res[i] by {
            if i < prev.len() {
                let j = choose|j: int| 0 <= j < p.len() && p[j] == prev[i];
                assert(reqs[j] == p[j]);
            } else {
                assert(reqs[reqs.len() - 1] == res[i]);
            }
        }
        if keys_distinct(reqs) {
            assert forall|a: int, b: int| 0 <= a < b < p.len() implies p[a].key != p[b].key by {
                assert(p[a] == reqs[a] && p[b] == reqs[b]);
            }
            assert forall|a: int, b: int| 0 <= a < b < res.len() implies res[a].key
                != res[b].key by {
                if b >= prev.len() {
                    let ja = choose|j: int| 0 <= j < p.len() && p[j] == prev[a];
                    assert(reqs[ja] == p[ja]);
                    assert(res[b] == reqs[reqs.len() - 1]);
                }
            }
        }
    }
}

/// A coverage check never adds requirements: the covered ones are dropped,
/// and the rest keep distinct keys.
pub proof fn law_uncovered_never_grows(t: CoverageMap, face: u32, reqs: Seq<Requirement>)
    ensures
        still_uncovered(t, face, reqs).len() <= reqs.len(),
        keys_distinct(reqs) ==> keys_distinct(still_uncovered(t, face, reqs)),
{
    lemma_still_uncovered_shape(t, face, reqs);
}

/// The table after asking whether `face` renders `c`, with the answer and
/// whether the face was probed for it. Control and whitespace characters
/// are supported without consulting the face.
pub open spec fn query_outcome(
    t: CoverageMap,
    face: u32,
    data: Seq<u8>,
    index: u32,
    c: char,
) -> (CoverageMap, (bool, bool)) {
    let k = (face, coverage_key_of(c));
    if !needs_glyph_spec(c) {
        (t, (true, false))
    } else if t.contains_key(k) {
        (t, (t[k], false))
    } else {
        let b = face_maps_char(data, index, c);
        (t.insert(k, b), (b, true))
    }
}

/// Once a face's coverage of a script (or of a character of a shared
/// script) is recorded, asking again, for that character or any other with
/// the same key, returns the recorded answer, probes nothing and changes
/// nothing; and what was recorded before stays recorded.
pub proof fn law_recorded_coverage_is_reused(
    t: CoverageMap,
    face: u32,
    data: Seq<u8>,
    index: u32,
    c1: char,
    c2: char,
)
    requires
        coverage_key_of(c1) == coverage_key_of(c2),
        needs_glyph_spec(c1) == needs_glyph_spec(c2),
    ensures
        ({
            let (t1, r1) = query_outcome(t, face, data, index, c1);
            let (t2, r2) = query_outcome(t1, face, data, index, c2);
            &&& t.submap_of(t1)
            &&& t2 == t1
            &&& r2.0 == r1.0
            &&& !r2.1
        }),
{
}

/// A recorded answer survives whatever is added to the table afterwards:
/// every operation on the table only adds to it, so asking again later,
/// with any calls in between, returns the recorded answer without a probe.
pub proof fn law_recorded_answer_survives(
    t: CoverageMap,
    later: CoverageMap,
    face: u32,
    data: Seq<u8>,
    index: u32,
    c: char,
)
    requires
        needs_glyph_spec(c),
        t.contains_key((face, coverage_key_of(c))),
        t.submap_of(later),
    ensures
        query_outcome(later, face, data, index, c) == (later, (t[(face, coverage_key_of(c))], false)),
{
}

proof fn lemma_learn_fresh_values(
    t: CoverageMap,
    face: u32,
    data: Seq<u8>,
    index: u32,
    reqs: Seq<Requirement>,
)
    requires
        keys_distinct(reqs),
        forall|i: int| 0 <= i < reqs.len() ==> !t.contains_key((face, #[trigger] reqs[i].key)),
    ensures
        forall|i: int|
            0 <= i < reqs.len() ==> learn(t, face, data, index, reqs).contains_key(
                (face, #[trigger] reqs[i].key),
            ) && learn(t, face, data, index, reqs)[(face, reqs[i].key)] == face_maps_char(
                data,
                index,
                reqs[i].sample,
            ),
    decreases reqs.len(),
{
    if reqs.len() > 0 {
        let p = reqs.drop_last();
        assert forall|i: int| 0 <= i < p.len() implies !t.contains_key((face, #[trigger] p[i].key)) by {
            assert(p[i] == reqs[i]);
        }
        assert(keys_distinct(p)) by {
            assert forall|a: int, b: int| 0 <= a < b < p.len() implies p[a].key != p[b].key by {
                assert(p[a] == reqs[a] && p[b] == reqs[b]);
            }
        }
        lemma_learn_fresh_values(t, face, data, index, p);
        lemma_learn_grows(t, face, data, index, p);
        let r = reqs.last();
        assert(r == reqs[reqs.len() - 1]);
        let prev = learn(t, face, data, index, p);
        if prev.contains_key((face, r.key)) {
            let j = choose|j: int| 0 <= j < p.len() && p[j].key == r.key;
            assert(p[j] == reqs[j]);
        }
        assert forall|i: int| 0 <= i < reqs.len() implies learn(t, face, data, index, reqs).contains_key(
            (face, #[trigger] reqs[i].key),
        ) && learn(t, face, data, index, reqs)[(face, reqs[i].key)] == face_maps_char(
            data,
            index,
            reqs[i].sample,
        ) by {
            if i < reqs.len() - 1 {
                assert(reqs[i] == p[i]);
            }
        }
    }
}

proof fn lemma_all_covered_nothing_left(t: CoverageMap, face: u32, reqs: Seq<Requirement>)
    requires
        forall|i: int| 0 <= i < reqs.len() ==> covered_in(t, face, #[trigger] reqs[i].key),
    ensures
        still_uncovered(t, face, reqs).len() == 0,
    decreases reqs.len(),
{
    if reqs.len() > 0 {
        let p = reqs.drop_last();
        assert forall|i: int| 0 <= i < p.len() implies covered_in(t, face, #[trigger] p[i].key) by {
            assert(p[i] == reqs[i]);
        }
        lemma_all_covered_nothing_left(t, face, p);
        assert(reqs.last() == reqs[reqs.len() - 1]);
    }
}

/// A face of which nothing is recorded yet and that maps the sample of
/// every requirement leaves nothing uncovered.
pub proof fn law_covering_face_completes(
    t: CoverageMap,
    face: u32,
    data: Seq<u8>,
    index: u32,
    reqs: Seq<Requirement>,
)
    requires
        keys_distinct(reqs),
        forall|i: int| 0 <= i < reqs.len() ==> !t.contains_key((face, #[trigger] reqs[i].key)),
        forall|i: int| 0 <= i < reqs.len() ==> face_maps_char(data, index, #[trigger] reqs[i].sample),
    ensures
        still_uncovered(learn(t, face, data, index, reqs), face, reqs).len() == 0,
{
    lemma_learn_fresh_values(t, face, data, index, reqs);
    let t2 = learn(t, face, data, index, reqs);
    assert forall|i: int| 0 <= i < reqs.len() implies covered_in(t2, face, #[trigger] reqs[i].key) by {
        assert(face_maps_char(data, index, reqs[i].sample));
    }
    lemma_all_covered_nothing_left(t2, face, reqs);
}

/// Checking a face against requirements only adds to the table.
pub proof fn law_coverage_only_grows(
    t: CoverageMap,
    face: u32,
    data: Seq<u8>,
    index: u32,
    reqs: Seq<Requirement>,
)
    ensures
        t.submap_of(learn(t, face, data, index, reqs)),
{
    lemma_learn_grows(t, face, data, index, reqs);
}

impl CoverageTable {
    pub fn new() -> (r: CoverageTable)
        ensures
            r@ == CoverageMap::empty(),
    {
        let r = CoverageTable { entries: Vec::new() };
        assert(r@ =~= CoverageMap::empty());
        r
    }

    /// What is recorded of `face` and `key`, if anything.
    pub fn lookup(&self, face: u32, key: CoverageKey) -> (r: Option<bool>)
        ensures
            r == (if self@.contains_key((face, key)) {
                Some(self@[(face, key)])
            } else {
                None
            }),
    {
        let mut i: usize = self.entries.len();
        assert(self.entries@.subrange(0, i as int) == self.entries@);
        while i > 0
            invariant
                i <= self.entries@.len(),
                find_entry(self.entries@, face, key) == find_entry(
                    self.entries@.subrange(0, i as int),
                    face,
                    key,
                ),
            decreases i,
        {
            let e = self.entries[i - 1];
            assert(self.entries@.subrange(0, i as int).drop_last() == self.entries@.subrange(
                0,
                i - 1,
            ));
            if e.face == face && e.key == key {
                return Some(e.covered);
            }
            i = i - 1;
        }
        None
    }

    /// Records what a probe of `face` for `key` found.
    fn record(&mut self, face: u32, key: CoverageKey, covered: bool)
        ensures
            final(self)@ == old(self)@.insert((face, key), covered),
    {
        proof {
            lemma_entries_push(self.entries@, CoverageEntry { face, key, covered });
        }
        self.entries.push(CoverageEntry { face, key, covered });
    }

    /// Whether the face renders `c`. Control and whitespace characters are
    /// supported without consulting the face; for others the face is probed
    /// only when nothing is recorded yet for the script of `c` (or for `c`
    /// itself, for characters of a shared script). Returns the answer and
    /// whether a probe was made.
    pub fn face_supports_char(&mut self, face: &FaceData, c: char) -> (r: (bool, bool))
        ensures
            (final(self)@, r) == query_outcome(old(self)@, face.face, face.data@, face.index, c),
            old(self)@.submap_of(final(self)@),
            !needs_glyph_spec(c) ==> r == (true, false) && final(self)@ == old(self)@,
            needs_glyph_spec(c) ==> ({
                let k = (face.face, coverage_key_of(c));
                if old(self)@.contains_key(k) {
                    &&& r == (old(self)@[k], false)
                    &&& final(self)@ == old(self)@
                } else {
                    &&& r == (face_maps_char(face.data@, face.index, c), true)
                    &&& final(self)@ == old(self)@.insert(k, r.0)
                }
            }),
    {
        if !needs_glyph(c) {
            return (true, false);
        }
        let key = coverage_key(c);
        match self.lookup(face.face, key) {
            Some(known) => (known, false),
            None => {
                let covered = probe_face(face.data, face.index, c);
                self.record(face.face, key, covered);
                (covered, true)
            },
        }
    }

    /// Drops from `uncovered` every requirement that the face renders,
    /// probing it for those of which nothing is recorded yet, and only for
    /// those. Returns the check's result and the number of probes made.
    pub fn check_and_update_coverage(&mut self, uncovered: &mut Vec<Requirement>, face: &FaceData) -> (r:
        (CoverageCheckResult, usize))
        requires
            keys_distinct(old(uncovered)@),
        ensures
            final(self)@ == learn(old(self)@, face.face, face.data@, face.index, old(uncovered)@),
            old(self)@.submap_of(final(self)@),
            final(uncovered)@ == still_uncovered(final(self)@, face.face, old(uncovered)@),
            keys_distinct(final(uncovered)@),
            final(uncovered)@.len() <= old(uncovered)@.len(),
            r.0 == check_result(old(uncovered)@.len() as int, final(uncovered)@.len() as int),
            r.1 == unrecorded_count(old(self)@, face.face, old(uncovered)@),
            (forall|i: int|
                0 <= i < old(uncovered)@.len() ==> old(self)@.contains_key(
                    (face.face, #[trigger] old(uncovered)@[i].key),
                )) ==> r.1 == 0 && final(self)@ == old(self)@,
    {
        let reqs = uncovered.clone();
        let ghost t0 = self@;
        let mut probes: usize = 0;
        let mut kept: Vec<Requirement> = Vec::new();
        let mut i: usize = 0;
        while i < reqs.len()
            invariant
                reqs@ == old(uncovered)@,
                keys_distinct(reqs@),
                i <= reqs@.len(),
                self@ == learn(t0, face.face, face.data@, face.index, reqs@.subrange(0, i as int)),
                kept@ == still_uncovered(self@, face.face, reqs@.subrange(0, i as int)),
                probes == unrecorded_count(t0, face.face, reqs@.subrange(0, i as int)),
                probes <= i,
            decreases reqs@.len() - i,
        {
            let req = reqs[i];
            let ghost before = self@;
            let ghost pre = reqs@.subrange(0, i as int);
            let ghost cur = reqs@.subrange(0, i + 1);
            assert(cur.drop_last() == pre);
            assert(cur.last() == req);
            proof {
                lemma_learn_grows(t0, face.face, face.data@, face.index, pre);
                if self@.contains_key((face.face, req.key)) && !t0.contains_key((face.face, req.key)) {
                    let j = choose|j: int| 0 <= j < pre.len() && pre[j].key == req.key;
                    assert(pre[j] == reqs@[j]);
                }
            }
            let covered = match self.lookup(face.face, req.key) {
                Some(known) => known,
                None => {
                    let found = probe_face(face.data, face.index, req.sample);
                    self.record(face.face, req.key, found);
                    probes = probes + 1;
                    found
                },
            };
            proof {
                assert forall|j: int| 0 <= j < pre.len() implies covered_in(
                    before,
                    face.face,
                    #[trigger] pre[j].key,
                ) == covered_in(self@, face.face, pre[j].key) by {
                    assert(pre[j] == reqs@[j]);
                }
                lemma_still_uncovered_agree(before, self@, face.face, pre);
            }
            if !covered {
                kept.push(req);
            }
            i = i + 1;
        }
        assert(reqs@.subrange(0, i as int) == reqs@);
        proof {
            lemma_still_uncovered_shape(self@, face.face, reqs@);
            lemma_learn_grows(t0, face.face, face.data@, face.index, reqs@);
            if forall|j: int| 0 <= j < reqs@.len() ==> t0.contains_key(
                (face.face, #[trigger] reqs@[j].key),
            ) {
                lemma_all_recorded_no_probe(t0, face.face, reqs@);
                lemma_learn_grows(t0, face.face, face.data@, face.index, reqs@);
                assert(self@ =~= t0) by {
                    assert forall|k| #[trigger] self@.contains_key(k) implies t0.contains_key(k) by {
                        if !t0.contains_key(k) {
                            let j = choose|j: int| 0 <= j < reqs@.len() && reqs@[j].key == k.1;
                            assert(t0.contains_key((face.face, reqs@[j].key)));
                        }
                    }
                }
            }
        }
        let old_len = uncovered.len();
        *uncovered = kept;
        let result = if uncovered.len() == 0 {
            CoverageCheckResult::Complete
        } else if uncovered.len() < old_len {
            CoverageCheckResult::Improved
        } else {
            CoverageCheckResult::Incomplete
        };
        (result, probes)
    }
}

} // verus!
