use vstd::prelude::*;
use crate::chunk_system::{
    ChunkPos, center_fits, contains_pos, dist_sq, distinct_keys, has_key, is_needed,
    lemma_filter_distinct, lemma_pos_keys_distinct, needed_chunks, needed_dist_sq, needed_pred,
    pos_key, request_key, retain_needed, same_pos, index_of_pos,
};
use crate::voxel_world::RENDER_DISTANCE;

verus! {

broadcast use vstd::seq_lib::group_filter_ensures;

/// At most this many tetra chunks start generating per step.
pub const MAX_NEW_TASKS: usize = 2;

/// A loaded tetra chunk: its position, render entity and level of detail.
#[derive(Clone, Copy, Debug)]
pub struct TetraLoaded {
    pub pos: ChunkPos,
    pub entity: u64,
    pub lod: u32,
}

/// Bookkeeping of the tetra world's streamed chunks.
pub struct TetraChunkManager {
    /// Chunks with a render entity.
    pub loaded_chunks: Vec<TetraLoaded>,
    /// Chunks whose generation task is under way.
    pub loading_chunks: Vec<ChunkPos>,
}

/// What the caller must do after a tetra chunk-management step.
pub struct TetraChunkUpdate {
    /// Render entities to despawn.
    pub despawn: Vec<u64>,
    /// Chunks whose generation must start, nearest first, with their level of detail.
    pub load: Vec<(ChunkPos, u32)>,
}

/// Level of detail for a tetra chunk at squared distance `d`: 1 within 6
/// chunks, 2 within 12, 4 beyond.
pub open spec fn tetra_lod_for_dist(d: int) -> u32 {
    if d <= 36 {
        1
    } else if d <= 144 {
        2
    } else {
        4
    }
}

/// Level of detail for a tetra chunk at squared distance `dist_sq`.
pub fn tetra_target_lod(dist_sq: i64) -> (r: u32)
    ensures
        r == tetra_lod_for_dist(dist_sq as int),
{
    if dist_sq <= 6 * 6 {
        1
    } else if dist_sq <= 12 * 12 {
        2
    } else {
        4
    }
}

pub open spec fn tetra_key() -> spec_fn(TetraLoaded) -> ChunkPos {
    |e: TetraLoaded| e.pos
}

pub open spec fn tetra_keep(cx: int, cz: int) -> spec_fn(TetraLoaded) -> bool {
    |e: TetraLoaded| is_needed(e.pos, cx, cz, RENDER_DISTANCE as int)
}

pub open spec fn tetra_drop(cx: int, cz: int) -> spec_fn(TetraLoaded) -> bool {
    |e: TetraLoaded| !is_needed(e.pos, cx, cz, RENDER_DISTANCE as int)
}

/// The entities of a sequence of loaded tetra chunks.
pub open spec fn tetra_entities(s: Seq<TetraLoaded>) -> Seq<u64> {
    s.map_values(|e: TetraLoaded| e.entity)
}

/// A chunk that may start generating: needed, not loaded and not loading.
pub open spec fn is_candidate(
    p: ChunkPos,
    cx: int,
    cz: int,
    loaded: Seq<TetraLoaded>,
    loading: Seq<ChunkPos>,
) -> bool {
    is_needed(p, cx, cz, RENDER_DISTANCE as int) && !has_key(loaded, tetra_key(), p)
        && !loading.contains(p)
}

/// A candidate: position, squared distance and level of detail.
pub type Candidate = (ChunkPos, i64, u32);

pub open spec fn candidate_key() -> spec_fn(Candidate) -> ChunkPos {
    |c: Candidate| c.0
}

/// Index of a nearest candidate (the first one among equals) and of a nearest
/// one among the others.
pub fn nearest_two(cands: &Vec<Candidate>) -> (r: (Option<usize>, Option<usize>))
    ensures
        cands@.len() == 0 <==> r.0 is None,
        r.0 matches Some(b) ==> b < cands@.len() && forall|k: int|
            0 <= k < cands@.len() ==> cands@[b as int].1 <= #[trigger] cands@[k].1,
        cands@.len() <= 1 <==> r.1 is None,
        r.1 matches Some(b2) ==> (b2 < cands@.len() && r.0 is Some && b2 != r.0->0 && forall|
            k: int,
        |
            0 <= k < cands@.len() && k != r.0->0 ==> cands@[b2 as int].1 <= #[trigger] cands@[k].1),
{
    let n = cands.len();
    if n == 0 {
        return (None, None);
    }
    let mut b: usize = 0;
    let mut i: usize = 1;
    while i < n
        invariant
            n == cands@.len(),
            b < i <= n,
            forall|k: int| 0 <= k < i ==> cands@[b as int].1 <= #[trigger] cands@[k].1,
        decreases n - i,
    {
        if cands[i].1 < cands[b].1 {
            b = i;
        }
        i = i + 1;
    }
    if n == 1 {
        return (Some(b), None);
    }
    let mut b2: usize = if b == 0 {
        1
    } else {
        0
    };
    let mut j: usize = 0;
    while j < n
        invariant
            n == cands@.len(),
            n >= 2,
            b < n,
            b2 < n,
            b2 != b,
            j <= n,
            b2 < j || b2 == 0 || (b == 0 && b2 == 1),
            forall|k: int| 0 <= k < j && k != b ==> cands@[b2 as int].1 <= #[trigger] cands@[k].1,
        decreases n - j,
    {
        if j != b && cands[j].1 < cands[b2].1 {
            b2 = j;
        }
        j = j + 1;
    }
    (Some(b), Some(b2))
}

impl TetraChunkManager {
    /// Each position is loaded at most once, loading at most once, never both.
    pub open spec fn wf(&self) -> bool {
        &&& distinct_keys(self.loaded_chunks@, tetra_key())
        &&& self.loading_chunks@.no_duplicates()
        &&& forall|p: ChunkPos|
            !(#[trigger] has_key(self.loaded_chunks@, tetra_key(), p)
                && self.loading_chunks@.contains(p))
    }

    /// A manager with nothing loaded.
    pub fn new() -> (r: Self)
        ensures
            r.wf(),
            r.loaded_chunks@.len() == 0,
            r.loading_chunks@.len() == 0,
    {
        TetraChunkManager { loaded_chunks: Vec::new(), loading_chunks: Vec::new() }
    }

    /// Index of the loaded chunk at `p`, if any.
    pub fn find_loaded(&self, p: ChunkPos) -> (r: Option<usize>)
        ensures
            r matches Some(i) ==> i < self.loaded_chunks@.len() && self.loaded_chunks@[i as int].pos
                == p,
            r is None ==> !has_key(self.loaded_chunks@, tetra_key(), p),
    {
        let mut i: usize = 0;
        while i < self.loaded_chunks.len()
            invariant
                i <= self.loaded_chunks@.len(),
                forall|k: int| 0 <= k < i ==> (#[trigger] self.loaded_chunks@[k]).pos != p,
            decreases self.loaded_chunks.len() - i,
        {
            if same_pos(self.loaded_chunks[i].pos, p) {
                return Some(i);
            }
            i = i + 1;
        }
        None
    }

    /// Whether chunk `p` has a render entity.
    pub fn is_loaded(&self, p: ChunkPos) -> (r: bool)
        ensures
            r == has_key(self.loaded_chunks@, tetra_key(), p),
    {
        match self.find_loaded(p) {
            Some(i) => {
                assert(tetra_key()(self.loaded_chunks@[i as int]) == p);
                true
            },
            None => false,
        }
    }

    /// Drops the loaded chunks that are no longer needed; returns their entities.
    fn unload_unneeded(&mut self, cx: i32, cz: i32) -> (despawn: Vec<u64>)
        ensures
            final(self).loading_chunks@ == old(self).loading_chunks@,
            final(self).loaded_chunks@ == old(self).loaded_chunks@.filter(
                tetra_keep(cx as int, cz as int),
            ),
            despawn@ == tetra_entities(
                old(self).loaded_chunks@.filter(tetra_drop(cx as int, cz as int)),
            ),
    {
        let ghost keep = tetra_keep(cx as int, cz as int);
        let ghost drop = tetra_drop(cx as int, cz as int);
        let ghost orig = self.loaded_chunks@;
        let mut kept: Vec<TetraLoaded> = Vec::new();
        let mut despawn: Vec<u64> = Vec::new();
        let mut i: usize = 0;
        while i < self.loaded_chunks.len()
            invariant
                keep == tetra_keep(cx as int, cz as int),
                drop == tetra_drop(cx as int, cz as int),
                self.loaded_chunks@ == orig,
                i <= orig.len(),
                kept@ == orig.take(i as int).filter(keep),
                despawn@ == tetra_entities(orig.take(i as int).filter(drop)),
            decreases orig.len() - i,
        {
            reveal_with_fuel(Seq::filter, 1);
            assert(orig.take(i + 1).drop_last() =~= orig.take(i as int));
            let e = self.loaded_chunks[i];
            if needed_dist_sq(e.pos, cx, cz, RENDER_DISTANCE).is_some() {
                kept.push(e);
            } else {
                let ghost before = orig.take(i as int).filter(drop);
                despawn.push(e.entity);
                assert(tetra_entities(before.push(e)) =~= tetra_entities(before).push(e.entity));
            }
            i = i + 1;
        }
        assert(orig.take(orig.len() as int) =~= orig);
        self.loaded_chunks = kept;
        despawn
    }

    /// The candidates in `needed`: needed chunks neither loaded nor loading,
    /// with their squared distance and level of detail.
    fn collect_candidates(&self, needed: &Vec<ChunkPos>, cx: i32, cz: i32) -> (r: Vec<Candidate>)
        requires
            needed@.no_duplicates(),
            forall|p: ChunkPos|
                #[trigger] needed@.contains(p) <==> is_needed(
                    p,
                    cx as int,
                    cz as int,
                    RENDER_DISTANCE as int,
                ),
        ensures
            distinct_keys(r@, candidate_key()),
            forall|k: int|
                0 <= k < r@.len() ==> {
                    let c = #[trigger] r@[k];
                    &&& is_candidate(
                        c.0,
                        cx as int,
                        cz as int,
                        self.loaded_chunks@,
                        self.loading_chunks@,
                    )
                    &&& c.1 == dist_sq(c.0, cx as int, cz as int)
                    &&& c.2 == tetra_lod_for_dist(c.1 as int)
                },
            forall|p: ChunkPos|
                is_candidate(p, cx as int, cz as int, self.loaded_chunks@, self.loading_chunks@)
                    ==> #[trigger] has_key(r@, candidate_key(), p),
    {
        let ghost nv = needed@;
        let mut r: Vec<Candidate> = Vec::new();
        let mut j: usize = 0;
        while j < needed.len()
            invariant
                nv == needed@,
                nv.no_duplicates(),
                forall|p: ChunkPos|
                    #[trigger] nv.contains(p) <==> is_needed(
                        p,
                        cx as int,
                        cz as int,
                        RENDER_DISTANCE as int,
                    ),
                j <= nv.len(),
                distinct_keys(r@, candidate_key()),
                forall|k: int|
                    0 <= k < r@.len() ==> {
                        let c = #[trigger] r@[k];
                        &&& is_candidate(
                            c.0,
                            cx as int,
                            cz as int,
                            self.loaded_chunks@,
                            self.loading_chunks@,
                        )
                        &&& c.1 == dist_sq(c.0, cx as int, cz as int)
                        &&& c.2 == tetra_lod_for_dist(c.1 as int)
                        &&& nv.take(j as int).contains(c.0)
                    },
                forall|p: ChunkPos|
                    is_candidate(p, cx as int, cz as int, self.loaded_chunks@, self.loading_chunks@)
                        && nv.take(j as int).contains(p) ==> #[trigger] has_key(
                        r@,
                        candidate_key(),
                        p,
                    ),
            decreases nv.len() - j,
        {
            let p = needed[j];
            let ghost tj = nv.take(j as int);
            assert(nv.take(j + 1) =~= tj.push(p));
            assert(!tj.contains(p)) by {
                if tj.contains(p) {
                    let k = choose|k: int| 0 <= k < tj.len() && tj[k] == p;
                    assert(nv[k] == nv[j as int]);
                }
            }
            assert(nv.contains(p));
            let ghost before = r@;
            if !self.is_loaded(p) && !contains_pos(&self.loading_chunks, p) {
                let d = match needed_dist_sq(p, cx, cz, RENDER_DISTANCE) {
                    Some(d) => d,
                    None => 0,
                };
                let lod = tetra_target_lod(d);
                r.push((p, d, lod));
                assert(candidate_key()(r@[before.len() as int]) == p);
                assert forall|a: int, b: int|
                    #![trigger r@[a], r@[b]]
                    0 <= a < r@.len() && 0 <= b < r@.len() && a != b implies candidate_key()(r@[a])
                    != candidate_key()(r@[b]) by {
                    if a == before.len() || b == before.len() {
                        let o = if a == before.len() {
                            b
                        } else {
                            a
                        };
                        assert(r@[o] == before[o]);
                        assert(tj.contains(before[o].0));
                    } else {
                        assert(r@[a] == before[a]);
                        assert(r@[b] == before[b]);
                    }
                }
            }
            assert forall|k: int| 0 <= k < r@.len() implies {
                let c = #[trigger] r@[k];
                &&& is_candidate(
                    c.0,
                    cx as int,
                    cz as int,
                    self.loaded_chunks@,
                    self.loading_chunks@,
                )
                &&& c.1 == dist_sq(c.0, cx as int, cz as int)
                &&& c.2 == tetra_lod_for_dist(c.1 as int)
                &&& nv.take(j + 1).contains(c.0)
            } by {
                if k < before.len() {
                    assert(r@[k] == before[k]);
                    let c = before[k];
                    assert(tj.contains(c.0));
                    let m = choose|m: int| 0 <= m < tj.len() && tj[m] == c.0;
                    assert(nv.take(j + 1)[m] == c.0);
                } else {
                    assert(nv.take(j + 1)[j as int] == p);
                }
            }
            assert forall|q: ChunkPos|
                is_candidate(q, cx as int, cz as int, self.loaded_chunks@, self.loading_chunks@)
                    && nv.take(j + 1).contains(q) implies #[trigger] has_key(
                r@,
                candidate_key(),
                q,
            ) by {
                if q == p {
                    assert(candidate_key()(r@[before.len() as int]) == p);
                } else {
                    let tj1 = nv.take(j + 1);
                    let m = choose|m: int| 0 <= m < tj1.len() && tj1[m] == q;
                    assert(tj[m] == q);
                    assert(tj.contains(q));
                    assert(has_key(before, candidate_key(), q));
                    let k = choose|k: int|
                        0 <= k < before.len() && candidate_key()(#[trigger] before[k]) == q;
                    assert(r@[k] == before[k]);
                }
            }
            j = j + 1;
        }
        assert(nv.take(nv.len() as int) =~= nv);
        r
    }

    /// One step of tetra chunk streaming around the camera column
    /// `(center_cx, center_cz)`.
    ///
    /// Loaded chunks that are no longer needed are dropped and their entities
    /// returned for despawning; chunks no longer needed stop counting as
    /// loading; of the needed chunks that are neither loaded nor loading, the
    /// (at most two) nearest start loading, nearest first, at the level of
    /// detail of their distance.
    pub fn manage_tetra_chunks(&mut self, center_cx: i32, center_cz: i32) -> (u: TetraChunkUpdate)
        requires
            old(self).wf(),
            center_fits(center_cx as int, center_cz as int, RENDER_DISTANCE as int),
        ensures
            final(self).wf(),
            final(self).loaded_chunks@ == old(self).loaded_chunks@.filter(
                tetra_keep(center_cx as int, center_cz as int),
            ),
            u.despawn@ == tetra_entities(
                old(self).loaded_chunks@.filter(tetra_drop(center_cx as int, center_cz as int)),
            ),
            u.load@.len() <= MAX_NEW_TASKS,
            distinct_keys(u.load@, request_key()),
            forall|i: int|
                0 <= i < u.load@.len() ==> is_candidate(
                    (#[trigger] u.load@[i]).0,
                    center_cx as int,
                    center_cz as int,
                    final(self).loaded_chunks@,
                    old(self).loading_chunks@,
                ) && u.load@[i].1 == tetra_lod_for_dist(
                    dist_sq(u.load@[i].0, center_cx as int, center_cz as int),
                ),
            forall|p: ChunkPos|
                is_candidate(
                    p,
                    center_cx as int,
                    center_cz as int,
                    final(self).loaded_chunks@,
                    old(self).loading_chunks@,
                ) && !#[trigger] has_key(u.load@, request_key(), p) ==> u.load@.len()
                    == MAX_NEW_TASKS && forall|i: int|
                    0 <= i < u.load@.len() ==> dist_sq(
                        (#[trigger] u.load@[i]).0,
                        center_cx as int,
                        center_cz as int,
                    ) <= dist_sq(p, center_cx as int, center_cz as int),
            u.load@.len() == MAX_NEW_TASKS ==> dist_sq(
                u.load@[0].0,
                center_cx as int,
                center_cz as int,
            ) <= dist_sq(u.load@[1].0, center_cx as int, center_cz as int),
            forall|p: ChunkPos|
                #[trigger] final(self).loading_chunks@.contains(p) <==> ((old(
                    self,
                ).loading_chunks@.contains(p) && is_needed(
                    p,
                    center_cx as int,
                    center_cz as int,
                    RENDER_DISTANCE as int,
                )) || has_key(u.load@, request_key(), p)),
    {
        let ghost cx = center_cx as int;
        let ghost cz = center_cz as int;
        let ghost rd = RENDER_DISTANCE as int;
        let ghost old_loaded = self.loaded_chunks@;
        let ghost old_loading = self.loading_chunks@;
        let despawn = self.unload_unneeded(center_cx, center_cz);
        let ghost kept = self.loaded_chunks@;
        proof {
            lemma_filter_distinct(old_loaded, tetra_keep(cx, cz), tetra_key());
            assert forall|p: ChunkPos| #[trigger] has_key(kept, tetra_key(), p) implies has_key(
                old_loaded,
                tetra_key(),
                p,
            ) by {
                let k = choose|k: int| 0 <= k < kept.len() && tetra_key()(#[trigger] kept[k]) == p;
                assert(kept.contains(kept[k]));
                let j = choose|j: int| 0 <= j < old_loaded.len() && old_loaded[j] == kept[k];
                assert(tetra_key()(old_loaded[j]) == p);
            }
        }
        let loading2 = retain_needed(&self.loading_chunks, center_cx, center_cz, RENDER_DISTANCE);
        let ghost l2 = loading2@;
        proof {
            lemma_pos_keys_distinct(old_loading);
            lemma_filter_distinct(old_loading, needed_pred(cx, cz, rd), pos_key());
            lemma_pos_keys_distinct(l2);
        }
        self.loading_chunks = loading2;
        let needed = needed_chunks(center_cx, center_cz, RENDER_DISTANCE);
        let cands = self.collect_candidates(&needed, center_cx, center_cz);
        let ghost cs = cands@;
        assert forall|p: ChunkPos| is_needed(p, cx, cz, rd) implies (is_candidate(
            p,
            cx,
            cz,
            kept,
            l2,
        ) <==> #[trigger] is_candidate(p, cx, cz, kept, old_loading)) by {
            assert(l2.contains(p) <==> old_loading.contains(p));
        }
        let (b1, b2) = nearest_two(&cands);
        let mut load: Vec<(ChunkPos, u32)> = Vec::new();
        if let Some(i) = b1 {
            let c = cands[i];
            self.loading_chunks.push(c.0);
            load.push((c.0, c.2));
        }
        if let Some(i) = b2 {
            let c = cands[i];
            self.loading_chunks.push(c.0);
            load.push((c.0, c.2));
        }
        let ghost fl = self.loading_chunks@;
        proof {
            // what was chosen
            assert(b1 is None ==> load@.len() == 0 && fl == l2);
            if let Some(i) = b1 {
                assert(load@[0] == (cs[i as int].0, cs[i as int].2));
                assert(fl[l2.len() as int] == cs[i as int].0);
                if let Some(i2) = b2 {
                    assert(load@[1] == (cs[i2 as int].0, cs[i2 as int].2));
                    assert(fl[l2.len() as int + 1] == cs[i2 as int].0);
                    assert(candidate_key()(cs[i as int]) != candidate_key()(cs[i2 as int]));
                    assert(fl =~= l2.push(cs[i as int].0).push(cs[i2 as int].0));
                    assert(load@ =~= seq![(cs[i as int].0, cs[i as int].2), (cs[i2 as int].0, cs[i2 as int].2)]);
                } else {
                    assert(fl =~= l2.push(cs[i as int].0));
                    assert(load@ =~= seq![(cs[i as int].0, cs[i as int].2)]);
                }
            }
            assert forall|k: int| 0 <= k < load@.len() implies {
                let q = #[trigger] load@[k];
                &&& has_key(cs, candidate_key(), q.0)
                &&& is_candidate(q.0, cx, cz, kept, l2)
                &&& q.1 == tetra_lod_for_dist(dist_sq(q.0, cx, cz))
            } by {
                let i = if k == 0 {
                    b1->0
                } else {
                    b2->0
                };
                assert(load@[k] == (cs[i as int].0, cs[i as int].2));
                assert(candidate_key()(cs[i as int]) == cs[i as int].0);
            }
            // membership of the chosen positions
            assert forall|p: ChunkPos|
                #[trigger] fl.contains(p) <==> (l2.contains(p) || has_key(load@, request_key(), p))
                by {
                if fl.contains(p) {
                    let k = choose|k: int| 0 <= k < fl.len() && fl[k] == p;
                    if k >= l2.len() {
                        let m = k - l2.len();
                        assert(request_key()(load@[m]) == p);
                    } else {
                        assert(l2[k] == p);
                    }
                }
                if has_key(load@, request_key(), p) {
                    let m = choose|m: int| 0 <= m < load@.len() && request_key()(#[trigger] load@[m]) == p;
                    assert(fl[l2.len() as int + m] == p);
                }
                if l2.contains(p) {
                    let k = choose|k: int| 0 <= k < l2.len() && l2[k] == p;
                    assert(fl[k] == p);
                }
            }
            // no duplicates among loading
            assert forall|a: int, b: int| 0 <= a < fl.len() && 0 <= b < fl.len() && a != b implies fl[a] != fl[b] by {
                if a >= l2.len() && b >= l2.len() {
                    assert(request_key()(load@[a - l2.len()]) == fl[a]);
                    assert(request_key()(load@[b - l2.len()]) == fl[b]);
                } else if a >= l2.len() {
                    let q = load@[a - l2.len()];
                    assert(fl[a] == q.0);
                    assert(l2.contains(fl[b]));
                } else if b >= l2.len() {
                    let q = load@[b - l2.len()];
                    assert(fl[b] == q.0);
                    assert(l2.contains(fl[a]));
                }
            }
            // completeness: unchosen candidates are no nearer
            assert forall|p: ChunkPos|
                is_candidate(p, cx, cz, kept, old_loading) && !#[trigger] has_key(
                    load@,
                    request_key(),
                    p,
                ) implies load@.len() == MAX_NEW_TASKS && forall|i: int|
                0 <= i < load@.len() ==> dist_sq((#[trigger] load@[i]).0, cx, cz) <= dist_sq(
                    p,
                    cx,
                    cz,
                ) by {
                assert(is_candidate(p, cx, cz, kept, l2));
                assert(has_key(cs, candidate_key(), p));
                let k = choose|k: int| 0 <= k < cs.len() && candidate_key()(#[trigger] cs[k]) == p;
                let i1 = b1->0;
                if k == i1 {
                    assert(request_key()(load@[0]) == p);
                }
                if cs.len() >= 2 {
                    let i2 = b2->0;
                    if k == i2 {
                        assert(request_key()(load@[1]) == p);
                    }
                    assert(cs[i1 as int].1 <= cs[k].1);
                    assert(cs[i2 as int].1 <= cs[k].1);
                    assert(load@[0].0 == cs[i1 as int].0);
                    assert(load@[1].0 == cs[i2 as int].0);
                }
            }
            if load@.len() == 2 {
                let i1 = b1->0;
                let i2 = b2->0;
                assert(cs[i1 as int].1 <= cs[i2 as int].1);
            }
        }
        TetraChunkUpdate { despawn, load }
    }

    /// Whether a finished generation result for chunk `pos` is to be shown:
    /// only while the chunk still counts as loading.
    pub fn accepts_result(&self, pos: ChunkPos) -> (r: bool)
        ensures
            r == self.loading_chunks@.contains(pos),
    {
        contains_pos(&self.loading_chunks, pos)
    }

    /// Records that chunk `pos` is now shown by render entity `entity` at level
    /// of detail `lod`: it joins the loaded chunks and leaves the loading ones.
    /// A loading chunk is never loaded as well, so no earlier entity is replaced.
    pub fn record_loaded(&mut self, pos: ChunkPos, entity: u64, lod: u32)
        requires
            old(self).wf(),
            old(self).loading_chunks@.contains(pos),
        ensures
            final(self).wf(),
            final(self).loaded_chunks@ == old(self).loaded_chunks@.push(
                TetraLoaded { pos, entity, lod },
            ),
            final(self).loading_chunks@.len() == old(self).loading_chunks@.len() - 1,
            forall|p: ChunkPos|
                #[trigger] final(self).loading_chunks@.contains(p) <==> (old(
                    self,
                ).loading_chunks@.contains(p) && p != pos),
    {
        let ghost old_loading = self.loading_chunks@;
        let ghost old_loaded = self.loaded_chunks@;
        let i = match index_of_pos(&self.loading_chunks, pos) {
            Some(i) => i,
            None => {
                assert(false);
                0
            },
        };
        assert(old_loading[i as int] == pos);
        self.loading_chunks.remove(i);
        let ghost new_loading = self.loading_chunks@;
        assert(new_loading == old_loading.remove(i as int));
        assert forall|p: ChunkPos|
            #[trigger] new_loading.contains(p) <==> (old_loading.contains(p) && p != pos) by {
            if new_loading.contains(p) {
                let k = choose|k: int| 0 <= k < new_loading.len() && new_loading[k] == p;
                if k < i {
                    assert(old_loading[k] == p);
                } else {
                    assert(old_loading[k + 1] == p);
                }
            }
            if old_loading.contains(p) && p != pos {
                let k = choose|k: int| 0 <= k < old_loading.len() && old_loading[k] == p;
                if k < i {
                    assert(new_loading[k] == p);
                } else {
                    assert(new_loading[k - 1] == p);
                }
            }
        }
        self.loaded_chunks.push(TetraLoaded { pos, entity, lod });
        let ghost new_loaded = self.loaded_chunks@;
        assert forall|p: ChunkPos| #[trigger] has_key(new_loaded, tetra_key(), p) implies (has_key(
            old_loaded,
            tetra_key(),
            p,
        ) || p == pos) by {
            let k = choose|k: int| 0 <= k < new_loaded.len() && tetra_key()(#[trigger] new_loaded[k]) == p;
            if k < old_loaded.len() {
                assert(new_loaded[k] == old_loaded[k]);
            }
        }
        assert forall|a: int, b: int|
            #![trigger new_loaded[a], new_loaded[b]]
            0 <= a < new_loaded.len() && 0 <= b < new_loaded.len() && a != b implies tetra_key()(
            new_loaded[a],
        ) != tetra_key()(new_loaded[b]) by {
            if a == old_loaded.len() || b == old_loaded.len() {
                let o = if a == old_loaded.len() {
                    b
                } else {
                    a
                };
                assert(new_loaded[o] == old_loaded[o]);
                assert(tetra_key()(old_loaded[o]) == old_loaded[o].pos);
                assert(has_key(old_loaded, tetra_key(), old_loaded[o].pos));
                assert(!has_key(old_loaded, tetra_key(), pos));
            } else {
                assert(new_loaded[a] == old_loaded[a]);
                assert(new_loaded[b] == old_loaded[b]);
            }
        }
        assert(new_loading.no_duplicates()) by {
            assert forall|a: int, b: int|
                0 <= a < new_loading.len() && 0 <= b < new_loading.len() && a != b implies new_loading[a]
                != new_loading[b] by {
                let a2 = if a < i {
                    a
                } else {
                    a + 1
                };
                let b2 = if b < i {
                    b
                } else {
                    b + 1
                };
                assert(new_loading[a] == old_loading[a2]);
                assert(new_loading[b] == old_loading[b2]);
            }
        }
    }
}

/// Level-of-detail thresholds of the tetra world: 1 up to squared distance 36
/// (6 chunks), 2 up to 144 (12 chunks), 4 beyond.
pub proof fn lemma_tetra_lod_thresholds(d: int)
    ensures
        d <= 36 ==> tetra_lod_for_dist(d) == 1,
        36 < d <= 144 ==> tetra_lod_for_dist(d) == 2,
        144 < d ==> tetra_lod_for_dist(d) == 4,
{
}

/// A tetra chunk may start generating exactly when it lies in the needed
/// ground-layer disc and is neither loaded nor loading.
pub proof fn lemma_candidate_meaning(
    p: ChunkPos,
    cx: int,
    cz: int,
    loaded: Seq<TetraLoaded>,
    loading: Seq<ChunkPos>,
)
    ensures
        is_candidate(p, cx, cz, loaded, loading) <==> (p.1 == 0 && (p.0 - cx) * (p.0 - cx) + (p.2
            - cz) * (p.2 - cz) <= 400 && !(exists|k: int|
            0 <= k < loaded.len() && (#[trigger] loaded[k]).pos == p) && !loading.contains(p)),
{
}

} // verus!
