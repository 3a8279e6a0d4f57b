use vstd::prelude::*;
use crate::voxel_world::{Chunk, RENDER_DISTANCE};

verus! {

broadcast use vstd::seq_lib::group_filter_ensures;

/// Chunk coordinates `(cx, cy, cz)`.
pub type ChunkPos = (i32, i32, i32);

/// Square of the horizontal distance, in chunks, from `p` to the column `(cx, cz)`.
pub open spec fn dist_sq(p: ChunkPos, cx: int, cz: int) -> int {
    (p.0 - cx) * (p.0 - cx) + (p.2 - cz) * (p.2 - cz)
}

/// The chunks kept around the camera: the ground layer (`cy == 0`) inside the
/// circle of radius `r` chunks around the camera's column `(cx, cz)`.
pub open spec fn is_needed(p: ChunkPos, cx: int, cz: int, r: int) -> bool {
    p.1 == 0 && dist_sq(p, cx, cz) <= r * r
}

/// Every chunk coordinate within `r` of the column `(cx, cz)` fits an `i32`.
pub open spec fn center_fits(cx: int, cz: int, r: int) -> bool {
    &&& 0 <= r <= 1000
    &&& i32::MIN <= cx - r
    &&& cx + r <= i32::MAX
    &&& i32::MIN <= cz - r
    &&& cz + r <= i32::MAX
}

/// No two elements of `s` share a key.
pub open spec fn distinct_keys<A>(s: Seq<A>, key: spec_fn(A) -> ChunkPos) -> bool {
    forall|i: int, j: int|
        #![trigger s[i], s[j]]
        0 <= i < s.len() && 0 <= j < s.len() && i != j ==> key(s[i]) != key(s[j])
}

/// Some element of `s` has key `p`.
pub open spec fn has_key<A>(s: Seq<A>, key: spec_fn(A) -> ChunkPos, p: ChunkPos) -> bool {
    exists|k: int| 0 <= k < s.len() && key(#[trigger] s[k]) == p
}

/// Filtering keeps keys distinct, and keeps exactly the elements that satisfy the predicate.
pub proof fn lemma_filter_distinct<A>(s: Seq<A>, p: spec_fn(A) -> bool, key: spec_fn(A) -> ChunkPos)
    requires
        distinct_keys(s, key),
    ensures
        distinct_keys(s.filter(p), key),
        forall|x: A| #[trigger] s.filter(p).contains(x) <==> (s.contains(x) && p(x)),
    decreases s.len(),
{
    reveal_with_fuel(Seq::filter, 1);
    assert forall|x: A| #[trigger] s.filter(p).contains(x) <==> (s.contains(x) && p(x)) by {
        if s.filter(p).contains(x) {
            s.lemma_filter_contains_rev(p, x);
            let k = choose|k: int| 0 <= k < s.filter(p).len() && s.filter(p)[k] == x;
            assert(p(s.filter(p)[k]));
        }
        if s.contains(x) && p(x) {
            let k = choose|k: int| 0 <= k < s.len() && s[k] == x;
            s.lemma_filter_contains(p, k);
        }
    }
    if s.len() > 0 {
        let rest = s.drop_last();
        let last = s.last();
        assert(distinct_keys(rest, key)) by {
            assert forall|i: int, j: int|
                0 <= i < rest.len() && 0 <= j < rest.len() && i != j implies key(rest[i]) != key(
                rest[j],
            ) by {
                assert(rest[i] == s[i]);
                assert(rest[j] == s[j]);
            }
        }
        lemma_filter_distinct(rest, p, key);
        let f = rest.filter(p);
        if p(last) {
            let g = f.push(last);
            assert(s.filter(p) == g);
            assert forall|i: int, j: int|
                0 <= i < g.len() && 0 <= j < g.len() && i != j implies key(g[i]) != key(g[j]) by {
                if i == f.len() || j == f.len() {
                    let o = if i == f.len() {
                        j
                    } else {
                        i
                    };
                    assert(f.contains(g[o]));
                    assert(rest.contains(g[o]));
                    let k = choose|k: int| 0 <= k < rest.len() && rest[k] == g[o];
                    assert(s[k] == g[o]);
                    assert(s[s.len() - 1] == last);
                } else {
                    assert(g[i] == f[i]);
                    assert(g[j] == f[j]);
                }
            }
        }
    }
}

/// A needed chunk lies within `r` of the camera column on both axes.
pub proof fn lemma_needed_bounds(p: ChunkPos, cx: int, cz: int, r: int)
    requires
        is_needed(p, cx, cz, r),
        r >= 0,
    ensures
        -r <= p.0 - cx <= r,
        -r <= p.2 - cz <= r,
        0 <= dist_sq(p, cx, cz) <= r * r,
{
    let dx = p.0 - cx;
    let dz = p.2 - cz;
    assert(dx * dx >= 0 && dz * dz >= 0) by (nonlinear_arith);
    assert(dx * dx <= r * r);
    assert(dz * dz <= r * r);
    assert(-r <= dx <= r) by (nonlinear_arith)
        requires
            dx * dx <= r * r,
            r >= 0,
    ;
    assert(-r <= dz <= r) by (nonlinear_arith)
        requires
            dz * dz <= r * r,
            r >= 0,
    ;
}

/// `Some(dist_sq)` when chunk `p` is needed around the column `(cx, cz)`, `None` otherwise.
pub fn needed_dist_sq(p: ChunkPos, cx: i32, cz: i32, r: i32) -> (d: Option<i64>)
    requires
        0 <= r <= 1000,
    ensures
        d is Some <==> is_needed(p, cx as int, cz as int, r as int),
        d matches Some(v) ==> v == dist_sq(p, cx as int, cz as int) && 0 <= v <= r * r,
{
    let dx: i64 = p.0 as i64 - cx as i64;
    let dz: i64 = p.2 as i64 - cz as i64;
    let rr: i64 = r as i64;
    if p.1 != 0 || dx < -rr || dx > rr || dz < -rr || dz > rr {
        proof {
            if is_needed(p, cx as int, cz as int, r as int) {
                lemma_needed_bounds(p, cx as int, cz as int, r as int);
            }
        }
        return None;
    }
    assert(0 <= dx * dx <= 1000000 && 0 <= dz * dz <= 1000000 && rr * rr <= 1000000)
        by (nonlinear_arith)
        requires
            -1000 <= dx <= 1000,
            -1000 <= dz <= 1000,
            0 <= rr <= 1000,
    ;
    let d = dx * dx + dz * dz;
    if d <= rr * rr {
        Some(d)
    } else {
        None
    }
}

/// The positions of all chunks needed around the column `(center_cx, center_cz)`
/// within `radius` chunks, each once.
pub fn needed_chunks(center_cx: i32, center_cz: i32, radius: i32) -> (r: Vec<ChunkPos>)
    requires
        center_fits(center_cx as int, center_cz as int, radius as int),
    ensures
        r@.no_duplicates(),
        forall|p: ChunkPos|
            #[trigger] r@.contains(p) <==> is_needed(p, center_cx as int, center_cz as int, radius as int),
        forall|p: ChunkPos|
            #[trigger] r@.contains(p) <==> (p.1 == 0 && (p.0 - center_cx) * (p.0 - center_cx) + (p.2
                - center_cz) * (p.2 - center_cz) <= radius * radius),
{
    let ghost cx = center_cx as int;
    let ghost cz = center_cz as int;
    let ghost rd = radius as int;
    let mut r: Vec<ChunkPos> = Vec::new();
    let mut dx: i32 = -radius;
    assert forall|q: ChunkPos|
        #[trigger] r@.contains(q) <==> (is_needed(q, cx, cz, rd) && q.0 - cx < dx) by {
        if is_needed(q, cx, cz, rd) {
            lemma_needed_bounds(q, cx, cz, rd);
        }
    }
    while dx <= radius
        invariant
            center_fits(cx, cz, rd),
            cx == center_cx,
            cz == center_cz,
            rd == radius,
            -rd <= dx <= rd + 1,
            r@.no_duplicates(),
            forall|p: ChunkPos|
                #[trigger] r@.contains(p) <==> (is_needed(p, cx, cz, rd) && p.0 - cx < dx),
        decreases radius + 1 - dx,
    {
        let mut dz: i32 = -radius;
        assert forall|q: ChunkPos|
            #[trigger] r@.contains(q) <==> (is_needed(q, cx, cz, rd) && (q.0 - cx < dx || (q.0
                - cx == dx && q.2 - cz < dz))) by {
            if is_needed(q, cx, cz, rd) {
                lemma_needed_bounds(q, cx, cz, rd);
            }
        }
        while dz <= radius
            invariant
                center_fits(cx, cz, rd),
                cx == center_cx,
                cz == center_cz,
                rd == radius,
                -rd <= dx <= rd,
                -rd <= dz <= rd + 1,
                r@.no_duplicates(),
                forall|p: ChunkPos|
                    #[trigger] r@.contains(p) <==> (is_needed(p, cx, cz, rd) && (p.0 - cx < dx || (
                    p.0 - cx == dx && p.2 - cz < dz))),
            decreases radius + 1 - dz,
        {
            assert(0 <= dx * dx <= 1000000 && 0 <= dz * dz <= 1000000 && radius * radius
                <= 1000000) by (nonlinear_arith)
                requires
                    -1000 <= dx <= 1000,
                    -1000 <= dz <= 1000,
                    0 <= radius <= 1000,
            ;
            if dx * dx + dz * dz <= radius * radius {
                let p: ChunkPos = (center_cx + dx, 0, center_cz + dz);
                assert(!r@.contains(p));
                assert(is_needed(p, cx, cz, rd));
                let ghost prev = r@;
                r.push(p);
                assert forall|q: ChunkPos|
                    #[trigger] r@.contains(q) <==> (is_needed(q, cx, cz, rd) && (q.0 - cx < dx || (
                    q.0 - cx == dx && q.2 - cz < dz + 1))) by {
                    assert(r@ == prev.push(p));
                    if q == p {
                        assert(r@[prev.len() as int] == p);
                    }
                    if r@.contains(q) && q != p {
                        let k = choose|k: int| 0 <= k < r@.len() && r@[k] == q;
                        assert(prev[k] == q);
                    }
                    if prev.contains(q) {
                        let k = choose|k: int| 0 <= k < prev.len() && prev[k] == q;
                        assert(r@[k] == q);
                    }
                }
            } else {
                assert forall|q: ChunkPos|
                    #[trigger] r@.contains(q) <==> (is_needed(q, cx, cz, rd) && (q.0 - cx < dx || (
                    q.0 - cx == dx && q.2 - cz < dz + 1))) by {
                    if q.0 - cx == dx && q.2 - cz == dz {
                        assert((q.0 - cx) * (q.0 - cx) == dx * dx);
                        assert((q.2 - cz) * (q.2 - cz) == dz * dz);
                    }
                }
            }
            dz = dz + 1;
        }
        assert forall|q: ChunkPos|
            #[trigger] r@.contains(q) <==> (is_needed(q, cx, cz, rd) && q.0 - cx < dx + 1) by {
            if is_needed(q, cx, cz, rd) {
                lemma_needed_bounds(q, cx, cz, rd);
            }
        }
        dx = dx + 1;
    }
    assert forall|q: ChunkPos| #[trigger] r@.contains(q) <==> is_needed(q, cx, cz, rd) by {
        if is_needed(q, cx, cz, rd) {
            lemma_needed_bounds(q, cx, cz, rd);
        }
    }
    r
}

/// Level of detail for a chunk at squared distance `d`: 1 within 4 chunks,
/// 2 within 8, 4 beyond.
pub open spec fn lod_for_dist(d: int) -> u32 {
    if d <= 16 {
        1
    } else if d <= 64 {
        2
    } else {
        4
    }
}

/// Level of detail for a chunk at squared distance `dist_sq`.
pub fn target_lod(dist_sq: i64) -> (r: u32)
    ensures
        r == lod_for_dist(dist_sq as int),
{
    if dist_sq <= 4 * 4 {
        1
    } else if dist_sq <= 8 * 8 {
        2
    } else {
        4
    }
}


/// Whether two chunk positions are equal.
pub fn same_pos(a: ChunkPos, b: ChunkPos) -> (r: bool)
    ensures
        r == (a == b),
{
    a.0 == b.0 && a.1 == b.1 && a.2 == b.2
}

/// The key of a position is the position itself.
pub open spec fn pos_key() -> spec_fn(ChunkPos) -> ChunkPos {
    |p: ChunkPos| p
}

/// A sequence of positions has distinct keys exactly when it has no duplicates.
pub proof fn lemma_pos_keys_distinct(s: Seq<ChunkPos>)
    ensures
        distinct_keys(s, pos_key()) <==> s.no_duplicates(),
{
}

/// Whether `s` holds `p`.
pub fn contains_pos(s: &Vec<ChunkPos>, p: ChunkPos) -> (r: bool)
    ensures
        r == s@.contains(p),
{
    let mut i: usize = 0;
    while i < s.len()
        invariant
            i <= s@.len(),
            forall|k: int| 0 <= k < i ==> s@[k] != p,
        decreases s.len() - i,
    {
        if same_pos(s[i], p) {
            return true;
        }
        i = i + 1;
    }
    false
}

/// Position of `p` in `s`, if `s` holds it.
pub fn index_of_pos(s: &Vec<ChunkPos>, p: ChunkPos) -> (r: Option<usize>)
    ensures
        r matches Some(i) ==> i < s@.len() && s@[i as int] == p,
        r is None ==> !s@.contains(p),
{
    let mut i: usize = 0;
    while i < s.len()
        invariant
            i <= s@.len(),
            forall|k: int| 0 <= k < i ==> s@[k] != p,
        decreases s.len() - i,
    {
        if same_pos(s[i], p) {
            return Some(i);
        }
        i = i + 1;
    }
    None
}

/// The predicate "needed around the column `(cx, cz)` within `r`".
pub open spec fn needed_pred(cx: int, cz: int, r: int) -> spec_fn(ChunkPos) -> bool {
    |p: ChunkPos| is_needed(p, cx, cz, r)
}

/// The positions of `s` that are still needed around `(cx, cz)`, in order.
pub fn retain_needed(s: &Vec<ChunkPos>, cx: i32, cz: i32, r: i32) -> (out: Vec<ChunkPos>)
    requires
        0 <= r <= 1000,
    ensures
        out@ == s@.filter(needed_pred(cx as int, cz as int, r as int)),
{
    let ghost pred = needed_pred(cx as int, cz as int, r as int);
    let mut out: Vec<ChunkPos> = Vec::new();
    let mut i: usize = 0;
    while i < s.len()
        invariant
            0 <= r <= 1000,
            pred == needed_pred(cx as int, cz as int, r as int),
            i <= s@.len(),
            out@ == s@.take(i as int).filter(pred),
        decreases s.len() - i,
    {
        reveal_with_fuel(Seq::filter, 1);
        assert(s@.take(i + 1).drop_last() =~= s@.take(i as int));
        let p = s[i];
        if needed_dist_sq(p, cx, cz, r).is_some() {
            out.push(p);
        }
        i = i + 1;
    }
    assert(s@.take(s@.len() as int) =~= s@);
    out
}

/// A loaded cube chunk: its position, render entity, terrain and level of detail.
pub struct LoadedChunk {
    pub pos: ChunkPos,
    pub entity: u64,
    pub chunk: Chunk,
    pub lod: u32,
}

/// Bookkeeping of the cube world's streamed chunks.
pub struct ChunkManager {
    /// Chunks with a render entity.
    pub loaded_chunks: Vec<LoadedChunk>,
    /// Chunks whose generation task is under way.
    pub loading_chunks: Vec<ChunkPos>,
}

/// What the caller must do after a chunk-management step.
pub struct ChunkUpdate {
    /// Render entities to despawn.
    pub despawn: Vec<u64>,
    /// Chunks whose generation must start, with their level of detail.
    pub load: Vec<(ChunkPos, u32)>,
}

/// The key of a loaded chunk is its position.
pub open spec fn loaded_key() -> spec_fn(LoadedChunk) -> ChunkPos {
    |e: LoadedChunk| e.pos
}

/// The key of a load request is its position.
pub open spec fn request_key() -> spec_fn((ChunkPos, u32)) -> ChunkPos {
    |q: (ChunkPos, u32)| q.0
}

/// The entities of a sequence of loaded chunks.
pub open spec fn entities(s: Seq<LoadedChunk>) -> Seq<u64> {
    s.map_values(|e: LoadedChunk| e.entity)
}

/// A loaded chunk stays when it is still needed and has the level of detail
/// that its distance asks for.
pub open spec fn keeps_chunk(e: LoadedChunk, cx: int, cz: int) -> bool {
    is_needed(e.pos, cx, cz, RENDER_DISTANCE as int) && e.lod == lod_for_dist(dist_sq(e.pos, cx, cz))
}

pub open spec fn keep_pred(cx: int, cz: int) -> spec_fn(LoadedChunk) -> bool {
    |e: LoadedChunk| keeps_chunk(e, cx, cz)
}

pub open spec fn drop_pred(cx: int, cz: int) -> spec_fn(LoadedChunk) -> bool {
    |e: LoadedChunk| !keeps_chunk(e, cx, cz)
}

impl ChunkManager {
    /// Each position is loaded at most once, loading at most once, never both,
    /// and every loaded chunk's terrain is well formed.
    pub open spec fn wf(&self) -> bool {
        &&& distinct_keys(self.loaded_chunks@, loaded_key())
        &&& self.loading_chunks@.no_duplicates()
        &&& forall|p: ChunkPos|
            !(#[trigger] has_key(self.loaded_chunks@, loaded_key(), p)
                && self.loading_chunks@.contains(p))
        &&& forall|i: int|
            0 <= i < self.loaded_chunks@.len() ==> (#[trigger] self.loaded_chunks@[i]).chunk.wf()
    }

    /// A manager with nothing loaded.
    pub fn new() -> (r: Self)
        ensures
            r.wf(),
            r.loaded_chunks@.len() == 0,
            r.loading_chunks@.len() == 0,
    {
        ChunkManager { loaded_chunks: Vec::new(), loading_chunks: Vec::new() }
    }

    /// Whether chunk `p` has a render entity.
    pub fn is_loaded(&self, p: ChunkPos) -> (r: bool)
        ensures
            r == has_key(self.loaded_chunks@, loaded_key(), p),
    {
        let mut i: usize = 0;
        while i < self.loaded_chunks.len()
            invariant
                i <= self.loaded_chunks@.len(),
                forall|k: int| 0 <= k < i ==> (#[trigger] self.loaded_chunks@[k]).pos != p,
            decreases self.loaded_chunks.len() - i,
        {
            if same_pos(self.loaded_chunks[i].pos, p) {
                assert(loaded_key()(self.loaded_chunks@[i as int]) == p);
                return true;
            }
            i = i + 1;
        }
        false
    }

    /// Index of the loaded chunk at `p`, if any.
    pub fn find_loaded(&self, p: ChunkPos) -> (r: Option<usize>)
        ensures
            r matches Some(i) ==> i < self.loaded_chunks@.len() && self.loaded_chunks@[i as int].pos
                == p,
            r is None ==> !has_key(self.loaded_chunks@, loaded_key(), p),
    {
        let mut i: usize = 0;
        while i < self.loaded_chunks.len()
            invariant
                i <= self.loaded_chunks@.len(),
                forall|k: int| 0 <= k < i ==> (#[trigger] self.loaded_chunks@[k]).pos != p,
            decreases self.loaded_chunks.len() - i,
        {
            if same_pos(self.loaded_chunks[i].pos, p) {
                return Some(i);
            }
            i = i + 1;
        }
        None
    }

    /// Whether chunk `p` is being generated.
    pub fn is_loading(&self, p: ChunkPos) -> (r: bool)
        ensures
            r == self.loading_chunks@.contains(p),
    {
        contains_pos(&self.loading_chunks, p)
    }

    /// Drops the loaded chunks that are no longer needed or whose level of
    /// detail no longer fits; returns their entities.
    fn unload_stale(&mut self, center_cx: i32, center_cz: i32) -> (despawn: Vec<u64>)
        ensures
            final(self).loading_chunks@ == old(self).loading_chunks@,
            final(self).loaded_chunks@ == old(self).loaded_chunks@.filter(
                keep_pred(center_cx as int, center_cz as int),
            ),
            despawn@ == entities(
                old(self).loaded_chunks@.filter(drop_pred(center_cx as int, center_cz as int)),
            ),
    {
        let ghost cx = center_cx as int;
        let ghost cz = center_cz as int;
        let ghost keep = keep_pred(cx, cz);
        let ghost drop = drop_pred(cx, cz);
        let mut rest: Vec<LoadedChunk> = Vec::new();
        std::mem::swap(&mut rest, &mut self.loaded_chunks);
        let ghost orig = rest@;
        let n = rest.len();
        let mut kept: Vec<LoadedChunk> = Vec::new();
        let mut despawn: Vec<u64> = Vec::new();
        let mut i: usize = 0;
        while i < n
            invariant
                cx == center_cx,
                cz == center_cz,
                keep == keep_pred(cx, cz),
                drop == drop_pred(cx, cz),
                n == orig.len(),
                i <= n,
                rest@ == orig.subrange(i as int, n as int),
                kept@ == orig.take(i as int).filter(keep),
                despawn@ == entities(orig.take(i as int).filter(drop)),
            decreases n - i,
        {
            reveal_with_fuel(Seq::filter, 1);
            assert(orig.take(i + 1).drop_last() =~= orig.take(i as int));
            let e = rest.remove(0);
            assert(e == orig[i as int]);
            assert(rest@ =~= orig.subrange(i + 1, n as int));
            let stays = match needed_dist_sq(e.pos, center_cx, center_cz, RENDER_DISTANCE) {
                Some(d) => {
                    assert(d as int == dist_sq(e.pos, cx, cz));
                    e.lod == target_lod(d)
                },
                None => false,
            };
            assert(stays == keeps_chunk(e, cx, cz));
            if stays {
                kept.push(e);
            } else {
                let ghost before = orig.take(i as int).filter(drop);
                despawn.push(e.entity);
                assert(entities(before.push(e)) =~= entities(before).push(e.entity));
            }
            i = i + 1;
        }
        assert(orig.take(n as int) =~= orig);
        self.loaded_chunks = kept;
        despawn
    }

    /// One step of chunk streaming around the camera column `(center_cx, center_cz)`.
    ///
    /// Loaded chunks that are no longer needed, or whose level of detail no
    /// longer fits their distance, are dropped and their entities returned for
    /// despawning; chunks no longer needed stop counting as loading; every
    /// needed chunk that is neither loaded nor loading starts loading at the
    /// level of detail of its distance, and is returned as a load request.
    pub fn manage_chunks(&mut self, center_cx: i32, center_cz: i32) -> (u: ChunkUpdate)
        requires
            old(self).wf(),
            center_fits(center_cx as int, center_cz as int, RENDER_DISTANCE as int),
        ensures
            final(self).wf(),
            final(self).loaded_chunks@ == old(self).loaded_chunks@.filter(
                keep_pred(center_cx as int, center_cz as int),
            ),
            u.despawn@ == entities(
                old(self).loaded_chunks@.filter(drop_pred(center_cx as int, center_cz as int)),
            ),
            forall|p: ChunkPos|
                #[trigger] final(self).loading_chunks@.contains(p) <==> (is_needed(
                    p,
                    center_cx as int,
                    center_cz as int,
                    RENDER_DISTANCE as int,
                ) && !has_key(final(self).loaded_chunks@, loaded_key(), p)),
            forall|i: int|
                0 <= i < final(self).loaded_chunks@.len() ==> keeps_chunk(
                    #[trigger] final(self).loaded_chunks@[i],
                    center_cx as int,
                    center_cz as int,
                ),
            forall|p: ChunkPos|
                is_needed(p, center_cx as int, center_cz as int, RENDER_DISTANCE as int) ==> (
                #[trigger] has_key(final(self).loaded_chunks@, loaded_key(), p)
                    || final(self).loading_chunks@.contains(p)),
            forall|i: int|
                0 <= i < final(self).loaded_chunks@.len() ==> {
                    let e = #[trigger] final(self).loaded_chunks@[i];
                    let d = (e.pos.0 - center_cx) * (e.pos.0 - center_cx) + (e.pos.2 - center_cz) * (
                    e.pos.2 - center_cz);
                    &&& e.pos.1 == 0
                    &&& d <= 400
                    &&& e.lod == if d <= 16 {
                        1u32
                    } else if d <= 64 {
                        2u32
                    } else {
                        4u32
                    }
                },
            forall|e: LoadedChunk|
                #[trigger] old(self).loaded_chunks@.contains(e) && e.pos.1 == 0 && {
                    let d = (e.pos.0 - center_cx) * (e.pos.0 - center_cx) + (e.pos.2 - center_cz) * (
                    e.pos.2 - center_cz);
                    &&& d <= 400
                    &&& e.lod == if d <= 16 {
                        1u32
                    } else if d <= 64 {
                        2u32
                    } else {
                        4u32
                    }
                } ==> final(self).loaded_chunks@.contains(e),
            forall|q: (ChunkPos, u32)|
                #[trigger] u.load@.contains(q) ==> {
                    let d = (q.0.0 - center_cx) * (q.0.0 - center_cx) + (q.0.2 - center_cz) * (q.0.2
                        - center_cz);
                    q.1 == if d <= 16 {
                        1u32
                    } else if d <= 64 {
                        2u32
                    } else {
                        4u32
                    }
                },
            distinct_keys(u.load@, request_key()),
            forall|q: (ChunkPos, u32)|
                #[trigger] u.load@.contains(q) <==> (is_needed(
                    q.0,
                    center_cx as int,
                    center_cz as int,
                    RENDER_DISTANCE as int,
                ) && !has_key(final(self).loaded_chunks@, loaded_key(), q.0)
                    && !old(self).loading_chunks@.contains(q.0) && q.1 == lod_for_dist(
                    dist_sq(q.0, center_cx as int, center_cz as int),
                )),
    {
        let ghost cx = center_cx as int;
        let ghost cz = center_cz as int;
        let ghost rd = RENDER_DISTANCE as int;
        let ghost old_loaded = self.loaded_chunks@;
        let ghost old_loading = self.loading_chunks@;
        let despawn = self.unload_stale(center_cx, center_cz);
        let ghost kept = self.loaded_chunks@;
        proof {
            lemma_filter_distinct(old_loaded, keep_pred(cx, cz), loaded_key());
            assert forall|p: ChunkPos| #[trigger] has_key(kept, loaded_key(), p) implies has_key(
                old_loaded,
                loaded_key(),
                p,
            ) by {
                let k = choose|k: int| 0 <= k < kept.len() && loaded_key()(#[trigger] kept[k]) == p;
                assert(kept.contains(kept[k]));
                let j = choose|j: int| 0 <= j < old_loaded.len() && old_loaded[j] == kept[k];
                assert(loaded_key()(old_loaded[j]) == p);
            }
            assert forall|i: int| 0 <= i < kept.len() implies (#[trigger] kept[i]).chunk.wf() by {
                assert(kept.contains(kept[i]));
                let j = choose|j: int| 0 <= j < old_loaded.len() && old_loaded[j] == kept[i];
                assert(old_loaded[j].chunk.wf());
            }
        }
        let loading2 = retain_needed(&self.loading_chunks, center_cx, center_cz, RENDER_DISTANCE);
        let ghost l2 = loading2@;
        proof {
            lemma_pos_keys_distinct(old_loading);
            lemma_filter_distinct(old_loading, needed_pred(cx, cz, rd), pos_key());
            lemma_pos_keys_distinct(l2);
        }
        self.loading_chunks = loading2;
        let needed = needed_chunks(center_cx, center_cz, RENDER_DISTANCE);
        let ghost nv = needed@;
        let mut load: Vec<(ChunkPos, u32)> = Vec::new();
        let mut j: usize = 0;
        while j < needed.len()
            invariant
                cx == center_cx,
                cz == center_cz,
                rd == RENDER_DISTANCE,
                nv == needed@,
                nv.no_duplicates(),
                forall|p: ChunkPos| #[trigger] nv.contains(p) <==> is_needed(p, cx, cz, rd),
                j <= nv.len(),
                self.loaded_chunks@ == kept,
                distinct_keys(kept, loaded_key()),
                forall|i: int| 0 <= i < kept.len() ==> (#[trigger] kept[i]).chunk.wf(),
                forall|p: ChunkPos| #[trigger] has_key(kept, loaded_key(), p) ==> has_key(
                    old_loaded,
                    loaded_key(),
                    p,
                ),
                forall|p: ChunkPos|
                    !(#[trigger] has_key(old_loaded, loaded_key(), p) && old_loading.contains(p)),
                forall|p: ChunkPos| #[trigger] l2.contains(p) <==> (old_loading.contains(p) && is_needed(p, cx, cz, rd)),
                self.loading_chunks@.no_duplicates(),
                forall|p: ChunkPos|
                    #[trigger] self.loading_chunks@.contains(p) <==> (l2.contains(p) || (nv.take(
                        j as int,
                    ).contains(p) && !has_key(kept, loaded_key(), p))),
                distinct_keys(load@, request_key()),
                forall|q: (ChunkPos, u32)|
                    #[trigger] load@.contains(q) <==> (nv.take(j as int).contains(q.0) && !has_key(
                        kept,
                        loaded_key(),
                        q.0,
                    ) && !l2.contains(q.0) && q.1 == lod_for_dist(dist_sq(q.0, cx, cz))),
            decreases nv.len() - j,
        {
            let p = needed[j];
            let ghost tj = nv.take(j as int);
            assert(nv.take(j + 1) =~= tj.push(p));
            assert(!tj.contains(p)) by {
                if tj.contains(p) {
                    let k = choose|k: int| 0 <= k < tj.len() && tj[k] == p;
                    assert(nv[k] == nv[j as int]);
                }
            }
            let ghost loading_before = self.loading_chunks@;
            let ghost load_before = load@;
            if !self.is_loaded(p) && !self.is_loading(p) {
                assert(nv.contains(p));
                let d = match needed_dist_sq(p, center_cx, center_cz, RENDER_DISTANCE) {
                    Some(d) => d,
                    None => 0,
                };
                assert(d as int == dist_sq(p, cx, cz));
                let lod = target_lod(d);
                assert(!l2.contains(p));
                self.loading_chunks.push(p);
                load.push((p, lod));
                assert forall|q: ChunkPos|
                    #[trigger] self.loading_chunks@.contains(q) <==> (l2.contains(q) || (nv.take(
                        j + 1,
                    ).contains(q) && !has_key(kept, loaded_key(), q))) by {
                    assert(self.loading_chunks@ == loading_before.push(p));
                    if self.loading_chunks@.contains(q) && q != p {
                        let k = choose|k: int| 0 <= k < self.loading_chunks@.len() && self.loading_chunks@[k] == q;
                        assert(loading_before[k] == q);
                    }
                    if loading_before.contains(q) {
                        let k = choose|k: int| 0 <= k < loading_before.len() && loading_before[k] == q;
                        assert(self.loading_chunks@[k] == q);
                    }
                    if q == p {
                        assert(self.loading_chunks@[loading_before.len() as int] == p);
                    }
                    if tj.push(p).contains(q) && q != p {
                        let k = choose|k: int| 0 <= k < tj.push(p).len() && tj.push(p)[k] == q;
                        assert(tj[k] == q);
                    }
                    if tj.contains(q) {
                        let k = choose|k: int| 0 <= k < tj.len() && tj[k] == q;
                        assert(tj.push(p)[k] == q);
                    }
                    if q == p {
                        assert(tj.push(p)[tj.len() as int] == p);
                    }
                }
                assert forall|r: (ChunkPos, u32)|
                    #[trigger] load@.contains(r) <==> (nv.take(j + 1).contains(r.0) && !has_key(
                        kept,
                        loaded_key(),
                        r.0,
                    ) && !l2.contains(r.0) && r.1 == lod_for_dist(dist_sq(r.0, cx, cz))) by {
                    let q = r.0;
                    assert(load@ == load_before.push((p, lod)));
                    if load@.contains(r) && r != (p, lod) {
                        let k = choose|k: int| 0 <= k < load@.len() && load@[k] == r;
                        assert(load_before[k] == r);
                    }
                    if load_before.contains(r) {
                        let k = choose|k: int| 0 <= k < load_before.len() && load_before[k] == r;
                        assert(load@[k] == r);
                    }
                    if r == (p, lod) {
                        assert(load@[load_before.len() as int] == (p, lod));
                    }
                    if tj.push(p).contains(q) && q != p {
                        let k = choose|k: int| 0 <= k < tj.push(p).len() && tj.push(p)[k] == q;
                        assert(tj[k] == q);
                    }
                    if tj.contains(q) {
                        let k = choose|k: int| 0 <= k < tj.len() && tj[k] == q;
                        assert(tj.push(p)[k] == q);
                    }
                    if q == p {
                        assert(tj.push(p)[tj.len() as int] == p);
                    }
                }
                assert forall|a: int, b: int|
                    #![trigger load@[a], load@[b]]
                    0 <= a < load@.len() && 0 <= b < load@.len() && a != b implies request_key()(
                    load@[a],
                ) != request_key()(load@[b]) by {
                    if a == load_before.len() || b == load_before.len() {
                        let o = if a == load_before.len() {
                            b
                        } else {
                            a
                        };
                        let r = load_before[o];
                        assert(load_before.contains(r));
                        assert(load@[o] == r);
                        assert(tj.contains(r.0));
                    } else {
                        assert(load@[a] == load_before[a]);
                        assert(load@[b] == load_before[b]);
                    }
                }
            } else {
                assert forall|q: ChunkPos|
                    #[trigger] self.loading_chunks@.contains(q) <==> (l2.contains(q) || (nv.take(
                        j + 1,
                    ).contains(q) && !has_key(kept, loaded_key(), q))) by {
                    if tj.push(p).contains(q) && q != p {
                        let k = choose|k: int| 0 <= k < tj.push(p).len() && tj.push(p)[k] == q;
                        assert(tj[k] == q);
                    }
                    if tj.contains(q) {
                        let k = choose|k: int| 0 <= k < tj.len() && tj[k] == q;
                        assert(tj.push(p)[k] == q);
                    }
                    if q == p {
                        assert(tj.push(p)[tj.len() as int] == p);
                    }
                }
                assert forall|r: (ChunkPos, u32)|
                    #[trigger] load@.contains(r) <==> (nv.take(j + 1).contains(r.0) && !has_key(
                        kept,
                        loaded_key(),
                        r.0,
                    ) && !l2.contains(r.0) && r.1 == lod_for_dist(dist_sq(r.0, cx, cz))) by {
                    let q = r.0;
                    if tj.push(p).contains(q) && q != p {
                        let k = choose|k: int| 0 <= k < tj.push(p).len() && tj.push(p)[k] == q;
                        assert(tj[k] == q);
                    }
                    if tj.contains(q) {
                        let k = choose|k: int| 0 <= k < tj.len() && tj[k] == q;
                        assert(tj.push(p)[k] == q);
                    }
                }
            }
            j = j + 1;
        }
        assert(nv.take(nv.len() as int) =~= nv);
        proof {
            assert forall|e: LoadedChunk|
                #[trigger] old_loaded.contains(e) && keeps_chunk(e, cx, cz) implies kept.contains(e) by {
                let j = choose|j: int| 0 <= j < old_loaded.len() && old_loaded[j] == e;
                old_loaded.lemma_filter_contains(keep_pred(cx, cz), j);
            }
        }
        ChunkUpdate { despawn, load }
    }

    /// Whether a finished generation result for chunk `pos` is to be shown:
    /// only when the chunk is still loading and not already loaded. A result
    /// that is not shown leaves the bookkeeping as it is (such a chunk is not
    /// loading, so there is nothing to clear).
    pub fn accepts_result(&self, pos: ChunkPos) -> (r: bool)
        requires
            self.wf(),
        ensures
            r == (!has_key(self.loaded_chunks@, loaded_key(), pos) && self.loading_chunks@.contains(
                pos,
            )),
    {
        !self.is_loaded(pos) && self.is_loading(pos)
    }

    /// Records that chunk `pos` is now shown by render entity `entity`: it
    /// joins the loaded chunks and leaves the loading ones.
    pub fn record_loaded(&mut self, pos: ChunkPos, entity: u64, chunk: Chunk, lod: u32)
        requires
            old(self).wf(),
            chunk.wf(),
            !has_key(old(self).loaded_chunks@, loaded_key(), pos),
            old(self).loading_chunks@.contains(pos),
        ensures
            final(self).wf(),
            final(self).loaded_chunks@ == old(self).loaded_chunks@.push(
                LoadedChunk { pos, entity, chunk, lod },
            ),
            final(self).loading_chunks@.len() == old(self).loading_chunks@.len() - 1,
            forall|p: ChunkPos|
                #[trigger] final(self).loading_chunks@.contains(p) <==> (old(
                    self,
                ).loading_chunks@.contains(p) && p != pos),
    {
        let ghost old_loading = self.loading_chunks@;
        let ghost old_loaded = self.loaded_chunks@;
        let i = match index_of_pos(&self.loading_chunks, pos) {
            Some(i) => i,
            None => {
                assert(false);
                0
            },
        };
        assert(old_loading[i as int] == pos);
        self.loading_chunks.remove(i);
        let ghost new_loading = self.loading_chunks@;
        assert(new_loading == old_loading.remove(i as int));
        assert forall|p: ChunkPos|
            #[trigger] new_loading.contains(p) <==> (old_loading.contains(p) && p != pos) by {
            if new_loading.contains(p) {
                let k = choose|k: int| 0 <= k < new_loading.len() && new_loading[k] == p;
                if k < i {
                    assert(old_loading[k] == p);
                } else {
                    assert(old_loading[k + 1] == p);
                }
            }
            if old_loading.contains(p) && p != pos {
                let k = choose|k: int| 0 <= k < old_loading.len() && old_loading[k] == p;
                if k < i {
                    assert(new_loading[k] == p);
                } else {
                    assert(new_loading[k - 1] == p);
                }
            }
        }
        self.loaded_chunks.push(LoadedChunk { pos, entity, chunk, lod });
        let ghost new_loaded = self.loaded_chunks@;
        assert forall|p: ChunkPos| #[trigger] has_key(new_loaded, loaded_key(), p) implies (has_key(
            old_loaded,
            loaded_key(),
            p,
        ) || p == pos) by {
            let k = choose|k: int| 0 <= k < new_loaded.len() && loaded_key()(#[trigger] new_loaded[k]) == p;
            if k < old_loaded.len() {
                assert(new_loaded[k] == old_loaded[k]);
            }
        }
        assert forall|a: int, b: int|
            #![trigger new_loaded[a], new_loaded[b]]
            0 <= a < new_loaded.len() && 0 <= b < new_loaded.len() && a != b implies loaded_key()(
            new_loaded[a],
        ) != loaded_key()(new_loaded[b]) by {
            if a == old_loaded.len() || b == old_loaded.len() {
                let o = if a == old_loaded.len() {
                    b
                } else {
                    a
                };
                assert(new_loaded[o] == old_loaded[o]);
                assert(loaded_key()(old_loaded[o]) == old_loaded[o].pos);
            } else {
                assert(new_loaded[a] == old_loaded[a]);
                assert(new_loaded[b] == old_loaded[b]);
            }
        }
        assert forall|k: int| 0 <= k < new_loaded.len() implies (#[trigger] new_loaded[k]).chunk.wf() by {
            if k < old_loaded.len() {
                assert(new_loaded[k] == old_loaded[k]);
            }
        }
        proof {
            assert(new_loading.no_duplicates()) by {
                assert forall|a: int, b: int|
                    0 <= a < new_loading.len() && 0 <= b < new_loading.len() && a != b implies new_loading[a] != new_loading[b] by {
                    let a2 = if a < i { a } else { a + 1 };
                    let b2 = if b < i { b } else { b + 1 };
                    assert(new_loading[a] == old_loading[a2]);
                    assert(new_loading[b] == old_loading[b2]);
                }
            }
        }
    }
}

/// Once a management step has run, a loaded set in which every chunk keeps
/// its place is left unchanged by the next step with the same camera column,
/// and nothing is despawned.
pub proof fn lemma_manage_settles(s: Seq<LoadedChunk>, cx: int, cz: int)
    requires
        forall|i: int| 0 <= i < s.len() ==> keeps_chunk(#[trigger] s[i], cx, cz),
    ensures
        s.filter(keep_pred(cx, cz)) == s,
        s.filter(drop_pred(cx, cz)) == Seq::<LoadedChunk>::empty(),
    decreases s.len(),
{
    reveal_with_fuel(Seq::filter, 1);
    if s.len() > 0 {
        let rest = s.drop_last();
        assert forall|i: int| 0 <= i < rest.len() implies keeps_chunk(#[trigger] rest[i], cx, cz) by {
            assert(rest[i] == s[i]);
        }
        lemma_manage_settles(rest, cx, cz);
        assert(keeps_chunk(s[s.len() - 1], cx, cz));
        assert(s.filter(keep_pred(cx, cz)) =~= s);
    }
}

/// Level-of-detail thresholds of the cube world: 1 up to squared distance 16
/// (4 chunks), 2 up to 64 (8 chunks), 4 beyond.
pub proof fn lemma_lod_thresholds(d: int)
    ensures
        d <= 16 ==> lod_for_dist(d) == 1,
        16 < d <= 64 ==> lod_for_dist(d) == 2,
        64 < d ==> lod_for_dist(d) == 4,
{
}

/// The needed chunks form the ground-layer disc: `p` is needed exactly when it
/// lies in layer 0 and its squared horizontal distance from the camera column
/// is at most the squared radius.
pub proof fn lemma_needed_disc(p: ChunkPos, cx: int, cz: int, r: int)
    ensures
        dist_sq(p, cx, cz) == (p.0 - cx) * (p.0 - cx) + (p.2 - cz) * (p.2 - cz),
        is_needed(p, cx, cz, r) <==> (p.1 == 0 && (p.0 - cx) * (p.0 - cx) + (p.2 - cz) * (p.2 - cz)
            <= r * r),
{
}

} // verus!
