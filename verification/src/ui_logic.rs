use vstd::prelude::*;
use crate::chunk_system::{
    ChunkPos, center_fits, distinct_keys, has_key, is_needed, lemma_filter_distinct, needed_chunks,
    needed_dist_sq, same_pos,
};

verus! {

broadcast use vstd::seq_lib::group_filter_ensures;

/// How many chunks around the camera the editor's scene view keeps loaded.
pub const RENDER_DISTANCE: i32 = 4;

/// A chunk shown in the editor's scene view and its render entity.
#[derive(Clone, Copy, Debug)]
pub struct ShownChunk {
    pub pos: ChunkPos,
    pub entity: u64,
}

/// Bookkeeping of the chunks the editor's scene view shows.
pub struct ChunkManager {
    pub loaded_chunks: Vec<ShownChunk>,
}

/// What the caller must do after a chunk-management step of the editor.
pub struct ChunkPlan {
    /// Render entities to despawn.
    pub despawn: Vec<u64>,
    /// Chunks to generate and show.
    pub load: Vec<ChunkPos>,
}

pub open spec fn shown_key() -> spec_fn(ShownChunk) -> ChunkPos {
    |e: ShownChunk| e.pos
}

pub open spec fn shown_keep(cx: int, cz: int) -> spec_fn(ShownChunk) -> bool {
    |e: ShownChunk| is_needed(e.pos, cx, cz, RENDER_DISTANCE as int)
}

pub open spec fn shown_drop(cx: int, cz: int) -> spec_fn(ShownChunk) -> bool {
    |e: ShownChunk| !is_needed(e.pos, cx, cz, RENDER_DISTANCE as int)
}

/// The entities of a sequence of shown chunks.
pub open spec fn shown_entities(s: Seq<ShownChunk>) -> Seq<u64> {
    s.map_values(|e: ShownChunk| e.entity)
}

impl ChunkManager {
    /// Each position is shown at most once.
    pub open spec fn wf(&self) -> bool {
        distinct_keys(self.loaded_chunks@, shown_key())
    }

    /// A manager that shows nothing.
    pub fn new() -> (r: Self)
        ensures
            r.wf(),
            r.loaded_chunks@.len() == 0,
    {
        ChunkManager { loaded_chunks: Vec::new() }
    }

    /// Whether chunk `p` is shown.
    pub fn is_loaded(&self, p: ChunkPos) -> (r: bool)
        ensures
            r == has_key(self.loaded_chunks@, shown_key(), p),
    {
        let mut i: usize = 0;
        while i < self.loaded_chunks.len()
            invariant
                i <= self.loaded_chunks@.len(),
                forall|k: int| 0 <= k < i ==> (#[trigger] self.loaded_chunks@[k]).pos != p,
            decreases self.loaded_chunks.len() - i,
        {
            if same_pos(self.loaded_chunks[i].pos, p) {
                assert(shown_key()(self.loaded_chunks@[i as int]) == p);
                return true;
            }
            i = i + 1;
        }
        false
    }

    /// One step of the editor's chunk loading around the camera column
    /// `(center_cx, center_cz)`: shown chunks that are no longer needed are
    /// dropped and their entities returned for despawning, and every needed
    /// chunk that is not shown is returned to be generated and shown.
    pub fn manage_chunks(&mut self, center_cx: i32, center_cz: i32) -> (u: ChunkPlan)
        requires
            old(self).wf(),
            center_fits(center_cx as int, center_cz as int, RENDER_DISTANCE as int),
        ensures
            final(self).wf(),
            final(self).loaded_chunks@ == old(self).loaded_chunks@.filter(
                shown_keep(center_cx as int, center_cz as int),
            ),
            u.despawn@ == shown_entities(
                old(self).loaded_chunks@.filter(shown_drop(center_cx as int, center_cz as int)),
            ),
            u.load@.no_duplicates(),
            forall|p: ChunkPos|
                #[trigger] u.load@.contains(p) <==> (is_needed(
                    p,
                    center_cx as int,
                    center_cz as int,
                    RENDER_DISTANCE as int,
                ) && !has_key(final(self).loaded_chunks@, shown_key(), p)),
    {
        let ghost cx = center_cx as int;
        let ghost cz = center_cz as int;
        let ghost keep = shown_keep(cx, cz);
        let ghost drop = shown_drop(cx, cz);
        let ghost orig = self.loaded_chunks@;
        let mut kept: Vec<ShownChunk> = Vec::new();
        let mut despawn: Vec<u64> = Vec::new();
        let mut i: usize = 0;
        while i < self.loaded_chunks.len()
            invariant
                cx == center_cx,
                cz == center_cz,
                keep == shown_keep(cx, cz),
                drop == shown_drop(cx, cz),
                self.loaded_chunks@ == orig,
                i <= orig.len(),
                kept@ == orig.take(i as int).filter(keep),
                despawn@ == shown_entities(orig.take(i as int).filter(drop)),
            decreases orig.len() - i,
        {
            reveal_with_fuel(Seq::filter, 1);
            assert(orig.take(i + 1).drop_last() =~= orig.take(i as int));
            let e = self.loaded_chunks[i];
            if needed_dist_sq(e.pos, center_cx, center_cz, RENDER_DISTANCE).is_some() {
                kept.push(e);
            } else {
                let ghost before = orig.take(i as int).filter(drop);
                despawn.push(e.entity);
                assert(shown_entities(before.push(e)) =~= shown_entities(before).push(e.entity));
            }
            i = i + 1;
        }
        assert(orig.take(orig.len() as int) =~= orig);
        self.loaded_chunks = kept;
        proof {
            lemma_filter_distinct(orig, keep, shown_key());
        }
        let ghost kv = self.loaded_chunks@;
        let needed = needed_chunks(center_cx, center_cz, RENDER_DISTANCE);
        let ghost nv = needed@;
        let mut load: Vec<ChunkPos> = Vec::new();
        let mut j: usize = 0;
        while j < needed.len()
            invariant
                cx == center_cx,
                cz == center_cz,
                nv == needed@,
                nv.no_duplicates(),
                forall|p: ChunkPos|
                    #[trigger] nv.contains(p) <==> is_needed(p, cx, cz, RENDER_DISTANCE as int),
                j <= nv.len(),
                self.loaded_chunks@ == kv,
                load@.no_duplicates(),
                forall|p: ChunkPos|
                    #[trigger] load@.contains(p) <==> (nv.take(j as int).contains(p) && !has_key(
                        kv,
                        shown_key(),
                        p,
                    )),
            decreases nv.len() - j,
        {
            let p = needed[j];
            let ghost tj = nv.take(j as int);
            let ghost before = load@;
            assert(nv.take(j + 1) =~= tj.push(p));
            assert(!tj.contains(p)) by {
                if tj.contains(p) {
                    let k = choose|k: int| 0 <= k < tj.len() && tj[k] == p;
                    assert(nv[k] == nv[j as int]);
                }
            }
            if !self.is_loaded(p) {
                assert(!before.contains(p));
                load.push(p);
                assert(load@ == before.push(p));
                assert forall|a: int, b: int|
                    0 <= a < load@.len() && 0 <= b < load@.len() && a != b implies load@[a]
                    != load@[b] by {
                    if a == before.len() {
                        assert(before.contains(load@[b]));
                    } else if b == before.len() {
                        assert(before.contains(load@[a]));
                    }
                }
            }
            assert forall|q: ChunkPos|
                #[trigger] load@.contains(q) <==> (nv.take(j + 1).contains(q) && !has_key(
                    kv,
                    shown_key(),
                    q,
                )) by {
                if load@.contains(q) && q != p {
                    let k = choose|k: int| 0 <= k < load@.len() && load@[k] == q;
                    assert(before[k] == q);
                }
                if before.contains(q) {
                    let k = choose|k: int| 0 <= k < before.len() && before[k] == q;
                    assert(load@[k] == q);
                }
                if q == p && load@.len() > before.len() {
                    assert(load@[before.len() as int] == p);
                }
                if tj.push(p).contains(q) && q != p {
                    let k = choose|k: int| 0 <= k < tj.push(p).len() && tj.push(p)[k] == q;
                    assert(tj[k] == q);
                }
                if tj.contains(q) {
                    let k = choose|k: int| 0 <= k < tj.len() && tj[k] == q;
                    assert(tj.push(p)[k] == q);
                }
                if q == p {
                    assert(tj.push(p)[tj.len() as int] == p);
                }
            }
            j = j + 1;
        }
        assert(nv.take(nv.len() as int) =~= nv);
        ChunkPlan { despawn, load }
    }

    /// Records that chunk `pos` is now shown by render entity `entity`.
    pub fn record_loaded(&mut self, pos: ChunkPos, entity: u64)
        requires
            old(self).wf(),
            !has_key(old(self).loaded_chunks@, shown_key(), pos),
        ensures
            final(self).wf(),
            final(self).loaded_chunks@ == old(self).loaded_chunks@.push(ShownChunk { pos, entity }),
    {
        let ghost old_loaded = self.loaded_chunks@;
        self.loaded_chunks.push(ShownChunk { pos, entity });
        let ghost new_loaded = self.loaded_chunks@;
        assert forall|a: int, b: int|
            #![trigger new_loaded[a], new_loaded[b]]
            0 <= a < new_loaded.len() && 0 <= b < new_loaded.len() && a != b implies shown_key()(
            new_loaded[a],
        ) != shown_key()(new_loaded[b]) by {
            if a == old_loaded.len() || b == old_loaded.len() {
                let o = if a == old_loaded.len() {
                    b
                } else {
                    a
                };
                assert(new_loaded[o] == old_loaded[o]);
                assert(shown_key()(old_loaded[o]) == old_loaded[o].pos);
            } else {
                assert(new_loaded[a] == old_loaded[a]);
                assert(new_loaded[b] == old_loaded[b]);
            }
        }
    }
}

/// The editor's views.
#[derive(Clone, Copy, PartialEq, Eq, Debug, Structural)]
pub enum EditorView {
    /// The 3D scene.
    Scene,
    /// The code editor.
    Code,
    /// The system log.
    System,
}

/// Which view the editor shows.
#[derive(Clone, Copy, PartialEq, Eq, Debug, Structural)]
pub struct AppState {
    pub active_view: EditorView,
}

/// The pointer's interaction with a button.
#[derive(Clone, Copy, PartialEq, Eq, Debug, Structural)]
pub enum ButtonInteraction {
    Pressed,
    Hovered,
    Idle,
}

/// The background a button is painted with.
#[derive(Clone, Copy, PartialEq, Eq, Debug, Structural)]
pub enum ButtonShade {
    /// The accent colour, while pressed.
    Accent,
    /// The hover grey.
    Hover,
    /// No background.
    Clear,
}

impl AppState {
    /// The editor starts on the scene view.
    pub fn new() -> (r: Self)
        ensures
            r.active_view == EditorView::Scene,
    {
        AppState { active_view: EditorView::Scene }
    }
}

/// Reacts to the pointer on a button: a pressed tab button switches the
/// editor to its view; the button is painted with the accent colour while
/// pressed, grey while hovered and not at all otherwise.
pub fn handle_button_interaction(
    state: &mut AppState,
    interaction: ButtonInteraction,
    tab: Option<EditorView>,
) -> (shade: ButtonShade)
    ensures
        shade == match interaction {
            ButtonInteraction::Pressed => ButtonShade::Accent,
            ButtonInteraction::Hovered => ButtonShade::Hover,
            ButtonInteraction::Idle => ButtonShade::Clear,
        },
        final(state).active_view == match (interaction, tab) {
            (ButtonInteraction::Pressed, Some(v)) => v,
            _ => old(state).active_view,
        },
{
    match interaction {
        ButtonInteraction::Pressed => {
            if let Some(t) = tab {
                state.active_view = t;
            }
            ButtonShade::Accent
        },
        ButtonInteraction::Hovered => ButtonShade::Hover,
        ButtonInteraction::Idle => ButtonShade::Clear,
    }
}

/// Whether the container or tab of `view` is the one shown: the containers of
/// other views are hidden, and only the active view's tab is highlighted.
pub fn update_ui_state(state: &AppState, view: EditorView) -> (shown: bool)
    ensures
        shown == (view == state.active_view),
{
    view == state.active_view
}

} // verus!
