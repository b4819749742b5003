//! Per-page frame state: each frame's URL, loading status and execution
//! contexts, kept up to date from the page's frame and runtime events.

use vstd::prelude::*;

use crate::text::chars_of;

verus! {

/// The name of the isolated world in which the library runs its own
/// scripts.
pub const UTILITY_WORLD_NAME: &'static str = "__chromist_utility_world__";

/// One frame's live state.
#[derive(Debug, Clone)]
pub struct FrameEntry {
    /// The frame's id.
    pub id: String,
    /// The parent frame's id; `None` for the main frame.
    pub parent_id: Option<String>,
    /// The frame's URL.
    pub url: String,
    /// The frame's name attribute.
    pub name: Option<String>,
    /// Whether the frame has started loading and not yet stopped.
    pub loading: bool,
    /// The frame's main-world execution context.
    pub main_ctx: Option<i64>,
    /// The frame's utility-world execution context.
    pub utility_ctx: Option<i64>,
}

/// A frame as plain values.
pub ghost struct SpecFrame {
    pub id: Seq<char>,
    pub parent_id: Option<Seq<char>>,
    pub url: Seq<char>,
    pub name: Option<Seq<char>>,
    pub loading: bool,
    pub main_ctx: Option<i64>,
    pub utility_ctx: Option<i64>,
}

/// The text of an optional string.
pub open spec fn opt_text(o: Option<String>) -> Option<Seq<char>> {
    match o {
        Some(s) => Some(s@),
        None => None,
    }
}

impl View for FrameEntry {
    type V = SpecFrame;

    open spec fn view(&self) -> SpecFrame {
        SpecFrame {
            id: self.id@,
            parent_id: opt_text(self.parent_id),
            url: self.url@,
            name: opt_text(self.name),
            loading: self.loading,
            main_ctx: self.main_ctx,
            utility_ctx: self.utility_ctx,
        }
    }
}

/// A frame as a navigation reports it.
#[derive(Debug, Clone)]
pub struct FrameInfo {
    pub id: String,
    pub parent_id: Option<String>,
    pub url: String,
    pub name: Option<String>,
}

/// The page events that change the frame tree.
#[derive(Debug, Clone)]
pub enum PageEvent {
    /// A child frame was attached to `parent_frame_id`.
    FrameAttached { frame_id: String, parent_frame_id: String },
    /// A frame navigated; a frame without a parent is the main frame.
    FrameNavigated { frame: FrameInfo },
    /// A frame was detached.
    FrameDetached { frame_id: String },
    /// A frame started loading.
    FrameStartedLoading { frame_id: String },
    /// A frame stopped loading.
    FrameStoppedLoading { frame_id: String },
}

/// The runtime events that change the frames' execution contexts.
#[derive(Debug, Clone)]
pub enum RuntimeEvent {
    /// An execution context was created; `frame_id` and `is_default` come
    /// from its auxiliary data.
    ContextCreated { id: i64, name: String, frame_id: Option<String>, is_default: bool },
    /// An execution context was destroyed.
    ContextDestroyed { id: i64 },
    /// All execution contexts were cleared.
    ContextsCleared,
}

/// The frame registry of one page.
#[derive(Debug)]
pub struct FrameTree {
    /// The known frames, each id once.
    pub frames: Vec<FrameEntry>,
    /// The id of the main frame, once known.
    pub main_frame_id: Option<String>,
    /// For each known execution context: its frame and whether it is the
    /// utility world; each context id once.
    pub ctx_to_frame: Vec<(i64, String, bool)>,
}

/// The abstract frame registry: frames by id, the main frame id, and the
/// frame and world of each known execution context.
pub ghost struct SpecFrameTree {
    pub frames: Map<Seq<char>, SpecFrame>,
    pub main_frame_id: Option<Seq<char>>,
    pub contexts: Map<i64, (Seq<char>, bool)>,
}

/// The frames of `v` by id.
pub open spec fn frames_map(v: Seq<FrameEntry>) -> Map<Seq<char>, SpecFrame> {
    Map::new(
        |k: Seq<char>| exists|i: int| 0 <= i < v.len() && #[trigger] v[i].id@ == k,
        |k: Seq<char>| v[choose|i: int| 0 <= i < v.len() && #[trigger] v[i].id@ == k]@,
    )
}

/// The contexts of `v` by id.
pub open spec fn contexts_map(v: Seq<(i64, String, bool)>) -> Map<i64, (Seq<char>, bool)> {
    Map::new(
        |k: i64| exists|i: int| 0 <= i < v.len() && #[trigger] v[i].0 == k,
        |k: i64|
            {
                let e = v[choose|i: int| 0 <= i < v.len() && #[trigger] v[i].0 == k];
                (e.1@, e.2)
            },
    )
}

/// No two frames share an id.
pub open spec fn distinct_frames(v: Seq<FrameEntry>) -> bool {
    forall|i: int, j: int| 0 <= i < v.len() && 0 <= j < v.len() && i != j ==> v[i].id@ != v[j].id@
}

/// No two contexts share an id.
pub open spec fn distinct_contexts(v: Seq<(i64, String, bool)>) -> bool {
    forall|i: int, j: int| 0 <= i < v.len() && 0 <= j < v.len() && i != j ==> v[i].0 != v[j].0
}

/// A well-formed abstract registry: the main frame, once known, is one of
/// the frames, and every frame is filed under its own id.
pub open spec fn tree_wf(t: SpecFrameTree) -> bool {
    &&& t.frames.dom().finite()
    &&& (t.main_frame_id matches Some(k) ==> t.frames.contains_key(k))
    &&& forall|k: Seq<char>| #[trigger] t.frames.contains_key(k) ==> t.frames[k].id == k
}

impl View for FrameTree {
    type V = SpecFrameTree;

    open spec fn view(&self) -> SpecFrameTree {
        SpecFrameTree {
            frames: frames_map(self.frames@),
            main_frame_id: opt_text(self.main_frame_id),
            contexts: contexts_map(self.ctx_to_frame@),
        }
    }
}

impl FrameTree {
    /// The storage invariant: frame ids and context ids are unique, and
    /// the registry they describe is well formed.
    pub open spec fn inv(&self) -> bool {
        &&& distinct_frames(self.frames@)
        &&& distinct_contexts(self.ctx_to_frame@)
        &&& tree_wf(self@)
    }
}

/// A fresh frame with no parent, URL, name or contexts.
pub open spec fn blank_frame(id: Seq<char>, parent: Option<Seq<char>>) -> SpecFrame {
    SpecFrame {
        id,
        parent_id: parent,
        url: seq![],
        name: None,
        loading: false,
        main_ctx: None,
        utility_ctx: None,
    }
}

/// `contexts` without the contexts of `f`.
pub open spec fn drop_frame_contexts(
    contexts: Map<i64, (Seq<char>, bool)>,
    f: SpecFrame,
) -> Map<i64, (Seq<char>, bool)> {
    let c1 = match f.main_ctx {
        Some(c) => contexts.remove(c),
        None => contexts,
    };
    match f.utility_ctx {
        Some(c) => c1.remove(c),
        None => c1,
    }
}

/// The registry after a page event. A frame attached under a parent is
/// added unless known; a navigation makes a parentless frame the main one,
/// adds the frame unless known, drops its contexts and takes the reported
/// URL, name and parent; a detached frame is removed with its contexts
/// (and is no longer the main frame); loading starts and stops for known
/// frames only.
pub open spec fn page_step(t: SpecFrameTree, ev: PageEvent) -> SpecFrameTree {
    match ev {
        PageEvent::FrameAttached { frame_id, parent_frame_id } => {
            if t.frames.contains_key(frame_id@) {
                t
            } else {
                SpecFrameTree {
                    frames: t.frames.insert(frame_id@, blank_frame(frame_id@, Some(parent_frame_id@))),
                    ..t
                }
            }
        },
        PageEvent::FrameNavigated { frame } => {
            let k = frame.id@;
            let old = if t.frames.contains_key(k) {
                t.frames[k]
            } else {
                SpecFrame {
                    id: k,
                    parent_id: opt_text(frame.parent_id),
                    url: frame.url@,
                    name: opt_text(frame.name),
                    loading: false,
                    main_ctx: None,
                    utility_ctx: None,
                }
            };
            let new = SpecFrame {
                url: frame.url@,
                name: opt_text(frame.name),
                parent_id: opt_text(frame.parent_id),
                main_ctx: None,
                utility_ctx: None,
                ..old
            };
            SpecFrameTree {
                frames: t.frames.insert(k, new),
                main_frame_id: if frame.parent_id is None {
                    Some(k)
                } else {
                    t.main_frame_id
                },
                contexts: drop_frame_contexts(t.contexts, old),
            }
        },
        PageEvent::FrameDetached { frame_id } => {
            let k = frame_id@;
            if t.frames.contains_key(k) {
                SpecFrameTree {
                    frames: t.frames.remove(k),
                    main_frame_id: if t.main_frame_id == Some(k) {
                        None
                    } else {
                        t.main_frame_id
                    },
                    contexts: drop_frame_contexts(t.contexts, t.frames[k]),
                }
            } else {
                t
            }
        },
        PageEvent::FrameStartedLoading { frame_id } => {
            let k = frame_id@;
            if t.frames.contains_key(k) {
                SpecFrameTree {
                    frames: t.frames.insert(k, SpecFrame { loading: true, ..t.frames[k] }),
                    ..t
                }
            } else {
                t
            }
        },
        PageEvent::FrameStoppedLoading { frame_id } => {
            let k = frame_id@;
            if t.frames.contains_key(k) {
                SpecFrameTree {
                    frames: t.frames.insert(k, SpecFrame { loading: false, ..t.frames[k] }),
                    ..t
                }
            } else {
                t
            }
        },
    }
}

/// The frames with both context slots emptied.
pub open spec fn clear_contexts(frames: Map<Seq<char>, SpecFrame>) -> Map<Seq<char>, SpecFrame> {
    frames.map_values(|f: SpecFrame| SpecFrame { main_ctx: None, utility_ctx: None, ..f })
}

/// The registry after a runtime event. A created context of a frame is
/// recorded when it is the frame's default world, or else is named as
/// the utility world; the frame is added if unknown. A destroyed context
/// is forgotten and its frame's slot for that world emptied. Clearing
/// empties every frame's slots and forgets all contexts.
pub open spec fn runtime_step(t: SpecFrameTree, ev: RuntimeEvent) -> SpecFrameTree {
    match ev {
        RuntimeEvent::ContextCreated { id, name, frame_id, is_default } => {
            match frame_id {
                None => t,
                Some(f) => {
                    let is_utility = !is_default && name@ == UTILITY_WORLD_NAME@;
                    if !is_default && !is_utility {
                        t
                    } else {
                        let k = f@;
                        let old = if t.frames.contains_key(k) {
                            t.frames[k]
                        } else {
                            blank_frame(k, None)
                        };
                        let new = if is_default {
                            SpecFrame { main_ctx: Some(id), ..old }
                        } else {
                            SpecFrame { utility_ctx: Some(id), ..old }
                        };
                        SpecFrameTree {
                            frames: t.frames.insert(k, new),
                            main_frame_id: t.main_frame_id,
                            contexts: t.contexts.insert(id, (k, is_utility)),
                        }
                    }
                },
            }
        },
        RuntimeEvent::ContextDestroyed { id } => {
            if t.contexts.contains_key(id) {
                let (k, is_utility) = t.contexts[id];
                let contexts = t.contexts.remove(id);
                if t.frames.contains_key(k) {
                    let new = if is_utility {
                        SpecFrame { utility_ctx: None, ..t.frames[k] }
                    } else {
                        SpecFrame { main_ctx: None, ..t.frames[k] }
                    };
                    SpecFrameTree { frames: t.frames.insert(k, new), main_frame_id: t.main_frame_id, contexts }
                } else {
                    SpecFrameTree { contexts, ..t }
                }
            } else {
                t
            }
        },
        RuntimeEvent::ContextsCleared => SpecFrameTree {
            frames: clear_contexts(t.frames),
            main_frame_id: t.main_frame_id,
            contexts: Map::empty(),
        },
    }
}

// ---------------------------------------------------------------------------
// Lemmas relating the stored lists to the maps
// ---------------------------------------------------------------------------

proof fn lemma_frames_index(v: Seq<FrameEntry>, i: int)
    requires
        distinct_frames(v),
        0 <= i < v.len(),
    ensures
        frames_map(v).contains_key(v[i].id@),
        frames_map(v)[v[i].id@] == v[i]@,
{
    let k = v[i].id@;
    assert(exists|j: int| 0 <= j < v.len() && #[trigger] v[j].id@ == k);
    let j = choose|j: int| 0 <= j < v.len() && #[trigger] v[j].id@ == k;
    assert(j == i);
}

proof fn lemma_frames_set(v: Seq<FrameEntry>, i: int, e: FrameEntry)
    requires
        distinct_frames(v),
        0 <= i < v.len(),
        e.id@ == v[i].id@,
    ensures
        distinct_frames(v.update(i, e)),
        frames_map(v.update(i, e)) == frames_map(v).insert(e.id@, e@),
{
    let w = v.update(i, e);
    assert(distinct_frames(w)) by {
        assert forall|a: int, b: int| 0 <= a < w.len() && 0 <= b < w.len() && a != b implies w[a].id@
            != w[b].id@ by {
            assert(v[a].id@ != v[b].id@);
        }
    }
    assert forall|k: Seq<char>| #[trigger] frames_map(w).contains_key(k) <==> frames_map(v).insert(e.id@, e@).contains_key(k) by {
        if frames_map(w).contains_key(k) {
            let j = choose|j: int| 0 <= j < w.len() && #[trigger] w[j].id@ == k;
            if j != i {
                assert(v[j].id@ == k);
            }
        }
        if frames_map(v).contains_key(k) {
            let j = choose|j: int| 0 <= j < v.len() && #[trigger] v[j].id@ == k;
            if j != i {
                assert(w[j].id@ == k);
            } else {
                assert(w[i].id@ == k);
            }
        }
        if k == e.id@ {
            assert(w[i].id@ == k);
        }
    }
    assert forall|k: Seq<char>| #[trigger] frames_map(w).contains_key(k) implies frames_map(w)[k]
        == frames_map(v).insert(e.id@, e@)[k] by {
        let j = choose|j: int| 0 <= j < w.len() && #[trigger] w[j].id@ == k;
        lemma_frames_index(w, j);
        if j != i {
            lemma_frames_index(v, j);
        }
    }
    assert(frames_map(w) =~= frames_map(v).insert(e.id@, e@));
}

proof fn lemma_frames_push(v: Seq<FrameEntry>, e: FrameEntry)
    requires
        distinct_frames(v),
        !frames_map(v).contains_key(e.id@),
    ensures
        distinct_frames(v.push(e)),
        frames_map(v.push(e)) == frames_map(v).insert(e.id@, e@),
{
    let w = v.push(e);
    assert(distinct_frames(w)) by {
        assert forall|a: int, b: int| 0 <= a < w.len() && 0 <= b < w.len() && a != b implies w[a].id@
            != w[b].id@ by {
            if a < v.len() && b < v.len() {
                assert(v[a].id@ != v[b].id@);
            } else if a < v.len() {
                assert(v[a].id@ == w[a].id@);
                if v[a].id@ == e.id@ {
                    assert(frames_map(v).contains_key(e.id@));
                }
            } else {
                assert(v[b].id@ == w[b].id@);
                if v[b].id@ == e.id@ {
                    assert(frames_map(v).contains_key(e.id@));
                }
            }
        }
    }
    assert forall|k: Seq<char>| #[trigger] frames_map(w).contains_key(k) <==> frames_map(v).insert(e.id@, e@).contains_key(k) by {
        if frames_map(w).contains_key(k) {
            let j = choose|j: int| 0 <= j < w.len() && #[trigger] w[j].id@ == k;
            if j < v.len() {
                assert(v[j].id@ == k);
            }
        }
        if frames_map(v).contains_key(k) {
            let j = choose|j: int| 0 <= j < v.len() && #[trigger] v[j].id@ == k;
            assert(w[j].id@ == k);
        }
        if k == e.id@ {
            assert(w[v.len() as int].id@ == k);
        }
    }
    assert forall|k: Seq<char>| #[trigger] frames_map(w).contains_key(k) implies frames_map(w)[k]
        == frames_map(v).insert(e.id@, e@)[k] by {
        let j = choose|j: int| 0 <= j < w.len() && #[trigger] w[j].id@ == k;
        lemma_frames_index(w, j);
        if j < v.len() {
            lemma_frames_index(v, j);
        }
    }
    assert(frames_map(w) =~= frames_map(v).insert(e.id@, e@));
}

proof fn lemma_frames_remove(v: Seq<FrameEntry>, i: int)
    requires
        distinct_frames(v),
        0 <= i < v.len(),
    ensures
        distinct_frames(v.remove(i)),
        frames_map(v.remove(i)) == frames_map(v).remove(v[i].id@),
{
    let w = v.remove(i);
    let k0 = v[i].id@;
    assert forall|j: int| 0 <= j < w.len() implies #[trigger] w[j] == (if j < i {
        v[j]
    } else {
        v[j + 1]
    }) by {}
    assert(distinct_frames(w)) by {
        assert forall|a: int, b: int| 0 <= a < w.len() && 0 <= b < w.len() && a != b implies w[a].id@
            != w[b].id@ by {
            let a2 = if a < i { a } else { a + 1 };
            let b2 = if b < i { b } else { b + 1 };
            assert(w[a] == v[a2] && w[b] == v[b2]);
            assert(v[a2].id@ != v[b2].id@);
        }
    }
    assert forall|k: Seq<char>| #[trigger] frames_map(w).contains_key(k) <==> frames_map(v).remove(k0).contains_key(k) by {
        if frames_map(w).contains_key(k) {
            let j = choose|j: int| 0 <= j < w.len() && #[trigger] w[j].id@ == k;
            let j2 = if j < i { j } else { j + 1 };
            assert(w[j] == v[j2]);
            assert(v[j2].id@ == k);
            assert(j2 != i);
            assert(v[j2].id@ != v[i].id@);
        }
        if frames_map(v).contains_key(k) && k != k0 {
            let j = choose|j: int| 0 <= j < v.len() && #[trigger] v[j].id@ == k;
            assert(j != i);
            if j < i {
                assert(w[j] == v[j]);
            } else {
                assert(w[j - 1] == v[j]);
            }
        }
    }
    assert forall|k: Seq<char>| #[trigger] frames_map(w).contains_key(k) implies frames_map(w)[k]
        == frames_map(v).remove(k0)[k] by {
        let j = choose|j: int| 0 <= j < w.len() && #[trigger] w[j].id@ == k;
        lemma_frames_index(w, j);
        let j2 = if j < i { j } else { j + 1 };
        assert(w[j] == v[j2]);
        lemma_frames_index(v, j2);
    }
    assert(frames_map(w) =~= frames_map(v).remove(k0));
}

proof fn lemma_contexts_index(v: Seq<(i64, String, bool)>, i: int)
    requires
        distinct_contexts(v),
        0 <= i < v.len(),
    ensures
        contexts_map(v).contains_key(v[i].0),
        contexts_map(v)[v[i].0] == (v[i].1@, v[i].2),
{
    let k = v[i].0;
    assert(exists|j: int| 0 <= j < v.len() && #[trigger] v[j].0 == k);
    let j = choose|j: int| 0 <= j < v.len() && #[trigger] v[j].0 == k;
    assert(j == i);
}

proof fn lemma_contexts_remove(v: Seq<(i64, String, bool)>, i: int)
    requires
        distinct_contexts(v),
        0 <= i < v.len(),
    ensures
        distinct_contexts(v.remove(i)),
        contexts_map(v.remove(i)) == contexts_map(v).remove(v[i].0),
{
    let w = v.remove(i);
    let k0 = v[i].0;
    assert forall|j: int| 0 <= j < w.len() implies #[trigger] w[j] == (if j < i {
        v[j]
    } else {
        v[j + 1]
    }) by {}
    assert(distinct_contexts(w)) by {
        assert forall|a: int, b: int| 0 <= a < w.len() && 0 <= b < w.len() && a != b implies w[a].0
            != w[b].0 by {
            let a2 = if a < i { a } else { a + 1 };
            let b2 = if b < i { b } else { b + 1 };
            assert(w[a] == v[a2] && w[b] == v[b2]);
            assert(v[a2].0 != v[b2].0);
        }
    }
    assert forall|k: i64| #[trigger] contexts_map(w).contains_key(k) <==> contexts_map(v).remove(k0).contains_key(k) by {
        if contexts_map(w).contains_key(k) {
            let j = choose|j: int| 0 <= j < w.len() && #[trigger] w[j].0 == k;
            let j2 = if j < i { j } else { j + 1 };
            assert(w[j] == v[j2]);
            assert(v[j2].0 == k);
            assert(j2 != i);
            assert(v[j2].0 != v[i].0);
        }
        if contexts_map(v).contains_key(k) && k != k0 {
            let j = choose|j: int| 0 <= j < v.len() && #[trigger] v[j].0 == k;
            assert(j != i);
            if j < i {
                assert(w[j] == v[j]);
            } else {
                assert(w[j - 1] == v[j]);
            }
        }
    }
    assert forall|k: i64| #[trigger] contexts_map(w).contains_key(k) implies contexts_map(w)[k]
        == contexts_map(v).remove(k0)[k] by {
        let j = choose|j: int| 0 <= j < w.len() && #[trigger] w[j].0 == k;
        lemma_contexts_index(w, j);
        let j2 = if j < i { j } else { j + 1 };
        assert(w[j] == v[j2]);
        lemma_contexts_index(v, j2);
    }
    assert(contexts_map(w) =~= contexts_map(v).remove(k0));
}

proof fn lemma_contexts_set(v: Seq<(i64, String, bool)>, i: int, e: (i64, String, bool))
    requires
        distinct_contexts(v),
        0 <= i < v.len(),
        e.0 == v[i].0,
    ensures
        distinct_contexts(v.update(i, e)),
        contexts_map(v.update(i, e)) == contexts_map(v).insert(e.0, (e.1@, e.2)),
{
    let w = v.update(i, e);
    assert(distinct_contexts(w)) by {
        assert forall|a: int, b: int| 0 <= a < w.len() && 0 <= b < w.len() && a != b implies w[a].0
            != w[b].0 by {
            assert(v[a].0 != v[b].0);
        }
    }
    assert forall|k: i64| #[trigger] contexts_map(w).contains_key(k) <==> contexts_map(v).insert(e.0, (e.1@, e.2)).contains_key(k) by {
        if contexts_map(w).contains_key(k) {
            let j = choose|j: int| 0 <= j < w.len() && #[trigger] w[j].0 == k;
            if j != i {
                assert(v[j].0 == k);
            }
        }
        if contexts_map(v).contains_key(k) {
            let j = choose|j: int| 0 <= j < v.len() && #[trigger] v[j].0 == k;
            if j != i {
                assert(w[j].0 == k);
            } else {
                assert(w[i].0 == k);
            }
        }
        if k == e.0 {
            assert(w[i].0 == k);
        }
    }
    assert forall|k: i64| #[trigger] contexts_map(w).contains_key(k) implies contexts_map(w)[k]
        == contexts_map(v).insert(e.0, (e.1@, e.2))[k] by {
        let j = choose|j: int| 0 <= j < w.len() && #[trigger] w[j].0 == k;
        lemma_contexts_index(w, j);
        if j != i {
            lemma_contexts_index(v, j);
        }
    }
    assert(contexts_map(w) =~= contexts_map(v).insert(e.0, (e.1@, e.2)));
}

proof fn lemma_contexts_push(v: Seq<(i64, String, bool)>, e: (i64, String, bool))
    requires
        distinct_contexts(v),
        !contexts_map(v).contains_key(e.0),
    ensures
        distinct_contexts(v.push(e)),
        contexts_map(v.push(e)) == contexts_map(v).insert(e.0, (e.1@, e.2)),
{
    let w = v.push(e);
    assert(distinct_contexts(w)) by {
        assert forall|a: int, b: int| 0 <= a < w.len() && 0 <= b < w.len() && a != b implies w[a].0
            != w[b].0 by {
            if a < v.len() && b < v.len() {
                assert(v[a].0 != v[b].0);
            } else if a < v.len() {
                assert(v[a].0 == w[a].0);
                if v[a].0 == e.0 {
                    assert(contexts_map(v).contains_key(e.0));
                }
            } else {
                assert(v[b].0 == w[b].0);
                if v[b].0 == e.0 {
                    assert(contexts_map(v).contains_key(e.0));
                }
            }
        }
    }
    assert forall|k: i64| #[trigger] contexts_map(w).contains_key(k) <==> contexts_map(v).insert(e.0, (e.1@, e.2)).contains_key(k) by {
        if contexts_map(w).contains_key(k) {
            let j = choose|j: int| 0 <= j < w.len() && #[trigger] w[j].0 == k;
            if j < v.len() {
                assert(v[j].0 == k);
            }
        }
        if contexts_map(v).contains_key(k) {
            let j = choose|j: int| 0 <= j < v.len() && #[trigger] v[j].0 == k;
            assert(w[j].0 == k);
        }
        if k == e.0 {
            assert(w[v.len() as int].0 == k);
        }
    }
    assert forall|k: i64| #[trigger] contexts_map(w).contains_key(k) implies contexts_map(w)[k]
        == contexts_map(v).insert(e.0, (e.1@, e.2))[k] by {
        let j = choose|j: int| 0 <= j < w.len() && #[trigger] w[j].0 == k;
        lemma_contexts_index(w, j);
        if j < v.len() {
            lemma_contexts_index(v, j);
        }
    }
    assert(contexts_map(w) =~= contexts_map(v).insert(e.0, (e.1@, e.2)));
}


proof fn lemma_frames_map_wf(v: Seq<FrameEntry>)
    requires
        distinct_frames(v),
    ensures
        frames_map(v).dom().finite(),
        forall|k: Seq<char>| #[trigger] frames_map(v).contains_key(k) ==> frames_map(v)[k].id == k,
{
    let ids = v.map_values(|e: FrameEntry| e.id@);
    assert(frames_map(v).dom() =~= ids.to_set()) by {
        assert forall|k: Seq<char>| frames_map(v).dom().contains(k) <==> ids.to_set().contains(k) by {
            if frames_map(v).dom().contains(k) {
                let j = choose|j: int| 0 <= j < v.len() && #[trigger] v[j].id@ == k;
                assert(ids[j] == k);
                assert(ids.contains(k));
            }
            if ids.to_set().contains(k) {
                assert(ids.contains(k));
                let j = choose|j: int| 0 <= j < ids.len() && ids[j] == k;
                assert(v[j].id@ == k);
            }
        }
    }
    vstd::seq_lib::seq_to_set_is_finite(ids);
    assert forall|k: Seq<char>| #[trigger] frames_map(v).contains_key(k) implies frames_map(v)[k].id
        == k by {
        let j = choose|j: int| 0 <= j < v.len() && #[trigger] v[j].id@ == k;
        lemma_frames_index(v, j);
    }
}

fn clone_opt(o: &Option<String>) -> (r: Option<String>)
    ensures
        opt_text(r) == opt_text(*o),
{
    match o {
        Some(s) => Some(s.clone()),
        None => None,
    }
}

fn same_str(a: &String, b: &String) -> (r: bool)
    ensures
        r == (a@ == b@),
{
    *a == *b
}

impl FrameTree {
    /// An empty registry.
    pub fn new() -> (t: Self)
        ensures
            t.inv(),
            t@.frames == Map::<Seq<char>, SpecFrame>::empty(),
            t@.main_frame_id is None,
            t@.contexts == Map::<i64, (Seq<char>, bool)>::empty(),
    {
        let t = FrameTree { frames: Vec::new(), main_frame_id: None, ctx_to_frame: Vec::new() };
        proof {
            lemma_frames_map_wf(t.frames@);
            assert(frames_map(t.frames@) =~= Map::empty());
            assert(contexts_map(t.ctx_to_frame@) =~= Map::empty());
        }
        t
    }

    fn find_frame(&self, id: &String) -> (r: Option<usize>)
        requires
            distinct_frames(self.frames@),
        ensures
            match r {
                Some(i) => i < self.frames@.len() && self.frames@[i as int].id@ == id@,
                None => !frames_map(self.frames@).contains_key(id@),
            },
    {
        let mut i: usize = 0;
        while i < self.frames.len()
            invariant
                i <= self.frames@.len(),
                forall|j: int| 0 <= j < i ==> self.frames@[j].id@ != id@,
            decreases self.frames@.len() - i,
        {
            if same_str(&self.frames[i].id, id) {
                return Some(i);
            }
            i = i + 1;
        }
        None
    }

    fn find_context(&self, id: i64) -> (r: Option<usize>)
        ensures
            match r {
                Some(i) => i < self.ctx_to_frame@.len() && self.ctx_to_frame@[i as int].0 == id,
                None => !contexts_map(self.ctx_to_frame@).contains_key(id),
            },
    {
        let mut i: usize = 0;
        while i < self.ctx_to_frame.len()
            invariant
                i <= self.ctx_to_frame@.len(),
                forall|j: int| 0 <= j < i ==> self.ctx_to_frame@[j].0 != id,
            decreases self.ctx_to_frame@.len() - i,
        {
            if self.ctx_to_frame[i].0 == id {
                return Some(i);
            }
            i = i + 1;
        }
        None
    }

    /// Forget the context `id`, if known.
    fn forget_context(&mut self, id: i64)
        requires
            distinct_contexts(old(self).ctx_to_frame@),
        ensures
            distinct_contexts(final(self).ctx_to_frame@),
            contexts_map(final(self).ctx_to_frame@) == contexts_map(old(self).ctx_to_frame@).remove(id),
            final(self).frames == old(self).frames,
            final(self).main_frame_id == old(self).main_frame_id,
    {
        match self.find_context(id) {
            Some(j) => {
                proof {
                    lemma_contexts_remove(self.ctx_to_frame@, j as int);
                }
                self.ctx_to_frame.remove(j);
            },
            None => {
                assert(contexts_map(self.ctx_to_frame@) =~= contexts_map(self.ctx_to_frame@).remove(id));
            },
        }
    }

    /// Forget the optional context `c`.
    fn forget_opt_context(&mut self, c: Option<i64>)
        requires
            distinct_contexts(old(self).ctx_to_frame@),
        ensures
            distinct_contexts(final(self).ctx_to_frame@),
            contexts_map(final(self).ctx_to_frame@) == (match c {
                Some(id) => contexts_map(old(self).ctx_to_frame@).remove(id),
                None => contexts_map(old(self).ctx_to_frame@),
            }),
            final(self).frames == old(self).frames,
            final(self).main_frame_id == old(self).main_frame_id,
    {
        if let Some(id) = c {
            self.forget_context(id);
        }
    }

    /// Record the context `id` as `(frame, is_utility)`.
    fn record_context(&mut self, id: i64, frame: String, is_utility: bool)
        requires
            distinct_contexts(old(self).ctx_to_frame@),
        ensures
            distinct_contexts(final(self).ctx_to_frame@),
            contexts_map(final(self).ctx_to_frame@) == contexts_map(old(self).ctx_to_frame@).insert(
                id,
                (frame@, is_utility),
            ),
            final(self).frames == old(self).frames,
            final(self).main_frame_id == old(self).main_frame_id,
    {
        let e = (id, frame, is_utility);
        match self.find_context(id) {
            Some(j) => {
                proof {
                    lemma_contexts_set(self.ctx_to_frame@, j as int, e);
                }
                self.ctx_to_frame.set(j, e);
            },
            None => {
                proof {
                    lemma_contexts_push(self.ctx_to_frame@, e);
                }
                self.ctx_to_frame.push(e);
            },
        }
    }

    /// Replace the frame at `i` by `e`, which has the same id.
    fn replace_frame(&mut self, i: usize, e: FrameEntry)
        requires
            distinct_frames(old(self).frames@),
            i < old(self).frames@.len(),
            e.id@ == old(self).frames@[i as int].id@,
        ensures
            distinct_frames(final(self).frames@),
            frames_map(final(self).frames@) == frames_map(old(self).frames@).insert(e.id@, e@),
            final(self).ctx_to_frame == old(self).ctx_to_frame,
            final(self).main_frame_id == old(self).main_frame_id,
    {
        proof {
            lemma_frames_set(self.frames@, i as int, e);
        }
        self.frames.set(i, e);
    }

    /// The position of the frame `id`, adding `fresh` for it when it is
    /// not known.
    fn frame_or_add(&mut self, id: &String, fresh: FrameEntry) -> (i: usize)
        requires
            distinct_frames(old(self).frames@),
            fresh.id@ == id@,
        ensures
            distinct_frames(final(self).frames@),
            i < final(self).frames@.len(),
            final(self).frames@[i as int].id@ == id@,
            frames_map(old(self).frames@).contains_key(id@) ==> final(self).frames@ == old(self).frames@,
            !frames_map(old(self).frames@).contains_key(id@) ==> final(self).frames@[i as int]@
                == fresh@ && frames_map(final(self).frames@) == frames_map(old(self).frames@).insert(
                id@,
                fresh@,
            ),
            final(self).ctx_to_frame == old(self).ctx_to_frame,
            final(self).main_frame_id == old(self).main_frame_id,
    {
        match self.find_frame(id) {
            Some(i) => {
                proof {
                    lemma_frames_index(self.frames@, i as int);
                }
                i
            },
            None => {
                proof {
                    lemma_frames_push(self.frames@, fresh);
                }
                self.frames.push(fresh);
                self.frames.len() - 1
            },
        }
    }

    /// Apply a page event (frame attached, navigated, detached, started
    /// or stopped loading).
    pub fn apply_page_event(&mut self, ev: &PageEvent)
        requires
            old(self).inv(),
        ensures
            final(self).inv(),
            final(self)@ == page_step(old(self)@, *ev),
    {
        let ghost t0 = self@;
        match ev {
            PageEvent::FrameAttached { frame_id, parent_frame_id } => {
                match self.find_frame(frame_id) {
                    Some(i) => {
                        proof {
                            lemma_frames_index(self.frames@, i as int);
                        }
                    },
                    None => {
                        let e = FrameEntry {
                            id: frame_id.clone(),
                            parent_id: Some(parent_frame_id.clone()),
                            url: String::new(),
                            name: None,
                            loading: false,
                            main_ctx: None,
                            utility_ctx: None,
                        };
                        proof {
                            lemma_frames_push(self.frames@, e);
                            assert(e@ == blank_frame(frame_id@, Some(parent_frame_id@)));
                        }
                        self.frames.push(e);
                    },
                }
            },
            PageEvent::FrameNavigated { frame } => {
                if frame.parent_id.is_none() {
                    self.main_frame_id = Some(frame.id.clone());
                }
                let fresh = FrameEntry {
                    id: frame.id.clone(),
                    parent_id: clone_opt(&frame.parent_id),
                    url: frame.url.clone(),
                    name: clone_opt(&frame.name),
                    loading: false,
                    main_ctx: None,
                    utility_ctx: None,
                };
                let ghost known = frames_map(self.frames@).contains_key(frame.id@);
                let ghost before = self.frames@;
                let i = self.frame_or_add(&frame.id, fresh);
                proof {
                    lemma_frames_index(self.frames@, i as int);
                    if known {
                        lemma_frames_index(before, i as int);
                    }
                }
                let ghost old_entry = self.frames@[i as int]@;
                assert(old_entry == (if t0.frames.contains_key(frame.id@) {
                    t0.frames[frame.id@]
                } else {
                    fresh@
                }));
                let m = self.frames[i].main_ctx;
                let u = self.frames[i].utility_ctx;
                self.forget_opt_context(m);
                self.forget_opt_context(u);
                let e = FrameEntry {
                    id: self.frames[i].id.clone(),
                    parent_id: clone_opt(&frame.parent_id),
                    url: frame.url.clone(),
                    name: clone_opt(&frame.name),
                    loading: self.frames[i].loading,
                    main_ctx: None,
                    utility_ctx: None,
                };
                let ghost mid = self.frames@;
                self.replace_frame(i, e);
                proof {
                    if !known {
                        assert(frames_map(mid) == t0.frames.insert(frame.id@, fresh@));
                        assert(frames_map(self.frames@) =~= t0.frames.insert(frame.id@, e@));
                    }
                }
            },
            PageEvent::FrameDetached { frame_id } => {
                match self.find_frame(frame_id) {
                    Some(i) => {
                        proof {
                            lemma_frames_index(self.frames@, i as int);
                            lemma_frames_remove(self.frames@, i as int);
                        }
                        let e = self.frames.remove(i);
                        self.forget_opt_context(e.main_ctx);
                        self.forget_opt_context(e.utility_ctx);
                        let is_main = match &self.main_frame_id {
                            Some(m) => same_str(m, frame_id),
                            None => false,
                        };
                        if is_main {
                            self.main_frame_id = None;
                        }
                    },
                    None => {},
                }
            },
            PageEvent::FrameStartedLoading { frame_id } => {
                match self.find_frame(frame_id) {
                    Some(i) => {
                        proof {
                            lemma_frames_index(self.frames@, i as int);
                        }
                        let e = FrameEntry {
                            id: self.frames[i].id.clone(),
                            parent_id: clone_opt(&self.frames[i].parent_id),
                            url: self.frames[i].url.clone(),
                            name: clone_opt(&self.frames[i].name),
                            loading: true,
                            main_ctx: self.frames[i].main_ctx,
                            utility_ctx: self.frames[i].utility_ctx,
                        };
                        self.replace_frame(i, e);
                    },
                    None => {},
                }
            },
            PageEvent::FrameStoppedLoading { frame_id } => {
                match self.find_frame(frame_id) {
                    Some(i) => {
                        proof {
                            lemma_frames_index(self.frames@, i as int);
                        }
                        let e = FrameEntry {
                            id: self.frames[i].id.clone(),
                            parent_id: clone_opt(&self.frames[i].parent_id),
                            url: self.frames[i].url.clone(),
                            name: clone_opt(&self.frames[i].name),
                            loading: false,
                            main_ctx: self.frames[i].main_ctx,
                            utility_ctx: self.frames[i].utility_ctx,
                        };
                        self.replace_frame(i, e);
                    },
                    None => {},
                }
            },
        }
        proof {
            lemma_frames_map_wf(self.frames@);
            assert(self@ == page_step(t0, *ev));
        }
    }

    /// Apply a runtime event (execution context created, destroyed, or
    /// all cleared).
    pub fn apply_runtime_event(&mut self, ev: &RuntimeEvent)
        requires
            old(self).inv(),
        ensures
            final(self).inv(),
            final(self)@ == runtime_step(old(self)@, *ev),
    {
        let ghost t0 = self@;
        match ev {
            RuntimeEvent::ContextCreated { id, name, frame_id, is_default } => {
                let f = match frame_id {
                    Some(f) => f,
                    None => {
                        return;
                    },
                };
                let named_utility = crate::text::eq_str(
                    chars_of(name.as_str()).as_slice(),
                    UTILITY_WORLD_NAME,
                );
                let is_utility = !*is_default && named_utility;
                if !*is_default && !is_utility {
                    return;
                }
                let fresh = FrameEntry {
                    id: f.clone(),
                    parent_id: None,
                    url: String::new(),
                    name: None,
                    loading: false,
                    main_ctx: None,
                    utility_ctx: None,
                };
                let ghost known = frames_map(self.frames@).contains_key(f@);
                let ghost before = self.frames@;
                let i = self.frame_or_add(f, fresh);
                proof {
                    lemma_frames_index(self.frames@, i as int);
                    if known {
                        lemma_frames_index(before, i as int);
                    }
                    assert(fresh@ == blank_frame(f@, None));
                }
                let e = FrameEntry {
                    id: self.frames[i].id.clone(),
                    parent_id: clone_opt(&self.frames[i].parent_id),
                    url: self.frames[i].url.clone(),
                    name: clone_opt(&self.frames[i].name),
                    loading: self.frames[i].loading,
                    main_ctx: if *is_default {
                        Some(*id)
                    } else {
                        self.frames[i].main_ctx
                    },
                    utility_ctx: if *is_default {
                        self.frames[i].utility_ctx
                    } else {
                        Some(*id)
                    },
                };
                let ghost mid = self.frames@;
                self.replace_frame(i, e);
                self.record_context(*id, f.clone(), is_utility);
                proof {
                    if !known {
                        assert(frames_map(self.frames@) =~= t0.frames.insert(f@, e@));
                    }
                    assert(frames_map(self.frames@) == runtime_step(t0, *ev).frames);
                    assert(contexts_map(self.ctx_to_frame@) == runtime_step(t0, *ev).contexts);
                    assert(opt_text(self.main_frame_id) == runtime_step(t0, *ev).main_frame_id);
                }
            },
            RuntimeEvent::ContextDestroyed { id } => {
                match self.find_context(*id) {
                    Some(j) => {
                        proof {
                            lemma_contexts_index(self.ctx_to_frame@, j as int);
                            lemma_contexts_remove(self.ctx_to_frame@, j as int);
                        }
                        let (_, fid, is_utility) = self.ctx_to_frame.remove(j);
                        match self.find_frame(&fid) {
                            Some(i) => {
                                proof {
                                    lemma_frames_index(self.frames@, i as int);
                                }
                                let e = FrameEntry {
                                    id: self.frames[i].id.clone(),
                                    parent_id: clone_opt(&self.frames[i].parent_id),
                                    url: self.frames[i].url.clone(),
                                    name: clone_opt(&self.frames[i].name),
                                    loading: self.frames[i].loading,
                                    main_ctx: if is_utility {
                                        self.frames[i].main_ctx
                                    } else {
                                        None
                                    },
                                    utility_ctx: if is_utility {
                                        None
                                    } else {
                                        self.frames[i].utility_ctx
                                    },
                                };
                                self.replace_frame(i, e);
                                assert(frames_map(self.frames@) == runtime_step(t0, *ev).frames);
                            },
                            None => {
                                assert(frames_map(self.frames@) == runtime_step(t0, *ev).frames);
                            },
                        }
                        assert(contexts_map(self.ctx_to_frame@) == runtime_step(t0, *ev).contexts);
                    },
                    None => {},
                }
            },
            RuntimeEvent::ContextsCleared => {
                let ghost v0 = self.frames@;
                let ghost main0 = self.main_frame_id;
                let mut i: usize = 0;
                while i < self.frames.len()
                    invariant
                        self.main_frame_id == main0,
                        i <= self.frames@.len(),
                        self.frames@.len() == v0.len(),
                        distinct_frames(v0),
                        forall|j: int|
                            0 <= j < i ==> #[trigger] self.frames@[j]@ == (SpecFrame {
                                main_ctx: None,
                                utility_ctx: None,
                                ..v0[j]@
                            }),
                        forall|j: int| i <= j < v0.len() ==> #[trigger] self.frames@[j] == v0[j],
                    decreases self.frames@.len() - i,
                {
                    let e = FrameEntry {
                        id: self.frames[i].id.clone(),
                        parent_id: clone_opt(&self.frames[i].parent_id),
                        url: self.frames[i].url.clone(),
                        name: clone_opt(&self.frames[i].name),
                        loading: self.frames[i].loading,
                        main_ctx: None,
                        utility_ctx: None,
                    };
                    self.frames.set(i, e);
                    i = i + 1;
                }
                self.ctx_to_frame = Vec::new();
                proof {
                    let w = self.frames@;
                    assert forall|a: int, b: int|
                        0 <= a < w.len() && 0 <= b < w.len() && a != b implies w[a].id@ != w[b].id@ by {
                        assert(w[a]@.id == v0[a]@.id);
                        assert(w[b]@.id == v0[b]@.id);
                    }
                    let target = clear_contexts(t0.frames);
                    assert forall|k: Seq<char>| #[trigger] frames_map(w).contains_key(k)
                        <==> target.contains_key(k) by {
                        if frames_map(w).contains_key(k) {
                            let j = choose|j: int| 0 <= j < w.len() && #[trigger] w[j].id@ == k;
                            assert(w[j]@.id == v0[j]@.id);
                            assert(v0[j].id@ == k);
                        }
                        if frames_map(v0).contains_key(k) {
                            let j = choose|j: int| 0 <= j < v0.len() && #[trigger] v0[j].id@ == k;
                            assert(w[j]@.id == v0[j]@.id);
                            assert(w[j].id@ == k);
                        }
                    }
                    assert forall|k: Seq<char>| #[trigger] frames_map(w).contains_key(k) implies frames_map(w)[k]
                        == target[k] by {
                        let j = choose|j: int| 0 <= j < w.len() && #[trigger] w[j].id@ == k;
                        lemma_frames_index(w, j);
                        assert(w[j]@.id == v0[j]@.id);
                        lemma_frames_index(v0, j);
                    }
                    assert(frames_map(w) =~= target);
                    assert(contexts_map(self.ctx_to_frame@) =~= Map::empty());
                }
            },
        }
        proof {
            lemma_frames_map_wf(self.frames@);
            assert(self@.frames == runtime_step(t0, *ev).frames);
            assert(self@.contexts == runtime_step(t0, *ev).contexts);
            assert(self@.main_frame_id == runtime_step(t0, *ev).main_frame_id);
            assert(self@ == runtime_step(t0, *ev));
        }
    }

    /// The main frame, once known.
    pub fn main_frame(&self) -> (r: Option<&FrameEntry>)
        requires
            self.inv(),
        ensures
            match self@.main_frame_id {
                Some(k) => r matches Some(e) && e@ == self@.frames[k],
                None => r is None,
            },
    {
        match &self.main_frame_id {
            Some(k) => match self.find_frame(k) {
                Some(i) => {
                    proof {
                        lemma_frames_index(self.frames@, i as int);
                    }
                    Some(&self.frames[i])
                },
                None => None,
            },
            None => None,
        }
    }

    /// The frame `frame_id`, if known.
    pub fn get(&self, frame_id: &String) -> (r: Option<&FrameEntry>)
        requires
            self.inv(),
        ensures
            match r {
                Some(e) => self@.frames.contains_key(frame_id@) && e@ == self@.frames[frame_id@],
                None => !self@.frames.contains_key(frame_id@),
            },
    {
        match self.find_frame(frame_id) {
            Some(i) => {
                proof {
                    lemma_frames_index(self.frames@, i as int);
                }
                Some(&self.frames[i])
            },
            None => None,
        }
    }

    /// All known frames, each once.
    pub fn all(&self) -> (r: &[FrameEntry])
        requires
            self.inv(),
        ensures
            r@.len() == self@.frames.dom().len(),
            forall|i: int| 0 <= i < r@.len() ==> #[trigger] self@.frames.contains_key(r@[i].id@)
                && self@.frames[r@[i].id@] == r@[i]@,
            forall|k: Seq<char>| #[trigger] self@.frames.contains_key(k) ==> exists|i: int|
                0 <= i < r@.len() && #[trigger] r@[i].id@ == k,
    {
        proof {
            let v = self.frames@;
            assert forall|i: int| 0 <= i < v.len() implies #[trigger] self@.frames.contains_key(v[i].id@)
                && self@.frames[v[i].id@] == v[i]@ by {
                lemma_frames_index(v, i);
            }
            let ids = v.map_values(|e: FrameEntry| e.id@);
            assert(ids.no_duplicates()) by {
                assert forall|a: int, b: int| 0 <= a < ids.len() && 0 <= b < ids.len() && a != b implies ids[a] != ids[b] by {
                    assert(v[a].id@ != v[b].id@);
                }
            }
            ids.unique_seq_to_set();
            assert(self@.frames.dom() =~= ids.to_set()) by {
                assert forall|k: Seq<char>| self@.frames.dom().contains(k) <==> ids.to_set().contains(k) by {
                    if self@.frames.dom().contains(k) {
                        let j = choose|j: int| 0 <= j < v.len() && #[trigger] v[j].id@ == k;
                        assert(ids[j] == k);
                        assert(ids.contains(k));
                    }
                    if ids.to_set().contains(k) {
                        assert(ids.contains(k));
                        let j = choose|j: int| 0 <= j < ids.len() && ids[j] == k;
                        assert(v[j].id@ == k);
                    }
                }
            }
        }
        self.frames.as_slice()
    }

    /// The utility-world context of `frame_id`, if the frame is known and
    /// has one.
    pub fn utility_ctx_for_frame(&self, frame_id: &String) -> (r: Option<i64>)
        requires
            self.inv(),
        ensures
            r == (if self@.frames.contains_key(frame_id@) {
                self@.frames[frame_id@].utility_ctx
            } else {
                None
            }),
    {
        match self.get(frame_id) {
            Some(e) => e.utility_ctx,
            None => None,
        }
    }

    /// The immediate children of `parent_id`: the frames whose parent it is.
    pub fn children_of(&self, parent_id: &String) -> (r: Vec<&FrameEntry>)
        requires
            self.inv(),
        ensures
            forall|i: int| 0 <= i < r@.len() ==> {
                &&& #[trigger] self@.frames.contains_key(r@[i].id@)
                &&& self@.frames[r@[i].id@] == r@[i]@
                &&& r@[i]@.parent_id == Some(parent_id@)
            },
            forall|k: Seq<char>|
                #[trigger] self@.frames.contains_key(k) && self@.frames[k].parent_id == Some(parent_id@)
                    ==> exists|i: int| 0 <= i < r@.len() && #[trigger] r@[i].id@ == k,
            forall|a: int, b: int| 0 <= a < r@.len() && 0 <= b < r@.len() && a != b ==> r@[a].id@ != r@[b].id@,
    {
        let mut out: Vec<&FrameEntry> = Vec::new();
        let ghost v = self.frames@;
        let mut i: usize = 0;
        while i < self.frames.len()
            invariant
                v == self.frames@,
                self.inv(),
                i <= v.len(),
                forall|a: int| #![trigger out@[a]] 0 <= a < out@.len() ==> exists|j: int| 0 <= j < i && #[trigger] v[j] == *out@[a],
                forall|a: int| 0 <= a < out@.len() ==> (#[trigger] out@[a])@.parent_id == Some(parent_id@),
                forall|j: int| 0 <= j < i && v[j]@.parent_id == Some(parent_id@) ==> exists|a: int|
                    0 <= a < out@.len() && #[trigger] out@[a] == &v[j],
                forall|a: int, b: int| 0 <= a < out@.len() && 0 <= b < out@.len() && a != b ==> out@[a].id@ != out@[b].id@,
            decreases v.len() - i,
        {
            let e = &self.frames[i];
            let is_child = match &e.parent_id {
                Some(p) => same_str(p, parent_id),
                None => false,
            };
            if is_child {
                let ghost before = out@;
                proof {
                    assert forall|a: int| 0 <= a < before.len() implies before[a].id@ != e.id@ by {
                        let j = choose|j: int| 0 <= j < i && #[trigger] v[j] == *before[a];
                        assert(v[j].id@ != v[i as int].id@);
                    }
                }
                out.push(e);
                proof {
                    assert forall|a: int| #![trigger out@[a]] 0 <= a < out@.len() implies exists|j: int| 0 <= j < i + 1 && #[trigger] v[j] == *out@[a] by {
                        if a < before.len() {
                            let j = choose|j: int| 0 <= j < i && #[trigger] v[j] == *before[a];
                            assert(v[j] == *out@[a]);
                        } else {
                            assert(v[i as int] == *out@[a]);
                        }
                    }
                    assert forall|j: int| 0 <= j < i + 1 && v[j]@.parent_id == Some(parent_id@) implies exists|a: int|
                        0 <= a < out@.len() && #[trigger] out@[a] == &v[j] by {
                        if j < i {
                            let a = choose|a: int| 0 <= a < before.len() && #[trigger] before[a] == &v[j];
                            assert(out@[a] == &v[j]);
                        } else {
                            assert(out@[before.len() as int] == &v[j]);
                        }
                    }
                }
            }
            i = i + 1;
        }
        proof {
            assert forall|a: int| 0 <= a < out@.len() implies {
                &&& #[trigger] self@.frames.contains_key(out@[a].id@)
                &&& self@.frames[out@[a].id@] == out@[a]@
            } by {
                let j = choose|j: int| 0 <= j < v.len() && #[trigger] v[j] == *out@[a];
                lemma_frames_index(v, j);
            }
            assert forall|k: Seq<char>|
                #[trigger] self@.frames.contains_key(k) && self@.frames[k].parent_id == Some(parent_id@)
                    implies exists|a: int| 0 <= a < out@.len() && #[trigger] out@[a].id@ == k by {
                let j = choose|j: int| 0 <= j < v.len() && #[trigger] v[j].id@ == k;
                lemma_frames_index(v, j);
                let a = choose|a: int| 0 <= a < out@.len() && #[trigger] out@[a] == &v[j];
                assert(out@[a].id@ == k);
            }
        }
        out
    }
}

// ---------------------------------------------------------------------------
// Laws
// ---------------------------------------------------------------------------

/// Every page event keeps the registry well formed: the main frame, once
/// known, is always one of the frames.
pub proof fn law_page_events_keep_tree_wf(t: SpecFrameTree, ev: PageEvent)
    requires
        tree_wf(t),
    ensures
        tree_wf(page_step(t, ev)),
{
}

/// Every runtime event keeps the registry well formed.
pub proof fn law_runtime_events_keep_tree_wf(t: SpecFrameTree, ev: RuntimeEvent)
    requires
        tree_wf(t),
    ensures
        tree_wf(runtime_step(t, ev)),
{
    if let RuntimeEvent::ContextsCleared = ev {
        assert(clear_contexts(t.frames).dom() =~= t.frames.dom());
    }
}

/// A navigation of a frame without a parent makes it the main frame, with
/// the reported URL and no execution contexts.
pub proof fn law_root_navigation_sets_main_frame(t: SpecFrameTree, frame: FrameInfo)
    requires
        frame.parent_id is None,
    ensures
        ({
            let t2 = page_step(t, PageEvent::FrameNavigated { frame });
            &&& t2.main_frame_id == Some(frame.id@)
            &&& t2.frames.contains_key(frame.id@)
            &&& t2.frames[frame.id@].url == frame.url@
            &&& t2.frames[frame.id@].main_ctx is None
            &&& t2.frames[frame.id@].utility_ctx is None
        }),
{
}

/// Detaching a frame forgets it; the main frame stays unless it is the
/// one detached.
pub proof fn law_detach_forgets_frame(t: SpecFrameTree, frame_id: String)
    requires
        tree_wf(t),
    ensures
        ({
            let t2 = page_step(t, PageEvent::FrameDetached { frame_id });
            &&& !t2.frames.contains_key(frame_id@)
            &&& (t.main_frame_id != Some(frame_id@) ==> t2.main_frame_id == t.main_frame_id)
        }),
{
}

/// Every context in a frame's slot is known as that frame's context of that
/// world (default in the main slot, utility in the utility slot).
pub open spec fn slots_recorded(t: SpecFrameTree) -> bool {
    forall|k: Seq<char>|
        #[trigger] t.frames.contains_key(k) ==> (t.frames[k].main_ctx matches Some(c) ==> t.contexts.contains_key(c)
            && t.contexts[c] == (k, false)) && (t.frames[k].utility_ctx matches Some(c) ==> t.contexts.contains_key(
            c,
        ) && t.contexts[c] == (k, true))
}

/// Destroying a context known as a frame's utility world empties that
/// frame's utility slot and leaves its main slot; destroying its default
/// world empties the main slot and leaves the utility one; other frames
/// keep their slots; and, when every slot's context is known, no frame's
/// slot holds the destroyed id afterwards.
pub proof fn law_destroyed_context_leaves_no_slot(t: SpecFrameTree, id: i64)
    ensures
        ({
            let t2 = runtime_step(t, RuntimeEvent::ContextDestroyed { id });
            &&& !t2.contexts.contains_key(id)
            &&& (t.contexts.contains_key(id) && t.frames.contains_key(t.contexts[id].0)) ==> {
                let k = t.contexts[id].0;
                &&& t2.frames.contains_key(k)
                &&& (t.contexts[id].1 ==> t2.frames[k].utility_ctx is None && t2.frames[k].main_ctx
                    == t.frames[k].main_ctx)
                &&& (!t.contexts[id].1 ==> t2.frames[k].main_ctx is None && t2.frames[k].utility_ctx
                    == t.frames[k].utility_ctx)
            }
            &&& forall|j: Seq<char>|
                #[trigger] t.frames.contains_key(j) && !(t.contexts.contains_key(id) && t.contexts[id].0 == j)
                    ==> t2.frames.contains_key(j) && t2.frames[j] == t.frames[j]
            &&& slots_recorded(t) ==> forall|j: Seq<char>|
                #[trigger] t2.frames.contains_key(j) ==> t2.frames[j].main_ctx != Some(id)
                    && t2.frames[j].utility_ctx != Some(id)
        }),
{
    let t2 = runtime_step(t, RuntimeEvent::ContextDestroyed { id });
    if slots_recorded(t) {
        assert forall|j: Seq<char>| #[trigger] t2.frames.contains_key(j) implies t2.frames[j].main_ctx != Some(id)
            && t2.frames[j].utility_ctx != Some(id) by {
            assert(t.frames.contains_key(j));
        }
    }
}

/// Runtime events keep every slot's context known as that frame's context
/// of that world, as long as a created context's id is new.
pub proof fn law_runtime_events_keep_slots_recorded(t: SpecFrameTree, ev: RuntimeEvent)
    requires
        slots_recorded(t),
        ev matches RuntimeEvent::ContextCreated { id, .. } ==> !t.contexts.contains_key(id),
    ensures
        slots_recorded(runtime_step(t, ev)),
{
    let t2 = runtime_step(t, ev);
    assert forall|k: Seq<char>| #[trigger] t2.frames.contains_key(k) implies (t2.frames[k].main_ctx matches Some(c)
        ==> t2.contexts.contains_key(c) && t2.contexts[c] == (k, false)) && (t2.frames[k].utility_ctx matches Some(c)
        ==> t2.contexts.contains_key(c) && t2.contexts[c] == (k, true)) by {
        match ev {
            RuntimeEvent::ContextCreated { id, name, frame_id, is_default } => {
                if t.frames.contains_key(k) {
                    if let Some(c) = t.frames[k].main_ctx {
                        assert(c != id);
                    }
                    if let Some(c) = t.frames[k].utility_ctx {
                        assert(c != id);
                    }
                }
            },
            RuntimeEvent::ContextDestroyed { id } => {
                assert(t.frames.contains_key(k));
            },
            RuntimeEvent::ContextsCleared => {
                assert(t.frames.contains_key(k));
            },
        }
    }
}

/// After the contexts are cleared no frame has a context and none is
/// known.
pub proof fn law_clear_forgets_all_contexts(t: SpecFrameTree)
    ensures
        ({
            let t2 = runtime_step(t, RuntimeEvent::ContextsCleared);
            &&& t2.contexts == Map::<i64, (Seq<char>, bool)>::empty()
            &&& forall|k: Seq<char>| #[trigger] t2.frames.contains_key(k) ==> t2.frames[k].main_ctx is None
                && t2.frames[k].utility_ctx is None
        }),
{
}

} // verus!
verus! {

/// A frame and its child frames, as the page reports its frame tree.
#[derive(Debug)]
pub struct FrameTreeNode {
    pub frame: FrameInfo,
    pub child_frames: Option<Vec<FrameTreeNode>>,
}

/// The registry after recording the frame of `n` (under `parent`, unless
/// the frame names its own) and then its children in order. A frame seen
/// without a parent becomes the main frame. Recording a frame replaces
/// what was known of it.
pub open spec fn seed_node(t: SpecFrameTree, n: FrameTreeNode, parent: Option<Seq<char>>) -> SpecFrameTree
    decreases n,
{
    let f = n.frame;
    let k = f.id@;
    let entry = SpecFrame {
        id: k,
        parent_id: if f.parent_id is Some {
            opt_text(f.parent_id)
        } else {
            parent
        },
        url: f.url@,
        name: opt_text(f.name),
        loading: false,
        main_ctx: None,
        utility_ctx: None,
    };
    let t1 = SpecFrameTree {
        frames: t.frames.insert(k, entry),
        main_frame_id: if parent is None {
            Some(k)
        } else {
            t.main_frame_id
        },
        contexts: t.contexts,
    };
    match n.child_frames {
        Some(v) => seed_nodes(t1, v@, k),
        None => t1,
    }
}

/// The registry after recording each of the trees `v`, in order, under
/// `parent`.
pub open spec fn seed_nodes(t: SpecFrameTree, v: Seq<FrameTreeNode>, parent: Seq<char>) -> SpecFrameTree
    decreases v,
{
    if v.len() == 0 {
        t
    } else {
        seed_node(seed_nodes(t, v.drop_last(), parent), v.last(), Some(parent))
    }
}

impl FrameTree {
    /// Record `e`, replacing what was known of its frame.
    fn put_frame(&mut self, e: FrameEntry)
        requires
            distinct_frames(old(self).frames@),
            distinct_contexts(old(self).ctx_to_frame@),
        ensures
            distinct_frames(final(self).frames@),
            distinct_contexts(final(self).ctx_to_frame@),
            frames_map(final(self).frames@) == frames_map(old(self).frames@).insert(e.id@, e@),
            final(self).ctx_to_frame == old(self).ctx_to_frame,
            final(self).main_frame_id == old(self).main_frame_id,
    {
        match self.find_frame(&e.id) {
            Some(i) => {
                self.replace_frame(i, e);
            },
            None => {
                proof {
                    lemma_frames_push(self.frames@, e);
                }
                self.frames.push(e);
            },
        }
    }

    /// Fill the registry from the page's frame tree: the root becomes the
    /// main frame, and every frame is recorded with its parent.
    pub fn seed(&mut self, tree: &FrameTreeNode)
        requires
            old(self).inv(),
        ensures
            final(self).inv(),
            final(self)@ == seed_node(old(self)@, *tree, None),
    {
        self.seed_recursive(tree, None);
    }

    fn seed_recursive(&mut self, tree: &FrameTreeNode, parent_id: Option<&String>)
        requires
            old(self).inv(),
        ensures
            final(self).inv(),
            final(self)@ == seed_node(
                old(self)@,
                *tree,
                match parent_id {
                    Some(p) => Some(p@),
                    None => None,
                },
            ),
        decreases tree,
    {
        let ghost t0 = self@;
        let f = &tree.frame;
        if parent_id.is_none() {
            self.main_frame_id = Some(f.id.clone());
        }
        let e = FrameEntry {
            id: f.id.clone(),
            parent_id: match &f.parent_id {
                Some(p) => Some(p.clone()),
                None => match parent_id {
                    Some(p) => Some(p.clone()),
                    None => None,
                },
            },
            url: f.url.clone(),
            name: clone_opt(&f.name),
            loading: false,
            main_ctx: None,
            utility_ctx: None,
        };
        self.put_frame(e);
        proof {
            lemma_frames_map_wf(self.frames@);
        }
        match &tree.child_frames {
            Some(children) => {
                let ghost t1 = self@;
                let mut j: usize = 0;
                while j < children.len()
                    invariant
                        tree.child_frames == Some(*children),
                        self.inv(),
                        j <= children@.len(),
                        self@ == seed_nodes(t1, children@.take(j as int), f.id@),
                    decreases children@.len() - j,
                {
                    proof {
                        assert(children@.take(j + 1).drop_last() =~= children@.take(j as int));
                        assert(decreases_to!(*tree => tree.child_frames));
                        assert(tree.child_frames == Some(*children));
                        assert(decreases_to!(tree.child_frames => tree.child_frames->0));
                        assert(decreases_to!(*children => children@));
                        assert(decreases_to!(children@ => children@[j as int]));
                        assert(decreases_to!(*tree => children@[j as int]));
                    }
                    self.seed_recursive(&children[j], Some(&f.id));
                    j = j + 1;
                }
                proof {
                    assert(children@.take(children@.len() as int) =~= children@);
                }
            },
            None => {},
        }
    }
}

} // verus!
