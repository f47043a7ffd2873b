//! The rebuild orchestrator. A scene tracks, per map source, the state
//! derived from that source's document: render batches, collision bodies,
//! spawn pools, logic grids and the tile property table. Lifecycle events
//! drive it: a created or modified document has its whole derived state
//! torn down and rebuilt from scratch (never patched), a removed document
//! has it torn down outright. Events of one reconciliation pass are
//! deduplicated per map, the last event winning, so a modify followed by a
//! remove ends with the map unloaded. A fatal rebuild error (an
//! unsupported orientation) leaves the previous derived state untouched.

use vstd::prelude::*;

use crate::batch::{build_batches, spec_batches, RenderBatch, RenderBatchView};
use crate::collider::{extract_colliders, spec_colliders, ColliderBody, ColliderBodyView};
use crate::document::{doc_wf, DocumentView, TileMapDocument};
use crate::geometry::MapError;
use crate::logic::{resolve_logic_layers, spec_logic_grids, LogicGrid, LogicGridView};
use crate::objects::{
    extract_objects, spec_npcs, spec_signs, NpcDataView, NpcPool, SignDataView, SignsPool,
};
use crate::props::PropertyView;
use crate::tileprops::{build_tiles_properties, spec_tiles_properties, TilesProperties};

verus! {

/// Everything derived from one map source, replaced wholesale on every
/// rebuild.
#[derive(Clone, Debug)]
pub struct MapDerived {
    pub batches: Vec<RenderBatch>,
    pub colliders: Vec<ColliderBody>,
    pub signs: SignsPool,
    pub npcs: NpcPool,
    pub logic_grids: Vec<LogicGrid>,
    pub tile_props: TilesProperties,
}

/// View of a map's derived state.
pub struct MapDerivedView {
    pub batches: Seq<RenderBatchView>,
    pub colliders: Seq<ColliderBodyView>,
    pub signs: Seq<SignDataView>,
    pub npcs: Seq<NpcDataView>,
    pub logic_grids: Seq<LogicGridView>,
    pub tile_props: Seq<Seq<Seq<PropertyView>>>,
}

impl DeepView for MapDerived {
    type V = MapDerivedView;

    open spec fn deep_view(&self) -> MapDerivedView {
        MapDerivedView {
            batches: self.batches.deep_view(),
            colliders: self.colliders.deep_view(),
            signs: self.signs.deep_view(),
            npcs: self.npcs.deep_view(),
            logic_grids: self.logic_grids.deep_view(),
            tile_props: self.tile_props.deep_view(),
        }
    }
}

/// The state a rebuild of a document yields.
pub open spec fn spec_rebuild(d: DocumentView) -> MapDerivedView {
    MapDerivedView {
        batches: spec_batches(d),
        colliders: spec_colliders(d),
        signs: spec_signs(d),
        npcs: spec_npcs(d),
        logic_grids: spec_logic_grids(d),
        tile_props: spec_tiles_properties(d),
    }
}

/// Rebuilds every derived output of one document. A document whose
/// orientation is not orthogonal is refused whole: no partial state is
/// produced.
pub fn rebuild_document(doc: &TileMapDocument) -> (r: Result<MapDerived, MapError>)
    requires
        doc_wf(doc.deep_view()),
    ensures
        match r {
            Ok(m) => doc.deep_view().orientation is Orthogonal && m.deep_view() == spec_rebuild(
                doc.deep_view(),
            ),
            Err(e) => !(doc.deep_view().orientation is Orthogonal) && e
                == MapError::UnsupportedOrientation,
        },
{
    match doc.orientation {
        crate::geometry::Orientation::Orthogonal => {
            let batches = build_batches(doc);
            let colliders = extract_colliders(doc);
            let (signs, npcs) = extract_objects(doc);
            let logic_grids = resolve_logic_layers(doc);
            let tile_props = build_tiles_properties(doc);
            Ok(MapDerived { batches, colliders, signs, npcs, logic_grids, tile_props })
        },
        _ => Err(MapError::UnsupportedOrientation),
    }
}

/// A document lifecycle event, naming the map source it concerns.
#[derive(Clone, Copy, PartialEq, Eq, Structural, Debug)]
pub enum MapEvent {
    Created { map_id: u64 },
    Modified { map_id: u64 },
    Removed { map_id: u64 },
}

impl DeepView for MapEvent {
    type V = MapEvent;

    open spec fn deep_view(&self) -> MapEvent {
        *self
    }
}

/// What a deduplicated event burst asks for one map: a full rebuild, or a
/// teardown with no rebuild.
#[derive(Clone, Copy, PartialEq, Eq, Structural, Debug)]
pub enum PendingAction {
    Rebuild,
    Remove,
}

impl DeepView for PendingAction {
    type V = PendingAction;

    open spec fn deep_view(&self) -> PendingAction {
        *self
    }
}

/// The map source an event concerns.
pub open spec fn event_map_id(e: MapEvent) -> u64 {
    match e {
        MapEvent::Created { map_id } => map_id,
        MapEvent::Modified { map_id } => map_id,
        MapEvent::Removed { map_id } => map_id,
    }
}

/// The action an event asks for: a newly created map is treated exactly
/// like a modified one.
pub open spec fn event_action(e: MapEvent) -> PendingAction {
    match e {
        MapEvent::Removed { .. } => PendingAction::Remove,
        _ => PendingAction::Rebuild,
    }
}

/// The action the last event concerning `id` asks for, if any: the event
/// that decides a map's fate within one pass.
pub open spec fn last_action(events: Seq<MapEvent>, id: u64) -> Option<PendingAction>
    decreases events.len(),
{
    if events.len() == 0 {
        None
    } else if event_map_id(events.last()) == id {
        Some(event_action(events.last()))
    } else {
        last_action(events.drop_last(), id)
    }
}

/// First action recorded for `id` in a pending list.
pub open spec fn pending_find(p: Seq<(u64, PendingAction)>, id: u64) -> Option<PendingAction>
    decreases p.len(),
{
    if p.len() == 0 {
        None
    } else if p[0].0 == id {
        Some(p[0].1)
    } else {
        pending_find(p.drop_first(), id)
    }
}

/// Records an action for `id`, overwriting the action already recorded
/// for it or appending a new entry.
pub open spec fn pending_set(p: Seq<(u64, PendingAction)>, id: u64, a: PendingAction) -> Seq<
    (u64, PendingAction),
>
    decreases p.len(),
{
    if p.len() == 0 {
        seq![(id, a)]
    } else if p[0].0 == id {
        seq![(id, a)] + p.drop_first()
    } else {
        seq![p[0]] + pending_set(p.drop_first(), id, a)
    }
}

/// The pending list after folding in the first `n` events: one entry per
/// map, holding the action of its last event so far, in order of first
/// appearance.
pub open spec fn pending_of(events: Seq<MapEvent>, n: nat) -> Seq<(u64, PendingAction)>
    decreases n,
{
    if n == 0 {
        Seq::empty()
    } else {
        pending_set(
            pending_of(events, (n - 1) as nat),
            event_map_id(events[n as int - 1]),
            event_action(events[n as int - 1]),
        )
    }
}

/// No two pending entries name the same map.
pub open spec fn pending_unique(p: Seq<(u64, PendingAction)>) -> bool {
    forall|i: int, j: int| 0 <= i < j < p.len() ==> (#[trigger] p[i]).0 != (#[trigger] p[j]).0
}

/// Recording an action where the first match sits at index `j` overwrites
/// exactly that entry.
proof fn lemma_pending_set_found(
    p: Seq<(u64, PendingAction)>,
    j: int,
    id: u64,
    a: PendingAction,
)
    requires
        0 <= j < p.len(),
        p[j].0 == id,
        forall|k: int| 0 <= k < j ==> (#[trigger] p[k]).0 != id,
    ensures
        pending_set(p, id, a) == p.update(j, (id, a)),
    decreases j,
{
    if j == 0 {
        assert(pending_set(p, id, a) =~= p.update(0, (id, a)));
    } else {
        lemma_pending_set_found(p.drop_first(), j - 1, id, a);
        assert(pending_set(p, id, a) =~= p.update(j, (id, a)));
    }
}

/// Recording an action for an unrecorded map appends it.
proof fn lemma_pending_set_absent(p: Seq<(u64, PendingAction)>, id: u64, a: PendingAction)
    requires
        forall|k: int| 0 <= k < p.len() ==> (#[trigger] p[k]).0 != id,
    ensures
        pending_set(p, id, a) == p.push((id, a)),
    decreases p.len(),
{
    if p.len() == 0 {
        assert(pending_set(p, id, a) =~= p.push((id, a)));
    } else {
        lemma_pending_set_absent(p.drop_first(), id, a);
        assert(pending_set(p, id, a) =~= p.push((id, a)));
    }
}

/// Index of the first pending entry for `id`, if any.
fn pending_index(p: &Vec<(u64, PendingAction)>, id: u64) -> (r: Option<usize>)
    ensures
        match r {
            Some(j) => j < p@.len() && p@[j as int].0 == id && forall|k: int|
                0 <= k < j ==> (#[trigger] p@[k]).0 != id,
            None => forall|k: int| 0 <= k < p@.len() ==> (#[trigger] p@[k]).0 != id,
        },
{
    let n = p.len();
    let mut j: usize = 0;
    while j < n
        invariant
            n == p@.len(),
            j <= n,
            forall|k: int| 0 <= k < j ==> (#[trigger] p@[k]).0 != id,
        decreases n - j,
    {
        if p[j].0 == id {
            return Some(j);
        }
        j = j + 1;
    }
    None
}

/// Deduplicates an event burst into one pending action per map: the last
/// event concerning a map wins, and maps keep the order of their first
/// event.
pub fn dedup_events(events: &Vec<MapEvent>) -> (r: Vec<(u64, PendingAction)>)
    ensures
        r@ == pending_of(events@, events@.len()),
{
    let n = events.len();
    let mut out: Vec<(u64, PendingAction)> = Vec::new();
    let mut i: usize = 0;
    while i < n
        invariant
            n == events@.len(),
            i <= n,
            out@ == pending_of(events@, i as nat),
        decreases n - i,
    {
        let e = events[i];
        let id: u64 = match e {
            MapEvent::Created { map_id } => map_id,
            MapEvent::Modified { map_id } => map_id,
            MapEvent::Removed { map_id } => map_id,
        };
        let act: PendingAction = match e {
            MapEvent::Removed { .. } => PendingAction::Remove,
            _ => PendingAction::Rebuild,
        };
        proof {
            assert(id == event_map_id(events@[i as int]));
            assert(act == event_action(events@[i as int]));
        }
        let ghost prev = out@;
        match pending_index(&out, id) {
            Some(j) => {
                out[j] = (id, act);
                proof {
                    lemma_pending_set_found(prev, j as int, id, act);
                }
            },
            None => {
                out.push((id, act));
                proof {
                    lemma_pending_set_absent(prev, id, act);
                }
            },
        }
        i = i + 1;
    }
    out
}

/// One tracked map of a document store.
#[derive(Clone, Debug)]
pub struct DocEntry {
    pub map_id: u64,
    pub doc: TileMapDocument,
}

/// View of a store entry.
pub struct DocEntryView {
    pub map_id: u64,
    pub doc: DocumentView,
}

impl DeepView for DocEntry {
    type V = DocEntryView;

    open spec fn deep_view(&self) -> DocEntryView {
        DocEntryView { map_id: self.map_id, doc: self.doc.deep_view() }
    }
}

/// The documents currently loaded, one per map source.
#[derive(Clone, Debug)]
pub struct DocumentStore {
    pub entries: Vec<DocEntry>,
}

impl DeepView for DocumentStore {
    type V = Seq<DocEntryView>;

    open spec fn deep_view(&self) -> Seq<DocEntryView> {
        self.entries.deep_view()
    }
}

/// First document stored for `id`, if any.
pub open spec fn store_find(s: Seq<DocEntryView>, id: u64) -> Option<DocumentView>
    decreases s.len(),
{
    if s.len() == 0 {
        None
    } else if s[0].map_id == id {
        Some(s[0].doc)
    } else {
        store_find(s.drop_first(), id)
    }
}

/// A usable store: one document per map, every document well-formed.
pub open spec fn store_wf(s: Seq<DocEntryView>) -> bool {
    &&& forall|i: int, j: int|
        0 <= i < j < s.len() ==> (#[trigger] s[i]).map_id != (#[trigger] s[j]).map_id
    &&& forall|i: int| 0 <= i < s.len() ==> doc_wf((#[trigger] s[i]).doc)
}

impl DocumentStore {
    /// An empty store.
    pub fn new() -> (r: DocumentStore)
        ensures
            r.deep_view() =~= Seq::<DocEntryView>::empty(),
            store_wf(r.deep_view()),
    {
        DocumentStore { entries: Vec::new() }
    }

    /// Stores a document for a map, replacing the one already stored.
    pub fn insert(&mut self, map_id: u64, doc: TileMapDocument)
        requires
            store_wf(old(self).deep_view()),
            doc_wf(doc.deep_view()),
        ensures
            store_wf(final(self).deep_view()),
            store_find(final(self).deep_view(), map_id) == Some(doc.deep_view()),
            forall|o: u64|
                o != map_id ==> #[trigger] store_find(final(self).deep_view(), o) == store_find(
                    old(self).deep_view(),
                    o,
                ),
    {
        let ghost prev = self.deep_view();
        let ghost dvw = doc.deep_view();
        let n = self.entries.len();
        let mut j: usize = 0;
        while j < n
            invariant
                n == self.entries@.len(),
                j <= n,
                prev == self.deep_view(),
                prev == old(self).deep_view(),
                store_wf(prev),
                dvw == doc.deep_view(),
                doc_wf(dvw),
                forall|k: int| 0 <= k < j ==> (#[trigger] self.deep_view()[k]).map_id != map_id,
        decreases n - j,
        {
            if self.entries[j].map_id == map_id {
                let ghost jj = j as int;
                let replaced = self.entries.remove(j);
                let entry = DocEntry { map_id, doc };
                let ghost ev = entry.deep_view();
                self.entries.insert(j, entry);
                proof {
                    assert(ev.map_id == map_id);
                    assert(ev.doc == dvw);
                    assert(self.deep_view() =~= prev.update(jj, ev));
                    assert forall|o: u64| true implies #[trigger] store_find(
                        prev.update(jj, ev),
                        o,
                    ) == if o == map_id {
                        Some(dvw)
                    } else {
                        store_find(prev, o)
                    } by {
                        lemma_store_find_update(prev, jj, ev, o);
                    }
                    assert forall|i1: int, j1: int|
                        0 <= i1 < j1 < prev.update(jj, ev).len() implies (#[trigger] prev.update(
                        jj,
                        ev,
                    )[i1]).map_id != (#[trigger] prev.update(jj, ev)[j1]).map_id by {
                        assert(prev.update(jj, ev)[i1].map_id == prev[i1].map_id);
                        assert(prev.update(jj, ev)[j1].map_id == prev[j1].map_id);
                    }
                    assert forall|i1: int|
                        0 <= i1 < prev.update(jj, ev).len() implies doc_wf(
                        (#[trigger] prev.update(jj, ev)[i1]).doc,
                    ) by {
                        if i1 != jj {
                            assert(prev.update(jj, ev)[i1] == prev[i1]);
                        }
                    }
                }
                return ;
            }
            j = j + 1;
        }
        let entry = DocEntry { map_id, doc };
        let ghost ev = entry.deep_view();
        self.entries.push(entry);
        proof {
            assert(ev.map_id == map_id && ev.doc == dvw);
            assert(self.deep_view() =~= prev.push(ev));
            assert forall|o: u64| true implies #[trigger] store_find(prev.push(ev), o) == if o
                == map_id {
                Some(dvw)
            } else {
                store_find(prev, o)
            } by {
                lemma_store_find_push(prev, ev, o);
            }
            assert forall|i1: int, j1: int|
                0 <= i1 < j1 < prev.push(ev).len() implies (#[trigger] prev.push(ev)[i1]).map_id
                != (#[trigger] prev.push(ev)[j1]).map_id by {
                if j1 < prev.len() {
                    assert(prev.push(ev)[i1] == prev[i1]);
                    assert(prev.push(ev)[j1] == prev[j1]);
                } else {
                    assert(prev.push(ev)[i1] == prev[i1]);
                    assert(prev.push(ev)[j1] == ev);
                }
            }
            assert forall|i1: int|
                0 <= i1 < prev.push(ev).len() implies doc_wf(
                (#[trigger] prev.push(ev)[i1]).doc,
            ) by {
                if i1 < prev.len() {
                    assert(prev.push(ev)[i1] == prev[i1]);
                } else {
                    assert(prev.push(ev)[i1] == ev);
                }
            }
        }
    }

    /// The document stored for a map, if any.
    pub fn get(&self, map_id: u64) -> (r: Option<&TileMapDocument>)
        requires
            store_wf(self.deep_view()),
        ensures
            match r {
                Some(d) => store_find(self.deep_view(), map_id) == Some(d.deep_view()) && doc_wf(
                    d.deep_view(),
                ),
                None => store_find(self.deep_view(), map_id) is None,
            },
    {
        let n = self.entries.len();
        let mut j: usize = 0;
        proof {
            assert(self.deep_view().skip(0) =~= self.deep_view());
        }
        while j < n
            invariant
                n == self.entries@.len(),
                store_wf(self.deep_view()),
                j <= n,
                store_find(self.deep_view(), map_id) == store_find(
                    self.deep_view().skip(j as int),
                    map_id,
                ),
            decreases n - j,
        {
            proof {
                assert(self.deep_view().skip(j as int)[0] == self.deep_view()[j as int]);
                assert(self.deep_view().skip(j as int).drop_first() =~= self.deep_view().skip(
                    j as int + 1,
                ));
            }
            if self.entries[j].map_id == map_id {
                return Some(&self.entries[j].doc);
            }
            j = j + 1;
        }
        proof {
            assert(self.deep_view().skip(n as int) =~= Seq::<DocEntryView>::empty());
        }
        None
    }
}

/// Looking one map up in a store that was updated at an entry of another
/// map, or at the map's own first entry, gives the expected document.
proof fn lemma_store_find_update(s: Seq<DocEntryView>, j: int, e: DocEntryView, o: u64)
    requires
        0 <= j < s.len(),
        e.map_id == s[j].map_id,
        forall|k: int| 0 <= k < j ==> (#[trigger] s[k]).map_id != s[j].map_id,
    ensures
        store_find(s.update(j, e), o) == if o == s[j].map_id {
            Some(e.doc)
        } else {
            store_find(s, o)
        },
    decreases j,
{
    if j == 0 {
        assert(s.update(0, e).drop_first() =~= s.drop_first());
        assert(s.update(0, e)[0] == e);
    } else {
        assert(s.update(j, e).drop_first() =~= s.drop_first().update(j - 1, e));
        assert(s.update(j, e)[0] == s[0]);
        lemma_store_find_update(s.drop_first(), j - 1, e, o);
    }
}

/// Looking a map up in a store extended by an entry for another map gives
/// what the shorter store gives; looking the appended map up finds the new
/// entry.
proof fn lemma_store_find_push(s: Seq<DocEntryView>, e: DocEntryView, o: u64)
    requires
        forall|k: int| 0 <= k < s.len() ==> (#[trigger] s[k]).map_id != e.map_id,
    ensures
        store_find(s.push(e), o) == if o == e.map_id {
            Some(e.doc)
        } else {
            store_find(s, o)
        },
    decreases s.len(),
{
    if s.len() == 0 {
        assert(s.push(e)[0] == e);
        if o == e.map_id {
            assert(store_find(s.push(e), o) == Some(e.doc));
        } else {
            assert(s.push(e).drop_first() =~= s);
            assert(store_find(s.push(e), o) == store_find(s, o));
        }
    } else {
        assert(s.push(e).drop_first() =~= s.drop_first().push(e));
        assert(s.push(e)[0] == s[0]);
        lemma_store_find_push(s.drop_first(), e, o);
    }
}

/// One tracked map of a scene and its derived state.
#[derive(Clone, Debug)]
pub struct SceneEntry {
    pub map_id: u64,
    pub derived: MapDerived,
}

/// View of a scene entry.
pub struct SceneEntryView {
    pub map_id: u64,
    pub derived: MapDerivedView,
}

impl DeepView for SceneEntry {
    type V = SceneEntryView;

    open spec fn deep_view(&self) -> SceneEntryView {
        SceneEntryView { map_id: self.map_id, derived: self.derived.deep_view() }
    }
}

/// The world-visible state the orchestrator owns: per tracked map, the
/// whole state derived from its document.
#[derive(Clone, Debug)]
pub struct SceneState {
    pub entries: Vec<SceneEntry>,
}

impl DeepView for SceneState {
    type V = Seq<SceneEntryView>;

    open spec fn deep_view(&self) -> Seq<SceneEntryView> {
        self.entries.deep_view()
    }
}

/// The derived state tracked for a map, if any.
pub open spec fn scene_find(s: Seq<SceneEntryView>, id: u64) -> Option<MapDerivedView>
    decreases s.len(),
{
    if s.len() == 0 {
        None
    } else if s[0].map_id == id {
        Some(s[0].derived)
    } else {
        scene_find(s.drop_first(), id)
    }
}

/// No two scene entries track the same map.
pub open spec fn scene_ids_unique(s: Seq<SceneEntryView>) -> bool {
    forall|i: int, j: int|
        0 <= i < j < s.len() ==> (#[trigger] s[i]).map_id != (#[trigger] s[j]).map_id
}

/// The scene after a map's derived state is replaced wholesale (or first
/// installed): the first entry tracking the map is overwritten, or a new
/// entry is appended.
pub open spec fn scene_install(s: Seq<SceneEntryView>, id: u64, m: MapDerivedView) -> Seq<
    SceneEntryView,
>
    decreases s.len(),
{
    if s.len() == 0 {
        seq![SceneEntryView { map_id: id, derived: m }]
    } else if s[0].map_id == id {
        seq![SceneEntryView { map_id: id, derived: m }] + s.drop_first()
    } else {
        seq![s[0]] + scene_install(s.drop_first(), id, m)
    }
}

/// The scene after a map's derived state is torn down: the first entry
/// tracking the map disappears, everything else is untouched.
pub open spec fn scene_drop(s: Seq<SceneEntryView>, id: u64) -> Seq<SceneEntryView>
    decreases s.len(),
{
    if s.len() == 0 {
        s
    } else if s[0].map_id == id {
        s.drop_first()
    } else {
        seq![s[0]] + scene_drop(s.drop_first(), id)
    }
}

/// What one pending action does to the scene: a removal tears the map's
/// state down; a rebuild replaces it with the state derived from the
/// stored document, and leaves the scene untouched when no document is
/// stored or when the document's orientation is unsupported (the fatal
/// error preserves the previous state).
pub open spec fn apply_action(
    s: Seq<SceneEntryView>,
    id: u64,
    a: PendingAction,
    store: Seq<DocEntryView>,
) -> Seq<SceneEntryView> {
    match a {
        PendingAction::Remove => scene_drop(s, id),
        PendingAction::Rebuild => match store_find(store, id) {
            Some(d) => if d.orientation is Orthogonal {
                scene_install(s, id, spec_rebuild(d))
            } else {
                s
            },
            None => s,
        },
    }
}

/// The scene after a whole pending list is applied, in order.
pub open spec fn apply_all(
    s: Seq<SceneEntryView>,
    p: Seq<(u64, PendingAction)>,
    store: Seq<DocEntryView>,
) -> Seq<SceneEntryView>
    decreases p.len(),
{
    if p.len() == 0 {
        s
    } else {
        apply_all(apply_action(s, p[0].0, p[0].1, store), p.drop_first(), store)
    }
}

/// Applying one more pending entry continues from the scene the earlier
/// entries produced.
proof fn lemma_apply_all_snoc(
    s: Seq<SceneEntryView>,
    p: Seq<(u64, PendingAction)>,
    e: (u64, PendingAction),
    store: Seq<DocEntryView>,
)
    ensures
        apply_all(s, p.push(e), store) == apply_action(apply_all(s, p, store), e.0, e.1, store),
    decreases p.len(),
{
    if p.len() == 0 {
        assert(p.push(e)[0] == e);
        assert(p.push(e).drop_first() =~= p);
        assert(apply_all(s, p.push(e), store) == apply_all(
            apply_action(s, e.0, e.1, store),
            p,
            store,
        ));
        assert(apply_all(apply_action(s, e.0, e.1, store), p, store) == apply_action(
            s,
            e.0,
            e.1,
            store,
        ));
        assert(apply_all(s, p, store) == s);
    } else {
        assert(p.push(e)[0] == p[0]);
        assert(p.push(e).drop_first() =~= p.drop_first().push(e));
        assert(apply_all(s, p.push(e), store) == apply_all(
            apply_action(s, p[0].0, p[0].1, store),
            p.drop_first().push(e),
            store,
        ));
        assert(apply_all(s, p, store) == apply_all(
            apply_action(s, p[0].0, p[0].1, store),
            p.drop_first(),
            store,
        ));
        lemma_apply_all_snoc(apply_action(s, p[0].0, p[0].1, store), p.drop_first(), e, store);
    }
}

/// Installing a map whose first entry sits at index `j` overwrites exactly
/// that entry.
proof fn lemma_scene_install_at(s: Seq<SceneEntryView>, j: int, id: u64, m: MapDerivedView)
    requires
        0 <= j < s.len(),
        s[j].map_id == id,
        forall|k: int| 0 <= k < j ==> (#[trigger] s[k]).map_id != id,
    ensures
        scene_install(s, id, m) == s.update(j, SceneEntryView { map_id: id, derived: m }),
    decreases j,
{
    if j == 0 {
        assert(scene_install(s, id, m) =~= s.update(
            0,
            SceneEntryView { map_id: id, derived: m },
        ));
    } else {
        lemma_scene_install_at(s.drop_first(), j - 1, id, m);
        assert(scene_install(s, id, m) =~= s.update(
            j,
            SceneEntryView { map_id: id, derived: m },
        ));
    }
}

/// Installing an untracked map appends its entry.
proof fn lemma_scene_install_absent(s: Seq<SceneEntryView>, id: u64, m: MapDerivedView)
    requires
        forall|k: int| 0 <= k < s.len() ==> (#[trigger] s[k]).map_id != id,
    ensures
        scene_install(s, id, m) == s.push(SceneEntryView { map_id: id, derived: m }),
    decreases s.len(),
{
    if s.len() == 0 {
        assert(scene_install(s, id, m) =~= s.push(SceneEntryView { map_id: id, derived: m }));
    } else {
        lemma_scene_install_absent(s.drop_first(), id, m);
        assert(scene_install(s, id, m) =~= s.push(SceneEntryView { map_id: id, derived: m }));
    }
}

/// Tearing down a map whose first entry sits at index `j` removes exactly
/// that entry.
proof fn lemma_scene_drop_at(s: Seq<SceneEntryView>, j: int, id: u64)
    requires
        0 <= j < s.len(),
        s[j].map_id == id,
        forall|k: int| 0 <= k < j ==> (#[trigger] s[k]).map_id != id,
    ensures
        scene_drop(s, id) == s.remove(j),
    decreases j,
{
    if j == 0 {
        assert(scene_drop(s, id) =~= s.remove(0));
    } else {
        lemma_scene_drop_at(s.drop_first(), j - 1, id);
        assert(s.remove(j).drop_first() =~= s.drop_first().remove(j - 1));
        assert(scene_drop(s, id) =~= s.remove(j));
    }
}

/// Tearing down an untracked map changes nothing.
proof fn lemma_scene_drop_absent(s: Seq<SceneEntryView>, id: u64)
    requires
        forall|k: int| 0 <= k < s.len() ==> (#[trigger] s[k]).map_id != id,
    ensures
        scene_drop(s, id) == s,
    decreases s.len(),
{
    if s.len() == 0 {
    } else {
        lemma_scene_drop_absent(s.drop_first(), id);
        assert(scene_drop(s, id) =~= s);
    }
}

impl SceneState {
    /// A scene tracking no map.
    pub fn new() -> (r: SceneState)
        ensures
            r.deep_view() =~= Seq::<SceneEntryView>::empty(),
            scene_ids_unique(r.deep_view()),
    {
        SceneState { entries: Vec::new() }
    }

    /// Index of the first entry tracking a map, if any.
    fn entry_index(&self, map_id: u64) -> (r: Option<usize>)
        ensures
            match r {
                Some(j) => j < self.deep_view().len() && self.deep_view()[j as int].map_id
                    == map_id && forall|k: int|
                    0 <= k < j ==> (#[trigger] self.deep_view()[k]).map_id != map_id,
                None => forall|k: int|
                    0 <= k < self.deep_view().len() ==> (#[trigger] self.deep_view()[k]).map_id
                        != map_id,
            },
    {
        let n = self.entries.len();
        let mut j: usize = 0;
        while j < n
            invariant
                n == self.entries@.len(),
                j <= n,
                forall|k: int| 0 <= k < j ==> (#[trigger] self.deep_view()[k]).map_id != map_id,
            decreases n - j,
        {
            if self.entries[j].map_id == map_id {
                return Some(j);
            }
            j = j + 1;
        }
        None
    }

    /// Installs a map's freshly derived state, replacing whatever state
    /// the scene tracked for that map.
    pub fn install_map(&mut self, map_id: u64, derived: MapDerived)
        ensures
            final(self).deep_view() == scene_install(
                old(self).deep_view(),
                map_id,
                derived.deep_view(),
            ),
            scene_ids_unique(old(self).deep_view()) ==> scene_ids_unique(
                final(self).deep_view(),
            ),
    {
        let ghost prev = self.deep_view();
        let ghost mv = derived.deep_view();
        let idx = self.entry_index(map_id);
        match idx {
            Some(j) => {
                let ghost jj = j as int;
                let replaced = self.entries.remove(j);
                let entry = SceneEntry { map_id, derived };
                let ghost ev = entry.deep_view();
                self.entries.insert(j, entry);
                proof {
                    assert(ev == SceneEntryView { map_id, derived: mv });
                    assert(self.deep_view() =~= prev.update(jj, ev));
                    lemma_scene_install_at(prev, jj, map_id, mv);
                    if scene_ids_unique(prev) {
                        assert forall|i1: int, j1: int|
                            0 <= i1 < j1 < self.deep_view().len() implies (
                        #[trigger] self.deep_view()[i1]).map_id != (
                        #[trigger] self.deep_view()[j1]).map_id by {
                            assert(self.deep_view()[i1].map_id == prev[i1].map_id);
                            assert(self.deep_view()[j1].map_id == prev[j1].map_id);
                        }
                    }
                }
            },
            None => {
                let entry = SceneEntry { map_id, derived };
                let ghost ev = entry.deep_view();
                self.entries.push(entry);
                proof {
                    assert(ev == SceneEntryView { map_id, derived: mv });
                    assert(self.deep_view() =~= prev.push(ev));
                    lemma_scene_install_absent(prev, map_id, mv);
                    if scene_ids_unique(prev) {
                        assert forall|i1: int, j1: int|
                            0 <= i1 < j1 < self.deep_view().len() implies (
                        #[trigger] self.deep_view()[i1]).map_id != (
                        #[trigger] self.deep_view()[j1]).map_id by {
                            assert(self.deep_view()[i1] == prev[i1]);
                            if j1 < prev.len() {
                                assert(self.deep_view()[j1] == prev[j1]);
                            } else {
                                assert(self.deep_view()[j1] == ev);
                            }
                        }
                    }
                }
            },
        }
    }

    /// Tears a map's derived state down, leaving every other map
    /// untouched.
    pub fn remove_map(&mut self, map_id: u64)
        ensures
            final(self).deep_view() == scene_drop(old(self).deep_view(), map_id),
            scene_ids_unique(old(self).deep_view()) ==> scene_ids_unique(
                final(self).deep_view(),
            ),
    {
        let ghost prev = self.deep_view();
        let idx = self.entry_index(map_id);
        match idx {
            Some(j) => {
                let ghost jj = j as int;
                let removed = self.entries.remove(j);
                proof {
                    assert(self.deep_view() =~= prev.remove(jj));
                    lemma_scene_drop_at(prev, jj, map_id);
                    if scene_ids_unique(prev) {
                        assert forall|i1: int, j1: int|
                            0 <= i1 < j1 < self.deep_view().len() implies (
                        #[trigger] self.deep_view()[i1]).map_id != (
                        #[trigger] self.deep_view()[j1]).map_id by {
                            if i1 < jj {
                                assert(prev.remove(jj)[i1] == prev[i1]);
                            } else {
                                assert(prev.remove(jj)[i1] == prev[i1 + 1]);
                            }
                            if j1 < jj {
                                assert(prev.remove(jj)[j1] == prev[j1]);
                            } else {
                                assert(prev.remove(jj)[j1] == prev[j1 + 1]);
                            }
                        }
                    }
                }
            },
            None => {
                proof {
                    lemma_scene_drop_absent(prev, map_id);
                }
            },
        }
    }

    /// One reconciliation pass: deduplicates the event burst (the last
    /// event per map wins), then, map by map, tears down and rebuilds from
    /// the stored document, or tears down outright on a removal. A map
    /// whose document is missing from the store, or whose document has an
    /// unsupported orientation, keeps its previous derived state.
    pub fn reconcile(&mut self, events: &Vec<MapEvent>, store: &DocumentStore)
        requires
            scene_ids_unique(old(self).deep_view()),
            store_wf(store.deep_view()),
        ensures
            final(self).deep_view() == apply_all(
                old(self).deep_view(),
                pending_of(events@, events@.len()),
                store.deep_view(),
            ),
            scene_ids_unique(final(self).deep_view()),
    {
        let ghost s0 = self.deep_view();
        let ghost sv = store.deep_view();
        let pending = dedup_events(events);
        let n = pending.len();
        let mut i: usize = 0;
        proof {
            assert(pending@.take(0) =~= Seq::<(u64, PendingAction)>::empty());
        }
        while i < n
            invariant
                n == pending@.len(),
                i <= n,
                sv == store.deep_view(),
                store_wf(sv),
                s0 == old(self).deep_view(),
                scene_ids_unique(self.deep_view()),
                self.deep_view() == apply_all(s0, pending@.take(i as int), sv),
            decreases n - i,
        {
            let p = pending[i];
            let ghost before = self.deep_view();
            proof {
                lemma_apply_all_snoc(s0, pending@.take(i as int), pending@[i as int], sv);
                assert(pending@.take(i as int + 1) =~= pending@.take(i as int).push(
                    pending@[i as int],
                ));
            }
            match p.1 {
                PendingAction::Remove => {
                    self.remove_map(p.0);
                },
                PendingAction::Rebuild => {
                    match store.get(p.0) {
                        Some(doc) => {
                            match rebuild_document(doc) {
                                Ok(m) => {
                                    self.install_map(p.0, m);
                                },
                                Err(_) => {},
                            }
                        },
                        None => {},
                    }
                },
            }
            proof {
                assert(self.deep_view() == apply_action(before, p.0, p.1, sv));
                assert(self.deep_view() == apply_all(s0, pending@.take(i as int + 1), sv));
            }
            i = i + 1;
        }
        proof {
            assert(pending@.take(n as int) =~= pending@);
        }
    }
}

/// Whether some entry tracks the map.
pub open spec fn scene_has_id(s: Seq<SceneEntryView>, id: u64) -> bool {
    exists|k: int| 0 <= k < s.len() && (#[trigger] s[k]).map_id == id
}

/// What one pending action leaves tracked for its own map: a removal
/// leaves nothing, a rebuild leaves the state derived from the stored
/// document, or the previous state when no document is stored or its
/// orientation is unsupported.
pub open spec fn action_outcome(
    prev: Option<MapDerivedView>,
    id: u64,
    a: PendingAction,
    store: Seq<DocEntryView>,
) -> Option<MapDerivedView> {
    match a {
        PendingAction::Remove => None,
        PendingAction::Rebuild => match store_find(store, id) {
            Some(d) => if d.orientation is Orthogonal {
                Some(spec_rebuild(d))
            } else {
                prev
            },
            None => prev,
        },
    }
}

/// Lookup after an install: the installed map maps to the new state,
/// every other map to what it mapped to before.
proof fn lemma_scene_find_install(s: Seq<SceneEntryView>, id: u64, m: MapDerivedView, o: u64)
    ensures
        scene_find(scene_install(s, id, m), o) == if o == id {
            Some(m)
        } else {
            scene_find(s, o)
        },
    decreases s.len(),
{
    let e = SceneEntryView { map_id: id, derived: m };
    if s.len() == 0 {
        assert(scene_install(s, id, m) == seq![e]);
        assert(seq![e][0] == e);
        if o != id {
            assert(seq![e].drop_first() =~= s);
        }
    } else if s[0].map_id == id {
        let r = seq![e] + s.drop_first();
        assert(r[0] == e);
        assert(r.drop_first() =~= s.drop_first());
        if o != id {
            assert(scene_find(r, o) == scene_find(s.drop_first(), o));
        }
    } else {
        let r = seq![s[0]] + scene_install(s.drop_first(), id, m);
        assert(r[0] == s[0]);
        assert(r.drop_first() =~= scene_install(s.drop_first(), id, m));
        lemma_scene_find_install(s.drop_first(), id, m, o);
    }
}

/// Installing keeps entries one per map and adds at most the installed
/// map's id.
proof fn lemma_scene_install_unique(s: Seq<SceneEntryView>, id: u64, m: MapDerivedView)
    requires
        scene_ids_unique(s),
    ensures
        scene_ids_unique(scene_install(s, id, m)),
        forall|x: u64|
            #[trigger] scene_has_id(scene_install(s, id, m), x) == (scene_has_id(s, x) || x
                == id),
    decreases s.len(),
{
    let e = SceneEntryView { map_id: id, derived: m };
    let r = scene_install(s, id, m);
    if s.len() == 0 {
        assert(r == seq![e]);
        assert forall|x: u64| #[trigger] scene_has_id(r, x) == (scene_has_id(s, x) || x
            == id) by {
            if x == id {
                assert(r[0].map_id == id);
            }
            if scene_has_id(r, x) {
                let k = choose|k: int| 0 <= k < r.len() && r[k].map_id == x;
                assert(k == 0);
            }
        }
    } else if s[0].map_id == id {
        assert(r == seq![e] + s.drop_first());
        assert forall|i1: int, j1: int| 0 <= i1 < j1 < r.len() implies (#[trigger] r[i1]).map_id
            != (#[trigger] r[j1]).map_id by {
            if i1 == 0 {
                assert(r[j1] == s[j1]);
                assert(s[0].map_id != s[j1].map_id);
            } else {
                assert(r[i1] == s[i1]);
                assert(r[j1] == s[j1]);
            }
        }
        assert forall|x: u64| #[trigger] scene_has_id(r, x) == (scene_has_id(s, x) || x
            == id) by {
            if scene_has_id(r, x) {
                let k = choose|k: int| 0 <= k < r.len() && r[k].map_id == x;
                if k == 0 {
                    assert(s[0].map_id == x);
                } else {
                    assert(s[k].map_id == x);
                }
            }
            if scene_has_id(s, x) {
                let k = choose|k: int| 0 <= k < s.len() && s[k].map_id == x;
                if k == 0 {
                    assert(r[0].map_id == x);
                } else {
                    assert(r[k].map_id == x);
                }
            }
            if x == id {
                assert(r[0].map_id == x);
            }
        }
    } else {
        lemma_scene_install_unique(s.drop_first(), id, m);
        let t = scene_install(s.drop_first(), id, m);
        assert(r == seq![s[0]] + t);
        assert forall|i1: int, j1: int| 0 <= i1 < j1 < r.len() implies (#[trigger] r[i1]).map_id
            != (#[trigger] r[j1]).map_id by {
            if i1 == 0 {
                assert(r[j1] == t[j1 - 1]);
                assert(scene_has_id(t, r[j1].map_id));
                if r[j1].map_id == s[0].map_id {
                    assert(scene_has_id(s.drop_first(), s[0].map_id) || s[0].map_id == id);
                    if scene_has_id(s.drop_first(), s[0].map_id) {
                        let k = choose|k: int|
                            0 <= k < s.drop_first().len() && s.drop_first()[k].map_id
                                == s[0].map_id;
                        assert(s[k + 1].map_id == s[0].map_id);
                    }
                }
            } else {
                assert(r[i1] == t[i1 - 1]);
                assert(r[j1] == t[j1 - 1]);
            }
        }
        assert forall|x: u64| #[trigger] scene_has_id(r, x) == (scene_has_id(s, x) || x
            == id) by {
            if scene_has_id(r, x) {
                let k = choose|k: int| 0 <= k < r.len() && r[k].map_id == x;
                if k == 0 {
                    assert(s[0].map_id == x);
                } else {
                    assert(t[k - 1].map_id == x);
                    assert(scene_has_id(t, x));
                    if scene_has_id(s.drop_first(), x) {
                        let k2 = choose|k2: int|
                            0 <= k2 < s.drop_first().len() && s.drop_first()[k2].map_id == x;
                        assert(s[k2 + 1].map_id == x);
                    }
                }
            }
            if scene_has_id(s, x) {
                let k = choose|k: int| 0 <= k < s.len() && s[k].map_id == x;
                if k == 0 {
                    assert(r[0].map_id == x);
                } else {
                    assert(s.drop_first()[k - 1].map_id == x);
                    assert(scene_has_id(s.drop_first(), x));
                    assert(scene_has_id(t, x));
                    let k2 = choose|k2: int| 0 <= k2 < t.len() && t[k2].map_id == x;
                    assert(r[k2 + 1].map_id == x);
                }
            }
            if x == id {
                assert(scene_has_id(t, x));
                let k2 = choose|k2: int| 0 <= k2 < t.len() && t[k2].map_id == x;
                assert(r[k2 + 1].map_id == x);
            }
        }
    }
}

/// Lookup after a teardown: the torn-down map maps to nothing, every
/// other map to what it mapped to before.
proof fn lemma_scene_find_drop(s: Seq<SceneEntryView>, id: u64, o: u64)
    requires
        scene_ids_unique(s),
    ensures
        scene_find(scene_drop(s, id), o) == if o == id {
            None::<MapDerivedView>
        } else {
            scene_find(s, o)
        },
    decreases s.len(),
{
    if s.len() == 0 {
    } else if s[0].map_id == id {
        assert(scene_drop(s, id) == s.drop_first());
        if o == id {
            lemma_scene_find_absent(s.drop_first(), id);
        }
    } else {
        let r = seq![s[0]] + scene_drop(s.drop_first(), id);
        assert(r[0] == s[0]);
        assert(r.drop_first() =~= scene_drop(s.drop_first(), id));
        lemma_scene_find_drop(s.drop_first(), id, o);
    }
}

/// A map no entry tracks maps to nothing.
proof fn lemma_scene_find_absent(s: Seq<SceneEntryView>, id: u64)
    requires
        forall|k: int| 0 <= k < s.len() ==> (#[trigger] s[k]).map_id != id,
    ensures
        scene_find(s, id) is None,
    decreases s.len(),
{
    if s.len() > 0 {
        lemma_scene_find_absent(s.drop_first(), id);
    }
}

/// Teardown keeps entries one per map.
proof fn lemma_scene_drop_unique(s: Seq<SceneEntryView>, id: u64)
    requires
        scene_ids_unique(s),
    ensures
        scene_ids_unique(scene_drop(s, id)),
    decreases s.len(),
{
    if s.len() == 0 {
    } else if s[0].map_id == id {
        assert(scene_drop(s, id) == s.drop_first());
    } else {
        lemma_scene_drop_unique(s.drop_first(), id);
        let t = scene_drop(s.drop_first(), id);
        let r = seq![s[0]] + t;
        assert forall|i1: int, j1: int| 0 <= i1 < j1 < r.len() implies (#[trigger] r[i1]).map_id
            != (#[trigger] r[j1]).map_id by {
            if i1 == 0 {
                assert(r[j1] == t[j1 - 1]);
                lemma_scene_drop_sub(s.drop_first(), id, j1 - 1);
            } else {
                assert(r[i1] == t[i1 - 1]);
                assert(r[j1] == t[j1 - 1]);
            }
        }
    }
}

/// Every entry surviving a teardown was an entry before it.
proof fn lemma_scene_drop_sub(s: Seq<SceneEntryView>, id: u64, k: int)
    requires
        0 <= k < scene_drop(s, id).len(),
    ensures
        exists|j: int| 0 <= j < s.len() && s[j] == scene_drop(s, id)[k],
    decreases s.len(),
{
    if s.len() == 0 {
    } else if s[0].map_id == id {
        assert(s[k + 1] == scene_drop(s, id)[k]);
    } else {
        let r = seq![s[0]] + scene_drop(s.drop_first(), id);
        if k == 0 {
            assert(s[0] == r[0]);
        } else {
            lemma_scene_drop_sub(s.drop_first(), id, k - 1);
            let j = choose|j: int|
                0 <= j < s.drop_first().len() && s.drop_first()[j] == scene_drop(
                    s.drop_first(),
                    id,
                )[k - 1];
            assert(s[j + 1] == r[k]);
        }
    }
}

/// Installing the state a map already tracks changes nothing at all: the
/// scene, entry for entry, stays as it is.
pub proof fn lemma_scene_install_noop(s: Seq<SceneEntryView>, id: u64, m: MapDerivedView)
    requires
        scene_ids_unique(s),
        scene_find(s, id) == Some(m),
    ensures
        scene_install(s, id, m) == s,
    decreases s.len(),
{
    let e = SceneEntryView { map_id: id, derived: m };
    if s.len() == 0 {
    } else if s[0].map_id == id {
        assert(s[0] == e);
        assert(scene_install(s, id, m) =~= s);
    } else {
        lemma_scene_install_noop(s.drop_first(), id, m);
        assert(scene_install(s, id, m) =~= s);
    }
}

/// Tearing down a map the scene does not track changes nothing.
pub proof fn lemma_scene_drop_noop(s: Seq<SceneEntryView>, id: u64)
    requires
        scene_find(s, id) is None,
    ensures
        scene_drop(s, id) == s,
    decreases s.len(),
{
    if s.len() == 0 {
    } else {
        lemma_scene_drop_noop(s.drop_first(), id);
        assert(scene_drop(s, id) =~= s);
    }
}

/// Rebuilding a map's state twice from one unchanged document leaves the
/// scene exactly as one rebuild does: identical contents, no duplicate
/// entries, no growth.
pub proof fn lemma_install_idempotent(s: Seq<SceneEntryView>, id: u64, m: MapDerivedView)
    requires
        scene_ids_unique(s),
    ensures
        scene_install(scene_install(s, id, m), id, m) == scene_install(s, id, m),
{
    let s1 = scene_install(s, id, m);
    lemma_scene_find_install(s, id, m, id);
    lemma_scene_install_unique(s, id, m);
    lemma_scene_install_noop(s1, id, m);
}

/// Lookup after one pending action.
proof fn lemma_apply_action_find(
    s: Seq<SceneEntryView>,
    id: u64,
    a: PendingAction,
    store: Seq<DocEntryView>,
    o: u64,
)
    requires
        scene_ids_unique(s),
    ensures
        scene_ids_unique(apply_action(s, id, a, store)),
        scene_find(apply_action(s, id, a, store), o) == if o == id {
            action_outcome(scene_find(s, id), id, a, store)
        } else {
            scene_find(s, o)
        },
{
    match a {
        PendingAction::Remove => {
            lemma_scene_find_drop(s, id, o);
            lemma_scene_drop_unique(s, id);
        },
        PendingAction::Rebuild => {
            match store_find(store, id) {
                Some(d) => {
                    if d.orientation is Orthogonal {
                        lemma_scene_find_install(s, id, spec_rebuild(d), o);
                        lemma_scene_install_unique(s, id, spec_rebuild(d));
                    }
                },
                None => {},
            }
        },
    }
}

/// No entry for a map means no action recorded for it.
proof fn lemma_pending_find_absent(p: Seq<(u64, PendingAction)>, id: u64)
    requires
        forall|k: int| 0 <= k < p.len() ==> (#[trigger] p[k]).0 != id,
    ensures
        pending_find(p, id) is None,
    decreases p.len(),
{
    if p.len() > 0 {
        lemma_pending_find_absent(p.drop_first(), id);
    }
}

/// In a deduplicated list, each entry is what lookup for its map finds.
proof fn lemma_pending_find_at(p: Seq<(u64, PendingAction)>, j: int)
    requires
        pending_unique(p),
        0 <= j < p.len(),
    ensures
        pending_find(p, p[j].0) == Some(p[j].1),
    decreases j,
{
    if j == 0 {
    } else {
        assert(p.drop_first()[j - 1] == p[j]);
        assert forall|i1: int, j1: int|
            0 <= i1 < j1 < p.drop_first().len() implies (#[trigger] p.drop_first()[i1]).0 != (
        #[trigger] p.drop_first()[j1]).0 by {
            assert(p.drop_first()[i1] == p[i1 + 1]);
            assert(p.drop_first()[j1] == p[j1 + 1]);
        }
        lemma_pending_find_at(p.drop_first(), j - 1);
    }
}

/// Lookup after a whole pending list: a map with no recorded action keeps
/// its state, a map with one gets that action's outcome, computed from the
/// state it had before the pass.
pub proof fn lemma_apply_all_find(
    s: Seq<SceneEntryView>,
    p: Seq<(u64, PendingAction)>,
    store: Seq<DocEntryView>,
    id: u64,
)
    requires
        scene_ids_unique(s),
        pending_unique(p),
    ensures
        scene_ids_unique(apply_all(s, p, store)),
        scene_find(apply_all(s, p, store), id) == match pending_find(p, id) {
            Some(a) => action_outcome(scene_find(s, id), id, a, store),
            None => scene_find(s, id),
        },
    decreases p.len(),
{
    if p.len() == 0 {
    } else {
        let id0 = p[0].0;
        let a0 = p[0].1;
        let s1 = apply_action(s, id0, a0, store);
        lemma_apply_action_find(s, id0, a0, store, id);
        assert forall|i1: int, j1: int|
            0 <= i1 < j1 < p.drop_first().len() implies (#[trigger] p.drop_first()[i1]).0 != (
        #[trigger] p.drop_first()[j1]).0 by {
            assert(p.drop_first()[i1] == p[i1 + 1]);
            assert(p.drop_first()[j1] == p[j1 + 1]);
        }
        lemma_apply_all_find(s1, p.drop_first(), store, id);
        if id == id0 {
            assert forall|k: int| 0 <= k < p.drop_first().len() implies (
            #[trigger] p.drop_first()[k]).0 != id by {
                assert(p.drop_first()[k] == p[k + 1]);
            }
            lemma_pending_find_absent(p.drop_first(), id);
        }
    }
}

/// Applying a pending list whose every action already holds of the scene
/// changes nothing.
proof fn lemma_apply_all_stable(
    s: Seq<SceneEntryView>,
    p: Seq<(u64, PendingAction)>,
    store: Seq<DocEntryView>,
)
    requires
        scene_ids_unique(s),
        forall|j: int|
            0 <= j < p.len() ==> apply_action(s, (#[trigger] p[j]).0, p[j].1, store) == s,
    ensures
        apply_all(s, p, store) == s,
    decreases p.len(),
{
    if p.len() > 0 {
        assert(apply_action(s, p[0].0, p[0].1, store) == s);
        assert forall|j: int|
            0 <= j < p.drop_first().len() implies apply_action(
            s,
            (#[trigger] p.drop_first()[j]).0,
            p.drop_first()[j].1,
            store,
        ) == s by {
            assert(p.drop_first()[j] == p[j + 1]);
        }
        lemma_apply_all_stable(s, p.drop_first(), store);
    }
}

/// Recording one more action changes the lookup of its map alone.
proof fn lemma_pending_find_set(
    p: Seq<(u64, PendingAction)>,
    id: u64,
    a: PendingAction,
    o: u64,
)
    ensures
        pending_find(pending_set(p, id, a), o) == if o == id {
            Some(a)
        } else {
            pending_find(p, o)
        },
    decreases p.len(),
{
    if p.len() == 0 {
        let r = seq![(id, a)];
        assert(r[0] == (id, a));
        if o != id {
            assert(r.drop_first() =~= p);
        }
    } else if p[0].0 == id {
        let r = seq![(id, a)] + p.drop_first();
        assert(r[0] == (id, a));
        assert(r.drop_first() =~= p.drop_first());
        if o != id {
            assert(pending_find(r, o) == pending_find(p.drop_first(), o));
        }
    } else {
        let r = seq![p[0]] + pending_set(p.drop_first(), id, a);
        assert(r[0] == p[0]);
        assert(r.drop_first() =~= pending_set(p.drop_first(), id, a));
        lemma_pending_find_set(p.drop_first(), id, a, o);
    }
}

/// Whether some entry records an action for the map.
pub open spec fn pending_has_id(p: Seq<(u64, PendingAction)>, id: u64) -> bool {
    exists|k: int| 0 <= k < p.len() && (#[trigger] p[k]).0 == id
}

/// Recording an action keeps the list one entry per map.
proof fn lemma_pending_set_unique(p: Seq<(u64, PendingAction)>, id: u64, a: PendingAction)
    requires
        pending_unique(p),
    ensures
        pending_unique(pending_set(p, id, a)),
        forall|x: u64|
            #[trigger] pending_has_id(pending_set(p, id, a), x) == (pending_has_id(p, x) || x
                == id),
    decreases p.len(),
{
    let r = pending_set(p, id, a);
    if p.len() == 0 {
        assert(r == seq![(id, a)]);
        assert forall|x: u64| #[trigger] pending_has_id(r, x) == (pending_has_id(p, x) || x
            == id) by {
            if x == id {
                assert(r[0].0 == id);
            }
            if pending_has_id(r, x) {
                let k = choose|k: int| 0 <= k < r.len() && r[k].0 == x;
                assert(k == 0);
            }
        }
    } else if p[0].0 == id {
        assert(r == seq![(id, a)] + p.drop_first());
        assert forall|i1: int, j1: int| 0 <= i1 < j1 < r.len() implies (#[trigger] r[i1]).0 != (
        #[trigger] r[j1]).0 by {
            if i1 == 0 {
                assert(r[j1] == p[j1]);
                assert(p[0].0 != p[j1].0);
            } else {
                assert(r[i1] == p[i1]);
                assert(r[j1] == p[j1]);
            }
        }
        assert forall|x: u64| #[trigger] pending_has_id(r, x) == (pending_has_id(p, x) || x
            == id) by {
            if pending_has_id(r, x) {
                let k = choose|k: int| 0 <= k < r.len() && r[k].0 == x;
                if k == 0 {
                    assert(p[0].0 == x);
                } else {
                    assert(p[k].0 == x);
                }
            }
            if pending_has_id(p, x) {
                let k = choose|k: int| 0 <= k < p.len() && p[k].0 == x;
                if k == 0 {
                    assert(r[0].0 == x);
                } else {
                    assert(r[k].0 == x);
                }
            }
            if x == id {
                assert(r[0].0 == x);
            }
        }
    } else {
        lemma_pending_set_unique(p.drop_first(), id, a);
        let t = pending_set(p.drop_first(), id, a);
        assert(r == seq![p[0]] + t);
        assert forall|i1: int, j1: int| 0 <= i1 < j1 < r.len() implies (#[trigger] r[i1]).0 != (
        #[trigger] r[j1]).0 by {
            if i1 == 0 {
                assert(r[j1] == t[j1 - 1]);
                assert(pending_has_id(t, r[j1].0));
                if r[j1].0 == p[0].0 {
                    if pending_has_id(p.drop_first(), p[0].0) {
                        let k = choose|k: int|
                            0 <= k < p.drop_first().len() && p.drop_first()[k].0 == p[0].0;
                        assert(p[k + 1].0 == p[0].0);
                    }
                }
            } else {
                assert(r[i1] == t[i1 - 1]);
                assert(r[j1] == t[j1 - 1]);
            }
        }
        assert forall|x: u64| #[trigger] pending_has_id(r, x) == (pending_has_id(p, x) || x
            == id) by {
            if pending_has_id(r, x) {
                let k = choose|k: int| 0 <= k < r.len() && r[k].0 == x;
                if k == 0 {
                    assert(p[0].0 == x);
                } else {
                    assert(t[k - 1].0 == x);
                    assert(pending_has_id(t, x));
                    if pending_has_id(p.drop_first(), x) {
                        let k2 = choose|k2: int|
                            0 <= k2 < p.drop_first().len() && p.drop_first()[k2].0 == x;
                        assert(p[k2 + 1].0 == x);
                    }
                }
            }
            if pending_has_id(p, x) {
                let k = choose|k: int| 0 <= k < p.len() && p[k].0 == x;
                if k == 0 {
                    assert(r[0].0 == x);
                } else {
                    assert(p.drop_first()[k - 1].0 == x);
                    assert(pending_has_id(p.drop_first(), x));
                    assert(pending_has_id(t, x));
                    let k2 = choose|k2: int| 0 <= k2 < t.len() && t[k2].0 == x;
                    assert(r[k2 + 1].0 == x);
                }
            }
            if x == id {
                assert(pending_has_id(t, x));
                let k2 = choose|k2: int| 0 <= k2 < t.len() && t[k2].0 == x;
                assert(r[k2 + 1].0 == x);
            }
        }
    }
}

/// A deduplicated event burst records one action per map.
pub proof fn lemma_pending_of_unique(events: Seq<MapEvent>, n: nat)
    requires
        n <= events.len(),
    ensures
        pending_unique(pending_of(events, n)),
    decreases n,
{
    if n > 0 {
        lemma_pending_of_unique(events, (n - 1) as nat);
        lemma_pending_set_unique(
            pending_of(events, (n - 1) as nat),
            event_map_id(events[n as int - 1]),
            event_action(events[n as int - 1]),
        );
    }
}

/// The deduplicated burst records for each map exactly the action of its
/// last event: the last event wins, so a modify followed by a remove ends
/// in a removal.
pub proof fn lemma_pending_of_last(events: Seq<MapEvent>, n: nat, id: u64)
    requires
        n <= events.len(),
    ensures
        pending_find(pending_of(events, n), id) == last_action(events.take(n as int), id),
    decreases n,
{
    if n == 0 {
        assert(events.take(0).len() == 0);
    } else {
        lemma_pending_of_last(events, (n - 1) as nat, id);
        lemma_pending_find_set(
            pending_of(events, (n - 1) as nat),
            event_map_id(events[n as int - 1]),
            event_action(events[n as int - 1]),
            id,
        );
        assert(events.take(n as int).last() == events[n as int - 1]);
        assert(events.take(n as int).drop_last() =~= events.take(n as int - 1));
    }
}

/// Reconciling the same event burst twice against an unchanged document
/// store leaves the scene exactly as one reconciliation does: identical
/// batches, colliders, pools and grids, and no growth.
pub proof fn lemma_reconcile_idempotent(
    s: Seq<SceneEntryView>,
    events: Seq<MapEvent>,
    store: Seq<DocEntryView>,
)
    requires
        scene_ids_unique(s),
    ensures
        apply_all(
            apply_all(s, pending_of(events, events.len()), store),
            pending_of(events, events.len()),
            store,
        ) == apply_all(s, pending_of(events, events.len()), store),
{
    let p = pending_of(events, events.len());
    lemma_pending_of_unique(events, events.len());
    let s1 = apply_all(s, p, store);
    lemma_apply_all_find(s, p, store, 0);
    assert forall|j: int|
        0 <= j < p.len() implies apply_action(s1, (#[trigger] p[j]).0, p[j].1, store) == s1 by {
        let id = p[j].0;
        let a = p[j].1;
        lemma_pending_find_at(p, j);
        lemma_apply_all_find(s, p, store, id);
        assert(scene_find(s1, id) == action_outcome(scene_find(s, id), id, a, store));
        match a {
            PendingAction::Remove => {
                lemma_scene_drop_noop(s1, id);
            },
            PendingAction::Rebuild => {
                match store_find(store, id) {
                    Some(d) => {
                        if d.orientation is Orthogonal {
                            lemma_scene_install_noop(s1, id, spec_rebuild(d));
                        }
                    },
                    None => {},
                }
            },
        }
    }
    lemma_apply_all_stable(s1, p, store);
}

/// After a reconciliation pass whose last event for a map is its removal,
/// nothing derived from that map remains observable: no batch, collider,
/// pool entry or grid is tracked for it. Maps with no event in the pass
/// keep exactly the state they had.
pub proof fn lemma_remove_event_clears(
    s: Seq<SceneEntryView>,
    events: Seq<MapEvent>,
    store: Seq<DocEntryView>,
    id: u64,
)
    requires
        scene_ids_unique(s),
        last_action(events, id) == Some(PendingAction::Remove),
    ensures
        scene_find(apply_all(s, pending_of(events, events.len()), store), id) is None,
        forall|o: u64|
            last_action(events, o) is None ==> #[trigger] scene_find(
                apply_all(s, pending_of(events, events.len()), store),
                o,
            ) == scene_find(s, o),
{
    let p = pending_of(events, events.len());
    lemma_pending_of_unique(events, events.len());
    assert(events.take(events.len() as int) =~= events);
    lemma_pending_of_last(events, events.len(), id);
    lemma_apply_all_find(s, p, store, id);
    assert forall|o: u64|
        last_action(events, o) is None implies #[trigger] scene_find(
        apply_all(s, p, store),
        o,
    ) == scene_find(s, o) by {
        lemma_pending_of_last(events, events.len(), o);
        lemma_apply_all_find(s, p, store, o);
    }
}

} // verus!
