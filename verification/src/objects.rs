//! Extraction of placed objects into typed spawn requests. Each object
//! layer is processed exactly once (object layers belong to no tileset, so
//! the extraction is independent of the tileset pass), and only when the
//! document has at least one tileset. Objects tagged `npc` require a
//! non-empty string `id` and a non-negative integer `z` property and are
//! dropped silently otherwise; objects tagged `sign` fall back to id 0 and
//! depth 0 and are never dropped; every other tag is ignored.

use vstd::prelude::*;

use crate::batch::opt_seq;
use crate::document::{
    doc_frame, doc_wf, layer_wf, DocumentView, Layer, LayerView, ObjectLayerView, PlacedObjectView,
    TileMapDocument,
};
use crate::geometry::{
    axis_center, flip_row, point_cell, spec_point_cell, to_world, WorldPos, WorldPosView,
};
use crate::props::{bag_lookup_int, bag_lookup_str, has_logic_prefix, is_logic_name, str_eq};

verus! {

/// A sign spawn request: a world position (subpixels) and a numeric sign
/// id.
#[derive(Clone, Copy, PartialEq, Eq, Structural, Debug)]
pub struct SignData {
    pub x: i64,
    pub y: i64,
    pub id: u32,
}

/// View of a sign spawn request with exact integers.
pub struct SignDataView {
    pub x: int,
    pub y: int,
    pub id: u32,
}

impl DeepView for SignData {
    type V = SignDataView;

    open spec fn deep_view(&self) -> SignDataView {
        SignDataView { x: self.x as int, y: self.y as int, id: self.id }
    }
}

/// The sign spawn requests of one rebuilt map, replaced wholesale on
/// every rebuild.
#[derive(Clone, Debug)]
pub struct SignsPool {
    pub signs: Vec<SignData>,
}

impl DeepView for SignsPool {
    type V = Seq<SignDataView>;

    open spec fn deep_view(&self) -> Seq<SignDataView> {
        self.signs.deep_view()
    }
}

/// A non-player-character spawn request: the character's name and its
/// world position.
#[derive(Clone, Debug)]
pub struct NpcData {
    pub name: String,
    pub pos: WorldPos,
}

/// View of a spawn request.
pub struct NpcDataView {
    pub name: Seq<char>,
    pub pos: WorldPosView,
}

impl DeepView for NpcData {
    type V = NpcDataView;

    open spec fn deep_view(&self) -> NpcDataView {
        NpcDataView { name: self.name@, pos: self.pos.deep_view() }
    }
}

/// The non-player-character spawn requests of one rebuilt map, replaced
/// wholesale on every rebuild.
#[derive(Clone, Debug)]
pub struct NpcPool {
    pub npcs: Vec<NpcData>,
}

impl DeepView for NpcPool {
    type V = Seq<NpcDataView>;

    open spec fn deep_view(&self) -> Seq<NpcDataView> {
        self.npcs.deep_view()
    }
}

/// The world position of a placed object at depth `z`: the object's
/// source-frame point is snapped to its containing grid cell (out-of-range
/// points snap to cell (0, 0)) and that cell's center is mapped through
/// the row flip, the map centering and the layer offset.
pub open spec fn spec_object_world(
    d: DocumentView,
    off_x: int,
    off_y: int,
    o: PlacedObjectView,
    z: int,
) -> WorldPosView {
    let c = spec_point_cell(o.x as int, o.y as int, doc_frame(d));
    WorldPosView {
        x: axis_center(c.0, d.width as int, d.tile_width as int, off_x),
        y: axis_center(
            flip_row(d.height as int, c.1),
            d.height as int,
            d.tile_height as int,
            -off_y,
        ),
        z: z,
    }
}

/// The spawn request an object tagged `npc` yields: present exactly when
/// the object carries a non-empty string `id` and a non-negative integer
/// `z` property.
pub open spec fn spec_object_npc(d: DocumentView, ol: ObjectLayerView, o: PlacedObjectView) -> Option<
    NpcDataView,
> {
    if o.kind_tag == "npc"@ {
        match bag_lookup_str(o.properties, "id"@) {
            Some(name) => if name.len() > 0 {
                match bag_lookup_int(o.properties, "z"@) {
                    Some(z) => if z >= 0 {
                        Some(
                            NpcDataView {
                                name: name,
                                pos: spec_object_world(
                                    d,
                                    ol.offset_x as int,
                                    ol.offset_y as int,
                                    o,
                                    z as int,
                                ),
                            },
                        )
                    } else {
                        None
                    },
                    None => None,
                }
            } else {
                None
            },
            None => None,
        }
    } else {
        None
    }
}

/// The spawn request an object tagged `sign` yields: always present, with
/// the id defaulting to 0 and the depth to 0 when the properties are
/// absent or of the wrong type.
pub open spec fn spec_object_sign(d: DocumentView, ol: ObjectLayerView, o: PlacedObjectView) -> Option<
    SignDataView,
> {
    if o.kind_tag == "sign"@ {
        let id = match bag_lookup_int(o.properties, "id"@) {
            Some(v) => v,
            None => 0,
        };
        let z = match bag_lookup_int(o.properties, "z"@) {
            Some(v) => v,
            None => 0,
        };
        let pos = spec_object_world(d, ol.offset_x as int, ol.offset_y as int, o, z as int);
        Some(SignDataView { x: pos.x, y: pos.y, id: id as u32 })
    } else {
        None
    }
}

/// Whether the objects of layer `li` are extracted: the layer is an
/// object layer not carrying the logic name marker.
pub open spec fn layer_extracted(d: DocumentView, li: int) -> bool {
    match d.layers[li] {
        LayerView::Objects(ol) => !is_logic_name(ol.name),
        _ => false,
    }
}

/// The object layer held by a layer view; meaningful only when the layer
/// is an object layer.
pub open spec fn layer_objects(l: LayerView) -> ObjectLayerView {
    match l {
        LayerView::Objects(ol) => ol,
        _ => arbitrary(),
    }
}

/// The sign spawns of the first `k` objects of one layer.
pub open spec fn spec_layer_signs_upto(d: DocumentView, ol: ObjectLayerView, k: nat) -> Seq<
    SignDataView,
>
    decreases k,
{
    if k == 0 {
        Seq::empty()
    } else {
        spec_layer_signs_upto(d, ol, (k - 1) as nat) + opt_seq(
            spec_object_sign(d, ol, ol.objects[k as int - 1]),
        )
    }
}

/// The npc spawns of the first `k` objects of one layer.
pub open spec fn spec_layer_npcs_upto(d: DocumentView, ol: ObjectLayerView, k: nat) -> Seq<
    NpcDataView,
>
    decreases k,
{
    if k == 0 {
        Seq::empty()
    } else {
        spec_layer_npcs_upto(d, ol, (k - 1) as nat) + opt_seq(
            spec_object_npc(d, ol, ol.objects[k as int - 1]),
        )
    }
}

/// The sign spawns of the first `n` layers.
pub open spec fn spec_signs_upto(d: DocumentView, n: nat) -> Seq<SignDataView>
    decreases n,
{
    if n == 0 {
        Seq::empty()
    } else {
        spec_signs_upto(d, (n - 1) as nat) + if layer_extracted(d, n as int - 1) {
            let ol = layer_objects(d.layers[n as int - 1]);
            spec_layer_signs_upto(d, ol, ol.objects.len())
        } else {
            Seq::empty()
        }
    }
}

/// The npc spawns of the first `n` layers.
pub open spec fn spec_npcs_upto(d: DocumentView, n: nat) -> Seq<NpcDataView>
    decreases n,
{
    if n == 0 {
        Seq::empty()
    } else {
        spec_npcs_upto(d, (n - 1) as nat) + if layer_extracted(d, n as int - 1) {
            let ol = layer_objects(d.layers[n as int - 1]);
            spec_layer_npcs_upto(d, ol, ol.objects.len())
        } else {
            Seq::empty()
        }
    }
}

/// All sign spawns of a document; empty when the document has no tileset,
/// since object layers are visited only by the tileset pass.
pub open spec fn spec_signs(d: DocumentView) -> Seq<SignDataView> {
    if d.tilesets.len() == 0 {
        Seq::empty()
    } else {
        spec_signs_upto(d, d.layers.len())
    }
}

/// All npc spawns of a document.
pub open spec fn spec_npcs(d: DocumentView) -> Seq<NpcDataView> {
    if d.tilesets.len() == 0 {
        Seq::empty()
    } else {
        spec_npcs_upto(d, d.layers.len())
    }
}

/// Extracts the sign and npc pools of a document.
pub fn extract_objects(doc: &TileMapDocument) -> (r: (SignsPool, NpcPool))
    requires
        doc_wf(doc.deep_view()),
        doc.deep_view().orientation is Orthogonal,
    ensures
        r.0.deep_view() == spec_signs(doc.deep_view()),
        r.1.deep_view() == spec_npcs(doc.deep_view()),
{
    let ghost dv = doc.deep_view();
    let mut signs: Vec<SignData> = Vec::new();
    let mut npcs: Vec<NpcData> = Vec::new();
    if doc.tilesets.len() == 0 {
        return (SignsPool { signs }, NpcPool { npcs });
    }
    let nl = doc.layers.len();
    let mut li: usize = 0;
    while li < nl
        invariant
            doc_wf(dv),
            dv == doc.deep_view(),
            dv.orientation is Orthogonal,
            nl == dv.layers.len(),
            li <= nl,
            signs.deep_view() == spec_signs_upto(dv, li as nat),
            npcs.deep_view() == spec_npcs_upto(dv, li as nat),
        decreases nl - li,
    {
        proof {
            assert(layer_wf(dv, dv.layers[li as int]));
        }
        match &doc.layers[li] {
            Layer::Objects(ol) => {
                if !has_logic_prefix(ol.name.as_str()) {
                    let nobj = ol.objects.len();
                    let mut k: usize = 0;
                    while k < nobj
                        invariant
                            doc_wf(dv),
                            dv == doc.deep_view(),
                            dv.orientation is Orthogonal,
                            nl == dv.layers.len(),
                            li < nl,
                            dv.layers[li as int] == LayerView::Objects(ol.deep_view()),
                            layer_extracted(dv, li as int),
                            nobj == ol.objects@.len(),
                            k <= nobj,
                            signs.deep_view() == spec_signs_upto(dv, li as nat)
                                + spec_layer_signs_upto(dv, ol.deep_view(), k as nat),
                            npcs.deep_view() == spec_npcs_upto(dv, li as nat)
                                + spec_layer_npcs_upto(dv, ol.deep_view(), k as nat),
                        decreases nobj - k,
                    {
                        proof {
                            assert(layer_wf(dv, dv.layers[li as int]));
                            assert(ol.deep_view().objects[k as int] == ol.objects@[k as int].deep_view());
                            reveal_strlit("npc");
                            reveal_strlit("sign");
                            assert("npc"@.len() == 3);
                            assert("sign"@.len() == 4);
                            assert("npc"@ != "sign"@);
                        }
                        let o = &ol.objects[k];
                        let frame = doc.frame();
                        if str_eq(o.kind_tag.as_str(), "npc") {
                            match o.properties.get_str("id") {
                                Some(name) => {
                                    if name.unicode_len() > 0 {
                                        match o.properties.get_int("z") {
                                            Some(z) => {
                                                if z >= 0 {
                                                    let c = point_cell(&frame, o.x, o.y);
                                                    let pos = match to_world(
                                                        &frame,
                                                        c.0,
                                                        c.1,
                                                        ol.offset_x,
                                                        ol.offset_y,
                                                        z as i64,
                                                    ) {
                                                        Ok(p) => p,
                                                        Err(_) => unreached(),
                                                    };
                                                    let ghost prev = npcs.deep_view();
                                                    let npc = NpcData { name: name.clone(), pos };
                                                    proof {
                                                        assert(spec_object_npc(
                                                            dv,
                                                            ol.deep_view(),
                                                            ol.deep_view().objects[k as int],
                                                        ) == Some(npc.deep_view()));
                                                    }
                                                    npcs.push(npc);
                                                    proof {
                                                        assert(npcs.deep_view() =~= prev.push(
                                                            spec_object_npc(
                                                                dv,
                                                                ol.deep_view(),
                                                                ol.deep_view().objects[k as int],
                                                            )->Some_0,
                                                        ));
                                                    }
                                                }
                                            },
                                            None => {},
                                        }
                                    }
                                },
                                None => {},
                            }
                        } else if str_eq(o.kind_tag.as_str(), "sign") {
                            let id: i32 = match o.properties.get_int("id") {
                                Some(v) => v,
                                None => 0,
                            };
                            let z: i32 = match o.properties.get_int("z") {
                                Some(v) => v,
                                None => 0,
                            };
                            let c = point_cell(&frame, o.x, o.y);
                            let pos = match to_world(
                                &frame,
                                c.0,
                                c.1,
                                ol.offset_x,
                                ol.offset_y,
                                z as i64,
                            ) {
                                Ok(p) => p,
                                Err(_) => unreached(),
                            };
                            let ghost prev = signs.deep_view();
                            let sd = SignData {
                                x: pos.x,
                                y: pos.y,
                                id: #[verifier::truncate] (id as u32),
                            };
                            proof {
                                assert(spec_object_sign(
                                    dv,
                                    ol.deep_view(),
                                    ol.deep_view().objects[k as int],
                                ) == Some(sd.deep_view()));
                            }
                            signs.push(sd);
                            proof {
                                assert(signs.deep_view() =~= prev.push(sd.deep_view()));
                            }
                        } else {
                            proof {
                                assert(spec_object_sign(
                                    dv,
                                    ol.deep_view(),
                                    ol.deep_view().objects[k as int],
                                ) is None);
                                assert(spec_object_npc(
                                    dv,
                                    ol.deep_view(),
                                    ol.deep_view().objects[k as int],
                                ) is None);
                            }
                        }
                        proof {
                            assert(signs.deep_view() =~= spec_signs_upto(dv, li as nat)
                                + spec_layer_signs_upto(dv, ol.deep_view(), (k + 1) as nat));
                            assert(npcs.deep_view() =~= spec_npcs_upto(dv, li as nat)
                                + spec_layer_npcs_upto(dv, ol.deep_view(), (k + 1) as nat));
                        }
                        k = k + 1;
                    }
                    proof {
                        assert(signs.deep_view() =~= spec_signs_upto(dv, (li + 1) as nat));
                        assert(npcs.deep_view() =~= spec_npcs_upto(dv, (li + 1) as nat));
                    }
                } else {
                    proof {
                        assert(!layer_extracted(dv, li as int));
                        assert(signs.deep_view() =~= spec_signs_upto(dv, (li + 1) as nat));
                        assert(npcs.deep_view() =~= spec_npcs_upto(dv, (li + 1) as nat));
                    }
                }
            },
            _ => {
                proof {
                    assert(!layer_extracted(dv, li as int));
                    assert(signs.deep_view() =~= spec_signs_upto(dv, (li + 1) as nat));
                    assert(npcs.deep_view() =~= spec_npcs_upto(dv, (li + 1) as nat));
                }
            },
        }
        li = li + 1;
    }
    (SignsPool { signs }, NpcPool { npcs })
}

} // verus!
