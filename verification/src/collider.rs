//! Extraction of static collision bodies: for every populated cell of
//! every scanned (tileset, layer) pair, each collision shape declared on
//! the cell's tile becomes one body. The source format anchors a shape at
//! the shape's own top-left corner in tile-local pixels, while the physics
//! convention centers a body on its centroid, so each body's position is
//! the tile's world center plus a per-shape correction. Flip flags are
//! deliberately not applied to collision shapes: a flipped tile keeps its
//! un-flipped collider, a known gap of the source pipeline that is
//! preserved here.

use vstd::prelude::*;
use vstd::arithmetic::div_mod::{
    lemma_fundamental_div_mod_converse, lemma_mod_pos_bound, lemma_multiply_divide_lt,
};

use crate::batch::{layer_tiles, opt_seq, pair_scanned, restriction_ok_exec};
use crate::document::{
    doc_wf, layer_wf, shape_wf, tile_ref_wf, tiledef_wf, tileset_wf, CollisionShape, DocumentView,
    Layer, ShapeKind, TileMapDocument,
};
use crate::geometry::{axis_center, flip_row, MAX_SUBPIX, MAX_TILE_PIXELS};
use crate::props::has_logic_prefix;

verus! {

/// A collision primitive: an axis-aligned box given by its half extents,
/// or a ball given by its radius, in subpixels.
#[derive(Clone, Copy, PartialEq, Eq, Structural, Debug)]
pub enum ColliderShape {
    Cuboid { half_width: i64, half_height: i64 },
    Ball { radius: i64 },
}

/// One static collision body: a world position (subpixels, y up) and a
/// primitive shape.
#[derive(Clone, Copy, PartialEq, Eq, Structural, Debug)]
pub struct ColliderBody {
    pub x: i64,
    pub y: i64,
    pub z: i64,
    pub shape: ColliderShape,
}

/// View of a collision primitive with exact integers.
pub enum ColliderShapeView {
    Cuboid { half_width: int, half_height: int },
    Ball { radius: int },
}

/// View of a collision body with exact integers.
pub struct ColliderBodyView {
    pub x: int,
    pub y: int,
    pub z: int,
    pub shape: ColliderShapeView,
}

impl DeepView for ColliderShape {
    type V = ColliderShapeView;

    open spec fn deep_view(&self) -> ColliderShapeView {
        match self {
            ColliderShape::Cuboid { half_width, half_height } => ColliderShapeView::Cuboid {
                half_width: *half_width as int,
                half_height: *half_height as int,
            },
            ColliderShape::Ball { radius } => ColliderShapeView::Ball { radius: *radius as int },
        }
    }
}

impl DeepView for ColliderBody {
    type V = ColliderBodyView;

    open spec fn deep_view(&self) -> ColliderBodyView {
        ColliderBodyView {
            x: self.x as int,
            y: self.y as int,
            z: self.z as int,
            shape: self.shape.deep_view(),
        }
    }
}

/// The body one declared shape contributes for a tile whose world center
/// is (`ax`, `ay`) at depth `z`, on a tileset with tile pixel size
/// (`tsw`, `tsh`). Rectangles become boxes and ellipses become balls of
/// half the declared width; other kinds are skipped. The correction moves
/// the anchor from the shape's top-left corner in the tile's local,
/// y-down frame to the shape's centroid in the world's y-up frame.
pub open spec fn spec_shape_collider(
    s: CollisionShape,
    tsw: int,
    tsh: int,
    ax: int,
    ay: int,
    z: int,
) -> Option<ColliderBodyView> {
    match s.kind {
        ShapeKind::Rect { width, height } => {
            let hw = width / 2;
            let hh = height / 2;
            Some(
                ColliderBodyView {
                    x: ax + s.local_x + (hw - tsw * 128),
                    y: ay + (tsh * 128 - hh - s.local_y),
                    z: z,
                    shape: ColliderShapeView::Cuboid { half_width: hw, half_height: hh },
                },
            )
        },
        ShapeKind::Ellipse { width, height } => {
            let hw = width / 2;
            Some(
                ColliderBodyView {
                    x: ax + s.local_x + (hw - tsw * 128),
                    y: ay + (tsh * 128 - hw - s.local_y),
                    z: z,
                    shape: ColliderShapeView::Ball { radius: hw },
                },
            )
        },
        ShapeKind::Other => None,
    }
}

/// The bodies of the first `k` shapes of one tile instance.
pub open spec fn spec_shapes_upto(
    shapes: Seq<CollisionShape>,
    tsw: int,
    tsh: int,
    ax: int,
    ay: int,
    z: int,
    k: nat,
) -> Seq<ColliderBodyView>
    decreases k,
{
    if k == 0 {
        Seq::empty()
    } else {
        spec_shapes_upto(shapes, tsw, tsh, ax, ay, z, (k - 1) as nat) + opt_seq(
            spec_shape_collider(shapes[k - 1], tsw, tsh, ax, ay, z),
        )
    }
}

/// The bodies contributed by destination cell `i` of a scanned pair: all
/// shape bodies of the referenced tile when the cell's reference points
/// into tileset `ts`, anchored at the cell's world center.
pub open spec fn spec_cell_colliders(d: DocumentView, ts: int, li: int, i: int) -> Seq<
    ColliderBodyView,
> {
    let t = layer_tiles(d.layers[li]);
    let w = d.width as int;
    let h = d.height as int;
    let x = i % w;
    let yw = i / w;
    match t.cells[flip_row(h, yw) * w + x] {
        Some(r) => if r.tileset_index == ts {
            let tset = d.tilesets[ts];
            spec_shapes_upto(
                tset.tiles[r.tile_id as int].collision_shapes,
                tset.tile_width as int,
                tset.tile_height as int,
                axis_center(x, w, d.tile_width as int, t.offset_x as int),
                axis_center(yw, h, d.tile_height as int, -(t.offset_y as int)),
                t.z as int,
                tset.tiles[r.tile_id as int].collision_shapes.len(),
            )
        } else {
            Seq::empty()
        },
        None => Seq::empty(),
    }
}

/// The bodies of the first `m` destination cells of one scanned pair.
pub open spec fn spec_pair_colliders_upto(d: DocumentView, ts: int, li: int, m: nat) -> Seq<
    ColliderBodyView,
>
    decreases m,
{
    if m == 0 {
        Seq::empty()
    } else {
        spec_pair_colliders_upto(d, ts, li, (m - 1) as nat) + spec_cell_colliders(
            d,
            ts,
            li,
            m as int - 1,
        )
    }
}

/// All bodies of pair (`ts`, `li`): empty when the pair is not scanned.
pub open spec fn spec_pair_colliders(d: DocumentView, ts: int, li: int) -> Seq<ColliderBodyView> {
    if pair_scanned(d, ts, li) {
        spec_pair_colliders_upto(d, ts, li, (d.width * d.height) as nat)
    } else {
        Seq::empty()
    }
}

/// The bodies of the first `n` (tileset, layer) pairs.
pub open spec fn spec_colliders_upto(d: DocumentView, n: nat) -> Seq<ColliderBodyView>
    decreases n,
{
    if n == 0 || d.layers.len() == 0 {
        Seq::empty()
    } else {
        let l = d.layers.len() as int;
        let k = (n - 1) as int;
        spec_colliders_upto(d, (n - 1) as nat) + spec_pair_colliders(d, k / l, k % l)
    }
}

/// All static collision bodies of a document, in (tileset, layer, cell,
/// shape) order.
pub open spec fn spec_colliders(d: DocumentView) -> Seq<ColliderBodyView> {
    spec_colliders_upto(d, (d.tilesets.len() * d.layers.len()) as nat)
}

/// The body one declared shape contributes, executable form.
fn shape_collider(s: &CollisionShape, tsw: u32, tsh: u32, ax: i64, ay: i64, z: i64) -> (r: Option<
    ColliderBody,
>)
    requires
        shape_wf(*s),
        0 < tsw <= MAX_TILE_PIXELS,
        0 < tsh <= MAX_TILE_PIXELS,
        -3 * MAX_SUBPIX <= ax <= 3 * MAX_SUBPIX,
        -3 * MAX_SUBPIX <= ay <= 3 * MAX_SUBPIX,
    ensures
        r.deep_view() == spec_shape_collider(*s, tsw as int, tsh as int, ax as int, ay as int, z as int),
{
    match s.kind {
        ShapeKind::Rect { width, height } => {
            let hw = ((width as u64) / 2) as i64;
            let hh = ((height as u64) / 2) as i64;
            let x = ax + s.local_x + (hw - (tsw as i64) * 128);
            let y = ay + ((tsh as i64) * 128 - hh - s.local_y);
            Some(ColliderBody { x, y, z, shape: ColliderShape::Cuboid { half_width: hw, half_height: hh } })
        },
        ShapeKind::Ellipse { width, height: _ } => {
            let hw = ((width as u64) / 2) as i64;
            let x = ax + s.local_x + (hw - (tsw as i64) * 128);
            let y = ay + ((tsh as i64) * 128 - hw - s.local_y);
            Some(ColliderBody { x, y, z, shape: ColliderShape::Ball { radius: hw } })
        },
        ShapeKind::Other => None,
    }
}

/// Appends the bodies of every declared shape of one tile instance.
fn push_tile_colliders(
    shapes: &Vec<CollisionShape>,
    tsw: u32,
    tsh: u32,
    ax: i64,
    ay: i64,
    z: i64,
    out: &mut Vec<ColliderBody>,
)
    requires
        forall|i: int| 0 <= i < shapes@.len() ==> shape_wf(#[trigger] shapes@[i]),
        0 < tsw <= MAX_TILE_PIXELS,
        0 < tsh <= MAX_TILE_PIXELS,
        -3 * MAX_SUBPIX <= ax <= 3 * MAX_SUBPIX,
        -3 * MAX_SUBPIX <= ay <= 3 * MAX_SUBPIX,
    ensures
        final(out).deep_view() == old(out).deep_view() + spec_shapes_upto(
            shapes.deep_view(),
            tsw as int,
            tsh as int,
            ax as int,
            ay as int,
            z as int,
            shapes@.len(),
        ),
{
    let n = shapes.len();
    let mut k: usize = 0;
    proof {
        assert(out.deep_view() =~= old(out).deep_view() + spec_shapes_upto(
            shapes.deep_view(),
            tsw as int,
            tsh as int,
            ax as int,
            ay as int,
            z as int,
            0,
        ));
    }
    while k < n
        invariant
            n == shapes@.len(),
            k <= n,
            forall|i: int| 0 <= i < shapes@.len() ==> shape_wf(#[trigger] shapes@[i]),
            0 < tsw <= MAX_TILE_PIXELS,
            0 < tsh <= MAX_TILE_PIXELS,
            -3 * MAX_SUBPIX <= ax <= 3 * MAX_SUBPIX,
            -3 * MAX_SUBPIX <= ay <= 3 * MAX_SUBPIX,
            out.deep_view() == old(out).deep_view() + spec_shapes_upto(
                shapes.deep_view(),
                tsw as int,
                tsh as int,
                ax as int,
                ay as int,
                z as int,
                k as nat,
            ),
        decreases n - k,
    {
        let body = shape_collider(&shapes[k], tsw, tsh, ax, ay, z);
        let ghost prev = out.deep_view();
        proof {
            assert(shapes.deep_view()[k as int] == shapes@[k as int]);
        }
        match body {
            Some(b) => {
                out.push(b);
                proof {
                    assert(out.deep_view() =~= prev.push(b.deep_view()));
                }
            },
            None => {},
        }
        proof {
            assert(out.deep_view() =~= old(out).deep_view() + spec_shapes_upto(
                shapes.deep_view(),
                tsw as int,
                tsh as int,
                ax as int,
                ay as int,
                z as int,
                (k + 1) as nat,
            ));
        }
        k = k + 1;
    }
}

/// Extracts every static collision body of the document, walking the same
/// (tileset, layer) pairs and the same cell order as the batcher.
pub fn extract_colliders(doc: &TileMapDocument) -> (r: Vec<ColliderBody>)
    requires
        doc_wf(doc.deep_view()),
    ensures
        r.deep_view() == spec_colliders(doc.deep_view()),
{
    let ghost dv = doc.deep_view();
    let nts = doc.tilesets.len();
    let nl = doc.layers.len();
    let mut out: Vec<ColliderBody> = Vec::new();
    let mut ts: usize = 0;
    while ts < nts
        invariant
            doc_wf(dv),
            dv == doc.deep_view(),
            nts == dv.tilesets.len(),
            nl == dv.layers.len(),
            ts <= nts,
            out.deep_view() == spec_colliders_upto(dv, (ts * nl) as nat),
        decreases nts - ts,
    {
        let mut li: usize = 0;
        while li < nl
            invariant
                doc_wf(dv),
                dv == doc.deep_view(),
                nts == dv.tilesets.len(),
                nl == dv.layers.len(),
                ts < nts,
                li <= nl,
                out.deep_view() == spec_colliders_upto(dv, (ts * nl + li) as nat),
            decreases nl - li,
        {
            proof {
                lemma_fundamental_div_mod_converse(
                    ts as int * nl as int + li as int,
                    nl as int,
                    ts as int,
                    li as int,
                );
                assert(layer_wf(dv, dv.layers[li as int]));
                assert(tileset_wf(dv.tilesets[ts as int]));
            }
            let ghost n: int = ts as int * nl as int + li as int;
            match &doc.layers[li] {
                Layer::Tiles(layer) => {
                    let tex_some = doc.tilesets[ts].texture.is_some();
                    let logic = has_logic_prefix(layer.name.as_str());
                    let restr = restriction_ok_exec(&layer.properties, ts);
                    if tex_some && !logic && restr {
                        proof {
                            assert(pair_scanned(dv, ts as int, li as int));
                        }
                        let w = doc.width as usize;
                        let h = doc.height as usize;
                        assert(w * h <= 0x4000_0000) by (nonlinear_arith)
                            requires
                                0 <= w <= 32768,
                                0 <= h <= 32768,
                        ;
                        let total = w * h;
                        let mut i: usize = 0;
                        while i < total
                            invariant
                                doc_wf(dv),
                                dv == doc.deep_view(),
                                nts == dv.tilesets.len(),
                                nl == dv.layers.len(),
                                ts < nts,
                                li < nl,
                                dv.layers[li as int] == crate::document::LayerView::Tiles(
                                    layer.deep_view(),
                                ),
                                pair_scanned(dv, ts as int, li as int),
                                w == dv.width && h == dv.height,
                                total == w * h,
                                i <= total,
                                out.deep_view() == spec_colliders_upto(dv, (ts * nl + li) as nat)
                                    + spec_pair_colliders_upto(dv, ts as int, li as int, i as nat),
                            decreases total - i,
                        {
                            let x = i % w;
                            let yw = i / w;
                            proof {
                                lemma_mod_pos_bound(i as int, w as int);
                                lemma_multiply_divide_lt(i as int, w as int, h as int);
                            }
                            let src_row = h - 1 - yw;
                            assert(src_row * w + x < h * w && src_row * w + x >= 0)
                                by (nonlinear_arith)
                                requires
                                    0 <= src_row < h,
                                    0 <= x < w,
                                    0 < w,
                            ;
                            assert(h * w == w * h) by (nonlinear_arith);
                            let src_idx = src_row * w + x;
                            proof {
                                assert(layer_wf(dv, dv.layers[li as int]));
                                assert(tileset_wf(dv.tilesets[ts as int]));
                                assert(layer.deep_view().cells[src_idx as int]
                                    == layer.cells@[src_idx as int]);
                            }
                            match &layer.cells[src_idx] {
                                Some(r) => {
                                    if r.tileset_index == ts {
                                        proof {
                                            assert(tile_ref_wf(dv, *r));
                                            assert(dv.tilesets[ts as int]
                                                == doc.tilesets@[ts as int].deep_view());
                                            assert(dv.tilesets[ts as int].tiles[r.tile_id as int]
                                                == doc.tilesets@[ts as int].tiles@[r.tile_id as int].deep_view());
                                        }
                                        let ax = crate::geometry::axis_center_exec(
                                            x as u32,
                                            doc.width,
                                            doc.tile_width,
                                            layer.offset_x,
                                        );
                                        let ay = crate::geometry::axis_center_exec(
                                            yw as u32,
                                            doc.height,
                                            doc.tile_height,
                                            -layer.offset_y,
                                        );
                                        let tset = &doc.tilesets[ts];
                                        let tdef = &tset.tiles[r.tile_id as usize];
                                        proof {
                                            assert(tiledef_wf(
                                                dv.tilesets[ts as int].tiles[r.tile_id as int],
                                            ));
                                            assert(tdef.collision_shapes.deep_view()
                                                == dv.tilesets[ts as int].tiles[
                                                r.tile_id as int
                                            ].collision_shapes);
                                            assert forall|j: int|
                                                0 <= j < tdef.collision_shapes@.len() implies shape_wf(
                                                #[trigger] tdef.collision_shapes@[j],
                                            ) by {
                                                assert(tdef.collision_shapes@[j]
                                                    == tdef.collision_shapes.deep_view()[j]);
                                            }
                                        }
                                        push_tile_colliders(
                                            &tdef.collision_shapes,
                                            tset.tile_width,
                                            tset.tile_height,
                                            ax,
                                            ay,
                                            layer.z as i64,
                                            &mut out,
                                        );
                                    }
                                },
                                None => {},
                            }
                            proof {
                                assert(out.deep_view() =~= spec_colliders_upto(
                                    dv,
                                    (ts * nl + li) as nat,
                                ) + spec_pair_colliders_upto(dv, ts as int, li as int, (i + 1) as nat));
                            }
                            i = i + 1;
                        }
                        proof {
                            assert(spec_pair_colliders(dv, ts as int, li as int)
                                == spec_pair_colliders_upto(
                                dv,
                                ts as int,
                                li as int,
                                (dv.width * dv.height) as nat,
                            ));
                            assert(out.deep_view() =~= spec_colliders_upto(dv, (n + 1) as nat));
                        }
                    } else {
                        proof {
                            assert(!pair_scanned(dv, ts as int, li as int));
                            assert(out.deep_view() =~= spec_colliders_upto(dv, (n + 1) as nat));
                        }
                    }
                },
                _ => {
                    proof {
                        assert(!pair_scanned(dv, ts as int, li as int));
                        assert(out.deep_view() =~= spec_colliders_upto(dv, (n + 1) as nat));
                    }
                },
            }
            li = li + 1;
        }
        ts = ts + 1;
        proof {
            assert(ts as int * nl as int == (ts - 1) as int * nl as int + nl as int)
                by (nonlinear_arith);
        }
    }
    out
}

} // verus!
