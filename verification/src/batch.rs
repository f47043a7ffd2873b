//! Grouping of tile references into dense renderable batches, one per
//! (tileset, layer) pair that actually contributes at least one cell. A
//! renderable unit may draw from only one texture atlas, while source
//! layers may mix tilesets freely, so every layer is scanned once per
//! tileset and a cell joins the batch only when its reference points into
//! the tileset under consideration. A pair whose scan finds no cell
//! produces no batch at all.

use vstd::prelude::*;
use vstd::arithmetic::div_mod::{
    lemma_fundamental_div_mod_converse, lemma_mod_pos_bound, lemma_multiply_divide_lt,
};

use crate::document::{
    doc_wf, layer_wf, DocumentView, Layer, LayerView, TileLayerView, TileMapDocument,
};
use crate::geometry::{axis_center, flip_row, WorldPos, WorldPosView};
use crate::props::{bag_lookup_int, has_logic_prefix, is_logic_name, PropertyBag, PropertyView};

verus! {

/// One populated cell of a render batch: the texture index inside the
/// batch's tileset and the three flip flags.
#[derive(Clone, Copy, PartialEq, Eq, Structural, Debug)]
pub struct BatchCell {
    pub texture_index: u32,
    pub flip_h: bool,
    pub flip_v: bool,
    pub flip_d: bool,
}

impl DeepView for BatchCell {
    type V = BatchCell;

    open spec fn deep_view(&self) -> BatchCell {
        *self
    }
}

/// A renderable unit: all cells of one layer that draw from one tileset,
/// as a dense row-major grid with row 0 at the bottom of the world, plus
/// the world translation of the whole grid and the pixel geometry the
/// renderer needs.
#[derive(Clone, Debug)]
pub struct RenderBatch {
    pub tileset_index: usize,
    pub layer_index: usize,
    pub z: i32,
    pub translation: WorldPos,
    pub width: u32,
    pub height: u32,
    pub grid_tile_width: u32,
    pub grid_tile_height: u32,
    pub tile_width: u32,
    pub tile_height: u32,
    pub spacing: u32,
    pub cells: Vec<Option<BatchCell>>,
}

/// View of a render batch.
pub struct RenderBatchView {
    pub tileset_index: int,
    pub layer_index: int,
    pub z: i32,
    pub translation: WorldPosView,
    pub width: u32,
    pub height: u32,
    pub grid_tile_width: u32,
    pub grid_tile_height: u32,
    pub tile_width: u32,
    pub tile_height: u32,
    pub spacing: u32,
    pub cells: Seq<Option<BatchCell>>,
}

impl DeepView for RenderBatch {
    type V = RenderBatchView;

    open spec fn deep_view(&self) -> RenderBatchView {
        RenderBatchView {
            tileset_index: self.tileset_index as int,
            layer_index: self.layer_index as int,
            z: self.z,
            translation: self.translation.deep_view(),
            width: self.width,
            height: self.height,
            grid_tile_width: self.grid_tile_width,
            grid_tile_height: self.grid_tile_height,
            tile_width: self.tile_width,
            tile_height: self.tile_height,
            spacing: self.spacing,
            cells: self.cells.deep_view(),
        }
    }
}

/// The tile layer held by a layer view; meaningful only when the layer is
/// a tile layer.
pub open spec fn layer_tiles(l: LayerView) -> TileLayerView {
    match l {
        LayerView::Tiles(t) => t,
        _ => arbitrary(),
    }
}

/// A layer may declare an integer `tileset_index` property that restricts
/// its batching to that single tileset; every other tileset's scan of the
/// layer is skipped.
pub open spec fn restriction_passes(props: Seq<PropertyView>, ts: int) -> bool {
    match bag_lookup_int(props, "tileset_index"@) {
        Some(v) => v == ts,
        None => true,
    }
}

/// Whether the scan of layer `li` on behalf of tileset `ts` takes place:
/// the layer is a tile layer, not a logic layer, the tileset has a
/// resolved texture, and the layer's tileset restriction (if any) names
/// `ts`.
pub open spec fn pair_scanned(d: DocumentView, ts: int, li: int) -> bool {
    &&& d.tilesets[ts].texture is Some
    &&& match d.layers[li] {
        LayerView::Tiles(t) => !is_logic_name(t.name) && restriction_passes(t.properties, ts),
        _ => false,
    }
}

/// The batch cell at destination index `i` (row-major, rows counted from
/// the bottom of the world): the source cell at the flipped row, kept only
/// when its reference points into tileset `ts`.
pub open spec fn spec_batch_cell(d: DocumentView, ts: int, t: TileLayerView, i: int) -> Option<
    BatchCell,
> {
    let w = d.width as int;
    let h = d.height as int;
    let x = i % w;
    let yw = i / w;
    match t.cells[flip_row(h, yw) * w + x] {
        Some(r) => if r.tileset_index == ts {
            Some(
                BatchCell {
                    texture_index: r.tile_id,
                    flip_h: r.flip_h,
                    flip_v: r.flip_v,
                    flip_d: r.flip_d,
                },
            )
        } else {
            None
        },
        None => None,
    }
}

/// The full cell grid a scan of pair (`ts`, `li`) produces.
pub open spec fn spec_batch_cells(d: DocumentView, ts: int, li: int) -> Seq<Option<BatchCell>> {
    Seq::new(
        (d.width * d.height) as nat,
        |i: int| spec_batch_cell(d, ts, layer_tiles(d.layers[li]), i),
    )
}

/// Whether at least one cell of the grid is populated.
pub open spec fn cells_occupied(cells: Seq<Option<BatchCell>>) -> bool {
    exists|i: int| 0 <= i < cells.len() && cells[i] is Some
}

/// World translation of a whole layer grid: the map centered on the
/// origin, shifted by the layer's pixel offset with the vertical sign
/// inverted, at the layer's depth.
pub open spec fn layer_translation(d: DocumentView, t: TileLayerView) -> WorldPosView {
    WorldPosView {
        x: axis_center(0, d.width as int, d.tile_width as int, t.offset_x as int),
        y: axis_center(0, d.height as int, d.tile_height as int, -(t.offset_y as int)),
        z: t.z as int,
    }
}

/// The batch that pair (`ts`, `li`) contributes: none when the pair is not
/// scanned or when the scan finds no populated cell.
pub open spec fn spec_pair_batch(d: DocumentView, ts: int, li: int) -> Option<RenderBatchView> {
    if pair_scanned(d, ts, li) && cells_occupied(spec_batch_cells(d, ts, li)) {
        let t = layer_tiles(d.layers[li]);
        Some(
            RenderBatchView {
                tileset_index: ts,
                layer_index: li,
                z: t.z,
                translation: layer_translation(d, t),
                width: d.width,
                height: d.height,
                grid_tile_width: d.tile_width,
                grid_tile_height: d.tile_height,
                tile_width: d.tilesets[ts].tile_width,
                tile_height: d.tilesets[ts].tile_height,
                spacing: d.tilesets[ts].spacing,
                cells: spec_batch_cells(d, ts, li),
            },
        )
    } else {
        None
    }
}

/// A singleton or empty sequence out of an optional value.
pub open spec fn opt_seq<T>(o: Option<T>) -> Seq<T> {
    match o {
        Some(v) => seq![v],
        None => Seq::empty(),
    }
}

/// The batches of the first `n` (tileset, layer) pairs, pairs ordered by
/// tileset first and layer second.
pub open spec fn spec_batches_upto(d: DocumentView, n: nat) -> Seq<RenderBatchView>
    decreases n,
{
    if n == 0 || d.layers.len() == 0 {
        Seq::empty()
    } else {
        let l = d.layers.len() as int;
        let k = (n - 1) as int;
        spec_batches_upto(d, (n - 1) as nat) + opt_seq(spec_pair_batch(d, k / l, k % l))
    }
}

/// All render batches of a document, in (tileset, layer) order.
pub open spec fn spec_batches(d: DocumentView) -> Seq<RenderBatchView> {
    spec_batches_upto(d, (d.tilesets.len() * d.layers.len()) as nat)
}

/// Every batch of the first `n` pairs has at least one populated cell.
proof fn lemma_batches_upto_occupied(d: DocumentView, n: nat)
    ensures
        forall|k: int|
            0 <= k < spec_batches_upto(d, n).len() ==> cells_occupied(
                (#[trigger] spec_batches_upto(d, n)[k]).cells,
            ),
    decreases n,
{
    if n > 0 && d.layers.len() > 0 {
        lemma_batches_upto_occupied(d, (n - 1) as nat);
        let l = d.layers.len() as int;
        let k = (n - 1) as int;
        assert forall|j: int|
            0 <= j < spec_batches_upto(d, n).len() implies cells_occupied(
            (#[trigger] spec_batches_upto(d, n)[j]).cells,
        ) by {
            if j < spec_batches_upto(d, (n - 1) as nat).len() {
                assert(spec_batches_upto(d, n)[j] == spec_batches_upto(d, (n - 1) as nat)[j]);
            } else {
                assert(spec_batches_upto(d, n)[j] == spec_pair_batch(d, k / l, k % l)->Some_0);
            }
        }
    }
}

/// No batch is ever produced without a populated cell: a (tileset, layer)
/// combination is a render batch only while it draws something.
pub proof fn lemma_no_empty_batches(d: DocumentView)
    ensures
        forall|k: int|
            0 <= k < spec_batches(d).len() ==> cells_occupied(
                (#[trigger] spec_batches(d)[k]).cells,
            ),
{
    lemma_batches_upto_occupied(d, (d.tilesets.len() * d.layers.len()) as nat);
}

/// The batch a flat pair index contributes.
pub open spec fn pair_source(d: DocumentView, m: int) -> Option<RenderBatchView> {
    spec_pair_batch(d, m / d.layers.len() as int, m % d.layers.len() as int)
}

/// Every batch among the first `n` pairs' batches comes from one of those
/// pairs.
proof fn lemma_batches_upto_sources(d: DocumentView, n: nat)
    ensures
        forall|k: int|
            0 <= k < spec_batches_upto(d, n).len() ==> exists|m: int|
                0 <= m < n && #[trigger] pair_source(d, m) == Some(
                    #[trigger] spec_batches_upto(d, n)[k],
                ),
    decreases n,
{
    if n > 0 && d.layers.len() > 0 {
        lemma_batches_upto_sources(d, (n - 1) as nat);
        let l = d.layers.len() as int;
        let k = (n - 1) as int;
        assert forall|j: int|
            0 <= j < spec_batches_upto(d, n).len() implies exists|m: int|
            0 <= m < n && #[trigger] pair_source(d, m) == Some(
                #[trigger] spec_batches_upto(d, n)[j],
            ) by {
            if j < spec_batches_upto(d, (n - 1) as nat).len() {
                assert(spec_batches_upto(d, n)[j] == spec_batches_upto(d, (n - 1) as nat)[j]);
                let m = choose|m: int|
                    0 <= m < n - 1 && #[trigger] pair_source(d, m) == Some(
                        spec_batches_upto(d, (n - 1) as nat)[j],
                    );
                assert(pair_source(d, m) == Some(spec_batches_upto(d, n)[j]));
            } else {
                assert(spec_batches_upto(d, n)[j] == spec_pair_batch(d, k / l, k % l)->Some_0);
                assert(pair_source(d, k) == Some(spec_batches_upto(d, n)[j]));
            }
        }
    }
}

/// A (tileset, layer) combination whose scan finds no populated cell —
/// for instance one whose every cell references a different tileset —
/// yields no render batch at all.
pub proof fn lemma_empty_combination_elided(d: DocumentView, ts: int, li: int)
    requires
        0 <= ts < d.tilesets.len(),
        0 <= li < d.layers.len(),
        !cells_occupied(spec_batch_cells(d, ts, li)),
    ensures
        forall|k: int|
            0 <= k < spec_batches(d).len() ==> !((#[trigger] spec_batches(d)[k]).tileset_index
                == ts && spec_batches(d)[k].layer_index == li),
{
    let n = (d.tilesets.len() * d.layers.len()) as nat;
    let l = d.layers.len() as int;
    lemma_batches_upto_sources(d, n);
    assert forall|k: int|
        0 <= k < spec_batches(d).len() implies !((#[trigger] spec_batches(d)[k]).tileset_index
        == ts && spec_batches(d)[k].layer_index == li) by {
        let b = spec_batches(d)[k];
        let m = choose|m: int|
            0 <= m < n && #[trigger] pair_source(d, m) == Some(spec_batches_upto(d, n)[k]);
        if b.tileset_index == ts && b.layer_index == li {
            assert(pair_source(d, m) == Some(b));
            assert(m / l == ts && m % l == li);
            assert(cells_occupied(spec_batch_cells(d, ts, li)));
        }
    }
}

/// Executable check of the layer's tileset restriction.
pub(crate) fn restriction_ok_exec(props: &PropertyBag, ts: usize) -> (r: bool)
    ensures
        r == restriction_passes(props.deep_view(), ts as int),
{
    match props.get_int("tileset_index") {
        Some(v) => v >= 0 && (v as usize) == ts,
        None => true,
    }
}

/// Scans one tile layer on behalf of one tileset: builds the dense cell
/// grid (rows flipped into the bottom-up world order, cells of other
/// tilesets left empty) and reports whether any cell is populated.
pub fn scan_layer_cells(doc: &TileMapDocument, ts: usize, li: usize) -> (r: (
    Vec<Option<BatchCell>>,
    bool,
))
    requires
        doc_wf(doc.deep_view()),
        li < doc.deep_view().layers.len(),
        doc.deep_view().layers[li as int] is Tiles,
    ensures
        r.0.deep_view() == spec_batch_cells(doc.deep_view(), ts as int, li as int),
        r.1 == cells_occupied(spec_batch_cells(doc.deep_view(), ts as int, li as int)),
{
    let ghost dv = doc.deep_view();
    let ghost target = spec_batch_cells(dv, ts as int, li as int);
    proof {
        assert(layer_wf(dv, dv.layers[li as int]));
    }
    match &doc.layers[li] {
        Layer::Tiles(layer) => {
            let w = doc.width as usize;
            let h = doc.height as usize;
            assert(w * h <= 0x4000_0000) by (nonlinear_arith)
                requires
                    0 <= w <= 32768,
                    0 <= h <= 32768,
            ;
            let total = w * h;
            let mut out: Vec<Option<BatchCell>> = Vec::new();
            let mut any = false;
            let mut i: usize = 0;
            while i < total
                invariant
                    doc_wf(dv),
                    dv == doc.deep_view(),
                    li < dv.layers.len(),
                    dv.layers[li as int] == LayerView::Tiles(layer.deep_view()),
                    w == dv.width && h == dv.height,
                    total == w * h,
                    target == spec_batch_cells(dv, ts as int, li as int),
                    target.len() == total,
                    i <= total,
                    out.deep_view() == target.subrange(0, i as int),
                    any == cells_occupied(target.subrange(0, i as int)),
                decreases total - i,
            {
                let x = i % w;
                let yw = i / w;
                proof {
                    lemma_mod_pos_bound(i as int, w as int);
                    lemma_multiply_divide_lt(i as int, w as int, h as int);
                }
                let src_row = h - 1 - yw;
                assert(src_row * w + x < h * w && src_row * w + x >= 0) by (nonlinear_arith)
                    requires
                        0 <= src_row < h,
                        0 <= x < w,
                        0 < w,
                ;
                assert(h * w == w * h) by (nonlinear_arith);
                let src_idx = src_row * w + x;
                let cell: Option<BatchCell> = match &layer.cells[src_idx] {
                    Some(r) => {
                        if r.tileset_index == ts {
                            Some(
                                BatchCell {
                                    texture_index: r.tile_id,
                                    flip_h: r.flip_h,
                                    flip_v: r.flip_v,
                                    flip_d: r.flip_d,
                                },
                            )
                        } else {
                            None
                        }
                    },
                    None => None,
                };
                proof {
                    assert(cell == target[i as int]);
                }
                if cell.is_some() {
                    any = true;
                }
                out.push(cell);
                proof {
                    let s0 = target.subrange(0, i as int);
                    let s1 = target.subrange(0, i as int + 1);
                    assert(s1 =~= s0.push(target[i as int]));
                    assert(out.deep_view() =~= s1);
                    if cells_occupied(s0) {
                        let j = choose|j: int| 0 <= j < s0.len() && s0[j] is Some;
                        assert(s1[j] is Some);
                    }
                    if target[i as int] is Some {
                        assert(s1[i as int] is Some);
                    }
                    if cells_occupied(s1) && !cells_occupied(s0) && !(target[i as int] is Some) {
                        let j = choose|j: int| 0 <= j < s1.len() && s1[j] is Some;
                        assert(s0[j] is Some);
                    }
                }
                i = i + 1;
            }
            proof {
                assert(target.subrange(0, total as int) =~= target);
            }
            (out, any)
        },
        _ => unreached(),
    }
}

/// Builds every render batch of the document: for each tileset in order,
/// each non-logic tile layer whose restriction admits the tileset is
/// scanned, and the scan's grid becomes a batch only when it has at least
/// one populated cell.
pub fn build_batches(doc: &TileMapDocument) -> (r: Vec<RenderBatch>)
    requires
        doc_wf(doc.deep_view()),
    ensures
        r.deep_view() == spec_batches(doc.deep_view()),
{
    let ghost dv = doc.deep_view();
    let nts = doc.tilesets.len();
    let nl = doc.layers.len();
    let mut out: Vec<RenderBatch> = Vec::new();
    let mut ts: usize = 0;
    while ts < nts
        invariant
            doc_wf(dv),
            dv == doc.deep_view(),
            nts == dv.tilesets.len(),
            nl == dv.layers.len(),
            ts <= nts,
            out.deep_view() == spec_batches_upto(dv, (ts * nl) as nat),
        decreases nts - ts,
    {
        let mut li: usize = 0;
        while li < nl
            invariant
                doc_wf(dv),
                dv == doc.deep_view(),
                nts == dv.tilesets.len(),
                nl == dv.layers.len(),
                ts < nts,
                li <= nl,
                out.deep_view() == spec_batches_upto(dv, (ts * nl + li) as nat),
            decreases nl - li,
        {
            proof {
                lemma_fundamental_div_mod_converse(
                    ts as int * nl as int + li as int,
                    nl as int,
                    ts as int,
                    li as int,
                );
                assert(layer_wf(dv, dv.layers[li as int]));
            }
            let ghost n: int = ts as int * nl as int + li as int;
            match &doc.layers[li] {
                Layer::Tiles(layer) => {
                    let tex_some = doc.tilesets[ts].texture.is_some();
                    let logic = has_logic_prefix(layer.name.as_str());
                    let restr = restriction_ok_exec(&layer.properties, ts);
                    if tex_some && !logic && restr {
                        proof {
                            assert(pair_scanned(dv, ts as int, li as int));
                        }
                        let (cells, any) = scan_layer_cells(doc, ts, li);
                        if any {
                            let tx = crate::geometry::axis_center_exec(
                                0,
                                doc.width,
                                doc.tile_width,
                                layer.offset_x,
                            );
                            let ty = crate::geometry::axis_center_exec(
                                0,
                                doc.height,
                                doc.tile_height,
                                -layer.offset_y,
                            );
                            let b = RenderBatch {
                                tileset_index: ts,
                                layer_index: li,
                                z: layer.z,
                                translation: WorldPos { x: tx, y: ty, z: layer.z as i64 },
                                width: doc.width,
                                height: doc.height,
                                grid_tile_width: doc.tile_width,
                                grid_tile_height: doc.tile_height,
                                tile_width: doc.tilesets[ts].tile_width,
                                tile_height: doc.tilesets[ts].tile_height,
                                spacing: doc.tilesets[ts].spacing,
                                cells,
                            };
                            proof {
                                assert(spec_pair_batch(dv, ts as int, li as int) == Some(
                                    b.deep_view(),
                                ));
                            }
                            out.push(b);
                            proof {
                                assert(out.deep_view() =~= spec_batches_upto(dv, (n + 1) as nat));
                            }
                        } else {
                            proof {
                                assert(spec_pair_batch(dv, ts as int, li as int) is None);
                                assert(out.deep_view() =~= spec_batches_upto(dv, (n + 1) as nat));
                            }
                        }
                    } else {
                        proof {
                            assert(!pair_scanned(dv, ts as int, li as int));
                            assert(out.deep_view() =~= spec_batches_upto(dv, (n + 1) as nat));
                        }
                    }
                },
                _ => {
                    proof {
                        assert(!pair_scanned(dv, ts as int, li as int));
                        assert(out.deep_view() =~= spec_batches_upto(dv, (n + 1) as nat));
                    }
                },
            }
            li = li + 1;
        }
        ts = ts + 1;
        proof {
            assert(ts as int * nl as int == (ts - 1) as int * nl as int + nl as int)
                by (nonlinear_arith);
        }
    }
    out
}

} // verus!
