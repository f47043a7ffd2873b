//! Resolution of logic layers: tile layers whose name starts with the
//! logic marker overlay per-cell gameplay data onto a named sibling visual
//! layer. A valid logic layer declares a string `parent` property; it then
//! yields a dense grid of raw tile ids (zero where a cell is empty),
//! indexed by the same mapped scheme as every other output of the
//! pipeline — row 0 at the bottom of the world, rows flipped from the
//! top-down source order — and queryable by the parent layer's name. A
//! logic layer without a string `parent` property is skipped entirely.

use vstd::prelude::*;
use vstd::arithmetic::div_mod::{lemma_mod_pos_bound, lemma_multiply_divide_lt};

use crate::batch::opt_seq;
use crate::document::{doc_wf, layer_wf, DocumentView, Layer, LayerView, TileMapDocument, TileRef};
use crate::geometry::{flip_row, MAX_MAP_DIM};
use crate::props::{bag_lookup_str, has_logic_prefix, is_logic_name};

verus! {

/// The dense raw-id grid a logic layer contributes, keyed by the name of
/// its parent visual layer.
#[derive(Clone, Debug)]
pub struct LogicGrid {
    pub parent: String,
    pub cells: Vec<u32>,
}

/// View of a logic grid.
pub struct LogicGridView {
    pub parent: Seq<char>,
    pub cells: Seq<u32>,
}

impl DeepView for LogicGrid {
    type V = LogicGridView;

    open spec fn deep_view(&self) -> LogicGridView {
        LogicGridView { parent: self.parent@, cells: self.cells.deep_view() }
    }
}

/// The raw tile id at each mapped grid index (row-major, rows counted
/// from the bottom of the world): index `i` holds the id of the source
/// cell at column `i % w` and flipped row `h - 1 - i / w`, zero where that
/// cell is empty.
pub open spec fn spec_logic_cells(cells: Seq<Option<TileRef>>, w: int, h: int) -> Seq<u32> {
    Seq::new(
        cells.len(),
        |i: int|
            {
                let x = i % w;
                let yw = i / w;
                match cells[flip_row(h, yw) * w + x] {
                    Some(r) => r.tile_id,
                    None => 0u32,
                }
            },
    )
}

/// The grid layer `li` contributes: present exactly when the layer is a
/// tile layer, carries the logic name marker and declares a string
/// `parent` property.
pub open spec fn spec_layer_logic(d: DocumentView, li: int) -> Option<LogicGridView> {
    match d.layers[li] {
        LayerView::Tiles(t) => if is_logic_name(t.name) {
            match bag_lookup_str(t.properties, "parent"@) {
                Some(p) => Some(
                    LogicGridView {
                        parent: p,
                        cells: spec_logic_cells(t.cells, d.width as int, d.height as int),
                    },
                ),
                None => None,
            }
        } else {
            None
        },
        _ => None,
    }
}

/// The grids of the first `n` layers, in layer order.
pub open spec fn spec_logic_upto(d: DocumentView, n: nat) -> Seq<LogicGridView>
    decreases n,
{
    if n == 0 {
        Seq::empty()
    } else {
        spec_logic_upto(d, (n - 1) as nat) + opt_seq(spec_layer_logic(d, n as int - 1))
    }
}

/// All logic grids of a document, in layer order.
pub open spec fn spec_logic_grids(d: DocumentView) -> Seq<LogicGridView> {
    spec_logic_upto(d, d.layers.len())
}

/// Materializes the dense raw-id grid of one tile layer, flipping the
/// top-down source rows into the bottom-up mapped order.
fn layer_logic_cells(cells: &Vec<Option<TileRef>>, width: u32, height: u32) -> (r: Vec<u32>)
    requires
        0 < width <= MAX_MAP_DIM,
        0 < height <= MAX_MAP_DIM,
        cells@.len() == width * height,
    ensures
        r.deep_view() == spec_logic_cells(cells.deep_view(), width as int, height as int),
{
    let ghost w_spec = width as int;
    let ghost h_spec = height as int;
    let w = width as usize;
    let h = height as usize;
    let n = cells.len();
    let mut out: Vec<u32> = Vec::new();
    let mut i: usize = 0;
    while i < n
        invariant
            0 < w <= MAX_MAP_DIM,
            0 < h <= MAX_MAP_DIM,
            w_spec == w && h_spec == h,
            n == cells@.len(),
            n == w * h,
            i <= n,
            out.deep_view() == spec_logic_cells(cells.deep_view(), w_spec, h_spec).subrange(
                0,
                i as int,
            ),
        decreases n - i,
    {
        let x = i % w;
        let yw = i / w;
        proof {
            lemma_mod_pos_bound(i as int, w as int);
            lemma_multiply_divide_lt(i as int, w as int, h as int);
        }
        let src_row = h - 1 - yw;
        assert(src_row * w + x < h * w && src_row * w + x >= 0) by (nonlinear_arith)
            requires
                0 <= src_row < h,
                0 <= x < w,
                0 < w,
        ;
        assert(h * w == w * h) by (nonlinear_arith);
        let src_idx = src_row * w + x;
        let v: u32 = match &cells[src_idx] {
            Some(r) => r.tile_id,
            None => 0,
        };
        let ghost prev = out.deep_view();
        out.push(v);
        proof {
            let cd = cells.deep_view();
            assert(cd[src_idx as int] == cells@[src_idx as int]);
            assert(spec_logic_cells(cd, w_spec, h_spec)[i as int] == v);
            assert(out.deep_view() =~= prev.push(v));
            assert(out.deep_view() =~= spec_logic_cells(cd, w_spec, h_spec).subrange(
                0,
                i as int + 1,
            ));
        }
        i = i + 1;
    }
    proof {
        assert(spec_logic_cells(cells.deep_view(), w_spec, h_spec).subrange(0, n as int)
            =~= spec_logic_cells(cells.deep_view(), w_spec, h_spec));
    }
    out
}

/// Scans every layer and materializes one grid per valid logic layer, in
/// layer order.
pub fn resolve_logic_layers(doc: &TileMapDocument) -> (r: Vec<LogicGrid>)
    requires
        doc_wf(doc.deep_view()),
    ensures
        r.deep_view() == spec_logic_grids(doc.deep_view()),
{
    let ghost dv = doc.deep_view();
    let nl = doc.layers.len();
    let mut out: Vec<LogicGrid> = Vec::new();
    let mut li: usize = 0;
    while li < nl
        invariant
            doc_wf(dv),
            dv == doc.deep_view(),
            nl == dv.layers.len(),
            li <= nl,
            out.deep_view() == spec_logic_upto(dv, li as nat),
        decreases nl - li,
    {
        proof {
            assert(layer_wf(dv, dv.layers[li as int]));
        }
        match &doc.layers[li] {
            Layer::Tiles(layer) => {
                if has_logic_prefix(layer.name.as_str()) {
                    match layer.properties.get_str("parent") {
                        Some(p) => {
                            let grid = LogicGrid {
                                parent: p.clone(),
                                cells: layer_logic_cells(&layer.cells, doc.width, doc.height),
                            };
                            proof {
                                assert(spec_layer_logic(dv, li as int) == Some(grid.deep_view()));
                            }
                            out.push(grid);
                            proof {
                                assert(out.deep_view() =~= spec_logic_upto(dv, (li + 1) as nat));
                            }
                        },
                        None => {
                            proof {
                                assert(spec_layer_logic(dv, li as int) is None);
                                assert(out.deep_view() =~= spec_logic_upto(dv, (li + 1) as nat));
                            }
                        },
                    }
                } else {
                    proof {
                        assert(spec_layer_logic(dv, li as int) is None);
                        assert(out.deep_view() =~= spec_logic_upto(dv, (li + 1) as nat));
                    }
                }
            },
            _ => {
                proof {
                    assert(spec_layer_logic(dv, li as int) is None);
                    assert(out.deep_view() =~= spec_logic_upto(dv, (li + 1) as nat));
                }
            },
        }
        li = li + 1;
    }
    out
}

/// The raw-id grid registered for a parent layer name, if any; when
/// several logic layers name the same parent, the last one wins.
pub open spec fn spec_logic_lookup(grids: Seq<LogicGridView>, parent: Seq<char>) -> Option<
    Seq<u32>,
>
    decreases grids.len(),
{
    if grids.len() == 0 {
        None
    } else if grids.last().parent == parent {
        Some(grids.last().cells)
    } else {
        spec_logic_lookup(grids.drop_last(), parent)
    }
}

/// Finds the grid registered for a parent layer name.
pub fn logic_lookup<'a>(grids: &'a Vec<LogicGrid>, parent: &str) -> (r: Option<&'a Vec<u32>>)
    ensures
        match r {
            Some(c) => spec_logic_lookup(grids.deep_view(), parent@) == Some(c.deep_view()),
            None => spec_logic_lookup(grids.deep_view(), parent@) is None,
        },
{
    let n = grids.len();
    let mut i: usize = n;
    proof {
        assert(grids.deep_view().take(n as int) =~= grids.deep_view());
    }
    while i > 0
        invariant
            n == grids@.len(),
            i <= n,
            spec_logic_lookup(grids.deep_view(), parent@) == spec_logic_lookup(
                grids.deep_view().take(i as int),
                parent@,
            ),
        decreases i,
    {
        i = i - 1;
        proof {
            assert(grids.deep_view().take(i as int + 1).last() == grids.deep_view()[i as int]);
            assert(grids.deep_view().take(i as int + 1).drop_last() =~= grids.deep_view().take(
                i as int,
            ));
        }
        if crate::props::str_eq(grids[i].parent.as_str(), parent) {
            return Some(&grids[i].cells);
        }
    }
    proof {
        assert(grids.deep_view().take(0) =~= Seq::<LogicGridView>::empty());
    }
    None
}

} // verus!
