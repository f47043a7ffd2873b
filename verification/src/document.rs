//! The in-memory model of a loaded level document: a map header, an
//! ordered list of tilesets and an ordered list of layers. The
//! well-formedness predicate `doc_wf` is established by the loader and is
//! what every downstream computation relies on to stay in bounds.

use vstd::prelude::*;

use crate::geometry::{MapFrame, Orientation, frame_wf, MAX_SUBPIX, MAX_TILE_PIXELS};
use crate::props::{PropertyBag, PropertyView};

verus! {

/// One grid cell's reference into a tileset, with flip flags.
#[derive(Clone, Copy, PartialEq, Eq, Structural, Debug)]
pub struct TileRef {
    pub tileset_index: usize,
    pub tile_id: u32,
    pub flip_h: bool,
    pub flip_v: bool,
    pub flip_d: bool,
}

impl DeepView for TileRef {
    type V = TileRef;

    open spec fn deep_view(&self) -> TileRef {
        *self
    }
}

/// Extent of a collision shape, in subpixels. Kinds other than rectangles
/// and ellipses are represented but carry no supported geometry.
#[derive(Clone, Copy, PartialEq, Eq, Structural, Debug)]
pub enum ShapeKind {
    Rect { width: i64, height: i64 },
    Ellipse { width: i64, height: i64 },
    Other,
}

/// A collision shape declared on a tile, anchored at its own top-left
/// corner `(local_x, local_y)` in tile-local subpixels.
#[derive(Clone, Copy, PartialEq, Eq, Structural, Debug)]
pub struct CollisionShape {
    pub local_x: i64,
    pub local_y: i64,
    pub kind: ShapeKind,
}

impl DeepView for CollisionShape {
    type V = CollisionShape;

    open spec fn deep_view(&self) -> CollisionShape {
        *self
    }
}

/// Per-tile definition: an optional position in the tileset's per-tile
/// image list, declared collision shapes, and a property bag.
#[derive(Clone, Debug)]
pub struct TileDef {
    pub image: Option<usize>,
    pub collision_shapes: Vec<CollisionShape>,
    pub properties: PropertyBag,
}

/// View of a tile definition.
pub struct TileDefView {
    pub image: Option<usize>,
    pub collision_shapes: Seq<CollisionShape>,
    pub properties: Seq<PropertyView>,
}

impl DeepView for TileDef {
    type V = TileDefView;

    open spec fn deep_view(&self) -> TileDefView {
        TileDefView {
            image: self.image,
            collision_shapes: self.collision_shapes.deep_view(),
            properties: self.properties.deep_view(),
        }
    }
}

/// Where a tileset's pixels come from: one shared sheet, or one image per
/// tile, listed in the order the per-tile bookkeeping assigns. Texture
/// handles index the dependency list returned by the loader.
#[derive(Clone, Debug)]
pub enum TilesetTexture {
    Sheet(usize),
    PerTile(Vec<usize>),
}

/// View of a tileset texture.
pub enum TilesetTextureView {
    Sheet(usize),
    PerTile(Seq<usize>),
}

impl DeepView for TilesetTexture {
    type V = TilesetTextureView;

    open spec fn deep_view(&self) -> TilesetTextureView {
        match self {
            TilesetTexture::Sheet(h) => TilesetTextureView::Sheet(*h),
            TilesetTexture::PerTile(v) => TilesetTextureView::PerTile(v.deep_view()),
        }
    }
}

/// A tileset: tile pixel size, atlas spacing, resolved texture (absent
/// when the source declared no resolvable image) and per-tile definitions
/// indexed densely by tile id.
#[derive(Clone, Debug)]
pub struct Tileset {
    pub tile_width: u32,
    pub tile_height: u32,
    pub spacing: u32,
    pub texture: Option<TilesetTexture>,
    pub tiles: Vec<TileDef>,
}

/// View of a tileset.
pub struct TilesetView {
    pub tile_width: u32,
    pub tile_height: u32,
    pub spacing: u32,
    pub texture: Option<TilesetTextureView>,
    pub tiles: Seq<TileDefView>,
}

impl DeepView for Tileset {
    type V = TilesetView;

    open spec fn deep_view(&self) -> TilesetView {
        TilesetView {
            tile_width: self.tile_width,
            tile_height: self.tile_height,
            spacing: self.spacing,
            texture: match self.texture {
                Some(ref t) => Some(t.deep_view()),
                None => None,
            },
            tiles: self.tiles.deep_view(),
        }
    }
}

/// A dense tile layer: a row-major grid of optional tile references (row 0
/// at the top, as the source numbers them), a pixel offset in subpixels, a
/// depth and a property bag.
#[derive(Clone, Debug)]
pub struct TileLayer {
    pub name: String,
    pub offset_x: i64,
    pub offset_y: i64,
    pub z: i32,
    pub properties: PropertyBag,
    pub cells: Vec<Option<TileRef>>,
}

/// View of a tile layer.
pub struct TileLayerView {
    pub name: Seq<char>,
    pub offset_x: i64,
    pub offset_y: i64,
    pub z: i32,
    pub properties: Seq<PropertyView>,
    pub cells: Seq<Option<TileRef>>,
}

impl DeepView for TileLayer {
    type V = TileLayerView;

    open spec fn deep_view(&self) -> TileLayerView {
        TileLayerView {
            name: self.name@,
            offset_x: self.offset_x,
            offset_y: self.offset_y,
            z: self.z,
            properties: self.properties.deep_view(),
            cells: self.cells.deep_view(),
        }
    }
}

/// A freeform placed object: a kind tag, a source-frame position in
/// subpixels (y down, from the map's top-left corner) and a property bag.
#[derive(Clone, Debug)]
pub struct PlacedObject {
    pub kind_tag: String,
    pub x: i64,
    pub y: i64,
    pub properties: PropertyBag,
}

/// View of a placed object.
pub struct PlacedObjectView {
    pub kind_tag: Seq<char>,
    pub x: i64,
    pub y: i64,
    pub properties: Seq<PropertyView>,
}

impl DeepView for PlacedObject {
    type V = PlacedObjectView;

    open spec fn deep_view(&self) -> PlacedObjectView {
        PlacedObjectView {
            kind_tag: self.kind_tag@,
            x: self.x,
            y: self.y,
            properties: self.properties.deep_view(),
        }
    }
}

/// An object layer: a name, a pixel offset in subpixels and the placed
/// objects in document order.
#[derive(Clone, Debug)]
pub struct ObjectLayer {
    pub name: String,
    pub offset_x: i64,
    pub offset_y: i64,
    pub objects: Vec<PlacedObject>,
}

/// View of an object layer.
pub struct ObjectLayerView {
    pub name: Seq<char>,
    pub offset_x: i64,
    pub offset_y: i64,
    pub objects: Seq<PlacedObjectView>,
}

impl DeepView for ObjectLayer {
    type V = ObjectLayerView;

    open spec fn deep_view(&self) -> ObjectLayerView {
        ObjectLayerView {
            name: self.name@,
            offset_x: self.offset_x,
            offset_y: self.offset_y,
            objects: self.objects.deep_view(),
        }
    }
}

/// A layer of the document. Kinds the pipeline cannot process (infinite
/// grids, image layers, groups) are kept as `Unsupported` so that layer
/// indices match the source document; processing skips them.
#[derive(Clone, Debug)]
pub enum Layer {
    Tiles(TileLayer),
    Objects(ObjectLayer),
    Unsupported,
}

/// View of a layer.
pub enum LayerView {
    Tiles(TileLayerView),
    Objects(ObjectLayerView),
    Unsupported,
}

impl DeepView for Layer {
    type V = LayerView;

    open spec fn deep_view(&self) -> LayerView {
        match self {
            Layer::Tiles(l) => LayerView::Tiles(l.deep_view()),
            Layer::Objects(l) => LayerView::Objects(l.deep_view()),
            Layer::Unsupported => LayerView::Unsupported,
        }
    }
}

/// A loaded level document.
#[derive(Clone, Debug)]
pub struct TileMapDocument {
    pub width: u32,
    pub height: u32,
    pub tile_width: u32,
    pub tile_height: u32,
    pub orientation: Orientation,
    pub tilesets: Vec<Tileset>,
    pub layers: Vec<Layer>,
}

/// View of a document.
pub struct DocumentView {
    pub width: u32,
    pub height: u32,
    pub tile_width: u32,
    pub tile_height: u32,
    pub orientation: Orientation,
    pub tilesets: Seq<TilesetView>,
    pub layers: Seq<LayerView>,
}

impl DeepView for TileMapDocument {
    type V = DocumentView;

    open spec fn deep_view(&self) -> DocumentView {
        DocumentView {
            width: self.width,
            height: self.height,
            tile_width: self.tile_width,
            tile_height: self.tile_height,
            orientation: self.orientation,
            tilesets: self.tilesets.deep_view(),
            layers: self.layers.deep_view(),
        }
    }
}

/// The per-map coordinate quantities of a document.
pub open spec fn doc_frame(d: DocumentView) -> MapFrame {
    MapFrame {
        width: d.width,
        height: d.height,
        tile_width: d.tile_width,
        tile_height: d.tile_height,
        orientation: d.orientation,
    }
}

/// Bounds on one collision shape.
pub open spec fn shape_wf(s: CollisionShape) -> bool {
    &&& -MAX_SUBPIX <= s.local_x <= MAX_SUBPIX
    &&& -MAX_SUBPIX <= s.local_y <= MAX_SUBPIX
    &&& match s.kind {
        ShapeKind::Rect { width, height } => 0 <= width <= MAX_SUBPIX && 0 <= height
            <= MAX_SUBPIX,
        ShapeKind::Ellipse { width, height } => 0 <= width <= MAX_SUBPIX && 0 <= height
            <= MAX_SUBPIX,
        ShapeKind::Other => true,
    }
}

/// Bounds on one tile definition.
pub open spec fn tiledef_wf(t: TileDefView) -> bool {
    forall|i: int| 0 <= i < t.collision_shapes.len() ==> shape_wf(#[trigger] t.collision_shapes[i])
}

/// Bounds on one tileset.
pub open spec fn tileset_wf(t: TilesetView) -> bool {
    &&& 0 < t.tile_width <= MAX_TILE_PIXELS
    &&& 0 < t.tile_height <= MAX_TILE_PIXELS
    &&& forall|i: int| 0 <= i < t.tiles.len() ==> tiledef_wf(#[trigger] t.tiles[i])
}

/// A tile reference points at an existing tile of an existing tileset.
pub open spec fn tile_ref_wf(d: DocumentView, r: TileRef) -> bool {
    &&& r.tileset_index < d.tilesets.len()
    &&& r.tile_id < d.tilesets[r.tileset_index as int].tiles.len()
}

/// Well-formedness of one layer against the document.
pub open spec fn layer_wf(d: DocumentView, l: LayerView) -> bool {
    match l {
        LayerView::Tiles(t) => {
            &&& t.cells.len() == d.width * d.height
            &&& -MAX_SUBPIX <= t.offset_x <= MAX_SUBPIX
            &&& -MAX_SUBPIX <= t.offset_y <= MAX_SUBPIX
            &&& forall|i: int|
                0 <= i < t.cells.len() ==> match #[trigger] t.cells[i] {
                    Some(r) => tile_ref_wf(d, r),
                    None => true,
                }
        },
        LayerView::Objects(o) => {
            &&& -MAX_SUBPIX <= o.offset_x <= MAX_SUBPIX
            &&& -MAX_SUBPIX <= o.offset_y <= MAX_SUBPIX
            &&& forall|i: int|
                0 <= i < o.objects.len() ==> {
                    &&& -MAX_SUBPIX <= (#[trigger] o.objects[i]).x <= MAX_SUBPIX
                    &&& -MAX_SUBPIX <= o.objects[i].y <= MAX_SUBPIX
                }
        },
        LayerView::Unsupported => true,
    }
}

/// Well-formedness of a whole document: the invariant the loader
/// establishes and every pipeline stage relies on.
pub open spec fn doc_wf(d: DocumentView) -> bool {
    &&& frame_wf(doc_frame(d))
    &&& forall|i: int| 0 <= i < d.tilesets.len() ==> tileset_wf(#[trigger] d.tilesets[i])
    &&& forall|i: int| 0 <= i < d.layers.len() ==> layer_wf(d, #[trigger] d.layers[i])
}

impl TileMapDocument {
    /// The coordinate frame of this document.
    pub fn frame(&self) -> (r: MapFrame)
        ensures
            r == doc_frame(self.deep_view()),
    {
        MapFrame {
            width: self.width,
            height: self.height,
            tile_width: self.tile_width,
            tile_height: self.tile_height,
            orientation: self.orientation,
        }
    }
}

} // verus!
