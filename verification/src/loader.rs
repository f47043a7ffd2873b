//! Validation and normalization of a freshly parsed level description
//! into a well-formed `TileMapDocument`. The input is the plain, not yet
//! trusted shape a format reader produces; any structural fault — an
//! unknown orientation tag, a tile without an id, an unusable image
//! reference, a grid of the wrong size, a dangling tile reference, or a
//! quantity beyond the supported bounds — fails the whole load with a
//! typed error and no partial document. On success the loader also
//! returns the list of texture paths the document depends on; texture
//! handles inside the document index that list.

use vstd::prelude::*;

use crate::document::{
    doc_frame, doc_wf, layer_wf, shape_wf, tile_ref_wf, tiledef_wf, tileset_wf, CollisionShape,
    DocumentView, Layer, LayerView, ObjectLayer, ObjectLayerView, PlacedObject, PlacedObjectView,
    TileDef, TileDefView, TileLayer, TileLayerView, TileMapDocument, TileRef, Tileset,
    TilesetTexture, TilesetTextureView, TilesetView,
};
use crate::geometry::{frame_wf, Orientation, MAX_MAP_DIM, MAX_SUBPIX, MAX_TILE_PIXELS};
use crate::props::{bag_lookup_int, str_eq, PropertyBag, PropertyView};

verus! {

/// Why a load failed. A failed load produces no document at all.
#[derive(Clone, Copy, PartialEq, Eq, Structural, Debug)]
pub enum DocumentParseError {
    /// The orientation tag names no known layout rule.
    UnknownOrientation,
    /// A map or tile pixel dimension is zero or beyond the supported
    /// bounds.
    DimensionOutOfRange,
    /// A tile definition carries no id.
    MissingTileId,
    /// A tile definition's id is not below the tileset's declared count.
    TileIdOutOfRange,
    /// A shared-sheet image reference has no file name.
    BadImageReference,
    /// A tile layer's grid does not hold exactly width times height cells.
    GridSizeMismatch,
    /// A cell references a tileset or tile that does not exist.
    BadTileRef,
    /// An offset, object position or shape extent lies outside the
    /// supported coordinate range.
    CoordinateOutOfRange,
}

/// A not yet validated tile definition.
#[derive(Clone, Debug)]
pub struct RawTile {
    pub id: Option<u32>,
    pub image: Option<String>,
    pub collision_shapes: Vec<CollisionShape>,
    pub properties: PropertyBag,
}

/// View of a raw tile.
pub struct RawTileView {
    pub id: Option<u32>,
    pub image: Option<Seq<char>>,
    pub collision_shapes: Seq<CollisionShape>,
    pub properties: Seq<PropertyView>,
}

impl DeepView for RawTile {
    type V = RawTileView;

    open spec fn deep_view(&self) -> RawTileView {
        RawTileView {
            id: self.id,
            image: self.image.deep_view(),
            collision_shapes: self.collision_shapes.deep_view(),
            properties: self.properties.deep_view(),
        }
    }
}

/// A not yet validated tileset: tile pixel geometry, either one shared
/// sheet image or per-tile images, a declared tile id count, and sparse
/// tile definitions.
#[derive(Clone, Debug)]
pub struct RawTileset {
    pub tile_width: u32,
    pub tile_height: u32,
    pub spacing: u32,
    pub image: Option<String>,
    pub tile_count: u32,
    pub tiles: Vec<RawTile>,
}

/// View of a raw tileset.
pub struct RawTilesetView {
    pub tile_width: u32,
    pub tile_height: u32,
    pub spacing: u32,
    pub image: Option<Seq<char>>,
    pub tile_count: u32,
    pub tiles: Seq<RawTileView>,
}

impl DeepView for RawTileset {
    type V = RawTilesetView;

    open spec fn deep_view(&self) -> RawTilesetView {
        RawTilesetView {
            tile_width: self.tile_width,
            tile_height: self.tile_height,
            spacing: self.spacing,
            image: self.image.deep_view(),
            tile_count: self.tile_count,
            tiles: self.tiles.deep_view(),
        }
    }
}

/// A not yet validated placed object.
#[derive(Clone, Debug)]
pub struct RawObject {
    pub kind_tag: String,
    pub x: i64,
    pub y: i64,
    pub properties: PropertyBag,
}

/// View of a raw object.
pub struct RawObjectView {
    pub kind_tag: Seq<char>,
    pub x: i64,
    pub y: i64,
    pub properties: Seq<PropertyView>,
}

impl DeepView for RawObject {
    type V = RawObjectView;

    open spec fn deep_view(&self) -> RawObjectView {
        RawObjectView {
            kind_tag: self.kind_tag@,
            x: self.x,
            y: self.y,
            properties: self.properties.deep_view(),
        }
    }
}

/// The grid or object list of a raw layer; kinds the pipeline cannot
/// process arrive as `Unsupported` and stay in the document as such.
#[derive(Clone, Debug)]
pub enum RawLayerKind {
    Tiles(Vec<Option<TileRef>>),
    Objects(Vec<RawObject>),
    Unsupported,
}

/// View of a raw layer kind.
pub enum RawLayerKindView {
    Tiles(Seq<Option<TileRef>>),
    Objects(Seq<RawObjectView>),
    Unsupported,
}

impl DeepView for RawLayerKind {
    type V = RawLayerKindView;

    open spec fn deep_view(&self) -> RawLayerKindView {
        match self {
            RawLayerKind::Tiles(c) => RawLayerKindView::Tiles(c.deep_view()),
            RawLayerKind::Objects(o) => RawLayerKindView::Objects(o.deep_view()),
            RawLayerKind::Unsupported => RawLayerKindView::Unsupported,
        }
    }
}

/// A not yet validated layer.
#[derive(Clone, Debug)]
pub struct RawLayer {
    pub name: String,
    pub offset_x: i64,
    pub offset_y: i64,
    pub properties: PropertyBag,
    pub kind: RawLayerKind,
}

/// View of a raw layer.
pub struct RawLayerView {
    pub name: Seq<char>,
    pub offset_x: i64,
    pub offset_y: i64,
    pub properties: Seq<PropertyView>,
    pub kind: RawLayerKindView,
}

impl DeepView for RawLayer {
    type V = RawLayerView;

    open spec fn deep_view(&self) -> RawLayerView {
        RawLayerView {
            name: self.name@,
            offset_x: self.offset_x,
            offset_y: self.offset_y,
            properties: self.properties.deep_view(),
            kind: self.kind.deep_view(),
        }
    }
}

/// A not yet validated document, as a format reader hands it over.
#[derive(Clone, Debug)]
pub struct RawDocument {
    pub width: u32,
    pub height: u32,
    pub tile_width: u32,
    pub tile_height: u32,
    pub orientation: String,
    pub tilesets: Vec<RawTileset>,
    pub layers: Vec<RawLayer>,
}

/// View of a raw document.
pub struct RawDocumentView {
    pub width: u32,
    pub height: u32,
    pub tile_width: u32,
    pub tile_height: u32,
    pub orientation: Seq<char>,
    pub tilesets: Seq<RawTilesetView>,
    pub layers: Seq<RawLayerView>,
}

impl DeepView for RawDocument {
    type V = RawDocumentView;

    open spec fn deep_view(&self) -> RawDocumentView {
        RawDocumentView {
            width: self.width,
            height: self.height,
            tile_width: self.tile_width,
            tile_height: self.tile_height,
            orientation: self.orientation@,
            tilesets: self.tilesets.deep_view(),
            layers: self.layers.deep_view(),
        }
    }
}

/// The layout rule a tag names, if any.
pub open spec fn orientation_of(tag: Seq<char>) -> Option<Orientation> {
    if tag == "orthogonal"@ {
        Some(Orientation::Orthogonal)
    } else if tag == "isometric"@ {
        Some(Orientation::Isometric)
    } else if tag == "staggered"@ {
        Some(Orientation::Staggered)
    } else if tag == "hexagonal"@ {
        Some(Orientation::Hexagonal)
    } else {
        None
    }
}

/// Map-level dimensions within the supported bounds.
pub open spec fn map_dims_ok(r: RawDocumentView) -> bool {
    &&& 0 < r.width <= MAX_MAP_DIM
    &&& 0 < r.height <= MAX_MAP_DIM
    &&& 0 < r.tile_width <= MAX_TILE_PIXELS
    &&& 0 < r.tile_height <= MAX_TILE_PIXELS
}

/// Every declared collision shape within the supported bounds.
pub open spec fn shapes_ok(s: Seq<CollisionShape>) -> bool {
    forall|i: int| 0 <= i < s.len() ==> shape_wf(#[trigger] s[i])
}

/// A usable shared-sheet reference: non-empty and naming a file, not a
/// directory.
pub open spec fn sheet_ok(p: Seq<char>) -> bool {
    p.len() > 0 && p.last() != '/'
}

/// The fault of one tile definition, if any: a missing id, an id at or
/// above the declared count, or a shape out of bounds.
pub open spec fn tile_error(t: RawTileView, count: u32) -> Option<DocumentParseError> {
    match t.id {
        None => Some(DocumentParseError::MissingTileId),
        Some(id) => if id >= count {
            Some(DocumentParseError::TileIdOutOfRange)
        } else if !shapes_ok(t.collision_shapes) {
            Some(DocumentParseError::CoordinateOutOfRange)
        } else {
            None
        },
    }
}

/// The first fault among the first `k` tile definitions.
pub open spec fn first_tile_error(tiles: Seq<RawTileView>, count: u32, k: nat) -> Option<
    DocumentParseError,
>
    decreases k,
{
    if k == 0 {
        None
    } else {
        match first_tile_error(tiles, count, (k - 1) as nat) {
            Some(e) => Some(e),
            None => tile_error(tiles[k as int - 1], count),
        }
    }
}

/// The fault of one tileset, if any, checked in order: pixel dimensions,
/// tile definitions, then the shared-sheet reference.
pub open spec fn tileset_error(t: RawTilesetView) -> Option<DocumentParseError> {
    if !(0 < t.tile_width <= MAX_TILE_PIXELS && 0 < t.tile_height <= MAX_TILE_PIXELS) {
        Some(DocumentParseError::DimensionOutOfRange)
    } else {
        match first_tile_error(t.tiles, t.tile_count, t.tiles.len()) {
            Some(e) => Some(e),
            None => match t.image {
                Some(p) => if sheet_ok(p) {
                    None
                } else {
                    Some(DocumentParseError::BadImageReference)
                },
                None => None,
            },
        }
    }
}

/// The first fault among the first `k` tilesets.
pub open spec fn first_tileset_error(tilesets: Seq<RawTilesetView>, k: nat) -> Option<
    DocumentParseError,
>
    decreases k,
{
    if k == 0 {
        None
    } else {
        match first_tileset_error(tilesets, (k - 1) as nat) {
            Some(e) => Some(e),
            None => tileset_error(tilesets[k as int - 1]),
        }
    }
}

/// The fault of one cell, if any: a reference into a tileset that does
/// not exist or a tile id at or above that tileset's declared count.
pub open spec fn ref_error(tilesets: Seq<RawTilesetView>, c: Option<TileRef>) -> Option<
    DocumentParseError,
> {
    match c {
        Some(r) => if r.tileset_index < tilesets.len() && r.tile_id < tilesets[
            r.tileset_index as int
        ].tile_count {
            None
        } else {
            Some(DocumentParseError::BadTileRef)
        },
        None => None,
    }
}

/// The first fault among the first `k` cells.
pub open spec fn first_ref_error(
    cells: Seq<Option<TileRef>>,
    tilesets: Seq<RawTilesetView>,
    k: nat,
) -> Option<DocumentParseError>
    decreases k,
{
    if k == 0 {
        None
    } else {
        match first_ref_error(cells, tilesets, (k - 1) as nat) {
            Some(e) => Some(e),
            None => ref_error(tilesets, cells[k as int - 1]),
        }
    }
}

/// The fault of one placed object, if any: a position out of bounds.
pub open spec fn object_error(o: RawObjectView) -> Option<DocumentParseError> {
    if -MAX_SUBPIX <= o.x <= MAX_SUBPIX && -MAX_SUBPIX <= o.y <= MAX_SUBPIX {
        None
    } else {
        Some(DocumentParseError::CoordinateOutOfRange)
    }
}

/// The first fault among the first `k` objects.
pub open spec fn first_object_error(objects: Seq<RawObjectView>, k: nat) -> Option<
    DocumentParseError,
>
    decreases k,
{
    if k == 0 {
        None
    } else {
        match first_object_error(objects, (k - 1) as nat) {
            Some(e) => Some(e),
            None => object_error(objects[k as int - 1]),
        }
    }
}

/// A layer offset within the supported bounds.
pub open spec fn offsets_ok(l: RawLayerView) -> bool {
    -MAX_SUBPIX <= l.offset_x <= MAX_SUBPIX && -MAX_SUBPIX <= l.offset_y <= MAX_SUBPIX
}

/// The fault of one layer, if any, checked in order: the offset, then the
/// grid size and each cell (tile layers) or each object (object layers).
pub open spec fn layer_error(r: RawDocumentView, l: RawLayerView) -> Option<DocumentParseError> {
    if !offsets_ok(l) {
        Some(DocumentParseError::CoordinateOutOfRange)
    } else {
        match l.kind {
            RawLayerKindView::Tiles(cells) => if cells.len() != r.width * r.height {
                Some(DocumentParseError::GridSizeMismatch)
            } else {
                first_ref_error(cells, r.tilesets, cells.len())
            },
            RawLayerKindView::Objects(objects) => first_object_error(objects, objects.len()),
            RawLayerKindView::Unsupported => None,
        }
    }
}

/// The first fault among the first `k` layers.
pub open spec fn first_layer_error(r: RawDocumentView, k: nat) -> Option<DocumentParseError>
    decreases k,
{
    if k == 0 {
        None
    } else {
        match first_layer_error(r, (k - 1) as nat) {
            Some(e) => Some(e),
            None => layer_error(r, r.layers[k as int - 1]),
        }
    }
}

/// The fault that fails a whole load, if any, in the order the loader
/// checks: the orientation tag, the map dimensions, the tilesets, the
/// layers.
pub open spec fn spec_load_error(r: RawDocumentView) -> Option<DocumentParseError> {
    if orientation_of(r.orientation) is None {
        Some(DocumentParseError::UnknownOrientation)
    } else if !map_dims_ok(r) {
        Some(DocumentParseError::DimensionOutOfRange)
    } else {
        match first_tileset_error(r.tilesets, r.tilesets.len()) {
            Some(e) => Some(e),
            None => first_layer_error(r, r.layers.len()),
        }
    }
}

/// A tile id no definition was given for.
pub open spec fn empty_tiledef() -> TileDefView {
    TileDefView {
        image: None,
        collision_shapes: Seq::empty(),
        properties: Seq::empty(),
    }
}

/// How many of the first `k` tile definitions carry an image.
pub open spec fn image_count(tiles: Seq<RawTileView>, k: nat) -> nat
    decreases k,
{
    if k == 0 {
        0
    } else {
        image_count(tiles, (k - 1) as nat) + if tiles[k as int - 1].image is Some {
            1nat
        } else {
            0nat
        }
    }
}

/// The image paths of the first `k` tile definitions, in order.
pub open spec fn tile_image_paths(tiles: Seq<RawTileView>, k: nat) -> Seq<Seq<char>>
    decreases k,
{
    if k == 0 {
        Seq::empty()
    } else {
        tile_image_paths(tiles, (k - 1) as nat) + match tiles[k as int - 1].image {
            Some(p) => seq![p],
            None => Seq::empty(),
        }
    }
}

/// The dense tile array after the first `k` definitions are folded in:
/// each definition lands in the slot of its id (a later definition of the
/// same id wins), carrying its shapes, its properties and — in the
/// per-tile-image form — its position among the image-bearing definitions.
pub open spec fn spec_fill_tiles(
    tiles: Seq<RawTileView>,
    count: u32,
    use_images: bool,
    k: nat,
) -> Seq<TileDefView>
    decreases k,
{
    if k == 0 {
        Seq::new(count as nat, |i: int| empty_tiledef())
    } else {
        let prev = spec_fill_tiles(tiles, count, use_images, (k - 1) as nat);
        let t = tiles[k as int - 1];
        let def = TileDefView {
            image: if use_images && t.image is Some {
                Some(image_count(tiles, (k - 1) as nat) as usize)
            } else {
                None
            },
            collision_shapes: t.collision_shapes,
            properties: t.properties,
        };
        match t.id {
            Some(id) => if id < count {
                prev.update(id as int, def)
            } else {
                prev
            },
            None => prev,
        }
    }
}

/// The texture a tileset resolves to, with handles starting at `base`: a
/// shared sheet, a list of per-tile images, or nothing at all.
pub open spec fn spec_tileset_texture(t: RawTilesetView, base: int) -> Option<
    TilesetTextureView,
> {
    match t.image {
        Some(_) => Some(TilesetTextureView::Sheet(base as usize)),
        None => {
            let n = image_count(t.tiles, t.tiles.len());
            if n == 0 {
                None
            } else {
                Some(TilesetTextureView::PerTile(Seq::new(n, |i: int| (base + i) as usize)))
            }
        },
    }
}

/// The texture paths one tileset contributes to the dependency list.
pub open spec fn tileset_deps(t: RawTilesetView) -> Seq<Seq<char>> {
    match t.image {
        Some(p) => seq![p],
        None => tile_image_paths(t.tiles, t.tiles.len()),
    }
}

/// The normalized form of one tileset, its texture handles starting at
/// `base`.
pub open spec fn spec_tileset(t: RawTilesetView, base: int) -> TilesetView {
    TilesetView {
        tile_width: t.tile_width,
        tile_height: t.tile_height,
        spacing: t.spacing,
        texture: spec_tileset_texture(t, base),
        tiles: spec_fill_tiles(t.tiles, t.tile_count, t.image is None, t.tiles.len()),
    }
}

/// The texture paths of the first `k` tilesets, in order.
pub open spec fn spec_deps_upto(tilesets: Seq<RawTilesetView>, k: nat) -> Seq<Seq<char>>
    decreases k,
{
    if k == 0 {
        Seq::empty()
    } else {
        spec_deps_upto(tilesets, (k - 1) as nat) + tileset_deps(tilesets[k as int - 1])
    }
}

/// The normalized form of one layer: a tile layer keeps its grid and
/// materializes its depth from the integer `z` property (default -1); an
/// object layer keeps its objects; an unsupported layer stays a
/// placeholder so that layer indices survive.
pub open spec fn spec_layer(l: RawLayerView) -> LayerView {
    match l.kind {
        RawLayerKindView::Tiles(cells) => LayerView::Tiles(
            TileLayerView {
                name: l.name,
                offset_x: l.offset_x,
                offset_y: l.offset_y,
                z: match bag_lookup_int(l.properties, "z"@) {
                    Some(v) => v,
                    None => -1i32,
                },
                properties: l.properties,
                cells: cells,
            },
        ),
        RawLayerKindView::Objects(objects) => LayerView::Objects(
            ObjectLayerView {
                name: l.name,
                offset_x: l.offset_x,
                offset_y: l.offset_y,
                objects: Seq::new(
                    objects.len(),
                    |i: int|
                        PlacedObjectView {
                            kind_tag: objects[i].kind_tag,
                            x: objects[i].x,
                            y: objects[i].y,
                            properties: objects[i].properties,
                        },
                ),
            },
        ),
        RawLayerKindView::Unsupported => LayerView::Unsupported,
    }
}

/// A later first-fault scan keeps the fault an earlier one found.
proof fn lemma_first_tile_error_some(tiles: Seq<RawTileView>, count: u32, k: nat, n: nat)
    requires
        k <= n,
        first_tile_error(tiles, count, k) is Some,
    ensures
        first_tile_error(tiles, count, n) == first_tile_error(tiles, count, k),
    decreases n,
{
    if n > k {
        lemma_first_tile_error_some(tiles, count, k, (n - 1) as nat);
    }
}

/// A fault-free scan means every scanned tile is fault-free.
proof fn lemma_first_tile_error_none(tiles: Seq<RawTileView>, count: u32, k: nat)
    requires
        first_tile_error(tiles, count, k) is None,
    ensures
        forall|j: int| 0 <= j < k ==> tile_error(tiles[j], count) is None,
    decreases k,
{
    if k > 0 {
        lemma_first_tile_error_none(tiles, count, (k - 1) as nat);
    }
}

/// A later first-fault scan keeps the fault an earlier one found.
proof fn lemma_first_tileset_error_some(tilesets: Seq<RawTilesetView>, k: nat, n: nat)
    requires
        k <= n,
        first_tileset_error(tilesets, k) is Some,
    ensures
        first_tileset_error(tilesets, n) == first_tileset_error(tilesets, k),
    decreases n,
{
    if n > k {
        lemma_first_tileset_error_some(tilesets, k, (n - 1) as nat);
    }
}

/// A fault-free scan means every scanned tileset is fault-free.
proof fn lemma_first_tileset_error_none(tilesets: Seq<RawTilesetView>, k: nat)
    requires
        first_tileset_error(tilesets, k) is None,
    ensures
        forall|j: int| 0 <= j < k ==> tileset_error(tilesets[j]) is None,
    decreases k,
{
    if k > 0 {
        lemma_first_tileset_error_none(tilesets, (k - 1) as nat);
    }
}

/// A later first-fault scan keeps the fault an earlier one found.
proof fn lemma_first_ref_error_some(
    cells: Seq<Option<TileRef>>,
    tilesets: Seq<RawTilesetView>,
    k: nat,
    n: nat,
)
    requires
        k <= n,
        first_ref_error(cells, tilesets, k) is Some,
    ensures
        first_ref_error(cells, tilesets, n) == first_ref_error(cells, tilesets, k),
    decreases n,
{
    if n > k {
        lemma_first_ref_error_some(cells, tilesets, k, (n - 1) as nat);
    }
}

/// A fault-free scan means every scanned cell is fault-free.
proof fn lemma_first_ref_error_none(
    cells: Seq<Option<TileRef>>,
    tilesets: Seq<RawTilesetView>,
    k: nat,
)
    requires
        first_ref_error(cells, tilesets, k) is None,
    ensures
        forall|j: int| 0 <= j < k ==> ref_error(tilesets, cells[j]) is None,
    decreases k,
{
    if k > 0 {
        lemma_first_ref_error_none(cells, tilesets, (k - 1) as nat);
    }
}

/// A later first-fault scan keeps the fault an earlier one found.
proof fn lemma_first_object_error_some(objects: Seq<RawObjectView>, k: nat, n: nat)
    requires
        k <= n,
        first_object_error(objects, k) is Some,
    ensures
        first_object_error(objects, n) == first_object_error(objects, k),
    decreases n,
{
    if n > k {
        lemma_first_object_error_some(objects, k, (n - 1) as nat);
    }
}

/// A fault-free scan means every scanned object is fault-free.
proof fn lemma_first_object_error_none(objects: Seq<RawObjectView>, k: nat)
    requires
        first_object_error(objects, k) is None,
    ensures
        forall|j: int| 0 <= j < k ==> object_error(objects[j]) is None,
    decreases k,
{
    if k > 0 {
        lemma_first_object_error_none(objects, (k - 1) as nat);
    }
}

/// A later first-fault scan keeps the fault an earlier one found.
proof fn lemma_first_layer_error_some(r: RawDocumentView, k: nat, n: nat)
    requires
        k <= n,
        first_layer_error(r, k) is Some,
    ensures
        first_layer_error(r, n) == first_layer_error(r, k),
    decreases n,
{
    if n > k {
        lemma_first_layer_error_some(r, k, (n - 1) as nat);
    }
}

/// A fault-free scan means every scanned layer is fault-free.
proof fn lemma_first_layer_error_none(r: RawDocumentView, k: nat)
    requires
        first_layer_error(r, k) is None,
    ensures
        forall|j: int| 0 <= j < k ==> layer_error(r, r.layers[j]) is None,
    decreases k,
{
    if k > 0 {
        lemma_first_layer_error_none(r, (k - 1) as nat);
    }
}

/// The image path list and the image count walk together.
proof fn lemma_image_paths_len(tiles: Seq<RawTileView>, k: nat)
    ensures
        tile_image_paths(tiles, k).len() == image_count(tiles, k),
    decreases k,
{
    if k > 0 {
        lemma_image_paths_len(tiles, (k - 1) as nat);
    }
}

/// The dense tile array always holds exactly the declared count of slots.
proof fn lemma_fill_tiles_len(tiles: Seq<RawTileView>, count: u32, use_images: bool, k: nat)
    ensures
        spec_fill_tiles(tiles, count, use_images, k).len() == count,
    decreases k,
{
    if k > 0 {
        lemma_fill_tiles_len(tiles, count, use_images, (k - 1) as nat);
    }
}

/// Folding fault-free definitions keeps every dense slot within bounds.
proof fn lemma_fill_tiles_wf(tiles: Seq<RawTileView>, count: u32, use_images: bool, k: nat)
    requires
        forall|j: int| 0 <= j < k ==> shapes_ok((#[trigger] tiles[j]).collision_shapes),
    ensures
        forall|i: int|
            0 <= i < spec_fill_tiles(tiles, count, use_images, k).len() ==> tiledef_wf(
                #[trigger] spec_fill_tiles(tiles, count, use_images, k)[i],
            ),
    decreases k,
{
    if k == 0 {
        assert forall|i: int|
            0 <= i < spec_fill_tiles(tiles, count, use_images, 0).len() implies tiledef_wf(
            #[trigger] spec_fill_tiles(tiles, count, use_images, 0)[i],
        ) by {
            assert(spec_fill_tiles(tiles, count, use_images, 0)[i] == empty_tiledef());
        }
    } else {
        lemma_fill_tiles_wf(tiles, count, use_images, (k - 1) as nat);
        lemma_fill_tiles_len(tiles, count, use_images, (k - 1) as nat);
        lemma_fill_tiles_len(tiles, count, use_images, k);
        let prev = spec_fill_tiles(tiles, count, use_images, (k - 1) as nat);
        let cur = spec_fill_tiles(tiles, count, use_images, k);
        assert forall|i: int| 0 <= i < cur.len() implies tiledef_wf(#[trigger] cur[i]) by {
            assert(tiledef_wf(prev[i]));
            match tiles[k as int - 1].id {
                Some(id) => {
                    if id < count && i == id {
                        assert(cur[i].collision_shapes == tiles[k as int - 1].collision_shapes);
                    } else {
                        assert(cur[i] == prev[i]);
                    }
                },
                None => {
                    assert(cur[i] == prev[i]);
                },
            }
        }
    }
}

/// The document a fault-free raw description normalizes to.
pub open spec fn spec_document(r: RawDocumentView) -> DocumentView {
    DocumentView {
        width: r.width,
        height: r.height,
        tile_width: r.tile_width,
        tile_height: r.tile_height,
        orientation: orientation_of(r.orientation)->Some_0,
        tilesets: Seq::new(
            r.tilesets.len(),
            |i: int| spec_tileset(r.tilesets[i], spec_deps_upto(r.tilesets, i as nat).len() as int),
        ),
        layers: Seq::new(r.layers.len(), |i: int| spec_layer(r.layers[i])),
    }
}

/// Executable form of `orientation_of`.
fn parse_orientation(tag: &str) -> (r: Option<Orientation>)
    ensures
        r == orientation_of(tag@),
{
    if str_eq(tag, "orthogonal") {
        Some(Orientation::Orthogonal)
    } else if str_eq(tag, "isometric") {
        Some(Orientation::Isometric)
    } else if str_eq(tag, "staggered") {
        Some(Orientation::Staggered)
    } else if str_eq(tag, "hexagonal") {
        Some(Orientation::Hexagonal)
    } else {
        None
    }
}

/// Executable form of `shape_wf`.
fn shape_ok_exec(s: &CollisionShape) -> (r: bool)
    ensures
        r == shape_wf(*s),
{
    let bounds_ok = -MAX_SUBPIX <= s.local_x && s.local_x <= MAX_SUBPIX && -MAX_SUBPIX
        <= s.local_y && s.local_y <= MAX_SUBPIX;
    let kind_ok = match s.kind {
        crate::document::ShapeKind::Rect { width, height } => 0 <= width && width <= MAX_SUBPIX
            && 0 <= height && height <= MAX_SUBPIX,
        crate::document::ShapeKind::Ellipse { width, height } => 0 <= width && width <= MAX_SUBPIX
            && 0 <= height && height <= MAX_SUBPIX,
        crate::document::ShapeKind::Other => true,
    };
    bounds_ok && kind_ok
}

/// Executable form of `shapes_ok`.
fn shapes_all_ok(v: &Vec<CollisionShape>) -> (r: bool)
    ensures
        r == shapes_ok(v.deep_view()),
{
    let n = v.len();
    let mut i: usize = 0;
    while i < n
        invariant
            n == v@.len(),
            i <= n,
            forall|j: int| 0 <= j < i ==> shape_wf(#[trigger] v.deep_view()[j]),
        decreases n - i,
    {
        if !shape_ok_exec(&v[i]) {
            proof {
                assert(v.deep_view()[i as int] == v@[i as int]);
                assert(!shape_wf(v.deep_view()[i as int]));
            }
            return false;
        }
        proof {
            assert(v.deep_view()[i as int] == v@[i as int]);
        }
        i = i + 1;
    }
    true
}

/// Executable form of `sheet_ok`.
fn sheet_ok_exec(p: &str) -> (r: bool)
    ensures
        r == sheet_ok(p@),
{
    let n = p.unicode_len();
    if n == 0 {
        return false;
    }
    p.get_char(n - 1) != '/'
}

/// An exact copy of a shape list.
fn copy_shapes(v: &Vec<CollisionShape>) -> (r: Vec<CollisionShape>)
    ensures
        r@ == v@,
        r.deep_view() == v.deep_view(),
{
    let n = v.len();
    let mut out: Vec<CollisionShape> = Vec::new();
    let mut i: usize = 0;
    while i < n
        invariant
            n == v@.len(),
            i <= n,
            out@ == v@.subrange(0, i as int),
        decreases n - i,
    {
        out.push(v[i]);
        proof {
            assert(out@ =~= v@.subrange(0, i as int + 1));
        }
        i = i + 1;
    }
    proof {
        assert(out@ =~= v@);
        assert(out.deep_view() =~= v.deep_view());
    }
    out
}

/// An exact copy of a cell grid.
fn copy_cells(v: &Vec<Option<TileRef>>) -> (r: Vec<Option<TileRef>>)
    ensures
        r@ == v@,
        r.deep_view() == v.deep_view(),
{
    let n = v.len();
    let mut out: Vec<Option<TileRef>> = Vec::new();
    let mut i: usize = 0;
    while i < n
        invariant
            n == v@.len(),
            i <= n,
            out@ == v@.subrange(0, i as int),
        decreases n - i,
    {
        out.push(v[i]);
        proof {
            assert(out@ =~= v@.subrange(0, i as int + 1));
        }
        i = i + 1;
    }
    proof {
        assert(out@ =~= v@);
        assert(out.deep_view() =~= v.deep_view());
    }
    out
}

/// Validates and normalizes one tileset, appending its texture paths to
/// the dependency list; on a fault the list is left untouched.
fn convert_tileset(t: &RawTileset, deps: &mut Vec<String>) -> (r: Result<
    Tileset,
    DocumentParseError,
>)
    ensures
        match r {
            Ok(ts) => {
                &&& tileset_error(t.deep_view()) is None
                &&& ts.deep_view() == spec_tileset(
                    t.deep_view(),
                    old(deps).deep_view().len() as int,
                )
                &&& final(deps).deep_view() == old(deps).deep_view() + tileset_deps(t.deep_view())
            },
            Err(e) => tileset_error(t.deep_view()) == Some(e) && final(deps).deep_view() == old(
                deps,
            ).deep_view(),
        },
{
    let ghost tv = t.deep_view();
    let ghost deps0 = deps.deep_view();
    if !(t.tile_width > 0 && t.tile_width <= MAX_TILE_PIXELS && t.tile_height > 0
        && t.tile_height <= MAX_TILE_PIXELS) {
        return Err(DocumentParseError::DimensionOutOfRange);
    }
    let nt = t.tiles.len();
    let mut k: usize = 0;
    while k < nt
        invariant
            tv == t.deep_view(),
            nt == tv.tiles.len(),
            k <= nt,
            0 < tv.tile_width <= MAX_TILE_PIXELS,
            0 < tv.tile_height <= MAX_TILE_PIXELS,
            first_tile_error(tv.tiles, tv.tile_count, k as nat) is None,
        decreases nt - k,
    {
        let rt = &t.tiles[k];
        proof {
            assert(tv.tiles[k as int] == rt.deep_view());
        }
        let id_ok: bool = match rt.id {
            Some(id) => {
                if id >= t.tile_count {
                    proof {
                        assert(first_tile_error(tv.tiles, tv.tile_count, k as nat + 1) == Some(
                            DocumentParseError::TileIdOutOfRange,
                        ));
                        lemma_first_tile_error_some(tv.tiles, tv.tile_count, k as nat + 1, nt as nat);
                    }
                    return Err(DocumentParseError::TileIdOutOfRange);
                }
                true
            },
            None => {
                proof {
                    assert(first_tile_error(tv.tiles, tv.tile_count, k as nat + 1) == Some(
                        DocumentParseError::MissingTileId,
                    ));
                    lemma_first_tile_error_some(tv.tiles, tv.tile_count, k as nat + 1, nt as nat);
                }
                return Err(DocumentParseError::MissingTileId);
            },
        };
        if !shapes_all_ok(&rt.collision_shapes) {
            proof {
                assert(first_tile_error(tv.tiles, tv.tile_count, k as nat + 1) == Some(
                    DocumentParseError::CoordinateOutOfRange,
                ));
                lemma_first_tile_error_some(tv.tiles, tv.tile_count, k as nat + 1, nt as nat);
            }
            return Err(DocumentParseError::CoordinateOutOfRange);
        }
        proof {
            assert(id_ok);
            assert(tile_error(tv.tiles[k as int], tv.tile_count) is None);
        }
        k = k + 1;
    }
    match &t.image {
        Some(p) => {
            if !sheet_ok_exec(p.as_str()) {
                return Err(DocumentParseError::BadImageReference);
            }
        },
        None => {},
    }
    proof {
        assert(tileset_error(tv) is None);
        lemma_first_tile_error_none(tv.tiles, tv.tile_count, nt as nat);
    }
    // Build the dense tile array, initially all empty definitions.
    let count = t.tile_count as usize;
    let mut tiles: Vec<TileDef> = Vec::new();
    let mut i: usize = 0;
    while i < count
        invariant
            i <= count,
            tiles.deep_view().len() == i,
            forall|j: int| 0 <= j < i ==> #[trigger] tiles.deep_view()[j] == empty_tiledef(),
        decreases count - i,
    {
        let ghost prev = tiles.deep_view();
        let empty_def = TileDef {
            image: None,
            collision_shapes: Vec::new(),
            properties: PropertyBag::new(),
        };
        proof {
            assert(empty_def.deep_view().collision_shapes =~= empty_tiledef().collision_shapes);
            assert(empty_def.deep_view().properties =~= empty_tiledef().properties);
            assert(empty_def.deep_view() == empty_tiledef());
        }
        tiles.push(empty_def);
        proof {
            assert(tiles.deep_view() =~= prev.push(empty_def.deep_view()));
        }
        i = i + 1;
    }
    proof {
        assert(tiles.deep_view() =~= spec_fill_tiles(tv.tiles, tv.tile_count, tv.image is None, 0));
    }
    // Record the shared sheet, if any, as the single dependency.
    let base_idx = deps.len();
    let use_images = match &t.image {
        Some(p) => {
            deps.push(p.clone());
            false
        },
        None => true,
    };
    let ghost dep_target = deps0 + tileset_deps(tv);
    let mut imgs: usize = 0;
    let mut handles: Vec<usize> = Vec::new();
    let mut k2: usize = 0;
    while k2 < nt
        invariant
            tv == t.deep_view(),
            nt == tv.tiles.len(),
            k2 <= nt,
            count == tv.tile_count,
            use_images == (tv.image is None),
            forall|j: int|
                0 <= j < nt ==> tile_error(#[trigger] tv.tiles[j], tv.tile_count) is None,
            tiles.deep_view() == spec_fill_tiles(tv.tiles, tv.tile_count, use_images, k2 as nat),
            imgs == image_count(tv.tiles, k2 as nat),
            imgs <= k2,
            base_idx == deps0.len(),
            deps.deep_view() == deps0 + (if use_images {
                tile_image_paths(tv.tiles, k2 as nat)
            } else {
                tileset_deps(tv)
            }),
            use_images ==> handles@ == Seq::new(imgs as nat, |i: int| (base_idx + i) as usize),
            !use_images ==> handles@.len() == 0,
        decreases nt - k2,
    {
        let rt = &t.tiles[k2];
        proof {
            assert(tv.tiles[k2 as int] == rt.deep_view());
            assert(tile_error(tv.tiles[k2 as int], tv.tile_count) is None);
            lemma_image_paths_len(tv.tiles, k2 as nat);
        }
        let id: u32 = match rt.id {
            Some(id) => id,
            None => unreached(),
        };
        let has_img = rt.image.is_some();
        let def_image: Option<usize> = if use_images && has_img {
            Some(imgs)
        } else {
            None
        };
        let def = TileDef {
            image: def_image,
            collision_shapes: copy_shapes(&rt.collision_shapes),
            properties: rt.properties.duplicate(),
        };
        let ghost prev_tiles = tiles.deep_view();
        let idu = id as usize;
        proof {
            lemma_fill_tiles_len(tv.tiles, tv.tile_count, use_images, k2 as nat);
            assert(tiles@.len() == count);
            assert(idu < count);
        }
        let replaced = tiles.remove(idu);
        self_insert_tile(&mut tiles, idu, def);
        proof {
            let spec_def = TileDefView {
                image: if use_images && tv.tiles[k2 as int].image is Some {
                    Some(image_count(tv.tiles, k2 as nat) as usize)
                } else {
                    None
                },
                collision_shapes: tv.tiles[k2 as int].collision_shapes,
                properties: tv.tiles[k2 as int].properties,
            };
            assert(tiles.deep_view() =~= prev_tiles.update(id as int, spec_def));
            assert(tiles.deep_view() =~= spec_fill_tiles(
                tv.tiles,
                tv.tile_count,
                use_images,
                k2 as nat + 1,
            ));
        }
        if has_img {
            if use_images {
                let p = match &rt.image {
                    Some(p) => p.clone(),
                    None => unreached(),
                };
                let ghost prev_deps = deps.deep_view();
                deps.push(p);
                proof {
                    assert(deps.deep_view() =~= prev_deps.push(
                        tv.tiles[k2 as int].image->Some_0,
                    ));
                    assert(deps.deep_view() =~= deps0 + tile_image_paths(
                        tv.tiles,
                        k2 as nat + 1,
                    ));
                    lemma_image_paths_len(tv.tiles, k2 as nat + 1);
                }
                let dlen = deps.len();
                proof {
                    assert(dlen == base_idx + imgs + 1);
                }
                handles.push(base_idx + imgs);
                proof {
                    assert(handles@ =~= Seq::new(
                        imgs as nat + 1,
                        |i: int| (base_idx + i) as usize,
                    ));
                }
            }
            imgs = imgs + 1;
        } else {
            proof {
                if use_images {
                    assert(tile_image_paths(tv.tiles, k2 as nat + 1) =~= tile_image_paths(
                        tv.tiles,
                        k2 as nat,
                    ));
                }
            }
        }
        k2 = k2 + 1;
    }
    let ghost hdeep = handles.deep_view();
    proof {
        lemma_image_paths_len(tv.tiles, nt as nat);
        assert(hdeep =~= handles@);
        if use_images {
            assert(hdeep =~= Seq::new(
                image_count(tv.tiles, nt as nat),
                |i: int| (deps0.len() + i) as usize,
            ));
        }
    }
    let texture: Option<TilesetTexture> = match &t.image {
        Some(_) => Some(TilesetTexture::Sheet(base_idx)),
        None => {
            if handles.len() == 0 {
                None
            } else {
                Some(TilesetTexture::PerTile(handles))
            }
        },
    };
    let ts = Tileset {
        tile_width: t.tile_width,
        tile_height: t.tile_height,
        spacing: t.spacing,
        texture,
        tiles,
    };
    proof {
        lemma_image_paths_len(tv.tiles, nt as nat);
        match tv.image {
            Some(_) => {},
            None => {
                if image_count(tv.tiles, nt as nat) == 0 {
                } else {
                    assert(ts.deep_view().texture == Some(
                        TilesetTextureView::PerTile(
                            Seq::new(
                                image_count(tv.tiles, nt as nat),
                                |i: int| (deps0.len() + i) as usize,
                            ),
                        ),
                    ));
                }
            },
        }
        assert(ts.deep_view().texture == spec_tileset_texture(tv, deps0.len() as int));
        assert(ts.deep_view() == spec_tileset(tv, deps0.len() as int));
        assert(deps.deep_view() =~= deps0 + tileset_deps(tv));
    }
    Ok(ts)
}

/// Puts one dense tile definition into its slot.
fn self_insert_tile(tiles: &mut Vec<TileDef>, i: usize, def: TileDef)
    requires
        i <= old(tiles)@.len(),
    ensures
        final(tiles)@ == old(tiles)@.insert(i as int, def),
{
    tiles.insert(i, def);
}

/// Validates and normalizes one layer.
fn convert_layer(
    l: &RawLayer,
    doc_w: u32,
    doc_h: u32,
    tilesets: &Vec<Tileset>,
    Ghost(rdv): Ghost<RawDocumentView>,
) -> (r: Result<Layer, DocumentParseError>)
    requires
        rdv.width == doc_w,
        rdv.height == doc_h,
        map_dims_ok(rdv),
        tilesets.deep_view().len() == rdv.tilesets.len(),
        forall|i: int|
            0 <= i < rdv.tilesets.len() ==> (#[trigger] tilesets.deep_view()[i]).tiles.len()
                == rdv.tilesets[i].tile_count,
    ensures
        match r {
            Ok(lay) => layer_error(rdv, l.deep_view()) is None && lay.deep_view() == spec_layer(
                l.deep_view(),
            ),
            Err(e) => layer_error(rdv, l.deep_view()) == Some(e),
        },
{
    let ghost lv = l.deep_view();
    if !(-MAX_SUBPIX <= l.offset_x && l.offset_x <= MAX_SUBPIX && -MAX_SUBPIX <= l.offset_y
        && l.offset_y <= MAX_SUBPIX) {
        return Err(DocumentParseError::CoordinateOutOfRange);
    }
    match &l.kind {
        RawLayerKind::Tiles(cells) => {
            let w = doc_w as usize;
            let h = doc_h as usize;
            assert(w * h <= 0x4000_0000) by (nonlinear_arith)
                requires
                    0 <= w <= 32768,
                    0 <= h <= 32768,
            ;
            if cells.len() != w * h {
                return Err(DocumentParseError::GridSizeMismatch);
            }
            let nc = cells.len();
            let mut k: usize = 0;
            while k < nc
                invariant
                    lv == l.deep_view(),
                    l.kind is Tiles,
                    lv.kind == RawLayerKindView::Tiles(cells.deep_view()),
                    offsets_ok(lv),
                    cells.deep_view().len() == rdv.width * rdv.height,
                    nc == cells@.len(),
                    k <= nc,
                    tilesets.deep_view().len() == rdv.tilesets.len(),
                    forall|i: int|
                        0 <= i < rdv.tilesets.len() ==> (
                        #[trigger] tilesets.deep_view()[i]).tiles.len()
                            == rdv.tilesets[i].tile_count,
                    first_ref_error(cells.deep_view(), rdv.tilesets, k as nat) is None,
                decreases nc - k,
            {
                proof {
                    assert(cells.deep_view()[k as int] == cells@[k as int]);
                }
                match &cells[k] {
                    Some(tr) => {
                        let ok = tr.tileset_index < tilesets.len() && ((tr.tile_id as usize)
                            < tilesets[tr.tileset_index].tiles.len());
                        if !ok {
                            proof {
                                assert(ref_error(rdv.tilesets, cells.deep_view()[k as int])
                                    == Some(DocumentParseError::BadTileRef));
                                assert(first_ref_error(
                                    cells.deep_view(),
                                    rdv.tilesets,
                                    k as nat + 1,
                                ) == Some(DocumentParseError::BadTileRef));
                                lemma_first_ref_error_some(
                                    cells.deep_view(),
                                    rdv.tilesets,
                                    k as nat + 1,
                                    nc as nat,
                                );
                            }
                            return Err(DocumentParseError::BadTileRef);
                        }
                        proof {
                            assert(tilesets.deep_view()[tr.tileset_index as int].tiles.len()
                                == rdv.tilesets[tr.tileset_index as int].tile_count);
                            assert(ref_error(rdv.tilesets, cells.deep_view()[k as int]) is None);
                        }
                    },
                    None => {
                        proof {
                            assert(ref_error(rdv.tilesets, cells.deep_view()[k as int]) is None);
                        }
                    },
                }
                k = k + 1;
            }
            let z: i32 = match l.properties.get_int("z") {
                Some(v) => v,
                None => -1,
            };
            let lay = Layer::Tiles(
                TileLayer {
                    name: l.name.clone(),
                    offset_x: l.offset_x,
                    offset_y: l.offset_y,
                    z,
                    properties: l.properties.duplicate(),
                    cells: copy_cells(cells),
                },
            );
            proof {
                assert(lay.deep_view() == spec_layer(lv));
            }
            Ok(lay)
        },
        RawLayerKind::Objects(objects) => {
            let ghost target = match spec_layer(lv) {
                LayerView::Objects(ol) => ol.objects,
                _ => arbitrary(),
            };
            let no = objects.len();
            let mut out: Vec<PlacedObject> = Vec::new();
            let mut k: usize = 0;
            while k < no
                invariant
                    lv == l.deep_view(),
                    l.kind is Objects,
                    lv.kind == RawLayerKindView::Objects(objects.deep_view()),
                    offsets_ok(lv),
                    no == objects@.len(),
                    k <= no,
                    target == (match spec_layer(lv) {
                        LayerView::Objects(ol) => ol.objects,
                        _ => arbitrary(),
                    }),
                    target.len() == no,
                    first_object_error(objects.deep_view(), k as nat) is None,
                    out.deep_view() == target.subrange(0, k as int),
                decreases no - k,
            {
                let o = &objects[k];
                proof {
                    assert(objects.deep_view()[k as int] == o.deep_view());
                }
                if !(-MAX_SUBPIX <= o.x && o.x <= MAX_SUBPIX && -MAX_SUBPIX <= o.y && o.y
                    <= MAX_SUBPIX) {
                    proof {
                        assert(first_object_error(objects.deep_view(), k as nat + 1) == Some(
                            DocumentParseError::CoordinateOutOfRange,
                        ));
                        lemma_first_object_error_some(
                            objects.deep_view(),
                            k as nat + 1,
                            no as nat,
                        );
                    }
                    return Err(DocumentParseError::CoordinateOutOfRange);
                }
                let po = PlacedObject {
                    kind_tag: o.kind_tag.clone(),
                    x: o.x,
                    y: o.y,
                    properties: o.properties.duplicate(),
                };
                let ghost prev = out.deep_view();
                proof {
                    assert(po.deep_view() == target[k as int]);
                }
                out.push(po);
                proof {
                    assert(out.deep_view() =~= prev.push(target[k as int]));
                    assert(out.deep_view() =~= target.subrange(0, k as int + 1));
                }
                k = k + 1;
            }
            let lay = Layer::Objects(
                ObjectLayer {
                    name: l.name.clone(),
                    offset_x: l.offset_x,
                    offset_y: l.offset_y,
                    objects: out,
                },
            );
            proof {
                assert(target.subrange(0, no as int) =~= target);
                assert(lay.deep_view() == spec_layer(lv));
            }
            Ok(lay)
        },
        RawLayerKind::Unsupported => {
            proof {
                assert(Layer::Unsupported.deep_view() == spec_layer(lv));
            }
            Ok(Layer::Unsupported)
        },
    }
}

/// Validates a raw description whole and normalizes it into a well-formed
/// document plus the ordered list of texture paths it depends on.
/// Malformed content — an unknown orientation, a missing tile id, an
/// unusable image reference, a mismatched grid, a dangling reference or an
/// out-of-range quantity — fails the entire load: no partial document is
/// ever returned.
pub fn load_document(raw: &RawDocument) -> (r: Result<
    (TileMapDocument, Vec<String>),
    DocumentParseError,
>)
    ensures
        match r {
            Ok(pair) => {
                &&& spec_load_error(raw.deep_view()) is None
                &&& pair.0.deep_view() == spec_document(raw.deep_view())
                &&& pair.1.deep_view() == spec_deps_upto(
                    raw.deep_view().tilesets,
                    raw.deep_view().tilesets.len(),
                )
                &&& doc_wf(pair.0.deep_view())
            },
            Err(e) => spec_load_error(raw.deep_view()) == Some(e),
        },
{
    let ghost rv = raw.deep_view();
    let orientation = match parse_orientation(raw.orientation.as_str()) {
        Some(o) => o,
        None => {
            return Err(DocumentParseError::UnknownOrientation);
        },
    };
    if !(raw.width > 0 && raw.width <= MAX_MAP_DIM && raw.height > 0 && raw.height <= MAX_MAP_DIM
        && raw.tile_width > 0 && raw.tile_width <= MAX_TILE_PIXELS && raw.tile_height > 0
        && raw.tile_height <= MAX_TILE_PIXELS) {
        return Err(DocumentParseError::DimensionOutOfRange);
    }
    let nts = raw.tilesets.len();
    let mut deps: Vec<String> = Vec::new();
    let mut tilesets: Vec<Tileset> = Vec::new();
    let mut i: usize = 0;
    proof {
        assert(deps.deep_view() =~= spec_deps_upto(rv.tilesets, 0));
    }
    while i < nts
        invariant
            rv == raw.deep_view(),
            nts == rv.tilesets.len(),
            i <= nts,
            orientation_of(rv.orientation) == Some(orientation),
            map_dims_ok(rv),
            first_tileset_error(rv.tilesets, i as nat) is None,
            deps.deep_view() == spec_deps_upto(rv.tilesets, i as nat),
            tilesets.deep_view().len() == i,
            forall|j: int|
                0 <= j < i ==> #[trigger] tilesets.deep_view()[j] == spec_tileset(
                    rv.tilesets[j],
                    spec_deps_upto(rv.tilesets, j as nat).len() as int,
                ),
        decreases nts - i,
    {
        proof {
            assert(rv.tilesets[i as int] == raw.tilesets@[i as int].deep_view());
        }
        match convert_tileset(&raw.tilesets[i], &mut deps) {
            Ok(ts) => {
                let ghost tsv = ts.deep_view();
                let ghost prev = tilesets.deep_view();
                tilesets.push(ts);
                proof {
                    assert(tilesets.deep_view() =~= prev.push(tsv));
                    assert(first_tileset_error(rv.tilesets, i as nat + 1) is None);
                }
            },
            Err(e) => {
                proof {
                    assert(first_tileset_error(rv.tilesets, i as nat + 1) == Some(e));
                    lemma_first_tileset_error_some(rv.tilesets, i as nat + 1, nts as nat);
                }
                return Err(e);
            },
        }
        i = i + 1;
    }
    proof {
        lemma_first_tileset_error_none(rv.tilesets, nts as nat);
        assert forall|j: int|
            0 <= j < rv.tilesets.len() implies (#[trigger] tilesets.deep_view()[j]).tiles.len()
            == rv.tilesets[j].tile_count by {
            lemma_fill_tiles_len(
                rv.tilesets[j].tiles,
                rv.tilesets[j].tile_count,
                rv.tilesets[j].image is None,
                rv.tilesets[j].tiles.len(),
            );
        }
    }
    let nl = raw.layers.len();
    let mut layers: Vec<Layer> = Vec::new();
    let mut li: usize = 0;
    while li < nl
        invariant
            rv == raw.deep_view(),
            nts == rv.tilesets.len(),
            nl == rv.layers.len(),
            li <= nl,
            orientation_of(rv.orientation) == Some(orientation),
            map_dims_ok(rv),
            first_tileset_error(rv.tilesets, nts as nat) is None,
            first_layer_error(rv, li as nat) is None,
            deps.deep_view() == spec_deps_upto(rv.tilesets, nts as nat),
            tilesets.deep_view().len() == nts,
            forall|j: int|
                0 <= j < nts ==> #[trigger] tilesets.deep_view()[j] == spec_tileset(
                    rv.tilesets[j],
                    spec_deps_upto(rv.tilesets, j as nat).len() as int,
                ),
            forall|j: int|
                0 <= j < rv.tilesets.len() ==> (#[trigger] tilesets.deep_view()[j]).tiles.len()
                    == rv.tilesets[j].tile_count,
            layers.deep_view().len() == li,
            forall|j: int|
                0 <= j < li ==> #[trigger] layers.deep_view()[j] == spec_layer(rv.layers[j]),
        decreases nl - li,
    {
        proof {
            assert(rv.layers[li as int] == raw.layers@[li as int].deep_view());
        }
        match convert_layer(&raw.layers[li], raw.width, raw.height, &tilesets, Ghost(rv)) {
            Ok(lay) => {
                let ghost lyv = lay.deep_view();
                let ghost prev = layers.deep_view();
                layers.push(lay);
                proof {
                    assert(layers.deep_view() =~= prev.push(lyv));
                    assert(first_layer_error(rv, li as nat + 1) is None);
                }
            },
            Err(e) => {
                proof {
                    assert(first_layer_error(rv, li as nat + 1) == Some(e));
                    lemma_first_layer_error_some(rv, li as nat + 1, nl as nat);
                }
                return Err(e);
            },
        }
        li = li + 1;
    }
    let doc = TileMapDocument {
        width: raw.width,
        height: raw.height,
        tile_width: raw.tile_width,
        tile_height: raw.tile_height,
        orientation,
        tilesets,
        layers,
    };
    proof {
        let dv = doc.deep_view();
        assert(dv.tilesets =~= spec_document(rv).tilesets);
        assert(dv.layers =~= spec_document(rv).layers);
        assert(dv == spec_document(rv));
        lemma_first_layer_error_none(rv, nl as nat);
        // The validated raw description yields a well-formed document.
        assert(frame_wf(doc_frame(dv)));
        assert forall|j: int| 0 <= j < dv.tilesets.len() implies tileset_wf(
            #[trigger] dv.tilesets[j],
        ) by {
            lemma_first_tileset_error_none(rv.tilesets, nts as nat);
            assert(tileset_error(rv.tilesets[j]) is None);
            lemma_first_tile_error_none(
                rv.tilesets[j].tiles,
                rv.tilesets[j].tile_count,
                rv.tilesets[j].tiles.len(),
            );
            assert forall|k: int|
                0 <= k < rv.tilesets[j].tiles.len() implies shapes_ok(
                (#[trigger] rv.tilesets[j].tiles[k]).collision_shapes,
            ) by {
                assert(tile_error(rv.tilesets[j].tiles[k], rv.tilesets[j].tile_count) is None);
            }
            lemma_fill_tiles_wf(
                rv.tilesets[j].tiles,
                rv.tilesets[j].tile_count,
                rv.tilesets[j].image is None,
                rv.tilesets[j].tiles.len(),
            );
        }
        assert forall|j: int| 0 <= j < dv.layers.len() implies layer_wf(
            dv,
            #[trigger] dv.layers[j],
        ) by {
            assert(layer_error(rv, rv.layers[j]) is None);
            assert(dv.layers[j] == spec_layer(rv.layers[j]));
            match rv.layers[j].kind {
                RawLayerKindView::Tiles(cells) => {
                    lemma_first_ref_error_none(cells, rv.tilesets, cells.len());
                    assert forall|c: int|
                        0 <= c < cells.len() implies (match #[trigger] cells[c] {
                        Some(tr) => tile_ref_wf(dv, tr),
                        None => true,
                    }) by {
                        assert(ref_error(rv.tilesets, cells[c]) is None);
                        match cells[c] {
                            Some(tr) => {
                                lemma_fill_tiles_len(
                                    rv.tilesets[tr.tileset_index as int].tiles,
                                    rv.tilesets[tr.tileset_index as int].tile_count,
                                    rv.tilesets[tr.tileset_index as int].image is None,
                                    rv.tilesets[tr.tileset_index as int].tiles.len(),
                                );
                            },
                            None => {},
                        }
                    }
                },
                RawLayerKindView::Objects(objects) => {
                    lemma_first_object_error_none(objects, objects.len());
                },
                RawLayerKindView::Unsupported => {},
            }
        }
        assert(doc_wf(dv));
    }
    Ok((doc, deps))
}

} // verus!
