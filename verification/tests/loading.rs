use tilescene::document::{CollisionShape, Layer, ShapeKind, TileRef, TilesetTexture};
use tilescene::geometry::Orientation;
use tilescene::loader::{
    load_document, DocumentParseError, RawDocument, RawLayer, RawLayerKind, RawObject, RawTile,
    RawTileset,
};
use tilescene::props::{Property, PropertyBag, PropertyValue};
use tilescene::scene::{DocumentStore, MapEvent, SceneState};

fn bag(entries: Vec<(&str, PropertyValue)>) -> PropertyBag {
    PropertyBag {
        entries: entries
            .into_iter()
            .map(|(k, v)| Property { key: k.to_string(), value: v })
            .collect(),
    }
}

fn raw_tile(id: u32) -> RawTile {
    RawTile { id: Some(id), image: None, collision_shapes: Vec::new(), properties: bag(vec![]) }
}

fn sheet_tileset() -> RawTileset {
    RawTileset {
        tile_width: 16,
        tile_height: 16,
        spacing: 2,
        image: Some("tiles.png".to_string()),
        tile_count: 2,
        tiles: vec![raw_tile(0), raw_tile(1)],
    }
}

fn tile_ref(ts: usize, id: u32) -> Option<TileRef> {
    Some(TileRef { tileset_index: ts, tile_id: id, flip_h: false, flip_v: false, flip_d: false })
}

fn minimal_raw() -> RawDocument {
    RawDocument {
        width: 1,
        height: 1,
        tile_width: 16,
        tile_height: 16,
        orientation: "orthogonal".to_string(),
        tilesets: vec![sheet_tileset()],
        layers: vec![RawLayer {
            name: "ground".to_string(),
            offset_x: 0,
            offset_y: 0,
            properties: bag(vec![("z", PropertyValue::Int(4))]),
            kind: RawLayerKind::Tiles(vec![tile_ref(0, 1)]),
        }],
    }
}

#[test]
fn minimal_document_loads_and_normalizes() {
    let (doc, deps) = load_document(&minimal_raw()).unwrap();
    assert_eq!(doc.orientation, Orientation::Orthogonal);
    assert_eq!(doc.width, 1);
    assert_eq!(deps, vec!["tiles.png".to_string()]);
    assert_eq!(doc.tilesets.len(), 1);
    assert!(matches!(doc.tilesets[0].texture, Some(TilesetTexture::Sheet(0))));
    assert_eq!(doc.tilesets[0].tiles.len(), 2);
    match &doc.layers[0] {
        Layer::Tiles(t) => {
            assert_eq!(t.z, 4);
            assert_eq!(t.cells.len(), 1);
        },
        _ => panic!("expected a tile layer"),
    }
}

#[test]
fn per_tile_images_get_positions_and_dependencies() {
    let mut ts = sheet_tileset();
    ts.image = None;
    ts.tile_count = 3;
    ts.tiles = vec![
        RawTile { id: Some(0), image: Some("a.png".to_string()), ..raw_tile(0) },
        raw_tile(1),
        RawTile { id: Some(2), image: Some("c.png".to_string()), ..raw_tile(2) },
    ];
    let mut raw = minimal_raw();
    raw.tilesets = vec![ts];
    raw.layers = Vec::new();
    let (doc, deps) = load_document(&raw).unwrap();
    assert_eq!(deps, vec!["a.png".to_string(), "c.png".to_string()]);
    match &doc.tilesets[0].texture {
        Some(TilesetTexture::PerTile(handles)) => assert_eq!(handles, &vec![0usize, 1usize]),
        _ => panic!("expected per-tile textures"),
    }
    assert_eq!(doc.tilesets[0].tiles[0].image, Some(0));
    assert_eq!(doc.tilesets[0].tiles[1].image, None);
    assert_eq!(doc.tilesets[0].tiles[2].image, Some(1));
}

#[test]
fn tileset_without_any_image_has_no_texture() {
    let mut ts = sheet_tileset();
    ts.image = None;
    let mut raw = minimal_raw();
    raw.tilesets = vec![ts];
    raw.layers = Vec::new();
    let (doc, deps) = load_document(&raw).unwrap();
    assert!(deps.is_empty());
    assert!(doc.tilesets[0].texture.is_none());
}

#[test]
fn unknown_orientation_fails_the_whole_load() {
    let mut raw = minimal_raw();
    raw.orientation = "diagonal".to_string();
    assert_eq!(load_document(&raw).unwrap_err(), DocumentParseError::UnknownOrientation);
}

#[test]
fn isometric_documents_load_but_are_tagged() {
    let mut raw = minimal_raw();
    raw.orientation = "isometric".to_string();
    let (doc, _) = load_document(&raw).unwrap();
    assert_eq!(doc.orientation, Orientation::Isometric);
}

#[test]
fn zero_dimension_is_refused() {
    let mut raw = minimal_raw();
    raw.width = 0;
    assert_eq!(load_document(&raw).unwrap_err(), DocumentParseError::DimensionOutOfRange);
}

#[test]
fn zero_tileset_tile_size_is_refused() {
    let mut raw = minimal_raw();
    raw.tilesets[0].tile_width = 0;
    assert_eq!(load_document(&raw).unwrap_err(), DocumentParseError::DimensionOutOfRange);
}

#[test]
fn tile_without_id_is_refused() {
    let mut raw = minimal_raw();
    raw.tilesets[0].tiles[1].id = None;
    assert_eq!(load_document(&raw).unwrap_err(), DocumentParseError::MissingTileId);
}

#[test]
fn tile_id_beyond_declared_count_is_refused() {
    let mut raw = minimal_raw();
    raw.tilesets[0].tiles[1].id = Some(9);
    assert_eq!(load_document(&raw).unwrap_err(), DocumentParseError::TileIdOutOfRange);
}

#[test]
fn sheet_reference_without_file_name_is_refused() {
    let mut raw = minimal_raw();
    raw.tilesets[0].image = Some("textures/".to_string());
    assert_eq!(load_document(&raw).unwrap_err(), DocumentParseError::BadImageReference);
}

#[test]
fn wrong_grid_size_is_refused() {
    let mut raw = minimal_raw();
    raw.layers[0].kind = RawLayerKind::Tiles(vec![tile_ref(0, 1), None]);
    assert_eq!(load_document(&raw).unwrap_err(), DocumentParseError::GridSizeMismatch);
}

#[test]
fn dangling_tile_reference_is_refused() {
    let mut raw = minimal_raw();
    raw.layers[0].kind = RawLayerKind::Tiles(vec![tile_ref(3, 0)]);
    assert_eq!(load_document(&raw).unwrap_err(), DocumentParseError::BadTileRef);
    let mut raw2 = minimal_raw();
    raw2.layers[0].kind = RawLayerKind::Tiles(vec![tile_ref(0, 9)]);
    assert_eq!(load_document(&raw2).unwrap_err(), DocumentParseError::BadTileRef);
}

#[test]
fn out_of_range_offset_is_refused() {
    let mut raw = minimal_raw();
    raw.layers[0].offset_y = 1 << 60;
    assert_eq!(load_document(&raw).unwrap_err(), DocumentParseError::CoordinateOutOfRange);
}

#[test]
fn out_of_range_object_position_is_refused() {
    let mut raw = minimal_raw();
    raw.layers.push(RawLayer {
        name: "things".to_string(),
        offset_x: 0,
        offset_y: 0,
        properties: bag(vec![]),
        kind: RawLayerKind::Objects(vec![RawObject {
            kind_tag: "sign".to_string(),
            x: -(1 << 60),
            y: 0,
            properties: bag(vec![]),
        }]),
    });
    assert_eq!(load_document(&raw).unwrap_err(), DocumentParseError::CoordinateOutOfRange);
}

#[test]
fn out_of_range_shape_extent_is_refused() {
    let mut raw = minimal_raw();
    raw.tilesets[0].tiles[1].collision_shapes = vec![CollisionShape {
        local_x: 0,
        local_y: 0,
        kind: ShapeKind::Rect { width: -1, height: 1 },
    }];
    assert_eq!(load_document(&raw).unwrap_err(), DocumentParseError::CoordinateOutOfRange);
}

#[test]
fn later_tile_definition_of_same_id_wins() {
    let mut raw = minimal_raw();
    raw.tilesets[0].tiles = vec![
        raw_tile(0),
        RawTile {
            id: Some(0),
            image: None,
            collision_shapes: vec![CollisionShape {
                local_x: 0,
                local_y: 0,
                kind: ShapeKind::Rect { width: 256, height: 256 },
            }],
            properties: bag(vec![]),
        },
    ];
    let (doc, _) = load_document(&raw).unwrap();
    assert_eq!(doc.tilesets[0].tiles[0].collision_shapes.len(), 1);
}

#[test]
fn loaded_document_drives_a_full_rebuild() {
    let (doc, _) = load_document(&minimal_raw()).unwrap();
    let mut store = DocumentStore::new();
    store.insert(1, doc);
    let mut scene = SceneState::new();
    scene.reconcile(&vec![MapEvent::Created { map_id: 1 }], &store);
    assert_eq!(scene.entries.len(), 1);
    let derived = &scene.entries[0].derived;
    assert_eq!(derived.batches.len(), 1);
    assert_eq!(derived.batches[0].cells[0].unwrap().texture_index, 1);
    assert_eq!(derived.batches[0].z, 4);
    assert_eq!(derived.tile_props.props[0].len(), 2);
}

#[test]
fn unsupported_layer_kind_keeps_its_slot() {
    let mut raw = minimal_raw();
    raw.layers.insert(0, RawLayer {
        name: "group".to_string(),
        offset_x: 0,
        offset_y: 0,
        properties: bag(vec![]),
        kind: RawLayerKind::Unsupported,
    });
    let (doc, _) = load_document(&raw).unwrap();
    assert_eq!(doc.layers.len(), 2);
    assert!(matches!(doc.layers[0], Layer::Unsupported));
    assert!(matches!(doc.layers[1], Layer::Tiles(_)));
}
