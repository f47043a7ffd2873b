use tilescene::batch::{build_batches, BatchCell};
use tilescene::collider::{extract_colliders, ColliderShape};
use tilescene::document::{
    CollisionShape, Layer, ObjectLayer, PlacedObject, ShapeKind, TileLayer, TileMapDocument,
    TileRef, Tileset, TilesetTexture,
};
use tilescene::geometry::{point_cell, to_world, MapError, MapFrame, Orientation, WorldPos};
use tilescene::logic::{logic_lookup, resolve_logic_layers};
use tilescene::objects::extract_objects;
use tilescene::props::{Property, PropertyBag, PropertyValue};
use tilescene::scene::{
    rebuild_document, DocEntry, DocumentStore, MapEvent, SceneState,
};
use tilescene::tileprops::build_tiles_properties;

fn bag(entries: Vec<(&str, PropertyValue)>) -> PropertyBag {
    PropertyBag {
        entries: entries
            .into_iter()
            .map(|(k, v)| Property { key: k.to_string(), value: v })
            .collect(),
    }
}

fn simple_tileset() -> Tileset {
    Tileset {
        tile_width: 16,
        tile_height: 16,
        spacing: 0,
        texture: Some(TilesetTexture::Sheet(0)),
        tiles: vec![
            tilescene::document::TileDef {
                image: None,
                collision_shapes: Vec::new(),
                properties: bag(vec![]),
            },
            tilescene::document::TileDef {
                image: None,
                collision_shapes: Vec::new(),
                properties: bag(vec![("solid", PropertyValue::Bool(true))]),
            },
        ],
    }
}

fn tile_ref(ts: usize, id: u32) -> Option<TileRef> {
    Some(TileRef { tileset_index: ts, tile_id: id, flip_h: false, flip_v: false, flip_d: false })
}

fn grid_layer(name: &str, w: u32, h: u32, cells: Vec<Option<TileRef>>, props: PropertyBag) -> Layer {
    assert_eq!(cells.len(), (w * h) as usize);
    Layer::Tiles(TileLayer {
        name: name.to_string(),
        offset_x: 0,
        offset_y: 0,
        z: -1,
        properties: props,
        cells,
    })
}

fn one_cell_doc() -> TileMapDocument {
    TileMapDocument {
        width: 1,
        height: 1,
        tile_width: 16,
        tile_height: 16,
        orientation: Orientation::Orthogonal,
        tilesets: vec![simple_tileset()],
        layers: vec![grid_layer("ground", 1, 1, vec![tile_ref(0, 1)], bag(vec![]))],
    }
}

fn frame_10() -> MapFrame {
    MapFrame {
        width: 10,
        height: 10,
        tile_width: 16,
        tile_height: 16,
        orientation: Orientation::Orthogonal,
    }
}

#[test]
fn world_y_of_top_row_is_flipped_to_row_nine() {
    // A map of height 10 with 16-pixel tiles: grid row 0 (the top) lands on
    // world row 9. In subpixels (256 per pixel) that cell center sits at
    // 9 * 16 * 256 - 9 * 16 * 128 = 18432, i.e. 72 pixels above the origin.
    let p = to_world(&frame_10(), 0, 0, 0, 0, 0).unwrap();
    assert_eq!(p.y, 18432);
    assert_eq!(p.x, -18432);
    assert_eq!(p.z, 0);
}

#[test]
fn world_y_of_bottom_row_is_flipped_to_row_zero() {
    let p = to_world(&frame_10(), 0, 9, 0, 0, 0).unwrap();
    assert_eq!(p.y, -18432);
}

#[test]
fn row_flip_round_trips() {
    // Mapping a row down and reading it back through the same flip returns
    // the original row, for every row of the map.
    for row in 0..10u32 {
        let p = to_world(&frame_10(), 0, row, 0, 0, 0).unwrap();
        let q = to_world(&frame_10(), 0, 9 - row, 0, 0, 0).unwrap();
        assert_eq!(p.y, -q.y);
    }
}

#[test]
fn layer_offset_shifts_and_inverts_vertically() {
    // offset (3 px, 5 px): x moves +768 subpixels, y moves -1280.
    let base = to_world(&frame_10(), 0, 0, 0, 0, 0).unwrap();
    let moved = to_world(&frame_10(), 0, 0, 768, 1280, 0).unwrap();
    assert_eq!(moved.x, base.x + 768);
    assert_eq!(moved.y, base.y - 1280);
}

#[test]
fn non_orthogonal_orientation_is_refused() {
    let mut f = frame_10();
    f.orientation = Orientation::Isometric;
    assert_eq!(to_world(&f, 0, 0, 0, 0, 0), Err(MapError::UnsupportedOrientation));
}

#[test]
fn point_cell_snaps_to_containing_cell() {
    // 20 pixels into the map (5120 subpixels) lies in cell 1 of 16-pixel tiles.
    assert_eq!(point_cell(&frame_10(), 5120, 0), (1, 0));
    // An out-of-range point snaps to cell (0, 0).
    assert_eq!(point_cell(&frame_10(), -1, 0), (0, 0));
    assert_eq!(point_cell(&frame_10(), 16 * 256 * 10, 0), (0, 0));
}

#[test]
fn one_cell_batch_has_exact_cell_and_translation() {
    let doc = one_cell_doc();
    let batches = build_batches(&doc);
    assert_eq!(batches.len(), 1);
    let b = &batches[0];
    assert_eq!(b.tileset_index, 0);
    assert_eq!(b.layer_index, 0);
    assert_eq!(b.z, -1);
    // A 1x1 map centered on the origin translates by zero.
    assert_eq!(b.translation, WorldPos { x: 0, y: 0, z: -1 });
    assert_eq!(b.tile_width, 16);
    assert_eq!(b.spacing, 0);
    assert_eq!(b.cells.len(), 1);
    assert_eq!(
        b.cells[0],
        Some(BatchCell { texture_index: 1, flip_h: false, flip_v: false, flip_d: false })
    );
}

#[test]
fn batch_rows_are_flipped_bottom_up() {
    // 1 column, 2 rows: the source's top cell (row 0) must land in the
    // batch's top row, which is index 1 of the bottom-up grid.
    let doc = TileMapDocument {
        width: 1,
        height: 2,
        tile_width: 16,
        tile_height: 16,
        orientation: Orientation::Orthogonal,
        tilesets: vec![simple_tileset()],
        layers: vec![grid_layer("g", 1, 2, vec![tile_ref(0, 1), None], bag(vec![]))],
    };
    let batches = build_batches(&doc);
    assert_eq!(batches.len(), 1);
    assert_eq!(batches[0].cells[0], None);
    assert_eq!(batches[0].cells[1].unwrap().texture_index, 1);
}

#[test]
fn empty_combination_yields_no_batch() {
    // Two tilesets; the single layer references only tileset 1, so the
    // (tileset 0, layer) combination contributes no batch at all.
    let doc = TileMapDocument {
        width: 1,
        height: 1,
        tile_width: 16,
        tile_height: 16,
        orientation: Orientation::Orthogonal,
        tilesets: vec![simple_tileset(), simple_tileset()],
        layers: vec![grid_layer("g", 1, 1, vec![tile_ref(1, 1)], bag(vec![]))],
    };
    let batches = build_batches(&doc);
    assert_eq!(batches.len(), 1);
    assert_eq!(batches[0].tileset_index, 1);
}

#[test]
fn missing_texture_skips_tileset() {
    let mut ts = simple_tileset();
    ts.texture = None;
    let doc = TileMapDocument {
        width: 1,
        height: 1,
        tile_width: 16,
        tile_height: 16,
        orientation: Orientation::Orthogonal,
        tilesets: vec![ts],
        layers: vec![grid_layer("g", 1, 1, vec![tile_ref(0, 1)], bag(vec![]))],
    };
    assert!(build_batches(&doc).is_empty());
    // The property table keeps an empty row for the skipped tileset.
    let props = build_tiles_properties(&doc);
    assert_eq!(props.props.len(), 1);
    assert!(props.props[0].is_empty());
}

#[test]
fn tileset_restriction_limits_layer_to_declared_tileset() {
    // The layer restricts itself to tileset 1 while its cells reference
    // tileset 0: neither pair produces a batch.
    let doc = TileMapDocument {
        width: 1,
        height: 1,
        tile_width: 16,
        tile_height: 16,
        orientation: Orientation::Orthogonal,
        tilesets: vec![simple_tileset(), simple_tileset()],
        layers: vec![grid_layer(
            "g",
            1,
            1,
            vec![tile_ref(0, 1)],
            bag(vec![("tileset_index", PropertyValue::Int(1))]),
        )],
    };
    assert!(build_batches(&doc).is_empty());
}

#[test]
fn logic_layer_is_never_batched() {
    let doc = TileMapDocument {
        width: 1,
        height: 1,
        tile_width: 16,
        tile_height: 16,
        orientation: Orientation::Orthogonal,
        tilesets: vec![simple_tileset()],
        layers: vec![grid_layer(
            "Logic overlay",
            1,
            1,
            vec![tile_ref(0, 1)],
            bag(vec![("parent", PropertyValue::Str("ground".to_string()))]),
        )],
    };
    assert!(build_batches(&doc).is_empty());
}

#[test]
fn rect_collider_gets_centroid_anchor_correction() {
    // One 16x16 tile at the origin with an 8x4 pixel box anchored 2 px
    // right and 3 px below the tile's top-left corner. In subpixels: the
    // box center sits at x = 512 + 1024 - 2048 = -512 and
    // y = 2048 - 512 - 768 = 768 relative to the tile center.
    let mut ts = simple_tileset();
    ts.tiles[1].collision_shapes = vec![CollisionShape {
        local_x: 512,
        local_y: 768,
        kind: ShapeKind::Rect { width: 2048, height: 1024 },
    }];
    let doc = TileMapDocument {
        width: 1,
        height: 1,
        tile_width: 16,
        tile_height: 16,
        orientation: Orientation::Orthogonal,
        tilesets: vec![ts],
        layers: vec![grid_layer("g", 1, 1, vec![tile_ref(0, 1)], bag(vec![]))],
    };
    let bodies = extract_colliders(&doc);
    assert_eq!(bodies.len(), 1);
    assert_eq!(bodies[0].x, -512);
    assert_eq!(bodies[0].y, 768);
    assert_eq!(bodies[0].z, -1);
    assert_eq!(
        bodies[0].shape,
        ColliderShape::Cuboid { half_width: 1024, half_height: 512 }
    );
}

#[test]
fn ellipse_collider_becomes_ball_of_half_width() {
    let mut ts = simple_tileset();
    ts.tiles[1].collision_shapes = vec![CollisionShape {
        local_x: 512,
        local_y: 768,
        kind: ShapeKind::Ellipse { width: 2048, height: 1024 },
    }];
    let doc = TileMapDocument {
        width: 1,
        height: 1,
        tile_width: 16,
        tile_height: 16,
        orientation: Orientation::Orthogonal,
        tilesets: vec![ts],
        layers: vec![grid_layer("g", 1, 1, vec![tile_ref(0, 1)], bag(vec![]))],
    };
    let bodies = extract_colliders(&doc);
    assert_eq!(bodies.len(), 1);
    // The vertical correction uses the ball's radius, not the declared height.
    assert_eq!(bodies[0].y, 2048 - 1024 - 768);
    assert_eq!(bodies[0].shape, ColliderShape::Ball { radius: 1024 });
}

#[test]
fn unsupported_shape_is_skipped_without_dropping_others() {
    let mut ts = simple_tileset();
    ts.tiles[1].collision_shapes = vec![
        CollisionShape { local_x: 0, local_y: 0, kind: ShapeKind::Other },
        CollisionShape { local_x: 0, local_y: 0, kind: ShapeKind::Rect { width: 512, height: 512 } },
    ];
    let doc = TileMapDocument {
        width: 1,
        height: 1,
        tile_width: 16,
        tile_height: 16,
        orientation: Orientation::Orthogonal,
        tilesets: vec![ts],
        layers: vec![grid_layer("g", 1, 1, vec![tile_ref(0, 1)], bag(vec![]))],
    };
    let bodies = extract_colliders(&doc);
    assert_eq!(bodies.len(), 1);
    assert_eq!(bodies[0].shape, ColliderShape::Cuboid { half_width: 256, half_height: 256 });
}

fn object_doc(objects: Vec<PlacedObject>) -> TileMapDocument {
    TileMapDocument {
        width: 10,
        height: 10,
        tile_width: 16,
        tile_height: 16,
        orientation: Orientation::Orthogonal,
        tilesets: vec![simple_tileset()],
        layers: vec![Layer::Objects(ObjectLayer {
            name: "things".to_string(),
            offset_x: 0,
            offset_y: 0,
            objects,
        })],
    }
}

fn npc_object(id: Option<PropertyValue>, z: Option<PropertyValue>) -> PlacedObject {
    let mut entries = Vec::new();
    if let Some(v) = id {
        entries.push(("id", v));
    }
    if let Some(v) = z {
        entries.push(("z", v));
    }
    PlacedObject { kind_tag: "npc".to_string(), x: 0, y: 0, properties: bag(entries) }
}

#[test]
fn npc_with_id_and_z_spawns_once() {
    let doc = object_doc(vec![npc_object(
        Some(PropertyValue::Str("bob".to_string())),
        Some(PropertyValue::Int(2)),
    )]);
    let (signs, npcs) = extract_objects(&doc);
    assert!(signs.signs.is_empty());
    assert_eq!(npcs.npcs.len(), 1);
    assert_eq!(npcs.npcs[0].name, "bob");
    assert_eq!(npcs.npcs[0].pos, WorldPos { x: -18432, y: 18432, z: 2 });
}

#[test]
fn npc_without_id_is_dropped_and_others_survive() {
    let doc = object_doc(vec![
        npc_object(None, Some(PropertyValue::Int(2))),
        npc_object(Some(PropertyValue::Str("bob".to_string())), Some(PropertyValue::Int(2))),
    ]);
    let (_, npcs) = extract_objects(&doc);
    assert_eq!(npcs.npcs.len(), 1);
    assert_eq!(npcs.npcs[0].name, "bob");
}

#[test]
fn npc_with_empty_or_mistyped_id_is_dropped() {
    let doc = object_doc(vec![
        npc_object(Some(PropertyValue::Str(String::new())), Some(PropertyValue::Int(2))),
        npc_object(Some(PropertyValue::Int(7)), Some(PropertyValue::Int(2))),
    ]);
    let (_, npcs) = extract_objects(&doc);
    assert!(npcs.npcs.is_empty());
}

#[test]
fn npc_with_negative_or_missing_z_is_dropped() {
    let doc = object_doc(vec![
        npc_object(Some(PropertyValue::Str("a".to_string())), Some(PropertyValue::Int(-1))),
        npc_object(Some(PropertyValue::Str("b".to_string())), None),
    ]);
    let (_, npcs) = extract_objects(&doc);
    assert!(npcs.npcs.is_empty());
}

#[test]
fn sign_with_empty_properties_defaults_and_is_never_dropped() {
    let doc = object_doc(vec![PlacedObject {
        kind_tag: "sign".to_string(),
        x: 0,
        y: 0,
        properties: bag(vec![]),
    }]);
    let (signs, npcs) = extract_objects(&doc);
    assert!(npcs.npcs.is_empty());
    assert_eq!(signs.signs.len(), 1);
    assert_eq!(signs.signs[0].id, 0);
    assert_eq!(signs.signs[0].x, -18432);
    assert_eq!(signs.signs[0].y, 18432);
}

#[test]
fn unknown_kind_tag_is_ignored() {
    let doc = object_doc(vec![PlacedObject {
        kind_tag: "decoration".to_string(),
        x: 0,
        y: 0,
        properties: bag(vec![]),
    }]);
    let (signs, npcs) = extract_objects(&doc);
    assert!(signs.signs.is_empty());
    assert!(npcs.npcs.is_empty());
}

#[test]
fn logic_layer_materializes_parent_grid_bottom_up() {
    // 1 column, 2 rows; the top source cell holds id 1. The grid uses the
    // mapped order (row 0 at the bottom), so the id lands at index 1.
    let doc = TileMapDocument {
        width: 1,
        height: 2,
        tile_width: 16,
        tile_height: 16,
        orientation: Orientation::Orthogonal,
        tilesets: vec![simple_tileset()],
        layers: vec![grid_layer(
            "Logic overlay",
            1,
            2,
            vec![tile_ref(0, 1), None],
            bag(vec![("parent", PropertyValue::Str("ground".to_string()))]),
        )],
    };
    let grids = resolve_logic_layers(&doc);
    assert_eq!(grids.len(), 1);
    assert_eq!(grids[0].parent, "ground");
    assert_eq!(grids[0].cells, vec![0, 1]);
    assert_eq!(logic_lookup(&grids, "ground"), Some(&vec![0u32, 1u32]));
    assert_eq!(logic_lookup(&grids, "elsewhere"), None);
}

#[test]
fn logic_layer_without_parent_is_skipped() {
    let doc = TileMapDocument {
        width: 1,
        height: 1,
        tile_width: 16,
        tile_height: 16,
        orientation: Orientation::Orthogonal,
        tilesets: vec![simple_tileset()],
        layers: vec![grid_layer("Logic overlay", 1, 1, vec![tile_ref(0, 1)], bag(vec![]))],
    };
    assert!(resolve_logic_layers(&doc).is_empty());
}

fn store_with(map_id: u64, doc: TileMapDocument) -> DocumentStore {
    let mut store = DocumentStore::new();
    store.insert(map_id, doc);
    store
}

#[test]
fn rebuild_twice_is_identical_with_no_growth() {
    let store = store_with(7, one_cell_doc());
    let events = vec![MapEvent::Modified { map_id: 7 }];
    let mut scene = SceneState::new();
    scene.reconcile(&events, &store);
    let after_one_entries = scene.entries.len();
    let after_one_batches = scene.entries[0].derived.batches.len();
    let after_one_cells = scene.entries[0].derived.batches[0].cells.clone();
    scene.reconcile(&events, &store);
    assert_eq!(scene.entries.len(), after_one_entries);
    assert_eq!(scene.entries[0].derived.batches.len(), after_one_batches);
    assert_eq!(scene.entries[0].derived.batches[0].cells, after_one_cells);
}

#[test]
fn remove_event_tears_down_everything() {
    let store = store_with(7, one_cell_doc());
    let mut scene = SceneState::new();
    scene.reconcile(&vec![MapEvent::Created { map_id: 7 }], &store);
    assert_eq!(scene.entries.len(), 1);
    scene.reconcile(&vec![MapEvent::Removed { map_id: 7 }], &store);
    assert!(scene.entries.is_empty());
}

#[test]
fn remove_wins_over_earlier_modify_in_one_pass() {
    let store = store_with(7, one_cell_doc());
    let mut scene = SceneState::new();
    scene.reconcile(&vec![MapEvent::Created { map_id: 7 }], &store);
    scene.reconcile(
        &vec![MapEvent::Modified { map_id: 7 }, MapEvent::Removed { map_id: 7 }],
        &store,
    );
    assert!(scene.entries.is_empty());
}

#[test]
fn modify_after_remove_in_one_pass_rebuilds() {
    let store = store_with(7, one_cell_doc());
    let mut scene = SceneState::new();
    scene.reconcile(
        &vec![MapEvent::Removed { map_id: 7 }, MapEvent::Modified { map_id: 7 }],
        &store,
    );
    assert_eq!(scene.entries.len(), 1);
}

#[test]
fn other_maps_are_untouched_by_a_rebuild() {
    let mut store = DocumentStore::new();
    store.insert(1, one_cell_doc());
    store.insert(2, one_cell_doc());
    let mut scene = SceneState::new();
    scene.reconcile(
        &vec![MapEvent::Created { map_id: 1 }, MapEvent::Created { map_id: 2 }],
        &store,
    );
    assert_eq!(scene.entries.len(), 2);
    scene.reconcile(&vec![MapEvent::Removed { map_id: 1 }], &store);
    assert_eq!(scene.entries.len(), 1);
    assert_eq!(scene.entries[0].map_id, 2);
}

#[test]
fn unsupported_orientation_preserves_previous_state() {
    let mut store = store_with(7, one_cell_doc());
    let mut scene = SceneState::new();
    scene.reconcile(&vec![MapEvent::Created { map_id: 7 }], &store);
    assert_eq!(scene.entries.len(), 1);
    let mut bad = one_cell_doc();
    bad.orientation = Orientation::Isometric;
    assert!(rebuild_document(&bad).is_err());
    store.insert(7, bad);
    scene.reconcile(&vec![MapEvent::Modified { map_id: 7 }], &store);
    // The fatal error left the previously derived state in place.
    assert_eq!(scene.entries.len(), 1);
    assert_eq!(scene.entries[0].derived.batches.len(), 1);
}

#[test]
fn rebuild_produces_all_derived_outputs() {
    let mut ts = simple_tileset();
    ts.tiles[1].collision_shapes = vec![CollisionShape {
        local_x: 0,
        local_y: 0,
        kind: ShapeKind::Rect { width: 4096, height: 4096 },
    }];
    let doc = TileMapDocument {
        width: 2,
        height: 2,
        tile_width: 16,
        tile_height: 16,
        orientation: Orientation::Orthogonal,
        tilesets: vec![ts],
        layers: vec![
            Layer::Tiles(TileLayer {
                name: "ground".to_string(),
                offset_x: 0,
                offset_y: 0,
                z: 3,
                properties: bag(vec![]),
                cells: vec![tile_ref(0, 1), None, None, tile_ref(0, 0)],
            }),
            Layer::Objects(ObjectLayer {
                name: "things".to_string(),
                offset_x: 0,
                offset_y: 0,
                objects: vec![PlacedObject {
                    kind_tag: "sign".to_string(),
                    x: 0,
                    y: 0,
                    properties: bag(vec![("id", PropertyValue::Int(5))]),
                }],
            }),
            grid_layer(
                "Logic overlay",
                2,
                2,
                vec![None, tile_ref(0, 1), None, None],
                bag(vec![("parent", PropertyValue::Str("ground".to_string()))]),
            ),
        ],
    };
    let derived = rebuild_document(&doc).unwrap();
    assert_eq!(derived.batches.len(), 1);
    assert_eq!(derived.batches[0].z, 3);
    assert_eq!(derived.colliders.len(), 1);
    assert_eq!(derived.signs.signs.len(), 1);
    assert_eq!(derived.signs.signs[0].id, 5);
    assert_eq!(derived.logic_grids.len(), 1);
    // The source's top-right cell holds id 1; in the bottom-up mapped grid
    // that is column 1 of row 1, index 3.
    assert_eq!(derived.logic_grids[0].cells, vec![0, 0, 0, 1]);
    assert_eq!(derived.tile_props.props.len(), 1);
    assert_eq!(derived.tile_props.props[0].len(), 2);
}

#[test]
fn pools_are_replaced_wholesale_on_rebuild() {
    let mut store = store_with(
        7,
        object_doc(vec![PlacedObject {
            kind_tag: "sign".to_string(),
            x: 0,
            y: 0,
            properties: bag(vec![("id", PropertyValue::Int(1))]),
        }]),
    );
    let mut scene = SceneState::new();
    scene.reconcile(&vec![MapEvent::Created { map_id: 7 }], &store);
    assert_eq!(scene.entries[0].derived.signs.signs[0].id, 1);
    // A modified document replaces the pools outright: nothing of the old
    // sign survives, and nothing is merged.
    store.insert(
        7,
        object_doc(vec![PlacedObject {
            kind_tag: "sign".to_string(),
            x: 0,
            y: 0,
            properties: bag(vec![("id", PropertyValue::Int(9))]),
        }]),
    );
    scene.reconcile(&vec![MapEvent::Modified { map_id: 7 }], &store);
    assert_eq!(scene.entries[0].derived.signs.signs.len(), 1);
    assert_eq!(scene.entries[0].derived.signs.signs[0].id, 9);
}

#[test]
fn logic_named_object_layer_is_not_extracted() {
    let mut doc = object_doc(vec![PlacedObject {
        kind_tag: "sign".to_string(),
        x: 0,
        y: 0,
        properties: bag(vec![]),
    }]);
    match &mut doc.layers[0] {
        Layer::Objects(ol) => ol.name = "Logic markers".to_string(),
        _ => unreachable!(),
    }
    let (signs, npcs) = extract_objects(&doc);
    assert!(signs.signs.is_empty());
    assert!(npcs.npcs.is_empty());
}

#[test]
fn without_tilesets_no_object_layer_is_visited() {
    let mut doc = object_doc(vec![PlacedObject {
        kind_tag: "sign".to_string(),
        x: 0,
        y: 0,
        properties: bag(vec![]),
    }]);
    doc.tilesets = Vec::new();
    let (signs, npcs) = extract_objects(&doc);
    assert!(signs.signs.is_empty());
    assert!(npcs.npcs.is_empty());
}

#[test]
fn document_store_replaces_wholesale() {
    let mut store = store_with(7, one_cell_doc());
    let mut bigger = one_cell_doc();
    bigger.width = 2;
    bigger.layers = vec![grid_layer("g", 2, 1, vec![tile_ref(0, 1), None], bag(vec![]))];
    store.insert(7, bigger);
    assert_eq!(store.get(7).unwrap().width, 2);
    assert!(store.get(8).is_none());
}
