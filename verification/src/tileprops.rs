//! The queryable per-tile property table: tileset index to tile id to
//! property bag, materialized once per rebuild for gameplay and animation
//! collaborators. A tileset without a resolved texture is skipped and
//! contributes an empty row, matching the batcher's treatment of such
//! tilesets.

use vstd::prelude::*;

use crate::document::{doc_wf, DocumentView, TileMapDocument};
use crate::props::{PropertyBag, PropertyView};

verus! {

/// Property bags of every tile, indexed by tileset index, then tile id.
#[derive(Clone, Debug)]
pub struct TilesProperties {
    pub props: Vec<Vec<PropertyBag>>,
}

impl DeepView for TilesProperties {
    type V = Seq<Seq<Seq<PropertyView>>>;

    open spec fn deep_view(&self) -> Seq<Seq<Seq<PropertyView>>> {
        self.props.deep_view()
    }
}

/// The property table of a document: one row per tileset, empty for a
/// tileset without a resolved texture, else one bag per tile in id order.
pub open spec fn spec_tiles_properties(d: DocumentView) -> Seq<Seq<Seq<PropertyView>>> {
    Seq::new(
        d.tilesets.len(),
        |t: int|
            if d.tilesets[t].texture is Some {
                Seq::new(d.tilesets[t].tiles.len(), |i: int| d.tilesets[t].tiles[i].properties)
            } else {
                Seq::<Seq<PropertyView>>::empty()
            },
    )
}

/// Materializes the property table of a document.
pub fn build_tiles_properties(doc: &TileMapDocument) -> (r: TilesProperties)
    requires
        doc_wf(doc.deep_view()),
    ensures
        r.deep_view() == spec_tiles_properties(doc.deep_view()),
{
    let ghost dv = doc.deep_view();
    let nts = doc.tilesets.len();
    let mut props: Vec<Vec<PropertyBag>> = Vec::new();
    let mut ts: usize = 0;
    while ts < nts
        invariant
            dv == doc.deep_view(),
            nts == dv.tilesets.len(),
            ts <= nts,
            props.deep_view() == spec_tiles_properties(dv).subrange(0, ts as int),
        decreases nts - ts,
    {
        let ghost prev = props.deep_view();
        let tset = &doc.tilesets[ts];
        proof {
            assert(dv.tilesets[ts as int] == doc.tilesets@[ts as int].deep_view());
        }
        if tset.texture.is_some() {
            let ntiles = tset.tiles.len();
            let mut row: Vec<PropertyBag> = Vec::new();
            let mut i: usize = 0;
            while i < ntiles
                invariant
                    dv == doc.deep_view(),
                    ts < dv.tilesets.len(),
                    dv.tilesets[ts as int] == doc.tilesets@[ts as int].deep_view(),
                    tset == &doc.tilesets@[ts as int],
                    ntiles == tset.tiles@.len(),
                    i <= ntiles,
                    row.deep_view() == Seq::new(
                        dv.tilesets[ts as int].tiles.len(),
                        |j: int| dv.tilesets[ts as int].tiles[j].properties,
                    ).subrange(0, i as int),
                decreases ntiles - i,
            {
                let bag = tset.tiles[i].properties.duplicate();
                let ghost rprev = row.deep_view();
                proof {
                    assert(dv.tilesets[ts as int].tiles[i as int] == tset.tiles@[i as int].deep_view());
                }
                row.push(bag);
                proof {
                    assert(row.deep_view() =~= rprev.push(bag.deep_view()));
                    assert(row.deep_view() =~= Seq::new(
                        dv.tilesets[ts as int].tiles.len(),
                        |j: int| dv.tilesets[ts as int].tiles[j].properties,
                    ).subrange(0, i as int + 1));
                }
                i = i + 1;
            }
            proof {
                assert(row.deep_view() =~= Seq::new(
                    dv.tilesets[ts as int].tiles.len(),
                    |j: int| dv.tilesets[ts as int].tiles[j].properties,
                ));
                assert(row.deep_view() == spec_tiles_properties(dv)[ts as int]);
            }
            let ghost prevv = props@;
            proof {
                assert(prev == spec_tiles_properties(dv).subrange(0, ts as int));
                assert(prev.len() == ts);
                assert(props@.len() == ts);
            }
            props.push(row);
            proof {
                assert(props@.len() == ts + 1);
                assert(props@[ts as int] == row);
                assert(props.deep_view()[ts as int] == row.deep_view());
                assert(prev.len() == ts);
                assert forall|j: int| 0 <= j < ts implies props.deep_view()[j] == prev[j] by {
                    assert(props@[j] == prevv[j]);
                    assert(prev[j] == prevv[j].deep_view());
                }
                assert(props.deep_view() =~= spec_tiles_properties(dv).subrange(0, ts as int + 1));
            }
        } else {
            let empty_row: Vec<PropertyBag> = Vec::new();
            proof {
                assert(empty_row.deep_view() =~= Seq::<Seq<PropertyView>>::empty());
                assert(empty_row.deep_view() == spec_tiles_properties(dv)[ts as int]);
            }
            props.push(empty_row);
            proof {
                assert(props.deep_view() =~~= spec_tiles_properties(dv).subrange(0, ts as int + 1));
            }
        }
        ts = ts + 1;
    }
    proof {
        assert(spec_tiles_properties(dv).subrange(0, nts as int) =~= spec_tiles_properties(dv));
    }
    TilesProperties { props }
}

} // verus!
