//! A set of tiles, found by coordinate.

use crate::tile::{tile_coord_of, tile_id_of, Tile};
use crate::tile_list::has_coord;
use std::collections::HashSet;
use vstd::prelude::*;

verus! {

/// Whether the archive format gives the coordinate `c` an id that leads
/// back to `c`, as it does for the coordinate of every tile.
pub open spec fn faithful(c: (u8, u32, u32)) -> bool {
    tile_coord_of(tile_id_of(c.0, c.1, c.2)) == c
}

/// A set of tiles, found by coordinate: the tiles that an archive already
/// holds. It keeps the tile ids.
pub struct TileSet {
    ids: HashSet<u64>,
}

impl View for TileSet {
    type V = Set<(u8, u32, u32)>;

    /// The coordinates whose tile id is in the set.
    closed spec fn view(&self) -> Set<(u8, u32, u32)> {
        Set::new(|c: (u8, u32, u32)| faithful(c) && self.ids@.contains(tile_id_of(c.0, c.1, c.2)))
    }
}

impl TileSet {
    /// The empty set.
    pub fn new() -> (s: TileSet)
        ensures
            s@ == Set::<(u8, u32, u32)>::empty(),
    {
        broadcast use vstd::std_specs::hash::group_hash_axioms;

        let s = TileSet { ids: HashSet::new() };
        assert(s@ =~= Set::<(u8, u32, u32)>::empty());
        s
    }

    /// Adds a tile to the set.
    pub fn insert(&mut self, tile: Tile)
        ensures
            final(self)@ == old(self)@.insert(tile@),
    {
        broadcast use vstd::std_specs::hash::group_hash_axioms;

        proof {
            use_type_invariant(&tile);
        }
        self.ids.insert(tile.to_id());
        assert(self@ =~= old(self)@.insert(tile@));
    }

    /// Whether the tile is in the set.
    pub fn contains(&self, tile: &Tile) -> (found: bool)
        ensures
            found == self@.contains(tile@),
    {
        broadcast use vstd::std_specs::hash::group_hash_axioms;

        proof {
            use_type_invariant(tile);
        }
        self.ids.contains(&tile.to_id())
    }

    /// The set of the tiles of `tiles`.
    pub fn from_tiles(tiles: &Vec<Tile>) -> (s: TileSet)
        ensures
            forall|c: (u8, u32, u32)| s@.contains(c) <==> has_coord(tiles@, c),
    {
        let mut s: TileSet = TileSet::new();
        let mut i: usize = 0;
        while i < tiles.len()
            invariant
                i <= tiles.len(),
                forall|c: (u8, u32, u32)| s@.contains(c) <==> has_coord(tiles@.take(i as int), c),
            decreases tiles.len() - i,
        {
            let ghost before = s@;
            s.insert(tiles[i]);
            proof {
                let a = tiles@.take(i as int);
                let b = tiles@.take(i + 1);
                assert forall|c: (u8, u32, u32)| s@.contains(c) <==> has_coord(b, c) by {
                    if has_coord(b, c) {
                        let k = choose|k: int| 0 <= k < b.len() && (#[trigger] b[k])@ == c;
                        if k < i {
                            assert(a[k]@ == c);
                        }
                    }
                    if before.contains(c) {
                        let k = choose|k: int| 0 <= k < a.len() && (#[trigger] a[k])@ == c;
                        assert(b[k]@ == c);
                    }
                    if c == tiles@[i as int]@ {
                        assert(b[i as int]@ == c);
                    }
                }
            }
            i = i + 1;
        }
        assert(tiles@.take(i as int) =~= tiles@);
        s
    }
}

} // verus!
