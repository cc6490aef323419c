//! Appending to an archive: the tiles that the archive already holds, and
//! how they are carried over into the archive that replaces it.

use crate::tile::{decoded, Tile};
use crate::tile_list::has_coord;
use crate::tile_set::TileSet;
use crate::writer::WriteTileMsg;
use vstd::prelude::*;

verus! {

/// Why the tiles of an archive could not be taken over.
#[derive(Debug, PartialEq, Eq)]
pub enum AppendError {
    /// The number at this position of the directory is no tile's id.
    InvalidTileId { position: usize },
}

/// Whether every id of `ids` before position `k` is the id of a tile.
pub open spec fn all_decode(ids: Seq<u64>, k: int) -> bool {
    forall|i: int| 0 <= i < k ==> decoded(#[trigger] ids[i]) is Some
}

/// The tiles of an existing archive, in the order of its directory.
pub struct AppendReader {
    tiles: Vec<Tile>,
}

impl View for AppendReader {
    type V = Seq<Tile>;

    closed spec fn view(&self) -> Seq<Tile> {
        self.tiles@
    }
}

/// `v` from its last element to its first.
fn reversed(v: Vec<Option<Vec<u8>>>) -> (out: Vec<Option<Vec<u8>>>)
    ensures
        out@ == v@.reverse(),
{
    let mut rest: Vec<Option<Vec<u8>>> = v;
    let mut out: Vec<Option<Vec<u8>>> = Vec::new();
    while rest.len() > 0
        invariant
            rest@.len() + out@.len() == v@.len(),
            forall|i: int| 0 <= i < rest@.len() ==> rest@[i] == v@[i],
            forall|i: int| 0 <= i < out@.len() ==> out@[i] == v@[v@.len() - 1 - i],
        decreases rest.len(),
    {
        match rest.pop() {
            Some(item) => {
                out.push(item);
            },
            None => {},
        }
    }
    assert(out@ =~= v@.reverse());
    out
}

impl AppendReader {
    /// The reader for an archive whose directory lists these tile ids, one
    /// for each tile. Each must be the id of a tile.
    pub fn new(ids: &Vec<u64>) -> (r: Result<AppendReader, AppendError>)
        ensures
            match r {
                Ok(reader) => {
                    &&& all_decode(ids@, ids@.len() as int)
                    &&& reader@.len() == ids@.len()
                    &&& forall|i: int|
                        0 <= i < ids@.len() ==> (#[trigger] reader@[i]).wf() && reader@[i].spec_id()
                            == ids@[i] && decoded(ids@[i]) == Some(reader@[i]@)
                },
                Err(AppendError::InvalidTileId { position }) => {
                    &&& position < ids@.len()
                    &&& decoded(ids@[position as int]) is None
                    &&& all_decode(ids@, position as int)
                },
            },
    {
        let mut tiles: Vec<Tile> = Vec::new();
        let mut k: usize = 0;
        while k < ids.len()
            invariant
                k <= ids.len(),
                all_decode(ids@, k as int),
                tiles@.len() == k,
                forall|i: int|
                    0 <= i < k ==> (#[trigger] tiles@[i]).wf() && tiles@[i].spec_id() == ids@[i]
                        && decoded(ids@[i]) == Some(tiles@[i]@),
            decreases ids.len() - k,
        {
            match Tile::from_id(ids[k]) {
                Some(tile) => {
                    tiles.push(tile);
                },
                None => {
                    return Err(AppendError::InvalidTileId { position: k });
                },
            }
            k = k + 1;
        }
        Ok(AppendReader { tiles })
    }

    /// The number of tiles in the archive: the index at which the tiles
    /// that are fetched anew begin.
    pub fn len(&self) -> (n: usize)
        ensures
            n == self@.len(),
    {
        self.tiles.len()
    }

    /// The tiles of the archive, in the order of its directory.
    pub fn tiles(&self) -> (tiles: &Vec<Tile>)
        ensures
            tiles@ == self@,
    {
        &self.tiles
    }

    /// The tiles of the archive as a set.
    pub fn get_tiles(&self) -> (set: TileSet)
        ensures
            forall|c: (u8, u32, u32)| set@.contains(c) <==> has_coord(self@, c),
    {
        TileSet::from_tiles(&self.tiles)
    }

    /// The messages that carry tiles of the archive over to the writer:
    /// for the tiles from position `first` on, one for each payload, with
    /// the position of the tile as its index. A tile keeps the place that
    /// it had.
    pub fn read_tiles(&self, first: usize, payloads: Vec<Option<Vec<u8>>>) -> (msgs: Vec<
        WriteTileMsg,
    >)
        requires
            first + payloads@.len() <= self@.len(),
        ensures
            msgs@.len() == payloads@.len(),
            forall|k: int|
                0 <= k < msgs@.len() ==> (#[trigger] msgs@[k]).index == first + k && msgs@[k].tile
                    == self@[first + k] && msgs@[k].data == payloads@[k],
    {
        let ghost given = payloads@;
        let total: usize = self.tiles.len();
        let mut rest: Vec<Option<Vec<u8>>> = reversed(payloads);
        let mut msgs: Vec<WriteTileMsg> = Vec::new();
        let mut k: usize = 0;
        while rest.len() > 0
            invariant
                first + given.len() <= self@.len(),
                total == self@.len(),
                k + rest@.len() == given.len(),
                msgs@.len() == k,
                forall|i: int| 0 <= i < rest@.len() ==> rest@[i] == given[given.len() - 1 - i],
                forall|i: int|
                    0 <= i < k ==> (#[trigger] msgs@[i]).index == first + i && msgs@[i].tile
                        == self@[first + i] && msgs@[i].data == given[i],
            decreases rest.len(),
        {
            assert(k < given.len());
            match rest.pop() {
                Some(data) => {
                    msgs.push(WriteTileMsg { index: first + k, tile: self.tiles[first + k], data });
                    k = k + 1;
                },
                None => {},
            }
        }
        msgs
    }
}

} // verus!
