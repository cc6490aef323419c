//! The work list: the tiles to fetch, in archive order, with the zoom range
//! and the extent that the archive's header reports, and the filters that
//! narrow the list.

use crate::sorting::{ascending_by_id, lemma_same_tiles, sort_by_id, sorted_by_id};
use crate::tile::{bounds_of, coord_of_captures, is_ancestor, valid_coord, Tile, MAX_ZOOM};
use crate::text::{lines_of_text, split, split_fields, text_lines, texts};
use crate::tile_set::TileSet;
use crate::tile_list_format::{
    compile_tile_format, line_pattern, regex_accepts, regex_captures, TileFormat,
    TileFormatError,
};
use vstd::prelude::*;
use vstd::seq_lib::*;

verus! {

/// A rectangle of the projected plane, in the units of `Tile::bounds`, that
/// tiles are selected by. Nothing is asked of the four edges.
#[derive(Clone, Copy, Debug, PartialEq, Eq, Structural)]
pub struct SimpleBBox {
    pub west: i64,
    pub south: i64,
    pub east: i64,
    pub north: i64,
}

/// Why a text gives no box.
#[derive(Debug, PartialEq, Eq)]
pub enum BBoxError {
    /// The text has this many fields between commas, and not four.
    FieldCount { found: usize },
}

impl SimpleBBox {
    /// The four fields of the text of a box, `min_x,min_y,max_x,max_y`:
    /// what stands between the commas. A text with more or fewer fields
    /// gives no box.
    pub fn fields(text: &str) -> (r: Result<Vec<String>, BBoxError>)
        ensures
            match r {
                Ok(fields) => texts(fields@) == split(text@, ',') && fields@.len() == 4,
                Err(BBoxError::FieldCount { found }) => found == split(text@, ',').len() && found
                    != 4,
            },
    {
        let fields: Vec<String> = split_fields(text, ',');
        assert(texts(fields@).len() == fields@.len());
        if fields.len() == 4 {
            Ok(fields)
        } else {
            Err(BBoxError::FieldCount { found: fields.len() })
        }
    }

    /// The box with these edges.
    pub fn new(min_x: i64, min_y: i64, max_x: i64, max_y: i64) -> (b: SimpleBBox)
        ensures
            b == (SimpleBBox { west: min_x, south: min_y, east: max_x, north: max_y }),
    {
        SimpleBBox { west: min_x, south: min_y, east: max_x, north: max_y }
    }

    /// The western edge.
    pub fn min_x(&self) -> (v: i64)
        ensures
            v == self.west,
    {
        self.west
    }

    /// The southern edge.
    pub fn min_y(&self) -> (v: i64)
        ensures
            v == self.south,
    {
        self.south
    }

    /// The eastern edge.
    pub fn max_x(&self) -> (v: i64)
        ensures
            v == self.east,
    {
        self.east
    }

    /// The northern edge.
    pub fn max_y(&self) -> (v: i64)
        ensures
            v == self.north,
    {
        self.north
    }
}

/// Whether a rectangle `(west, south, east, north)` lies wholly to one side
/// of the box: it ends before the box begins, or begins after it ends, on
/// either axis. Touching edges are not outside.
pub open spec fn outside(r: (i64, i64, i64, i64), b: SimpleBBox) -> bool {
    r.2 < b.west || r.0 > b.east || r.3 < b.south || r.1 > b.north
}

/// The part of a rectangle that lies within the box, edge by edge.
pub open spec fn clamp(r: (i64, i64, i64, i64), b: SimpleBBox) -> (i64, i64, i64, i64) {
    (
        if r.0 >= b.west { r.0 } else { b.west },
        if r.1 >= b.south { r.1 } else { b.south },
        if r.2 <= b.east { r.2 } else { b.east },
        if r.3 <= b.north { r.3 } else { b.north },
    )
}

/// The rectangle that contains nothing: growing it by a rectangle gives
/// that rectangle.
pub open spec fn empty_extent() -> (i64, i64, i64, i64) {
    (i64::MAX, i64::MAX, i64::MIN, i64::MIN)
}

/// The smallest rectangle around two rectangles.
pub open spec fn grow(e: (i64, i64, i64, i64), r: (i64, i64, i64, i64)) -> (i64, i64, i64, i64) {
    (
        if r.0 < e.0 { r.0 } else { e.0 },
        if r.1 < e.1 { r.1 } else { e.1 },
        if r.2 > e.2 { r.2 } else { e.2 },
        if r.3 > e.3 { r.3 } else { e.3 },
    )
}

/// The smallest rectangle around the tiles of `s` at zoom `zoom`; the empty
/// extent where `s` has none at that zoom.
pub open spec fn extent(s: Seq<Tile>, zoom: u8) -> (i64, i64, i64, i64)
    decreases s.len(),
{
    if s.len() == 0 {
        empty_extent()
    } else {
        let e = extent(s.drop_last(), zoom);
        let t = s.last();
        if t@.0 == zoom {
            grow(e, bounds_of(t@.0, t@.1, t@.2))
        } else {
            e
        }
    }
}

/// The zoom that stands for "no zoom": the lowest and the highest zoom of
/// a list without tiles. No tile has it.
pub const NO_ZOOM: u8 = 32;

/// The lowest zoom among the tiles of `s` that is below `NO_ZOOM`, and the
/// highest zoom among them; `(NO_ZOOM, 0)` where there is no tile.
pub open spec fn zoom_fold(s: Seq<Tile>) -> (u8, u8)
    decreases s.len(),
{
    if s.len() == 0 {
        (NO_ZOOM, 0)
    } else {
        let r = zoom_fold(s.drop_last());
        let z = s.last()@.0;
        (if z < r.0 { z } else { r.0 }, if z > r.1 { z } else { r.1 })
    }
}

/// The lowest and the highest zoom among the tiles of `s`: the zooms that
/// are actually there. Where there is no tile, both are `NO_ZOOM`.
pub open spec fn zoom_span(s: Seq<Tile>) -> (u8, u8) {
    if s.len() == 0 {
        (NO_ZOOM, NO_ZOOM)
    } else {
        zoom_fold(s)
    }
}

/// What the archive's header says of a tile list: the zoom range, and the
/// extent of the tiles in the projected plane.
///
/// The extent is taken from the tiles of the lowest zoom alone, since every
/// deeper tile lies inside one of them. It is `None` for an empty list.
#[derive(Clone, Copy, Debug, PartialEq, Eq)]
pub struct TileListMeta {
    pub min_zoom: u8,
    pub max_zoom: u8,
    pub bounds: Option<(i64, i64, i64, i64)>,
}

/// The header values of the tiles `s` for a given zoom range.
pub open spec fn meta_of(min_zoom: u8, max_zoom: u8, s: Seq<Tile>) -> TileListMeta {
    TileListMeta {
        min_zoom,
        max_zoom,
        bounds: if s.len() == 0 {
            None
        } else {
            Some(extent(s, min_zoom))
        },
    }
}

/// The header values of the tiles `s`: the zooms that are there, and the
/// extent of the tiles of the lowest of them.
pub open spec fn header_of(s: Seq<Tile>) -> TileListMeta {
    meta_of(zoom_span(s).0, zoom_span(s).1, s)
}

/// Whether every tile of `s` is well formed.
pub open spec fn all_wf(s: Seq<Tile>) -> bool {
    forall|i: int| 0 <= i < s.len() ==> (#[trigger] s[i]).wf()
}

impl TileListMeta {
    /// The header values of `tiles`.
    pub fn of(tiles: &Vec<Tile>) -> (m: TileListMeta)
        ensures
            m == header_of(tiles@),
    {
        let span: (u8, u8) = zoom_span_of(tiles);
        TileListMeta::new(span.0, span.1, tiles)
    }

    /// The header values of `tiles` for the zoom range `min_zoom..=max_zoom`:
    /// the extent is that of the tiles at `min_zoom`.
    pub fn new(min_zoom: u8, max_zoom: u8, tiles: &Vec<Tile>) -> (m: TileListMeta)
        ensures
            m == meta_of(min_zoom, max_zoom, tiles@),
    {
        if tiles.len() == 0 {
            return TileListMeta { min_zoom, max_zoom, bounds: None };
        }
        let mut west: i64 = i64::MAX;
        let mut south: i64 = i64::MAX;
        let mut east: i64 = i64::MIN;
        let mut north: i64 = i64::MIN;
        let mut i: usize = 0;
        assert(tiles@.take(0) =~= Seq::<Tile>::empty());
        while i < tiles.len()
            invariant
                i <= tiles.len(),
                (west, south, east, north) == extent(tiles@.take(i as int), min_zoom),
            decreases tiles.len() - i,
        {
            let t: Tile = tiles[i];
            assert(tiles@.take(i + 1).drop_last() =~= tiles@.take(i as int));
            assert(tiles@.take(i + 1).last() == t);
            if t.z() == min_zoom {
                let b: (i64, i64, i64, i64) = t.bounds();
                if b.0 < west {
                    west = b.0;
                }
                if b.1 < south {
                    south = b.1;
                }
                if b.2 > east {
                    east = b.2;
                }
                if b.3 > north {
                    north = b.3;
                }
            }
            i = i + 1;
        }
        assert(tiles@.take(i as int) =~= tiles@);
        TileListMeta { min_zoom, max_zoom, bounds: Some((west, south, east, north)) }
    }
}

/// The tiles whose zoom lies in `min..=max`.
pub open spec fn in_zooms(min: u8, max: u8) -> spec_fn(Tile) -> bool {
    |t: Tile| min <= t@.0 <= max
}

/// The tiles that are not wholly outside the box.
pub open spec fn touches(b: SimpleBBox) -> spec_fn(Tile) -> bool {
    |t: Tile| !outside(bounds_of(t@.0, t@.1, t@.2), b)
}

/// The tiles whose coordinate is not in `existing`.
pub open spec fn missing_from(existing: Set<(u8, u32, u32)>) -> spec_fn(Tile) -> bool {
    |t: Tile| !existing.contains(t@)
}

/// A tile list as a value: its tiles in order, and its header values.
pub struct TileListModel {
    pub tiles: Seq<Tile>,
    pub meta: TileListMeta,
}

impl TileListModel {
    /// The list narrowed to the zoom range `min..=max`, with the header
    /// values of what is left.
    pub open spec fn filter_zooms(self, min: u8, max: u8) -> TileListModel {
        let kept = self.tiles.filter(in_zooms(min, max));
        TileListModel { tiles: kept, meta: header_of(kept) }
    }

    /// The list narrowed to the tiles that touch the box, with the extent
    /// of its header cut down to the box.
    pub open spec fn filter_bbox(self, b: SimpleBBox) -> TileListModel {
        TileListModel {
            tiles: self.tiles.filter(touches(b)),
            meta: TileListMeta {
                min_zoom: self.meta.min_zoom,
                max_zoom: self.meta.max_zoom,
                bounds: match self.meta.bounds {
                    Some(e) => Some(clamp(e, b)),
                    None => None,
                },
            },
        }
    }

    /// The list without the tiles of `existing`, with the header values of
    /// what is left.
    pub open spec fn remove_existing(self, existing: Set<(u8, u32, u32)>) -> TileListModel {
        let kept = self.tiles.filter(missing_from(existing));
        TileListModel { tiles: kept, meta: header_of(kept) }
    }
}

/// Whether `s` is a list of well-formed tiles in archive order: the ids
/// grow along the list, so no tile occurs twice.
pub open spec fn in_archive_order(s: Seq<Tile>) -> bool {
    all_wf(s) && ascending_by_id(s)
}

/// A filter keeps the tiles that pass, in their order, and nothing else.
pub proof fn lemma_filter_keeps_order(s: Seq<Tile>, keep: spec_fn(Tile) -> bool)
    requires
        in_archive_order(s),
    ensures
        in_archive_order(s.filter(keep)),
    decreases s.len(),
{
    reveal(Seq::filter);
    if s.len() > 0 {
        let front = s.drop_last();
        lemma_filter_keeps_order(front, keep);
        let f = front.filter(keep);
        assert forall|k: int| 0 <= k < f.len() implies (#[trigger] f[k]).spec_id()
            < s.last().spec_id() && f[k].wf() by {
            assert(f.contains(f[k]));
            front.lemma_filter_contains_rev(keep, f[k]);
            let j = choose|j: int| 0 <= j < front.len() && front[j] == f[k];
            assert(s[j] == f[k]);
        }
    }
}

/// A filter leaves a list alone that it has already been through.
pub proof fn lemma_filter_twice(s: Seq<Tile>, keep: spec_fn(Tile) -> bool)
    ensures
        s.filter(keep).filter(keep) == s.filter(keep),
{
    let f = s.filter(keep);
    assert forall|i: int| 0 <= i < f.len() implies keep(#[trigger] f[i]) by {
        s.lemma_filter_pred(keep, i);
    }
    lemma_filter_all(f, keep);
}

/// A filter keeps a list whole whose tiles all pass.
pub proof fn lemma_filter_all(s: Seq<Tile>, keep: spec_fn(Tile) -> bool)
    requires
        forall|i: int| 0 <= i < s.len() ==> keep(#[trigger] s[i]),
    ensures
        s.filter(keep) == s,
    decreases s.len(),
{
    reveal(Seq::filter);
    if s.len() > 0 {
        let front = s.drop_last();
        assert forall|i: int| 0 <= i < front.len() implies keep(#[trigger] front[i]) by {
            assert(front[i] == s[i]);
        }
        lemma_filter_all(front, keep);
        assert(front.push(s.last()) =~= s);
    }
}

/// Narrowing by the same box a second time changes nothing.
pub proof fn lemma_filter_bbox_idempotent(list: TileListModel, b: SimpleBBox)
    ensures
        list.filter_bbox(b).filter_bbox(b) == list.filter_bbox(b),
{
    lemma_filter_twice(list.tiles, touches(b));
}

/// Removing the same existing tiles a second time changes nothing.
pub proof fn lemma_remove_existing_idempotent(list: TileListModel, existing: Set<(u8, u32, u32)>)
    ensures
        list.remove_existing(existing).remove_existing(existing) == list.remove_existing(existing),
{
    lemma_filter_twice(list.tiles, missing_from(existing));
}

/// Narrowing to the same zoom range a second time changes nothing.
pub proof fn lemma_filter_zooms_idempotent(list: TileListModel, min: u8, max: u8)
    ensures
        list.filter_zooms(min, max).filter_zooms(min, max) == list.filter_zooms(min, max),
{
    lemma_filter_twice(list.tiles, in_zooms(min, max));
}

/// The lowest and the highest zoom among `tiles`; `NO_ZOOM` twice where
/// there is none.
pub fn zoom_span_of(tiles: &Vec<Tile>) -> (span: (u8, u8))
    ensures
        span == zoom_span(tiles@),
{
    if tiles.len() == 0 {
        return (NO_ZOOM, NO_ZOOM);
    }
    let mut low: u8 = NO_ZOOM;
    let mut high: u8 = 0;
    let mut i: usize = 0;
    assert(tiles@.take(0) =~= Seq::<Tile>::empty());
    while i < tiles.len()
        invariant
            i <= tiles.len(),
            (low, high) == zoom_fold(tiles@.take(i as int)),
        decreases tiles.len() - i,
    {
        let z: u8 = tiles[i].z();
        assert(tiles@.take(i + 1).drop_last() =~= tiles@.take(i as int));
        assert(tiles@.take(i + 1).last() == tiles@[i as int]);
        if z < low {
            low = z;
        }
        if z > high {
            high = z;
        }
        i = i + 1;
    }
    assert(tiles@.take(i as int) =~= tiles@);
    (low, high)
}

/// The fold of the zooms lies below every zoom of the list and above every
/// one, and it is reached: in a list with tiles, all of them below
/// `NO_ZOOM`, some tile has the lowest zoom and some tile the highest.
pub proof fn lemma_zoom_fold(s: Seq<Tile>)
    ensures
        forall|i: int| 0 <= i < s.len() ==> zoom_fold(s).0 <= (#[trigger] s[i])@.0 <= zoom_fold(s).1,
        zoom_fold(s).0 <= NO_ZOOM,
        s.len() > 0 ==> exists|j: int| 0 <= j < s.len() && (#[trigger] s[j])@.0 == zoom_fold(s).1,
        s.len() > 0 && zoom_fold(s).0 < NO_ZOOM ==> exists|j: int|
            0 <= j < s.len() && (#[trigger] s[j])@.0 == zoom_fold(s).0,
    decreases s.len(),
{
    if s.len() > 0 {
        let front = s.drop_last();
        lemma_zoom_fold(front);
        let last = s.len() - 1;
        assert forall|i: int| 0 <= i < s.len() implies zoom_fold(s).0 <= (#[trigger] s[i])@.0
            <= zoom_fold(s).1 by {
            if i < last {
                assert(front[i] == s[i]);
            }
        }
        if s[last]@.0 >= zoom_fold(front).1 {
            assert(s[last]@.0 == zoom_fold(s).1);
        } else {
            let j = choose|j: int| 0 <= j < front.len() && (#[trigger] front[j])@.0 == zoom_fold(
                front,
            ).1;
            assert(s[j]@.0 == zoom_fold(s).1);
        }
        if zoom_fold(s).0 < NO_ZOOM {
            if s[last]@.0 < zoom_fold(front).0 {
                assert(s[last]@.0 == zoom_fold(s).0);
            } else {
                let j = choose|j: int|
                    0 <= j < front.len() && (#[trigger] front[j])@.0 == zoom_fold(front).0;
                assert(s[j]@.0 == zoom_fold(s).0);
            }
        }
    }
}

/// Whether some tile of `s` has the coordinate `c`.
pub open spec fn has_coord(s: Seq<Tile>, c: (u8, u32, u32)) -> bool {
    exists|i: int| 0 <= i < s.len() && (#[trigger] s[i])@ == c
}

/// Whether the coordinate `c` comes before `(z, x, y)` when coordinates are
/// counted by zoom, then column, then row.
pub open spec fn counted_before(c: (u8, u32, u32), z: int, x: int, y: int) -> bool {
    c.0 < z || (c.0 == z && (c.1 < x || (c.1 == x && c.2 < y)))
}

/// What a line of a tile list says under a pattern: nothing where the
/// pattern does not match it; else the tile it names, or no tile where the
/// numbers it gives are none.
pub open spec fn line_coord(pattern: Seq<char>, line: Seq<char>) -> Option<Option<(u8, u32, u32)>> {
    match regex_captures(pattern, line) {
        None => None,
        Some(c) => Some(coord_of_captures(c)),
    }
}

/// Whether the pattern matches the line and yet the line names no tile.
pub open spec fn bad_line(pattern: Seq<char>, line: Seq<char>) -> bool {
    line_coord(pattern, line) == Some(None::<(u8, u32, u32)>)
}

/// Whether one of the first `k` lines names the tile at `c`.
pub open spec fn lines_name(
    pattern: Seq<char>,
    lines: Seq<Seq<char>>,
    k: int,
    c: (u8, u32, u32),
) -> bool {
    exists|i: int| 0 <= i < k && #[trigger] line_coord(pattern, lines[i]) == Some(Some(c))
}

/// Whether `list` is the list of every tile of the zoom levels
/// `min..=max`: it holds each of them and no other tile, in archive order,
/// with the header values of these tiles.
pub open spec fn is_zoom_range(list: TileListModel, min: u8, max: u8) -> bool {
    &&& in_archive_order(list.tiles)
    &&& forall|i: int| 0 <= i < list.tiles.len() ==> min <= (#[trigger] list.tiles[i])@.0 <= max
    &&& forall|z: u8, x: u32, y: u32|
        min <= z <= max && valid_coord(z, x, y) ==> has_coord(list.tiles, (z, x, y))
    &&& list.meta == header_of(list.tiles)
}

/// Whether `list` is the list of the tiles that the lines name under the
/// pattern: no line matches without naming a tile, the list holds the
/// tiles that the lines name and no other, each once, in archive order,
/// with the header values of these tiles.
pub open spec fn is_list_of_lines(
    list: TileListModel,
    pattern: Seq<char>,
    lines: Seq<Seq<char>>,
) -> bool {
    &&& in_archive_order(list.tiles)
    &&& forall|i: int| 0 <= i < lines.len() ==> !bad_line(pattern, #[trigger] lines[i])
    &&& forall|c: (u8, u32, u32)|
        has_coord(list.tiles, c) <==> lines_name(pattern, lines, lines.len() as int, c)
    &&& list.meta == header_of(list.tiles)
}

/// Whether the line at position `line` is the first that matches the
/// pattern without naming a tile.
pub open spec fn is_first_bad_line(pattern: Seq<char>, lines: Seq<Seq<char>>, line: usize) -> bool {
    &&& line < lines.len()
    &&& bad_line(pattern, lines[line as int])
    &&& forall|i: int| 0 <= i < line ==> !bad_line(pattern, #[trigger] lines[i])
}

/// Why a tile list could not be read.
#[derive(Debug, PartialEq, Eq)]
pub enum TileListError {
    /// The format of the lines was refused.
    Format(TileFormatError),
    /// The line at this position, counted from 0, matches the format but
    /// the numbers in it name no tile.
    InvalidTile { line: usize },
}

/// Drops the repeated tiles of a sorted list.
fn dedup_sorted(v: &Vec<Tile>) -> (out: Vec<Tile>)
    requires
        sorted_by_id(v@),
    ensures
        in_archive_order(out@),
        forall|t: Tile| out@.contains(t) <==> v@.contains(t),
{
    let mut out: Vec<Tile> = Vec::new();
    let mut i: usize = 0;
    while i < v.len()
        invariant
            i <= v.len(),
            sorted_by_id(v@),
            in_archive_order(out@),
            out@.len() <= i,
            i > 0 ==> out@.len() > 0 && out@.last().spec_id() == v@[i - 1].spec_id(),
            forall|t: Tile| out@.contains(t) <==> v@.take(i as int).contains(t),
        decreases v.len() - i,
    {
        let t: Tile = v[i];
        proof {
            use_type_invariant(&t);
        }
        let ghost before = out@;
        let fresh: bool = out.len() == 0 || out[out.len() - 1].to_id() != t.to_id();
        if fresh {
            out.push(t);
        }
        proof {
            let a = v@.take(i as int);
            let b = v@.take(i + 1);
            assert(b =~= a.push(t));
            if !fresh {
                Tile::lemma_id_identifies(before.last(), t);
                assert(before.contains(before.last()));
            } else {
                assert(out@.last() == t);
                assert(out@ =~= before.push(t));
            }
            assert forall|u: Tile| out@.contains(u) <==> b.contains(u) by {
                if b.contains(u) {
                    let k = choose|k: int| 0 <= k < b.len() && b[k] == u;
                    if k < i {
                        assert(a[k] == u);
                        assert(a.contains(u));
                        assert(before.contains(u));
                        let m = choose|m: int| 0 <= m < before.len() && before[m] == u;
                        assert(out@[m] == u);
                    } else {
                        assert(u == t);
                        assert(out@[out@.len() - 1] == u);
                    }
                }
                if out@.contains(u) {
                    let m = choose|m: int| 0 <= m < out@.len() && out@[m] == u;
                    if m < before.len() {
                        assert(before[m] == u);
                        assert(before.contains(u));
                        assert(a.contains(u));
                        let k = choose|k: int| 0 <= k < a.len() && a[k] == u;
                        assert(b[k] == u);
                    } else {
                        assert(b[i as int] == u);
                    }
                }
            }
        }
        i = i + 1;
    }
    assert(v@.take(i as int) =~= v@);
    out
}

/// The tiles to fetch, in archive order, with the header values that
/// describe them.
pub struct TileList {
    tiles: Vec<Tile>,
    meta: TileListMeta,
}

impl View for TileList {
    type V = TileListModel;

    closed spec fn view(&self) -> TileListModel {
        TileListModel { tiles: self.tiles@, meta: self.meta }
    }
}

impl TileList {
    /// The tiles are well formed and stand in archive order. Every list
    /// that exists at run time is so.
    #[verifier::type_invariant]
    pub open spec fn wf(&self) -> bool {
        in_archive_order(self@.tiles)
    }

    /// The tiles, in archive order.
    pub fn tiles(&self) -> (t: &Vec<Tile>)
        ensures
            t@ == self@.tiles,
    {
        &self.tiles
    }

    /// The header values.
    pub fn meta(&self) -> (m: TileListMeta)
        ensures
            m == self@.meta,
    {
        self.meta
    }

    /// The number of tiles.
    pub fn len(&self) -> (n: usize)
        ensures
            n == self@.tiles.len(),
    {
        self.tiles.len()
    }

    /// Gives up the list for its tiles and header values.
    pub fn into_parts(self) -> (parts: (Vec<Tile>, TileListMeta))
        ensures
            parts.0@ == self@.tiles,
            parts.1 == self@.meta,
    {
        (self.tiles, self.meta)
    }

    /// Every tile of the zoom levels `min..=max`, in archive order. A range
    /// with `min > max` holds no tile.
    pub fn from_zoom_range(min: u8, max: u8) -> (list: TileList)
        requires
            min <= max ==> max <= MAX_ZOOM,
        ensures
            is_zoom_range(list@, min, max),
    {
        let mut tiles: Vec<Tile> = Vec::new();
        let mut z: u8 = min;
        while z <= max
            invariant
                min <= z,
                min <= max ==> max <= MAX_ZOOM && z <= max + 1,
                min > max ==> tiles@.len() == 0,
                all_wf(tiles@),
                tiles@.no_duplicates(),
                forall|i: int|
                    0 <= i < tiles@.len() ==> min <= (#[trigger] tiles@[i])@.0 && counted_before(
                        tiles@[i]@,
                        z as int,
                        0,
                        0,
                    ),
                forall|c: (u8, u32, u32)|
                    min <= c.0 && valid_coord(c.0, c.1, c.2) && counted_before(c, z as int, 0, 0)
                        ==> has_coord(tiles@, c),
            decreases max + 1 - z,
        {
            let n: u32 = crate::tile::tiles_per_axis(z);
            let mut x: u32 = 0;
            while x < n
                invariant
                    min <= z <= max <= MAX_ZOOM,
                    n == vstd::arithmetic::power2::pow2(z as nat),
                    x <= n,
                    all_wf(tiles@),
                    tiles@.no_duplicates(),
                    forall|i: int|
                        0 <= i < tiles@.len() ==> min <= (#[trigger] tiles@[i])@.0
                            && counted_before(tiles@[i]@, z as int, x as int, 0),
                    forall|c: (u8, u32, u32)|
                        min <= c.0 && valid_coord(c.0, c.1, c.2) && counted_before(
                            c,
                            z as int,
                            x as int,
                            0,
                        ) ==> has_coord(tiles@, c),
                decreases n - x,
            {
                let mut y: u32 = 0;
                while y < n
                    invariant
                        min <= z <= max <= MAX_ZOOM,
                        n == vstd::arithmetic::power2::pow2(z as nat),
                        x < n,
                        y <= n,
                        all_wf(tiles@),
                        tiles@.no_duplicates(),
                        forall|i: int|
                            0 <= i < tiles@.len() ==> min <= (#[trigger] tiles@[i])@.0
                                && counted_before(tiles@[i]@, z as int, x as int, y as int),
                        forall|c: (u8, u32, u32)|
                            min <= c.0 && valid_coord(c.0, c.1, c.2) && counted_before(
                                c,
                                z as int,
                                x as int,
                                y as int,
                            ) ==> has_coord(tiles@, c),
                    decreases n - y,
                {
                    let t: Tile = Tile::new(z, x, y);
                    let ghost before = tiles@;
                    tiles.push(t);
                    proof {
                        assert forall|c: (u8, u32, u32)|
                            min <= c.0 && valid_coord(c.0, c.1, c.2) && counted_before(
                                c,
                                z as int,
                                x as int,
                                y + 1,
                            ) implies has_coord(tiles@, c) by {
                            if c == (z, x, y) {
                                assert(tiles@[before.len() as int]@ == c);
                            } else {
                                assert(has_coord(before, c));
                                let i = choose|i: int| 0 <= i < before.len() && before[i]@ == c;
                                assert(tiles@[i]@ == c);
                            }
                        }
                        assert forall|i: int, j: int|
                            0 <= i < tiles@.len() && 0 <= j < tiles@.len() && i != j implies tiles@[i]
                            != tiles@[j] by {
                            if i < before.len() && j < before.len() {
                                assert(before[i] != before[j]);
                            } else if i < before.len() {
                                assert(before[i]@ != t@);
                            } else {
                                assert(before[j]@ != t@);
                            }
                        }
                    }
                    y = y + 1;
                }
                x = x + 1;
            }
            z = z + 1;
        }
        let sorted: Vec<Tile> = sort_by_id(tiles);
        proof {
            lemma_same_tiles(sorted@, tiles@);
            assert forall|i: int| 0 <= i < sorted@.len() implies (#[trigger] sorted@[i]).wf() && min
                <= sorted@[i]@.0 <= max by {
                assert(sorted@.contains(sorted@[i]));
                assert(tiles@.contains(sorted@[i]));
                let j = choose|j: int| 0 <= j < tiles@.len() && tiles@[j] == sorted@[i];
                assert(counted_before(tiles@[j]@, z as int, 0, 0));
            }
            assert forall|i: int, j: int| 0 <= i < j < sorted@.len() implies sorted@[i].spec_id()
                < sorted@[j].spec_id() by {
                assert(sorted@[i] != sorted@[j]);
                Tile::lemma_id_identifies(sorted@[i], sorted@[j]);
            }
            assert forall|cz: u8, cx: u32, cy: u32|
                min <= cz <= max && valid_coord(cz, cx, cy) implies has_coord(
                sorted@,
                (cz, cx, cy),
            ) by {
                let c = (cz, cx, cy);
                assert(counted_before(c, z as int, 0, 0));
                assert(has_coord(tiles@, c));
                let i = choose|i: int| 0 <= i < tiles@.len() && tiles@[i]@ == c;
                assert(tiles@.contains(tiles@[i]));
                assert(sorted@.contains(tiles@[i]));
                let j = choose|j: int| 0 <= j < sorted@.len() && sorted@[j] == tiles@[i];
                assert(sorted@[j]@ == c);
            }
        }
        let meta: TileListMeta = TileListMeta::of(&sorted);
        TileList { tiles: sorted, meta }
    }

    /// The tiles that the lines of a tile list name under a compiled
    /// format, each once, in archive order. A line that the format does not
    /// match is passed over; the first line that matches and names no tile
    /// is an error. The zoom range of the header is that of the tiles.
    pub fn parse_lines(lines: &Vec<String>, format: &TileFormat) -> (r: Result<
        TileList,
        TileListError,
    >)
        ensures
            match r {
                Ok(list) => is_list_of_lines(list@, format@, texts(lines@)),
                Err(TileListError::InvalidTile { line }) => is_first_bad_line(
                    format@,
                    texts(lines@),
                    line,
                ),
                Err(TileListError::Format(_)) => false,
            },
    {
        let mut tiles: Vec<Tile> = Vec::new();
        let mut k: usize = 0;
        let ghost given = texts(lines@);
        while k < lines.len()
            invariant
                k <= lines.len(),
                given == texts(lines@),
                forall|i: int| 0 <= i < k ==> !bad_line(format@, #[trigger] given[i]),
                forall|c: (u8, u32, u32)|
                    has_coord(tiles@, c) <==> lines_name(format@, given, k as int, c),
            decreases lines.len() - k,
        {
            let ghost before = tiles@;
            let ghost said = line_coord(format@, given[k as int]);
            assert(given[k as int] == lines@[k as int]@);
            match format.captures(lines[k].as_str()) {
                None => {},
                Some(caps) => match Tile::from_captures(&caps) {
                    None => {
                        return Err(TileListError::InvalidTile { line: k });
                    },
                    Some(t) => {
                        tiles.push(t);
                    },
                },
            }
            proof {
                assert forall|c: (u8, u32, u32)|
                    has_coord(tiles@, c) <==> lines_name(format@, given, k + 1, c) by {
                    if has_coord(tiles@, c) {
                        let i = choose|i: int| 0 <= i < tiles@.len() && (#[trigger] tiles@[i])@ == c;
                        if i < before.len() {
                            assert(before[i]@ == c);
                            assert(has_coord(before, c));
                            let j = choose|j: int|
                                0 <= j < k && #[trigger] line_coord(format@, given[j]) == Some(
                                    Some(c),
                                );
                            assert(lines_name(format@, given, k + 1, c));
                        } else {
                            assert(said == Some(Some(c)));
                        }
                    }
                    if lines_name(format@, given, k + 1, c) {
                        let j = choose|j: int|
                            0 <= j < k + 1 && #[trigger] line_coord(format@, given[j]) == Some(
                                Some(c),
                            );
                        if j < k {
                            assert(lines_name(format@, given, k as int, c));
                            assert(has_coord(before, c));
                            let i = choose|i: int|
                                0 <= i < before.len() && (#[trigger] before[i])@ == c;
                            assert(tiles@[i]@ == c);
                        } else {
                            assert(tiles@[tiles@.len() - 1]@ == c);
                        }
                    }
                }
            }
            k = k + 1;
        }
        let sorted: Vec<Tile> = sort_by_id(tiles);
        let unique: Vec<Tile> = dedup_sorted(&sorted);
        proof {
            lemma_same_tiles(sorted@, tiles@);
            assert forall|c: (u8, u32, u32)|
                has_coord(unique@, c) <==> has_coord(tiles@, c) by {
                if has_coord(unique@, c) {
                    let i = choose|i: int| 0 <= i < unique@.len() && (#[trigger] unique@[i])@ == c;
                    assert(unique@.contains(unique@[i]));
                    assert(tiles@.contains(unique@[i]));
                    let j = choose|j: int| 0 <= j < tiles@.len() && tiles@[j] == unique@[i];
                    assert(tiles@[j]@ == c);
                }
                if has_coord(tiles@, c) {
                    let i = choose|i: int| 0 <= i < tiles@.len() && (#[trigger] tiles@[i])@ == c;
                    assert(tiles@.contains(tiles@[i]));
                    assert(unique@.contains(tiles@[i]));
                    let j = choose|j: int| 0 <= j < unique@.len() && unique@[j] == tiles@[i];
                    assert(unique@[j]@ == c);
                }
            }
        }
        let meta: TileListMeta = TileListMeta::of(&unique);
        Ok(TileList { tiles: unique, meta })
    }

    /// The tiles that the lines of a tile-list file name under a format:
    /// what `parse_lines` gives for the lines of the text and the compiled
    /// format. A format whose pattern the regular-expression engine does
    /// not accept is an error, whatever the text.
    pub fn parse_from_file(contents: &str, format: &str) -> (r: Result<TileList, TileListError>)
        ensures
            r matches Err(TileListError::Format(_)) <==> !regex_accepts(line_pattern(format@)),
            match r {
                Ok(list) => is_list_of_lines(
                    list@,
                    line_pattern(format@),
                    lines_of_text(contents@),
                ),
                Err(TileListError::InvalidTile { line }) => is_first_bad_line(
                    line_pattern(format@),
                    lines_of_text(contents@),
                    line,
                ),
                Err(TileListError::Format(_)) => true,
            },
    {
        match compile_tile_format(format) {
            Ok(compiled) => TileList::parse_lines(&text_lines(contents), &compiled),
            Err(e) => Err(TileListError::Format(e)),
        }
    }

    /// Keeps the tiles whose zoom lies in `min..=max` and takes the zoom
    /// range and the extent of the header from the tiles that are left.
    pub fn filter_zooms(&mut self, min: u8, max: u8)
        ensures
            final(self).wf(),
            final(self)@ == old(self)@.filter_zooms(min, max),
    {
        proof {
            use_type_invariant(&*self);
        }
        let mut kept: Vec<Tile> = Vec::new();
        let mut i: usize = 0;
        let ghost keep = in_zooms(min, max);
        assert(self.tiles@.take(0) =~= Seq::<Tile>::empty());
        assert(Seq::<Tile>::empty().filter(keep) =~= Seq::<Tile>::empty()) by {
            reveal(Seq::filter);
        }
        while i < self.tiles.len()
            invariant
                i <= self.tiles.len(),
                *self == *old(self),
                keep == in_zooms(min, max),
                kept@ == self.tiles@.take(i as int).filter(keep),
            decreases self.tiles.len() - i,
        {
            let t: Tile = self.tiles[i];
            proof {
                assert(self.tiles@.take(i + 1) =~= self.tiles@.take(i as int).push(t));
                self.tiles@.take(i as int).lemma_filter_push(t, keep);
            }
            if min <= t.z() && t.z() <= max {
                kept.push(t);
            }
            i = i + 1;
        }
        proof {
            assert(self.tiles@.take(i as int) =~= self.tiles@);
            lemma_filter_keeps_order(self.tiles@, keep);
        }
        self.meta = TileListMeta::of(&kept);
        self.tiles = kept;
    }

    /// Keeps the tiles that touch the box and cuts the extent of the header
    /// down to the box.
    pub fn filter_bbox(&mut self, bbox: SimpleBBox)
        ensures
            final(self).wf(),
            final(self)@ == old(self)@.filter_bbox(bbox),
    {
        proof {
            use_type_invariant(&*self);
        }
        let mut kept: Vec<Tile> = Vec::new();
        let mut i: usize = 0;
        let ghost keep = touches(bbox);
        assert(self.tiles@.take(0) =~= Seq::<Tile>::empty());
        assert(Seq::<Tile>::empty().filter(keep) =~= Seq::<Tile>::empty()) by {
            reveal(Seq::filter);
        }
        while i < self.tiles.len()
            invariant
                i <= self.tiles.len(),
                *self == *old(self),
                keep == touches(bbox),
                kept@ == self.tiles@.take(i as int).filter(keep),
            decreases self.tiles.len() - i,
        {
            let t: Tile = self.tiles[i];
            proof {
                assert(self.tiles@.take(i + 1) =~= self.tiles@.take(i as int).push(t));
                self.tiles@.take(i as int).lemma_filter_push(t, keep);
            }
            let b: (i64, i64, i64, i64) = t.bounds();
            if !(b.2 < bbox.west || b.0 > bbox.east || b.3 < bbox.south || b.1 > bbox.north) {
                kept.push(t);
            }
            i = i + 1;
        }
        proof {
            assert(self.tiles@.take(i as int) =~= self.tiles@);
            lemma_filter_keeps_order(self.tiles@, keep);
        }
        self.tiles = kept;
        self.meta.bounds = match self.meta.bounds {
            Some(e) => Some(
                (
                    if e.0 >= bbox.west { e.0 } else { bbox.west },
                    if e.1 >= bbox.south { e.1 } else { bbox.south },
                    if e.2 <= bbox.east { e.2 } else { bbox.east },
                    if e.3 <= bbox.north { e.3 } else { bbox.north },
                ),
            ),
            None => None,
        };
    }

    /// Drops the tiles that `existing` holds and takes the zoom range and
    /// the extent of the header from the tiles that are left. With nothing
    /// left both ends of the zoom range are `NO_ZOOM`.
    pub fn remove_existing(&mut self, existing: &TileSet)
        ensures
            final(self).wf(),
            final(self)@ == old(self)@.remove_existing(existing@),
    {
        proof {
            use_type_invariant(&*self);
        }
        let mut kept: Vec<Tile> = Vec::new();
        let mut i: usize = 0;
        let ghost keep = missing_from(existing@);
        assert(self.tiles@.take(0) =~= Seq::<Tile>::empty());
        assert(Seq::<Tile>::empty().filter(keep) =~= Seq::<Tile>::empty()) by {
            reveal(Seq::filter);
        }
        while i < self.tiles.len()
            invariant
                i <= self.tiles.len(),
                *self == *old(self),
                keep == missing_from(existing@),
                kept@ == self.tiles@.take(i as int).filter(keep),
            decreases self.tiles.len() - i,
        {
            let t: Tile = self.tiles[i];
            proof {
                assert(self.tiles@.take(i + 1) =~= self.tiles@.take(i as int).push(t));
                self.tiles@.take(i as int).lemma_filter_push(t, keep);
            }
            if !existing.contains(&t) {
                kept.push(t);
            }
            i = i + 1;
        }
        proof {
            assert(self.tiles@.take(i as int) =~= self.tiles@);
            lemma_filter_keeps_order(self.tiles@, keep);
        }
        self.meta = TileListMeta::of(&kept);
        self.tiles = kept;
    }
}

/// The list of every tile of a zoom range that is not empty has that range
/// in its header.
pub proof fn lemma_zoom_range_header(list: TileListModel, min: u8, max: u8)
    requires
        is_zoom_range(list, min, max),
        min <= max <= MAX_ZOOM,
    ensures
        list.meta.min_zoom == min,
        list.meta.max_zoom == max,
{
    let s = list.tiles;
    vstd::arithmetic::power2::lemma_pow2_pos(min as nat);
    vstd::arithmetic::power2::lemma_pow2_pos(max as nat);
    assert(valid_coord(min, 0, 0) && valid_coord(max, 0, 0));
    assert(has_coord(s, (min, 0u32, 0u32)));
    assert(has_coord(s, (max, 0u32, 0u32)));
    let a = choose|i: int| 0 <= i < s.len() && (#[trigger] s[i])@ == (min, 0u32, 0u32);
    let b = choose|i: int| 0 <= i < s.len() && (#[trigger] s[i])@ == (max, 0u32, 0u32);
    lemma_zoom_fold(s);
    assert(zoom_fold(s).0 <= s[a]@.0);
    assert(s[b]@.0 <= zoom_fold(s).1);
    let j = choose|j: int| 0 <= j < s.len() && (#[trigger] s[j])@.0 == zoom_fold(s).1;
    let k = choose|k: int| 0 <= k < s.len() && (#[trigger] s[k])@.0 == zoom_fold(s).0;
}

/// In archive order every tile comes after all the tiles above it in the
/// pyramid: a parent, and any other ancestor, stands before its
/// descendants.
pub proof fn lemma_ancestors_first(s: Seq<Tile>, i: int, j: int)
    requires
        in_archive_order(s),
        0 <= i < s.len(),
        0 <= j < s.len(),
        is_ancestor(s[i]@.0, s[i]@.1, s[i]@.2, s[j]@.0, s[j]@.1, s[j]@.2),
    ensures
        i < j,
{
    s[i].lemma_lower_zoom_first(s[j]);
}

} // verus!
