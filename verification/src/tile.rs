//! A tile of the XYZ scheme, its place in the archive's order and the
//! square it covers.

use crate::text::{chars_of, decimal, parse_number, parse_unsigned, push_decimal, string_of};
use crate::tile_list_format::LineCaptures;
use vstd::arithmetic::power2::{lemma2_to64, lemma_pow2_adds, lemma_pow2_pos, lemma_pow2_unfold, pow2};
use vstd::pervasive::unreached;
use vstd::prelude::*;

verus! {

/// The deepest zoom level that a tile id can encode.
pub const MAX_ZOOM: u8 = 31;

/// The largest tile id: the last tile of zoom `MAX_ZOOM`.
pub const MAX_TILE_ID: u64 = 6148914691236517204;

/// The number of bits of a projected coordinate: the world is a square of
/// `2^32` by `2^32` units.
pub const WORLD_BITS: u8 = 32;

/// The side of the world square, in projected units.
pub const WORLD_SIDE: i64 = 0x1_0000_0000;

/// Whether `(z, x, y)` names a tile: the zoom is at most `MAX_ZOOM` and both
/// coordinates lie in `0..2^z`.
pub open spec fn valid_coord(z: u8, x: u32, y: u32) -> bool {
    &&& z <= MAX_ZOOM
    &&& x < pow2(z as nat)
    &&& y < pow2(z as nat)
}

/// The number of tiles at the zoom levels below `z`: `4^0 + .. + 4^(z-1)`.
pub open spec fn zoom_base(z: nat) -> nat
    decreases z,
{
    if z == 0 {
        0
    } else {
        zoom_base((z - 1) as nat) + pow2((2 * (z - 1)) as nat)
    }
}

/// The tile id that the archive format gives the tile `(z, x, y)`: what
/// `pmtiles::TileId::from` returns for that coordinate.
pub uninterp spec fn tile_id_of(z: u8, x: u32, y: u32) -> u64;

/// The coordinate `(z, x, y)` that the archive format reads out of a tile
/// id: what `pmtiles::TileCoord::from` returns for that id.
pub uninterp spec fn tile_coord_of(id: u64) -> (u8, u32, u32);

/// `pmtiles::TileCoord::new` followed by `pmtiles::TileId::from`.
///
/// The coordinate is refused exactly when it names no tile. Otherwise the
/// id is the one the archive format assigns: it lies among the ids of its
/// zoom level, after those of all lower levels and before those of all
/// higher ones, and converting it back gives the coordinate again.
#[verifier::external_body]
fn tile_id(z: u8, x: u32, y: u32) -> (id: Option<u64>)
    ensures
        id is Some <==> valid_coord(z, x, y),
        id matches Some(v) ==> v == tile_id_of(z, x, y),
        id matches Some(v) ==> zoom_base(z as nat) <= v < zoom_base((z + 1) as nat),
        id matches Some(v) ==> tile_coord_of(v) == (z, x, y),
{
    pmtiles::TileCoord::new(z, x, y).ok().map(|c| pmtiles::TileId::from(c).value())
}

/// `pmtiles::TileId::new` followed by `pmtiles::TileCoord::from`: the
/// coordinate of a tile id, and nothing for a number above `MAX_TILE_ID`.
#[verifier::external_body]
fn tile_coord(id: u64) -> (c: Option<(u8, u32, u32)>)
    ensures
        c == if id <= MAX_TILE_ID {
            Some(tile_coord_of(id))
        } else {
            None::<(u8, u32, u32)>
        },
{
    pmtiles::TileId::new(id).ok().map(
        |t| {
            let c = pmtiles::TileCoord::from(t);
            (c.z(), c.x(), c.y())
        },
    )
}

/// What is known of the id of a tile once the archive format has computed
/// it: its zoom band, and that it converts back to the coordinate.
pub open spec fn id_laws(z: u8, x: u32, y: u32, id: u64) -> bool {
    &&& id == tile_id_of(z, x, y)
    &&& zoom_base(z as nat) <= id < zoom_base((z + 1) as nat)
    &&& tile_coord_of(id) == (z, x, y)
}

/// The coordinate that `id` stands for, if it stands for one: the id is in
/// range, reads as a valid coordinate and that coordinate has this id.
pub open spec fn decoded(id: u64) -> Option<(u8, u32, u32)> {
    let c = tile_coord_of(id);
    if id <= MAX_TILE_ID && valid_coord(c.0, c.1, c.2) && id_laws(c.0, c.1, c.2, id) {
        Some(c)
    } else {
        None
    }
}

/// A tile: a zoom level and a column and row at that level, together with
/// the id that places it in the archive.
#[derive(Clone, Copy, Debug, PartialEq, Eq, Hash, Structural)]
pub struct Tile {
    z: u8,
    x: u32,
    y: u32,
    id: u64,
}

impl View for Tile {
    type V = (u8, u32, u32);

    /// The coordinate `(z, x, y)`.
    closed spec fn view(&self) -> (u8, u32, u32) {
        (self.z, self.x, self.y)
    }
}

/// West, south, east and north edge of a tile in the projected plane, in
/// units of `2^-32` of the world's side, counted from its south-west corner.
pub open spec fn bounds_of(z: u8, x: u32, y: u32) -> (i64, i64, i64, i64) {
    let span = pow2((WORLD_BITS - z) as nat);
    (
        (x * span) as i64,
        (WORLD_SIDE - (y + 1) * span) as i64,
        ((x + 1) * span) as i64,
        (WORLD_SIDE - y * span) as i64,
    )
}

/// Whether the tile `(az, ax, ay)` lies above `(z, x, y)` in the pyramid:
/// it is at a lower zoom and covers it.
pub open spec fn is_ancestor(az: u8, ax: u32, ay: u32, z: u8, x: u32, y: u32) -> bool {
    &&& az < z
    &&& ax == x / (pow2((z - az) as nat) as u32)
    &&& ay == y / (pow2((z - az) as nat) as u32)
}

/// The text `z/x/y` of a coordinate.
pub open spec fn coord_text(z: u8, x: u32, y: u32) -> Seq<char> {
    decimal(z as nat) + seq!['/'] + decimal(x as nat) + seq!['/'] + decimal(y as nat)
}

/// The tile that three captured texts name: each must be there and be an
/// unsigned decimal numeral, the zoom within `u8` and column and row within
/// `u32`, and together they must be a valid coordinate.
pub open spec fn coord_of_captures(
    c: (Option<Seq<char>>, Option<Seq<char>>, Option<Seq<char>>),
) -> Option<(u8, u32, u32)> {
    match c {
        (Some(z), Some(x), Some(y)) => match (
            parse_unsigned(z, u8::MAX as nat),
            parse_unsigned(x, u32::MAX as nat),
            parse_unsigned(y, u32::MAX as nat),
        ) {
            (Some(z), Some(x), Some(y)) => if valid_coord(z as u8, x as u32, y as u32) {
                Some((z as u8, x as u32, y as u32))
            } else {
                None
            },
            _ => None,
        },
        _ => None,
    }
}

/// Reads a captured text as a number of at most `max`.
fn captured_number(text: &Option<String>, max: u64) -> (n: Option<u64>)
    ensures
        match n {
            Some(v) => *text matches Some(s) && parse_unsigned(s@, max as nat) == Some(v as nat),
            None => *text matches Some(s) ==> parse_unsigned(s@, max as nat) is None,
        },
{
    match text {
        Some(s) => parse_number(&chars_of(s.as_str()), max),
        None => None,
    }
}

impl Tile {
    /// The tile that the captures of a tile-list line name, or nothing
    /// where they name none.
    pub fn from_captures(caps: &LineCaptures) -> (t: Option<Tile>)
        ensures
            match t {
                Some(tile) => tile.wf() && coord_of_captures(caps@) == Some(tile@),
                None => coord_of_captures(caps@) is None,
            },
    {
        let z: Option<u64> = captured_number(&caps.z, 255);
        let x: Option<u64> = captured_number(&caps.x, 0xffff_ffff);
        let y: Option<u64> = captured_number(&caps.y, 0xffff_ffff);
        match (z, x, y) {
            (Some(z), Some(x), Some(y)) => Tile::checked(z as u8, x as u32, y as u32),
            _ => None,
        }
    }

    /// The tile id held by this tile.
    pub closed spec fn spec_id(&self) -> u64 {
        self.id
    }

    /// The tile names a valid coordinate and holds the id of that coordinate.
    /// Every tile that exists at run time does.
    #[verifier::type_invariant]
    pub open spec fn wf(&self) -> bool {
        &&& valid_coord(self@.0, self@.1, self@.2)
        &&& id_laws(self@.0, self@.1, self@.2, self.spec_id())
    }

    /// Tiles of the archive with the same id have the same coordinate, and
    /// the other way round.
    pub proof fn lemma_id_identifies(a: Tile, b: Tile)
        requires
            a.wf(),
            b.wf(),
        ensures
            a.spec_id() == b.spec_id() <==> a@ == b@,
            a.spec_id() == b.spec_id() <==> a == b,
    {
    }

    /// The tile at `(z, x, y)`, or nothing where that names no tile.
    pub fn checked(z: u8, x: u32, y: u32) -> (t: Option<Tile>)
        ensures
            t is Some <==> valid_coord(z, x, y),
            t matches Some(tile) ==> tile.wf() && tile@ == (z, x, y),
    {
        match tile_id(z, x, y) {
            Some(id) => Some(Tile { z, x, y, id }),
            None => None,
        }
    }

    /// The tile at `(z, x, y)`.
    pub fn new(z: u8, x: u32, y: u32) -> (t: Tile)
        requires
            valid_coord(z, x, y),
        ensures
            t.wf(),
            t@ == (z, x, y),
    {
        match tile_id(z, x, y) {
            Some(id) => Tile { z, x, y, id },
            None => unreached(),
        }
    }

    /// The tile that a tile id stands for, or nothing where the number is
    /// no tile's id.
    pub fn from_id(id: u64) -> (t: Option<Tile>)
        ensures
            match t {
                Some(tile) => tile.wf() && tile.spec_id() == id && decoded(id) == Some(tile@),
                None => decoded(id) is None,
            },
    {
        match tile_coord(id) {
            Some((z, x, y)) => match tile_id(z, x, y) {
                Some(back) => if back == id {
                    Some(Tile { z, x, y, id })
                } else {
                    None
                },
                None => None,
            },
            None => None,
        }
    }

    /// The zoom level.
    pub fn z(&self) -> (z: u8)
        ensures
            z == self@.0,
    {
        self.z
    }

    /// The column.
    pub fn x(&self) -> (x: u32)
        ensures
            x == self@.1,
    {
        self.x
    }

    /// The row.
    pub fn y(&self) -> (y: u32)
        ensures
            y == self@.2,
    {
        self.y
    }

    /// The tile id: the key by which the archive orders its tiles.
    pub fn to_id(&self) -> (id: u64)
        ensures
            id == self.spec_id(),
            id == tile_id_of(self@.0, self@.1, self@.2),
            id <= MAX_TILE_ID,
    {
        proof {
            use_type_invariant(self);
            self.lemma_id_in_range();
        }
        self.id
    }

    /// The text `z/x/y`.
    pub fn to_string(&self) -> (s: String)
        ensures
            s@ == coord_text(self@.0, self@.1, self@.2),
    {
        let mut out: Vec<char> = Vec::new();
        push_decimal(self.z as u64, &mut out);
        out.push('/');
        push_decimal(self.x as u64, &mut out);
        out.push('/');
        push_decimal(self.y as u64, &mut out);
        assert(out@ =~= coord_text(self@.0, self@.1, self@.2));
        string_of(&out)
    }

    /// West, south, east and north edge of the tile in the projected plane.
    pub fn bounds(&self) -> (b: (i64, i64, i64, i64))
        ensures
            b == bounds_of(self@.0, self@.1, self@.2),
            0 <= b.0 < b.2 <= WORLD_SIDE,
            0 <= b.1 < b.3 <= WORLD_SIDE,
    {
        proof {
            use_type_invariant(self);
        }
        let shift: u64 = (WORLD_BITS - self.z) as u64;
        proof {
            lemma_span(self.z, self.x);
            lemma_span(self.z, self.y);
            lemma2_to64();
            lemma_pow2_pos(shift as nat);
            vstd::bits::lemma_u64_shl_is_mul(1, shift);
        }
        let span: u64 = 1u64 << shift;
        let x: u64 = self.x as u64;
        let y: u64 = self.y as u64;
        let side: u64 = 0x1_0000_0000;
        assert(x * span + span == (x + 1) * span) by (nonlinear_arith);
        assert(y * span + span == (y + 1) * span) by (nonlinear_arith);
        let west: u64 = x * span;
        let east: u64 = west + span;
        let top: u64 = y * span;
        let bottom: u64 = top + span;
        (west as i64, (side - bottom) as i64, east as i64, (side - top) as i64)
    }
}

/// The ids below a zoom level are three to one less than a power of four.
pub proof fn lemma_zoom_base_closed(z: nat)
    ensures
        3 * zoom_base(z) + 1 == pow2(2 * z),
    decreases z,
{
    if z == 0 {
        lemma2_to64();
    } else {
        lemma_zoom_base_closed((z - 1) as nat);
        lemma_pow2_adds((2 * (z - 1)) as nat, 2);
        lemma2_to64();
    }
}

/// A deeper zoom level starts at a later id.
pub proof fn lemma_zoom_base_monotonic(a: nat, b: nat)
    requires
        a <= b,
    ensures
        zoom_base(a) <= zoom_base(b),
    decreases b - a,
{
    if a < b {
        lemma_zoom_base_monotonic(a, (b - 1) as nat);
    }
}

impl Tile {
    /// No tile's id exceeds `MAX_TILE_ID`.
    pub proof fn lemma_id_in_range(self)
        requires
            self.wf(),
        ensures
            self.spec_id() <= MAX_TILE_ID,
    {
        lemma_zoom_base_monotonic((self@.0 + 1) as nat, 32);
        lemma_zoom_base_closed(32);
        lemma2_to64();
    }

    /// A tile survives the round trip through its id: decoding the id gives
    /// the tile's coordinate back.
    pub proof fn lemma_id_round_trip(self)
        requires
            self.wf(),
        ensures
            decoded(self.spec_id()) == Some(self@),
    {
        self.lemma_id_in_range();
    }

    /// The archive orders by zoom first: a tile of a lower zoom level has a
    /// smaller id than any tile of a higher one.
    pub proof fn lemma_lower_zoom_first(self, other: Tile)
        requires
            self.wf(),
            other.wf(),
            self@.0 < other@.0,
        ensures
            self.spec_id() < other.spec_id(),
    {
        lemma_zoom_base_monotonic((self@.0 + 1) as nat, other@.0 as nat);
    }
}

/// The number of columns, and of rows, at zoom `z`: `2^z`.
pub fn tiles_per_axis(z: u8) -> (n: u32)
    requires
        z <= MAX_ZOOM,
    ensures
        n == pow2(z as nat),
{
    proof {
        vstd::bits::lemma_u32_pow2_no_overflow(z as nat);
        vstd::bits::lemma_u32_shl_is_mul(1, z as u32);
    }
    1u32 << (z as u32)
}

/// The tiles of one zoom level, side by side, fill the world square end to
/// end: `2^z` tiles of `2^(32-z)` units each.
pub proof fn lemma_span(z: u8, k: u32)
    requires
        z <= MAX_ZOOM,
        k < pow2(z as nat),
    ensures
        (k + 1) * pow2((WORLD_BITS - z) as nat) <= WORLD_SIDE,
        0 <= k * pow2((WORLD_BITS - z) as nat),
        pow2((WORLD_BITS - z) as nat) >= 2,
{
    let span = pow2((WORLD_BITS - z) as nat);
    lemma_pow2_adds(z as nat, (WORLD_BITS - z) as nat);
    lemma2_to64();
    lemma_pow2_pos((WORLD_BITS - z) as nat);
    lemma_pow2_unfold((WORLD_BITS - z) as nat);
    lemma_pow2_pos((WORLD_BITS - z - 1) as nat);
    assert(pow2(z as nat) * span == WORLD_SIDE);
    assert((k + 1) * span <= pow2(z as nat) * span) by (nonlinear_arith)
        requires
            k + 1 <= pow2(z as nat),
            span > 0,
    ;
    assert(0 <= k * span) by (nonlinear_arith)
        requires
            k >= 0,
            span > 0,
    ;
}

} // verus!
