//! From the options of a run to its work list.

use crate::cli::Cli;
use crate::text::lines_of_text;
use crate::tile::MAX_ZOOM;
use crate::tile_list::{
    is_first_bad_line, is_list_of_lines, is_zoom_range, SimpleBBox, TileList, TileListError,
    TileListModel,
};
use crate::tile_list_format::{line_pattern, regex_accepts};
use vstd::prelude::*;

verus! {

/// Why a run has no work list.
#[derive(Debug, PartialEq, Eq)]
pub enum PlanError {
    /// The tile list could not be read.
    TileList(TileListError),
    /// The zoom range reaches beyond the deepest zoom level.
    ZoomOutOfRange,
}

/// The lines of a tile list, where there is one.
pub open spec fn lines_of(tile_list: Option<&str>) -> Option<Seq<Seq<char>>> {
    match tile_list {
        Some(text) => Some(lines_of_text(text@)),
        None => None,
    }
}

/// Whether `base` is what is left of `full`, the list of the tiles that
/// the lines name, within the zoom range.
pub open spec fn is_list_within(
    full: TileListModel,
    base: TileListModel,
    min: u8,
    max: u8,
    format: Seq<char>,
    lines: Seq<Seq<char>>,
) -> bool {
    is_list_of_lines(full, line_pattern(format), lines) && base == full.filter_zooms(min, max)
}

/// Whether `list` is `base` after the narrowing of a run.
pub open spec fn is_plan_of(
    base: TileListModel,
    list: TileListModel,
    cli: Cli,
    lines: Option<Seq<Seq<char>>>,
    bbox: Option<SimpleBBox>,
) -> bool {
    is_base_list(base, cli.minimum_zoom, cli.maximum_zoom, cli.tile_list_format@, lines) && list
        == narrowed(base, bbox)
}

/// Whether `base` is the list that a run starts from: with a tile list,
/// the tiles that its lines name, narrowed to the zoom range; without one,
/// every tile of the zoom range.
pub open spec fn is_base_list(
    base: TileListModel,
    min: u8,
    max: u8,
    format: Seq<char>,
    lines: Option<Seq<Seq<char>>>,
) -> bool {
    if lines is Some {
        exists|full: TileListModel| is_list_within(full, base, min, max, format, lines->0)
    } else {
        is_zoom_range(base, min, max)
    }
}

/// A list read from lines and narrowed to the zoom range is a list that a
/// run with a tile list starts from.
proof fn lemma_base_of_lines(
    full: TileListModel,
    base: TileListModel,
    min: u8,
    max: u8,
    format: Seq<char>,
    lines: Seq<Seq<char>>,
)
    requires
        is_list_within(full, base, min, max, format, lines),
    ensures
        is_base_list(base, min, max, format, Some(lines)),
{
    let given = Some(lines);
    assert(given->0 == lines);
    assert(is_base_list(base, min, max, format, given) == (exists|f: TileListModel|
        is_list_within(f, base, min, max, format, given->0)));
}

/// The list narrowed to a box, where one is given.
pub open spec fn narrowed(base: TileListModel, bbox: Option<SimpleBBox>) -> TileListModel {
    match bbox {
        Some(b) => base.filter_bbox(b),
        None => base,
    }
}

/// The work list of a run, before the tiles of an archive that is
/// appended to are taken out of it. With the text of a tile list it holds
/// the tiles that its lines name under the format of the options, within
/// the zoom range of the options; without, every tile of that zoom range.
/// A box narrows it to the tiles that touch it.
///
/// With a tile list, a format that the regular-expression engine does not
/// accept is an error, and so is the first line that matches the format
/// and names no tile. Without one, a zoom range that is not empty and
/// reaches beyond the deepest zoom level is an error.
pub fn plan_tiles(cli: &Cli, tile_list: Option<&str>, bbox: Option<SimpleBBox>) -> (r: Result<
    TileList,
    PlanError,
>)
    ensures
        tile_list is Some ==> (r matches Err(PlanError::TileList(TileListError::Format(_)))
            <==> !regex_accepts(line_pattern(cli.tile_list_format@))),
        match r {
            Ok(list) => list.wf() && exists|base: TileListModel|
                is_plan_of(base, list@, *cli, lines_of(tile_list), bbox),
            Err(PlanError::ZoomOutOfRange) => tile_list is None && cli.minimum_zoom
                <= cli.maximum_zoom && cli.maximum_zoom > MAX_ZOOM,
            Err(PlanError::TileList(TileListError::InvalidTile { line })) => tile_list matches Some(
                text,
            ) && is_first_bad_line(
                line_pattern(cli.tile_list_format@),
                lines_of_text(text@),
                line,
            ),
            Err(PlanError::TileList(TileListError::Format(_))) => tile_list is Some,
        },
{
    let min: u8 = cli.minimum_zoom;
    let max: u8 = cli.maximum_zoom;
    let mut list: TileList = match tile_list {
        Some(text) => match TileList::parse_from_file(text, cli.tile_list_format.as_str()) {
            Ok(full) => {
                let ghost read = full@;
                let mut list: TileList = full;
                list.filter_zooms(min, max);
                proof {
                    lemma_base_of_lines(
                        read,
                        list@,
                        min,
                        max,
                        cli.tile_list_format@,
                        lines_of_text(text@),
                    );
                }
                list
            },
            Err(e) => {
                return Err(PlanError::TileList(e));
            },
        },
        None => {
            if min <= max && max > MAX_ZOOM {
                return Err(PlanError::ZoomOutOfRange);
            }
            TileList::from_zoom_range(min, max)
        },
    };
    let ghost base = list@;
    assert(is_base_list(base, min, max, cli.tile_list_format@, lines_of(tile_list)));
    match bbox {
        Some(b) => {
            list.filter_bbox(b);
        },
        None => {},
    }
    assert(is_plan_of(base, list@, *cli, lines_of(tile_list), bbox));
    Ok(list)
}

} // verus!
