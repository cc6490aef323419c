//! The options of a run.

use vstd::prelude::*;

verus! {

/// The zoom level down to which tiles are fetched where none is asked for.
pub const DEFAULT_MAXIMUM_ZOOM: u8 = 14;

/// The number of tiles fetched at the same time where none is asked for.
pub const DEFAULT_CONCURRENCY: usize = 10;

/// The options of a run: what to fetch, where to write it and how.
#[derive(Clone, Debug)]
pub struct Cli {
    /// The URL template of the tiles, with `{z}`, `{x}` and `{y}`.
    pub url: String,
    /// The path of the archive to write.
    pub output: String,
    /// Whether an archive already at that path may be replaced.
    pub force: bool,
    /// The name of the tile set, for the archive's metadata.
    pub name: Option<String>,
    /// The description of the tile set, for the archive's metadata.
    pub description: Option<String>,
    /// The attribution of the tile set, for the archive's metadata.
    pub attribution: Option<String>,
    /// The deepest zoom level to fetch.
    pub maximum_zoom: u8,
    /// The shallowest zoom level to fetch.
    pub minimum_zoom: u8,
    /// The path of a file that lists the tiles to fetch.
    pub tile_list: Option<String>,
    /// The format of the lines of that file.
    pub tile_list_format: String,
    /// A box `min_x,min_y,max_x,max_y` that the tiles must touch.
    pub bbox: Option<String>,
    /// The number of tiles fetched at the same time.
    pub concurrency: usize,
    /// Whether the tiles are added to the archive already at the path.
    pub append: bool,
}

/// The format of a tile-list line where none is given: `z/x/y`.
pub open spec fn default_tile_list_format() -> Seq<char> {
    seq!['z', '/', 'x', '/', 'y']
}

impl Cli {
    /// The options for a template and an output path, everything else as
    /// it is when nothing is asked for.
    pub fn new(url: String, output: String) -> (cli: Cli)
        ensures
            cli.url == url,
            cli.output == output,
            !cli.force,
            cli.name is None,
            cli.description is None,
            cli.attribution is None,
            cli.maximum_zoom == DEFAULT_MAXIMUM_ZOOM,
            cli.minimum_zoom == 0,
            cli.tile_list is None,
            cli.tile_list_format@ == default_tile_list_format(),
            cli.bbox is None,
            cli.concurrency == DEFAULT_CONCURRENCY,
            !cli.append,
    {
        let format: Vec<char> = vec!['z', '/', 'x', '/', 'y'];
        assert(format@ =~= default_tile_list_format());
        Cli {
            url,
            output,
            force: false,
            name: None,
            description: None,
            attribution: None,
            maximum_zoom: DEFAULT_MAXIMUM_ZOOM,
            minimum_zoom: 0,
            tile_list: None,
            tile_list_format: crate::text::string_of(&format),
            bbox: None,
            concurrency: DEFAULT_CONCURRENCY,
            append: false,
        }
    }

    /// Whether the output may replace a file at its path: when that was
    /// asked for, and always when appending, which rewrites the archive it
    /// adds to.
    pub fn may_overwrite(&self) -> (yes: bool)
        ensures
            yes == (self.force || self.append),
    {
        self.force || self.append
    }
}

} // verus!
