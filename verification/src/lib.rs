//! Planning and sequencing logic for downloading XYZ map tiles into a
//! single tile archive: the tile model, the work list and its filters, URL
//! templating, the retry policy of a fetch and the buffer that puts
//! concurrently fetched tiles back into archive order.

pub mod append_reader;
pub mod cli;
pub mod downloader;
pub mod metadata;
pub mod plan;
pub mod progress;
pub mod text;
pub mod sorting;
pub mod tile;
pub mod tile_list;
pub mod tile_list_format;
pub mod tile_set;
pub mod tile_urls;
pub mod writer;
