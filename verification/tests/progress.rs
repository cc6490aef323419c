use tile_download_tool::progress::{ProgressMsg, ProgressTally};
use tile_download_tool::tile::Tile;

#[test]
fn the_tally_starts_with_the_tiles_to_fetch() {
    assert_eq!(
        ProgressTally::new(5),
        ProgressTally {
            downloaded: 0,
            to_download: 5,
            bytes: 0,
            bytes_expected: 0,
            written: 0,
            to_write: 5,
        }
    );
}

#[test]
fn the_tally_follows_the_events() {
    let tile = Tile::new(1, 0, 0);
    let mut tally = ProgressTally::new(5);
    tally.record(&ProgressMsg::Downloaded(tile, 100));
    assert_eq!(
        tally,
        ProgressTally {
            downloaded: 1,
            to_download: 5,
            bytes: 100,
            bytes_expected: 500,
            written: 0,
            to_write: 5,
        }
    );
    tally.record(&ProgressMsg::Skipped);
    assert_eq!((tally.to_download, tally.to_write), (4, 4));
    // the estimate moves with the next tile that is fetched
    assert_eq!(tally.bytes_expected, 500);
    tally.record(&ProgressMsg::Downloaded(tile, 51));
    assert_eq!(
        tally,
        ProgressTally {
            downloaded: 2,
            to_download: 4,
            bytes: 151,
            // 75 whole bytes a tile, for 4 tiles
            bytes_expected: 300,
            written: 0,
            to_write: 4,
        }
    );
    tally.record(&ProgressMsg::Written(tile));
    assert_eq!(tally.written, 1);
    let before = tally;
    tally.record(&ProgressMsg::Log("a line".to_string()));
    tally.record(&ProgressMsg::Finished);
    assert_eq!(tally, before);
}

#[test]
fn the_tally_stays_within_its_numbers() {
    let tile = Tile::new(0, 0, 0);
    let mut tally = ProgressTally::new(0);
    tally.record(&ProgressMsg::Skipped);
    assert_eq!((tally.to_download, tally.to_write), (0, 0));
    let mut tally = ProgressTally::new(u64::MAX);
    tally.record(&ProgressMsg::Downloaded(tile, 2));
    assert_eq!(tally.bytes_expected, u64::MAX);
    let mut tally = ProgressTally::new(1);
    tally.bytes = u64::MAX - 1;
    tally.downloaded = u64::MAX;
    tally.written = u64::MAX;
    tally.record(&ProgressMsg::Downloaded(tile, 5));
    tally.record(&ProgressMsg::Written(tile));
    assert_eq!((tally.downloaded, tally.bytes, tally.written), (u64::MAX, u64::MAX, u64::MAX));
    assert_eq!(tally.bytes_expected, 1);
}
