use tile_download_tool::append_reader::{AppendError, AppendReader};
use tile_download_tool::tile::{Tile, MAX_TILE_ID};
use tile_download_tool::writer::WriteTileMsg;

#[test]
fn ids_of_the_directory_become_tiles() {
    let reader = AppendReader::new(&vec![0, 4, 11, 26]).unwrap();
    assert_eq!(reader.len(), 4);
    assert_eq!(
        reader.tiles(),
        &vec![Tile::new(0, 0, 0), Tile::new(1, 1, 0), Tile::new(2, 1, 3), Tile::new(3, 3, 0)]
    );
    let reader = AppendReader::new(&vec![]).unwrap();
    assert_eq!(reader.len(), 0);
}

#[test]
fn a_number_that_is_no_tile_id_is_an_error() {
    assert_eq!(
        AppendReader::new(&vec![0, 1, MAX_TILE_ID + 1, 2]).err(),
        Some(AppendError::InvalidTileId { position: 2 })
    );
    assert_eq!(
        AppendReader::new(&vec![u64::MAX]).err(),
        Some(AppendError::InvalidTileId { position: 0 })
    );
    assert!(AppendReader::new(&vec![MAX_TILE_ID]).is_ok());
}

#[test]
fn the_tiles_of_the_archive_are_a_set() {
    let reader = AppendReader::new(&vec![0, 4, 11]).unwrap();
    let set = reader.get_tiles();
    assert!(set.contains(&Tile::new(0, 0, 0)));
    assert!(set.contains(&Tile::new(1, 1, 0)));
    assert!(set.contains(&Tile::new(2, 1, 3)));
    assert!(!set.contains(&Tile::new(1, 0, 0)));
}

#[test]
fn carried_over_tiles_keep_their_place() {
    let reader = AppendReader::new(&vec![0, 4, 11]).unwrap();
    let msgs = reader.read_tiles(0, vec![Some(vec![1]), None, Some(vec![3, 3])]);
    assert_eq!(
        msgs,
        vec![
            WriteTileMsg { index: 0, tile: Tile::new(0, 0, 0), data: Some(vec![1]) },
            WriteTileMsg { index: 1, tile: Tile::new(1, 1, 0), data: None },
            WriteTileMsg { index: 2, tile: Tile::new(2, 1, 3), data: Some(vec![3, 3]) },
        ]
    );
    // in parts
    assert_eq!(reader.read_tiles(0, vec![]), vec![]);
    assert_eq!(reader.read_tiles(3, vec![]), vec![]);
    assert_eq!(
        reader.read_tiles(1, vec![Some(vec![8]), Some(vec![9])]),
        vec![
            WriteTileMsg { index: 1, tile: Tile::new(1, 1, 0), data: Some(vec![8]) },
            WriteTileMsg { index: 2, tile: Tile::new(2, 1, 3), data: Some(vec![9]) },
        ]
    );
}
