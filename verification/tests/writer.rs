use tile_download_tool::cli::Cli;
use tile_download_tool::metadata::Metadata;
use tile_download_tool::progress::ProgressMsg;
use tile_download_tool::tile::Tile;
use tile_download_tool::tile_list::{TileList, TileListMeta};
use tile_download_tool::writer::{
    str_to_tile_type, PersistMode, TileType, WriteTileMsg, Writer, WriterError,
};

fn writer() -> Writer {
    let cli = Cli::new("https://e.com/{z}/{x}/{y}.png".to_string(), "out.pmtiles".to_string());
    Writer::new(false, false, "png", Metadata::new(&cli, 0)).unwrap()
}

/// The message with index `i`: a tile of its own and a payload that tells
/// it apart, or none where `i` is a multiple of `absent_every`.
fn msg(tiles: &Vec<Tile>, i: usize, absent_every: usize) -> WriteTileMsg {
    let data = if absent_every != 0 && i % absent_every == 0 {
        None
    } else {
        Some(vec![i as u8, (i >> 8) as u8, 7])
    };
    WriteTileMsg { index: i, tile: tiles[i], data }
}

/// What goes into the archive when the messages with these indices arrive
/// in this order.
fn archive(order: &[usize], absent_every: usize) -> (Vec<(Tile, Vec<u8>)>, usize) {
    let list = TileList::from_zoom_range(0, 3);
    let tiles = list.tiles();
    let mut w = writer();
    let mut out = Vec::new();
    for &i in order {
        out.extend(w.write(msg(tiles, i, absent_every)));
    }
    (out, w.next_index())
}

#[test]
fn tiles_in_order_pass_straight_through() {
    let mut w = writer();
    let a = Tile::new(0, 0, 0);
    let b = Tile::new(1, 0, 0);
    assert_eq!(w.next_index(), 0);
    assert_eq!(w.write(WriteTileMsg { index: 0, tile: a, data: Some(vec![1]) }), vec![(a, vec![1])]);
    assert_eq!(w.next_index(), 1);
    assert_eq!(w.write(WriteTileMsg { index: 1, tile: b, data: Some(vec![2]) }), vec![(b, vec![2])]);
    assert_eq!(w.next_index(), 2);
}

#[test]
fn a_tile_waits_for_those_before_it() {
    let mut w = writer();
    let t: Vec<Tile> = vec![Tile::new(0, 0, 0), Tile::new(1, 0, 0), Tile::new(1, 0, 1), Tile::new(1, 1, 1)];
    assert_eq!(w.write(WriteTileMsg { index: 2, tile: t[2], data: Some(vec![2]) }), vec![]);
    assert_eq!(w.write(WriteTileMsg { index: 1, tile: t[1], data: Some(vec![1]) }), vec![]);
    assert_eq!(w.next_index(), 0);
    // the gap closes and three tiles leave at once
    assert_eq!(
        w.write(WriteTileMsg { index: 0, tile: t[0], data: Some(vec![0]) }),
        vec![(t[0], vec![0]), (t[1], vec![1]), (t[2], vec![2])]
    );
    assert_eq!(w.next_index(), 3);
    assert_eq!(w.write(WriteTileMsg { index: 3, tile: t[3], data: Some(vec![3]) }), vec![(t[3], vec![3])]);
}

#[test]
fn an_absent_tile_takes_its_place_and_is_not_written() {
    let mut w = writer();
    let t: Vec<Tile> = vec![Tile::new(0, 0, 0), Tile::new(1, 0, 0), Tile::new(1, 0, 1)];
    assert_eq!(w.write(WriteTileMsg { index: 1, tile: t[1], data: None }), vec![]);
    assert_eq!(w.write(WriteTileMsg { index: 2, tile: t[2], data: Some(vec![2]) }), vec![]);
    assert_eq!(
        w.write(WriteTileMsg { index: 0, tile: t[0], data: Some(vec![0]) }),
        vec![(t[0], vec![0]), (t[2], vec![2])]
    );
    assert_eq!(w.next_index(), 3);
    let mut w = writer();
    assert_eq!(w.write(WriteTileMsg { index: 0, tile: t[0], data: None }), vec![]);
    assert_eq!(w.next_index(), 1);
}

#[test]
fn reverse_order_gives_the_same_archive_as_forward_order() {
    for n in [0usize, 1, 2, 5, 40, 85] {
        let forward: Vec<usize> = (0..n).collect();
        let reverse: Vec<usize> = (0..n).rev().collect();
        for absent_every in [0usize, 1, 3] {
            let f = archive(&forward, absent_every);
            let r = archive(&reverse, absent_every);
            assert_eq!(f, r);
            assert_eq!(f.1, n);
            let stored = (0..n).filter(|i| absent_every == 0 || i % absent_every != 0).count();
            assert_eq!(f.0.len(), stored);
        }
    }
}

#[test]
fn any_order_of_arrival_gives_the_same_archive() {
    let n = 85usize;
    let forward: Vec<usize> = (0..n).collect();
    let expected = archive(&forward, 4);
    // a few shuffles: steps that are coprime to n walk through every index
    for step in [2usize, 3, 7, 13, 84] {
        let order: Vec<usize> = (0..n).map(|k| (k * step + 11) % n).collect();
        assert_eq!(archive(&order, 4), expected);
    }
    // the tiles leave in the order of their ids
    let ids: Vec<u64> = expected.0.iter().map(|(t, _)| t.to_id()).collect();
    let mut sorted = ids.clone();
    sorted.sort();
    assert_eq!(ids, sorted);
}

#[test]
fn an_index_that_has_left_does_not_leave_again() {
    let mut w = writer();
    let a = Tile::new(0, 0, 0);
    assert_eq!(w.write(WriteTileMsg { index: 0, tile: a, data: Some(vec![1]) }), vec![(a, vec![1])]);
    assert_eq!(w.write(WriteTileMsg { index: 0, tile: a, data: Some(vec![2]) }), vec![]);
    assert_eq!(w.next_index(), 1);
    // of two arrivals under one index that still waits, the later one stays
    let b = Tile::new(1, 0, 0);
    let c = Tile::new(1, 0, 1);
    assert_eq!(w.write(WriteTileMsg { index: 2, tile: c, data: Some(vec![3]) }), vec![]);
    assert_eq!(w.write(WriteTileMsg { index: 2, tile: c, data: Some(vec![4]) }), vec![]);
    assert_eq!(
        w.write(WriteTileMsg { index: 1, tile: b, data: None }),
        vec![(c, vec![4])]
    );
    assert_eq!(w.next_index(), 3);
}

#[test]
fn the_last_index_of_all_never_leaves() {
    let mut w = writer();
    let a = Tile::new(0, 0, 0);
    assert_eq!(w.write(WriteTileMsg { index: usize::MAX, tile: a, data: Some(vec![1]) }), vec![]);
    assert_eq!(w.next_index(), 0);
}

#[test]
fn an_existing_output_needs_force() {
    let cli = Cli::new("t".to_string(), "out.pmtiles".to_string());
    let make = |exists: bool, force: bool| Writer::new(exists, force, "jpg", Metadata::new(&cli, 5));
    assert_eq!(make(true, false).err(), Some(WriterError::OutputExists));
    let w = make(true, true).unwrap();
    assert_eq!(w.persist_mode(), PersistMode::Overwrite);
    assert_eq!(w.tile_type(), TileType::Jpeg);
    assert_eq!(w.header(), TileListMeta { min_zoom: 32, max_zoom: 32, bounds: None });
    assert_eq!(w.written(), 0);
    assert_eq!(w.metadata(), &Metadata::new(&cli, 5));
    assert_eq!(w.next_index(), 0);
    let w = make(false, false).unwrap();
    assert_eq!(w.persist_mode(), PersistMode::NoClobber);
    let w = make(false, true).unwrap();
    assert_eq!(w.persist_mode(), PersistMode::Overwrite);
}

#[test]
fn format_names_stand_for_tile_types() {
    assert_eq!(str_to_tile_type("png"), TileType::Png);
    assert_eq!(str_to_tile_type("jpg"), TileType::Jpeg);
    assert_eq!(str_to_tile_type("jpeg"), TileType::Jpeg);
    assert_eq!(str_to_tile_type("webp"), TileType::Webp);
    assert_eq!(str_to_tile_type("mvt"), TileType::Mvt);
    assert_eq!(str_to_tile_type("pbf"), TileType::Png);
    assert_eq!(str_to_tile_type("JPG"), TileType::Png);
    assert_eq!(str_to_tile_type(""), TileType::Png);
    assert_eq!(str_to_tile_type("gif"), TileType::Png);
    assert_eq!(str_to_tile_type("jpegs"), TileType::Png);
}

#[test]
fn the_header_follows_the_tiles_that_go_into_the_archive() {
    let side: i64 = 1 << 32;
    let mut w = writer();
    let deep = Tile::new(2, 1, 1);
    let deeper = Tile::new(3, 7, 7);
    let top = Tile::new(0, 0, 0);
    // a tile that waits is not in the archive yet
    assert_eq!(w.write(WriteTileMsg { index: 1, tile: deeper, data: Some(vec![1]) }), vec![]);
    assert_eq!(w.header(), TileListMeta { min_zoom: 32, max_zoom: 32, bounds: None });
    assert_eq!(w.write(WriteTileMsg { index: 0, tile: deep, data: Some(vec![2]) }).len(), 2);
    assert_eq!(w.written(), 2);
    assert_eq!(
        w.header(),
        TileListMeta {
            min_zoom: 2,
            max_zoom: 3,
            bounds: Some((side / 4, side / 2, side / 2, 3 * (side / 4))),
        }
    );
    // a tile without a payload leaves the header as it is
    assert_eq!(w.write(WriteTileMsg { index: 2, tile: top, data: None }), vec![]);
    assert_eq!(w.next_index(), 3);
    assert_eq!(w.written(), 2);
    assert_eq!(w.header().min_zoom, 2);
    // with a payload it widens it
    assert_eq!(w.write(WriteTileMsg { index: 3, tile: top, data: Some(vec![3]) }).len(), 1);
    assert_eq!(
        w.header(),
        TileListMeta { min_zoom: 0, max_zoom: 3, bounds: Some((0, 0, side, side)) }
    );
}

#[test]
fn the_header_does_not_depend_on_the_order_of_arrival() {
    let list = TileList::from_zoom_range(0, 3);
    let tiles = list.tiles();
    let n = tiles.len();
    let mut forward = writer();
    let mut reverse = writer();
    for i in 0..n {
        forward.write(msg(tiles, i, 2));
        reverse.write(msg(tiles, n - 1 - i, 2));
    }
    assert_eq!(forward.header(), reverse.header());
    assert_eq!(forward.written(), reverse.written());
    assert_eq!(forward.written(), n / 2);
    // the tile of zoom 0 has index 0 and no payload
    assert_eq!(forward.header().min_zoom, 1);
    assert_eq!(forward.header().max_zoom, 3);
}

#[test]
fn written_tiles_are_reported_in_their_order() {
    let a = Tile::new(0, 0, 0);
    let b = Tile::new(1, 0, 0);
    assert_eq!(
        Writer::reports(&vec![(a, vec![1]), (b, vec![2, 2])]),
        vec![ProgressMsg::Written(a), ProgressMsg::Written(b)]
    );
    assert_eq!(Writer::reports(&vec![]), vec![]);
}

#[test]
fn the_end_of_the_archive_is_reported() {
    assert_eq!(
        Writer::closing(),
        ProgressMsg::Log("Finished writing tiles, finalizing archive...".to_string())
    );
    let mut w = writer();
    assert_eq!(
        w.finish("out.pmtiles"),
        vec![
            ProgressMsg::Log("Finished writing 0 tiles to out.pmtiles.".to_string()),
            ProgressMsg::Finished,
        ]
    );
    let t = Tile::new(0, 0, 0);
    w.write(WriteTileMsg { index: 1, tile: t, data: Some(vec![1]) });
    w.write(WriteTileMsg { index: 0, tile: t, data: None });
    w.write(WriteTileMsg { index: 2, tile: t, data: Some(vec![1]) });
    assert_eq!(
        w.finish("/tmp/a b.pmtiles"),
        vec![
            ProgressMsg::Log("Finished writing 2 tiles to /tmp/a b.pmtiles.".to_string()),
            ProgressMsg::Finished,
        ]
    );
}
