use genie_scx::bytes::{ByteReader, ReadError};
use genie_scx::map::{Tile, TileMap};

fn grid_bytes() -> Vec<u8> {
    let mut bytes = vec![3, 0, 0, 0, 2, 0, 0, 0];
    for i in 0..6u8 {
        bytes.extend_from_slice(&[i, 0xff, 10 + i]);
    }
    bytes
}

#[test]
fn map_from_bytes() {
    let mut input = ByteReader::new(grid_bytes());
    let map = TileMap::from(&mut input).unwrap();
    assert_eq!(map.width(), 3);
    assert_eq!(map.height(), 2);
    assert_eq!(map.tiles().len(), 6);
    assert_eq!(map.tile(1, 1), Some(&Tile { terrain: 4, elevation: -1, zone: 14 }));
    assert_eq!(map.tile(2, 0), Some(&Tile { terrain: 2, elevation: -1, zone: 12 }));
    assert_eq!(input.remaining(), 0);
}

#[test]
fn tile_out_of_bounds() {
    let mut input = ByteReader::new(grid_bytes());
    let map = TileMap::from(&mut input).unwrap();
    assert_eq!(map.tile(3, 0), None);
    assert_eq!(map.tile(0, 2), None);
    assert_eq!(map.tile(u32::MAX, u32::MAX), None);
    let mut input = ByteReader::new(vec![0; 8]);
    let empty = TileMap::from(&mut input).unwrap();
    assert_eq!(empty.tile(0, 0), None);
}

#[test]
fn map_round_trip() {
    let mut input = ByteReader::new(grid_bytes());
    let map = TileMap::from(&mut input).unwrap();
    let mut out = Vec::new();
    map.write_to(&mut out);
    assert_eq!(out, grid_bytes());
}

#[test]
fn tile_mut_changes_one_tile() {
    let mut input = ByteReader::new(grid_bytes());
    let mut map = TileMap::from(&mut input).unwrap();
    map.tile_mut(0, 1).unwrap().terrain = 9;
    assert!(map.tile_mut(5, 5).is_none());
    assert_eq!(map.tile(0, 1).unwrap().terrain, 9);
    assert_eq!(map.tile(1, 1).unwrap().terrain, 4);
    for t in map.tiles_mut() {
        t.zone = 0;
    }
    assert!(map.tiles().iter().all(|t| t.zone == 0));
}

#[test]
fn truncated_map() {
    let mut bytes = grid_bytes();
    bytes.pop();
    let mut input = ByteReader::new(bytes);
    assert_eq!(TileMap::from(&mut input), Err(ReadError::UnexpectedEof));
    let mut input = ByteReader::new(vec![0xff, 0xff, 0xff, 0xff, 0xff, 0xff, 0xff, 0xff]);
    assert_eq!(TileMap::from(&mut input), Err(ReadError::UnexpectedEof));
}
