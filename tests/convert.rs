use genie_scx::bitmap::Bitmap;
use genie_scx::bytes::ByteReader;
use genie_scx::convert::{
    convert_terrain, convert_unit, AutoToWK, Scenario, ScenarioObject, TriggerCondition,
    TriggerEffect,
};
use genie_scx::map::TileMap;
use genie_scx::types::VersionBundle;

fn one_tile_map(terrain: i8) -> TileMap {
    let mut input = ByteReader::new(vec![1, 0, 0, 0, 1, 0, 0, 0, terrain as u8, 0, 0]);
    TileMap::from(&mut input).unwrap()
}

fn absent_bitmap() -> Option<Bitmap> {
    let mut out = Vec::new();
    Bitmap::write_empty(&mut out);
    Bitmap::from(&mut ByteReader::new(out)).unwrap()
}

fn document(version: VersionBundle, terrain: i8) -> Scenario {
    Scenario {
        version,
        bitmap: absent_bitmap(),
        map: one_tile_map(terrain),
        objects: vec![ScenarioObject { player: 1, unit_type: 1103 }, ScenarioObject {
            player: 0,
            unit_type: 83,
        }],
        conditions: vec![TriggerCondition { condition_type: 3, unit_type: 1001 }],
        effects: vec![TriggerEffect { effect_type: 11, unit_type: 1122 }],
    }
}

#[test]
fn tables() {
    assert_eq!(convert_terrain(41), 14);
    assert_eq!(convert_terrain(51), 19);
    assert_eq!(convert_terrain(0), 0);
    assert_eq!(convert_terrain(-1), -1);
    assert_eq!(convert_unit(1103), 529);
    assert_eq!(convert_unit(83), 83);
    for t in i8::MIN..=i8::MAX {
        assert_eq!(convert_terrain(convert_terrain(t)), convert_terrain(t));
    }
}

#[test]
fn converts_hd_document() {
    let mut scen = document(VersionBundle::hd_edition(), 48);
    AutoToWK::new().convert(&mut scen);
    assert_eq!(scen.version, VersionBundle::userpatch_15());
    assert_eq!(scen.map.tile(0, 0).unwrap().terrain, 20);
    assert_eq!(scen.objects[0].unit_type, 529);
    assert_eq!(scen.objects[1].unit_type, 83);
    assert_eq!(scen.conditions[0].unit_type, 866);
    assert_eq!(scen.effects[0].unit_type, 875);
    assert!(scen.bitmap.is_none());
}

#[test]
fn unmapped_terrain_is_kept() {
    let mut scen = document(VersionBundle::hd_edition(), 7);
    AutoToWK::new().convert(&mut scen);
    assert_eq!(scen.map.tile(0, 0).unwrap().terrain, 7);
    assert_eq!(scen.version, VersionBundle::userpatch_15());
}

#[test]
fn converting_twice_is_converting_once() {
    let mut once = document(VersionBundle::hd_edition(), 42);
    AutoToWK::new().convert(&mut once);
    let mut twice = once.clone();
    AutoToWK::new().convert(&mut twice);
    assert_eq!(once, twice);
}

#[test]
fn other_versions_are_left_alone() {
    let mut scen = document(VersionBundle::aoc(), 42);
    let before = scen.clone();
    AutoToWK::new().convert(&mut scen);
    assert_eq!(scen, before);
}

#[test]
fn end_to_end_single_tile() {
    let mut version = VersionBundle::hd_edition();
    version.format = *b"1.21";
    version.header = 3;
    let mut scen = document(version, 0);
    AutoToWK::new().convert(&mut scen);
    let wk = VersionBundle::userpatch_15();
    assert_eq!(scen.version.format, wk.format);
    assert_eq!(scen.version.header, wk.header);
    assert_eq!(scen.version, wk);
    assert_eq!(scen.map.tile(0, 0).unwrap().terrain, convert_terrain(0));
    let mut out = Vec::new();
    scen.map.write_to(&mut out);
    assert_eq!(out, vec![1, 0, 0, 0, 1, 0, 0, 0, 0, 0, 0]);
}
