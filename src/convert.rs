//! Conversion of HD Edition scenarios to UserPatch / WololoKingdoms.
//!
//! HD Edition's expansion packs added unit and terrain types under identifiers that the
//! UserPatch data files use for nothing or for something else. Conversion rewrites every such
//! identifier, in the placed objects, in trigger conditions and effects and in the map tiles,
//! to the WololoKingdoms identifier of the same thing, and then marks the document with the
//! UserPatch 1.5 version bundle. Identifiers that no table names are left as they are.
use crate::bitmap::Bitmap;
use crate::map::{Tile, TileMap};
use crate::types::{aoc_bundle, is_hd_edition_bundle, VersionBundle};
use vstd::prelude::*;

verus! {

/// The WololoKingdoms terrain for an HD Edition terrain; other terrains are kept.
///
/// The African Kingdoms terrains come first, then those of Rise of the Rajas. No result is
/// itself a key, so applying the table twice changes nothing more.
pub open spec fn wk_terrain(terrain: i8) -> i8 {
    if terrain == 41 {
        14
    } else if terrain == 42 {
        11
    } else if terrain == 43 {
        6
    } else if terrain == 44 {
        3
    } else if terrain == 45 {
        2
    } else if terrain == 46 {
        8
    } else if terrain == 47 {
        9
    } else if terrain == 48 {
        20
    } else if terrain == 49 {
        10
    } else if terrain == 50 {
        4
    } else if terrain == 51 {
        19
    } else {
        terrain
    }
}

/// The WololoKingdoms unit type for an HD Edition unit type; other types are kept.
///
/// The Forgotten units come first, then those of African Kingdoms and of Rise of the Rajas.
/// No result is itself a key.
pub open spec fn wk_unit(unit_type: i32) -> i32 {
    if unit_type == 1001 {
        866
    } else if unit_type == 1003 {
        868
    } else if unit_type == 1004 {
        869
    } else if unit_type == 1006 {
        871
    } else if unit_type == 1103 {
        529
    } else if unit_type == 1104 {
        527
    } else if unit_type == 1120 {
        873
    } else if unit_type == 1122 {
        875
    } else {
        unit_type
    }
}

/// Looks up the terrain table.
pub fn convert_terrain(terrain: i8) -> (r: i8)
    ensures
        r == wk_terrain(terrain),
{
    match terrain {
        41 => 14,
        42 => 11,
        43 => 6,
        44 => 3,
        45 => 2,
        46 => 8,
        47 => 9,
        48 => 20,
        49 => 10,
        50 => 4,
        51 => 19,
        t => t,
    }
}

/// Looks up the unit table.
pub fn convert_unit(unit_type: i32) -> (r: i32)
    ensures
        r == wk_unit(unit_type),
{
    match unit_type {
        1001 => 866,
        1003 => 868,
        1004 => 869,
        1006 => 871,
        1103 => 529,
        1104 => 527,
        1120 => 873,
        1122 => 875,
        u => u,
    }
}

/// An object placed on the map when the scenario starts.
#[derive(Debug, Clone, Copy, PartialEq, Eq, Structural)]
pub struct ScenarioObject {
    /// The player that owns it (0 is Gaia).
    pub player: u32,
    /// Its unit type.
    pub unit_type: i32,
}

/// What a trigger condition refers to.
#[derive(Debug, Clone, Copy, PartialEq, Eq, Structural)]
pub struct TriggerCondition {
    pub condition_type: i32,
    /// The unit type that the condition counts or looks for; -1 when none.
    pub unit_type: i32,
}

/// What a trigger effect refers to.
#[derive(Debug, Clone, Copy, PartialEq, Eq, Structural)]
pub struct TriggerEffect {
    pub effect_type: i32,
    /// The unit type that the effect creates or acts on; -1 when none.
    pub unit_type: i32,
}

/// The parts of a scenario document that conversion reads and rewrites.
#[derive(Debug, Clone, PartialEq, Eq)]
pub struct Scenario {
    pub version: VersionBundle,
    pub bitmap: Option<Bitmap>,
    pub map: TileMap,
    pub objects: Vec<ScenarioObject>,
    pub conditions: Vec<TriggerCondition>,
    pub effects: Vec<TriggerEffect>,
}

/// A tile with its terrain converted.
pub open spec fn converted_tile(t: Tile) -> Tile {
    Tile { terrain: wk_terrain(t.terrain), ..t }
}

/// An object with its unit type converted.
pub open spec fn converted_object(o: ScenarioObject) -> ScenarioObject {
    ScenarioObject { unit_type: wk_unit(o.unit_type), ..o }
}

/// A condition with its unit type converted.
pub open spec fn converted_condition(c: TriggerCondition) -> TriggerCondition {
    TriggerCondition { unit_type: wk_unit(c.unit_type), ..c }
}

/// An effect with its unit type converted.
pub open spec fn converted_effect(e: TriggerEffect) -> TriggerEffect {
    TriggerEffect { unit_type: wk_unit(e.unit_type), ..e }
}

/// Whether `after` is `before` converted: the UserPatch 1.5 bundle, every identifier
/// converted, everything else kept.
pub open spec fn is_converted(before: Scenario, after: Scenario) -> bool {
    &&& after.version == aoc_bundle()
    &&& after.bitmap == before.bitmap
    &&& after.map.width == before.map.width
    &&& after.map.height == before.map.height
    &&& after.map.tiles@ == before.map.tiles@.map_values(|t: Tile| converted_tile(t))
    &&& after.objects@ == before.objects@.map_values(|o: ScenarioObject| converted_object(o))
    &&& after.conditions@ == before.conditions@.map_values(
        |c: TriggerCondition| converted_condition(c),
    )
    &&& after.effects@ == before.effects@.map_values(|e: TriggerEffect| converted_effect(e))
}

/// Converts HD Edition scenarios to WololoKingdoms.
#[derive(Debug, Clone, Copy)]
pub struct AutoToWK;

impl AutoToWK {
    pub fn new() -> (r: Self) {
        AutoToWK
    }

    /// Converts an HD Edition document in place; a document of any other version is left
    /// as it is.
    pub fn convert(&self, scen: &mut Scenario)
        ensures
            is_hd_edition_bundle(old(scen).version) ==> is_converted(*old(scen), *final(scen)),
            !is_hd_edition_bundle(old(scen).version) ==> *final(scen) == *old(scen),
    {
        if !scen.version.is_hd_edition() {
            return ;
        }
        let ghost before = *scen;
        let n = scen.map.tiles.len();
        let mut i: usize = 0;
        while i < n
            invariant
                n == before.map.tiles@.len(),
                i <= n,
                scen.map.tiles@.len() == n,
                scen.version == before.version,
                scen.bitmap == before.bitmap,
                scen.map.width == before.map.width,
                scen.map.height == before.map.height,
                scen.objects == before.objects,
                scen.conditions == before.conditions,
                scen.effects == before.effects,
                forall|k: int|
                    0 <= k < i ==> scen.map.tiles@[k] == converted_tile(before.map.tiles@[k]),
                forall|k: int| i <= k < n ==> scen.map.tiles@[k] == before.map.tiles@[k],
            decreases n - i,
        {
            let t = scen.map.tiles[i];
            scen.map.tiles.set(
                i,
                Tile { terrain: convert_terrain(t.terrain), elevation: t.elevation, zone: t.zone },
            );
            i = i + 1;
        }
        let n = scen.objects.len();
        let mut i: usize = 0;
        while i < n
            invariant
                n == before.objects@.len(),
                i <= n,
                scen.objects@.len() == n,
                scen.version == before.version,
                scen.bitmap == before.bitmap,
                scen.map.width == before.map.width,
                scen.map.height == before.map.height,
                scen.map.tiles@ == before.map.tiles@.map_values(|t: Tile| converted_tile(t)),
                scen.conditions == before.conditions,
                scen.effects == before.effects,
                forall|k: int|
                    0 <= k < i ==> scen.objects@[k] == converted_object(before.objects@[k]),
                forall|k: int| i <= k < n ==> scen.objects@[k] == before.objects@[k],
            decreases n - i,
        {
            let o = scen.objects[i];
            scen.objects.set(
                i,
                ScenarioObject { player: o.player, unit_type: convert_unit(o.unit_type) },
            );
            i = i + 1;
        }
        let n = scen.conditions.len();
        let mut i: usize = 0;
        while i < n
            invariant
                n == before.conditions@.len(),
                i <= n,
                scen.conditions@.len() == n,
                scen.version == before.version,
                scen.bitmap == before.bitmap,
                scen.map.width == before.map.width,
                scen.map.height == before.map.height,
                scen.map.tiles@ == before.map.tiles@.map_values(|t: Tile| converted_tile(t)),
                scen.objects@ == before.objects@.map_values(
                    |o: ScenarioObject| converted_object(o),
                ),
                scen.effects == before.effects,
                forall|k: int|
                    0 <= k < i ==> scen.conditions@[k] == converted_condition(
                        before.conditions@[k],
                    ),
                forall|k: int| i <= k < n ==> scen.conditions@[k] == before.conditions@[k],
            decreases n - i,
        {
            let c = scen.conditions[i];
            scen.conditions.set(
                i,
                TriggerCondition {
                    condition_type: c.condition_type,
                    unit_type: convert_unit(c.unit_type),
                },
            );
            i = i + 1;
        }
        let n = scen.effects.len();
        let mut i: usize = 0;
        while i < n
            invariant
                n == before.effects@.len(),
                i <= n,
                scen.effects@.len() == n,
                scen.version == before.version,
                scen.bitmap == before.bitmap,
                scen.map.width == before.map.width,
                scen.map.height == before.map.height,
                scen.map.tiles@ == before.map.tiles@.map_values(|t: Tile| converted_tile(t)),
                scen.objects@ == before.objects@.map_values(
                    |o: ScenarioObject| converted_object(o),
                ),
                scen.conditions@ == before.conditions@.map_values(
                    |c: TriggerCondition| converted_condition(c),
                ),
                forall|k: int|
                    0 <= k < i ==> scen.effects@[k] == converted_effect(before.effects@[k]),
                forall|k: int| i <= k < n ==> scen.effects@[k] == before.effects@[k],
            decreases n - i,
        {
            let e = scen.effects[i];
            scen.effects.set(
                i,
                TriggerEffect { effect_type: e.effect_type, unit_type: convert_unit(e.unit_type) },
            );
            i = i + 1;
        }
        assert(scen.effects@ =~= before.effects@.map_values(|e: TriggerEffect| converted_effect(e)));
        scen.version = VersionBundle::userpatch_15();
    }
}

/// Converting twice gives what converting once gives: a converted document no longer looks
/// like HD Edition, so `convert` leaves it as it is; and even converted again, each table
/// would map every converted identifier to itself.
pub proof fn lemma_convert_idempotent(a: Scenario, b: Scenario, c: Scenario)
    requires
        is_hd_edition_bundle(a.version),
        is_converted(a, b),
    ensures
        !is_hd_edition_bundle(b.version),
        is_converted(b, c) ==> c.version == b.version && c.map.tiles@ == b.map.tiles@
            && c.objects@ == b.objects@ && c.conditions@ == b.conditions@ && c.effects@
            == b.effects@,
{
    if is_converted(b, c) {
        assert(c.map.tiles@ =~= b.map.tiles@);
        assert(c.objects@ =~= b.objects@);
        assert(c.conditions@ =~= b.conditions@);
        assert(c.effects@ =~= b.effects@);
    }
}

/// Each table maps what it produces to itself.
pub proof fn lemma_tables_idempotent(terrain: i8, unit_type: i32)
    ensures
        wk_terrain(wk_terrain(terrain)) == wk_terrain(terrain),
        wk_unit(wk_unit(unit_type)) == wk_unit(unit_type),
{
}

} // verus!
