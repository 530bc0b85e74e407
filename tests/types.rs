use genie_scx::types::{
    DLCPackage, DataSet, DiplomaticStance, ParseDLCPackageError, ParseDataSetError,
    ParseDiplomaticStanceError, ParseStartingAgeError, ParseVictoryConditionError, StartingAge,
    UnsupportedPresetError, VersionBundle, VictoryCondition, FORMAT_1_18, FORMAT_1_21,
    FORMAT_1_22,
};

#[test]
fn diplomatic_stance_codes() {
    assert_eq!(DiplomaticStance::try_from(0), Ok(DiplomaticStance::Ally));
    assert_eq!(DiplomaticStance::try_from(1), Ok(DiplomaticStance::Neutral));
    assert_eq!(DiplomaticStance::try_from(3), Ok(DiplomaticStance::Enemy));
    assert_eq!(DiplomaticStance::try_from(2), Err(ParseDiplomaticStanceError(2)));
    assert_eq!(DiplomaticStance::try_from(-1), Err(ParseDiplomaticStanceError(-1)));
    for s in [DiplomaticStance::Ally, DiplomaticStance::Neutral, DiplomaticStance::Enemy] {
        assert_eq!(DiplomaticStance::try_from(i32::from(s)), Ok(s));
    }
    assert_eq!(i32::from(DiplomaticStance::Enemy), 3);
}

#[test]
fn data_set_codes() {
    assert_eq!(DataSet::try_from(0), Ok(DataSet::BaseGame));
    assert_eq!(DataSet::try_from(1), Ok(DataSet::Expansions));
    assert_eq!(DataSet::try_from(2), Err(ParseDataSetError(2)));
    assert_eq!(i32::from(DataSet::Expansions), 1);
    for d in [DataSet::BaseGame, DataSet::Expansions] {
        assert_eq!(DataSet::try_from(i32::from(d)), Ok(d));
    }
}

#[test]
fn dlc_package_codes() {
    assert_eq!(DLCPackage::try_from(2), Ok(DLCPackage::AgeOfKings));
    assert_eq!(DLCPackage::try_from(6), Ok(DLCPackage::RiseOfTheRajas));
    assert_eq!(DLCPackage::try_from(1), Err(ParseDLCPackageError(1)));
    assert_eq!(DLCPackage::try_from(7), Err(ParseDLCPackageError(7)));
    for d in [
        DLCPackage::AgeOfKings,
        DLCPackage::AgeOfConquerors,
        DLCPackage::TheForgotten,
        DLCPackage::AfricanKingdoms,
        DLCPackage::RiseOfTheRajas,
    ] {
        assert_eq!(DLCPackage::try_from(i32::from(d)), Ok(d));
    }
    assert_eq!(i32::from(DLCPackage::TheForgotten), 4);
}

#[test]
fn victory_condition_codes() {
    assert_eq!(VictoryCondition::try_from(0), Ok(VictoryCondition::Capture));
    assert_eq!(VictoryCondition::try_from(11), Ok(VictoryCondition::Points));
    assert_eq!(VictoryCondition::try_from(12), Err(ParseVictoryConditionError(12)));
    for n in 0..12 {
        let c = VictoryCondition::try_from(n).unwrap();
        assert_eq!(i32::from(c), n);
    }
}

const AGES: [StartingAge; 7] = [
    StartingAge::Default,
    StartingAge::Nomad,
    StartingAge::DarkAge,
    StartingAge::FeudalAge,
    StartingAge::CastleAge,
    StartingAge::ImperialAge,
    StartingAge::PostImperialAge,
];

#[test]
fn starting_age_legacy_numbering() {
    assert_eq!(StartingAge::try_from(-1, 122), Ok(StartingAge::Default));
    assert_eq!(StartingAge::try_from(0, 122), Ok(StartingAge::DarkAge));
    assert_eq!(StartingAge::try_from(4, 122), Ok(StartingAge::PostImperialAge));
    assert_eq!(
        StartingAge::try_from(5, 122),
        Err(ParseStartingAgeError { version: 122, found: 5 })
    );
    assert_eq!(StartingAge::FeudalAge.to_i32(122), 1);
    assert_eq!(StartingAge::Default.to_i32(124), -1);
}

#[test]
fn starting_age_extended_numbering() {
    assert_eq!(StartingAge::try_from(-1, 126), Ok(StartingAge::Default));
    assert_eq!(StartingAge::try_from(0, 126), Ok(StartingAge::Default));
    assert_eq!(StartingAge::try_from(1, 125), Ok(StartingAge::Nomad));
    assert_eq!(StartingAge::try_from(6, 126), Ok(StartingAge::PostImperialAge));
    assert_eq!(
        StartingAge::try_from(7, 126),
        Err(ParseStartingAgeError { version: 126, found: 7 })
    );
    assert_eq!(StartingAge::Default.to_i32(126), 0);
    assert_eq!(StartingAge::DarkAge.to_i32(125), 2);
}

#[test]
fn starting_age_round_trips_within_a_regime() {
    for age in AGES {
        assert_eq!(StartingAge::try_from(age.to_i32(126), 126), Ok(age));
        let legacy = StartingAge::try_from(age.to_i32(122), 122).unwrap();
        if age == StartingAge::Nomad {
            assert_eq!(legacy, StartingAge::DarkAge);
        } else {
            assert_eq!(legacy, age);
        }
    }
    assert_eq!(StartingAge::Nomad.to_i32(122), 0);
}

#[test]
fn starting_age_error_text() {
    assert_eq!(ParseStartingAgeError { version: 122, found: 9 }.expected(), "-1-4");
    assert_eq!(ParseStartingAgeError { version: 126, found: 9 }.expected(), "-1-6");
}

#[test]
fn presets() {
    let aoc = VersionBundle::aoc();
    assert_eq!(aoc.format, *b"1.21");
    assert_eq!(aoc.header, 2);
    assert_eq!(aoc.dlc_options, -1);
    assert_eq!(aoc.data, 122);
    assert_eq!(aoc.picture, 1);
    assert_eq!(aoc.victory, 200);
    assert_eq!(aoc.triggers, 160);
    assert_eq!(VersionBundle::userpatch_14(), aoc);
    assert_eq!(VersionBundle::userpatch_15(), aoc);
    let hd = VersionBundle::hd_edition();
    assert_eq!(hd.format, *b"1.21");
    assert_eq!(hd.header, 3);
    assert_eq!(hd.dlc_options, 1000);
    assert_eq!(hd.data, 126);
    assert_eq!(hd.picture, 3);
    assert_eq!(FORMAT_1_22, *b"1.22");
}

#[test]
fn unknown_presets_fail() {
    assert_eq!(VersionBundle::aoe(), Err(UnsupportedPresetError::Aoe));
    assert_eq!(VersionBundle::ror(), Err(UnsupportedPresetError::Ror));
    assert_eq!(VersionBundle::aok(), Err(UnsupportedPresetError::Aok));
}

#[test]
fn classification() {
    assert!(VersionBundle::hd_edition().is_hd_edition());
    assert!(!VersionBundle::aoc().is_hd_edition());
    assert!(VersionBundle::aoc().is_aoc());
    assert!(!VersionBundle::hd_edition().is_aoc());
    assert!(!VersionBundle::aoc().is_aok());
    let mut aok = VersionBundle::aoc();
    aok.format = FORMAT_1_18;
    assert!(aok.is_aok());
    assert!(!aok.is_aoc());
    let mut hd122 = VersionBundle::hd_edition();
    hd122.format = FORMAT_1_22;
    assert!(hd122.is_hd_edition());
    hd122.data = 122;
    assert!(!hd122.is_hd_edition());
    assert_eq!(FORMAT_1_21, *b"1.21");
}
