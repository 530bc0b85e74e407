//! Closed integer enumerations of the scenario format, and the bundle of sub-format versions.
//!
//! Fractional version numbers (`1.22`, `2.0`, ...) are held in hundredths: `1.22` is `122`.
use vstd::prelude::*;

verus! {

/// SCX container format version: four ASCII bytes such as `1.21`.
pub type SCXVersion = [u8; 4];

/// Could not parse a diplomatic stance because given number is an unknown stance ID.
#[derive(Debug, Clone, Copy, PartialEq, Eq, Structural)]
pub struct ParseDiplomaticStanceError(pub i32);

#[derive(Debug, Clone, Copy, PartialEq, Eq, Structural)]
pub enum DiplomaticStance {
    Ally,
    Neutral,
    Enemy,
}

/// The wire value of a diplomatic stance.
pub open spec fn diplomatic_stance_code(stance: DiplomaticStance) -> i32 {
    match stance {
        DiplomaticStance::Ally => 0,
        DiplomaticStance::Neutral => 1,
        DiplomaticStance::Enemy => 3,
    }
}

/// The diplomatic stance with wire value `n`, if there is one.
pub open spec fn diplomatic_stance_from_code(n: i32) -> Option<DiplomaticStance> {
    if n == 0 {
        Some(DiplomaticStance::Ally)
    } else if n == 1 {
        Some(DiplomaticStance::Neutral)
    } else if n == 3 {
        Some(DiplomaticStance::Enemy)
    } else {
        None
    }
}

impl DiplomaticStance {
    pub fn try_from(n: i32) -> (r: Result<Self, ParseDiplomaticStanceError>)
        ensures
            r == (match diplomatic_stance_from_code(n) {
                Some(s) => Ok(s),
                None => Err(ParseDiplomaticStanceError(n)),
            }),
    {
        match n {
            0 => Ok(DiplomaticStance::Ally),
            1 => Ok(DiplomaticStance::Neutral),
            3 => Ok(DiplomaticStance::Enemy),
            n => Err(ParseDiplomaticStanceError(n)),
        }
    }
}

impl From<DiplomaticStance> for i32 {
    fn from(stance: DiplomaticStance) -> i32 {
        match stance {
            DiplomaticStance::Ally => 0,
            DiplomaticStance::Neutral => 1,
            DiplomaticStance::Enemy => 3,
        }
    }
}

impl vstd::std_specs::convert::FromSpecImpl<DiplomaticStance> for i32 {
    open spec fn obeys_from_spec() -> bool {
        true
    }

    open spec fn from_spec(stance: DiplomaticStance) -> i32 {
        diplomatic_stance_code(stance)
    }
}

/// Every diplomatic stance decodes back from its wire value, and only it does.
pub proof fn lemma_diplomatic_stance_round_trip(stance: DiplomaticStance, n: i32)
    ensures
        diplomatic_stance_from_code(diplomatic_stance_code(stance)) == Some(stance),
        diplomatic_stance_from_code(n) matches Some(s) ==> diplomatic_stance_code(s) == n,
{
}

/// Could not parse a data set because given number is an unknown data set ID.
#[derive(Debug, Clone, Copy, PartialEq, Eq, Structural)]
pub struct ParseDataSetError(pub i32);

#[derive(Debug, Clone, Copy, PartialEq, Eq, Structural)]
pub enum DataSet {
    BaseGame,
    Expansions,
}

/// The wire value of a data set.
pub open spec fn data_set_code(id: DataSet) -> i32 {
    match id {
        DataSet::BaseGame => 0,
        DataSet::Expansions => 1,
    }
}

/// The data set with wire value `n`, if there is one.
pub open spec fn data_set_from_code(n: i32) -> Option<DataSet> {
    if n == 0 {
        Some(DataSet::BaseGame)
    } else if n == 1 {
        Some(DataSet::Expansions)
    } else {
        None
    }
}

impl DataSet {
    pub fn try_from(n: i32) -> (r: Result<Self, ParseDataSetError>)
        ensures
            r == (match data_set_from_code(n) {
                Some(d) => Ok(d),
                None => Err(ParseDataSetError(n)),
            }),
    {
        match n {
            0 => Ok(DataSet::BaseGame),
            1 => Ok(DataSet::Expansions),
            n => Err(ParseDataSetError(n)),
        }
    }
}

impl From<DataSet> for i32 {
    fn from(id: DataSet) -> i32 {
        match id {
            DataSet::BaseGame => 0,
            DataSet::Expansions => 1,
        }
    }
}

impl vstd::std_specs::convert::FromSpecImpl<DataSet> for i32 {
    open spec fn obeys_from_spec() -> bool {
        true
    }

    open spec fn from_spec(id: DataSet) -> i32 {
        data_set_code(id)
    }
}

/// Every data set decodes back from its wire value, and only it does.
pub proof fn lemma_data_set_round_trip(id: DataSet, n: i32)
    ensures
        data_set_from_code(data_set_code(id)) == Some(id),
        data_set_from_code(n) matches Some(d) ==> data_set_code(d) == n,
{
}

/// Could not parse a DLC package identifier because given number is an unknown DLC ID.
#[derive(Debug, Clone, Copy, PartialEq, Eq, Structural)]
pub struct ParseDLCPackageError(pub i32);

/// An HD Edition DLC identifier.
#[derive(Debug, Clone, Copy, PartialEq, Eq, Structural)]
pub enum DLCPackage {
    AgeOfKings,
    AgeOfConquerors,
    TheForgotten,
    AfricanKingdoms,
    RiseOfTheRajas,
}

/// The wire value of a DLC package.
pub open spec fn dlc_package_code(dlc: DLCPackage) -> i32 {
    match dlc {
        DLCPackage::AgeOfKings => 2,
        DLCPackage::AgeOfConquerors => 3,
        DLCPackage::TheForgotten => 4,
        DLCPackage::AfricanKingdoms => 5,
        DLCPackage::RiseOfTheRajas => 6,
    }
}

/// The DLC package with wire value `n`, if there is one.
pub open spec fn dlc_package_from_code(n: i32) -> Option<DLCPackage> {
    if n == 2 {
        Some(DLCPackage::AgeOfKings)
    } else if n == 3 {
        Some(DLCPackage::AgeOfConquerors)
    } else if n == 4 {
        Some(DLCPackage::TheForgotten)
    } else if n == 5 {
        Some(DLCPackage::AfricanKingdoms)
    } else if n == 6 {
        Some(DLCPackage::RiseOfTheRajas)
    } else {
        None
    }
}

impl DLCPackage {
    pub fn try_from(n: i32) -> (r: Result<Self, ParseDLCPackageError>)
        ensures
            r == (match dlc_package_from_code(n) {
                Some(d) => Ok(d),
                None => Err(ParseDLCPackageError(n)),
            }),
    {
        match n {
            2 => Ok(DLCPackage::AgeOfKings),
            3 => Ok(DLCPackage::AgeOfConquerors),
            4 => Ok(DLCPackage::TheForgotten),
            5 => Ok(DLCPackage::AfricanKingdoms),
            6 => Ok(DLCPackage::RiseOfTheRajas),
            n => Err(ParseDLCPackageError(n)),
        }
    }
}

impl From<DLCPackage> for i32 {
    fn from(dlc_id: DLCPackage) -> i32 {
        match dlc_id {
            DLCPackage::AgeOfKings => 2,
            DLCPackage::AgeOfConquerors => 3,
            DLCPackage::TheForgotten => 4,
            DLCPackage::AfricanKingdoms => 5,
            DLCPackage::RiseOfTheRajas => 6,
        }
    }
}

impl vstd::std_specs::convert::FromSpecImpl<DLCPackage> for i32 {
    open spec fn obeys_from_spec() -> bool {
        true
    }

    open spec fn from_spec(dlc_id: DLCPackage) -> i32 {
        dlc_package_code(dlc_id)
    }
}

/// Every DLC package decodes back from its wire value, and only it does.
pub proof fn lemma_dlc_package_round_trip(dlc: DLCPackage, n: i32)
    ensures
        dlc_package_from_code(dlc_package_code(dlc)) == Some(dlc),
        dlc_package_from_code(n) matches Some(d) ==> dlc_package_code(d) == n,
{
}

/// The `data` version, in hundredths, from which starting ages use the extended numbering.
pub const STARTING_AGE_EXTENDED_FROM: u32 = 125;

/// Could not parse a starting age because given number refers to an unknown age.
#[derive(Debug, Clone, Copy, PartialEq, Eq, Structural)]
pub struct ParseStartingAgeError {
    /// The `data` version in hundredths that the number was read under.
    pub version: u32,
    /// The number that was read.
    pub found: i32,
}

impl ParseStartingAgeError {
    /// The range of numbers that the version accepts, as text.
    pub fn expected(&self) -> (r: &'static str)
        ensures
            self.version < STARTING_AGE_EXTENDED_FROM ==> r@ == "-1-4"@,
            self.version >= STARTING_AGE_EXTENDED_FROM ==> r@ == "-1-6"@,
    {
        proof {
            reveal_strlit("-1-4");
            reveal_strlit("-1-6");
        }
        if self.version < STARTING_AGE_EXTENDED_FROM {
            "-1-4"
        } else {
            "-1-6"
        }
    }
}

#[derive(Debug, Clone, Copy, PartialEq, Eq, Structural)]
pub enum StartingAge {
    /// Use the game default.
    Default,
    /// Start in the Dark Age with Nomad resources.
    Nomad,
    /// Start in the Dark Age.
    DarkAge,
    /// Start in the Feudal Age.
    FeudalAge,
    /// Start in the Castle Age.
    CastleAge,
    /// Start in the Imperial Age.
    ImperialAge,
    /// Start in the Imperial Age with all technologies researched.
    PostImperialAge,
}

/// The wire value of a starting age under `data` version `version` (hundredths).
///
/// Before the extended numbering Nomad has no value of its own and is written as Dark Age.
pub open spec fn starting_age_code(age: StartingAge, version: u32) -> i32 {
    if version < STARTING_AGE_EXTENDED_FROM {
        match age {
            StartingAge::Default => -1i32,
            StartingAge::Nomad => 0,
            StartingAge::DarkAge => 0,
            StartingAge::FeudalAge => 1,
            StartingAge::CastleAge => 2,
            StartingAge::ImperialAge => 3,
            StartingAge::PostImperialAge => 4,
        }
    } else {
        match age {
            StartingAge::Default => 0,
            StartingAge::Nomad => 1,
            StartingAge::DarkAge => 2,
            StartingAge::FeudalAge => 3,
            StartingAge::CastleAge => 4,
            StartingAge::ImperialAge => 5,
            StartingAge::PostImperialAge => 6,
        }
    }
}

/// The starting age with wire value `n` under `data` version `version`, if there is one.
pub open spec fn starting_age_from_code(n: i32, version: u32) -> Option<StartingAge> {
    if version < STARTING_AGE_EXTENDED_FROM {
        if n == -1i32 {
            Some(StartingAge::Default)
        } else if n == 0 {
            Some(StartingAge::DarkAge)
        } else if n == 1 {
            Some(StartingAge::FeudalAge)
        } else if n == 2 {
            Some(StartingAge::CastleAge)
        } else if n == 3 {
            Some(StartingAge::ImperialAge)
        } else if n == 4 {
            Some(StartingAge::PostImperialAge)
        } else {
            None
        }
    } else {
        if n == -1i32 || n == 0 {
            Some(StartingAge::Default)
        } else if n == 1 {
            Some(StartingAge::Nomad)
        } else if n == 2 {
            Some(StartingAge::DarkAge)
        } else if n == 3 {
            Some(StartingAge::FeudalAge)
        } else if n == 4 {
            Some(StartingAge::CastleAge)
        } else if n == 5 {
            Some(StartingAge::ImperialAge)
        } else if n == 6 {
            Some(StartingAge::PostImperialAge)
        } else {
            None
        }
    }
}

impl StartingAge {
    /// Convert a starting age number to the appropriate enum for a particular
    /// data version (in hundredths).
    pub fn try_from(n: i32, version: u32) -> (r: Result<Self, ParseStartingAgeError>)
        ensures
            r == (match starting_age_from_code(n, version) {
                Some(a) => Ok(a),
                None => Err(ParseStartingAgeError { version, found: n }),
            }),
    {
        if version < STARTING_AGE_EXTENDED_FROM {
            match n {
                -1 => Ok(StartingAge::Default),
                0 => Ok(StartingAge::DarkAge),
                1 => Ok(StartingAge::FeudalAge),
                2 => Ok(StartingAge::CastleAge),
                3 => Ok(StartingAge::ImperialAge),
                4 => Ok(StartingAge::PostImperialAge),
                _ => Err(ParseStartingAgeError { version, found: n }),
            }
        } else {
            match n {
                -1 | 0 => Ok(StartingAge::Default),
                1 => Ok(StartingAge::Nomad),
                2 => Ok(StartingAge::DarkAge),
                3 => Ok(StartingAge::FeudalAge),
                4 => Ok(StartingAge::CastleAge),
                5 => Ok(StartingAge::ImperialAge),
                6 => Ok(StartingAge::PostImperialAge),
                _ => Err(ParseStartingAgeError { version, found: n }),
            }
        }
    }

    /// The wire value of this starting age under `data` version `version` (hundredths).
    pub fn to_i32(self, version: u32) -> (r: i32)
        ensures
            r == starting_age_code(self, version),
    {
        if version < STARTING_AGE_EXTENDED_FROM {
            match self {
                StartingAge::Default => -1i32,
                StartingAge::Nomad | StartingAge::DarkAge => 0,
                StartingAge::FeudalAge => 1,
                StartingAge::CastleAge => 2,
                StartingAge::ImperialAge => 3,
                StartingAge::PostImperialAge => 4,
            }
        } else {
            match self {
                StartingAge::Default => 0,
                StartingAge::Nomad => 1,
                StartingAge::DarkAge => 2,
                StartingAge::FeudalAge => 3,
                StartingAge::CastleAge => 4,
                StartingAge::ImperialAge => 5,
                StartingAge::PostImperialAge => 6,
            }
        }
    }
}

/// Within one version regime a starting age decodes back from its wire value, except Nomad
/// before the extended numbering, which comes back as Dark Age.
pub proof fn lemma_starting_age_round_trip(age: StartingAge, version: u32)
    ensures
        version >= STARTING_AGE_EXTENDED_FROM ==> starting_age_from_code(
            starting_age_code(age, version),
            version,
        ) == Some(age),
        version < STARTING_AGE_EXTENDED_FROM && age != StartingAge::Nomad ==> starting_age_from_code(
            starting_age_code(age, version),
            version,
        ) == Some(age),
        version < STARTING_AGE_EXTENDED_FROM && age == StartingAge::Nomad ==> starting_age_from_code(
            starting_age_code(age, version),
            version,
        ) == Some(StartingAge::DarkAge),
{
}

/// Could not parse a victory condition because given number is an unknown condition ID.
#[derive(Debug, Clone, Copy, PartialEq, Eq, Structural)]
pub struct ParseVictoryConditionError(pub i32);

#[derive(Debug, Clone, Copy, PartialEq, Eq, Structural)]
pub enum VictoryCondition {
    Capture,
    Create,
    Destroy,
    DestroyMultiple,
    BringToArea,
    BringToObject,
    Attribute,
    Explore,
    CreateInArea,
    DestroyAll,
    DestroyPlayer,
    Points,
}

/// The wire value of a victory condition.
pub open spec fn victory_condition_code(c: VictoryCondition) -> i32 {
    match c {
        VictoryCondition::Capture => 0,
        VictoryCondition::Create => 1,
        VictoryCondition::Destroy => 2,
        VictoryCondition::DestroyMultiple => 3,
        VictoryCondition::BringToArea => 4,
        VictoryCondition::BringToObject => 5,
        VictoryCondition::Attribute => 6,
        VictoryCondition::Explore => 7,
        VictoryCondition::CreateInArea => 8,
        VictoryCondition::DestroyAll => 9,
        VictoryCondition::DestroyPlayer => 10,
        VictoryCondition::Points => 11,
    }
}

/// The victory condition with wire value `n`, if there is one.
pub open spec fn victory_condition_from_code(n: i32) -> Option<VictoryCondition> {
    if n == 0 {
        Some(VictoryCondition::Capture)
    } else if n == 1 {
        Some(VictoryCondition::Create)
    } else if n == 2 {
        Some(VictoryCondition::Destroy)
    } else if n == 3 {
        Some(VictoryCondition::DestroyMultiple)
    } else if n == 4 {
        Some(VictoryCondition::BringToArea)
    } else if n == 5 {
        Some(VictoryCondition::BringToObject)
    } else if n == 6 {
        Some(VictoryCondition::Attribute)
    } else if n == 7 {
        Some(VictoryCondition::Explore)
    } else if n == 8 {
        Some(VictoryCondition::CreateInArea)
    } else if n == 9 {
        Some(VictoryCondition::DestroyAll)
    } else if n == 10 {
        Some(VictoryCondition::DestroyPlayer)
    } else if n == 11 {
        Some(VictoryCondition::Points)
    } else {
        None
    }
}

impl VictoryCondition {
    pub fn try_from(n: i32) -> (r: Result<Self, ParseVictoryConditionError>)
        ensures
            r == (match victory_condition_from_code(n) {
                Some(c) => Ok(c),
                None => Err(ParseVictoryConditionError(n)),
            }),
    {
        match n {
            0 => Ok(VictoryCondition::Capture),
            1 => Ok(VictoryCondition::Create),
            2 => Ok(VictoryCondition::Destroy),
            3 => Ok(VictoryCondition::DestroyMultiple),
            4 => Ok(VictoryCondition::BringToArea),
            5 => Ok(VictoryCondition::BringToObject),
            6 => Ok(VictoryCondition::Attribute),
            7 => Ok(VictoryCondition::Explore),
            8 => Ok(VictoryCondition::CreateInArea),
            9 => Ok(VictoryCondition::DestroyAll),
            10 => Ok(VictoryCondition::DestroyPlayer),
            11 => Ok(VictoryCondition::Points),
            n => Err(ParseVictoryConditionError(n)),
        }
    }
}

impl From<VictoryCondition> for i32 {
    fn from(c: VictoryCondition) -> i32 {
        match c {
            VictoryCondition::Capture => 0,
            VictoryCondition::Create => 1,
            VictoryCondition::Destroy => 2,
            VictoryCondition::DestroyMultiple => 3,
            VictoryCondition::BringToArea => 4,
            VictoryCondition::BringToObject => 5,
            VictoryCondition::Attribute => 6,
            VictoryCondition::Explore => 7,
            VictoryCondition::CreateInArea => 8,
            VictoryCondition::DestroyAll => 9,
            VictoryCondition::DestroyPlayer => 10,
            VictoryCondition::Points => 11,
        }
    }
}

impl vstd::std_specs::convert::FromSpecImpl<VictoryCondition> for i32 {
    open spec fn obeys_from_spec() -> bool {
        true
    }

    open spec fn from_spec(c: VictoryCondition) -> i32 {
        victory_condition_code(c)
    }
}

/// Every victory condition decodes back from its wire value, and only it does.
pub proof fn lemma_victory_condition_round_trip(c: VictoryCondition, n: i32)
    ensures
        victory_condition_from_code(victory_condition_code(c)) == Some(c),
        victory_condition_from_code(n) matches Some(d) ==> victory_condition_code(d) == n,
{
}

/// Container format `1.18`.
pub const FORMAT_1_18: SCXVersion = [0x31, 0x2e, 0x31, 0x38];

/// Container format `1.19`.
pub const FORMAT_1_19: SCXVersion = [0x31, 0x2e, 0x31, 0x39];

/// Container format `1.20`.
pub const FORMAT_1_20: SCXVersion = [0x31, 0x2e, 0x32, 0x30];

/// Container format `1.21`.
pub const FORMAT_1_21: SCXVersion = [0x31, 0x2e, 0x32, 0x31];

/// Container format `1.22`.
pub const FORMAT_1_22: SCXVersion = [0x31, 0x2e, 0x32, 0x32];

/// A version preset whose parameters this library does not know.
#[derive(Debug, Clone, Copy, PartialEq, Eq, Structural)]
pub enum UnsupportedPresetError {
    Aoe,
    Ror,
    Aok,
}

/// All the versions an SCX file uses in a single struct.
#[derive(Debug, Clone, Copy, PartialEq, Eq)]
pub struct VersionBundle {
    /// The version of the 'container' file format.
    pub format: SCXVersion,
    /// The version of the header.
    pub header: u32,
    /// The version of the HD Edition DLC Options, only if `header` >= 3.
    pub dlc_options: i32,
    /// The compressed data version, in hundredths.
    pub data: u32,
    /// The version of embedded bitmaps.
    pub picture: u32,
    /// The version of the victory conditions data, in hundredths.
    pub victory: u32,
    /// The version of the trigger system, in hundredths.
    pub triggers: u32,
}

/// The bundle that AoC writes by default.
pub open spec fn aoc_bundle() -> VersionBundle {
    VersionBundle {
        format: FORMAT_1_21,
        header: 2,
        dlc_options: -1i32,
        data: 122,
        picture: 1,
        victory: 200,
        triggers: 160,
    }
}

/// The bundle that HD Edition writes by default.
pub open spec fn hd_edition_bundle() -> VersionBundle {
    VersionBundle {
        format: FORMAT_1_21,
        header: 3,
        dlc_options: 1000,
        data: 126,
        picture: 3,
        victory: 200,
        triggers: 160,
    }
}

/// Whether two bundles agree on every version.
pub open spec fn same_versions(a: VersionBundle, b: VersionBundle) -> bool {
    a.format@ == b.format@ && a.header == b.header && a.dlc_options == b.dlc_options && a.data
        == b.data && a.picture == b.picture && a.victory == b.victory && a.triggers == b.triggers
}

/// Whether the container format is `1.18`, `1.19` or `1.20`.
pub open spec fn is_aok_format(format: SCXVersion) -> bool {
    format@ == FORMAT_1_18@ || format@ == FORMAT_1_19@ || format@ == FORMAT_1_20@
}

/// Whether the bundle looks like one of AoC: format `1.21` and data version at most `1.22`.
pub open spec fn is_aoc_bundle(v: VersionBundle) -> bool {
    v.format@ == FORMAT_1_21@ && v.data <= 122
}

/// Whether the bundle looks like one of HD Edition: format `1.21` or `1.22` and data version
/// above `1.22`.
pub open spec fn is_hd_edition_bundle(v: VersionBundle) -> bool {
    (v.format@ == FORMAT_1_21@ || v.format@ == FORMAT_1_22@) && v.data > 122
}

/// Whether two container format tokens are the same.
fn format_eq(a: &SCXVersion, b: &SCXVersion) -> (r: bool)
    ensures
        r == (a@ == b@),
{
    let r = a[0] == b[0] && a[1] == b[1] && a[2] == b[2] && a[3] == b[3];
    if r {
        assert(a@ =~= b@);
    }
    r
}

impl VersionBundle {
    /// The parameters AoE1 uses by default are not known: always an error.
    pub fn aoe() -> (r: Result<Self, UnsupportedPresetError>)
        ensures
            r == Err::<Self, _>(UnsupportedPresetError::Aoe),
    {
        Err(UnsupportedPresetError::Aoe)
    }

    /// The parameters AoE1: Rise of Rome uses by default are not known: always an error.
    pub fn ror() -> (r: Result<Self, UnsupportedPresetError>)
        ensures
            r == Err::<Self, _>(UnsupportedPresetError::Ror),
    {
        Err(UnsupportedPresetError::Ror)
    }

    /// The parameters AoK uses by default are not known: always an error.
    pub fn aok() -> (r: Result<Self, UnsupportedPresetError>)
        ensures
            r == Err::<Self, _>(UnsupportedPresetError::Aok),
    {
        Err(UnsupportedPresetError::Aok)
    }

    /// A version bundle with the parameters AoC uses by default
    pub fn aoc() -> (r: Self)
        ensures
            r == aoc_bundle(),
    {
        Self {
            format: FORMAT_1_21,
            header: 2,
            dlc_options: -1,
            data: 122,
            picture: 1,
            victory: 200,
            triggers: 160,
        }
    }

    /// A version bundle with the parameters UserPatch 1.4 uses by default.
    pub fn userpatch_14() -> (r: Self)
        ensures
            r == aoc_bundle(),
    {
        Self::aoc()
    }

    /// A version bundle with the parameters UserPatch 1.5 uses by default.
    pub fn userpatch_15() -> (r: Self)
        ensures
            r == aoc_bundle(),
    {
        Self::userpatch_14()
    }

    /// A version bundle with the parameters HD Edition uses by default.
    pub fn hd_edition() -> (r: Self)
        ensures
            r == hd_edition_bundle(),
    {
        Self {
            format: FORMAT_1_21,
            header: 3,
            dlc_options: 1000,
            data: 126,
            picture: 3,
            victory: 200,
            triggers: 160,
        }
    }

    /// Returns whether this version is (likely) for an AoK scenario.
    pub fn is_aok(&self) -> (r: bool)
        ensures
            r == is_aok_format(self.format),
    {
        format_eq(&self.format, &FORMAT_1_18) || format_eq(&self.format, &FORMAT_1_19)
            || format_eq(&self.format, &FORMAT_1_20)
    }

    /// Returns whether this version is (likely) for an AoC scenario.
    pub fn is_aoc(&self) -> (r: bool)
        ensures
            r == is_aoc_bundle(*self),
    {
        format_eq(&self.format, &FORMAT_1_21) && self.data <= 122
    }

    /// Returns whether this version is (likely) for an HD Edition scenario.
    pub fn is_hd_edition(&self) -> (r: bool)
        ensures
            r == is_hd_edition_bundle(*self),
    {
        (format_eq(&self.format, &FORMAT_1_21) || format_eq(&self.format, &FORMAT_1_22))
            && self.data > 122
    }
}

/// The HD Edition preset is classified as HD Edition, the AoC preset is not, and the
/// UserPatch presets equal the AoC one.
pub proof fn lemma_preset_classification()
    ensures
        is_hd_edition_bundle(hd_edition_bundle()),
        !is_hd_edition_bundle(aoc_bundle()),
        is_aoc_bundle(aoc_bundle()),
        !is_aoc_bundle(hd_edition_bundle()),
        !is_aok_format(aoc_bundle().format),
{
    assert(FORMAT_1_21@[3] != FORMAT_1_18@[3]);
    assert(FORMAT_1_21@[3] != FORMAT_1_19@[3]);
    assert(FORMAT_1_21@[3] != FORMAT_1_20@[3]);
}

} // verus!
