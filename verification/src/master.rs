//! The tables of the game.
use crate::names::{name_put, NameTable};
use crate::number::{Real, ZERO};
use crate::text::{
    chars_of, is_digit, lower, lower_char, parse_i64, parsed_i64, same_text,
};
use vstd::prelude::*;

verus! {

pub const MASTER_SCHEMA_VERSION: i64 = 2;

/// Why the tables cannot be used.
#[derive(Clone, Debug, PartialEq)]
pub enum MasterDataError {
    UnsupportedSchema { actual: i64, expected: i64 },
    /// The integrity check failed, with its report.
    Integrity(String),
    MissingTable(&'static str),
}

/// Why the tables cannot be used, as a mathematical value.
pub ghost enum MasterFault {
    UnsupportedSchema { actual: i64, expected: i64 },
    Integrity(Seq<char>),
    MissingTable(Seq<char>),
}

impl View for MasterDataError {
    type V = MasterFault;

    open spec fn view(&self) -> MasterFault {
        match *self {
            MasterDataError::UnsupportedSchema { actual, expected } =>
                MasterFault::UnsupportedSchema { actual, expected },
            MasterDataError::Integrity(report) => MasterFault::Integrity(report@),
            MasterDataError::MissingTable(name) => MasterFault::MissingTable(name@),
        }
    }
}

/// What the generated data say of themselves.
#[derive(Clone, Debug, PartialEq)]
pub struct MasterMetadata {
    pub version: i64,
    pub source_asset_count: i64,
    pub source_table_count: i64,
}

/// How many fans a grade asks for.
#[derive(Clone, Debug, PartialEq)]
pub struct FanRequirement {
    pub area: i32,
    pub grade: i32,
    pub official_count: i64,
}

/// A costume.
#[derive(Clone, Debug, PartialEq)]
pub struct CostumeRow {
    pub id: i64,
    pub area: i32,
    pub currency: String,
    pub official_cost: String,
    pub fan_multiplier: Real,
    pub acquisition_type: i32,
    pub acquisition_id: i32,
    pub active: bool,
}

/// A guitar.
#[derive(Clone, Debug, PartialEq)]
pub struct GuitarRow {
    pub id: i64,
    pub area: i32,
    pub currency: String,
    pub official_cost: String,
    pub like_multiplier: Real,
    pub acquisition_type: i32,
    pub acquisition_id: i32,
    pub active: bool,
}

/// A skill.
#[derive(Clone, Debug, PartialEq)]
pub struct SkillRow {
    pub id: i64,
    pub area: i32,
    pub max_level: i32,
    pub currency: String,
    pub base_cost: i64,
    pub cost_increase: Real,
    pub cooldown_seconds: Real,
}

/// A unit.
#[derive(Clone, Debug, PartialEq)]
pub struct UnitRow {
    pub id: i64,
    pub area: i32,
    pub max_level: i32,
    pub currency: String,
    pub base_cost: i64,
    pub cost_increase: Real,
}

/// A song.
#[derive(Clone, Debug, PartialEq)]
pub struct MusicRow {
    pub id: i64,
    pub area: i32,
    pub max_level: i32,
    pub currency: String,
    pub unlock_cost: Real,
    pub acquisition_type: i32,
    pub acquisition_id: i32,
    pub active: bool,
}

/// What a level of songs gives.
#[derive(Clone, Debug, PartialEq)]
pub struct MusicLevelRow {
    pub level: i32,
    pub official_encore_cooldown_seconds: Real,
    pub gift_amount: i32,
    pub follower_profile_exp: i64,
}

/// A stage of the third chapter.
#[derive(Clone, Debug, PartialEq)]
pub struct Ch3StageRow {
    pub id: i64,
    pub chapter: i32,
    pub stage_index: i32,
    pub stage_type: String,
    pub reward_group_id: i64,
    pub percent_reward_groups: String,
    pub goal_scores: [i64; 3],
    pub bonus_profile_ids: Vec<i64>,
    pub bonus_music_id: i64,
    pub active: bool,
}

/// A season of the pass.
#[derive(Clone, Debug, PartialEq)]
pub struct PassSeasonRow {
    pub season: i64,
    pub subscribe_id: i64,
    pub ticket_collection_id: i64,
    pub point_price: i64,
    pub paid_point: i64,
    pub ad_cooldown_seconds: i64,
    pub ad_point: i64,
}

/// One reward of a group.
#[derive(Clone, Debug, PartialEq)]
pub struct RewardGroupRow {
    pub row_id: i64,
    pub group: i64,
    pub reward_type: i16,
    pub reward_id: i32,
    pub quantity: Real,
    pub first_purchase_quantity: Real,
}

/// A product of the shop.
#[derive(Clone, Debug, PartialEq)]
pub struct ShopRow {
    pub id: i64,
    pub product_type: i32,
    pub reward_group: i64,
    pub sell_type: i32,
    pub sell_value: i64,
    pub active: bool,
    pub condition: i32,
    pub condition_value: i64,
}

/// A step of the pass.
#[derive(Clone, Debug, PartialEq)]
pub struct PassRewardRow {
    pub id: i64,
    pub group: i64,
    pub step: i32,
    pub goal: i64,
    pub free_reward_group: i64,
    pub paid_reward_group: i64,
}

/// A level of a profile.
#[derive(Clone, Debug, PartialEq)]
pub struct FollowerProfileLevelRow {
    pub id: i64,
    pub profile_id: i64,
    pub level: i32,
    pub required_exp: Real,
    pub reward_group: i64,
    pub add_candy: i32,
    pub add_max_ap: i32,
    pub active: bool,
}

/// What a level scores in the third chapter.
#[derive(Clone, Debug, PartialEq)]
pub struct Ch3ScoreRow {
    pub level: i32,
    pub character_score: i32,
    pub follower_score: i32,
    pub music_score: i32,
    pub active: bool,
}

/// A chapter of stages.
#[derive(Clone, Debug, PartialEq)]
pub struct Ch3ChapterRow {
    pub chapter: i32,
    pub unlock_level: i32,
    pub reward_groups: [i64; 3],
    pub goal_stars: [i32; 3],
    pub active: bool,
}

/// One reward of a group that is drawn from.
#[derive(Clone, Debug, PartialEq)]
pub struct PercentRewardRow {
    pub row_id: i64,
    pub group: i64,
    pub percent: i32,
    pub reward_type: i16,
    pub reward_id: i32,
    pub quantity: Real,
    pub active: bool,
}

/// A gift.
#[derive(Clone, Debug, PartialEq)]
pub struct FollowerGiftRow {
    pub id: i64,
    pub gift_type: i32,
    pub experience: i64,
    pub active: bool,
}

/// A quest.
#[derive(Clone, Debug, PartialEq)]
pub struct FollowerQuestRow {
    pub id: i64,
    pub quest_type: i32,
    pub thresholds: [Real; 3],
    pub reward_groups: [i64; 3],
    pub active: bool,
}

/// A reward that can be chosen.
#[derive(Clone, Debug, PartialEq)]
pub struct SelectRewardRow {
    pub id: i64,
    pub group: i64,
    pub reward_group: i64,
    pub alternate_reward_group: i64,
    pub active: bool,
}

/// A step of the festival.
#[derive(Clone, Debug, PartialEq)]
pub struct SamSeckRow {
    pub id: i64,
    pub condition_type: String,
    pub condition: Real,
    pub mail_reward_id: i64,
    pub active: bool,
}

/// An achievement.
#[derive(Clone, Debug, PartialEq)]
pub struct AchievementRow {
    pub id: i64,
    pub conditions: Vec<Real>,
    pub reward_type: String,
    pub reward_values: Vec<i64>,
    pub max_level: i32,
    pub active: bool,
}

/// A mission of the day.
#[derive(Clone, Debug, PartialEq)]
pub struct DailyMissionRow {
    pub id: i64,
    pub condition: Real,
    pub reward_type: String,
    pub reward_value: i64,
    pub active: bool,
}

/// An advertisement.
#[derive(Clone, Debug, PartialEq)]
pub struct AdRow {
    pub id: i64,
    pub reward_type: String,
    pub reward_group: i64,
    pub active: bool,
}

/// A level of an advertisement.
#[derive(Clone, Debug, PartialEq)]
pub struct AdLevelRow {
    pub id: i64,
    pub group: i64,
    pub level: i32,
    pub required_experience: i32,
    pub reward_group: i64,
    pub active: bool,
}

/// A reward of a day.
#[derive(Clone, Debug, PartialEq)]
pub struct DailyRewardRow {
    pub id: i64,
    pub group: i64,
    pub day: i32,
    pub reward_type: i16,
    pub reward_id: i32,
    pub quantity: Real,
    pub custom_icon_type: String,
    pub custom_icon_sprite: String,
}

/// A cell of a table.
#[derive(Clone, Debug, PartialEq)]
pub enum MasterScalar {
    Null,
    Integer(i64),
    Real(Real),
    Text(String),
    Blob(Vec<u8>),
}

/// A row of a table: its cells by the names of their columns.
pub type MasterRow = NameTable<MasterScalar>;

/// All that the tables say.
#[derive(Debug)]
pub struct MasterCatalog {
    pub metadata: MasterMetadata,
    pub fan_requirements: Vec<FanRequirement>,
    pub costumes: Vec<CostumeRow>,
    pub guitars: Vec<GuitarRow>,
    pub skills: Vec<SkillRow>,
    pub units: Vec<UnitRow>,
    pub music: Vec<MusicRow>,
    pub music_levels: Vec<MusicLevelRow>,
    pub ch3_stages: Vec<Ch3StageRow>,
    pub pass_seasons: Vec<PassSeasonRow>,
    pub reward_groups: Vec<RewardGroupRow>,
    pub shops: Vec<ShopRow>,
    pub pass_rewards: Vec<PassRewardRow>,
    pub follower_profile_levels: Vec<FollowerProfileLevelRow>,
    pub ch3_scores: Vec<Ch3ScoreRow>,
    pub ch3_chapters: Vec<Ch3ChapterRow>,
    pub percent_rewards: Vec<PercentRewardRow>,
    pub follower_gifts: Vec<FollowerGiftRow>,
    pub follower_quests: Vec<FollowerQuestRow>,
    pub select_rewards: Vec<SelectRewardRow>,
    pub sam_seck: Vec<SamSeckRow>,
    pub achievements: Vec<AchievementRow>,
    pub daily_missions: Vec<DailyMissionRow>,
    pub ads: Vec<AdRow>,
    pub ad_levels: Vec<AdLevelRow>,
    pub daily_rewards: Vec<DailyRewardRow>,
    pub game_data: NameTable<Vec<MasterRow>>,
}

impl Default for MasterCatalog {
    /// A catalog without rows.
    fn default() -> (c: MasterCatalog)
        ensures
            c.metadata.version == 0,
            c.metadata.source_asset_count == 0,
            c.metadata.source_table_count == 0,
            c.fan_requirements@.len() == 0,
            c.costumes@.len() == 0,
            c.guitars@.len() == 0,
            c.skills@.len() == 0,
            c.units@.len() == 0,
            c.music@.len() == 0,
            c.music_levels@.len() == 0,
            c.ch3_stages@.len() == 0,
            c.pass_seasons@.len() == 0,
            c.reward_groups@.len() == 0,
            c.shops@.len() == 0,
            c.pass_rewards@.len() == 0,
            c.follower_profile_levels@.len() == 0,
            c.ch3_scores@.len() == 0,
            c.ch3_chapters@.len() == 0,
            c.percent_rewards@.len() == 0,
            c.follower_gifts@.len() == 0,
            c.follower_quests@.len() == 0,
            c.select_rewards@.len() == 0,
            c.sam_seck@.len() == 0,
            c.achievements@.len() == 0,
            c.daily_missions@.len() == 0,
            c.ads@.len() == 0,
            c.ad_levels@.len() == 0,
            c.daily_rewards@.len() == 0,
            c.game_data@.len() == 0,
    {
        MasterCatalog {
            metadata: MasterMetadata { version: 0, source_asset_count: 0, source_table_count: 0 },
            fan_requirements: Vec::new(),
            costumes: Vec::new(),
            guitars: Vec::new(),
            skills: Vec::new(),
            units: Vec::new(),
            music: Vec::new(),
            music_levels: Vec::new(),
            ch3_stages: Vec::new(),
            pass_seasons: Vec::new(),
            reward_groups: Vec::new(),
            shops: Vec::new(),
            pass_rewards: Vec::new(),
            follower_profile_levels: Vec::new(),
            ch3_scores: Vec::new(),
            ch3_chapters: Vec::new(),
            percent_rewards: Vec::new(),
            follower_gifts: Vec::new(),
            follower_quests: Vec::new(),
            select_rewards: Vec::new(),
            sam_seck: Vec::new(),
            achievements: Vec::new(),
            daily_missions: Vec::new(),
            ads: Vec::new(),
            ad_levels: Vec::new(),
            daily_rewards: Vec::new(),
            game_data: NameTable::new(),
        }
    }
}

/// The tables that the client asks for: the name that it uses and the name of the
/// table.
pub open spec fn game_tables() -> Seq<(Seq<char>, Seq<char>)> {
    seq![
        ("Consume"@, "Consume"@),
        ("Music"@, "Music"@),
        ("Costume"@, "Costume"@),
        ("Prop"@, "Prop"@),
        ("Follower"@, "Follower"@),
        ("Buff"@, "Buff"@),
        ("Unit"@, "Unit"@),
        ("Skill"@, "Skill"@),
        ("Achievement"@, "Achievement"@),
        ("Daily_mission"@, "DailyMission"@),
        ("Music_level"@, "MusicLevel"@),
        ("Shop"@, "Shop"@),
        ("Reward_group"@, "RewardGroup"@),
        ("Fan"@, "Fan"@),
        ("SystemNotification"@, "SystemNotification"@),
        ("SystemString"@, "SystemString"@),
        ("SubscribeList"@, "SubscribeList"@),
        ("SubscribePassReward"@, "SubscribePassReward"@),
        ("SubscribePass"@, "SubscribePass"@),
        ("Guitar"@, "Guitar"@),
        ("SubscribePassRewardInformation"@, "SubscribePassRewardInformation"@),
        ("Ticketcollection"@, "TicketCollection"@),
        ("Character"@, "Character"@),
        ("Samseckevent"@, "SamSeckEvent"@),
        ("Localpush"@, "LocalPush"@),
        ("Followerquest"@, "FollowerQuest"@),
        ("Proplevel"@, "PropLevel"@),
        ("Follower_profile"@, "FollowerProfile"@),
        ("Passgoodsshop"@, "PassGoodsShop"@),
        ("Followergiftitem"@, "FollowerGiftItem"@),
        ("Followerprofilelevel"@, "FollowerProfileLevel"@),
        ("Ad_list"@, "ADList"@),
        ("Chthird_stage"@, "ChThirdStage"@),
        ("Chthird_score"@, "ChThirdScore"@),
        ("Chthird_chapter"@, "ChThirdChapter"@),
        ("Percent"@, "Percent"@),
        ("Ad_level"@, "ADLevel"@),
        ("Event_list"@, "EventList"@),
        ("Select_reward"@, "SelectReward"@),
    ]
}

pub fn game_data_tables() -> (r: Vec<(&'static str, &'static str)>)
    ensures
        r@.map_values(|p: (&'static str, &'static str)| (p.0@, p.1@)) == game_tables(),
{
    let r = vec![
        ("Consume", "Consume"),
        ("Music", "Music"),
        ("Costume", "Costume"),
        ("Prop", "Prop"),
        ("Follower", "Follower"),
        ("Buff", "Buff"),
        ("Unit", "Unit"),
        ("Skill", "Skill"),
        ("Achievement", "Achievement"),
        ("Daily_mission", "DailyMission"),
        ("Music_level", "MusicLevel"),
        ("Shop", "Shop"),
        ("Reward_group", "RewardGroup"),
        ("Fan", "Fan"),
        ("SystemNotification", "SystemNotification"),
        ("SystemString", "SystemString"),
        ("SubscribeList", "SubscribeList"),
        ("SubscribePassReward", "SubscribePassReward"),
        ("SubscribePass", "SubscribePass"),
        ("Guitar", "Guitar"),
        ("SubscribePassRewardInformation", "SubscribePassRewardInformation"),
        ("Ticketcollection", "TicketCollection"),
        ("Character", "Character"),
        ("Samseckevent", "SamSeckEvent"),
        ("Localpush", "LocalPush"),
        ("Followerquest", "FollowerQuest"),
        ("Proplevel", "PropLevel"),
        ("Follower_profile", "FollowerProfile"),
        ("Passgoodsshop", "PassGoodsShop"),
        ("Followergiftitem", "FollowerGiftItem"),
        ("Followerprofilelevel", "FollowerProfileLevel"),
        ("Ad_list", "ADList"),
        ("Chthird_stage", "ChThirdStage"),
        ("Chthird_score", "ChThirdScore"),
        ("Chthird_chapter", "ChThirdChapter"),
        ("Percent", "Percent"),
        ("Ad_level", "ADLevel"),
        ("Event_list", "EventList"),
        ("Select_reward", "SelectReward"),
    ];
    proof {
        assert(r@.map_values(|p: (&'static str, &'static str)| (p.0@, p.1@)) =~= game_tables());
    }
    r
}

/// The tables that the rules read.
pub open spec fn rule_tables() -> Seq<Seq<char>> {
    seq![
        "Achievement"@,
        "ADList"@,
        "ChThirdChapter"@,
        "ChThirdScore"@,
        "ChThirdStage"@,
        "Costume"@,
        "DailyMission"@,
        "DailyReward"@,
        "Fan"@,
        "FollowerGiftItem"@,
        "FollowerQuest"@,
        "Guitar"@,
        "Music"@,
        "Percent"@,
        "FollowerProfileLevel"@,
        "RewardGroup"@,
        "SamSeckEvent"@,
        "SelectReward"@,
        "Shop"@,
        "Skill"@,
        "SubscribePass"@,
        "SubscribePassReward"@,
        "Unit"@,
    ]
}

/// The tables that must be present.
pub open spec fn required() -> Seq<Seq<char>> {
    rule_tables() + game_tables().map_values(|p: (Seq<char>, Seq<char>)| p.1)
}

fn required_tables() -> (r: Vec<&'static str>)
    ensures
        r@.map_values(|s: &'static str| s@) == required(),
{
    let mut r: Vec<&'static str> = vec![
        "Achievement",
        "ADList",
        "ChThirdChapter",
        "ChThirdScore",
        "ChThirdStage",
        "Costume",
        "DailyMission",
        "DailyReward",
        "Fan",
        "FollowerGiftItem",
        "FollowerQuest",
        "Guitar",
        "Music",
        "Percent",
        "FollowerProfileLevel",
        "RewardGroup",
        "SamSeckEvent",
        "SelectReward",
        "Shop",
        "Skill",
        "SubscribePass",
        "SubscribePassReward",
        "Unit",
    ];
    let ghost rules = r@;
    proof {
        assert(r@.map_values(|s: &'static str| s@) =~= rule_tables());
    }
    let more = game_data_tables();
    let ghost pairs = more@.map_values(|p: (&'static str, &'static str)| (p.0@, p.1@));
    let mut i: usize = 0;
    proof {
        assert(pairs.len() == more@.len());
    }
    while i < more.len()
        invariant
            i <= more@.len(),
            pairs == more@.map_values(|p: (&'static str, &'static str)| (p.0@, p.1@)),
            rules.len() == rule_tables().len(),
            rules.map_values(|s: &'static str| s@) == rule_tables(),
            r@.len() == rules.len() + i,
            forall|j: int| 0 <= j < rules.len() ==> r@[j] == rules[j],
            forall|j: int| 0 <= j < i ==> (#[trigger] r@[rules.len() + j])@ == more@[j].1@,
        decreases more@.len() - i,
    {
        r.push(more[i].1);
        i = i + 1;
    }
    proof {
        let names = r@.map_values(|s: &'static str| s@);
        assert forall|k: int| 0 <= k < names.len() implies #[trigger] names[k] == required()[k] by {
            if k < rules.len() {
                assert(rules.map_values(|s: &'static str| s@)[k] == rules[k]@);
            } else {
                assert(r@[rules.len() + (k - rules.len())]@ == more@[k - rules.len()].1@);
                assert(pairs[k - rules.len()].1 == more@[k - rules.len()].1@);
            }
        }
        assert(names =~= required());
    }
    r
}

/// Texts, as mathematical values.
pub open spec fn texts(list: Seq<String>) -> Seq<Seq<char>> {
    list.map_values(|s: String| s@)
}

/// The first table that is not present.
pub open spec fn missing(names: Seq<Seq<char>>, present: Seq<Seq<char>>) -> Option<Seq<char>>
    decreases names.len(),
{
    if names.len() == 0 {
        None
    } else {
        match missing(names.drop_last(), present) {
            Some(name) => Some(name),
            None => if present.contains(names.last()) {
                None
            } else {
                Some(names.last())
            },
        }
    }
}

proof fn lemma_missing_stays(names: Seq<Seq<char>>, present: Seq<Seq<char>>, n: int)
    requires
        0 <= n <= names.len(),
        missing(names.take(n), present) is Some,
    ensures
        missing(names, present) == missing(names.take(n), present),
    decreases names.len() - n,
{
    if n < names.len() {
        assert(names.take(n + 1).drop_last() =~= names.take(n));
        lemma_missing_stays(names, present, n + 1);
    } else {
        assert(names.take(n) =~= names);
    }
}

fn holds(tables: &Vec<String>, name: &str) -> (r: bool)
    ensures
        r == texts(tables@).contains(name@),
{
    let mut i: usize = 0;
    while i < tables.len()
        invariant
            i <= tables@.len(),
            forall|j: int| 0 <= j < i ==> (#[trigger] tables@[j])@ != name@,
        decreases tables@.len() - i,
    {
        if same_text(tables[i].as_str(), name) {
            proof {
                assert(texts(tables@)[i as int] == name@);
            }
            return true;
        }
        i = i + 1;
    }
    proof {
        assert forall|j: int| 0 <= j < texts(tables@).len() implies texts(tables@)[j] != name@ by {
            assert(tables@[j]@ != name@);
        }
    }
    false
}

/// The tables that are present, and what they say of themselves.
#[derive(Clone, Debug)]
pub struct MasterData {
    metadata: MasterMetadata,
    tables: Vec<String>,
}

/// Whether the report of the integrity check is good.
pub fn check_integrity(report: &str) -> (r: Result<(), MasterDataError>)
    ensures
        match r {
            Ok(_) => report@ == "ok"@,
            Err(e) => report@ != "ok"@ && e@ == MasterFault::Integrity(report@),
        },
{
    if same_text(report, "ok") {
        Ok(())
    } else {
        Err(MasterDataError::Integrity(report.to_owned()))
    }
}

/// Whether the tables have the right version.
pub fn check_version(version: i64) -> (r: Result<(), MasterDataError>)
    ensures
        match r {
            Ok(_) => version == MASTER_SCHEMA_VERSION,
            Err(e) => version != MASTER_SCHEMA_VERSION && e@ == (MasterFault::UnsupportedSchema {
                actual: version,
                expected: MASTER_SCHEMA_VERSION,
            }),
        },
{
    if version != MASTER_SCHEMA_VERSION {
        return Err(
            MasterDataError::UnsupportedSchema {
                actual: version,
                expected: MASTER_SCHEMA_VERSION,
            },
        );
    }
    Ok(())
}

impl MasterData {
    /// The names of the tables that are present.
    pub closed spec fn present(&self) -> Seq<Seq<char>> {
        texts(self.tables@)
    }

    /// What the tables say of themselves.
    pub closed spec fn facts(&self) -> MasterMetadata {
        self.metadata
    }

    /// Accepts tables of the right version, if none is missing.
    pub fn new(metadata: MasterMetadata, tables: Vec<String>) -> (r: Result<
        MasterData,
        MasterDataError,
    >)
        ensures
            match r {
                Ok(data) => metadata.version == MASTER_SCHEMA_VERSION && missing(
                    required(),
                    texts(tables@),
                ) is None && data.facts() == metadata && data.present() == texts(tables@),
                Err(e) => if metadata.version != MASTER_SCHEMA_VERSION {
                    e@ == (MasterFault::UnsupportedSchema {
                        actual: metadata.version,
                        expected: MASTER_SCHEMA_VERSION,
                    })
                } else {
                    missing(required(), texts(tables@)) matches Some(name) && e@
                        == MasterFault::MissingTable(name)
                },
            },
    {
        match check_version(metadata.version) {
            Ok(_) => {},
            Err(e) => {
                return Err(e);
            },
        }
        let names = required_tables();
        let ghost all = required();
        let mut i: usize = 0;
        proof {
            assert(all.len() == names@.len()) by {
                assert(names@.map_values(|s: &'static str| s@).len() == names@.len());
            }
            assert(all.take(0) =~= Seq::empty());
        }
        while i < names.len()
            invariant
                i <= names@.len(),
                metadata.version == MASTER_SCHEMA_VERSION,
                all == required(),
                names@.map_values(|s: &'static str| s@) == all,
                all.len() == names@.len(),
                missing(all.take(i as int), texts(tables@)) is None,
            decreases names@.len() - i,
        {
            proof {
                assert(all.take(i + 1).drop_last() =~= all.take(i as int));
                assert(names@.map_values(|s: &'static str| s@)[i as int] == names@[i as int]@);
            }
            if !holds(&tables, names[i]) {
                proof {
                    lemma_missing_stays(all, texts(tables@), i + 1);
                }
                return Err(MasterDataError::MissingTable(names[i]));
            }
            i = i + 1;
        }
        proof {
            assert(all.take(i as int) =~= all);
        }
        Ok(MasterData { metadata, tables })
    }

    pub fn metadata(&self) -> (r: &MasterMetadata)
        ensures
            *r == self.facts(),
    {
        &self.metadata
    }

    pub fn has_table(&self, name: &str) -> (r: bool)
        ensures
            r == self.present().contains(name@),
    {
        holds(&self.tables, name)
    }
}

/// Tables that are accepted hold every table that is required.
pub proof fn law_required_present(names: Seq<Seq<char>>, present: Seq<Seq<char>>, name: Seq<char>)
    requires
        missing(names, present) is None,
        names.contains(name),
    ensures
        present.contains(name),
    decreases names.len(),
{
    let i = names.index_of(name);
    if i < names.len() - 1 {
        assert(names.drop_last()[i] == name);
        law_required_present(names.drop_last(), present, name);
    }
}

impl MasterCatalog {
    /// The rewards of a group.
    pub fn rewards(&self, group: i64) -> (r: Vec<&RewardGroupRow>)
        ensures
            r@.map_values(|row: &RewardGroupRow| *row) == self.reward_groups@.filter(
                |row: RewardGroupRow| row.group == group,
            ),
    {
        let ghost keep = |row: RewardGroupRow| row.group == group;
        let ghost rows = self.reward_groups@;
        let mut r: Vec<&RewardGroupRow> = Vec::new();
        let mut i: usize = 0;
        proof {
            reveal(Seq::filter);
            assert(rows.take(0).filter(keep) =~= Seq::empty());
            assert(r@.map_values(|row: &RewardGroupRow| *row) =~= Seq::empty());
        }
        while i < self.reward_groups.len()
            invariant
                i <= rows.len(),
                rows == self.reward_groups@,
                keep == (|row: RewardGroupRow| row.group == group),
                r@.map_values(|row: &RewardGroupRow| *row) == rows.take(i as int).filter(keep),
            decreases rows.len() - i,
        {
            proof {
                reveal(Seq::filter);
                assert(rows.take(i + 1).drop_last() =~= rows.take(i as int));
                assert(rows.take(i + 1).last() == rows[i as int]);
            }
            if self.reward_groups[i].group == group {
                let ghost before = r@;
                r.push(&self.reward_groups[i]);
                proof {
                    assert(r@.map_values(|row: &RewardGroupRow| *row) =~= before.map_values(
                        |row: &RewardGroupRow| *row,
                    ).push(rows[i as int]));
                }
            }
            i = i + 1;
        }
        proof {
            assert(rows.take(i as int) =~= rows);
        }
        r
    }

    /// The rewards of a group that can be drawn.
    pub fn percent_rewards(&self, group: i64) -> (r: Vec<&PercentRewardRow>)
        ensures
            r@.map_values(|row: &PercentRewardRow| *row) == self.percent_rewards@.filter(
                |row: PercentRewardRow| row.group == group && row.active,
            ),
    {
        let ghost keep = |row: PercentRewardRow| row.group == group && row.active;
        let ghost rows = self.percent_rewards@;
        let mut r: Vec<&PercentRewardRow> = Vec::new();
        let mut i: usize = 0;
        proof {
            reveal(Seq::filter);
            assert(rows.take(0).filter(keep) =~= Seq::empty());
            assert(r@.map_values(|row: &PercentRewardRow| *row) =~= Seq::empty());
        }
        while i < self.percent_rewards.len()
            invariant
                i <= rows.len(),
                rows == self.percent_rewards@,
                keep == (|row: PercentRewardRow| row.group == group && row.active),
                r@.map_values(|row: &PercentRewardRow| *row) == rows.take(i as int).filter(keep),
            decreases rows.len() - i,
        {
            proof {
                reveal(Seq::filter);
                assert(rows.take(i + 1).drop_last() =~= rows.take(i as int));
                assert(rows.take(i + 1).last() == rows[i as int]);
            }
            if self.percent_rewards[i].group == group && self.percent_rewards[i].active {
                let ghost before = r@;
                r.push(&self.percent_rewards[i]);
                proof {
                    assert(r@.map_values(|row: &PercentRewardRow| *row) =~= before.map_values(
                        |row: &PercentRewardRow| *row,
                    ).push(rows[i as int]));
                }
            }
            i = i + 1;
        }
        proof {
            assert(rows.take(i as int) =~= rows);
        }
        r
    }

    /// The first product with a number.
    pub fn shop(&self, id: i64) -> (r: Option<&ShopRow>)
        ensures
            match r {
                Some(row) => exists|i: int|
                    0 <= i < self.shops@.len() && #[trigger] self.shops@[i] == *row && row.id == id
                        && forall|j: int| 0 <= j < i ==> (#[trigger] self.shops@[j]).id != id,
                None => forall|j: int|
                    0 <= j < self.shops@.len() ==> (#[trigger] self.shops@[j]).id != id,
            },
    {
        let mut i: usize = 0;
        while i < self.shops.len()
            invariant
                i <= self.shops@.len(),
                forall|j: int| 0 <= j < i ==> (#[trigger] self.shops@[j]).id != id,
            decreases self.shops@.len() - i,
        {
            if self.shops[i].id == id {
                return Some(&self.shops[i]);
            }
            i = i + 1;
        }
        None
    }

    /// The first step of a pass with a number.
    pub fn pass_reward(&self, group: i64, step: i32) -> (r: Option<&PassRewardRow>)
        ensures
            match r {
                Some(row) => exists|i: int|
                    0 <= i < self.pass_rewards@.len() && #[trigger] self.pass_rewards@[i] == *row
                        && row.group == group && row.step == step && forall|j: int|
                        0 <= j < i ==> !((#[trigger] self.pass_rewards@[j]).group == group
                            && self.pass_rewards@[j].step == step),
                None => forall|j: int|
                    0 <= j < self.pass_rewards@.len() ==> !((
                    #[trigger] self.pass_rewards@[j]).group == group && self.pass_rewards@[j].step
                        == step),
            },
    {
        let mut i: usize = 0;
        while i < self.pass_rewards.len()
            invariant
                i <= self.pass_rewards@.len(),
                forall|j: int|
                    0 <= j < i ==> !((#[trigger] self.pass_rewards@[j]).group == group
                        && self.pass_rewards@[j].step == step),
            decreases self.pass_rewards@.len() - i,
        {
            if self.pass_rewards[i].group == group && self.pass_rewards[i].step == step {
                return Some(&self.pass_rewards[i]);
            }
            i = i + 1;
        }
        None
    }
}

// ---- reading cells ----

/// The cells of a row by the names of their columns: of two columns with the same
/// name the later counts.
pub open spec fn row_cells<V>(columns: Seq<Seq<char>>, cells: Seq<V>) -> Seq<(Seq<char>, V)>
    decreases columns.len(),
{
    if columns.len() == 0 {
        Seq::empty()
    } else {
        name_put(
            row_cells(columns.drop_last(), cells.drop_last()),
            columns.last(),
            cells.last(),
        )
    }
}

/// A row from the names of its columns and its cells.
pub fn master_row(columns: &Vec<String>, cells: Vec<MasterScalar>) -> (row: MasterRow)
    requires
        columns@.len() == cells@.len(),
    ensures
        row@ == row_cells(texts(columns@), cells@),
{
    let ghost names = texts(columns@);
    let ghost all = cells@;
    let mut rest = cells;
    let mut reversed: Vec<MasterScalar> = Vec::new();
    while rest.len() > 0
        invariant
            rest@.len() + reversed@.len() == all.len(),
            rest@ == all.take(rest@.len() as int),
            forall|j: int|
                0 <= j < reversed@.len() ==> #[trigger] reversed@[j] == all[all.len() - 1 - j],
        decreases rest@.len(),
    {
        if let Some(cell) = rest.pop() {
            reversed.push(cell);
        }
        proof {
            assert(rest@ =~= all.take(rest@.len() as int));
        }
    }
    let mut row: MasterRow = NameTable::new();
    let mut i: usize = 0;
    while i < columns.len()
        invariant
            i <= columns@.len() == all.len(),
            names == texts(columns@),
            reversed@.len() + i == all.len(),
            forall|j: int|
                0 <= j < reversed@.len() ==> #[trigger] reversed@[j] == all[all.len() - 1 - j],
            row@ == row_cells(names.take(i as int), all.take(i as int)),
        decreases columns@.len() - i,
    {
        proof {
            assert(names.take(i + 1).drop_last() =~= names.take(i as int));
            assert(all.take(i + 1).drop_last() =~= all.take(i as int));
            assert(reversed@[reversed@.len() - 1] == all[i as int]);
        }
        if let Some(cell) = reversed.pop() {
            row.put(columns[i].as_str().to_owned(), cell);
        }
        i = i + 1;
    }
    proof {
        assert(names.take(i as int) =~= names);
        assert(all.take(i as int) =~= all);
    }
    row
}

/// Whether a character is an ASCII letter or a digit.
pub open spec fn alphanumeric(c: char) -> bool {
    'a' <= c <= 'z' || 'A' <= c <= 'Z' || is_digit(c)
}

/// The ASCII letters and digits of a text, with small letters.
pub open spec fn plain(s: Seq<char>) -> Seq<char>
    decreases s.len(),
{
    if s.len() == 0 {
        Seq::empty()
    } else if alphanumeric(s.last()) {
        plain(s.drop_last()).push(lower(s.last()))
    } else {
        plain(s.drop_last())
    }
}

/// Whether the name of a column begins with a letter for its type: an ASCII
/// character and an underscore.
pub open spec fn typed(s: Seq<char>) -> bool {
    s.len() >= 2 && s[0] < '\u{80}' && s[1] == '_'
}

/// The name of a column without its type, in small letters and digits.
pub open spec fn column_name(s: Seq<char>) -> Seq<char> {
    plain(
        if typed(s) {
            s.skip(2)
        } else {
            s
        },
    )
}

pub fn normalize_column_name(value: &str) -> (r: String)
    ensures
        r@ == column_name(value@),
{
    let v = chars_of(value);
    let n: usize = v.len();
    let from: usize = if n >= 2 && v[0] < '\u{80}' && v[1] == '_' {
        2
    } else {
        0
    };
    let ghost rest = if typed(v@) {
        v@.skip(2)
    } else {
        v@
    };
    let mut r = String::new();
    let mut i: usize = from;
    proof {
        assert(rest.take(0) =~= Seq::empty());
    }
    while i < n
        invariant
            from <= i <= n == v@.len(),
            rest.len() == n - from,
            forall|j: int| 0 <= j < rest.len() ==> #[trigger] rest[j] == v@[from + j],
            r@ == plain(rest.take(i - from)),
        decreases n - i,
    {
        let c = v[i];
        proof {
            assert(rest[i - from] == c);
            assert(rest.take(i + 1 - from).drop_last() =~= rest.take(i - from));
            assert(rest.take(i + 1 - from).last() == c);
        }
        if ('a' <= c && c <= 'z') || ('A' <= c && c <= 'Z') || ('0' <= c && c <= '9') {
            r.push(lower_char(c));
        }
        i = i + 1;
    }
    proof {
        assert(rest.take(i - from) =~= rest);
    }
    r
}

proof fn lemma_plain(s: Seq<char>)
    ensures
        plain(plain(s)) == plain(s),
        forall|i: int|
            0 <= i < plain(s).len() ==> alphanumeric(#[trigger] plain(s)[i]) && lower(plain(s)[i])
                == plain(s)[i],
    decreases s.len(),
{
    if s.len() > 0 {
        lemma_plain(s.drop_last());
        if alphanumeric(s.last()) {
            let before = plain(s.drop_last());
            let c = lower(s.last());
            assert(alphanumeric(c) && lower(c) == c);
            assert(before.push(c).drop_last() =~= before);
        }
    }
}

/// A name of a column that was normalized stays as it is.
pub proof fn law_column_name_stays(s: Seq<char>)
    ensures
        column_name(column_name(s)) == column_name(s),
{
    let rest = if typed(s) {
        s.skip(2)
    } else {
        s
    };
    lemma_plain(rest);
    let name = column_name(s);
    if name.len() >= 2 {
        assert(alphanumeric(name[1]));
    }
}

/// The runs of digits that other characters divide, empty ones too.
pub open spec fn digit_runs(s: Seq<char>) -> Seq<Seq<char>>
    decreases s.len(),
{
    if s.len() == 0 {
        seq![Seq::empty()]
    } else {
        let before = digit_runs(s.drop_last());
        if is_digit(s.last()) {
            before.update(before.len() - 1, before.last().push(s.last()))
        } else {
            before.push(Seq::empty())
        }
    }
}

/// The positive numbers of 64 bits among some texts.
pub open spec fn positive_numbers(runs: Seq<Seq<char>>) -> Seq<i64>
    decreases runs.len(),
{
    if runs.len() == 0 {
        Seq::empty()
    } else {
        let before = positive_numbers(runs.drop_last());
        match parsed_i64(runs.last()) {
            Some(id) => if id > 0 {
                before.push(id)
            } else {
                before
            },
            None => before,
        }
    }
}

fn push_number(ids: &mut Vec<i64>, run: &String)
    ensures
        final(ids)@ == match parsed_i64(run@) {
            Some(id) => if id > 0 {
                old(ids)@.push(id)
            } else {
                old(ids)@
            },
            None => old(ids)@,
        },
{
    if let Some(id) = parse_i64(run.as_str()) {
        if id > 0 {
            ids.push(id);
        }
    }
}

/// The positive numbers that a text lists.
pub fn parse_id_list(value: &str) -> (ids: Vec<i64>)
    ensures
        ids@ == positive_numbers(digit_runs(value@)),
{
    let v = chars_of(value);
    let mut ids: Vec<i64> = Vec::new();
    let mut run = String::new();
    let mut i: usize = 0;
    proof {
        assert(v@.take(0) =~= Seq::empty());
        assert(digit_runs(v@.take(0)).drop_last() =~= Seq::empty());
        assert(run@ =~= Seq::empty());
    }
    while i < v.len()
        invariant
            i <= v@.len(),
            v@ == value@,
            digit_runs(v@.take(i as int)).len() > 0,
            digit_runs(v@.take(i as int)).last() == run@,
            ids@ == positive_numbers(digit_runs(v@.take(i as int)).drop_last()),
        decreases v@.len() - i,
    {
        let c = v[i];
        let ghost before = digit_runs(v@.take(i as int));
        proof {
            assert(v@.take(i + 1).drop_last() =~= v@.take(i as int));
            assert(v@.take(i + 1).last() == c);
        }
        if '0' <= c && c <= '9' {
            run.push(c);
            proof {
                assert(digit_runs(v@.take(i + 1)).drop_last() =~= before.drop_last());
            }
        } else {
            push_number(&mut ids, &run);
            run = String::new();
            proof {
                assert(digit_runs(v@.take(i + 1)).drop_last() =~= before);
                assert(run@ =~= Seq::empty());
            }
        }
        i = i + 1;
    }
    push_number(&mut ids, &run);
    proof {
        assert(v@.take(i as int) =~= v@);
    }
    ids
}

/// The experience of a gift, which no row makes negative.
pub open spec fn gift_worth(value: Real) -> int {
    value.or_larger(Real { bits: ZERO }).as_int()
}

pub fn gift_experience(value: Real) -> (r: i64)
    ensures
        r == gift_worth(value),
{
    value.max(&Real { bits: ZERO }).to_i64()
}

} // verus!
