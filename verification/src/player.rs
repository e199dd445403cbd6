//! Everything that one save slot holds of its player.
use crate::domain::Ch3EnergySnapshot;
use crate::rows::{
    AchievementModel, AchievementState, AdLevelState, AdViews, AffectionRow, Anchor, AreaRow,
    Attendance, BookmarkRow, BuffRow, ConditionRow, Core, DailyRow, DropRow, EncoreRow,
    EntitlementRow, EventRow, FlagRow, GrantRow, LevelRow, MailModel, MailRow, OwnedModel, OwnedRow,
    PassRow, PurchaseModel, PurchaseRow, QuestRow, ReviewRow, RevisionRow, RoomModel, RoomRow,
    ScoreModel, ScoreRow, SelectionRow, SkillState, StageRow, Wallet,
};
use crate::table::{Key, Plain, Row, Table, TextTable};
use vstd::prelude::*;

verus! {

impl<R: Row> Row for Table<R> {
    type M = Seq<(Key, R::M)>;

    open spec fn model(&self) -> Seq<(Key, R::M)> {
        self@
    }

    fn dup(&self) -> (r: Table<R>) {
        self.dup()
    }
}

/// The state of a player.
pub struct Player {
    /// The profile.
    pub core: Core,
    /// The name that the player has chosen.
    pub nickname: String,
    /// The device.
    pub device_uuid: String,
    /// The balances.
    pub wallet: Wallet,
    /// How often the player came.
    pub attendance: Attendance,
    /// By local day: when the player came.
    pub attendance_days: Table<Plain<i64>>,
    /// How often the mail was changed.
    pub mail_cursor: i64,
    /// By number: the mail.
    pub mail: Table<MailRow>,
    /// By number: the channels.
    pub areas: Table<Plain<AreaRow>>,
    /// By kind and id: the owned content.
    pub owned: Table<OwnedRow>,
    /// By kind and id: the levels of content.
    pub levels: Table<Plain<LevelRow>>,
    /// By id: when a tutorial was completed.
    pub tutorials: Table<Plain<i64>>,
    /// By id: the achievements.
    pub achievements: Table<AchievementState>,
    /// By id and level: when an achievement was claimed.
    pub achievement_claims: Table<Plain<i64>>,
    /// By id: the daily missions.
    pub daily_missions: Table<Plain<DailyRow>>,
    /// By local day, id and level: when a daily mission was claimed.
    pub daily_claims: Table<Plain<i64>>,
    /// By id: the levels of advertisements.
    pub ad_levels: Table<Plain<AdLevelState>>,
    /// By id: the watched advertisements.
    pub ad_views: Table<Plain<AdViews>>,
    /// By id: the chat rooms.
    pub rooms: Table<RoomRow>,
    /// By stage: the guide.
    pub quests: Table<Plain<QuestRow>>,
    /// By stage and number: the tasks of the guide.
    pub conditions: Table<Plain<ConditionRow>>,
    /// By id: the skills.
    pub skills: Table<Plain<SkillState>>,
    /// By id: the buffs.
    pub buffs: Table<Plain<BuffRow>>,
    /// By id: how many of a gift there are.
    pub gifts: Table<Plain<i64>>,
    /// By id: the followers.
    pub affection: Table<Plain<AffectionRow>>,
    /// By follower and level: when an affection level was claimed.
    pub affection_claims: Table<Plain<i64>>,
    /// The energy of the third channel.
    pub energy: Ch3EnergySnapshot,
    /// By id: the stages of the third channel.
    pub stages: Table<Plain<StageRow>>,
    /// By chapter and number: when a chapter reward was claimed.
    pub chapter_claims: Table<Plain<i64>>,
    /// By transaction, roll and place: what stages dropped.
    pub drops: TextTable<Table<Plain<DropRow>>>,
    /// By music and difficulty: the ratings.
    pub reviews: Table<Plain<ReviewRow>>,
    /// By music: the bookmarks.
    pub bookmarks: Table<Plain<BookmarkRow>>,
    /// By music and difficulty: the scores.
    pub scores: Table<ScoreRow>,
    /// By music: the encores.
    pub encores: Table<Plain<EncoreRow>>,
    /// By group: the chosen rewards.
    pub selections: Table<Plain<SelectionRow>>,
    /// Which season is current.
    pub anchor: Option<Anchor>,
    /// By season and version: the pass.
    pub pass_progress: Table<Plain<PassRow>>,
    /// By season, version, lane and step: when a step was claimed.
    pub pass_claims: Table<Plain<i64>>,
    /// By season: what may be claimed.
    pub entitlements: Table<Plain<EntitlementRow>>,
    /// By id: when a ticket was acquired.
    pub tickets: Table<Plain<i64>>,
    /// By number: the reached steps of the festival.
    pub samseck: Table<Plain<EventRow>>,
    /// By number: the claimed daily rewards.
    pub daily_rewards: Table<Plain<EventRow>>,
    /// By name: the flags.
    pub flags: TextTable<Plain<FlagRow>>,
    /// By name: the revisions.
    pub revisions: TextTable<Plain<RevisionRow>>,
    /// By transaction: the purchases.
    pub purchases: TextTable<PurchaseRow>,
    /// By transaction: the rewards that were granted once.
    pub grants: TextTable<Plain<GrantRow>>,
}

/// The state of a player, as a mathematical value.
pub ghost struct PlayerModel {
    pub core: Core,
    pub nickname: Seq<char>,
    pub device_uuid: Seq<char>,
    pub wallet: Wallet,
    pub attendance: Attendance,
    pub attendance_days: Seq<(Key, i64)>,
    pub mail_cursor: i64,
    pub mail: Seq<(Key, MailModel)>,
    pub areas: Seq<(Key, AreaRow)>,
    pub owned: Seq<(Key, OwnedModel)>,
    pub levels: Seq<(Key, LevelRow)>,
    pub tutorials: Seq<(Key, i64)>,
    pub achievements: Seq<(Key, AchievementModel)>,
    pub achievement_claims: Seq<(Key, i64)>,
    pub daily_missions: Seq<(Key, DailyRow)>,
    pub daily_claims: Seq<(Key, i64)>,
    pub ad_levels: Seq<(Key, AdLevelState)>,
    pub ad_views: Seq<(Key, AdViews)>,
    pub rooms: Seq<(Key, RoomModel)>,
    pub quests: Seq<(Key, QuestRow)>,
    pub conditions: Seq<(Key, ConditionRow)>,
    pub skills: Seq<(Key, SkillState)>,
    pub buffs: Seq<(Key, BuffRow)>,
    pub gifts: Seq<(Key, i64)>,
    pub affection: Seq<(Key, AffectionRow)>,
    pub affection_claims: Seq<(Key, i64)>,
    pub energy: Ch3EnergySnapshot,
    pub stages: Seq<(Key, StageRow)>,
    pub chapter_claims: Seq<(Key, i64)>,
    pub drops: Seq<(Seq<char>, Seq<(Key, DropRow)>)>,
    pub reviews: Seq<(Key, ReviewRow)>,
    pub bookmarks: Seq<(Key, BookmarkRow)>,
    pub scores: Seq<(Key, ScoreModel)>,
    pub encores: Seq<(Key, EncoreRow)>,
    pub selections: Seq<(Key, SelectionRow)>,
    pub anchor: Option<Anchor>,
    pub pass_progress: Seq<(Key, PassRow)>,
    pub pass_claims: Seq<(Key, i64)>,
    pub entitlements: Seq<(Key, EntitlementRow)>,
    pub tickets: Seq<(Key, i64)>,
    pub samseck: Seq<(Key, EventRow)>,
    pub daily_rewards: Seq<(Key, EventRow)>,
    pub flags: Seq<(Seq<char>, FlagRow)>,
    pub revisions: Seq<(Seq<char>, RevisionRow)>,
    pub purchases: Seq<(Seq<char>, PurchaseModel)>,
    pub grants: Seq<(Seq<char>, GrantRow)>,
}

impl View for Player {
    type V = PlayerModel;

    open spec fn view(&self) -> PlayerModel {
        PlayerModel {
            core: self.core,
            nickname: self.nickname@,
            device_uuid: self.device_uuid@,
            wallet: self.wallet,
            attendance: self.attendance,
            attendance_days: self.attendance_days@,
            mail_cursor: self.mail_cursor,
            mail: self.mail@,
            areas: self.areas@,
            owned: self.owned@,
            levels: self.levels@,
            tutorials: self.tutorials@,
            achievements: self.achievements@,
            achievement_claims: self.achievement_claims@,
            daily_missions: self.daily_missions@,
            daily_claims: self.daily_claims@,
            ad_levels: self.ad_levels@,
            ad_views: self.ad_views@,
            rooms: self.rooms@,
            quests: self.quests@,
            conditions: self.conditions@,
            skills: self.skills@,
            buffs: self.buffs@,
            gifts: self.gifts@,
            affection: self.affection@,
            affection_claims: self.affection_claims@,
            energy: self.energy,
            stages: self.stages@,
            chapter_claims: self.chapter_claims@,
            drops: self.drops@,
            reviews: self.reviews@,
            bookmarks: self.bookmarks@,
            scores: self.scores@,
            encores: self.encores@,
            selections: self.selections@,
            anchor: self.anchor,
            pass_progress: self.pass_progress@,
            pass_claims: self.pass_claims@,
            entitlements: self.entitlements@,
            tickets: self.tickets@,
            samseck: self.samseck@,
            daily_rewards: self.daily_rewards@,
            flags: self.flags@,
            revisions: self.revisions@,
            purchases: self.purchases@,
            grants: self.grants@,
        }
    }
}

impl Player {
    pub fn dup(&self) -> (p: Player)
        ensures
            p@ == self@,
    {
        Player {
            core: self.core,
            nickname: self.nickname.clone(),
            device_uuid: self.device_uuid.clone(),
            wallet: self.wallet,
            attendance: self.attendance,
            attendance_days: self.attendance_days.dup(),
            mail_cursor: self.mail_cursor,
            mail: self.mail.dup(),
            areas: self.areas.dup(),
            owned: self.owned.dup(),
            levels: self.levels.dup(),
            tutorials: self.tutorials.dup(),
            achievements: self.achievements.dup(),
            achievement_claims: self.achievement_claims.dup(),
            daily_missions: self.daily_missions.dup(),
            daily_claims: self.daily_claims.dup(),
            ad_levels: self.ad_levels.dup(),
            ad_views: self.ad_views.dup(),
            rooms: self.rooms.dup(),
            quests: self.quests.dup(),
            conditions: self.conditions.dup(),
            skills: self.skills.dup(),
            buffs: self.buffs.dup(),
            gifts: self.gifts.dup(),
            affection: self.affection.dup(),
            affection_claims: self.affection_claims.dup(),
            energy: self.energy,
            stages: self.stages.dup(),
            chapter_claims: self.chapter_claims.dup(),
            drops: self.drops.dup(),
            reviews: self.reviews.dup(),
            bookmarks: self.bookmarks.dup(),
            scores: self.scores.dup(),
            encores: self.encores.dup(),
            selections: self.selections.dup(),
            anchor: self.anchor,
            pass_progress: self.pass_progress.dup(),
            pass_claims: self.pass_claims.dup(),
            entitlements: self.entitlements.dup(),
            tickets: self.tickets.dup(),
            samseck: self.samseck.dup(),
            daily_rewards: self.daily_rewards.dup(),
            flags: self.flags.dup(),
            revisions: self.revisions.dup(),
            purchases: self.purchases.dup(),
            grants: self.grants.dup(),
        }
    }
}

} // verus!
