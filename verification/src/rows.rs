//! The rows of the tables that a player has.
use crate::domain::{ContentKind, CurrencyKind, Reward};
use crate::number::{Real, ZERO};
use crate::table::Row;
use vstd::prelude::*;

verus! {

/// One channel.
#[derive(Clone, Copy, Debug, PartialEq, Eq, Structural)]
pub struct AreaRow {
    pub area_level: i32,
    pub fans: Real,
    pub candy: Real,
    pub current_costume: Option<i64>,
    pub current_guitar: Option<i64>,
    pub current_music: Option<i64>,
    pub gp: Real,
    pub unlocked: bool,
}

/// The level of a piece of content, and the level whose bonus was claimed.
#[derive(Clone, Copy, Debug, PartialEq, Eq, Structural)]
pub struct LevelRow {
    pub level: i64,
    pub reward_level: i64,
}

/// How far a daily mission is.
#[derive(Clone, Copy, Debug, PartialEq, Eq, Structural)]
pub struct DailyRow {
    pub quantity: Real,
    pub updated_at: i64,
}

/// The level of a group of advertisements.
#[derive(Clone, Copy, Debug, PartialEq, Eq, Structural)]
pub struct AdLevelState {
    pub level: i32,
    pub experience: i32,
}

/// How often an advertisement was watched, and on which local day last.
#[derive(Clone, Copy, Debug, PartialEq, Eq, Structural)]
pub struct AdViews {
    pub local_day: i64,
    pub day_count: i32,
    pub total_count: i32,
    pub last_view_time: i64,
}

/// A stage of the guide.
#[derive(Clone, Copy, Debug, PartialEq, Eq, Structural)]
pub struct QuestRow {
    pub completed: bool,
    pub infinite: bool,
    pub updated_at: i64,
}

/// A task of a stage of the guide.
#[derive(Clone, Copy, Debug, PartialEq, Eq, Structural)]
pub struct ConditionRow {
    pub quantity: Real,
    pub claimed: bool,
}

/// When a skill is active.
#[derive(Clone, Copy, Debug, PartialEq, Eq, Structural)]
pub struct SkillState {
    pub active: bool,
    pub active_from: i64,
    pub active_until: i64,
    pub reset_ready_at: i64,
}

/// How long a buff lasts.
#[derive(Clone, Copy, Debug, PartialEq, Eq, Structural)]
pub struct BuffRow {
    pub active_at: i64,
    pub expires_at: i64,
}

/// The affection of a follower.
#[derive(Clone, Copy, Debug, PartialEq, Eq, Structural)]
pub struct AffectionRow {
    pub experience: i64,
    pub level: i32,
}

/// A stage of the third channel.
#[derive(Clone, Copy, Debug, PartialEq, Eq, Structural)]
pub struct StageRow {
    pub chapter: i32,
    pub stage_index: i32,
    pub completed: bool,
    pub best_star: i32,
    pub best_score: i64,
    pub unlocked: bool,
}

/// A rating.
#[derive(Clone, Copy, Debug, PartialEq, Eq, Structural)]
pub struct ReviewRow {
    pub point: Real,
    pub updated_at: i64,
}

/// A bookmark.
#[derive(Clone, Copy, Debug, PartialEq, Eq, Structural)]
pub struct BookmarkRow {
    pub flag: i16,
    pub updated_at: i64,
}

/// The encore of a piece of music.
#[derive(Clone, Copy, Debug, PartialEq, Eq, Structural)]
pub struct EncoreRow {
    pub encore_appears: bool,
    pub encore_follower_id: Option<i64>,
    pub encore_ready_at: i64,
    pub ch3_active_until: i64,
}

/// A choice between reward groups.
#[derive(Clone, Copy, Debug, PartialEq, Eq, Structural)]
pub struct SelectionRow {
    pub selection_id: i64,
    pub reward_group_id: i32,
    pub alternate_reward_group_id: i32,
    pub selected_at: i64,
}

/// How far one version of a season has been played.
#[derive(Clone, Copy, Debug, PartialEq, Eq, Structural)]
pub struct PassRow {
    pub points: i64,
    pub step: i32,
}

/// What a player may claim in a season.
#[derive(Clone, Copy, Debug, PartialEq, Eq, Structural)]
pub struct EntitlementRow {
    pub premium: bool,
    pub lounge: bool,
}

/// A reached step of an event.
#[derive(Clone, Copy, Debug, PartialEq, Eq, Structural)]
pub struct EventRow {
    pub points: i64,
    pub step: i64,
    pub version: i64,
}

/// A flag that is kept for the client.
#[derive(Clone, Copy, Debug, PartialEq, Eq, Structural)]
pub struct FlagRow {
    pub value: i64,
    pub updated_at: i64,
}

/// How often a part of the state was changed.
#[derive(Clone, Copy, Debug, PartialEq, Eq, Structural)]
pub struct RevisionRow {
    pub revision: i64,
    pub updated_at: i64,
}

/// A reward that a stage dropped.
#[derive(Clone, Copy, Debug, PartialEq, Eq, Structural)]
pub struct DropRow {
    pub reward_type: i16,
    pub reward_id: i32,
    pub amount: Real,
}

/// A reward that was granted once.
#[derive(Clone, Copy, Debug, PartialEq, Eq, Structural)]
pub struct GrantRow {
    pub reward: Reward,
    pub created_at: i64,
}

/// What a reward in the mail adds to.
#[derive(Clone, Copy, Debug, PartialEq, Eq, Structural)]
pub enum StoredKind {
    Currency(CurrencyKind),
    Content(ContentKind),
}

/// A reward in the mail.
#[derive(Clone, Copy, Debug, PartialEq, Eq, Structural)]
pub struct StoredReward {
    pub kind: StoredKind,
    pub reward_id: Option<i64>,
    pub amount: Option<Real>,
    pub area: i32,
}

/// A mail without its texts.
#[derive(Clone, Copy, Debug, PartialEq, Eq, Structural)]
pub struct MailState {
    pub created_at: i64,
    pub read_at: Option<i64>,
    pub claimed_at: Option<i64>,
    pub deleted_at: Option<i64>,
    pub reward: Option<StoredReward>,
}

/// The numbers of a score.
#[derive(Clone, Copy, Debug, PartialEq, Eq, Structural)]
pub struct ScoreState {
    pub score: i32,
    pub grade: i16,
    pub play_count: i32,
    pub combo_grade: i16,
    pub gp: i32,
    pub multiple: Real,
    pub achievement: i16,
    pub play_type: i16,
    pub mission_clear: i16,
    pub is_credit: i16,
    pub updated_at: i64,
}

/// An owned piece of content.
pub struct OwnedRow {
    pub area: i32,
    pub acquired_at: i64,
    pub source: String,
}

/// An owned piece of content, as a mathematical value.
pub ghost struct OwnedModel {
    pub area: i32,
    pub acquired_at: i64,
    pub source: Seq<char>,
}

impl Row for OwnedRow {
    type M = OwnedModel;

    open spec fn model(&self) -> OwnedModel {
        OwnedModel { area: self.area, acquired_at: self.acquired_at, source: self.source@ }
    }

    fn dup(&self) -> (r: OwnedRow) {
        OwnedRow { area: self.area, acquired_at: self.acquired_at, source: self.source.clone() }
    }
}

/// How far an achievement is.
pub struct AchievementState {
    pub quantity: Real,
    pub quantity_text: String,
    pub updated_at: i64,
}

/// How far an achievement is, as a mathematical value.
pub ghost struct AchievementModel {
    pub quantity: Real,
    pub quantity_text: Seq<char>,
    pub updated_at: i64,
}

impl Row for AchievementState {
    type M = AchievementModel;

    open spec fn model(&self) -> AchievementModel {
        AchievementModel {
            quantity: self.quantity,
            quantity_text: self.quantity_text@,
            updated_at: self.updated_at,
        }
    }

    fn dup(&self) -> (r: AchievementState) {
        AchievementState {
            quantity: self.quantity,
            quantity_text: self.quantity_text.clone(),
            updated_at: self.updated_at,
        }
    }
}

/// How far a chat room was read.
pub struct RoomRow {
    pub last_confirm_index: i64,
    pub unlock_group_list: String,
    pub update_time_ticks: i64,
    pub updated_at: i64,
}

/// How far a chat room was read, as a mathematical value.
pub ghost struct RoomModel {
    pub last_confirm_index: i64,
    pub unlock_group_list: Seq<char>,
    pub update_time_ticks: i64,
    pub updated_at: i64,
}

impl Row for RoomRow {
    type M = RoomModel;

    open spec fn model(&self) -> RoomModel {
        RoomModel {
            last_confirm_index: self.last_confirm_index,
            unlock_group_list: self.unlock_group_list@,
            update_time_ticks: self.update_time_ticks,
            updated_at: self.updated_at,
        }
    }

    fn dup(&self) -> (r: RoomRow) {
        RoomRow {
            last_confirm_index: self.last_confirm_index,
            unlock_group_list: self.unlock_group_list.clone(),
            update_time_ticks: self.update_time_ticks,
            updated_at: self.updated_at,
        }
    }
}

/// The best results on a piece of music.
pub struct ScoreRow {
    pub state: ScoreState,
    pub played_at: String,
}

/// The best results on a piece of music, as a mathematical value.
pub ghost struct ScoreModel {
    pub state: ScoreState,
    pub played_at: Seq<char>,
}

impl Row for ScoreRow {
    type M = ScoreModel;

    open spec fn model(&self) -> ScoreModel {
        ScoreModel { state: self.state, played_at: self.played_at@ }
    }

    fn dup(&self) -> (r: ScoreRow) {
        ScoreRow { state: self.state, played_at: self.played_at.clone() }
    }
}

/// A mail.
pub struct MailRow {
    pub subject_key: String,
    pub body_key: String,
    pub state: MailState,
}

/// A mail, as a mathematical value.
pub ghost struct MailModel {
    pub subject_key: Seq<char>,
    pub body_key: Seq<char>,
    pub state: MailState,
}

impl Row for MailRow {
    type M = MailModel;

    open spec fn model(&self) -> MailModel {
        MailModel {
            subject_key: self.subject_key@,
            body_key: self.body_key@,
            state: self.state,
        }
    }

    fn dup(&self) -> (r: MailRow) {
        MailRow {
            subject_key: self.subject_key.clone(),
            body_key: self.body_key.clone(),
            state: self.state,
        }
    }
}

/// A completed purchase.
pub struct PurchaseRow {
    pub purchase_kind: String,
    pub target_id: i64,
    pub created_at: i64,
}

/// A completed purchase, as a mathematical value.
pub ghost struct PurchaseModel {
    pub purchase_kind: Seq<char>,
    pub target_id: i64,
    pub created_at: i64,
}

impl Row for PurchaseRow {
    type M = PurchaseModel;

    open spec fn model(&self) -> PurchaseModel {
        PurchaseModel {
            purchase_kind: self.purchase_kind@,
            target_id: self.target_id,
            created_at: self.created_at,
        }
    }

    fn dup(&self) -> (r: PurchaseRow) {
        PurchaseRow {
            purchase_kind: self.purchase_kind.clone(),
            target_id: self.target_id,
            created_at: self.created_at,
        }
    }
}

/// The balances of a player.
#[derive(Clone, Copy, Debug, PartialEq, Eq, Structural)]
pub struct Wallet {
    pub ch1_like: Real,
    pub ch2_like: Real,
    pub ch2_note: Real,
    pub candy: Real,
    pub chocolate: Real,
    pub fans: Real,
    pub gingerbread: Real,
    pub choco_milk: Real,
}

impl Wallet {
    /// Balances of zero.
    pub open spec fn nothing() -> Wallet {
        let zero = Real { bits: ZERO };
        Wallet {
            ch1_like: zero,
            ch2_like: zero,
            ch2_note: zero,
            candy: zero,
            chocolate: zero,
            fans: zero,
            gingerbread: zero,
            choco_milk: zero,
        }
    }

    pub open spec fn balance(self, kind: CurrencyKind) -> Real {
        match kind {
            CurrencyKind::Ch1Like => self.ch1_like,
            CurrencyKind::Ch2Like => self.ch2_like,
            CurrencyKind::Ch2Note => self.ch2_note,
            CurrencyKind::Candy => self.candy,
            CurrencyKind::Chocolate => self.chocolate,
            CurrencyKind::Fans => self.fans,
            CurrencyKind::Gingerbread => self.gingerbread,
            CurrencyKind::ChocoMilk => self.choco_milk,
        }
    }

    /// The balances with one of them changed.
    pub open spec fn with(self, kind: CurrencyKind, amount: Real) -> Wallet {
        match kind {
            CurrencyKind::Ch1Like => Wallet { ch1_like: amount, ..self },
            CurrencyKind::Ch2Like => Wallet { ch2_like: amount, ..self },
            CurrencyKind::Ch2Note => Wallet { ch2_note: amount, ..self },
            CurrencyKind::Candy => Wallet { candy: amount, ..self },
            CurrencyKind::Chocolate => Wallet { chocolate: amount, ..self },
            CurrencyKind::Fans => Wallet { fans: amount, ..self },
            CurrencyKind::Gingerbread => Wallet { gingerbread: amount, ..self },
            CurrencyKind::ChocoMilk => Wallet { choco_milk: amount, ..self },
        }
    }

    /// The balances with an amount added to one of them.
    pub open spec fn plus(self, kind: CurrencyKind, amount: Real) -> Wallet {
        self.with(kind, self.balance(kind).plus(amount))
    }

    pub fn new() -> (w: Wallet)
        ensures
            w == Wallet::nothing(),
    {
        let zero = Real { bits: ZERO };
        Wallet {
            ch1_like: zero,
            ch2_like: zero,
            ch2_note: zero,
            candy: zero,
            chocolate: zero,
            fans: zero,
            gingerbread: zero,
            choco_milk: zero,
        }
    }

    pub fn get(&self, kind: CurrencyKind) -> (amount: Real)
        ensures
            amount == self.balance(kind),
    {
        match kind {
            CurrencyKind::Ch1Like => self.ch1_like,
            CurrencyKind::Ch2Like => self.ch2_like,
            CurrencyKind::Ch2Note => self.ch2_note,
            CurrencyKind::Candy => self.candy,
            CurrencyKind::Chocolate => self.chocolate,
            CurrencyKind::Fans => self.fans,
            CurrencyKind::Gingerbread => self.gingerbread,
            CurrencyKind::ChocoMilk => self.choco_milk,
        }
    }

    pub fn set(&mut self, kind: CurrencyKind, amount: Real)
        ensures
            *final(self) == old(self).with(kind, amount),
    {
        match kind {
            CurrencyKind::Ch1Like => {
                self.ch1_like = amount;
            },
            CurrencyKind::Ch2Like => {
                self.ch2_like = amount;
            },
            CurrencyKind::Ch2Note => {
                self.ch2_note = amount;
            },
            CurrencyKind::Candy => {
                self.candy = amount;
            },
            CurrencyKind::Chocolate => {
                self.chocolate = amount;
            },
            CurrencyKind::Fans => {
                self.fans = amount;
            },
            CurrencyKind::Gingerbread => {
                self.gingerbread = amount;
            },
            CurrencyKind::ChocoMilk => {
                self.choco_milk = amount;
            },
        }
    }

    pub fn add(&mut self, kind: CurrencyKind, amount: Real)
        ensures
            *final(self) == old(self).plus(kind, amount),
    {
        let sum = self.get(kind).add(&amount);
        self.set(kind, sum);
    }
}

/// A changed balance is what it was changed to, and the others are as they were.
pub proof fn law_wallet(w: Wallet, kind: CurrencyKind, amount: Real, other: CurrencyKind)
    ensures
        w.with(kind, amount).balance(other) == if other == kind {
            amount
        } else {
            w.balance(other)
        },
{
}

/// How often a player came.
#[derive(Clone, Copy, Debug, PartialEq, Eq, Structural)]
pub struct Attendance {
    pub count: i32,
    pub continuous: i32,
    pub max_continuous: i32,
    pub last_local_day: Option<i64>,
}

/// The day on which a season of the pass was current.
#[derive(Clone, Copy, Debug, PartialEq, Eq, Structural)]
pub struct Anchor {
    pub local_day: i64,
    pub season: i64,
    pub utc_offset_minutes: i32,
    pub updated_at: i64,
}

/// The profile of a player without its texts.
#[derive(Clone, Copy, Debug, PartialEq, Eq, Structural)]
pub struct Core {
    pub fan_level: i32,
    pub avatar_id: Option<i64>,
    pub title_id: Option<i64>,
    pub last_save_time: i64,
}

} // verus!
