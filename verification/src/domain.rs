//! What the server knows of players, as plain values.
use crate::number::{Real, ZERO};
use crate::text::same_text;
use vstd::prelude::*;

verus! {

/// The number of a save slot.
pub type Usn = i64;

/// Who a save slot belongs to: its number and its numeric user id.
#[derive(Clone, Debug, PartialEq)]
pub struct UserIdentity {
    pub usn: Usn,
    pub user_id: String,
}

/// The time of the device and how far its local time is from UTC.
#[derive(Clone, Copy, Debug, PartialEq, Eq, Structural)]
pub struct DeviceClock {
    pub unix_seconds: i64,
    pub utc_offset_minutes: i32,
}

/// One login: whose it is, its number and the clock at its start.
#[derive(Clone, Debug, PartialEq)]
pub struct LoginSession {
    pub identity: UserIdentity,
    pub nonce: i64,
    pub capability: String,
    pub clock: DeviceClock,
}

/// The balances that a player has.
#[derive(Clone, Copy, Debug, PartialEq, Eq, Structural, PartialOrd, Ord, Hash)]
pub enum CurrencyKind {
    Ch1Like,
    Ch2Like,
    Ch2Note,
    Candy,
    Chocolate,
    Fans,
    Gingerbread,
    ChocoMilk,
}

/// The kinds of content that a player can own.
#[derive(Clone, Copy, Debug, PartialEq, Eq, Structural, PartialOrd, Ord, Hash)]
pub enum ContentKind {
    Character,
    Costume,
    Guitar,
    Music,
    Skill,
    Unit,
    Follower,
    Prop,
    Buff,
    Gift,
}

/// A reward that mail can carry.
#[derive(Clone, Copy, Debug, PartialEq, Eq, Structural)]
pub enum Reward {
    Currency {
        currency: CurrencyKind,
        amount: Real,
    },
    Content {
        content: ContentKind,
        area: i32,
        content_id: i64,
    },
}

/// A reward as the client counts them: its type, its id and how much of it.
#[derive(Clone, Copy, Debug, PartialEq, Eq, Structural)]
pub struct RewardGrant {
    pub reward_type: i16,
    pub reward_id: i32,
    pub amount: Real,
}

/// One mail as the client sees it.
#[derive(Clone, Debug, PartialEq)]
pub struct MailSnapshot {
    pub post_id: i64,
    pub subject: String,
    pub body: String,
    pub created_at: i64,
    pub read: bool,
    pub claimed: bool,
    pub reward: RewardGrant,
}

/// The mail of a player, newest first, and how often it has changed.
#[derive(Clone, Debug, PartialEq)]
pub struct MailboxSnapshot {
    pub cursor: i64,
    pub mail: Vec<MailSnapshot>,
}

/// What a purchase of rewards gave, and the balances after it.
#[derive(Clone, Debug, PartialEq)]
pub struct PurchaseOutcome {
    pub chocolate: Real,
    pub candy: Real,
    pub rewards: Vec<RewardGrant>,
    pub ad_level: Option<AdLevelSnapshot>,
}

/// The level that a purchase gave, and the balances after it.
#[derive(Clone, Copy, Debug, PartialEq, Eq, Structural)]
pub struct ContentPurchaseOutcome {
    pub chocolate: Real,
    pub candy: Real,
    pub kind: ContentKind,
    pub content_id: i64,
    pub level: i64,
}

/// The balances after a package was granted.
#[derive(Clone, Debug, PartialEq)]
pub struct PackagePurchaseOutcome {
    pub chocolate: Real,
    pub candy: Real,
    pub music_ids: Vec<i64>,
}

/// The local day on which a season of the pass was current.
#[derive(Clone, Copy, Debug, PartialEq, Eq, Structural)]
pub struct PassAnchorSnapshot {
    pub anchor_day: i64,
    pub anchor_season: i64,
    pub utc_offset_minutes: i32,
}

/// How far one version of a season has been played.
#[derive(Clone, Copy, Debug, PartialEq, Eq, Structural)]
pub struct PassProgressSnapshot {
    pub season: i64,
    pub points: i64,
    pub step: i32,
    pub version: i32,
}

/// One claimed step of a season.
#[derive(Clone, Copy, Debug, PartialEq, Eq, Structural)]
pub struct PassClaimSnapshot {
    pub season: i64,
    pub version: i32,
    pub lane: i16,
    pub step: i32,
    pub claimed_at: i64,
}

/// Everything about the pass of a player.
#[derive(Clone, Debug, PartialEq)]
pub struct PassSnapshot {
    pub anchor: PassAnchorSnapshot,
    pub progress: Vec<PassProgressSnapshot>,
    pub claims: Vec<PassClaimSnapshot>,
    pub premium_seasons: Vec<i64>,
    pub tickets: Vec<i64>,
}

/// The points of a season after points were bought.
#[derive(Clone, Copy, Debug, PartialEq, Eq, Structural)]
pub struct PassFillOutcome {
    pub season: i64,
    pub points: i64,
    pub version: i32,
    pub chocolate: Real,
    pub candy: Real,
}

/// What claiming a step of a season gave.
#[derive(Clone, Debug, PartialEq)]
pub struct PassClaimOutcome {
    pub season: i64,
    pub lane: i16,
    pub step: i32,
    pub version: i32,
    pub claimed_at: i64,
    pub rewards: Vec<RewardGrant>,
}

/// The energy of the third channel.
#[derive(Clone, Copy, Debug, PartialEq, Eq, Structural)]
pub struct Ch3EnergySnapshot {
    pub amount: i32,
    pub cap: i32,
    pub calculated_at: i64,
}

/// The best that was reached in a stage.
#[derive(Clone, Copy, Debug, PartialEq, Eq, Structural)]
pub struct Ch3StageSnapshot {
    pub stage_id: i64,
    pub chapter: i32,
    pub stage_index: i32,
    pub completed: bool,
    pub best_star: i32,
    pub best_score: i64,
}

/// One claimed chapter reward.
#[derive(Clone, Copy, Debug, PartialEq, Eq, Structural)]
pub struct Ch3ChapterClaimSnapshot {
    pub chapter: i32,
    pub reward_num: i32,
}

/// The affection of a follower.
#[derive(Clone, Copy, Debug, PartialEq, Eq, Structural)]
pub struct FollowerProfileSnapshot {
    pub profile_id: i64,
    pub level: i32,
    pub experience: i64,
    pub add_candy: i32,
}

/// Everything about the third channel of a player.
#[derive(Clone, Debug, PartialEq)]
pub struct Ch3Snapshot {
    pub energy: Ch3EnergySnapshot,
    pub stages: Vec<Ch3StageSnapshot>,
    pub chapter_claims: Vec<Ch3ChapterClaimSnapshot>,
    pub profiles: Vec<FollowerProfileSnapshot>,
}

/// What playing a stage gave.
#[derive(Clone, Debug, PartialEq)]
pub struct Ch3Settlement {
    pub stage: Ch3StageSnapshot,
    pub energy: Ch3EnergySnapshot,
    pub profile: FollowerProfileSnapshot,
    pub rewards: Vec<RewardGrant>,
}

/// What replaying a completed stage several times gave.
#[derive(Clone, Debug, PartialEq)]
pub struct Ch3StreamSettlement {
    pub stage_id: i64,
    pub energy: Ch3EnergySnapshot,
    pub profile: FollowerProfileSnapshot,
    pub reward_rolls: Vec<(i32, Vec<RewardGrant>)>,
}

/// A stage as the master data defines it.
#[derive(Clone, Copy, Debug, PartialEq, Eq, Structural)]
pub struct Ch3StageDefinition {
    pub stage_id: i64,
    pub chapter: i32,
    pub stage_index: i32,
    pub story: bool,
}

/// A rating of a piece of music.
#[derive(Clone, Copy, Debug, PartialEq, Eq, Structural)]
pub struct MusicReviewSnapshot {
    pub music_id: i32,
    pub difficulty: i16,
    pub point: Real,
}

/// Whether a piece of music is bookmarked.
#[derive(Clone, Copy, Debug, PartialEq, Eq, Structural)]
pub struct BookmarkSnapshot {
    pub music_id: i32,
    pub flag: i16,
}

/// The best results on a piece of music.
#[derive(Clone, Debug, PartialEq)]
pub struct MusicScoreSnapshot {
    pub music_id: i32,
    pub difficulty: i16,
    pub score: i32,
    pub grade: i16,
    pub play_count: i32,
    pub combo_grade: i16,
    pub gp: i32,
    pub multiple: Real,
    pub achievement: i16,
    pub play_type: i16,
    pub played_at: String,
    pub mission_clear: i16,
    pub is_credit: i16,
}

/// The encore of a piece of music.
#[derive(Clone, Copy, Debug, PartialEq, Eq, Structural)]
pub struct MusicStateSnapshot {
    pub music_id: i64,
    pub encore_appears: bool,
    pub encore_ready_at: i64,
    pub encore_follower_id: Option<i64>,
    pub ch3_active_until: i64,
}

/// Which encores were rewarded and which were refused.
#[derive(Clone, Debug, PartialEq)]
pub struct MusicEncoreRewardOutcome {
    pub rewards: Vec<(i32, i32)>,
    pub profiles: Vec<FollowerProfileSnapshot>,
    pub rejected_music_ids: Vec<i32>,
}

/// What a gift did to a follower.
#[derive(Clone, Copy, Debug, PartialEq, Eq, Structural)]
pub struct FollowerGiftOutcome {
    pub gift_id: i64,
    pub remaining: i64,
    pub profile: FollowerProfileSnapshot,
}

/// What reaching an affection level gave.
#[derive(Clone, Debug, PartialEq)]
pub struct FollowerProfileRewardOutcome {
    pub profile_id: i64,
    pub level: i32,
    pub rewards: Vec<RewardGrant>,
    pub profile: FollowerProfileSnapshot,
}

/// The state of the guide after a task was reported.
#[derive(Clone, Debug, PartialEq)]
pub struct FollowerQuestOutcome {
    pub quest: FollowerQuestSnapshot,
    pub complete_id: i64,
    pub next: bool,
    pub rewards: Vec<RewardGrant>,
}

/// What watching an advertisement gave.
#[derive(Clone, Debug, PartialEq)]
pub struct AdRewardOutcome {
    pub ad_id: i64,
    pub day_count: i32,
    pub total_count: i32,
    pub last_view_time: i64,
    pub rewards: Vec<RewardGrant>,
    pub profile: Option<FollowerProfileSnapshot>,
}

/// A choice between reward groups.
#[derive(Clone, Copy, Debug, PartialEq, Eq, Structural)]
pub struct SelectRewardSnapshot {
    pub group_id: i32,
    pub reward_group_id: i32,
    pub alternate_reward_group_id: i32,
}

/// Everything about a player.
#[derive(Clone, Debug, PartialEq)]
pub struct PlayerSnapshot {
    pub identity: UserIdentity,
    pub nickname: String,
    pub fan_level: i32,
    pub avatar_id: Option<i64>,
    pub title_id: Option<i64>,
    pub last_save_time: i64,
    pub samseck_step: i32,
    pub device_uuid: String,
    pub currencies: Vec<(CurrencyKind, Real)>,
    pub areas: Vec<AreaSnapshot>,
    pub owned_content: Vec<OwnedContentSnapshot>,
    pub content_levels: Vec<ContentLevelSnapshot>,
    pub tutorials: Vec<i64>,
    pub pass: PassSnapshot,
    pub skill_activations: Vec<SkillActivationSnapshot>,
    pub buff_timers: Vec<BuffTimerSnapshot>,
    pub gifts: Vec<FollowerGiftSnapshot>,
    pub affection_claims: Vec<FollowerAffectionClaimSnapshot>,
    pub ad_levels: Vec<AdLevelSnapshot>,
    pub ad_state: Vec<AdStateSnapshot>,
    pub messengers: Vec<MessengerSnapshot>,
    pub follower_quests: Vec<FollowerQuestSnapshot>,
    pub achievements: Vec<ProgressSnapshot>,
    pub daily_missions: Vec<ProgressSnapshot>,
    pub ch3: Ch3Snapshot,
    pub music_reviews: Vec<MusicReviewSnapshot>,
    pub bookmarks: Vec<BookmarkSnapshot>,
    pub music_scores: Vec<MusicScoreSnapshot>,
    pub music_states: Vec<MusicStateSnapshot>,
    pub selected_rewards: Vec<SelectRewardSnapshot>,
}

/// One channel of a player.
#[derive(Clone, Copy, Debug, PartialEq, Eq, Structural)]
pub struct AreaSnapshot {
    pub area: i32,
    pub area_level: i32,
    pub fans: Real,
    pub candy: Real,
    pub current_costume: Option<i64>,
    pub current_guitar: Option<i64>,
    pub current_music: Option<i64>,
    pub gp: Real,
    pub unlocked: bool,
}

/// One owned piece of content.
#[derive(Clone, Copy, Debug, PartialEq, Eq, Structural)]
pub struct OwnedContentSnapshot {
    pub kind: ContentKind,
    pub area: i32,
    pub content_id: i64,
}

/// The level of a piece of content.
#[derive(Clone, Copy, Debug, PartialEq, Eq, Structural)]
pub struct ContentLevelSnapshot {
    pub kind: ContentKind,
    pub content_id: i64,
    pub level: i64,
    pub reward_level: i64,
}

/// When a skill is active.
#[derive(Clone, Copy, Debug, PartialEq, Eq, Structural)]
pub struct SkillActivationSnapshot {
    pub skill_id: i64,
    pub active: bool,
    pub active_from: i64,
    pub active_until: i64,
    pub reset_ready_at: i64,
}

/// The level of a group of advertisements.
#[derive(Clone, Copy, Debug, PartialEq, Eq, Structural)]
pub struct AdLevelSnapshot {
    pub ad_level_id: i64,
    pub level: i32,
    pub experience: i32,
}

/// The levels of a group of advertisements and what each requires.
#[derive(Clone, Debug, PartialEq)]
pub struct AdLevelProgression {
    pub group_id: i64,
    pub thresholds: Vec<(i32, i32)>,
}

/// Experience for a follower that comes with an advertisement.
#[derive(Clone, Debug, PartialEq)]
pub struct AdProfileGrant {
    pub profile_id: i64,
    pub experience: i64,
    pub level_thresholds: Vec<(i32, i64, i32)>,
}

/// A request to claim one achievement or daily-mission tier.
#[derive(Clone, Debug, PartialEq)]
pub struct GameRewardClaimCommand {
    pub kind: String,
    pub id: i64,
    pub level: i32,
    pub quantity: Real,
    pub threshold: Real,
    pub local_day: i64,
    pub reward: Option<RewardGrant>,
}

/// Atomic purchase whose result consists of one or more reward grants.
#[derive(Clone, Debug, PartialEq)]
pub struct RewardPurchaseCommand {
    pub transaction_id: String,
    pub purchase_kind: String,
    pub target_id: i64,
    pub cost: Option<(CurrencyKind, Real)>,
    pub rewards: Vec<RewardGrant>,
    pub ad_progression: Option<AdLevelProgression>,
}

/// Atomic purchase or level-up of a single content record.
#[derive(Clone, Copy, Debug, PartialEq, Eq, Structural)]
pub struct ContentPurchaseCommand {
    pub kind: ContentKind,
    pub area: i32,
    pub content_id: i64,
    pub currency: CurrencyKind,
    pub price: Real,
    /// What every further level adds to the price.
    pub price_increment: Real,
    pub max_level: i64,
}

/// How often an advertisement was watched.
#[derive(Clone, Copy, Debug, PartialEq, Eq, Structural)]
pub struct AdStateSnapshot {
    pub ad_id: i64,
    pub day_count: i32,
    pub total_count: i32,
    pub last_view_time: i64,
}

/// How far a chat room was read.
#[derive(Clone, Debug, PartialEq)]
pub struct MessengerSnapshot {
    pub room_id: i64,
    pub last_confirm_index: i64,
    pub unlock_group_list: String,
    pub update_time_ticks: i64,
}

/// One stage of the guide: its three tasks and which were claimed.
#[derive(Clone, Copy, Debug, PartialEq)]
pub struct FollowerQuestSnapshot {
    pub current_id: i64,
    /// The last stage that was completed.
    pub complete_id: i64,
    pub completed: bool,
    pub infinite: bool,
    pub condition_values: [Real; 3],
    pub claimed: [bool; 3],
}

/// How long a buff lasts.
#[derive(Clone, Copy, Debug, PartialEq, Eq, Structural)]
pub struct BuffTimerSnapshot {
    pub buff_id: i64,
    pub active_at: i64,
    pub expires_at: i64,
}

/// How many of a gift a player has.
#[derive(Clone, Copy, Debug, PartialEq, Eq, Structural)]
pub struct FollowerGiftSnapshot {
    pub gift_id: i64,
    pub quantity: i64,
}

/// One claimed affection level.
#[derive(Clone, Copy, Debug, PartialEq, Eq, Structural)]
pub struct FollowerAffectionClaimSnapshot {
    pub profile_id: i64,
    pub level: i32,
}

/// How far an achievement or a daily mission is.
#[derive(Clone, Debug, PartialEq)]
pub struct ProgressSnapshot {
    pub id: i64,
    pub level: i64,
    pub quantity: Real,
    pub quantity_text: String,
}

/// What a save says of the player as a whole.
#[derive(Clone, Copy, Debug, Default, PartialEq, Eq, Structural)]
pub struct CoreSavePatch {
    pub ch1_like: Option<Real>,
    pub fans: Option<i64>,
    pub fan_level: Option<i32>,
    pub current_costume: Option<i64>,
    pub current_music: Option<i64>,
}

/// What a save says of one channel.
#[derive(Clone, Debug, Default, PartialEq)]
pub struct AreaSavePatch {
    pub area: i32,
    pub like_amount: Option<Real>,
    pub fans: Option<i64>,
    pub fan_level: Option<i32>,
    pub current_costume: Option<i64>,
    pub current_music: Option<i64>,
    pub current_guitar: Option<i64>,
    pub candy: Option<Real>,
    pub tutorial_list: Option<String>,
    pub gp1: Option<String>,
    pub gp2: Option<String>,
}

/// What a save says of a piece of content.
#[derive(Clone, Copy, Debug, PartialEq, Eq, Structural)]
pub struct ContentSavePatch {
    pub kind: ContentKind,
    pub area: i32,
    pub content_id: i64,
    pub level: Option<i64>,
    pub reward_level: Option<i64>,
}

/// What a save says of an encore.
#[derive(Clone, Copy, Debug, PartialEq, Eq, Structural)]
pub struct MusicStateSavePatch {
    pub music_id: i64,
    pub encore_appears: bool,
    pub encore_follower_id: Option<i64>,
}

/// What a save says of an achievement or a daily mission.
#[derive(Clone, Debug, PartialEq)]
pub struct ProgressSavePatch {
    pub id: i64,
    pub quantity: Real,
    pub quantity_text: Option<String>,
}

/// What a save says of a skill.
#[derive(Clone, Copy, Debug, PartialEq, Eq, Structural)]
pub struct SkillActivationSavePatch {
    pub skill_id: i64,
    pub active: bool,
    pub active_from: i64,
    pub active_until: i64,
}

/// What a save says of a chat room.
#[derive(Clone, Debug, PartialEq)]
pub struct MessengerSavePatch {
    pub room_id: i64,
    pub last_confirm_index: i64,
    pub unlock_group_list: String,
    pub update_time_ticks: i64,
}

/// What a save says of a season of the pass.
#[derive(Clone, Debug, PartialEq)]
pub struct PassProgressSavePatch {
    pub event_type: String,
    pub season: i64,
    pub points: i64,
    pub step: i32,
    pub version: i32,
}

/// What a save says of the guide.
#[derive(Clone, Copy, Debug, PartialEq)]
pub struct FollowerQuestSavePatch {
    pub current_id: i64,
    pub condition_values: [Real; 3],
}

/// A whole save.
#[derive(Clone, Debug, Default, PartialEq)]
pub struct UserSavePatch {
    pub core: Option<CoreSavePatch>,
    pub areas: Vec<AreaSavePatch>,
    pub content: Vec<ContentSavePatch>,
    pub music_states: Vec<MusicStateSavePatch>,
    pub achievements: Vec<ProgressSavePatch>,
    pub daily_missions: Vec<ProgressSavePatch>,
    pub skill_activations: Vec<SkillActivationSavePatch>,
    pub messengers: Vec<MessengerSavePatch>,
    pub pass_progress: Vec<PassProgressSavePatch>,
    pub follower_quests: Vec<FollowerQuestSavePatch>,
}

/// The attendance of a player after a visit.
#[derive(Clone, Debug, PartialEq)]
pub struct AttendanceResult {
    pub status: String,
    pub attendance_count: i32,
    pub attendance_date: i32,
    pub max_continuous_count: i32,
}

/// Why a request is refused.
#[derive(Clone, Copy, Debug, PartialEq, Eq, Structural)]
pub enum DomainError {
    /// The offset from UTC, in minutes, is beyond fourteen hours.
    InvalidUtcOffset(i32),
    /// An amount is not finite or below zero.
    InvalidAmount,
    /// The identity is not that of the login session.
    IdentityMismatch,
    /// The session has ended, or a later request was already handled.
    StaleRequest,
    /// The reward was claimed before.
    AlreadyClaimed,
    /// The content is owned already.
    AlreadyOwned,
    /// The balance is too small.
    InsufficientBalance,
    /// What is asked for is not unlocked.
    Locked,
    /// There is no such stage.
    InvalidStage,
    /// The energy is too small.
    InsufficientEnergy,
}

impl DeviceClock {
    /// The local time in seconds.
    pub open spec fn local_seconds(self) -> int {
        self.unix_seconds + self.utc_offset_minutes * 60
    }

    /// Whether the local time is within the range of 64 bits.
    pub open spec fn representable(self) -> bool {
        i64::MIN <= self.local_seconds() <= i64::MAX
    }

    /// The number of the local day.
    pub open spec fn local_day(self) -> int {
        self.local_seconds() / 86_400
    }

    /// A clock whose offset is at most fourteen hours.
    pub fn new(unix_seconds: i64, utc_offset_minutes: i32) -> (r: Result<DeviceClock, DomainError>)
        ensures
            r == if -840 <= utc_offset_minutes <= 840 {
                Ok::<DeviceClock, DomainError>((DeviceClock { unix_seconds, utc_offset_minutes }))
            } else {
                Err(DomainError::InvalidUtcOffset(utc_offset_minutes))
            },
    {
        if utc_offset_minutes < -14 * 60 || utc_offset_minutes > 14 * 60 {
            return Err(DomainError::InvalidUtcOffset(utc_offset_minutes));
        }
        Ok(DeviceClock { unix_seconds, utc_offset_minutes })
    }

    /// The number of the local day, counted from the local start of 1970.
    pub fn local_epoch_day(self) -> (day: i64)
        requires
            self.representable(),
        ensures
            day == self.local_day(),
    {
        let seconds: i64 = (
            self.unix_seconds as i128 + self.utc_offset_minutes as i128 * 60
        ) as i64;
        match seconds.checked_div_euclid(86_400) {
            Some(day) => day,
            None => 0,
        }
    }
}

impl CurrencyKind {
    /// The name of a balance.
    pub open spec fn name(self) -> Seq<char> {
        match self {
            CurrencyKind::Ch1Like => "ch1_like"@,
            CurrencyKind::Ch2Like => "ch2_like"@,
            CurrencyKind::Ch2Note => "ch2_note"@,
            CurrencyKind::Candy => "candy"@,
            CurrencyKind::Chocolate => "chocolate"@,
            CurrencyKind::Fans => "fans"@,
            CurrencyKind::Gingerbread => "gingerbread"@,
            CurrencyKind::ChocoMilk => "choco_milk"@,
        }
    }

    pub fn key(self) -> (key: &'static str)
        ensures
            key@ == self.name(),
    {
        match self {
            CurrencyKind::Ch1Like => "ch1_like",
            CurrencyKind::Ch2Like => "ch2_like",
            CurrencyKind::Ch2Note => "ch2_note",
            CurrencyKind::Candy => "candy",
            CurrencyKind::Chocolate => "chocolate",
            CurrencyKind::Fans => "fans",
            CurrencyKind::Gingerbread => "gingerbread",
            CurrencyKind::ChocoMilk => "choco_milk",
        }
    }

    /// All balances.
    pub fn all() -> (kinds: [CurrencyKind; 8])
        ensures
            kinds@ == all_currencies(),
    {
        [
            CurrencyKind::Ch1Like,
            CurrencyKind::Ch2Like,
            CurrencyKind::Ch2Note,
            CurrencyKind::Candy,
            CurrencyKind::Chocolate,
            CurrencyKind::Fans,
            CurrencyKind::Gingerbread,
            CurrencyKind::ChocoMilk,
        ]
    }
}

pub open spec fn all_currencies() -> Seq<CurrencyKind> {
    seq![
        CurrencyKind::Ch1Like,
        CurrencyKind::Ch2Like,
        CurrencyKind::Ch2Note,
        CurrencyKind::Candy,
        CurrencyKind::Chocolate,
        CurrencyKind::Fans,
        CurrencyKind::Gingerbread,
        CurrencyKind::ChocoMilk,
    ]
}

/// No two balances have the same name.
pub proof fn law_currency_names_differ(a: CurrencyKind, b: CurrencyKind)
    ensures
        a.name() == b.name() ==> a == b,
{
    reveal_strlit("ch1_like");
    reveal_strlit("ch2_like");
    reveal_strlit("ch2_note");
    reveal_strlit("candy");
    reveal_strlit("chocolate");
    reveal_strlit("fans");
    reveal_strlit("gingerbread");
    reveal_strlit("choco_milk");
    if a.name() == b.name() {
        assert(a.name().len() == b.name().len());
        assert(a.name()[0] == b.name()[0]);
        assert(a.name()[2] == b.name()[2]);
        assert(a.name()[4] == b.name()[4]);
    }
}

/// The balance with a name.
pub fn currency_from_key(key: &str) -> (r: Option<CurrencyKind>)
    ensures
        match r {
            Some(kind) => kind.name() == key@,
            None => forall|kind: CurrencyKind| #[trigger] kind.name() != key@,
        },
{
    let kinds = CurrencyKind::all();
    let mut i: usize = 0;
    while i < 8
        invariant
            i <= 8,
            kinds@ == all_currencies(),
            forall|j: int| 0 <= j < i ==> (#[trigger] all_currencies()[j]).name() != key@,
        decreases 8 - i,
    {
        let kind = kinds[i];
        if same_text(kind.key(), key) {
            return Some(kind);
        }
        i = i + 1;
    }
    proof {
        assert forall|kind: CurrencyKind| #[trigger] kind.name() != key@ by {
            assert(exists|j: int| 0 <= j < 8 && #[trigger] all_currencies()[j] == kind) by {
                let j: int = match kind {
                    CurrencyKind::Ch1Like => 0,
                    CurrencyKind::Ch2Like => 1,
                    CurrencyKind::Ch2Note => 2,
                    CurrencyKind::Candy => 3,
                    CurrencyKind::Chocolate => 4,
                    CurrencyKind::Fans => 5,
                    CurrencyKind::Gingerbread => 6,
                    CurrencyKind::ChocoMilk => 7,
                };
                assert(all_currencies()[j] == kind);
            }
        }
    }
    None
}

impl ContentKind {
    /// The name of a kind of content.
    pub open spec fn name(self) -> Seq<char> {
        match self {
            ContentKind::Character => "character"@,
            ContentKind::Costume => "costume"@,
            ContentKind::Guitar => "guitar"@,
            ContentKind::Music => "music"@,
            ContentKind::Skill => "skill"@,
            ContentKind::Unit => "unit"@,
            ContentKind::Follower => "follower"@,
            ContentKind::Prop => "prop"@,
            ContentKind::Buff => "buff"@,
            ContentKind::Gift => "gift"@,
        }
    }

    /// The place of a kind in the order of their names.
    pub open spec fn rank(self) -> i64 {
        match self {
            ContentKind::Buff => 0,
            ContentKind::Character => 1,
            ContentKind::Costume => 2,
            ContentKind::Follower => 3,
            ContentKind::Gift => 4,
            ContentKind::Guitar => 5,
            ContentKind::Music => 6,
            ContentKind::Prop => 7,
            ContentKind::Skill => 8,
            ContentKind::Unit => 9,
        }
    }

    pub fn exec_rank(self) -> (r: i64)
        ensures
            r == self.rank(),
    {
        match self {
            ContentKind::Buff => 0,
            ContentKind::Character => 1,
            ContentKind::Costume => 2,
            ContentKind::Follower => 3,
            ContentKind::Gift => 4,
            ContentKind::Guitar => 5,
            ContentKind::Music => 6,
            ContentKind::Prop => 7,
            ContentKind::Skill => 8,
            ContentKind::Unit => 9,
        }
    }
}

pub fn content_key(kind: ContentKind) -> (key: &'static str)
    ensures
        key@ == kind.name(),
{
    match kind {
        ContentKind::Character => "character",
        ContentKind::Costume => "costume",
        ContentKind::Guitar => "guitar",
        ContentKind::Music => "music",
        ContentKind::Skill => "skill",
        ContentKind::Unit => "unit",
        ContentKind::Follower => "follower",
        ContentKind::Prop => "prop",
        ContentKind::Buff => "buff",
        ContentKind::Gift => "gift",
    }
}

/// The kind of content with a name.
pub fn content_from_key(key: &str) -> (r: Option<ContentKind>)
    ensures
        match r {
            Some(kind) => kind.name() == key@,
            None => forall|kind: ContentKind| #[trigger] kind.name() != key@,
        },
{
    if same_text(key, "character") {
        Some(ContentKind::Character)
    } else if same_text(key, "costume") {
        Some(ContentKind::Costume)
    } else if same_text(key, "guitar") {
        Some(ContentKind::Guitar)
    } else if same_text(key, "music") {
        Some(ContentKind::Music)
    } else if same_text(key, "skill") {
        Some(ContentKind::Skill)
    } else if same_text(key, "unit") {
        Some(ContentKind::Unit)
    } else if same_text(key, "follower") {
        Some(ContentKind::Follower)
    } else if same_text(key, "prop") {
        Some(ContentKind::Prop)
    } else if same_text(key, "buff") {
        Some(ContentKind::Buff)
    } else if same_text(key, "gift") {
        Some(ContentKind::Gift)
    } else {
        None
    }
}

/// No two kinds of content have the same name.
pub proof fn law_content_names_differ(a: ContentKind, b: ContentKind)
    ensures
        a.name() == b.name() ==> a == b,
{
    reveal_strlit("character");
    reveal_strlit("costume");
    reveal_strlit("guitar");
    reveal_strlit("music");
    reveal_strlit("skill");
    reveal_strlit("unit");
    reveal_strlit("follower");
    reveal_strlit("prop");
    reveal_strlit("buff");
    reveal_strlit("gift");
    if a.name() == b.name() {
        assert(a.name().len() == b.name().len());
        assert(a.name()[0] == b.name()[0]);
        assert(a.name()[1] == b.name()[1]);
    }
}

impl PlayerSnapshot {
    /// The first amount listed for a balance, or zero.
    pub open spec fn listed(entries: Seq<(CurrencyKind, Real)>, kind: CurrencyKind) -> Real
        decreases entries.len(),
    {
        if entries.len() == 0 {
            Real { bits: ZERO }
        } else if entries[0].0 == kind {
            entries[0].1
        } else {
            PlayerSnapshot::listed(entries.drop_first(), kind)
        }
    }

    pub fn currency(&self, kind: CurrencyKind) -> (amount: Real)
        ensures
            amount == PlayerSnapshot::listed(self.currencies@, kind),
    {
        let mut i: usize = 0;
        proof {
            assert(self.currencies@.skip(0) =~= self.currencies@);
        }
        while i < self.currencies.len()
            invariant
                i <= self.currencies@.len(),
                PlayerSnapshot::listed(self.currencies@, kind) == PlayerSnapshot::listed(
                    self.currencies@.skip(i as int),
                    kind,
                ),
            decreases self.currencies@.len() - i,
        {
            let (candidate, amount) = self.currencies[i];
            if candidate == kind {
                return amount;
            }
            proof {
                assert(self.currencies@.skip(i as int).drop_first() =~= self.currencies@.skip(
                    i + 1,
                ));
            }
            i = i + 1;
        }
        Real { bits: ZERO }
    }
}

} // verus!
