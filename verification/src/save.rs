//! Merging the save of a client into the state of its player.
use crate::claims::ATTENDANCE_ACHIEVEMENT;
use crate::command::{answered, Command, Effect, Mutation, RpcMutation, Rules};
use crate::consume_reward::RewardRules;
use crate::domain::{
    AreaSavePatch, ContentKind, ContentSavePatch, CoreSavePatch, CurrencyKind,
    FollowerQuestSavePatch, MessengerSavePatch, MusicStateSavePatch, PassProgressSavePatch,
    ProgressSavePatch, SkillActivationSavePatch, UserSavePatch,
};
use crate::errors::StoreError;
use crate::ints::{
    clip64, max32, max64, max_int, saturating_add, saturating_mul, saturating_sub,
};
use crate::kept::lemma_saved;
use crate::number::{Real, ZERO};
use crate::order::group_keyed;
use crate::outcome::{Outcome, Summary};
use crate::pass::is_season;
use crate::player::{Player, PlayerModel};
use crate::quests::{exec_newest_stage, exec_task, newest_stage, task, task_due};
use crate::rewards::{content_at, owning};
use crate::rows::{
    AchievementModel, AchievementState, AreaRow, ConditionRow, Core, DailyRow, EncoreRow, LevelRow,
    OwnedModel, PassRow, QuestRow, RoomModel, RoomRow, SkillState,
};
use crate::table::{
    get, in_table, k1, k2, key1, key2, law_get_put, put, put_new, Key, Plain,
};
use crate::text::{decimal, decimal_text, opt_text};
use vstd::prelude::*;

verus! {

/// What is given, or else what was there.
pub open spec fn or_else<T>(given: Option<T>, before: Option<T>) -> Option<T> {
    match given {
        Some(v) => Some(v),
        None => before,
    }
}

fn exec_or_else(given: Option<i64>, before: Option<i64>) -> (r: Option<i64>)
    ensures
        r == or_else(given, before),
{
    match given {
        Some(v) => Some(v),
        None => before,
    }
}

/// An amount that may be taken over.
pub open spec fn given_amount(v: Option<Real>) -> Option<Real> {
    match v {
        Some(x) => if x.amount() {
            Some(x)
        } else {
            None
        },
        None => None,
    }
}

fn exec_given_amount(v: Option<Real>) -> (r: Option<Real>)
    ensures
        r == given_amount(v),
{
    match v {
        Some(x) => if x.is_amount() {
            Some(x)
        } else {
            None
        },
        None => None,
    }
}

/// A count that may be taken over, as a number.
pub open spec fn given_count(v: Option<i64>) -> Option<Real> {
    match v {
        Some(n) => if n >= 0 {
            Some(Real::of(n as int))
        } else {
            None
        },
        None => None,
    }
}

fn exec_given_count(v: Option<i64>) -> (r: Option<Real>)
    ensures
        r == given_count(v),
{
    match v {
        Some(n) => if n >= 0 {
            Some(Real::from_i64(n))
        } else {
            None
        },
        None => None,
    }
}

/// A balance that is what the client says.
pub open spec fn balance_set(p: PlayerModel, kind: CurrencyKind, v: Option<Real>) -> PlayerModel {
    match v {
        Some(amount) => PlayerModel { wallet: p.wallet.with(kind, amount), ..p },
        None => p,
    }
}

/// A balance of fans that is at least what the client says.
pub open spec fn fans_raised(p: PlayerModel, v: Option<Real>) -> PlayerModel {
    match v {
        Some(amount) => PlayerModel {
            wallet: p.wallet.with(
                CurrencyKind::Fans,
                p.wallet.balance(CurrencyKind::Fans).or_larger(amount),
            ),
            ..p
        },
        None => p,
    }
}

/// What a save says of the player as a whole, taken over.
pub open spec fn core_saved(p: PlayerModel, c: CoreSavePatch, now: i64) -> PlayerModel {
    let q = fans_raised(
        balance_set(p, CurrencyKind::Ch1Like, given_amount(c.ch1_like)),
        given_count(c.fans),
    );
    PlayerModel {
        core: Core { last_save_time: now, ..q.core },
        areas: match get(q.areas, k1(1)) {
            Some(row) => put(
                q.areas,
                k1(1),
                AreaRow {
                    current_costume: or_else(c.current_costume, row.current_costume),
                    current_music: or_else(c.current_music, row.current_music),
                    ..row
                },
            ),
            None => q.areas,
        },
        ..q
    }
}

/// A channel as a save describes it. A save never unlocks one.
pub open spec fn area_row(before: Option<AreaRow>, a: AreaSavePatch) -> AreaRow {
    let row = match before {
        Some(row) => row,
        None => AreaRow {
            area_level: 1,
            fans: Real { bits: ZERO },
            candy: Real { bits: ZERO },
            current_costume: None,
            current_guitar: None,
            current_music: None,
            gp: Real { bits: ZERO },
            unlocked: a.area == 1,
        },
    };
    AreaRow {
        area_level: match a.fan_level {
            Some(level) => level,
            None => row.area_level,
        },
        fans: match given_count(a.fans) {
            Some(fans) => fans,
            None => row.fans,
        },
        candy: match given_amount(a.candy) {
            Some(candy) => candy,
            None => row.candy,
        },
        current_costume: or_else(a.current_costume, row.current_costume),
        current_guitar: or_else(a.current_guitar, row.current_guitar),
        current_music: or_else(a.current_music, row.current_music),
        ..row
    }
}

/// What a save says of one channel, taken over.
pub open spec fn area_saved(p: PlayerModel, a: AreaSavePatch, now: i64) -> PlayerModel {
    if !(1 <= a.area <= 2) {
        p
    } else {
        let key = k1(a.area as int);
        let likes = if a.area == 2 {
            CurrencyKind::Ch2Like
        } else {
            CurrencyKind::Ch1Like
        };
        let q = fans_raised(
            balance_set(
                PlayerModel { areas: put(p.areas, key, area_row(get(p.areas, key), a)), ..p },
                likes,
                given_amount(a.like_amount),
            ),
            given_count(a.fans),
        );
        if a.area == 1 {
            let q = balance_set(q, CurrencyKind::Candy, given_amount(a.candy));
            match a.fan_level {
                Some(level) => if level > 0 {
                    PlayerModel { core: Core { fan_level: level, ..q.core }, ..q }
                } else {
                    q
                },
                None => q,
            }
        } else {
            q
        }
    }
}

/// The level of a piece of content after a save.
pub open spec fn level_row(before: Option<LevelRow>, level: i64, reward_level: i64) -> LevelRow {
    match before {
        Some(row) => LevelRow {
            level: max_int(row.level as int, level as int) as i64,
            reward_level: max_int(row.reward_level as int, reward_level as int) as i64,
        },
        None => LevelRow { level, reward_level },
    }
}

/// What a save says of a piece of content, taken over. Content without a level
/// is not acquired.
pub open spec fn content_saved(p: PlayerModel, c: ContentSavePatch, now: i64) -> PlayerModel {
    let key = content_at(c.kind, c.content_id as int);
    let level = match c.level {
        Some(level) => level as int,
        None => 0,
    };
    if c.content_id <= 0 || (level <= 0 && !in_table(p.owned, key)) {
        p
    } else {
        let q = owning(p, c.kind, c.area, c.content_id as int, now, "userSave"@);
        if level > 0 {
            let bonus = match c.reward_level {
                Some(level) => level,
                None => 0,
            };
            PlayerModel {
                levels: put(q.levels, key, level_row(get(q.levels, key), level as i64, bonus)),
                ..q
            }
        } else {
            q
        }
    }
}

/// An encore after a save.
pub open spec fn encore_row(before: Option<EncoreRow>, s: MusicStateSavePatch) -> EncoreRow {
    match before {
        Some(row) => EncoreRow {
            encore_appears: s.encore_appears,
            encore_follower_id: or_else(s.encore_follower_id, row.encore_follower_id),
            ..row
        },
        None => EncoreRow {
            encore_appears: s.encore_appears,
            encore_follower_id: s.encore_follower_id,
            encore_ready_at: 0,
            ch3_active_until: 0,
        },
    }
}

/// What a save says of an encore, taken over for music that is owned. The times
/// are the server's.
pub open spec fn encore_saved(p: PlayerModel, s: MusicStateSavePatch, now: i64) -> PlayerModel {
    if s.music_id <= 0 || !in_table(p.owned, content_at(ContentKind::Music, s.music_id as int)) {
        p
    } else {
        let key = k1(s.music_id as int);
        PlayerModel { encores: put(p.encores, key, encore_row(get(p.encores, key), s)), ..p }
    }
}

/// How far an achievement is after a save.
pub open spec fn achievement_row(
    before: Option<AchievementModel>,
    quantity: Real,
    text: Seq<char>,
    now: i64,
) -> AchievementModel {
    match before {
        Some(row) => AchievementModel {
            quantity: row.quantity.or_larger(quantity),
            quantity_text: if row.quantity.le(quantity) {
                text
            } else {
                row.quantity_text
            },
            updated_at: now,
        },
        None => AchievementModel { quantity, quantity_text: text, updated_at: now },
    }
}

/// What a save says of an achievement, taken over. The attendance is what was
/// counted.
pub open spec fn achievement_saved(p: PlayerModel, a: ProgressSavePatch, now: i64) -> PlayerModel {
    if a.id <= 0 || !a.quantity.amount() {
        p
    } else {
        let key = k1(a.id as int);
        let row = if a.id == ATTENDANCE_ACHIEVEMENT {
            AchievementModel {
                quantity: Real::of(p.attendance.count as int),
                quantity_text: decimal(p.attendance.count as int),
                updated_at: now,
            }
        } else {
            achievement_row(
                get(p.achievements, key),
                a.quantity,
                match opt_text(a.quantity_text) {
                    Some(text) => text,
                    None => "0"@,
                },
                now,
            )
        };
        PlayerModel { achievements: put(p.achievements, key, row), ..p }
    }
}

/// What a save says of a daily mission, taken over.
pub open spec fn mission_saved(p: PlayerModel, s: ProgressSavePatch, now: i64) -> PlayerModel {
    if s.id <= 0 || !s.quantity.amount() {
        p
    } else {
        let key = k1(s.id as int);
        let quantity = match get(p.daily_missions, key) {
            Some(row) => row.quantity.or_larger(s.quantity),
            None => s.quantity,
        };
        PlayerModel {
            daily_missions: put(p.daily_missions, key, DailyRow { quantity, updated_at: now }),
            ..p
        }
    }
}

/// A skill after a save.
pub open spec fn skill_row(before: Option<SkillState>, s: SkillActivationSavePatch) -> SkillState {
    match before {
        Some(row) => SkillState {
            active: if s.active_from >= row.active_from {
                s.active
            } else {
                row.active
            },
            active_from: max_int(row.active_from as int, s.active_from as int) as i64,
            active_until: max_int(row.active_until as int, s.active_until as int) as i64,
            ..row
        },
        None => SkillState {
            active: s.active,
            active_from: s.active_from,
            active_until: s.active_until,
            reset_ready_at: 0,
        },
    }
}

/// What a save says of a skill, taken over as far as it is newer.
pub open spec fn skill_saved(p: PlayerModel, s: SkillActivationSavePatch, now: i64) -> PlayerModel {
    if s.skill_id <= 0 {
        p
    } else {
        let key = k1(s.skill_id as int);
        PlayerModel { skills: put(p.skills, key, skill_row(get(p.skills, key), s)), ..p }
    }
}

/// A chat room after a save.
pub open spec fn room_row(before: Option<RoomModel>, s: MessengerSavePatch, now: i64) -> RoomModel {
    match before {
        Some(row) => RoomModel {
            last_confirm_index: max_int(
                row.last_confirm_index as int,
                s.last_confirm_index as int,
            ) as i64,
            unlock_group_list: if s.update_time_ticks >= row.update_time_ticks {
                s.unlock_group_list@
            } else {
                row.unlock_group_list
            },
            update_time_ticks: max_int(
                row.update_time_ticks as int,
                s.update_time_ticks as int,
            ) as i64,
            updated_at: now,
        },
        None => RoomModel {
            last_confirm_index: s.last_confirm_index,
            unlock_group_list: s.unlock_group_list@,
            update_time_ticks: s.update_time_ticks,
            updated_at: now,
        },
    }
}

/// What a save says of a chat room, taken over as far as it is newer.
pub open spec fn room_saved(p: PlayerModel, s: MessengerSavePatch, now: i64) -> PlayerModel {
    if s.room_id <= 0 {
        p
    } else {
        let key = k1(s.room_id as int);
        PlayerModel { rooms: put(p.rooms, key, room_row(get(p.rooms, key), s, now)), ..p }
    }
}

/// The highest step of a season whose goal the points reach.
pub open spec fn season_step(
    thresholds: Seq<(i64, i32, i64)>,
    season: i64,
    points: i64,
) -> Option<i32>
    decreases thresholds.len(),
{
    if thresholds.len() == 0 {
        None
    } else {
        let before = season_step(thresholds.drop_last(), season, points);
        let (of, step, goal) = thresholds.last();
        if of == season && goal <= points {
            match before {
                Some(best) => Some(max_int(best as int, step as int) as i32),
                None => Some(step),
            }
        } else {
            before
        }
    }
}

/// How far a season is when a client reports points: what is new counts several
/// times.
pub open spec fn pass_row(
    before: Option<PassRow>,
    s: PassProgressSavePatch,
    multiplier: int,
    thresholds: Seq<(i64, i32, i64)>,
) -> PassRow {
    let (had, step) = match before {
        Some(row) => (row.points, row.step as int),
        None => (0, 0),
    };
    let points = if s.points > had {
        clip64(had + clip64(clip64(s.points - had) * max_int(multiplier, 1)))
    } else {
        had
    };
    let inferred = match season_step(thresholds, s.season, points) {
        Some(best) => best as int,
        None => 0,
    };
    PassRow { points, step: max_int(max_int(step, s.step as int), inferred) as i32 }
}

/// What a save says of a season, taken over.
pub open spec fn pass_saved(
    p: PlayerModel,
    s: PassProgressSavePatch,
    multiplier: int,
    thresholds: Seq<(i64, i32, i64)>,
) -> PlayerModel {
    if !is_season(s.season as int) || s.points < 0 || s.version < 0 {
        p
    } else {
        let key = k2(s.season as int, s.version as int);
        PlayerModel {
            pass_progress: put(
                p.pass_progress,
                key,
                pass_row(get(p.pass_progress, key), s, multiplier, thresholds),
            ),
            ..p
        }
    }
}

/// A task that nobody has begun.
pub open spec fn untouched() -> ConditionRow {
    ConditionRow { quantity: Real { bits: ZERO }, claimed: false }
}

/// The stage of the guide that is current: the newest one, or the first.
pub open spec fn current_stage(p: PlayerModel) -> int {
    max_int(newest_stage(p.quests), 1)
}

/// The current stage of the guide, with its three tasks.
pub open spec fn guide_touched(p: PlayerModel, now: i64) -> PlayerModel {
    let stage = current_stage(p);
    let row = match get(p.quests, k1(stage)) {
        Some(row) => QuestRow { updated_at: now, ..row },
        None => QuestRow { completed: false, infinite: false, updated_at: now },
    };
    PlayerModel {
        quests: put(p.quests, k1(stage), row),
        conditions: put_new(
            put_new(
                put_new(p.conditions, k2(stage, 1), untouched()),
                k2(stage, 2),
                untouched(),
            ),
            k2(stage, 3),
            untouched(),
        ),
        ..p
    }
}

/// A task that a save says has come as far as `value`. What is no amount counts
/// for nothing, and what was claimed is the server's.
pub open spec fn task_reported(row: ConditionRow, value: Real) -> ConditionRow {
    if value.amount() {
        ConditionRow { quantity: row.quantity.or_larger(value), ..row }
    } else {
        row
    }
}

/// The tasks of a stage after a save says how far one of them is.
pub open spec fn conditions_reported(
    conditions: Seq<(Key, ConditionRow)>,
    stage: int,
    number: int,
    value: Real,
) -> Seq<(Key, ConditionRow)> {
    put(
        conditions,
        k2(stage, number),
        task_reported(task(conditions, stage, number), value),
    )
}

/// What a save says of the guide, taken over if it is about the current stage.
pub open spec fn guide_saved(p: PlayerModel, s: FollowerQuestSavePatch) -> PlayerModel {
    let stage = current_stage(p);
    if s.current_id != stage {
        p
    } else {
        PlayerModel {
            conditions: conditions_reported(
                conditions_reported(
                    conditions_reported(p.conditions, stage, 1, s.condition_values[0]),
                    stage,
                    2,
                    s.condition_values[1],
                ),
                stage,
                3,
                s.condition_values[2],
            ),
            ..p
        }
    }
}

pub open spec fn all_guide_saved(p: PlayerModel, list: Seq<FollowerQuestSavePatch>) -> PlayerModel
    decreases list.len(),
{
    if list.len() == 0 {
        p
    } else {
        guide_saved(all_guide_saved(p, list.drop_last()), list.last())
    }
}

pub open spec fn all_area_saved(p: PlayerModel, list: Seq<AreaSavePatch>, now: i64) -> PlayerModel
    decreases list.len(),
{
    if list.len() == 0 {
        p
    } else {
        area_saved(all_area_saved(p, list.drop_last(), now), list.last(), now)
    }
}

pub open spec fn all_content_saved(
    p: PlayerModel,
    list: Seq<ContentSavePatch>,
    now: i64,
) -> PlayerModel
    decreases list.len(),
{
    if list.len() == 0 {
        p
    } else {
        content_saved(all_content_saved(p, list.drop_last(), now), list.last(), now)
    }
}

pub open spec fn all_encore_saved(
    p: PlayerModel,
    list: Seq<MusicStateSavePatch>,
    now: i64,
) -> PlayerModel
    decreases list.len(),
{
    if list.len() == 0 {
        p
    } else {
        encore_saved(all_encore_saved(p, list.drop_last(), now), list.last(), now)
    }
}

pub open spec fn all_achievement_saved(
    p: PlayerModel,
    list: Seq<ProgressSavePatch>,
    now: i64,
) -> PlayerModel
    decreases list.len(),
{
    if list.len() == 0 {
        p
    } else {
        achievement_saved(all_achievement_saved(p, list.drop_last(), now), list.last(), now)
    }
}

pub open spec fn all_mission_saved(
    p: PlayerModel,
    list: Seq<ProgressSavePatch>,
    now: i64,
) -> PlayerModel
    decreases list.len(),
{
    if list.len() == 0 {
        p
    } else {
        mission_saved(all_mission_saved(p, list.drop_last(), now), list.last(), now)
    }
}

pub open spec fn all_skill_saved(
    p: PlayerModel,
    list: Seq<SkillActivationSavePatch>,
    now: i64,
) -> PlayerModel
    decreases list.len(),
{
    if list.len() == 0 {
        p
    } else {
        skill_saved(all_skill_saved(p, list.drop_last(), now), list.last(), now)
    }
}

pub open spec fn all_room_saved(
    p: PlayerModel,
    list: Seq<MessengerSavePatch>,
    now: i64,
) -> PlayerModel
    decreases list.len(),
{
    if list.len() == 0 {
        p
    } else {
        room_saved(all_room_saved(p, list.drop_last(), now), list.last(), now)
    }
}

pub open spec fn all_pass_saved(
    p: PlayerModel,
    list: Seq<PassProgressSavePatch>,
    multiplier: int,
    thresholds: Seq<(i64, i32, i64)>,
) -> PlayerModel
    decreases list.len(),
{
    if list.len() == 0 {
        p
    } else {
        pass_saved(
            all_pass_saved(p, list.drop_last(), multiplier, thresholds),
            list.last(),
            multiplier,
            thresholds,
        )
    }
}

/// A save taken over, up to what it says of content.
pub open spec fn inventory_saved(p: PlayerModel, s: UserSavePatch, now: i64) -> PlayerModel {
    let p = match s.core {
        Some(core) => core_saved(p, core, now),
        None => p,
    };
    let p = all_area_saved(p, s.areas@, now);
    let p = all_content_saved(p, s.content@, now);
    all_encore_saved(p, s.music_states@, now)
}

/// What a save says of how far things are, taken over.
pub open spec fn progress_saved(
    p: PlayerModel,
    s: UserSavePatch,
    multiplier: int,
    thresholds: Seq<(i64, i32, i64)>,
    now: i64,
) -> PlayerModel {
    let p = all_achievement_saved(p, s.achievements@, now);
    let p = all_mission_saved(p, s.daily_missions@, now);
    let p = all_skill_saved(p, s.skill_activations@, now);
    let p = all_room_saved(p, s.messengers@, now);
    all_pass_saved(p, s.pass_progress@, multiplier, thresholds)
}

/// A save taken over.
pub open spec fn saved(
    p: PlayerModel,
    s: UserSavePatch,
    multiplier: int,
    thresholds: Seq<(i64, i32, i64)>,
    now: i64,
) -> PlayerModel {
    let p = progress_saved(inventory_saved(p, s, now), s, multiplier, thresholds, now);
    let p = if s.follower_quests@.len() == 0 {
        p
    } else {
        all_guide_saved(guide_touched(p, now), s.follower_quests@)
    };
    PlayerModel { core: Core { last_save_time: now, ..p.core }, ..p }
}

impl Player {
    fn set_balance(&mut self, kind: CurrencyKind, v: Option<Real>)
        ensures
            final(self)@ == balance_set(old(self)@, kind, v),
    {
        if let Some(amount) = v {
            self.wallet.set(kind, amount);
        }
    }

    fn raise_fans(&mut self, v: Option<Real>)
        ensures
            final(self)@ == fans_raised(old(self)@, v),
    {
        if let Some(amount) = v {
            let fans = self.wallet.get(CurrencyKind::Fans).max(&amount);
            self.wallet.set(CurrencyKind::Fans, fans);
        }
    }

    fn save_core(&mut self, c: &CoreSavePatch, now: i64)
        ensures
            final(self)@ == core_saved(old(self)@, *c, now),
    {
        self.set_balance(CurrencyKind::Ch1Like, exec_given_amount(c.ch1_like));
        self.raise_fans(exec_given_count(c.fans));
        self.core.last_save_time = now;
        let known: Option<AreaRow> = match self.areas.get(key1(1)) {
            Some(row) => Some(row.0),
            None => None,
        };
        if let Some(row) = known {
            self.areas.put(
                key1(1),
                Plain(
                    AreaRow {
                        current_costume: exec_or_else(c.current_costume, row.current_costume),
                        current_music: exec_or_else(c.current_music, row.current_music),
                        ..row
                    },
                ),
            );
        }
    }

    fn save_area(&mut self, a: &AreaSavePatch, now: i64)
        ensures
            final(self)@ == area_saved(old(self)@, *a, now),
    {
        if a.area < 1 || a.area > 2 {
            return ;
        }
        let key = key1(a.area as i64);
        let row: AreaRow = match self.areas.get(key) {
            Some(row) => row.0,
            None => AreaRow {
                area_level: 1,
                fans: Real { bits: ZERO },
                candy: Real { bits: ZERO },
                current_costume: None,
                current_guitar: None,
                current_music: None,
                gp: Real { bits: ZERO },
                unlocked: a.area == 1,
            },
        };
        let fans = exec_given_count(a.fans);
        let candy = exec_given_amount(a.candy);
        self.areas.put(
            key,
            Plain(
                AreaRow {
                    area_level: match a.fan_level {
                        Some(level) => level,
                        None => row.area_level,
                    },
                    fans: match fans {
                        Some(fans) => fans,
                        None => row.fans,
                    },
                    candy: match candy {
                        Some(candy) => candy,
                        None => row.candy,
                    },
                    current_costume: exec_or_else(a.current_costume, row.current_costume),
                    current_guitar: exec_or_else(a.current_guitar, row.current_guitar),
                    current_music: exec_or_else(a.current_music, row.current_music),
                    ..row
                },
            ),
        );
        let likes = if a.area == 2 {
            CurrencyKind::Ch2Like
        } else {
            CurrencyKind::Ch1Like
        };
        self.set_balance(likes, exec_given_amount(a.like_amount));
        self.raise_fans(fans);
        if a.area == 1 {
            self.set_balance(CurrencyKind::Candy, candy);
            if let Some(level) = a.fan_level {
                if level > 0 {
                    self.core.fan_level = level;
                }
            }
        }
    }

    fn save_content(&mut self, c: &ContentSavePatch, now: i64)
        ensures
            final(self)@ == content_saved(old(self)@, *c, now),
    {
        let key = key2(c.kind.exec_rank(), c.content_id);
        let level: i64 = match c.level {
            Some(level) => level,
            None => 0,
        };
        if c.content_id <= 0 || (level <= 0 && !self.owned.contains(key)) {
            return ;
        }
        self.own(c.kind, c.area, c.content_id, now, "userSave");
        if level > 0 {
            let bonus: i64 = match c.reward_level {
                Some(level) => level,
                None => 0,
            };
            let row: LevelRow = match self.levels.get(key) {
                Some(row) => LevelRow {
                    level: max64(row.0.level, level),
                    reward_level: max64(row.0.reward_level, bonus),
                },
                None => LevelRow { level, reward_level: bonus },
            };
            self.levels.put(key, Plain(row));
        }
    }

    fn save_encore(&mut self, s: &MusicStateSavePatch, now: i64)
        ensures
            final(self)@ == encore_saved(old(self)@, *s, now),
    {
        if s.music_id <= 0 || !self.owned.contains(
            key2(ContentKind::Music.exec_rank(), s.music_id),
        ) {
            return ;
        }
        let key = key1(s.music_id);
        let row: EncoreRow = match self.encores.get(key) {
            Some(row) => EncoreRow {
                encore_appears: s.encore_appears,
                encore_follower_id: exec_or_else(s.encore_follower_id, row.0.encore_follower_id),
                ..row.0
            },
            None => EncoreRow {
                encore_appears: s.encore_appears,
                encore_follower_id: s.encore_follower_id,
                encore_ready_at: 0,
                ch3_active_until: 0,
            },
        };
        self.encores.put(key, Plain(row));
    }

    fn save_achievement(&mut self, a: &ProgressSavePatch, now: i64)
        ensures
            final(self)@ == achievement_saved(old(self)@, *a, now),
    {
        if a.id <= 0 || !a.quantity.is_amount() {
            return ;
        }
        let key = key1(a.id);
        if a.id == ATTENDANCE_ACHIEVEMENT {
            let count: i64 = self.attendance.count as i64;
            self.achievements.put(
                key,
                AchievementState {
                    quantity: Real::from_i64(count),
                    quantity_text: decimal_text(count),
                    updated_at: now,
                },
            );
            return ;
        }
        let text: String = match &a.quantity_text {
            Some(text) => text.clone(),
            None => "0".to_owned(),
        };
        let row: AchievementState = match self.achievements.get(key) {
            Some(row) => AchievementState {
                quantity: row.quantity.max(&a.quantity),
                quantity_text: if row.quantity.at_most(&a.quantity) {
                    text
                } else {
                    row.quantity_text.clone()
                },
                updated_at: now,
            },
            None => AchievementState { quantity: a.quantity, quantity_text: text, updated_at: now },
        };
        self.achievements.put(key, row);
    }

    fn save_mission(&mut self, s: &ProgressSavePatch, now: i64)
        ensures
            final(self)@ == mission_saved(old(self)@, *s, now),
    {
        if s.id <= 0 || !s.quantity.is_amount() {
            return ;
        }
        let quantity: Real = match self.daily_missions.get(key1(s.id)) {
            Some(row) => row.0.quantity.max(&s.quantity),
            None => s.quantity,
        };
        self.daily_missions.put(key1(s.id), Plain(DailyRow { quantity, updated_at: now }));
    }

    fn save_skill(&mut self, s: &SkillActivationSavePatch, now: i64)
        ensures
            final(self)@ == skill_saved(old(self)@, *s, now),
    {
        if s.skill_id <= 0 {
            return ;
        }
        let row: SkillState = match self.skills.get(key1(s.skill_id)) {
            Some(row) => SkillState {
                active: if s.active_from >= row.0.active_from {
                    s.active
                } else {
                    row.0.active
                },
                active_from: max64(row.0.active_from, s.active_from),
                active_until: max64(row.0.active_until, s.active_until),
                ..row.0
            },
            None => SkillState {
                active: s.active,
                active_from: s.active_from,
                active_until: s.active_until,
                reset_ready_at: 0,
            },
        };
        self.skills.put(key1(s.skill_id), Plain(row));
    }

    fn save_room(&mut self, s: &MessengerSavePatch, now: i64)
        ensures
            final(self)@ == room_saved(old(self)@, *s, now),
    {
        if s.room_id <= 0 {
            return ;
        }
        let row: RoomRow = match self.rooms.get(key1(s.room_id)) {
            Some(row) => RoomRow {
                last_confirm_index: max64(row.last_confirm_index, s.last_confirm_index),
                unlock_group_list: if s.update_time_ticks >= row.update_time_ticks {
                    s.unlock_group_list.clone()
                } else {
                    row.unlock_group_list.clone()
                },
                update_time_ticks: max64(row.update_time_ticks, s.update_time_ticks),
                updated_at: now,
            },
            None => RoomRow {
                last_confirm_index: s.last_confirm_index,
                unlock_group_list: s.unlock_group_list.clone(),
                update_time_ticks: s.update_time_ticks,
                updated_at: now,
            },
        };
        self.rooms.put(key1(s.room_id), row);
    }

    fn save_pass(
        &mut self,
        s: &PassProgressSavePatch,
        multiplier: i64,
        thresholds: &Vec<(i64, i32, i64)>,
    )
        ensures
            final(self)@ == pass_saved(old(self)@, *s, multiplier as int, thresholds@),
    {
        if s.season < 1 || s.season > 13 || s.points < 0 || s.version < 0 {
            return ;
        }
        let key = key2(s.season, s.version as i64);
        let before: PassRow = match self.pass_progress.get(key) {
            Some(row) => row.0,
            None => PassRow { points: 0, step: 0 },
        };
        let points: i64 = if s.points > before.points {
            saturating_add(
                before.points,
                saturating_mul(saturating_sub(s.points, before.points), max64(multiplier, 1)),
            )
        } else {
            before.points
        };
        let inferred: i32 = match exec_season_step(thresholds, s.season, points) {
            Some(best) => best,
            None => 0,
        };
        let step: i32 = max32(max32(before.step, s.step), inferred);
        self.pass_progress.put(key, Plain(PassRow { points, step }));
    }

    fn touch_guide(&mut self, now: i64)
        ensures
            final(self)@ == guide_touched(old(self)@, now),
    {
        let stage: i64 = max64(exec_newest_stage(&self.quests), 1);
        let row: QuestRow = match self.quests.get(key1(stage)) {
            Some(row) => QuestRow { updated_at: now, ..row.0 },
            None => QuestRow { completed: false, infinite: false, updated_at: now },
        };
        self.quests.put(key1(stage), Plain(row));
        let fresh = ConditionRow { quantity: Real { bits: ZERO }, claimed: false };
        self.conditions.put_new(key2(stage, 1), Plain(fresh));
        self.conditions.put_new(key2(stage, 2), Plain(fresh));
        self.conditions.put_new(key2(stage, 3), Plain(fresh));
    }

    fn report_task(&mut self, stage: i64, number: i64, value: Real)
        ensures
            final(self)@ == (PlayerModel {
                conditions: conditions_reported(
                    old(self)@.conditions,
                    stage as int,
                    number as int,
                    value,
                ),
                ..old(self)@
            }),
    {
        let row: ConditionRow = exec_task(&self.conditions, stage, number);
        let quantity: Real = if value.is_amount() {
            row.quantity.max(&value)
        } else {
            row.quantity
        };
        self.conditions.put(
            key2(stage, number),
            Plain(ConditionRow { quantity, claimed: row.claimed }),
        );
    }

    fn save_guide(&mut self, s: &FollowerQuestSavePatch)
        ensures
            final(self)@ == guide_saved(old(self)@, *s),
    {
        let stage: i64 = max64(exec_newest_stage(&self.quests), 1);
        if s.current_id == stage {
            self.report_task(stage, 1, s.condition_values[0]);
            self.report_task(stage, 2, s.condition_values[1]);
            self.report_task(stage, 3, s.condition_values[2]);
        }
    }

    fn save_guides(&mut self, list: &Vec<FollowerQuestSavePatch>)
        ensures
            final(self)@ == all_guide_saved(old(self)@, list@),
    {
        let ghost start = self@;
        let mut i: usize = 0;
        proof {
            assert(list@.take(0) =~= Seq::empty());
        }
        while i < list.len()
            invariant
                i <= list@.len(),
                self@ == all_guide_saved(start, list@.take(i as int)),
            decreases list@.len() - i,
        {
            proof {
                assert(list@.take(i + 1).drop_last() =~= list@.take(i as int));
            }
            self.save_guide(&list[i]);
            i = i + 1;
        }
        proof {
            assert(list@.take(i as int) =~= list@);
        }
    }

    fn save_areas(&mut self, list: &Vec<AreaSavePatch>, now: i64)
        ensures
            final(self)@ == all_area_saved(old(self)@, list@, now),
    {
        let ghost start = self@;
        let mut i: usize = 0;
        proof {
            assert(list@.take(0) =~= Seq::empty());
        }
        while i < list.len()
            invariant
                i <= list@.len(),
                self@ == all_area_saved(start, list@.take(i as int), now),
            decreases list@.len() - i,
        {
            proof {
                assert(list@.take(i + 1).drop_last() =~= list@.take(i as int));
            }
            self.save_area(&list[i], now);
            i = i + 1;
        }
        proof {
            assert(list@.take(i as int) =~= list@);
        }
    }

    fn save_contents(&mut self, list: &Vec<ContentSavePatch>, now: i64)
        ensures
            final(self)@ == all_content_saved(old(self)@, list@, now),
    {
        let ghost start = self@;
        let mut i: usize = 0;
        proof {
            assert(list@.take(0) =~= Seq::empty());
        }
        while i < list.len()
            invariant
                i <= list@.len(),
                self@ == all_content_saved(start, list@.take(i as int), now),
            decreases list@.len() - i,
        {
            proof {
                assert(list@.take(i + 1).drop_last() =~= list@.take(i as int));
            }
            self.save_content(&list[i], now);
            i = i + 1;
        }
        proof {
            assert(list@.take(i as int) =~= list@);
        }
    }

    fn save_encores(&mut self, list: &Vec<MusicStateSavePatch>, now: i64)
        ensures
            final(self)@ == all_encore_saved(old(self)@, list@, now),
    {
        let ghost start = self@;
        let mut i: usize = 0;
        proof {
            assert(list@.take(0) =~= Seq::empty());
        }
        while i < list.len()
            invariant
                i <= list@.len(),
                self@ == all_encore_saved(start, list@.take(i as int), now),
            decreases list@.len() - i,
        {
            proof {
                assert(list@.take(i + 1).drop_last() =~= list@.take(i as int));
            }
            self.save_encore(&list[i], now);
            i = i + 1;
        }
        proof {
            assert(list@.take(i as int) =~= list@);
        }
    }

    fn save_achievements(&mut self, list: &Vec<ProgressSavePatch>, now: i64)
        ensures
            final(self)@ == all_achievement_saved(old(self)@, list@, now),
    {
        let ghost start = self@;
        let mut i: usize = 0;
        proof {
            assert(list@.take(0) =~= Seq::empty());
        }
        while i < list.len()
            invariant
                i <= list@.len(),
                self@ == all_achievement_saved(start, list@.take(i as int), now),
            decreases list@.len() - i,
        {
            proof {
                assert(list@.take(i + 1).drop_last() =~= list@.take(i as int));
            }
            self.save_achievement(&list[i], now);
            i = i + 1;
        }
        proof {
            assert(list@.take(i as int) =~= list@);
        }
    }

    fn save_missions(&mut self, list: &Vec<ProgressSavePatch>, now: i64)
        ensures
            final(self)@ == all_mission_saved(old(self)@, list@, now),
    {
        let ghost start = self@;
        let mut i: usize = 0;
        proof {
            assert(list@.take(0) =~= Seq::empty());
        }
        while i < list.len()
            invariant
                i <= list@.len(),
                self@ == all_mission_saved(start, list@.take(i as int), now),
            decreases list@.len() - i,
        {
            proof {
                assert(list@.take(i + 1).drop_last() =~= list@.take(i as int));
            }
            self.save_mission(&list[i], now);
            i = i + 1;
        }
        proof {
            assert(list@.take(i as int) =~= list@);
        }
    }

    fn save_skills(&mut self, list: &Vec<SkillActivationSavePatch>, now: i64)
        ensures
            final(self)@ == all_skill_saved(old(self)@, list@, now),
    {
        let ghost start = self@;
        let mut i: usize = 0;
        proof {
            assert(list@.take(0) =~= Seq::empty());
        }
        while i < list.len()
            invariant
                i <= list@.len(),
                self@ == all_skill_saved(start, list@.take(i as int), now),
            decreases list@.len() - i,
        {
            proof {
                assert(list@.take(i + 1).drop_last() =~= list@.take(i as int));
            }
            self.save_skill(&list[i], now);
            i = i + 1;
        }
        proof {
            assert(list@.take(i as int) =~= list@);
        }
    }

    fn save_rooms(&mut self, list: &Vec<MessengerSavePatch>, now: i64)
        ensures
            final(self)@ == all_room_saved(old(self)@, list@, now),
    {
        let ghost start = self@;
        let mut i: usize = 0;
        proof {
            assert(list@.take(0) =~= Seq::empty());
        }
        while i < list.len()
            invariant
                i <= list@.len(),
                self@ == all_room_saved(start, list@.take(i as int), now),
            decreases list@.len() - i,
        {
            proof {
                assert(list@.take(i + 1).drop_last() =~= list@.take(i as int));
            }
            self.save_room(&list[i], now);
            i = i + 1;
        }
        proof {
            assert(list@.take(i as int) =~= list@);
        }
    }

    fn save_passes(
        &mut self,
        list: &Vec<PassProgressSavePatch>,
        multiplier: i64,
        thresholds: &Vec<(i64, i32, i64)>,
    )
        ensures
            final(self)@ == all_pass_saved(old(self)@, list@, multiplier as int, thresholds@),
    {
        let ghost start = self@;
        let mut i: usize = 0;
        proof {
            assert(list@.take(0) =~= Seq::empty());
        }
        while i < list.len()
            invariant
                i <= list@.len(),
                self@ == all_pass_saved(
                    start,
                    list@.take(i as int),
                    multiplier as int,
                    thresholds@,
                ),
            decreases list@.len() - i,
        {
            proof {
                assert(list@.take(i + 1).drop_last() =~= list@.take(i as int));
            }
            self.save_pass(&list[i], multiplier, thresholds);
            i = i + 1;
        }
        proof {
            assert(list@.take(i as int) =~= list@);
        }
    }
}

fn exec_season_step(thresholds: &Vec<(i64, i32, i64)>, season: i64, points: i64) -> (r: Option<i32>)
    ensures
        r == season_step(thresholds@, season, points),
{
    let mut r: Option<i32> = None;
    let mut i: usize = 0;
    proof {
        assert(thresholds@.take(0) =~= Seq::empty());
    }
    while i < thresholds.len()
        invariant
            i <= thresholds@.len(),
            r == season_step(thresholds@.take(i as int), season, points),
        decreases thresholds@.len() - i,
    {
        proof {
            assert(thresholds@.take(i + 1).drop_last() =~= thresholds@.take(i as int));
        }
        let (of, step, goal) = thresholds[i];
        if of == season && goal <= points {
            r =
            match r {
                Some(best) => Some(max32(best, step)),
                None => Some(step),
            };
        }
        i = i + 1;
    }
    proof {
        assert(thresholds@.take(i as int) =~= thresholds@);
    }
    r
}

/// Merging a save.
pub struct MergeSave<'a> {
    pub patch: &'a UserSavePatch,
    pub pass_point_multiplier: i64,
    pub pass_thresholds: Vec<(i64, i32, i64)>,
}

pub open spec fn save_effect(
    p: PlayerModel,
    m: Mutation,
    patch: UserSavePatch,
    multiplier: i64,
    thresholds: Seq<(i64, i32, i64)>,
) -> Effect {
    answered(saved(p, patch, multiplier as int, thresholds, m.now), Outcome::Text("Y"@))
}

impl<'a> Command for MergeSave<'a> {
    open spec fn valid(&self) -> bool {
        true
    }

    open spec fn effect(&self, p: PlayerModel, m: Mutation, rules: Rules) -> Effect {
        save_effect(p, m, *self.patch, self.pass_point_multiplier, self.pass_thresholds@)
    }

    proof fn keeps_order(&self, p: PlayerModel, m: Mutation, rules: Rules) {
        broadcast use group_keyed;

        lemma_saved(
            p,
            *self.patch,
            self.pass_point_multiplier as int,
            self.pass_thresholds@,
            m.now,
        );
    }

    fn run(&self, p: &mut Player, m: &RpcMutation, rules: &RewardRules) -> (r: Result<
        (Summary, Summary),
        StoreError,
    >) {
        let now: i64 = m.committed_at;
        let s = self.patch;
        if let Some(core) = &s.core {
            p.save_core(core, now);
        }
        p.save_areas(&s.areas, now);
        p.save_contents(&s.content, now);
        p.save_encores(&s.music_states, now);
        p.save_achievements(&s.achievements, now);
        p.save_missions(&s.daily_missions, now);
        p.save_skills(&s.skill_activations, now);
        p.save_rooms(&s.messengers, now);
        p.save_passes(&s.pass_progress, self.pass_point_multiplier, &self.pass_thresholds);
        if s.follower_quests.len() > 0 {
            p.touch_guide(now);
            p.save_guides(&s.follower_quests);
        }
        p.core.last_save_time = now;
        Ok((Summary::Text("Y".to_owned()), Summary::Text("Y".to_owned())))
    }
}

/// Whether a quantity is a number.
pub open spec fn numeric(q: Real) -> bool {
    q.le(q)
}

/// Whether a quantity that is a number did not fall.
pub open spec fn not_fallen(before: Option<Real>, after: Option<Real>) -> bool {
    match before {
        Some(x) => numeric(x) ==> match after {
            Some(y) => x.le(y),
            None => false,
        },
        None => true,
    }
}

pub open spec fn mission_at(p: PlayerModel, key: Key) -> Option<Real> {
    match get(p.daily_missions, key) {
        Some(row) => Some(row.quantity),
        None => None,
    }
}

pub open spec fn achievement_at(p: PlayerModel, key: Key) -> Option<Real> {
    match get(p.achievements, key) {
        Some(row) => Some(row.quantity),
        None => None,
    }
}

pub open spec fn unlocked_at(p: PlayerModel, key: Key) -> bool {
    match get(p.areas, key) {
        Some(row) => row.unlocked,
        None => false,
    }
}

/// How many fans a player has.
pub open spec fn fans_of(p: PlayerModel) -> Option<Real> {
    Some(p.wallet.balance(CurrencyKind::Fans))
}

pub open spec fn task_at(p: PlayerModel, key: Key) -> Option<Real> {
    match get(p.conditions, key) {
        Some(row) => Some(row.quantity),
        None => None,
    }
}

/// Whether a task was claimed.
pub open spec fn claimed_at(p: PlayerModel, key: Key) -> bool {
    match get(p.conditions, key) {
        Some(row) => row.claimed,
        None => false,
    }
}

/// Whether the times of a skill did not go back.
pub open spec fn skill_kept(p: PlayerModel, q: PlayerModel, key: Key) -> bool {
    match get(p.skills, key) {
        Some(x) => match get(q.skills, key) {
            Some(y) => x.active_from <= y.active_from && x.active_until <= y.active_until
                && x.reset_ready_at == y.reset_ready_at,
            None => false,
        },
        None => true,
    }
}

/// Whether a chat room did not go back.
pub open spec fn room_kept(p: PlayerModel, q: PlayerModel, key: Key) -> bool {
    match get(p.rooms, key) {
        Some(x) => match get(q.rooms, key) {
            Some(y) => x.last_confirm_index <= y.last_confirm_index && x.update_time_ticks
                <= y.update_time_ticks,
            None => false,
        },
        None => true,
    }
}

/// Whether the times of an encore are what they were.
pub open spec fn encore_kept(p: PlayerModel, q: PlayerModel, key: Key) -> bool {
    match get(p.encores, key) {
        Some(x) => match get(q.encores, key) {
            Some(y) => x.encore_ready_at == y.encore_ready_at && x.ch3_active_until
                == y.ch3_active_until,
            None => false,
        },
        None => true,
    }
}

/// Whether a stage of the guide is as far as it was, its tasks not less far, and
/// claimed where they were.
pub open spec fn guide_kept(p: PlayerModel, q: PlayerModel, key: Key) -> bool {
    &&& match get(p.quests, key) {
        Some(x) => match get(q.quests, key) {
            Some(y) => x.completed == y.completed && x.infinite == y.infinite,
            None => false,
        },
        None => true,
    }
    &&& not_fallen(task_at(p, key), task_at(q, key))
    &&& claimed_at(p, key) == claimed_at(q, key)
}

/// Whether what one player has reached, another has reached too: content and its
/// levels, missions, achievements, fans, the pass, the attendance, the guide, chat
/// rooms and the times of skills and encores; and no channel but the first was
/// unlocked.
pub open spec fn nothing_lost(p: PlayerModel, q: PlayerModel, key: Key) -> bool {
    &&& in_table(p.owned, key) ==> in_table(q.owned, key)
    &&& match get(p.levels, key) {
        Some(x) => match get(q.levels, key) {
            Some(y) => x.level <= y.level && x.reward_level <= y.reward_level,
            None => false,
        },
        None => true,
    }
    &&& not_fallen(mission_at(p, key), mission_at(q, key))
    &&& key == k1(ATTENDANCE_ACHIEVEMENT as int) || not_fallen(
        achievement_at(p, key),
        achievement_at(q, key),
    )
    &&& match get(p.pass_progress, key) {
        Some(x) => match get(q.pass_progress, key) {
            Some(y) => x.points <= y.points && x.step <= y.step,
            None => false,
        },
        None => true,
    }
    &&& q.attendance == p.attendance && q.attendance_days == p.attendance_days
    &&& unlocked_at(p, key) ==> unlocked_at(q, key)
    &&& unlocked_at(q, key) ==> unlocked_at(p, key) || key == k1(1)
    &&& not_fallen(fans_of(p), fans_of(q))
    &&& skill_kept(p, q, key)
    &&& room_kept(p, q, key)
    &&& encore_kept(p, q, key)
    &&& guide_kept(p, q, key)
}

proof fn lemma_fans_raised(p: PlayerModel, v: Option<Real>)
    ensures
        not_fallen(fans_of(p), fans_of(fans_raised(p, v))),
{
    if let Some(amount) = v {
        lemma_or_larger(p.wallet.balance(CurrencyKind::Fans), amount);
    }
}

proof fn lemma_core_keeps(p: PlayerModel, c: CoreSavePatch, now: i64, key: Key)
    ensures
        nothing_lost(p, core_saved(p, c, now), key),
{
    lemma_fans_raised(
        balance_set(p, CurrencyKind::Ch1Like, given_amount(c.ch1_like)),
        given_count(c.fans),
    );
    if let Some(row) = get(p.areas, k1(1)) {
        law_get_put(
            p.areas,
            k1(1),
            AreaRow {
                current_costume: or_else(c.current_costume, row.current_costume),
                current_music: or_else(c.current_music, row.current_music),
                ..row
            },
            key,
        );
    }
}

proof fn lemma_all_area_saved_keeps(p: PlayerModel, list: Seq<AreaSavePatch>, now: i64, key: Key)
    ensures
        nothing_lost(p, all_area_saved(p, list, now), key),
    decreases list.len(),
{
    if list.len() > 0 {
        lemma_all_area_saved_keeps(p, list.drop_last(), now, key);
        let q = all_area_saved(p, list.drop_last(), now);
        let a = list.last();
        let at = k1(a.area as int);
        law_get_put(q.areas, at, area_row(get(q.areas, at), a), key);
        let likes = if a.area == 2 {
            CurrencyKind::Ch2Like
        } else {
            CurrencyKind::Ch1Like
        };
        lemma_fans_raised(
            balance_set(
                PlayerModel { areas: put(q.areas, at, area_row(get(q.areas, at), a)), ..q },
                likes,
                given_amount(a.like_amount),
            ),
            given_count(a.fans),
        );
    }
}

proof fn lemma_all_content_saved_keeps(
    p: PlayerModel,
    list: Seq<ContentSavePatch>,
    now: i64,
    key: Key,
)
    ensures
        nothing_lost(p, all_content_saved(p, list, now), key),
    decreases list.len(),
{
    if list.len() > 0 {
        lemma_all_content_saved_keeps(p, list.drop_last(), now, key);
        let q = all_content_saved(p, list.drop_last(), now);
        let c = list.last();
        let at = content_at(c.kind, c.content_id as int);
        let level = match c.level {
            Some(level) => level,
            None => 0,
        };
        let bonus = match c.reward_level {
            Some(level) => level,
            None => 0,
        };
        law_get_put(
            q.owned,
            at,
            OwnedModel { area: c.area, acquired_at: now, source: "userSave"@ },
            key,
        );
        law_get_put(q.levels, at, level_row(get(q.levels, at), level, bonus), key);
    }
}

proof fn lemma_all_encore_saved_keeps(
    p: PlayerModel,
    list: Seq<MusicStateSavePatch>,
    now: i64,
    key: Key,
)
    ensures
        nothing_lost(p, all_encore_saved(p, list, now), key),
    decreases list.len(),
{
    if list.len() > 0 {
        lemma_all_encore_saved_keeps(p, list.drop_last(), now, key);
        let q = all_encore_saved(p, list.drop_last(), now);
        let s = list.last();
        let at = k1(s.music_id as int);
        law_get_put(q.encores, at, encore_row(get(q.encores, at), s), key);
    }
}

proof fn lemma_all_achievement_saved_keeps(
    p: PlayerModel,
    list: Seq<ProgressSavePatch>,
    now: i64,
    key: Key,
)
    ensures
        nothing_lost(p, all_achievement_saved(p, list, now), key),
    decreases list.len(),
{
    if list.len() > 0 {
        lemma_all_achievement_saved_keeps(p, list.drop_last(), now, key);
        let q = all_achievement_saved(p, list.drop_last(), now);
        let a = list.last();
        let at = k1(a.id as int);
        let text = match opt_text(a.quantity_text) {
            Some(text) => text,
            None => "0"@,
        };
        if a.id == ATTENDANCE_ACHIEVEMENT {
            law_get_put(
                q.achievements,
                at,
                AchievementModel {
                    quantity: Real::of(q.attendance.count as int),
                    quantity_text: decimal(q.attendance.count as int),
                    updated_at: now,
                },
                key,
            );
        } else {
            law_get_put(
                q.achievements,
                at,
                achievement_row(get(q.achievements, at), a.quantity, text, now),
                key,
            );
            if let Some(row) = get(q.achievements, at) {
                lemma_or_larger(row.quantity, a.quantity);
            }
        }
    }
}

proof fn lemma_all_mission_saved_keeps(
    p: PlayerModel,
    list: Seq<ProgressSavePatch>,
    now: i64,
    key: Key,
)
    ensures
        nothing_lost(p, all_mission_saved(p, list, now), key),
    decreases list.len(),
{
    if list.len() > 0 {
        lemma_all_mission_saved_keeps(p, list.drop_last(), now, key);
        let q = all_mission_saved(p, list.drop_last(), now);
        let s = list.last();
        let at = k1(s.id as int);
        let quantity = match get(q.daily_missions, at) {
            Some(row) => row.quantity.or_larger(s.quantity),
            None => s.quantity,
        };
        law_get_put(q.daily_missions, at, DailyRow { quantity, updated_at: now }, key);
        if let Some(row) = get(q.daily_missions, at) {
            lemma_or_larger(row.quantity, s.quantity);
        }
    }
}

proof fn lemma_all_skill_saved_keeps(
    p: PlayerModel,
    list: Seq<SkillActivationSavePatch>,
    now: i64,
    key: Key,
)
    ensures
        nothing_lost(p, all_skill_saved(p, list, now), key),
    decreases list.len(),
{
    if list.len() > 0 {
        lemma_all_skill_saved_keeps(p, list.drop_last(), now, key);
        let q = all_skill_saved(p, list.drop_last(), now);
        let at = k1(list.last().skill_id as int);
        law_get_put(q.skills, at, skill_row(get(q.skills, at), list.last()), key);
    }
}

proof fn lemma_all_room_saved_keeps(
    p: PlayerModel,
    list: Seq<MessengerSavePatch>,
    now: i64,
    key: Key,
)
    ensures
        nothing_lost(p, all_room_saved(p, list, now), key),
    decreases list.len(),
{
    if list.len() > 0 {
        lemma_all_room_saved_keeps(p, list.drop_last(), now, key);
        let q = all_room_saved(p, list.drop_last(), now);
        let at = k1(list.last().room_id as int);
        law_get_put(q.rooms, at, room_row(get(q.rooms, at), list.last(), now), key);
    }
}

proof fn lemma_or_larger(a: Real, b: Real)
    ensures
        numeric(a) ==> a.le(a.or_larger(b)),
{
    lemma_num_bits(a);
    lemma_num_bits(b);
}

proof fn lemma_num_bits(a: Real)
    ensures
        Real::from_num(a.num()).num() == a.num(),
{
}

proof fn lemma_pass_keeps(
    p: PlayerModel,
    list: Seq<PassProgressSavePatch>,
    multiplier: int,
    thresholds: Seq<(i64, i32, i64)>,
    key: Key,
)
    ensures
        nothing_lost(p, all_pass_saved(p, list, multiplier, thresholds), key),
    decreases list.len(),
{
    if list.len() > 0 {
        lemma_pass_keeps(p, list.drop_last(), multiplier, thresholds, key);
        let q = all_pass_saved(p, list.drop_last(), multiplier, thresholds);
        let s = list.last();
        let at = k2(s.season as int, s.version as int);
        let had = match get(q.pass_progress, at) {
            Some(row) => row.points as int,
            None => 0,
        };
        if s.points > had {
            let gain = clip64(s.points - had);
            assert(gain * max_int(multiplier, 1) >= 0) by (nonlinear_arith)
                requires
                    gain >= 0,
            ;
        }
        law_get_put(
            q.pass_progress,
            at,
            pass_row(get(q.pass_progress, at), s, multiplier, thresholds),
            key,
        );
    }
}

proof fn lemma_touched_keeps(p: PlayerModel, now: i64, key: Key)
    ensures
        nothing_lost(p, guide_touched(p, now), key),
{
    let stage = current_stage(p);
    let row = match get(p.quests, k1(stage)) {
        Some(row) => QuestRow { updated_at: now, ..row },
        None => QuestRow { completed: false, infinite: false, updated_at: now },
    };
    law_get_put(p.quests, k1(stage), row, key);
    let first = put_new(p.conditions, k2(stage, 1), untouched());
    let second = put_new(first, k2(stage, 2), untouched());
    law_get_put(p.conditions, k2(stage, 1), untouched(), key);
    law_get_put(first, k2(stage, 2), untouched(), key);
    law_get_put(second, k2(stage, 3), untouched(), key);
}

/// Whether the tasks of one list are as far in another, and claimed where they
/// were.
spec fn tasks_kept(
    before: Seq<(Key, ConditionRow)>,
    after: Seq<(Key, ConditionRow)>,
    key: Key,
) -> bool {
    match get(before, key) {
        Some(x) => get(after, key) is Some && (numeric(x.quantity) ==> x.quantity.le(
            get(after, key)->Some_0.quantity,
        )) && get(after, key)->Some_0.claimed == x.claimed,
        None => get(after, key) is Some ==> !get(after, key)->Some_0.claimed,
    }
}

proof fn lemma_reported_keeps(
    conditions: Seq<(Key, ConditionRow)>,
    stage: int,
    number: int,
    value: Real,
    key: Key,
)
    ensures
        tasks_kept(conditions, conditions_reported(conditions, stage, number, value), key),
{
    let row = task(conditions, stage, number);
    law_get_put(conditions, k2(stage, number), task_reported(row, value), key);
    lemma_or_larger(row.quantity, value);
}

proof fn lemma_all_guide_saved_keeps(
    p: PlayerModel,
    list: Seq<FollowerQuestSavePatch>,
    key: Key,
)
    ensures
        nothing_lost(p, all_guide_saved(p, list), key),
    decreases list.len(),
{
    if list.len() > 0 {
        lemma_all_guide_saved_keeps(p, list.drop_last(), key);
        let q = all_guide_saved(p, list.drop_last());
        let values = list.last().condition_values;
        let stage = current_stage(q);
        let first = conditions_reported(q.conditions, stage, 1, values[0]);
        let second = conditions_reported(first, stage, 2, values[1]);
        lemma_reported_keeps(q.conditions, stage, 1, values[0], key);
        lemma_reported_keeps(first, stage, 2, values[1], key);
        lemma_reported_keeps(second, stage, 3, values[2], key);
    }
}

/// A save never loses what was reached before, and never unlocks a channel.
pub proof fn law_save_loses_nothing(
    p: PlayerModel,
    s: UserSavePatch,
    multiplier: int,
    thresholds: Seq<(i64, i32, i64)>,
    now: i64,
    key: Key,
)
    ensures
        nothing_lost(p, saved(p, s, multiplier, thresholds, now), key),
{
    let p1 = match s.core {
        Some(core) => core_saved(p, core, now),
        None => p,
    };
    if let Some(core) = s.core {
        lemma_core_keeps(p, core, now, key);
    }
    lemma_all_area_saved_keeps(p1, s.areas@, now, key);
    let p2 = all_area_saved(p1, s.areas@, now);
    lemma_all_content_saved_keeps(p2, s.content@, now, key);
    let p3 = all_content_saved(p2, s.content@, now);
    lemma_all_encore_saved_keeps(p3, s.music_states@, now, key);
    let p4 = all_encore_saved(p3, s.music_states@, now);
    lemma_all_achievement_saved_keeps(p4, s.achievements@, now, key);
    let p5 = all_achievement_saved(p4, s.achievements@, now);
    lemma_all_mission_saved_keeps(p5, s.daily_missions@, now, key);
    let p6 = all_mission_saved(p5, s.daily_missions@, now);
    lemma_all_skill_saved_keeps(p6, s.skill_activations@, now, key);
    let p7 = all_skill_saved(p6, s.skill_activations@, now);
    lemma_all_room_saved_keeps(p7, s.messengers@, now, key);
    let p8 = all_room_saved(p7, s.messengers@, now);
    lemma_pass_keeps(p8, s.pass_progress@, multiplier, thresholds, key);
    let p9 = all_pass_saved(p8, s.pass_progress@, multiplier, thresholds);
    lemma_touched_keeps(p9, now, key);
    lemma_all_guide_saved_keeps(guide_touched(p9, now), s.follower_quests@, key);
}

proof fn lemma_guide_spares(p: PlayerModel, list: Seq<FollowerQuestSavePatch>)
    ensures
        all_guide_saved(p, list).wallet == p.wallet,
    decreases list.len(),
{
    if list.len() > 0 {
        lemma_guide_spares(p, list.drop_last());
    }
}

/// What a save says of the guide counts for the current stage alone: a save that
/// names no current stage leaves every task as it was.
pub proof fn law_other_stages_ignored(p: PlayerModel, list: Seq<FollowerQuestSavePatch>)
    requires
        forall|i: int|
            0 <= i < list.len() ==> (#[trigger] list[i]).current_id != current_stage(p),
    ensures
        all_guide_saved(p, list) == p,
    decreases list.len(),
{
    if list.len() > 0 {
        let front = list.drop_last();
        assert forall|i: int| 0 <= i < front.len() implies (#[trigger] front[i]).current_id
            != current_stage(p) by {
            assert(front[i] == list[i]);
        }
        law_other_stages_ignored(p, front);
        assert(list.last() == list[list.len() - 1]);
    }
}

/// A save that names the current stage brings each of its tasks at least as far as
/// it says, wherever it says an amount.
pub proof fn law_saved_task_counts(p: PlayerModel, s: FollowerQuestSavePatch, number: int)
    requires
        s.current_id == current_stage(p),
        1 <= number <= 3,
        s.condition_values[number - 1].amount(),
    ensures
        ({
            let before = task(p.conditions, current_stage(p), number);
            let after = task(guide_saved(p, s).conditions, current_stage(p), number);
            &&& after.quantity == before.quantity.or_larger(s.condition_values[number - 1])
            &&& s.condition_values[number - 1].le(after.quantity)
            &&& after.claimed == before.claimed
        }),
{
    let stage = current_stage(p);
    let values = s.condition_values;
    let first = conditions_reported(p.conditions, stage, 1, values[0]);
    let second = conditions_reported(first, stage, 2, values[1]);
    let key = k2(stage, number);
    let row1 = task_reported(task(p.conditions, stage, 1), values[0]);
    let row2 = task_reported(task(first, stage, 2), values[1]);
    let row3 = task_reported(task(second, stage, 3), values[2]);
    law_get_put(p.conditions, k2(stage, 1), row1, key);
    law_get_put(p.conditions, k2(stage, 1), row1, k2(stage, 2));
    law_get_put(p.conditions, k2(stage, 1), row1, k2(stage, 3));
    law_get_put(first, k2(stage, 2), row2, key);
    law_get_put(first, k2(stage, 2), row2, k2(stage, 3));
    law_get_put(second, k2(stage, 3), row3, key);
    let before = task(p.conditions, stage, number);
    lemma_num_bits(before.quantity);
    lemma_num_bits(values[number - 1]);
}

/// What a save has brought far enough can be claimed, whatever the claim itself
/// reports.
pub proof fn law_saved_progress_claims(
    p: PlayerModel,
    s: FollowerQuestSavePatch,
    number: int,
    value: Real,
    threshold: Real,
)
    requires
        s.current_id == current_stage(p),
        1 <= number <= 3,
        s.condition_values[number - 1].amount(),
        threshold.le(s.condition_values[number - 1]),
        !task(p.conditions, current_stage(p), number).claimed,
    ensures
        task_due(guide_saved(p, s).conditions, current_stage(p), number, value, threshold),
{
    law_saved_task_counts(p, s, number);
    let after = task(guide_saved(p, s).conditions, current_stage(p), number);
    lemma_or_larger(after.quantity, value);
    lemma_tasks_present(p, s, number);
}

proof fn lemma_tasks_present(p: PlayerModel, s: FollowerQuestSavePatch, number: int)
    requires
        s.current_id == current_stage(p),
        1 <= number <= 3,
    ensures
        get(guide_saved(p, s).conditions, k2(current_stage(p), number)) is Some,
{
    let stage = current_stage(p);
    let values = s.condition_values;
    let first = conditions_reported(p.conditions, stage, 1, values[0]);
    let second = conditions_reported(first, stage, 2, values[1]);
    let key = k2(stage, number);
    law_get_put(
        p.conditions,
        k2(stage, 1),
        task_reported(task(p.conditions, stage, 1), values[0]),
        key,
    );
    law_get_put(first, k2(stage, 2), task_reported(task(first, stage, 2), values[1]), key);
    law_get_put(second, k2(stage, 3), task_reported(task(second, stage, 3), values[2]), key);
}

/// Balances that a save takes over are exactly what it says: the likes that it
/// names last are the likes of the player.
pub proof fn law_save_sets_likes(p: PlayerModel, c: CoreSavePatch, now: i64)
    requires
        c.ch1_like matches Some(likes) && likes.amount(),
    ensures
        core_saved(p, c, now).wallet.balance(CurrencyKind::Ch1Like) == c.ch1_like->Some_0,
{
}

/// The balances that a save cannot change.
pub open spec fn out_of_reach(kind: CurrencyKind) -> bool {
    kind == CurrencyKind::Chocolate || kind == CurrencyKind::Ch2Note || kind
        == CurrencyKind::Gingerbread || kind == CurrencyKind::ChocoMilk
}

proof fn lemma_all_area_saved_pays(
    p: PlayerModel,
    list: Seq<AreaSavePatch>,
    now: i64,
    kind: CurrencyKind,
)
    requires
        out_of_reach(kind),
    ensures
        all_area_saved(p, list, now).wallet.balance(kind) == p.wallet.balance(kind),
    decreases list.len(),
{
    if list.len() > 0 {
        lemma_all_area_saved_pays(p, list.drop_last(), now, kind);
    }
}

proof fn lemma_all_content_saved_pays(
    p: PlayerModel,
    list: Seq<ContentSavePatch>,
    now: i64,
    kind: CurrencyKind,
)
    requires
        out_of_reach(kind),
    ensures
        all_content_saved(p, list, now).wallet.balance(kind) == p.wallet.balance(kind),
    decreases list.len(),
{
    if list.len() > 0 {
        lemma_all_content_saved_pays(p, list.drop_last(), now, kind);
    }
}

proof fn lemma_all_encore_saved_pays(
    p: PlayerModel,
    list: Seq<MusicStateSavePatch>,
    now: i64,
    kind: CurrencyKind,
)
    requires
        out_of_reach(kind),
    ensures
        all_encore_saved(p, list, now).wallet.balance(kind) == p.wallet.balance(kind),
    decreases list.len(),
{
    if list.len() > 0 {
        lemma_all_encore_saved_pays(p, list.drop_last(), now, kind);
    }
}

proof fn lemma_all_achievement_saved_pays(
    p: PlayerModel,
    list: Seq<ProgressSavePatch>,
    now: i64,
    kind: CurrencyKind,
)
    requires
        out_of_reach(kind),
    ensures
        all_achievement_saved(p, list, now).wallet.balance(kind) == p.wallet.balance(kind),
    decreases list.len(),
{
    if list.len() > 0 {
        lemma_all_achievement_saved_pays(p, list.drop_last(), now, kind);
    }
}

proof fn lemma_all_mission_saved_pays(
    p: PlayerModel,
    list: Seq<ProgressSavePatch>,
    now: i64,
    kind: CurrencyKind,
)
    requires
        out_of_reach(kind),
    ensures
        all_mission_saved(p, list, now).wallet.balance(kind) == p.wallet.balance(kind),
    decreases list.len(),
{
    if list.len() > 0 {
        lemma_all_mission_saved_pays(p, list.drop_last(), now, kind);
    }
}

proof fn lemma_all_skill_saved_pays(
    p: PlayerModel,
    list: Seq<SkillActivationSavePatch>,
    now: i64,
    kind: CurrencyKind,
)
    requires
        out_of_reach(kind),
    ensures
        all_skill_saved(p, list, now).wallet.balance(kind) == p.wallet.balance(kind),
    decreases list.len(),
{
    if list.len() > 0 {
        lemma_all_skill_saved_pays(p, list.drop_last(), now, kind);
    }
}

proof fn lemma_all_room_saved_pays(
    p: PlayerModel,
    list: Seq<MessengerSavePatch>,
    now: i64,
    kind: CurrencyKind,
)
    requires
        out_of_reach(kind),
    ensures
        all_room_saved(p, list, now).wallet.balance(kind) == p.wallet.balance(kind),
    decreases list.len(),
{
    if list.len() > 0 {
        lemma_all_room_saved_pays(p, list.drop_last(), now, kind);
    }
}

proof fn lemma_pass_pays(
    p: PlayerModel,
    list: Seq<PassProgressSavePatch>,
    multiplier: int,
    thresholds: Seq<(i64, i32, i64)>,
    kind: CurrencyKind,
)
    ensures
        all_pass_saved(p, list, multiplier, thresholds).wallet.balance(kind) == p.wallet.balance(
            kind,
        ),
    decreases list.len(),
{
    if list.len() > 0 {
        lemma_pass_pays(p, list.drop_last(), multiplier, thresholds, kind);
    }
}

/// A save never changes the balances that are the server's alone.
pub proof fn law_save_spares_balances(
    p: PlayerModel,
    s: UserSavePatch,
    multiplier: int,
    thresholds: Seq<(i64, i32, i64)>,
    now: i64,
    kind: CurrencyKind,
)
    requires
        out_of_reach(kind),
    ensures
        saved(p, s, multiplier, thresholds, now).wallet.balance(kind) == p.wallet.balance(kind),
{
    let p1 = match s.core {
        Some(core) => core_saved(p, core, now),
        None => p,
    };
    lemma_all_area_saved_pays(p1, s.areas@, now, kind);
    let p2 = all_area_saved(p1, s.areas@, now);
    lemma_all_content_saved_pays(p2, s.content@, now, kind);
    let p3 = all_content_saved(p2, s.content@, now);
    lemma_all_encore_saved_pays(p3, s.music_states@, now, kind);
    let p4 = all_encore_saved(p3, s.music_states@, now);
    lemma_all_achievement_saved_pays(p4, s.achievements@, now, kind);
    let p5 = all_achievement_saved(p4, s.achievements@, now);
    lemma_all_mission_saved_pays(p5, s.daily_missions@, now, kind);
    let p6 = all_mission_saved(p5, s.daily_missions@, now);
    lemma_all_skill_saved_pays(p6, s.skill_activations@, now, kind);
    let p7 = all_skill_saved(p6, s.skill_activations@, now);
    lemma_all_room_saved_pays(p7, s.messengers@, now, kind);
    let p8 = all_room_saved(p7, s.messengers@, now);
    lemma_pass_pays(p8, s.pass_progress@, multiplier, thresholds, kind);
    let p9 = all_pass_saved(p8, s.pass_progress@, multiplier, thresholds);
    lemma_guide_spares(guide_touched(p9, now), s.follower_quests@);
}

} // verus!
