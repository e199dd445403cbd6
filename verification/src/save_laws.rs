//! What a save of a client means for its player.
use crate::command::{Command, Mutation, Rules};
use crate::domain::{
    AreaSavePatch, ContentKind, ContentSavePatch, CoreSavePatch, CurrencyKind,
    FollowerQuestSavePatch, MessengerSavePatch, MusicStateSavePatch, PassProgressSavePatch,
    ProgressSavePatch, SkillActivationSavePatch, UserSavePatch,
};
use crate::number::{Real, ZERO};
use crate::outcome::Outcome;
use crate::player::PlayerModel;
use crate::rounding::lemma_two_values;
use crate::rows::{
    AchievementModel, AreaRow, ConditionRow, Core, DailyRow, LevelRow, OwnedModel, QuestRow,
};
use crate::save::{
    achievement_row, achievement_saved, all_achievement_saved, all_area_saved, all_content_saved,
    all_encore_saved, all_guide_saved, all_mission_saved, all_pass_saved, all_room_saved,
    all_skill_saved, area_row, area_saved, content_saved, core_saved, current_stage, encore_row,
    encore_saved, guide_touched, mission_saved, pass_row, pass_saved, room_row, room_saved, saved,
    season_step, skill_row, skill_saved, untouched, MergeSave,
};
use crate::table::{get, k1, k2, law_get_put, put_new, Key};
use crate::text::{decimal, opt_text};
use vstd::prelude::*;

verus! {

/// Whether a save says of the content at a key that it has a level.
pub open spec fn says_level(c: ContentSavePatch, key: Key) -> bool {
    c.content_id > 0 && (c.level matches Some(level) && level > 0) && key == k2(
        c.kind.rank() as int,
        c.content_id as int,
    )
}

/// The bonus level that a save says, zero where it says none.
pub open spec fn said_bonus(c: ContentSavePatch) -> int {
    match c.reward_level {
        Some(level) => level as int,
        None => 0,
    }
}

/// Content that a save says to have a level is owned afterwards, and its level is exactly
/// the larger of the level that it had and the level that the save says; so is its bonus
/// level. A save without a level acquires nothing, and no other content changes.
pub proof fn law_saved_content(p: PlayerModel, c: ContentSavePatch, now: i64, key: Key)
    ensures
        ({
            let q = content_saved(p, c, now);
            &&& q == PlayerModel { owned: q.owned, levels: q.levels, ..p }
            &&& says_level(c, key) ==> get(q.levels, key) == Some(
                match get(p.levels, key) {
                    Some(before) => LevelRow {
                        level: if before.level >= c.level->Some_0 {
                            before.level
                        } else {
                            c.level->Some_0
                        },
                        reward_level: if before.reward_level >= said_bonus(c) {
                            before.reward_level
                        } else {
                            said_bonus(c) as i64
                        },
                    },
                    None => LevelRow {
                        level: c.level->Some_0,
                        reward_level: said_bonus(c) as i64,
                    },
                },
            )
            &&& says_level(c, key) ==> get(q.owned, key) == Some(
                match get(p.owned, key) {
                    Some(before) => before,
                    None => OwnedModel { area: c.area, acquired_at: now, source: "userSave"@ },
                },
            )
            &&& !says_level(c, key) ==> get(q.levels, key) == get(p.levels, key) && get(
                q.owned,
                key,
            ) == get(p.owned, key)
        }),
{
    let at = k2(c.kind.rank() as int, c.content_id as int);
    let row = OwnedModel { area: c.area, acquired_at: now, source: "userSave"@ };
    law_get_put(p.owned, at, row, key);
    law_get_put(p.owned, at, row, at);
    if let Some(level) = c.level {
        let q = content_saved(p, c, now);
        let next = match get(p.levels, at) {
            Some(before) => LevelRow {
                level: if before.level < level {
                    level
                } else {
                    before.level
                },
                reward_level: if before.reward_level < said_bonus(c) {
                    said_bonus(c) as i64
                } else {
                    before.reward_level
                },
            },
            None => LevelRow { level, reward_level: said_bonus(c) as i64 },
        };
        law_get_put(p.levels, at, next, key);
    }
}

/// After a list of saved content, every piece that it says to have a level is owned, and
/// has at least that level and bonus level. No level falls, every level is one that was
/// there or that the list says, and content of which the list says nothing is as it was.
pub proof fn law_saved_contents(
    p: PlayerModel,
    list: Seq<ContentSavePatch>,
    now: i64,
    key: Key,
    i: int,
)
    ensures
        ({
            let q = all_content_saved(p, list, now);
            &&& q == PlayerModel { owned: q.owned, levels: q.levels, ..p }
            &&& get(p.owned, key) is Some ==> get(q.owned, key) == get(p.owned, key)
            &&& get(p.levels, key) matches Some(x) ==> (get(q.levels, key) matches Some(y)
                && y.level >= x.level && y.reward_level >= x.reward_level)
            &&& 0 <= i < list.len() && says_level(list[i], key) ==> get(q.owned, key) is Some && (
            get(q.levels, key) matches Some(y) && y.level >= list[i].level->Some_0
                && y.reward_level >= said_bonus(list[i]))
            &&& get(q.levels, key) matches Some(y) ==> ((get(p.levels, key) matches Some(x)
                && y.level == x.level) || exists|j: int|
                0 <= j < list.len() && says_level(#[trigger] list[j], key)
                    && list[j].level->Some_0 == y.level)
            &&& get(q.levels, key) matches Some(y) ==> ((get(p.levels, key) matches Some(x)
                && y.reward_level == x.reward_level) || exists|j: int|
                0 <= j < list.len() && says_level(#[trigger] list[j], key) && said_bonus(list[j])
                    == y.reward_level)
            &&& (forall|j: int| 0 <= j < list.len() ==> !says_level(#[trigger] list[j], key))
                ==> get(q.levels, key) == get(p.levels, key) && get(q.owned, key) == get(
                p.owned,
                key,
            )
        }),
    decreases list.len(),
{
    if list.len() > 0 {
        let front = list.drop_last();
        let n = list.len() - 1;
        law_saved_contents(p, front, now, key, i);
        let b = all_content_saved(p, front, now);
        law_saved_content(b, list.last(), now, key);
        assert forall|j: int| 0 <= j < n implies #[trigger] front[j] == list[j] by {}
        assert forall|j: int| 0 <= j < n implies front[j] == #[trigger] list[j] by {}
        assert(list[n] == list.last());
        if says_level(list[n], key) {
            let q = all_content_saved(p, list, now);
            assert(get(q.levels, key) is Some);
        }
    }
}

/// Whether a save says of an achievement or a mission how far it is.
pub open spec fn says_progress(s: ProgressSavePatch, key: Key) -> bool {
    s.id > 0 && s.quantity.amount() && key == k1(s.id as int)
}

/// Of two numbers the larger one is one of them, and neither is above it.
pub proof fn law_larger(a: Real, b: Real)
    ensures
        a.or_larger(b) == a || a.or_larger(b) == b,
        a.le(a) ==> a.le(a.or_larger(b)),
        b.le(b) ==> b.le(a.or_larger(b)),
{
    assert(Real::from_num(a.num()) == a);
    assert(Real::from_num(b.num()) == b);
}

proof fn lemma_le_chain(a: Real, b: Real, c: Real)
    ensures
        a.le(b) && b.le(c) ==> a.le(c),
        a.le(b) ==> b.le(b),
        a.amount() ==> a.le(a),
{
    lemma_two_values();
}

/// A daily mission is as far as the larger of what it was and what the save says; other
/// missions stay as they were.
pub proof fn law_saved_mission(p: PlayerModel, s: ProgressSavePatch, now: i64, key: Key)
    ensures
        ({
            let q = mission_saved(p, s, now);
            &&& q == PlayerModel { daily_missions: q.daily_missions, ..p }
            &&& says_progress(s, key) ==> get(q.daily_missions, key) == Some(
                DailyRow {
                    quantity: match get(p.daily_missions, key) {
                        Some(before) => before.quantity.or_larger(s.quantity),
                        None => s.quantity,
                    },
                    updated_at: now,
                },
            )
            &&& !says_progress(s, key) ==> get(q.daily_missions, key) == get(p.daily_missions, key)
        }),
{
    let at = k1(s.id as int);
    let row = DailyRow {
        quantity: match get(p.daily_missions, at) {
            Some(before) => before.quantity.or_larger(s.quantity),
            None => s.quantity,
        },
        updated_at: now,
    };
    law_get_put(p.daily_missions, at, row, key);
}

/// After a list of saved missions each is at least as far as the list says.
pub proof fn law_saved_missions(
    p: PlayerModel,
    list: Seq<ProgressSavePatch>,
    now: i64,
    key: Key,
    i: int,
)
    ensures
        ({
            let q = all_mission_saved(p, list, now);
            &&& q == PlayerModel { daily_missions: q.daily_missions, ..p }
            &&& 0 <= i < list.len() && says_progress(list[i], key) ==> (get(
                q.daily_missions,
                key,
            ) matches Some(row) && list[i].quantity.le(row.quantity))
            &&& (forall|j: int| 0 <= j < list.len() ==> !says_progress(#[trigger] list[j], key))
                ==> get(q.daily_missions, key) == get(p.daily_missions, key)
        }),
    decreases list.len(),
{
    if list.len() > 0 {
        let front = list.drop_last();
        let n = list.len() - 1;
        let last = list.last();
        law_saved_missions(p, front, now, key, i);
        let b = all_mission_saved(p, front, now);
        law_saved_mission(b, last, now, key);
        assert forall|j: int| 0 <= j < n implies #[trigger] front[j] == list[j] by {}
        assert(list[n] == last);
        if let Some(row) = get(b.daily_missions, key) {
            law_larger(row.quantity, last.quantity);
            lemma_le_chain(last.quantity, last.quantity, last.quantity);
            if 0 <= i < n {
                lemma_le_chain(
                    list[i].quantity,
                    row.quantity,
                    row.quantity.or_larger(last.quantity),
                );
            }
        } else {
            lemma_le_chain(last.quantity, last.quantity, last.quantity);
        }
    }
}

/// An achievement is as far as the larger of what it was and what the save says, with the
/// text of what is not smaller. How often the player came is what was counted, whatever
/// the save says. Other achievements stay as they were.
pub proof fn law_saved_achievement(p: PlayerModel, s: ProgressSavePatch, now: i64, key: Key)
    ensures
        ({
            let q = achievement_saved(p, s, now);
            let text = match opt_text(s.quantity_text) {
                Some(text) => text,
                None => "0"@,
            };
            &&& q == PlayerModel { achievements: q.achievements, ..p }
            &&& says_progress(s, key) && s.id == 10 ==> get(q.achievements, key) == Some(
                AchievementModel {
                    quantity: Real::of(p.attendance.count as int),
                    quantity_text: decimal(p.attendance.count as int),
                    updated_at: now,
                },
            )
            &&& says_progress(s, key) && s.id != 10 ==> get(q.achievements, key) == Some(
                match get(p.achievements, key) {
                    Some(before) => AchievementModel {
                        quantity: before.quantity.or_larger(s.quantity),
                        quantity_text: if before.quantity.le(s.quantity) {
                            text
                        } else {
                            before.quantity_text
                        },
                        updated_at: now,
                    },
                    None => AchievementModel {
                        quantity: s.quantity,
                        quantity_text: text,
                        updated_at: now,
                    },
                },
            )
            &&& !says_progress(s, key) ==> get(q.achievements, key) == get(p.achievements, key)
        }),
{
    let at = k1(s.id as int);
    let q = achievement_saved(p, s, now);
    if says_progress(s, at) {
        let text = match opt_text(s.quantity_text) {
            Some(text) => text,
            None => "0"@,
        };
        let row = if s.id == 10 {
            AchievementModel {
                quantity: Real::of(p.attendance.count as int),
                quantity_text: decimal(p.attendance.count as int),
                updated_at: now,
            }
        } else {
            achievement_row(get(p.achievements, at), s.quantity, text, now)
        };
        law_get_put(p.achievements, at, row, key);
    }
}

/// After a list of saved achievements each is at least as far as the list says, but for
/// how often the player came, which is what was counted.
pub proof fn law_saved_achievements(
    p: PlayerModel,
    list: Seq<ProgressSavePatch>,
    now: i64,
    key: Key,
    i: int,
)
    ensures
        ({
            let q = all_achievement_saved(p, list, now);
            &&& q == PlayerModel { achievements: q.achievements, ..p }
            &&& 0 <= i < list.len() && says_progress(list[i], key) ==> (get(
                q.achievements,
                key,
            ) matches Some(row) && if key == k1(10) {
                row.quantity == Real::of(p.attendance.count as int)
            } else {
                list[i].quantity.le(row.quantity)
            })
            &&& (forall|j: int| 0 <= j < list.len() ==> !says_progress(#[trigger] list[j], key))
                ==> get(q.achievements, key) == get(p.achievements, key)
        }),
    decreases list.len(),
{
    if list.len() > 0 {
        let front = list.drop_last();
        let n = list.len() - 1;
        let last = list.last();
        law_saved_achievements(p, front, now, key, i);
        let b = all_achievement_saved(p, front, now);
        law_saved_achievement(b, last, now, key);
        assert forall|j: int| 0 <= j < n implies #[trigger] front[j] == list[j] by {}
        assert(list[n] == last);
        lemma_le_chain(last.quantity, last.quantity, last.quantity);
        if let Some(row) = get(b.achievements, key) {
            law_larger(row.quantity, last.quantity);
            if 0 <= i < n {
                lemma_le_chain(
                    list[i].quantity,
                    row.quantity,
                    row.quantity.or_larger(last.quantity),
                );
            }
        }
    }
}

/// A skill is active from and until the later of what it was and what the save says, and
/// the save says whether it is active unless it is older. When it is reset stays, and
/// other skills stay as they were.
pub proof fn law_saved_skill(p: PlayerModel, s: SkillActivationSavePatch, now: i64, key: Key)
    ensures
        ({
            let q = skill_saved(p, s, now);
            &&& q == PlayerModel { skills: q.skills, ..p }
            &&& s.skill_id > 0 && key == k1(s.skill_id as int) ==> (get(
                q.skills,
                key,
            ) matches Some(after) && match get(p.skills, key) {
                None => after.active == s.active && after.active_from == s.active_from
                    && after.active_until == s.active_until && after.reset_ready_at == 0,
                Some(before) => {
                    &&& after.active == if s.active_from >= before.active_from {
                        s.active
                    } else {
                        before.active
                    }
                    &&& after.active_from >= before.active_from && after.active_from
                        >= s.active_from
                    &&& after.active_from == before.active_from || after.active_from
                        == s.active_from
                    &&& after.active_until >= before.active_until && after.active_until
                        >= s.active_until
                    &&& after.active_until == before.active_until || after.active_until
                        == s.active_until
                    &&& after.reset_ready_at == before.reset_ready_at
                },
            })
            &&& !(s.skill_id > 0 && key == k1(s.skill_id as int)) ==> get(q.skills, key) == get(
                p.skills,
                key,
            )
        }),
{
    let at = k1(s.skill_id as int);
    law_get_put(p.skills, at, skill_row(get(p.skills, at), s), key);
}

/// A chat room is read as far as the further of what it was and what the save says, and
/// what is unlocked in it is what the newer of the two says. Other rooms stay.
pub proof fn law_saved_room(p: PlayerModel, s: MessengerSavePatch, now: i64, key: Key)
    ensures
        ({
            let q = room_saved(p, s, now);
            &&& q == PlayerModel { rooms: q.rooms, ..p }
            &&& s.room_id > 0 && key == k1(s.room_id as int) ==> (get(
                q.rooms,
                key,
            ) matches Some(after) && after.updated_at == now && match get(p.rooms, key) {
                None => after.last_confirm_index == s.last_confirm_index
                    && after.unlock_group_list == s.unlock_group_list@ && after.update_time_ticks
                    == s.update_time_ticks,
                Some(before) => {
                    &&& after.last_confirm_index >= before.last_confirm_index
                        && after.last_confirm_index >= s.last_confirm_index
                    &&& after.last_confirm_index == before.last_confirm_index
                        || after.last_confirm_index == s.last_confirm_index
                    &&& after.update_time_ticks >= before.update_time_ticks
                        && after.update_time_ticks >= s.update_time_ticks
                    &&& after.update_time_ticks == before.update_time_ticks
                        || after.update_time_ticks == s.update_time_ticks
                    &&& after.unlock_group_list == if s.update_time_ticks
                        >= before.update_time_ticks {
                        s.unlock_group_list@
                    } else {
                        before.unlock_group_list
                    }
                },
            })
            &&& !(s.room_id > 0 && key == k1(s.room_id as int)) ==> get(q.rooms, key) == get(
                p.rooms,
                key,
            )
        }),
{
    let at = k1(s.room_id as int);
    law_get_put(p.rooms, at, room_row(get(p.rooms, at), s, now), key);
}

/// The encore of music that is owned appears as the save says, for the follower that it
/// names or else for the one so far; its times stay. The encore of other music stays.
pub proof fn law_saved_encore(p: PlayerModel, s: MusicStateSavePatch, now: i64, key: Key)
    ensures
        ({
            let q = encore_saved(p, s, now);
            let owned = get(p.owned, k2(ContentKind::Music.rank() as int, s.music_id as int));
            let named = s.music_id > 0 && owned is Some && key == k1(s.music_id as int);
            &&& q == PlayerModel { encores: q.encores, ..p }
            &&& named ==> (get(q.encores, key) matches Some(after) && after.encore_appears
                == s.encore_appears && match get(p.encores, key) {
                None => after.encore_follower_id == s.encore_follower_id && after.encore_ready_at
                    == 0 && after.ch3_active_until == 0,
                Some(before) => {
                    &&& after.encore_follower_id == match s.encore_follower_id {
                        Some(id) => Some(id),
                        None => before.encore_follower_id,
                    }
                    &&& after.encore_ready_at == before.encore_ready_at
                    &&& after.ch3_active_until == before.ch3_active_until
                },
            })
            &&& !named ==> get(q.encores, key) == get(p.encores, key)
        }),
{
    let at = k1(s.music_id as int);
    law_get_put(p.encores, at, encore_row(get(p.encores, at), s), key);
}

/// The step of a season that points reach is the highest whose goal they reach.
pub proof fn law_season_step(
    thresholds: Seq<(i64, i32, i64)>,
    season: i64,
    points: i64,
    i: int,
)
    ensures
        0 <= i < thresholds.len() && thresholds[i].0 == season && thresholds[i].2 <= points ==> (
        season_step(thresholds, season, points) matches Some(step) && step >= thresholds[i].1),
        season_step(thresholds, season, points) matches Some(step) ==> exists|j: int|
            0 <= j < thresholds.len() && (#[trigger] thresholds[j]).0 == season && thresholds[j].1
                == step && thresholds[j].2 <= points,
    decreases thresholds.len(),
{
    if thresholds.len() > 0 {
        let front = thresholds.drop_last();
        law_season_step(front, season, points, i);
        let n = thresholds.len() - 1;
        if 0 <= i < n {
            assert(front[i] == thresholds[i]);
        }
        if let Some(step) = season_step(thresholds, season, points) {
            if season_step(front, season, points) == Some(step) {
                let j = choose|j: int|
                    0 <= j < front.len() && (#[trigger] front[j]).0 == season && front[j].1 == step
                        && front[j].2 <= points;
                assert(thresholds[j] == front[j]);
            } else {
                assert(thresholds[n].1 == step);
            }
        }
    }
}

/// Points that a save reports beyond those so far count as often as the multiplier says,
/// and fewer points change nothing. The step is the highest of the one so far, the one
/// that is reported and those that the points reach. Other versions and seasons stay.
pub proof fn law_saved_pass(
    p: PlayerModel,
    s: PassProgressSavePatch,
    multiplier: int,
    thresholds: Seq<(i64, i32, i64)>,
    key: Key,
    i: int,
)
    ensures
        ({
            let q = pass_saved(p, s, multiplier, thresholds);
            let at = k2(s.season as int, s.version as int);
            let taken = 1 <= s.season <= 13 && s.points >= 0 && s.version >= 0;
            let had = match get(p.pass_progress, at) {
                Some(row) => row.points as int,
                None => 0,
            };
            let step = match get(p.pass_progress, at) {
                Some(row) => row.step as int,
                None => 0,
            };
            let times = if multiplier > 1 {
                multiplier
            } else {
                1
            };
            &&& q == PlayerModel { pass_progress: q.pass_progress, ..p }
            &&& !taken || key != at ==> get(q.pass_progress, key) == get(p.pass_progress, key)
            &&& taken && key == at ==> (get(q.pass_progress, key) matches Some(after) && {
                &&& s.points <= had ==> after.points == had
                &&& s.points > had && 0 <= had && had + (s.points - had) * times <= i64::MAX
                    ==> after.points == had + (s.points - had) * times
                &&& s.points > had && 0 <= had && had + (s.points - had) * times > i64::MAX
                    ==> after.points == i64::MAX
                &&& s.points > had ==> after.points >= s.points || had < 0
                &&& after.step >= step && after.step >= s.step
                &&& 0 <= i < thresholds.len() && thresholds[i].0 == s.season && thresholds[i].2
                    <= after.points ==> after.step >= thresholds[i].1
                &&& after.step == step || after.step == s.step || after.step == 0 || exists|j: int|
                    0 <= j < thresholds.len() && (#[trigger] thresholds[j]).0 == s.season
                        && thresholds[j].1 == after.step && thresholds[j].2 <= after.points
            })
        }),
{
    let at = k2(s.season as int, s.version as int);
    let row = pass_row(get(p.pass_progress, at), s, multiplier, thresholds);
    law_get_put(p.pass_progress, at, row, key);
    law_season_step(thresholds, s.season, row.points, i);
    let had = match get(p.pass_progress, at) {
        Some(row) => row.points as int,
        None => 0,
    };
    let times = if multiplier > 1 {
        multiplier
    } else {
        1
    };
    let gain = s.points - had;
    assert(gain >= 0 ==> gain * times >= gain) by (nonlinear_arith)
        requires
            times >= 1,
    ;
}

/// What a save says of the player as a whole: the likes are what it says, the fans are not
/// fewer, and the first channel wears and plays what it names. Nothing else changes but
/// the time of the last save.
pub proof fn law_saved_core(
    p: PlayerModel,
    c: CoreSavePatch,
    now: i64,
    kind: CurrencyKind,
    key: Key,
)
    ensures
        ({
            let q = core_saved(p, c, now);
            let likes = c.ch1_like matches Some(x) && x.amount();
            let fans = c.fans matches Some(n) && n >= 0;
            &&& q == PlayerModel { core: q.core, wallet: q.wallet, areas: q.areas, ..p }
            &&& q.core == Core { last_save_time: now, ..p.core }
            &&& q.wallet.balance(kind) == if kind == CurrencyKind::Ch1Like && likes {
                c.ch1_like->Some_0
            } else if kind == CurrencyKind::Fans && fans {
                p.wallet.balance(kind).or_larger(Real::of(c.fans->Some_0 as int))
            } else {
                p.wallet.balance(kind)
            }
            &&& key != k1(1) ==> get(q.areas, key) == get(p.areas, key)
            &&& get(p.areas, k1(1)) is None ==> get(q.areas, k1(1)) is None
            &&& get(p.areas, k1(1)) matches Some(before) ==> get(q.areas, k1(1)) == Some(
                AreaRow {
                    current_costume: match c.current_costume {
                        Some(id) => Some(id),
                        None => before.current_costume,
                    },
                    current_music: match c.current_music {
                        Some(id) => Some(id),
                        None => before.current_music,
                    },
                    ..before
                },
            )
        }),
{
    if let Some(before) = get(p.areas, k1(1)) {
        let row = AreaRow {
            current_costume: match c.current_costume {
                Some(id) => Some(id),
                None => before.current_costume,
            },
            current_music: match c.current_music {
                Some(id) => Some(id),
                None => before.current_music,
            },
            ..before
        };
        law_get_put(p.areas, k1(1), row, key);
        law_get_put(p.areas, k1(1), row, k1(1));
    }
}

/// What a save says of a channel: a level, fans, candy and what is worn and played are
/// what it says, and what it does not say stays; the points and whether it is open stay in
/// any case. Its likes are a balance, the fans of all channels are not fewer, and the
/// candy and the level of the first channel are those of the player. Only the first two
/// channels are saved.
pub proof fn law_saved_area(
    p: PlayerModel,
    a: AreaSavePatch,
    now: i64,
    kind: CurrencyKind,
    key: Key,
)
    ensures
        ({
            let q = area_saved(p, a, now);
            let at = k1(a.area as int);
            let likes = a.like_amount matches Some(x) && x.amount();
            let candy = a.candy matches Some(x) && x.amount();
            let fans = a.fans matches Some(n) && n >= 0;
            &&& q == PlayerModel { core: q.core, wallet: q.wallet, areas: q.areas, ..p }
            &&& !(1 <= a.area <= 2) ==> q == p
            &&& 1 <= a.area <= 2 ==> {
                &&& q.wallet.balance(kind) == if likes && ((a.area == 1 && kind
                    == CurrencyKind::Ch1Like) || (a.area == 2 && kind == CurrencyKind::Ch2Like)) {
                    a.like_amount->Some_0
                } else if fans && kind == CurrencyKind::Fans {
                    p.wallet.balance(kind).or_larger(Real::of(a.fans->Some_0 as int))
                } else if candy && a.area == 1 && kind == CurrencyKind::Candy {
                    a.candy->Some_0
                } else {
                    p.wallet.balance(kind)
                }
                &&& q.core == Core {
                    fan_level: if a.area == 1 && (a.fan_level matches Some(level) && level > 0) {
                        a.fan_level->Some_0
                    } else {
                        p.core.fan_level
                    },
                    ..p.core
                }
                &&& key != at ==> get(q.areas, key) == get(p.areas, key)
                &&& get(q.areas, at) matches Some(after) && {
                    let before = get(p.areas, at);
                    &&& a.fan_level matches Some(level) ==> after.area_level == level
                    &&& fans ==> after.fans == Real::of(a.fans->Some_0 as int)
                    &&& candy ==> after.candy == a.candy->Some_0
                    &&& a.current_costume is Some ==> after.current_costume == a.current_costume
                    &&& a.current_guitar is Some ==> after.current_guitar == a.current_guitar
                    &&& a.current_music is Some ==> after.current_music == a.current_music
                    &&& before matches Some(b) ==> {
                        &&& a.fan_level is None ==> after.area_level == b.area_level
                        &&& !fans ==> after.fans == b.fans
                        &&& !candy ==> after.candy == b.candy
                        &&& a.current_costume is None ==> after.current_costume
                            == b.current_costume
                        &&& a.current_guitar is None ==> after.current_guitar == b.current_guitar
                        &&& a.current_music is None ==> after.current_music == b.current_music
                        &&& after.gp == b.gp && after.unlocked == b.unlocked
                    }
                    &&& before is None ==> {
                        &&& a.fan_level is None ==> after.area_level == 1
                        &&& !fans ==> after.fans == Real { bits: ZERO }
                        &&& !candy ==> after.candy == Real { bits: ZERO }
                        &&& a.current_costume is None ==> after.current_costume is None
                        &&& a.current_guitar is None ==> after.current_guitar is None
                        &&& a.current_music is None ==> after.current_music is None
                        &&& after.gp == Real { bits: ZERO } && after.unlocked == (a.area == 1)
                    }
                }
            }
        }),
{
    let at = k1(a.area as int);
    let row = area_row(get(p.areas, at), a);
    law_get_put(p.areas, at, row, key);
    law_get_put(p.areas, at, row, at);
}

/// The current stage of the guide and its three tasks are there after a save that speaks
/// of the guide; what was there stays, but for the time of the stage.
pub proof fn law_guide_is_touched(p: PlayerModel, now: i64, key: Key, number: int)
    requires
        1 <= number <= 3,
    ensures
        ({
            let q = guide_touched(p, now);
            let stage: int = if p.quests.len() > 0 && p.quests.last().0.a > 1 {
                p.quests.last().0.a as int
            } else {
                1
            };
            &&& q == PlayerModel { quests: q.quests, conditions: q.conditions, ..p }
            &&& get(q.quests, k1(stage)) == Some(
                match get(p.quests, k1(stage)) {
                    Some(before) => QuestRow { updated_at: now, ..before },
                    None => QuestRow { completed: false, infinite: false, updated_at: now },
                },
            )
            &&& key != k1(stage) ==> get(q.quests, key) == get(p.quests, key)
            &&& get(q.conditions, k2(stage, number)) == Some(
                match get(p.conditions, k2(stage, number)) {
                    Some(before) => before,
                    None => ConditionRow { quantity: Real { bits: ZERO }, claimed: false },
                },
            )
            &&& key != k2(stage, 1) && key != k2(stage, 2) && key != k2(stage, 3) ==> get(
                q.conditions,
                key,
            ) == get(p.conditions, key)
        }),
{
    let stage = current_stage(p);
    let row = match get(p.quests, k1(stage)) {
        Some(row) => QuestRow { updated_at: now, ..row },
        None => QuestRow { completed: false, infinite: false, updated_at: now },
    };
    law_get_put(p.quests, k1(stage), row, k1(stage));
    law_get_put(p.quests, k1(stage), row, key);
    let first = put_new(p.conditions, k2(stage, 1), untouched());
    let second = put_new(first, k2(stage, 2), untouched());
    law_get_put(p.conditions, k2(stage, 1), untouched(), key);
    law_get_put(first, k2(stage, 2), untouched(), key);
    law_get_put(second, k2(stage, 3), untouched(), key);
    law_get_put(p.conditions, k2(stage, 1), untouched(), k2(stage, number));
    law_get_put(first, k2(stage, 2), untouched(), k2(stage, number));
    law_get_put(second, k2(stage, 3), untouched(), k2(stage, number));
}

/// A list of saves is taken over one after the other.
pub proof fn law_saves_follow_each_other(
    p: PlayerModel,
    s: UserSavePatch,
    area: AreaSavePatch,
    content: ContentSavePatch,
    encore: MusicStateSavePatch,
    progress: ProgressSavePatch,
    skill: SkillActivationSavePatch,
    room: MessengerSavePatch,
    pass: PassProgressSavePatch,
    multiplier: int,
    thresholds: Seq<(i64, i32, i64)>,
    now: i64,
)
    ensures
        all_area_saved(p, s.areas@.push(area), now) == area_saved(
            all_area_saved(p, s.areas@, now),
            area,
            now,
        ),
        all_content_saved(p, s.content@.push(content), now) == content_saved(
            all_content_saved(p, s.content@, now),
            content,
            now,
        ),
        all_encore_saved(p, s.music_states@.push(encore), now) == encore_saved(
            all_encore_saved(p, s.music_states@, now),
            encore,
            now,
        ),
        all_achievement_saved(p, s.achievements@.push(progress), now) == achievement_saved(
            all_achievement_saved(p, s.achievements@, now),
            progress,
            now,
        ),
        all_mission_saved(p, s.daily_missions@.push(progress), now) == mission_saved(
            all_mission_saved(p, s.daily_missions@, now),
            progress,
            now,
        ),
        all_skill_saved(p, s.skill_activations@.push(skill), now) == skill_saved(
            all_skill_saved(p, s.skill_activations@, now),
            skill,
            now,
        ),
        all_room_saved(p, s.messengers@.push(room), now) == room_saved(
            all_room_saved(p, s.messengers@, now),
            room,
            now,
        ),
        all_pass_saved(p, s.pass_progress@.push(pass), multiplier, thresholds) == pass_saved(
            all_pass_saved(p, s.pass_progress@, multiplier, thresholds),
            pass,
            multiplier,
            thresholds,
        ),
        all_area_saved(p, Seq::empty(), now) == p,
        all_content_saved(p, Seq::empty(), now) == p,
        all_encore_saved(p, Seq::empty(), now) == p,
        all_achievement_saved(p, Seq::empty(), now) == p,
        all_mission_saved(p, Seq::empty(), now) == p,
        all_skill_saved(p, Seq::empty(), now) == p,
        all_room_saved(p, Seq::empty(), now) == p,
        all_pass_saved(p, Seq::empty(), multiplier, thresholds) == p,
{
    assert(s.areas@.push(area).drop_last() =~= s.areas@);
    assert(s.content@.push(content).drop_last() =~= s.content@);
    assert(s.music_states@.push(encore).drop_last() =~= s.music_states@);
    assert(s.achievements@.push(progress).drop_last() =~= s.achievements@);
    assert(s.daily_missions@.push(progress).drop_last() =~= s.daily_missions@);
    assert(s.skill_activations@.push(skill).drop_last() =~= s.skill_activations@);
    assert(s.messengers@.push(room).drop_last() =~= s.messengers@);
    assert(s.pass_progress@.push(pass).drop_last() =~= s.pass_progress@);
}

proof fn lemma_areas_frame(p: PlayerModel, list: Seq<AreaSavePatch>, now: i64)
    ensures
        ({
            let q = all_area_saved(p, list, now);
            q == PlayerModel { core: q.core, wallet: q.wallet, areas: q.areas, ..p }
        }),
    decreases list.len(),
{
    if list.len() > 0 {
        lemma_areas_frame(p, list.drop_last(), now);
    }
}

proof fn lemma_contents_alike(p: PlayerModel, r: PlayerModel, list: Seq<ContentSavePatch>, now: i64)
    requires
        r.owned == p.owned,
        r.levels == p.levels,
    ensures
        ({
            let (q, t) = (all_content_saved(p, list, now), all_content_saved(r, list, now));
            q.owned == t.owned && q.levels == t.levels && t == (PlayerModel {
                owned: t.owned,
                levels: t.levels,
                ..r
            })
        }),
    decreases list.len(),
{
    if list.len() > 0 {
        lemma_contents_alike(p, r, list.drop_last(), now);
    }
}

proof fn lemma_encores_alike(
    p: PlayerModel,
    r: PlayerModel,
    list: Seq<MusicStateSavePatch>,
    now: i64,
)
    requires
        r.owned == p.owned,
        r.encores == p.encores,
    ensures
        ({
            let (q, t) = (all_encore_saved(p, list, now), all_encore_saved(r, list, now));
            q.encores == t.encores && t == (PlayerModel { encores: t.encores, ..r }) && q == (
            PlayerModel { encores: q.encores, ..p })
        }),
    decreases list.len(),
{
    if list.len() > 0 {
        lemma_encores_alike(p, r, list.drop_last(), now);
    }
}

proof fn lemma_achievements_alike(
    p: PlayerModel,
    r: PlayerModel,
    list: Seq<ProgressSavePatch>,
    now: i64,
)
    requires
        r.attendance == p.attendance,
        r.achievements == p.achievements,
    ensures
        ({
            let (q, t) = (all_achievement_saved(p, list, now), all_achievement_saved(r, list, now));
            q.achievements == t.achievements && t == (PlayerModel {
                achievements: t.achievements,
                ..r
            }) && q == (PlayerModel { achievements: q.achievements, ..p })
        }),
    decreases list.len(),
{
    if list.len() > 0 {
        lemma_achievements_alike(p, r, list.drop_last(), now);
    }
}

proof fn lemma_missions_alike(
    p: PlayerModel,
    r: PlayerModel,
    list: Seq<ProgressSavePatch>,
    now: i64,
)
    requires
        r.daily_missions == p.daily_missions,
    ensures
        ({
            let (q, t) = (all_mission_saved(p, list, now), all_mission_saved(r, list, now));
            q.daily_missions == t.daily_missions && t == (PlayerModel {
                daily_missions: t.daily_missions,
                ..r
            })
        }),
    decreases list.len(),
{
    if list.len() > 0 {
        lemma_missions_alike(p, r, list.drop_last(), now);
    }
}

proof fn lemma_skills_alike(
    p: PlayerModel,
    r: PlayerModel,
    list: Seq<SkillActivationSavePatch>,
    now: i64,
)
    requires
        r.skills == p.skills,
    ensures
        ({
            let (q, t) = (all_skill_saved(p, list, now), all_skill_saved(r, list, now));
            q.skills == t.skills && t == (PlayerModel { skills: t.skills, ..r })
        }),
    decreases list.len(),
{
    if list.len() > 0 {
        lemma_skills_alike(p, r, list.drop_last(), now);
    }
}

proof fn lemma_rooms_alike(
    p: PlayerModel,
    r: PlayerModel,
    list: Seq<MessengerSavePatch>,
    now: i64,
)
    requires
        r.rooms == p.rooms,
    ensures
        ({
            let (q, t) = (all_room_saved(p, list, now), all_room_saved(r, list, now));
            q.rooms == t.rooms && t == (PlayerModel { rooms: t.rooms, ..r })
        }),
    decreases list.len(),
{
    if list.len() > 0 {
        lemma_rooms_alike(p, r, list.drop_last(), now);
    }
}

proof fn lemma_passes_alike(
    p: PlayerModel,
    r: PlayerModel,
    list: Seq<PassProgressSavePatch>,
    multiplier: int,
    thresholds: Seq<(i64, i32, i64)>,
)
    requires
        r.pass_progress == p.pass_progress,
    ensures
        ({
            let q = all_pass_saved(p, list, multiplier, thresholds);
            let t = all_pass_saved(r, list, multiplier, thresholds);
            q.pass_progress == t.pass_progress && t == (PlayerModel {
                pass_progress: t.pass_progress,
                ..r
            })
        }),
    decreases list.len(),
{
    if list.len() > 0 {
        lemma_passes_alike(p, r, list.drop_last(), multiplier, thresholds);
    }
}

proof fn lemma_guides_alike(p: PlayerModel, r: PlayerModel, list: Seq<FollowerQuestSavePatch>)
    requires
        r.quests == p.quests,
        r.conditions == p.conditions,
    ensures
        ({
            let (q, t) = (all_guide_saved(p, list), all_guide_saved(r, list));
            q.quests == t.quests && q.conditions == t.conditions && t == (PlayerModel {
                quests: t.quests,
                conditions: t.conditions,
                ..r
            })
        }),
    decreases list.len(),
{
    if list.len() > 0 {
        lemma_guides_alike(p, r, list.drop_last());
    }
}

/// Every part of a save is taken over as if it stood alone, and a save changes nothing
/// but what its parts are about and the time of the last save.
pub proof fn law_save_takes_every_part(
    p: PlayerModel,
    s: UserSavePatch,
    multiplier: int,
    thresholds: Seq<(i64, i32, i64)>,
    now: i64,
)
    ensures
        ({
            let q = saved(p, s, multiplier, thresholds, now);
            let whole = match s.core {
                Some(core) => core_saved(p, core, now),
                None => p,
            };
            let channels = all_area_saved(whole, s.areas@, now);
            let content = all_content_saved(p, s.content@, now);
            let guide = all_guide_saved(guide_touched(p, now), s.follower_quests@);
            &&& q.wallet == channels.wallet
            &&& q.areas == channels.areas
            &&& q.core == Core { last_save_time: now, ..channels.core }
            &&& q.owned == content.owned
            &&& q.levels == content.levels
            &&& q.encores == all_encore_saved(content, s.music_states@, now).encores
            &&& q.achievements == all_achievement_saved(p, s.achievements@, now).achievements
            &&& q.daily_missions == all_mission_saved(p, s.daily_missions@, now).daily_missions
            &&& q.skills == all_skill_saved(p, s.skill_activations@, now).skills
            &&& q.rooms == all_room_saved(p, s.messengers@, now).rooms
            &&& q.pass_progress == all_pass_saved(
                p,
                s.pass_progress@,
                multiplier,
                thresholds,
            ).pass_progress
            &&& s.follower_quests@.len() > 0 ==> q.quests == guide.quests && q.conditions
                == guide.conditions
            &&& s.follower_quests@.len() == 0 ==> q.quests == p.quests && q.conditions
                == p.conditions
            &&& q == PlayerModel {
                core: q.core,
                wallet: q.wallet,
                areas: q.areas,
                owned: q.owned,
                levels: q.levels,
                encores: q.encores,
                achievements: q.achievements,
                daily_missions: q.daily_missions,
                skills: q.skills,
                rooms: q.rooms,
                pass_progress: q.pass_progress,
                quests: q.quests,
                conditions: q.conditions,
                ..p
            }
        }),
{
    let p1 = match s.core {
        Some(core) => core_saved(p, core, now),
        None => p,
    };
    lemma_areas_frame(p1, s.areas@, now);
    let p2 = all_area_saved(p1, s.areas@, now);
    lemma_contents_alike(p, p2, s.content@, now);
    lemma_contents_alike(p, p, s.content@, now);
    let p3 = all_content_saved(p2, s.content@, now);
    lemma_encores_alike(all_content_saved(p, s.content@, now), p3, s.music_states@, now);
    let p4 = all_encore_saved(p3, s.music_states@, now);
    lemma_achievements_alike(p, p4, s.achievements@, now);
    let p5 = all_achievement_saved(p4, s.achievements@, now);
    lemma_missions_alike(p, p5, s.daily_missions@, now);
    let p6 = all_mission_saved(p5, s.daily_missions@, now);
    lemma_skills_alike(p, p6, s.skill_activations@, now);
    let p7 = all_skill_saved(p6, s.skill_activations@, now);
    lemma_rooms_alike(p, p7, s.messengers@, now);
    let p8 = all_room_saved(p7, s.messengers@, now);
    lemma_passes_alike(p, p8, s.pass_progress@, multiplier, thresholds);
    let p9 = all_pass_saved(p8, s.pass_progress@, multiplier, thresholds);
    lemma_guides_alike(guide_touched(p, now), guide_touched(p9, now), s.follower_quests@);
}

/// After a save, every piece of content that it says to have a level is owned, with at
/// least the level and the bonus level that it says; no level falls, and every level is
/// one that was there or that the save says.
pub proof fn law_save_raises_levels(
    p: PlayerModel,
    s: UserSavePatch,
    multiplier: int,
    thresholds: Seq<(i64, i32, i64)>,
    now: i64,
    key: Key,
    i: int,
)
    ensures
        ({
            let q = saved(p, s, multiplier, thresholds, now);
            let list = s.content@;
            &&& get(p.owned, key) is Some ==> get(q.owned, key) == get(p.owned, key)
            &&& get(p.levels, key) matches Some(x) ==> (get(q.levels, key) matches Some(y)
                && y.level >= x.level && y.reward_level >= x.reward_level)
            &&& 0 <= i < list.len() && says_level(list[i], key) ==> get(q.owned, key) is Some && (
            get(q.levels, key) matches Some(y) && y.level >= list[i].level->Some_0
                && y.reward_level >= said_bonus(list[i]))
            &&& get(q.levels, key) matches Some(y) ==> ((get(p.levels, key) matches Some(x)
                && y.level == x.level) || exists|j: int|
                0 <= j < list.len() && says_level(#[trigger] list[j], key)
                    && list[j].level->Some_0 == y.level)
        }),
{
    law_save_takes_every_part(p, s, multiplier, thresholds, now);
    law_saved_contents(p, s.content@, now, key, i);
}

/// After a save, every mission and every achievement is at least as far as the save says,
/// but for how often the player came, which is what was counted.
pub proof fn law_save_raises_progress(
    p: PlayerModel,
    s: UserSavePatch,
    multiplier: int,
    thresholds: Seq<(i64, i32, i64)>,
    now: i64,
    key: Key,
    i: int,
)
    ensures
        ({
            let q = saved(p, s, multiplier, thresholds, now);
            &&& 0 <= i < s.daily_missions@.len() && says_progress(s.daily_missions@[i], key) ==> (
            get(q.daily_missions, key) matches Some(row) && s.daily_missions@[i].quantity.le(
                row.quantity,
            ))
            &&& 0 <= i < s.achievements@.len() && says_progress(s.achievements@[i], key) ==> (get(
                q.achievements,
                key,
            ) matches Some(row) && if key == k1(10) {
                row.quantity == Real::of(p.attendance.count as int)
            } else {
                s.achievements@[i].quantity.le(row.quantity)
            })
        }),
{
    law_save_takes_every_part(p, s, multiplier, thresholds, now);
    law_saved_missions(p, s.daily_missions@, now, key, i);
    law_saved_achievements(p, s.achievements@, now, key, i);
}

/// A save is always taken over, at the time of its request, and answered with a yes.
pub proof fn law_saves_are_accepted(p: PlayerModel, m: Mutation, rules: Rules, c: MergeSave<'_>)
    ensures
        c.effect(p, m, rules) matches Ok((q, answer, repeated)) && q == saved(
            p,
            *c.patch,
            c.pass_point_multiplier as int,
            c.pass_thresholds@,
            m.now,
        ) && answer == Outcome::Text("Y"@) && repeated == answer && q.core.last_save_time == m.now,
{
}

} // verus!
