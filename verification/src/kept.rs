//! That changes of a player keep the order of what it holds.
use crate::ch3::{all_dropped, dropped};
use crate::command::{Mutation, Rules};
use crate::domain::{
    AreaSavePatch, BookmarkSnapshot, ContentKind, ContentSavePatch, CurrencyKind, DeviceClock,
    FollowerProfileSnapshot, FollowerQuestSavePatch, MessengerSavePatch, MusicReviewSnapshot,
    MusicScoreSnapshot, MusicStateSavePatch, PassProgressSavePatch, ProgressSavePatch, Reward,
    RewardGrant, SkillActivationSavePatch, UserSavePatch,
};
use crate::followers::{encore_steps, levels_claimed};
use crate::fresh::{fresh, starting_kinds};
use crate::mail::{posted, queued};
use crate::music::{bookmarked, reviewed, scored};
use crate::number::Real;
use crate::order::{
    any16, any32, any64, by_one, by_two, change_kept, group_keyed, keyed, well_keyed,
};
use crate::pass::{activated, season_selected};
use crate::player::PlayerModel;
use crate::profile::{all_packed, tutored};
use crate::queries::{energy_restored, granted_once};
use crate::rewards::{all_granted, granted};
use crate::rows::{BookmarkRow, EntitlementRow, ReviewRow, ScoreModel};
use crate::save::{
    all_achievement_saved, all_area_saved, all_content_saved, all_encore_saved, all_guide_saved,
    all_mission_saved, all_pass_saved, all_room_saved, all_skill_saved, core_saved, guide_touched,
    saved,
};
use crate::slots::anchored;
use crate::table::{k2, put, Key};
use vstd::prelude::*;

verus! {

/// A new player is in order.
pub proof fn law_fresh_in_order(now: i64)
    ensures
        well_keyed(fresh(now)),
{
    broadcast use group_keyed;

    reveal(keyed);
    assert forall|i: int, j: int| 0 <= i < j < 7 implies (#[trigger] starting_kinds()[i]).rank()
        < (#[trigger] starting_kinds()[j]).rank() by {}
}

pub proof fn lemma_granted(
    p: PlayerModel,
    rules: Rules,
    reward: RewardGrant,
    now: i64,
    source: Seq<char>,
)
    requires
        well_keyed(p),
    ensures
        change_kept(granted(p, rules, reward, now, source)),
{
    broadcast use group_keyed;

}

pub proof fn lemma_all_granted(
    p: PlayerModel,
    rules: Rules,
    rewards: Seq<RewardGrant>,
    now: i64,
    source: Seq<char>,
)
    requires
        well_keyed(p),
    ensures
        change_kept(all_granted(p, rules, rewards, now, source)),
    decreases rewards.len(),
{
    if rewards.len() > 0 {
        lemma_all_granted(p, rules, rewards.drop_last(), now, source);
        if let Ok((q, _)) = all_granted(p, rules, rewards.drop_last(), now, source) {
            lemma_granted(q, rules, rewards.last(), now, source);
        }
    }
}

pub proof fn lemma_dropped(
    p: PlayerModel,
    m: Mutation,
    rules: Rules,
    roll: int,
    rewards: Seq<RewardGrant>,
    source: Seq<char>,
)
    requires
        well_keyed(p),
    ensures
        change_kept(dropped(p, m, rules, roll, rewards, source)),
    decreases rewards.len(),
{
    if rewards.len() > 0 {
        lemma_dropped(p, m, rules, roll, rewards.drop_last(), source);
        if let Ok((q, _)) = dropped(p, m, rules, roll, rewards.drop_last(), source) {
            lemma_granted(q, rules, rewards.last(), m.now, source);
        }
    }
}

pub proof fn lemma_all_dropped(
    p: PlayerModel,
    m: Mutation,
    rules: Rules,
    rolls: Seq<(i32, Vec<RewardGrant>)>,
    source: Seq<char>,
)
    requires
        well_keyed(p),
    ensures
        change_kept(all_dropped(p, m, rules, rolls, source)),
    decreases rolls.len(),
{
    if rolls.len() > 0 {
        lemma_all_dropped(p, m, rules, rolls.drop_last(), source);
        if let Ok((q, _)) = all_dropped(p, m, rules, rolls.drop_last(), source) {
            lemma_dropped(q, m, rules, rolls.last().0 as int, rolls.last().1@, source);
        }
    }
}

pub proof fn lemma_levels_claimed(
    p: PlayerModel,
    rules: Rules,
    profile: FollowerProfileSnapshot,
    requested: Seq<(i32, Vec<RewardGrant>)>,
    now: i64,
)
    requires
        well_keyed(p),
    ensures
        change_kept(levels_claimed(p, rules, profile, requested, now)),
    decreases requested.len(),
{
    broadcast use group_keyed;

    if requested.len() > 0 {
        lemma_levels_claimed(p, rules, profile, requested.drop_last(), now);
        if let Ok((q, _)) = levels_claimed(p, rules, profile, requested.drop_last(), now) {
            let (level, rewards) = requested.last();
            let key = k2(profile.profile_id as int, level as int);
            lemma_all_granted(
                PlayerModel { affection_claims: put(q.affection_claims, key, now), ..q },
                rules,
                rewards@,
                now,
                "follower-profile"@,
            );
        }
    }
}

pub proof fn lemma_encore_steps(
    p: PlayerModel,
    rewards: Seq<(i64, i32, i64, i64)>,
    levels: Seq<(i64, i32, i64, i32)>,
    now: i64,
)
    requires
        well_keyed(p),
    ensures
        well_keyed(encore_steps(p, rewards, levels, now).p),
    decreases rewards.len(),
{
    broadcast use group_keyed;

    if rewards.len() > 0 {
        lemma_encore_steps(p, rewards.drop_last(), levels, now);
    }
}

pub proof fn lemma_reviewed(
    rows: Seq<(Key, ReviewRow)>,
    reviews: Seq<MusicReviewSnapshot>,
    now: i64,
)
    requires
        keyed(rows, by_two(any32(), any16())),
    ensures
        keyed(reviewed(rows, reviews, now), by_two(any32(), any16())),
    decreases reviews.len(),
{
    broadcast use group_keyed;

    if reviews.len() > 0 {
        lemma_reviewed(rows, reviews.drop_last(), now);
    }
}

pub proof fn lemma_bookmarked(
    rows: Seq<(Key, BookmarkRow)>,
    bookmarks: Seq<BookmarkSnapshot>,
    now: i64,
)
    requires
        keyed(rows, by_one(any32())),
    ensures
        keyed(bookmarked(rows, bookmarks, now), by_one(any32())),
    decreases bookmarks.len(),
{
    broadcast use group_keyed;

    if bookmarks.len() > 0 {
        lemma_bookmarked(rows, bookmarks.drop_last(), now);
    }
}

pub proof fn lemma_scored(
    rows: Seq<(Key, ScoreModel)>,
    scores: Seq<MusicScoreSnapshot>,
    now: i64,
)
    requires
        keyed(rows, by_two(any32(), any16())),
    ensures
        keyed(scored(rows, scores, now), by_two(any32(), any16())),
    decreases scores.len(),
{
    broadcast use group_keyed;

    if scores.len() > 0 {
        lemma_scored(rows, scores.drop_last(), now);
    }
}

pub proof fn lemma_activated(rows: Seq<(Key, EntitlementRow)>, seasons: Seq<i64>)
    requires
        keyed(rows, by_one(any64())),
    ensures
        keyed(activated(rows, seasons), by_one(any64())),
    decreases seasons.len(),
{
    broadcast use group_keyed;

    if seasons.len() > 0 {
        lemma_activated(rows, seasons.drop_last());
    }
}

pub proof fn lemma_tutored(tutorials: Seq<(Key, i64)>, ids: Seq<i64>, now: i64)
    requires
        keyed(tutorials, by_one(any64())),
    ensures
        keyed(tutored(tutorials, ids, now), by_one(any64())),
    decreases ids.len(),
{
    broadcast use group_keyed;

    if ids.len() > 0 {
        lemma_tutored(tutorials, ids.drop_last(), now);
    }
}

pub proof fn lemma_all_packed(
    p: PlayerModel,
    contents: Seq<(ContentKind, i32, i64)>,
    now: i64,
)
    requires
        well_keyed(p),
    ensures
        well_keyed(all_packed(p, contents, now)),
    decreases contents.len(),
{
    broadcast use group_keyed;

    if contents.len() > 0 {
        lemma_all_packed(p, contents.drop_last(), now);
    }
}

proof fn lemma_all_area_saved(p: PlayerModel, list: Seq<AreaSavePatch>, now: i64)
    requires
        well_keyed(p),
    ensures
        well_keyed(all_area_saved(p, list, now)),
    decreases list.len(),
{
    broadcast use group_keyed;

    if list.len() > 0 {
        lemma_all_area_saved(p, list.drop_last(), now);
    }
}

proof fn lemma_all_content_saved(p: PlayerModel, list: Seq<ContentSavePatch>, now: i64)
    requires
        well_keyed(p),
    ensures
        well_keyed(all_content_saved(p, list, now)),
    decreases list.len(),
{
    broadcast use group_keyed;

    if list.len() > 0 {
        lemma_all_content_saved(p, list.drop_last(), now);
    }
}

proof fn lemma_all_encore_saved(p: PlayerModel, list: Seq<MusicStateSavePatch>, now: i64)
    requires
        well_keyed(p),
    ensures
        well_keyed(all_encore_saved(p, list, now)),
    decreases list.len(),
{
    broadcast use group_keyed;

    if list.len() > 0 {
        lemma_all_encore_saved(p, list.drop_last(), now);
    }
}

proof fn lemma_all_achievement_saved(p: PlayerModel, list: Seq<ProgressSavePatch>, now: i64)
    requires
        well_keyed(p),
    ensures
        well_keyed(all_achievement_saved(p, list, now)),
    decreases list.len(),
{
    broadcast use group_keyed;

    if list.len() > 0 {
        lemma_all_achievement_saved(p, list.drop_last(), now);
    }
}

proof fn lemma_all_mission_saved(p: PlayerModel, list: Seq<ProgressSavePatch>, now: i64)
    requires
        well_keyed(p),
    ensures
        well_keyed(all_mission_saved(p, list, now)),
    decreases list.len(),
{
    broadcast use group_keyed;

    if list.len() > 0 {
        lemma_all_mission_saved(p, list.drop_last(), now);
    }
}

proof fn lemma_all_skill_saved(p: PlayerModel, list: Seq<SkillActivationSavePatch>, now: i64)
    requires
        well_keyed(p),
    ensures
        well_keyed(all_skill_saved(p, list, now)),
    decreases list.len(),
{
    broadcast use group_keyed;

    if list.len() > 0 {
        lemma_all_skill_saved(p, list.drop_last(), now);
    }
}

proof fn lemma_all_room_saved(p: PlayerModel, list: Seq<MessengerSavePatch>, now: i64)
    requires
        well_keyed(p),
    ensures
        well_keyed(all_room_saved(p, list, now)),
    decreases list.len(),
{
    broadcast use group_keyed;

    if list.len() > 0 {
        lemma_all_room_saved(p, list.drop_last(), now);
    }
}

proof fn lemma_all_guide_saved(p: PlayerModel, list: Seq<FollowerQuestSavePatch>)
    requires
        well_keyed(p),
    ensures
        well_keyed(all_guide_saved(p, list)),
    decreases list.len(),
{
    broadcast use group_keyed;

    if list.len() > 0 {
        lemma_all_guide_saved(p, list.drop_last());
    }
}

proof fn lemma_all_pass_saved(
    p: PlayerModel,
    list: Seq<PassProgressSavePatch>,
    multiplier: int,
    thresholds: Seq<(i64, i32, i64)>,
)
    requires
        well_keyed(p),
    ensures
        well_keyed(all_pass_saved(p, list, multiplier, thresholds)),
    decreases list.len(),
{
    broadcast use group_keyed;

    if list.len() > 0 {
        lemma_all_pass_saved(p, list.drop_last(), multiplier, thresholds);
    }
}

proof fn lemma_core_saved(p: PlayerModel, s: UserSavePatch, now: i64)
    requires
        well_keyed(p),
        s.core is Some,
    ensures
        well_keyed(core_saved(p, s.core->Some_0, now)),
{
    broadcast use group_keyed;

}

proof fn lemma_guide_touched(p: PlayerModel, now: i64)
    requires
        well_keyed(p),
    ensures
        well_keyed(guide_touched(p, now)),
{
    broadcast use group_keyed;

}

pub proof fn lemma_saved(
    p: PlayerModel,
    s: UserSavePatch,
    multiplier: int,
    thresholds: Seq<(i64, i32, i64)>,
    now: i64,
)
    requires
        well_keyed(p),
    ensures
        well_keyed(saved(p, s, multiplier, thresholds, now)),
{
    let p1 = match s.core {
        Some(core) => core_saved(p, core, now),
        None => p,
    };
    if s.core is Some {
        lemma_core_saved(p, s, now);
    }
    lemma_all_area_saved(p1, s.areas@, now);
    let p2 = all_area_saved(p1, s.areas@, now);
    lemma_all_content_saved(p2, s.content@, now);
    let p3 = all_content_saved(p2, s.content@, now);
    lemma_all_encore_saved(p3, s.music_states@, now);
    let p4 = all_encore_saved(p3, s.music_states@, now);
    lemma_all_achievement_saved(p4, s.achievements@, now);
    let p5 = all_achievement_saved(p4, s.achievements@, now);
    lemma_all_mission_saved(p5, s.daily_missions@, now);
    let p6 = all_mission_saved(p5, s.daily_missions@, now);
    lemma_all_skill_saved(p6, s.skill_activations@, now);
    let p7 = all_skill_saved(p6, s.skill_activations@, now);
    lemma_all_room_saved(p7, s.messengers@, now);
    let p8 = all_room_saved(p7, s.messengers@, now);
    lemma_all_pass_saved(p8, s.pass_progress@, multiplier, thresholds);
    let p9 = all_pass_saved(p8, s.pass_progress@, multiplier, thresholds);
    lemma_guide_touched(p9, now);
    lemma_all_guide_saved(guide_touched(p9, now), s.follower_quests@);
}

/// What is changed without a request keeps a player in order too: granted
/// balances, queued mail, the choice of a season and restored energy.
pub proof fn law_direct_changes_keep_order(
    p: PlayerModel,
    kind: CurrencyKind,
    amount: Real,
    text: Seq<char>,
    post_id: int,
    body: Seq<char>,
    reward: Reward,
    clock: DeviceClock,
    season: i64,
    now: i64,
    cap: i32,
)
    requires
        well_keyed(p),
    ensures
        change_kept(granted_once(p, kind, amount, text, now)),
        change_kept(queued(p, post_id, text, body, reward, now)),
        change_kept(posted(p, text, body, reward, now)),
        season_selected(p, clock, season) is Ok ==> well_keyed(
            season_selected(p, clock, season)->Ok_0,
        ),
        well_keyed(energy_restored(p, now, cap)),
        well_keyed(anchored(p, clock)),
{
    broadcast use group_keyed;

}

} // verus!
