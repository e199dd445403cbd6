//! What a snapshot says of its player.
use crate::claims::keys_under;
use crate::domain::{CurrencyKind, PlayerSnapshot};
use crate::errors::StoreError;
use crate::mail::event_step;
use crate::music::{score_models, scores_shown};
use crate::number::Real;
use crate::outcome::score_model;
use crate::pass::premium_seasons;
use crate::player::PlayerModel;
use crate::quest_laws::{is_claimed, progress_of};
use crate::rows::{OwnedModel, ScoreState, StageRow, Wallet};
use crate::shortest::number_text;
use crate::snapshot::{
    achievement_shows, balances_shown, kind_of_rank, mission_claims, mission_shows, owned_sorted,
    player_shown, room_shows, stages_sorted,
};
use crate::table::{get, k3, law_get_put, put, Key};
use crate::tally::tally;
use vstd::prelude::*;

verus! {

/// A snapshot names its player, says what the profile holds and shows every balance.
pub proof fn law_snapshot_profile(
    p: PlayerModel,
    usn: int,
    user_id: Seq<char>,
    s: PlayerSnapshot,
    kind: CurrencyKind,
)
    requires
        player_shown(p, usn, user_id, Ok(s)),
    ensures
        s.identity.usn == usn && s.identity.user_id@ == user_id,
        s.nickname@ == p.nickname && s.device_uuid@ == p.device_uuid,
        s.fan_level == p.core.fan_level && s.avatar_id == p.core.avatar_id && s.title_id
            == p.core.title_id && s.last_save_time == p.core.last_save_time,
        s.currencies@.len() == 8 && s.currencies@.contains((kind, p.wallet.balance(kind))),
        forall|i: int|
            0 <= i < s.currencies@.len() ==> (#[trigger] s.currencies@[i]).1 == p.wallet.balance(
                s.currencies@[i].0,
            ),
        p.anchor matches Some(a) && s.pass.anchor.anchor_season == a.season
            && s.pass.anchor.anchor_day == a.local_day && s.pass.anchor.utc_offset_minutes
            == a.utc_offset_minutes,
{
    let i: int = match kind {
        CurrencyKind::Candy => 0,
        CurrencyKind::Ch1Like => 1,
        CurrencyKind::Ch2Like => 2,
        CurrencyKind::Ch2Note => 3,
        CurrencyKind::ChocoMilk => 4,
        CurrencyKind::Chocolate => 5,
        CurrencyKind::Fans => 6,
        CurrencyKind::Gingerbread => 7,
    };
    assert(s.currencies@[i] == (kind, p.wallet.balance(kind)));
}

/// A snapshot shows every channel, level, skill, buff, gift, claim, advertisement and
/// tutorial as it is.
pub proof fn law_snapshot_inventory(
    p: PlayerModel,
    usn: int,
    user_id: Seq<char>,
    s: PlayerSnapshot,
    i: int,
)
    requires
        player_shown(p, usn, user_id, Ok(s)),
    ensures
        s.areas@.len() == p.areas.len() && (0 <= i < p.areas.len() ==> {
            let (x, (key, row)) = (s.areas@[i], p.areas[i]);
            x.area == key.a as i32 && x.area_level == row.area_level && x.fans == row.fans
                && x.candy == row.candy && x.current_costume == row.current_costume
                && x.current_guitar == row.current_guitar && x.current_music == row.current_music
                && x.gp == row.gp && x.unlocked == row.unlocked
        }),
        s.content_levels@.len() == p.levels.len() && (0 <= i < p.levels.len() ==> {
            let (x, (key, row)) = (s.content_levels@[i], p.levels[i]);
            x.kind == kind_of_rank(key.a) && x.content_id == key.b && x.level == row.level
                && x.reward_level == row.reward_level
        }),
        s.skill_activations@.len() == p.skills.len() && (0 <= i < p.skills.len() ==> {
            let (x, (key, row)) = (s.skill_activations@[i], p.skills[i]);
            x.skill_id == key.a && x.active == row.active && x.active_from == row.active_from
                && x.active_until == row.active_until && x.reset_ready_at == row.reset_ready_at
        }),
        s.buff_timers@.len() == p.buffs.len() && (0 <= i < p.buffs.len() ==> {
            let (x, (key, row)) = (s.buff_timers@[i], p.buffs[i]);
            x.buff_id == key.a && x.active_at == row.active_at && x.expires_at == row.expires_at
        }),
        s.gifts@.len() == p.gifts.len() && (0 <= i < p.gifts.len() ==> s.gifts@[i].gift_id
            == p.gifts[i].0.a && s.gifts@[i].quantity == p.gifts[i].1),
        s.affection_claims@.len() == p.affection_claims.len() && (0 <= i < p.affection_claims.len()
            ==> s.affection_claims@[i].profile_id == p.affection_claims[i].0.a
            && s.affection_claims@[i].level == p.affection_claims[i].0.b as i32),
        s.ad_levels@.len() == p.ad_levels.len() && (0 <= i < p.ad_levels.len() ==> {
            let (x, (key, row)) = (s.ad_levels@[i], p.ad_levels[i]);
            x.ad_level_id == key.a && x.level == row.level && x.experience == row.experience
        }),
        s.ad_state@.len() == p.ad_views.len() && (0 <= i < p.ad_views.len() ==> {
            let (x, (key, row)) = (s.ad_state@[i], p.ad_views[i]);
            x.ad_id == key.a && x.day_count == row.day_count && x.total_count == row.total_count
                && x.last_view_time == row.last_view_time
        }),
        s.tutorials@.len() == p.tutorials.len() && (0 <= i < p.tutorials.len() ==> s.tutorials@[i]
            == p.tutorials[i].0.a),
{
}

/// A snapshot shows how far everything is that a player does: chat rooms, the guide,
/// achievements and missions with the level after those that were claimed, ratings,
/// bookmarks, encores, choices, the pass and the third channel.
pub proof fn law_snapshot_activity(
    p: PlayerModel,
    usn: int,
    user_id: Seq<char>,
    s: PlayerSnapshot,
    i: int,
)
    requires
        player_shown(p, usn, user_id, Ok(s)),
    ensures
        s.messengers@.len() == p.rooms.len() && (0 <= i < p.rooms.len() ==> {
            let (x, (key, row)) = (s.messengers@[i], p.rooms[i]);
            x.room_id == key.a && x.last_confirm_index == row.last_confirm_index
                && x.unlock_group_list@ == row.unlock_group_list && x.update_time_ticks
                == row.update_time_ticks
        }),
        s.achievements@.len() == p.achievements.len() && (0 <= i < p.achievements.len() ==> {
            let (x, (key, row)) = (s.achievements@[i], p.achievements[i]);
            let claimed = tally(p.achievement_claims, key.a as int, None, None);
            x.id == key.a && x.quantity == row.quantity && x.quantity_text@ == row.quantity_text
                && (claimed < i64::MAX ==> x.level == claimed + 1)
        }),
        s.daily_missions@.len() == p.daily_missions.len() && (0 <= i < p.daily_missions.len() ==> {
            let (x, (key, row)) = (s.daily_missions@[i], p.daily_missions[i]);
            let claimed = mission_claims(p.daily_claims, key.a as int);
            x.id == key.a && x.quantity == row.quantity && x.quantity_text@ == number_text(
                row.quantity.num(),
            ) && (claimed < i64::MAX ==> x.level == claimed + 1)
        }),
        s.follower_quests@.len() == p.quests.len() && (0 <= i < p.quests.len() ==> {
            let (x, (key, row)) = (s.follower_quests@[i], p.quests[i]);
            x.current_id == key.a && x.completed == row.completed && x.infinite == row.infinite
                && x.claimed[0] == is_claimed(p, key.a as int, 1) && x.claimed[1] == is_claimed(
                p,
                key.a as int,
                2,
            ) && x.claimed[2] == is_claimed(p, key.a as int, 3) && (progress_of(
                p,
                key.a as int,
                1,
            ) matches Some(v) ==> x.condition_values[0] == v) && (progress_of(
                p,
                key.a as int,
                2,
            ) matches Some(v) ==> x.condition_values[1] == v) && (progress_of(
                p,
                key.a as int,
                3,
            ) matches Some(v) ==> x.condition_values[2] == v)
        }),
        s.music_reviews@.len() == p.reviews.len() && (0 <= i < p.reviews.len() ==> {
            let (x, (key, row)) = (s.music_reviews@[i], p.reviews[i]);
            x.music_id == key.a as i32 && x.difficulty == key.b as i16 && x.point == row.point
        }),
        s.bookmarks@.len() == p.bookmarks.len() && (0 <= i < p.bookmarks.len() ==> {
            let (x, (key, row)) = (s.bookmarks@[i], p.bookmarks[i]);
            x.music_id == key.a as i32 && x.flag == row.flag
        }),
        s.music_states@.len() == p.encores.len() && (0 <= i < p.encores.len() ==> {
            let (x, (key, row)) = (s.music_states@[i], p.encores[i]);
            x.music_id == key.a && x.encore_appears == row.encore_appears && x.encore_ready_at
                == row.encore_ready_at && x.encore_follower_id == row.encore_follower_id
                && x.ch3_active_until == row.ch3_active_until
        }),
        s.selected_rewards@.len() == p.selections.len() && (0 <= i < p.selections.len() ==> {
            let (x, (key, row)) = (s.selected_rewards@[i], p.selections[i]);
            x.group_id == key.a as i32 && x.reward_group_id == row.reward_group_id
                && x.alternate_reward_group_id == row.alternate_reward_group_id
        }),
        s.pass.progress@.len() == p.pass_progress.len() && (0 <= i < p.pass_progress.len() ==> {
            let (x, (key, row)) = (s.pass.progress@[i], p.pass_progress[i]);
            x.season == key.a && x.version == key.b as i32 && x.points == row.points && x.step
                == row.step
        }),
        s.pass.claims@.len() == p.pass_claims.len() && (0 <= i < p.pass_claims.len() ==> {
            let (x, (key, at)) = (s.pass.claims@[i], p.pass_claims[i]);
            x.season == key.a && x.version == key.b as i32 && x.lane == key.c as i16 && x.step
                == key.d as i32 && x.claimed_at == at
        }),
        s.ch3.energy == p.energy,
        s.ch3.chapter_claims@.len() == p.chapter_claims.len() && (0 <= i < p.chapter_claims.len()
            ==> s.ch3.chapter_claims@[i].chapter == p.chapter_claims[i].0.a as i32
            && s.ch3.chapter_claims@[i].reward_num == p.chapter_claims[i].0.b as i32),
        s.ch3.profiles@.len() == p.affection.len() && (0 <= i < p.affection.len() ==> {
            let (x, (key, row)) = (s.ch3.profiles@[i], p.affection[i]);
            x.profile_id == key.a && x.level == row.level && x.experience == row.experience
        }),
{
    if 0 <= i < p.achievements.len() {
        lemma_claims(p.achievement_claims, p.achievements[i].0.a as int);
        assert(achievement_shows(
            p.achievements[i].0,
            p.achievements[i].1,
            p.achievement_claims,
            s.achievements@[i],
        ));
    }
    if 0 <= i < p.daily_missions.len() {
        assert(mission_shows(
            p.daily_missions[i].0,
            p.daily_missions[i].1,
            p.daily_claims,
            s.daily_missions@[i],
        ));
    }
    if 0 <= i < p.rooms.len() {
        assert(room_shows(p.rooms[i].0, p.rooms[i].1, s.messengers@[i]));
    }
}

proof fn lemma_claims(rows: Seq<(Key, i64)>, a: int)
    ensures
        keys_under(rows, a, None) == tally(rows, a, None, None),
    decreases rows.len(),
{
    if rows.len() > 0 {
        lemma_claims(rows.drop_last(), a);
    }
}

/// A snapshot shows every score with all its results, the owned content, the open stages,
/// the seasons that were paid for and the tickets.
pub proof fn law_snapshot_collections(
    p: PlayerModel,
    usn: int,
    user_id: Seq<char>,
    s: PlayerSnapshot,
    i: int,
)
    requires
        player_shown(p, usn, user_id, Ok(s)),
    ensures
        s.music_scores@.len() == p.scores.len() && (0 <= i < p.scores.len() ==> {
            let (x, (key, row)) = (s.music_scores@[i], p.scores[i]);
            let r = row.state;
            x.music_id == key.a as i32 && x.difficulty == key.b as i16 && x.score == r.score
                && x.grade == r.grade && x.play_count == r.play_count && x.combo_grade
                == r.combo_grade && x.gp == r.gp && x.multiple == r.multiple && x.achievement
                == r.achievement && x.play_type == r.play_type && x.mission_clear
                == r.mission_clear && x.is_credit == r.is_credit && x.played_at@ == row.played_at
        }),
        s.owned_content@.len() == owned_sorted(p.owned).len() && (0 <= i < s.owned_content@.len()
            ==> {
            let (x, key) = (s.owned_content@[i], owned_sorted(p.owned)[i].0);
            x.kind == kind_of_rank(key.a) && x.area == key.b as i32 && x.content_id == key.c
        }),
        s.ch3.stages@.len() == stages_sorted(p.stages).len() && (0 <= i < s.ch3.stages@.len() ==> {
            let (x, (key, row)) = (s.ch3.stages@[i], stages_sorted(p.stages)[i]);
            x.stage_id == key.c && x.chapter == row.chapter && x.stage_index == row.stage_index
                && x.completed == row.completed && x.best_star == row.best_star && x.best_score
                == row.best_score
        }),
        s.pass.tickets@.len() == p.tickets.len() && (0 <= i < p.tickets.len()
            ==> s.pass.tickets@[i] == p.tickets[i].0.a),
        s.pass.premium_seasons@ == premium_seasons(p.entitlements),
{
    let shown = scores_shown(p.scores);
    assert(score_models(s.music_scores@) == shown);
    assert(shown.len() == p.scores.len());
    assert(score_models(s.music_scores@).len() == s.music_scores@.len());
    if 0 <= i < p.scores.len() {
        assert(score_models(s.music_scores@)[i] == score_model(s.music_scores@[i]));
        assert(shown[i].state == (ScoreState { updated_at: 0, ..p.scores[i].1.state }));
    }
}

/// A balance is found in the list that shows them.
pub proof fn law_balances_are_listed(w: Wallet, kind: CurrencyKind)
    ensures
        PlayerSnapshot::listed(balances_shown(w), kind) == w.balance(kind),
{
    let all = balances_shown(w);
    let i: int = match kind {
        CurrencyKind::Candy => 0,
        CurrencyKind::Ch1Like => 1,
        CurrencyKind::Ch2Like => 2,
        CurrencyKind::Ch2Note => 3,
        CurrencyKind::ChocoMilk => 4,
        CurrencyKind::Chocolate => 5,
        CurrencyKind::Fans => 6,
        CurrencyKind::Gingerbread => 7,
    };
    assert(all[i].0 == kind);
    assert forall|j: int| 0 <= j < i implies (#[trigger] all[j]).0 != kind by {}
    lemma_listed_at(all, kind, i);
}

proof fn lemma_listed_at(entries: Seq<(CurrencyKind, Real)>, kind: CurrencyKind, i: int)
    requires
        0 <= i < entries.len(),
        entries[i].0 == kind,
        forall|j: int| 0 <= j < i ==> (#[trigger] entries[j]).0 != kind,
    ensures
        PlayerSnapshot::listed(entries, kind) == entries[i].1,
    decreases i,
{
    if i > 0 {
        let rest = entries.drop_first();
        assert(entries[0].0 != kind);
        assert forall|j: int| 0 <= j < i - 1 implies (#[trigger] rest[j]).0 != kind by {
            assert(rest[j] == entries[j + 1]);
        }
        lemma_listed_at(rest, kind, i - 1);
    }
}

/// A claim of a level of a daily mission counts for that mission, on whatever day it was,
/// and for no other.
pub proof fn law_mission_claims(claims: Seq<(Key, i64)>, claim: (Key, i64), id: int)
    ensures
        mission_claims(Seq::empty(), id) == 0,
        mission_claims(claims.push(claim), id) == mission_claims(claims, id) + if claim.0.b == id {
            1nat
        } else {
            0
        },
{
    assert(claims.push(claim).drop_last() =~= claims);
}

/// All content that is owned is shown, by kind, channel and id, and nothing else is.
pub proof fn law_owned_content_is_shown(owned: Seq<(Key, OwnedModel)>, key: Key)
    ensures
        get(owned_sorted(owned), key) is Some <==> exists|i: int|
            0 <= i < owned.len() && key == k3(
                (#[trigger] owned[i]).0.a as int,
                owned[i].1.area as int,
                owned[i].0.b as int,
            ),
    decreases owned.len(),
{
    if owned.len() > 0 {
        let front = owned.drop_last();
        let n = owned.len() - 1;
        law_owned_content_is_shown(front, key);
        assert(owned[n] == owned.last());
        assert forall|i: int| 0 <= i < n implies #[trigger] front[i] == owned[i] by {}
        assert forall|i: int| 0 <= i < n implies front[i] == #[trigger] owned[i] by {}
        let (at, row) = owned.last();
        law_get_put(
            owned_sorted(front),
            k3(at.a as int, row.area as int, at.b as int),
            true,
            key,
        );
    }
}

/// The stages of the third channel that are shown are those that are open.
pub proof fn law_open_stages_are_shown(stages: Seq<(Key, StageRow)>, i: int)
    requires
        0 <= i < stages.len(),
        forall|j: int, k: int|
            0 <= j < k < stages.len() ==> (#[trigger] stages[j]).0.a != (#[trigger] stages[k]).0.a,
    ensures
        ({
            let (key, row) = stages[i];
            let at = k3(row.chapter as int, row.stage_index as int, key.a as int);
            get(stages_sorted(stages), at) == if row.unlocked {
                Some(row)
            } else {
                None
            }
        }),
        stages_sorted(stages).len() <= stages.len(),
    decreases stages.len(),
{
    lemma_stages_sorted(
        stages,
        stages.len(),
        i,
    );
}

proof fn lemma_stages_sorted(stages: Seq<(Key, StageRow)>, n: nat, i: int)
    requires
        n <= stages.len(),
        0 <= i < stages.len(),
        forall|j: int, k: int|
            0 <= j < k < stages.len() ==> (#[trigger] stages[j]).0.a != (#[trigger] stages[k]).0.a,
    ensures
        ({
            let (key, row) = stages[i];
            let at = k3(row.chapter as int, row.stage_index as int, key.a as int);
            get(stages_sorted(stages.take(n as int)), at) == if i < n && row.unlocked {
                Some(row)
            } else {
                None
            }
        }),
        stages_sorted(stages.take(n as int)).len() <= n,
        n == stages.len() ==> stages.take(n as int) == stages,
    decreases n,
{
    if n > 0 {
        let m = (n - 1) as nat;
        lemma_stages_sorted(stages, m, i);
        assert(stages.take(n as int).drop_last() =~= stages.take(m as int));
        assert(stages.take(n as int).last() == stages[m as int]);
        let (key, row) = stages[i];
        let (other, last) = stages[m as int];
        let at = k3(row.chapter as int, row.stage_index as int, key.a as int);
        let before = stages_sorted(stages.take(m as int));
        let new = k3(last.chapter as int, last.stage_index as int, other.a as int);
        law_get_put(before, new, last, at);
        lemma_put_len(before, new, last);
        if i != m {
            if i < m {
                assert(stages[i].0.a != stages[m as int].0.a);
            } else {
                assert(stages[m as int].0.a != stages[i].0.a);
            }
        }
    }
    if n == stages.len() {
        assert(stages.take(n as int) =~= stages);
    }
}

proof fn lemma_put_len<V>(rows: Seq<(Key, V)>, key: Key, row: V)
    ensures
        put(rows, key, row).len() <= rows.len() + 1,
    decreases rows.len(),
{
    if rows.len() > 0 {
        lemma_put_len(rows.drop_first(), key, row);
    }
}

/// There is a snapshot of every player who has logged in, as far as the festival can be
/// counted.
pub proof fn law_snapshots_are_there(
    p: PlayerModel,
    usn: int,
    user_id: Seq<char>,
    r: Result<PlayerSnapshot, StoreError>,
)
    requires
        player_shown(p, usn, user_id, r),
        p.anchor is Some,
        i32::MIN <= event_step(p.samseck) <= i32::MAX,
    ensures
        r matches Ok(s) && s.samseck_step == event_step(p.samseck),
{
}

} // verus!
