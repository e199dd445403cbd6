//! What playing the third channel means for a player.
use crate::ch3::{
    all_dropped, chapter_stars, dropped, restored, ClaimChapter, SettleStage, SettleStream,
};
use crate::command::{Command, Mutation, Rules};
use crate::domain::{Ch3EnergySnapshot, DomainError, RewardGrant};
use crate::errors::StoreError;
use crate::follower_laws::law_ch3_follower;
use crate::followers::follower_updated;
use crate::outcome::Outcome;
use crate::player::PlayerModel;
use crate::reward_laws::{law_rewards_spare_the_rest, rewarded};
use crate::rewards::{all_granted, granted};
use crate::rows::{DropRow, StageRow};
use crate::table::{
    find, get, k1, k2, key_less, law_find_place, law_get_put, law_put_sorted, put, put_new, sorted,
    Key,
};
use vstd::prelude::*;

verus! {

/// Energy grows by one for each second, up to the cap, and is counted from then on.
pub proof fn law_energy_grows(e: Ch3EnergySnapshot, now: i64, cap: i32)
    requires
        0 <= e.amount,
    ensures
        ({
            let r = restored(e, now, cap);
            let elapsed = if now > e.calculated_at {
                now - e.calculated_at
            } else {
                0
            };
            &&& r.cap == cap
            &&& r.calculated_at == now
            &&& e.amount + elapsed >= cap ==> r.amount == cap
            &&& e.amount + elapsed < cap ==> r.amount == e.amount + elapsed
        }),
{
}

/// The stars of a chapter change by as much as those of its stages.
pub proof fn law_stars_add_up(stages: Seq<(Key, StageRow)>, key: Key, row: StageRow, chapter: i32)
    requires
        sorted(stages),
    ensures
        chapter_stars(put(stages, key, row), chapter) == chapter_stars(stages, chapter) + (
        if row.chapter == chapter {
            row.best_star as int
        } else {
            0
        }) - (match get(stages, key) {
            Some(before) => if before.chapter == chapter {
                before.best_star as int
            } else {
                0
            },
            None => 0,
        }),
    decreases stages.len(),
{
    lemma_stars_one(key, row, chapter);
    if stages.len() == 0 || key_less(key, stages[0].0) {
        lemma_stars_join(seq![(key, row)], stages, chapter);
        lemma_first_absent(stages, key);
    } else {
        let rest = stages.drop_first();
        assert(seq![stages[0]] + rest =~= stages);
        lemma_stars_one(stages[0].0, stages[0].1, chapter);
        lemma_stars_join(seq![stages[0]], rest, chapter);
        if stages[0].0 == key {
            assert(put(stages, key, row) =~= seq![(key, row)] + rest);
            lemma_stars_join(seq![(key, row)], rest, chapter);
        } else {
            assert forall|i: int, j: int| 0 <= i < j < rest.len() implies key_less(
                #[trigger] rest[i].0,
                #[trigger] rest[j].0,
            ) by {
                assert(rest[i] == stages[i + 1] && rest[j] == stages[j + 1]);
            }
            law_stars_add_up(rest, key, row, chapter);
            lemma_stars_join(seq![stages[0]], put(rest, key, row), chapter);
        }
    }
}

proof fn lemma_first_absent(stages: Seq<(Key, StageRow)>, key: Key)
    requires
        sorted(stages),
        stages.len() == 0 || key_less(key, stages[0].0),
    ensures
        get(stages, key) is None,
    decreases stages.len(),
{
    if stages.len() > 0 {
        let rest = stages.drop_first();
        assert forall|i: int, j: int| 0 <= i < j < rest.len() implies key_less(
            #[trigger] rest[i].0,
            #[trigger] rest[j].0,
        ) by {
            assert(rest[i] == stages[i + 1] && rest[j] == stages[j + 1]);
        }
        if rest.len() > 0 {
            assert(key_less(stages[0].0, stages[1].0));
            assert(rest[0] == stages[1]);
        }
        lemma_first_absent(rest, key);
    }
}

proof fn lemma_stars_one(key: Key, row: StageRow, chapter: i32)
    ensures
        chapter_stars(seq![(key, row)], chapter) == if row.chapter == chapter {
            row.best_star as int
        } else {
            0
        },
{
    assert(seq![(key, row)].drop_last() =~= Seq::<(Key, StageRow)>::empty());
    reveal_with_fuel(chapter_stars, 2);
}

proof fn lemma_stars_join(x: Seq<(Key, StageRow)>, y: Seq<(Key, StageRow)>, chapter: i32)
    ensures
        chapter_stars(x + y, chapter) == chapter_stars(x, chapter) + chapter_stars(y, chapter),
    decreases y.len(),
{
    if y.len() == 0 {
        assert(x + y =~= x);
    } else {
        assert((x + y).drop_last() =~= x + y.drop_last());
        lemma_stars_join(x, y.drop_last(), chapter);
    }
}

/// What the energy of a player is now.
pub open spec fn energy_now(p: PlayerModel, now: i64, cap: i32) -> int {
    restored(p.energy, now, cap).amount as int
}

/// A stage is played only if it is open and there is energy for it, which is spent; else
/// nothing happens.
pub proof fn law_playing_costs_energy(p: PlayerModel, now: i64, c: SettleStage)
    requires
        c.energy_cost >= 0,
        0 <= p.energy.amount,
        0 <= c.energy_cap,
    ensures
        ({
            let open = get(p.stages, k1(c.stage.stage_id as int)) matches Some(row)
                && row.unlocked;
            let energy = energy_now(p, now, c.energy_cap);
            match c.played(p, now) {
                Err(e) => {
                    &&& !open || energy < c.energy_cost
                    &&& !open ==> e == StoreError::Domain(DomainError::Locked)
                    &&& open ==> e == StoreError::Domain(DomainError::InsufficientEnergy)
                },
                Ok((q, left)) => {
                    &&& open && energy >= c.energy_cost
                    &&& q.energy == left && left.amount == energy - c.energy_cost && left.cap
                        == c.energy_cap && left.calculated_at == now
                    &&& q == PlayerModel { energy: left, stages: q.stages, ..p }
                },
            }
        }),
{
}

/// A cleared stage is completed and keeps the best of its stars and of its scores; the
/// next stage is open afterwards, and what it had before stays. All other stages stay as
/// they were, and all of them where the stage was not cleared.
pub proof fn law_best_results_stay(p: PlayerModel, now: i64, c: SettleStage, other: Key)
    requires
        c.played(p, now) is Ok,
        c.next matches Some(next) ==> next.stage_id != c.stage.stage_id,
    ensures
        ({
            let q = c.played(p, now)->Ok_0.0;
            let key = k1(c.stage.stage_id as int);
            let cleared = c.stage.story || c.star > 0;
            &&& !cleared ==> q.stages == p.stages
            &&& cleared ==> {
                &&& get(p.stages, key) is Some
                &&& get(q.stages, key) matches Some(after) && {
                    let before = get(p.stages, key)->Some_0;
                    &&& after.completed
                    &&& after.best_star >= before.best_star && after.best_star >= c.star
                    &&& after.best_star == before.best_star || after.best_star == c.star
                    &&& after.best_score >= before.best_score && after.best_score >= c.score
                    &&& after.best_score == before.best_score || after.best_score == c.score
                    &&& after.chapter == before.chapter && after.stage_index == before.stage_index
                        && after.unlocked == before.unlocked
                }
                &&& c.next matches Some(next) ==> get(q.stages, k1(next.stage_id as int)) == Some(
                    match get(p.stages, k1(next.stage_id as int)) {
                        Some(row) => row,
                        None => StageRow {
                            chapter: next.chapter,
                            stage_index: next.stage_index,
                            completed: false,
                            best_star: 0,
                            best_score: 0,
                            unlocked: true,
                        },
                    },
                )
                &&& other != key && !(c.next matches Some(next) && other == k1(
                    next.stage_id as int,
                )) ==> get(q.stages, other) == get(p.stages, other)
            }
        }),
{
    let q = c.played(p, now)->Ok_0.0;
    let key = k1(c.stage.stage_id as int);
    let row = get(p.stages, key)->Some_0;
    let after = StageRow {
        completed: true,
        best_star: if row.best_star < c.star {
            c.star
        } else {
            row.best_star
        },
        best_score: if row.best_score < c.score {
            c.score
        } else {
            row.best_score
        },
        ..row
    };
    let done = put(p.stages, key, after);
    law_get_put(p.stages, key, after, key);
    law_get_put(p.stages, key, after, other);
    if let Some(next) = c.next {
        let at = k1(next.stage_id as int);
        let fresh = StageRow {
            chapter: next.chapter,
            stage_index: next.stage_index,
            completed: false,
            best_star: 0,
            best_score: 0,
            unlocked: true,
        };
        law_get_put(p.stages, key, after, at);
        law_get_put(done, at, fresh, key);
        law_get_put(done, at, fresh, at);
        law_get_put(done, at, fresh, other);
    }
}

/// The stars of a chapter never fall, and grow by what a play is better than the best so
/// far.
pub proof fn law_stars_never_fall(p: PlayerModel, now: i64, c: SettleStage, chapter: i32)
    requires
        c.played(p, now) is Ok,
        sorted(p.stages),
    ensures
        ({
            let q = c.played(p, now)->Ok_0.0;
            let before = get(p.stages, k1(c.stage.stage_id as int))->Some_0;
            let cleared = c.stage.story || c.star > 0;
            chapter_stars(q.stages, chapter) == chapter_stars(p.stages, chapter) + if cleared
                && before.chapter == chapter && c.star > before.best_star {
                c.star - before.best_star
            } else {
                0
            }
        }),
{
    let key = k1(c.stage.stage_id as int);
    let row = get(p.stages, key)->Some_0;
    let after = StageRow {
        completed: true,
        best_star: if row.best_star < c.star {
            c.star
        } else {
            row.best_star
        },
        best_score: if row.best_score < c.score {
            c.score
        } else {
            row.best_score
        },
        ..row
    };
    let done = put(p.stages, key, after);
    law_stars_add_up(p.stages, key, after, chapter);
    law_put_sorted(p.stages, key, after);
    if let Some(next) = c.next {
        let at = k1(next.stage_id as int);
        let fresh = StageRow {
            chapter: next.chapter,
            stage_index: next.stage_index,
            completed: false,
            best_star: 0,
            best_score: 0,
            unlocked: true,
        };
        if get(done, at) is None {
            law_stars_add_up(done, at, fresh, chapter);
        }
    }
}

proof fn lemma_drops_frame(
    p: PlayerModel,
    drops: Seq<(Seq<char>, Seq<(Key, DropRow)>)>,
    rules: Rules,
    reward: RewardGrant,
    now: i64,
    source: Seq<char>,
)
    ensures
        granted(PlayerModel { drops, ..p }, rules, reward, now, source)
            == match granted(p, rules, reward, now, source) {
            Err(e) => Err(e),
            Ok((q, new)) => Ok((PlayerModel { drops, ..q }, new)),
        },
{
}

/// What is written down for a place of a roll.
pub open spec fn drop_at(p: PlayerModel, transaction: Seq<char>, roll: int, index: int) -> Option<
    DropRow,
> {
    match find(p.drops, transaction) {
        Some(rows) => get(rows, k2(roll, index)),
        None => None,
    }
}

/// Drops are given as any rewards are, in their order, and each is written down under the
/// transaction and its place, where nothing is written over.
pub proof fn law_drops_are_rewards(
    p: PlayerModel,
    m: Mutation,
    rules: Rules,
    roll: int,
    rewards: Seq<RewardGrant>,
    source: Seq<char>,
    i: int,
    other: Seq<char>,
)
    requires
        i64::MIN <= roll <= i64::MAX,
        rewards.len() <= i64::MAX,
    ensures
        match dropped(p, m, rules, roll, rewards, source) {
            Err(_) => all_granted(p, rules, rewards, m.now, source) is Err,
            Ok((q, applied)) => {
                &&& all_granted(p, rules, rewards, m.now, source) matches Ok((r, given)) && given
                    == applied && q == (PlayerModel { drops: q.drops, ..r })
                &&& 0 <= i < rewards.len() ==> drop_at(q, m.key, roll, i) == Some(
                    match drop_at(p, m.key, roll, i) {
                        Some(row) => row,
                        None => DropRow {
                            reward_type: rewards[i].reward_type,
                            reward_id: rewards[i].reward_id,
                            amount: rewards[i].amount,
                        },
                    },
                )
                &&& rewards.len() <= i <= i64::MAX ==> drop_at(q, m.key, roll, i) == drop_at(
                    p,
                    m.key,
                    roll,
                    i,
                )
                &&& other != m.key ==> find(q.drops, other) == find(p.drops, other)
            },
        },
    decreases rewards.len(),
{
    if rewards.len() > 0 {
        let front = rewards.drop_last();
        let n = rewards.len() - 1;
        law_drops_are_rewards(p, m, rules, roll, front, source, i, other);
        law_drops_are_rewards(p, m, rules, roll, front, source, n, other);
        if let Ok((q, applied)) = dropped(p, m, rules, roll, front, source) {
            let (r, given) = all_granted(p, rules, front, m.now, source)->Ok_0;
            lemma_drops_frame(r, q.drops, rules, rewards.last(), m.now, source);
            let known = match find(q.drops, m.key) {
                Some(t) => t,
                None => Seq::empty(),
            };
            let reward = rewards.last();
            let row = DropRow {
                reward_type: reward.reward_type,
                reward_id: reward.reward_id,
                amount: reward.amount,
            };
            let next = put_new(known, k2(roll, n), row);
            law_get_put(known, k2(roll, n), row, k2(roll, i));
            law_get_put(known, k2(roll, n), row, k2(roll, n));
            law_find_place(q.drops, m.key, next, m.key);
            law_find_place(q.drops, m.key, next, other);
            if 0 <= i < n {
                assert(front[i] == rewards[i]);
            }
        }
    }
}

/// A cleared stage gives its rewards, and its follower gains its experience unless it is
/// a story; one that was not cleared gives neither. The answer shows the stage, the energy
/// and the follower as they are afterwards.
pub proof fn law_stages_are_settled(p: PlayerModel, m: Mutation, rules: Rules, c: SettleStage)
    ensures
        c.effect(p, m, rules) matches Ok((q, answer, _)) ==> {
            let cleared = c.stage.story || c.star > 0;
            let played = c.played(p, m.now);
            let given = if cleared {
                dropped(played->Ok_0.0, m, rules, 1, c.rewards@, "ch3-stage"@)
            } else {
                Ok((played->Ok_0.0, Seq::empty()))
            };
            let gain = if cleared && !c.stage.story {
                c.profile_exp_gain as int
            } else {
                0
            };
            let fed = follower_updated(
                given->Ok_0.0,
                100_000,
                gain,
                c.profile_level_thresholds@,
            );
            let key = k1(c.stage.stage_id as int);
            &&& played is Ok && given is Ok
            &&& q == fed.0
            &&& get(q.stages, key) is Some
            &&& answer matches Outcome::Settlement { stage, energy, profile, rewards } && {
                let row = get(q.stages, key)->Some_0;
                &&& stage.stage_id == c.stage.stage_id && stage.chapter == row.chapter
                    && stage.stage_index == row.stage_index && stage.completed == row.completed
                    && stage.best_star == row.best_star && stage.best_score == row.best_score
                &&& energy == played->Ok_0.1
                &&& profile == fed.1
                &&& rewards == given->Ok_0.1
                &&& !cleared ==> rewards.len() == 0
            }
        },
        c.played(p, m.now) matches Err(e) ==> c.effect(p, m, rules) == Err::<
            (PlayerModel, Outcome, Outcome),
            StoreError,
        >(e),
        c.effect(p, m, rules) is Err && c.played(p, m.now) is Ok ==> {
            let r = c.played(p, m.now)->Ok_0.0;
            let given = if c.stage.story || c.star > 0 {
                dropped(r, m, rules, 1, c.rewards@, "ch3-stage"@)
            } else {
                Ok((r, Seq::empty()))
            };
            given is Err || get(given->Ok_0.0.affection, k1(100_000)) is None || get(
                given->Ok_0.0.stages,
                k1(c.stage.stage_id as int),
            ) is None
        },
{
    if let Ok((r, _)) = c.played(p, m.now) {
        let given = if c.stage.story || c.star > 0 {
            dropped(r, m, rules, 1, c.rewards@, "ch3-stage"@)
        } else {
            Ok((r, Seq::empty()))
        };
        if let Ok((s, _)) = given {
            law_ch3_follower(
                s,
                if (c.stage.story || c.star > 0) && !c.stage.story {
                    c.profile_exp_gain as int
                } else {
                    0
                },
                c.profile_level_thresholds@,
            );
        }
    }
}

/// A chapter reward is given once, and only for the stars that it asks for; then it is
/// entered, its rewards are given and the energy is counted anew.
pub proof fn law_chapter_rewards(
    p: PlayerModel,
    m: Mutation,
    rules: Rules,
    c: ClaimChapter,
    other: Key,
)
    ensures
        ({
            let key = k2(c.chapter as int, c.reward_num as int);
            match c.effect(p, m, rules) {
                Err(e) => {
                    &&& chapter_stars(p.stages, c.chapter) < c.goal ==> e == StoreError::Domain(
                        DomainError::Locked,
                    )
                    &&& chapter_stars(p.stages, c.chapter) >= c.goal && get(
                        p.chapter_claims,
                        key,
                    ) is Some ==> e == StoreError::Domain(DomainError::AlreadyClaimed)
                    &&& chapter_stars(p.stages, c.chapter) >= c.goal && get(
                        p.chapter_claims,
                        key,
                    ) is None ==> all_granted(
                        PlayerModel { chapter_claims: put(p.chapter_claims, key, m.now), ..p },
                        rules,
                        c.rewards@,
                        m.now,
                        "ch3-chapter"@,
                    ) is Err
                },
                Ok((q, answer, _)) => {
                    let given = all_granted(
                        PlayerModel { chapter_claims: q.chapter_claims, ..p },
                        rules,
                        c.rewards@,
                        m.now,
                        "ch3-chapter"@,
                    );
                    &&& chapter_stars(p.stages, c.chapter) >= c.goal
                    &&& get(p.chapter_claims, key) is None
                    &&& get(q.chapter_claims, key) == Some(m.now)
                    &&& other != key ==> get(q.chapter_claims, other) == get(
                        p.chapter_claims,
                        other,
                    )
                    &&& given is Ok
                    &&& q == PlayerModel {
                        energy: restored(given->Ok_0.0.energy, m.now, c.energy_cap),
                        ..given->Ok_0.0
                    }
                    &&& answer == Outcome::Chapter(q.energy, given->Ok_0.1)
                },
            }
        }),
{
    let key = k2(c.chapter as int, c.reward_num as int);
    law_get_put(p.chapter_claims, key, m.now, key);
    law_get_put(p.chapter_claims, key, m.now, other);
    law_rewards_spare_the_rest(
        PlayerModel { chapter_claims: put(p.chapter_claims, key, m.now), ..p },
        rules,
        c.rewards@,
        m.now,
        "ch3-chapter"@,
    );
}

/// Only a completed stage can be replayed, for its energy as often as it is replayed; its
/// follower gains the experience as often. The stages stay as they were.
pub proof fn law_replays(p: PlayerModel, m: Mutation, rules: Rules, c: SettleStream)
    requires
        0 <= p.energy.amount,
        0 <= c.energy_cap,
        0 <= c.energy_cost_each * c.count <= i32::MAX,
        i64::MIN <= c.profile_exp_each * c.count <= i64::MAX,
    ensures
        ({
            let done = get(p.stages, k1(c.stage_id as int)) matches Some(row) && row.completed;
            let energy = energy_now(p, m.now, c.energy_cap);
            let cost = c.energy_cost_each * c.count;
            &&& !done ==> c.effect(p, m, rules) == Err::<
                (PlayerModel, Outcome, Outcome),
                StoreError,
            >(StoreError::Domain(DomainError::Locked))
            &&& done && energy < cost ==> c.effect(p, m, rules) == Err::<
                (PlayerModel, Outcome, Outcome),
                StoreError,
            >(StoreError::Domain(DomainError::InsufficientEnergy))
            &&& c.effect(p, m, rules) matches Ok((q, answer, _)) ==> {
                let left = Ch3EnergySnapshot {
                    amount: (energy - cost) as i32,
                    cap: c.energy_cap,
                    calculated_at: m.now,
                };
                let given = all_dropped(
                    PlayerModel { energy: left, ..p },
                    m,
                    rules,
                    c.reward_rolls@,
                    "ch3-stream"@,
                );
                &&& done && energy >= cost
                &&& given is Ok
                &&& q == follower_updated(
                    given->Ok_0.0,
                    100_000,
                    c.profile_exp_each * c.count,
                    c.profile_level_thresholds@,
                ).0
                &&& answer matches Outcome::Stream { stage_id, energy, profile, rolls } && stage_id
                    == c.stage_id && energy == left && rolls == given->Ok_0.1
            }
            &&& c.effect(p, m, rules) is Err && done && energy >= cost ==> {
                let left = Ch3EnergySnapshot {
                    amount: (energy - cost) as i32,
                    cap: c.energy_cap,
                    calculated_at: m.now,
                };
                let given = all_dropped(
                    PlayerModel { energy: left, ..p },
                    m,
                    rules,
                    c.reward_rolls@,
                    "ch3-stream"@,
                );
                given is Err || get(given->Ok_0.0.affection, k1(100_000)) is None
            }
        }),
{
    let energy = energy_now(p, m.now, c.energy_cap);
    let cost = c.energy_cost_each * c.count;
    let left = Ch3EnergySnapshot {
        amount: (energy - cost) as i32,
        cap: c.energy_cap,
        calculated_at: m.now,
    };
    if let Ok((r, _)) = all_dropped(
        PlayerModel { energy: left, ..p },
        m,
        rules,
        c.reward_rolls@,
        "ch3-stream"@,
    ) {
        law_ch3_follower(r, c.profile_exp_each * c.count, c.profile_level_thresholds@);
    }
}

/// Rolls are given one after the other, and the answer holds what each of them gave.
pub proof fn law_rolls_follow_each_other(
    p: PlayerModel,
    m: Mutation,
    rules: Rules,
    rolls: Seq<(i32, Vec<RewardGrant>)>,
    roll: (i32, Vec<RewardGrant>),
    source: Seq<char>,
)
    ensures
        all_dropped(p, m, rules, Seq::empty(), source) == Ok::<
            (PlayerModel, Seq<(i32, Seq<RewardGrant>)>),
            StoreError,
        >((p, Seq::empty())),
        all_dropped(p, m, rules, rolls.push(roll), source) == match all_dropped(
            p,
            m,
            rules,
            rolls,
            source,
        ) {
            Err(e) => Err(e),
            Ok((q, done)) => match dropped(q, m, rules, roll.0 as int, roll.1@, source) {
                Err(e) => Err(e),
                Ok((r, applied)) => Ok((r, done.push((roll.0, applied)))),
            },
        },
{
    assert(rolls.push(roll).drop_last() =~= rolls);
    assert(rolls.push(roll).last() == roll);
}

/// Replaying leaves every stage as it was.
pub proof fn law_rolls_spare_stages(
    p: PlayerModel,
    m: Mutation,
    rules: Rules,
    rolls: Seq<(i32, Vec<RewardGrant>)>,
    source: Seq<char>,
)
    requires
        forall|i: int| 0 <= i < rolls.len() ==> (#[trigger] rolls[i]).1@.len() <= i64::MAX,
    ensures
        all_dropped(p, m, rules, rolls, source) matches Ok((q, done)) ==> rewarded(
            PlayerModel { drops: q.drops, ..p },
            q,
        ) && done.len() == rolls.len(),
    decreases rolls.len(),
{
    if rolls.len() > 0 {
        let front = rolls.drop_last();
        assert forall|i: int| 0 <= i < front.len() implies (#[trigger] front[i]).1@.len()
            <= i64::MAX by {
            assert(front[i] == rolls[i]);
        }
        assert(rolls[rolls.len() - 1] == rolls.last());
        law_rolls_spare_stages(p, m, rules, front, source);
        if let Ok((q, _)) = all_dropped(p, m, rules, front, source) {
            law_drops_are_rewards(
                q,
                m,
                rules,
                rolls.last().0 as int,
                rolls.last().1@,
                source,
                0,
                Seq::empty(),
            );
            law_rewards_spare_the_rest(q, rules, rolls.last().1@, m.now, source);
        }
    }
}

} // verus!
