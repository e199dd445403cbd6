//! What the guide means for a player.
use crate::command::{Command, Mutation, Rules};
use crate::domain::{FollowerQuestSnapshot, RewardGrant};
use crate::errors::{SqlFault, StoreError};
use crate::number::{Real, ZERO};
use crate::outcome::Outcome;
use crate::player::PlayerModel;
use crate::quests::{
    claimed_tasks, completed_stage, newest_stage, quest_state, stage_closed, stage_opened, task,
    task_advanced, AdvanceQuest, SetQuestInfinite,
};
use crate::reward_laws::law_rewards_spare_the_rest;
use crate::rewards::all_granted;
use crate::rows::{ConditionRow, QuestRow};
use crate::table::{get, k1, k2, key_less, law_get_put, put, sorted, Key};
use vstd::prelude::*;

verus! {

/// How far a task is, zero where nothing is known of it.
pub open spec fn progress_of(p: PlayerModel, stage: int, number: int) -> Option<Real> {
    match get(p.conditions, k2(stage, number)) {
        Some(row) => Some(row.quantity),
        None => None,
    }
}

/// Whether a task was claimed.
pub open spec fn is_claimed(p: PlayerModel, stage: int, number: int) -> bool {
    get(p.conditions, k2(stage, number)) matches Some(row) && row.claimed
}

/// A reported task is as far as the larger of what it was and what is reported. When that
/// reaches the threshold and it was not claimed, it is claimed with its rewards; in any
/// other case nothing is given. What was claimed stays claimed, and other tasks stay as
/// they were.
pub proof fn law_tasks_advance(
    p: PlayerModel,
    m: Mutation,
    rules: Rules,
    stage: int,
    number: int,
    value: Real,
    threshold: Real,
    rewards: Seq<RewardGrant>,
    other: Key,
)
    ensures
        ({
            let key = k2(stage, number);
            let reached = match progress_of(p, stage, number) {
                Some(before) => before.or_larger(value),
                None => value,
            };
            let due = threshold.le(reached) && !is_claimed(p, stage, number);
            let claimed = is_claimed(p, stage, number) || due;
            let row = ConditionRow { quantity: reached, claimed };
            let entered = PlayerModel { conditions: put(p.conditions, key, row), ..p };
            match task_advanced(p, m, rules, stage, number, value, threshold, rewards) {
                Err(_) => due && all_granted(
                    entered,
                    rules,
                    rewards,
                    m.now,
                    "follower-quest"@,
                ) is Err,
                Ok((q, given)) => {
                    &&& get(q.conditions, key) == Some(row)
                    &&& other != key ==> get(q.conditions, other) == get(p.conditions, other)
                    &&& !due ==> given.len() == 0 && q == (PlayerModel {
                        conditions: q.conditions,
                        ..p
                    })
                    &&& due ==> all_granted(
                        PlayerModel { conditions: q.conditions, ..p },
                        rules,
                        rewards,
                        m.now,
                        "follower-quest"@,
                    ) == Ok::<(PlayerModel, Seq<RewardGrant>), StoreError>((q, given))
                },
            }
        }),
{
    let key = k2(stage, number);
    let reached = match progress_of(p, stage, number) {
        Some(before) => before.or_larger(value),
        None => value,
    };
    let due = threshold.le(reached) && !is_claimed(p, stage, number);
    let row = ConditionRow { quantity: reached, claimed: is_claimed(p, stage, number) || due };
    law_get_put(p.conditions, key, row, key);
    law_get_put(p.conditions, key, row, other);
    law_rewards_spare_the_rest(
        PlayerModel { conditions: put(p.conditions, key, row), ..p },
        rules,
        rewards,
        m.now,
        "follower-quest"@,
    );
}

/// How many of the rows of a stage are claimed: one more where an unclaimed task is.
pub proof fn law_claimed_tasks(
    conditions: Seq<(Key, ConditionRow)>,
    key: Key,
    row: ConditionRow,
    stage: int,
)
    requires
        sorted(conditions),
    ensures
        claimed_tasks(put(conditions, key, row), stage) == claimed_tasks(conditions, stage) + (
        if key.a == stage && row.claimed {
            1int
        } else {
            0
        }) - (if key.a == stage && (get(conditions, key) matches Some(before) && before.claimed) {
            1int
        } else {
            0
        }),
    decreases conditions.len(),
{
    lemma_claimed_one(key, row, stage);
    if conditions.len() == 0 || key_less(key, conditions[0].0) {
        lemma_claimed_join(seq![(key, row)], conditions, stage);
        lemma_first_absent(conditions, key);
    } else {
        let rest = conditions.drop_first();
        assert(seq![conditions[0]] + rest =~= conditions);
        lemma_claimed_one(conditions[0].0, conditions[0].1, stage);
        lemma_claimed_join(seq![conditions[0]], rest, stage);
        if conditions[0].0 == key {
            assert(put(conditions, key, row) =~= seq![(key, row)] + rest);
            lemma_claimed_join(seq![(key, row)], rest, stage);
        } else {
            assert forall|i: int, j: int| 0 <= i < j < rest.len() implies key_less(
                #[trigger] rest[i].0,
                #[trigger] rest[j].0,
            ) by {
                assert(rest[i] == conditions[i + 1] && rest[j] == conditions[j + 1]);
            }
            law_claimed_tasks(rest, key, row, stage);
            lemma_claimed_join(seq![conditions[0]], put(rest, key, row), stage);
        }
    }
}

proof fn lemma_first_absent(conditions: Seq<(Key, ConditionRow)>, key: Key)
    requires
        sorted(conditions),
        conditions.len() == 0 || key_less(key, conditions[0].0),
    ensures
        get(conditions, key) is None,
    decreases conditions.len(),
{
    if conditions.len() > 0 {
        let rest = conditions.drop_first();
        assert forall|i: int, j: int| 0 <= i < j < rest.len() implies key_less(
            #[trigger] rest[i].0,
            #[trigger] rest[j].0,
        ) by {
            assert(rest[i] == conditions[i + 1] && rest[j] == conditions[j + 1]);
        }
        if rest.len() > 0 {
            assert(key_less(conditions[0].0, conditions[1].0));
            assert(rest[0] == conditions[1]);
        }
        lemma_first_absent(rest, key);
    }
}

proof fn lemma_claimed_one(key: Key, row: ConditionRow, stage: int)
    ensures
        claimed_tasks(seq![(key, row)], stage) == if key.a == stage && row.claimed {
            1nat
        } else {
            0
        },
{
    assert(seq![(key, row)].drop_last() =~= Seq::<(Key, ConditionRow)>::empty());
    reveal_with_fuel(claimed_tasks, 2);
}

proof fn lemma_claimed_join(
    x: Seq<(Key, ConditionRow)>,
    y: Seq<(Key, ConditionRow)>,
    stage: int,
)
    ensures
        claimed_tasks(x + y, stage) == claimed_tasks(x, stage) + claimed_tasks(y, stage),
    decreases y.len(),
{
    if y.len() == 0 {
        assert(x + y =~= x);
    } else {
        assert((x + y).drop_last() =~= x + y.drop_last());
        lemma_claimed_join(x, y.drop_last(), stage);
    }
}

/// A stage is closed exactly when three of its tasks were claimed: it is completed then,
/// the next one is open, and the next one is shown if there is one. Before that nothing
/// happens. Other stages stay as they were.
pub proof fn law_stages_close(
    p: PlayerModel,
    stage: int,
    next_id: Option<i64>,
    now: i64,
    other: Key,
)
    requires
        i64::MIN <= stage <= i64::MAX,
        next_id matches Some(next) ==> next != stage,
    ensures
        ({
            let (q, shown, closed) = stage_closed(p, stage, next_id, now);
            &&& closed == (claimed_tasks(p.conditions, stage) == 3)
            &&& !closed ==> q == p && shown == stage
            &&& closed ==> {
                &&& shown == match next_id {
                    Some(next) => next as int,
                    None => stage,
                }
                &&& get(q.quests, k1(stage)) == match get(p.quests, k1(stage)) {
                    Some(before) => Some(
                        QuestRow { completed: true, infinite: before.infinite, updated_at: now },
                    ),
                    None => None,
                }
                &&& next_id matches Some(next) ==> get(q.quests, k1(next as int)) == Some(
                    match get(p.quests, k1(next as int)) {
                        Some(before) => before,
                        None => QuestRow { completed: false, infinite: false, updated_at: now },
                    },
                )
                &&& other != k1(stage) && !(next_id matches Some(next) && other == k1(next as int))
                    ==> get(q.quests, other) == get(p.quests, other)
                &&& q == PlayerModel { quests: q.quests, ..p }
            }
        }),
{
    if let Some(row) = get(p.quests, k1(stage)) {
        let done = QuestRow { completed: true, updated_at: now, ..row };
        law_get_put(p.quests, k1(stage), done, k1(stage));
        law_get_put(p.quests, k1(stage), done, other);
        if let Some(next) = next_id {
            law_get_put(p.quests, k1(stage), done, k1(next as int));
            let quests = put(p.quests, k1(stage), done);
            let fresh = QuestRow { completed: false, infinite: false, updated_at: now };
            law_get_put(quests, k1(next as int), fresh, k1(next as int));
            law_get_put(quests, k1(next as int), fresh, k1(stage));
            law_get_put(quests, k1(next as int), fresh, other);
        }
    } else if let Some(next) = next_id {
        let fresh = QuestRow { completed: false, infinite: false, updated_at: now };
        law_get_put(p.quests, k1(next as int), fresh, k1(next as int));
        law_get_put(p.quests, k1(next as int), fresh, k1(stage));
        law_get_put(p.quests, k1(next as int), fresh, other);
    }
}

/// The stage that reports are about: the newest one, or the first.
pub open spec fn active_stage(p: PlayerModel) -> int {
    if p.quests.len() > 0 && p.quests.last().0.a > 1 {
        p.quests.last().0.a as int
    } else {
        1
    }
}

/// A report about another stage than the active one changes no task and gives nothing; one
/// about the active stage advances its task and then closes the stage, if it is done. The
/// active stage is known afterwards in any case.
pub proof fn law_reports(p: PlayerModel, m: Mutation, rules: Rules, c: AdvanceQuest, other: Key)
    requires
        1 <= c.sub_id <= 3,
    ensures
        ({
            let stage = active_stage(p);
            let open = stage_opened(p, stage, m.now);
            let advanced = task_advanced(
                open,
                m,
                rules,
                stage,
                c.sub_id as int,
                c.condition_value,
                c.thresholds@[c.sub_id - 1],
                c.rewards@,
            );
            &&& open == PlayerModel { quests: open.quests, ..p }
            &&& get(open.quests, k1(stage)) == Some(
                match get(p.quests, k1(stage)) {
                    Some(before) => before,
                    None => QuestRow { completed: false, infinite: false, updated_at: m.now },
                },
            )
            &&& other != k1(stage) ==> get(open.quests, other) == get(p.quests, other)
            &&& c.effect(p, m, rules) matches Ok((q, answer, _)) ==> {
                &&& answer matches Outcome::Quest { quest, complete_id, next, rewards }
                    && complete_id == quest.complete_id && if c.current_id != stage {
                    q == open && !next && rewards.len() == 0 && quest.current_id == stage
                } else {
                    let closed = stage_closed(advanced->Ok_0.0, stage, c.next_id, m.now);
                    advanced is Ok && rewards == advanced->Ok_0.1 && q == closed.0 && next
                        == closed.2 && quest.current_id == closed.1 as i64
                }
            }
            &&& c.current_id != stage ==> c.effect(p, m, rules) is Ok
            &&& c.effect(p, m, rules) is Err && c.current_id == stage ==> advanced is Err || get(
                stage_closed(advanced->Ok_0.0, stage, c.next_id, m.now).0.quests,
                k1(stage_closed(advanced->Ok_0.0, stage, c.next_id, m.now).1),
            ) is None
        }),
{
    let stage = active_stage(p);
    let fresh = QuestRow { completed: false, infinite: false, updated_at: m.now };
    law_get_put(p.quests, k1(stage), fresh, k1(stage));
    law_get_put(p.quests, k1(stage), fresh, other);
}

/// What a stage shows: whether it is completed and goes on without an end, how far its
/// three tasks are and which were claimed, and the newest completed stage.
pub proof fn law_stages_are_shown(p: PlayerModel, stage: int, number: int)
    requires
        1 <= number <= 3,
        i64::MIN <= stage <= i64::MAX,
    ensures
        match get(p.quests, k1(stage)) {
            None => quest_state(p, stage) == Err::<FollowerQuestSnapshot, StoreError>(
                StoreError::Sql(SqlFault::NoRows),
            ),
            Some(row) => quest_state(p, stage) matches Ok(shown) && {
                &&& shown.current_id == stage
                &&& shown.completed == row.completed
                &&& shown.infinite == row.infinite
                &&& shown.complete_id == completed_stage(p.quests) as i64
                &&& shown.claimed[number - 1] == is_claimed(p, stage, number)
                &&& shown.condition_values[number - 1] == match progress_of(p, stage, number) {
                    Some(x) => x,
                    None => Real { bits: ZERO },
                }
            },
        },
{
}

/// The newest completed stage is completed, and no stage after it is; it is zero where
/// none is.
pub proof fn law_completed_stage(quests: Seq<(Key, QuestRow)>, i: int)
    requires
        sorted(quests),
        forall|j: int|
            0 <= j < quests.len() ==> (#[trigger] quests[j]).0 == k1(quests[j].0.a as int),
    ensures
        0 <= i < quests.len() && quests[i].1.completed ==> quests[i].0.a <= completed_stage(quests),
        completed_stage(quests) == 0 || exists|j: int|
            0 <= j < quests.len() && (#[trigger] quests[j]).0.a == completed_stage(quests)
                && quests[j].1.completed,
        (forall|j: int| 0 <= j < quests.len() ==> !(#[trigger] quests[j]).1.completed)
            ==> completed_stage(quests) == 0,
    decreases quests.len(),
{
    if quests.len() > 0 {
        let front = quests.drop_last();
        let n = quests.len() - 1;
        assert forall|j: int| 0 <= j < n implies #[trigger] front[j] == quests[j] by {}
        assert forall|j: int| 0 <= j < front.len() implies (#[trigger] front[j]).0 == k1(
            front[j].0.a as int,
        ) by {
            assert(front[j] == quests[j]);
        }
        assert(quests[n] == quests.last());
        law_completed_stage(front, i);
        if quests.last().1.completed {
            if 0 <= i < n {
                assert(key_less(quests[i].0, quests[n].0));
            }
        } else {
            if 0 <= i < n {
                assert(front[i] == quests[i]);
            }
            if completed_stage(front) != 0 {
                let j = choose|j: int|
                    0 <= j < front.len() && (#[trigger] front[j]).0.a == completed_stage(front)
                        && front[j].1.completed;
                assert(quests[j] == front[j]);
            }
        }
    }
}

/// The newest stage goes on without an end afterwards; whether it is completed stays, and
/// other stages stay as they were.
pub proof fn law_without_end(
    p: PlayerModel,
    m: Mutation,
    rules: Rules,
    c: SetQuestInfinite,
    other: Key,
)
    ensures
        ({
            let stage: int = if p.quests.len() > 0 {
                p.quests.last().0.a as int
            } else {
                1
            };
            c.effect(p, m, rules) matches Ok((q, answer, _)) && {
                &&& get(q.quests, k1(stage)) matches Some(row) && row.infinite && row.completed == (
                get(p.quests, k1(stage)) matches Some(before) && before.completed)
                    && row.updated_at == m.now
                &&& other != k1(stage) ==> get(q.quests, other) == get(p.quests, other)
                &&& q == PlayerModel { quests: q.quests, ..p }
                &&& answer matches Outcome::QuestState(shown) && shown.current_id == stage
                    && shown.infinite
            }
        }),
{
    let stage = newest_stage(p.quests);
    let completed = get(p.quests, k1(stage)) matches Some(before) && before.completed;
    let row = QuestRow { completed, infinite: true, updated_at: m.now };
    law_get_put(p.quests, k1(stage), row, k1(stage));
    law_get_put(p.quests, k1(stage), row, other);
}

} // verus!
