//! The guide: stages of three tasks each.
use crate::command::{answered, Command, Effect, Mutation, RpcMutation, Rules};
use crate::consume_reward::RewardRules;
use crate::domain::{FollowerQuestOutcome, FollowerQuestSnapshot, RewardGrant};
use crate::errors::{SqlFault, StoreError};
use crate::ints::{max64, max_int};
use crate::kept::lemma_all_granted;
use crate::number::{Real, ZERO};
use crate::order::group_keyed;
use crate::outcome::{Outcome, Summary};
use crate::player::{Player, PlayerModel};
use crate::rewards::{all_granted, Change};
use crate::rows::{ConditionRow, QuestRow};
use crate::table::{get, k1, k2, key1, key2, put, put_new, Key, Plain, Table};
use vstd::prelude::*;

verus! {

/// The newest stage, or the first one.
pub open spec fn newest_stage(quests: Seq<(Key, QuestRow)>) -> int {
    if quests.len() == 0 {
        1
    } else {
        quests.last().0.a as int
    }
}

/// The newest stage that was completed, or nothing.
pub open spec fn completed_stage(quests: Seq<(Key, QuestRow)>) -> int
    decreases quests.len(),
{
    if quests.len() == 0 {
        0
    } else if quests.last().1.completed {
        quests.last().0.a as int
    } else {
        completed_stage(quests.drop_last())
    }
}

/// A task of a stage, untouched if it is not known.
pub open spec fn task(
    conditions: Seq<(Key, ConditionRow)>,
    stage: int,
    number: int,
) -> ConditionRow {
    match get(conditions, k2(stage, number)) {
        Some(row) => row,
        None => ConditionRow { quantity: Real { bits: ZERO }, claimed: false },
    }
}

/// How many tasks of a stage were claimed.
pub open spec fn claimed_tasks(conditions: Seq<(Key, ConditionRow)>, stage: int) -> nat
    decreases conditions.len(),
{
    if conditions.len() == 0 {
        0
    } else {
        claimed_tasks(conditions.drop_last(), stage) + if conditions.last().0.a == stage
            && conditions.last().1.claimed {
            1nat
        } else {
            0
        }
    }
}

/// A stage of the guide as the client sees it.
pub open spec fn stage_shown(p: PlayerModel, stage: int, row: QuestRow) -> FollowerQuestSnapshot {
    FollowerQuestSnapshot {
        current_id: stage as i64,
        complete_id: completed_stage(p.quests) as i64,
        completed: row.completed,
        infinite: row.infinite,
        condition_values: [
            task(p.conditions, stage, 1).quantity,
            task(p.conditions, stage, 2).quantity,
            task(p.conditions, stage, 3).quantity,
        ],
        claimed: [
            task(p.conditions, stage, 1).claimed,
            task(p.conditions, stage, 2).claimed,
            task(p.conditions, stage, 3).claimed,
        ],
    }
}

/// A stage of the guide.
pub open spec fn quest_state(
    p: PlayerModel,
    stage: int,
) -> Result<FollowerQuestSnapshot, StoreError> {
    match get(p.quests, k1(stage)) {
        None => Err(StoreError::Sql(SqlFault::NoRows)),
        Some(row) => Ok(stage_shown(p, stage, row)),
    }
}

pub(crate) fn exec_newest_stage(quests: &Table<Plain<QuestRow>>) -> (stage: i64)
    ensures
        stage == newest_stage(quests@),
{
    let n: usize = quests.len();
    if n == 0 {
        1
    } else {
        quests.key_at(n - 1).a
    }
}

fn completed_guide_stage(quests: &Table<Plain<QuestRow>>) -> (stage: i64)
    ensures
        stage == completed_stage(quests@),
{
    let mut i: usize = quests.len();
    proof {
        assert(quests@.take(i as int) =~= quests@);
    }
    while i > 0
        invariant
            i <= quests@.len(),
            completed_stage(quests@) == completed_stage(quests@.take(i as int)),
        decreases i,
    {
        proof {
            assert(quests@.take(i as int).drop_last() =~= quests@.take(i - 1));
        }
        if quests.row_at(i - 1).0.completed {
            return quests.key_at(i - 1).a;
        }
        i = i - 1;
    }
    0
}

pub(crate) fn exec_task(
    conditions: &Table<Plain<ConditionRow>>,
    stage: i64,
    number: i64,
) -> (row: ConditionRow)
    ensures
        row == task(conditions@, stage as int, number as int),
{
    match conditions.get(key2(stage, number)) {
        Some(row) => row.0,
        None => ConditionRow { quantity: Real { bits: ZERO }, claimed: false },
    }
}

fn exec_claimed_tasks(conditions: &Table<Plain<ConditionRow>>, stage: i64) -> (count: usize)
    ensures
        count == claimed_tasks(conditions@, stage as int),
{
    let mut count: usize = 0;
    let mut i: usize = 0;
    proof {
        assert(conditions@.take(0) =~= Seq::empty());
    }
    while i < conditions.len()
        invariant
            i <= conditions@.len(),
            count <= i,
            count == claimed_tasks(conditions@.take(i as int), stage as int),
        decreases conditions@.len() - i,
    {
        proof {
            assert(conditions@.take(i + 1).drop_last() =~= conditions@.take(i as int));
        }
        if conditions.key_at(i).a == stage && conditions.row_at(i).0.claimed {
            count = count + 1;
        }
        i = i + 1;
    }
    proof {
        assert(conditions@.take(i as int) =~= conditions@);
    }
    count
}

impl Player {
    pub(crate) fn show_stage(&self, stage: i64, row: QuestRow) -> (r: FollowerQuestSnapshot)
        ensures
            r == stage_shown(self@, stage as int, row),
    {
        let first = exec_task(&self.conditions, stage, 1);
        let second = exec_task(&self.conditions, stage, 2);
        let third = exec_task(&self.conditions, stage, 3);
        FollowerQuestSnapshot {
            current_id: stage,
            complete_id: completed_guide_stage(&self.quests),
            completed: row.completed,
            infinite: row.infinite,
            condition_values: [first.quantity, second.quantity, third.quantity],
            claimed: [first.claimed, second.claimed, third.claimed],
        }
    }

    pub(crate) fn quest_snapshot(&self, stage: i64) -> (
        r: Result<FollowerQuestSnapshot, StoreError>
    )
        ensures
            r == quest_state(self@, stage as int),
    {
        match self.quests.get(key1(stage)) {
            Some(row) => Ok(self.show_stage(stage, row.0)),
            None => Err(StoreError::Sql(SqlFault::NoRows)),
        }
    }
}

/// Reporting how far a task of the guide is.
pub struct AdvanceQuest {
    pub current_id: i64,
    pub sub_id: i64,
    pub condition_value: Real,
    pub thresholds: [Real; 3],
    pub rewards: Vec<RewardGrant>,
    pub next_id: Option<i64>,
}

/// A new stage of the guide.
pub open spec fn stage_opened(p: PlayerModel, stage: int, now: i64) -> PlayerModel {
    PlayerModel {
        quests: put_new(
            p.quests,
            k1(stage),
            QuestRow { completed: false, infinite: false, updated_at: now },
        ),
        ..p
    }
}

/// How far a task is when it is reported to be as far as `value`.
pub open spec fn task_reached(
    conditions: Seq<(Key, ConditionRow)>,
    stage: int,
    number: int,
    value: Real,
) -> Real {
    match get(conditions, k2(stage, number)) {
        Some(row) => row.quantity.or_larger(value),
        None => value,
    }
}

/// Whether a report brings a task that was not claimed far enough.
pub open spec fn task_due(
    conditions: Seq<(Key, ConditionRow)>,
    stage: int,
    number: int,
    value: Real,
    threshold: Real,
) -> bool {
    threshold.le(task_reached(conditions, stage, number, value)) && !task(
        conditions,
        stage,
        number,
    ).claimed
}

/// A task that has come as far as `value`, claimed with its rewards when it has
/// come far enough for the first time.
pub open spec fn task_advanced(
    p: PlayerModel,
    m: Mutation,
    rules: Rules,
    stage: int,
    number: int,
    value: Real,
    threshold: Real,
    rewards: Seq<RewardGrant>,
) -> Change<Seq<RewardGrant>> {
    let quantity = task_reached(p.conditions, stage, number, value);
    let claimed = task(p.conditions, stage, number).claimed;
    let due = task_due(p.conditions, stage, number, value, threshold);
    let q = PlayerModel {
        conditions: put(
            p.conditions,
            k2(stage, number),
            ConditionRow { quantity, claimed: claimed || due },
        ),
        ..p
    };
    if due {
        all_granted(q, rules, rewards, m.now, "follower-quest"@)
    } else {
        Ok((q, Seq::empty()))
    }
}

/// A stage closed, if all its tasks were claimed, and the next one opened; and
/// the stage that is shown then.
pub open spec fn stage_closed(p: PlayerModel, stage: int, next_id: Option<i64>, now: i64) -> (
    PlayerModel,
    int,
    bool,
) {
    if claimed_tasks(p.conditions, stage) != 3 {
        (p, stage, false)
    } else {
        let closed = match get(p.quests, k1(stage)) {
            Some(row) => PlayerModel {
                quests: put(
                    p.quests,
                    k1(stage),
                    QuestRow { completed: true, updated_at: now, ..row },
                ),
                ..p
            },
            None => p,
        };
        match next_id {
            Some(next) => (stage_opened(closed, next as int, now), next as int, true),
            None => (closed, stage, true),
        }
    }
}

pub open spec fn quest_answer(
    quest: FollowerQuestSnapshot,
    next: bool,
    rewards: Seq<RewardGrant>,
) -> Outcome {
    Outcome::Quest { quest, complete_id: quest.complete_id, next, rewards }
}

pub open spec fn quest_effect(
    p: PlayerModel,
    m: Mutation,
    rules: Rules,
    current_id: i64,
    sub_id: i64,
    value: Real,
    threshold: Real,
    rewards: Seq<RewardGrant>,
    next_id: Option<i64>,
) -> Effect {
    let active = max_int(newest_stage(p.quests), 1);
    let open = stage_opened(p, active, m.now);
    if current_id != active {
        match quest_state(open, active) {
            Err(e) => Err(e),
            Ok(quest) => answered(open, quest_answer(quest, false, Seq::empty())),
        }
    } else {
        match task_advanced(open, m, rules, active, sub_id as int, value, threshold, rewards) {
            Err(e) => Err(e),
            Ok((q, applied)) => {
                let (q, shown, next) = stage_closed(q, active, next_id, m.now);
                match quest_state(q, shown) {
                    Err(e) => Err(e),
                    Ok(quest) => Ok(
                        (
                            q,
                            quest_answer(quest, next, applied),
                            quest_answer(quest, false, Seq::empty()),
                        ),
                    ),
                }
            },
        }
    }
}

impl Player {
    fn open_stage(&mut self, stage: i64, now: i64)
        ensures
            final(self)@ == stage_opened(old(self)@, stage as int, now),
    {
        self.quests.put_new(
            key1(stage),
            Plain(QuestRow { completed: false, infinite: false, updated_at: now }),
        );
    }

    fn close_stage(&mut self, stage: i64, next_id: Option<i64>, now: i64) -> (r: (i64, bool))
        ensures
            (final(self)@, r.0 as int, r.1) == stage_closed(old(self)@, stage as int, next_id, now),
    {
        if exec_claimed_tasks(&self.conditions, stage) != 3 {
            return (stage, false);
        }
        let known: Option<QuestRow> = match self.quests.get(key1(stage)) {
            Some(row) => Some(row.0),
            None => None,
        };
        if let Some(row) = known {
            self.quests.put(
                key1(stage),
                Plain(QuestRow { completed: true, updated_at: now, ..row }),
            );
        }
        match next_id {
            Some(next) => {
                self.open_stage(next, now);
                (next, true)
            },
            None => (stage, true),
        }
    }

    fn advance_task(
        &mut self,
        m: &RpcMutation,
        rules: &RewardRules,
        command: &AdvanceQuest,
        threshold: Real,
    ) -> (r: Result<Vec<RewardGrant>, StoreError>)
        ensures
            match task_advanced(
                old(self)@,
                m@,
                rules@,
                command.current_id as int,
                command.sub_id as int,
                command.condition_value,
                threshold,
                command.rewards@,
            ) {
                Err(e) => r == Err::<Vec<RewardGrant>, StoreError>(e),
                Ok((q, applied)) => match r {
                    Ok(v) => v@ == applied && final(self)@ == q,
                    Err(_) => false,
                },
            },
    {
        let key = key2(command.current_id, command.sub_id);
        let (quantity, claimed): (Real, bool) = match self.conditions.get(key) {
            Some(row) => (row.0.quantity.max(&command.condition_value), row.0.claimed),
            None => (command.condition_value, false),
        };
        let due: bool = threshold.at_most(&quantity) && !claimed;
        self.conditions.put(key, Plain(ConditionRow { quantity, claimed: claimed || due }));
        if due {
            self.apply_reward_grants(rules, &command.rewards, m.committed_at, "follower-quest")
        } else {
            Ok(Vec::new())
        }
    }
}

impl Command for AdvanceQuest {
    open spec fn valid(&self) -> bool {
        1 <= self.sub_id <= 3 && self.condition_value.amount()
    }

    open spec fn effect(&self, p: PlayerModel, m: Mutation, rules: Rules) -> Effect {
        quest_effect(
            p,
            m,
            rules,
            self.current_id,
            self.sub_id,
            self.condition_value,
            self.thresholds@[self.sub_id - 1],
            self.rewards@,
            self.next_id,
        )
    }

    proof fn keeps_order(&self, p: PlayerModel, m: Mutation, rules: Rules) {
        broadcast use group_keyed;

        let stage = max_int(newest_stage(p.quests), 1);
        let open = stage_opened(p, stage, m.now);
        let quantity = task_reached(
            open.conditions,
            stage,
            self.sub_id as int,
            self.condition_value,
        );
        lemma_all_granted(
            PlayerModel {
                conditions: put(
                    open.conditions,
                    k2(stage, self.sub_id as int),
                    ConditionRow { quantity, claimed: true },
                ),
                ..open
            },
            rules,
            self.rewards@,
            m.now,
            "follower-quest"@,
        );
    }

    fn run(&self, p: &mut Player, m: &RpcMutation, rules: &RewardRules) -> (r: Result<
        (Summary, Summary),
        StoreError,
    >) {
        let now: i64 = m.committed_at;
        let active: i64 = max64(exec_newest_stage(&p.quests), 1);
        p.open_stage(active, now);
        if self.current_id != active {
            return match p.quest_snapshot(active) {
                Err(e) => Err(e),
                Ok(quest) => Ok(
                    (
                        Summary::Quest(
                            FollowerQuestOutcome {
                                quest,
                                complete_id: quest.complete_id,
                                next: false,
                                rewards: Vec::new(),
                            },
                        ),
                        Summary::Quest(
                            FollowerQuestOutcome {
                                quest,
                                complete_id: quest.complete_id,
                                next: false,
                                rewards: Vec::new(),
                            },
                        ),
                    ),
                ),
            };
        }
        let threshold: Real = self.thresholds[(self.sub_id - 1) as usize];
        let applied = match p.advance_task(m, rules, self, threshold) {
            Ok(applied) => applied,
            Err(e) => {
                return Err(e);
            },
        };
        let (shown, next) = p.close_stage(active, self.next_id, now);
        match p.quest_snapshot(shown) {
            Err(e) => Err(e),
            Ok(quest) => Ok(
                (
                    Summary::Quest(
                        FollowerQuestOutcome {
                            quest,
                            complete_id: quest.complete_id,
                            next,
                            rewards: applied,
                        },
                    ),
                    Summary::Quest(
                        FollowerQuestOutcome {
                            quest,
                            complete_id: quest.complete_id,
                            next: false,
                            rewards: Vec::new(),
                        },
                    ),
                ),
            ),
        }
    }
}

/// Letting the newest stage go on without an end.
pub struct SetQuestInfinite {}

pub open spec fn infinite_effect(p: PlayerModel, m: Mutation) -> Effect {
    let stage = newest_stage(p.quests);
    let completed = match get(p.quests, k1(stage)) {
        Some(row) => row.completed,
        None => false,
    };
    let q = PlayerModel {
        quests: put(p.quests, k1(stage), QuestRow { completed, infinite: true, updated_at: m.now }),
        ..p
    };
    match quest_state(q, stage) {
        Err(e) => Err(e),
        Ok(quest) => answered(q, Outcome::QuestState(quest)),
    }
}

impl Command for SetQuestInfinite {
    open spec fn valid(&self) -> bool {
        true
    }

    open spec fn effect(&self, p: PlayerModel, m: Mutation, rules: Rules) -> Effect {
        infinite_effect(p, m)
    }

    proof fn keeps_order(&self, p: PlayerModel, m: Mutation, rules: Rules) {
        broadcast use group_keyed;

    }

    fn run(&self, p: &mut Player, m: &RpcMutation, rules: &RewardRules) -> (r: Result<
        (Summary, Summary),
        StoreError,
    >) {
        let stage: i64 = exec_newest_stage(&p.quests);
        let completed: bool = match p.quests.get(key1(stage)) {
            Some(row) => row.0.completed,
            None => false,
        };
        p.quests.put(
            key1(stage),
            Plain(QuestRow { completed, infinite: true, updated_at: m.committed_at }),
        );
        match p.quest_snapshot(stage) {
            Err(e) => Err(e),
            Ok(quest) => Ok((Summary::QuestState(quest), Summary::QuestState(quest))),
        }
    }
}

} // verus!
