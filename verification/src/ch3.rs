//! The third channel: energy, stages and what they drop.
use crate::command::{Command, Effect, Mutation, RpcMutation, Rules};
use crate::consume_reward::RewardRules;
use crate::domain::{
    Ch3EnergySnapshot, Ch3Settlement, Ch3StageDefinition, Ch3StageSnapshot, Ch3StreamSettlement,
    DomainError, RewardGrant,
};
use crate::errors::{SqlFault, StoreError};
use crate::followers::{ch3_profile_updated, Threshold};
use crate::ints::{
    clip, clip32, clip64, max32, max64, max_int, saturating_add32, saturating_mul, saturating_mul32,
};
use crate::kept::{lemma_all_dropped, lemma_all_granted, lemma_dropped};
use crate::order::group_keyed;
use crate::outcome::{rolls_model, Outcome, Summary};
use crate::player::{Player, PlayerModel};
use crate::rewards::{changed, granted, Change};
use crate::rows::{DropRow, StageRow};
use crate::table::{find, get, in_table, k1, k2, key1, key2, place, put, put_new, Key, Plain, Table};
use vstd::prelude::*;

verus! {

/// The energy at a later time: one more for each second, up to the cap.
pub open spec fn restored(e: Ch3EnergySnapshot, now: i64, cap: i32) -> Ch3EnergySnapshot {
    let amount = clip32(e.amount + clip(now - e.calculated_at, 0, i32::MAX as int));
    Ch3EnergySnapshot {
        amount: if amount < cap {
            amount
        } else {
            cap
        },
        cap,
        calculated_at: now,
    }
}

impl Player {
    pub(crate) fn restore_ch3_energy(&mut self, now: i64, cap: i32) -> (energy: Ch3EnergySnapshot)
        ensures
            energy == restored(old(self)@.energy, now, cap),
            final(self)@ == (PlayerModel { energy, ..old(self)@ }),
    {
        let passed: i128 = now as i128 - self.energy.calculated_at as i128;
        let gained: i32 = if passed < 0 {
            0
        } else if passed > i32::MAX as i128 {
            i32::MAX
        } else {
            passed as i32
        };
        let amount: i32 = saturating_add32(self.energy.amount, gained);
        let energy = Ch3EnergySnapshot {
            amount: if amount < cap {
                amount
            } else {
                cap
            },
            cap,
            calculated_at: now,
        };
        self.energy = energy;
        energy
    }
}

/// The energy after some of it was spent.
pub open spec fn spent(e: Ch3EnergySnapshot, cost: int) -> Ch3EnergySnapshot {
    Ch3EnergySnapshot { amount: (e.amount - cost) as i32, ..e }
}

/// What was dropped, written down; nothing is written over.
pub open spec fn drop_recorded(
    drops: Seq<(Seq<char>, Seq<(Key, DropRow)>)>,
    transaction: Seq<char>,
    roll: int,
    index: int,
    reward: RewardGrant,
) -> Seq<(Seq<char>, Seq<(Key, DropRow)>)> {
    let known = match find(drops, transaction) {
        Some(t) => t,
        None => Seq::empty(),
    };
    place(
        drops,
        transaction,
        put_new(
            known,
            k2(roll, index),
            DropRow {
                reward_type: reward.reward_type,
                reward_id: reward.reward_id,
                amount: reward.amount,
            },
        ),
    )
}

/// The rewards of one roll given and written down, and those that were new.
pub open spec fn dropped(
    p: PlayerModel,
    m: Mutation,
    rules: Rules,
    roll: int,
    rewards: Seq<RewardGrant>,
    source: Seq<char>,
) -> Change<Seq<RewardGrant>>
    decreases rewards.len(),
{
    if rewards.len() == 0 {
        Ok((p, Seq::empty()))
    } else {
        match dropped(p, m, rules, roll, rewards.drop_last(), source) {
            Err(e) => Err(e),
            Ok((q, applied)) => {
                let reward = rewards.last();
                match granted(q, rules, reward, m.now, source) {
                    Err(e) => Err(e),
                    Ok((q, new)) => Ok(
                        (
                            PlayerModel {
                                drops: drop_recorded(
                                    q.drops,
                                    m.key,
                                    roll,
                                    rewards.len() - 1,
                                    reward,
                                ),
                                ..q
                            },
                            if new {
                                applied.push(reward)
                            } else {
                                applied
                            },
                        ),
                    ),
                }
            },
        }
    }
}

proof fn lemma_dropped_error(
    p: PlayerModel,
    m: Mutation,
    rules: Rules,
    roll: int,
    rewards: Seq<RewardGrant>,
    source: Seq<char>,
    i: int,
)
    requires
        0 <= i <= rewards.len(),
        dropped(p, m, rules, roll, rewards.take(i), source) is Err,
    ensures
        dropped(p, m, rules, roll, rewards, source) == dropped(
            p,
            m,
            rules,
            roll,
            rewards.take(i),
            source,
        ),
    decreases rewards.len() - i,
{
    if i < rewards.len() {
        assert(rewards.take(i + 1).drop_last() =~= rewards.take(i));
        lemma_dropped_error(p, m, rules, roll, rewards, source, i + 1);
    } else {
        assert(rewards.take(i) =~= rewards);
    }
}

/// What a method that gives a list of rewards returns, and what it leaves.
pub open spec fn listed(
    effect: Change<Seq<RewardGrant>>,
    after: PlayerModel,
    r: Result<Vec<RewardGrant>, StoreError>,
) -> bool {
    match effect {
        Err(e) => r == Err::<Vec<RewardGrant>, StoreError>(e),
        Ok((q, applied)) => match r {
            Ok(v) => v@ == applied && after == q,
            Err(_) => false,
        },
    }
}

impl Player {
    fn record_drop(&mut self, m: &RpcMutation, roll: i32, index: usize, reward: &RewardGrant)
        requires
            index <= i64::MAX,
        ensures
            final(self)@ == (PlayerModel {
                drops: drop_recorded(old(self)@.drops, m@.key, roll as int, index as int, *reward),
                ..old(self)@
            }),
    {
        let mut known: Table<Plain<DropRow>> = match self.drops.find(&m.idempotency_key) {
            Some(t) => t.dup(),
            None => Table::new(),
        };
        known.put_new(
            key2(roll as i64, index as i64),
            Plain(
                DropRow {
                    reward_type: reward.reward_type,
                    reward_id: reward.reward_id,
                    amount: reward.amount,
                },
            ),
        );
        self.drops.place(m.idempotency_key.clone(), known);
    }

    fn drop_rewards(
        &mut self,
        m: &RpcMutation,
        rules: &RewardRules,
        roll: i32,
        rewards: &Vec<RewardGrant>,
        source: &str,
    ) -> (r: Result<Vec<RewardGrant>, StoreError>)
        requires
            rewards@.len() <= i64::MAX,
        ensures
            listed(
                dropped(old(self)@, m@, rules@, roll as int, rewards@, source@),
                final(self)@,
                r,
            ),
    {
        let mut applied: Vec<RewardGrant> = Vec::new();
        let mut i: usize = 0;
        let ghost start = self@;
        proof {
            assert(rewards@.take(0) =~= Seq::empty());
        }
        while i < rewards.len()
            invariant
                i <= rewards@.len() <= i64::MAX,
                dropped(start, m@, rules@, roll as int, rewards@.take(i as int), source@) == Ok::<
                    (PlayerModel, Seq<RewardGrant>),
                    StoreError,
                >((self@, applied@)),
                start == old(self)@,
            decreases rewards@.len() - i,
        {
            proof {
                assert(rewards@.take(i + 1).drop_last() =~= rewards@.take(i as int));
                assert(rewards@.take(i + 1).last() == rewards@[i as int]);
            }
            match self.apply_reward_grant(rules, &rewards[i], m.committed_at, source) {
                Ok(new) => {
                    if new {
                        applied.push(rewards[i]);
                    }
                    self.record_drop(m, roll, i, &rewards[i]);
                },
                Err(e) => {
                    proof {
                        lemma_dropped_error(
                            start,
                            m@,
                            rules@,
                            roll as int,
                            rewards@,
                            source@,
                            i + 1,
                        );
                    }
                    return Err(e);
                },
            }
            i = i + 1;
        }
        proof {
            assert(rewards@.take(i as int) =~= rewards@);
        }
        Ok(applied)
    }
}

/// A stage as the client sees it.
pub open spec fn stage_snapshot(stage_id: int, row: StageRow) -> Ch3StageSnapshot {
    Ch3StageSnapshot {
        stage_id: stage_id as i64,
        chapter: row.chapter,
        stage_index: row.stage_index,
        completed: row.completed,
        best_star: row.best_star,
        best_score: row.best_score,
    }
}

pub(crate) fn exec_stage_snapshot(stage_id: i64, row: StageRow) -> (s: Ch3StageSnapshot)
    ensures
        s == stage_snapshot(stage_id as int, row),
{
    Ch3StageSnapshot {
        stage_id,
        chapter: row.chapter,
        stage_index: row.stage_index,
        completed: row.completed,
        best_star: row.best_star,
        best_score: row.best_score,
    }
}

/// A stage that was opened.
pub open spec fn opened(stage: Ch3StageDefinition) -> StageRow {
    StageRow {
        chapter: stage.chapter,
        stage_index: stage.stage_index,
        completed: false,
        best_star: 0,
        best_score: 0,
        unlocked: true,
    }
}

/// A stage completed with a result, and the next one opened.
pub open spec fn stage_cleared(
    stages: Seq<(Key, StageRow)>,
    stage_id: int,
    star: i32,
    score: i64,
    next: Option<Ch3StageDefinition>,
) -> Seq<(Key, StageRow)> {
    let done = match get(stages, k1(stage_id)) {
        Some(row) => put(
            stages,
            k1(stage_id),
            StageRow {
                completed: true,
                best_star: max_int(row.best_star as int, star as int) as i32,
                best_score: max_int(row.best_score as int, score as int) as i64,
                ..row
            },
        ),
        None => stages,
    };
    match next {
        Some(next) => put_new(done, k1(next.stage_id as int), opened(next)),
        None => done,
    }
}

/// Playing a stage.
pub struct SettleStage {
    pub stage: Ch3StageDefinition,
    pub next: Option<Ch3StageDefinition>,
    pub star: i32,
    pub score: i64,
    pub energy_cost: i32,
    pub energy_cap: i32,
    pub rewards: Vec<RewardGrant>,
    pub profile_exp_gain: i64,
    pub profile_level_thresholds: Vec<Threshold>,
}

impl SettleStage {
    /// Whether the stage was completed.
    pub open spec fn clears(&self) -> bool {
        self.stage.story || self.star > 0
    }

    /// The player with the energy spent and the stage completed.
    pub open spec fn played(&self, p: PlayerModel, now: i64) -> Change<Ch3EnergySnapshot> {
        let open = match get(p.stages, k1(self.stage.stage_id as int)) {
            Some(row) => row.unlocked,
            None => false,
        };
        let energy = restored(p.energy, now, self.energy_cap);
        if !open {
            Err(StoreError::Domain(DomainError::Locked))
        } else if energy.amount < self.energy_cost {
            Err(StoreError::Domain(DomainError::InsufficientEnergy))
        } else {
            let left = spent(energy, self.energy_cost as int);
            Ok(
                (
                    PlayerModel {
                        energy: left,
                        stages: if self.clears() {
                            stage_cleared(
                                p.stages,
                                self.stage.stage_id as int,
                                self.star,
                                self.score,
                                self.next,
                            )
                        } else {
                            p.stages
                        },
                        ..p
                    },
                    left,
                ),
            )
        }
    }

    /// The rewards given and the experience added.
    pub open spec fn settled(
        &self,
        p: PlayerModel,
        m: Mutation,
        rules: Rules,
        energy: Ch3EnergySnapshot,
    ) -> Effect {
        match if self.clears() {
            dropped(p, m, rules, 1, self.rewards@, "ch3-stage"@)
        } else {
            Ok((p, Seq::empty()))
        } {
            Err(e) => Err(e),
            Ok((q, rewards)) => match ch3_profile_updated(
                q,
                if self.clears() && !self.stage.story {
                    self.profile_exp_gain as int
                } else {
                    0
                },
                self.profile_level_thresholds@,
            ) {
                Err(e) => Err(e),
                Ok((q, profile)) => match get(q.stages, k1(self.stage.stage_id as int)) {
                    None => Err(StoreError::Sql(SqlFault::NoRows)),
                    Some(row) => {
                        let stage = stage_snapshot(self.stage.stage_id as int, row);
                        Ok(
                            (
                                q,
                                Outcome::Settlement { stage, energy, profile, rewards },
                                Outcome::Settlement {
                                    stage,
                                    energy,
                                    profile,
                                    rewards: Seq::empty(),
                                },
                            ),
                        )
                    },
                },
            },
        }
    }

    fn play(&self, p: &mut Player, now: i64) -> (r: Result<Ch3EnergySnapshot, StoreError>)
        requires
            self.energy_cap - self.energy_cost <= i32::MAX,
        ensures
            changed(self.played(old(p)@, now), final(p)@, r),
    {
        let key = key1(self.stage.stage_id);
        let known: Option<StageRow> = match p.stages.get(key) {
            Some(row) => Some(row.0),
            None => None,
        };
        let row = match known {
            Some(row) => row,
            None => {
                return Err(StoreError::Domain(DomainError::Locked));
            },
        };
        if !row.unlocked {
            return Err(StoreError::Domain(DomainError::Locked));
        }
        let mut energy = p.restore_ch3_energy(now, self.energy_cap);
        if energy.amount < self.energy_cost {
            return Err(StoreError::Domain(DomainError::InsufficientEnergy));
        }
        energy.amount = energy.amount - self.energy_cost;
        p.energy = energy;
        if self.stage.story || self.star > 0 {
            p.stages.put(
                key,
                Plain(
                    StageRow {
                        completed: true,
                        best_star: max32(row.best_star, self.star),
                        best_score: max64(row.best_score, self.score),
                        ..row
                    },
                ),
            );
            if let Some(next) = self.next {
                p.stages.put_new(
                    key1(next.stage_id),
                    Plain(
                        StageRow {
                            chapter: next.chapter,
                            stage_index: next.stage_index,
                            completed: false,
                            best_star: 0,
                            best_score: 0,
                            unlocked: true,
                        },
                    ),
                );
            }
        }
        Ok(energy)
    }
}

pub open spec fn stage_effect(c: SettleStage, p: PlayerModel, m: Mutation, rules: Rules) -> Effect {
    match c.played(p, m.now) {
        Err(e) => Err(e),
        Ok((q, energy)) => c.settled(q, m, rules, energy),
    }
}

impl Command for SettleStage {
    open spec fn valid(&self) -> bool {
        self.energy_cap - self.energy_cost <= i32::MAX && self.rewards@.len() <= i64::MAX
    }

    open spec fn effect(&self, p: PlayerModel, m: Mutation, rules: Rules) -> Effect {
        stage_effect(*self, p, m, rules)
    }

    proof fn keeps_order(&self, p: PlayerModel, m: Mutation, rules: Rules) {
        broadcast use group_keyed;

        if let Ok((q, energy)) = self.played(p, m.now) {
            if self.clears() {
                lemma_dropped(q, m, rules, 1, self.rewards@, "ch3-stage"@);
            }
        }
    }

    fn run(&self, p: &mut Player, m: &RpcMutation, rules: &RewardRules) -> (r: Result<
        (Summary, Summary),
        StoreError,
    >) {
        let energy = match self.play(p, m.committed_at) {
            Ok(energy) => energy,
            Err(e) => {
                return Err(e);
            },
        };
        let clear: bool = self.stage.story || self.star > 0;
        let mut applied: Vec<RewardGrant> = Vec::new();
        if clear {
            applied =
            match p.drop_rewards(m, rules, 1, &self.rewards, "ch3-stage") {
                Ok(applied) => applied,
                Err(e) => {
                    return Err(e);
                },
            };
        }
        let gain: i64 = if clear && !self.stage.story {
            self.profile_exp_gain
        } else {
            0
        };
        let profile = match p.update_ch3_profile(gain, &self.profile_level_thresholds) {
            Ok(profile) => profile,
            Err(e) => {
                return Err(e);
            },
        };
        let stage = match p.stages.get(key1(self.stage.stage_id)) {
            Some(row) => exec_stage_snapshot(self.stage.stage_id, row.0),
            None => {
                return Err(StoreError::Sql(SqlFault::NoRows));
            },
        };
        Ok(
            (
                Summary::Settlement(Ch3Settlement { stage, energy, profile, rewards: applied }),
                Summary::Settlement(Ch3Settlement { stage, energy, profile, rewards: Vec::new() }),
            ),
        )
    }
}

/// The stars of a chapter.
pub open spec fn chapter_stars(stages: Seq<(Key, StageRow)>, chapter: i32) -> int
    decreases stages.len(),
{
    if stages.len() == 0 {
        0
    } else {
        chapter_stars(stages.drop_last(), chapter) + if stages.last().1.chapter == chapter {
            stages.last().1.best_star as int
        } else {
            0
        }
    }
}

fn exec_chapter_stars(stages: &Table<Plain<StageRow>>, chapter: i32) -> (stars: i128)
    ensures
        stars == chapter_stars(stages@, chapter),
{
    let mut stars: i128 = 0;
    let mut i: usize = 0;
    proof {
        assert(stages@.take(0) =~= Seq::empty());
    }
    while i < stages.len()
        invariant
            i <= stages@.len(),
            stars == chapter_stars(stages@.take(i as int), chapter),
            i32::MIN * i <= stars <= i32::MAX * i,
        decreases stages@.len() - i,
    {
        proof {
            assert(stages@.take(i + 1).drop_last() =~= stages@.take(i as int));
        }
        let row = stages.row_at(i).0;
        if row.chapter == chapter {
            stars = stars + row.best_star as i128;
        }
        i = i + 1;
    }
    proof {
        assert(stages@.take(i as int) =~= stages@);
    }
    stars
}

/// Claiming a reward for the stars of a chapter.
pub struct ClaimChapter {
    pub chapter: i32,
    pub reward_num: i32,
    pub goal: i32,
    pub rewards: Vec<RewardGrant>,
    pub energy_cap: i32,
}

pub open spec fn chapter_effect(
    c: ClaimChapter,
    p: PlayerModel,
    m: Mutation,
    rules: Rules,
) -> Effect {
    let key = k2(c.chapter as int, c.reward_num as int);
    if chapter_stars(p.stages, c.chapter) < c.goal {
        Err(StoreError::Domain(DomainError::Locked))
    } else if in_table(p.chapter_claims, key) {
        Err(StoreError::Domain(DomainError::AlreadyClaimed))
    } else {
        match crate::rewards::all_granted(
            PlayerModel { chapter_claims: put(p.chapter_claims, key, m.now), ..p },
            rules,
            c.rewards@,
            m.now,
            "ch3-chapter"@,
        ) {
            Err(e) => Err(e),
            Ok((q, applied)) => {
                let energy = restored(q.energy, m.now, c.energy_cap);
                Ok(
                    (
                        PlayerModel { energy, ..q },
                        Outcome::Chapter(energy, applied),
                        Outcome::Chapter(energy, Seq::empty()),
                    ),
                )
            },
        }
    }
}

impl Command for ClaimChapter {
    open spec fn valid(&self) -> bool {
        true
    }

    open spec fn effect(&self, p: PlayerModel, m: Mutation, rules: Rules) -> Effect {
        chapter_effect(*self, p, m, rules)
    }

    proof fn keeps_order(&self, p: PlayerModel, m: Mutation, rules: Rules) {
        broadcast use group_keyed;

        let key = k2(self.chapter as int, self.reward_num as int);
        lemma_all_granted(
            PlayerModel { chapter_claims: put(p.chapter_claims, key, m.now), ..p },
            rules,
            self.rewards@,
            m.now,
            "ch3-chapter"@,
        );
    }

    fn run(&self, p: &mut Player, m: &RpcMutation, rules: &RewardRules) -> (r: Result<
        (Summary, Summary),
        StoreError,
    >) {
        let now: i64 = m.committed_at;
        if exec_chapter_stars(&p.stages, self.chapter) < self.goal as i128 {
            return Err(StoreError::Domain(DomainError::Locked));
        }
        let new: bool = p.chapter_claims.put_new(
            key2(self.chapter as i64, self.reward_num as i64),
            Plain(now),
        );
        if !new {
            return Err(StoreError::Domain(DomainError::AlreadyClaimed));
        }
        let applied = match p.apply_reward_grants(rules, &self.rewards, now, "ch3-chapter") {
            Ok(applied) => applied,
            Err(e) => {
                return Err(e);
            },
        };
        let energy = p.restore_ch3_energy(now, self.energy_cap);
        Ok((Summary::Chapter(energy, applied), Summary::Chapter(energy, Vec::new())))
    }
}

/// Replaying a completed stage several times.
pub struct SettleStream {
    pub stage_id: i64,
    pub count: i32,
    pub energy_cost_each: i32,
    pub energy_cap: i32,
    pub reward_rolls: Vec<(i32, Vec<RewardGrant>)>,
    pub profile_exp_each: i64,
    pub profile_level_thresholds: Vec<Threshold>,
}

/// Rolls given one after the other, and what was new in each.
pub open spec fn all_dropped(
    p: PlayerModel,
    m: Mutation,
    rules: Rules,
    rolls: Seq<(i32, Vec<RewardGrant>)>,
    source: Seq<char>,
) -> Change<Seq<(i32, Seq<RewardGrant>)>>
    decreases rolls.len(),
{
    if rolls.len() == 0 {
        Ok((p, Seq::empty()))
    } else {
        match all_dropped(p, m, rules, rolls.drop_last(), source) {
            Err(e) => Err(e),
            Ok((q, done)) => match dropped(
                q,
                m,
                rules,
                rolls.last().0 as int,
                rolls.last().1@,
                source,
            ) {
                Err(e) => Err(e),
                Ok((q, applied)) => Ok((q, done.push((rolls.last().0, applied)))),
            },
        }
    }
}

proof fn lemma_all_dropped_error(
    p: PlayerModel,
    m: Mutation,
    rules: Rules,
    rolls: Seq<(i32, Vec<RewardGrant>)>,
    source: Seq<char>,
    i: int,
)
    requires
        0 <= i <= rolls.len(),
        all_dropped(p, m, rules, rolls.take(i), source) is Err,
    ensures
        all_dropped(p, m, rules, rolls, source) == all_dropped(p, m, rules, rolls.take(i), source),
    decreases rolls.len() - i,
{
    if i < rolls.len() {
        assert(rolls.take(i + 1).drop_last() =~= rolls.take(i));
        lemma_all_dropped_error(p, m, rules, rolls, source, i + 1);
    } else {
        assert(rolls.take(i) =~= rolls);
    }
}

/// Whether every list of rewards can be numbered.
pub open spec fn numbered(rolls: Seq<(i32, Vec<RewardGrant>)>) -> bool {
    forall|i: int| 0 <= i < rolls.len() ==> (#[trigger] rolls[i]).1@.len() <= i64::MAX
}

pub open spec fn stream_effect(
    c: SettleStream,
    p: PlayerModel,
    m: Mutation,
    rules: Rules,
) -> Effect {
    let done = match get(p.stages, k1(c.stage_id as int)) {
        Some(row) => row.completed,
        None => false,
    };
    let energy = restored(p.energy, m.now, c.energy_cap);
    let cost = clip32(c.energy_cost_each * c.count);
    if !done {
        Err(StoreError::Domain(DomainError::Locked))
    } else if energy.amount < cost {
        Err(StoreError::Domain(DomainError::InsufficientEnergy))
    } else {
        let energy = spent(energy, cost as int);
        match all_dropped(
            PlayerModel { energy, ..p },
            m,
            rules,
            c.reward_rolls@,
            "ch3-stream"@,
        ) {
            Err(e) => Err(e),
            Ok((q, rolls)) => match ch3_profile_updated(
                q,
                clip64(c.profile_exp_each * c.count) as int,
                c.profile_level_thresholds@,
            ) {
                Err(e) => Err(e),
                Ok((q, profile)) => Ok(
                    (
                        q,
                        Outcome::Stream { stage_id: c.stage_id, energy, profile, rolls },
                        Outcome::Stream {
                            stage_id: c.stage_id,
                            energy,
                            profile,
                            rolls: Seq::empty(),
                        },
                    ),
                ),
            },
        }
    }
}

impl Player {
    fn drop_rolls(
        &mut self,
        m: &RpcMutation,
        rules: &RewardRules,
        rolls: &Vec<(i32, Vec<RewardGrant>)>,
        source: &str,
    ) -> (r: Result<Vec<(i32, Vec<RewardGrant>)>, StoreError>)
        requires
            numbered(rolls@),
        ensures
            match all_dropped(old(self)@, m@, rules@, rolls@, source@) {
                Err(e) => r == Err::<Vec<(i32, Vec<RewardGrant>)>, StoreError>(e),
                Ok((q, done)) => match r {
                    Ok(v) => rolls_model(v@) == done && final(self)@ == q,
                    Err(_) => false,
                },
            },
    {
        let mut done: Vec<(i32, Vec<RewardGrant>)> = Vec::new();
        let mut i: usize = 0;
        let ghost start = self@;
        proof {
            assert(rolls@.take(0) =~= Seq::empty());
            assert(rolls_model(done@) =~= Seq::empty());
        }
        while i < rolls.len()
            invariant
                i <= rolls@.len(),
                numbered(rolls@),
                all_dropped(start, m@, rules@, rolls@.take(i as int), source@) == Ok::<
                    (PlayerModel, Seq<(i32, Seq<RewardGrant>)>),
                    StoreError,
                >((self@, rolls_model(done@))),
                start == old(self)@,
            decreases rolls@.len() - i,
        {
            proof {
                assert(rolls@.take(i + 1).drop_last() =~= rolls@.take(i as int));
                assert(rolls@.take(i + 1).last() == rolls@[i as int]);
                assert(rolls@[i as int].1@.len() <= i64::MAX);
            }
            match self.drop_rewards(m, rules, rolls[i].0, &rolls[i].1, source) {
                Ok(applied) => {
                    let ghost before = done@;
                    done.push((rolls[i].0, applied));
                    proof {
                        assert(rolls_model(done@) =~= rolls_model(before).push(
                            (rolls@[i as int].0, applied@),
                        ));
                    }
                },
                Err(e) => {
                    proof {
                        lemma_all_dropped_error(start, m@, rules@, rolls@, source@, i + 1);
                    }
                    return Err(e);
                },
            }
            i = i + 1;
        }
        proof {
            assert(rolls@.take(i as int) =~= rolls@);
        }
        Ok(done)
    }
}

impl Command for SettleStream {
    open spec fn valid(&self) -> bool {
        self.energy_cap - clip32(self.energy_cost_each * self.count) <= i32::MAX && numbered(
            self.reward_rolls@,
        )
    }

    open spec fn effect(&self, p: PlayerModel, m: Mutation, rules: Rules) -> Effect {
        stream_effect(*self, p, m, rules)
    }

    proof fn keeps_order(&self, p: PlayerModel, m: Mutation, rules: Rules) {
        broadcast use group_keyed;

        let energy = restored(p.energy, m.now, self.energy_cap);
        let cost = clip32(self.energy_cost_each * self.count);
        lemma_all_dropped(
            PlayerModel { energy: spent(energy, cost as int), ..p },
            m,
            rules,
            self.reward_rolls@,
            "ch3-stream"@,
        );
    }

    fn run(&self, p: &mut Player, m: &RpcMutation, rules: &RewardRules) -> (r: Result<
        (Summary, Summary),
        StoreError,
    >) {
        let done: bool = match p.stages.get(key1(self.stage_id)) {
            Some(row) => row.0.completed,
            None => false,
        };
        if !done {
            return Err(StoreError::Domain(DomainError::Locked));
        }
        let mut energy = p.restore_ch3_energy(m.committed_at, self.energy_cap);
        let cost: i32 = saturating_mul32(self.energy_cost_each, self.count);
        if energy.amount < cost {
            return Err(StoreError::Domain(DomainError::InsufficientEnergy));
        }
        energy.amount = energy.amount - cost;
        p.energy = energy;
        let rolls = match p.drop_rolls(m, rules, &self.reward_rolls, "ch3-stream") {
            Ok(rolls) => rolls,
            Err(e) => {
                return Err(e);
            },
        };
        let profile = match p.update_ch3_profile(
            saturating_mul(self.profile_exp_each, self.count as i64),
            &self.profile_level_thresholds,
        ) {
            Ok(profile) => profile,
            Err(e) => {
                return Err(e);
            },
        };
        let empty: Vec<(i32, Vec<RewardGrant>)> = Vec::new();
        proof {
            assert(rolls_model(empty@) =~= Seq::empty());
        }
        Ok(
            (
                Summary::Stream(
                    Ch3StreamSettlement {
                        stage_id: self.stage_id,
                        energy,
                        profile,
                        reward_rolls: rolls,
                    },
                ),
                Summary::Stream(
                    Ch3StreamSettlement {
                        stage_id: self.stage_id,
                        energy,
                        profile,
                        reward_rolls: empty,
                    },
                ),
            ),
        )
    }
}

/// Energy is never above the cap to which it was restored, and never falls by
/// being restored, but to the cap.
pub proof fn law_energy_restored(e: Ch3EnergySnapshot, now: i64, cap: i32)
    ensures
        restored(e, now, cap).amount <= cap,
        e.amount <= cap ==> e.amount <= restored(e, now, cap).amount,
{
}

} // verus!
