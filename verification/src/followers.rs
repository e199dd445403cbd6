//! Followers: affection, gifts, encores and advertisements.
use crate::command::{answered, Command, Effect, Mutation, RpcMutation, Rules};
use crate::consume_reward::RewardRules;
use crate::domain::{
    AdProfileGrant, AdRewardOutcome, ContentKind, CurrencyKind, DomainError, FollowerGiftOutcome,
    FollowerProfileRewardOutcome, FollowerProfileSnapshot, MusicEncoreRewardOutcome, RewardGrant,
};
use crate::errors::{SqlFault, StoreError};
use crate::ints::{
    clip32, clip64, max32, max64, max_int, saturating_add, saturating_mul, to_i32_saturated,
};
use crate::kept::{lemma_all_granted, lemma_encore_steps, lemma_levels_claimed};
use crate::number::Real;
use crate::lists::copies;
use crate::order::group_keyed;
use crate::outcome::{profile_reward_model, Outcome, ProfileReward, Summary};
use crate::player::{Player, PlayerModel};
use crate::rewards::{all_granted, changed, content_at, Change};
use crate::rows::{AdViews, AffectionRow, EncoreRow};
use crate::table::{get, in_table, k1, k2, key1, key2, put, put_new, Key, Plain, Table};
use vstd::prelude::*;

verus! {

/// A level, the experience that it requires and the candy that it adds.
pub type Threshold = (i32, i64, i32);

/// The level that an experience reaches, from `level` on, and its candy.
pub open spec fn reached(levels: Seq<Threshold>, experience: i64, level: i32) -> (i32, i32)
    decreases levels.len(),
{
    if levels.len() == 0 {
        (level, 0)
    } else {
        let (l, c) = reached(levels.drop_last(), experience, level);
        let (candidate, threshold, candy) = levels.last();
        if experience >= threshold && candidate >= l {
            (candidate, candy)
        } else {
            (l, c)
        }
    }
}

fn exec_reached(levels: &Vec<Threshold>, experience: i64, level: i32) -> (r: (i32, i32))
    ensures
        r == reached(levels@, experience, level),
{
    let mut now: (i32, i32) = (level, 0);
    let mut i: usize = 0;
    proof {
        assert(levels@.take(0) =~= Seq::empty());
    }
    while i < levels.len()
        invariant
            i <= levels@.len(),
            now == reached(levels@.take(i as int), experience, level),
        decreases levels@.len() - i,
    {
        let (candidate, threshold, candy) = levels[i];
        proof {
            assert(levels@.take(i + 1).drop_last() =~= levels@.take(i as int));
        }
        if experience >= threshold && candidate >= now.0 {
            now = (candidate, candy);
        }
        i = i + 1;
    }
    proof {
        assert(levels@.take(i as int) =~= levels@);
    }
    now
}

/// A level that was reached is never lost.
pub proof fn law_level_monotonic(levels: Seq<Threshold>, experience: i64, level: i32)
    ensures
        reached(levels, experience, level).0 >= level,
    decreases levels.len(),
{
    if levels.len() > 0 {
        law_level_monotonic(levels.drop_last(), experience, level);
    }
}

/// A follower with more experience, as it was before if it is not known.
pub open spec fn befriended(
    p: PlayerModel,
    profile_id: int,
    gain: int,
    levels: Seq<Threshold>,
    before: AffectionRow,
) -> (PlayerModel, FollowerProfileSnapshot) {
    let experience = clip64(before.experience + max_int(gain, 0));
    let (level, add_candy) = reached(
        levels,
        experience,
        max_int(before.level as int, 1) as i32,
    );
    (
        PlayerModel {
            affection: put(p.affection, k1(profile_id), AffectionRow { experience, level }),
            ..p
        },
        FollowerProfileSnapshot { profile_id: profile_id as i64, level, experience, add_candy },
    )
}

/// A follower with more experience.
pub open spec fn follower_updated(
    p: PlayerModel,
    profile_id: int,
    gain: int,
    levels: Seq<Threshold>,
) -> (PlayerModel, FollowerProfileSnapshot) {
    befriended(
        p,
        profile_id,
        gain,
        levels,
        match get(p.affection, k1(profile_id)) {
            Some(row) => row,
            None => AffectionRow { experience: 0, level: 1 },
        },
    )
}

/// The follower of the third channel.
pub const CH3_PROFILE: i64 = 100_000;

/// The follower of the third channel with more experience.
pub open spec fn ch3_profile_updated(p: PlayerModel, gain: int, levels: Seq<Threshold>) -> Change<
    FollowerProfileSnapshot,
> {
    match get(p.affection, k1(CH3_PROFILE as int)) {
        None => Err(StoreError::Sql(SqlFault::NoRows)),
        Some(row) => Ok(befriended(p, CH3_PROFILE as int, gain, levels, row)),
    }
}

impl Player {
    fn befriend(
        &mut self,
        profile_id: i64,
        gain: i64,
        levels: &Vec<Threshold>,
        before: AffectionRow,
    ) -> (profile: FollowerProfileSnapshot)
        ensures
            (final(self)@, profile) == befriended(
                old(self)@,
                profile_id as int,
                gain as int,
                levels@,
                before,
            ),
    {
        let experience: i64 = saturating_add(before.experience, max64(gain, 0));
        let (level, add_candy) = exec_reached(levels, experience, max32(before.level, 1));
        self.affection.put(key1(profile_id), Plain(AffectionRow { experience, level }));
        FollowerProfileSnapshot { profile_id, level, experience, add_candy }
    }

    pub(crate) fn update_follower_profile(
        &mut self,
        profile_id: i64,
        gain: i64,
        levels: &Vec<Threshold>,
    ) -> (profile: FollowerProfileSnapshot)
        ensures
            (final(self)@, profile) == follower_updated(
                old(self)@,
                profile_id as int,
                gain as int,
                levels@,
            ),
    {
        let before: AffectionRow = match self.affection.get(key1(profile_id)) {
            Some(row) => row.0,
            None => AffectionRow { experience: 0, level: 1 },
        };
        self.befriend(profile_id, gain, levels, before)
    }

    pub(crate) fn update_ch3_profile(&mut self, gain: i64, levels: &Vec<Threshold>) -> (r: Result<
        FollowerProfileSnapshot,
        StoreError,
    >)
        ensures
            changed(ch3_profile_updated(old(self)@, gain as int, levels@), final(self)@, r),
    {
        let before: AffectionRow = match self.affection.get(key1(CH3_PROFILE)) {
            Some(row) => row.0,
            None => {
                return Err(StoreError::Sql(SqlFault::NoRows));
            },
        };
        Ok(self.befriend(CH3_PROFILE, gain, levels, before))
    }
}

/// Giving a gift to a follower.
pub struct GiveGift {
    pub profile_id: i64,
    pub gift_id: i64,
    pub quantity: i64,
    pub experience_each: i64,
    pub level_thresholds: Vec<Threshold>,
}

pub open spec fn gift_effect(
    p: PlayerModel,
    profile_id: i64,
    gift_id: i64,
    quantity: i64,
    experience_each: i64,
    levels: Seq<Threshold>,
) -> Effect {
    let had = match get(p.gifts, k1(gift_id as int)) {
        Some(n) => n as int,
        None => 0,
    };
    if had < quantity {
        Err(StoreError::Domain(DomainError::InsufficientBalance))
    } else {
        let left = (had - quantity) as i64;
        let (q, profile) = follower_updated(
            PlayerModel { gifts: put(p.gifts, k1(gift_id as int), left), ..p },
            profile_id as int,
            clip64(experience_each * quantity) as int,
            levels,
        );
        answered(q, Outcome::Gift(FollowerGiftOutcome { gift_id, remaining: left, profile }))
    }
}

impl Command for GiveGift {
    open spec fn valid(&self) -> bool {
        self.quantity > 0
    }

    open spec fn effect(&self, p: PlayerModel, m: Mutation, rules: Rules) -> Effect {
        gift_effect(
            p,
            self.profile_id,
            self.gift_id,
            self.quantity,
            self.experience_each,
            self.level_thresholds@,
        )
    }

    proof fn keeps_order(&self, p: PlayerModel, m: Mutation, rules: Rules) {
        broadcast use group_keyed;

    }

    fn run(&self, p: &mut Player, m: &RpcMutation, rules: &RewardRules) -> (r: Result<
        (Summary, Summary),
        StoreError,
    >) {
        let had: i64 = match p.gifts.get(key1(self.gift_id)) {
            Some(n) => n.0,
            None => 0,
        };
        if had < self.quantity {
            return Err(StoreError::Domain(DomainError::InsufficientBalance));
        }
        let remaining: i64 = had - self.quantity;
        p.gifts.put(key1(self.gift_id), Plain(remaining));
        let profile = p.update_follower_profile(
            self.profile_id,
            saturating_mul(self.experience_each, self.quantity),
            &self.level_thresholds,
        );
        let outcome = FollowerGiftOutcome { gift_id: self.gift_id, remaining, profile };
        Ok((Summary::Gift(outcome), Summary::Gift(outcome)))
    }
}

/// Claiming the rewards of affection levels.
pub struct ClaimProfileRewards {
    pub profile_id: i64,
    pub requested: Vec<(i32, Vec<RewardGrant>)>,
}

/// The levels among `requested` claimed one after the other.
pub open spec fn levels_claimed(
    p: PlayerModel,
    rules: Rules,
    profile: FollowerProfileSnapshot,
    requested: Seq<(i32, Vec<RewardGrant>)>,
    now: i64,
) -> Change<Seq<ProfileReward>>
    decreases requested.len(),
{
    if requested.len() == 0 {
        Ok((p, Seq::empty()))
    } else {
        match levels_claimed(p, rules, profile, requested.drop_last(), now) {
            Err(e) => Err(e),
            Ok((q, done)) => {
                let (level, rewards) = requested.last();
                let key = k2(profile.profile_id as int, level as int);
                if level <= 0 || level > profile.level {
                    Err(StoreError::Domain(DomainError::Locked))
                } else if in_table(q.affection_claims, key) {
                    Ok((q, done))
                } else {
                    let q = PlayerModel {
                        affection_claims: put(q.affection_claims, key, now),
                        ..q
                    };
                    match all_granted(q, rules, rewards@, now, "follower-profile"@) {
                        Err(e) => Err(e),
                        Ok((q, applied)) => Ok(
                            (
                                q,
                                done.push(
                                    ProfileReward {
                                        profile_id: profile.profile_id,
                                        level,
                                        rewards: applied,
                                        profile,
                                    },
                                ),
                            ),
                        ),
                    }
                }
            },
        }
    }
}

pub open spec fn profile_rewards_effect(
    p: PlayerModel,
    m: Mutation,
    rules: Rules,
    profile_id: i64,
    requested: Seq<(i32, Vec<RewardGrant>)>,
) -> Effect {
    match get(p.affection, k1(profile_id as int)) {
        None => Err(StoreError::Sql(SqlFault::NoRows)),
        Some(row) => {
            let profile = FollowerProfileSnapshot {
                profile_id,
                level: row.level,
                experience: row.experience,
                add_candy: 0,
            };
            match levels_claimed(p, rules, profile, requested, m.now) {
                Err(e) => Err(e),
                Ok((q, done)) => Ok(
                    (q, Outcome::ProfileRewards(done), Outcome::ProfileRewards(Seq::empty())),
                ),
            }
        },
    }
}

proof fn lemma_levels_error(
    p: PlayerModel,
    rules: Rules,
    profile: FollowerProfileSnapshot,
    requested: Seq<(i32, Vec<RewardGrant>)>,
    i: int,
    now: i64,
)
    requires
        0 <= i <= requested.len(),
        levels_claimed(p, rules, profile, requested.take(i), now) is Err,
    ensures
        levels_claimed(p, rules, profile, requested, now) == levels_claimed(
            p,
            rules,
            profile,
            requested.take(i),
            now,
        ),
    decreases requested.len() - i,
{
    if i < requested.len() {
        assert(requested.take(i + 1).drop_last() =~= requested.take(i));
        lemma_levels_error(p, rules, profile, requested, i + 1, now);
    } else {
        assert(requested.take(i) =~= requested);
    }
}

impl Command for ClaimProfileRewards {
    open spec fn valid(&self) -> bool {
        true
    }

    open spec fn effect(&self, p: PlayerModel, m: Mutation, rules: Rules) -> Effect {
        profile_rewards_effect(p, m, rules, self.profile_id, self.requested@)
    }

    proof fn keeps_order(&self, p: PlayerModel, m: Mutation, rules: Rules) {
        broadcast use group_keyed;

        if let Some(row) = get(p.affection, k1(self.profile_id as int)) {
            lemma_levels_claimed(
                p,
                rules,
                FollowerProfileSnapshot {
                    profile_id: self.profile_id,
                    level: row.level,
                    experience: row.experience,
                    add_candy: 0,
                },
                self.requested@,
                m.now,
            );
        }
    }

    fn run(&self, p: &mut Player, m: &RpcMutation, rules: &RewardRules) -> (r: Result<
        (Summary, Summary),
        StoreError,
    >) {
        let now: i64 = m.committed_at;
        let row: AffectionRow = match p.affection.get(key1(self.profile_id)) {
            Some(row) => row.0,
            None => {
                return Err(StoreError::Sql(SqlFault::NoRows));
            },
        };
        let profile = FollowerProfileSnapshot {
            profile_id: self.profile_id,
            level: row.level,
            experience: row.experience,
            add_candy: 0,
        };
        let ghost start = p@;
        let ghost requested = self.requested@;
        let mut outcomes: Vec<FollowerProfileRewardOutcome> = Vec::new();
        let mut i: usize = 0;
        proof {
            assert(requested.take(0) =~= Seq::empty());
            assert(outcomes@.map_values(
                |x: FollowerProfileRewardOutcome| profile_reward_model(x),
            ) =~= Seq::empty());
        }
        while i < self.requested.len()
            invariant
                i <= requested.len(),
                requested == self.requested@,
                now == m.committed_at,
                profile.profile_id == self.profile_id,
                levels_claimed(start, rules@, profile, requested.take(i as int), now) == Ok::<
                    (PlayerModel, Seq<ProfileReward>),
                    StoreError,
                >(
                    (
                        p@,
                        outcomes@.map_values(
                            |x: FollowerProfileRewardOutcome| profile_reward_model(x),
                        ),
                    ),
                ),
                start == old(p)@,
                profile_rewards_effect(start, m@, rules@, self.profile_id, requested)
                    == match levels_claimed(start, rules@, profile, requested, now) {
                    Err(e) => Err::<(PlayerModel, Outcome, Outcome), StoreError>(e),
                    Ok((q, done)) => Ok(
                        (q, Outcome::ProfileRewards(done), Outcome::ProfileRewards(Seq::empty())),
                    ),
                },
            decreases requested.len() - i,
        {
            let level: i32 = self.requested[i].0;
            proof {
                assert(requested.take(i + 1).drop_last() =~= requested.take(i as int));
                assert(requested.take(i + 1).last() == requested[i as int]);
            }
            if level <= 0 || level > profile.level {
                proof {
                    lemma_levels_error(start, rules@, profile, requested, i + 1, now);
                }
                return Err(StoreError::Domain(DomainError::Locked));
            }
            let new: bool = p.affection_claims.put_new(
                key2(self.profile_id, level as i64),
                Plain(now),
            );
            if new {
                match p.apply_reward_grants(rules, &self.requested[i].1, now, "follower-profile") {
                    Ok(applied) => {
                        let ghost before = outcomes@;
                        outcomes.push(
                            FollowerProfileRewardOutcome {
                                profile_id: self.profile_id,
                                level,
                                rewards: applied,
                                profile,
                            },
                        );
                        proof {
                            assert(outcomes@.map_values(
                                |x: FollowerProfileRewardOutcome| profile_reward_model(x),
                            ) =~= before.map_values(
                                |x: FollowerProfileRewardOutcome| profile_reward_model(x),
                            ).push(profile_reward_model(outcomes@.last())));
                        }
                    },
                    Err(e) => {
                        proof {
                            lemma_levels_error(start, rules@, profile, requested, i + 1, now);
                        }
                        return Err(e);
                    },
                }
            }
            i = i + 1;
        }
        proof {
            assert(requested.take(i as int) =~= requested);
        }
        let empty: Vec<FollowerProfileRewardOutcome> = Vec::new();
        proof {
            assert(empty@.map_values(
                |x: FollowerProfileRewardOutcome| profile_reward_model(x),
            ) =~= Seq::empty());
        }
        Ok((Summary::ProfileRewards(outcomes), Summary::ProfileRewards(empty)))
    }
}

/// Claiming the encores of pieces of music: the music, its gift, the experience
/// for its follower and when the next encore is ready.
pub struct ClaimEncores {
    pub rewards: Vec<(i64, i32, i64, i64)>,
    pub profile_level_thresholds: Vec<(i64, i32, i64, i32)>,
}

/// The thresholds of one follower.
pub open spec fn levels_of(all: Seq<(i64, i32, i64, i32)>, profile_id: i64) -> Seq<Threshold>
    decreases all.len(),
{
    if all.len() == 0 {
        Seq::empty()
    } else {
        let front = levels_of(all.drop_last(), profile_id);
        let (candidate, level, requirement, add_candy) = all.last();
        if candidate == profile_id {
            front.push((level, requirement, add_candy))
        } else {
            front
        }
    }
}

fn exec_levels_of(all: &Vec<(i64, i32, i64, i32)>, profile_id: i64) -> (r: Vec<Threshold>)
    ensures
        r@ == levels_of(all@, profile_id),
{
    let mut r: Vec<Threshold> = Vec::new();
    let mut i: usize = 0;
    proof {
        assert(all@.take(0) =~= Seq::empty());
    }
    while i < all.len()
        invariant
            i <= all@.len(),
            r@ == levels_of(all@.take(i as int), profile_id),
        decreases all@.len() - i,
    {
        proof {
            assert(all@.take(i + 1).drop_last() =~= all@.take(i as int));
        }
        let (candidate, level, requirement, add_candy) = all[i];
        if candidate == profile_id {
            r.push((level, requirement, add_candy));
        }
        i = i + 1;
    }
    proof {
        assert(all@.take(i as int) =~= all@);
    }
    r
}

/// How far a list of encores has been claimed.
pub ghost struct EncoreState {
    pub p: PlayerModel,
    pub granted: Seq<(i32, i32)>,
    pub rejected: Seq<i32>,
    pub profiles: Seq<(Key, FollowerProfileSnapshot)>,
    pub candy: i64,
}

/// Whether an encore can be claimed: the music is owned, and its encore appears
/// or is not waited for.
pub open spec fn encore_ready(p: PlayerModel, music_id: i64, now: i64) -> bool {
    in_table(p.owned, content_at(ContentKind::Music, music_id as int)) && match get(
        p.encores,
        k1(music_id as int),
    ) {
        Some(row) => row.encore_appears || row.encore_ready_at <= now,
        None => true,
    }
}

/// One more encore claimed, or rejected.
pub open spec fn encore_step(
    s: EncoreState,
    reward: (i64, i32, i64, i64),
    levels: Seq<(i64, i32, i64, i32)>,
    now: i64,
) -> EncoreState {
    let (music_id, gift, profile_exp, ready_at) = reward;
    let key = k1(music_id as int);
    if !encore_ready(s.p, music_id, now) {
        EncoreState { rejected: s.rejected.push(clip32(music_id as int)), ..s }
    } else {
        let row = match get(s.p.encores, key) {
            Some(row) => EncoreRow { encore_appears: false, encore_ready_at: ready_at, ..row },
            None => EncoreRow {
                encore_appears: false,
                encore_follower_id: None,
                encore_ready_at: ready_at,
                ch3_active_until: 0,
            },
        };
        let p = PlayerModel { encores: put(s.p.encores, key, row), ..s.p };
        let amount = max_int(gift as int, 0);
        let next = EncoreState {
            p,
            granted: s.granted.push((clip32(music_id as int), amount as i32)),
            candy: clip64(s.candy + amount),
            ..s
        };
        match row.encore_follower_id {
            Some(profile_id) => if profile_id > 0 {
                let (p, profile) = follower_updated(
                    p,
                    profile_id as int,
                    profile_exp as int,
                    levels_of(levels, profile_id),
                );
                EncoreState {
                    p,
                    profiles: put(s.profiles, k1(profile_id as int), profile),
                    ..next
                }
            } else {
                next
            },
            None => next,
        }
    }
}

pub open spec fn encore_steps(
    p: PlayerModel,
    rewards: Seq<(i64, i32, i64, i64)>,
    levels: Seq<(i64, i32, i64, i32)>,
    now: i64,
) -> EncoreState
    decreases rewards.len(),
{
    if rewards.len() == 0 {
        EncoreState {
            p,
            granted: Seq::empty(),
            rejected: Seq::empty(),
            profiles: Seq::empty(),
            candy: 0,
        }
    } else {
        encore_step(
            encore_steps(p, rewards.drop_last(), levels, now),
            rewards.last(),
            levels,
            now,
        )
    }
}

pub open spec fn encore_effect(
    p: PlayerModel,
    m: Mutation,
    rewards: Seq<(i64, i32, i64, i64)>,
    levels: Seq<(i64, i32, i64, i32)>,
) -> Effect {
    let s = encore_steps(p, rewards, levels, m.now);
    answered(
        if s.candy > 0 {
            PlayerModel {
                wallet: s.p.wallet.plus(CurrencyKind::Candy, Real::of(s.candy as int)),
                ..s.p
            }
        } else {
            s.p
        },
        Outcome::Encore {
            rewards: s.granted,
            profiles: s.profiles.map_values(|e: (Key, FollowerProfileSnapshot)| e.1),
            rejected: s.rejected,
        },
    )
}

impl Command for ClaimEncores {
    open spec fn valid(&self) -> bool {
        true
    }

    open spec fn effect(&self, p: PlayerModel, m: Mutation, rules: Rules) -> Effect {
        encore_effect(p, m, self.rewards@, self.profile_level_thresholds@)
    }

    proof fn keeps_order(&self, p: PlayerModel, m: Mutation, rules: Rules) {
        broadcast use group_keyed;

        lemma_encore_steps(p, self.rewards@, self.profile_level_thresholds@, m.now);
    }

    fn run(&self, p: &mut Player, m: &RpcMutation, rules: &RewardRules) -> (r: Result<
        (Summary, Summary),
        StoreError,
    >) {
        let now: i64 = m.committed_at;
        let ghost start = p@;
        let ghost rewards = self.rewards@;
        let ghost levels = self.profile_level_thresholds@;
        let mut granted: Vec<(i32, i32)> = Vec::new();
        let mut rejected: Vec<i32> = Vec::new();
        let mut profiles: Table<Plain<FollowerProfileSnapshot>> = Table::new();
        let mut candy: i64 = 0;
        let mut i: usize = 0;
        proof {
            assert(rewards.take(0) =~= Seq::empty());
        }
        while i < self.rewards.len()
            invariant
                i <= rewards.len(),
                rewards == self.rewards@,
                levels == self.profile_level_thresholds@,
                now == m.committed_at,
                start == old(p)@,
                encore_steps(start, rewards.take(i as int), levels, now) == (EncoreState {
                    p: p@,
                    granted: granted@,
                    rejected: rejected@,
                    profiles: profiles@,
                    candy,
                }),
            decreases rewards.len() - i,
        {
            let (music_id, gift, profile_exp, ready_at) = self.rewards[i];
            proof {
                assert(rewards.take(i + 1).drop_last() =~= rewards.take(i as int));
                assert(rewards.take(i + 1).last() == rewards[i as int]);
            }
            let owned: bool = p.owned.contains(key2(ContentKind::Music.exec_rank(), music_id));
            let known: Option<EncoreRow> = match p.encores.get(key1(music_id)) {
                Some(row) => Some(row.0),
                None => None,
            };
            let waiting: bool = match known {
                Some(row) => !row.encore_appears && row.encore_ready_at > now,
                None => false,
            };
            if !owned || waiting {
                rejected.push(to_i32_saturated(music_id));
            } else {
                let row = match known {
                    Some(row) => EncoreRow {
                        encore_appears: false,
                        encore_ready_at: ready_at,
                        ..row
                    },
                    None => EncoreRow {
                        encore_appears: false,
                        encore_follower_id: None,
                        encore_ready_at: ready_at,
                        ch3_active_until: 0,
                    },
                };
                p.encores.put(key1(music_id), Plain(row));
                let amount: i32 = max32(gift, 0);
                candy = saturating_add(candy, amount as i64);
                granted.push((to_i32_saturated(music_id), amount));
                match row.encore_follower_id {
                    Some(profile_id) => {
                        if profile_id > 0 {
                            let thresholds = exec_levels_of(
                                &self.profile_level_thresholds,
                                profile_id,
                            );
                            let profile = p.update_follower_profile(
                                profile_id,
                                profile_exp,
                                &thresholds,
                            );
                            profiles.put(key1(profile_id), Plain(profile));
                        }
                    },
                    None => {},
                }
            }
            i = i + 1;
        }
        proof {
            assert(rewards.take(i as int) =~= rewards);
        }
        if candy > 0 {
            p.wallet.add(CurrencyKind::Candy, Real::from_i64(candy));
        }
        let listed = listed_profiles(&profiles);
        let again = MusicEncoreRewardOutcome {
            rewards: copies(&granted),
            profiles: copies(&listed),
            rejected_music_ids: copies(&rejected),
        };
        Ok(
            (
                Summary::Encore(
                    MusicEncoreRewardOutcome {
                        rewards: granted,
                        profiles: listed,
                        rejected_music_ids: rejected,
                    },
                ),
                Summary::Encore(again),
            ),
        )
    }
}

fn listed_profiles(profiles: &Table<Plain<FollowerProfileSnapshot>>) -> (r: Vec<
    FollowerProfileSnapshot,
>)
    ensures
        r@ == profiles@.map_values(|e: (Key, FollowerProfileSnapshot)| e.1),
{
    let mut r: Vec<FollowerProfileSnapshot> = Vec::new();
    let mut i: usize = 0;
    while i < profiles.len()
        invariant
            i <= profiles@.len(),
            r@.len() == i,
            forall|j: int| 0 <= j < i ==> #[trigger] r@[j] == profiles@[j].1,
        decreases profiles@.len() - i,
    {
        r.push(profiles.row_at(i).0);
        i = i + 1;
    }
    proof {
        assert(r@ =~= profiles@.map_values(|e: (Key, FollowerProfileSnapshot)| e.1));
    }
    r
}

/// Watching an advertisement.
pub struct GrantAdReward {
    pub ad_id: i64,
    pub local_day: i64,
    pub rewards: Vec<RewardGrant>,
    pub profile: Option<AdProfileGrant>,
}

/// The views of an advertisement after one more.
pub open spec fn viewed(before: Option<AdViews>, local_day: i64, now: i64) -> Result<
    AdViews,
    StoreError,
> {
    match before {
        None => Ok(AdViews { local_day, day_count: 1, total_count: 1, last_view_time: now }),
        Some(v) => {
            let day_count = if v.local_day == local_day {
                v.day_count + 1
            } else {
                1
            };
            if day_count > i32::MAX {
                Err(StoreError::Sql(SqlFault::Integral { value: day_count as i64, index: 0 }))
            } else if v.total_count == i32::MAX {
                Err(
                    StoreError::Sql(
                        SqlFault::Integral { value: (v.total_count + 1) as i64, index: 1 },
                    ),
                )
            } else {
                Ok(
                    AdViews {
                        local_day,
                        day_count: day_count as i32,
                        total_count: (v.total_count + 1) as i32,
                        last_view_time: now,
                    },
                )
            }
        },
    }
}

pub open spec fn ad_effect(
    p: PlayerModel,
    m: Mutation,
    rules: Rules,
    ad_id: i64,
    local_day: i64,
    rewards: Seq<RewardGrant>,
    profile: Option<AdProfileGrant>,
) -> Effect {
    match viewed(get(p.ad_views, k1(ad_id as int)), local_day, m.now) {
        Err(e) => Err(e),
        Ok(views) => match all_granted(
            PlayerModel { ad_views: put(p.ad_views, k1(ad_id as int), views), ..p },
            rules,
            rewards,
            m.now,
            "ad"@,
        ) {
            Err(e) => Err(e),
            Ok((q, applied)) => {
                let (q, profile) = match profile {
                    None => (q, None),
                    Some(grant) => {
                        let (q, known) = follower_updated(
                            q,
                            grant.profile_id as int,
                            grant.experience as int,
                            grant.level_thresholds@,
                        );
                        (q, Some(known))
                    },
                };
                let answer = |rewards: Seq<RewardGrant>|
                    Outcome::Ad {
                        ad_id,
                        day_count: views.day_count,
                        total_count: views.total_count,
                        last_view_time: views.last_view_time,
                        rewards,
                        profile,
                    };
                Ok((q, answer(applied), answer(Seq::empty())))
            },
        },
    }
}

impl Command for GrantAdReward {
    open spec fn valid(&self) -> bool {
        true
    }

    open spec fn effect(&self, p: PlayerModel, m: Mutation, rules: Rules) -> Effect {
        ad_effect(p, m, rules, self.ad_id, self.local_day, self.rewards@, self.profile)
    }

    proof fn keeps_order(&self, p: PlayerModel, m: Mutation, rules: Rules) {
        broadcast use group_keyed;

        if let Ok(views) = viewed(get(p.ad_views, k1(self.ad_id as int)), self.local_day, m.now) {
            lemma_all_granted(
                PlayerModel { ad_views: put(p.ad_views, k1(self.ad_id as int), views), ..p },
                rules,
                self.rewards@,
                m.now,
                "ad"@,
            );
        }
    }

    fn run(&self, p: &mut Player, m: &RpcMutation, rules: &RewardRules) -> (r: Result<
        (Summary, Summary),
        StoreError,
    >) {
        let now: i64 = m.committed_at;
        let views: AdViews = match p.ad_views.get(key1(self.ad_id)) {
            None => AdViews {
                local_day: self.local_day,
                day_count: 1,
                total_count: 1,
                last_view_time: now,
            },
            Some(known) => {
                let v = known.0;
                let same: bool = v.local_day == self.local_day;
                let beyond: i64 = i32::MAX as i64 + 1;
                if same && v.day_count == i32::MAX {
                    return Err(
                        StoreError::Sql(SqlFault::Integral { value: beyond, index: 0 }),
                    );
                }
                if v.total_count == i32::MAX {
                    return Err(
                        StoreError::Sql(SqlFault::Integral { value: beyond, index: 1 }),
                    );
                }
                AdViews {
                    local_day: self.local_day,
                    day_count: if same {
                        v.day_count + 1
                    } else {
                        1
                    },
                    total_count: v.total_count + 1,
                    last_view_time: now,
                }
            },
        };
        p.ad_views.put(key1(self.ad_id), Plain(views));
        let applied = match p.apply_reward_grants(rules, &self.rewards, now, "ad") {
            Ok(applied) => applied,
            Err(e) => {
                return Err(e);
            },
        };
        let profile = match &self.profile {
            None => None,
            Some(grant) => Some(
                p.update_follower_profile(
                    grant.profile_id,
                    grant.experience,
                    &grant.level_thresholds,
                ),
            ),
        };
        let first = AdRewardOutcome {
            ad_id: self.ad_id,
            day_count: views.day_count,
            total_count: views.total_count,
            last_view_time: views.last_view_time,
            rewards: applied,
            profile,
        };
        let again = AdRewardOutcome {
            ad_id: self.ad_id,
            day_count: views.day_count,
            total_count: views.total_count,
            last_view_time: views.last_view_time,
            rewards: Vec::new(),
            profile,
        };
        Ok((Summary::Ad(first), Summary::Ad(again)))
    }
}

} // verus!
