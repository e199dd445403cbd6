//! Rewards and what they do to a player.
use crate::consume_reward::{fan_count, fan_reward_count, FanBonus, RewardRules};
use crate::domain::{Ch3EnergySnapshot, ContentKind, CurrencyKind, DomainError, RewardGrant};
use crate::errors::{RewardFault, SqlFault, StoreError};
use crate::ints::{clip64, max64, max_int, saturating_add};
use crate::magnitude::Toward;
use crate::number::{larger, Real, Real32, ZERO};
use crate::player::{Player, PlayerModel};
use crate::rows::{AreaRow, BuffRow, LevelRow, OwnedModel, OwnedRow};
use crate::rounding::{lemma_two_pos, lemma_two_values, two, units};
use crate::table::{get, in_table, k1, k2, key1, key2, put, put_new, Key, Plain};
use vstd::prelude::*;

verus! {

/// A result that changes a player.
pub type Change<T> = Result<(PlayerModel, T), StoreError>;

/// A whole count of something, from a number that is not below zero.
pub open spec fn whole_count(amount: Real) -> i64 {
    amount.rounding(Toward::Nearest).or_larger(Real { bits: ZERO }).as_int() as i64
}

pub(crate) fn exec_whole_count(amount: Real) -> (n: i64)
    ensures
        n == whole_count(amount),
{
    amount.round().max(&Real { bits: ZERO }).to_i64()
}

/// The bonuses in a channel of the costumes among `rows`, in their order.
pub open spec fn costume_bonuses(
    rows: Seq<(Key, OwnedModel)>,
    rules: Seq<(Key, FanBonus)>,
    area: i32,
) -> Result<Seq<Real32>, StoreError>
    decreases rows.len(),
{
    if rows.len() == 0 {
        Ok(Seq::empty())
    } else {
        let key = rows.last().0;
        match costume_bonuses(rows.drop_last(), rules, area) {
            Err(e) => Err(e),
            Ok(bonuses) => if key.a != ContentKind::Costume.rank() {
                Ok(bonuses)
            } else {
                match get(rules, k1(key.b as int)) {
                    None => Err(
                        StoreError::UnsupportedReward(RewardFault::CostumeBonus(key.b)),
                    ),
                    Some(known) => if known.area == area {
                        Ok(bonuses.push(known.bonus))
                    } else {
                        Ok(bonuses)
                    },
                }
            },
        }
    }
}

/// A multiplier of the fans in a channel, applied.
pub open spec fn fans_granted(
    p: PlayerModel,
    rules: Seq<(Key, FanBonus)>,
    area: i32,
    multiplier: Real,
) -> Change<bool> {
    match costume_bonuses(p.owned, rules, area) {
        Err(e) => Err(e),
        Ok(bonuses) => match fan_count(bonuses, multiplier) {
            Err(e) => Err(StoreError::Domain(e)),
            Ok(count) => match get(p.areas, k1(area as int)) {
                None => Err(StoreError::UnsupportedReward(RewardFault::FanArea(area))),
                Some(row) => {
                    let amount = Real::of(count as int);
                    Ok(
                        (
                            PlayerModel {
                                wallet: if area == 1 {
                                    p.wallet.plus(CurrencyKind::Fans, amount)
                                } else {
                                    p.wallet
                                },
                                areas: put(
                                    p.areas,
                                    k1(area as int),
                                    AreaRow { fans: row.fans.plus(amount), ..row },
                                ),
                                ..p
                            },
                            true,
                        ),
                    )
                },
            },
        },
    }
}

/// The balance that a consumable reward adds to directly.
pub open spec fn consumed_currency(id: i32) -> Option<CurrencyKind> {
    if id == 1 {
        Some(CurrencyKind::Chocolate)
    } else if id == 2 {
        Some(CurrencyKind::Candy)
    } else if id == 3 || id == 4 {
        Some(CurrencyKind::Ch1Like)
    } else if id == 5 || id == 10 {
        Some(CurrencyKind::Ch2Note)
    } else if id == 6 || id == 7 {
        Some(CurrencyKind::Ch2Like)
    } else {
        None
    }
}

/// The content that a type of reward gives.
pub open spec fn granted_content(reward_type: i16) -> Option<ContentKind> {
    if reward_type == 2 {
        Some(ContentKind::Music)
    } else if reward_type == 3 {
        Some(ContentKind::Costume)
    } else if reward_type == 4 {
        Some(ContentKind::Prop)
    } else if reward_type == 5 {
        Some(ContentKind::Follower)
    } else if reward_type == 6 {
        Some(ContentKind::Buff)
    } else if reward_type == 7 {
        Some(ContentKind::Unit)
    } else if reward_type == 8 {
        Some(ContentKind::Skill)
    } else if reward_type == 9 {
        Some(ContentKind::Guitar)
    } else {
        None
    }
}

/// The key of a piece of content.
pub open spec fn content_at(kind: ContentKind, id: int) -> Key {
    k2(kind.rank() as int, id)
}

/// A player who owns a piece of content, from now on if not before.
pub open spec fn owning(
    p: PlayerModel,
    kind: ContentKind,
    area: i32,
    id: int,
    now: i64,
    source: Seq<char>,
) -> PlayerModel {
    PlayerModel {
        owned: put_new(
            p.owned,
            content_at(kind, id),
            OwnedModel { area, acquired_at: now, source },
        ),
        ..p
    }
}

/// A player with a piece of content at its first level, if it had no level.
pub open spec fn levelled(p: PlayerModel, kind: ContentKind, id: int) -> PlayerModel {
    PlayerModel {
        levels: put_new(
            p.levels,
            content_at(kind, id),
            LevelRow { level: 1, reward_level: 0 },
        ),
        ..p
    }
}

/// A player with more of a gift.
pub open spec fn gifted(p: PlayerModel, id: int, quantity: int) -> Change<bool> {
    let had = match get(p.gifts, k1(id)) {
        Some(n) => n as int,
        None => 0,
    };
    if i64::MIN <= had + quantity <= i64::MAX {
        Ok((PlayerModel { gifts: put(p.gifts, k1(id), (had + quantity) as i64), ..p }, true))
    } else {
        Err(StoreError::Sql(SqlFault::OutOfRange))
    }
}

/// A player with a longer fever.
pub open spec fn fevered(p: PlayerModel, amount: Real, now: i64, source: Seq<char>) -> PlayerModel {
    let from = match get(p.buffs, k1(2)) {
        Some(row) => max_int(row.expires_at as int, now as int),
        None => now as int,
    };
    let duration = max_int(amount.rounding(Toward::Nearest).as_int(), 1);
    let timed = PlayerModel {
        buffs: put(
            p.buffs,
            k1(2),
            BuffRow { active_at: now, expires_at: clip64(from + duration) },
        ),
        ..p
    };
    levelled(owning(timed, ContentKind::Buff, 0, 2, now, source), ContentKind::Buff, 2)
}

/// A player with more energy, up to the cap.
pub open spec fn energized(p: PlayerModel, added: int, now: i64) -> PlayerModel {
    let sum = p.energy.amount + added;
    PlayerModel {
        energy: Ch3EnergySnapshot {
            amount: if sum < p.energy.cap {
                sum as i32
            } else {
                p.energy.cap
            },
            cap: p.energy.cap,
            calculated_at: now,
        },
        ..p
    }
}

/// A reward given to a player, and whether it gave anything new.
pub open spec fn granted(
    p: PlayerModel,
    rules: Seq<(Key, FanBonus)>,
    reward: RewardGrant,
    now: i64,
    source: Seq<char>,
) -> Change<bool> {
    let id = reward.reward_id;
    if !reward.amount.amount() {
        Err(StoreError::Domain(DomainError::InvalidAmount))
    } else if reward.reward_type == 1 {
        if id == 8 || id == 9 {
            fans_granted(p, rules, (id - 7) as i32, reward.amount)
        } else if id == 11 {
            Ok((energized(p, whole_count(reward.amount) as int, now), true))
        } else {
            match consumed_currency(id) {
                None => Err(StoreError::UnsupportedReward(RewardFault::Consume(id as i64))),
                Some(kind) => Ok(
                    (PlayerModel { wallet: p.wallet.plus(kind, reward.amount), ..p }, true),
                ),
            }
        }
    } else if reward.reward_type == 6 && id == 2 {
        Ok((fevered(p, reward.amount, now, source), true))
    } else if reward.reward_type == 10 {
        Ok(
            (
                PlayerModel { tickets: put_new(p.tickets, k1(id as int), now), ..p },
                !in_table(p.tickets, k1(id as int)),
            ),
        )
    } else if reward.reward_type == 11 {
        gifted(p, id as int, whole_count(reward.amount) as int)
    } else {
        match granted_content(reward.reward_type) {
            None => Err(StoreError::UnsupportedReward(RewardFault::Kind(reward.reward_type))),
            Some(kind) => if in_table(p.owned, content_at(kind, id as int)) {
                Ok((p, false))
            } else {
                Ok(
                    (
                        levelled(
                            owning(p, kind, 0, id as int, now, source),
                            kind,
                            id as int,
                        ),
                        true,
                    ),
                )
            },
        }
    }
}

/// Rewards given one after the other, and those that gave something new.
pub open spec fn all_granted(
    p: PlayerModel,
    rules: Seq<(Key, FanBonus)>,
    rewards: Seq<RewardGrant>,
    now: i64,
    source: Seq<char>,
) -> Change<Seq<RewardGrant>>
    decreases rewards.len(),
{
    if rewards.len() == 0 {
        Ok((p, Seq::empty()))
    } else {
        match all_granted(p, rules, rewards.drop_last(), now, source) {
            Err(e) => Err(e),
            Ok((q, applied)) => match granted(q, rules, rewards.last(), now, source) {
                Err(e) => Err(e),
                Ok((q, new)) => Ok(
                    (
                        q,
                        if new {
                            applied.push(rewards.last())
                        } else {
                            applied
                        },
                    ),
                ),
            },
        }
    }
}

impl Player {
    fn owned_bonuses(&self, rules: &RewardRules, area: i32) -> (r: Result<Vec<Real32>, StoreError>)
        ensures
            match r {
                Ok(bonuses) => costume_bonuses(self@.owned, rules@, area) == Ok::<
                    Seq<Real32>,
                    StoreError,
                >(bonuses@),
                Err(e) => costume_bonuses(self@.owned, rules@, area) == Err::<
                    Seq<Real32>,
                    StoreError,
                >(e),
            },
    {
        let mut bonuses: Vec<Real32> = Vec::new();
        let mut i: usize = 0;
        let ghost rows = self.owned@;
        proof {
            assert(rows.take(0) =~= Seq::empty());
        }
        while i < self.owned.len()
            invariant
                i <= rows.len(),
                rows == self.owned@,
                costume_bonuses(rows.take(i as int), rules@, area) == Ok::<
                    Seq<Real32>,
                    StoreError,
                >(bonuses@),
            decreases rows.len() - i,
        {
            let key = self.owned.key_at(i);
            proof {
                assert(rows.take(i + 1).drop_last() =~= rows.take(i as int));
                assert(rows.take(i + 1).last() == rows[i as int]);
            }
            if key.a == ContentKind::Costume.exec_rank() {
                match rules.costume_fan_bonuses.get(key1(key.b)) {
                    None => {
                        proof {
                            lemma_bonus_error(rows, i + 1, rules@, area);
                        }
                        return Err(
                            StoreError::UnsupportedReward(RewardFault::CostumeBonus(key.b)),
                        );
                    },
                    Some(known) => {
                        if known.0.area == area {
                            bonuses.push(known.0.bonus);
                        }
                    },
                }
            }
            i = i + 1;
        }
        proof {
            assert(rows.take(i as int) =~= rows);
        }
        Ok(bonuses)
    }

    pub(crate) fn grant_fan_reward(
        &mut self,
        rules: &RewardRules,
        area: i32,
        multiplier: Real,
    ) -> (r:
        Result<bool, StoreError>)
        ensures
            changed(fans_granted(old(self)@, rules@, area, multiplier), final(self)@, r),
    {
        let bonuses = match self.owned_bonuses(rules, area) {
            Ok(bonuses) => bonuses,
            Err(e) => {
                return Err(e);
            },
        };
        let count: i32 = match fan_reward_count(&bonuses, multiplier) {
            Ok(count) => count,
            Err(e) => {
                return Err(StoreError::Domain(e));
            },
        };
        let amount = Real::from_i64(count as i64);
        let row: AreaRow = match self.areas.get(key1(area as i64)) {
            Some(row) => row.0,
            None => {
                return Err(StoreError::UnsupportedReward(RewardFault::FanArea(area)));
            },
        };
        if area == 1 {
            self.wallet.add(CurrencyKind::Fans, amount);
        }
        let fans = row.fans.add(&amount);
        self.areas.put(key1(area as i64), Plain(AreaRow { fans, ..row }));
        Ok(true)
    }

    pub(crate) fn own(
        &mut self,
        kind: ContentKind,
        area: i32,
        id: i64,
        now: i64,
        source: &str,
    ) -> (r:
        bool)
        ensures
            final(self)@ == owning(old(self)@, kind, area, id as int, now, source@),
            r == !in_table(old(self)@.owned, content_at(kind, id as int)),
    {
        self.owned.put_new(
            key2(kind.exec_rank(), id),
            OwnedRow { area, acquired_at: now, source: source.to_owned() },
        )
    }

    pub(crate) fn level(&mut self, kind: ContentKind, id: i64)
        ensures
            final(self)@ == levelled(old(self)@, kind, id as int),
    {
        let r: bool = self.levels.put_new(
            key2(kind.exec_rank(), id),
            Plain(LevelRow { level: 1, reward_level: 0 }),
        );
    }

    pub(crate) fn add_gift(&mut self, id: i64, quantity: i64) -> (r: Result<bool, StoreError>)
        ensures
            changed(gifted(old(self)@, id as int, quantity as int), final(self)@, r),
    {
        let had: i64 = match self.gifts.get(key1(id)) {
            Some(n) => n.0,
            None => 0,
        };
        match had.checked_add(quantity) {
            Some(sum) => {
                self.gifts.put(key1(id), Plain(sum));
                Ok(true)
            },
            None => Err(StoreError::Sql(SqlFault::OutOfRange)),
        }
    }

    fn fever(&mut self, amount: Real, now: i64, source: &str)
        ensures
            final(self)@ == fevered(old(self)@, amount, now, source@),
    {
        let from: i64 = match self.buffs.get(key1(2)) {
            Some(row) => max64(row.0.expires_at, now),
            None => now,
        };
        let duration: i64 = max64(amount.round().to_i64(), 1);
        let expires_at: i64 = saturating_add(from, duration);
        self.buffs.put(key1(2), Plain(BuffRow { active_at: now, expires_at }));
        let r: bool = self.own(ContentKind::Buff, 0, 2, now, source);
        self.level(ContentKind::Buff, 2);
    }

    fn energize(&mut self, added: i64, now: i64)
        requires
            added >= 0,
        ensures
            final(self)@ == energized(old(self)@, added as int, now),
    {
        let sum: i128 = self.energy.amount as i128 + added as i128;
        if sum < self.energy.cap as i128 {
            self.energy.amount = sum as i32;
        } else {
            self.energy.amount = self.energy.cap;
        }
        self.energy.calculated_at = now;
    }

    /// Gives a reward; whether it gave anything new.
    pub(crate) fn apply_reward_grant(
        &mut self,
        rules: &RewardRules,
        reward: &RewardGrant,
        now: i64,
        source: &str,
    ) -> (r: Result<bool, StoreError>)
        ensures
            changed(granted(old(self)@, rules@, *reward, now, source@), final(self)@, r),
    {
        let id: i32 = reward.reward_id;
        if !reward.amount.is_amount() {
            return Err(StoreError::Domain(DomainError::InvalidAmount));
        }
        if reward.reward_type == 1 {
            if id == 8 || id == 9 {
                return self.grant_fan_reward(rules, id - 7, reward.amount);
            }
            let kind = match id {
                1 => CurrencyKind::Chocolate,
                2 => CurrencyKind::Candy,
                3 | 4 => CurrencyKind::Ch1Like,
                5 | 10 => CurrencyKind::Ch2Note,
                6 | 7 => CurrencyKind::Ch2Like,
                11 => {
                    proof {
                        lemma_whole_count(reward.amount);
                    }
                    let added: i64 = exec_whole_count(reward.amount);
                    self.energize(added, now);
                    return Ok(true);
                },
                _ => {
                    return Err(StoreError::UnsupportedReward(RewardFault::Consume(id as i64)));
                },
            };
            self.wallet.add(kind, reward.amount);
            return Ok(true);
        }
        if reward.reward_type == 6 && id == 2 {
            // The amount of a fever is its seconds.
            self.fever(reward.amount, now, source);
            return Ok(true);
        }
        let kind = match reward.reward_type {
            2 => ContentKind::Music,
            3 => ContentKind::Costume,
            4 => ContentKind::Prop,
            5 => ContentKind::Follower,
            6 => ContentKind::Buff,
            7 => ContentKind::Unit,
            8 => ContentKind::Skill,
            9 => ContentKind::Guitar,
            10 => {
                return Ok(self.tickets.put_new(key1(id as i64), Plain(now)));
            },
            11 => {
                return self.add_gift(id as i64, exec_whole_count(reward.amount));
            },
            _ => {
                return Err(
                    StoreError::UnsupportedReward(RewardFault::Kind(reward.reward_type)),
                );
            },
        };
        let new: bool = self.own(kind, 0, id as i64, now, source);
        if new {
            self.level(kind, id as i64);
        }
        Ok(new)
    }

    /// Gives rewards one after the other; those that gave something new.
    pub(crate) fn apply_reward_grants(
        &mut self,
        rules: &RewardRules,
        rewards: &Vec<RewardGrant>,
        now: i64,
        source: &str,
    ) -> (r: Result<Vec<RewardGrant>, StoreError>)
        ensures
            match r {
                Ok(applied) => all_granted(old(self)@, rules@, rewards@, now, source@) == Ok::<
                    (PlayerModel, Seq<RewardGrant>),
                    StoreError,
                >((final(self)@, applied@)),
                Err(e) => all_granted(old(self)@, rules@, rewards@, now, source@) == Err::<
                    (PlayerModel, Seq<RewardGrant>),
                    StoreError,
                >(e),
            },
    {
        let mut applied: Vec<RewardGrant> = Vec::new();
        let mut i: usize = 0;
        let ghost start = self@;
        proof {
            assert(rewards@.take(0) =~= Seq::empty());
        }
        while i < rewards.len()
            invariant
                i <= rewards@.len(),
                all_granted(start, rules@, rewards@.take(i as int), now, source@) == Ok::<
                    (PlayerModel, Seq<RewardGrant>),
                    StoreError,
                >((self@, applied@)),
                start == old(self)@,
            decreases rewards@.len() - i,
        {
            proof {
                assert(rewards@.take(i + 1).drop_last() =~= rewards@.take(i as int));
                assert(rewards@.take(i + 1).last() == rewards@[i as int]);
            }
            match self.apply_reward_grant(rules, &rewards[i], now, source) {
                Ok(new) => {
                    if new {
                        applied.push(rewards[i]);
                    }
                },
                Err(e) => {
                    proof {
                        lemma_grant_error(start, rules@, rewards@, i + 1, now, source@);
                    }
                    return Err(e);
                },
            }
            i = i + 1;
        }
        proof {
            assert(rewards@.take(i as int) =~= rewards@);
        }
        Ok(applied)
    }
}

/// What a method that changes a player returns, and what it leaves.
pub open spec fn changed<T>(
    effect: Change<T>,
    after: PlayerModel,
    r: Result<T, StoreError>,
) -> bool {
    match effect {
        Err(e) => r == Err::<T, StoreError>(e),
        Ok((q, out)) => r == Ok::<T, StoreError>(out) && after == q,
    }
}

pub proof fn lemma_whole_count(amount: Real)
    ensures
        whole_count(amount) >= 0,
{
    let x = amount.rounding(Toward::Nearest);
    let zero = Real { bits: ZERO };
    let n = larger(x.num(), zero.num(), 53);
    let r = x.or_larger(zero);
    lemma_two_values();
    assert(r.num() == n);
    assert(n.neg ==> n.mag == 0);
    if n.neg {
        lemma_two_pos(1074);
        let t = two(1074);
        assert(units(0, 53) == 0);
        assert(0nat / t == 0) by (nonlinear_arith)
            requires
                t > 0,
        ;
    }
}

/// An unknown costume makes the whole list fail.
proof fn lemma_bonus_error(
    rows: Seq<(Key, OwnedModel)>,
    i: int,
    rules: Seq<(Key, FanBonus)>,
    area: i32,
)
    requires
        0 <= i <= rows.len(),
        costume_bonuses(rows.take(i), rules, area) is Err,
    ensures
        costume_bonuses(rows, rules, area) == costume_bonuses(rows.take(i), rules, area),
    decreases rows.len() - i,
{
    if i < rows.len() {
        assert(rows.take(i + 1).drop_last() =~= rows.take(i));
        lemma_bonus_error(rows, i + 1, rules, area);
    } else {
        assert(rows.take(i) =~= rows);
    }
}

/// A refused reward makes the whole list fail.
proof fn lemma_grant_error(
    p: PlayerModel,
    rules: Seq<(Key, FanBonus)>,
    rewards: Seq<RewardGrant>,
    i: int,
    now: i64,
    source: Seq<char>,
)
    requires
        0 <= i <= rewards.len(),
        all_granted(p, rules, rewards.take(i), now, source) is Err,
    ensures
        all_granted(p, rules, rewards, now, source) == all_granted(
            p,
            rules,
            rewards.take(i),
            now,
            source,
        ),
    decreases rewards.len() - i,
{
    if i < rewards.len() {
        assert(rewards.take(i + 1).drop_last() =~= rewards.take(i));
        lemma_grant_error(p, rules, rewards, i + 1, now, source);
    } else {
        assert(rewards.take(i) =~= rewards);
    }
}

} // verus!
