//! What receiving rewards means for a player.
use crate::consume_reward::{fan_basis, fan_count, FanBonus};
use crate::domain::{ContentKind, CurrencyKind, DomainError, RewardGrant};
use crate::errors::{RewardFault, SqlFault, StoreError};
use crate::ints::{clip64, max_int};
use crate::magnitude::Toward;
use crate::number::{Real, Real32, ONE_32, ZERO};
use crate::player::PlayerModel;
use crate::rewards::{all_granted, costume_bonuses, granted, lemma_whole_count};
use crate::rows::{AreaRow, BuffRow, LevelRow, OwnedModel};
use crate::table::{get, k1, k2, law_get_put, Key};
use vstd::prelude::*;

verus! {

/// A count in a table, zero where there is none.
pub open spec fn count_at(rows: Seq<(Key, i64)>, key: Key) -> int {
    match get(rows, key) {
        Some(n) => n as int,
        None => 0,
    }
}

/// Receiving `n` of a gift leaves exactly `n` more of it, as many as before of
/// every other gift, and nothing else changed. It is refused only where the count
/// would not fit.
pub proof fn law_gifts_add_up(
    p: PlayerModel,
    rules: Seq<(Key, FanBonus)>,
    reward: RewardGrant,
    now: i64,
    source: Seq<char>,
    other: Key,
)
    requires
        reward.reward_type == 11,
        reward.amount.amount(),
    ensures
        ({
            let n = reward.amount.rounding(Toward::Nearest).or_larger(
                Real { bits: ZERO },
            ).as_int() as i64;
            let key = k1(reward.reward_id as int);
            match granted(p, rules, reward, now, source) {
                Ok((q, new)) => {
                    &&& new
                    &&& count_at(q.gifts, key) == count_at(p.gifts, key) + n
                    &&& other != key ==> get(q.gifts, other) == get(p.gifts, other)
                    &&& q == PlayerModel { gifts: q.gifts, ..p }
                },
                Err(e) => !(i64::MIN <= count_at(p.gifts, key) + n <= i64::MAX) && e
                    == StoreError::Sql(SqlFault::OutOfRange),
            }
        }),
{
    let key = k1(reward.reward_id as int);
    let n = reward.amount.rounding(Toward::Nearest).or_larger(
        Real { bits: ZERO },
    ).as_int() as i64;
    law_get_put(p.gifts, key, (count_at(p.gifts, key) + n) as i64, key);
    law_get_put(p.gifts, key, (count_at(p.gifts, key) + n) as i64, other);
}

/// What is no amount is never given.
pub proof fn law_only_amounts_are_given(
    p: PlayerModel,
    rules: Seq<(Key, FanBonus)>,
    reward: RewardGrant,
    now: i64,
    source: Seq<char>,
)
    ensures
        !reward.amount.amount() ==> granted(p, rules, reward, now, source) == Err::<
            (PlayerModel, bool),
            StoreError,
        >(StoreError::Domain(DomainError::InvalidAmount)),
        granted(p, rules, reward, now, source) is Ok ==> reward.amount.amount() && 1
            <= reward.reward_type <= 11,
        reward.amount.amount() && !(1 <= reward.reward_type <= 11) ==> granted(
            p,
            rules,
            reward,
            now,
            source,
        ) == Err::<(PlayerModel, bool), StoreError>(
            StoreError::UnsupportedReward(RewardFault::Kind(reward.reward_type)),
        ),
{
}

/// Whether a consumable reward with an id adds to a balance.
pub open spec fn pays_into(id: i32, kind: CurrencyKind) -> bool {
    ||| id == 1 && kind == CurrencyKind::Chocolate
    ||| id == 2 && kind == CurrencyKind::Candy
    ||| (id == 3 || id == 4) && kind == CurrencyKind::Ch1Like
    ||| (id == 5 || id == 10) && kind == CurrencyKind::Ch2Note
    ||| (id == 6 || id == 7) && kind == CurrencyKind::Ch2Like
}

/// A consumable reward adds its amount to its balance, and changes nothing else.
pub proof fn law_consumables_add_up(
    p: PlayerModel,
    rules: Seq<(Key, FanBonus)>,
    reward: RewardGrant,
    now: i64,
    source: Seq<char>,
    kind: CurrencyKind,
    other: CurrencyKind,
)
    requires
        reward.reward_type == 1,
        reward.amount.amount(),
        pays_into(reward.reward_id, kind),
    ensures
        granted(p, rules, reward, now, source) matches Ok((q, new)) && new
            && q.wallet.balance(kind) == p.wallet.balance(kind).plus(reward.amount) && (other
            != kind ==> q.wallet.balance(other) == p.wallet.balance(other)) && q == (PlayerModel {
            wallet: q.wallet,
            ..p
        }),
{
}

/// A consumable reward that stands for nothing is refused.
pub proof fn law_unknown_consumables(
    p: PlayerModel,
    rules: Seq<(Key, FanBonus)>,
    reward: RewardGrant,
    now: i64,
    source: Seq<char>,
)
    requires
        reward.reward_type == 1,
        reward.amount.amount(),
        !(1 <= reward.reward_id <= 11),
    ensures
        granted(p, rules, reward, now, source) == Err::<(PlayerModel, bool), StoreError>(
            StoreError::UnsupportedReward(RewardFault::Consume(reward.reward_id as i64)),
        ),
{
}

/// Energy adds up to the cap, which stays, and is counted from now on.
pub proof fn law_energy_adds_up(
    p: PlayerModel,
    rules: Seq<(Key, FanBonus)>,
    reward: RewardGrant,
    now: i64,
    source: Seq<char>,
)
    requires
        reward.reward_type == 1,
        reward.reward_id == 11,
        reward.amount.amount(),
    ensures
        ({
            let n = reward.amount.rounding(Toward::Nearest).or_larger(
                Real { bits: ZERO },
            ).as_int() as i64;
            granted(p, rules, reward, now, source) matches Ok((q, new)) && {
                &&& new
                &&& q.energy.amount <= p.energy.cap
                &&& n >= 0
                &&& p.energy.amount + n < p.energy.cap ==> q.energy.amount == p.energy.amount + n
                &&& p.energy.amount + n >= p.energy.cap ==> q.energy.amount == p.energy.cap
                &&& q.energy.cap == p.energy.cap
                &&& q.energy.calculated_at == now
                &&& q == PlayerModel { energy: q.energy, ..p }
            }
        }),
{
    lemma_whole_count(reward.amount);
}

/// The type of a reward that gives a kind of content.
pub open spec fn gives(reward_type: i16, kind: ContentKind) -> bool {
    ||| reward_type == 2 && kind == ContentKind::Music
    ||| reward_type == 3 && kind == ContentKind::Costume
    ||| reward_type == 4 && kind == ContentKind::Prop
    ||| reward_type == 5 && kind == ContentKind::Follower
    ||| reward_type == 6 && kind == ContentKind::Buff
    ||| reward_type == 7 && kind == ContentKind::Unit
    ||| reward_type == 8 && kind == ContentKind::Skill
    ||| reward_type == 9 && kind == ContentKind::Guitar
}

/// Content that is owned is not given again. Other content is owned from now on, at
/// the level that it had or at the first; all other content and everything else stay
/// as they were.
pub proof fn law_content_is_given_once(
    p: PlayerModel,
    rules: Seq<(Key, FanBonus)>,
    reward: RewardGrant,
    now: i64,
    source: Seq<char>,
    kind: ContentKind,
    other: Key,
)
    requires
        reward.amount.amount(),
        gives(reward.reward_type, kind),
        !(reward.reward_type == 6 && reward.reward_id == 2),
    ensures
        ({
            let key = k2(kind.rank() as int, reward.reward_id as int);
            granted(p, rules, reward, now, source) matches Ok((q, new)) && {
                &&& new == (get(p.owned, key) is None)
                &&& get(p.owned, key) is Some ==> q == p
                &&& new ==> get(q.owned, key) == Some(
                    OwnedModel { area: 0, acquired_at: now, source },
                )
                &&& new ==> get(q.levels, key) == Some(
                    match get(p.levels, key) {
                        Some(row) => row,
                        None => LevelRow { level: 1, reward_level: 0 },
                    },
                )
                &&& other != key ==> get(q.owned, other) == get(p.owned, other)
                &&& other != key ==> get(q.levels, other) == get(p.levels, other)
                &&& q == PlayerModel { owned: q.owned, levels: q.levels, ..p }
            }
        }),
{
    let key = k2(kind.rank() as int, reward.reward_id as int);
    let row = OwnedModel { area: 0, acquired_at: now, source };
    let level = LevelRow { level: 1, reward_level: 0 };
    law_get_put(p.owned, key, row, key);
    law_get_put(p.owned, key, row, other);
    law_get_put(p.levels, key, level, key);
    law_get_put(p.levels, key, level, other);
}

/// A fever lasts from its end so far, or from now, as long as the reward says and a
/// second at least.
pub proof fn law_fever_grows(
    p: PlayerModel,
    rules: Seq<(Key, FanBonus)>,
    reward: RewardGrant,
    now: i64,
    source: Seq<char>,
    other: Key,
)
    requires
        reward.reward_type == 6,
        reward.reward_id == 2,
        reward.amount.amount(),
    ensures
        ({
            let n = reward.amount.rounding(Toward::Nearest).as_int();
            let length = if n < 1 {
                1
            } else {
                n
            };
            let from = match get(p.buffs, k1(2)) {
                Some(row) => if row.expires_at > now {
                    row.expires_at as int
                } else {
                    now as int
                },
                None => now as int,
            };
            granted(p, rules, reward, now, source) matches Ok((q, new)) && {
                &&& new
                &&& get(q.buffs, k1(2)) matches Some(row) && row.active_at == now && (from + length
                    <= i64::MAX ==> row.expires_at == from + length) && (from + length > i64::MAX
                    ==> row.expires_at == i64::MAX)
                &&& other != k1(2) ==> get(q.buffs, other) == get(p.buffs, other)
                &&& get(q.owned, k2(ContentKind::Buff.rank() as int, 2)) is Some
                &&& get(q.levels, k2(ContentKind::Buff.rank() as int, 2)) is Some
                &&& get(p.owned, other) is Some ==> get(q.owned, other) == get(p.owned, other)
                &&& get(p.levels, other) is Some ==> get(q.levels, other) == get(p.levels, other)
                &&& q == PlayerModel { buffs: q.buffs, owned: q.owned, levels: q.levels, ..p }
            }
        }),
{
    let q = granted(p, rules, reward, now, source)->Ok_0.0;
    let row = get(q.buffs, k1(2));
    let key = k2(ContentKind::Buff.rank() as int, 2);
    let expires = match get(p.buffs, k1(2)) {
        Some(row) => max_int(row.expires_at as int, now as int),
        None => now as int,
    };
    let duration = max_int(reward.amount.rounding(Toward::Nearest).as_int(), 1);
    let timer = BuffRow { active_at: now, expires_at: clip64(expires + duration) };
    law_get_put(p.buffs, k1(2), timer, k1(2));
    law_get_put(p.buffs, k1(2), timer, other);
    let own = OwnedModel { area: 0, acquired_at: now, source };
    let level = LevelRow { level: 1, reward_level: 0 };
    law_get_put(p.owned, key, own, key);
    law_get_put(p.owned, key, own, other);
    law_get_put(p.levels, key, level, key);
    law_get_put(p.levels, key, level, other);
}

/// A ticket is there afterwards, from when it was first given.
pub proof fn law_tickets_stay(
    p: PlayerModel,
    rules: Seq<(Key, FanBonus)>,
    reward: RewardGrant,
    now: i64,
    source: Seq<char>,
    other: Key,
)
    requires
        reward.reward_type == 10,
        reward.amount.amount(),
    ensures
        ({
            let key = k1(reward.reward_id as int);
            granted(p, rules, reward, now, source) matches Ok((q, new)) && {
                &&& new == (get(p.tickets, key) is None)
                &&& get(q.tickets, key) == Some(
                    match get(p.tickets, key) {
                        Some(at) => at,
                        None => now,
                    },
                )
                &&& other != key ==> get(q.tickets, other) == get(p.tickets, other)
                &&& q == PlayerModel { tickets: q.tickets, ..p }
            }
        }),
{
    let key = k1(reward.reward_id as int);
    law_get_put(p.tickets, key, now, key);
    law_get_put(p.tickets, key, now, other);
}

/// A multiplier of the fans of a channel adds the same whole number to the fans of
/// the channel and, in the first, to the balance of fans. What the number is, the
/// bonuses of the costumes say.
pub proof fn law_fans_add_up(
    p: PlayerModel,
    rules: Seq<(Key, FanBonus)>,
    reward: RewardGrant,
    now: i64,
    source: Seq<char>,
    kind: CurrencyKind,
    other: Key,
)
    requires
        reward.reward_type == 1,
        reward.reward_id == 8 || reward.reward_id == 9,
        reward.amount.amount(),
    ensures
        ({
            let area: i32 = if reward.reward_id == 8 {
                1
            } else {
                2
            };
            match granted(p, rules, reward, now, source) {
                Ok((q, new)) => {
                    let bonuses = costume_bonuses(p.owned, rules, area)->Ok_0;
                    let fans = Real::of(fan_count(bonuses, reward.amount)->Ok_0 as int);
                    let before = get(p.areas, k1(area as int));
                    &&& new
                    &&& costume_bonuses(p.owned, rules, area) is Ok
                    &&& fan_count(bonuses, reward.amount) is Ok
                    &&& before is Some
                    &&& get(q.areas, k1(area as int)) == Some(
                        AreaRow { fans: before->Some_0.fans.plus(fans), ..before->Some_0 },
                    )
                    &&& other != k1(area as int) ==> get(q.areas, other) == get(p.areas, other)
                    &&& q.wallet.balance(kind) == if area == 1 && kind == CurrencyKind::Fans {
                        p.wallet.balance(kind).plus(fans)
                    } else {
                        p.wallet.balance(kind)
                    }
                    &&& q == PlayerModel { wallet: q.wallet, areas: q.areas, ..p }
                },
                Err(_) => costume_bonuses(p.owned, rules, area) is Err || fan_count(
                    costume_bonuses(p.owned, rules, area)->Ok_0,
                    reward.amount,
                ) is Err || get(p.areas, k1(area as int)) is None,
            }
        }),
{
    let area: i32 = if reward.reward_id == 8 {
        1
    } else {
        2
    };
    if let Ok((q, _)) = granted(p, rules, reward, now, source) {
        let bonuses = costume_bonuses(p.owned, rules, area)->Ok_0;
        let fans = Real::of(fan_count(bonuses, reward.amount)->Ok_0 as int);
        let row = get(p.areas, k1(area as int))->Some_0;
        let after = AreaRow { fans: row.fans.plus(fans), ..row };
        law_get_put(p.areas, k1(area as int), after, k1(area as int));
        law_get_put(p.areas, k1(area as int), after, other);
    }
}

/// Whether a row is a costume that has a bonus in a channel.
pub open spec fn has_bonus(
    row: (Key, OwnedModel),
    rules: Seq<(Key, FanBonus)>,
    area: i32,
    bonus: Real32,
) -> bool {
    row.0.a == ContentKind::Costume.rank() && (get(rules, k1(row.0.b as int)) matches Some(known)
        && known.area == area && known.bonus == bonus)
}

/// Among the bonuses of a channel are those of all owned costumes of the channel, and
/// no others. Only a costume without a rule is refused.
pub proof fn law_bonuses_of_owned_costumes(
    owned: Seq<(Key, OwnedModel)>,
    rules: Seq<(Key, FanBonus)>,
    area: i32,
    bonus: Real32,
)
    ensures
        costume_bonuses(owned, rules, area) matches Ok(bonuses) ==> (bonuses.contains(bonus)
            <==> exists|i: int|
            0 <= i < owned.len() && has_bonus(#[trigger] owned[i], rules, area, bonus)),
        costume_bonuses(owned, rules, area) is Err <==> exists|i: int|
            0 <= i < owned.len() && (#[trigger] owned[i]).0.a == ContentKind::Costume.rank()
                && get(rules, k1(owned[i].0.b as int)) is None,
    decreases owned.len(),
{
    if owned.len() > 0 {
        let front = owned.drop_last();
        law_bonuses_of_owned_costumes(front, rules, area, bonus);
        let n = owned.len() - 1;
        assert(owned[n] == owned.last());
        assert forall|i: int| 0 <= i < n implies #[trigger] owned[i] == front[i] by {}
        assert forall|i: int| 0 <= i < n implies owned[i] == #[trigger] front[i] by {}
        if let Ok(bonuses) = costume_bonuses(owned, rules, area) {
            let before = costume_bonuses(front, rules, area)->Ok_0;
            if before.contains(bonus) {
                let j = choose|j: int| 0 <= j < before.len() && before[j] == bonus;
                assert(bonuses[j] == bonus);
            }
            if bonuses.contains(bonus) {
                let j = choose|j: int| 0 <= j < bonuses.len() && bonuses[j] == bonus;
                if j < before.len() {
                    assert(before[j] == bonus);
                } else {
                    assert(has_bonus(owned[n], rules, area, bonus));
                }
            }
            if has_bonus(owned[n], rules, area, bonus) {
                assert(bonuses[before.len() as int] == bonus);
            }
        }
    }
}

/// How many fans a multiplier gives: the whole part of the multiplier times one plus
/// the bonuses, which has to be a number below two to the power 31.
pub proof fn law_fan_count(bonuses: Seq<Real32>, bonus: Real32, multiplier: Real)
    ensures
        fan_count(Seq::empty(), multiplier) matches Ok(n) ==> n as int == (Real32 {
            bits: ONE_32,
        }).widened().times(multiplier).as_int() as i32,
        fan_count(bonuses.push(bonus), multiplier) is Ok ==> bonus.amount()
            && multiplier.amount(),
        fan_basis(bonuses.push(bonus))
            == fan_basis(bonuses).plus(bonus),
        fan_count(bonuses, multiplier) matches Ok(n) ==> {
            let result = fan_basis(bonuses).widened().times(multiplier);
            n as int == result.as_int() as i32 && result.finite() && (Real { bits: ZERO }).le(
                result,
            ) && result.lt(Real { bits: 0x41e0_0000_0000_0000 })
        },
        fan_count(bonuses, multiplier) is Err ==> {
            let result = fan_basis(bonuses).widened().times(multiplier);
            ||| !multiplier.amount()
            ||| exists|i: int| 0 <= i < bonuses.len() && !(#[trigger] bonuses[i]).amount()
            ||| !result.finite() || result.lt(Real { bits: ZERO }) || !result.lt(
                Real { bits: 0x41e0_0000_0000_0000 },
            )
        },
{
    let all = bonuses.push(bonus);
    assert(all.drop_last() =~= bonuses);
    if fan_count(all, multiplier) is Ok {
        assert(all[bonuses.len() as int].amount());
    }
}

/// Rewards are given one after the other: first some and then the others is all of
/// them, and the answer holds what each of them gave.
pub proof fn law_rewards_follow_each_other(
    p: PlayerModel,
    rules: Seq<(Key, FanBonus)>,
    first: Seq<RewardGrant>,
    others: Seq<RewardGrant>,
    now: i64,
    source: Seq<char>,
)
    ensures
        all_granted(p, rules, first + others, now, source) == match all_granted(
            p,
            rules,
            first,
            now,
            source,
        ) {
            Err(e) => Err(e),
            Ok((q, given)) => match all_granted(q, rules, others, now, source) {
                Err(e) => Err(e),
                Ok((q, more)) => Ok((q, given + more)),
            },
        },
    decreases others.len(),
{
    if others.len() == 0 {
        assert(first + others =~= first);
        if let Ok((q, given)) = all_granted(p, rules, first, now, source) {
            assert(given + Seq::<RewardGrant>::empty() =~= given);
        }
    } else {
        let front = others.drop_last();
        law_rewards_follow_each_other(p, rules, first, front, now, source);
        assert((first + others).drop_last() =~= first + front);
        assert((first + others).last() == others.last());
        if let Ok((q, given)) = all_granted(p, rules, first, now, source) {
            if let Ok((r, more)) = all_granted(q, rules, front, now, source) {
                assert((given + more).push(others.last()) =~= given + more.push(others.last()));
            }
        }
    }
}

/// No rewards change nothing, and one reward is given as it is.
pub proof fn law_single_rewards(
    p: PlayerModel,
    rules: Seq<(Key, FanBonus)>,
    reward: RewardGrant,
    now: i64,
    source: Seq<char>,
)
    ensures
        all_granted(p, rules, Seq::empty(), now, source) == Ok::<
            (PlayerModel, Seq<RewardGrant>),
            StoreError,
        >((p, Seq::empty())),
        all_granted(p, rules, seq![reward], now, source) == match granted(
            p,
            rules,
            reward,
            now,
            source,
        ) {
            Err(e) => Err(e),
            Ok((q, new)) => Ok(
                (
                    q,
                    if new {
                        seq![reward]
                    } else {
                        Seq::empty()
                    },
                ),
            ),
        },
{
    assert(seq![reward].drop_last() =~= Seq::<RewardGrant>::empty());
    assert(seq![reward].last() == reward);
    assert(Seq::<RewardGrant>::empty().push(reward) =~= seq![reward]);
}

/// Whether two states of a player differ at most in what rewards can give: balances,
/// channels, content and its levels, gifts, tickets, buffs and energy.
pub open spec fn rewarded(p: PlayerModel, q: PlayerModel) -> bool {
    q == PlayerModel {
        wallet: q.wallet,
        areas: q.areas,
        owned: q.owned,
        levels: q.levels,
        gifts: q.gifts,
        tickets: q.tickets,
        buffs: q.buffs,
        energy: q.energy,
        ..p
    }
}

/// Rewards touch nothing but what rewards can give.
pub proof fn law_rewards_spare_the_rest(
    p: PlayerModel,
    rules: Seq<(Key, FanBonus)>,
    rewards: Seq<RewardGrant>,
    now: i64,
    source: Seq<char>,
)
    ensures
        all_granted(p, rules, rewards, now, source) matches Ok((q, _)) ==> rewarded(p, q),
    decreases rewards.len(),
{
    if rewards.len() > 0 {
        law_rewards_spare_the_rest(p, rules, rewards.drop_last(), now, source);
    }
}

} // verus!
