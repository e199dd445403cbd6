//! What buying means for a player.
use crate::command::{Command, Mutation, Rules};
use crate::domain::{
    AdLevelSnapshot, ContentKind, ContentPurchaseCommand, CurrencyKind, DomainError,
};
use crate::errors::{SqlFault, StoreError};
use crate::number::{Real, Real32, ZERO};
use crate::outcome::Outcome;
use crate::player::PlayerModel;
use crate::reward_laws::law_rewards_spare_the_rest;
use crate::rewards::all_granted;
use crate::rounding::lemma_two_values;
use crate::rows::{AdLevelState, LevelRow, OwnedModel, PurchaseModel, Wallet};
use crate::shop::{
    ad_level_advanced, ad_level_reached, level_price, paid, PurchaseContent, PurchaseRewards,
};
use crate::table::{find, get, k1, k2, law_find_place, law_get_put, Key};
use vstd::prelude::*;

verus! {

/// A price is taken from its balance exactly once, and only if the balance holds it; the
/// other balances stay as they were.
pub proof fn law_prices_are_paid(w: Wallet, kind: CurrencyKind, price: Real, other: CurrencyKind)
    ensures
        match paid(w, kind, price) {
            Err(e) => {
                &&& !price.amount() ==> e == StoreError::Domain(DomainError::InvalidAmount)
                &&& price.amount() ==> e == StoreError::Domain(DomainError::InsufficientBalance)
                    && !price.le(w.balance(kind)) && (Real { bits: ZERO }).lt(price)
            },
            Ok(after) => {
                &&& price.amount()
                &&& (Real { bits: ZERO }).lt(price) ==> price.le(w.balance(kind)) && after.balance(
                    kind,
                ) == w.balance(kind).minus(price)
                &&& !(Real { bits: ZERO }).lt(price) ==> after == w
                &&& other != kind ==> after.balance(other) == w.balance(other)
            },
        },
{
    lemma_two_values();
}

/// The level of advertisements that an experience reaches is the highest that it suffices
/// for, and never below the level so far.
pub proof fn law_ad_levels(thresholds: Seq<(i32, i32)>, experience: i32, level: i32, i: int)
    ensures
        ad_level_reached(thresholds, experience, level) >= level,
        0 <= i < thresholds.len() && thresholds[i].1 <= experience ==> ad_level_reached(
            thresholds,
            experience,
            level,
        ) >= thresholds[i].0,
        ad_level_reached(thresholds, experience, level) == level || exists|j: int|
            0 <= j < thresholds.len() && (#[trigger] thresholds[j]).0 == ad_level_reached(
                thresholds,
                experience,
                level,
            ) && thresholds[j].1 <= experience,
    decreases thresholds.len(),
{
    if thresholds.len() > 0 {
        let front = thresholds.drop_last();
        law_ad_levels(front, experience, level, i);
        let n = thresholds.len() - 1;
        if 0 <= i < n {
            assert(front[i] == thresholds[i]);
        }
        let before = ad_level_reached(front, experience, level);
        let after = ad_level_reached(thresholds, experience, level);
        if after == before && before != level {
            let j = choose|j: int|
                0 <= j < front.len() && (#[trigger] front[j]).0 == before && front[j].1
                    <= experience;
            assert(thresholds[j] == front[j]);
        } else if after != before {
            assert(thresholds[n].0 == after);
        }
    }
}

/// A group of advertisements gains one experience, and the level that it then reaches;
/// the other groups stay as they were. An unknown group is refused.
pub proof fn law_ad_groups_advance(
    p: PlayerModel,
    group_id: i64,
    thresholds: Seq<(i32, i32)>,
    other: Key,
)
    ensures
        match get(p.ad_levels, k1(group_id as int)) {
            None => ad_level_advanced(p, group_id, thresholds) == Err::<
                (PlayerModel, AdLevelSnapshot),
                StoreError,
            >(StoreError::Sql(SqlFault::NoRows)),
            Some(before) => ad_level_advanced(p, group_id, thresholds) matches Ok((q, shown)) && {
                &&& before.experience < i32::MAX ==> shown.experience == before.experience + 1
                &&& before.experience == i32::MAX ==> shown.experience == i32::MAX
                &&& shown.level == ad_level_reached(thresholds, shown.experience, before.level)
                &&& shown.ad_level_id == group_id
                &&& get(q.ad_levels, k1(group_id as int)) == Some(
                    AdLevelState { level: shown.level, experience: shown.experience },
                )
                &&& other != k1(group_id as int) ==> get(q.ad_levels, other) == get(
                    p.ad_levels,
                    other,
                )
                &&& q == PlayerModel { ad_levels: q.ad_levels, ..p }
            },
        },
{
    if let Ok((q, shown)) = ad_level_advanced(p, group_id, thresholds) {
        let row = AdLevelState { level: shown.level, experience: shown.experience };
        law_get_put(p.ad_levels, k1(group_id as int), row, k1(group_id as int));
        law_get_put(p.ad_levels, k1(group_id as int), row, other);
    }
}

/// A purchase that is new pays its cost, gives its rewards and advances its
/// advertisements, and is written down under its transaction. One that was completed
/// before changes nothing. The answer shows the balances that are there afterwards.
pub proof fn law_purchases(
    p: PlayerModel,
    m: Mutation,
    rules: Rules,
    c: PurchaseRewards,
    other: Seq<char>,
)
    ensures
        c.effect(p, m, rules) matches Ok((q, answer, _)) ==> {
            let b = c.purchase;
            let id = b.transaction_id@;
            &&& answer matches Outcome::Purchase { chocolate, candy, rewards, ad_level }
                && chocolate == q.wallet.balance(CurrencyKind::Chocolate) && candy
                == q.wallet.balance(CurrencyKind::Candy) && (find(p.purchases, id) is Some
                ==> rewards.len() == 0) && (ad_level is Some <==> b.ad_progression is Some)
            &&& find(p.purchases, id) is Some ==> q == p
            &&& find(p.purchases, id) is None ==> {
                let wallet = match b.cost {
                    None => Ok(p.wallet),
                    Some((kind, price)) => paid(p.wallet, kind, price),
                };
                let given = all_granted(
                    PlayerModel { wallet: wallet->Ok_0, ..p },
                    rules,
                    b.rewards@,
                    m.now,
                    b.purchase_kind@,
                );
                let r = given->Ok_0.0;
                &&& wallet is Ok
                &&& given is Ok
                &&& answer->Purchase_rewards == given->Ok_0.1
                &&& find(q.purchases, id) == Some(
                    PurchaseModel {
                        purchase_kind: b.purchase_kind@,
                        target_id: b.target_id,
                        created_at: m.now,
                    },
                )
                &&& other != id ==> find(q.purchases, other) == find(p.purchases, other)
                &&& match b.ad_progression {
                    None => q == (PlayerModel { purchases: q.purchases, ..r }),
                    Some(progression) => ad_level_advanced(
                        r,
                        progression.group_id,
                        progression.thresholds@,
                    ) matches Ok((t, shown)) && q == (PlayerModel { purchases: q.purchases, ..t })
                        && answer->Purchase_ad_level == Some(shown),
                }
            }
        },
        c.effect(p, m, rules) is Err && find(p.purchases, c.purchase.transaction_id@) is None ==> {
            let wallet = match c.purchase.cost {
                None => Ok(p.wallet),
                Some((kind, price)) => paid(p.wallet, kind, price),
            };
            let given = all_granted(
                PlayerModel { wallet: wallet->Ok_0, ..p },
                rules,
                c.purchase.rewards@,
                m.now,
                c.purchase.purchase_kind@,
            );
            wallet is Err || given is Err || (c.purchase.ad_progression matches Some(progression)
                && get(given->Ok_0.0.ad_levels, k1(progression.group_id as int)) is None)
        },
        c.effect(p, m, rules) is Err && find(p.purchases, c.purchase.transaction_id@) is Some ==> (
        c.purchase.ad_progression matches Some(progression) && get(
            p.ad_levels,
            k1(progression.group_id as int),
        ) is None),
{
    let b = c.purchase;
    let id = b.transaction_id@;
    let row = PurchaseModel {
        purchase_kind: b.purchase_kind@,
        target_id: b.target_id,
        created_at: m.now,
    };
    let wallet = match b.cost {
        None => Ok(p.wallet),
        Some((kind, price)) => paid(p.wallet, kind, price),
    };
    law_rewards_spare_the_rest(
        PlayerModel { wallet: wallet->Ok_0, ..p },
        rules,
        b.rewards@,
        m.now,
        b.purchase_kind@,
    );
    law_find_place(p.purchases, id, row, id);
    law_find_place(p.purchases, id, row, other);
}

/// The level of a piece of content, zero where it has none.
pub open spec fn content_level(p: PlayerModel, kind: ContentKind, id: i64) -> int {
    match get(p.levels, k2(kind.rank() as int, id as int)) {
        Some(row) => row.level as int,
        None => 0,
    }
}

/// The base price where it does not grow. Where it does, every level above the first paid
/// one, which is the second for skills, costs one increment more, in the narrower format
/// and without a fraction.
pub proof fn law_level_prices(c: ContentPurchaseCommand, level: int)
    ensures
        !(Real { bits: ZERO }).lt(c.price_increment) ==> level_price(c, level) == c.price,
        (Real { bits: ZERO }).lt(c.price_increment) ==> {
            let free: int = if c.kind == ContentKind::Skill {
                1
            } else {
                0
            };
            let steps = if level > free {
                level - free
            } else {
                0
            };
            level_price(c, level) == c.price.narrowed().plus(
                c.price_increment.narrowed().times(Real32::of(steps)),
            ).truncated().widened()
        },
{
}

/// Buying a piece of content pays the price of its next level, makes it owned and raises
/// its level by exactly one, at least to the first; its bonus level and all other content
/// stay. Content at its highest level is neither paid nor raised.
pub proof fn law_content_is_bought(
    p: PlayerModel,
    m: Mutation,
    rules: Rules,
    c: PurchaseContent,
    kind: CurrencyKind,
    other: Key,
)
    ensures
        ({
            let b = c.purchase;
            let key = k2(b.kind.rank() as int, b.content_id as int);
            let level = content_level(p, b.kind, b.content_id);
            let top: int = if b.max_level > 1 {
                b.max_level as int
            } else {
                1
            };
            let amounts = b.price.amount() && b.price_increment.amount();
            let payment = paid(p.wallet, b.currency, level_price(b, level));
            match c.effect(p, m, rules) {
                Err(e) => {
                    &&& !amounts ==> e == StoreError::Domain(DomainError::InvalidAmount)
                    &&& amounts ==> level < top && payment == Err::<Wallet, StoreError>(e)
                },
                Ok((q, answer, _)) => {
                    &&& amounts
                    &&& answer matches Outcome::Content(a) && a.kind == b.kind && a.content_id
                        == b.content_id && a.level == content_level(q, b.kind, b.content_id)
                        && a.chocolate == q.wallet.balance(CurrencyKind::Chocolate) && a.candy
                        == q.wallet.balance(CurrencyKind::Candy)
                    &&& level >= top ==> q == p
                    &&& level < top ==> {
                        &&& payment is Ok && q.wallet == payment->Ok_0
                        &&& level >= 0 ==> content_level(q, b.kind, b.content_id) == level + 1
                        &&& level < 0 ==> content_level(q, b.kind, b.content_id) == 1
                        &&& get(q.levels, key) matches Some(row) && row.reward_level == match get(
                            p.levels,
                            key,
                        ) {
                            Some(before) => before.reward_level,
                            None => 0,
                        }
                        &&& other != key ==> get(q.levels, other) == get(p.levels, other)
                        &&& get(q.owned, key) == Some(
                            match get(p.owned, key) {
                                Some(before) => before,
                                None => OwnedModel {
                                    area: b.area,
                                    acquired_at: m.now,
                                    source: "purchase"@,
                                },
                            },
                        )
                        &&& other != key ==> get(q.owned, other) == get(p.owned, other)
                        &&& q == PlayerModel {
                            wallet: q.wallet,
                            owned: q.owned,
                            levels: q.levels,
                            ..p
                        }
                    }
                },
            }
        }),
{
    let b = c.purchase;
    let key = k2(b.kind.rank() as int, b.content_id as int);
    let level = content_level(p, b.kind, b.content_id);
    let own = OwnedModel { area: b.area, acquired_at: m.now, source: "purchase"@ };
    law_get_put(p.owned, key, own, key);
    law_get_put(p.owned, key, own, other);
    if let Ok((q, _, _)) = c.effect(p, m, rules) {
        let row = LevelRow {
            level: if level < 0 {
                1
            } else if level < i64::MAX {
                (level + 1) as i64
            } else {
                i64::MAX
            },
            reward_level: match get(p.levels, key) {
                Some(before) => before.reward_level,
                None => 0,
            },
        };
        law_get_put(p.levels, key, row, key);
        law_get_put(p.levels, key, row, other);
    }
}

} // verus!
