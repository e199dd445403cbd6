//! Purchases.
use crate::command::{answered, Command, Effect, Mutation, RpcMutation, Rules};
use crate::consume_reward::RewardRules;
use crate::domain::{
    AdLevelProgression, AdLevelSnapshot, ContentKind, ContentPurchaseCommand,
    ContentPurchaseOutcome, CurrencyKind, DomainError, PurchaseOutcome, RewardGrant,
    RewardPurchaseCommand,
};
use crate::errors::{SqlFault, StoreError};
use crate::ints::{clip32, clip64, max64, max_int, saturating_add, saturating_add32};
use crate::kept::lemma_all_granted;
use crate::number::{sum, Real, Real32, ZERO};
use crate::order::group_keyed;
use crate::outcome::{Outcome, Summary};
use crate::player::{Player, PlayerModel};
use crate::rewards::{all_granted, content_at, owning, Change};
use crate::rounding::{infinite, lemma_two_values, lemma_units_monotonic};
use crate::rows::{law_wallet, AdLevelState, LevelRow, PurchaseModel, PurchaseRow, Wallet};
use crate::table::{find, get, k1, key1, key2, place, put, Plain};
use vstd::prelude::*;

verus! {

/// The balances after a price was paid.
pub open spec fn paid(w: Wallet, kind: CurrencyKind, price: Real) -> Result<Wallet, StoreError> {
    if !price.amount() {
        Err(StoreError::Domain(DomainError::InvalidAmount))
    } else if price.le(Real { bits: ZERO }) {
        Ok(w)
    } else if price.le(w.balance(kind)) {
        Ok(w.with(kind, w.balance(kind).minus(price)))
    } else {
        Err(StoreError::Domain(DomainError::InsufficientBalance))
    }
}

/// Paying never leaves a balance below zero, and leaves the others as they were.
pub proof fn law_paid(w: Wallet, kind: CurrencyKind, price: Real, other: CurrencyKind)
    requires
        (Real { bits: ZERO }).le(w.balance(kind)),
        paid(w, kind, price) is Ok,
    ensures
        (Real { bits: ZERO }).le(paid(w, kind, price)->Ok_0.balance(kind)),
        other != kind ==> paid(w, kind, price)->Ok_0.balance(other) == w.balance(other),
{
    let zero = Real { bits: ZERO };
    let balance = w.balance(kind);
    if !price.le(zero) {
        let a = balance.num();
        let b = price.num();
        assert(!a.neg && !b.neg);
        lemma_units_monotonic(b.mag as nat, a.mag as nat, 53);
        let left = sum(a, b.negated(), 53);
        assert(infinite(53) == 0x7ff0_0000_0000_0000) by {
            lemma_two_values();
        }
        assert(!left.neg && left.mag <= infinite(53));
        assert(balance.minus(price).num() == left);
        law_wallet(w, kind, balance.minus(price), kind);
        law_wallet(w, kind, balance.minus(price), other);
    }
}

/// What paying returns, and what it leaves.
pub open spec fn balances_left(
    effect: Result<Wallet, StoreError>,
    before: PlayerModel,
    after: PlayerModel,
    r: Result<(), StoreError>,
) -> bool {
    match effect {
        Err(e) => r == Err::<(), StoreError>(e),
        Ok(wallet) => r is Ok && after == (PlayerModel { wallet, ..before }),
    }
}

impl Player {
    pub(crate) fn deduct_currency(&mut self, kind: CurrencyKind, amount: Real) -> (r: Result<
        (),
        StoreError,
    >)
        ensures
            balances_left(paid(old(self)@.wallet, kind, amount), old(self)@, final(self)@, r),
    {
        if !amount.is_amount() {
            return Err(StoreError::Domain(DomainError::InvalidAmount));
        }
        if amount.at_most(&Real { bits: ZERO }) {
            return Ok(());
        }
        let balance = self.wallet.get(kind);
        if !amount.at_most(&balance) {
            return Err(StoreError::Domain(DomainError::InsufficientBalance));
        }
        self.wallet.set(kind, balance.sub(&amount));
        Ok(())
    }
}

/// The level of a group of advertisements.
pub open spec fn ad_level_of(p: PlayerModel, group_id: i64) -> Result<AdLevelSnapshot, StoreError> {
    match get(p.ad_levels, k1(group_id as int)) {
        None => Err(StoreError::Sql(SqlFault::NoRows)),
        Some(row) => Ok(
            AdLevelSnapshot {
                ad_level_id: group_id,
                level: row.level,
                experience: row.experience,
            },
        ),
    }
}

/// The highest level, from `level` on, that an experience reaches.
pub open spec fn ad_level_reached(thresholds: Seq<(i32, i32)>, experience: i32, level: i32) -> i32
    decreases thresholds.len(),
{
    if thresholds.len() == 0 {
        level
    } else {
        let before = ad_level_reached(thresholds.drop_last(), experience, level);
        let (candidate, required) = thresholds.last();
        if required <= experience && candidate > before {
            candidate
        } else {
            before
        }
    }
}

/// A group of advertisements with one more experience.
pub open spec fn ad_level_advanced(
    p: PlayerModel,
    group_id: i64,
    thresholds: Seq<(i32, i32)>,
) -> Change<
    AdLevelSnapshot,
> {
    match ad_level_of(p, group_id) {
        Err(e) => Err(e),
        Ok(before) => {
            let experience = clip32(before.experience + 1);
            let level = ad_level_reached(thresholds, experience, before.level);
            Ok(
                (
                    PlayerModel {
                        ad_levels: put(
                            p.ad_levels,
                            k1(group_id as int),
                            AdLevelState { level, experience },
                        ),
                        ..p
                    },
                    AdLevelSnapshot { ad_level_id: group_id, level, experience },
                ),
            )
        },
    }
}

fn exec_ad_level_reached(thresholds: &Vec<(i32, i32)>, experience: i32, level: i32) -> (r: i32)
    ensures
        r == ad_level_reached(thresholds@, experience, level),
{
    let mut r: i32 = level;
    let mut i: usize = 0;
    proof {
        assert(thresholds@.take(0) =~= Seq::empty());
    }
    while i < thresholds.len()
        invariant
            i <= thresholds@.len(),
            r == ad_level_reached(thresholds@.take(i as int), experience, level),
        decreases thresholds@.len() - i,
    {
        proof {
            assert(thresholds@.take(i + 1).drop_last() =~= thresholds@.take(i as int));
        }
        let (candidate, required) = thresholds[i];
        if required <= experience && candidate > r {
            r = candidate;
        }
        i = i + 1;
    }
    proof {
        assert(thresholds@.take(i as int) =~= thresholds@);
    }
    r
}

impl Player {
    pub(crate) fn ad_level_snapshot(&self, group_id: i64) -> (
        r: Result<AdLevelSnapshot, StoreError>
    )
        ensures
            r == ad_level_of(self@, group_id),
    {
        match self.ad_levels.get(key1(group_id)) {
            None => Err(StoreError::Sql(SqlFault::NoRows)),
            Some(row) => Ok(
                AdLevelSnapshot {
                    ad_level_id: group_id,
                    level: row.0.level,
                    experience: row.0.experience,
                },
            ),
        }
    }

    fn advance_ad_level(&mut self, progression: &AdLevelProgression) -> (r: Result<
        AdLevelSnapshot,
        StoreError,
    >)
        ensures
            crate::rewards::changed(
                ad_level_advanced(old(self)@, progression.group_id, progression.thresholds@),
                final(self)@,
                r,
            ),
    {
        let before = match self.ad_level_snapshot(progression.group_id) {
            Ok(before) => before,
            Err(e) => {
                return Err(e);
            },
        };
        let experience: i32 = saturating_add32(before.experience, 1);
        let level: i32 = exec_ad_level_reached(&progression.thresholds, experience, before.level);
        self.ad_levels.put(key1(progression.group_id), Plain(AdLevelState { level, experience }));
        Ok(AdLevelSnapshot { ad_level_id: progression.group_id, level, experience })
    }
}

/// Buying rewards.
pub struct PurchaseRewards {
    pub purchase: RewardPurchaseCommand,
}

pub open spec fn purchase_answer(
    p: PlayerModel,
    rewards: Seq<RewardGrant>,
    ad_level: Option<AdLevelSnapshot>,
) -> Outcome {
    Outcome::Purchase {
        chocolate: p.wallet.balance(CurrencyKind::Chocolate),
        candy: p.wallet.balance(CurrencyKind::Candy),
        rewards,
        ad_level,
    }
}

/// A purchase that was completed before: nothing happens.
pub open spec fn purchase_known(p: PlayerModel, c: RewardPurchaseCommand) -> Effect {
    match c.ad_progression {
        None => answered(p, purchase_answer(p, Seq::empty(), None)),
        Some(progression) => match ad_level_of(p, progression.group_id) {
            Err(e) => Err(e),
            Ok(level) => answered(p, purchase_answer(p, Seq::empty(), Some(level))),
        },
    }
}

/// The balances after the cost of a purchase was paid.
pub open spec fn cost_paid(p: PlayerModel, c: RewardPurchaseCommand) -> Result<Wallet, StoreError> {
    match c.cost {
        None => Ok(p.wallet),
        Some((kind, price)) => paid(p.wallet, kind, price),
    }
}

/// The level of the advertisements that a purchase advances.
pub open spec fn purchase_advanced(p: PlayerModel, c: RewardPurchaseCommand) -> Change<
    Option<AdLevelSnapshot>,
> {
    match c.ad_progression {
        None => Ok((p, None)),
        Some(progression) => match ad_level_advanced(
            p,
            progression.group_id,
            progression.thresholds@,
        ) {
            Err(e) => Err(e),
            Ok((q, level)) => Ok((q, Some(level))),
        },
    }
}

pub open spec fn purchase_effect(
    p: PlayerModel,
    m: Mutation,
    rules: Rules,
    c: RewardPurchaseCommand,
) -> Effect {
    if find(p.purchases, c.transaction_id@) is Some {
        purchase_known(p, c)
    } else {
        match cost_paid(p, c) {
            Err(e) => Err(e),
            Ok(wallet) => match all_granted(
                PlayerModel { wallet, ..p },
                rules,
                c.rewards@,
                m.now,
                c.purchase_kind@,
            ) {
                Err(e) => Err(e),
                Ok((q, applied)) => match purchase_advanced(q, c) {
                    Err(e) => Err(e),
                    Ok((q, ad_level)) => {
                        let q = PlayerModel {
                            purchases: place(
                                q.purchases,
                                c.transaction_id@,
                                PurchaseModel {
                                    purchase_kind: c.purchase_kind@,
                                    target_id: c.target_id,
                                    created_at: m.now,
                                },
                            ),
                            ..q
                        };
                        Ok(
                            (
                                q,
                                purchase_answer(q, applied, ad_level),
                                purchase_answer(q, Seq::empty(), ad_level),
                            ),
                        )
                    },
                },
            },
        }
    }
}

impl Player {
    fn purchase_answer(&self, rewards: Vec<RewardGrant>, ad_level: Option<AdLevelSnapshot>) -> (r:
        PurchaseOutcome)
        ensures
            crate::outcome::purchase_outcome(r) == purchase_answer(self@, rewards@, ad_level),
    {
        PurchaseOutcome {
            chocolate: self.wallet.get(CurrencyKind::Chocolate),
            candy: self.wallet.get(CurrencyKind::Candy),
            rewards,
            ad_level,
        }
    }
}

impl Command for PurchaseRewards {
    open spec fn valid(&self) -> bool {
        true
    }

    open spec fn effect(&self, p: PlayerModel, m: Mutation, rules: Rules) -> Effect {
        purchase_effect(p, m, rules, self.purchase)
    }

    proof fn keeps_order(&self, p: PlayerModel, m: Mutation, rules: Rules) {
        broadcast use group_keyed;

        if let Ok(wallet) = cost_paid(p, self.purchase) {
            lemma_all_granted(
                PlayerModel { wallet, ..p },
                rules,
                self.purchase.rewards@,
                m.now,
                self.purchase.purchase_kind@,
            );
        }
    }

    fn run(&self, p: &mut Player, m: &RpcMutation, rules: &RewardRules) -> (r: Result<
        (Summary, Summary),
        StoreError,
    >) {
        let c = &self.purchase;
        if p.purchases.find(&c.transaction_id).is_some() {
            let ad_level = match &c.ad_progression {
                None => None,
                Some(progression) => match p.ad_level_snapshot(progression.group_id) {
                    Ok(level) => Some(level),
                    Err(e) => {
                        return Err(e);
                    },
                },
            };
            return Ok(
                (
                    Summary::Purchase(p.purchase_answer(Vec::new(), ad_level)),
                    Summary::Purchase(p.purchase_answer(Vec::new(), ad_level)),
                ),
            );
        }
        if let Some((kind, price)) = c.cost {
            match p.deduct_currency(kind, price) {
                Ok(()) => {},
                Err(e) => {
                    return Err(e);
                },
            }
        }
        let applied = match p.apply_reward_grants(
            rules,
            &c.rewards,
            m.committed_at,
            c.purchase_kind.as_str(),
        ) {
            Ok(applied) => applied,
            Err(e) => {
                return Err(e);
            },
        };
        let ad_level = match &c.ad_progression {
            None => None,
            Some(progression) => match p.advance_ad_level(progression) {
                Ok(level) => Some(level),
                Err(e) => {
                    return Err(e);
                },
            },
        };
        p.purchases.place(
            c.transaction_id.clone(),
            PurchaseRow {
                purchase_kind: c.purchase_kind.clone(),
                target_id: c.target_id,
                created_at: m.committed_at,
            },
        );
        Ok(
            (
                Summary::Purchase(p.purchase_answer(applied, ad_level)),
                Summary::Purchase(p.purchase_answer(Vec::new(), ad_level)),
            ),
        )
    }
}

/// A completed purchase is never paid or granted again.
pub proof fn law_purchase_once(
    p: PlayerModel,
    first: Mutation,
    second: Mutation,
    rules: Rules,
    c: RewardPurchaseCommand,
    again: RewardPurchaseCommand,
)
    requires
        purchase_effect(p, first, rules, c) is Ok,
        again.transaction_id@ == c.transaction_id@,
    ensures
        ({
            let q = purchase_effect(p, first, rules, c)->Ok_0.0;
            let next = purchase_effect(q, second, rules, again);
            next is Ok ==> next->Ok_0.0 == q && (next->Ok_0.1 matches Outcome::Purchase {
                rewards,
                ..
            } && rewards.len() == 0)
        }),
{
    let q = purchase_effect(p, first, rules, c)->Ok_0.0;
    if !(find(p.purchases, c.transaction_id@) is Some) {
        let wallet = cost_paid(p, c)->Ok_0;
        let granted = all_granted(
            PlayerModel { wallet, ..p },
            rules,
            c.rewards@,
            first.now,
            c.purchase_kind@,
        )->Ok_0.0;
        let advanced = purchase_advanced(granted, c)->Ok_0.0;
        crate::table::law_find_place(
            advanced.purchases,
            c.transaction_id@,
            PurchaseModel {
                purchase_kind: c.purchase_kind@,
                target_id: c.target_id,
                created_at: first.now,
            },
            c.transaction_id@,
        );
    }
}

/// Buying a piece of content, or its next level.
pub struct PurchaseContent {
    pub purchase: ContentPurchaseCommand,
}

/// The first level that is paid at the base price.
pub open spec fn first_paid_level(kind: ContentKind) -> int {
    if kind == ContentKind::Skill {
        2
    } else {
        1
    }
}

/// The price of the level after `level`.
pub open spec fn level_price(c: ContentPurchaseCommand, level: int) -> Real {
    if (Real { bits: ZERO }).lt(c.price_increment) {
        let steps = max_int(level + 1 - first_paid_level(c.kind), 0);
        c.price.narrowed().plus(
            c.price_increment.narrowed().times(Real32::of(steps)),
        ).truncated().widened()
    } else {
        c.price
    }
}

pub open spec fn content_answer(p: PlayerModel, c: ContentPurchaseCommand, level: i64) -> Outcome {
    Outcome::Content(
        ContentPurchaseOutcome {
            chocolate: p.wallet.balance(CurrencyKind::Chocolate),
            candy: p.wallet.balance(CurrencyKind::Candy),
            kind: c.kind,
            content_id: c.content_id,
            level,
        },
    )
}

/// A player whose content has a level.
pub open spec fn at_level(p: PlayerModel, kind: ContentKind, id: int, level: i64) -> PlayerModel {
    let reward_level = match get(p.levels, content_at(kind, id)) {
        Some(row) => row.reward_level,
        None => 0,
    };
    PlayerModel {
        levels: put(p.levels, content_at(kind, id), LevelRow { level, reward_level }),
        ..p
    }
}

pub open spec fn content_effect(p: PlayerModel, m: Mutation, c: ContentPurchaseCommand) -> Effect {
    let level = match get(p.levels, content_at(c.kind, c.content_id as int)) {
        Some(row) => row.level,
        None => 0,
    };
    if !c.price.amount() || !c.price_increment.amount() {
        Err(StoreError::Domain(DomainError::InvalidAmount))
    } else if level >= max_int(c.max_level as int, 1) {
        answered(p, content_answer(p, c, level))
    } else {
        match paid(p.wallet, c.currency, level_price(c, level as int)) {
            Err(e) => Err(e),
            Ok(wallet) => {
                let next = max_int(clip64(level + 1) as int, 1) as i64;
                let q = at_level(
                    owning(
                        PlayerModel { wallet, ..p },
                        c.kind,
                        c.area,
                        c.content_id as int,
                        m.now,
                        "purchase"@,
                    ),
                    c.kind,
                    c.content_id as int,
                    next,
                );
                answered(q, content_answer(q, c, next))
            },
        }
    }
}

fn price_of_level(c: &ContentPurchaseCommand, level: i64) -> (price: Real)
    requires
        level < i64::MAX,
    ensures
        price == level_price(*c, level as int),
{
    if (Real { bits: ZERO }).less_than(&c.price_increment) {
        let first: i64 = if c.kind == ContentKind::Skill {
            2
        } else {
            1
        };
        let steps: i64 = if level + 1 < first {
            0
        } else {
            level + 1 - first
        };
        let added = c.price_increment.narrow().mul(&Real32::from_i64(steps));
        c.price.narrow().add(&added).trunc().widen()
    } else {
        c.price
    }
}

impl Player {
    fn content_answer(&self, c: &ContentPurchaseCommand, level: i64) -> (r: ContentPurchaseOutcome)
        ensures
            Outcome::Content(r) == content_answer(self@, *c, level),
    {
        ContentPurchaseOutcome {
            chocolate: self.wallet.get(CurrencyKind::Chocolate),
            candy: self.wallet.get(CurrencyKind::Candy),
            kind: c.kind,
            content_id: c.content_id,
            level,
        }
    }
}

impl Command for PurchaseContent {
    open spec fn valid(&self) -> bool {
        true
    }

    open spec fn effect(&self, p: PlayerModel, m: Mutation, rules: Rules) -> Effect {
        content_effect(p, m, self.purchase)
    }

    proof fn keeps_order(&self, p: PlayerModel, m: Mutation, rules: Rules) {
        broadcast use group_keyed;

    }

    fn run(&self, p: &mut Player, m: &RpcMutation, rules: &RewardRules) -> (r: Result<
        (Summary, Summary),
        StoreError,
    >) {
        let c = self.purchase;
        if !c.price.is_amount() || !c.price_increment.is_amount() {
            return Err(StoreError::Domain(DomainError::InvalidAmount));
        }
        let key = key2(c.kind.exec_rank(), c.content_id);
        let before: LevelRow = match p.levels.get(key) {
            Some(row) => row.0,
            None => LevelRow { level: 0, reward_level: 0 },
        };
        let level: i64 = before.level;
        if level >= max64(c.max_level, 1) {
            let answer = p.content_answer(&c, level);
            return Ok((Summary::Content(answer), Summary::Content(answer)));
        }
        match p.deduct_currency(c.currency, price_of_level(&c, level)) {
            Ok(()) => {},
            Err(e) => {
                return Err(e);
            },
        }
        p.own(c.kind, c.area, c.content_id, m.committed_at, "purchase");
        let next: i64 = max64(saturating_add(level, 1), 1);
        p.levels.put(key, Plain(LevelRow { level: next, reward_level: before.reward_level }));
        let answer = p.content_answer(&c, next);
        Ok((Summary::Content(answer), Summary::Content(answer)))
    }
}

} // verus!
