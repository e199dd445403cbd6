//! The consumable rewards that shop, pass and mail share. An id says both what
//! is given and in which unit: a count and a multiplier are different rewards.
use crate::domain::{CurrencyKind, DomainError};
use crate::number::{Real, Real32, ONE_32, ZERO};
use crate::table::{key1, Key, Plain, Table};
use vstd::prelude::*;

verus! {

/// The fan bonus of a costume, and the channel in which it counts.
#[derive(Clone, Copy, Debug, PartialEq, Eq, Structural)]
pub struct FanBonus {
    pub area: i32,
    pub bonus: Real32,
}

/// What rewards depend on besides the player: the fan bonus of every costume.
pub struct RewardRules {
    pub costume_fan_bonuses: Table<Plain<FanBonus>>,
}

impl View for RewardRules {
    type V = Seq<(Key, FanBonus)>;

    open spec fn view(&self) -> Seq<(Key, FanBonus)> {
        self.costume_fan_bonuses@
    }
}

impl RewardRules {
    /// Rules without any costume.
    pub fn new() -> (rules: RewardRules)
        ensures
            rules@ == Seq::<(Key, FanBonus)>::empty(),
    {
        RewardRules { costume_fan_bonuses: Table::new() }
    }

    /// Sets the bonus of a costume.
    pub fn set(&mut self, costume: i64, area: i32, bonus: Real32)
        ensures
            final(self)@ == crate::table::put(
                old(self)@,
                crate::table::k1(costume as int),
                (FanBonus { area, bonus }),
            ),
    {
        self.costume_fan_bonuses.put(key1(costume), Plain(FanBonus { area, bonus }));
    }
}

/// Two to the power 31.
pub const FAN_LIMIT: u64 = 0x41e0_0000_0000_0000;

/// One and the bonuses, added in their order.
pub open spec fn fan_basis(bonuses: Seq<Real32>) -> Real32
    decreases bonuses.len(),
{
    if bonuses.len() == 0 {
        Real32 { bits: ONE_32 }
    } else {
        fan_basis(bonuses.drop_last()).plus(bonuses.last())
    }
}

/// How many fans a multiplier gives: the whole part of the basis times the
/// multiplier, where a signed 32-bit integer holds it.
pub open spec fn fan_count(bonuses: Seq<Real32>, multiplier: Real) -> Result<i32, DomainError> {
    let result = fan_basis(bonuses).widened().times(multiplier);
    if !multiplier.amount() || exists|i: int|
        0 <= i < bonuses.len() && !(#[trigger] bonuses[i]).amount() {
        Err(DomainError::InvalidAmount)
    } else if !result.finite() || result.lt(Real { bits: ZERO }) || !result.lt(
        Real { bits: FAN_LIMIT },
    ) {
        Err(DomainError::InvalidAmount)
    } else {
        Ok(result.as_int() as i32)
    }
}

pub fn fan_reward_count(bonuses: &Vec<Real32>, multiplier: Real) -> (r: Result<i32, DomainError>)
    ensures
        r == fan_count(bonuses@, multiplier),
{
    if !multiplier.is_amount() {
        return Err(DomainError::InvalidAmount);
    }
    let mut basis = Real32 { bits: ONE_32 };
    let mut i: usize = 0;
    proof {
        assert(bonuses@.take(0) =~= Seq::empty());
    }
    while i < bonuses.len()
        invariant
            i <= bonuses@.len(),
            multiplier.amount(),
            basis == fan_basis(bonuses@.take(i as int)),
            forall|j: int| 0 <= j < i ==> (#[trigger] bonuses@[j]).amount(),
        decreases bonuses@.len() - i,
    {
        if !bonuses[i].is_amount() {
            return Err(DomainError::InvalidAmount);
        }
        basis = basis.add(&bonuses[i]);
        proof {
            assert(bonuses@.take(i + 1).drop_last() =~= bonuses@.take(i as int));
        }
        i = i + 1;
    }
    proof {
        assert(bonuses@.take(i as int) =~= bonuses@);
    }
    let result = basis.widen().mul(&multiplier);
    if !result.is_finite() || result.less_than(&Real { bits: ZERO }) || !result.less_than(
        &Real { bits: FAN_LIMIT },
    ) {
        return Err(DomainError::InvalidAmount);
    }
    proof {
        lemma_below_limit(result);
    }
    Ok(result.to_i64() as i32)
}

/// A number from zero on and below the limit has a whole part of 31 bits.
proof fn lemma_below_limit(r: Real)
    requires
        r.finite(),
        !r.lt(Real { bits: ZERO }),
        r.lt(Real { bits: FAN_LIMIT }),
    ensures
        0 <= r.as_int() <= i32::MAX,
{
    let limit = Real { bits: FAN_LIMIT };
    let m = r.num().mag;
    let top = limit.num().mag;
    crate::rounding::lemma_two_values();
    let t = crate::rounding::two(1074);
    crate::rounding::lemma_two_pos(1074);
    assert(top == 0x41e0_0000_0000_0000);
    assert(crate::rounding::units(top as nat, 53) == 0x8000_0000 * t) by {
        assert(0x41e0_0000_0000_0000nat / 0x10_0000_0000_0000nat == 1054);
        assert(0x41e0_0000_0000_0000nat % 0x10_0000_0000_0000nat == 0);
        let u = crate::rounding::two(1053);
        crate::rounding::lemma_two_adds(1053, 21);
        assert(crate::rounding::two(21) == 0x20_0000) by {
            assert(crate::rounding::two(23) == 2 * crate::rounding::two(22));
            assert(crate::rounding::two(22) == 2 * crate::rounding::two(21));
        }
        assert(t == u * 0x20_0000);
        assert(0x10_0000_0000_0000 * u == 0x8000_0000 * t) by (nonlinear_arith)
            requires
                t == u * 0x20_0000,
        ;
    }
    if r.num().neg {
        assert(m == 0);
    } else {
        assert(m < top);
    }
    crate::magnitude::lemma_units_monotonic(m as nat, top as nat, 53);
    let n = crate::rounding::units(m as nat, 53);
    let q = n / t;
    crate::rounding::lemma_div_bounds(n, t);
    assert(q < 0x8000_0000) by (nonlinear_arith)
        requires
            q * t <= n,
            n < 0x8000_0000 * t,
            t > 0,
    ;
    if r.num().neg {
        assert(q == 0) by (nonlinear_arith)
            requires
                q * t <= n,
                n == 0,
                t > 0,
        ;
    }
}

/// In what a reward is counted.
#[derive(Clone, Copy, Debug, PartialEq, Eq, Structural)]
pub enum QuantityUnit {
    Count,
    ProductionMultiplier,
    FanGainMultiplier,
}

/// A consumable reward: what it adds to, in which channel and in which unit.
#[derive(Clone, Copy, Debug, PartialEq, Eq, Structural)]
pub struct ConsumeReward {
    pub id: i32,
    pub currency: Option<CurrencyKind>,
    pub area: i32,
    pub unit: QuantityUnit,
}

impl ConsumeReward {
    /// The meaning of an id.
    pub open spec fn meaning(id: i32) -> Option<ConsumeReward> {
        let count = QuantityUnit::Count;
        let production = QuantityUnit::ProductionMultiplier;
        let fan_gain = QuantityUnit::FanGainMultiplier;
        let make = |currency: Option<CurrencyKind>, area: i32, unit: QuantityUnit|
            Some(ConsumeReward { id, currency, area, unit });
        if id == 1 {
            make(Some(CurrencyKind::Chocolate), 0, count)
        } else if id == 2 {
            make(Some(CurrencyKind::Candy), 0, count)
        } else if id == 3 {
            make(Some(CurrencyKind::Ch1Like), 1, count)
        } else if id == 4 {
            make(Some(CurrencyKind::Ch1Like), 1, production)
        } else if id == 5 {
            make(Some(CurrencyKind::Ch2Note), 2, count)
        } else if id == 6 {
            make(Some(CurrencyKind::Ch2Like), 2, count)
        } else if id == 7 {
            make(Some(CurrencyKind::Ch2Like), 2, production)
        } else if id == 8 {
            make(Some(CurrencyKind::Fans), 1, fan_gain)
        } else if id == 9 {
            make(Some(CurrencyKind::Fans), 2, fan_gain)
        } else if id == 10 {
            make(Some(CurrencyKind::Ch2Note), 2, production)
        } else if id == 11 {
            make(None, 3, count)
        } else {
            None
        }
    }

    pub fn from_id(id: i32) -> (r: Option<ConsumeReward>)
        ensures
            r == ConsumeReward::meaning(id),
    {
        let (currency, area, unit) = match id {
            1 => (Some(CurrencyKind::Chocolate), 0, QuantityUnit::Count),
            2 => (Some(CurrencyKind::Candy), 0, QuantityUnit::Count),
            3 => (Some(CurrencyKind::Ch1Like), 1, QuantityUnit::Count),
            4 => (Some(CurrencyKind::Ch1Like), 1, QuantityUnit::ProductionMultiplier),
            5 => (Some(CurrencyKind::Ch2Note), 2, QuantityUnit::Count),
            6 => (Some(CurrencyKind::Ch2Like), 2, QuantityUnit::Count),
            7 => (Some(CurrencyKind::Ch2Like), 2, QuantityUnit::ProductionMultiplier),
            // The gain of fans in a channel is what these two multiply.
            8 => (Some(CurrencyKind::Fans), 1, QuantityUnit::FanGainMultiplier),
            9 => (Some(CurrencyKind::Fans), 2, QuantityUnit::FanGainMultiplier),
            10 => (Some(CurrencyKind::Ch2Note), 2, QuantityUnit::ProductionMultiplier),
            // The energy of the third channel is not a balance.
            11 => (None, 3, QuantityUnit::Count),
            _ => {
                return None;
            },
        };
        Some(ConsumeReward { id, currency, area, unit })
    }
}

/// Rewards with different ids that add to the same balance of the same channel
/// differ in their unit.
pub proof fn law_units_tell_ids_apart(a: i32, b: i32)
    requires
        ConsumeReward::meaning(a) is Some,
        ConsumeReward::meaning(b) is Some,
        a != b,
    ensures
        ({
            let x = ConsumeReward::meaning(a)->Some_0;
            let y = ConsumeReward::meaning(b)->Some_0;
            x.currency == y.currency && x.area == y.area ==> x.unit != y.unit
        }),
{
}

} // verus!
