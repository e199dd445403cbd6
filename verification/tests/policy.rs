//! The rules of the memorial service.
use ggfm::consume_reward::{fan_reward_count, ConsumeReward, QuantityUnit};
use ggfm::domain::{ContentKind, DeviceClock};
use ggfm::number::{Real, Real32};
use ggfm::policy::{
    ch3_energy_cap, costume_fan_bonus, default_settings, encore_cooldown, memorial_ch3_energy_cap,
    memorial_upgrade_cost, pass_season, premium_upgrade_cap, premium_upgrade_increment,
    rewrite_percentage, scaled_fan_requirement, scaled_requirement, scaled_requirement_text,
    skill_cooldown, LegacyItemPolicy, MemorialPolicy, MemorialShopPolicy, UpgradeCostPolicy,
    MAX_SINGLE_STAGE_ENERGY_COST, PASS_POINT_MULTIPLIER, POLICY_VERSION,
};

fn num(value: f64) -> Real {
    Real { bits: value.to_bits() }
}

fn real32(values: &[f32]) -> Vec<Real32> {
    values.iter().map(|value| Real32 { bits: value.to_bits() }).collect()
}

fn float(value: Real) -> f64 {
    f64::from_bits(value.bits)
}

fn policy() -> MemorialPolicy {
    MemorialPolicy {
        version: POLICY_VERSION,
        follower_gift_icons: vec![],
        legacy_items: vec![LegacyItemPolicy { kind: ContentKind::Costume, area: 1, id: 12 }],
        progression_multiplier: num(0.1),
        scaled_achievement_ids: vec![3, 4, 203, 204],
        preserve_skill_unlock_requirements: true,
        cosmetic_price: 1,
        skill_cooldown_multiplier: num(0.1),
        skill_reset_seconds: 300,
        encore_base_seconds: num(3600.0),
        max_single_stage_energy_cost: MAX_SINGLE_STAGE_ENERGY_COST,
        ch3_energy_cap: 200,
        ch3_energy_restore_seconds: 1,
        ch3_reward_multiplier: 1,
        ch3_profile_exp_per_clear: 1,
        pass_point_multiplier: PASS_POINT_MULTIPLIER,
        upgrade_costs: UpgradeCostPolicy {
            single_digit_currencies: vec!["CP".to_owned(), "Candy".to_owned()],
            formula_cap_min: 10,
            formula_cap_max: 20,
        },
        memorial_shop: MemorialShopPolicy {
            shop_category: 1,
            product_type: 1,
            sell_type: 1,
            sell_value: 0,
            area_list: String::new(),
            items: vec![],
        },
    }
}

#[test]
fn fans_keep_owned_outfit_bonuses_and_client_float_order() {
    assert_eq!(fan_reward_count(&real32(&[]), num(1000.0)).unwrap(), 1000);
    assert_eq!(fan_reward_count(&real32(&[0.3]), num(1000.0)).unwrap(), 1299);
    assert_eq!(fan_reward_count(&real32(&[0.3, 0.3]), num(1000.0)).unwrap(), 1599);
    assert_eq!(fan_reward_count(&real32(&[0.5]), num(3.5)).unwrap(), 5);
    assert!(fan_reward_count(&real32(&[f32::NAN]), num(1.0)).is_err());
    assert!(fan_reward_count(&real32(&[]), num(f64::INFINITY)).is_err());
    assert!(fan_reward_count(&real32(&[]), num(2_147_483_648.0)).is_err());
}

#[test]
fn literal_and_multiplier_ids_are_not_interchangeable() {
    for (literal, multiplier) in [(3, 4), (6, 7), (5, 10)] {
        let literal = ConsumeReward::from_id(literal).unwrap();
        let multiplier = ConsumeReward::from_id(multiplier).unwrap();
        assert_eq!(literal.currency, multiplier.currency);
        assert_eq!(literal.area, multiplier.area);
        assert_eq!(literal.unit, QuantityUnit::Count);
        assert_eq!(multiplier.unit, QuantityUnit::ProductionMultiplier);
    }
    for (id, area) in [(8, 1), (9, 2)] {
        let reward = ConsumeReward::from_id(id).unwrap();
        assert_eq!(reward.area, area);
        assert_eq!(reward.unit, QuantityUnit::FanGainMultiplier);
    }
    assert!(ConsumeReward::from_id(0).is_none());
    assert!(ConsumeReward::from_id(12).is_none());
}

#[test]
fn premium_formula_caps_keep_relative_original_expense() {
    let cap = |a: f64, b: f64, c: f64| premium_upgrade_cap(&policy().upgrade_costs, num(a), num(b), num(c));
    assert_eq!(cap(0.0, 280.0, 640.0), 0);
    assert_eq!(cap(280.0, 280.0, 640.0), 10);
    assert_eq!(cap(460.0, 280.0, 640.0), 15);
    assert_eq!(cap(640.0, 280.0, 640.0), 20);
    assert_eq!(cap(200.0, 200.0, 200.0), 10);
    for cap in 10..=20 {
        for (maximum, offset) in [(20, 2), (20, 1), (6, 1)] {
            let increment =
                float(premium_upgrade_increment(maximum, num(100.0), offset, cap)) as f32;
            let prices: Vec<_> = (offset..=maximum)
                .map(|target| (1.0_f32 + (target - offset) as f32 * increment).trunc() as i64)
                .collect();
            assert_eq!(prices[0], 1);
            assert_eq!(*prices.last().unwrap(), cap);
            assert!(prices.windows(2).all(|p| p[0] <= p[1]));
        }
    }
}

#[test]
fn only_fan_count_and_total_likes_achievements_are_scaled() {
    let policy = policy();
    assert_eq!(policy.scaled_achievement_ids, [3, 4, 203, 204]);
    for id in (1..=10).chain(201..=207).chain([999]) {
        let expected = if [3, 4, 203, 204].contains(&id) { 31.0 } else { 301.0 };
        assert_eq!(policy.achievement_requirement(id, num(301.0)), num(expected), "id={id}");
        assert_eq!(policy.achievement_requirement(id, num(0.0)), num(0.0));
    }
}

#[test]
fn single_digits_apply_only_to_premium_upgrade_currencies() {
    let policy = policy();
    for currency in ["CP", "cp", "Candy"] {
        assert!(policy.uses_single_digit_cost(currency));
    }
    for currency in ["GP", "GP2", "", "NotForSale"] {
        assert!(!policy.uses_single_digit_cost(currency));
    }
    assert_eq!(
        rewrite_percentage("[000000]Lv.20: +5%, 10 % / 2.5％", 30),
        "[000000]Lv.20: +30%, 30 % / 30％"
    );
}

#[test]
fn the_last_percentage_counts_and_the_rest_stays() {
    let source = "[ff0000]1.5 % off, 3.x, 20%20 \u{ff05}.";
    let once = rewrite_percentage(source, 7);
    assert_eq!(once, "[ff0000]7 % off, 3.x, 7%7 \u{ff05}.");
    assert_eq!(rewrite_percentage(&once, 30), rewrite_percentage(source, 30));
    assert_eq!(rewrite_percentage("Lv.20 of 5.5", 30), "Lv.20 of 5.5");
    // A minus sign stands before the digits, and is kept when they are replaced.
    assert_eq!(rewrite_percentage(&rewrite_percentage("5%", -1), -1), "--1%");
}

#[test]
fn costs_are_monotonic_and_single_digit() {
    let values: Vec<_> = (0..20)
        .map(|rank| memorial_upgrade_cost(rank, 20))
        .collect();
    assert!(values.windows(2).all(|pair| pair[0] <= pair[1]));
    assert_eq!(values.first(), Some(&1));
    assert_eq!(values.last(), Some(&10));
}

#[test]
fn pass_rotates_on_device_local_day() {
    let clock = DeviceClock::new(86_400 * 10, 0).unwrap();
    assert_eq!(pass_season(clock, 9, 13), 1);
}

#[test]
fn requirements_keep_zero_and_fan_curve_keeps_the_first_segment() {
    assert_eq!(scaled_requirement(num(0.0), false), num(0.0));
    assert_eq!(scaled_fan_requirement(num(1_000.0), num(1_000.0)), num(1_000.0));
    assert_eq!(scaled_fan_requirement(num(10_000.0), num(1_000.0)), num(1_900.0));
}

#[test]
fn huge_decimal_requirements_are_scaled_exactly() {
    assert_eq!(
        scaled_requirement_text("1000000000000000000000000000000000001").as_deref(),
        Some("100000000000000000000000000000000001")
    );
    assert_eq!(scaled_requirement_text("0").as_deref(), Some("0"));
    assert_eq!(scaled_requirement_text("not-a-number"), None);
}

#[test]
fn settings_and_caps_are_those_of_the_service() {
    let settings = default_settings();
    assert_eq!(settings.len(), 10);
    let ap_max = settings.iter().find(|setting| setting.key == "ap_max").unwrap();
    assert_eq!(ap_max.value, "200");
    assert_eq!(ch3_energy_cap(MAX_SINGLE_STAGE_ENERGY_COST), 25);
    assert_eq!(ch3_energy_cap(i64::MAX), i64::MAX);
    assert_eq!(memorial_ch3_energy_cap(&policy()), 200);
}

#[test]
fn cooldowns_and_bonuses_are_shortened() {
    assert_eq!(float(skill_cooldown(num(100.0))), 100.0 * 0.1);
    assert_eq!(float(encore_cooldown(num(30.0), num(60.0))), 1800.0);
    assert_eq!(float(encore_cooldown(num(90.0), num(60.0))), 3600.0);
    assert_eq!(float(encore_cooldown(num(90.0), num(0.0))), 3600.0);
    assert_eq!(float(costume_fan_bonus(1, true, num(0.7), num(2.0))), 0.7);
}
