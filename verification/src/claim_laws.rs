//! What coming, claiming daily events and claiming levels mean for a player.
use crate::claims::{claim_entered, events_claimed, keys_under, Attend, ClaimEvent, ClaimGame};
use crate::command::{Command, Mutation, Rules};
use crate::domain::{CurrencyKind, DomainError, GameRewardClaimCommand};
use crate::errors::{RewardFault, SqlFault, StoreError};
use crate::number::Real;
use crate::outcome::Outcome;
use crate::player::PlayerModel;
use crate::policy::same_ignoring_case;
use crate::rewards::granted;
use crate::rows::{AchievementModel, DailyRow, EventRow};
use crate::table::{get, k1, k2, k3, law_get_put, Key};
use crate::tally::{law_tally_nothing, law_tally_put, tally};
use vstd::prelude::*;

verus! {

/// A visit counts once a day and only when it is to be counted. A day in a row
/// lengthens the row, another day begins a new one, and the longest row is kept.
pub proof fn law_attendance(p: PlayerModel, m: Mutation, rules: Rules, c: Attend, other: Key)
    ensures
        ({
            let day = c.clock.local_day();
            let known = get(p.attendance_days, k1(day)) is Some;
            let counts = same_ignoring_case(c.mode@, "add"@) && !known;
            let a = p.attendance;
            match c.effect(p, m, rules) {
                Err(e) => counts && a.count == i32::MAX && e == StoreError::Sql(
                    SqlFault::Integral { value: 2_147_483_648, index: 0 },
                ),
                Ok((q, answer, repeated)) => {
                    let b = q.attendance;
                    &&& answer == repeated
                    &&& answer matches Outcome::Attendance { status, count, date, max_continuous }
                        && count == b.count && max_continuous == b.max_continuous && (i32::MIN
                        <= day <= i32::MAX ==> date == day) && status == if counts {
                        "ADD"@
                    } else if known {
                        "N"@
                    } else {
                        "Y"@
                    }
                    &&& !counts ==> q == p
                    &&& counts ==> {
                        &&& b.count == a.count + 1
                        &&& b.last_local_day == Some(day as i64)
                        &&& (a.last_local_day matches Some(last) && last == day - 1) ==> if
                            a.continuous == i32::MAX {
                            b.continuous == i32::MAX
                        } else {
                            b.continuous == a.continuous + 1
                        }
                        &&& !(a.last_local_day matches Some(last) && last == day - 1)
                            ==> b.continuous == 1
                        &&& b.max_continuous >= a.max_continuous && b.max_continuous
                            >= b.continuous
                        &&& b.max_continuous == a.max_continuous || b.max_continuous
                            == b.continuous
                        &&& get(q.attendance_days, k1(day)) == Some(m.now)
                        &&& other != k1(day) ==> get(q.attendance_days, other) == get(
                            p.attendance_days,
                            other,
                        )
                        &&& q == PlayerModel {
                            attendance: b,
                            attendance_days: q.attendance_days,
                            ..p
                        }
                    }
                },
            }
        }),
{
    let day = c.clock.local_day();
    law_get_put(p.attendance_days, k1(day), m.now, k1(day));
    law_get_put(p.attendance_days, k1(day), m.now, other);
}

/// A daily event is claimed once: then it is entered, its reward is given, and the
/// answer shows the balances after it. A second claim is refused, and the claims of
/// other events stay as they were.
pub proof fn law_events_once(
    p: PlayerModel,
    m: Mutation,
    rules: Rules,
    c: ClaimEvent,
    again: ClaimEvent,
    later: Mutation,
    other: Key,
)
    requires
        again.reward_row_id == c.reward_row_id,
    ensures
        ({
            let key = k1(c.reward_row_id as int);
            match c.effect(p, m, rules) {
                Err(e) => if get(p.daily_rewards, key) is Some {
                    e == StoreError::Domain(DomainError::AlreadyClaimed)
                } else {
                    granted(p, rules, c.reward, m.now, "daily-reward"@) is Err
                },
                Ok((q, answer, repeated)) => {
                    let given = granted(
                        PlayerModel { daily_rewards: q.daily_rewards, ..p },
                        rules,
                        c.reward,
                        m.now,
                        "daily-reward"@,
                    );
                    &&& get(p.daily_rewards, key) is None
                    &&& get(q.daily_rewards, key) matches Some(row) && row.points > 0
                    &&& other != key ==> get(q.daily_rewards, other) == get(p.daily_rewards, other)
                    &&& given is Ok && given->Ok_0.0 == q
                    &&& answer == (Outcome::Event {
                        rewards: if given->Ok_0.1 {
                            seq![c.reward]
                        } else {
                            Seq::empty()
                        },
                        chocolate: q.wallet.balance(CurrencyKind::Chocolate),
                        candy: q.wallet.balance(CurrencyKind::Candy),
                        likes: q.wallet.balance(CurrencyKind::Ch1Like),
                        fans: q.wallet.balance(CurrencyKind::Fans),
                    })
                    &&& again.effect(q, later, rules) == Err::<
                        (PlayerModel, Outcome, Outcome),
                        StoreError,
                    >(StoreError::Domain(DomainError::AlreadyClaimed))
                },
            }
        }),
{
    let key = k1(c.reward_row_id as int);
    let row = EventRow { points: 1, step: 1, version: 1 };
    law_get_put(p.daily_rewards, key, row, key);
    law_get_put(p.daily_rewards, key, row, other);
}

/// The claimed daily events are those with points.
pub proof fn law_claimed_events(events: Seq<(Key, EventRow)>, id: i64)
    ensures
        events_claimed(events).contains(id) <==> exists|i: int|
            0 <= i < events.len() && (#[trigger] events[i]).0.a == id && events[i].1.points > 0,
    decreases events.len(),
{
    if events.len() > 0 {
        let front = events.drop_last();
        law_claimed_events(front, id);
        let before = events_claimed(front);
        let all = events_claimed(events);
        let n = events.len() - 1;
        assert forall|i: int| 0 <= i < n implies #[trigger] front[i] == events[i] by {}
        assert forall|i: int| 0 <= i < n implies front[i] == #[trigger] events[i] by {}
        if before.contains(id) {
            let j = choose|j: int| 0 <= j < before.len() && before[j] == id;
            assert(all[j] == id);
        }
        if events[n].1.points > 0 && events[n].0.a == id {
            assert(all[before.len() as int] == id);
        }
        if all.contains(id) {
            let j = choose|j: int| 0 <= j < all.len() && all[j] == id;
            if j < before.len() {
                assert(before[j] == id);
            } else {
                assert(events[n].0.a == id);
            }
        }
    }
}

proof fn lemma_keys_under<V>(rows: Seq<(Key, V)>, a: int, b: Option<int>)
    ensures
        keys_under(rows, a, b) == tally(rows, a, b, None),
    decreases rows.len(),
{
    if rows.len() > 0 {
        lemma_keys_under(rows.drop_last(), a, b);
    }
}

/// The level after those that were claimed, as far as levels can be counted.
pub open spec fn level_after(claimed: nat) -> int {
    if claimed < i32::MAX {
        claimed as int + 1
    } else {
        i32::MAX as int
    }
}

/// How far a daily mission is when it is reported to be as far as `quantity`.
pub open spec fn mission_reaches(p: PlayerModel, id: i64, quantity: Real) -> Real {
    match get(p.daily_missions, k1(id as int)) {
        Some(row) => row.quantity.or_larger(quantity),
        None => quantity,
    }
}

/// A level of a daily mission may be claimed exactly when the mission is far enough and
/// as many levels of this mission were claimed on this day as are below it; claims of
/// other missions and of other days do not matter. Then it is entered, and no other
/// claim changes.
pub proof fn law_daily_levels(
    p: PlayerModel,
    c: GameRewardClaimCommand,
    now: i64,
    other: Key,
)
    requires
        c.kind@ == "daily_mission"@,
        c.quantity.amount(),
        c.threshold.amount(),
        get(p.daily_claims, k3(c.local_day as int, c.id as int, c.level as int)) is None,
        tally(p.daily_claims, c.local_day as int, Some(c.id as int), None) <= i32::MAX,
    ensures
        ({
            let key = k3(c.local_day as int, c.id as int, c.level as int);
            let claimed = tally(p.daily_claims, c.local_day as int, Some(c.id as int), None);
            let reached = mission_reaches(p, c.id, c.quantity);
            match claim_entered(p, c, now) {
                Ok(q) => {
                    &&& !reached.lt(c.threshold)
                    &&& c.level == level_after(claimed)
                    &&& get(q.daily_claims, key) == Some(now)
                    &&& other != key ==> get(q.daily_claims, other) == get(p.daily_claims, other)
                    &&& tally(q.daily_claims, c.local_day as int, Some(c.id as int), None)
                        == claimed + 1
                    &&& get(q.daily_missions, k1(c.id as int)) == Some(
                        DailyRow { quantity: reached, updated_at: now },
                    )
                    &&& other != k1(c.id as int) ==> get(q.daily_missions, other) == get(
                        p.daily_missions,
                        other,
                    )
                    &&& q == PlayerModel {
                        daily_claims: q.daily_claims,
                        daily_missions: q.daily_missions,
                        ..p
                    }
                },
                Err(e) => if reached.lt(c.threshold) {
                    e == StoreError::Domain(DomainError::Locked)
                } else {
                    c.level != level_after(claimed) && e == StoreError::Domain(
                        DomainError::AlreadyClaimed,
                    )
                },
            }
        }),
{
    reveal_strlit("daily_mission");
    reveal_strlit("achievement");
    assert("daily_mission"@.len() != "achievement"@.len());
    let key = k3(c.local_day as int, c.id as int, c.level as int);
    let row = DailyRow { quantity: mission_reaches(p, c.id, c.quantity), updated_at: now };
    law_get_put(p.daily_missions, k1(c.id as int), row, k1(c.id as int));
    law_get_put(p.daily_missions, k1(c.id as int), row, other);
    lemma_keys_under(p.daily_claims, c.local_day as int, Some(c.id as int));
    law_get_put(p.daily_claims, key, now, key);
    law_get_put(p.daily_claims, key, now, other);
    law_tally_put(p.daily_claims, key, now, c.local_day as int, Some(c.id as int), None);
}

/// The first level of a daily mission of which none was claimed on the day is granted,
/// whatever other missions were claimed.
pub proof fn law_first_daily_level(p: PlayerModel, c: GameRewardClaimCommand, now: i64)
    requires
        c.kind@ == "daily_mission"@,
        c.quantity.amount(),
        c.threshold.amount(),
        c.level == 1,
        c.threshold.le(mission_reaches(p, c.id, c.quantity)),
        forall|i: int|
            0 <= i < p.daily_claims.len() ==> (#[trigger] p.daily_claims[i]).0.a != c.local_day
                || p.daily_claims[i].0.b != c.id,
    ensures
        claim_entered(p, c, now) is Ok,
{
    law_tally_nothing(p.daily_claims, c.local_day as int, Some(c.id as int), None);
    lemma_absent_key(p.daily_claims, k3(c.local_day as int, c.id as int, 1));
    law_daily_levels(p, c, now, k1(0));
}

proof fn lemma_absent_key<V>(rows: Seq<(Key, V)>, key: Key)
    requires
        forall|i: int|
            0 <= i < rows.len() ==> (#[trigger] rows[i]).0.a != key.a || rows[i].0.b != key.b,
    ensures
        get(rows, key) is None,
    decreases rows.len(),
{
    if rows.len() > 0 {
        let rest = rows.drop_first();
        assert(rows[0].0 != key);
        assert forall|i: int| 0 <= i < rest.len() implies (#[trigger] rest[i]).0.a != key.a
            || rest[i].0.b != key.b by {
            assert(rest[i] == rows[i + 1]);
        }
        lemma_absent_key(rest, key);
    }
}

/// After a level of a daily mission was claimed, the next one can be claimed, and no
/// other of that mission on that day.
pub proof fn law_daily_levels_follow(
    p: PlayerModel,
    c: GameRewardClaimCommand,
    now: i64,
    next: GameRewardClaimCommand,
    later: i64,
)
    requires
        c.kind@ == "daily_mission"@,
        claim_entered(p, c, now) is Ok,
        next.kind@ == "daily_mission"@,
        next.id == c.id && next.local_day == c.local_day,
        next.quantity.amount() && next.threshold.amount(),
        tally(p.daily_claims, c.local_day as int, Some(c.id as int), None) < i32::MAX - 1,
        ({
            let q = claim_entered(p, c, now)->Ok_0;
            &&& get(q.daily_claims, k3(c.local_day as int, c.id as int, c.level + 1)) is None
            &&& next.threshold.le(mission_reaches(q, next.id, next.quantity))
        }),
    ensures
        claim_entered(claim_entered(p, c, now)->Ok_0, next, later) is Ok <==> next.level == c.level
            + 1,
{
    reveal_strlit("daily_mission");
    reveal_strlit("achievement");
    assert("daily_mission"@.len() != "achievement"@.len());
    lemma_keys_under(p.daily_claims, c.local_day as int, Some(c.id as int));
    law_daily_levels(p, c, now, k1(0));
    let q = claim_entered(p, c, now)->Ok_0;
    if get(q.daily_claims, k3(next.local_day as int, next.id as int, next.level as int)) is Some {
        law_levels_once(q, next, later);
    } else {
        law_daily_levels(q, next, later, k1(0));
    }
}

/// How far an achievement is when it is reported to be as far as `quantity`. How often
/// the player came is what was counted.
pub open spec fn achievement_reaches(p: PlayerModel, id: i64, quantity: Real) -> Real {
    if id == 10 {
        Real::of(p.attendance.count as int)
    } else {
        match get(p.achievements, k1(id as int)) {
            Some(row) => row.quantity.or_larger(quantity),
            None => quantity,
        }
    }
}

/// A level of an achievement may be claimed exactly when the achievement is far enough
/// and as many of its levels were claimed as are below it; claims of others do not
/// matter. Then it is entered, and no other claim changes.
pub proof fn law_achievement_levels(
    p: PlayerModel,
    c: GameRewardClaimCommand,
    now: i64,
    other: Key,
)
    requires
        c.kind@ == "achievement"@,
        c.quantity.amount(),
        c.threshold.amount(),
        get(p.achievement_claims, k2(c.id as int, c.level as int)) is None,
        tally(p.achievement_claims, c.id as int, None, None) <= i32::MAX,
    ensures
        ({
            let key = k2(c.id as int, c.level as int);
            let claimed = tally(p.achievement_claims, c.id as int, None, None);
            let reached = achievement_reaches(p, c.id, c.quantity);
            match claim_entered(p, c, now) {
                Ok(q) => {
                    &&& !reached.lt(c.threshold)
                    &&& c.level == level_after(claimed)
                    &&& get(q.achievement_claims, key) == Some(now)
                    &&& other != key ==> get(q.achievement_claims, other) == get(
                        p.achievement_claims,
                        other,
                    )
                    &&& tally(q.achievement_claims, c.id as int, None, None) == claimed + 1
                    &&& get(q.achievements, k1(c.id as int)) matches Some(row) && row.quantity
                        == reached && row.updated_at == now && row.quantity_text == match get(
                        p.achievements,
                        k1(c.id as int),
                    ) {
                        Some(before) => before.quantity_text,
                        None => "0"@,
                    }
                    &&& other != k1(c.id as int) ==> get(q.achievements, other) == get(
                        p.achievements,
                        other,
                    )
                    &&& q == PlayerModel {
                        achievement_claims: q.achievement_claims,
                        achievements: q.achievements,
                        ..p
                    }
                },
                Err(e) => if reached.lt(c.threshold) {
                    e == StoreError::Domain(DomainError::Locked)
                } else {
                    c.level != level_after(claimed) && e == StoreError::Domain(
                        DomainError::AlreadyClaimed,
                    )
                },
            }
        }),
{
    let key = k2(c.id as int, c.level as int);
    let row = AchievementModel {
        quantity: achievement_reaches(p, c.id, c.quantity),
        quantity_text: match get(p.achievements, k1(c.id as int)) {
            Some(before) => before.quantity_text,
            None => "0"@,
        },
        updated_at: now,
    };
    law_get_put(p.achievements, k1(c.id as int), row, k1(c.id as int));
    law_get_put(p.achievements, k1(c.id as int), row, other);
    lemma_keys_under(p.achievement_claims, c.id as int, None);
    law_get_put(p.achievement_claims, key, now, key);
    law_get_put(p.achievement_claims, key, now, other);
    law_tally_put(p.achievement_claims, key, now, c.id as int, None, None);
}

/// A claimed level is never claimed again, claims of an amount that is none are refused,
/// and so are those of other kinds.
pub proof fn law_levels_once(p: PlayerModel, c: GameRewardClaimCommand, now: i64)
    ensures
        !c.quantity.amount() || !c.threshold.amount() ==> claim_entered(p, c, now) == Err::<
            PlayerModel,
            StoreError,
        >(StoreError::Domain(DomainError::InvalidAmount)),
        c.kind@ == "achievement"@ && get(
            p.achievement_claims,
            k2(c.id as int, c.level as int),
        ) is Some ==> claim_entered(p, c, now) is Err,
        c.kind@ == "daily_mission"@ && get(
            p.daily_claims,
            k3(c.local_day as int, c.id as int, c.level as int),
        ) is Some ==> claim_entered(p, c, now) is Err,
        c.kind@ != "achievement"@ && c.kind@ != "daily_mission"@ && c.quantity.amount()
            && c.threshold.amount() ==> claim_entered(p, c, now) == Err::<PlayerModel, StoreError>(
            StoreError::UnsupportedReward(RewardFault::Named(c.kind)),
        ),
{
    reveal_strlit("daily_mission");
    reveal_strlit("achievement");
    assert("daily_mission"@.len() != "achievement"@.len());
    let row = DailyRow { quantity: mission_reaches(p, c.id, c.quantity), updated_at: now };
    law_get_put(p.daily_missions, k1(c.id as int), row, k1(c.id as int));
}

/// Claiming a level enters it, gives its reward and answers with the level after it.
pub proof fn law_level_claims(p: PlayerModel, m: Mutation, rules: Rules, c: ClaimGame)
    ensures
        match claim_entered(p, c.claim, m.now) {
            Err(e) => c.effect(p, m, rules) == Err::<
                (PlayerModel, Outcome, Outcome),
                StoreError,
            >(e),
            Ok(q) => {
                let next: int = if c.claim.level == i32::MAX {
                    i32::MAX as int
                } else {
                    c.claim.level + 1
                };
                match c.claim.reward {
                    None => c.effect(p, m, rules) == Ok::<
                        (PlayerModel, Outcome, Outcome),
                        StoreError,
                    >(
                        (
                            q,
                            Outcome::Game(next as i32, Seq::empty()),
                            Outcome::Game(next as i32, Seq::empty()),
                        ),
                    ),
                    Some(reward) => match granted(q, rules, reward, m.now, "game-reward"@) {
                        Err(e) => c.effect(p, m, rules) is Err,
                        Ok((r, new)) => c.effect(p, m, rules) matches Ok((after, answer, _))
                            && after == r && answer == Outcome::Game(
                            next as i32,
                            if new {
                                seq![reward]
                            } else {
                                Seq::empty()
                            },
                        ),
                    },
                }
            },
        },
{
}

} // verus!
