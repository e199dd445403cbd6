//! Attendance and the rewards of achievements, daily missions and daily events.
use crate::command::{answered, Command, Effect, Mutation, RpcMutation, Rules};
use crate::consume_reward::RewardRules;
use crate::domain::{
    AttendanceResult, CurrencyKind, DeviceClock, DomainError, GameRewardClaimCommand, RewardGrant,
};
use crate::errors::{RewardFault, SqlFault, StoreError};
use crate::ints::{clip32, clip64, max32, max_int, saturating_add32, to_i32_saturated};
use crate::kept::lemma_granted;
use crate::number::Real;
use crate::order::group_keyed;
use crate::outcome::{EventAnswer, Outcome, Summary};
use crate::player::{Player, PlayerModel};
use crate::policy::{eq_ignore_case, same_ignoring_case};
use crate::rewards::{granted, Change};
use crate::rows::{AchievementModel, AchievementState, Attendance, DailyRow, EventRow};
use crate::table::{get, in_table, k1, k2, k3, key1, key2, key3, put, Key, Plain, Row, Table};
use crate::text::same_text;
use vstd::prelude::*;

verus! {

/// Coming on a day: asking whether this day was counted, or counting it.
pub struct Attend {
    pub clock: DeviceClock,
    pub mode: String,
}

/// The attendance after one more day.
pub open spec fn attended(a: Attendance, day: int) -> Attendance {
    let continuous = match a.last_local_day {
        Some(last) => if last == day - 1 {
            clip32(a.continuous + 1)
        } else {
            1
        },
        None => 1,
    };
    Attendance {
        count: (a.count + 1) as i32,
        continuous,
        max_continuous: max_int(a.max_continuous as int, continuous as int) as i32,
        last_local_day: Some(day as i64),
    }
}

/// Whether a visit counts: it is to be counted, and the day was not.
pub open spec fn counts(p: PlayerModel, mode: Seq<char>, day: int) -> bool {
    same_ignoring_case(mode, "add"@) && !in_table(p.attendance_days, k1(day))
}

pub open spec fn attend_answer(a: Attendance, status: Seq<char>, day: int) -> Outcome {
    Outcome::Attendance {
        status,
        count: a.count,
        date: clip32(day),
        max_continuous: a.max_continuous,
    }
}

pub open spec fn attend_effect(p: PlayerModel, m: Mutation, day: int, mode: Seq<char>) -> Effect {
    if counts(p, mode, day) {
        if p.attendance.count == i32::MAX {
            Err(StoreError::Sql(SqlFault::Integral { value: (i32::MAX + 1) as i64, index: 0 }))
        } else {
            let attendance = attended(p.attendance, day);
            answered(
                PlayerModel {
                    attendance,
                    attendance_days: put(p.attendance_days, k1(day), m.now),
                    ..p
                },
                attend_answer(attendance, "ADD"@, day),
            )
        }
    } else {
        answered(
            p,
            attend_answer(
                p.attendance,
                if in_table(p.attendance_days, k1(day)) {
                    "N"@
                } else {
                    "Y"@
                },
                day,
            ),
        )
    }
}

/// A day counts at most once, however often it is reported.
pub proof fn law_day_counts_once(
    p: PlayerModel,
    first: Mutation,
    second: Mutation,
    day: int,
    mode: Seq<char>,
    again: Seq<char>,
)
    requires
        attend_effect(p, first, day, mode) is Ok,
        counts(p, mode, day),
    ensures
        ({
            let q = attend_effect(p, first, day, mode)->Ok_0.0;
            &&& q.attendance.count == p.attendance.count + 1
            &&& attend_effect(q, second, day, again) == answered(
                q,
                attend_answer(q.attendance, "N"@, day),
            )
        }),
{
    crate::table::law_get_put(p.attendance_days, k1(day), first.now, k1(day));
}

fn attendance_result(a: &Attendance, status: &str, day: i64) -> (r: AttendanceResult)
    ensures
        crate::outcome::attendance_outcome(r) == attend_answer(*a, status@, day as int),
{
    AttendanceResult {
        status: status.to_owned(),
        attendance_count: a.count,
        attendance_date: to_i32_saturated(day),
        max_continuous_count: a.max_continuous,
    }
}

impl Command for Attend {
    open spec fn valid(&self) -> bool {
        self.clock.representable()
    }

    open spec fn effect(&self, p: PlayerModel, m: Mutation, rules: Rules) -> Effect {
        attend_effect(p, m, self.clock.local_day(), self.mode@)
    }

    proof fn keeps_order(&self, p: PlayerModel, m: Mutation, rules: Rules) {
        broadcast use group_keyed;

    }

    fn run(&self, p: &mut Player, m: &RpcMutation, rules: &RewardRules) -> (r: Result<
        (Summary, Summary),
        StoreError,
    >) {
        let day: i64 = self.clock.local_epoch_day();
        let already: bool = p.attendance_days.contains(key1(day));
        let mut status: &str = if already {
            "N"
        } else {
            "Y"
        };
        if eq_ignore_case(self.mode.as_str(), "add") && !already {
            if p.attendance.count == i32::MAX {
                return Err(
                    StoreError::Sql(SqlFault::Integral { value: i32::MAX as i64 + 1, index: 0 }),
                );
            }
            let continuous: i32 = match p.attendance.last_local_day {
                Some(last) => if last as i128 == day as i128 - 1 {
                    saturating_add32(p.attendance.continuous, 1)
                } else {
                    1
                },
                None => 1,
            };
            p.attendance_days.put(key1(day), Plain(m.committed_at));
            p.attendance = Attendance {
                count: p.attendance.count + 1,
                continuous,
                max_continuous: max32(p.attendance.max_continuous, continuous),
                last_local_day: Some(day),
            };
            status = "ADD";
        }
        Ok(
            (
                Summary::Attendance(attendance_result(&p.attendance, status, day)),
                Summary::Attendance(attendance_result(&p.attendance, status, day)),
            ),
        )
    }
}

/// Claiming a daily event.
pub struct ClaimEvent {
    pub reward_row_id: i64,
    pub reward: RewardGrant,
}

/// A reward given, in a list if it was new.
pub open spec fn one_granted(
    p: PlayerModel,
    rules: Rules,
    reward: RewardGrant,
    now: i64,
    source: Seq<char>,
) -> Change<Seq<RewardGrant>> {
    match granted(p, rules, reward, now, source) {
        Err(e) => Err(e),
        Ok((q, new)) => Ok(
            (
                q,
                if new {
                    seq![reward]
                } else {
                    Seq::empty()
                },
            ),
        ),
    }
}

pub open spec fn event_answer(p: PlayerModel, rewards: Seq<RewardGrant>) -> Outcome {
    Outcome::Event {
        rewards,
        chocolate: p.wallet.balance(CurrencyKind::Chocolate),
        candy: p.wallet.balance(CurrencyKind::Candy),
        likes: p.wallet.balance(CurrencyKind::Ch1Like),
        fans: p.wallet.balance(CurrencyKind::Fans),
    }
}

pub open spec fn event_effect(
    p: PlayerModel,
    m: Mutation,
    rules: Rules,
    reward_row_id: i64,
    reward: RewardGrant,
) -> Effect {
    let key = k1(reward_row_id as int);
    if in_table(p.daily_rewards, key) {
        Err(StoreError::Domain(DomainError::AlreadyClaimed))
    } else {
        match one_granted(
            PlayerModel {
                daily_rewards: put(
                    p.daily_rewards,
                    key,
                    EventRow { points: 1, step: 1, version: 1 },
                ),
                ..p
            },
            rules,
            reward,
            m.now,
            "daily-reward"@,
        ) {
            Err(e) => Err(e),
            Ok((q, applied)) => Ok((q, event_answer(q, applied), event_answer(q, Seq::empty()))),
        }
    }
}

impl Player {
    fn grant_one(
        &mut self,
        rules: &RewardRules,
        reward: &RewardGrant,
        now: i64,
        source: &str,
    ) -> (r:
        Result<Vec<RewardGrant>, StoreError>)
        ensures
            crate::ch3::listed(
                one_granted(old(self)@, rules@, *reward, now, source@),
                final(self)@,
                r,
            ),
    {
        match self.apply_reward_grant(rules, reward, now, source) {
            Err(e) => Err(e),
            Ok(new) => {
                let mut applied: Vec<RewardGrant> = Vec::new();
                if new {
                    applied.push(*reward);
                    proof {
                        assert(applied@ =~= seq![*reward]);
                    }
                }
                Ok(applied)
            },
        }
    }

    fn event_answer(&self, rewards: Vec<RewardGrant>) -> (a: EventAnswer)
        ensures
            crate::outcome::event_outcome(a) == event_answer(self@, rewards@),
    {
        EventAnswer {
            rewards,
            chocolate: self.wallet.get(CurrencyKind::Chocolate),
            candy: self.wallet.get(CurrencyKind::Candy),
            likes: self.wallet.get(CurrencyKind::Ch1Like),
            fans: self.wallet.get(CurrencyKind::Fans),
        }
    }
}

impl Command for ClaimEvent {
    open spec fn valid(&self) -> bool {
        true
    }

    open spec fn effect(&self, p: PlayerModel, m: Mutation, rules: Rules) -> Effect {
        event_effect(p, m, rules, self.reward_row_id, self.reward)
    }

    proof fn keeps_order(&self, p: PlayerModel, m: Mutation, rules: Rules) {
        broadcast use group_keyed;

        lemma_granted(
            PlayerModel {
                daily_rewards: put(
                    p.daily_rewards,
                    k1(self.reward_row_id as int),
                    EventRow { points: 1, step: 1, version: 1 },
                ),
                ..p
            },
            rules,
            self.reward,
            m.now,
            "daily-reward"@,
        );
    }

    fn run(&self, p: &mut Player, m: &RpcMutation, rules: &RewardRules) -> (r: Result<
        (Summary, Summary),
        StoreError,
    >) {
        let new: bool = p.daily_rewards.put_new(
            key1(self.reward_row_id),
            Plain(EventRow { points: 1, step: 1, version: 1 }),
        );
        if !new {
            return Err(StoreError::Domain(DomainError::AlreadyClaimed));
        }
        match p.grant_one(rules, &self.reward, m.committed_at, "daily-reward") {
            Err(e) => Err(e),
            Ok(applied) => Ok(
                (
                    Summary::Event(p.event_answer(applied)),
                    Summary::Event(p.event_answer(Vec::new())),
                ),
            ),
        }
    }
}

/// The claimed daily events.
pub open spec fn events_claimed(events: Seq<(Key, EventRow)>) -> Seq<i64>
    decreases events.len(),
{
    if events.len() == 0 {
        Seq::empty()
    } else {
        let before = events_claimed(events.drop_last());
        if events.last().1.points > 0 {
            before.push(events.last().0.a)
        } else {
            before
        }
    }
}

impl Player {
    pub(crate) fn claimed_event_rewards(&self) -> (ids: Vec<i64>)
        ensures
            ids@ == events_claimed(self@.daily_rewards),
    {
        let mut ids: Vec<i64> = Vec::new();
        let mut i: usize = 0;
        proof {
            assert(self@.daily_rewards.take(0) =~= Seq::empty());
        }
        while i < self.daily_rewards.len()
            invariant
                i <= self@.daily_rewards.len(),
                ids@ == events_claimed(self@.daily_rewards.take(i as int)),
            decreases self@.daily_rewards.len() - i,
        {
            proof {
                assert(self@.daily_rewards.take(i + 1).drop_last() =~= self@.daily_rewards.take(
                    i as int,
                ));
            }
            if self.daily_rewards.row_at(i).0.points > 0 {
                ids.push(self.daily_rewards.key_at(i).a);
            }
            i = i + 1;
        }
        proof {
            assert(self@.daily_rewards.take(i as int) =~= self@.daily_rewards);
        }
        ids
    }
}

/// The achievement that counts the days on which a player came.
pub const ATTENDANCE_ACHIEVEMENT: i64 = 10;

/// Claiming a level of an achievement or of a daily mission.
pub struct ClaimGame {
    pub claim: GameRewardClaimCommand,
}

/// How many keys begin with `a`, and go on with `b` if that is given.
pub open spec fn keys_under<V>(rows: Seq<(Key, V)>, a: int, b: Option<int>) -> nat
    decreases rows.len(),
{
    if rows.len() == 0 {
        0
    } else {
        keys_under(rows.drop_last(), a, b) + if under(rows.last().0, a, b) {
            1nat
        } else {
            0
        }
    }
}

pub open spec fn under(key: Key, a: int, b: Option<int>) -> bool {
    key.a == a && match b {
        Some(b) => key.b == b,
        None => true,
    }
}

pub(crate) fn count_under<R: Row>(t: &Table<R>, a: i64, b: Option<i64>) -> (n: usize)
    ensures
        n == keys_under(t@, a as int, opt_int(b)),
{
    let mut n: usize = 0;
    let mut i: usize = 0;
    proof {
        assert(t@.take(0) =~= Seq::empty());
    }
    while i < t.len()
        invariant
            i <= t@.len(),
            n <= i,
            n == keys_under(t@.take(i as int), a as int, opt_int(b)),
        decreases t@.len() - i,
    {
        proof {
            assert(t@.take(i + 1).drop_last() =~= t@.take(i as int));
        }
        let key = t.key_at(i);
        let fits: bool = key.a == a && match b {
            Some(b) => key.b == b,
            None => true,
        };
        if fits {
            n = n + 1;
        }
        i = i + 1;
    }
    proof {
        assert(t@.take(i as int) =~= t@);
    }
    n
}

pub open spec fn opt_int(v: Option<i64>) -> Option<int> {
    match v {
        Some(v) => Some(v as int),
        None => None,
    }
}

/// An achievement that has come so far; the attendance is what was counted.
pub open spec fn achieved(p: PlayerModel, id: i64, quantity: Real, now: i64) -> PlayerModel {
    let known = get(p.achievements, k1(id as int));
    let reached = if id == ATTENDANCE_ACHIEVEMENT {
        Real::of(p.attendance.count as int)
    } else {
        match known {
            Some(row) => row.quantity.or_larger(quantity),
            None => quantity,
        }
    };
    let quantity_text = match known {
        Some(row) => row.quantity_text,
        None => "0"@,
    };
    PlayerModel {
        achievements: put(
            p.achievements,
            k1(id as int),
            AchievementModel { quantity: reached, quantity_text, updated_at: now },
        ),
        ..p
    }
}

/// A daily mission that has come so far.
pub open spec fn progressed(p: PlayerModel, id: i64, quantity: Real, now: i64) -> PlayerModel {
    let reached = match get(p.daily_missions, k1(id as int)) {
        Some(row) => row.quantity.or_larger(quantity),
        None => quantity,
    };
    PlayerModel {
        daily_missions: put(
            p.daily_missions,
            k1(id as int),
            DailyRow { quantity: reached, updated_at: now },
        ),
        ..p
    }
}

/// Whether the next level is the one to be claimed.
pub open spec fn next_level(claimed: nat, level: i32) -> Result<bool, StoreError> {
    if claimed > i32::MAX {
        Err(StoreError::Sql(SqlFault::Integral { value: clip64(claimed as int), index: 0 }))
    } else {
        Ok(level == clip32(claimed as int + 1))
    }
}

/// A level entered as claimed at a key, if it is the next one and far enough.
pub open spec fn entered(
    claims: Seq<(Key, i64)>,
    key: Key,
    claimed: nat,
    level: i32,
    quantity: Real,
    threshold: Real,
    now: i64,
) -> Result<Seq<(Key, i64)>, StoreError> {
    if quantity.lt(threshold) {
        Err(StoreError::Domain(DomainError::Locked))
    } else {
        match next_level(claimed, level) {
            Err(e) => Err(e),
            Ok(next) => if !next || in_table(claims, key) {
                Err(StoreError::Domain(DomainError::AlreadyClaimed))
            } else {
                Ok(put(claims, key, now))
            },
        }
    }
}

/// A level of an achievement or of a daily mission entered as claimed.
pub open spec fn claim_entered(p: PlayerModel, c: GameRewardClaimCommand, now: i64) -> Result<
    PlayerModel,
    StoreError,
> {
    if !c.quantity.amount() || !c.threshold.amount() {
        Err(StoreError::Domain(DomainError::InvalidAmount))
    } else if c.kind@ == "achievement"@ {
        let q = achieved(p, c.id, c.quantity, now);
        match get(q.achievements, k1(c.id as int)) {
            None => Err(StoreError::Sql(SqlFault::NoRows)),
            Some(row) => match entered(
                q.achievement_claims,
                k2(c.id as int, c.level as int),
                keys_under(q.achievement_claims, c.id as int, None),
                c.level,
                row.quantity,
                c.threshold,
                now,
            ) {
                Err(e) => Err(e),
                Ok(achievement_claims) => Ok(PlayerModel { achievement_claims, ..q }),
            },
        }
    } else if c.kind@ == "daily_mission"@ {
        let q = progressed(p, c.id, c.quantity, now);
        match get(q.daily_missions, k1(c.id as int)) {
            None => Err(StoreError::Sql(SqlFault::NoRows)),
            Some(row) => match entered(
                q.daily_claims,
                k3(c.local_day as int, c.id as int, c.level as int),
                keys_under(q.daily_claims, c.local_day as int, Some(c.id as int)),
                c.level,
                row.quantity,
                c.threshold,
                now,
            ) {
                Err(e) => Err(e),
                Ok(daily_claims) => Ok(PlayerModel { daily_claims, ..q }),
            },
        }
    } else {
        Err(StoreError::UnsupportedReward(RewardFault::Named(c.kind)))
    }
}

pub open spec fn game_effect(
    p: PlayerModel,
    m: Mutation,
    rules: Rules,
    c: GameRewardClaimCommand,
) -> Effect {
    match claim_entered(p, c, m.now) {
        Err(e) => Err(e),
        Ok(q) => match match c.reward {
            Some(reward) => one_granted(q, rules, reward, m.now, "game-reward"@),
            None => Ok((q, Seq::empty())),
        } {
            Err(e) => Err(e),
            Ok((q, applied)) => {
                let next = clip32(c.level + 1);
                Ok((q, Outcome::Game(next, applied), Outcome::Game(next, Seq::empty())))
            },
        },
    }
}

fn enter(
    claims: &mut Table<Plain<i64>>,
    key: Key,
    claimed: usize,
    c: &GameRewardClaimCommand,
    quantity: Real,
    now: i64,
) -> (r: Result<(), StoreError>)
    ensures
        match entered(
            old(claims)@,
            key,
            claimed as nat,
            c.level,
            quantity,
            c.threshold,
            now,
        ) {
            Err(e) => r == Err::<(), StoreError>(e),
            Ok(after) => r is Ok && final(claims)@ == after,
        },
{
    if quantity.less_than(&c.threshold) {
        return Err(StoreError::Domain(DomainError::Locked));
    }
    if claimed > i32::MAX as usize {
        let value: i64 = if claimed as u128 > i64::MAX as u128 {
            i64::MAX
        } else {
            claimed as i64
        };
        return Err(StoreError::Sql(SqlFault::Integral { value, index: 0 }));
    }
    if c.level != saturating_add32(claimed as i32, 1) {
        return Err(StoreError::Domain(DomainError::AlreadyClaimed));
    }
    if claims.contains(key) {
        return Err(StoreError::Domain(DomainError::AlreadyClaimed));
    }
    claims.put(key, Plain(now));
    Ok(())
}

impl Player {
    fn achieve(&mut self, id: i64, quantity: Real, now: i64) -> (reached: Real)
        ensures
            final(self)@ == achieved(old(self)@, id, quantity, now),
            match get(final(self)@.achievements, k1(id as int)) {
                Some(row) => row.quantity == reached,
                None => false,
            },
    {
        let (kept, quantity_text): (Real, String) = match self.achievements.get(key1(id)) {
            Some(row) => (row.quantity.max(&quantity), row.quantity_text.clone()),
            None => (quantity, "0".to_owned()),
        };
        let reached: Real = if id == ATTENDANCE_ACHIEVEMENT {
            Real::from_i64(self.attendance.count as i64)
        } else {
            kept
        };
        let ghost row = AchievementModel {
            quantity: reached,
            quantity_text: quantity_text@,
            updated_at: now,
        };
        proof {
            crate::table::law_get_put(self@.achievements, k1(id as int), row, k1(id as int));
        }
        self.achievements.put(
            key1(id),
            AchievementState { quantity: reached, quantity_text, updated_at: now },
        );
        reached
    }

    fn progress(&mut self, id: i64, quantity: Real, now: i64) -> (reached: Real)
        ensures
            final(self)@ == progressed(old(self)@, id, quantity, now),
            match get(final(self)@.daily_missions, k1(id as int)) {
                Some(row) => row.quantity == reached,
                None => false,
            },
    {
        let reached: Real = match self.daily_missions.get(key1(id)) {
            Some(row) => row.0.quantity.max(&quantity),
            None => quantity,
        };
        let row = DailyRow { quantity: reached, updated_at: now };
        proof {
            crate::table::law_get_put(self@.daily_missions, k1(id as int), row, k1(id as int));
        }
        self.daily_missions.put(key1(id), Plain(row));
        reached
    }

    fn enter_claim(&mut self, c: &GameRewardClaimCommand, now: i64) -> (r: Result<(), StoreError>)
        ensures
            crate::mail::replaced_by(claim_entered(old(self)@, *c, now), final(self)@, r),
    {
        if !c.quantity.is_amount() || !c.threshold.is_amount() {
            return Err(StoreError::Domain(DomainError::InvalidAmount));
        }
        if same_text(c.kind.as_str(), "achievement") {
            let reached = self.achieve(c.id, c.quantity, now);
            let claimed: usize = count_under(&self.achievement_claims, c.id, None);
            return enter(
                &mut self.achievement_claims,
                key2(c.id, c.level as i64),
                claimed,
                c,
                reached,
                now,
            );
        }
        if same_text(c.kind.as_str(), "daily_mission") {
            let reached = self.progress(c.id, c.quantity, now);
            let claimed: usize = count_under(&self.daily_claims, c.local_day, Some(c.id));
            return enter(
                &mut self.daily_claims,
                key3(c.local_day, c.id, c.level as i64),
                claimed,
                c,
                reached,
                now,
            );
        }
        Err(StoreError::UnsupportedReward(RewardFault::Named(c.kind.clone())))
    }
}

impl Command for ClaimGame {
    open spec fn valid(&self) -> bool {
        true
    }

    open spec fn effect(&self, p: PlayerModel, m: Mutation, rules: Rules) -> Effect {
        game_effect(p, m, rules, self.claim)
    }

    proof fn keeps_order(&self, p: PlayerModel, m: Mutation, rules: Rules) {
        broadcast use group_keyed;

        if let Ok(q) = claim_entered(p, self.claim, m.now) {
            if let Some(reward) = self.claim.reward {
                lemma_granted(q, rules, reward, m.now, "game-reward"@);
            }
        }
    }

    fn run(&self, p: &mut Player, m: &RpcMutation, rules: &RewardRules) -> (r: Result<
        (Summary, Summary),
        StoreError,
    >) {
        let now: i64 = m.committed_at;
        match p.enter_claim(&self.claim, now) {
            Ok(()) => {},
            Err(e) => {
                return Err(e);
            },
        }
        let mut applied: Vec<RewardGrant> = Vec::new();
        if let Some(reward) = self.claim.reward {
            applied =
            match p.grant_one(rules, &reward, now, "game-reward") {
                Ok(applied) => applied,
                Err(e) => {
                    return Err(e);
                },
            };
        }
        let next: i32 = saturating_add32(self.claim.level, 1);
        Ok((Summary::Game(next, applied), Summary::Game(next, Vec::new())))
    }
}

} // verus!
