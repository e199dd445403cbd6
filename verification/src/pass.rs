//! The pass: seasons, points, claims and tickets.
use crate::command::{answered, Command, Effect, Mutation, RpcMutation, Rules};
use crate::consume_reward::RewardRules;
use crate::domain::{
    CurrencyKind, DeviceClock, DomainError, PassAnchorSnapshot, PassClaimOutcome, PassClaimSnapshot,
    PassFillOutcome, PassProgressSnapshot, PassSnapshot, RewardGrant,
};
use crate::errors::{RewardFault, SqlFault, StoreError};
use crate::ints::{max32, max64, max_int};
use crate::kept::{lemma_activated, lemma_all_granted};
use crate::number::{Real, ZERO};
use crate::lists::{copied, copies};
use crate::order::group_keyed;
use crate::outcome::{Outcome, Summary};
use crate::player::{Player, PlayerModel};
use crate::profile::{exec_ids_of, ids_of};
use crate::rewards::all_granted;
use crate::rows::{Anchor, EntitlementRow, PassRow, RevisionRow, Wallet};
use crate::shop::paid;
use crate::table::{find, get, in_table, k1, k2, key1, key2, place, put, put_new, Key, Plain, Table};
use vstd::prelude::*;

verus! {

/// The seasons of the pass.
pub open spec fn is_season(season: int) -> bool {
    1 <= season <= 13
}

/// A season made current on the day of a clock.
pub open spec fn season_selected(p: PlayerModel, clock: DeviceClock, season: i64) -> Result<
    PlayerModel,
    StoreError,
> {
    let now = clock.unix_seconds;
    let revision = match find(p.revisions, "master-data"@) {
        Some(row) => row.revision + 1,
        None => 1,
    };
    if !is_season(season as int) {
        Err(StoreError::UnsupportedReward(RewardFault::PassSeason(season)))
    } else if revision > i64::MAX {
        Err(StoreError::Sql(SqlFault::OutOfRange))
    } else {
        Ok(
            PlayerModel {
                anchor: Some(
                    Anchor {
                        local_day: clock.local_day() as i64,
                        season,
                        utc_offset_minutes: clock.utc_offset_minutes,
                        updated_at: now,
                    },
                ),
                revisions: place(
                    p.revisions,
                    "master-data"@,
                    RevisionRow { revision: revision as i64, updated_at: now },
                ),
                ..p
            },
        )
    }
}

impl Player {
    pub(crate) fn select_pass_season(&mut self, clock: DeviceClock, season: i64) -> (r: Result<
        (),
        StoreError,
    >)
        requires
            clock.representable(),
        ensures
            crate::mail::replaced_by(
                season_selected(old(self)@, clock, season),
                final(self)@,
                r,
            ),
    {
        if season < 1 || season > 13 {
            return Err(StoreError::UnsupportedReward(RewardFault::PassSeason(season)));
        }
        let partition = "master-data".to_owned();
        let before: i64 = match self.revisions.find(&partition) {
            Some(row) => row.0.revision,
            None => 0,
        };
        if before == i64::MAX {
            return Err(StoreError::Sql(SqlFault::OutOfRange));
        }
        self.anchor = Some(
            Anchor {
                local_day: clock.local_epoch_day(),
                season,
                utc_offset_minutes: clock.utc_offset_minutes,
                updated_at: clock.unix_seconds,
            },
        );
        self.revisions.place(
            partition,
            Plain(RevisionRow { revision: before + 1, updated_at: clock.unix_seconds }),
        );
        Ok(())
    }
}

/// Making a season current.
pub struct SelectSeason {
    pub clock: DeviceClock,
    pub season: i64,
}

pub open spec fn season_effect(p: PlayerModel, clock: DeviceClock, season: i64) -> Effect {
    match season_selected(p, clock, season) {
        Err(e) => Err(e),
        Ok(q) => answered(q, Outcome::Done),
    }
}

impl Command for SelectSeason {
    open spec fn valid(&self) -> bool {
        self.clock.representable()
    }

    open spec fn effect(&self, p: PlayerModel, m: Mutation, rules: Rules) -> Effect {
        season_effect(p, self.clock, self.season)
    }

    proof fn keeps_order(&self, p: PlayerModel, m: Mutation, rules: Rules) {
        broadcast use group_keyed;

    }

    fn run(&self, p: &mut Player, m: &RpcMutation, rules: &RewardRules) -> (r: Result<
        (Summary, Summary),
        StoreError,
    >) {
        match p.select_pass_season(self.clock, self.season) {
            Err(e) => Err(e),
            Ok(()) => Ok((Summary::Done, Summary::Done)),
        }
    }
}

/// The highest step whose goal the points reach.
pub open spec fn step_reached(thresholds: Seq<(i32, i64)>, points: i64) -> Option<i32>
    decreases thresholds.len(),
{
    if thresholds.len() == 0 {
        None
    } else {
        let before = step_reached(thresholds.drop_last(), points);
        let (step, goal) = thresholds.last();
        if points >= goal {
            match before {
                Some(best) => Some(max_int(best as int, step as int) as i32),
                None => Some(step),
            }
        } else {
            before
        }
    }
}

fn exec_step_reached(thresholds: &Vec<(i32, i64)>, points: i64) -> (r: Option<i32>)
    ensures
        r == step_reached(thresholds@, points),
{
    let mut r: Option<i32> = None;
    let mut i: usize = 0;
    proof {
        assert(thresholds@.take(0) =~= Seq::empty());
    }
    while i < thresholds.len()
        invariant
            i <= thresholds@.len(),
            r == step_reached(thresholds@.take(i as int), points),
        decreases thresholds@.len() - i,
    {
        proof {
            assert(thresholds@.take(i + 1).drop_last() =~= thresholds@.take(i as int));
        }
        let (step, goal) = thresholds[i];
        if points >= goal {
            r =
            match r {
                Some(best) => Some(max32(best, step)),
                None => Some(step),
            };
        }
        i = i + 1;
    }
    proof {
        assert(thresholds@.take(i as int) =~= thresholds@);
    }
    r
}

/// Buying points.
pub struct FillPass {
    pub season: i64,
    pub version: i32,
    pub chocolate_cost: Real,
    pub added_points: i64,
    pub thresholds: Vec<(i32, i64)>,
}

/// The balances after points were paid; what costs nothing is not paid.
pub open spec fn points_paid(w: Wallet, cost: Real) -> Result<Wallet, StoreError> {
    if (Real { bits: ZERO }).lt(cost) {
        paid(w, CurrencyKind::Chocolate, cost)
    } else {
        Ok(w)
    }
}

/// How far a version of a season is, with points added.
pub open spec fn filled(before: Option<PassRow>, added: int, thresholds: Seq<(i32, i64)>) -> Result<
    PassRow,
    StoreError,
> {
    let (had, step) = match before {
        Some(row) => (row.points as int, row.step as int),
        None => (0, 0),
    };
    let points = had + max_int(added, 0);
    if points > i64::MAX {
        Err(StoreError::Sql(SqlFault::OutOfRange))
    } else {
        let reached = match step_reached(thresholds, points as i64) {
            Some(best) => best as int,
            None => 0,
        };
        Ok(PassRow { points: points as i64, step: max_int(step, reached) as i32 })
    }
}

pub open spec fn fill_effect(
    p: PlayerModel,
    season: i64,
    version: i32,
    chocolate_cost: Real,
    added_points: i64,
    thresholds: Seq<(i32, i64)>,
) -> Effect {
    let key = k2(season as int, version as int);
    match points_paid(p.wallet, chocolate_cost) {
        Err(e) => Err(e),
        Ok(wallet) => match filled(get(p.pass_progress, key), added_points as int, thresholds) {
            Err(e) => Err(e),
            Ok(row) => answered(
                PlayerModel { wallet, pass_progress: put(p.pass_progress, key, row), ..p },
                Outcome::PassFill(
                    PassFillOutcome {
                        season,
                        points: row.points,
                        version,
                        chocolate: wallet.balance(CurrencyKind::Chocolate),
                        candy: wallet.balance(CurrencyKind::Candy),
                    },
                ),
            ),
        },
    }
}

impl Command for FillPass {
    open spec fn valid(&self) -> bool {
        true
    }

    open spec fn effect(&self, p: PlayerModel, m: Mutation, rules: Rules) -> Effect {
        fill_effect(
            p,
            self.season,
            self.version,
            self.chocolate_cost,
            self.added_points,
            self.thresholds@,
        )
    }

    proof fn keeps_order(&self, p: PlayerModel, m: Mutation, rules: Rules) {
        broadcast use group_keyed;

    }

    fn run(&self, p: &mut Player, m: &RpcMutation, rules: &RewardRules) -> (r: Result<
        (Summary, Summary),
        StoreError,
    >) {
        if (Real { bits: ZERO }).less_than(&self.chocolate_cost) {
            match p.deduct_currency(CurrencyKind::Chocolate, self.chocolate_cost) {
                Ok(()) => {},
                Err(e) => {
                    return Err(e);
                },
            }
        }
        let key = key2(self.season, self.version as i64);
        let before: PassRow = match p.pass_progress.get(key) {
            Some(row) => row.0,
            None => PassRow { points: 0, step: 0 },
        };
        let points: i64 = match before.points.checked_add(max64(self.added_points, 0)) {
            Some(points) => points,
            None => {
                return Err(StoreError::Sql(SqlFault::OutOfRange));
            },
        };
        let reached: i32 = match exec_step_reached(&self.thresholds, points) {
            Some(best) => best,
            None => 0,
        };
        p.pass_progress.put(key, Plain(PassRow { points, step: max32(before.step, reached) }));
        let outcome = PassFillOutcome {
            season: self.season,
            points,
            version: self.version,
            chocolate: p.wallet.get(CurrencyKind::Chocolate),
            candy: p.wallet.get(CurrencyKind::Candy),
        };
        Ok((Summary::PassFill(outcome), Summary::PassFill(outcome)))
    }
}

/// Claiming a step. The second lane is for those who paid for it.
pub struct ClaimPass<'a> {
    pub season: i64,
    pub version: i32,
    pub lane: i16,
    pub step: i32,
    pub required_points: i64,
    pub rewards: &'a [RewardGrant],
    pub paid_lane_step_count: i64,
    pub ticket_id: i64,
}

/// Where a claimed step is entered.
pub open spec fn claim_key(season: i64, version: i32, lane: i16, step: i32) -> Key {
    Key { a: season, b: version as i64, c: lane as i64, d: step as i64 }
}

/// How many steps of the paid lane were claimed.
pub open spec fn paid_steps(claims: Seq<(Key, i64)>, season: i64, version: i32) -> nat
    decreases claims.len(),
{
    if claims.len() == 0 {
        0
    } else {
        let key = claims.last().0;
        paid_steps(claims.drop_last(), season, version) + if key.a == season && key.b == version
            && key.c == 1 {
            1nat
        } else {
            0
        }
    }
}

fn count_paid_steps(claims: &Table<Plain<i64>>, season: i64, version: i32) -> (n: usize)
    ensures
        n == paid_steps(claims@, season, version),
{
    let mut n: usize = 0;
    let mut i: usize = 0;
    proof {
        assert(claims@.take(0) =~= Seq::empty());
    }
    while i < claims.len()
        invariant
            i <= claims@.len(),
            n <= i,
            n == paid_steps(claims@.take(i as int), season, version),
        decreases claims@.len() - i,
    {
        proof {
            assert(claims@.take(i + 1).drop_last() =~= claims@.take(i as int));
        }
        let key = claims.key_at(i);
        if key.a == season && key.b == version as i64 && key.c == 1 {
            n = n + 1;
        }
        i = i + 1;
    }
    proof {
        assert(claims@.take(i as int) =~= claims@);
    }
    n
}

/// Whether a step may be claimed: the points suffice, and the lane was paid for.
pub open spec fn claimable(c: ClaimPass<'_>, p: PlayerModel) -> bool {
    let points = match get(p.pass_progress, k2(c.season as int, c.version as int)) {
        Some(row) => row.points,
        None => 0,
    };
    let premium = match get(p.entitlements, k1(c.season as int)) {
        Some(row) => row.premium,
        None => false,
    };
    points >= c.required_points && (c.lane == 1 ==> premium)
}

/// The ticket of a season whose paid lane was claimed to its end.
pub open spec fn ticketed(c: ClaimPass<'_>, p: PlayerModel, now: i64) -> PlayerModel {
    if c.lane == 1 && c.ticket_id > 0 && paid_steps(p.pass_claims, c.season, c.version)
        >= c.paid_lane_step_count {
        PlayerModel { tickets: put_new(p.tickets, k1(c.ticket_id as int), now), ..p }
    } else {
        p
    }
}

pub open spec fn pass_claim_answer(
    c: ClaimPass<'_>,
    now: i64,
    rewards: Seq<RewardGrant>,
) -> Outcome {
    Outcome::PassClaim {
        season: c.season,
        lane: c.lane,
        step: c.step,
        version: c.version,
        claimed_at: now,
        rewards,
    }
}

pub open spec fn pass_claim_effect(
    c: ClaimPass<'_>,
    p: PlayerModel,
    m: Mutation,
    rules: Rules,
) -> Effect {
    let key = claim_key(c.season, c.version, c.lane, c.step);
    let empty = pass_claim_answer(c, m.now, Seq::empty());
    if !claimable(c, p) {
        Err(StoreError::Domain(DomainError::InsufficientBalance))
    } else if in_table(p.pass_claims, key) {
        answered(p, empty)
    } else {
        match all_granted(
            PlayerModel { pass_claims: put(p.pass_claims, key, m.now), ..p },
            rules,
            c.rewards@,
            m.now,
            "pass"@,
        ) {
            Err(e) => Err(e),
            Ok((q, applied)) => Ok(
                (ticketed(c, q, m.now), pass_claim_answer(c, m.now, applied), empty),
            ),
        }
    }
}

/// A claimed step is never granted again.
pub proof fn law_pass_claimed_once(
    c: ClaimPass<'_>,
    again: ClaimPass<'_>,
    p: PlayerModel,
    m: Mutation,
    rules: Rules,
)
    requires
        in_table(p.pass_claims, claim_key(c.season, c.version, c.lane, c.step)),
        again.season == c.season && again.version == c.version && again.lane == c.lane
            && again.step == c.step,
        pass_claim_effect(again, p, m, rules) is Ok,
    ensures
        pass_claim_effect(again, p, m, rules) == answered(
            p,
            pass_claim_answer(again, m.now, Seq::empty()),
        ),
{
}

impl<'a> ClaimPass<'a> {
    fn may_claim(&self, p: &Player) -> (r: bool)
        ensures
            r == claimable(*self, p@),
    {
        let points: i64 = match p.pass_progress.get(key2(self.season, self.version as i64)) {
            Some(row) => row.0.points,
            None => 0,
        };
        if points < self.required_points {
            return false;
        }
        if self.lane == 1 {
            match p.entitlements.get(key1(self.season)) {
                Some(row) => row.0.premium,
                None => false,
            }
        } else {
            true
        }
    }

    fn answer(&self, now: i64, rewards: Vec<RewardGrant>) -> (r: PassClaimOutcome)
        ensures
            crate::outcome::pass_claim_outcome(r) == pass_claim_answer(*self, now, rewards@),
    {
        PassClaimOutcome {
            season: self.season,
            lane: self.lane,
            step: self.step,
            version: self.version,
            claimed_at: now,
            rewards,
        }
    }
}

impl<'a> Command for ClaimPass<'a> {
    open spec fn valid(&self) -> bool {
        true
    }

    open spec fn effect(&self, p: PlayerModel, m: Mutation, rules: Rules) -> Effect {
        pass_claim_effect(*self, p, m, rules)
    }

    proof fn keeps_order(&self, p: PlayerModel, m: Mutation, rules: Rules) {
        broadcast use group_keyed;

        let key = claim_key(self.season, self.version, self.lane, self.step);
        lemma_all_granted(
            PlayerModel { pass_claims: put(p.pass_claims, key, m.now), ..p },
            rules,
            self.rewards@,
            m.now,
            "pass"@,
        );
    }

    fn run(&self, p: &mut Player, m: &RpcMutation, rules: &RewardRules) -> (r: Result<
        (Summary, Summary),
        StoreError,
    >) {
        let now: i64 = m.committed_at;
        if !self.may_claim(p) {
            return Err(StoreError::Domain(DomainError::InsufficientBalance));
        }
        let key = Key {
            a: self.season,
            b: self.version as i64,
            c: self.lane as i64,
            d: self.step as i64,
        };
        let new: bool = p.pass_claims.put_new(key, Plain(now));
        if !new {
            return Ok(
                (
                    Summary::PassClaim(self.answer(now, Vec::new())),
                    Summary::PassClaim(self.answer(now, Vec::new())),
                ),
            );
        }
        let applied = match p.apply_reward_grants(rules, &copied(self.rewards), now, "pass") {
            Ok(applied) => applied,
            Err(e) => {
                return Err(e);
            },
        };
        if self.lane == 1 && self.ticket_id > 0 {
            let n: usize = count_paid_steps(&p.pass_claims, self.season, self.version);
            if n as i128 >= self.paid_lane_step_count as i128 {
                p.tickets.put_new(key1(self.ticket_id), Plain(now));
            }
        }
        Ok(
            (
                Summary::PassClaim(self.answer(now, applied)),
                Summary::PassClaim(self.answer(now, Vec::new())),
            ),
        )
    }
}

/// Paying for the second lane of seasons.
pub struct ActivatePasses {
    pub seasons: Vec<i64>,
}

/// Entitlements with the seasons of a list paid for.
pub open spec fn activated(rows: Seq<(Key, EntitlementRow)>, seasons: Seq<i64>) -> Seq<
    (Key, EntitlementRow),
>
    decreases seasons.len(),
{
    if seasons.len() == 0 {
        rows
    } else {
        let before = activated(rows, seasons.drop_last());
        let season = seasons.last();
        if is_season(season as int) {
            put(
                before,
                k1(season as int),
                EntitlementRow {
                    premium: true,
                    lounge: match get(before, k1(season as int)) {
                        Some(row) => row.lounge,
                        None => false,
                    },
                },
            )
        } else {
            before
        }
    }
}

/// The seasons that were paid for.
pub open spec fn premium_seasons(rows: Seq<(Key, EntitlementRow)>) -> Seq<i64>
    decreases rows.len(),
{
    if rows.len() == 0 {
        Seq::empty()
    } else {
        let before = premium_seasons(rows.drop_last());
        if rows.last().1.premium {
            before.push(rows.last().0.a)
        } else {
            before
        }
    }
}

pub open spec fn activate_effect(p: PlayerModel, seasons: Seq<i64>) -> Effect {
    let entitlements = activated(p.entitlements, seasons);
    answered(
        PlayerModel { entitlements, ..p },
        Outcome::Ids(premium_seasons(entitlements)),
    )
}

impl Player {
    fn premium_seasons(&self) -> (ids: Vec<i64>)
        ensures
            ids@ == premium_seasons(self@.entitlements),
    {
        let mut ids: Vec<i64> = Vec::new();
        let mut i: usize = 0;
        proof {
            assert(self@.entitlements.take(0) =~= Seq::empty());
        }
        while i < self.entitlements.len()
            invariant
                i <= self@.entitlements.len(),
                ids@ == premium_seasons(self@.entitlements.take(i as int)),
            decreases self@.entitlements.len() - i,
        {
            proof {
                assert(self@.entitlements.take(i + 1).drop_last() =~= self@.entitlements.take(
                    i as int,
                ));
            }
            if self.entitlements.row_at(i).0.premium {
                ids.push(self.entitlements.key_at(i).a);
            }
            i = i + 1;
        }
        proof {
            assert(self@.entitlements.take(i as int) =~= self@.entitlements);
        }
        ids
    }

    fn activate_pass(&mut self, season: i64)
        ensures
            final(self)@ == (PlayerModel {
                entitlements: activated(old(self)@.entitlements, seq![season]),
                ..old(self)@
            }),
    {
        proof {
            reveal_with_fuel(activated, 2);
            assert(seq![season].drop_last() =~= Seq::empty());
        }
        if season >= 1 && season <= 13 {
            let lounge: bool = match self.entitlements.get(key1(season)) {
                Some(row) => row.0.lounge,
                None => false,
            };
            self.entitlements.put(key1(season), Plain(EntitlementRow { premium: true, lounge }));
        }
    }
}

impl Command for ActivatePasses {
    open spec fn valid(&self) -> bool {
        true
    }

    open spec fn effect(&self, p: PlayerModel, m: Mutation, rules: Rules) -> Effect {
        activate_effect(p, self.seasons@)
    }

    proof fn keeps_order(&self, p: PlayerModel, m: Mutation, rules: Rules) {
        broadcast use group_keyed;

        lemma_activated(p.entitlements, self.seasons@);
    }

    fn run(&self, p: &mut Player, m: &RpcMutation, rules: &RewardRules) -> (r: Result<
        (Summary, Summary),
        StoreError,
    >) {
        let ghost start = p@;
        let ghost list = self.seasons@;
        let mut i: usize = 0;
        proof {
            assert(list.take(0) =~= Seq::empty());
        }
        while i < self.seasons.len()
            invariant
                i <= list.len(),
                list == self.seasons@,
                p@ == (PlayerModel {
                    entitlements: activated(start.entitlements, list.take(i as int)),
                    ..start
                }),
            decreases list.len() - i,
        {
            let ghost before = p@.entitlements;
            p.activate_pass(self.seasons[i]);
            proof {
                assert(list.take(i + 1).drop_last() =~= list.take(i as int));
                reveal_with_fuel(activated, 2);
                assert(seq![list[i as int]].drop_last() =~= Seq::empty());
            }
            i = i + 1;
        }
        proof {
            assert(list.take(i as int) =~= list);
        }
        let seasons = p.premium_seasons();
        let again = copies(&seasons);
        Ok((Summary::Ids(seasons), Summary::Ids(again)))
    }
}

/// How far the seasons are.
pub open spec fn progress_shown(rows: Seq<(Key, PassRow)>) -> Seq<PassProgressSnapshot> {
    rows.map_values(
        |e: (Key, PassRow)|
            PassProgressSnapshot {
                season: e.0.a,
                points: e.1.points,
                step: e.1.step,
                version: e.0.b as i32,
            },
    )
}

/// The claimed steps.
pub open spec fn claims_shown(rows: Seq<(Key, i64)>) -> Seq<PassClaimSnapshot> {
    rows.map_values(
        |e: (Key, i64)|
            PassClaimSnapshot {
                season: e.0.a,
                version: e.0.b as i32,
                lane: e.0.c as i16,
                step: e.0.d as i32,
                claimed_at: e.1,
            },
    )
}

/// What the pass of a player shows.
pub open spec fn pass_shows(p: PlayerModel, s: PassSnapshot) -> bool {
    &&& p.anchor matches Some(a) && s.anchor == (PassAnchorSnapshot {
        anchor_day: a.local_day,
        anchor_season: a.season,
        utc_offset_minutes: a.utc_offset_minutes,
    })
    &&& s.progress@ == progress_shown(p.pass_progress)
    &&& s.claims@ == claims_shown(p.pass_claims)
    &&& s.premium_seasons@ == premium_seasons(p.entitlements)
    &&& s.tickets@ == ids_of(p.tickets)
}

/// What the pass of a player is: there is none before the first login.
pub open spec fn pass_result(p: PlayerModel, r: Result<PassSnapshot, StoreError>) -> bool {
    match r {
        Ok(s) => pass_shows(p, s),
        Err(e) => p.anchor is None && e == StoreError::Sql(SqlFault::NoRows),
    }
}

impl Player {
    fn pass_progress_list(&self) -> (r: Vec<PassProgressSnapshot>)
        ensures
            r@ == progress_shown(self@.pass_progress),
    {
        let mut r: Vec<PassProgressSnapshot> = Vec::new();
        let mut i: usize = 0;
        while i < self.pass_progress.len()
            invariant
                i <= self@.pass_progress.len(),
                r@.len() == i,
                forall|j: int|
                    0 <= j < i ==> #[trigger] r@[j] == progress_shown(self@.pass_progress)[j],
            decreases self@.pass_progress.len() - i,
        {
            let key = self.pass_progress.key_at(i);
            let row = self.pass_progress.row_at(i).0;
            r.push(
                PassProgressSnapshot {
                    season: key.a,
                    points: row.points,
                    step: row.step,
                    version: key.b as i32,
                },
            );
            i = i + 1;
        }
        proof {
            assert(r@ =~= progress_shown(self@.pass_progress));
        }
        r
    }

    fn pass_claim_list(&self) -> (r: Vec<PassClaimSnapshot>)
        ensures
            r@ == claims_shown(self@.pass_claims),
    {
        let mut r: Vec<PassClaimSnapshot> = Vec::new();
        let mut i: usize = 0;
        while i < self.pass_claims.len()
            invariant
                i <= self@.pass_claims.len(),
                r@.len() == i,
                forall|j: int|
                    0 <= j < i ==> #[trigger] r@[j] == claims_shown(self@.pass_claims)[j],
            decreases self@.pass_claims.len() - i,
        {
            let key = self.pass_claims.key_at(i);
            r.push(
                PassClaimSnapshot {
                    season: key.a,
                    version: key.b as i32,
                    lane: key.c as i16,
                    step: key.d as i32,
                    claimed_at: self.pass_claims.row_at(i).0,
                },
            );
            i = i + 1;
        }
        proof {
            assert(r@ =~= claims_shown(self@.pass_claims));
        }
        r
    }

    pub(crate) fn pass_snapshot(&self) -> (r: Result<PassSnapshot, StoreError>)
        ensures
            pass_result(self@, r),
    {
        let anchor = match self.anchor {
            Some(a) => PassAnchorSnapshot {
                anchor_day: a.local_day,
                anchor_season: a.season,
                utc_offset_minutes: a.utc_offset_minutes,
            },
            None => {
                return Err(StoreError::Sql(SqlFault::NoRows));
            },
        };
        Ok(
            PassSnapshot {
                anchor,
                progress: self.pass_progress_list(),
                claims: self.pass_claim_list(),
                premium_seasons: self.premium_seasons(),
                tickets: exec_ids_of(&self.tickets),
            },
        )
    }
}

} // verus!
