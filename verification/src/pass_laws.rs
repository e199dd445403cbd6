//! What the season pass means for a player.
use crate::command::{Command, Mutation, Rules};
use crate::domain::{CurrencyKind, DeviceClock, DomainError, RewardGrant};
use crate::errors::{RewardFault, StoreError};
use crate::number::{Real, ZERO};
use crate::outcome::Outcome;
use crate::pass::{
    activated, filled, paid_steps, premium_seasons, season_selected, step_reached, ActivatePasses,
    ClaimPass, FillPass,
};
use crate::player::PlayerModel;
use crate::reward_laws::law_rewards_spare_the_rest;
use crate::rewards::all_granted;
use crate::rows::{EntitlementRow, RevisionRow};
use crate::table::{find, get, k1, k2, law_find_place, law_get_put, put, Key};
use crate::tally::{law_tally_put, tally};
use vstd::prelude::*;

verus! {

/// The points of a version of a season.
pub open spec fn points_of(p: PlayerModel, season: i64, version: i32) -> int {
    match get(p.pass_progress, k2(season as int, version as int)) {
        Some(row) => row.points as int,
        None => 0,
    }
}

/// Whether the second lane of a season was paid for.
pub open spec fn paid_for(p: PlayerModel, season: i64) -> bool {
    get(p.entitlements, k1(season as int)) matches Some(row) && row.premium
}

/// A step is claimed only with the points that it requires, and in the second lane only
/// if that was paid for; else the claim is refused and nothing changes.
pub proof fn law_steps_need_points(p: PlayerModel, m: Mutation, rules: Rules, c: ClaimPass<'_>)
    ensures
        c.effect(p, m, rules) is Ok ==> points_of(p, c.season, c.version) >= c.required_points,
        c.effect(p, m, rules) is Ok && c.lane == 1 ==> paid_for(p, c.season),
        points_of(p, c.season, c.version) < c.required_points || (c.lane == 1 && !paid_for(
            p,
            c.season,
        )) ==> c.effect(p, m, rules) == Err::<(PlayerModel, Outcome, Outcome), StoreError>(
            StoreError::Domain(DomainError::InsufficientBalance),
        ),
{
}

proof fn lemma_paid_steps(claims: Seq<(Key, i64)>, season: i64, version: i32)
    ensures
        paid_steps(claims, season, version) == tally(
            claims,
            season as int,
            Some(version as int),
            Some(1),
        ),
    decreases claims.len(),
{
    if claims.len() > 0 {
        lemma_paid_steps(claims.drop_last(), season, version);
    }
}

/// A step that may be claimed is entered and its rewards are given, unless it was
/// claimed before: then nothing happens. A player who has claimed as many steps of the
/// second lane as there are has its ticket.
pub proof fn law_steps_are_granted(
    p: PlayerModel,
    m: Mutation,
    rules: Rules,
    c: ClaimPass<'_>,
    other: Key,
)
    requires
        points_of(p, c.season, c.version) >= c.required_points,
        c.lane == 1 ==> paid_for(p, c.season),
    ensures
        ({
            let key = Key {
                a: c.season,
                b: c.version as i64,
                c: c.lane as i64,
                d: c.step as i64,
            };
            let ticket = k1(c.ticket_id as int);
            match c.effect(p, m, rules) {
                Err(e) => get(p.pass_claims, key) is None && all_granted(
                    p,
                    rules,
                    c.rewards@,
                    m.now,
                    "pass"@,
                ) is Err,
                Ok((q, answer, _)) => {
                    &&& answer matches Outcome::PassClaim {
                        season,
                        lane,
                        step,
                        version,
                        claimed_at,
                        rewards,
                    } && season == c.season && lane == c.lane && step == c.step && version
                        == c.version && claimed_at == m.now && (get(p.pass_claims, key) is Some
                        ==> rewards.len() == 0)
                    &&& get(p.pass_claims, key) is Some ==> q == p
                    &&& get(p.pass_claims, key) is None ==> {
                        let given = all_granted(
                            PlayerModel { pass_claims: q.pass_claims, ..p },
                            rules,
                            c.rewards@,
                            m.now,
                            "pass"@,
                        );
                        &&& get(q.pass_claims, key) == Some(m.now)
                        &&& other != key ==> get(q.pass_claims, other) == get(p.pass_claims, other)
                        &&& given is Ok
                        &&& answer->PassClaim_rewards == given->Ok_0.1
                        &&& q == PlayerModel { tickets: q.tickets, ..given->Ok_0.0 }
                        &&& if c.lane == 1 && c.ticket_id > 0 && tally(
                            p.pass_claims,
                            c.season as int,
                            Some(c.version as int),
                            Some(1),
                        ) + 1 >= c.paid_lane_step_count {
                            get(q.tickets, ticket) == Some(
                                match get(given->Ok_0.0.tickets, ticket) {
                                    Some(at) => at,
                                    None => m.now,
                                },
                            ) && (other != ticket ==> get(
                                q.tickets,
                                other,
                            ) == get(given->Ok_0.0.tickets, other))
                        } else {
                            q.tickets == given->Ok_0.0.tickets
                        }
                    }
                },
            }
        }),
{
    let key = Key { a: c.season, b: c.version as i64, c: c.lane as i64, d: c.step as i64 };
    let ticket = k1(c.ticket_id as int);
    lemma_claims_frame(p, put(p.pass_claims, key, m.now), rules, c, m.now);
    law_get_put(p.pass_claims, key, m.now, key);
    law_get_put(p.pass_claims, key, m.now, other);
    if get(p.pass_claims, key) is None {
        law_tally_put(
            p.pass_claims,
            key,
            m.now,
            c.season as int,
            Some(c.version as int),
            Some(1),
        );
        let claims = put(p.pass_claims, key, m.now);
        lemma_paid_steps(claims, c.season, c.version);
        if let Ok((r, _)) = all_granted(
            PlayerModel { pass_claims: claims, ..p },
            rules,
            c.rewards@,
            m.now,
            "pass"@,
        ) {
            law_get_put(r.tickets, ticket, m.now, ticket);
            law_get_put(r.tickets, ticket, m.now, other);
            law_rewards_spare_the_rest(
                PlayerModel { pass_claims: claims, ..p },
                rules,
                c.rewards@,
                m.now,
                "pass"@,
            );
        }
    }
}

proof fn lemma_claims_frame(
    p: PlayerModel,
    claims: Seq<(Key, i64)>,
    rules: Rules,
    c: ClaimPass<'_>,
    now: i64,
)
    ensures
        all_granted(PlayerModel { pass_claims: claims, ..p }, rules, c.rewards@, now, "pass"@) is Ok
            <==> all_granted(p, rules, c.rewards@, now, "pass"@) is Ok,
{
    lemma_rewards_frame(p, claims, rules, c.rewards@, now, "pass"@);
}

proof fn lemma_rewards_frame(
    p: PlayerModel,
    claims: Seq<(Key, i64)>,
    rules: Rules,
    rewards: Seq<RewardGrant>,
    now: i64,
    source: Seq<char>,
)
    ensures
        all_granted(PlayerModel { pass_claims: claims, ..p }, rules, rewards, now, source)
            == match all_granted(p, rules, rewards, now, source) {
            Err(e) => Err(e),
            Ok((q, given)) => Ok((PlayerModel { pass_claims: claims, ..q }, given)),
        },
    decreases rewards.len(),
{
    if rewards.len() > 0 {
        lemma_rewards_frame(p, claims, rules, rewards.drop_last(), now, source);
    }
}

/// The step that points reach is the highest whose goal they reach.
pub proof fn law_step_reached(thresholds: Seq<(i32, i64)>, points: i64, i: int)
    ensures
        0 <= i < thresholds.len() && thresholds[i].1 <= points ==> (step_reached(
            thresholds,
            points,
        ) matches Some(step) && step >= thresholds[i].0),
        step_reached(thresholds, points) matches Some(step) ==> exists|j: int|
            0 <= j < thresholds.len() && (#[trigger] thresholds[j]).0 == step && thresholds[j].1
                <= points,
    decreases thresholds.len(),
{
    if thresholds.len() > 0 {
        let front = thresholds.drop_last();
        law_step_reached(front, points, i);
        let n = thresholds.len() - 1;
        if 0 <= i < n {
            assert(front[i] == thresholds[i]);
        }
        if let Some(step) = step_reached(thresholds, points) {
            if step_reached(front, points) == Some(step) {
                let j = choose|j: int|
                    0 <= j < front.len() && (#[trigger] front[j]).0 == step && front[j].1
                        <= points;
                assert(thresholds[j] == front[j]);
            } else {
                assert(thresholds[n].0 == step);
            }
        }
    }
}

/// Buying points pays their price in chocolate and adds them; the step is the highest
/// that was ever reached, and other versions and seasons stay as they were. Without
/// enough chocolate nothing is bought.
pub proof fn law_points_are_bought(
    p: PlayerModel,
    m: Mutation,
    rules: Rules,
    c: FillPass,
    kind: CurrencyKind,
    other: Key,
    i: int,
)
    ensures
        ({
            let key = k2(c.season as int, c.version as int);
            let zero = Real { bits: ZERO };
            let had = points_of(p, c.season, c.version);
            let step = match get(p.pass_progress, key) {
                Some(row) => row.step as int,
                None => 0,
            };
            let added = if c.added_points > 0 {
                c.added_points as int
            } else {
                0
            };
            let chocolate = p.wallet.balance(CurrencyKind::Chocolate);
            match c.effect(p, m, rules) {
                Err(e) => {
                    &&& (zero.lt(c.chocolate_cost) && !c.chocolate_cost.le(chocolate)) || (zero.lt(
                        c.chocolate_cost,
                    ) && !c.chocolate_cost.amount()) || had + added > i64::MAX
                    &&& zero.lt(c.chocolate_cost) && c.chocolate_cost.amount()
                        && !c.chocolate_cost.le(chocolate) ==> e == StoreError::Domain(
                        DomainError::InsufficientBalance,
                    )
                },
                Ok((q, answer, _)) => {
                    &&& zero.lt(c.chocolate_cost) ==> c.chocolate_cost.le(chocolate)
                        && q.wallet.balance(CurrencyKind::Chocolate) == chocolate.minus(
                        c.chocolate_cost,
                    )
                    &&& !zero.lt(c.chocolate_cost) ==> q.wallet == p.wallet
                    &&& kind != CurrencyKind::Chocolate ==> q.wallet.balance(kind)
                        == p.wallet.balance(kind)
                    &&& get(q.pass_progress, key) matches Some(row) && row.points == had + added
                        && row.step >= step && (0 <= i < c.thresholds@.len()
                        && c.thresholds@[i].1 <= row.points ==> row.step >= c.thresholds@[i].0) && (
                    row.step == step || row.step == 0 || exists|j: int|
                        0 <= j < c.thresholds@.len() && (#[trigger] c.thresholds@[j]).0 == row.step
                            && c.thresholds@[j].1 <= row.points)
                    &&& other != key ==> get(q.pass_progress, other) == get(p.pass_progress, other)
                    &&& q == PlayerModel { wallet: q.wallet, pass_progress: q.pass_progress, ..p }
                    &&& answer matches Outcome::PassFill(a) && a.season == c.season && a.version
                        == c.version && a.points == had + added && a.chocolate == q.wallet.balance(
                        CurrencyKind::Chocolate,
                    ) && a.candy == q.wallet.balance(CurrencyKind::Candy)
                },
            }
        }),
{
    let key = k2(c.season as int, c.version as int);
    if let Ok(row) = filled(get(p.pass_progress, key), c.added_points as int, c.thresholds@) {
        law_step_reached(c.thresholds@, row.points, i);
        law_get_put(p.pass_progress, key, row, key);
        law_get_put(p.pass_progress, key, row, other);
    }
}

/// A season from 1 to 13 becomes current on the day of the clock, and the master data is
/// one revision newer; no other season can be chosen.
pub proof fn law_season_becomes_current(
    p: PlayerModel,
    clock: DeviceClock,
    season: i64,
    other: Seq<char>,
)
    ensures
        ({
            let before = match find(p.revisions, "master-data"@) {
                Some(row) => row.revision as int,
                None => 0,
            };
            match season_selected(p, clock, season) {
                Err(e) => {
                    &&& !(1 <= season <= 13) || before == i64::MAX
                    &&& !(1 <= season <= 13) ==> e == StoreError::UnsupportedReward(
                        RewardFault::PassSeason(season),
                    )
                },
                Ok(q) => {
                    &&& 1 <= season <= 13
                    &&& q.anchor matches Some(a) && a.season == season && a.local_day
                        == clock.local_day() as i64 && a.utc_offset_minutes
                        == clock.utc_offset_minutes && a.updated_at == clock.unix_seconds
                    &&& find(q.revisions, "master-data"@) == Some(
                        RevisionRow {
                            revision: (before + 1) as i64,
                            updated_at: clock.unix_seconds,
                        },
                    )
                    &&& other != "master-data"@ ==> find(q.revisions, other) == find(
                        p.revisions,
                        other,
                    )
                    &&& q == PlayerModel { anchor: q.anchor, revisions: q.revisions, ..p }
                },
            }
        }),
{
    let before = match find(p.revisions, "master-data"@) {
        Some(row) => row.revision as int,
        None => 0,
    };
    let row = RevisionRow { revision: (before + 1) as i64, updated_at: clock.unix_seconds };
    law_find_place(p.revisions, "master-data"@, row, "master-data"@);
    law_find_place(p.revisions, "master-data"@, row, other);
}

/// Every season of a list that is one has its second lane paid for afterwards; whether
/// it has a lounge stays, and so do all other seasons.
pub proof fn law_passes_are_activated(
    rows: Seq<(Key, EntitlementRow)>,
    seasons: Seq<i64>,
    season: i64,
)
    ensures
        ({
            let after = get(activated(rows, seasons), k1(season as int));
            let before = get(rows, k1(season as int));
            if 1 <= season <= 13 && seasons.contains(season) {
                after matches Some(row) && row.premium && row.lounge == (before matches Some(b)
                    && b.lounge)
            } else {
                after == before
            }
        }),
    decreases seasons.len(),
{
    if seasons.len() > 0 {
        let front = seasons.drop_last();
        law_passes_are_activated(rows, front, season);
        law_passes_are_activated(rows, front, seasons.last());
        let n = seasons.len() - 1;
        assert(seasons[n] == seasons.last());
        if front.contains(season) {
            let j = choose|j: int| 0 <= j < front.len() && front[j] == season;
            assert(seasons[j] == season);
        }
        if seasons.contains(season) {
            let j = choose|j: int| 0 <= j < seasons.len() && seasons[j] == season;
            if j < n {
                assert(front[j] == season);
            }
        }
        let before = activated(rows, front);
        let at = k1(seasons.last() as int);
        law_get_put(
            before,
            at,
            EntitlementRow {
                premium: true,
                lounge: match get(before, at) {
                    Some(row) => row.lounge,
                    None => false,
                },
            },
            k1(season as int),
        );
    }
}

/// The seasons that were paid for are those whose rows say so.
pub proof fn law_premium_seasons(rows: Seq<(Key, EntitlementRow)>, season: i64)
    ensures
        premium_seasons(rows).contains(season) <==> exists|i: int|
            0 <= i < rows.len() && (#[trigger] rows[i]).0.a == season && rows[i].1.premium,
    decreases rows.len(),
{
    if rows.len() > 0 {
        let front = rows.drop_last();
        law_premium_seasons(front, season);
        let before = premium_seasons(front);
        let all = premium_seasons(rows);
        let n = rows.len() - 1;
        assert forall|i: int| 0 <= i < n implies #[trigger] front[i] == rows[i] by {}
        assert forall|i: int| 0 <= i < n implies front[i] == #[trigger] rows[i] by {}
        if before.contains(season) {
            let j = choose|j: int| 0 <= j < before.len() && before[j] == season;
            assert(all[j] == season);
        }
        if rows[n].1.premium && rows[n].0.a == season {
            assert(all[before.len() as int] == season);
        }
        if all.contains(season) {
            let j = choose|j: int| 0 <= j < all.len() && all[j] == season;
            if j < before.len() {
                assert(before[j] == season);
            } else {
                assert(rows[n].0.a == season);
            }
        }
    }
}

/// Paying for seasons changes nothing but what may be claimed, and answers with all
/// seasons that were paid for.
pub proof fn law_activation(p: PlayerModel, m: Mutation, rules: Rules, c: ActivatePasses)
    ensures
        c.effect(p, m, rules) matches Ok((q, answer, _)) && q.entitlements == activated(
            p.entitlements,
            c.seasons@,
        ) && q == (PlayerModel { entitlements: q.entitlements, ..p }) && answer == Outcome::Ids(
            premium_seasons(q.entitlements),
        ),
{
}

} // verus!
