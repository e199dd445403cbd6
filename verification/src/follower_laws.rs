//! What gifts, affection, encores and advertisements mean for a player.
use crate::command::{Command, Mutation, Rules};
use crate::domain::{ContentKind, CurrencyKind, DomainError, FollowerProfileSnapshot, RewardGrant};
use crate::errors::{SqlFault, StoreError};
use crate::followers::{
    ch3_profile_updated, encore_ready, encore_step, encore_steps, follower_updated, levels_claimed,
    levels_of, reached, viewed, ClaimEncores, ClaimProfileRewards, EncoreState, GiveGift,
    GrantAdReward, Threshold,
};
use crate::number::Real;
use crate::outcome::{Outcome, ProfileReward};
use crate::player::PlayerModel;
use crate::reward_laws::{count_at, law_rewards_spare_the_rest, rewarded};
use crate::rewards::all_granted;
use crate::rows::{AdViews, AffectionRow, EncoreRow};
use crate::table::{get, k1, k2, law_get_put, put, Key};
use vstd::prelude::*;

verus! {

/// The level that an experience reaches is the highest whose threshold it reaches, and
/// never below the level so far. Its candy is that of the last threshold for that level,
/// and there is none where no threshold is reached.
pub proof fn law_level_reached(levels: Seq<Threshold>, experience: i64, level: i32, i: int)
    ensures
        ({
            let (l, candy) = reached(levels, experience, level);
            &&& l >= level
            &&& 0 <= i < levels.len() && levels[i].1 <= experience ==> l >= levels[i].0
            &&& (l == level && candy == 0) || exists|j: int|
                0 <= j < levels.len() && (#[trigger] levels[j]).0 == l && levels[j].1 <= experience
                    && levels[j].2 == candy && (j < i < levels.len() ==> levels[i].0 != l
                    || levels[i].1 > experience)
            &&& 0 <= i < levels.len() && levels[i].1 <= experience && levels[i].0 >= level
                && l == level ==> exists|j: int|
                0 <= j < levels.len() && (#[trigger] levels[j]).0 == l && levels[j].1 <= experience
                    && levels[j].2 == candy
        }),
    decreases levels.len(),
{
    if levels.len() > 0 {
        let front = levels.drop_last();
        law_level_reached(front, experience, level, i);
        let n = levels.len() - 1;
        let (l, candy) = reached(levels, experience, level);
        let (x, y) = reached(front, experience, level);
        if 0 <= i < n {
            assert(front[i] == levels[i]);
        }
        if levels[n].1 <= experience && levels[n].0 >= x {
            assert(levels[n].0 == l && levels[n].2 == candy);
        } else {
            assert(l == x && candy == y);
            if !(l == level && candy == 0) {
                let j = choose|j: int|
                    0 <= j < front.len() && (#[trigger] front[j]).0 == x && front[j].1
                        <= experience && front[j].2 == y && (j < i < front.len() ==> front[i].0
                        != x || front[i].1 > experience);
                assert(levels[j] == front[j]);
            }
            if 0 <= i < n && levels[i].1 <= experience && levels[i].0 >= level && l == level {
                let j = choose|j: int|
                    0 <= j < front.len() && (#[trigger] front[j]).0 == x && front[j].1
                        <= experience && front[j].2 == y;
                assert(levels[j] == front[j]);
            }
        }
    }
}

/// How much experience a follower has.
pub open spec fn experience_of(p: PlayerModel, profile_id: int) -> int {
    match get(p.affection, k1(profile_id)) {
        Some(row) => row.experience as int,
        None => 0,
    }
}

/// The level of a follower.
pub open spec fn level_of(p: PlayerModel, profile_id: int) -> int {
    match get(p.affection, k1(profile_id)) {
        Some(row) => row.level as int,
        None => 1,
    }
}

/// Experience adds up as far as it can be counted, never falls, and brings the highest
/// level that it reaches, which never falls either. All other followers and everything
/// else stay as they were, and what is shown is what is there.
pub proof fn law_experience_adds_up(
    p: PlayerModel,
    profile_id: int,
    gain: int,
    levels: Seq<Threshold>,
    other: Key,
    i: int,
)
    ensures
        ({
            let (q, shown) = follower_updated(p, profile_id, gain, levels);
            let key = k1(profile_id);
            let sum = experience_of(p, profile_id) + if gain > 0 {
                gain
            } else {
                0
            };
            &&& get(q.affection, key) matches Some(row) && {
                &&& i64::MIN <= sum <= i64::MAX ==> row.experience == sum
                &&& sum > i64::MAX ==> row.experience == i64::MAX
                &&& row.level >= level_of(p, profile_id) && row.level >= 1
                &&& 0 <= i < levels.len() && levels[i].1 <= row.experience ==> row.level
                    >= levels[i].0
                &&& row.level == level_of(p, profile_id) || row.level == 1 || exists|j: int|
                    0 <= j < levels.len() && (#[trigger] levels[j]).0 == row.level && levels[j].1
                        <= row.experience
                &&& shown.profile_id == profile_id as i64 && shown.level == row.level
                    && shown.experience == row.experience
                &&& shown.add_candy == reached(
                    levels,
                    row.experience,
                    if level_of(p, profile_id) < 1 {
                        1
                    } else {
                        level_of(p, profile_id) as i32
                    },
                ).1
            }
            &&& other != key ==> get(q.affection, other) == get(p.affection, other)
            &&& q == PlayerModel { affection: q.affection, ..p }
        }),
{
    let (q, shown) = follower_updated(p, profile_id, gain, levels);
    let key = k1(profile_id);
    let row = AffectionRow { experience: shown.experience, level: shown.level };
    let from: i32 = if level_of(p, profile_id) < 1 {
        1
    } else {
        level_of(p, profile_id) as i32
    };
    law_level_reached(levels, shown.experience, from, i);
    law_get_put(p.affection, key, row, key);
    law_get_put(p.affection, key, row, other);
}

/// The follower of the third channel gains experience as any other, but has to be known.
pub proof fn law_ch3_follower(p: PlayerModel, gain: int, levels: Seq<Threshold>)
    ensures
        get(p.affection, k1(100_000)) is Some ==> ch3_profile_updated(p, gain, levels) == Ok::<
            (PlayerModel, FollowerProfileSnapshot),
            StoreError,
        >(follower_updated(p, 100_000, gain, levels)),
        get(p.affection, k1(100_000)) is None ==> ch3_profile_updated(p, gain, levels) == Err::<
            (PlayerModel, FollowerProfileSnapshot),
            StoreError,
        >(StoreError::Sql(SqlFault::NoRows)),
{
}

/// Giving a gift takes as many as are given, which have to be there, and brings each of
/// them the experience that it is worth; the other gifts stay.
pub proof fn law_gifts_are_spent(p: PlayerModel, m: Mutation, rules: Rules, c: GiveGift, other: Key)
    ensures
        ({
            let key = k1(c.gift_id as int);
            match c.effect(p, m, rules) {
                Err(e) => count_at(p.gifts, key) < c.quantity && e == StoreError::Domain(
                    DomainError::InsufficientBalance,
                ),
                Ok((q, answer, _)) => {
                    let worth = c.experience_each * c.quantity;
                    let gain = if worth > i64::MAX {
                        i64::MAX as int
                    } else if worth < i64::MIN {
                        i64::MIN as int
                    } else {
                        worth
                    };
                    let fed = follower_updated(
                        p,
                        c.profile_id as int,
                        gain,
                        c.level_thresholds@,
                    );
                    &&& count_at(p.gifts, key) >= c.quantity
                    &&& c.quantity >= 0 ==> count_at(q.gifts, key) == count_at(p.gifts, key)
                        - c.quantity
                    &&& other != key ==> get(q.gifts, other) == get(p.gifts, other)
                    &&& q == PlayerModel { gifts: q.gifts, ..fed.0 }
                    &&& answer matches Outcome::Gift(a) && a.gift_id == c.gift_id && a.profile
                        == fed.1 && (c.quantity >= 0 ==> a.remaining == count_at(q.gifts, key))
                },
            }
        }),
{
    let key = k1(c.gift_id as int);
    let left = (count_at(p.gifts, key) - c.quantity) as i64;
    law_get_put(p.gifts, key, left, key);
    law_get_put(p.gifts, key, left, other);
}

/// Whether a level is among those that are asked for.
pub open spec fn asked(requested: Seq<(i32, Vec<RewardGrant>)>, level: int) -> bool {
    exists|i: int| 0 <= i < requested.len() && (#[trigger] requested[i]).0 == level
}

/// All levels that are asked for have to be reached. Each is claimed afterwards, from
/// when it was first claimed, and claims of other levels and followers stay as they were;
/// of the rest only what rewards give changes. Every level that is answered was asked
/// for and had not been claimed.
pub proof fn law_affection_claims(
    p: PlayerModel,
    rules: Rules,
    profile: FollowerProfileSnapshot,
    requested: Seq<(i32, Vec<RewardGrant>)>,
    now: i64,
    level: i32,
    other: Key,
)
    ensures
        levels_claimed(p, rules, profile, requested, now) matches Ok((q, done)) ==> {
            let key = k2(profile.profile_id as int, level as int);
            &&& asked(requested, level as int) ==> 1 <= level <= profile.level
            &&& asked(requested, level as int) ==> get(q.affection_claims, key) == Some(
                match get(p.affection_claims, key) {
                    Some(at) => at,
                    None => now,
                },
            )
            &&& !asked(requested, level as int) ==> get(q.affection_claims, key) == get(
                p.affection_claims,
                key,
            )
            &&& other.a != profile.profile_id ==> get(q.affection_claims, other) == get(
                p.affection_claims,
                other,
            )
            &&& rewarded(
                PlayerModel { affection_claims: q.affection_claims, ..p },
                q,
            )
            &&& forall|i: int|
                0 <= i < done.len() ==> (#[trigger] done[i]).profile_id == profile.profile_id
                    && done[i].profile == profile && asked(requested, done[i].level as int) && get(
                    p.affection_claims,
                    k2(profile.profile_id as int, done[i].level as int),
                ) is None
        },
    decreases requested.len(),
{
    if requested.len() > 0 && levels_claimed(p, rules, profile, requested, now) is Ok {
        let front = requested.drop_last();
        let n = requested.len() - 1;
        let last = requested.last();
        law_affection_claims(p, rules, profile, front, now, level, other);
        law_affection_claims(p, rules, profile, front, now, last.0, other);
        let (q, done) = levels_claimed(p, rules, profile, front, now)->Ok_0;
        let (r, all) = levels_claimed(p, rules, profile, requested, now)->Ok_0;
        let key = k2(profile.profile_id as int, last.0 as int);
        assert(requested[n].0 == last.0);
        assert forall|x: int| asked(front, x) implies asked(requested, x) by {
            let i = choose|i: int| 0 <= i < front.len() && (#[trigger] front[i]).0 == x;
            assert(requested[i].0 == x);
        }
        if asked(requested, level as int) && !asked(front, level as int) {
            let i = choose|i: int|
                0 <= i < requested.len() && (#[trigger] requested[i]).0 == level;
            if i < n {
                assert(front[i].0 == level);
            }
        }
        law_get_put(q.affection_claims, key, now, key);
        law_get_put(
            q.affection_claims,
            key,
            now,
            k2(profile.profile_id as int, level as int),
        );
        law_get_put(q.affection_claims, key, now, other);
        let entered = PlayerModel {
            affection_claims: put(q.affection_claims, key, now),
            ..q
        };
        law_rewards_spare_the_rest(entered, rules, last.1@, now, "follower-profile"@);
        assert forall|i: int| 0 <= i < all.len() implies (#[trigger] all[i]).profile_id
            == profile.profile_id && all[i].profile == profile && asked(
            requested,
            all[i].level as int,
        ) && get(
            p.affection_claims,
            k2(profile.profile_id as int, all[i].level as int),
        ) is None by {
            if i < done.len() {
                assert(all[i] == done[i]);
            } else {
                assert(get(q.affection_claims, key) is None);
            }
        }
    }
}

/// A level that was not claimed and is asked for alone is claimed with exactly its
/// rewards; one that was claimed gives nothing.
pub proof fn law_affection_level(
    p: PlayerModel,
    rules: Rules,
    profile: FollowerProfileSnapshot,
    before: Seq<(i32, Vec<RewardGrant>)>,
    level: i32,
    rewards: Vec<RewardGrant>,
    now: i64,
)
    ensures
        ({
            let all = levels_claimed(p, rules, profile, before.push((level, rewards)), now);
            let key = k2(profile.profile_id as int, level as int);
            match levels_claimed(p, rules, profile, before, now) {
                Err(e) => all is Err,
                Ok((q, done)) => {
                    &&& !(1 <= level <= profile.level) ==> all == Err::<
                        (PlayerModel, Seq<ProfileReward>),
                        StoreError,
                    >(StoreError::Domain(DomainError::Locked))
                    &&& 1 <= level <= profile.level && get(q.affection_claims, key) is Some
                        ==> all == Ok::<(PlayerModel, Seq<ProfileReward>), StoreError>((q, done))
                    &&& 1 <= level <= profile.level && get(q.affection_claims, key) is None
                        ==> match all_granted(
                        PlayerModel { affection_claims: put(q.affection_claims, key, now), ..q },
                        rules,
                        rewards@,
                        now,
                        "follower-profile"@,
                    ) {
                        Err(e) => all is Err,
                        Ok((r, given)) => all == Ok::<
                            (PlayerModel, Seq<ProfileReward>),
                            StoreError,
                        >(
                            (
                                r,
                                done.push(
                                    ProfileReward {
                                        profile_id: profile.profile_id,
                                        level,
                                        rewards: given,
                                        profile,
                                    },
                                ),
                            ),
                        ),
                    }
                },
            }
        }),
{
    let requested = before.push((level, rewards));
    assert(requested.drop_last() =~= before);
    assert(requested.last() == (level, rewards));
}

/// The levels of a follower are claimed at the level that it has.
pub proof fn law_affection_rewards(
    p: PlayerModel,
    m: Mutation,
    rules: Rules,
    c: ClaimProfileRewards,
)
    ensures
        match get(p.affection, k1(c.profile_id as int)) {
            None => c.effect(p, m, rules) is Err,
            Some(row) => ({
                let profile = FollowerProfileSnapshot {
                    profile_id: c.profile_id,
                    level: row.level,
                    experience: row.experience,
                    add_candy: 0,
                };
                match levels_claimed(p, rules, profile, c.requested@, m.now) {
                    Err(e) => c.effect(p, m, rules) is Err,
                    Ok((q, done)) => c.effect(p, m, rules) matches Ok((r, answer, _)) && r == q
                        && answer == Outcome::ProfileRewards(done),
                }
            }),
        },
{
}

/// An encore can be claimed for music that is owned, if it appears, its time has come or
/// nothing is known of it.
pub proof fn law_encore_ready(p: PlayerModel, music_id: i64, now: i64)
    ensures
        encore_ready(p, music_id, now) <==> get(
            p.owned,
            k2(ContentKind::Music.rank() as int, music_id as int),
        ) is Some && (get(p.encores, k1(music_id as int)) matches Some(row) ==> row.encore_appears
            || row.encore_ready_at <= now),
{
}

/// A claimed encore is gone until it is ready again, its gift counts as candy, and its
/// follower gains the experience. One that cannot be claimed is rejected and changes
/// nothing.
pub proof fn law_encores(
    s: EncoreState,
    music_id: i64,
    gift: i32,
    experience: i64,
    ready_at: i64,
    levels: Seq<(i64, i32, i64, i32)>,
    now: i64,
    other: Key,
)
    ensures
        ({
            let t = encore_step(s, (music_id, gift, experience, ready_at), levels, now);
            let key = k1(music_id as int);
            let amount: int = if gift > 0 {
                gift as int
            } else {
                0
            };
            if !encore_ready(s.p, music_id, now) {
                &&& t.p == s.p && t.granted == s.granted && t.candy == s.candy && t.profiles
                    == s.profiles
                &&& t.rejected.len() == s.rejected.len() + 1 && t.rejected.drop_last()
                    == s.rejected
                &&& i32::MIN <= music_id <= i32::MAX ==> t.rejected.last() == music_id
            } else {
                &&& t.rejected == s.rejected
                &&& t.granted.len() == s.granted.len() + 1 && t.granted.drop_last() == s.granted
                &&& t.granted.last().1 == amount
                &&& i32::MIN <= music_id <= i32::MAX ==> t.granted.last().0 == music_id
                &&& s.candy + amount <= i64::MAX ==> t.candy == s.candy + amount
                &&& get(t.p.encores, key) matches Some(row) && !row.encore_appears
                    && row.encore_ready_at == ready_at && (match get(s.p.encores, key) {
                    Some(before) => row.encore_follower_id == before.encore_follower_id
                        && row.ch3_active_until == before.ch3_active_until,
                    None => row.encore_follower_id is None,
                })
                &&& other != key ==> get(t.p.encores, other) == get(s.p.encores, other)
                &&& match get(s.p.encores, key) {
                    Some(before) => match before.encore_follower_id {
                        Some(profile_id) => if profile_id > 0 {
                            let fed = follower_updated(
                                s.p,
                                profile_id as int,
                                experience as int,
                                levels_of(levels, profile_id),
                            );
                            t.p == (PlayerModel { encores: t.p.encores, ..fed.0 }) && get(
                                t.profiles,
                                k1(profile_id as int),
                            ) == Some(fed.1)
                        } else {
                            t.p == (PlayerModel { encores: t.p.encores, ..s.p }) && t.profiles
                                == s.profiles
                        },
                        None => t.p == (PlayerModel { encores: t.p.encores, ..s.p }) && t.profiles
                            == s.profiles,
                    },
                    None => t.p == (PlayerModel { encores: t.p.encores, ..s.p }) && t.profiles
                        == s.profiles,
                }
            }
        }),
{
    let t = encore_step(s, (music_id, gift, experience, ready_at), levels, now);
    let key = k1(music_id as int);
    if !encore_ready(s.p, music_id, now) {
        assert(t.rejected.drop_last() =~= s.rejected);
    } else {
        assert(t.granted.drop_last() =~= s.granted);
        let row = match get(s.p.encores, key) {
            Some(row) => EncoreRow { encore_appears: false, encore_ready_at: ready_at, ..row },
            None => EncoreRow {
                encore_appears: false,
                encore_follower_id: None,
                encore_ready_at: ready_at,
                ch3_active_until: 0,
            },
        };
        law_get_put(s.p.encores, key, row, key);
        law_get_put(s.p.encores, key, row, other);
        if let Some(profile_id) = row.encore_follower_id {
            let fed = follower_updated(
                s.p,
                profile_id as int,
                experience as int,
                levels_of(levels, profile_id),
            );
            law_get_put(s.profiles, k1(profile_id as int), fed.1, k1(profile_id as int));
        }
    }
}

/// The thresholds of a follower are those of the list that name it.
pub proof fn law_levels_of(all: Seq<(i64, i32, i64, i32)>, profile_id: i64, t: Threshold)
    ensures
        levels_of(all, profile_id).contains(t) <==> exists|i: int|
            0 <= i < all.len() && #[trigger] all[i] == (profile_id, t.0, t.1, t.2),
    decreases all.len(),
{
    if all.len() > 0 {
        let front = all.drop_last();
        law_levels_of(front, profile_id, t);
        let before = levels_of(front, profile_id);
        let after = levels_of(all, profile_id);
        let n = all.len() - 1;
        assert forall|i: int| 0 <= i < n implies #[trigger] front[i] == all[i] by {}
        assert forall|i: int| 0 <= i < n implies front[i] == #[trigger] all[i] by {}
        if before.contains(t) {
            let j = choose|j: int| 0 <= j < before.len() && before[j] == t;
            assert(after[j] == t);
        }
        if all[n] == (profile_id, t.0, t.1, t.2) {
            assert(after[before.len() as int] == t);
        }
        if after.contains(t) {
            let j = choose|j: int| 0 <= j < after.len() && after[j] == t;
            if j < before.len() {
                assert(before[j] == t);
            } else {
                assert(all[n] == (profile_id, t.0, t.1, t.2));
            }
        }
    }
}

/// Encores are claimed one after the other, from a start without any; then their candy is
/// added to the balance.
pub proof fn law_encore_claims(p: PlayerModel, m: Mutation, rules: Rules, c: ClaimEncores)
    ensures
        ({
            let s = encore_steps(
                p,
                c.rewards@,
                c.profile_level_thresholds@,
                m.now,
            );
            c.effect(p, m, rules) matches Ok((q, answer, _)) && {
                &&& answer matches Outcome::Encore { rewards, profiles, rejected } && rewards
                    == s.granted && rejected == s.rejected && profiles.len() == s.profiles.len()
                &&& s.candy > 0 ==> q.wallet.balance(CurrencyKind::Candy) == s.p.wallet.balance(
                    CurrencyKind::Candy,
                ).plus(Real::of(s.candy as int))
                &&& s.candy <= 0 ==> q.wallet == s.p.wallet
                &&& q == PlayerModel { wallet: q.wallet, ..s.p }
            }
        }),
        encore_steps(
            p,
            Seq::empty(),
            c.profile_level_thresholds@,
            m.now,
        ) matches s && s.p == p && s.candy == 0 && s.granted.len() == 0 && s.rejected.len() == 0,
        c.rewards@.len() > 0 ==> encore_steps(
            p,
            c.rewards@,
            c.profile_level_thresholds@,
            m.now,
        ) == encore_step(
            encore_steps(
                p,
                c.rewards@.drop_last(),
                c.profile_level_thresholds@,
                m.now,
            ),
            c.rewards@.last(),
            c.profile_level_thresholds@,
            m.now,
        ),
{
}

/// Every view counts in all, and on its day: a new day begins anew.
pub proof fn law_views_count(before: Option<AdViews>, local_day: i64, now: i64)
    ensures
        viewed(before, local_day, now) matches Ok(v) ==> {
            &&& v.local_day == local_day
            &&& v.last_view_time == now
            &&& v.total_count == 1 + (match before {
                Some(b) => b.total_count as int,
                None => 0,
            })
            &&& v.day_count == 1 + (match before {
                Some(b) => if b.local_day == local_day {
                    b.day_count as int
                } else {
                    0
                },
                None => 0,
            })
        },
        viewed(before, local_day, now) is Err ==> before is Some && (before->Some_0.total_count
            == i32::MAX || before->Some_0.day_count == i32::MAX),
        viewed(before, local_day, now) matches Err(e) ==> e == StoreError::Sql(
            SqlFault::Integral {
                value: 2_147_483_648,
                index: if before->Some_0.local_day == local_day && before->Some_0.day_count
                    == i32::MAX {
                    0
                } else {
                    1
                },
            },
        ),
{
}

/// Watching an advertisement counts its view, gives its rewards and brings its follower
/// the experience; the views of others stay as they were.
pub proof fn law_advertisements(
    p: PlayerModel,
    m: Mutation,
    rules: Rules,
    c: GrantAdReward,
    other: Key,
)
    ensures
        c.effect(p, m, rules) is Err ==> viewed(
            get(p.ad_views, k1(c.ad_id as int)),
            c.local_day,
            m.now,
        ) is Err || all_granted(
            PlayerModel {
                ad_views: put(
                    p.ad_views,
                    k1(c.ad_id as int),
                    viewed(get(p.ad_views, k1(c.ad_id as int)), c.local_day, m.now)->Ok_0,
                ),
                ..p
            },
            rules,
            c.rewards@,
            m.now,
            "ad"@,
        ) is Err,
        c.effect(p, m, rules) matches Ok((q, answer, _)) ==> {
            let key = k1(c.ad_id as int);
            let views = viewed(get(p.ad_views, key), c.local_day, m.now);
            let given = all_granted(
                PlayerModel { ad_views: q.ad_views, ..p },
                rules,
                c.rewards@,
                m.now,
                "ad"@,
            );
            &&& views is Ok
            &&& get(q.ad_views, key) == Some(views->Ok_0)
            &&& other != key ==> get(q.ad_views, other) == get(p.ad_views, other)
            &&& given is Ok
            &&& answer matches Outcome::Ad {
                ad_id,
                day_count,
                total_count,
                last_view_time,
                rewards,
                profile,
            } && ad_id == c.ad_id && day_count == views->Ok_0.day_count && total_count
                == views->Ok_0.total_count && last_view_time == m.now && rewards == given->Ok_0.1
                && (profile is Some <==> c.profile is Some)
            &&& match c.profile {
                None => q == given->Ok_0.0,
                Some(grant) => q == follower_updated(
                    given->Ok_0.0,
                    grant.profile_id as int,
                    grant.experience as int,
                    grant.level_thresholds@,
                ).0,
            }
        },
{
    let key = k1(c.ad_id as int);
    if let Ok(views) = viewed(get(p.ad_views, key), c.local_day, m.now) {
        law_get_put(p.ad_views, key, views, key);
        law_get_put(p.ad_views, key, views, other);
        law_rewards_spare_the_rest(
            PlayerModel { ad_views: put(p.ad_views, key, views), ..p },
            rules,
            c.rewards@,
            m.now,
            "ad"@,
        );
    }
}

} // verus!
