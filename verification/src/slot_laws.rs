//! What slots, logins and requests mean for a store.
use crate::command::{Effect, Mutation};
use crate::domain::{Ch3EnergySnapshot, CurrencyKind, DeviceClock, DomainError, Reward};
use crate::errors::{SqlFault, StoreError};
use crate::fresh::fresh;
use crate::number::{Real, ZERO};
use crate::outcome::Outcome;
use crate::player::PlayerModel;
use crate::queries::granted_once;
use crate::rows::{EntitlementRow, GrantRow, LevelRow};
use crate::slots::{
    anchored, created, deleted, ended, ended_all, fresh_session, fresh_slot, logged_in, next_active,
    resolved, sessions_without, switch_change, switch_requested,
};
use crate::store::{settled, with_player, LedgerModel, SessionModel, SlotModel, StoreModel};
use crate::table::{find, get, k1, law_find_place, law_get_put, place, Key};
use crate::text::{decimal, parsed_i64};
use vstd::prelude::*;

verus! {

/// A request of an open login of its slot that is later than the last one and whose key is
/// new is done: its player is what the command makes of it, its answer is that of the
/// command, and it is recorded for a repetition.
pub proof fn law_new_requests_are_done(s: StoreModel, m: Mutation, effect: Effect)
    requires
        get(s.sessions, k1(m.nonce as int)) matches Some(session) && session.usn == m.usn
            && session.ended_at is None && session.last_request_seq < m.request_seq,
        get(s.slots, k1(m.usn as int)) matches Some(slot) && slot.user_id == m.user_id && find(
            slot.ledger,
            m.key,
        ) is None,
    ensures
        match effect {
            Err(e) => settled(s, m, effect) == (s, Err::<Outcome, StoreError>(e)),
            Ok((q, answer, repeated)) => {
                let after = settled(s, m, effect).0;
                &&& settled(s, m, effect).1 == Ok::<Outcome, StoreError>(answer)
                &&& get(after.slots, k1(m.usn as int)) matches Some(slot) && slot.player == q
                    && slot.updated_at == m.now && find(slot.ledger, m.key) == Some(
                    LedgerModel {
                        request_seq: m.request_seq,
                        rpc: m.rpc,
                        committed_at: m.now,
                        answer: repeated,
                    },
                )
                &&& get(after.sessions, k1(m.nonce as int)) matches Some(session)
                    && session.last_request_seq == m.request_seq
            },
        },
{
    if let Ok((q, answer, repeated)) = effect {
        let key = k1(m.usn as int);
        let slot = get(s.slots, key)->Some_0;
        let next = SlotModel { player: q, ..slot };
        law_get_put(s.slots, key, next, key);
        let t = with_player(s, m.usn as int, q);
        let entry = LedgerModel {
            request_seq: m.request_seq,
            rpc: m.rpc,
            committed_at: m.now,
            answer: repeated,
        };
        law_find_place(slot.ledger, m.key, entry, m.key);
        law_get_put(
            t.slots,
            key,
            SlotModel {
                updated_at: m.now,
                ledger: place(next.ledger, m.key, entry),
                ..next
            },
            key,
        );
        let session = get(s.sessions, k1(m.nonce as int))->Some_0;
        law_get_put(
            s.sessions,
            k1(m.nonce as int),
            SessionModel { last_request_seq: m.request_seq, ..session },
            k1(m.nonce as int),
        );
    }
}

/// A new slot has the number after the last, the user id of that number, the name that was
/// given and a new player; it is in use if no slot was, and logins stay as they were.
pub proof fn law_slots_are_made(s: StoreModel, display_name: Seq<char>, now: i64)
    ensures
        created(s, display_name, now) matches Ok((after, usn)) ==> {
            &&& usn == if s.slots.len() == 0 {
                1
            } else {
                s.slots.last().0.a + 1
            }
            &&& get(after.slots, k1(usn)) matches Some(slot) && slot.display_name == display_name
                && slot.user_id == decimal(1_788_360_000_000 + usn) && slot.created_at == now
                && slot.updated_at == now && slot.ledger.len() == 0 && slot.player == fresh(now)
            &&& after.selection.active == match s.selection.active {
                Some(active) => Some(active),
                None => Some(usn as i64),
            }
            &&& after.selection.pending == s.selection.pending && after.selection.nonce
                == s.selection.nonce
            &&& after.sessions == s.sessions && after.rules == s.rules
        },
        created(s, display_name, now) matches Err(e) ==> e == StoreError::Sql(
            SqlFault::OutOfRange,
        ) && s.slots.len() > 0 && 1_788_360_000_000
            + s.slots.last().0.a + 1 > i64::MAX,
{
    if let Ok((after, usn)) = created(s, display_name, now) {
        law_get_put(
            s.slots,
            k1(usn),
            fresh_slot(usn, display_name, now),
            k1(usn),
        );
    }
}

/// A slot is deleted only under its exact name and while it is neither in use nor about to
/// be; which of these fails is said.
pub proof fn law_deletion_is_careful(s: StoreModel, usn: i64, typed: Seq<char>)
    ensures
        ({
            let slot = get(s.slots, k1(usn as int));
            let used = s.selection.active == Some(usn) || s.selection.pending == Some(usn);
            &&& slot is None ==> deleted(s, usn, typed) == Err::<StoreModel, StoreError>(
                StoreError::MissingSlot(usn),
            )
            &&& (slot matches Some(x) && x.display_name != typed) ==> deleted(s, usn, typed)
                == Err::<StoreModel, StoreError>(StoreError::Domain(DomainError::IdentityMismatch))
            &&& (slot matches Some(x) && x.display_name == typed && used) ==> deleted(s, usn, typed)
                == Err::<StoreModel, StoreError>(StoreError::ActiveSlot(usn))
            &&& (slot matches Some(x) && x.display_name == typed && !used) ==> (deleted(
                s,
                usn,
                typed,
            ) matches Ok(after) && after.selection == s.selection && after.rules == s.rules)
        }),
{
}

/// With a slot its logins go, and those of other slots stay.
pub proof fn law_logins_go_with_their_slot(
    sessions: Seq<(Key, SessionModel)>,
    usn: int,
    key: Key,
)
    ensures
        get(sessions_without(sessions, usn), key) matches Some(session) ==> session.usn != usn,
        (exists|i: int|
            0 <= i < sessions.len() && (#[trigger] sessions[i]).0 == key && sessions[i].1.usn
                != usn) ==> get(sessions_without(sessions, usn), key) is Some,
    decreases sessions.len(),
{
    if sessions.len() > 0 {
        let front = sessions.drop_last();
        law_logins_go_with_their_slot(front, usn, key);
        let n = sessions.len() - 1;
        assert(sessions[n] == sessions.last());
        law_get_put(sessions_without(front, usn), sessions.last().0, sessions.last().1, key);
        if exists|i: int|
            0 <= i < sessions.len() && (#[trigger] sessions[i]).0 == key && sessions[i].1.usn
                != usn {
            let i = choose|i: int|
                0 <= i < sessions.len() && (#[trigger] sessions[i]).0 == key && sessions[i].1.usn
                    != usn;
            if i < n {
                assert(front[i] == sessions[i]);
            }
        }
    }
}

/// A slot is found by its user id or by its number, the first that fits; where none does,
/// the number that was asked for is missing.
pub proof fn law_slots_are_found(slots: Seq<(Key, SlotModel)>, selector: Seq<char>, i: int)
    ensures
        resolved(slots, selector) matches Some((key, slot)) ==> (slot.user_id == selector
            || parsed_i64(selector) == Some(key.a)) && exists|j: int|
            0 <= j < slots.len() && #[trigger] slots[j] == (key, slot) && (0 <= i < j
                ==> slots[i].1.user_id != selector && parsed_i64(selector) != Some(slots[i].0.a)),
        resolved(slots, selector) is None && 0 <= i < slots.len() ==> slots[i].1.user_id
            != selector && parsed_i64(selector) != Some(slots[i].0.a),
    decreases slots.len(),
{
    if slots.len() > 0 {
        let front = slots.drop_last();
        law_slots_are_found(front, selector, i);
        let n = slots.len() - 1;
        assert(slots[n] == slots.last());
        if 0 <= i < n {
            assert(front[i] == slots[i]);
        }
        if let Some((key, slot)) = resolved(front, selector) {
            let j = choose|j: int|
                0 <= j < front.len() && #[trigger] front[j] == (key, slot) && (0 <= i < j
                    ==> front[i].1.user_id != selector && parsed_i64(selector) != Some(
                    front[i].0.a,
                ));
            assert(slots[j] == front[j]);
        }
    }
}

/// A switch is asked for only to a slot that is there.
pub proof fn law_switches(s: StoreModel, usn: i64, selector: Seq<char>)
    ensures
        get(s.slots, k1(usn as int)) is None ==> switch_requested(s, usn) == Err::<
            StoreModel,
            StoreError,
        >(StoreError::MissingSlot(usn)),
        get(s.slots, k1(usn as int)) is Some ==> (switch_requested(s, usn) matches Ok(after)
            && after.selection.pending == Some(usn) && after.selection.active == s.selection.active
            && after.selection.nonce == s.selection.nonce && after.slots == s.slots
            && after.sessions == s.sessions),
        resolved(s.slots, selector) matches Some((key, slot)) ==> (switch_change(
            s,
            selector,
        ) matches Ok((after, answer, _)) && after.selection.pending == Some(key.a)
            && after.selection.active == s.selection.active && after.slots == s.slots && answer
            == Outcome::Identity(key.a, slot.user_id)),
        resolved(s.slots, selector) is None ==> switch_change(s, selector) is Err,
{
}

/// A login uses the slot that was asked for, or else the one in use, and has a number of its
/// own. Nothing was sent in it yet.
pub proof fn law_logins(s: StoreModel, hash: Seq<u8>, clock: DeviceClock)
    ensures
        ({
            let next = match s.selection.pending {
                Some(usn) => Some(usn),
                None => s.selection.active,
            };
            &&& next is None ==> logged_in(s, hash, clock) == Err::<StoreModel, StoreError>(
                StoreError::NoActiveSlot,
            )
            &&& logged_in(s, hash, clock) matches Ok(after) ==> {
                let nonce = s.selection.nonce + 1;
                &&& next is Some && get(s.slots, k1(next->Some_0 as int)) is Some
                &&& after.selection.active == next && after.selection.pending is None
                    && after.selection.nonce == nonce
                &&& get(s.sessions, k1(nonce)) is None
                &&& get(after.sessions, k1(nonce)) == Some(
                    SessionModel {
                        usn: next->Some_0,
                        capability_hash: hash,
                        started_at: clock.unix_seconds,
                        utc_offset_minutes: clock.utc_offset_minutes,
                        ended_at: None,
                        last_request_seq: 0,
                    },
                )
                &&& after.rules == s.rules
            }
            &&& (next matches Some(usn) && get(s.slots, k1(usn as int)) is Some)
                && s.selection.nonce < i64::MAX && get(
                s.sessions,
                k1(s.selection.nonce + 1),
            ) is None ==> logged_in(s, hash, clock) is Ok
        }),
{
    if let Ok(after) = logged_in(s, hash, clock) {
        let nonce = s.selection.nonce + 1;
        let usn = next_active(s.selection)->Some_0;
        law_get_put(
            ended_all(s.sessions, clock.unix_seconds),
            k1(nonce),
            fresh_session(usn, hash, clock),
            k1(nonce),
        );
    }
}

/// The first login makes a season current, the one of its day among thirteen that follow
/// each other day by day; a season that is current stays.
pub proof fn law_first_season(p: PlayerModel, clock: DeviceClock)
    ensures
        p.anchor is Some ==> anchored(p, clock) == p,
        p.anchor is None ==> (anchored(p, clock).anchor matches Some(a) && 1 <= a.season <= 13
            && (a.season - 1 - clock.local_day()) % 13 == 0 && a.local_day
            == clock.local_day() as i64 && a.utc_offset_minutes == clock.utc_offset_minutes
            && a.updated_at == clock.unix_seconds && anchored(p, clock) == (PlayerModel {
            anchor: Some(a),
            ..p
        })),
{
    let day = clock.local_day();
    assert((day % 13 - day) % 13 == 0) by (nonlinear_arith);
}

/// Ending a login ends that one alone, and only once.
pub proof fn law_one_login_ends(
    sessions: Seq<(Key, SessionModel)>,
    nonce: int,
    now: i64,
    other: Key,
)
    ensures
        ({
            let after = ended(sessions, nonce, now);
            &&& get(after, k1(nonce)) == match get(sessions, k1(nonce)) {
                None => None,
                Some(session) => Some(
                    SessionModel {
                        ended_at: match session.ended_at {
                            Some(at) => Some(at),
                            None => Some(now),
                        },
                        ..session
                    },
                ),
            }
            &&& other != k1(nonce) ==> get(after, other) == get(sessions, other)
        }),
{
    if let Some(session) = get(sessions, k1(nonce)) {
        let row = SessionModel { ended_at: Some(now), ..session };
        law_get_put(sessions, k1(nonce), row, k1(nonce));
        law_get_put(sessions, k1(nonce), row, other);
    }
}

/// An amount that is granted under a name is granted once: the second time nothing changes,
/// and grants under other names stay as they were.
pub proof fn law_granted_once(
    p: PlayerModel,
    kind: CurrencyKind,
    amount: Real,
    transaction: Seq<char>,
    now: i64,
    of: CurrencyKind,
    other: Seq<char>,
    again: Real,
    later: i64,
)
    ensures
        granted_once(p, kind, amount, transaction, now) matches Ok((q, new)) && {
            &&& new == (find(p.grants, transaction) is None)
            &&& !new ==> q == p
            &&& new ==> {
                &&& q.wallet.balance(of) == if of == kind {
                    p.wallet.balance(of).plus(amount)
                } else {
                    p.wallet.balance(of)
                }
                &&& find(q.grants, transaction) == Some(
                    GrantRow {
                        reward: Reward::Currency { currency: kind, amount },
                        created_at: now,
                    },
                )
                &&& other != transaction ==> find(q.grants, other) == find(p.grants, other)
                &&& q == PlayerModel { wallet: q.wallet, grants: q.grants, ..p }
            }
            &&& granted_once(q, kind, again, transaction, later) == Ok::<
                (PlayerModel, bool),
                StoreError,
            >((q, false))
        },
{
    let row = GrantRow { reward: Reward::Currency { currency: kind, amount }, created_at: now };
    law_find_place(p.grants, transaction, row, transaction);
    law_find_place(p.grants, transaction, row, other);
}

/// A new player has nothing in the balances, the first channel open and the second closed,
/// full energy, the first stage of the third channel open and nothing claimed, and the
/// second lane of all thirteen seasons paid for.
pub proof fn law_new_players(now: i64, kind: CurrencyKind, season: int)
    requires
        1 <= season <= 13,
    ensures
        ({
            let p = fresh(now);
            &&& p.wallet.balance(kind) == Real { bits: ZERO }
            &&& get(p.areas, k1(1)) matches Some(row) && row.unlocked && row.current_costume
                == Some(1i64)
            &&& get(p.areas, k1(2)) matches Some(row) && !row.unlocked
            &&& p.energy == Ch3EnergySnapshot { amount: 200, cap: 200, calculated_at: now }
            &&& get(p.stages, k1(1001)) matches Some(row) && row.unlocked && !row.completed
                && row.best_star == 0 && row.chapter == 1 && row.stage_index == 1
            &&& p.entitlements.len() == 13 && p.entitlements[season - 1] == (
                k1(season),
                EntitlementRow { premium: true, lounge: false },
            )
            &&& p.attendance.count == 0 && p.attendance.last_local_day is None
            &&& p.achievement_claims.len() == 0 && p.daily_claims.len() == 0
                && p.chapter_claims.len() == 0 && p.pass_claims.len() == 0
                && p.affection_claims.len() == 0 && p.mail.len() == 0 && p.gifts.len() == 0
                && p.purchases.len() == 0 && p.grants.len() == 0 && p.tickets.len() == 0
            &&& p.achievements.len() == 10 && p.daily_missions.len() == 6
            &&& p.owned.len() == 7 && p.levels.len() == 7 && forall|i: int|
                0 <= i < 7 ==> (#[trigger] p.levels[i]).1 == (LevelRow {
                    level: 1,
                    reward_level: 0,
                }) && p.levels[i].0 == p.owned[i].0
        }),
{
    let p = fresh(now);
    assert(p.areas[0].0 == k1(1) && p.areas[1].0 == k1(2));
    reveal_with_fuel(get, 3);
    assert(p.areas.drop_first()[0] == p.areas[1]);
}

} // verus!
