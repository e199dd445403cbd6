//! What holds of the store as a whole.
use crate::ch3::{ClaimChapter, SettleStage, SettleStream};
use crate::claims::{ClaimEvent, ClaimGame};
use crate::command::{Command, Effect, Mutation, Rules};
use crate::domain::{DeviceClock, DomainError};
use crate::errors::StoreError;
use crate::followers::{ClaimProfileRewards, GrantAdReward};
use crate::kept::law_fresh_in_order;
use crate::mail::ClaimMail;
use crate::order::well_keyed;
use crate::outcome::Outcome;
use crate::pass::ClaimPass;
use crate::player::PlayerModel;
use crate::quests::AdvanceQuest;
use crate::shop::PurchaseRewards;
use crate::slots::{
    anchored, created, deleted, ended_all, fresh_session, fresh_slot, logged_in, next_active,
    next_usn, requested, user_id_of,
};
use crate::store::{
    admission, authorized, player_of, record_of, recorded, settled, slot_at, verdict, with_player,
    LedgerModel, SessionModel, SlotModel, StoreChange, StoreModel,
};
use crate::table::{
    get, k1, key_less, law_find_place, law_get_put, law_get_without, law_put_sorted, place, put,
    sorted, Key,
};
use vstd::prelude::*;

verus! {

/// A request that is refused or fails changes nothing.
pub proof fn law_failure_changes_nothing(s: StoreModel, m: Mutation, change: StoreChange)
    requires
        verdict(s, m, change).1 is Err,
    ensures
        verdict(s, m, change).0 == s,
{
}

/// A request that does not belong to the open login of its slot is refused as
/// stale.
pub proof fn law_strangers_refused(s: StoreModel, m: Mutation, change: StoreChange)
    requires
        !authorized(s, m),
    ensures
        verdict(s, m, change) == (
            s,
            Err::<Outcome, StoreError>(StoreError::Domain(DomainError::StaleRequest)),
        ),
{
}

/// Whether a request was done just now: it was new, and its answer was given.
pub open spec fn done(s: StoreModel, m: Mutation, effect: Effect) -> bool {
    admission(s, m) is Fresh && settled(s, m, effect).1 is Ok
}

proof fn lemma_done(s: StoreModel, m: Mutation, effect: Effect)
    requires
        done(s, m, effect),
    ensures
        effect is Ok,
        ({
            let after = settled(s, m, effect).0;
            let (q, answer, repeated) = effect->Ok_0;
            let slot = slot_at(s, m.usn as int)->Some_0;
            let entry = LedgerModel {
                request_seq: m.request_seq,
                rpc: m.rpc,
                committed_at: m.now,
                answer: repeated,
            };
            &&& slot_at(s, m.usn as int) is Some
            &&& slot_at(after, m.usn as int) == Some(
                SlotModel {
                    player: q,
                    updated_at: m.now,
                    ledger: place(slot.ledger, m.key, entry),
                    ..slot
                },
            )
            &&& get(after.sessions, k1(m.nonce as int)) == Some(
                SessionModel {
                    last_request_seq: m.request_seq,
                    ..get(s.sessions, k1(m.nonce as int))->Some_0
                },
            )
            &&& get(s.sessions, k1(m.nonce as int)) is Some
            &&& settled(s, m, effect).1 == Ok::<Outcome, StoreError>(answer)
            &&& after.selection == s.selection
            &&& after.rules == s.rules
        }),
{
    let (q, answer, repeated) = effect->Ok_0;
    let slot = slot_at(s, m.usn as int)->Some_0;
    let key = k1(m.usn as int);
    let next = SlotModel { player: q, ..slot };
    law_get_put(s.slots, key, next, key);
    let t = with_player(s, m.usn as int, q);
    let entry = LedgerModel {
        request_seq: m.request_seq,
        rpc: m.rpc,
        committed_at: m.now,
        answer: repeated,
    };
    law_get_put(
        t.slots,
        key,
        SlotModel { updated_at: m.now, ledger: place(next.ledger, m.key, entry), ..next },
        key,
    );
    let session = get(s.sessions, k1(m.nonce as int))->Some_0;
    law_get_put(
        s.sessions,
        k1(m.nonce as int),
        SessionModel { last_request_seq: m.request_seq, ..session },
        k1(m.nonce as int),
    );
}

/// A request that was done and is sent again gets what was recorded for it, and
/// nothing is done again.
pub proof fn law_repetition(s: StoreModel, m: Mutation, effect: Effect, again: StoreChange)
    requires
        done(s, m, effect),
    ensures
        verdict(settled(s, m, effect).0, m, again) == (
            settled(s, m, effect).0,
            Ok::<Outcome, StoreError>(effect->Ok_0.2),
        ),
{
    lemma_done(s, m, effect);
    let slot = slot_at(s, m.usn as int)->Some_0;
    law_find_place(
        slot.ledger,
        m.key,
        LedgerModel {
            request_seq: m.request_seq,
            rpc: m.rpc,
            committed_at: m.now,
            answer: effect->Ok_0.2,
        },
        m.key,
    );
}

/// Whether an answer hands out no rewards.
pub open spec fn rewardless(answer: Outcome) -> bool {
    match answer {
        Outcome::ProfileRewards(levels) => levels.len() == 0,
        Outcome::Quest { rewards, .. } => rewards.len() == 0,
        Outcome::Ad { rewards, .. } => rewards.len() == 0,
        Outcome::Event { rewards, .. } => rewards.len() == 0,
        Outcome::Game(_, rewards) => rewards.len() == 0,
        Outcome::Settlement { rewards, .. } => rewards.len() == 0,
        Outcome::Chapter(_, rewards) => rewards.len() == 0,
        Outcome::Stream { rolls, .. } => rolls.len() == 0,
        Outcome::MailGrant(grant) => grant is None,
        Outcome::Purchase { rewards, .. } => rewards.len() == 0,
        Outcome::PassClaim { rewards, .. } => rewards.len() == 0,
        Outcome::Encore { rewards, .. } => rewards.len() == 0,
        _ => true,
    }
}

/// Whether a repetition of a request is answered without rewards.
pub open spec fn rewards_once(effect: Effect) -> bool {
    effect is Ok ==> rewardless(effect->Ok_0.2)
}

/// The commands that give rewards answer with them once: what is recorded for a
/// repetition holds none. Encores are the exception, whose answer is repeated as
/// it was.
pub proof fn law_rewards_answered_once(
    p: PlayerModel,
    m: Mutation,
    rules: Rules,
    levels: ClaimProfileRewards,
    quest: AdvanceQuest,
    ad: GrantAdReward,
    event: ClaimEvent,
    game: ClaimGame,
    stage: SettleStage,
    chapter: ClaimChapter,
    stream: SettleStream,
    mail: ClaimMail,
    purchase: PurchaseRewards,
    pass: ClaimPass<'_>,
)
    ensures
        rewards_once(levels.effect(p, m, rules)),
        rewards_once(quest.effect(p, m, rules)),
        rewards_once(ad.effect(p, m, rules)),
        rewards_once(event.effect(p, m, rules)),
        rewards_once(game.effect(p, m, rules)),
        rewards_once(stage.effect(p, m, rules)),
        rewards_once(chapter.effect(p, m, rules)),
        rewards_once(stream.effect(p, m, rules)),
        rewards_once(mail.effect(p, m, rules)),
        rewards_once(purchase.effect(p, m, rules)),
        rewards_once(pass.effect(p, m, rules)),
{
}

/// A key that was used for one request is refused for any other.
pub proof fn law_key_conflict(
    s: StoreModel,
    m: Mutation,
    effect: Effect,
    other: Mutation,
    change: StoreChange,
)
    requires
        done(s, m, effect),
        other.nonce == m.nonce && other.usn == m.usn && other.user_id == m.user_id,
        other.key == m.key,
        other.request_seq != m.request_seq || other.rpc != m.rpc,
    ensures
        verdict(settled(s, m, effect).0, other, change) == (
            settled(s, m, effect).0,
            Err::<Outcome, StoreError>(StoreError::IdempotencyConflict),
        ),
{
    lemma_done(s, m, effect);
    let slot = slot_at(s, m.usn as int)->Some_0;
    law_find_place(
        slot.ledger,
        m.key,
        LedgerModel {
            request_seq: m.request_seq,
            rpc: m.rpc,
            committed_at: m.now,
            answer: effect->Ok_0.2,
        },
        m.key,
    );
}

/// A new request that is not later than the last one is refused as stale.
pub proof fn law_sequence(
    s: StoreModel,
    m: Mutation,
    effect: Effect,
    other: Mutation,
    change: StoreChange,
)
    requires
        done(s, m, effect),
        other.nonce == m.nonce,
        other.request_seq <= m.request_seq,
        record_of(settled(s, m, effect).0, other) is None,
    ensures
        verdict(settled(s, m, effect).0, other, change) == (
            settled(s, m, effect).0,
            Err::<Outcome, StoreError>(StoreError::Domain(DomainError::StaleRequest)),
        ),
{
    lemma_done(s, m, effect);
}

/// A command changes no slot but that of its request, and of that slot neither
/// the number nor the user id.
pub proof fn law_slots_are_isolated(s: StoreModel, m: Mutation, effect: Effect, other: i64)
    ensures
        other != m.usn ==> slot_at(
            settled(s, m, effect).0,
            other as int,
        ) == slot_at(s, other as int),
        match slot_at(s, other as int) {
            Some(slot) => slot_at(settled(s, m, effect).0, other as int) matches Some(after)
                && after.user_id == slot.user_id && after.display_name == slot.display_name
                && after.created_at == slot.created_at,
            None => slot_at(settled(s, m, effect).0, other as int) is None,
        },
{
    if done(s, m, effect) {
        lemma_done(s, m, effect);
        let (q, answer, repeated) = effect->Ok_0;
        let slot = slot_at(s, m.usn as int)->Some_0;
        let key = k1(m.usn as int);
        let next = SlotModel { player: q, ..slot };
        let t = with_player(s, m.usn as int, q);
        let entry = LedgerModel {
            request_seq: m.request_seq,
            rpc: m.rpc,
            committed_at: m.now,
            answer: repeated,
        };
        law_get_put(s.slots, key, next, key);
        law_get_put(s.slots, key, next, k1(other as int));
        law_get_put(
            t.slots,
            key,
            SlotModel { updated_at: m.now, ledger: place(next.ledger, m.key, entry), ..next },
            k1(other as int),
        );
    }
}

/// A command never changes which slot is in use or about to be, nor whose login
/// any login is, nor whether it has ended.
pub proof fn law_commands_keep_logins(s: StoreModel, m: Mutation, effect: Effect, nonce: i64)
    ensures
        settled(s, m, effect).0.selection == s.selection,
        match get(s.sessions, k1(nonce as int)) {
            Some(session) => get(
                settled(s, m, effect).0.sessions,
                k1(nonce as int),
            ) matches Some(after)
                && after.usn == session.usn && after.ended_at == session.ended_at,
            None => get(settled(s, m, effect).0.sessions, k1(nonce as int)) is None,
        },
{
    if done(s, m, effect) {
        lemma_done(s, m, effect);
        let session = get(s.sessions, k1(m.nonce as int))->Some_0;
        law_get_put(
            s.sessions,
            k1(m.nonce as int),
            SessionModel { last_request_seq: m.request_seq, ..session },
            k1(nonce as int),
        );
    }
}

/// Asking for another slot changes nothing but what the next login uses: the
/// slot in use stays in use until then.
pub proof fn law_switch_waits(s: StoreModel, usn: i64, m: Mutation)
    ensures
        requested(s, usn).selection.active == s.selection.active,
        requested(s, usn).slots == s.slots,
        requested(s, usn).sessions == s.sessions,
        admission(requested(s, usn), m) == admission(s, m),
{
}

/// The login after that uses the slot that was asked for.
pub proof fn law_switch_at_login(s: StoreModel, usn: i64, hash: Seq<u8>, clock: DeviceClock)
    requires
        logged_in(requested(s, usn), hash, clock) is Ok,
    ensures
        ({
            let after = logged_in(requested(s, usn), hash, clock)->Ok_0;
            after.selection.active == Some(usn) && after.selection.pending is None
        }),
{
}

/// A login ends every other login: their requests are refused from then on.
pub proof fn law_login_ends_others(
    s: StoreModel,
    hash: Seq<u8>,
    clock: DeviceClock,
    m: Mutation,
    change: StoreChange,
)
    requires
        logged_in(s, hash, clock) is Ok,
        m.nonce != s.selection.nonce + 1,
    ensures
        ({
            let after = logged_in(s, hash, clock)->Ok_0;
            verdict(after, m, change) == (
                after,
                Err::<Outcome, StoreError>(StoreError::Domain(DomainError::StaleRequest)),
            )
        }),
{
    let usn = next_active(s.selection)->Some_0;
    let nonce = (s.selection.nonce + 1) as i64;
    let before = ended_all(s.sessions, clock.unix_seconds);
    law_get_put(before, k1(nonce as int), fresh_session(usn, hash, clock), k1(m.nonce as int));
    lemma_all_ended(s.sessions, clock.unix_seconds, k1(m.nonce as int));
}

proof fn lemma_all_ended(sessions: Seq<(Key, SessionModel)>, now: i64, key: Key)
    ensures
        get(ended_all(sessions, now), key) matches Some(session) ==> session.ended_at is Some,
    decreases sessions.len(),
{
    let all = ended_all(sessions, now);
    if sessions.len() > 0 {
        assert(all.drop_first() =~= ended_all(sessions.drop_first(), now));
        lemma_all_ended(sessions.drop_first(), now, key);
    }
}

/// A login changes no slot but the one that it uses, and of that one only its
/// season, if it had none.
pub proof fn law_login_keeps_slots(s: StoreModel, hash: Seq<u8>, clock: DeviceClock, other: i64)
    requires
        logged_in(s, hash, clock) is Ok,
    ensures
        ({
            let after = logged_in(s, hash, clock)->Ok_0;
            match slot_at(s, other as int) {
                Some(slot) => slot_at(
                    after,
                    other as int,
                ) matches Some(next) && (next == slot || next == (
                SlotModel { player: anchored(slot.player, clock), ..slot })),
                None => slot_at(after, other as int) is None,
            }
        }),
{
    let usn = next_active(s.selection)->Some_0;
    let slot = slot_at(s, usn as int)->Some_0;
    law_get_put(
        s.slots,
        k1(usn as int),
        SlotModel { player: anchored(slot.player, clock), ..slot },
        k1(other as int),
    );
}

/// Whether the slots of a store have positive numbers, each with the user id
/// that belongs to its number.
pub open spec fn numbered_slots(slots: Seq<(Key, SlotModel)>) -> bool {
    sorted(slots) && forall|i: int|
        0 <= i < slots.len() ==> (#[trigger] slots[i]).0 == k1(slots[i].0.a as int) && slots[i].0.a
            > 0 && slots[i].1.user_id == user_id_of(slots[i].0.a as int)
}

/// A new slot has a number that no slot had, above zero, and leaves the other
/// slots as they were.
pub proof fn law_created_slot(s: StoreModel, display_name: Seq<char>, now: i64, other: i64)
    requires
        numbered_slots(s.slots),
        created(s, display_name, now) is Ok,
    ensures
        ({
            let (after, usn) = created(s, display_name, now)->Ok_0;
            &&& usn > 0
            &&& slot_at(s, usn) is None
            &&& slot_at(after, usn) == Some(fresh_slot(usn, display_name, now))
            &&& other != usn ==> slot_at(after, other as int) == slot_at(s, other as int)
        }),
{
    let (after, usn) = created(s, display_name, now)->Ok_0;
    let slot = fresh_slot(usn, display_name, now);
    law_get_put(s.slots, k1(usn), slot, k1(usn));
    law_get_put(s.slots, k1(usn), slot, k1(other as int));
    if s.slots.len() > 0 {
        assert(s.slots.last().0.a > 0);
        assert forall|i: int| 0 <= i < s.slots.len() implies (#[trigger] s.slots[i]).0 != k1(
            usn,
        ) by {
            if i < s.slots.len() - 1 {
                assert(key_less(s.slots[i].0, s.slots[s.slots.len() - 1].0));
            }
        }
    }
    lemma_absent(s.slots, k1(usn));
}

proof fn lemma_put_numbered(slots: Seq<(Key, SlotModel)>, usn: i64, slot: SlotModel)
    requires
        numbered_slots(slots),
        usn > 0,
        slot.user_id == user_id_of(usn as int),
    ensures
        numbered_slots(put(slots, k1(usn as int), slot)),
{
    let after = put(slots, k1(usn as int), slot);
    law_put_sorted(slots, k1(usn as int), slot);
    assert forall|i: int| 0 <= i < after.len() implies (#[trigger] after[i]).0 == k1(
        after[i].0.a as int,
    ) && after[i].0.a > 0 && after[i].1.user_id == user_id_of(after[i].0.a as int) by {
        lemma_put_members(slots, k1(usn as int), slot, i);
        if after[i] != (k1(usn as int), slot) {
            let j = choose|j: int| 0 <= j < slots.len() && after[i] == #[trigger] slots[j];
            assert(slots[j].0.a > 0);
        }
    }
}

proof fn lemma_put_members<V>(rows: Seq<(Key, V)>, key: Key, v: V, i: int)
    requires
        0 <= i < put(rows, key, v).len(),
    ensures
        put(rows, key, v)[i] == (key, v) || exists|j: int|
            0 <= j < rows.len() && put(rows, key, v)[i] == #[trigger] rows[j],
    decreases rows.len(),
{
    if rows.len() == 0 || key_less(key, rows[0].0) {
        if i > 0 {
            assert(put(rows, key, v)[i] == rows[i - 1]);
        }
    } else if rows[0].0 == key {
        if i > 0 {
            assert(put(rows, key, v)[i] == rows[i]);
        }
    } else {
        let rest = rows.drop_first();
        if i == 0 {
            assert(put(rows, key, v)[0] == rows[0]);
        } else {
            lemma_put_members(rest, key, v, i - 1);
            let w = put(rest, key, v)[i - 1];
            assert(put(rows, key, v)[i] == w);
            if w != (key, v) {
                let j = choose|j: int| 0 <= j < rest.len() && w == #[trigger] rest[j];
                assert(w == rows[j + 1]);
            }
        }
    }
}

proof fn lemma_member<V>(rows: Seq<(Key, V)>, key: Key)
    requires
        get(rows, key) is Some,
    ensures
        exists|i: int| 0 <= i < rows.len() && #[trigger] rows[i] == (key, get(rows, key)->Some_0),
    decreases rows.len(),
{
    if rows[0].0 == key {
        assert(rows[0] == (key, get(rows, key)->Some_0));
    } else {
        lemma_member(rows.drop_first(), key);
        let i = choose|i: int|
            0 <= i < rows.drop_first().len() && #[trigger] rows.drop_first()[i] == (
                key,
                get(rows, key)->Some_0,
            );
        assert(rows[i + 1] == (key, get(rows, key)->Some_0));
    }
}

/// Making a slot, and any command, keep the numbers and the user ids of the
/// slots.
pub proof fn law_slots_stay_numbered(
    s: StoreModel,
    display_name: Seq<char>,
    now: i64,
    m: Mutation,
    effect: Effect,
)
    requires
        numbered_slots(s.slots),
    ensures
        created(s, display_name, now) matches Ok((after, _)) ==> numbered_slots(after.slots),
        numbered_slots(settled(s, m, effect).0.slots),
{
    if created(s, display_name, now) is Ok {
        law_created_slot(s, display_name, now, 0);
        let usn = next_usn(s.slots);
        lemma_put_numbered(s.slots, usn as i64, fresh_slot(usn, display_name, now));
    }
    if done(s, m, effect) {
        lemma_done(s, m, effect);
        let (q, answer, repeated) = effect->Ok_0;
        let slot = slot_at(s, m.usn as int)->Some_0;
        lemma_member(s.slots, k1(m.usn as int));
        let i = choose|i: int|
            0 <= i < s.slots.len() && #[trigger] s.slots[i] == (k1(m.usn as int), slot);
        assert(s.slots[i].0.a == m.usn);
        let next = SlotModel { player: q, ..slot };
        lemma_put_numbered(s.slots, m.usn, next);
        let t = with_player(s, m.usn as int, q);
        law_get_put(s.slots, k1(m.usn as int), next, k1(m.usn as int));
        let entry = LedgerModel {
            request_seq: m.request_seq,
            rpc: m.rpc,
            committed_at: m.now,
            answer: repeated,
        };
        lemma_put_numbered(
            t.slots,
            m.usn,
            SlotModel { updated_at: m.now, ledger: place(next.ledger, m.key, entry), ..next },
        );
    }
}

proof fn lemma_absent<V>(rows: Seq<(Key, V)>, key: Key)
    requires
        forall|i: int| 0 <= i < rows.len() ==> (#[trigger] rows[i]).0 != key,
    ensures
        get(rows, key) is None,
    decreases rows.len(),
{
    if rows.len() > 0 {
        let rest = rows.drop_first();
        assert(rows[0].0 != key);
        assert forall|i: int| 0 <= i < rest.len() implies (#[trigger] rest[i]).0 != key by {
            assert(rest[i] == rows[i + 1]);
        }
        lemma_absent(rest, key);
    }
}

/// A slot that is in use or about to be is never deleted, and deleting a slot
/// leaves the others as they were.
pub proof fn law_deleted_slot(s: StoreModel, usn: i64, typed: Seq<char>, other: i64)
    requires
        sorted(s.slots),
    ensures
        s.selection.active == Some(usn) || s.selection.pending == Some(usn) ==> deleted(
            s,
            usn,
            typed,
        ) is Err,
        deleted(s, usn, typed) matches Ok(after) ==> slot_at(after, usn as int) is None && (other
            != usn ==> slot_at(after, other as int) == slot_at(s, other as int)),
{
    law_get_without(s.slots, k1(usn as int), k1(usn as int));
    law_get_without(s.slots, k1(usn as int), k1(other as int));
}

/// Whether the players of all slots are in order.
pub open spec fn in_order(s: StoreModel) -> bool {
    forall|k: Key|
        match #[trigger] get(s.slots, k) {
            Some(slot) => well_keyed(slot.player),
            None => true,
        }
}

proof fn lemma_put_in_order(slots: Seq<(Key, SlotModel)>, key: Key, slot: SlotModel, k: Key)
    requires
        match get(slots, k) {
            Some(slot) => well_keyed(slot.player),
            None => true,
        },
        well_keyed(slot.player),
    ensures
        match get(put(slots, key, slot), k) {
            Some(slot) => well_keyed(slot.player),
            None => true,
        },
{
    law_get_put(slots, key, slot, k);
}

/// Whatever a request does, the players of a store stay in order.
pub proof fn law_commands_keep_order<C: Command>(s: StoreModel, m: Mutation, command: C)
    requires
        in_order(s),
    ensures
        in_order(settled(s, m, command.effect(player_of(s, m), m, s.rules)).0),
{
    let effect = command.effect(player_of(s, m), m, s.rules);
    if done(s, m, effect) {
        lemma_done(s, m, effect);
        assert(well_keyed(get(s.slots, k1(m.usn as int))->Some_0.player));
        command.keeps_order(player_of(s, m), m, s.rules);
        let (q, _, repeated) = effect->Ok_0;
        let key = k1(m.usn as int);
        let slot = slot_at(s, m.usn as int)->Some_0;
        let next = SlotModel { player: q, ..slot };
        let t = with_player(s, m.usn as int, q);
        law_get_put(s.slots, key, next, key);
        let entry = LedgerModel {
            request_seq: m.request_seq,
            rpc: m.rpc,
            committed_at: m.now,
            answer: repeated,
        };
        let last = SlotModel {
            updated_at: m.now,
            ledger: place(next.ledger, m.key, entry),
            ..next
        };
        let after = settled(s, m, effect).0;
        assert forall|k: Key|
            match #[trigger] get(after.slots, k) {
                Some(slot) => well_keyed(slot.player),
                None => true,
            } by {
            lemma_put_in_order(s.slots, key, next, k);
            lemma_put_in_order(t.slots, key, last, k);
        }
    }
}

/// New slots are in order, and logins and deletions leave the others as they are.
pub proof fn law_slots_keep_order(
    s: StoreModel,
    display_name: Seq<char>,
    now: i64,
    usn: i64,
    hash: Seq<u8>,
    clock: DeviceClock,
)
    requires
        in_order(s),
        sorted(s.slots),
    ensures
        created(s, display_name, now) is Ok ==> in_order(created(s, display_name, now)->Ok_0.0),
        logged_in(s, hash, clock) is Ok ==> in_order(logged_in(s, hash, clock)->Ok_0),
        deleted(s, usn, display_name) is Ok ==> in_order(deleted(s, usn, display_name)->Ok_0),
{
    if let Ok((after, new)) = created(s, display_name, now) {
        law_fresh_in_order(now);
        assert forall|k: Key|
            match #[trigger] get(after.slots, k) {
                Some(slot) => well_keyed(slot.player),
                None => true,
            } by {
            lemma_put_in_order(s.slots, k1(new), fresh_slot(new, display_name, now), k);
        }
    }
    if let Ok(after) = logged_in(s, hash, clock) {
        let active = next_active(s.selection)->Some_0;
        let slot = slot_at(s, active as int)->Some_0;
        assert(well_keyed(get(s.slots, k1(active as int))->Some_0.player));
        let next = SlotModel { player: anchored(slot.player, clock), ..slot };
        assert forall|k: Key|
            match #[trigger] get(after.slots, k) {
                Some(slot) => well_keyed(slot.player),
                None => true,
            } by {
            lemma_put_in_order(s.slots, k1(active as int), next, k);
        }
    }
    if let Ok(after) = deleted(s, usn, display_name) {
        assert forall|k: Key|
            match #[trigger] get(after.slots, k) {
                Some(slot) => well_keyed(slot.player),
                None => true,
            } by {
            law_get_without(s.slots, k1(usn as int), k);
        }
    }
}

} // verus!
