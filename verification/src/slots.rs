//! Save slots and logins: making, choosing and deleting slots.
use crate::command::RpcMutation;
use crate::domain::{DeviceClock, DomainError, LoginSession, UserIdentity, Usn};
use crate::errors::{misfit, misfitting, SqlFault, StoreError};
use crate::fresh::fresh;
use crate::outcome::{Outcome, Summary};
use crate::player::{Player, PlayerModel};
use crate::rows::Anchor;
use crate::store::{
    replied, slot_at, verdict, Database, Selection, SessionModel, SessionRow, SlotModel, SlotRow,
    StoreChange, StoreModel, USER_ID_BASE,
};
use crate::table::{get, in_table, k1, key1, put, without, Key, Row, Table, TextTable};
use crate::text::{decimal, decimal_text, parse_i64, parsed_i64, same_text};
use vstd::prelude::*;

verus! {

/// A slot as a list shows it.
#[derive(Clone, Debug, PartialEq)]
pub struct SlotView {
    pub usn: Usn,
    pub user_id: String,
    pub display_name: String,
    pub created_at: i64,
    pub updated_at: i64,
    pub active: bool,
    pub pending: bool,
}

/// Who a slot belongs to.
pub open spec fn identifies(id: UserIdentity, usn: int, user_id: Seq<char>) -> bool {
    id.usn == usn && id.user_id@ == user_id
}

/// The number after the last slot.
pub open spec fn next_usn(slots: Seq<(Key, SlotModel)>) -> int {
    if slots.len() == 0 {
        1
    } else {
        slots.last().0.a + 1
    }
}

/// The user id of a slot.
pub open spec fn user_id_of(usn: int) -> Seq<char> {
    decimal(USER_ID_BASE + usn)
}

/// A new slot.
pub open spec fn fresh_slot(usn: int, display_name: Seq<char>, now: i64) -> SlotModel {
    SlotModel {
        user_id: user_id_of(usn),
        display_name,
        created_at: now,
        updated_at: now,
        player: fresh(now),
        ledger: Seq::empty(),
    }
}

/// A store with one more slot, which becomes active if none is.
pub open spec fn created(s: StoreModel, display_name: Seq<char>, now: i64) -> Result<
    (StoreModel, int),
    StoreError,
> {
    let usn = next_usn(s.slots);
    if USER_ID_BASE + usn > i64::MAX {
        Err(StoreError::Sql(SqlFault::OutOfRange))
    } else {
        Ok(
            (
                StoreModel {
                    slots: put(s.slots, k1(usn), fresh_slot(usn, display_name, now)),
                    selection: Selection {
                        active: match s.selection.active {
                            Some(active) => Some(active),
                            None => Some(usn as i64),
                        },
                        ..s.selection
                    },
                    ..s
                },
                usn,
            ),
        )
    }
}

/// What making a slot leaves and returns.
pub open spec fn creates(
    before: StoreModel,
    display_name: Seq<char>,
    now: i64,
    after: StoreModel,
    r: Result<UserIdentity, StoreError>,
) -> bool {
    match created(before, display_name, now) {
        Err(e) => r == Err::<UserIdentity, StoreError>(e) && after == before,
        Ok((s, usn)) => after == s && match r {
            Ok(id) => identifies(id, usn, user_id_of(usn)),
            Err(_) => false,
        },
    }
}

/// The logins of other slots.
pub open spec fn sessions_without(sessions: Seq<(Key, SessionModel)>, usn: int) -> Seq<
    (Key, SessionModel),
>
    decreases sessions.len(),
{
    if sessions.len() == 0 {
        sessions
    } else {
        let before = sessions_without(sessions.drop_last(), usn);
        if sessions.last().1.usn == usn {
            before
        } else {
            put(before, sessions.last().0, sessions.last().1)
        }
    }
}

/// A store without a slot, which has to be named and not to be in use or about
/// to be. Everything that belongs to the slot goes with it.
pub open spec fn deleted(s: StoreModel, usn: i64, typed: Seq<char>) -> Result<
    StoreModel,
    StoreError,
> {
    match slot_at(s, usn as int) {
        None => Err(StoreError::MissingSlot(usn)),
        Some(slot) => if slot.display_name != typed {
            Err(StoreError::Domain(DomainError::IdentityMismatch))
        } else if s.selection.active == Some(usn) || s.selection.pending == Some(usn) {
            Err(StoreError::ActiveSlot(usn))
        } else {
            Ok(
                StoreModel {
                    slots: without(s.slots, k1(usn as int)),
                    sessions: sessions_without(s.sessions, usn as int),
                    ..s
                },
            )
        },
    }
}

/// What a method without an answer leaves and returns.
pub open spec fn leaves(
    effect: Result<StoreModel, StoreError>,
    before: StoreModel,
    after: StoreModel,
    r: Result<(), StoreError>,
) -> bool {
    match effect {
        Err(e) => r == Err::<(), StoreError>(e) && after == before,
        Ok(s) => r is Ok && after == s,
    }
}

/// A store whose next login uses a slot.
pub open spec fn requested(s: StoreModel, usn: i64) -> StoreModel {
    StoreModel { selection: Selection { pending: Some(usn), ..s.selection }, ..s }
}

pub open spec fn switch_requested(s: StoreModel, usn: i64) -> Result<StoreModel, StoreError> {
    if slot_at(s, usn as int) is None {
        Err(StoreError::MissingSlot(usn))
    } else {
        Ok(requested(s, usn))
    }
}

/// Whether a text selects a slot: by its user id or by its number.
pub open spec fn selects(selector: Seq<char>, key: Key, slot: SlotModel) -> bool {
    slot.user_id == selector || parsed_i64(selector) == Some(key.a)
}

/// The first slot that a text selects.
pub open spec fn resolved(slots: Seq<(Key, SlotModel)>, selector: Seq<char>) -> Option<
    (Key, SlotModel),
>
    decreases slots.len(),
{
    if slots.len() == 0 {
        None
    } else {
        match resolved(slots.drop_last(), selector) {
            Some(found) => Some(found),
            None => if selects(selector, slots.last().0, slots.last().1) {
                Some(slots.last())
            } else {
                None
            },
        }
    }
}

/// Why a text selects no slot.
pub open spec fn unresolved(selector: Seq<char>) -> StoreError {
    StoreError::MissingSlot(
        match parsed_i64(selector) {
            Some(n) => n,
            None => 0,
        },
    )
}

/// What looking for a slot returns.
pub open spec fn resolves(
    s: StoreModel,
    selector: Seq<char>,
    r: Result<UserIdentity, StoreError>,
) -> bool {
    match resolved(s.slots, selector) {
        Some((key, slot)) => match r {
            Ok(id) => identifies(id, key.a as int, slot.user_id),
            Err(_) => false,
        },
        None => r == Err::<UserIdentity, StoreError>(unresolved(selector)),
    }
}

/// The slots as a list shows them.
pub open spec fn lists(s: StoreModel, i: int, id: UserIdentity) -> bool {
    identifies(id, s.slots[i].0.a as int, s.slots[i].1.user_id)
}

pub open spec fn views(s: StoreModel, i: int, v: SlotView) -> bool {
    let (key, slot) = s.slots[i];
    &&& v.usn == key.a
    &&& v.user_id@ == slot.user_id
    &&& v.display_name@ == slot.display_name
    &&& v.created_at == slot.created_at
    &&& v.updated_at == slot.updated_at
    &&& v.active == (s.selection.active == Some(key.a))
    &&& v.pending == (s.selection.pending == Some(key.a))
}

/// A slot made by a request, as a change of the store.
pub open spec fn create_change(s: StoreModel, display_name: Seq<char>, now: i64) -> StoreChange {
    match created(s, display_name, now) {
        Err(e) => Err(e),
        Ok((after, usn)) => {
            let answer = Outcome::Identity(usn as i64, user_id_of(usn));
            Ok((after, answer, answer))
        },
    }
}

/// A slot deleted by a request, as a change of the store.
pub open spec fn delete_change(s: StoreModel, usn: i64, typed: Seq<char>) -> StoreChange {
    match deleted(s, usn, typed) {
        Err(e) => Err(e),
        Ok(after) => Ok((after, Outcome::Done, Outcome::Done)),
    }
}

/// A switch requested by a request, as a change of the store.
pub open spec fn switch_change(s: StoreModel, selector: Seq<char>) -> StoreChange {
    match resolved(s.slots, selector) {
        None => Err(unresolved(selector)),
        Some((key, slot)) => {
            let answer = Outcome::Identity(key.a, slot.user_id);
            Ok((requested(s, key.a), answer, answer))
        },
    }
}

pub open spec fn identity_outcome(id: UserIdentity) -> Outcome {
    Outcome::Identity(id.usn, id.user_id@)
}

impl Database {
    /// Makes a slot.
    pub fn create_slot(&mut self, display_name: &str, now: i64) -> (r: Result<
        UserIdentity,
        StoreError,
    >)
        ensures
            creates(old(self)@, display_name@, now, final(self)@, r),
    {
        let n: usize = self.slots.len();
        let last: i64 = if n == 0 {
            0
        } else {
            self.slots.key_at(n - 1).a
        };
        if last >= i64::MAX - USER_ID_BASE {
            return Err(StoreError::Sql(SqlFault::OutOfRange));
        }
        let usn: i64 = last + 1;
        let user_id = decimal_text(USER_ID_BASE + usn);
        self.slots.put(
            key1(usn),
            SlotRow {
                user_id: user_id.clone(),
                display_name: display_name.to_owned(),
                created_at: now,
                updated_at: now,
                player: Player::fresh(now),
                ledger: TextTable::new(),
            },
        );
        if !self.selection.active.is_some() {
            self.selection.active = Some(usn);
        }
        Ok(UserIdentity { usn, user_id })
    }

    /// The first slot; it is made if there is none.
    pub fn ensure_default_slot(&mut self, now: i64) -> (r: Result<UserIdentity, StoreError>)
        ensures
            if old(self)@.slots.len() > 0 {
                final(self)@ == old(self)@ && (r matches Ok(id) && lists(old(self)@, 0, id))
            } else {
                creates(old(self)@, "Save 1"@, now, final(self)@, r)
            },
    {
        if self.slots.len() > 0 {
            let user_id = self.slots.row_at(0).user_id.clone();
            return Ok(UserIdentity { usn: self.slots.key_at(0).a, user_id });
        }
        self.create_slot("Save 1", now)
    }

    /// The slots, by number.
    pub fn list_slots(&self) -> (r: Result<Vec<UserIdentity>, StoreError>)
        ensures
            r matches Ok(list) && list@.len() == self@.slots.len() && forall|i: int|
                0 <= i < list@.len() ==> lists(self@, i, #[trigger] list@[i]),
    {
        let mut list: Vec<UserIdentity> = Vec::new();
        let mut i: usize = 0;
        while i < self.slots.len()
            invariant
                i <= self@.slots.len(),
                list@.len() == i,
                forall|j: int| 0 <= j < i ==> lists(self@, j, #[trigger] list@[j]),
            decreases self@.slots.len() - i,
        {
            let user_id = self.slots.row_at(i).user_id.clone();
            list.push(UserIdentity { usn: self.slots.key_at(i).a, user_id });
            i = i + 1;
        }
        Ok(list)
    }

    /// The slots, by number, and which of them is in use or about to be.
    pub fn slot_views(&self) -> (r: Result<Vec<SlotView>, StoreError>)
        ensures
            r matches Ok(list) && list@.len() == self@.slots.len() && forall|i: int|
                0 <= i < list@.len() ==> views(self@, i, #[trigger] list@[i]),
    {
        let mut list: Vec<SlotView> = Vec::new();
        let mut i: usize = 0;
        while i < self.slots.len()
            invariant
                i <= self@.slots.len(),
                list@.len() == i,
                forall|j: int| 0 <= j < i ==> views(self@, j, #[trigger] list@[j]),
            decreases self@.slots.len() - i,
        {
            let usn: i64 = self.slots.key_at(i).a;
            let slot = self.slots.row_at(i);
            list.push(
                SlotView {
                    usn,
                    user_id: slot.user_id.clone(),
                    display_name: slot.display_name.clone(),
                    created_at: slot.created_at,
                    updated_at: slot.updated_at,
                    active: is_slot(self.selection.active, usn),
                    pending: is_slot(self.selection.pending, usn),
                },
            );
            i = i + 1;
        }
        Ok(list)
    }

    /// Lets the next login use a slot.
    pub fn request_switch(&mut self, usn: Usn) -> (r: Result<(), StoreError>)
        ensures
            leaves(switch_requested(old(self)@, usn), old(self)@, final(self)@, r),
    {
        if !self.slots.contains(key1(usn)) {
            return Err(StoreError::MissingSlot(usn));
        }
        self.selection.pending = Some(usn);
        Ok(())
    }

    /// Deletes a slot that is not in use.
    pub fn delete_inactive_slot(&mut self, usn: Usn, typed_display_name: &str) -> (r: Result<
        (),
        StoreError,
    >)
        ensures
            leaves(deleted(old(self)@, usn, typed_display_name@), old(self)@, final(self)@, r),
    {
        match self.slots.get(key1(usn)) {
            None => {
                return Err(StoreError::MissingSlot(usn));
            },
            Some(slot) => {
                if !same_text(slot.display_name.as_str(), typed_display_name) {
                    return Err(StoreError::Domain(DomainError::IdentityMismatch));
                }
            },
        }
        if is_slot(self.selection.active, usn) || is_slot(self.selection.pending, usn) {
            return Err(StoreError::ActiveSlot(usn));
        }
        self.slots.remove(key1(usn));
        let kept = other_sessions(&self.sessions, usn);
        self.sessions = kept;
        Ok(())
    }

    fn find_slot(&self, selector: &str) -> (r: Result<UserIdentity, StoreError>)
        ensures
            resolves(self@, selector@, r),
    {
        let numeric: Option<i64> = parse_i64(selector);
        let mut i: usize = 0;
        proof {
            assert(self@.slots.take(0) =~= Seq::empty());
        }
        while i < self.slots.len()
            invariant
                i <= self@.slots.len(),
                numeric == parsed_i64(selector@),
                resolved(self@.slots.take(i as int), selector@) is None,
            decreases self@.slots.len() - i,
        {
            proof {
                assert(self@.slots.take(i + 1).drop_last() =~= self@.slots.take(i as int));
            }
            let usn: i64 = self.slots.key_at(i).a;
            let slot = self.slots.row_at(i);
            if same_text(slot.user_id.as_str(), selector) || is_slot(numeric, usn) {
                proof {
                    lemma_resolved(self@.slots, selector@, i + 1);
                }
                return Ok(UserIdentity { usn, user_id: slot.user_id.clone() });
            }
            i = i + 1;
        }
        proof {
            assert(self@.slots.take(i as int) =~= self@.slots);
        }
        Err(
            StoreError::MissingSlot(
                match numeric {
                    Some(n) => n,
                    None => 0,
                },
            ),
        )
    }

    /// The slot with a user id or a number.
    pub fn resolve_slot(&self, selector: &str) -> (r: Result<UserIdentity, StoreError>)
        ensures
            resolves(self@, selector@, r),
    {
        self.find_slot(selector)
    }

    /// Makes a slot for a request.
    pub fn create_slot_rpc(&mut self, mutation: &RpcMutation, display_name: &str) -> (r: Result<
        UserIdentity,
        StoreError,
    >)
        ensures
            replied(
                verdict(
                    old(self)@,
                    mutation@,
                    create_change(old(self)@, display_name@, mutation@.now),
                ),
                final(self)@,
                r,
                |id: UserIdentity| identity_outcome(id),
                |o: Outcome| o is Identity,
            ),
    {
        match self.judge(mutation) {
            Err(e) => {
                return Err(e);
            },
            Ok(Some(summary)) => {
                return identity_of(summary);
            },
            Ok(None) => {},
        }
        let mut next = self.dup();
        let id = match next.create_slot(display_name, mutation.committed_at) {
            Ok(id) => id,
            Err(e) => {
                return Err(e);
            },
        };
        let answer = UserIdentity { usn: id.usn, user_id: id.user_id.clone() };
        match next.record(mutation, Summary::Identity(answer)) {
            Err(e) => Err(e),
            Ok(()) => {
                *self = next;
                Ok(id)
            },
        }
    }

    /// Deletes a slot for a request.
    pub fn delete_inactive_slot_rpc(
        &mut self,
        mutation: &RpcMutation,
        usn: Usn,
        typed_display_name: &str,
    ) -> (r: Result<(), StoreError>)
        ensures
            replied(
                verdict(
                    old(self)@,
                    mutation@,
                    delete_change(old(self)@, usn, typed_display_name@),
                ),
                final(self)@,
                r,
                |u: ()| Outcome::Done,
                |o: Outcome| o is Done,
            ),
    {
        match self.judge(mutation) {
            Err(e) => {
                return Err(e);
            },
            Ok(Some(summary)) => {
                return match summary {
                    Summary::Done => Ok(()),
                    _ => Err(misfitting()),
                };
            },
            Ok(None) => {},
        }
        let mut next = self.dup();
        match next.delete_inactive_slot(usn, typed_display_name) {
            Ok(()) => {},
            Err(e) => {
                return Err(e);
            },
        }
        match next.record(mutation, Summary::Done) {
            Err(e) => Err(e),
            Ok(()) => {
                *self = next;
                Ok(())
            },
        }
    }

    /// Lets the next login use a slot, for a request.
    pub fn request_switch_rpc(&mut self, mutation: &RpcMutation, selector: &str) -> (r: Result<
        UserIdentity,
        StoreError,
    >)
        ensures
            replied(
                verdict(old(self)@, mutation@, switch_change(old(self)@, selector@)),
                final(self)@,
                r,
                |id: UserIdentity| identity_outcome(id),
                |o: Outcome| o is Identity,
            ),
    {
        match self.judge(mutation) {
            Err(e) => {
                return Err(e);
            },
            Ok(Some(summary)) => {
                return identity_of(summary);
            },
            Ok(None) => {},
        }
        let id = match self.find_slot(selector) {
            Ok(id) => id,
            Err(e) => {
                return Err(e);
            },
        };
        let mut next = self.dup();
        next.selection.pending = Some(id.usn);
        let answer = UserIdentity { usn: id.usn, user_id: id.user_id.clone() };
        match next.record(mutation, Summary::Identity(answer)) {
            Err(e) => Err(e),
            Ok(()) => {
                *self = next;
                Ok(id)
            },
        }
    }
}

fn is_slot(v: Option<i64>, usn: i64) -> (r: bool)
    ensures
        r == (v == Some(usn)),
{
    match v {
        Some(n) => n == usn,
        None => false,
    }
}

fn identity_of(summary: Summary) -> (r: Result<UserIdentity, StoreError>)
    ensures
        match r {
            Ok(id) => summary@ == identity_outcome(id),
            Err(e) => !(summary@ is Identity) && (e matches StoreError::InvalidReplay(text)
                && text@ == misfit()),
        },
{
    match summary {
        Summary::Identity(id) => Ok(id),
        _ => Err(misfitting()),
    }
}

fn other_sessions(sessions: &Table<SessionRow>, usn: i64) -> (t: Table<SessionRow>)
    ensures
        t@ == sessions_without(sessions@, usn as int),
{
    let mut t: Table<SessionRow> = Table::new();
    let mut i: usize = 0;
    proof {
        assert(sessions@.take(0) =~= Seq::empty());
    }
    while i < sessions.len()
        invariant
            i <= sessions@.len(),
            t@ == sessions_without(sessions@.take(i as int), usn as int),
        decreases sessions@.len() - i,
    {
        proof {
            assert(sessions@.take(i + 1).drop_last() =~= sessions@.take(i as int));
        }
        let row = sessions.row_at(i);
        if row.usn != usn {
            t.put(sessions.key_at(i), row.dup());
        }
        i = i + 1;
    }
    proof {
        assert(sessions@.take(i as int) =~= sessions@);
    }
    t
}

proof fn lemma_resolved(slots: Seq<(Key, SlotModel)>, selector: Seq<char>, i: int)
    requires
        0 <= i <= slots.len(),
        resolved(slots.take(i), selector) is Some,
    ensures
        resolved(slots, selector) == resolved(slots.take(i), selector),
    decreases slots.len() - i,
{
    if i < slots.len() {
        assert(slots.take(i + 1).drop_last() =~= slots.take(i));
        lemma_resolved(slots, selector, i + 1);
    } else {
        assert(slots.take(i) =~= slots);
    }
}

/// The logins after all that were open have ended.
pub open spec fn ended_all(
    sessions: Seq<(Key, SessionModel)>,
    now: i64,
) -> Seq<(Key, SessionModel)> {
    sessions.map_values(
        |e: (Key, SessionModel)|
            if e.1.ended_at is None {
                (e.0, SessionModel { ended_at: Some(now), ..e.1 })
            } else {
                e
            },
    )
}

/// A login that has just begun.
pub open spec fn fresh_session(usn: i64, hash: Seq<u8>, clock: DeviceClock) -> SessionModel {
    SessionModel {
        usn,
        capability_hash: hash,
        started_at: clock.unix_seconds,
        utc_offset_minutes: clock.utc_offset_minutes,
        ended_at: None,
        last_request_seq: 0,
    }
}

/// A player with a current season, from today on if there was none.
pub open spec fn anchored(p: PlayerModel, clock: DeviceClock) -> PlayerModel {
    match p.anchor {
        Some(_) => p,
        None => PlayerModel {
            anchor: Some(
                Anchor {
                    local_day: clock.local_day() as i64,
                    season: (clock.local_day() % 13 + 1) as i64,
                    utc_offset_minutes: clock.utc_offset_minutes,
                    updated_at: clock.unix_seconds,
                },
            ),
            ..p
        },
    }
}

/// The slot that the next login uses.
pub open spec fn next_active(s: Selection) -> Option<Usn> {
    match s.pending {
        Some(usn) => Some(usn),
        None => s.active,
    }
}

/// A store after a login to a slot.
pub open spec fn entered(
    s: StoreModel,
    usn: i64,
    slot: SlotModel,
    hash: Seq<u8>,
    clock: DeviceClock,
) -> StoreModel {
    let nonce = (s.selection.nonce + 1) as i64;
    StoreModel {
        selection: Selection { active: Some(usn), pending: None, nonce },
        slots: put(
            s.slots,
            k1(usn as int),
            SlotModel { player: anchored(slot.player, clock), ..slot },
        ),
        sessions: put(
            ended_all(s.sessions, clock.unix_seconds),
            k1(nonce as int),
            fresh_session(usn, hash, clock),
        ),
        ..s
    }
}

/// A store after a login: the slot that was asked for becomes active, and every
/// other login ends.
pub open spec fn logged_in(s: StoreModel, hash: Seq<u8>, clock: DeviceClock) -> Result<
    StoreModel,
    StoreError,
> {
    match next_active(s.selection) {
        None => Err(StoreError::NoActiveSlot),
        Some(usn) => if s.selection.nonce == i64::MAX {
            Err(StoreError::NoActiveSlot)
        } else {
            match slot_at(s, usn as int) {
                None => Err(StoreError::Sql(SqlFault::NoRows)),
                Some(slot) => if in_table(s.sessions, k1(s.selection.nonce + 1)) {
                    Err(StoreError::Sql(SqlFault::Taken))
                } else {
                    Ok(entered(s, usn, slot, hash, clock))
                },
            }
        },
    }
}

/// What a login returns.
pub open spec fn opens(before: StoreModel, clock: DeviceClock, login: LoginSession) -> bool {
    match next_active(before.selection) {
        Some(usn) => match slot_at(before, usn as int) {
            Some(slot) => {
                &&& identifies(login.identity, usn as int, slot.user_id)
                &&& login.nonce == before.selection.nonce + 1
                &&& login.capability@.len() == 0
                &&& login.clock == clock
            },
            None => false,
        },
        None => false,
    }
}

/// The logins after one of them has ended.
pub open spec fn ended(sessions: Seq<(Key, SessionModel)>, nonce: int, now: i64) -> Seq<
    (Key, SessionModel),
> {
    match get(sessions, k1(nonce)) {
        Some(session) => match session.ended_at {
            Some(_) => sessions,
            None => put(
                sessions,
                k1(nonce),
                SessionModel { ended_at: Some(now), ..session },
            ),
        },
        None => sessions,
    }
}

fn end_sessions(sessions: &mut Table<SessionRow>, now: i64)
    ensures
        final(sessions)@ == ended_all(old(sessions)@, now),
{
    let ghost start = sessions@;
    let ghost goal = ended_all(start, now);
    let n: usize = sessions.len();
    let mut i: usize = 0;
    while i < n
        invariant
            i <= n == start.len(),
            goal == ended_all(start, now),
            sessions@.len() == n,
            forall|j: int| 0 <= j < i ==> #[trigger] sessions@[j] == goal[j],
            forall|j: int| i <= j < n ==> #[trigger] sessions@[j] == start[j],
        decreases n - i,
    {
        let ghost before = sessions@;
        let row = sessions.row_at(i);
        proof {
            assert(before[i as int] == start[i as int]);
        }
        if !row.ended_at.is_some() {
            let mut next = row.dup();
            next.ended_at = Some(now);
            sessions.put_at(i, next);
        }
        i = i + 1;
    }
    proof {
        assert(sessions@ =~= goal);
    }
}

impl Database {
    /// A copy of the store.
    pub fn dup(&self) -> (db: Database)
        ensures
            db@ == self@,
    {
        Database {
            selection: self.selection,
            slots: self.slots.dup(),
            sessions: self.sessions.dup(),
            reward_rules: crate::consume_reward::RewardRules {
                costume_fan_bonuses: self.reward_rules.costume_fan_bonuses.dup(),
            },
        }
    }

    /// Begins a login.
    pub fn begin_login(&mut self, capability_hash: &[u8], clock: DeviceClock) -> (r: Result<
        LoginSession,
        StoreError,
    >)
        requires
            clock.representable(),
        ensures
            match logged_in(old(self)@, capability_hash@, clock) {
                Err(e) => r == Err::<LoginSession, StoreError>(e) && final(self)@ == old(self)@,
                Ok(s) => final(self)@ == s && match r {
                    Ok(login) => opens(old(self)@, clock, login),
                    Err(_) => false,
                },
            },
    {
        let chosen: Option<i64> = match self.selection.pending {
            Some(usn) => Some(usn),
            None => self.selection.active,
        };
        let usn: i64 = match chosen {
            Some(usn) => usn,
            None => {
                return Err(StoreError::NoActiveSlot);
            },
        };
        if self.selection.nonce == i64::MAX {
            return Err(StoreError::NoActiveSlot);
        }
        let nonce: i64 = self.selection.nonce + 1;
        let mut slot = match self.slots.get(key1(usn)) {
            Some(slot) => slot.dup(),
            None => {
                return Err(StoreError::Sql(SqlFault::NoRows));
            },
        };
        if self.sessions.contains(key1(nonce)) {
            return Err(StoreError::Sql(SqlFault::Taken));
        }
        let user_id = slot.user_id.clone();
        let day: i64 = clock.local_epoch_day();
        if !slot.player.anchor.is_some() {
            let turn: i64 = match day.checked_rem_euclid(13) {
                Some(turn) => turn,
                None => 0,
            };
            slot.player.anchor = Some(
                Anchor {
                    local_day: day,
                    season: turn + 1,
                    utc_offset_minutes: clock.utc_offset_minutes,
                    updated_at: clock.unix_seconds,
                },
            );
        }
        self.slots.put(key1(usn), slot);
        end_sessions(&mut self.sessions, clock.unix_seconds);
        self.sessions.put(
            key1(nonce),
            SessionRow {
                usn,
                capability_hash: crate::lists::copied(capability_hash),
                started_at: clock.unix_seconds,
                utc_offset_minutes: clock.utc_offset_minutes,
                ended_at: None,
                last_request_seq: 0,
            },
        );
        self.selection = Selection { active: Some(usn), pending: None, nonce };
        let capability = String::new();
        Ok(LoginSession { identity: UserIdentity { usn, user_id }, nonce, capability, clock })
    }

    /// Ends a login.
    pub fn end_session(&mut self, nonce: i64, now: i64) -> (r: Result<(), StoreError>)
        ensures
            r is Ok,
            final(self)@ == (StoreModel {
                sessions: ended(old(self)@.sessions, nonce as int, now),
                ..old(self)@
            }),
    {
        let known: Option<SessionRow> = match self.sessions.get(key1(nonce)) {
            Some(session) => Some(session.dup()),
            None => None,
        };
        if let Some(mut session) = known {
            if !session.ended_at.is_some() {
                session.ended_at = Some(now);
                self.sessions.put(key1(nonce), session);
            }
        }
        Ok(())
    }
}

} // verus!
