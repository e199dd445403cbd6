//! The store: save slots, logins and the commands of players.
//!
//! A command is one transaction. Either everything that it does is kept, with
//! the answer that a repeated request gets, or nothing is.
use crate::command::{Command, Effect, Mutation, RpcMutation, Rules};
use crate::consume_reward::RewardRules;
use crate::domain::{DomainError, Usn};
use crate::errors::{misfit, SqlFault, StoreError};
use crate::outcome::{Outcome, Summary};
use crate::player::{Player, PlayerModel};
use crate::table::{
    find, get, k1, key1, law_get_put, place, put, without, Key, Row, Table, TextTable,
};

use vstd::prelude::*;

verus! {

/// User ids are the numbers of slots, counted from here.
pub const USER_ID_BASE: i64 = 1_788_360_000_000;

/// The version of the tables.
pub const DATABASE_SCHEMA_VERSION: i64 = 4;

/// What is to be done with a file that was opened.
#[derive(Clone, Copy, Debug, PartialEq, Eq, Structural)]
pub enum Opening {
    /// It is empty: the tables are to be made.
    Create,
    /// It can be used as it is.
    Ready,
}

/// Decides on a file by its own check and by the version of its tables.
pub fn opening(integrity: &str, version: i64) -> (r: Result<Opening, StoreError>)
    ensures
        match r {
            Ok(todo) => integrity@ == "ok"@ && (if version == 0 {
                todo == Opening::Create
            } else {
                todo == Opening::Ready && version == DATABASE_SCHEMA_VERSION
            }),
            Err(StoreError::Integrity(text)) => integrity@ != "ok"@ && text@ == integrity@,
            Err(e) => integrity@ == "ok"@ && version != 0 && version != DATABASE_SCHEMA_VERSION && e
                == StoreError::UnsupportedSchema {
                actual: version,
                expected: DATABASE_SCHEMA_VERSION,
            },
        },
{
    if !crate::text::same_text(integrity, "ok") {
        return Err(StoreError::Integrity(integrity.to_owned()));
    }
    if version == 0 {
        Ok(Opening::Create)
    } else if version != DATABASE_SCHEMA_VERSION {
        Err(
            StoreError::UnsupportedSchema { actual: version, expected: DATABASE_SCHEMA_VERSION },
        )
    } else {
        Ok(Opening::Ready)
    }
}

/// Which slot is in use, which one is to be used next, and how many logins
/// there were.
#[derive(Clone, Copy, Debug, PartialEq, Eq, Structural)]
pub struct Selection {
    pub active: Option<Usn>,
    pub pending: Option<Usn>,
    pub nonce: i64,
}

/// A request that was done, and what a repetition of it is answered.
pub struct LedgerRow {
    pub request_seq: i64,
    pub rpc: String,
    pub committed_at: i64,
    pub summary: Summary,
}

/// A request that was done, as a mathematical value.
pub ghost struct LedgerModel {
    pub request_seq: i64,
    pub rpc: Seq<char>,
    pub committed_at: i64,
    pub answer: Outcome,
}

impl Row for LedgerRow {
    type M = LedgerModel;

    open spec fn model(&self) -> LedgerModel {
        LedgerModel {
            request_seq: self.request_seq,
            rpc: self.rpc@,
            committed_at: self.committed_at,
            answer: self.summary@,
        }
    }

    fn dup(&self) -> (r: LedgerRow) {
        LedgerRow {
            request_seq: self.request_seq,
            rpc: self.rpc.clone(),
            committed_at: self.committed_at,
            summary: self.summary.dup(),
        }
    }
}

/// A save slot.
pub struct SlotRow {
    pub user_id: String,
    pub display_name: String,
    pub created_at: i64,
    pub updated_at: i64,
    pub player: Player,
    /// By key: the requests that were done.
    pub ledger: TextTable<LedgerRow>,
}

/// A save slot, as a mathematical value.
pub ghost struct SlotModel {
    pub user_id: Seq<char>,
    pub display_name: Seq<char>,
    pub created_at: i64,
    pub updated_at: i64,
    pub player: PlayerModel,
    pub ledger: Seq<(Seq<char>, LedgerModel)>,
}

impl Row for SlotRow {
    type M = SlotModel;

    open spec fn model(&self) -> SlotModel {
        SlotModel {
            user_id: self.user_id@,
            display_name: self.display_name@,
            created_at: self.created_at,
            updated_at: self.updated_at,
            player: self.player@,
            ledger: self.ledger@,
        }
    }

    fn dup(&self) -> (r: SlotRow) {
        SlotRow {
            user_id: self.user_id.clone(),
            display_name: self.display_name.clone(),
            created_at: self.created_at,
            updated_at: self.updated_at,
            player: self.player.dup(),
            ledger: self.ledger.dup(),
        }
    }
}

/// A login.
pub struct SessionRow {
    pub usn: Usn,
    pub capability_hash: Vec<u8>,
    pub started_at: i64,
    pub utc_offset_minutes: i32,
    pub ended_at: Option<i64>,
    pub last_request_seq: i64,
}

/// A login, as a mathematical value.
pub ghost struct SessionModel {
    pub usn: Usn,
    pub capability_hash: Seq<u8>,
    pub started_at: i64,
    pub utc_offset_minutes: i32,
    pub ended_at: Option<i64>,
    pub last_request_seq: i64,
}

impl Row for SessionRow {
    type M = SessionModel;

    open spec fn model(&self) -> SessionModel {
        SessionModel {
            usn: self.usn,
            capability_hash: self.capability_hash@,
            started_at: self.started_at,
            utc_offset_minutes: self.utc_offset_minutes,
            ended_at: self.ended_at,
            last_request_seq: self.last_request_seq,
        }
    }

    fn dup(&self) -> (r: SessionRow) {
        SessionRow {
            usn: self.usn,
            capability_hash: crate::lists::copies(&self.capability_hash),
            started_at: self.started_at,
            utc_offset_minutes: self.utc_offset_minutes,
            ended_at: self.ended_at,
            last_request_seq: self.last_request_seq,
        }
    }
}

/// The save slots and the logins of one server.
pub struct Database {
    pub selection: Selection,
    /// By number: the save slots.
    pub slots: Table<SlotRow>,
    /// By number: the logins.
    pub sessions: Table<SessionRow>,
    pub reward_rules: RewardRules,
}

/// The save slots and the logins, as a mathematical value.
pub ghost struct StoreModel {
    pub selection: Selection,
    pub slots: Seq<(Key, SlotModel)>,
    pub sessions: Seq<(Key, SessionModel)>,
    pub rules: Rules,
}

impl View for Database {
    type V = StoreModel;

    open spec fn view(&self) -> StoreModel {
        StoreModel {
            selection: self.selection,
            slots: self.slots@,
            sessions: self.sessions@,
            rules: self.reward_rules@,
        }
    }
}

/// A store without slots.
pub open spec fn empty_store() -> StoreModel {
    StoreModel {
        selection: Selection { active: None, pending: None, nonce: 0 },
        slots: Seq::empty(),
        sessions: Seq::empty(),
        rules: Seq::empty(),
    }
}

/// Whether bonuses of costumes can be used.
pub open spec fn usable_rules(rules: Rules) -> bool {
    forall|i: int|
        0 <= i < rules.len() ==> (#[trigger] rules[i]).0.a > 0 && 1 <= rules[i].1.area <= 2
            && rules[i].1.bonus.amount()
}

/// The slot with a number.
pub open spec fn slot_at(s: StoreModel, usn: int) -> Option<SlotModel> {
    get(s.slots, k1(usn))
}

/// Whether a request belongs to the login that is open.
pub open spec fn authorized(s: StoreModel, m: Mutation) -> bool {
    match get(s.sessions, k1(m.nonce as int)) {
        Some(session) => session.usn == m.usn && session.ended_at is None && match slot_at(
            s,
            m.usn as int,
        ) {
            Some(slot) => slot.user_id == m.user_id,
            None => false,
        },
        None => false,
    }
}

/// What becomes of a request before anything is done.
pub ghost enum Admission {
    /// It is refused.
    Refused(StoreError),
    /// It was done before, and is answered again.
    Replay(Outcome),
    /// It is to be done.
    Fresh,
}

/// What was recorded under the key of a request.
pub open spec fn record_of(s: StoreModel, m: Mutation) -> Option<LedgerModel> {
    match slot_at(s, m.usn as int) {
        Some(slot) => find(slot.ledger, m.key),
        None => None,
    }
}

/// The last request of a login.
pub open spec fn last_seq(s: StoreModel, nonce: i64) -> int {
    match get(s.sessions, k1(nonce as int)) {
        Some(session) => session.last_request_seq as int,
        None => 0,
    }
}

pub open spec fn admission(s: StoreModel, m: Mutation) -> Admission {
    if !authorized(s, m) {
        Admission::Refused(StoreError::Domain(DomainError::StaleRequest))
    } else {
        match record_of(s, m) {
            Some(entry) => if entry.request_seq != m.request_seq || entry.rpc != m.rpc {
                Admission::Refused(StoreError::IdempotencyConflict)
            } else {
                Admission::Replay(entry.answer)
            },
            None => if last_seq(s, m.nonce) < m.request_seq {
                Admission::Fresh
            } else {
                Admission::Refused(StoreError::Domain(DomainError::StaleRequest))
            },
        }
    }
}

/// A change of the store, with its answer and what a repetition is answered.
pub type StoreChange = Result<(StoreModel, Outcome, Outcome), StoreError>;

/// The logins after one of them sent a request.
pub open spec fn counted(
    sessions: Seq<(Key, SessionModel)>,
    m: Mutation,
) -> Seq<(Key, SessionModel)> {
    match get(sessions, k1(m.nonce as int)) {
        Some(session) => put(
            sessions,
            k1(m.nonce as int),
            SessionModel { last_request_seq: m.request_seq, ..session },
        ),
        None => sessions,
    }
}

/// The store with a request recorded.
pub open spec fn recorded(s: StoreModel, m: Mutation, repeated: Outcome) -> Result<
    StoreModel,
    StoreError,
> {
    match slot_at(s, m.usn as int) {
        None => Err(StoreError::Sql(SqlFault::ForeignKey)),
        Some(slot) => Ok(
            StoreModel {
                slots: put(
                    s.slots,
                    k1(m.usn as int),
                    SlotModel {
                        updated_at: m.now,
                        ledger: place(
                            slot.ledger,
                            m.key,
                            LedgerModel {
                                request_seq: m.request_seq,
                                rpc: m.rpc,
                                committed_at: m.now,
                                answer: repeated,
                            },
                        ),
                        ..slot
                    },
                ),
                sessions: counted(s.sessions, m),
                ..s
            },
        ),
    }
}

/// The store after a request, and its answer.
pub open spec fn verdict(before: StoreModel, m: Mutation, change: StoreChange) -> (
    StoreModel,
    Result<Outcome, StoreError>,
) {
    match admission(before, m) {
        Admission::Refused(e) => (before, Err(e)),
        Admission::Replay(answer) => (before, Ok(answer)),
        Admission::Fresh => match change {
            Err(e) => (before, Err(e)),
            Ok((s, answer, repeated)) => match recorded(s, m, repeated) {
                Err(e) => (before, Err(e)),
                Ok(after) => (after, Ok(answer)),
            },
        },
    }
}

/// The store with another state of a player.
pub open spec fn with_player(s: StoreModel, usn: int, player: PlayerModel) -> StoreModel {
    match slot_at(s, usn) {
        Some(slot) => StoreModel {
            slots: put(s.slots, k1(usn), SlotModel { player, ..slot }),
            ..s
        },
        None => s,
    }
}

/// The player that a request is about.
pub open spec fn player_of(s: StoreModel, m: Mutation) -> PlayerModel {
    slot_at(s, m.usn as int)->Some_0.player
}

/// A command as a change of the store.
pub open spec fn player_change(s: StoreModel, m: Mutation, effect: Effect) -> StoreChange {
    match effect {
        Err(e) => Err(e),
        Ok((q, answer, repeated)) => Ok((with_player(s, m.usn as int, q), answer, repeated)),
    }
}

/// A command whose first answer is also that to a repetition.
pub open spec fn repeating(effect: Effect) -> Effect {
    match effect {
        Err(e) => Err(e),
        Ok((q, answer, _)) => Ok((q, answer, answer)),
    }
}

/// What a request leaves and returns.
pub open spec fn concluded(
    v: (StoreModel, Result<Outcome, StoreError>),
    after: StoreModel,
    r: Result<Summary, StoreError>,
) -> bool {
    after == v.0 && match v.1 {
        Ok(answer) => match r {
            Ok(summary) => summary@ == answer,
            Err(_) => false,
        },
        Err(e) => r == Err::<Summary, StoreError>(e),
    }
}

/// What a request for a value of one type leaves and returns. What was recorded
/// as another type is no answer.
pub open spec fn replied<T>(
    v: (StoreModel, Result<Outcome, StoreError>),
    after: StoreModel,
    r: Result<T, StoreError>,
    outcome: spec_fn(T) -> Outcome,
    fits: spec_fn(Outcome) -> bool,
) -> bool {
    after == v.0 && match v.1 {
        Ok(answer) => match r {
            Ok(value) => outcome(value) == answer,
            Err(e) => !fits(answer) && (e matches StoreError::InvalidReplay(text) && text@
                == misfit()),
        },
        Err(e) => r == Err::<T, StoreError>(e),
    }
}

/// The outcome of a command on the player of a request.
pub open spec fn settled(s: StoreModel, m: Mutation, effect: Effect) -> (
    StoreModel,
    Result<Outcome, StoreError>,
) {
    verdict(s, m, player_change(s, m, effect))
}

impl Database {
    /// A store without slots.
    pub fn open_memory() -> (r: Result<Database, StoreError>)
        ensures
            r matches Ok(db) && db@ == empty_store(),
    {
        Ok(
            Database {
                selection: Selection { active: None, pending: None, nonce: 0 },
                slots: Table::new(),
                sessions: Table::new(),
                reward_rules: RewardRules::new(),
            },
        )
    }

    /// Takes over the bonuses of costumes, if they can be used.
    pub fn configure_reward_rules(&mut self, rules: RewardRules) -> (r: Result<(), StoreError>)
        ensures
            if usable_rules(rules@) {
                r is Ok && final(self)@ == (StoreModel { rules: rules@, ..old(self)@ })
            } else {
                r == Err::<(), StoreError>(StoreError::Domain(DomainError::InvalidAmount))
                    && final(self)@ == old(self)@
            },
    {
        let mut i: usize = 0;
        while i < rules.costume_fan_bonuses.len()
            invariant
                i <= rules@.len(),
                forall|j: int|
                    0 <= j < i ==> (#[trigger] rules@[j]).0.a > 0 && 1 <= rules@[j].1.area <= 2
                        && rules@[j].1.bonus.amount(),
                self@ == old(self)@,
            decreases rules@.len() - i,
        {
            let key = rules.costume_fan_bonuses.key_at(i);
            let row = rules.costume_fan_bonuses.row_at(i).0;
            proof {
                assert(rules@[i as int] == (key, row));
            }
            if key.a <= 0 || row.area < 1 || row.area > 2 || !row.bonus.is_amount() {
                return Err(StoreError::Domain(DomainError::InvalidAmount));
            }
            i = i + 1;
        }
        self.reward_rules = rules;
        Ok(())
    }

    fn is_authorized(&self, m: &RpcMutation) -> (r: bool)
        ensures
            r == authorized(self@, m@),
    {
        match self.sessions.get(key1(m.nonce)) {
            Some(session) => session.usn == m.identity.usn && !session.ended_at.is_some()
                && match self.slots.get(key1(m.identity.usn)) {
                Some(slot) => slot.user_id == m.identity.user_id,
                None => false,
            },
            None => false,
        }
    }

    /// What becomes of a request: it is refused, answered again, or to be done.
    pub(crate) fn judge(&self, m: &RpcMutation) -> (r: Result<Option<Summary>, StoreError>)
        ensures
            match admission(self@, m@) {
                Admission::Refused(e) => r == Err::<Option<Summary>, StoreError>(e),
                Admission::Replay(answer) => r matches Ok(Some(summary)) && summary@ == answer,
                Admission::Fresh => r matches Ok(None),
            },
            admission(self@, m@) is Fresh ==> slot_at(self@, m@.usn as int) is Some,
    {
        if !self.is_authorized(m) {
            return Err(StoreError::Domain(DomainError::StaleRequest));
        }
        if let Some(slot) = self.slots.get(key1(m.identity.usn)) {
            if let Some(entry) = slot.ledger.find(&m.idempotency_key) {
                if entry.request_seq != m.request_seq || entry.rpc != m.rpc {
                    return Err(StoreError::IdempotencyConflict);
                }
                return Ok(Some(entry.summary.dup()));
            }
        }
        let last: i64 = match self.sessions.get(key1(m.nonce)) {
            Some(session) => session.last_request_seq,
            None => 0,
        };
        if last < m.request_seq {
            Ok(None)
        } else {
            Err(StoreError::Domain(DomainError::StaleRequest))
        }
    }

    /// Records a request.
    pub(crate) fn record(
        &mut self,
        m: &RpcMutation,
        repeated: Summary,
    ) -> (r: Result<(), StoreError>)
        ensures
            match recorded(old(self)@, m@, repeated@) {
                Err(e) => r == Err::<(), StoreError>(e) && final(self)@ == old(self)@,
                Ok(after) => r is Ok && final(self)@ == after,
            },
    {
        let mut slot = match self.slots.get(key1(m.identity.usn)) {
            Some(slot) => slot.dup(),
            None => {
                return Err(StoreError::Sql(SqlFault::ForeignKey));
            },
        };
        slot.updated_at = m.committed_at;
        slot.ledger.place(
            m.idempotency_key.clone(),
            LedgerRow {
                request_seq: m.request_seq,
                rpc: m.rpc.clone(),
                committed_at: m.committed_at,
                summary: repeated,
            },
        );
        self.slots.put(key1(m.identity.usn), slot);
        let known: Option<SessionRow> = match self.sessions.get(key1(m.nonce)) {
            Some(session) => Some(session.dup()),
            None => None,
        };
        if let Some(mut session) = known {
            session.last_request_seq = m.request_seq;
            self.sessions.put(key1(m.nonce), session);
        }
        Ok(())
    }

    /// Gives a slot another state of its player.
    pub(crate) fn set_player(&mut self, usn: Usn, player: Player)
        ensures
            final(self)@ == with_player(old(self)@, usn as int, player@),
    {
        let known: Option<SlotRow> = match self.slots.get(key1(usn)) {
            Some(slot) => Some(slot.dup()),
            None => None,
        };
        if let Some(mut slot) = known {
            slot.player = player;
            self.slots.put(key1(usn), slot);
        }
    }

    /// Does a command for the player of a request, in one transaction. A repeated
    /// request is answered as it was recorded and nothing is done again.
    pub fn commit_rpc_mutation_with_replay<C: Command>(
        &mut self,
        mutation: &RpcMutation,
        command: &C,
    ) -> (r: Result<Summary, StoreError>)
        requires
            command.valid(),
        ensures
            concluded(
                settled(
                    old(self)@,
                    mutation@,
                    command.effect(
                        player_of(old(self)@, mutation@),
                        mutation@,
                        old(self)@.rules,
                    ),
                ),
                final(self)@,
                r,
            ),
    {
        match self.judge(mutation) {
            Err(e) => {
                return Err(e);
            },
            Ok(Some(summary)) => {
                return Ok(summary);
            },
            Ok(None) => {},
        }
        let mut player = match self.slots.get(key1(mutation.identity.usn)) {
            Some(slot) => slot.player.dup(),
            None => {
                return Err(StoreError::MissingSlot(mutation.identity.usn));
            },
        };
        match command.run(&mut player, mutation, &self.reward_rules) {
            Err(e) => Err(e),
            Ok((first, repeated)) => {
                proof {
                    lemma_with_player(
                        self@,
                        mutation@.usn as int,
                        player@,
                    );
                }
                self.set_player(mutation.identity.usn, player);
                match self.record(mutation, repeated) {
                    Err(e) => Err(e),
                    Ok(()) => Ok(first),
                }
            },
        }
    }

    /// The same, where a repetition is answered as the request was.
    pub fn commit_rpc_mutation<C: Command>(&mut self, mutation: &RpcMutation, command: &C) -> (r:
        Result<Summary, StoreError>)
        requires
            command.valid(),
        ensures
            concluded(
                settled(
                    old(self)@,
                    mutation@,
                    repeating(
                        command.effect(
                            player_of(old(self)@, mutation@),
                            mutation@,
                            old(self)@.rules,
                        ),
                    ),
                ),
                final(self)@,
                r,
            ),
    {
        match self.judge(mutation) {
            Err(e) => {
                return Err(e);
            },
            Ok(Some(summary)) => {
                return Ok(summary);
            },
            Ok(None) => {},
        }
        let mut player = match self.slots.get(key1(mutation.identity.usn)) {
            Some(slot) => slot.player.dup(),
            None => {
                return Err(StoreError::MissingSlot(mutation.identity.usn));
            },
        };
        match command.run(&mut player, mutation, &self.reward_rules) {
            Err(e) => Err(e),
            Ok((first, _)) => {
                proof {
                    lemma_with_player(
                        self@,
                        mutation@.usn as int,
                        player@,
                    );
                }
                self.set_player(mutation.identity.usn, player);
                match self.record(mutation, first.dup()) {
                    Err(e) => Err(e),
                    Ok(()) => Ok(first),
                }
            },
        }
    }
}

proof fn lemma_with_player(s: StoreModel, usn: int, player: PlayerModel)
    requires
        slot_at(s, usn) is Some,
    ensures
        slot_at(with_player(s, usn, player), usn) is Some,
{
    law_get_put(
        s.slots,
        k1(usn),
        SlotModel { player, ..slot_at(s, usn)->Some_0 },
        k1(usn),
    );
}

} // verus!
