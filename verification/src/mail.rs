//! Mail and the rewards that it carries.
use crate::command::{answered, Command, Effect, Mutation, RpcMutation, Rules};
use crate::consume_reward::{ConsumeReward, RewardRules};
use crate::domain::{
    ContentKind, CurrencyKind, DomainError, MailSnapshot, MailboxSnapshot, Reward, RewardGrant,
};
use crate::errors::{RewardFault, SqlFault, StoreError};
use crate::ints::clip;
use crate::kept::lemma_granted;
use crate::number::{Real, ONE, ZERO};
use crate::order::{any64, by_one, group_keyed, lemma_keyed_same};
use crate::outcome::{Outcome, Summary};
use crate::player::{Player, PlayerModel};
use crate::rewards::{
    changed, content_at, exec_whole_count, gifted, granted, granted_content, levelled, owning,
    whole_count, Change,
};
use crate::rows::{EventRow, MailModel, MailRow, MailState, OwnedModel, StoredKind, StoredReward};
use crate::table::{
    get, in_table, k1, k2, key1, key2, put, put_new, Key, Plain, Row, Table,
};
use vstd::prelude::*;

verus! {

/// The state after one more change of the mail.
pub open spec fn bumped(p: PlayerModel) -> Result<PlayerModel, StoreError> {
    if p.mail_cursor == i64::MAX {
        Err(StoreError::Sql(SqlFault::OutOfRange))
    } else {
        Ok(PlayerModel { mail_cursor: (p.mail_cursor + 1) as i64, ..p })
    }
}

/// A mail that nobody has seen.
pub open spec fn fresh_mail(
    subject: Seq<char>,
    body: Seq<char>,
    reward: StoredReward,
    now: i64,
) -> MailModel {
    MailModel {
        subject_key: subject,
        body_key: body,
        state: MailState {
            created_at: now,
            read_at: None,
            claimed_at: None,
            deleted_at: None,
            reward: Some(reward),
        },
    }
}

/// A mail put into the mailbox, unless its number is taken.
pub open spec fn mailed(
    p: PlayerModel,
    post_id: int,
    subject: Seq<char>,
    body: Seq<char>,
    reward: StoredReward,
    now: i64,
) -> Change<bool> {
    if in_table(p.mail, k1(post_id)) {
        Ok((p, false))
    } else {
        match bumped(
            PlayerModel {
                mail: put(p.mail, k1(post_id), fresh_mail(subject, body, reward, now)),
                ..p
            },
        ) {
            Err(e) => Err(e),
            Ok(q) => Ok((q, true)),
        }
    }
}

/// A reward as mail carries it.
pub open spec fn stored(reward: Reward) -> StoredReward {
    match reward {
        Reward::Currency { currency, amount } => StoredReward {
            kind: StoredKind::Currency(currency),
            reward_id: None,
            amount: Some(amount),
            area: 0,
        },
        Reward::Content { content, area, content_id } => StoredReward {
            kind: StoredKind::Content(content),
            reward_id: Some(content_id),
            amount: None,
            area,
        },
    }
}

/// A counted reward as mail carries it: its id and channel are kept, whichever
/// balance it adds to.
pub open spec fn mailable(reward: RewardGrant) -> Result<StoredReward, RewardFault> {
    if reward.reward_type == 1 {
        match ConsumeReward::meaning(reward.reward_id) {
            Some(consume) => match consume.currency {
                Some(currency) => Ok(
                    StoredReward {
                        kind: StoredKind::Currency(currency),
                        reward_id: Some(consume.id as i64),
                        amount: Some(reward.amount),
                        area: consume.area,
                    },
                ),
                None => Err(RewardFault::MailCurrency(reward.reward_id)),
            },
            None => Err(RewardFault::MailCurrency(reward.reward_id)),
        }
    } else {
        match mailable_content(reward.reward_type) {
            Some(kind) => Ok(
                StoredReward {
                    kind: StoredKind::Content(kind),
                    reward_id: Some(reward.reward_id as i64),
                    amount: Some(reward.amount),
                    area: 0,
                },
            ),
            None => Err(RewardFault::MailKind(reward.reward_type)),
        }
    }
}

/// The content that a type of reward gives by mail.
pub open spec fn mailable_content(reward_type: i16) -> Option<ContentKind> {
    if reward_type == 11 {
        Some(ContentKind::Gift)
    } else {
        granted_content(reward_type)
    }
}

/// The id under which a balance is counted when a mail names none.
pub open spec fn usual_id(kind: CurrencyKind) -> Option<i32> {
    match kind {
        CurrencyKind::Chocolate => Some(1),
        CurrencyKind::Candy => Some(2),
        CurrencyKind::Ch1Like => Some(4),
        CurrencyKind::Ch2Note => Some(5),
        CurrencyKind::Ch2Like => Some(6),
        CurrencyKind::Fans => Some(8),
        CurrencyKind::Gingerbread => None,
        CurrencyKind::ChocoMilk => None,
    }
}

/// The type of the rewards that give a kind of content.
pub open spec fn content_type(kind: ContentKind) -> Option<i16> {
    match kind {
        ContentKind::Music => Some(2),
        ContentKind::Costume => Some(3),
        ContentKind::Prop => Some(4),
        ContentKind::Follower => Some(5),
        ContentKind::Buff => Some(6),
        ContentKind::Unit => Some(7),
        ContentKind::Skill => Some(8),
        ContentKind::Guitar => Some(9),
        ContentKind::Gift => Some(11),
        ContentKind::Character => None,
    }
}

/// The type and the id by which the client counts a reward in the mail.
pub open spec fn counted_as(r: StoredReward) -> Result<(i16, i32), RewardFault> {
    match r.kind {
        StoredKind::Currency(kind) => match usual_id(kind) {
            None => Err(RewardFault::Currency(kind)),
            Some(usual) => match r.reward_id {
                None => Ok((1, usual)),
                Some(id) => if !(i32::MIN <= id <= i32::MAX) {
                    Err(RewardFault::Consume(id))
                } else {
                    match ConsumeReward::meaning(id as i32) {
                        Some(consume) => if consume.currency == Some(kind) {
                            Ok((1, id as i32))
                        } else {
                            Err(RewardFault::ConsumeOf(kind, id as i32))
                        },
                        None => Err(RewardFault::ConsumeOf(kind, id as i32)),
                    }
                },
            },
        },
        StoredKind::Content(kind) => match content_type(kind) {
            None => Err(RewardFault::Content(kind)),
            Some(reward_type) => Ok(
                (
                    reward_type,
                    match r.reward_id {
                        Some(id) => clip(id as int, 0, i32::MAX as int) as i32,
                        None => 0,
                    },
                ),
            ),
        },
    }
}

/// A reward in the mail as the client counts it.
pub open spec fn stored_grant(r: StoredReward) -> Result<RewardGrant, RewardFault> {
    match counted_as(r) {
        Err(f) => Err(f),
        Ok((reward_type, reward_id)) => Ok(
            RewardGrant {
                reward_type,
                reward_id,
                amount: match r.amount {
                    Some(amount) => amount,
                    None => Real { bits: ONE },
                },
            },
        ),
    }
}

/// Mail keeps the type, the id and the amount of every reward that it takes.
pub proof fn law_mail_keeps_rewards(reward: RewardGrant)
    requires
        mailable(reward) is Ok,
        reward.reward_type != 1 ==> reward.reward_id >= 0,
    ensures
        stored_grant(mailable(reward)->Ok_0) == Ok::<RewardGrant, RewardFault>(reward),
{
}

/// What claiming a reward in the mail does.
pub open spec fn stored_applied(
    p: PlayerModel,
    rules: Rules,
    r: StoredReward,
    now: i64,
    source: Seq<char>,
) -> Result<PlayerModel, StoreError> {
    match r.kind {
        StoredKind::Currency(CurrencyKind::Fans) => match stored_grant(r) {
            Err(f) => Err(StoreError::UnsupportedReward(f)),
            Ok(grant) => match granted(p, rules, grant, now, source) {
                Err(e) => Err(e),
                Ok((q, _)) => Ok(q),
            },
        },
        StoredKind::Currency(kind) => {
            let amount = match r.amount {
                Some(amount) => amount,
                None => Real { bits: ZERO },
            };
            if amount.amount() {
                Ok(PlayerModel { wallet: p.wallet.plus(kind, amount), ..p })
            } else {
                Err(StoreError::Domain(DomainError::InvalidAmount))
            }
        },
        StoredKind::Content(kind) => match r.reward_id {
            None => Err(StoreError::UnsupportedReward(RewardFault::Unidentified(kind))),
            Some(id) => if kind == ContentKind::Gift {
                let amount = match r.amount {
                    Some(amount) => amount,
                    None => Real { bits: ONE },
                };
                match gifted(p, id as int, whole_count(amount) as int) {
                    Err(e) => Err(e),
                    Ok((q, _)) => Ok(q),
                }
            } else {
                Ok(levelled(owning(p, kind, r.area, id as int, now, source), kind, id as int))
            },
        },
    }
}

/// Whether content that belongs to one channel counts in another.
pub open spec fn counts_in(found: i32, area: i32) -> bool {
    found == 0 || found == area
}

/// Whether a piece of content is owned.
pub open spec fn delivered(p: PlayerModel, kind: ContentKind, area: i32, id: int) -> bool {
    match get(p.owned, content_at(kind, id)) {
        Some(row) => counts_in(row.area, area),
        None => false,
    }
}

/// Whether a mail is still to be claimed and carries a piece of content.
pub open spec fn carries(s: MailState, kind: ContentKind, area: i32, id: int) -> bool {
    s.claimed_at is None && s.deleted_at is None && match s.reward {
        Some(r) => r.kind == StoredKind::Content(kind) && match r.reward_id {
            Some(found) => found == id && counts_in(r.area, area),
            None => false,
        },
        None => false,
    }
}

/// Whether a piece of content is in the mail.
pub open spec fn pending(p: PlayerModel, kind: ContentKind, area: i32, id: int) -> bool {
    exists|i: int| 0 <= i < p.mail.len() && carries((#[trigger] p.mail[i]).1.state, kind, area, id)
}

/// Whether a reward may be mailed: content only if it is neither owned nor in
/// the mail.
pub open spec fn deliverable(p: PlayerModel, reward: Reward) -> bool {
    match reward {
        Reward::Currency { .. } => true,
        Reward::Content { content, area, content_id } => !delivered(
            p,
            content,
            area,
            content_id as int,
        ) && !pending(p, content, area, content_id as int),
    }
}

/// A mail with a given number.
pub open spec fn queued(
    p: PlayerModel,
    post_id: int,
    subject: Seq<char>,
    body: Seq<char>,
    reward: Reward,
    now: i64,
) -> Change<bool> {
    if !deliverable(p, reward) {
        Err(StoreError::Domain(DomainError::AlreadyOwned))
    } else {
        mailed(p, post_id, subject, body, stored(reward), now)
    }
}

/// The number after the last mail.
pub open spec fn next_post(mail: Seq<(Key, MailModel)>) -> int {
    if mail.len() == 0 {
        1
    } else {
        mail.last().0.a + 1
    }
}

/// A mail with the next number.
pub open spec fn posted(
    p: PlayerModel,
    subject: Seq<char>,
    body: Seq<char>,
    reward: Reward,
    now: i64,
) -> Change<i64> {
    let post_id = next_post(p.mail);
    if !deliverable(p, reward) {
        Err(StoreError::Domain(DomainError::AlreadyOwned))
    } else if post_id > i64::MAX {
        Err(StoreError::Sql(SqlFault::OutOfRange))
    } else {
        match mailed(p, post_id, subject, body, stored(reward), now) {
            Err(e) => Err(e),
            Ok((q, new)) => if new {
                Ok((q, post_id as i64))
            } else {
                Err(StoreError::IdempotencyConflict)
            },
        }
    }
}

/// A counted reward in a mail with a given number.
pub open spec fn reward_mailed(
    p: PlayerModel,
    post_id: int,
    subject: Seq<char>,
    body: Seq<char>,
    reward: RewardGrant,
    now: i64,
) -> Change<bool> {
    if in_table(p.mail, k1(post_id)) {
        Ok((p, false))
    } else {
        match mailable(reward) {
            Err(f) => Err(StoreError::UnsupportedReward(f)),
            Ok(r) => mailed(p, post_id, subject, body, r, now),
        }
    }
}

fn exec_stored(reward: &Reward) -> (r: StoredReward)
    ensures
        r == stored(*reward),
{
    match reward {
        Reward::Currency { currency, amount } => StoredReward {
            kind: StoredKind::Currency(*currency),
            reward_id: None,
            amount: Some(*amount),
            area: 0,
        },
        Reward::Content { content, area, content_id } => StoredReward {
            kind: StoredKind::Content(*content),
            reward_id: Some(*content_id),
            amount: None,
            area: *area,
        },
    }
}

fn exec_mailable(reward: &RewardGrant) -> (r: Result<StoredReward, RewardFault>)
    ensures
        r == mailable(*reward),
{
    if reward.reward_type == 1 {
        let consume = match ConsumeReward::from_id(reward.reward_id) {
            Some(consume) => consume,
            None => {
                return Err(RewardFault::MailCurrency(reward.reward_id));
            },
        };
        return match consume.currency {
            Some(currency) => Ok(
                StoredReward {
                    kind: StoredKind::Currency(currency),
                    reward_id: Some(consume.id as i64),
                    amount: Some(reward.amount),
                    area: consume.area,
                },
            ),
            None => Err(RewardFault::MailCurrency(reward.reward_id)),
        };
    }
    let kind = match reward.reward_type {
        2 => ContentKind::Music,
        3 => ContentKind::Costume,
        4 => ContentKind::Prop,
        5 => ContentKind::Follower,
        6 => ContentKind::Buff,
        7 => ContentKind::Unit,
        8 => ContentKind::Skill,
        9 => ContentKind::Guitar,
        11 => ContentKind::Gift,
        _ => {
            return Err(RewardFault::MailKind(reward.reward_type));
        },
    };
    Ok(
        StoredReward {
            kind: StoredKind::Content(kind),
            reward_id: Some(reward.reward_id as i64),
            amount: Some(reward.amount),
            area: 0,
        },
    )
}

fn exec_counted_as(row: &StoredReward) -> (r: Result<(i16, i32), RewardFault>)
    ensures
        r == counted_as(*row),
{
    match row.kind {
        StoredKind::Currency(kind) => {
            let usual: i32 = match kind {
                CurrencyKind::Chocolate => 1,
                CurrencyKind::Candy => 2,
                CurrencyKind::Ch1Like => 4,
                CurrencyKind::Ch2Note => 5,
                CurrencyKind::Ch2Like => 6,
                CurrencyKind::Fans => 8,
                _ => {
                    return Err(RewardFault::Currency(kind));
                },
            };
            let id: i64 = match row.reward_id {
                Some(id) => id,
                None => {
                    return Ok((1, usual));
                },
            };
            if id < i32::MIN as i64 || id > i32::MAX as i64 {
                return Err(RewardFault::Consume(id));
            }
            match ConsumeReward::from_id(id as i32) {
                Some(consume) => match consume.currency {
                    Some(found) => if found == kind {
                        Ok((1, id as i32))
                    } else {
                        Err(RewardFault::ConsumeOf(kind, id as i32))
                    },
                    None => Err(RewardFault::ConsumeOf(kind, id as i32)),
                },
                None => Err(RewardFault::ConsumeOf(kind, id as i32)),
            }
        },
        StoredKind::Content(kind) => {
            let reward_type: i16 = match kind {
                ContentKind::Music => 2,
                ContentKind::Costume => 3,
                ContentKind::Prop => 4,
                ContentKind::Follower => 5,
                ContentKind::Buff => 6,
                ContentKind::Unit => 7,
                ContentKind::Skill => 8,
                ContentKind::Guitar => 9,
                ContentKind::Gift => 11,
                ContentKind::Character => {
                    return Err(RewardFault::Content(kind));
                },
            };
            let id: i64 = match row.reward_id {
                Some(id) => id,
                None => 0,
            };
            let id: i32 = if id < 0 {
                0
            } else if id > i32::MAX as i64 {
                i32::MAX
            } else {
                id as i32
            };
            Ok((reward_type, id))
        },
    }
}

pub fn stored_reward_grant(row: &StoredReward) -> (r: Result<RewardGrant, RewardFault>)
    ensures
        r == stored_grant(*row),
{
    match exec_counted_as(row) {
        Err(f) => Err(f),
        Ok((reward_type, reward_id)) => Ok(
            RewardGrant {
                reward_type,
                reward_id,
                amount: match row.amount {
                    Some(amount) => amount,
                    None => Real { bits: ONE },
                },
            },
        ),
    }
}

/// What a method that changes a player returns, and what it leaves.
pub open spec fn replaced_by(
    effect: Result<PlayerModel, StoreError>,
    after: PlayerModel,
    r: Result<(), StoreError>,
) -> bool {
    match effect {
        Err(e) => r == Err::<(), StoreError>(e),
        Ok(q) => r is Ok && after == q,
    }
}

impl Player {
    fn bump_mail_cursor(&mut self) -> (r: Result<(), StoreError>)
        ensures
            replaced_by(bumped(old(self)@), final(self)@, r),
    {
        if self.mail_cursor == i64::MAX {
            return Err(StoreError::Sql(SqlFault::OutOfRange));
        }
        self.mail_cursor = self.mail_cursor + 1;
        Ok(())
    }

    fn insert_mail(
        &mut self,
        post_id: i64,
        subject_key: &str,
        body_key: &str,
        reward: StoredReward,
        now: i64,
    ) -> (r: Result<bool, StoreError>)
        ensures
            changed(
                mailed(old(self)@, post_id as int, subject_key@, body_key@, reward, now),
                final(self)@,
                r,
            ),
    {
        if self.mail.contains(key1(post_id)) {
            return Ok(false);
        }
        self.mail.put(
            key1(post_id),
            MailRow {
                subject_key: subject_key.to_owned(),
                body_key: body_key.to_owned(),
                state: MailState {
                    created_at: now,
                    read_at: None,
                    claimed_at: None,
                    deleted_at: None,
                    reward: Some(reward),
                },
            },
        );
        match self.bump_mail_cursor() {
            Ok(()) => Ok(true),
            Err(e) => Err(e),
        }
    }

    /// Whether a piece of content is owned, and whether it is in the mail.
    pub(crate) fn content_delivery_state(
        &self,
        content: ContentKind,
        area: i32,
        content_id: i64,
    ) -> (r: (
        bool,
        bool,
    ))
        ensures
            r.0 == delivered(self@, content, area, content_id as int),
            r.1 == pending(self@, content, area, content_id as int),
    {
        let owned: bool = match self.owned.get(key2(content.exec_rank(), content_id)) {
            Some(row) => row.area == 0 || row.area == area,
            None => false,
        };
        let mut i: usize = 0;
        while i < self.mail.len()
            invariant
                i <= self@.mail.len(),
                owned == delivered(self@, content, area, content_id as int),
                forall|j: int|
                    0 <= j < i ==> !carries(
                        (#[trigger] self@.mail[j]).1.state,
                        content,
                        area,
                        content_id as int,
                    ),
            decreases self@.mail.len() - i,
        {
            let state = self.mail.row_at(i).state;
            let found: bool = match state.reward {
                Some(r) => match (r.kind, r.reward_id) {
                    (StoredKind::Content(kind), Some(id)) => kind == content && id == content_id
                        && (r.area == 0 || r.area == area),
                    _ => false,
                },
                None => false,
            };
            let waiting: bool = match (state.claimed_at, state.deleted_at) {
                (None, None) => true,
                _ => false,
            };
            proof {
                assert(self@.mail[i as int].1.state == state);
                assert(carries(state, content, area, content_id as int) == (found && waiting));
            }
            if found && waiting {
                return (owned, true);
            }
            i = i + 1;
        }
        (owned, false)
    }

    fn may_be_mailed(&self, reward: &Reward) -> (r: bool)
        ensures
            r == deliverable(self@, *reward),
    {
        match reward {
            Reward::Currency { .. } => true,
            Reward::Content { content, area, content_id } => {
                let (owned, waiting) = self.content_delivery_state(*content, *area, *content_id);
                !owned && !waiting
            },
        }
    }

    pub(crate) fn queue_mail(
        &mut self,
        post_id: i64,
        subject_key: &str,
        body_key: &str,
        reward: &Reward,
        now: i64,
    ) -> (r: Result<bool, StoreError>)
        ensures
            changed(
                queued(old(self)@, post_id as int, subject_key@, body_key@, *reward, now),
                final(self)@,
                r,
            ),
    {
        if !self.may_be_mailed(reward) {
            return Err(StoreError::Domain(DomainError::AlreadyOwned));
        }
        self.insert_mail(post_id, subject_key, body_key, exec_stored(reward), now)
    }

    pub(crate) fn queue_generated_mail(
        &mut self,
        subject_key: &str,
        body_key: &str,
        reward: &Reward,
        now: i64,
    ) -> (r: Result<i64, StoreError>)
        ensures
            changed(
                posted(old(self)@, subject_key@, body_key@, *reward, now),
                final(self)@,
                r,
            ),
    {
        if !self.may_be_mailed(reward) {
            return Err(StoreError::Domain(DomainError::AlreadyOwned));
        }
        let n: usize = self.mail.len();
        let last: i64 = if n == 0 {
            0
        } else {
            self.mail.key_at(n - 1).a
        };
        if last == i64::MAX {
            return Err(StoreError::Sql(SqlFault::OutOfRange));
        }
        let post_id: i64 = last + 1;
        match self.insert_mail(post_id, subject_key, body_key, exec_stored(reward), now) {
            Err(e) => Err(e),
            Ok(new) => if new {
                Ok(post_id)
            } else {
                Err(StoreError::IdempotencyConflict)
            },
        }
    }

    pub fn queue_reward_mail(
        &mut self,
        post_id: i64,
        subject: &str,
        body: &str,
        reward: &RewardGrant,
        now: i64,
    ) -> (r: Result<bool, StoreError>)
        ensures
            changed(
                reward_mailed(old(self)@, post_id as int, subject@, body@, *reward, now),
                final(self)@,
                r,
            ),
    {
        if self.mail.contains(key1(post_id)) {
            return Ok(false);
        }
        match exec_mailable(reward) {
            Err(f) => Err(StoreError::UnsupportedReward(f)),
            Ok(r) => self.insert_mail(post_id, subject, body, r, now),
        }
    }

    fn apply_stored_reward(
        &mut self,
        rules: &RewardRules,
        row: &StoredReward,
        now: i64,
        source: &str,
    ) -> (r: Result<(), StoreError>)
        ensures
            replaced_by(stored_applied(old(self)@, rules@, *row, now, source@), final(self)@, r),
    {
        match row.kind {
            StoredKind::Currency(kind) => {
                if kind == CurrencyKind::Fans {
                    let grant = match stored_reward_grant(row) {
                        Ok(grant) => grant,
                        Err(f) => {
                            return Err(StoreError::UnsupportedReward(f));
                        },
                    };
                    return match self.apply_reward_grant(rules, &grant, now, source) {
                        Ok(_) => Ok(()),
                        Err(e) => Err(e),
                    };
                }
                let amount = match row.amount {
                    Some(amount) => amount,
                    None => Real { bits: ZERO },
                };
                if !amount.is_amount() {
                    return Err(StoreError::Domain(DomainError::InvalidAmount));
                }
                self.wallet.add(kind, amount);
                Ok(())
            },
            StoredKind::Content(kind) => {
                let id: i64 = match row.reward_id {
                    Some(id) => id,
                    None => {
                        return Err(StoreError::UnsupportedReward(RewardFault::Unidentified(kind)));
                    },
                };
                if kind == ContentKind::Gift {
                    let amount = match row.amount {
                        Some(amount) => amount,
                        None => Real { bits: ONE },
                    };
                    match self.add_gift(id, exec_whole_count(amount)) {
                        Ok(_) => Ok(()),
                        Err(e) => Err(e),
                    }
                } else {
                    self.own(kind, row.area, id, now, source);
                    self.level(kind, id);
                    Ok(())
                }
            },
        }
    }
}

/// Sending a mail with the next number.
pub struct PostMail {
    pub subject_key: String,
    pub body_key: String,
    pub reward: Reward,
}

pub open spec fn post_effect(
    p: PlayerModel,
    m: Mutation,
    subject: Seq<char>,
    body: Seq<char>,
    reward: Reward,
) -> Effect {
    match posted(p, subject, body, reward, m.now) {
        Err(e) => Err(e),
        Ok((q, post_id)) => answered(q, Outcome::Integer(post_id)),
    }
}

impl Command for PostMail {
    open spec fn valid(&self) -> bool {
        true
    }

    open spec fn effect(&self, p: PlayerModel, m: Mutation, rules: Rules) -> Effect {
        post_effect(p, m, self.subject_key@, self.body_key@, self.reward)
    }

    proof fn keeps_order(&self, p: PlayerModel, m: Mutation, rules: Rules) {
        broadcast use group_keyed;

    }

    fn run(&self, p: &mut Player, m: &RpcMutation, rules: &RewardRules) -> (r: Result<
        (Summary, Summary),
        StoreError,
    >) {
        match p.queue_generated_mail(
            self.subject_key.as_str(),
            self.body_key.as_str(),
            &self.reward,
            m.committed_at,
        ) {
            Err(e) => Err(e),
            Ok(post_id) => Ok((Summary::Integer(post_id), Summary::Integer(post_id))),
        }
    }
}

/// When something first happened.
pub open spec fn first_time(before: Option<i64>, now: i64) -> Option<i64> {
    match before {
        Some(t) => Some(t),
        None => Some(now),
    }
}

fn exec_first_time(before: Option<i64>, now: i64) -> (t: Option<i64>)
    ensures
        t == first_time(before, now),
{
    match before {
        Some(t) => Some(t),
        None => Some(now),
    }
}

/// A mail that is not deleted.
pub open spec fn kept_mail(mail: Seq<(Key, MailModel)>, post_id: int) -> Option<MailModel> {
    match get(mail, k1(post_id)) {
        Some(row) => if row.state.deleted_at is None {
            Some(row)
        } else {
            None
        },
        None => None,
    }
}

/// The player with the state of a mail changed, and one more change counted.
pub open spec fn mail_changed(
    p: PlayerModel,
    post_id: int,
    row: MailModel,
    state: MailState,
    answer: Outcome,
    repeated: Outcome,
) -> Effect {
    match bumped(
        PlayerModel { mail: put(p.mail, k1(post_id), MailModel { state, ..row }), ..p },
    ) {
        Err(e) => Err(e),
        Ok(q) => Ok((q, answer, repeated)),
    }
}

/// Reading a mail.
pub struct ReadMail {
    pub post_id: i64,
}

pub open spec fn read_effect(p: PlayerModel, m: Mutation, post_id: i64) -> Effect {
    match kept_mail(p.mail, post_id as int) {
        None => Err(StoreError::MissingMail(post_id)),
        Some(row) => mail_changed(
            p,
            post_id as int,
            row,
            MailState { read_at: first_time(row.state.read_at, m.now), ..row.state },
            Outcome::Integer(post_id),
            Outcome::Integer(post_id),
        ),
    }
}

impl Player {
    fn kept_mail(&self, post_id: i64) -> (r: Option<MailRow>)
        ensures
            match r {
                Some(row) => kept_mail(self@.mail, post_id as int) == Some(row.model()),
                None => kept_mail(self@.mail, post_id as int) is None,
            },
    {
        match self.mail.get(key1(post_id)) {
            Some(row) => match row.state.deleted_at {
                None => Some(row.dup()),
                Some(_) => None,
            },
            None => None,
        }
    }
}

impl Command for ReadMail {
    open spec fn valid(&self) -> bool {
        true
    }

    open spec fn effect(&self, p: PlayerModel, m: Mutation, rules: Rules) -> Effect {
        read_effect(p, m, self.post_id)
    }

    proof fn keeps_order(&self, p: PlayerModel, m: Mutation, rules: Rules) {
        broadcast use group_keyed;

    }

    fn run(&self, p: &mut Player, m: &RpcMutation, rules: &RewardRules) -> (r: Result<
        (Summary, Summary),
        StoreError,
    >) {
        let mut row = match p.kept_mail(self.post_id) {
            Some(row) => row,
            None => {
                return Err(StoreError::MissingMail(self.post_id));
            },
        };
        row.state.read_at = exec_first_time(row.state.read_at, m.committed_at);
        p.mail.put(key1(self.post_id), row);
        match p.bump_mail_cursor() {
            Err(e) => Err(e),
            Ok(()) => Ok((Summary::Integer(self.post_id), Summary::Integer(self.post_id))),
        }
    }
}

/// Claiming the reward of a mail.
pub struct ClaimMail {
    pub post_id: i64,
}

pub open spec fn claim_effect(p: PlayerModel, m: Mutation, rules: Rules, post_id: i64) -> Effect {
    match kept_mail(p.mail, post_id as int) {
        None => Err(StoreError::MissingMail(post_id)),
        Some(row) => match row.state.reward {
            None => Err(StoreError::MissingMail(post_id)),
            Some(reward) => if row.state.claimed_at is Some {
                Err(StoreError::MailAlreadyClaimed(post_id))
            } else {
                match stored_grant(reward) {
                    Err(f) => Err(StoreError::UnsupportedReward(f)),
                    Ok(grant) => match stored_applied(p, rules, reward, m.now, "mail"@) {
                        Err(e) => Err(e),
                        Ok(q) => mail_changed(
                            q,
                            post_id as int,
                            row,
                            MailState {
                                claimed_at: Some(m.now),
                                read_at: first_time(row.state.read_at, m.now),
                                ..row.state
                            },
                            Outcome::MailGrant(Some(grant)),
                            Outcome::MailGrant(None),
                        ),
                    },
                }
            },
        },
    }
}

impl Command for ClaimMail {
    open spec fn valid(&self) -> bool {
        true
    }

    open spec fn effect(&self, p: PlayerModel, m: Mutation, rules: Rules) -> Effect {
        claim_effect(p, m, rules, self.post_id)
    }

    proof fn keeps_order(&self, p: PlayerModel, m: Mutation, rules: Rules) {
        broadcast use group_keyed;

        if let Some(row) = kept_mail(p.mail, self.post_id as int) {
            if let Some(reward) = row.state.reward {
                if let Ok(grant) = stored_grant(reward) {
                    lemma_granted(p, rules, grant, m.now, "mail"@);
                }
            }
        }
    }

    fn run(&self, p: &mut Player, m: &RpcMutation, rules: &RewardRules) -> (r: Result<
        (Summary, Summary),
        StoreError,
    >) {
        let now: i64 = m.committed_at;
        let mut row = match p.kept_mail(self.post_id) {
            Some(row) => row,
            None => {
                return Err(StoreError::MissingMail(self.post_id));
            },
        };
        let reward = match row.state.reward {
            Some(reward) => reward,
            None => {
                return Err(StoreError::MissingMail(self.post_id));
            },
        };
        if row.state.claimed_at.is_some() {
            return Err(StoreError::MailAlreadyClaimed(self.post_id));
        }
        let grant = match stored_reward_grant(&reward) {
            Ok(grant) => grant,
            Err(f) => {
                return Err(StoreError::UnsupportedReward(f));
            },
        };
        match p.apply_stored_reward(rules, &reward, now, "mail") {
            Ok(()) => {},
            Err(e) => {
                return Err(e);
            },
        }
        row.state.claimed_at = Some(now);
        row.state.read_at = exec_first_time(row.state.read_at, now);
        p.mail.put(key1(self.post_id), row);
        match p.bump_mail_cursor() {
            Err(e) => Err(e),
            Ok(()) => Ok((Summary::MailGrant(Some(grant)), Summary::MailGrant(None))),
        }
    }
}

/// Deleting a claimed mail, or all mail that is done with.
pub struct DeleteMail {
    pub post_id: i64,
    pub delete_all_confirmed: bool,
}

/// Whether a mail is to be deleted.
pub open spec fn deletable(key: Key, s: MailState, post_id: int, all: bool) -> bool {
    s.deleted_at is None && if all {
        s.claimed_at is Some || (s.reward is None && s.read_at is Some)
    } else {
        key == k1(post_id) && s.claimed_at is Some
    }
}

/// Mail with what is to be deleted marked.
pub open spec fn pruned(mail: Seq<(Key, MailModel)>, post_id: int, all: bool, now: i64) -> Seq<
    (Key, MailModel),
> {
    mail.map_values(
        |e: (Key, MailModel)|
            if deletable(e.0, e.1.state, post_id, all) {
                (
                    e.0,
                    MailModel { state: MailState { deleted_at: Some(now), ..e.1.state }, ..e.1 },
                )
            } else {
                e
            },
    )
}

/// Whether there is anything to delete.
pub open spec fn prunable(mail: Seq<(Key, MailModel)>, post_id: int, all: bool) -> bool {
    exists|i: int|
        0 <= i < mail.len() && deletable((#[trigger] mail[i]).0, mail[i].1.state, post_id, all)
}

pub open spec fn delete_effect(p: PlayerModel, m: Mutation, post_id: i64, all: bool) -> Effect {
    if !prunable(p.mail, post_id as int, all) {
        answered(p, Outcome::Integer(post_id))
    } else {
        match bumped(PlayerModel { mail: pruned(p.mail, post_id as int, all, m.now), ..p }) {
            Err(e) => Err(e),
            Ok(q) => answered(q, Outcome::Integer(post_id)),
        }
    }
}

fn exec_deletable(key: Key, s: &MailState, post_id: i64, all: bool) -> (r: bool)
    ensures
        r == deletable(key, *s, post_id as int, all),
{
    let gone: bool = s.deleted_at.is_some();
    let claimed: bool = s.claimed_at.is_some();
    if gone {
        false
    } else if all {
        claimed || (!s.reward.is_some() && s.read_at.is_some())
    } else {
        key == key1(post_id) && claimed
    }
}

impl Player {
    fn prune_mail(&mut self, post_id: i64, all: bool, now: i64) -> (r: bool)
        ensures
            r == prunable(old(self)@.mail, post_id as int, all),
            final(self)@ == (PlayerModel {
                mail: pruned(old(self)@.mail, post_id as int, all, now),
                ..old(self)@
            }),
    {
        let mut done: bool = false;
        let mut i: usize = 0;
        let ghost start = self@;
        let ghost goal = pruned(start.mail, post_id as int, all, now);
        proof {
            assert(start.mail.take(0) =~= goal.take(0));
        }
        let n: usize = self.mail.len();
        while i < n
            invariant
                i <= n == start.mail.len(),
                start == old(self)@,
                goal == pruned(start.mail, post_id as int, all, now),
                self@ == (PlayerModel { mail: self@.mail, ..start }),
                self@.mail.len() == n,
                forall|j: int| 0 <= j < i ==> #[trigger] self@.mail[j] == goal[j],
                forall|j: int| i <= j < n ==> #[trigger] self@.mail[j] == start.mail[j],
                done == exists|j: int|
                    0 <= j < i && deletable(
                        (#[trigger] start.mail[j]).0,
                        start.mail[j].1.state,
                        post_id as int,
                        all,
                    ),
            decreases n - i,
        {
            let ghost before = self@.mail;
            let key = self.mail.key_at(i);
            let row = self.mail.row_at(i);
            proof {
                assert(before[i as int] == start.mail[i as int]);
                assert(goal[i as int].0 == start.mail[i as int].0);
            }
            if exec_deletable(key, &row.state, post_id, all) {
                let mut next = row.dup();
                next.state.deleted_at = Some(now);
                let ghost model = next.model();
                self.mail.put_at(i, next);
                proof {
                    assert(self@.mail =~= before.update(i as int, (key, model)));
                    assert(deletable(
                        start.mail[i as int].0,
                        start.mail[i as int].1.state,
                        post_id as int,
                        all,
                    ));
                }
                done = true;
            }
            i = i + 1;
        }
        proof {
            assert(self@.mail =~= goal);
        }
        done
    }
}

impl Command for DeleteMail {
    open spec fn valid(&self) -> bool {
        true
    }

    open spec fn effect(&self, p: PlayerModel, m: Mutation, rules: Rules) -> Effect {
        delete_effect(p, m, self.post_id, self.delete_all_confirmed)
    }

    proof fn keeps_order(&self, p: PlayerModel, m: Mutation, rules: Rules) {
        broadcast use group_keyed;

        lemma_keyed_same(
            p.mail,
            pruned(p.mail, self.post_id as int, self.delete_all_confirmed, m.now),
            by_one(any64()),
        );
    }

    fn run(&self, p: &mut Player, m: &RpcMutation, rules: &RewardRules) -> (r: Result<
        (Summary, Summary),
        StoreError,
    >) {
        let ghost start = p@;
        let done: bool = p.prune_mail(self.post_id, self.delete_all_confirmed, m.committed_at);
        if done {
            match p.bump_mail_cursor() {
                Ok(()) => {},
                Err(e) => {
                    return Err(e);
                },
            }
        } else {
            proof {
                assert forall|i: int| 0 <= i < start.mail.len() implies !deletable(
                    (#[trigger] start.mail[i]).0,
                    start.mail[i].1.state,
                    self.post_id as int,
                    self.delete_all_confirmed,
                ) by {}
                assert(p@.mail =~= start.mail);
            }
        }
        Ok((Summary::Integer(self.post_id), Summary::Integer(self.post_id)))
    }
}

/// Claiming a step of the festival, whose reward comes by mail.
pub struct ClaimSamSeck {
    pub event_id: i64,
    pub post_id: i64,
    pub reward: RewardGrant,
}

/// How many pieces of a kind of content are owned.
pub open spec fn owned_count(owned: Seq<(Key, OwnedModel)>, kind: ContentKind) -> nat
    decreases owned.len(),
{
    if owned.len() == 0 {
        0
    } else {
        owned_count(owned.drop_last(), kind) + if owned.last().0.a == kind.rank() {
            1nat
        } else {
            0
        }
    }
}

/// Whether a step of the festival is reached.
pub open spec fn festival_reached(p: PlayerModel, event_id: i64) -> bool {
    if event_id == 1 {
        match get(p.levels, content_at(ContentKind::Character, 1)) {
            Some(row) => row.level >= 200,
            None => false,
        }
    } else if event_id == 2 {
        owned_count(p.owned, ContentKind::Music) >= 3
    } else if event_id == 3 {
        owned_count(p.owned, ContentKind::Follower) >= 1
    } else {
        false
    }
}

/// The last event with points, or nothing.
pub open spec fn event_step(events: Seq<(Key, EventRow)>) -> int
    decreases events.len(),
{
    if events.len() == 0 {
        0
    } else if events.last().1.points > 0 {
        events.last().0.a as int
    } else {
        event_step(events.drop_last())
    }
}

/// A reached step of the festival, if a client can count so far.
pub open spec fn festival_step(events: Seq<(Key, EventRow)>) -> Result<i32, StoreError> {
    let step = event_step(events);
    if i32::MIN <= step <= i32::MAX {
        Ok(step as i32)
    } else {
        Err(StoreError::Sql(SqlFault::Integral { value: step as i64, index: 0 }))
    }
}

pub open spec fn festival_effect(
    p: PlayerModel,
    m: Mutation,
    event_id: i64,
    post_id: i64,
    reward: RewardGrant,
) -> Effect {
    let key = k1(event_id as int);
    if !festival_reached(p, event_id) {
        Err(StoreError::Domain(DomainError::Locked))
    } else {
        match if in_table(p.samseck, key) {
            Ok((p, false))
        } else {
            reward_mailed(
                PlayerModel {
                    samseck: put(
                        p.samseck,
                        key,
                        EventRow { points: 1, step: event_id, version: 1 },
                    ),
                    ..p
                },
                post_id as int,
                "memorial.samseck.subject"@,
                "memorial.samseck.body"@,
                reward,
                m.now,
            )
        } {
            Err(e) => Err(e),
            Ok((q, _)) => match festival_step(q.samseck) {
                Err(e) => Err(e),
                Ok(step) => answered(q, Outcome::Step(step)),
            },
        }
    }
}

impl Player {
    fn count_owned(&self, kind: ContentKind) -> (n: usize)
        ensures
            n == owned_count(self@.owned, kind),
    {
        let mut n: usize = 0;
        let mut i: usize = 0;
        let rank: i64 = kind.exec_rank();
        proof {
            assert(self@.owned.take(0) =~= Seq::empty());
        }
        while i < self.owned.len()
            invariant
                i <= self@.owned.len(),
                rank == kind.rank(),
                n <= i,
                n == owned_count(self@.owned.take(i as int), kind),
            decreases self@.owned.len() - i,
        {
            proof {
                assert(self@.owned.take(i + 1).drop_last() =~= self@.owned.take(i as int));
            }
            if self.owned.key_at(i).a == rank {
                n = n + 1;
            }
            i = i + 1;
        }
        proof {
            assert(self@.owned.take(i as int) =~= self@.owned);
        }
        n
    }

    fn reaches_festival(&self, event_id: i64) -> (r: bool)
        ensures
            r == festival_reached(self@, event_id),
    {
        match event_id {
            1 => match self.levels.get(key2(ContentKind::Character.exec_rank(), 1)) {
                Some(row) => row.0.level >= 200,
                None => false,
            },
            2 => self.count_owned(ContentKind::Music) >= 3,
            3 => self.count_owned(ContentKind::Follower) >= 1,
            _ => false,
        }
    }

    pub(crate) fn sam_seck_step(&self) -> (r: Result<i32, StoreError>)
        ensures
            r == festival_step(self@.samseck),
    {
        let mut i: usize = self.samseck.len();
        let mut step: i64 = 0;
        proof {
            assert(self@.samseck.take(i as int) =~= self@.samseck);
        }
        let mut found: bool = false;
        while i > 0 && !found
            invariant
                i <= self@.samseck.len(),
                !found ==> event_step(self@.samseck) == event_step(self@.samseck.take(i as int)),
                !found ==> step == 0,
                found ==> event_step(self@.samseck) == step,
            decreases i,
        {
            proof {
                assert(self@.samseck.take(i as int).drop_last() =~= self@.samseck.take(i - 1));
            }
            if self.samseck.row_at(i - 1).0.points > 0 {
                step = self.samseck.key_at(i - 1).a;
                found = true;
            }
            i = i - 1;
        }
        if step < i32::MIN as i64 || step > i32::MAX as i64 {
            Err(StoreError::Sql(SqlFault::Integral { value: step, index: 0 }))
        } else {
            Ok(step as i32)
        }
    }
}

impl Command for ClaimSamSeck {
    open spec fn valid(&self) -> bool {
        true
    }

    open spec fn effect(&self, p: PlayerModel, m: Mutation, rules: Rules) -> Effect {
        festival_effect(p, m, self.event_id, self.post_id, self.reward)
    }

    proof fn keeps_order(&self, p: PlayerModel, m: Mutation, rules: Rules) {
        broadcast use group_keyed;

    }

    fn run(&self, p: &mut Player, m: &RpcMutation, rules: &RewardRules) -> (r: Result<
        (Summary, Summary),
        StoreError,
    >) {
        if !p.reaches_festival(self.event_id) {
            return Err(StoreError::Domain(DomainError::Locked));
        }
        let new: bool = p.samseck.put_new(
            key1(self.event_id),
            Plain(EventRow { points: 1, step: self.event_id, version: 1 }),
        );
        if new {
            match p.queue_reward_mail(
                self.post_id,
                "memorial.samseck.subject",
                "memorial.samseck.body",
                &self.reward,
                m.committed_at,
            ) {
                Ok(_) => {},
                Err(e) => {
                    return Err(e);
                },
            }
        }
        match p.sam_seck_step() {
            Err(e) => Err(e),
            Ok(step) => Ok((Summary::Step(step), Summary::Step(step))),
        }
    }
}

/// A mail as the client sees it, as a mathematical value.
pub ghost struct Letter {
    pub post_id: i64,
    pub subject: Seq<char>,
    pub body: Seq<char>,
    pub created_at: i64,
    pub read: bool,
    pub claimed: bool,
    pub reward: RewardGrant,
}

pub open spec fn letter(m: MailSnapshot) -> Letter {
    Letter {
        post_id: m.post_id,
        subject: m.subject@,
        body: m.body@,
        created_at: m.created_at,
        read: m.read,
        claimed: m.claimed,
        reward: m.reward,
    }
}

pub open spec fn letters(mail: Seq<MailSnapshot>) -> Seq<Letter> {
    mail.map_values(|m: MailSnapshot| letter(m))
}

/// The mail that is shown, by how new it is and then by how large its number is.
pub open spec fn inbox(mail: Seq<(Key, MailModel)>) -> Seq<(Key, MailModel)>
    decreases mail.len(),
{
    if mail.len() == 0 {
        Seq::empty()
    } else {
        let (key, row) = mail.last();
        let before = inbox(mail.drop_last());
        if row.state.deleted_at is None && row.state.reward is Some {
            put(before, k2(-1 - row.state.created_at, -1 - key.a), row)
        } else {
            before
        }
    }
}

/// The letters of an inbox, or the first reward that cannot be read.
pub open spec fn opened_letters(inbox: Seq<(Key, MailModel)>) -> Result<Seq<Letter>, StoreError>
    decreases inbox.len(),
{
    if inbox.len() == 0 {
        Ok(Seq::empty())
    } else {
        match opened_letters(inbox.drop_last()) {
            Err(e) => Err(e),
            Ok(before) => {
                let (key, row) = inbox.last();
                match row.state.reward {
                    None => Ok(before),
                    Some(reward) => match stored_grant(reward) {
                        Err(f) => Err(StoreError::Unreadable(f)),
                        Ok(grant) => Ok(
                            before.push(
                                Letter {
                                    post_id: (-1 - key.b) as i64,
                                    subject: row.subject_key,
                                    body: row.body_key,
                                    created_at: row.state.created_at,
                                    read: row.state.read_at is Some,
                                    claimed: row.state.claimed_at is Some,
                                    reward: grant,
                                },
                            ),
                        ),
                    },
                }
            },
        }
    }
}

proof fn lemma_letters_error(inbox: Seq<(Key, MailModel)>, i: int)
    requires
        0 <= i <= inbox.len(),
        opened_letters(inbox.take(i)) is Err,
    ensures
        opened_letters(inbox) == opened_letters(inbox.take(i)),
    decreases inbox.len() - i,
{
    if i < inbox.len() {
        assert(inbox.take(i + 1).drop_last() =~= inbox.take(i));
        lemma_letters_error(inbox, i + 1);
    } else {
        assert(inbox.take(i) =~= inbox);
    }
}

/// What a mailbox holds.
pub open spec fn mailbox_shown(p: PlayerModel, r: Result<MailboxSnapshot, StoreError>) -> bool {
    match opened_letters(inbox(p.mail)) {
        Err(e) => r == Err::<MailboxSnapshot, StoreError>(e),
        Ok(shown) => match r {
            Ok(s) => s.cursor == p.mail_cursor && letters(s.mail@) == shown,
            Err(_) => false,
        },
    }
}

impl Player {
    fn sorted_mail(&self) -> (t: Table<MailRow>)
        ensures
            t@ == inbox(self@.mail),
    {
        let mut t: Table<MailRow> = Table::new();
        let mut i: usize = 0;
        proof {
            assert(self@.mail.take(0) =~= Seq::empty());
        }
        while i < self.mail.len()
            invariant
                i <= self@.mail.len(),
                t@ == inbox(self@.mail.take(i as int)),
            decreases self@.mail.len() - i,
        {
            proof {
                assert(self@.mail.take(i + 1).drop_last() =~= self@.mail.take(i as int));
            }
            let row = self.mail.row_at(i);
            if !row.state.deleted_at.is_some() && row.state.reward.is_some() {
                t.put(key2(-1 - row.state.created_at, -1 - self.mail.key_at(i).a), row.dup());
            }
            i = i + 1;
        }
        proof {
            assert(self@.mail.take(i as int) =~= self@.mail);
        }
        t
    }

    pub(crate) fn mailbox(&self) -> (r: Result<MailboxSnapshot, StoreError>)
        ensures
            mailbox_shown(self@, r),
    {
        let table = self.sorted_mail();
        let ghost shown = table@;
        let mut mail: Vec<MailSnapshot> = Vec::new();
        let mut i: usize = 0;
        proof {
            assert(shown.take(0) =~= Seq::empty());
            assert(letters(mail@) =~= Seq::empty());
        }
        while i < table.len()
            invariant
                i <= shown.len(),
                shown == table@,
                shown == inbox(self@.mail),
                opened_letters(shown.take(i as int)) == Ok::<Seq<Letter>, StoreError>(
                    letters(mail@),
                ),
            decreases shown.len() - i,
        {
            proof {
                assert(shown.take(i + 1).drop_last() =~= shown.take(i as int));
                assert(shown.take(i + 1).last() == shown[i as int]);
            }
            let row = table.row_at(i);
            if let Some(reward) = row.state.reward {
                match stored_reward_grant(&reward) {
                    Err(f) => {
                        proof {
                            lemma_letters_error(shown, i + 1);
                        }
                        return Err(StoreError::Unreadable(f));
                    },
                    Ok(reward) => {
                        let ghost before = mail@;
                        mail.push(
                            MailSnapshot {
                                post_id: -1 - table.key_at(i).b,
                                subject: row.subject_key.clone(),
                                body: row.body_key.clone(),
                                created_at: row.state.created_at,
                                read: row.state.read_at.is_some(),
                                claimed: row.state.claimed_at.is_some(),
                                reward,
                            },
                        );
                        proof {
                            assert(letters(mail@) =~= letters(before).push(letter(mail@.last())));
                        }
                    },
                }
            }
            i = i + 1;
        }
        proof {
            assert(shown.take(i as int) =~= shown);
        }
        Ok(MailboxSnapshot { cursor: self.mail_cursor, mail })
    }
}

} // verus!
