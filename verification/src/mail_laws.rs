//! What mail means for a player.
use crate::command::{Command, Mutation, Rules};
use crate::domain::{ContentKind, CurrencyKind, DomainError, Reward, RewardGrant};
use crate::errors::{SqlFault, StoreError};
use crate::magnitude::Toward;
use crate::mail::{
    carries, deletable, event_step, festival_reached, inbox, mailable, mailed, owned_count, pending,
    prunable, queued, reward_mailed, stored, stored_applied, stored_grant, ClaimMail, ClaimSamSeck,
    DeleteMail, PostMail, ReadMail,
};
use crate::number::{Real, ONE, ZERO};
use crate::outcome::Outcome;
use crate::player::PlayerModel;
use crate::reward_laws::count_at;
use crate::rewards::granted;
use crate::rounding::lemma_two_values;
use crate::rows::{EventRow, LevelRow, MailModel, MailState, OwnedModel, StoredKind, StoredReward};
use crate::table::{get, k1, k2, key_less, law_get_put, law_put_sorted, put, sorted, Key};
use vstd::prelude::*;

verus! {

/// A mail with a number that is free is there afterwards, unread, unclaimed and with its
/// reward, and the mailbox has changed once more. Where the number is taken nothing
/// happens; other mail stays as it was in any case.
pub proof fn law_mail_arrives(
    p: PlayerModel,
    post_id: int,
    subject: Seq<char>,
    body: Seq<char>,
    reward: StoredReward,
    now: i64,
    other: Key,
)
    ensures
        match mailed(p, post_id, subject, body, reward, now) {
            Err(e) => p.mail_cursor == i64::MAX && get(p.mail, k1(post_id)) is None && e
                == StoreError::Sql(SqlFault::OutOfRange),
            Ok((q, new)) => {
                &&& new == (get(p.mail, k1(post_id)) is None)
                &&& !new ==> q == p
                &&& new ==> {
                    &&& get(q.mail, k1(post_id)) == Some(
                        MailModel {
                            subject_key: subject,
                            body_key: body,
                            state: MailState {
                                created_at: now,
                                read_at: None,
                                claimed_at: None,
                                deleted_at: None,
                                reward: Some(reward),
                            },
                        },
                    )
                    &&& q.mail_cursor == p.mail_cursor + 1
                    &&& other != k1(post_id) ==> get(q.mail, other) == get(p.mail, other)
                    &&& q == PlayerModel { mail: q.mail, mail_cursor: q.mail_cursor, ..p }
                }
            },
        },
{
    let row = MailModel {
        subject_key: subject,
        body_key: body,
        state: MailState {
            created_at: now,
            read_at: None,
            claimed_at: None,
            deleted_at: None,
            reward: Some(reward),
        },
    };
    law_get_put(p.mail, k1(post_id), row, k1(post_id));
    law_get_put(p.mail, k1(post_id), row, other);
}

/// Whether content that is sent is owned already, in the same channel or in all.
pub open spec fn owned_already(p: PlayerModel, kind: ContentKind, area: i32, id: i64) -> bool {
    get(p.owned, k2(kind.rank() as int, id as int)) matches Some(row) && (row.area == 0 || row.area
        == area)
}

/// Whether a mail that is neither claimed nor deleted carries a piece of content, for the
/// same channel or for all.
pub open spec fn brings(m: MailModel, kind: ContentKind, area: i32, id: i64) -> bool {
    m.state.claimed_at is None && m.state.deleted_at is None && (m.state.reward matches Some(r)
        && r.kind == StoredKind::Content(kind) && r.reward_id == Some(id) && (r.area == 0 || r.area
        == area))
}

/// Content is not sent where it is owned or on its way; balances are always sent. What is
/// sent is an ordinary mail with the reward.
pub proof fn law_content_is_sent_once(
    p: PlayerModel,
    post_id: int,
    subject: Seq<char>,
    body: Seq<char>,
    reward: Reward,
    now: i64,
)
    ensures
        ({
            let refused = reward matches Reward::Content { content, area, content_id } && (
            owned_already(p, content, area, content_id) || exists|i: int|
                0 <= i < p.mail.len() && brings(
                    (#[trigger] p.mail[i]).1,
                    content,
                    area,
                    content_id,
                ));
            queued(p, post_id, subject, body, reward, now) == if refused {
                Err(StoreError::Domain(DomainError::AlreadyOwned))
            } else {
                mailed(p, post_id, subject, body, stored(reward), now)
            }
        }),
{
    if let Reward::Content { content, area, content_id } = reward {
        if exists|i: int|
            0 <= i < p.mail.len() && brings((#[trigger] p.mail[i]).1, content, area, content_id) {
            let i = choose|i: int|
                0 <= i < p.mail.len() && brings(
                    (#[trigger] p.mail[i]).1,
                    content,
                    area,
                    content_id,
                );
            assert(carries(p.mail[i].1.state, content, area, content_id as int));
        }
        if pending(p, content, area, content_id as int) {
            let i = choose|i: int|
                0 <= i < p.mail.len() && carries(
                    (#[trigger] p.mail[i]).1.state,
                    content,
                    area,
                    content_id as int,
                );
            assert(brings(p.mail[i].1, content, area, content_id));
        }
    }
}

/// Mail keeps which balance or which content a reward is, its amount and its channel.
pub proof fn law_mail_stores(reward: Reward)
    ensures
        match reward {
            Reward::Currency { currency, amount } => stored(reward).kind == StoredKind::Currency(
                currency,
            ) && stored(reward).amount == Some(amount),
            Reward::Content { content, area, content_id } => stored(reward).kind
                == StoredKind::Content(content) && stored(reward).reward_id == Some(content_id)
                && stored(reward).area == area,
        },
{
}

/// A mail without a given number gets the number after the last one, which is answered.
pub proof fn law_mail_is_numbered(
    p: PlayerModel,
    m: Mutation,
    rules: Rules,
    c: PostMail,
)
    ensures
        c.effect(p, m, rules) matches Ok((q, answer, _)) ==> {
            let number: int = if p.mail.len() == 0 {
                1
            } else {
                p.mail.last().0.a + 1
            };
            &&& answer == Outcome::Integer(number as i64)
            &&& get(p.mail, k1(number)) is None
            &&& queued(p, number, c.subject_key@, c.body_key@, c.reward, m.now) == Ok::<
                (PlayerModel, bool),
                StoreError,
            >((q, true))
        },
        c.effect(p, m, rules) is Err ==> {
            let number: int = if p.mail.len() == 0 {
                1
            } else {
                p.mail.last().0.a + 1
            };
            number > i64::MAX || get(p.mail, k1(number)) is Some || queued(
                p,
                number,
                c.subject_key@,
                c.body_key@,
                c.reward,
                m.now,
            ) is Err
        },
{
}

/// Whether a mail is there and not deleted.
pub open spec fn in_box(p: PlayerModel, post_id: i64) -> bool {
    get(p.mail, k1(post_id as int)) matches Some(row) && row.state.deleted_at is None
}

/// Reading a mail marks when it was first read, and nothing else of it; a mail that is not
/// there is missing.
pub proof fn law_mail_is_read(p: PlayerModel, m: Mutation, rules: Rules, c: ReadMail, other: Key)
    ensures
        ({
            let key = k1(c.post_id as int);
            match c.effect(p, m, rules) {
                Err(e) => if in_box(p, c.post_id) {
                    p.mail_cursor == i64::MAX
                } else {
                    e == StoreError::MissingMail(c.post_id)
                },
                Ok((q, answer, _)) => {
                    let before = get(p.mail, key)->Some_0;
                    &&& in_box(p, c.post_id)
                    &&& answer == Outcome::Integer(c.post_id)
                    &&& get(q.mail, key) == Some(
                        MailModel {
                            state: MailState {
                                read_at: match before.state.read_at {
                                    Some(at) => Some(at),
                                    None => Some(m.now),
                                },
                                ..before.state
                            },
                            ..before
                        },
                    )
                    &&& other != key ==> get(q.mail, other) == get(p.mail, other)
                    &&& q.mail_cursor == p.mail_cursor + 1
                    &&& q == PlayerModel { mail: q.mail, mail_cursor: q.mail_cursor, ..p }
                },
            }
        }),
{
    let key = k1(c.post_id as int);
    if in_box(p, c.post_id) {
        let before = get(p.mail, key)->Some_0;
        let row = MailModel {
            state: MailState {
                read_at: match before.state.read_at {
                    Some(at) => Some(at),
                    None => Some(m.now),
                },
                ..before.state
            },
            ..before
        };
        law_get_put(p.mail, key, row, key);
        law_get_put(p.mail, key, row, other);
    }
}

/// The reward of a mail is given once: then the mail is claimed and read, and its reward
/// is what the answer says. A claimed mail is refused, and so is one without a reward.
pub proof fn law_mail_is_claimed_once(
    p: PlayerModel,
    m: Mutation,
    rules: Rules,
    c: ClaimMail,
    later: Mutation,
    other: Key,
)
    ensures
        ({
            let key = k1(c.post_id as int);
            let before = get(p.mail, key)->Some_0;
            match c.effect(p, m, rules) {
                Err(e) => {
                    &&& !in_box(p, c.post_id) || before.state.reward is None ==> e
                        == StoreError::MissingMail(c.post_id)
                    &&& in_box(p, c.post_id) && before.state.reward is Some
                        && before.state.claimed_at is Some ==> e == StoreError::MailAlreadyClaimed(
                        c.post_id,
                    )
                    &&& in_box(p, c.post_id) && before.state.reward is Some
                        && before.state.claimed_at is None ==> stored_grant(
                        before.state.reward->Some_0,
                    ) is Err || stored_applied(
                        p,
                        rules,
                        before.state.reward->Some_0,
                        m.now,
                        "mail"@,
                    ) is Err || stored_applied(
                        p,
                        rules,
                        before.state.reward->Some_0,
                        m.now,
                        "mail"@,
                    )->Ok_0.mail_cursor == i64::MAX
                },
                Ok((q, answer, _)) => {
                    let reward = before.state.reward->Some_0;
                    let given = stored_applied(p, rules, reward, m.now, "mail"@);
                    &&& in_box(p, c.post_id) && before.state.reward is Some
                        && before.state.claimed_at is None
                    &&& given is Ok
                    &&& stored_grant(reward) matches Ok(grant) && answer == Outcome::MailGrant(
                        Some(grant),
                    )
                    &&& q == PlayerModel { mail: q.mail, mail_cursor: q.mail_cursor, ..given->Ok_0 }
                    &&& q.mail_cursor == given->Ok_0.mail_cursor + 1
                    &&& get(q.mail, key) matches Some(after) && after.state.claimed_at == Some(
                        m.now,
                    ) && after.state.read_at == (match before.state.read_at {
                        Some(at) => Some(at),
                        None => Some(m.now),
                    }) && after.state.deleted_at is None && after.state.reward
                        == before.state.reward && after.subject_key == before.subject_key
                        && after.body_key == before.body_key
                    &&& other != key ==> get(q.mail, other) == get(given->Ok_0.mail, other)
                    &&& c.effect(q, later, rules) == Err::<
                        (PlayerModel, Outcome, Outcome),
                        StoreError,
                    >(StoreError::MailAlreadyClaimed(c.post_id))
                },
            }
        }),
{
    let key = k1(c.post_id as int);
    if let Ok((q, _, _)) = c.effect(p, m, rules) {
        let before = get(p.mail, key)->Some_0;
        let r = stored_applied(p, rules, before.state.reward->Some_0, m.now, "mail"@)->Ok_0;
        let row = MailModel {
            state: MailState {
                claimed_at: Some(m.now),
                read_at: match before.state.read_at {
                    Some(at) => Some(at),
                    None => Some(m.now),
                },
                ..before.state
            },
            ..before
        };
        law_get_put(r.mail, key, row, key);
        law_get_put(r.mail, key, row, other);
    }
}

/// What a reward in the mail gives: a balance grows by its amount, of a gift there are
/// that many more, and content is owned at the level that it had or at the first. Fans
/// are given as the reward that multiplies them.
pub proof fn law_mail_gives(
    p: PlayerModel,
    rules: Rules,
    r: StoredReward,
    now: i64,
    source: Seq<char>,
    kind: CurrencyKind,
    other: Key,
)
    ensures
        match r.kind {
            StoredKind::Currency(of) => if of == CurrencyKind::Fans {
                match stored_grant(r) {
                    Err(_) => stored_applied(p, rules, r, now, source) is Err,
                    Ok(grant) => match granted(p, rules, grant, now, source) {
                        Err(_) => stored_applied(p, rules, r, now, source) is Err,
                        Ok((t, _)) => stored_applied(p, rules, r, now, source) == Ok::<
                            PlayerModel,
                            StoreError,
                        >(t),
                    },
                }
            } else {
                match stored_applied(p, rules, r, now, source) {
                    Err(e) => r.amount matches Some(x) && !x.amount() && e == StoreError::Domain(
                        DomainError::InvalidAmount,
                    ),
                    Ok(q) => {
                        let amount = match r.amount {
                            Some(x) => x,
                            None => Real { bits: ZERO },
                        };
                        &&& amount.amount()
                        &&& q.wallet.balance(kind) == if kind == of {
                            p.wallet.balance(kind).plus(amount)
                        } else {
                            p.wallet.balance(kind)
                        }
                        &&& q == PlayerModel { wallet: q.wallet, ..p }
                    },
                }
            },
            StoredKind::Content(of) => (r.reward_id is Some && of != ContentKind::Gift
                ==> stored_applied(p, rules, r, now, source) is Ok) && (r.reward_id is Some && of
                == ContentKind::Gift && stored_applied(p, rules, r, now, source) is Err ==> {
                let amount = match r.amount {
                    Some(x) => x,
                    None => Real { bits: ONE },
                };
                let n = amount.rounding(Toward::Nearest).or_larger(
                    Real { bits: ZERO },
                ).as_int() as i64;
                !(i64::MIN <= count_at(p.gifts, k1(r.reward_id->Some_0 as int)) + n <= i64::MAX)
            }) && (stored_applied(p, rules, r, now, source) matches Ok(q) ==> {
                &&& r.reward_id is Some
                &&& of == ContentKind::Gift ==> {
                    let amount = match r.amount {
                        Some(x) => x,
                        None => Real { bits: ONE },
                    };
                    let n = amount.rounding(Toward::Nearest).or_larger(
                        Real { bits: ZERO },
                    ).as_int() as i64;
                    let key = k1(r.reward_id->Some_0 as int);
                    &&& count_at(q.gifts, key) == count_at(p.gifts, key) + n
                    &&& other != key ==> get(q.gifts, other) == get(p.gifts, other)
                    &&& q == PlayerModel { gifts: q.gifts, ..p }
                }
                &&& of != ContentKind::Gift ==> {
                    let key = k2(of.rank() as int, r.reward_id->Some_0 as int);
                    &&& get(q.owned, key) == Some(
                        match get(p.owned, key) {
                            Some(before) => before,
                            None => OwnedModel { area: r.area, acquired_at: now, source },
                        },
                    )
                    &&& get(q.levels, key) == Some(
                        match get(p.levels, key) {
                            Some(before) => before,
                            None => LevelRow { level: 1, reward_level: 0 },
                        },
                    )
                    &&& other != key ==> get(q.owned, other) == get(p.owned, other) && get(
                        q.levels,
                        other,
                    ) == get(p.levels, other)
                    &&& q == PlayerModel { owned: q.owned, levels: q.levels, ..p }
                }
            }),
        },
{
    if let StoredKind::Currency(of) = r.kind {
        lemma_two_values();
    }
    if let StoredKind::Content(of) = r.kind {
        if let Some(id) = r.reward_id {
            let amount = match r.amount {
                Some(x) => x,
                None => Real { bits: ONE },
            };
            let n = amount.rounding(Toward::Nearest).or_larger(Real { bits: ZERO }).as_int() as i64;
            let at = k1(id as int);
            law_get_put(p.gifts, at, (count_at(p.gifts, at) + n) as i64, at);
            law_get_put(p.gifts, at, (count_at(p.gifts, at) + n) as i64, other);
            let key = k2(of.rank() as int, id as int);
            let own = OwnedModel { area: r.area, acquired_at: now, source };
            let level = LevelRow { level: 1, reward_level: 0 };
            law_get_put(p.owned, key, own, key);
            law_get_put(p.owned, key, own, other);
            law_get_put(p.levels, key, level, key);
            law_get_put(p.levels, key, level, other);
        }
    }
}

/// Whether a mail may go: one that was claimed, or, when all is cleared, one without a
/// reward that was read.
pub open spec fn may_go(m: MailModel, all: bool) -> bool {
    m.state.deleted_at is None && (m.state.claimed_at is Some || (all && m.state.reward is None
        && m.state.read_at is Some))
}

/// Deleting marks exactly what may go, among all mail or for the one number, and leaves
/// every other mail as it was: nothing that is still to be claimed is ever deleted.
pub proof fn law_mail_is_deleted(p: PlayerModel, m: Mutation, rules: Rules, c: DeleteMail, i: int)
    requires
        0 <= i < p.mail.len(),
    ensures
        c.effect(p, m, rules) matches Ok((q, answer, _)) ==> {
            let (key, before) = p.mail[i];
            let all = c.delete_all_confirmed;
            let goes = may_go(before, all) && (all || key == k1(c.post_id as int));
            &&& answer == Outcome::Integer(c.post_id)
            &&& q.mail.len() == p.mail.len()
            &&& q.mail[i].0 == key
            &&& q.mail[i].1 == if goes {
                MailModel {
                    state: MailState { deleted_at: Some(m.now), ..before.state },
                    ..before
                }
            } else {
                before
            }
            &&& q == PlayerModel { mail: q.mail, mail_cursor: q.mail_cursor, ..p }
            &&& goes ==> q.mail_cursor == p.mail_cursor + 1
            &&& (forall|j: int|
                0 <= j < p.mail.len() ==> !may_go((#[trigger] p.mail[j]).1, all) || !(all
                    || p.mail[j].0 == k1(c.post_id as int))) ==> q == p
            &&& q.mail_cursor == p.mail_cursor || q.mail_cursor == p.mail_cursor + 1
        },
        c.effect(p, m, rules) is Err ==> p.mail_cursor == i64::MAX,
{
    let all = c.delete_all_confirmed;
    let (key, before) = p.mail[i];
    let goes = may_go(before, all) && (all || key == k1(c.post_id as int));
    assert(goes == deletable(key, before.state, c.post_id as int, all));
    if prunable(p.mail, c.post_id as int, all) {
        let j = choose|j: int|
            0 <= j < p.mail.len() && deletable(
                (#[trigger] p.mail[j]).0,
                p.mail[j].1.state,
                c.post_id as int,
                all,
            );
        assert(may_go(p.mail[j].1, all) && (all || p.mail[j].0 == k1(c.post_id as int)));
    }
    if goes {
        assert(prunable(p.mail, c.post_id as int, all));
    }
}

/// What a step of the festival asks for: the first that the character is at level 200, the
/// second three pieces of music, the third a follower.
pub proof fn law_festival_goals(p: PlayerModel, event_id: i64)
    ensures
        festival_reached(p, 1) <==> (get(
            p.levels,
            k2(ContentKind::Character.rank() as int, 1),
        ) matches Some(row) && row.level >= 200),
        festival_reached(p, 2) <==> owned_count(p.owned, ContentKind::Music) >= 3,
        festival_reached(p, 3) <==> owned_count(p.owned, ContentKind::Follower) >= 1,
        !(1 <= event_id <= 3) ==> !festival_reached(p, event_id),
{
}

/// Every piece of content counts for its kind and for no other.
pub proof fn law_owned_count(
    owned: Seq<(Key, OwnedModel)>,
    row: (Key, OwnedModel),
    kind: ContentKind,
)
    ensures
        owned_count(Seq::empty(), kind) == 0,
        owned_count(owned.push(row), kind) == owned_count(owned, kind) + if row.0.a
            == kind.rank() {
            1nat
        } else {
            0
        },
{
    assert(owned.push(row).drop_last() =~= owned);
}

/// A step of the festival that is reached is entered once, and its reward comes by mail;
/// what is not reached is locked, and other steps stay as they were.
pub proof fn law_festival(p: PlayerModel, m: Mutation, rules: Rules, c: ClaimSamSeck, other: Key)
    ensures
        ({
            let key = k1(c.event_id as int);
            &&& !festival_reached(p, c.event_id) ==> c.effect(p, m, rules) == Err::<
                (PlayerModel, Outcome, Outcome),
                StoreError,
            >(StoreError::Domain(DomainError::Locked))
            &&& c.effect(p, m, rules) matches Ok((q, answer, _)) ==> {
                &&& festival_reached(p, c.event_id)
                &&& get(q.samseck, key) is Some
                &&& other != key ==> get(q.samseck, other) == get(p.samseck, other)
                &&& get(p.samseck, key) is Some ==> q == p
                &&& get(p.samseck, key) is None ==> (get(q.samseck, key) matches Some(row)
                    && row.points > 0 && row.step == c.event_id) && (reward_mailed(
                    PlayerModel { samseck: q.samseck, ..p },
                    c.post_id as int,
                    "memorial.samseck.subject"@,
                    "memorial.samseck.body"@,
                    c.reward,
                    m.now,
                ) matches Ok((t, _)) && t == q)
                &&& answer == Outcome::Step(event_step(q.samseck) as i32)
            }
            &&& c.effect(p, m, rules) is Err && festival_reached(p, c.event_id) ==> {
                let row = EventRow { points: 1, step: c.event_id, version: 1 };
                let entered = put(p.samseck, key, row);
                ||| !(i32::MIN <= event_step(p.samseck) <= i32::MAX)
                ||| !(i32::MIN <= event_step(entered) <= i32::MAX)
                ||| get(p.samseck, key) is None && reward_mailed(
                    PlayerModel { samseck: entered, ..p },
                    c.post_id as int,
                    "memorial.samseck.subject"@,
                    "memorial.samseck.body"@,
                    c.reward,
                    m.now,
                ) is Err
            }
        }),
{
    let key = k1(c.event_id as int);
    let row = EventRow { points: 1, step: c.event_id, version: 1 };
    law_get_put(p.samseck, key, row, key);
    law_get_put(p.samseck, key, row, other);
}

/// A counted reward that comes by mail is stored as mail keeps it, unless the number is
/// taken; what mail cannot keep is refused.
pub proof fn law_rewards_are_mailed(
    p: PlayerModel,
    post_id: int,
    subject: Seq<char>,
    body: Seq<char>,
    reward: RewardGrant,
    now: i64,
)
    ensures
        reward_mailed(p, post_id, subject, body, reward, now) == if get(
            p.mail,
            k1(post_id),
        ) is Some {
            Ok((p, false))
        } else {
            match mailable(reward) {
                Err(f) => Err(StoreError::UnsupportedReward(f)),
                Ok(r) => mailed(p, post_id, subject, body, r, now),
            }
        },
        mailable(reward) is Ok <==> (reward.reward_type == 1 && 1 <= reward.reward_id <= 10) || 2
            <= reward.reward_type <= 9 || reward.reward_type == 11,
{
}

/// The last step of the festival that was reached is one with points, and no later one is.
pub proof fn law_last_step(events: Seq<(Key, EventRow)>, i: int)
    requires
        sorted(events),
        forall|j: int|
            0 <= j < events.len() ==> (#[trigger] events[j]).0 == k1(events[j].0.a as int),
    ensures
        0 <= i < events.len() && events[i].1.points > 0 ==> events[i].0.a <= event_step(events),
        event_step(events) == 0 || exists|j: int|
            0 <= j < events.len() && (#[trigger] events[j]).0.a == event_step(events)
                && events[j].1.points > 0,
    decreases events.len(),
{
    if events.len() > 0 {
        let front = events.drop_last();
        let n = events.len() - 1;
        assert forall|j: int| 0 <= j < n implies #[trigger] front[j] == events[j] by {}
        assert forall|j: int| 0 <= j < front.len() implies (#[trigger] front[j]).0 == k1(
            front[j].0.a as int,
        ) by {
            assert(front[j] == events[j]);
        }
        assert(events[n] == events.last());
        law_last_step(front, i);
        if events.last().1.points > 0 {
            if 0 <= i < n {
                assert(key_less(events[i].0, events[n].0));
            }
        } else {
            if 0 <= i < n {
                assert(front[i] == events[i]);
            }
            if event_step(front) != 0 {
                let j = choose|j: int|
                    0 <= j < front.len() && (#[trigger] front[j]).0.a == event_step(front)
                        && front[j].1.points > 0;
                assert(events[j] == front[j]);
            }
        }
    }
}

/// The inbox holds exactly the mail that is not deleted and has a reward, under keys that
/// put newer mail before older and larger numbers before smaller.
pub proof fn law_inbox(mail: Seq<(Key, MailModel)>, i: int)
    requires
        forall|j: int, k: int|
            0 <= j < k < mail.len() ==> (#[trigger] mail[j]).0.a != (#[trigger] mail[k]).0.a,
    ensures
        0 <= i < mail.len() && mail[i].1.state.deleted_at is None && mail[i].1.state.reward is Some
            ==> get(inbox(mail), k2(-1 - mail[i].1.state.created_at, -1 - mail[i].0.a)) == Some(
            mail[i].1,
        ),
        forall|k: Key|
            #[trigger] get(inbox(mail), k) matches Some(row) ==> row.state.deleted_at is None
                && row.state.reward is Some,
    decreases mail.len(),
{
    if mail.len() > 0 {
        let front = mail.drop_last();
        let n = mail.len() - 1;
        assert forall|j: int, k: int| 0 <= j < k < front.len() implies (#[trigger] front[j]).0.a
            != (#[trigger] front[k]).0.a by {
            assert(front[j] == mail[j] && front[k] == mail[k]);
        }
        law_inbox(front, i);
        let (key, row) = mail.last();
        assert(mail[n] == mail.last());
        let at = k2(-1 - row.state.created_at, -1 - key.a);
        if 0 <= i < n {
            assert(front[i] == mail[i]);
            assert(mail[i].0.a != mail[n].0.a);
        }
        if 0 <= i < mail.len() {
            law_get_put(
                inbox(front),
                at,
                row,
                k2(-1 - mail[i].1.state.created_at, -1 - mail[i].0.a),
            );
        }
        assert forall|k: Key|
            #[trigger] get(inbox(mail), k) is Some implies get(
            inbox(mail),
            k,
        )->Some_0.state.deleted_at is None && get(inbox(mail), k)->Some_0.state.reward is Some by {
            law_get_put(inbox(front), at, row, k);
        }
    }
}

/// In the inbox newer mail stands before older, and of one time the larger number first.
pub proof fn law_inbox_order(mail: Seq<(Key, MailModel)>)
    ensures
        sorted(inbox(mail)),
    decreases mail.len(),
{
    if mail.len() > 0 {
        law_inbox_order(mail.drop_last());
        let (key, row) = mail.last();
        law_put_sorted(
            inbox(mail.drop_last()),
            k2(-1 - row.state.created_at, -1 - key.a),
            row,
        );
    }
}

} // verus!
