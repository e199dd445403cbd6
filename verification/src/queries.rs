//! What the store tells of a player, and the changes that are no request.
use crate::ch3::restored;
use crate::claims::events_claimed;
use crate::domain::{
    AdLevelSnapshot, BookmarkSnapshot, Ch3Snapshot, ContentKind, CurrencyKind, DeviceClock,
    DomainError, MailboxSnapshot, MusicReviewSnapshot, MusicScoreSnapshot, PassSnapshot,
    PlayerSnapshot, Reward, Usn,
};
use crate::errors::{SqlFault, StoreError};
use crate::mail::{delivered, festival_step, mailbox_shown, pending, posted, queued};
use crate::music::{bookmarks_shown, reviews_shown, score_models, scores_shown};
use crate::number::Real;
use crate::outcome::Score;
use crate::pass::{is_season, pass_result, season_selected};
use crate::player::{Player, PlayerModel};
use crate::rewards::Change;
use crate::rows::GrantRow;
use crate::shop::ad_level_of;
use crate::snapshot::{ch3_shows, player_shown};
use crate::store::{slot_at, with_player, Database, StoreModel};
use crate::table::{find, key1, place, Plain};
use vstd::prelude::*;

verus! {

/// What is said of a slot that is not there.
pub open spec fn no_slot<T>() -> Result<T, StoreError> {
    Err(StoreError::Sql(SqlFault::NoRows))
}

/// What a change of one player that is no request leaves and returns.
pub open spec fn altered<T>(
    before: StoreModel,
    usn: int,
    effect: Change<T>,
    after: StoreModel,
    r: Result<T, StoreError>,
) -> bool {
    match effect {
        Err(e) => r == Err::<T, StoreError>(e) && after == before,
        Ok((q, value)) => r == Ok::<T, StoreError>(value) && after == with_player(before, usn, q),
    }
}

/// An amount granted once under a name.
pub open spec fn granted_once(
    p: PlayerModel,
    kind: CurrencyKind,
    amount: Real,
    transaction: Seq<char>,
    now: i64,
) -> Change<bool> {
    if find(p.grants, transaction) is Some {
        Ok((p, false))
    } else {
        Ok(
            (
                PlayerModel {
                    wallet: p.wallet.plus(kind, amount),
                    grants: place(
                        p.grants,
                        transaction,
                        GrantRow {
                            reward: Reward::Currency { currency: kind, amount },
                            created_at: now,
                        },
                    ),
                    ..p
                },
                true,
            ),
        )
    }
}

/// A change of a player without an answer.
pub open spec fn without_answer(effect: Result<PlayerModel, StoreError>) -> Change<()> {
    match effect {
        Err(e) => Err(e),
        Ok(q) => Ok((q, ())),
    }
}

/// A player with the energy of the third channel restored.
pub open spec fn energy_restored(p: PlayerModel, now: i64, cap: i32) -> PlayerModel {
    PlayerModel { energy: restored(p.energy, now, cap), ..p }
}

impl Database {
    fn player_at(&self, usn: Usn) -> (r: Option<&Player>)
        ensures
            match slot_at(self@, usn as int) {
                Some(slot) => r matches Some(p) && p@ == slot.player,
                None => r is None,
            },
    {
        match self.slots.get(key1(usn)) {
            Some(slot) => Some(&slot.player),
            None => None,
        }
    }

    fn player_copy(&self, usn: Usn) -> (r: Option<Player>)
        ensures
            match slot_at(self@, usn as int) {
                Some(slot) => r matches Some(p) && p@ == slot.player,
                None => r is None,
            },
    {
        match self.player_at(usn) {
            Some(p) => Some(p.dup()),
            None => None,
        }
    }

    /// A balance.
    pub fn currency(&self, usn: Usn, kind: CurrencyKind) -> (r: Result<Real, StoreError>)
        ensures
            r == match slot_at(self@, usn as int) {
                Some(slot) => Ok(slot.player.wallet.balance(kind)),
                None => no_slot(),
            },
    {
        match self.player_at(usn) {
            Some(p) => Ok(p.wallet.get(kind)),
            None => Err(StoreError::Sql(SqlFault::NoRows)),
        }
    }

    /// The level of a group of advertisements.
    pub fn ad_level(&self, usn: Usn, group_id: i64) -> (r: Result<AdLevelSnapshot, StoreError>)
        ensures
            r == match slot_at(self@, usn as int) {
                Some(slot) => ad_level_of(slot.player, group_id),
                None => no_slot(),
            },
    {
        match self.player_at(usn) {
            Some(p) => p.ad_level_snapshot(group_id),
            None => Err(StoreError::Sql(SqlFault::NoRows)),
        }
    }

    /// Everything about a player.
    pub fn player_snapshot(&self, usn: Usn) -> (r: Result<PlayerSnapshot, StoreError>)
        ensures
            match slot_at(self@, usn as int) {
                Some(slot) => player_shown(slot.player, usn as int, slot.user_id, r),
                None => r == no_slot::<PlayerSnapshot>(),
            },
    {
        match self.slots.get(key1(usn)) {
            Some(slot) => slot.player.snapshot(usn, &slot.user_id),
            None => Err(StoreError::Sql(SqlFault::NoRows)),
        }
    }

    /// The reached step of the festival.
    pub fn sam_seck_step(&self, usn: Usn) -> (r: Result<i32, StoreError>)
        ensures
            r == match slot_at(self@, usn as int) {
                Some(slot) => festival_step(slot.player.samseck),
                None => Ok(0),
            },
    {
        match self.player_at(usn) {
            Some(p) => p.sam_seck_step(),
            None => Ok(0),
        }
    }

    /// The claimed daily events.
    pub fn claimed_event_rewards(&self, usn: Usn) -> (r: Result<Vec<i64>, StoreError>)
        ensures
            r matches Ok(ids) && ids@ == match slot_at(self@, usn as int) {
                Some(slot) => events_claimed(slot.player.daily_rewards),
                None => Seq::empty(),
            },
    {
        match self.player_at(usn) {
            Some(p) => Ok(p.claimed_event_rewards()),
            None => Ok(Vec::new()),
        }
    }

    /// The ratings.
    pub fn music_reviews(&self, usn: Usn) -> (r: Result<Vec<MusicReviewSnapshot>, StoreError>)
        ensures
            r matches Ok(list) && list@ == match slot_at(self@, usn as int) {
                Some(slot) => reviews_shown(slot.player.reviews),
                None => Seq::empty(),
            },
    {
        match self.player_at(usn) {
            Some(p) => Ok(p.music_reviews()),
            None => Ok(Vec::new()),
        }
    }

    /// The bookmarks.
    pub fn bookmarks(&self, usn: Usn) -> (r: Result<Vec<BookmarkSnapshot>, StoreError>)
        ensures
            r matches Ok(list) && list@ == match slot_at(self@, usn as int) {
                Some(slot) => bookmarks_shown(slot.player.bookmarks),
                None => Seq::empty(),
            },
    {
        match self.player_at(usn) {
            Some(p) => Ok(p.bookmarks()),
            None => Ok(Vec::new()),
        }
    }

    /// The scores.
    pub fn music_scores(&self, usn: Usn) -> (r: Result<Vec<MusicScoreSnapshot>, StoreError>)
        ensures
            r matches Ok(list) && score_models(list@) == match slot_at(self@, usn as int) {
                Some(slot) => scores_shown(slot.player.scores),
                None => Seq::empty(),
            },
    {
        match self.player_at(usn) {
            Some(p) => Ok(p.music_scores()),
            None => {
                let none: Vec<MusicScoreSnapshot> = Vec::new();
                proof {
                    assert(score_models(none@) =~= Seq::<Score>::empty());
                }
                Ok(none)
            },
        }
    }

    /// The third channel as it is stored.
    pub fn ch3_snapshot_raw(&self, usn: Usn) -> (r: Result<Ch3Snapshot, StoreError>)
        ensures
            match slot_at(self@, usn as int) {
                Some(slot) => r matches Ok(s) && ch3_shows(slot.player, s),
                None => r == no_slot::<Ch3Snapshot>(),
            },
    {
        match self.player_at(usn) {
            Some(p) => Ok(p.ch3_snapshot()),
            None => Err(StoreError::Sql(SqlFault::NoRows)),
        }
    }

    /// The third channel at a time; the energy up to then is stored.
    pub fn ch3_snapshot_at(&mut self, usn: Usn, now: i64, cap: i32) -> (r: Result<
        Ch3Snapshot,
        StoreError,
    >)
        ensures
            match slot_at(old(self)@, usn as int) {
                Some(slot) => {
                    let p = energy_restored(slot.player, now, cap);
                    final(self)@ == with_player(old(self)@, usn as int, p) && (r matches Ok(s)
                        && ch3_shows(p, s))
                },
                None => final(self)@ == old(self)@ && r == no_slot::<Ch3Snapshot>(),
            },
    {
        let mut p = match self.player_copy(usn) {
            Some(p) => p,
            None => {
                return Err(StoreError::Sql(SqlFault::NoRows));
            },
        };
        p.restore_ch3_energy(now, cap);
        let shown = p.ch3_snapshot();
        self.set_player(usn, p);
        Ok(shown)
    }

    /// When a save was last merged, and the device.
    pub fn last_save_time(&self, usn: Usn) -> (r: Result<(i64, String), StoreError>)
        ensures
            match slot_at(self@, usn as int) {
                Some(slot) => r matches Ok(v) && v.0 == slot.player.core.last_save_time && v.1@
                    == slot.player.device_uuid,
                None => r == no_slot::<(i64, String)>(),
            },
    {
        match self.player_at(usn) {
            Some(p) => Ok((p.core.last_save_time, p.device_uuid.clone())),
            None => Err(StoreError::Sql(SqlFault::NoRows)),
        }
    }

    /// Adds to a balance once under a name; whether it was added.
    pub fn grant_currency(
        &mut self,
        usn: Usn,
        kind: CurrencyKind,
        amount: Real,
        transaction_id: &str,
        now: i64,
    ) -> (r: Result<bool, StoreError>)
        ensures
            if !amount.amount() {
                r == Err::<bool, StoreError>(StoreError::Domain(DomainError::InvalidAmount))
                    && final(self)@ == old(self)@
            } else {
                altered(
                    old(self)@,
                    usn as int,
                    match slot_at(old(self)@, usn as int) {
                        Some(slot) => granted_once(
                            slot.player,
                            kind,
                            amount,
                            transaction_id@,
                            now,
                        ),
                        None => Err(StoreError::Sql(SqlFault::ForeignKey)),
                    },
                    final(self)@,
                    r,
                )
            },
    {
        if !amount.is_amount() {
            return Err(StoreError::Domain(DomainError::InvalidAmount));
        }
        let mut p = match self.player_copy(usn) {
            Some(p) => p,
            None => {
                return Err(StoreError::Sql(SqlFault::ForeignKey));
            },
        };
        let name = transaction_id.to_owned();
        let known: bool = p.grants.find(&name).is_some();
        if !known {
            p.wallet.add(kind, amount);
            p.grants.place(
                name,
                Plain(
                    GrantRow {
                        reward: Reward::Currency { currency: kind, amount },
                        created_at: now,
                    },
                ),
            );
        }
        self.set_player(usn, p);
        Ok(!known)
    }

    /// Sends a mail with a number; whether the number was free.
    pub fn queue_mail(
        &mut self,
        usn: Usn,
        post_id: i64,
        subject_key: &str,
        body_key: &str,
        reward: &Reward,
        now: i64,
    ) -> (r: Result<bool, StoreError>)
        ensures
            altered(
                old(self)@,
                usn as int,
                match slot_at(old(self)@, usn as int) {
                    Some(slot) => queued(
                        slot.player,
                        post_id as int,
                        subject_key@,
                        body_key@,
                        *reward,
                        now,
                    ),
                    None => Err(StoreError::Sql(SqlFault::ForeignKey)),
                },
                final(self)@,
                r,
            ),
    {
        let mut p = match self.player_copy(usn) {
            Some(p) => p,
            None => {
                return Err(StoreError::Sql(SqlFault::ForeignKey));
            },
        };
        match p.queue_mail(post_id, subject_key, body_key, reward, now) {
            Err(e) => Err(e),
            Ok(new) => {
                self.set_player(usn, p);
                Ok(new)
            },
        }
    }

    /// Sends a mail with the next number.
    pub fn queue_generated_mail(
        &mut self,
        usn: Usn,
        subject_key: &str,
        body_key: &str,
        reward: &Reward,
        now: i64,
    ) -> (r: Result<i64, StoreError>)
        ensures
            altered(
                old(self)@,
                usn as int,
                match slot_at(old(self)@, usn as int) {
                    Some(slot) => posted(slot.player, subject_key@, body_key@, *reward, now),
                    None => Err(StoreError::Sql(SqlFault::ForeignKey)),
                },
                final(self)@,
                r,
            ),
    {
        let mut p = match self.player_copy(usn) {
            Some(p) => p,
            None => {
                return Err(StoreError::Sql(SqlFault::ForeignKey));
            },
        };
        match p.queue_generated_mail(subject_key, body_key, reward, now) {
            Err(e) => Err(e),
            Ok(post_id) => {
                self.set_player(usn, p);
                Ok(post_id)
            },
        }
    }

    /// Whether a piece of content is owned, and whether it is in the mail.
    pub fn content_delivery_state(
        &self,
        usn: Usn,
        content: ContentKind,
        area: i32,
        content_id: i64,
    ) -> (r: Result<(bool, bool), StoreError>)
        ensures
            r == Ok::<(bool, bool), StoreError>(
                match slot_at(self@, usn as int) {
                    Some(slot) => (
                        delivered(slot.player, content, area, content_id as int),
                        pending(slot.player, content, area, content_id as int),
                    ),
                    None => (false, false),
                },
            ),
    {
        match self.player_at(usn) {
            Some(p) => Ok(p.content_delivery_state(content, area, content_id)),
            None => Ok((false, false)),
        }
    }

    /// The mail, newest first.
    pub fn mailbox(&self, usn: Usn) -> (r: Result<MailboxSnapshot, StoreError>)
        ensures
            match slot_at(self@, usn as int) {
                Some(slot) => mailbox_shown(slot.player, r),
                None => r == no_slot::<MailboxSnapshot>(),
            },
    {
        match self.player_at(usn) {
            Some(p) => p.mailbox(),
            None => Err(StoreError::Sql(SqlFault::NoRows)),
        }
    }

    /// The pass.
    pub fn pass_snapshot(&self, usn: Usn) -> (r: Result<PassSnapshot, StoreError>)
        ensures
            match slot_at(self@, usn as int) {
                Some(slot) => pass_result(slot.player, r),
                None => r == no_slot::<PassSnapshot>(),
            },
    {
        match self.player_at(usn) {
            Some(p) => p.pass_snapshot(),
            None => Err(StoreError::Sql(SqlFault::NoRows)),
        }
    }

    /// How often a part of the state was changed.
    pub fn state_revision(&self, usn: Usn, partition: &str) -> (r: Result<i64, StoreError>)
        ensures
            r == Ok::<i64, StoreError>(
                match slot_at(self@, usn as int) {
                    Some(slot) => match find(slot.player.revisions, partition@) {
                        Some(row) => row.revision,
                        None => 0,
                    },
                    None => 0,
                },
            ),
    {
        match self.player_at(usn) {
            Some(p) => match p.revisions.find(&partition.to_owned()) {
                Some(row) => Ok(row.0.revision),
                None => Ok(0),
            },
            None => Ok(0),
        }
    }

    /// Makes a season current.
    pub fn select_pass_season(&mut self, usn: Usn, clock: DeviceClock, season: i64) -> (r: Result<
        (),
        StoreError,
    >)
        requires
            clock.representable(),
        ensures
            altered(
                old(self)@,
                usn as int,
                match slot_at(old(self)@, usn as int) {
                    Some(slot) => without_answer(season_selected(slot.player, clock, season)),
                    None => if is_season(season as int) {
                        Err(StoreError::Sql(SqlFault::ForeignKey))
                    } else {
                        Err(
                            StoreError::UnsupportedReward(
                                crate::errors::RewardFault::PassSeason(season),
                            ),
                        )
                    },
                },
                final(self)@,
                r,
            ),
    {
        let mut p = match self.player_copy(usn) {
            Some(p) => p,
            None => {
                return if season >= 1 && season <= 13 {
                    Err(StoreError::Sql(SqlFault::ForeignKey))
                } else {
                    Err(
                        StoreError::UnsupportedReward(
                            crate::errors::RewardFault::PassSeason(season),
                        ),
                    )
                };
            },
        };
        match p.select_pass_season(clock, season) {
            Err(e) => Err(e),
            Ok(()) => {
                self.set_player(usn, p);
                Ok(())
            },
        }
    }
}

} // verus!
