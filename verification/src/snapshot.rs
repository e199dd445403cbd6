//! Everything about a player at one moment.
use crate::ch3::{exec_stage_snapshot, stage_snapshot};
use crate::claims::{count_under, keys_under};
use crate::domain::{
    AdLevelSnapshot, AdStateSnapshot, AreaSnapshot, BuffTimerSnapshot, Ch3ChapterClaimSnapshot,
    Ch3Snapshot, Ch3StageSnapshot, ContentKind, ContentLevelSnapshot, CurrencyKind,
    FollowerAffectionClaimSnapshot, FollowerGiftSnapshot, FollowerProfileSnapshot,
    FollowerQuestSnapshot, MessengerSnapshot, MusicStateSnapshot, OwnedContentSnapshot,
    PlayerSnapshot, ProgressSnapshot, SkillActivationSnapshot, UserIdentity,
};
use crate::errors::{SqlFault, StoreError};
use crate::ints::clip64;
use crate::mail::festival_step;
use crate::music::{bookmarks_shown, reviews_shown, score_models, scores_shown};
use crate::number::Real;
use crate::pass::pass_shows;
use crate::player::{Player, PlayerModel};
use crate::profile::{exec_ids_of, ids_of, selected};
use crate::quests::stage_shown;
use crate::rows::{
    AchievementModel, AdLevelState, AdViews, AffectionRow, AreaRow, BuffRow, DailyRow, EncoreRow,
    LevelRow, OwnedModel, QuestRow, RoomModel, SkillState, StageRow, Wallet,
};
use crate::shortest::number_text;
use crate::slots::identifies;
use crate::table::{k3, key3, put, Key, Plain, Row, Table};
use vstd::prelude::*;

verus! {

/// The kind of content with a rank.
pub open spec fn kind_of_rank(rank: i64) -> ContentKind {
    if rank == ContentKind::Buff.rank() {
        ContentKind::Buff
    } else if rank == ContentKind::Character.rank() {
        ContentKind::Character
    } else if rank == ContentKind::Costume.rank() {
        ContentKind::Costume
    } else if rank == ContentKind::Follower.rank() {
        ContentKind::Follower
    } else if rank == ContentKind::Gift.rank() {
        ContentKind::Gift
    } else if rank == ContentKind::Guitar.rank() {
        ContentKind::Guitar
    } else if rank == ContentKind::Music.rank() {
        ContentKind::Music
    } else if rank == ContentKind::Prop.rank() {
        ContentKind::Prop
    } else if rank == ContentKind::Skill.rank() {
        ContentKind::Skill
    } else {
        ContentKind::Unit
    }
}

/// A kind of content is known by its rank.
pub proof fn law_kind_of_rank(kind: ContentKind)
    ensures
        kind_of_rank(kind.rank()) == kind,
{
}

fn exec_kind_of_rank(rank: i64) -> (kind: ContentKind)
    ensures
        kind == kind_of_rank(rank),
{
    if rank == ContentKind::Buff.exec_rank() {
        ContentKind::Buff
    } else if rank == ContentKind::Character.exec_rank() {
        ContentKind::Character
    } else if rank == ContentKind::Costume.exec_rank() {
        ContentKind::Costume
    } else if rank == ContentKind::Follower.exec_rank() {
        ContentKind::Follower
    } else if rank == ContentKind::Gift.exec_rank() {
        ContentKind::Gift
    } else if rank == ContentKind::Guitar.exec_rank() {
        ContentKind::Guitar
    } else if rank == ContentKind::Music.exec_rank() {
        ContentKind::Music
    } else if rank == ContentKind::Prop.exec_rank() {
        ContentKind::Prop
    } else if rank == ContentKind::Skill.exec_rank() {
        ContentKind::Skill
    } else {
        ContentKind::Unit
    }
}

/// The balances, by the names of their kinds.
pub open spec fn balances_shown(w: Wallet) -> Seq<(CurrencyKind, Real)> {
    seq![
        (CurrencyKind::Candy, w.candy),
        (CurrencyKind::Ch1Like, w.ch1_like),
        (CurrencyKind::Ch2Like, w.ch2_like),
        (CurrencyKind::Ch2Note, w.ch2_note),
        (CurrencyKind::ChocoMilk, w.choco_milk),
        (CurrencyKind::Chocolate, w.chocolate),
        (CurrencyKind::Fans, w.fans),
        (CurrencyKind::Gingerbread, w.gingerbread),
    ]
}

/// The channels.
pub open spec fn areas_shown(rows: Seq<(Key, AreaRow)>) -> Seq<AreaSnapshot> {
    rows.map_values(
        |e: (Key, AreaRow)|
            AreaSnapshot {
                area: e.0.a as i32,
                area_level: e.1.area_level,
                fans: e.1.fans,
                candy: e.1.candy,
                current_costume: e.1.current_costume,
                current_guitar: e.1.current_guitar,
                current_music: e.1.current_music,
                gp: e.1.gp,
                unlocked: e.1.unlocked,
            },
    )
}

/// The levels of content.
pub open spec fn levels_shown(rows: Seq<(Key, LevelRow)>) -> Seq<ContentLevelSnapshot> {
    rows.map_values(
        |e: (Key, LevelRow)|
            ContentLevelSnapshot {
                kind: kind_of_rank(e.0.a),
                content_id: e.0.b,
                level: e.1.level,
                reward_level: e.1.reward_level,
            },
    )
}

/// The skills.
pub open spec fn skills_shown(rows: Seq<(Key, SkillState)>) -> Seq<SkillActivationSnapshot> {
    rows.map_values(
        |e: (Key, SkillState)|
            SkillActivationSnapshot {
                skill_id: e.0.a,
                active: e.1.active,
                active_from: e.1.active_from,
                active_until: e.1.active_until,
                reset_ready_at: e.1.reset_ready_at,
            },
    )
}

/// The buffs.
pub open spec fn buffs_shown(rows: Seq<(Key, BuffRow)>) -> Seq<BuffTimerSnapshot> {
    rows.map_values(
        |e: (Key, BuffRow)|
            BuffTimerSnapshot {
                buff_id: e.0.a,
                active_at: e.1.active_at,
                expires_at: e.1.expires_at,
            },
    )
}

/// The gifts.
pub open spec fn gifts_shown(rows: Seq<(Key, i64)>) -> Seq<FollowerGiftSnapshot> {
    rows.map_values(
        |e: (Key, i64)|
            FollowerGiftSnapshot {
                gift_id: e.0.a,
                quantity: e.1,
            },
    )
}

/// The claimed affection levels.
pub open spec fn affection_claims_shown(
    rows: Seq<(Key, i64)>,
) -> Seq<FollowerAffectionClaimSnapshot> {
    rows.map_values(
        |e: (Key, i64)|
            FollowerAffectionClaimSnapshot {
                profile_id: e.0.a,
                level: e.0.b as i32,
            },
    )
}

/// The levels of advertisements.
pub open spec fn ad_levels_shown(rows: Seq<(Key, AdLevelState)>) -> Seq<AdLevelSnapshot> {
    rows.map_values(
        |e: (Key, AdLevelState)|
            AdLevelSnapshot {
                ad_level_id: e.0.a,
                level: e.1.level,
                experience: e.1.experience,
            },
    )
}

/// The watched advertisements.
pub open spec fn ads_shown(rows: Seq<(Key, AdViews)>) -> Seq<AdStateSnapshot> {
    rows.map_values(
        |e: (Key, AdViews)|
            AdStateSnapshot {
                ad_id: e.0.a,
                day_count: e.1.day_count,
                total_count: e.1.total_count,
                last_view_time: e.1.last_view_time,
            },
    )
}

/// The encores.
pub open spec fn encores_shown(rows: Seq<(Key, EncoreRow)>) -> Seq<MusicStateSnapshot> {
    rows.map_values(
        |e: (Key, EncoreRow)|
            MusicStateSnapshot {
                music_id: e.0.a,
                encore_appears: e.1.encore_appears,
                encore_ready_at: e.1.encore_ready_at,
                encore_follower_id: e.1.encore_follower_id,
                ch3_active_until: e.1.ch3_active_until,
            },
    )
}

/// The followers.
pub open spec fn profiles_shown(rows: Seq<(Key, AffectionRow)>) -> Seq<FollowerProfileSnapshot> {
    rows.map_values(
        |e: (Key, AffectionRow)|
            FollowerProfileSnapshot {
                profile_id: e.0.a,
                level: e.1.level,
                experience: e.1.experience,
                add_candy: 0,
            },
    )
}

/// The claimed chapter rewards.
pub open spec fn chapter_claims_shown(rows: Seq<(Key, i64)>) -> Seq<Ch3ChapterClaimSnapshot> {
    rows.map_values(
        |e: (Key, i64)|
            Ch3ChapterClaimSnapshot {
                chapter: e.0.a as i32,
                reward_num: e.0.b as i32,
            },
    )
}

/// The owned content by kind, channel and id.
pub open spec fn owned_sorted(rows: Seq<(Key, OwnedModel)>) -> Seq<(Key, bool)>
    decreases rows.len(),
{
    if rows.len() == 0 {
        Seq::empty()
    } else {
        let (key, row) = rows.last();
        put(
            owned_sorted(rows.drop_last()),
            k3(key.a as int, row.area as int, key.b as int),
            true,
        )
    }
}

/// The owned content.
pub open spec fn owned_shown(rows: Seq<(Key, OwnedModel)>) -> Seq<OwnedContentSnapshot> {
    owned_sorted(rows).map_values(
        |e: (Key, bool)|
            OwnedContentSnapshot {
                kind: kind_of_rank(e.0.a),
                area: e.0.b as i32,
                content_id: e.0.c,
            },
    )
}

/// The open stages of the third channel by chapter, place and id.
pub open spec fn stages_sorted(rows: Seq<(Key, StageRow)>) -> Seq<(Key, StageRow)>
    decreases rows.len(),
{
    if rows.len() == 0 {
        Seq::empty()
    } else {
        let (key, row) = rows.last();
        let before = stages_sorted(rows.drop_last());
        if row.unlocked {
            put(before, k3(row.chapter as int, row.stage_index as int, key.a as int), row)
        } else {
            before
        }
    }
}

/// The open stages of the third channel.
pub open spec fn stages_shown(rows: Seq<(Key, StageRow)>) -> Seq<Ch3StageSnapshot> {
    stages_sorted(rows).map_values(|e: (Key, StageRow)| stage_snapshot(e.0.c as int, e.1))
}

/// What the third channel of a player shows.
pub open spec fn ch3_shows(p: PlayerModel, s: Ch3Snapshot) -> bool {
    &&& s.energy == p.energy
    &&& s.stages@ == stages_shown(p.stages)
    &&& s.chapter_claims@ == chapter_claims_shown(p.chapter_claims)
    &&& s.profiles@ == profiles_shown(p.affection)
}

/// The stages of the guide.
pub open spec fn quests_shown(p: PlayerModel) -> Seq<FollowerQuestSnapshot> {
    p.quests.map_values(|e: (Key, QuestRow)| stage_shown(p, e.0.a as int, e.1))
}

/// What a chat room shows.
pub open spec fn room_shows(key: Key, row: RoomModel, s: MessengerSnapshot) -> bool {
    &&& s.room_id == key.a
    &&& s.last_confirm_index == row.last_confirm_index
    &&& s.unlock_group_list@ == row.unlock_group_list
    &&& s.update_time_ticks == row.update_time_ticks
}

pub open spec fn rooms_show(rows: Seq<(Key, RoomModel)>, list: Seq<MessengerSnapshot>) -> bool {
    list.len() == rows.len() && forall|i: int|
        0 <= i < list.len() ==> room_shows(rows[i].0, rows[i].1, #[trigger] list[i])
}

/// What an achievement shows: its next level and how far it is.
pub open spec fn achievement_shows(
    key: Key,
    row: AchievementModel,
    claims: Seq<(Key, i64)>,
    s: ProgressSnapshot,
) -> bool {
    &&& s.id == key.a
    &&& s.level == clip64(keys_under(claims, key.a as int, None) as int + 1)
    &&& s.quantity == row.quantity
    &&& s.quantity_text@ == row.quantity_text
}

pub open spec fn achievements_show(p: PlayerModel, list: Seq<ProgressSnapshot>) -> bool {
    list.len() == p.achievements.len() && forall|i: int|
        0 <= i < list.len() ==> achievement_shows(
            p.achievements[i].0,
            p.achievements[i].1,
            p.achievement_claims,
            #[trigger] list[i],
        )
}

/// How often levels of a daily mission were claimed, on whatever day.
pub open spec fn mission_claims(claims: Seq<(Key, i64)>, id: int) -> nat
    decreases claims.len(),
{
    if claims.len() == 0 {
        0
    } else {
        mission_claims(claims.drop_last(), id) + if claims.last().0.b == id {
            1nat
        } else {
            0
        }
    }
}

/// What a daily mission shows; its quantity is written out in decimals.
pub open spec fn mission_shows(
    key: Key,
    row: DailyRow,
    claims: Seq<(Key, i64)>,
    s: ProgressSnapshot,
) -> bool {
    &&& s.id == key.a
    &&& s.level == clip64(mission_claims(claims, key.a as int) as int + 1)
    &&& s.quantity == row.quantity
    &&& s.quantity_text@ == number_text(row.quantity.num())
}

pub open spec fn missions_show(p: PlayerModel, list: Seq<ProgressSnapshot>) -> bool {
    list.len() == p.daily_missions.len() && forall|i: int|
        0 <= i < list.len() ==> mission_shows(
            p.daily_missions[i].0,
            p.daily_missions[i].1,
            p.daily_claims,
            #[trigger] list[i],
        )
}

/// What a snapshot says of the profile of a player.
pub open spec fn profile_shows(p: PlayerModel, s: PlayerSnapshot) -> bool {
    &&& s.nickname@ == p.nickname
    &&& s.fan_level == p.core.fan_level
    &&& s.avatar_id == p.core.avatar_id
    &&& s.title_id == p.core.title_id
    &&& s.last_save_time == p.core.last_save_time
    &&& festival_step(p.samseck) == Ok::<i32, StoreError>(s.samseck_step)
    &&& s.device_uuid@ == p.device_uuid
    &&& s.currencies@ == balances_shown(p.wallet)
    &&& pass_shows(p, s.pass)
}

/// What a snapshot says of what a player has.
pub open spec fn inventory_shows(p: PlayerModel, s: PlayerSnapshot) -> bool {
    &&& s.areas@ == areas_shown(p.areas)
    &&& s.owned_content@ == owned_shown(p.owned)
    &&& s.content_levels@ == levels_shown(p.levels)
    &&& s.tutorials@ == ids_of(p.tutorials)
    &&& s.skill_activations@ == skills_shown(p.skills)
    &&& s.buff_timers@ == buffs_shown(p.buffs)
    &&& s.gifts@ == gifts_shown(p.gifts)
    &&& s.affection_claims@ == affection_claims_shown(p.affection_claims)
    &&& s.ad_levels@ == ad_levels_shown(p.ad_levels)
    &&& s.ad_state@ == ads_shown(p.ad_views)
}

/// What a snapshot says of what a player has done.
pub open spec fn activity_shows(p: PlayerModel, s: PlayerSnapshot) -> bool {
    &&& rooms_show(p.rooms, s.messengers@)
    &&& s.follower_quests@ == quests_shown(p)
    &&& achievements_show(p, s.achievements@)
    &&& missions_show(p, s.daily_missions@)
    &&& ch3_shows(p, s.ch3)
    &&& s.music_reviews@ == reviews_shown(p.reviews)
    &&& s.bookmarks@ == bookmarks_shown(p.bookmarks)
    &&& score_models(s.music_scores@) == scores_shown(p.scores)
    &&& s.music_states@ == encores_shown(p.encores)
    &&& s.selected_rewards@ == selected(p.selections)
}

/// Why there is no snapshot of a player: there was no login yet, or the festival
/// is beyond what a client can count.
pub open spec fn unshowable(p: PlayerModel) -> Option<StoreError> {
    if p.anchor is None {
        Some(StoreError::Sql(SqlFault::NoRows))
    } else {
        match festival_step(p.samseck) {
            Err(e) => Some(e),
            Ok(_) => None,
        }
    }
}

/// What a snapshot of a player is.
pub open spec fn player_shown(
    p: PlayerModel,
    usn: int,
    user_id: Seq<char>,
    r: Result<PlayerSnapshot, StoreError>,
) -> bool {
    match unshowable(p) {
        Some(e) => r == Err::<PlayerSnapshot, StoreError>(e),
        None => match r {
            Ok(s) => identifies(s.identity, usn, user_id) && profile_shows(p, s)
                && inventory_shows(p, s) && activity_shows(p, s),
            Err(_) => false,
        },
    }
}

fn next_after(n: usize) -> (level: i64)
    ensures
        level == clip64(n + 1),
{
    let next: i128 = n as i128 + 1;
    if next > i64::MAX as i128 {
        i64::MAX
    } else {
        next as i64
    }
}

fn count_mission_claims(claims: &Table<Plain<i64>>, id: i64) -> (n: usize)
    ensures
        n == mission_claims(claims@, id as int),
{
    let mut n: usize = 0;
    let mut i: usize = 0;
    proof {
        assert(claims@.take(0) =~= Seq::empty());
    }
    while i < claims.len()
        invariant
            i <= claims@.len(),
            n <= i,
            n == mission_claims(claims@.take(i as int), id as int),
        decreases claims@.len() - i,
    {
        proof {
            assert(claims@.take(i + 1).drop_last() =~= claims@.take(i as int));
        }
        if claims.key_at(i).b == id {
            n = n + 1;
        }
        i = i + 1;
    }
    proof {
        assert(claims@.take(i as int) =~= claims@);
    }
    n
}

impl Player {
    fn area_list(&self) -> (r: Vec<AreaSnapshot>)
        ensures
            r@ == areas_shown(self@.areas),
    {
        let mut r: Vec<AreaSnapshot> = Vec::new();
        let mut i: usize = 0;
        while i < self.areas.len()
            invariant
                i <= self@.areas.len(),
                r@.len() == i,
                forall|j: int| 0 <= j < i ==> #[trigger] r@[j] == areas_shown(self@.areas)[j],
            decreases self@.areas.len() - i,
        {
            let key = self.areas.key_at(i);
            let row = self.areas.row_at(i).0;
            r.push(
                AreaSnapshot {
                    area: key.a as i32,
                    area_level: row.area_level,
                    fans: row.fans,
                    candy: row.candy,
                    current_costume: row.current_costume,
                    current_guitar: row.current_guitar,
                    current_music: row.current_music,
                    gp: row.gp,
                    unlocked: row.unlocked,
                },
            );
            i = i + 1;
        }
        proof {
            assert(r@ =~= areas_shown(self@.areas));
        }
        r
    }

    fn level_list(&self) -> (r: Vec<ContentLevelSnapshot>)
        ensures
            r@ == levels_shown(self@.levels),
    {
        let mut r: Vec<ContentLevelSnapshot> = Vec::new();
        let mut i: usize = 0;
        while i < self.levels.len()
            invariant
                i <= self@.levels.len(),
                r@.len() == i,
                forall|j: int| 0 <= j < i ==> #[trigger] r@[j] == levels_shown(self@.levels)[j],
            decreases self@.levels.len() - i,
        {
            let key = self.levels.key_at(i);
            let row = self.levels.row_at(i).0;
            r.push(
                ContentLevelSnapshot {
                    kind: exec_kind_of_rank(key.a),
                    content_id: key.b,
                    level: row.level,
                    reward_level: row.reward_level,
                },
            );
            i = i + 1;
        }
        proof {
            assert(r@ =~= levels_shown(self@.levels));
        }
        r
    }

    fn skill_list(&self) -> (r: Vec<SkillActivationSnapshot>)
        ensures
            r@ == skills_shown(self@.skills),
    {
        let mut r: Vec<SkillActivationSnapshot> = Vec::new();
        let mut i: usize = 0;
        while i < self.skills.len()
            invariant
                i <= self@.skills.len(),
                r@.len() == i,
                forall|j: int| 0 <= j < i ==> #[trigger] r@[j] == skills_shown(self@.skills)[j],
            decreases self@.skills.len() - i,
        {
            let key = self.skills.key_at(i);
            let row = self.skills.row_at(i).0;
            r.push(
                SkillActivationSnapshot {
                    skill_id: key.a,
                    active: row.active,
                    active_from: row.active_from,
                    active_until: row.active_until,
                    reset_ready_at: row.reset_ready_at,
                },
            );
            i = i + 1;
        }
        proof {
            assert(r@ =~= skills_shown(self@.skills));
        }
        r
    }

    fn buff_list(&self) -> (r: Vec<BuffTimerSnapshot>)
        ensures
            r@ == buffs_shown(self@.buffs),
    {
        let mut r: Vec<BuffTimerSnapshot> = Vec::new();
        let mut i: usize = 0;
        while i < self.buffs.len()
            invariant
                i <= self@.buffs.len(),
                r@.len() == i,
                forall|j: int| 0 <= j < i ==> #[trigger] r@[j] == buffs_shown(self@.buffs)[j],
            decreases self@.buffs.len() - i,
        {
            let key = self.buffs.key_at(i);
            let row = self.buffs.row_at(i).0;
            r.push(
                BuffTimerSnapshot {
                    buff_id: key.a,
                    active_at: row.active_at,
                    expires_at: row.expires_at,
                },
            );
            i = i + 1;
        }
        proof {
            assert(r@ =~= buffs_shown(self@.buffs));
        }
        r
    }

    fn gift_list(&self) -> (r: Vec<FollowerGiftSnapshot>)
        ensures
            r@ == gifts_shown(self@.gifts),
    {
        let mut r: Vec<FollowerGiftSnapshot> = Vec::new();
        let mut i: usize = 0;
        while i < self.gifts.len()
            invariant
                i <= self@.gifts.len(),
                r@.len() == i,
                forall|j: int| 0 <= j < i ==> #[trigger] r@[j] == gifts_shown(self@.gifts)[j],
            decreases self@.gifts.len() - i,
        {
            let key = self.gifts.key_at(i);
            let row = self.gifts.row_at(i).0;
            r.push(
                FollowerGiftSnapshot {
                    gift_id: key.a,
                    quantity: row,
                },
            );
            i = i + 1;
        }
        proof {
            assert(r@ =~= gifts_shown(self@.gifts));
        }
        r
    }

    fn affection_claim_list(&self) -> (r: Vec<FollowerAffectionClaimSnapshot>)
        ensures
            r@ == affection_claims_shown(self@.affection_claims),
    {
        let mut r: Vec<FollowerAffectionClaimSnapshot> = Vec::new();
        let mut i: usize = 0;
        while i < self.affection_claims.len()
            invariant
                i <= self@.affection_claims.len(),
                r@.len() == i,
                forall|j: int| 0 <= j < i ==> #[trigger] r@[j] == affection_claims_shown(
                    self@.affection_claims,
                )[j],
            decreases self@.affection_claims.len() - i,
        {
            let key = self.affection_claims.key_at(i);
            let row = self.affection_claims.row_at(i).0;
            r.push(
                FollowerAffectionClaimSnapshot {
                    profile_id: key.a,
                    level: key.b as i32,
                },
            );
            i = i + 1;
        }
        proof {
            assert(r@ =~= affection_claims_shown(self@.affection_claims));
        }
        r
    }

    fn ad_level_list(&self) -> (r: Vec<AdLevelSnapshot>)
        ensures
            r@ == ad_levels_shown(self@.ad_levels),
    {
        let mut r: Vec<AdLevelSnapshot> = Vec::new();
        let mut i: usize = 0;
        while i < self.ad_levels.len()
            invariant
                i <= self@.ad_levels.len(),
                r@.len() == i,
                forall|j: int| 0 <= j < i ==> #[trigger] r@[j] == ad_levels_shown(
                    self@.ad_levels,
                )[j],
            decreases self@.ad_levels.len() - i,
        {
            let key = self.ad_levels.key_at(i);
            let row = self.ad_levels.row_at(i).0;
            r.push(
                AdLevelSnapshot {
                    ad_level_id: key.a,
                    level: row.level,
                    experience: row.experience,
                },
            );
            i = i + 1;
        }
        proof {
            assert(r@ =~= ad_levels_shown(self@.ad_levels));
        }
        r
    }

    fn ad_list(&self) -> (r: Vec<AdStateSnapshot>)
        ensures
            r@ == ads_shown(self@.ad_views),
    {
        let mut r: Vec<AdStateSnapshot> = Vec::new();
        let mut i: usize = 0;
        while i < self.ad_views.len()
            invariant
                i <= self@.ad_views.len(),
                r@.len() == i,
                forall|j: int| 0 <= j < i ==> #[trigger] r@[j] == ads_shown(self@.ad_views)[j],
            decreases self@.ad_views.len() - i,
        {
            let key = self.ad_views.key_at(i);
            let row = self.ad_views.row_at(i).0;
            r.push(
                AdStateSnapshot {
                    ad_id: key.a,
                    day_count: row.day_count,
                    total_count: row.total_count,
                    last_view_time: row.last_view_time,
                },
            );
            i = i + 1;
        }
        proof {
            assert(r@ =~= ads_shown(self@.ad_views));
        }
        r
    }

    fn encore_list(&self) -> (r: Vec<MusicStateSnapshot>)
        ensures
            r@ == encores_shown(self@.encores),
    {
        let mut r: Vec<MusicStateSnapshot> = Vec::new();
        let mut i: usize = 0;
        while i < self.encores.len()
            invariant
                i <= self@.encores.len(),
                r@.len() == i,
                forall|j: int| 0 <= j < i ==> #[trigger] r@[j] == encores_shown(self@.encores)[j],
            decreases self@.encores.len() - i,
        {
            let key = self.encores.key_at(i);
            let row = self.encores.row_at(i).0;
            r.push(
                MusicStateSnapshot {
                    music_id: key.a,
                    encore_appears: row.encore_appears,
                    encore_ready_at: row.encore_ready_at,
                    encore_follower_id: row.encore_follower_id,
                    ch3_active_until: row.ch3_active_until,
                },
            );
            i = i + 1;
        }
        proof {
            assert(r@ =~= encores_shown(self@.encores));
        }
        r
    }

    fn profile_list(&self) -> (r: Vec<FollowerProfileSnapshot>)
        ensures
            r@ == profiles_shown(self@.affection),
    {
        let mut r: Vec<FollowerProfileSnapshot> = Vec::new();
        let mut i: usize = 0;
        while i < self.affection.len()
            invariant
                i <= self@.affection.len(),
                r@.len() == i,
                forall|j: int| 0 <= j < i ==> #[trigger] r@[j] == profiles_shown(
                    self@.affection,
                )[j],
            decreases self@.affection.len() - i,
        {
            let key = self.affection.key_at(i);
            let row = self.affection.row_at(i).0;
            r.push(
                FollowerProfileSnapshot {
                    profile_id: key.a,
                    level: row.level,
                    experience: row.experience,
                    add_candy: 0,
                },
            );
            i = i + 1;
        }
        proof {
            assert(r@ =~= profiles_shown(self@.affection));
        }
        r
    }

    fn chapter_claim_list(&self) -> (r: Vec<Ch3ChapterClaimSnapshot>)
        ensures
            r@ == chapter_claims_shown(self@.chapter_claims),
    {
        let mut r: Vec<Ch3ChapterClaimSnapshot> = Vec::new();
        let mut i: usize = 0;
        while i < self.chapter_claims.len()
            invariant
                i <= self@.chapter_claims.len(),
                r@.len() == i,
                forall|j: int| 0 <= j < i ==> #[trigger] r@[j] == chapter_claims_shown(
                    self@.chapter_claims,
                )[j],
            decreases self@.chapter_claims.len() - i,
        {
            let key = self.chapter_claims.key_at(i);
            let row = self.chapter_claims.row_at(i).0;
            r.push(
                Ch3ChapterClaimSnapshot {
                    chapter: key.a as i32,
                    reward_num: key.b as i32,
                },
            );
            i = i + 1;
        }
        proof {
            assert(r@ =~= chapter_claims_shown(self@.chapter_claims));
        }
        r
    }

    fn balance_list(&self) -> (r: Vec<(CurrencyKind, Real)>)
        ensures
            r@ == balances_shown(self@.wallet),
    {
        let mut r: Vec<(CurrencyKind, Real)> = Vec::new();
        r.push((CurrencyKind::Candy, self.wallet.candy));
        r.push((CurrencyKind::Ch1Like, self.wallet.ch1_like));
        r.push((CurrencyKind::Ch2Like, self.wallet.ch2_like));
        r.push((CurrencyKind::Ch2Note, self.wallet.ch2_note));
        r.push((CurrencyKind::ChocoMilk, self.wallet.choco_milk));
        r.push((CurrencyKind::Chocolate, self.wallet.chocolate));
        r.push((CurrencyKind::Fans, self.wallet.fans));
        r.push((CurrencyKind::Gingerbread, self.wallet.gingerbread));
        proof {
            assert(r@ =~= balances_shown(self@.wallet));
        }
        r
    }

    fn owned_list(&self) -> (r: Vec<OwnedContentSnapshot>)
        ensures
            r@ == owned_shown(self@.owned),
    {
        let mut t: Table<Plain<bool>> = Table::new();
        let mut i: usize = 0;
        proof {
            assert(self@.owned.take(0) =~= Seq::empty());
        }
        while i < self.owned.len()
            invariant
                i <= self@.owned.len(),
                t@ == owned_sorted(self@.owned.take(i as int)),
            decreases self@.owned.len() - i,
        {
            proof {
                assert(self@.owned.take(i + 1).drop_last() =~= self@.owned.take(i as int));
            }
            let key = self.owned.key_at(i);
            t.put(key3(key.a, self.owned.row_at(i).area as i64, key.b), Plain(true));
            i = i + 1;
        }
        proof {
            assert(self@.owned.take(i as int) =~= self@.owned);
        }
        let mut r: Vec<OwnedContentSnapshot> = Vec::new();
        let mut j: usize = 0;
        while j < t.len()
            invariant
                j <= t@.len(),
                t@ == owned_sorted(self@.owned),
                r@.len() == j,
                forall|k: int| 0 <= k < j ==> #[trigger] r@[k] == owned_shown(self@.owned)[k],
            decreases t@.len() - j,
        {
            let key = t.key_at(j);
            r.push(
                OwnedContentSnapshot {
                    kind: exec_kind_of_rank(key.a),
                    area: key.b as i32,
                    content_id: key.c,
                },
            );
            j = j + 1;
        }
        proof {
            assert(r@ =~= owned_shown(self@.owned));
        }
        r
    }

    fn stage_list(&self) -> (r: Vec<Ch3StageSnapshot>)
        ensures
            r@ == stages_shown(self@.stages),
    {
        let mut t: Table<Plain<StageRow>> = Table::new();
        let mut i: usize = 0;
        proof {
            assert(self@.stages.take(0) =~= Seq::empty());
        }
        while i < self.stages.len()
            invariant
                i <= self@.stages.len(),
                t@ == stages_sorted(self@.stages.take(i as int)),
            decreases self@.stages.len() - i,
        {
            proof {
                assert(self@.stages.take(i + 1).drop_last() =~= self@.stages.take(i as int));
            }
            let row = self.stages.row_at(i).0;
            if row.unlocked {
                t.put(
                    key3(row.chapter as i64, row.stage_index as i64, self.stages.key_at(i).a),
                    Plain(row),
                );
            }
            i = i + 1;
        }
        proof {
            assert(self@.stages.take(i as int) =~= self@.stages);
        }
        let mut r: Vec<Ch3StageSnapshot> = Vec::new();
        let mut j: usize = 0;
        while j < t.len()
            invariant
                j <= t@.len(),
                t@ == stages_sorted(self@.stages),
                r@.len() == j,
                forall|k: int| 0 <= k < j ==> #[trigger] r@[k] == stages_shown(self@.stages)[k],
            decreases t@.len() - j,
        {
            r.push(exec_stage_snapshot(t.key_at(j).c, t.row_at(j).0));
            j = j + 1;
        }
        proof {
            assert(r@ =~= stages_shown(self@.stages));
        }
        r
    }

    pub(crate) fn ch3_snapshot(&self) -> (s: Ch3Snapshot)
        ensures
            ch3_shows(self@, s),
    {
        Ch3Snapshot {
            energy: self.energy,
            stages: self.stage_list(),
            chapter_claims: self.chapter_claim_list(),
            profiles: self.profile_list(),
        }
    }

    fn quest_list(&self) -> (r: Vec<FollowerQuestSnapshot>)
        ensures
            r@ == quests_shown(self@),
    {
        let mut r: Vec<FollowerQuestSnapshot> = Vec::new();
        let mut i: usize = 0;
        while i < self.quests.len()
            invariant
                i <= self@.quests.len(),
                r@.len() == i,
                forall|j: int| 0 <= j < i ==> #[trigger] r@[j] == quests_shown(self@)[j],
            decreases self@.quests.len() - i,
        {
            r.push(self.show_stage(self.quests.key_at(i).a, self.quests.row_at(i).0));
            i = i + 1;
        }
        proof {
            assert(r@ =~= quests_shown(self@));
        }
        r
    }

    fn room_list(&self) -> (r: Vec<MessengerSnapshot>)
        ensures
            rooms_show(self@.rooms, r@),
    {
        let mut r: Vec<MessengerSnapshot> = Vec::new();
        let mut i: usize = 0;
        while i < self.rooms.len()
            invariant
                i <= self@.rooms.len(),
                r@.len() == i,
                forall|j: int|
                    0 <= j < i ==> room_shows(
                        self@.rooms[j].0,
                        self@.rooms[j].1,
                        #[trigger] r@[j],
                    ),
            decreases self@.rooms.len() - i,
        {
            let row = self.rooms.row_at(i);
            r.push(
                MessengerSnapshot {
                    room_id: self.rooms.key_at(i).a,
                    last_confirm_index: row.last_confirm_index,
                    unlock_group_list: row.unlock_group_list.clone(),
                    update_time_ticks: row.update_time_ticks,
                },
            );
            i = i + 1;
        }
        r
    }

    fn achievement_list(&self) -> (r: Vec<ProgressSnapshot>)
        ensures
            achievements_show(self@, r@),
    {
        let mut r: Vec<ProgressSnapshot> = Vec::new();
        let mut i: usize = 0;
        while i < self.achievements.len()
            invariant
                i <= self@.achievements.len(),
                r@.len() == i,
                forall|j: int|
                    0 <= j < i ==> achievement_shows(
                        self@.achievements[j].0,
                        self@.achievements[j].1,
                        self@.achievement_claims,
                        #[trigger] r@[j],
                    ),
            decreases self@.achievements.len() - i,
        {
            let id: i64 = self.achievements.key_at(i).a;
            let row = self.achievements.row_at(i);
            let claimed: usize = count_under(&self.achievement_claims, id, None);
            r.push(
                ProgressSnapshot {
                    id,
                    level: next_after(claimed),
                    quantity: row.quantity,
                    quantity_text: row.quantity_text.clone(),
                },
            );
            i = i + 1;
        }
        r
    }

    fn mission_list(&self) -> (r: Vec<ProgressSnapshot>)
        ensures
            missions_show(self@, r@),
    {
        let mut r: Vec<ProgressSnapshot> = Vec::new();
        let mut i: usize = 0;
        while i < self.daily_missions.len()
            invariant
                i <= self@.daily_missions.len(),
                r@.len() == i,
                forall|j: int|
                    0 <= j < i ==> mission_shows(
                        self@.daily_missions[j].0,
                        self@.daily_missions[j].1,
                        self@.daily_claims,
                        #[trigger] r@[j],
                    ),
            decreases self@.daily_missions.len() - i,
        {
            let id: i64 = self.daily_missions.key_at(i).a;
            let quantity: Real = self.daily_missions.row_at(i).0.quantity;
            r.push(
                ProgressSnapshot {
                    id,
                    level: next_after(count_mission_claims(&self.daily_claims, id)),
                    quantity,
                    quantity_text: quantity.to_text(),
                },
            );
            i = i + 1;
        }
        r
    }

    pub(crate) fn snapshot(&self, usn: i64, user_id: &String) -> (r: Result<
        PlayerSnapshot,
        StoreError,
    >)
        ensures
            player_shown(self@, usn as int, user_id@, r),
    {
        let pass = match self.pass_snapshot() {
            Ok(pass) => pass,
            Err(e) => {
                return Err(e);
            },
        };
        let samseck_step = match self.sam_seck_step() {
            Ok(step) => step,
            Err(e) => {
                return Err(e);
            },
        };
        Ok(
            PlayerSnapshot {
                identity: UserIdentity { usn, user_id: user_id.clone() },
                nickname: self.nickname.clone(),
                fan_level: self.core.fan_level,
                avatar_id: self.core.avatar_id,
                title_id: self.core.title_id,
                last_save_time: self.core.last_save_time,
                samseck_step,
                device_uuid: self.device_uuid.clone(),
                currencies: self.balance_list(),
                areas: self.area_list(),
                owned_content: self.owned_list(),
                content_levels: self.level_list(),
                tutorials: exec_ids_of(&self.tutorials),
                pass,
                skill_activations: self.skill_list(),
                buff_timers: self.buff_list(),
                gifts: self.gift_list(),
                affection_claims: self.affection_claim_list(),
                ad_levels: self.ad_level_list(),
                ad_state: self.ad_list(),
                messengers: self.room_list(),
                follower_quests: self.quest_list(),
                achievements: self.achievement_list(),
                daily_missions: self.mission_list(),
                ch3: self.ch3_snapshot(),
                music_reviews: self.music_reviews(),
                bookmarks: self.bookmarks(),
                music_scores: self.music_scores(),
                music_states: self.encore_list(),
                selected_rewards: self.selected_rewards(),
            },
        )
    }
}

} // verus!
