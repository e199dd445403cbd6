//! What a new save slot holds.
use crate::domain::{Ch3EnergySnapshot, ContentKind};
use crate::followers::CH3_PROFILE;
use crate::number::{Real, ONE, ZERO};
use crate::player::{Player, PlayerModel};
use crate::rewards::content_at;
use crate::rows::{
    AchievementModel, AchievementState, AdLevelState, AffectionRow, AreaRow, Attendance, Core,
    DailyRow, EntitlementRow, LevelRow, OwnedModel, OwnedRow, StageRow, Wallet,
};
use crate::table::{k1, key1, key2, key_less, Key, Plain, Row, Table, TextTable};
use vstd::prelude::*;

verus! {

/// The kinds of content of which a new player owns the first piece.
pub open spec fn starting_kinds() -> Seq<ContentKind> {
    seq![
        ContentKind::Character,
        ContentKind::Costume,
        ContentKind::Guitar,
        ContentKind::Music,
        ContentKind::Prop,
        ContentKind::Skill,
        ContentKind::Unit,
    ]
}

/// The groups of advertisements.
pub open spec fn ad_groups() -> Seq<i64> {
    seq![200_010i64, 210_010, 220_010]
}

/// Rows with the numbers from one on, all alike.
pub open spec fn numbered_rows<V>(n: nat, row: V) -> Seq<(Key, V)> {
    Seq::new(n, |i: int| (k1(i + 1), row))
}

/// A channel at its start.
pub open spec fn starting_area(first: i64, unlocked: bool) -> AreaRow {
    AreaRow {
        area_level: 1,
        fans: Real { bits: ZERO },
        candy: Real { bits: ZERO },
        current_costume: Some(first),
        current_guitar: Some(first),
        current_music: Some(first),
        gp: Real { bits: ZERO },
        unlocked,
    }
}

pub open spec fn starting_content(now: i64) -> Seq<(Key, OwnedModel)> {
    Seq::new(
        7,
        |i: int|
            (
                content_at(starting_kinds()[i], 1),
                OwnedModel { area: 1, acquired_at: now, source: "initial"@ },
            ),
    )
}

pub open spec fn starting_levels() -> Seq<(Key, LevelRow)> {
    Seq::new(
        7,
        |i: int| (content_at(starting_kinds()[i], 1), LevelRow { level: 1, reward_level: 0 }),
    )
}

pub open spec fn starting_ads() -> Seq<(Key, AdLevelState)> {
    Seq::new(3, |i: int| (k1(ad_groups()[i] as int), AdLevelState { level: 1, experience: 0 }))
}

/// The state of a new player.
pub open spec fn fresh(now: i64) -> PlayerModel {
    PlayerModel {
        core: Core { fan_level: 1, avatar_id: Some(1), title_id: Some(1), last_save_time: now },
        nickname: "Guitar Girl"@,
        device_uuid: "reborn-local-device"@,
        wallet: Wallet::nothing(),
        attendance: Attendance {
            count: 0,
            continuous: 0,
            max_continuous: 0,
            last_local_day: None,
        },
        attendance_days: Seq::empty(),
        mail_cursor: 0,
        mail: Seq::empty(),
        areas: seq![(k1(1), starting_area(1, true)), (k1(2), starting_area(201, false))],
        owned: starting_content(now),
        levels: starting_levels(),
        tutorials: Seq::empty(),
        achievements: numbered_rows(
            10,
            AchievementModel {
                quantity: Real { bits: ZERO },
                quantity_text: "0"@,
                updated_at: now,
            },
        ),
        achievement_claims: Seq::empty(),
        daily_missions: numbered_rows(
            6,
            DailyRow { quantity: Real { bits: ONE }, updated_at: now },
        ),
        daily_claims: Seq::empty(),
        ad_levels: starting_ads(),
        ad_views: Seq::empty(),
        rooms: Seq::empty(),
        quests: Seq::empty(),
        conditions: Seq::empty(),
        skills: Seq::empty(),
        buffs: Seq::empty(),
        gifts: Seq::empty(),
        affection: seq![(k1(CH3_PROFILE as int), AffectionRow { experience: 0, level: 1 })],
        affection_claims: Seq::empty(),
        energy: Ch3EnergySnapshot { amount: 200, cap: 200, calculated_at: now },
        stages: seq![
            (
                k1(1001),
                StageRow {
                    chapter: 1,
                    stage_index: 1,
                    completed: false,
                    best_star: 0,
                    best_score: 0,
                    unlocked: true,
                },
            ),
        ],
        chapter_claims: Seq::empty(),
        drops: Seq::empty(),
        reviews: Seq::empty(),
        bookmarks: Seq::empty(),
        scores: Seq::empty(),
        encores: Seq::empty(),
        selections: Seq::empty(),
        anchor: None,
        pass_progress: Seq::empty(),
        pass_claims: Seq::empty(),
        entitlements: numbered_rows(13, EntitlementRow { premium: true, lounge: false }),
        tickets: Seq::empty(),
        samseck: Seq::empty(),
        daily_rewards: Seq::empty(),
        flags: Seq::empty(),
        revisions: Seq::empty(),
        purchases: Seq::empty(),
        grants: Seq::empty(),
    }
}

fn numbered_table<R: Row>(n: i64, row: &R) -> (t: Table<R>)
    requires
        n >= 0,
    ensures
        t@ == numbered_rows(n as nat, row.model()),
{
    let mut t: Table<R> = Table::new();
    let mut i: i64 = 0;
    proof {
        assert(t@ =~= numbered_rows(0, row.model()));
    }
    while i < n
        invariant
            0 <= i <= n,
            t@ == numbered_rows(i as nat, row.model()),
        decreases n - i,
    {
        proof {
            assert forall|j: int| 0 <= j < t@.len() implies key_less(
                #[trigger] t@[j].0,
                k1(i + 1),
            ) by {}
        }
        let ghost before = t@;
        t.append(key1(i + 1), row.dup());
        proof {
            assert(t@ =~= numbered_rows((i + 1) as nat, row.model()));
        }
        i = i + 1;
    }
    t
}

fn starting_area_row(first: i64, unlocked: bool) -> (row: AreaRow)
    ensures
        row == starting_area(first, unlocked),
{
    AreaRow {
        area_level: 1,
        fans: Real { bits: ZERO },
        candy: Real { bits: ZERO },
        current_costume: Some(first),
        current_guitar: Some(first),
        current_music: Some(first),
        gp: Real { bits: ZERO },
        unlocked,
    }
}

fn starting_areas() -> (t: Table<Plain<AreaRow>>)
    ensures
        t@ == seq![(k1(1), starting_area(1, true)), (k1(2), starting_area(201, false))],
{
    let mut t: Table<Plain<AreaRow>> = Table::new();
    t.append(key1(1), Plain(starting_area_row(1, true)));
    t.append(key1(2), Plain(starting_area_row(201, false)));
    proof {
        assert(t@ =~= seq![(k1(1), starting_area(1, true)), (k1(2), starting_area(201, false))]);
    }
    t
}

fn kinds_at_start() -> (kinds: Vec<ContentKind>)
    ensures
        kinds@ == starting_kinds(),
{
    let mut kinds: Vec<ContentKind> = Vec::new();
    kinds.push(ContentKind::Character);
    kinds.push(ContentKind::Costume);
    kinds.push(ContentKind::Guitar);
    kinds.push(ContentKind::Music);
    kinds.push(ContentKind::Prop);
    kinds.push(ContentKind::Skill);
    kinds.push(ContentKind::Unit);
    proof {
        assert(kinds@ =~= starting_kinds());
    }
    kinds
}

proof fn lemma_kinds_ordered(i: int, j: int)
    requires
        0 <= i < j < 7,
    ensures
        starting_kinds()[i].rank() < starting_kinds()[j].rank(),
{
}

fn contents_at_start(now: i64) -> (t: Table<OwnedRow>)
    ensures
        t@ == starting_content(now),
{
    let kinds = kinds_at_start();
    let mut t: Table<OwnedRow> = Table::new();
    let mut i: usize = 0;
    proof {
        assert(t@ =~= starting_content(now).take(0));
    }
    while i < 7
        invariant
            i <= 7,
            kinds@ == starting_kinds(),
            t@ == starting_content(now).take(i as int),
        decreases 7 - i,
    {
        proof {
            assert forall|j: int| 0 <= j < t@.len() implies key_less(
                #[trigger] t@[j].0,
                content_at(starting_kinds()[i as int], 1),
            ) by {
                lemma_kinds_ordered(j, i as int);
            }
        }
        t.append(
            key2(kinds[i].exec_rank(), 1),
            OwnedRow { area: 1, acquired_at: now, source: "initial".to_owned() },
        );
        proof {
            assert(t@ =~= starting_content(now).take(i + 1));
        }
        i = i + 1;
    }
    proof {
        assert(starting_content(now).take(7) =~= starting_content(now));
    }
    t
}

fn levels_at_start() -> (t: Table<Plain<LevelRow>>)
    ensures
        t@ == starting_levels(),
{
    let kinds = kinds_at_start();
    let mut t: Table<Plain<LevelRow>> = Table::new();
    let mut i: usize = 0;
    proof {
        assert(t@ =~= starting_levels().take(0));
    }
    while i < 7
        invariant
            i <= 7,
            kinds@ == starting_kinds(),
            t@ == starting_levels().take(i as int),
        decreases 7 - i,
    {
        proof {
            assert forall|j: int| 0 <= j < t@.len() implies key_less(
                #[trigger] t@[j].0,
                content_at(starting_kinds()[i as int], 1),
            ) by {
                lemma_kinds_ordered(j, i as int);
            }
        }
        t.append(key2(kinds[i].exec_rank(), 1), Plain(LevelRow { level: 1, reward_level: 0 }));
        proof {
            assert(t@ =~= starting_levels().take(i + 1));
        }
        i = i + 1;
    }
    proof {
        assert(starting_levels().take(7) =~= starting_levels());
    }
    t
}

fn ads_at_start() -> (t: Table<Plain<AdLevelState>>)
    ensures
        t@ == starting_ads(),
{
    let mut t: Table<Plain<AdLevelState>> = Table::new();
    t.append(key1(200_010), Plain(AdLevelState { level: 1, experience: 0 }));
    t.append(key1(210_010), Plain(AdLevelState { level: 1, experience: 0 }));
    t.append(key1(220_010), Plain(AdLevelState { level: 1, experience: 0 }));
    proof {
        assert(t@ =~= starting_ads());
    }
    t
}

fn affection_at_start() -> (t: Table<Plain<AffectionRow>>)
    ensures
        t@ == seq![(k1(CH3_PROFILE as int), AffectionRow { experience: 0, level: 1 })],
{
    let mut t: Table<Plain<AffectionRow>> = Table::new();
    t.append(key1(CH3_PROFILE), Plain(AffectionRow { experience: 0, level: 1 }));
    proof {
        assert(t@ =~= seq![(k1(CH3_PROFILE as int), AffectionRow { experience: 0, level: 1 })]);
    }
    t
}

fn stages_at_start() -> (t: Table<Plain<StageRow>>)
    ensures
        t@ == fresh(0).stages,
{
    let mut t: Table<Plain<StageRow>> = Table::new();
    t.append(
        key1(1001),
        Plain(
            StageRow {
                chapter: 1,
                stage_index: 1,
                completed: false,
                best_star: 0,
                best_score: 0,
                unlocked: true,
            },
        ),
    );
    proof {
        assert(t@ =~= fresh(0).stages);
    }
    t
}

impl Player {
    /// A new player.
    pub fn fresh(now: i64) -> (p: Player)
        ensures
            p@ == fresh(now),
    {
        Player {
            core: Core { fan_level: 1, avatar_id: Some(1), title_id: Some(1), last_save_time: now },
            nickname: "Guitar Girl".to_owned(),
            device_uuid: "reborn-local-device".to_owned(),
            wallet: Wallet::new(),
            attendance: Attendance {
                count: 0,
                continuous: 0,
                max_continuous: 0,
                last_local_day: None,
            },
            attendance_days: Table::new(),
            mail_cursor: 0,
            mail: Table::new(),
            areas: starting_areas(),
            owned: contents_at_start(now),
            levels: levels_at_start(),
            tutorials: Table::new(),
            achievements: numbered_table(
                10,
                &AchievementState {
                    quantity: Real { bits: ZERO },
                    quantity_text: "0".to_owned(),
                    updated_at: now,
                },
            ),
            achievement_claims: Table::new(),
            daily_missions: numbered_table(
                6,
                &Plain(DailyRow { quantity: Real { bits: ONE }, updated_at: now }),
            ),
            daily_claims: Table::new(),
            ad_levels: ads_at_start(),
            ad_views: Table::new(),
            rooms: Table::new(),
            quests: Table::new(),
            conditions: Table::new(),
            skills: Table::new(),
            buffs: Table::new(),
            gifts: Table::new(),
            affection: affection_at_start(),
            affection_claims: Table::new(),
            energy: Ch3EnergySnapshot { amount: 200, cap: 200, calculated_at: now },
            stages: stages_at_start(),
            chapter_claims: Table::new(),
            drops: TextTable::new(),
            reviews: Table::new(),
            bookmarks: Table::new(),
            scores: Table::new(),
            encores: Table::new(),
            selections: Table::new(),
            anchor: None,
            pass_progress: Table::new(),
            pass_claims: Table::new(),
            entitlements: numbered_table(
                13,
                &Plain(EntitlementRow { premium: true, lounge: false }),
            ),
            tickets: Table::new(),
            samseck: Table::new(),
            daily_rewards: Table::new(),
            flags: TextTable::new(),
            revisions: TextTable::new(),
            purchases: TextTable::new(),
            grants: TextTable::new(),
        }
    }
}

} // verus!
