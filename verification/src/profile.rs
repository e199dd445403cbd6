//! The profile of a player: names, choices, tutorials and packages.
use crate::command::{answered, Command, Effect, Mutation, RpcMutation, Rules};
use crate::consume_reward::RewardRules;
use crate::domain::{ContentKind, CurrencyKind, PackagePurchaseOutcome, SelectRewardSnapshot};
use crate::errors::{SqlFault, StoreError};
use crate::ints::{max64, max_int};
use crate::kept::{lemma_all_packed, lemma_tutored};
use crate::number::{Real, ZERO};
use crate::lists::copies;
use crate::order::group_keyed;
use crate::outcome::{Outcome, Summary};
use crate::player::{Player, PlayerModel};
use crate::rewards::{content_at, owning};
use crate::rows::{AreaRow, Core, FlagRow, LevelRow, SelectionRow};
use crate::table::{get, k1, key1, key2, place, put, put_new, Key, Plain, Row, Table};
use vstd::prelude::*;

verus! {

/// Choosing between two groups of rewards.
pub struct SelectReward {
    pub selection_id: i64,
    pub group_id: i32,
    pub reward_group_id: i32,
    pub alternate_reward_group_id: i32,
}

/// The choices of a player.
pub open spec fn selected(selections: Seq<(Key, SelectionRow)>) -> Seq<SelectRewardSnapshot> {
    selections.map_values(
        |e: (Key, SelectionRow)|
            SelectRewardSnapshot {
                group_id: e.0.a as i32,
                reward_group_id: e.1.reward_group_id,
                alternate_reward_group_id: e.1.alternate_reward_group_id,
            },
    )
}

impl Player {
    pub(crate) fn selected_rewards(&self) -> (r: Vec<SelectRewardSnapshot>)
        ensures
            r@ == selected(self@.selections),
    {
        let mut r: Vec<SelectRewardSnapshot> = Vec::new();
        let mut i: usize = 0;
        while i < self.selections.len()
            invariant
                i <= self@.selections.len(),
                r@.len() == i,
                forall|j: int| 0 <= j < i ==> #[trigger] r@[j] == selected(self@.selections)[j],
            decreases self@.selections.len() - i,
        {
            let row = self.selections.row_at(i).0;
            r.push(
                SelectRewardSnapshot {
                    group_id: self.selections.key_at(i).a as i32,
                    reward_group_id: row.reward_group_id,
                    alternate_reward_group_id: row.alternate_reward_group_id,
                },
            );
            i = i + 1;
        }
        proof {
            assert(r@ =~= selected(self@.selections));
        }
        r
    }
}

pub open spec fn select_effect(c: SelectReward, p: PlayerModel, m: Mutation) -> Effect {
    let selections = put(
        p.selections,
        k1(c.group_id as int),
        SelectionRow {
            selection_id: c.selection_id,
            reward_group_id: c.reward_group_id,
            alternate_reward_group_id: c.alternate_reward_group_id,
            selected_at: m.now,
        },
    );
    answered(PlayerModel { selections, ..p }, Outcome::Selections(selected(selections)))
}

impl Command for SelectReward {
    open spec fn valid(&self) -> bool {
        true
    }

    open spec fn effect(&self, p: PlayerModel, m: Mutation, rules: Rules) -> Effect {
        select_effect(*self, p, m)
    }

    proof fn keeps_order(&self, p: PlayerModel, m: Mutation, rules: Rules) {
        broadcast use group_keyed;

    }

    fn run(&self, p: &mut Player, m: &RpcMutation, rules: &RewardRules) -> (r: Result<
        (Summary, Summary),
        StoreError,
    >) {
        p.selections.put(
            key1(self.group_id as i64),
            Plain(
                SelectionRow {
                    selection_id: self.selection_id,
                    reward_group_id: self.reward_group_id,
                    alternate_reward_group_id: self.alternate_reward_group_id,
                    selected_at: m.committed_at,
                },
            ),
        );
        let chosen = p.selected_rewards();
        let again = copies(&chosen);
        Ok((Summary::Selections(chosen), Summary::Selections(again)))
    }
}

/// Keeping a flag for the client.
pub struct SetFlag {
    pub flag: String,
    pub value: i64,
}

pub open spec fn flag_effect(p: PlayerModel, m: Mutation, flag: Seq<char>, value: i64) -> Effect {
    answered(
        PlayerModel { flags: place(p.flags, flag, FlagRow { value, updated_at: m.now }), ..p },
        Outcome::Integer(value),
    )
}

impl Command for SetFlag {
    open spec fn valid(&self) -> bool {
        true
    }

    open spec fn effect(&self, p: PlayerModel, m: Mutation, rules: Rules) -> Effect {
        flag_effect(p, m, self.flag@, self.value)
    }

    proof fn keeps_order(&self, p: PlayerModel, m: Mutation, rules: Rules) {
        broadcast use group_keyed;

    }

    fn run(&self, p: &mut Player, m: &RpcMutation, rules: &RewardRules) -> (r: Result<
        (Summary, Summary),
        StoreError,
    >) {
        p.flags.place(
            self.flag.clone(),
            Plain(FlagRow { value: self.value, updated_at: m.committed_at }),
        );
        Ok((Summary::Integer(self.value), Summary::Integer(self.value)))
    }
}

/// Choosing a picture.
pub struct UpdateAvatar {
    pub avatar_id: i64,
}

pub open spec fn avatar_effect(p: PlayerModel, avatar_id: i64) -> Effect {
    answered(
        PlayerModel { core: Core { avatar_id: Some(avatar_id), ..p.core }, ..p },
        Outcome::Integer(avatar_id),
    )
}

impl Command for UpdateAvatar {
    open spec fn valid(&self) -> bool {
        true
    }

    open spec fn effect(&self, p: PlayerModel, m: Mutation, rules: Rules) -> Effect {
        avatar_effect(p, self.avatar_id)
    }

    proof fn keeps_order(&self, p: PlayerModel, m: Mutation, rules: Rules) {
        broadcast use group_keyed;

    }

    fn run(&self, p: &mut Player, m: &RpcMutation, rules: &RewardRules) -> (r: Result<
        (Summary, Summary),
        StoreError,
    >) {
        p.core.avatar_id = Some(self.avatar_id);
        Ok((Summary::Integer(self.avatar_id), Summary::Integer(self.avatar_id)))
    }
}

/// Choosing a name.
pub struct UpdateNickname {
    pub nickname: String,
}

pub open spec fn nickname_effect(p: PlayerModel, nickname: Seq<char>) -> Effect {
    let kept = if nickname.len() == 0 {
        p.nickname
    } else {
        nickname
    };
    answered(PlayerModel { nickname: kept, ..p }, Outcome::Text(kept))
}

impl Command for UpdateNickname {
    open spec fn valid(&self) -> bool {
        true
    }

    open spec fn effect(&self, p: PlayerModel, m: Mutation, rules: Rules) -> Effect {
        nickname_effect(p, self.nickname@)
    }

    proof fn keeps_order(&self, p: PlayerModel, m: Mutation, rules: Rules) {
        broadcast use group_keyed;

    }

    fn run(&self, p: &mut Player, m: &RpcMutation, rules: &RewardRules) -> (r: Result<
        (Summary, Summary),
        StoreError,
    >) {
        if self.nickname.as_str().unicode_len() > 0 {
            p.nickname = self.nickname.clone();
        }
        Ok((Summary::Text(p.nickname.clone()), Summary::Text(p.nickname.clone())))
    }
}

/// Choosing a title.
pub struct UpdateTitle {
    pub title_id: i64,
}

pub open spec fn title_effect(p: PlayerModel, title_id: i64) -> Effect {
    answered(
        PlayerModel { core: Core { title_id: Some(title_id), ..p.core }, ..p },
        Outcome::Integer(title_id),
    )
}

impl Command for UpdateTitle {
    open spec fn valid(&self) -> bool {
        true
    }

    open spec fn effect(&self, p: PlayerModel, m: Mutation, rules: Rules) -> Effect {
        title_effect(p, self.title_id)
    }

    proof fn keeps_order(&self, p: PlayerModel, m: Mutation, rules: Rules) {
        broadcast use group_keyed;

    }

    fn run(&self, p: &mut Player, m: &RpcMutation, rules: &RewardRules) -> (r: Result<
        (Summary, Summary),
        StoreError,
    >) {
        p.core.title_id = Some(self.title_id);
        Ok((Summary::Integer(self.title_id), Summary::Integer(self.title_id)))
    }
}

/// Reporting the points of the first channel.
pub struct UpdateGp {
    pub gp: i64,
}

pub open spec fn gp_effect(p: PlayerModel, gp: i64) -> Effect {
    match get(p.areas, k1(1)) {
        None => Err(StoreError::Sql(SqlFault::NoRows)),
        Some(row) => {
            let kept = row.gp.or_larger(Real::of(max_int(gp as int, 0)));
            answered(
                PlayerModel { areas: put(p.areas, k1(1), AreaRow { gp: kept, ..row }), ..p },
                Outcome::Integer(
                    kept.within(Real { bits: ZERO }, Real::of(i64::MAX as int)).as_int() as i64,
                ),
            )
        },
    }
}

impl Command for UpdateGp {
    open spec fn valid(&self) -> bool {
        true
    }

    open spec fn effect(&self, p: PlayerModel, m: Mutation, rules: Rules) -> Effect {
        gp_effect(p, self.gp)
    }

    proof fn keeps_order(&self, p: PlayerModel, m: Mutation, rules: Rules) {
        broadcast use group_keyed;

    }

    fn run(&self, p: &mut Player, m: &RpcMutation, rules: &RewardRules) -> (r: Result<
        (Summary, Summary),
        StoreError,
    >) {
        let row: AreaRow = match p.areas.get(key1(1)) {
            Some(row) => row.0,
            None => {
                return Err(StoreError::Sql(SqlFault::NoRows));
            },
        };
        let kept = row.gp.max(&Real::from_i64(max64(self.gp, 0)));
        p.areas.put(key1(1), Plain(AreaRow { gp: kept, ..row }));
        let shown: i64 = kept.clamp(&Real { bits: ZERO }, &Real::from_i64(i64::MAX)).to_i64();
        Ok((Summary::Integer(shown), Summary::Integer(shown)))
    }
}

/// Completing tutorials.
pub struct MergeTutorials {
    pub tutorial_ids: Vec<i64>,
}

/// Tutorials with those of a list completed.
pub open spec fn tutored(tutorials: Seq<(Key, i64)>, ids: Seq<i64>, now: i64) -> Seq<(Key, i64)>
    decreases ids.len(),
{
    if ids.len() == 0 {
        tutorials
    } else {
        let before = tutored(tutorials, ids.drop_last(), now);
        if ids.last() > 0 {
            put_new(before, k1(ids.last() as int), now)
        } else {
            before
        }
    }
}

/// The ids in a table.
pub open spec fn ids_of<V>(rows: Seq<(Key, V)>) -> Seq<i64> {
    rows.map_values(|e: (Key, V)| e.0.a)
}

pub(crate) fn exec_ids_of<R: Row>(t: &Table<R>) -> (ids: Vec<i64>)
    ensures
        ids@ == ids_of(t@),
{
    let mut ids: Vec<i64> = Vec::new();
    let mut i: usize = 0;
    while i < t.len()
        invariant
            i <= t@.len(),
            ids@.len() == i,
            forall|j: int| 0 <= j < i ==> #[trigger] ids@[j] == t@[j].0.a,
        decreases t@.len() - i,
    {
        ids.push(t.key_at(i).a);
        i = i + 1;
    }
    proof {
        assert(ids@ =~= ids_of(t@));
    }
    ids
}

pub open spec fn tutorials_effect(p: PlayerModel, m: Mutation, ids: Seq<i64>) -> Effect {
    let tutorials = tutored(p.tutorials, ids, m.now);
    answered(PlayerModel { tutorials, ..p }, Outcome::Ids(ids_of(tutorials)))
}

impl Command for MergeTutorials {
    open spec fn valid(&self) -> bool {
        true
    }

    open spec fn effect(&self, p: PlayerModel, m: Mutation, rules: Rules) -> Effect {
        tutorials_effect(p, m, self.tutorial_ids@)
    }

    proof fn keeps_order(&self, p: PlayerModel, m: Mutation, rules: Rules) {
        broadcast use group_keyed;

        lemma_tutored(p.tutorials, self.tutorial_ids@, m.now);
    }

    fn run(&self, p: &mut Player, m: &RpcMutation, rules: &RewardRules) -> (r: Result<
        (Summary, Summary),
        StoreError,
    >) {
        let ghost start = p@;
        let ghost ids = self.tutorial_ids@;
        let now: i64 = m.committed_at;
        let mut i: usize = 0;
        proof {
            assert(ids.take(0) =~= Seq::empty());
        }
        while i < self.tutorial_ids.len()
            invariant
                i <= ids.len(),
                ids == self.tutorial_ids@,
                p@ == (
                    PlayerModel {
                        tutorials: tutored(start.tutorials, ids.take(i as int), now),
                        ..start
                    }
                ),
            decreases ids.len() - i,
        {
            proof {
                assert(ids.take(i + 1).drop_last() =~= ids.take(i as int));
            }
            let id: i64 = self.tutorial_ids[i];
            if id > 0 {
                p.tutorials.put_new(key1(id), Plain(now));
            }
            i = i + 1;
        }
        proof {
            assert(ids.take(i as int) =~= ids);
        }
        let all = exec_ids_of(&p.tutorials);
        let again = copies(&all);
        Ok((Summary::Ids(all), Summary::Ids(again)))
    }
}

/// Receiving the contents of a package.
pub struct GrantPackage {
    pub contents: Vec<(ContentKind, i32, i64)>,
    pub music_ids: Vec<i64>,
}

/// A player with one piece of a package.
pub open spec fn packed(p: PlayerModel, content: (ContentKind, i32, i64), now: i64) -> PlayerModel {
    let (kind, area, id) = content;
    let key = content_at(kind, id as int);
    let bonus = if kind == ContentKind::Costume {
        1int
    } else {
        0
    };
    let row = match get(p.levels, key) {
        Some(row) => LevelRow {
            level: max_int(row.level as int, 1) as i64,
            reward_level: max_int(row.reward_level as int, bonus) as i64,
        },
        None => LevelRow { level: 1, reward_level: bonus as i64 },
    };
    let q = owning(p, kind, area, id as int, now, "package"@);
    PlayerModel { levels: put(q.levels, key, row), ..q }
}

pub open spec fn all_packed(
    p: PlayerModel,
    contents: Seq<(ContentKind, i32, i64)>,
    now: i64,
) -> PlayerModel
    decreases contents.len(),
{
    if contents.len() == 0 {
        p
    } else {
        packed(all_packed(p, contents.drop_last(), now), contents.last(), now)
    }
}

pub open spec fn package_effect(
    p: PlayerModel,
    m: Mutation,
    contents: Seq<(ContentKind, i32, i64)>,
    music_ids: Seq<i64>,
) -> Effect {
    let q = all_packed(p, contents, m.now);
    answered(
        q,
        Outcome::Package {
            chocolate: q.wallet.balance(CurrencyKind::Chocolate),
            candy: q.wallet.balance(CurrencyKind::Candy),
            music_ids,
        },
    )
}

impl Player {
    fn pack(&mut self, content: (ContentKind, i32, i64), now: i64)
        ensures
            final(self)@ == packed(old(self)@, content, now),
    {
        let (kind, area, id) = content;
        let key = key2(kind.exec_rank(), id);
        let bonus: i64 = if kind == ContentKind::Costume {
            1
        } else {
            0
        };
        let row: LevelRow = match self.levels.get(key) {
            Some(row) => LevelRow {
                level: max64(row.0.level, 1),
                reward_level: max64(row.0.reward_level, bonus),
            },
            None => LevelRow { level: 1, reward_level: bonus },
        };
        self.own(kind, area, id, now, "package");
        self.levels.put(key, Plain(row));
    }
}

impl Command for GrantPackage {
    open spec fn valid(&self) -> bool {
        true
    }

    open spec fn effect(&self, p: PlayerModel, m: Mutation, rules: Rules) -> Effect {
        package_effect(p, m, self.contents@, self.music_ids@)
    }

    proof fn keeps_order(&self, p: PlayerModel, m: Mutation, rules: Rules) {
        broadcast use group_keyed;

        lemma_all_packed(p, self.contents@, m.now);
    }

    fn run(&self, p: &mut Player, m: &RpcMutation, rules: &RewardRules) -> (r: Result<
        (Summary, Summary),
        StoreError,
    >) {
        let ghost start = p@;
        let ghost contents = self.contents@;
        let mut i: usize = 0;
        proof {
            assert(contents.take(0) =~= Seq::empty());
        }
        while i < self.contents.len()
            invariant
                i <= contents.len(),
                contents == self.contents@,
                p@ == all_packed(start, contents.take(i as int), m.committed_at),
            decreases contents.len() - i,
        {
            proof {
                assert(contents.take(i + 1).drop_last() =~= contents.take(i as int));
            }
            p.pack(self.contents[i], m.committed_at);
            i = i + 1;
        }
        proof {
            assert(contents.take(i as int) =~= contents);
        }
        let chocolate = p.wallet.get(CurrencyKind::Chocolate);
        let candy = p.wallet.get(CurrencyKind::Candy);
        let first = PackagePurchaseOutcome { chocolate, candy, music_ids: copies(&self.music_ids) };
        let again = PackagePurchaseOutcome { chocolate, candy, music_ids: copies(&self.music_ids) };
        Ok((Summary::Package(first), Summary::Package(again)))
    }
}

} // verus!
