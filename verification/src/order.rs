//! The order of what a player holds: which parts the keys of each table have, and
//! what follows for the lists that are shown.
use crate::command::Effect;
use crate::domain::{
    AdLevelSnapshot, AdStateSnapshot, AreaSnapshot, BookmarkSnapshot, BuffTimerSnapshot,
    Ch3ChapterClaimSnapshot, Ch3Snapshot, Ch3StageSnapshot, ContentLevelSnapshot,
    FollowerAffectionClaimSnapshot, FollowerGiftSnapshot, FollowerProfileSnapshot,
    FollowerQuestSnapshot, MessengerSnapshot, MusicReviewSnapshot, MusicScoreSnapshot,
    MusicStateSnapshot, OwnedContentSnapshot, PassClaimSnapshot, PassProgressSnapshot,
    PassSnapshot, PlayerSnapshot, ProgressSnapshot, SelectRewardSnapshot, SkillActivationSnapshot,
};
use crate::music::{score_models, scores_shown};
use crate::outcome::score_model;
use crate::pass::{claim_key, pass_shows, premium_seasons};
use crate::player::PlayerModel;
use crate::rewards::Change;
use crate::rows::{EntitlementRow, OwnedModel, StageRow};
use crate::snapshot::{activity_shows, ch3_shows, inventory_shows, owned_sorted, stages_sorted};
use crate::table::{k1, k2, k3, key_less, law_put_sorted, put, put_new, sorted, Key};
use vstd::prelude::*;

verus! {

/// The ranges of the parts of a key.
pub ghost struct Shape {
    pub a: (int, int),
    pub b: (int, int),
    pub c: (int, int),
    pub d: (int, int),
}

/// A part that is not used.
pub open spec fn unused() -> (int, int) {
    (0, 0)
}

pub open spec fn any64() -> (int, int) {
    (i64::MIN as int, i64::MAX as int)
}

pub open spec fn any32() -> (int, int) {
    (i32::MIN as int, i32::MAX as int)
}

pub open spec fn any16() -> (int, int) {
    (i16::MIN as int, i16::MAX as int)
}

/// Keys of one part.
pub open spec fn by_one(a: (int, int)) -> Shape {
    Shape { a, b: unused(), c: unused(), d: unused() }
}

/// Keys of two parts.
pub open spec fn by_two(a: (int, int), b: (int, int)) -> Shape {
    Shape { a, b, c: unused(), d: unused() }
}

/// Keys of three parts.
pub open spec fn by_three(a: (int, int), b: (int, int), c: (int, int)) -> Shape {
    Shape { a, b, c, d: unused() }
}

/// Keys of a kind of content and an id.
pub open spec fn by_content() -> Shape {
    by_two((0, 9), any64())
}

pub open spec fn key_fits(k: Key, shape: Shape) -> bool {
    &&& shape.a.0 <= k.a <= shape.a.1
    &&& shape.b.0 <= k.b <= shape.b.1
    &&& shape.c.0 <= k.c <= shape.c.1
    &&& shape.d.0 <= k.d <= shape.d.1
}

/// Whether rows are in the order of their keys, and the keys have a shape.
#[verifier::opaque]
pub open spec fn keyed<V>(s: Seq<(Key, V)>, shape: Shape) -> bool {
    sorted(s) && forall|i: int| 0 <= i < s.len() ==> key_fits(#[trigger] s[i].0, shape)
}

/// A row with a key of the shape keeps a table in its shape.
pub broadcast proof fn lemma_keyed_put<V>(s: Seq<(Key, V)>, k: Key, v: V, shape: Shape)
    requires
        keyed(s, shape),
        key_fits(k, shape),
    ensures
        #[trigger] keyed(put(s, k, v), shape),
{
    reveal(keyed);
    law_put_sorted(s, k, v);
    let t = put(s, k, v);
    assert forall|j: int| 0 <= j < t.len() implies key_fits(#[trigger] t[j].0, shape) by {
        if t[j].0 != k {
            let i = choose|i: int| 0 <= i < s.len() && t[j].0 == (#[trigger] s[i]).0;
            assert(key_fits(s[i].0, shape));
        }
    }
}

pub broadcast proof fn lemma_keyed_put_new<V>(s: Seq<(Key, V)>, k: Key, v: V, shape: Shape)
    requires
        keyed(s, shape),
        key_fits(k, shape),
    ensures
        #[trigger] keyed(put_new(s, k, v), shape),
{
    lemma_keyed_put(s, k, v, shape);
}

pub broadcast proof fn lemma_keyed_empty<V>(shape: Shape)
    ensures
        #[trigger] keyed(Seq::<(Key, V)>::empty(), shape),
{
    reveal(keyed);
}

pub broadcast group group_keyed {
    lemma_keyed_put,
    lemma_keyed_put_new,
    lemma_keyed_empty,
}

/// Rows with the keys of a table are in its shape.
pub proof fn lemma_keyed_same<V, W>(s: Seq<(Key, V)>, t: Seq<(Key, W)>, shape: Shape)
    requires
        keyed(s, shape),
        t.len() == s.len(),
        forall|i: int| 0 <= i < s.len() ==> (#[trigger] t[i]).0 == s[i].0,
    ensures
        keyed(t, shape),
{
    reveal(keyed);
}

/// Whether the progress of a player is kept under keys of their shapes.
pub open spec fn progress_keyed(p: PlayerModel) -> bool {
    &&& keyed(p.attendance_days, by_one(any64()))
    &&& keyed(p.mail, by_one(any64()))
    &&& keyed(p.achievements, by_one(any64()))
    &&& keyed(p.achievement_claims, by_two(any64(), any32()))
    &&& keyed(p.daily_missions, by_one(any64()))
    &&& keyed(p.daily_claims, by_three(any64(), any64(), any32()))
    &&& keyed(p.ad_levels, by_one(any64()))
    &&& keyed(p.ad_views, by_one(any64()))
    &&& keyed(p.rooms, by_one(any64()))
    &&& keyed(p.quests, by_one(any64()))
    &&& keyed(p.conditions, by_two(any64(), any64()))
    &&& keyed(p.stages, by_one(any64()))
    &&& keyed(p.chapter_claims, by_two(any32(), any32()))
    &&& keyed(p.pass_progress, by_two(any64(), any32()))
    &&& keyed(p.pass_claims, (Shape { a: any64(), b: any32(), c: any16(), d: any32() }))
    &&& keyed(p.samseck, by_one(any64()))
    &&& keyed(p.daily_rewards, by_one(any64()))
}

/// Whether what a player has is kept under keys of their shapes.
pub open spec fn inventory_keyed(p: PlayerModel) -> bool {
    &&& keyed(p.areas, by_one((1, 2)))
    &&& keyed(p.owned, by_content())
    &&& keyed(p.levels, by_content())
    &&& keyed(p.tutorials, by_one(any64()))
    &&& keyed(p.skills, by_one(any64()))
    &&& keyed(p.buffs, by_one(any64()))
    &&& keyed(p.gifts, by_one(any64()))
    &&& keyed(p.affection, by_one(any64()))
    &&& keyed(p.affection_claims, by_two(any64(), any32()))
    &&& keyed(p.reviews, by_two(any32(), any16()))
    &&& keyed(p.bookmarks, by_one(any32()))
    &&& keyed(p.scores, by_two(any32(), any16()))
    &&& keyed(p.encores, by_one(any64()))
    &&& keyed(p.selections, by_one(any32()))
    &&& keyed(p.entitlements, by_one(any64()))
    &&& keyed(p.tickets, by_one(any64()))
}

/// Whether all that a player holds is in the order of its keys, and the keys of
/// each table have the parts that it uses.
pub open spec fn well_keyed(p: PlayerModel) -> bool {
    progress_keyed(p) && inventory_keyed(p)
}

/// Whether a command leaves a player in order.
pub open spec fn order_kept(effect: Effect) -> bool {
    effect is Ok ==> well_keyed(effect->Ok_0.0)
}

/// Whether a change leaves a player in order.
pub open spec fn change_kept<T>(change: Change<T>) -> bool {
    change is Ok ==> well_keyed(change->Ok_0.0)
}

/// Whether keys rise strictly.
pub open spec fn ascending(keys: Seq<Key>) -> bool {
    forall|i: int, j: int|
        0 <= i < j < keys.len() ==> key_less(#[trigger] keys[i], #[trigger] keys[j])
}

/// The keys of a list.
pub open spec fn keys_of<T>(list: Seq<T>, key: spec_fn(T) -> Key) -> Seq<Key> {
    list.map_values(key)
}

/// A list that shows the rows of a table rises as their keys do.
proof fn lemma_rows_ascend<V, T>(
    rows: Seq<(Key, V)>,
    list: Seq<T>,
    shape: Shape,
    key: spec_fn(T) -> Key,
)
    requires
        keyed(rows, shape),
        list.len() == rows.len(),
        forall|i: int|
            0 <= i < list.len() && key_fits(rows[i].0, shape) ==> key(#[trigger] list[i])
                == rows[i].0,
    ensures
        ascending(keys_of(list, key)),
{
    reveal(keyed);
    let keys = keys_of(list, key);
    assert forall|i: int| 0 <= i < keys.len() implies #[trigger] keys[i] == rows[i].0 by {
        assert(keys[i] == key(list[i]));
        assert(key_fits(rows[i].0, shape));
    }
    assert forall|i: int, j: int| 0 <= i < j < keys.len() implies key_less(
        #[trigger] keys[i],
        #[trigger] keys[j],
    ) by {
        assert(key_less(rows[i].0, rows[j].0));
    }
}

proof fn lemma_owned_sorted(rows: Seq<(Key, OwnedModel)>)
    requires
        keyed(rows, by_content()),
    ensures
        keyed(owned_sorted(rows), by_three((0, 9), any32(), any64())),
    decreases rows.len(),
{
    broadcast use group_keyed;

    if rows.len() > 0 {
        let front = rows.drop_last();
        assert(keyed(front, by_content()) && key_fits(rows.last().0, by_content())) by {
            reveal(keyed);
            assert forall|i: int| 0 <= i < front.len() implies key_fits(
                #[trigger] front[i].0,
                by_content(),
            ) by {
                assert(front[i] == rows[i]);
            }
            assert(sorted(front)) by {
                assert forall|i: int, j: int| 0 <= i < j < front.len() implies key_less(
                    #[trigger] front[i].0,
                    #[trigger] front[j].0,
                ) by {
                    assert(front[i] == rows[i] && front[j] == rows[j]);
                }
            }
            assert(key_fits(rows[rows.len() - 1].0, by_content()));
        }
        lemma_owned_sorted(front);
    }
}

/// Rows of stages under their chapter, place and id.
spec fn stages_placed(rows: Seq<(Key, StageRow)>) -> bool {
    keyed(rows, by_three(any32(), any32(), any64())) && forall|i: int|
        0 <= i < rows.len() ==> (#[trigger] rows[i]).0.a == rows[i].1.chapter && rows[i].0.b
            == rows[i].1.stage_index
}

proof fn lemma_stages_sorted(rows: Seq<(Key, StageRow)>)
    ensures
        stages_placed(stages_sorted(rows)),
    decreases rows.len(),
{
    broadcast use group_keyed;

    if rows.len() > 0 {
        let (key, row) = rows.last();
        let before = stages_sorted(rows.drop_last());
        lemma_stages_sorted(rows.drop_last());
        if row.unlocked {
            let at = k3(row.chapter as int, row.stage_index as int, key.a as int);
            lemma_put_rows(before, at, row);
        }
    }
}

/// Every row of a table after one was put is that row or was there.
proof fn lemma_put_rows<V>(s: Seq<(Key, V)>, k: Key, v: V)
    ensures
        forall|j: int|
            0 <= j < put(s, k, v).len() ==> #[trigger] put(s, k, v)[j] == (k, v) || exists|i: int|
                0 <= i < s.len() && put(s, k, v)[j] == #[trigger] s[i],
    decreases s.len(),
{
    let t = put(s, k, v);
    if s.len() == 0 || key_less(k, s[0].0) {
        assert forall|j: int| 0 <= j < t.len() implies #[trigger] t[j] == (k, v) || exists|i: int|
            0 <= i < s.len() && t[j] == #[trigger] s[i] by {
            if j > 0 {
                assert(t[j] == s[j - 1]);
            }
        }
    } else if s[0].0 == k {
        assert forall|j: int| 0 <= j < t.len() implies #[trigger] t[j] == (k, v) || exists|i: int|
            0 <= i < s.len() && t[j] == #[trigger] s[i] by {
            if j > 0 {
                assert(t[j] == s[j]);
            }
        }
    } else {
        let rest = s.drop_first();
        let u = put(rest, k, v);
        lemma_put_rows(rest, k, v);
        assert forall|j: int| 0 <= j < t.len() implies #[trigger] t[j] == (k, v) || exists|i: int|
            0 <= i < s.len() && t[j] == #[trigger] s[i] by {
            if j == 0 {
                assert(t[0] == s[0]);
            } else {
                assert(t[j] == u[j - 1]);
                if u[j - 1] != (k, v) {
                    let i = choose|i: int| 0 <= i < rest.len() && u[j - 1] == #[trigger] rest[i];
                    assert(rest[i] == s[i + 1]);
                }
            }
        }
    }
}

proof fn lemma_premium_seasons(rows: Seq<(Key, EntitlementRow)>)
    requires
        sorted(rows),
        forall|i: int| 0 <= i < rows.len() ==> key_fits(#[trigger] rows[i].0, by_one(any64())),
    ensures
        ascending(keys_of(premium_seasons(rows), |a: i64| k1(a as int))),
        forall|i: int|
            0 <= i < premium_seasons(rows).len() ==> rows.len() > 0 && #[trigger] premium_seasons(
                rows,
            )[i] <= rows.last().0.a,
    decreases rows.len(),
{
    if rows.len() > 0 {
        let front = rows.drop_last();
        assert forall|i: int| 0 <= i < front.len() implies key_fits(
            #[trigger] front[i].0,
            by_one(any64()),
        ) && front[i].0.a < rows.last().0.a by {
            assert(front[i] == rows[i]);
            assert(key_fits(rows[i].0, by_one(any64())));
            assert(key_fits(rows[rows.len() - 1].0, by_one(any64())));
            assert(key_less(rows[i].0, rows[rows.len() - 1].0));
        }
        assert(sorted(front)) by {
            assert forall|i: int, j: int| 0 <= i < j < front.len() implies key_less(
                #[trigger] front[i].0,
                #[trigger] front[j].0,
            ) by {
                assert(front[i] == rows[i] && front[j] == rows[j]);
            }
        }
        lemma_premium_seasons(front);
        let before = premium_seasons(front);
        assert forall|i: int| 0 <= i < before.len() implies #[trigger] before[i]
            < rows.last().0.a by {
            assert(front[front.len() - 1].0.a < rows.last().0.a);
        }
        let after = premium_seasons(rows);
        let key = |a: i64| k1(a as int);
        let keys = keys_of(after, key);
        assert forall|i: int, j: int| 0 <= i < j < keys.len() implies key_less(
            #[trigger] keys[i],
            #[trigger] keys[j],
        ) by {
            assert(keys[i] == key(after[i]) && keys[j] == key(after[j]));
            assert(after[i] == before[i]);
            if j < before.len() {
                let known = keys_of(before, key);
                assert(key_less(known[i], known[j]));
            }
        }
    }
}

/// The lists of a snapshot about what a player has rise strictly: by id, or by the
/// parts of what they are known by.
pub proof fn law_inventory_ascends(p: PlayerModel, s: PlayerSnapshot)
    requires
        well_keyed(p),
        inventory_shows(p, s),
    ensures
        ascending(keys_of(s.areas@, |x: AreaSnapshot| k1(x.area as int))),
        ascending(
            keys_of(
                s.owned_content@,
                |x: OwnedContentSnapshot|
                    k3(x.kind.rank() as int, x.area as int, x.content_id as int),
            ),
        ),
        ascending(
            keys_of(
                s.content_levels@,
                |x: ContentLevelSnapshot| k2(x.kind.rank() as int, x.content_id as int),
            ),
        ),
        ascending(keys_of(s.tutorials@, |x: i64| k1(x as int))),
        ascending(
            keys_of(s.skill_activations@, |x: SkillActivationSnapshot| k1(x.skill_id as int)),
        ),
        ascending(keys_of(s.buff_timers@, |x: BuffTimerSnapshot| k1(x.buff_id as int))),
        ascending(keys_of(s.gifts@, |x: FollowerGiftSnapshot| k1(x.gift_id as int))),
        ascending(
            keys_of(
                s.affection_claims@,
                |x: FollowerAffectionClaimSnapshot| k2(x.profile_id as int, x.level as int),
            ),
        ),
        ascending(keys_of(s.ad_levels@, |x: AdLevelSnapshot| k1(x.ad_level_id as int))),
        ascending(keys_of(s.ad_state@, |x: AdStateSnapshot| k1(x.ad_id as int))),
{
    lemma_rows_ascend(
        p.areas,
        s.areas@,
        by_one((1, 2)),
        |x: AreaSnapshot| k1(x.area as int),
    );
    lemma_owned_sorted(p.owned);
    lemma_rows_ascend(
        owned_sorted(p.owned),
        s.owned_content@,
        by_three((0, 9), any32(), any64()),
        |x: OwnedContentSnapshot| k3(x.kind.rank() as int, x.area as int, x.content_id as int),
    );
    lemma_rows_ascend(
        p.levels,
        s.content_levels@,
        by_content(),
        |x: ContentLevelSnapshot| k2(x.kind.rank() as int, x.content_id as int),
    );
    lemma_rows_ascend(p.tutorials, s.tutorials@, by_one(any64()), |x: i64| k1(x as int));
    lemma_rows_ascend(
        p.skills,
        s.skill_activations@,
        by_one(any64()),
        |x: SkillActivationSnapshot| k1(x.skill_id as int),
    );
    lemma_rows_ascend(
        p.buffs,
        s.buff_timers@,
        by_one(any64()),
        |x: BuffTimerSnapshot| k1(x.buff_id as int),
    );
    lemma_rows_ascend(
        p.gifts,
        s.gifts@,
        by_one(any64()),
        |x: FollowerGiftSnapshot| k1(x.gift_id as int),
    );
    lemma_rows_ascend(
        p.affection_claims,
        s.affection_claims@,
        by_two(any64(), any32()),
        |x: FollowerAffectionClaimSnapshot| k2(x.profile_id as int, x.level as int),
    );
    lemma_rows_ascend(
        p.ad_levels,
        s.ad_levels@,
        by_one(any64()),
        |x: AdLevelSnapshot| k1(x.ad_level_id as int),
    );
    lemma_rows_ascend(
        p.ad_views,
        s.ad_state@,
        by_one(any64()),
        |x: AdStateSnapshot| k1(x.ad_id as int),
    );
}

/// So do the lists of a snapshot about what a player has done.
pub proof fn law_activity_ascends(p: PlayerModel, s: PlayerSnapshot)
    requires
        well_keyed(p),
        activity_shows(p, s),
    ensures
        ascending(keys_of(s.messengers@, |x: MessengerSnapshot| k1(x.room_id as int))),
        ascending(keys_of(s.follower_quests@, |x: FollowerQuestSnapshot| k1(x.current_id as int))),
        ascending(keys_of(s.achievements@, |x: ProgressSnapshot| k1(x.id as int))),
        ascending(keys_of(s.daily_missions@, |x: ProgressSnapshot| k1(x.id as int))),
        ascending(
            keys_of(
                s.music_reviews@,
                |x: MusicReviewSnapshot| k2(x.music_id as int, x.difficulty as int),
            ),
        ),
        ascending(keys_of(s.bookmarks@, |x: BookmarkSnapshot| k1(x.music_id as int))),
        ascending(
            keys_of(
                s.music_scores@,
                |x: MusicScoreSnapshot| k2(x.music_id as int, x.difficulty as int),
            ),
        ),
        ascending(keys_of(s.music_states@, |x: MusicStateSnapshot| k1(x.music_id as int))),
        ascending(keys_of(s.selected_rewards@, |x: SelectRewardSnapshot| k1(x.group_id as int))),
{
    lemma_rows_ascend(
        p.rooms,
        s.messengers@,
        by_one(any64()),
        |x: MessengerSnapshot| k1(x.room_id as int),
    );
    lemma_rows_ascend(
        p.quests,
        s.follower_quests@,
        by_one(any64()),
        |x: FollowerQuestSnapshot| k1(x.current_id as int),
    );
    lemma_rows_ascend(
        p.achievements,
        s.achievements@,
        by_one(any64()),
        |x: ProgressSnapshot| k1(x.id as int),
    );
    lemma_rows_ascend(
        p.daily_missions,
        s.daily_missions@,
        by_one(any64()),
        |x: ProgressSnapshot| k1(x.id as int),
    );
    lemma_rows_ascend(
        p.reviews,
        s.music_reviews@,
        by_two(any32(), any16()),
        |x: MusicReviewSnapshot| k2(x.music_id as int, x.difficulty as int),
    );
    lemma_rows_ascend(
        p.bookmarks,
        s.bookmarks@,
        by_one(any32()),
        |x: BookmarkSnapshot| k1(x.music_id as int),
    );
    assert forall|i: int| 0 <= i < s.music_scores@.len() implies score_model(
        #[trigger] s.music_scores@[i],
    ) == scores_shown(p.scores)[i] by {
        assert(score_models(s.music_scores@)[i] == score_model(s.music_scores@[i]));
    }
    assert(score_models(s.music_scores@).len() == s.music_scores@.len());
    lemma_rows_ascend(
        p.scores,
        s.music_scores@,
        by_two(any32(), any16()),
        |x: MusicScoreSnapshot| k2(x.music_id as int, x.difficulty as int),
    );
    lemma_rows_ascend(
        p.encores,
        s.music_states@,
        by_one(any64()),
        |x: MusicStateSnapshot| k1(x.music_id as int),
    );
    lemma_rows_ascend(
        p.selections,
        s.selected_rewards@,
        by_one(any32()),
        |x: SelectRewardSnapshot| k1(x.group_id as int),
    );
}

/// So do the lists about the third channel.
pub proof fn law_ch3_ascends(p: PlayerModel, s: Ch3Snapshot)
    requires
        well_keyed(p),
        ch3_shows(p, s),
    ensures
        ascending(
            keys_of(
                s.stages@,
                |x: Ch3StageSnapshot|
                    k3(x.chapter as int, x.stage_index as int, x.stage_id as int),
            ),
        ),
        ascending(
            keys_of(
                s.chapter_claims@,
                |x: Ch3ChapterClaimSnapshot| k2(x.chapter as int, x.reward_num as int),
            ),
        ),
        ascending(keys_of(s.profiles@, |x: FollowerProfileSnapshot| k1(x.profile_id as int))),
{
    lemma_stages_sorted(p.stages);
    lemma_rows_ascend(
        stages_sorted(p.stages),
        s.stages@,
        by_three(any32(), any32(), any64()),
        |x: Ch3StageSnapshot| k3(x.chapter as int, x.stage_index as int, x.stage_id as int),
    );
    lemma_rows_ascend(
        p.chapter_claims,
        s.chapter_claims@,
        by_two(any32(), any32()),
        |x: Ch3ChapterClaimSnapshot| k2(x.chapter as int, x.reward_num as int),
    );
    lemma_rows_ascend(
        p.affection,
        s.profiles@,
        by_one(any64()),
        |x: FollowerProfileSnapshot| k1(x.profile_id as int),
    );
}

/// So do the lists about the pass.
pub proof fn law_pass_ascends(p: PlayerModel, s: PassSnapshot)
    requires
        well_keyed(p),
        pass_shows(p, s),
    ensures
        ascending(
            keys_of(
                s.progress@,
                |x: PassProgressSnapshot| k2(x.season as int, x.version as int),
            ),
        ),
        ascending(
            keys_of(
                s.claims@,
                |x: PassClaimSnapshot| claim_key(x.season, x.version, x.lane, x.step),
            ),
        ),
        ascending(keys_of(s.premium_seasons@, |a: i64| k1(a as int))),
        ascending(keys_of(s.tickets@, |x: i64| k1(x as int))),
{
    lemma_rows_ascend(
        p.pass_progress,
        s.progress@,
        by_two(any64(), any32()),
        |x: PassProgressSnapshot| k2(x.season as int, x.version as int),
    );
    lemma_rows_ascend(
        p.pass_claims,
        s.claims@,
        Shape { a: any64(), b: any32(), c: any16(), d: any32() },
        |x: PassClaimSnapshot| claim_key(x.season, x.version, x.lane, x.step),
    );
    reveal(keyed);
    lemma_premium_seasons(p.entitlements);
    lemma_rows_ascend(p.tickets, s.tickets@, by_one(any64()), |x: i64| k1(x as int));
}

} // verus!
