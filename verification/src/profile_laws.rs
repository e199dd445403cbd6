//! What choices, tutorials, packages, ratings and scores mean for a player.
use crate::command::{Command, Mutation, Rules};
use crate::domain::{
    BookmarkSnapshot, ContentKind, CurrencyKind, MusicReviewSnapshot, MusicScoreSnapshot,
};
use crate::errors::{SqlFault, StoreError};
use crate::music::{
    bookmarked, reviewed, score_merged, scored, MergeScores, SaveBookmarks, SaveReviews,
};
use crate::number::{Real, ZERO};
use crate::outcome::Outcome;
use crate::player::PlayerModel;
use crate::profile::{
    all_packed, packed, tutored, GrantPackage, MergeTutorials, SelectReward, SetFlag, UpdateAvatar,
    UpdateGp, UpdateNickname, UpdateTitle,
};
use crate::rows::{
    AreaRow, BookmarkRow, FlagRow, LevelRow, OwnedModel, ReviewRow, ScoreModel, ScoreState,
    SelectionRow,
};
use crate::table::{find, get, k1, k2, law_find_place, law_get_put, Key};
use vstd::prelude::*;

verus! {

/// A choice between groups of rewards is kept for its group, the last one counts, and the
/// choices for other groups stay as they were.
pub proof fn law_choices(p: PlayerModel, m: Mutation, rules: Rules, c: SelectReward, other: Key)
    ensures
        c.effect(p, m, rules) matches Ok((q, _, _)) && get(q.selections, k1(c.group_id as int))
            == Some(
            SelectionRow {
                selection_id: c.selection_id,
                reward_group_id: c.reward_group_id,
                alternate_reward_group_id: c.alternate_reward_group_id,
                selected_at: m.now,
            },
        ) && (other != k1(c.group_id as int) ==> get(q.selections, other) == get(
            p.selections,
            other,
        )) && q == (PlayerModel { selections: q.selections, ..p }),
{
    let row = SelectionRow {
        selection_id: c.selection_id,
        reward_group_id: c.reward_group_id,
        alternate_reward_group_id: c.alternate_reward_group_id,
        selected_at: m.now,
    };
    law_get_put(p.selections, k1(c.group_id as int), row, k1(c.group_id as int));
    law_get_put(p.selections, k1(c.group_id as int), row, other);
}

/// A flag has the value that it was set to, and other flags stay as they were.
pub proof fn law_flags(p: PlayerModel, m: Mutation, rules: Rules, c: SetFlag, other: Seq<char>)
    ensures
        c.effect(p, m, rules) matches Ok((q, answer, _)) && answer == Outcome::Integer(c.value)
            && find(q.flags, c.flag@) == Some(FlagRow { value: c.value, updated_at: m.now }) && (
        other != c.flag@ ==> find(q.flags, other) == find(p.flags, other)) && q == (PlayerModel {
            flags: q.flags,
            ..p
        }),
{
    let row = FlagRow { value: c.value, updated_at: m.now };
    law_find_place(p.flags, c.flag@, row, c.flag@);
    law_find_place(p.flags, c.flag@, row, other);
}

/// A picture, a title and a name are what was chosen last; an empty name changes nothing.
/// Each choice leaves everything else as it was.
pub proof fn law_appearance(
    p: PlayerModel,
    m: Mutation,
    rules: Rules,
    avatar: UpdateAvatar,
    title: UpdateTitle,
    name: UpdateNickname,
)
    ensures
        avatar.effect(p, m, rules) matches Ok((q, answer, _)) && q.core.avatar_id == Some(
            avatar.avatar_id,
        ) && q.core.title_id == p.core.title_id && q.core.fan_level == p.core.fan_level
            && q.core.last_save_time == p.core.last_save_time && q == (PlayerModel {
            core: q.core,
            ..p
        }) && answer == Outcome::Integer(avatar.avatar_id),
        title.effect(p, m, rules) matches Ok((q, answer, _)) && q.core.title_id == Some(
            title.title_id,
        ) && q.core.avatar_id == p.core.avatar_id && q.core.fan_level == p.core.fan_level
            && q.core.last_save_time == p.core.last_save_time && q == (PlayerModel {
            core: q.core,
            ..p
        }) && answer == Outcome::Integer(title.title_id),
        name.effect(p, m, rules) matches Ok((q, answer, _)) && q.nickname == (
        if name.nickname@.len() > 0 {
            name.nickname@
        } else {
            p.nickname
        }) && q == (PlayerModel { nickname: q.nickname, ..p }) && answer == Outcome::Text(
            q.nickname,
        ),
{
}

/// The points of the first channel are the larger of what they were and what is reported,
/// where less than nothing counts as nothing; other channels stay as they were.
pub proof fn law_points_of_the_channel(
    p: PlayerModel,
    m: Mutation,
    rules: Rules,
    c: UpdateGp,
    other: Key,
)
    ensures
        match get(p.areas, k1(1)) {
            None => c.effect(p, m, rules) == Err::<(PlayerModel, Outcome, Outcome), StoreError>(
                StoreError::Sql(SqlFault::NoRows),
            ),
            Some(before) => ({
                let reported: int = if c.gp > 0 {
                    c.gp as int
                } else {
                    0
                };
                let kept = before.gp.or_larger(Real::of(reported));
                c.effect(p, m, rules) matches Ok((q, answer, _)) && get(q.areas, k1(1)) == Some(
                    AreaRow { gp: kept, ..before },
                ) && (other != k1(1) ==> get(q.areas, other) == get(p.areas, other)) && q == (
                PlayerModel { areas: q.areas, ..p }) && answer == Outcome::Integer(
                    kept.within(Real { bits: ZERO }, Real::of(i64::MAX as int)).as_int() as i64,
                )
            }),
        },
{
    if let Some(before) = get(p.areas, k1(1)) {
        let reported: int = if c.gp > 0 {
            c.gp as int
        } else {
            0
        };
        let row = AreaRow { gp: before.gp.or_larger(Real::of(reported)), ..before };
        law_get_put(p.areas, k1(1), row, k1(1));
        law_get_put(p.areas, k1(1), row, other);
    }
}

/// Every tutorial of a list with a positive number is completed afterwards, from when it
/// was first completed; no other changes.
pub proof fn law_tutorials(tutorials: Seq<(Key, i64)>, ids: Seq<i64>, now: i64, id: i64, other: Key)
    ensures
        id > 0 && ids.contains(id) ==> get(tutored(tutorials, ids, now), k1(id as int)) == Some(
            match get(tutorials, k1(id as int)) {
                Some(at) => at,
                None => now,
            },
        ),
        id <= 0 || !ids.contains(id) ==> get(tutored(tutorials, ids, now), k1(id as int)) == get(
            tutorials,
            k1(id as int),
        ),
        get(tutorials, other) is Some ==> get(tutored(tutorials, ids, now), other) == get(
            tutorials,
            other,
        ),
    decreases ids.len(),
{
    if ids.len() > 0 {
        let front = ids.drop_last();
        law_tutorials(tutorials, front, now, id, other);
        let n = ids.len() - 1;
        assert(ids[n] == ids.last());
        if front.contains(id) {
            let j = choose|j: int| 0 <= j < front.len() && front[j] == id;
            assert(ids[j] == id);
        }
        if ids.contains(id) {
            let j = choose|j: int| 0 <= j < ids.len() && ids[j] == id;
            if j < n {
                assert(front[j] == id);
            }
        }
        let before = tutored(tutorials, front, now);
        law_get_put(before, k1(ids.last() as int), now, k1(id as int));
        law_get_put(before, k1(ids.last() as int), now, other);
    }
}

/// Completing tutorials changes nothing else, and answers with all that are completed.
pub proof fn law_tutorials_are_merged(p: PlayerModel, m: Mutation, rules: Rules, c: MergeTutorials)
    ensures
        c.effect(p, m, rules) matches Ok((q, answer, _)) && q.tutorials == tutored(
            p.tutorials,
            c.tutorial_ids@,
            m.now,
        ) && q == (PlayerModel { tutorials: q.tutorials, ..p }) && (answer matches Outcome::Ids(ids)
            && ids.len() == q.tutorials.len() && forall|i: int|
            0 <= i < ids.len() ==> #[trigger] ids[i] == q.tutorials[i].0.a),
{
}

/// A piece of a package is owned afterwards, at least at the first level, and a costume at
/// least with its first bonus; a level that it had does not fall. Other content stays.
pub proof fn law_packed(
    p: PlayerModel,
    kind: ContentKind,
    area: i32,
    id: i64,
    now: i64,
    other: Key,
)
    ensures
        ({
            let q = packed(p, (kind, area, id), now);
            let key = k2(kind.rank() as int, id as int);
            let bonus: int = if kind == ContentKind::Costume {
                1
            } else {
                0
            };
            &&& get(q.owned, key) == Some(
                match get(p.owned, key) {
                    Some(before) => before,
                    None => OwnedModel { area, acquired_at: now, source: "package"@ },
                },
            )
            &&& get(q.levels, key) matches Some(after) && match get(p.levels, key) {
                None => after.level == 1 && after.reward_level == bonus,
                Some(before) => after.level >= before.level && after.level >= 1 && (after.level
                    == before.level || after.level == 1) && after.reward_level
                    >= before.reward_level && after.reward_level >= bonus && (after.reward_level
                    == before.reward_level || after.reward_level == bonus),
            }
            &&& other != key ==> get(q.owned, other) == get(p.owned, other) && get(q.levels, other)
                == get(p.levels, other)
            &&& q == PlayerModel { owned: q.owned, levels: q.levels, ..p }
        }),
{
    let q = packed(p, (kind, area, id), now);
    let key = k2(kind.rank() as int, id as int);
    let own = OwnedModel { area, acquired_at: now, source: "package"@ };
    law_get_put(p.owned, key, own, key);
    law_get_put(p.owned, key, own, other);
    let bonus: i64 = if kind == ContentKind::Costume {
        1
    } else {
        0
    };
    let row = match get(p.levels, key) {
        Some(before) => LevelRow {
            level: if before.level < 1 {
                1
            } else {
                before.level
            },
            reward_level: if before.reward_level < bonus {
                bonus
            } else {
                before.reward_level
            },
        },
        None => LevelRow { level: 1, reward_level: bonus },
    };
    law_get_put(p.levels, key, row, key);
    law_get_put(p.levels, key, row, other);
}

/// The contents of a package are received one after the other; balances do not change.
pub proof fn law_packages(
    p: PlayerModel,
    m: Mutation,
    rules: Rules,
    c: GrantPackage,
    more: (ContentKind, i32, i64),
)
    ensures
        c.effect(p, m, rules) matches Ok((q, answer, _)) && q == all_packed(p, c.contents@, m.now)
            && answer == (Outcome::Package {
            chocolate: q.wallet.balance(CurrencyKind::Chocolate),
            candy: q.wallet.balance(CurrencyKind::Candy),
            music_ids: c.music_ids@,
        }),
        all_packed(p, Seq::empty(), m.now) == p,
        all_packed(p, c.contents@.push(more), m.now) == packed(
            all_packed(p, c.contents@, m.now),
            more,
            m.now,
        ),
{
    assert(c.contents@.push(more).drop_last() =~= c.contents@);
    assert(c.contents@.push(more).last() == more);
}

/// Everything in a package is owned afterwards, and nothing is lost.
pub proof fn law_packages_are_received(
    p: PlayerModel,
    contents: Seq<(ContentKind, i32, i64)>,
    now: i64,
    i: int,
    key: Key,
)
    ensures
        ({
            let q = all_packed(p, contents, now);
            &&& 0 <= i < contents.len() ==> {
                let at = k2(contents[i].0.rank() as int, contents[i].2 as int);
                get(q.owned, at) is Some && (get(q.levels, at) matches Some(row) && row.level >= 1)
            }
            &&& get(p.owned, key) is Some ==> get(q.owned, key) == get(p.owned, key)
            &&& get(p.levels, key) matches Some(x) ==> (get(q.levels, key) matches Some(y)
                && y.level >= x.level && y.reward_level >= x.reward_level)
            &&& q == PlayerModel { owned: q.owned, levels: q.levels, ..p }
        }),
    decreases contents.len(),
{
    if contents.len() > 0 {
        let front = contents.drop_last();
        let n = contents.len() - 1;
        let last = contents.last();
        law_packages_are_received(p, front, now, i, key);
        let b = all_packed(p, front, now);
        law_packed(b, last.0, last.1, last.2, now, key);
        if 0 <= i < n {
            assert(front[i] == contents[i]);
            law_packed(
                b,
                last.0,
                last.1,
                last.2,
                now,
                k2(contents[i].0.rank() as int, contents[i].2 as int),
            );
        }
    }
}

/// The last rating of a piece of music counts, and ratings of others stay.
pub proof fn law_ratings(
    rows: Seq<(Key, ReviewRow)>,
    reviews: Seq<MusicReviewSnapshot>,
    new: MusicReviewSnapshot,
    now: i64,
    other: Key,
)
    ensures
        ({
            let key = k2(new.music_id as int, new.difficulty as int);
            let after = reviewed(rows, reviews.push(new), now);
            &&& get(after, key) == Some(ReviewRow { point: new.point, updated_at: now })
            &&& other != key ==> get(after, other) == get(reviewed(rows, reviews, now), other)
            &&& reviewed(rows, Seq::empty(), now) == rows
        }),
{
    assert(reviews.push(new).drop_last() =~= reviews);
    let key = k2(new.music_id as int, new.difficulty as int);
    let row = ReviewRow { point: new.point, updated_at: now };
    law_get_put(reviewed(rows, reviews, now), key, row, key);
    law_get_put(reviewed(rows, reviews, now), key, row, other);
}

/// The last bookmark of a piece of music counts, and bookmarks of others stay.
pub proof fn law_bookmarks(
    rows: Seq<(Key, BookmarkRow)>,
    bookmarks: Seq<BookmarkSnapshot>,
    new: BookmarkSnapshot,
    now: i64,
    other: Key,
)
    ensures
        ({
            let key = k1(new.music_id as int);
            let after = bookmarked(rows, bookmarks.push(new), now);
            &&& get(after, key) == Some(BookmarkRow { flag: new.flag, updated_at: now })
            &&& other != key ==> get(after, other) == get(bookmarked(rows, bookmarks, now), other)
            &&& bookmarked(rows, Seq::empty(), now) == rows
        }),
{
    assert(bookmarks.push(new).drop_last() =~= bookmarks);
    let key = k1(new.music_id as int);
    let row = BookmarkRow { flag: new.flag, updated_at: now };
    law_get_put(bookmarked(rows, bookmarks, now), key, row, key);
    law_get_put(bookmarked(rows, bookmarks, now), key, row, other);
}

/// Of every result the better one is kept: it is one of the two and neither is above it.
/// What is not a result is what was reported last. The first report is kept as it is.
pub proof fn law_scores(
    rows: Seq<(Key, ScoreModel)>,
    scores: Seq<MusicScoreSnapshot>,
    new: MusicScoreSnapshot,
    now: i64,
    other: Key,
)
    ensures
        ({
            let key = k2(new.music_id as int, new.difficulty as int);
            let before = scored(rows, scores, now);
            let after = scored(rows, scores.push(new), now);
            &&& scored(rows, Seq::empty(), now) == rows
            &&& other != key ==> get(after, other) == get(before, other)
            &&& get(after, key) matches Some(row) && {
                let s = row.state;
                &&& row.played_at == new.played_at@ && s.multiple == new.multiple && s.play_type
                    == new.play_type && s.is_credit == new.is_credit && s.updated_at == now
                &&& match get(before, key) {
                    None => s.score == new.score && s.grade == new.grade && s.play_count
                        == new.play_count && s.combo_grade == new.combo_grade && s.gp == new.gp
                        && s.achievement == new.achievement && s.mission_clear
                        == new.mission_clear,
                    Some(old) => {
                        let o = old.state;
                        &&& s.score >= o.score && s.score >= new.score && (s.score == o.score
                            || s.score == new.score)
                        &&& s.grade >= o.grade && s.grade >= new.grade && (s.grade == o.grade
                            || s.grade == new.grade)
                        &&& s.play_count >= o.play_count && s.play_count >= new.play_count && (
                        s.play_count == o.play_count || s.play_count == new.play_count)
                        &&& s.combo_grade >= o.combo_grade && s.combo_grade >= new.combo_grade && (
                        s.combo_grade == o.combo_grade || s.combo_grade == new.combo_grade)
                        &&& s.gp >= o.gp && s.gp >= new.gp && (s.gp == o.gp || s.gp == new.gp)
                        &&& s.achievement >= o.achievement && s.achievement >= new.achievement && (
                        s.achievement == o.achievement || s.achievement == new.achievement)
                        &&& s.mission_clear >= o.mission_clear && s.mission_clear
                            >= new.mission_clear && (s.mission_clear == o.mission_clear
                            || s.mission_clear == new.mission_clear)
                    },
                }
            }
        }),
{
    assert(scores.push(new).drop_last() =~= scores);
    let key = k2(new.music_id as int, new.difficulty as int);
    let before = scored(rows, scores, now);
    let row = score_merged(get(before, key), new, now);
    law_get_put(before, key, row, key);
    law_get_put(before, key, row, other);
}

/// Ratings, bookmarks and scores change nothing else. The first two are answered with what
/// was sent, the scores with all that there are.
pub proof fn law_music_reports(
    p: PlayerModel,
    m: Mutation,
    rules: Rules,
    reviews: SaveReviews,
    bookmarks: SaveBookmarks,
    scores: MergeScores,
)
    ensures
        reviews.effect(p, m, rules) matches Ok((q, answer, _)) && q == (PlayerModel {
            reviews: reviewed(p.reviews, reviews.reviews@, m.now),
            ..p
        }) && answer == Outcome::Reviews(reviews.reviews@),
        bookmarks.effect(p, m, rules) matches Ok((q, answer, _)) && q == (PlayerModel {
            bookmarks: bookmarked(p.bookmarks, bookmarks.bookmarks@, m.now),
            ..p
        }) && answer == Outcome::Bookmarks(bookmarks.bookmarks@),
        scores.effect(p, m, rules) matches Ok((q, answer, _)) && q == (PlayerModel {
            scores: scored(p.scores, scores.scores@, m.now),
            ..p
        }) && (answer matches Outcome::Scores(list) && list.len() == q.scores.len() && forall|
            i: int,
        |
            0 <= i < list.len() ==> (#[trigger] list[i]).state == (ScoreState {
                updated_at: 0,
                ..q.scores[i].1.state
            }) && list[i].music_id == q.scores[i].0.a as i32 && list[i].difficulty
                == q.scores[i].0.b as i16 && list[i].played_at == q.scores[i].1.played_at),
{
}

} // verus!
