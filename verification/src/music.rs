//! Ratings, bookmarks and scores of pieces of music.
use crate::command::{answered, Command, Effect, Mutation, RpcMutation, Rules};
use crate::consume_reward::RewardRules;
use crate::domain::{BookmarkSnapshot, MusicReviewSnapshot, MusicScoreSnapshot};
use crate::errors::StoreError;
use crate::ints::{max16, max32, max_int};
use crate::kept::{lemma_bookmarked, lemma_reviewed, lemma_scored};
use crate::lists::copies;
use crate::order::group_keyed;
use crate::outcome::{score_model, score_state, Outcome, Score, Summary};
use crate::player::{Player, PlayerModel};
use crate::rows::{BookmarkRow, ReviewRow, ScoreModel, ScoreRow, ScoreState};
use crate::table::{get, k1, k2, key1, key2, put, Key, Plain};
use vstd::prelude::*;

verus! {

/// Rating pieces of music.
pub struct SaveReviews {
    pub reviews: Vec<MusicReviewSnapshot>,
}

pub open spec fn reviewed(
    rows: Seq<(Key, ReviewRow)>,
    reviews: Seq<MusicReviewSnapshot>,
    now: i64,
) -> Seq<(Key, ReviewRow)>
    decreases reviews.len(),
{
    if reviews.len() == 0 {
        rows
    } else {
        let last = reviews.last();
        put(
            reviewed(rows, reviews.drop_last(), now),
            k2(last.music_id as int, last.difficulty as int),
            ReviewRow { point: last.point, updated_at: now },
        )
    }
}

pub open spec fn reviews_effect(
    p: PlayerModel,
    m: Mutation,
    reviews: Seq<MusicReviewSnapshot>,
) -> Effect {
    answered(
        PlayerModel { reviews: reviewed(p.reviews, reviews, m.now), ..p },
        Outcome::Reviews(reviews),
    )
}

impl Command for SaveReviews {
    open spec fn valid(&self) -> bool {
        true
    }

    open spec fn effect(&self, p: PlayerModel, m: Mutation, rules: Rules) -> Effect {
        reviews_effect(p, m, self.reviews@)
    }

    proof fn keeps_order(&self, p: PlayerModel, m: Mutation, rules: Rules) {
        broadcast use group_keyed;

        lemma_reviewed(p.reviews, self.reviews@, m.now);
    }

    fn run(&self, p: &mut Player, m: &RpcMutation, rules: &RewardRules) -> (r: Result<
        (Summary, Summary),
        StoreError,
    >) {
        let ghost start = p@;
        let ghost list = self.reviews@;
        let now: i64 = m.committed_at;
        let mut i: usize = 0;
        proof {
            assert(list.take(0) =~= Seq::empty());
        }
        while i < self.reviews.len()
            invariant
                i <= list.len(),
                list == self.reviews@,
                p@ == (
                    PlayerModel {
                        reviews: reviewed(start.reviews, list.take(i as int), now),
                        ..start
                    }
                ),
            decreases list.len() - i,
        {
            proof {
                assert(list.take(i + 1).drop_last() =~= list.take(i as int));
            }
            let row = self.reviews[i];
            p.reviews.put(
                key2(row.music_id as i64, row.difficulty as i64),
                Plain(ReviewRow { point: row.point, updated_at: now }),
            );
            i = i + 1;
        }
        proof {
            assert(list.take(i as int) =~= list);
        }
        Ok((Summary::Reviews(copies(&self.reviews)), Summary::Reviews(copies(&self.reviews))))
    }
}

/// The ratings of a player.
pub open spec fn reviews_shown(rows: Seq<(Key, ReviewRow)>) -> Seq<MusicReviewSnapshot> {
    rows.map_values(
        |e: (Key, ReviewRow)|
            MusicReviewSnapshot {
                music_id: e.0.a as i32,
                difficulty: e.0.b as i16,
                point: e.1.point,
            },
    )
}

/// Bookmarking pieces of music.
pub struct SaveBookmarks {
    pub bookmarks: Vec<BookmarkSnapshot>,
}

pub open spec fn bookmarked(
    rows: Seq<(Key, BookmarkRow)>,
    bookmarks: Seq<BookmarkSnapshot>,
    now: i64,
) -> Seq<(Key, BookmarkRow)>
    decreases bookmarks.len(),
{
    if bookmarks.len() == 0 {
        rows
    } else {
        let last = bookmarks.last();
        put(
            bookmarked(rows, bookmarks.drop_last(), now),
            k1(last.music_id as int),
            BookmarkRow { flag: last.flag, updated_at: now },
        )
    }
}

pub open spec fn bookmarks_effect(
    p: PlayerModel,
    m: Mutation,
    bookmarks: Seq<BookmarkSnapshot>,
) -> Effect {
    answered(
        PlayerModel { bookmarks: bookmarked(p.bookmarks, bookmarks, m.now), ..p },
        Outcome::Bookmarks(bookmarks),
    )
}

impl Command for SaveBookmarks {
    open spec fn valid(&self) -> bool {
        true
    }

    open spec fn effect(&self, p: PlayerModel, m: Mutation, rules: Rules) -> Effect {
        bookmarks_effect(p, m, self.bookmarks@)
    }

    proof fn keeps_order(&self, p: PlayerModel, m: Mutation, rules: Rules) {
        broadcast use group_keyed;

        lemma_bookmarked(p.bookmarks, self.bookmarks@, m.now);
    }

    fn run(&self, p: &mut Player, m: &RpcMutation, rules: &RewardRules) -> (r: Result<
        (Summary, Summary),
        StoreError,
    >) {
        let ghost start = p@;
        let ghost list = self.bookmarks@;
        let now: i64 = m.committed_at;
        let mut i: usize = 0;
        proof {
            assert(list.take(0) =~= Seq::empty());
        }
        while i < self.bookmarks.len()
            invariant
                i <= list.len(),
                list == self.bookmarks@,
                p@ == (PlayerModel {
                    bookmarks: bookmarked(start.bookmarks, list.take(i as int), now),
                    ..start
                }),
            decreases list.len() - i,
        {
            proof {
                assert(list.take(i + 1).drop_last() =~= list.take(i as int));
            }
            let row = self.bookmarks[i];
            p.bookmarks.put(
                key1(row.music_id as i64),
                Plain(BookmarkRow { flag: row.flag, updated_at: now }),
            );
            i = i + 1;
        }
        proof {
            assert(list.take(i as int) =~= list);
        }
        Ok(
            (
                Summary::Bookmarks(copies(&self.bookmarks)),
                Summary::Bookmarks(copies(&self.bookmarks)),
            ),
        )
    }
}

/// The bookmarks of a player.
pub open spec fn bookmarks_shown(rows: Seq<(Key, BookmarkRow)>) -> Seq<BookmarkSnapshot> {
    rows.map_values(
        |e: (Key, BookmarkRow)| BookmarkSnapshot { music_id: e.0.a as i32, flag: e.1.flag },
    )
}

/// Reporting scores.
pub struct MergeScores {
    pub scores: Vec<MusicScoreSnapshot>,
}

/// A score after another was reported: the better of each result.
pub open spec fn score_merged(
    before: Option<ScoreModel>,
    new: MusicScoreSnapshot,
    now: i64,
) -> ScoreModel {
    let s = score_state(new, now);
    ScoreModel {
        state: match before {
            None => s,
            Some(old) => ScoreState {
                score: max_int(old.state.score as int, s.score as int) as i32,
                grade: max_int(old.state.grade as int, s.grade as int) as i16,
                play_count: max_int(old.state.play_count as int, s.play_count as int) as i32,
                combo_grade: max_int(old.state.combo_grade as int, s.combo_grade as int) as i16,
                gp: max_int(old.state.gp as int, s.gp as int) as i32,
                achievement: max_int(old.state.achievement as int, s.achievement as int) as i16,
                mission_clear: max_int(
                    old.state.mission_clear as int,
                    s.mission_clear as int,
                ) as i16,
                ..s
            },
        },
        played_at: new.played_at@,
    }
}

pub open spec fn scored(
    rows: Seq<(Key, ScoreModel)>,
    scores: Seq<MusicScoreSnapshot>,
    now: i64,
) -> Seq<(Key, ScoreModel)>
    decreases scores.len(),
{
    if scores.len() == 0 {
        rows
    } else {
        let before = scored(rows, scores.drop_last(), now);
        let last = scores.last();
        let key = k2(last.music_id as int, last.difficulty as int);
        put(before, key, score_merged(get(before, key), last, now))
    }
}

/// A result that was reached is never lost by reporting another.
pub proof fn law_scores_monotonic(before: ScoreModel, new: MusicScoreSnapshot, now: i64)
    ensures
        ({
            let after = score_merged(Some(before), new, now).state;
            let old = before.state;
            &&& after.score >= old.score && after.score >= new.score
            &&& after.grade >= old.grade && after.grade >= new.grade
            &&& after.play_count >= old.play_count && after.play_count >= new.play_count
            &&& after.combo_grade >= old.combo_grade && after.combo_grade >= new.combo_grade
            &&& after.gp >= old.gp && after.gp >= new.gp
            &&& after.achievement >= old.achievement && after.achievement >= new.achievement
            &&& after.mission_clear >= old.mission_clear && after.mission_clear
                >= new.mission_clear
        }),
{
}

/// The scores of a player.
pub open spec fn scores_shown(rows: Seq<(Key, ScoreModel)>) -> Seq<Score> {
    rows.map_values(
        |e: (Key, ScoreModel)|
            Score {
                music_id: e.0.a as i32,
                difficulty: e.0.b as i16,
                state: ScoreState { updated_at: 0, ..e.1.state },
                played_at: e.1.played_at,
            },
    )
}

pub open spec fn score_models(scores: Seq<MusicScoreSnapshot>) -> Seq<Score> {
    scores.map_values(|s: MusicScoreSnapshot| score_model(s))
}

impl Player {
    pub(crate) fn music_reviews(&self) -> (r: Vec<MusicReviewSnapshot>)
        ensures
            r@ == reviews_shown(self@.reviews),
    {
        let mut r: Vec<MusicReviewSnapshot> = Vec::new();
        let mut i: usize = 0;
        while i < self.reviews.len()
            invariant
                i <= self@.reviews.len(),
                r@.len() == i,
                forall|j: int| 0 <= j < i ==> #[trigger] r@[j] == reviews_shown(self@.reviews)[j],
            decreases self@.reviews.len() - i,
        {
            let key = self.reviews.key_at(i);
            r.push(
                MusicReviewSnapshot {
                    music_id: key.a as i32,
                    difficulty: key.b as i16,
                    point: self.reviews.row_at(i).0.point,
                },
            );
            i = i + 1;
        }
        proof {
            assert(r@ =~= reviews_shown(self@.reviews));
        }
        r
    }

    pub(crate) fn bookmarks(&self) -> (r: Vec<BookmarkSnapshot>)
        ensures
            r@ == bookmarks_shown(self@.bookmarks),
    {
        let mut r: Vec<BookmarkSnapshot> = Vec::new();
        let mut i: usize = 0;
        while i < self.bookmarks.len()
            invariant
                i <= self@.bookmarks.len(),
                r@.len() == i,
                forall|j: int|
                    0 <= j < i ==> #[trigger] r@[j] == bookmarks_shown(self@.bookmarks)[j],
            decreases self@.bookmarks.len() - i,
        {
            r.push(
                BookmarkSnapshot {
                    music_id: self.bookmarks.key_at(i).a as i32,
                    flag: self.bookmarks.row_at(i).0.flag,
                },
            );
            i = i + 1;
        }
        proof {
            assert(r@ =~= bookmarks_shown(self@.bookmarks));
        }
        r
    }

    pub(crate) fn music_scores(&self) -> (r: Vec<MusicScoreSnapshot>)
        ensures
            score_models(r@) == scores_shown(self@.scores),
    {
        let mut r: Vec<MusicScoreSnapshot> = Vec::new();
        let mut i: usize = 0;
        while i < self.scores.len()
            invariant
                i <= self@.scores.len(),
                r@.len() == i,
                forall|j: int|
                    0 <= j < i ==> score_model(#[trigger] r@[j]) == scores_shown(self@.scores)[j],
            decreases self@.scores.len() - i,
        {
            let key = self.scores.key_at(i);
            let row = self.scores.row_at(i);
            r.push(
                MusicScoreSnapshot {
                    music_id: key.a as i32,
                    difficulty: key.b as i16,
                    score: row.state.score,
                    grade: row.state.grade,
                    play_count: row.state.play_count,
                    combo_grade: row.state.combo_grade,
                    gp: row.state.gp,
                    multiple: row.state.multiple,
                    achievement: row.state.achievement,
                    play_type: row.state.play_type,
                    played_at: row.played_at.clone(),
                    mission_clear: row.state.mission_clear,
                    is_credit: row.state.is_credit,
                },
            );
            i = i + 1;
        }
        proof {
            assert(score_models(r@) =~= scores_shown(self@.scores));
        }
        r
    }

    fn merge_score(&mut self, new: &MusicScoreSnapshot, now: i64)
        ensures
            final(self)@ == (PlayerModel {
                scores: put(
                    old(self)@.scores,
                    k2(new.music_id as int, new.difficulty as int),
                    score_merged(
                        get(old(self)@.scores, k2(new.music_id as int, new.difficulty as int)),
                        *new,
                        now,
                    ),
                ),
                ..old(self)@
            }),
    {
        let key = key2(new.music_id as i64, new.difficulty as i64);
        let reported = ScoreState {
            score: new.score,
            grade: new.grade,
            play_count: new.play_count,
            combo_grade: new.combo_grade,
            gp: new.gp,
            multiple: new.multiple,
            achievement: new.achievement,
            play_type: new.play_type,
            mission_clear: new.mission_clear,
            is_credit: new.is_credit,
            updated_at: now,
        };
        let state: ScoreState = match self.scores.get(key) {
            None => reported,
            Some(old) => ScoreState {
                score: max32(old.state.score, new.score),
                grade: max16(old.state.grade, new.grade),
                play_count: max32(old.state.play_count, new.play_count),
                combo_grade: max16(old.state.combo_grade, new.combo_grade),
                gp: max32(old.state.gp, new.gp),
                achievement: max16(old.state.achievement, new.achievement),
                mission_clear: max16(old.state.mission_clear, new.mission_clear),
                ..reported
            },
        };
        self.scores.put(key, ScoreRow { state, played_at: new.played_at.clone() });
    }
}

pub open spec fn scores_effect(
    p: PlayerModel,
    m: Mutation,
    scores: Seq<MusicScoreSnapshot>,
) -> Effect {
    let merged = scored(p.scores, scores, m.now);
    answered(PlayerModel { scores: merged, ..p }, Outcome::Scores(scores_shown(merged)))
}

impl Command for MergeScores {
    open spec fn valid(&self) -> bool {
        true
    }

    open spec fn effect(&self, p: PlayerModel, m: Mutation, rules: Rules) -> Effect {
        scores_effect(p, m, self.scores@)
    }

    proof fn keeps_order(&self, p: PlayerModel, m: Mutation, rules: Rules) {
        broadcast use group_keyed;

        lemma_scored(p.scores, self.scores@, m.now);
    }

    fn run(&self, p: &mut Player, m: &RpcMutation, rules: &RewardRules) -> (r: Result<
        (Summary, Summary),
        StoreError,
    >) {
        let ghost start = p@;
        let ghost list = self.scores@;
        let now: i64 = m.committed_at;
        let mut i: usize = 0;
        proof {
            assert(list.take(0) =~= Seq::empty());
        }
        while i < self.scores.len()
            invariant
                i <= list.len(),
                list == self.scores@,
                p@ == (
                    PlayerModel { scores: scored(start.scores, list.take(i as int), now), ..start }
                ),
            decreases list.len() - i,
        {
            proof {
                assert(list.take(i + 1).drop_last() =~= list.take(i as int));
            }
            p.merge_score(&self.scores[i], now);
            i = i + 1;
        }
        proof {
            assert(list.take(i as int) =~= list);
        }
        Ok((Summary::Scores(p.music_scores()), Summary::Scores(p.music_scores())))
    }
}

} // verus!
