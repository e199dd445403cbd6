//! The requests that change a player, as methods of the store.
use crate::ch3::{
    chapter_effect, numbered, stage_effect, stream_effect, ClaimChapter, SettleStage, SettleStream,
};
use crate::claims::{
    attend_effect, event_effect, game_effect, Attend, ClaimEvent, ClaimGame,
};
use crate::command::RpcMutation;
use crate::domain::{
    AdProfileGrant, AdRewardOutcome, AttendanceResult, BookmarkSnapshot, Ch3EnergySnapshot,
    Ch3Settlement, Ch3StageDefinition, Ch3StreamSettlement, ContentKind, ContentPurchaseCommand,
    ContentPurchaseOutcome, DeviceClock, DomainError, FollowerGiftOutcome,
    FollowerProfileRewardOutcome, FollowerQuestOutcome, FollowerQuestSnapshot,
    GameRewardClaimCommand, MusicEncoreRewardOutcome, MusicReviewSnapshot, MusicScoreSnapshot,
    PackagePurchaseOutcome, PassClaimOutcome, PassFillOutcome, PurchaseOutcome, Reward, RewardGrant,
    RewardPurchaseCommand, SelectRewardSnapshot, UserSavePatch,
};
use crate::errors::{misfitting, StoreError};
use crate::followers::{
    ad_effect, encore_effect, gift_effect, profile_rewards_effect, ClaimEncores,
    ClaimProfileRewards, GiveGift, GrantAdReward, Threshold,
};
use crate::ints::clip32;
use crate::mail::{
    claim_effect, delete_effect, festival_effect, post_effect, read_effect, ClaimMail, ClaimSamSeck,
    DeleteMail, PostMail, ReadMail,
};
use crate::music::{
    bookmarks_effect, reviews_effect, scores_effect, MergeScores, SaveBookmarks, SaveReviews,
};
use crate::number::Real;
use crate::lists::copied;
use crate::outcome::{event_outcome, EventAnswer, Outcome, Summary};
use crate::pass::{
    activate_effect, fill_effect, pass_claim_effect, season_effect, ActivatePasses, ClaimPass,
    FillPass, SelectSeason,
};
use crate::profile::{
    avatar_effect, flag_effect, gp_effect, nickname_effect, package_effect, select_effect,
    title_effect, tutorials_effect, GrantPackage, MergeTutorials, SelectReward, SetFlag,
    UpdateAvatar, UpdateGp, UpdateNickname, UpdateTitle,
};
use crate::quests::{infinite_effect, quest_effect, AdvanceQuest, SetQuestInfinite};
use crate::save::{save_effect, MergeSave};
use crate::shop::{content_effect, purchase_effect, PurchaseContent, PurchaseRewards};
use crate::store::{player_of, replied, settled, Database};
use vstd::prelude::*;

verus! {

impl Database {
    /// Gives a gift to a follower.
    pub fn give_follower_gift(
        &mut self,
        mutation: &RpcMutation,
        profile_id: i64,
        gift_id: i64,
        quantity: i64,
        experience_each: i64,
        level_thresholds: Vec<Threshold>,
    ) -> (r: Result<FollowerGiftOutcome, StoreError>)
        ensures
            if quantity <= 0 {
                r == Err::<FollowerGiftOutcome, StoreError>(
                    StoreError::Domain(DomainError::InvalidAmount),
                ) && final(self)@ == old(self)@
            } else {
                replied(
                    settled(
                        old(self)@,
                        mutation@,
                        gift_effect(
                            player_of(old(self)@, mutation@),
                            profile_id,
                            gift_id,
                            quantity,
                            experience_each,
                            level_thresholds@,
                        ),
                    ),
                    final(self)@,
                    r,
                    |v: FollowerGiftOutcome| Summary::Gift(v)@,
                    |o: Outcome| o is Gift,
                )
            },
    {
        if quantity <= 0 {
            return Err(StoreError::Domain(DomainError::InvalidAmount));
        }
        let command = GiveGift { profile_id, gift_id, quantity, experience_each, level_thresholds };
        match self.commit_rpc_mutation_with_replay(mutation, &command) {
            Err(e) => Err(e),
            Ok(summary) => match summary {
                Summary::Gift(v) => Ok(v),
                _ => Err(misfitting()),
            },
        }
    }

    /// Chooses between two groups of rewards.
    pub fn select_reward(
        &mut self,
        mutation: &RpcMutation,
        selection_id: i64,
        group_id: i32,
        reward_group_id: i32,
        alternate_reward_group_id: i32,
    ) -> (r: Result<Vec<SelectRewardSnapshot>, StoreError>)
        ensures
            replied(
                settled(
                    old(self)@,
                    mutation@,
                    select_effect(
                        (
                            SelectReward {
                                selection_id,
                                group_id,
                                reward_group_id,
                                alternate_reward_group_id,
                            }
                        ),
                        player_of(old(self)@, mutation@),
                        mutation@,
                    ),
                ),
                final(self)@,
                r,
                |v: Vec<SelectRewardSnapshot>| Summary::Selections(v)@,
                |o: Outcome| o is Selections,
            ),
    {
        let command = SelectReward {
            selection_id,
            group_id,
            reward_group_id,
            alternate_reward_group_id,
        };
        match self.commit_rpc_mutation_with_replay(mutation, &command) {
            Err(e) => Err(e),
            Ok(summary) => match summary {
                Summary::Selections(v) => Ok(v),
                _ => Err(misfitting()),
            },
        }
    }

    /// Claims the encores of pieces of music.
    pub fn claim_music_encore_rewards(
        &mut self,
        mutation: &RpcMutation,
        rewards: Vec<(i64, i32, i64, i64)>,
        profile_level_thresholds: Vec<(i64, i32, i64, i32)>,
    ) -> (r: Result<MusicEncoreRewardOutcome, StoreError>)
        ensures
            replied(
                settled(
                    old(self)@,
                    mutation@,
                    encore_effect(
                        player_of(old(self)@, mutation@),
                        mutation@,
                        rewards@,
                        profile_level_thresholds@,
                    ),
                ),
                final(self)@,
                r,
                |v: MusicEncoreRewardOutcome| Summary::Encore(v)@,
                |o: Outcome| o is Encore,
            ),
    {
        let command = ClaimEncores { rewards, profile_level_thresholds };
        match self.commit_rpc_mutation_with_replay(mutation, &command) {
            Err(e) => Err(e),
            Ok(summary) => match summary {
                Summary::Encore(v) => Ok(v),
                _ => Err(misfitting()),
            },
        }
    }

    /// Claims the rewards of affection levels.
    pub fn claim_follower_profile_rewards(
        &mut self,
        mutation: &RpcMutation,
        profile_id: i64,
        requested: Vec<(i32, Vec<RewardGrant>)>,
    ) -> (r: Result<Vec<FollowerProfileRewardOutcome>, StoreError>)
        ensures
            replied(
                settled(
                    old(self)@,
                    mutation@,
                    profile_rewards_effect(
                        player_of(old(self)@, mutation@),
                        mutation@,
                        old(self)@.rules,
                        profile_id,
                        requested@,
                    ),
                ),
                final(self)@,
                r,
                |v: Vec<FollowerProfileRewardOutcome>| Summary::ProfileRewards(v)@,
                |o: Outcome| o is ProfileRewards,
            ),
    {
        let command = ClaimProfileRewards { profile_id, requested };
        match self.commit_rpc_mutation_with_replay(mutation, &command) {
            Err(e) => Err(e),
            Ok(summary) => match summary {
                Summary::ProfileRewards(v) => Ok(v),
                _ => Err(misfitting()),
            },
        }
    }

    /// Reports how far a task of the guide is.
    pub fn advance_follower_quest(
        &mut self,
        mutation: &RpcMutation,
        current_id: i64,
        sub_id: i64,
        condition_value: Real,
        thresholds: [Real; 3],
        rewards: Vec<RewardGrant>,
        next_id: Option<i64>,
    ) -> (r: Result<FollowerQuestOutcome, StoreError>)
        ensures
            if !(1 <= sub_id <= 3) || !condition_value.amount() {
                r == Err::<FollowerQuestOutcome, StoreError>(
                    StoreError::Domain(DomainError::InvalidAmount),
                ) && final(self)@ == old(self)@
            } else {
                replied(
                    settled(
                        old(self)@,
                        mutation@,
                        quest_effect(
                            player_of(old(self)@, mutation@),
                            mutation@,
                            old(self)@.rules,
                            current_id,
                            sub_id,
                            condition_value,
                            thresholds@[sub_id - 1],
                            rewards@,
                            next_id,
                        ),
                    ),
                    final(self)@,
                    r,
                    |v: FollowerQuestOutcome| Summary::Quest(v)@,
                    |o: Outcome| o is Quest,
                )
            },
    {
        if sub_id < 1 || sub_id > 3 || !condition_value.is_amount() {
            return Err(StoreError::Domain(DomainError::InvalidAmount));
        }
        let command = AdvanceQuest {
            current_id,
            sub_id,
            condition_value,
            thresholds,
            rewards,
            next_id,
        };
        match self.commit_rpc_mutation_with_replay(mutation, &command) {
            Err(e) => Err(e),
            Ok(summary) => match summary {
                Summary::Quest(v) => Ok(v),
                _ => Err(misfitting()),
            },
        }
    }

    /// Keeps a flag for the client.
    pub fn set_one_time_flag(
        &mut self,
        mutation: &RpcMutation,
        flag: String,
        value: i64,
    ) -> (r: Result<i64, StoreError>)
        ensures
            replied(
                settled(
                    old(self)@,
                    mutation@,
                    flag_effect(player_of(old(self)@, mutation@), mutation@, flag@, value),
                ),
                final(self)@,
                r,
                |v: i64| Summary::Integer(v)@,
                |o: Outcome| o is Integer,
            ),
    {
        let command = SetFlag { flag, value };
        match self.commit_rpc_mutation_with_replay(mutation, &command) {
            Err(e) => Err(e),
            Ok(summary) => match summary {
                Summary::Integer(v) => Ok(v),
                _ => Err(misfitting()),
            },
        }
    }

    /// Counts a watched advertisement and gives its rewards.
    pub fn grant_ad_reward(
        &mut self,
        mutation: &RpcMutation,
        ad_id: i64,
        local_day: i64,
        rewards: Vec<RewardGrant>,
        profile: Option<AdProfileGrant>,
    ) -> (r: Result<AdRewardOutcome, StoreError>)
        ensures
            replied(
                settled(
                    old(self)@,
                    mutation@,
                    ad_effect(
                        player_of(old(self)@, mutation@),
                        mutation@,
                        old(self)@.rules,
                        ad_id,
                        local_day,
                        rewards@,
                        profile,
                    ),
                ),
                final(self)@,
                r,
                |v: AdRewardOutcome| Summary::Ad(v)@,
                |o: Outcome| o is Ad,
            ),
    {
        let command = GrantAdReward { ad_id, local_day, rewards, profile };
        match self.commit_rpc_mutation_with_replay(mutation, &command) {
            Err(e) => Err(e),
            Ok(summary) => match summary {
                Summary::Ad(v) => Ok(v),
                _ => Err(misfitting()),
            },
        }
    }

    /// Claims a step of the festival.
    pub fn claim_sam_seck(
        &mut self,
        mutation: &RpcMutation,
        event_id: i64,
        post_id: i64,
        reward: RewardGrant,
    ) -> (r: Result<i32, StoreError>)
        ensures
            replied(
                settled(
                    old(self)@,
                    mutation@,
                    festival_effect(
                        player_of(old(self)@, mutation@),
                        mutation@,
                        event_id,
                        post_id,
                        reward,
                    ),
                ),
                final(self)@,
                r,
                |v: i32| Summary::Step(v)@,
                |o: Outcome| o is Step,
            ),
    {
        let command = ClaimSamSeck { event_id, post_id, reward };
        match self.commit_rpc_mutation_with_replay(mutation, &command) {
            Err(e) => Err(e),
            Ok(summary) => match summary {
                Summary::Step(v) => Ok(v),
                _ => Err(misfitting()),
            },
        }
    }

    /// Claims a daily event; what it gave and the balances of chocolate, candy, likes and fans.
    pub fn claim_event_reward(
        &mut self,
        mutation: &RpcMutation,
        reward_row_id: i64,
        reward: RewardGrant,
    ) -> (r: Result<(Vec<RewardGrant>, Real, Real, Real, Real), StoreError>)
        ensures
            replied(
                settled(
                    old(self)@,
                    mutation@,
                    event_effect(
                        player_of(old(self)@, mutation@),
                        mutation@,
                        old(self)@.rules,
                        reward_row_id,
                        reward,
                    ),
                ),
                final(self)@,
                r,
                |v: (Vec<RewardGrant>, Real, Real, Real, Real)|
                    event_outcome(
                        EventAnswer {
                            rewards: v.0,
                            chocolate: v.1,
                            candy: v.2,
                            likes: v.3,
                            fans: v.4,
                        },
                    ),
                |o: Outcome| o is Event,
            ),
    {
        let command = ClaimEvent { reward_row_id, reward };
        match self.commit_rpc_mutation_with_replay(mutation, &command) {
            Err(e) => Err(e),
            Ok(summary) => match summary {
                Summary::Event(a) => Ok((a.rewards, a.chocolate, a.candy, a.likes, a.fans)),
                _ => Err(misfitting()),
            },
        }
    }

    /// Claims a level of an achievement or of a daily mission; the next level and what it gave.
    pub fn claim_game_reward(
        &mut self,
        mutation: &RpcMutation,
        command: GameRewardClaimCommand,
    ) -> (r: Result<(i32, Vec<RewardGrant>), StoreError>)
        ensures
            replied(
                settled(
                    old(self)@,
                    mutation@,
                    game_effect(
                        player_of(old(self)@, mutation@),
                        mutation@,
                        old(self)@.rules,
                        command,
                    ),
                ),
                final(self)@,
                r,
                |v: (i32, Vec<RewardGrant>)| Outcome::Game(v.0, v.1@),
                |o: Outcome| o is Game,
            ),
    {
        let command = ClaimGame { claim: command };
        match self.commit_rpc_mutation_with_replay(mutation, &command) {
            Err(e) => Err(e),
            Ok(summary) => match summary {
                Summary::Game(level, rewards) => Ok((level, rewards)),
                _ => Err(misfitting()),
            },
        }
    }

    /// Rates pieces of music.
    pub fn save_music_reviews(
        &mut self,
        mutation: &RpcMutation,
        reviews: Vec<MusicReviewSnapshot>,
    ) -> (r: Result<Vec<MusicReviewSnapshot>, StoreError>)
        ensures
            replied(
                settled(
                    old(self)@,
                    mutation@,
                    reviews_effect(player_of(old(self)@, mutation@), mutation@, reviews@),
                ),
                final(self)@,
                r,
                |v: Vec<MusicReviewSnapshot>| Summary::Reviews(v)@,
                |o: Outcome| o is Reviews,
            ),
    {
        let command = SaveReviews { reviews };
        match self.commit_rpc_mutation_with_replay(mutation, &command) {
            Err(e) => Err(e),
            Ok(summary) => match summary {
                Summary::Reviews(v) => Ok(v),
                _ => Err(misfitting()),
            },
        }
    }

    /// Bookmarks pieces of music.
    pub fn save_bookmarks(
        &mut self,
        mutation: &RpcMutation,
        bookmarks: Vec<BookmarkSnapshot>,
    ) -> (r: Result<Vec<BookmarkSnapshot>, StoreError>)
        ensures
            replied(
                settled(
                    old(self)@,
                    mutation@,
                    bookmarks_effect(player_of(old(self)@, mutation@), mutation@, bookmarks@),
                ),
                final(self)@,
                r,
                |v: Vec<BookmarkSnapshot>| Summary::Bookmarks(v)@,
                |o: Outcome| o is Bookmarks,
            ),
    {
        let command = SaveBookmarks { bookmarks };
        match self.commit_rpc_mutation_with_replay(mutation, &command) {
            Err(e) => Err(e),
            Ok(summary) => match summary {
                Summary::Bookmarks(v) => Ok(v),
                _ => Err(misfitting()),
            },
        }
    }

    /// Reports scores; all scores after it.
    pub fn merge_music_scores(
        &mut self,
        mutation: &RpcMutation,
        scores: Vec<MusicScoreSnapshot>,
    ) -> (r: Result<Vec<MusicScoreSnapshot>, StoreError>)
        ensures
            replied(
                settled(
                    old(self)@,
                    mutation@,
                    scores_effect(player_of(old(self)@, mutation@), mutation@, scores@),
                ),
                final(self)@,
                r,
                |v: Vec<MusicScoreSnapshot>| Summary::Scores(v)@,
                |o: Outcome| o is Scores,
            ),
    {
        let command = MergeScores { scores };
        match self.commit_rpc_mutation_with_replay(mutation, &command) {
            Err(e) => Err(e),
            Ok(summary) => match summary {
                Summary::Scores(v) => Ok(v),
                _ => Err(misfitting()),
            },
        }
    }

    /// Settles a played stage.
    pub fn settle_ch3_stage(
        &mut self,
        mutation: &RpcMutation,
        stage: Ch3StageDefinition,
        next: Option<Ch3StageDefinition>,
        star: i32,
        score: i64,
        energy_cost: i32,
        energy_cap: i32,
        rewards: Vec<RewardGrant>,
        profile_exp_gain: i64,
        profile_level_thresholds: Vec<Threshold>,
    ) -> (r: Result<Ch3Settlement, StoreError>)
        requires
            energy_cap - energy_cost <= i32::MAX,
            rewards@.len() <= i64::MAX,
        ensures
            replied(
                settled(
                    old(self)@,
                    mutation@,
                    stage_effect(
                        (
                            SettleStage {
                                stage,
                                next,
                                star,
                                score,
                                energy_cost,
                                energy_cap,
                                rewards,
                                profile_exp_gain,
                                profile_level_thresholds,
                            }
                        ),
                        player_of(old(self)@, mutation@),
                        mutation@,
                        old(self)@.rules,
                    ),
                ),
                final(self)@,
                r,
                |v: Ch3Settlement| Summary::Settlement(v)@,
                |o: Outcome| o is Settlement,
            ),
    {
        let command = SettleStage {
            stage,
            next,
            star,
            score,
            energy_cost,
            energy_cap,
            rewards,
            profile_exp_gain,
            profile_level_thresholds,
        };
        match self.commit_rpc_mutation_with_replay(mutation, &command) {
            Err(e) => Err(e),
            Ok(summary) => match summary {
                Summary::Settlement(v) => Ok(v),
                _ => Err(misfitting()),
            },
        }
    }

    /// Claims a reward for the stars of a chapter.
    pub fn claim_ch3_chapter_reward(
        &mut self,
        mutation: &RpcMutation,
        chapter: i32,
        reward_num: i32,
        goal: i32,
        rewards: Vec<RewardGrant>,
        energy_cap: i32,
    ) -> (r: Result<(Ch3EnergySnapshot, Vec<RewardGrant>), StoreError>)
        ensures
            replied(
                settled(
                    old(self)@,
                    mutation@,
                    chapter_effect(
                        (ClaimChapter { chapter, reward_num, goal, rewards, energy_cap }),
                        player_of(old(self)@, mutation@),
                        mutation@,
                        old(self)@.rules,
                    ),
                ),
                final(self)@,
                r,
                |v: (Ch3EnergySnapshot, Vec<RewardGrant>)| Outcome::Chapter(v.0, v.1@),
                |o: Outcome| o is Chapter,
            ),
    {
        let command = ClaimChapter { chapter, reward_num, goal, rewards, energy_cap };
        match self.commit_rpc_mutation_with_replay(mutation, &command) {
            Err(e) => Err(e),
            Ok(summary) => match summary {
                Summary::Chapter(energy, rewards) => Ok((energy, rewards)),
                _ => Err(misfitting()),
            },
        }
    }

    /// Settles a completed stage that was replayed several times.
    pub fn settle_ch3_stream(
        &mut self,
        mutation: &RpcMutation,
        stage_id: i64,
        count: i32,
        energy_cost_each: i32,
        energy_cap: i32,
        reward_rolls: Vec<(i32, Vec<RewardGrant>)>,
        profile_exp_each: i64,
        profile_level_thresholds: Vec<Threshold>,
    ) -> (r: Result<Ch3StreamSettlement, StoreError>)
        requires
            energy_cap - clip32(energy_cost_each * count) <= i32::MAX,
            numbered(reward_rolls@),
        ensures
            if !(1 <= count <= 5) {
                r == Err::<Ch3StreamSettlement, StoreError>(
                    StoreError::Domain(DomainError::InvalidStage),
                ) && final(self)@ == old(self)@
            } else {
                replied(
                    settled(
                        old(self)@,
                        mutation@,
                        stream_effect(
                            (
                                SettleStream {
                                    stage_id,
                                    count,
                                    energy_cost_each,
                                    energy_cap,
                                    reward_rolls,
                                    profile_exp_each,
                                    profile_level_thresholds,
                                }
                            ),
                            player_of(old(self)@, mutation@),
                            mutation@,
                            old(self)@.rules,
                        ),
                    ),
                    final(self)@,
                    r,
                    |v: Ch3StreamSettlement| Summary::Stream(v)@,
                    |o: Outcome| o is Stream,
                )
            },
    {
        if count < 1 || count > 5 {
            return Err(StoreError::Domain(DomainError::InvalidStage));
        }
        let command = SettleStream {
            stage_id,
            count,
            energy_cost_each,
            energy_cap,
            reward_rolls,
            profile_exp_each,
            profile_level_thresholds,
        };
        match self.commit_rpc_mutation_with_replay(mutation, &command) {
            Err(e) => Err(e),
            Ok(summary) => match summary {
                Summary::Stream(v) => Ok(v),
                _ => Err(misfitting()),
            },
        }
    }

    /// Chooses a picture.
    pub fn update_avatar(
        &mut self,
        mutation: &RpcMutation,
        avatar_id: i64,
    ) -> (r: Result<i64, StoreError>)
        ensures
            replied(
                settled(
                    old(self)@,
                    mutation@,
                    avatar_effect(player_of(old(self)@, mutation@), avatar_id),
                ),
                final(self)@,
                r,
                |v: i64| Summary::Integer(v)@,
                |o: Outcome| o is Integer,
            ),
    {
        let command = UpdateAvatar { avatar_id };
        match self.commit_rpc_mutation_with_replay(mutation, &command) {
            Err(e) => Err(e),
            Ok(summary) => match summary {
                Summary::Integer(v) => Ok(v),
                _ => Err(misfitting()),
            },
        }
    }

    /// Chooses a name; the name after it.
    pub fn update_nickname(
        &mut self,
        mutation: &RpcMutation,
        nickname: &str,
    ) -> (r: Result<String, StoreError>)
        ensures
            replied(
                settled(
                    old(self)@,
                    mutation@,
                    nickname_effect(player_of(old(self)@, mutation@), nickname@),
                ),
                final(self)@,
                r,
                |v: String| Summary::Text(v)@,
                |o: Outcome| o is Text,
            ),
    {
        let command = UpdateNickname { nickname: nickname.to_owned() };
        match self.commit_rpc_mutation_with_replay(mutation, &command) {
            Err(e) => Err(e),
            Ok(summary) => match summary {
                Summary::Text(v) => Ok(v),
                _ => Err(misfitting()),
            },
        }
    }

    /// Chooses a title.
    pub fn update_user_title(
        &mut self,
        mutation: &RpcMutation,
        title_id: i64,
    ) -> (r: Result<i64, StoreError>)
        ensures
            replied(
                settled(
                    old(self)@,
                    mutation@,
                    title_effect(player_of(old(self)@, mutation@), title_id),
                ),
                final(self)@,
                r,
                |v: i64| Summary::Integer(v)@,
                |o: Outcome| o is Integer,
            ),
    {
        let command = UpdateTitle { title_id };
        match self.commit_rpc_mutation_with_replay(mutation, &command) {
            Err(e) => Err(e),
            Ok(summary) => match summary {
                Summary::Integer(v) => Ok(v),
                _ => Err(misfitting()),
            },
        }
    }

    /// Reports the points of the first channel; the points after it.
    pub fn update_user_gp(
        &mut self,
        mutation: &RpcMutation,
        gp: i64,
    ) -> (r: Result<i64, StoreError>)
        ensures
            replied(
                settled(old(self)@, mutation@, gp_effect(player_of(old(self)@, mutation@), gp)),
                final(self)@,
                r,
                |v: i64| Summary::Integer(v)@,
                |o: Outcome| o is Integer,
            ),
    {
        let command = UpdateGp { gp };
        match self.commit_rpc_mutation_with_replay(mutation, &command) {
            Err(e) => Err(e),
            Ok(summary) => match summary {
                Summary::Integer(v) => Ok(v),
                _ => Err(misfitting()),
            },
        }
    }

    /// Lets the newest stage of the guide go on without an end.
    pub fn set_follower_quest_infinite(&mut self, mutation: &RpcMutation) -> (
        r: Result<FollowerQuestSnapshot, StoreError>
    )
        ensures
            replied(
                settled(
                    old(self)@,
                    mutation@,
                    infinite_effect(player_of(old(self)@, mutation@), mutation@),
                ),
                final(self)@,
                r,
                |v: FollowerQuestSnapshot| Summary::QuestState(v)@,
                |o: Outcome| o is QuestState,
            ),
    {
        let command = SetQuestInfinite {  };
        match self.commit_rpc_mutation_with_replay(mutation, &command) {
            Err(e) => Err(e),
            Ok(summary) => match summary {
                Summary::QuestState(v) => Ok(v),
                _ => Err(misfitting()),
            },
        }
    }

    /// Gives the contents of a package.
    pub fn grant_package_contents(
        &mut self,
        mutation: &RpcMutation,
        contents: &[(ContentKind, i32, i64)],
        music_ids: &[i64],
    ) -> (r: Result<PackagePurchaseOutcome, StoreError>)
        ensures
            replied(
                settled(
                    old(self)@,
                    mutation@,
                    package_effect(
                        player_of(old(self)@, mutation@),
                        mutation@,
                        contents@,
                        music_ids@,
                    ),
                ),
                final(self)@,
                r,
                |v: PackagePurchaseOutcome| Summary::Package(v)@,
                |o: Outcome| o is Package,
            ),
    {
        let command = GrantPackage { contents: copied(contents), music_ids: copied(music_ids) };
        match self.commit_rpc_mutation_with_replay(mutation, &command) {
            Err(e) => Err(e),
            Ok(summary) => match summary {
                Summary::Package(v) => Ok(v),
                _ => Err(misfitting()),
            },
        }
    }

    /// Completes tutorials; all completed ones after it.
    pub fn merge_tutorials(
        &mut self,
        mutation: &RpcMutation,
        tutorial_ids: &[i64],
    ) -> (r: Result<Vec<i64>, StoreError>)
        ensures
            replied(
                settled(
                    old(self)@,
                    mutation@,
                    tutorials_effect(player_of(old(self)@, mutation@), mutation@, tutorial_ids@),
                ),
                final(self)@,
                r,
                |v: Vec<i64>| Summary::Ids(v)@,
                |o: Outcome| o is Ids,
            ),
    {
        let command = MergeTutorials { tutorial_ids: copied(tutorial_ids) };
        match self.commit_rpc_mutation_with_replay(mutation, &command) {
            Err(e) => Err(e),
            Ok(summary) => match summary {
                Summary::Ids(v) => Ok(v),
                _ => Err(misfitting()),
            },
        }
    }

    /// Merges a save. The device that sent it does not matter.
    pub fn merge_user_save(
        &mut self,
        mutation: &RpcMutation,
        patch: &UserSavePatch,
        _device_uuid: &str,
        pass_point_multiplier: i64,
        pass_thresholds: &[(i64, i32, i64)],
    ) -> (r: Result<String, StoreError>)
        ensures
            replied(
                settled(
                    old(self)@,
                    mutation@,
                    save_effect(
                        player_of(old(self)@, mutation@),
                        mutation@,
                        *patch,
                        pass_point_multiplier,
                        pass_thresholds@,
                    ),
                ),
                final(self)@,
                r,
                |v: String| Summary::Text(v)@,
                |o: Outcome| o is Text,
            ),
    {
        let command = MergeSave {
            patch,
            pass_point_multiplier,
            pass_thresholds: copied(pass_thresholds),
        };
        match self.commit_rpc_mutation_with_replay(mutation, &command) {
            Err(e) => Err(e),
            Ok(summary) => match summary {
                Summary::Text(v) => Ok(v),
                _ => Err(misfitting()),
            },
        }
    }

    /// Counts a day on which the player came, or asks whether it was counted.
    pub fn attendance(
        &mut self,
        mutation: &RpcMutation,
        clock: DeviceClock,
        mode: &str,
    ) -> (r: Result<AttendanceResult, StoreError>)
        requires
            clock.representable(),
        ensures
            replied(
                settled(
                    old(self)@,
                    mutation@,
                    attend_effect(
                        player_of(old(self)@, mutation@),
                        mutation@,
                        clock.local_day(),
                        mode@,
                    ),
                ),
                final(self)@,
                r,
                |v: AttendanceResult| Summary::Attendance(v)@,
                |o: Outcome| o is Attendance,
            ),
    {
        let command = Attend { clock, mode: mode.to_owned() };
        match self.commit_rpc_mutation_with_replay(mutation, &command) {
            Err(e) => Err(e),
            Ok(summary) => match summary {
                Summary::Attendance(v) => Ok(v),
                _ => Err(misfitting()),
            },
        }
    }

    /// Sends a mail with the next number, which is the answer.
    pub fn queue_generated_mail_rpc(
        &mut self,
        mutation: &RpcMutation,
        subject_key: &str,
        body_key: &str,
        reward: &Reward,
    ) -> (r: Result<i64, StoreError>)
        ensures
            replied(
                settled(
                    old(self)@,
                    mutation@,
                    post_effect(
                        player_of(old(self)@, mutation@),
                        mutation@,
                        subject_key@,
                        body_key@,
                        *reward,
                    ),
                ),
                final(self)@,
                r,
                |v: i64| Summary::Integer(v)@,
                |o: Outcome| o is Integer,
            ),
    {
        let command = PostMail {
            subject_key: subject_key.to_owned(),
            body_key: body_key.to_owned(),
            reward: *reward,
        };
        match self.commit_rpc_mutation_with_replay(mutation, &command) {
            Err(e) => Err(e),
            Ok(summary) => match summary {
                Summary::Integer(v) => Ok(v),
                _ => Err(misfitting()),
            },
        }
    }

    /// Reads a mail.
    pub fn read_mail(
        &mut self,
        mutation: &RpcMutation,
        post_id: i64,
    ) -> (r: Result<i64, StoreError>)
        ensures
            replied(
                settled(
                    old(self)@,
                    mutation@,
                    read_effect(player_of(old(self)@, mutation@), mutation@, post_id),
                ),
                final(self)@,
                r,
                |v: i64| Summary::Integer(v)@,
                |o: Outcome| o is Integer,
            ),
    {
        let command = ReadMail { post_id };
        match self.commit_rpc_mutation_with_replay(mutation, &command) {
            Err(e) => Err(e),
            Ok(summary) => match summary {
                Summary::Integer(v) => Ok(v),
                _ => Err(misfitting()),
            },
        }
    }

    /// Claims the reward of a mail.
    pub fn claim_mail_rpc(
        &mut self,
        mutation: &RpcMutation,
        post_id: i64,
    ) -> (r: Result<Option<RewardGrant>, StoreError>)
        ensures
            replied(
                settled(
                    old(self)@,
                    mutation@,
                    claim_effect(
                        player_of(old(self)@, mutation@),
                        mutation@,
                        old(self)@.rules,
                        post_id,
                    ),
                ),
                final(self)@,
                r,
                |v: Option<RewardGrant>| Summary::MailGrant(v)@,
                |o: Outcome| o is MailGrant,
            ),
    {
        let command = ClaimMail { post_id };
        match self.commit_rpc_mutation_with_replay(mutation, &command) {
            Err(e) => Err(e),
            Ok(summary) => match summary {
                Summary::MailGrant(v) => Ok(v),
                _ => Err(misfitting()),
            },
        }
    }

    /// Deletes a claimed mail, or all mail that is done with.
    pub fn delete_mail(
        &mut self,
        mutation: &RpcMutation,
        post_id: i64,
        delete_all_confirmed: bool,
    ) -> (r: Result<i64, StoreError>)
        ensures
            replied(
                settled(
                    old(self)@,
                    mutation@,
                    delete_effect(
                        player_of(old(self)@, mutation@),
                        mutation@,
                        post_id,
                        delete_all_confirmed,
                    ),
                ),
                final(self)@,
                r,
                |v: i64| Summary::Integer(v)@,
                |o: Outcome| o is Integer,
            ),
    {
        let command = DeleteMail { post_id, delete_all_confirmed };
        match self.commit_rpc_mutation_with_replay(mutation, &command) {
            Err(e) => Err(e),
            Ok(summary) => match summary {
                Summary::Integer(v) => Ok(v),
                _ => Err(misfitting()),
            },
        }
    }

    /// Buys rewards.
    pub fn purchase_rewards(
        &mut self,
        mutation: &RpcMutation,
        command: RewardPurchaseCommand,
    ) -> (r: Result<PurchaseOutcome, StoreError>)
        ensures
            replied(
                settled(
                    old(self)@,
                    mutation@,
                    purchase_effect(
                        player_of(old(self)@, mutation@),
                        mutation@,
                        old(self)@.rules,
                        command,
                    ),
                ),
                final(self)@,
                r,
                |v: PurchaseOutcome| Summary::Purchase(v)@,
                |o: Outcome| o is Purchase,
            ),
    {
        let command = PurchaseRewards { purchase: command };
        match self.commit_rpc_mutation_with_replay(mutation, &command) {
            Err(e) => Err(e),
            Ok(summary) => match summary {
                Summary::Purchase(v) => Ok(v),
                _ => Err(misfitting()),
            },
        }
    }

    /// Buys a piece of content, or its next level.
    pub fn purchase_content(
        &mut self,
        mutation: &RpcMutation,
        command: ContentPurchaseCommand,
    ) -> (r: Result<ContentPurchaseOutcome, StoreError>)
        ensures
            replied(
                settled(
                    old(self)@,
                    mutation@,
                    content_effect(player_of(old(self)@, mutation@), mutation@, command),
                ),
                final(self)@,
                r,
                |v: ContentPurchaseOutcome| Summary::Content(v)@,
                |o: Outcome| o is Content,
            ),
    {
        let command = PurchaseContent { purchase: command };
        match self.commit_rpc_mutation_with_replay(mutation, &command) {
            Err(e) => Err(e),
            Ok(summary) => match summary {
                Summary::Content(v) => Ok(v),
                _ => Err(misfitting()),
            },
        }
    }

    /// Makes a season current.
    pub fn select_pass_season_rpc(
        &mut self,
        mutation: &RpcMutation,
        clock: DeviceClock,
        season: i64,
    ) -> (r: Result<(), StoreError>)
        requires
            clock.representable(),
        ensures
            replied(
                settled(
                    old(self)@,
                    mutation@,
                    season_effect(player_of(old(self)@, mutation@), clock, season),
                ),
                final(self)@,
                r,
                |v: ()| Outcome::Done,
                |o: Outcome| o is Done,
            ),
    {
        let command = SelectSeason { clock, season };
        match self.commit_rpc_mutation_with_replay(mutation, &command) {
            Err(e) => Err(e),
            Ok(summary) => match summary {
                Summary::Done => Ok(()),
                _ => Err(misfitting()),
            },
        }
    }

    /// Buys points of the pass.
    pub fn fill_pass(
        &mut self,
        mutation: &RpcMutation,
        season: i64,
        version: i32,
        chocolate_cost: Real,
        added_points: i64,
        thresholds: &[(i32, i64)],
    ) -> (r: Result<PassFillOutcome, StoreError>)
        ensures
            replied(
                settled(
                    old(self)@,
                    mutation@,
                    fill_effect(
                        player_of(old(self)@, mutation@),
                        season,
                        version,
                        chocolate_cost,
                        added_points,
                        thresholds@,
                    ),
                ),
                final(self)@,
                r,
                |v: PassFillOutcome| Summary::PassFill(v)@,
                |o: Outcome| o is PassFill,
            ),
    {
        let command = FillPass {
            season,
            version,
            chocolate_cost,
            added_points,
            thresholds: copied(thresholds),
        };
        match self.commit_rpc_mutation_with_replay(mutation, &command) {
            Err(e) => Err(e),
            Ok(summary) => match summary {
                Summary::PassFill(v) => Ok(v),
                _ => Err(misfitting()),
            },
        }
    }

    /// Claims a step of the pass.
    pub fn claim_pass_reward(
        &mut self,
        mutation: &RpcMutation,
        season: i64,
        version: i32,
        lane: i16,
        step: i32,
        required_points: i64,
        rewards: &[RewardGrant],
        paid_lane_step_count: i64,
        ticket_id: i64,
    ) -> (r: Result<PassClaimOutcome, StoreError>)
        ensures
            replied(
                settled(
                    old(self)@,
                    mutation@,
                    pass_claim_effect(
                        (
                            ClaimPass {
                                season,
                                version,
                                lane,
                                step,
                                required_points,
                                rewards,
                                paid_lane_step_count,
                                ticket_id,
                            }
                        ),
                        player_of(old(self)@, mutation@),
                        mutation@,
                        old(self)@.rules,
                    ),
                ),
                final(self)@,
                r,
                |v: PassClaimOutcome| Summary::PassClaim(v)@,
                |o: Outcome| o is PassClaim,
            ),
    {
        let command = ClaimPass {
            season,
            version,
            lane,
            step,
            required_points,
            rewards,
            paid_lane_step_count,
            ticket_id,
        };
        match self.commit_rpc_mutation_with_replay(mutation, &command) {
            Err(e) => Err(e),
            Ok(summary) => match summary {
                Summary::PassClaim(v) => Ok(v),
                _ => Err(misfitting()),
            },
        }
    }

    /// Pays for the second lane of seasons; all seasons paid for after it.
    pub fn activate_passes(
        &mut self,
        mutation: &RpcMutation,
        seasons: &[i64],
    ) -> (r: Result<Vec<i64>, StoreError>)
        ensures
            replied(
                settled(
                    old(self)@,
                    mutation@,
                    activate_effect(player_of(old(self)@, mutation@), seasons@),
                ),
                final(self)@,
                r,
                |v: Vec<i64>| Summary::Ids(v)@,
                |o: Outcome| o is Ids,
            ),
    {
        let command = ActivatePasses { seasons: copied(seasons) };
        match self.commit_rpc_mutation_with_replay(mutation, &command) {
            Err(e) => Err(e),
            Ok(summary) => match summary {
                Summary::Ids(v) => Ok(v),
                _ => Err(misfitting()),
            },
        }
    }
}

} // verus!
