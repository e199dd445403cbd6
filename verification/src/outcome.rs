//! What the commands of a player answer.
use crate::domain::{
    AdLevelSnapshot, AdRewardOutcome, AttendanceResult, BookmarkSnapshot, Ch3EnergySnapshot,
    Ch3Settlement, Ch3StageSnapshot, Ch3StreamSettlement, ContentPurchaseOutcome,
    FollowerGiftOutcome, FollowerProfileRewardOutcome, FollowerProfileSnapshot,
    FollowerQuestOutcome, FollowerQuestSnapshot, MusicEncoreRewardOutcome, MusicReviewSnapshot,
    MusicScoreSnapshot, PackagePurchaseOutcome, PassClaimOutcome, PassFillOutcome, PurchaseOutcome,
    RewardGrant, SelectRewardSnapshot, UserIdentity,
};
use crate::lists::copies;
use crate::number::Real;
use crate::rows::ScoreState;
use vstd::prelude::*;

verus! {

/// The answer to a command.
#[derive(Debug, PartialEq)]
pub enum Summary {
    Done,
    Integer(i64),
    Step(i32),
    Text(String),
    Ids(Vec<i64>),
    Identity(UserIdentity),
    Gift(FollowerGiftOutcome),
    Selections(Vec<SelectRewardSnapshot>),
    Encore(MusicEncoreRewardOutcome),
    ProfileRewards(Vec<FollowerProfileRewardOutcome>),
    Quest(FollowerQuestOutcome),
    QuestState(FollowerQuestSnapshot),
    Ad(AdRewardOutcome),
    Event(EventAnswer),
    Game(i32, Vec<RewardGrant>),
    Reviews(Vec<MusicReviewSnapshot>),
    Bookmarks(Vec<BookmarkSnapshot>),
    Scores(Vec<MusicScoreSnapshot>),
    Settlement(Ch3Settlement),
    Chapter(Ch3EnergySnapshot, Vec<RewardGrant>),
    Stream(Ch3StreamSettlement),
    Package(PackagePurchaseOutcome),
    Attendance(AttendanceResult),
    MailGrant(Option<RewardGrant>),
    Purchase(PurchaseOutcome),
    Content(ContentPurchaseOutcome),
    PassFill(PassFillOutcome),
    PassClaim(PassClaimOutcome),
}

/// What claiming a daily reward gave, and the balances after it.
#[derive(Debug, PartialEq)]
pub struct EventAnswer {
    pub rewards: Vec<RewardGrant>,
    pub chocolate: Real,
    pub candy: Real,
    pub likes: Real,
    pub fans: Real,
}

/// The answer to a command, as a mathematical value.
pub ghost enum Outcome {
    Done,
    Integer(i64),
    Step(i32),
    Text(Seq<char>),
    Ids(Seq<i64>),
    Identity(i64, Seq<char>),
    Gift(FollowerGiftOutcome),
    Selections(Seq<SelectRewardSnapshot>),
    Encore {
        rewards: Seq<(i32, i32)>,
        profiles: Seq<FollowerProfileSnapshot>,
        rejected: Seq<i32>,
    },
    ProfileRewards(Seq<ProfileReward>),
    Quest {
        quest: FollowerQuestSnapshot,
        complete_id: i64,
        next: bool,
        rewards: Seq<RewardGrant>,
    },
    QuestState(FollowerQuestSnapshot),
    Ad {
        ad_id: i64,
        day_count: i32,
        total_count: i32,
        last_view_time: i64,
        rewards: Seq<RewardGrant>,
        profile: Option<FollowerProfileSnapshot>,
    },
    Event {
        rewards: Seq<RewardGrant>,
        chocolate: Real,
        candy: Real,
        likes: Real,
        fans: Real,
    },
    Game(i32, Seq<RewardGrant>),
    Reviews(Seq<MusicReviewSnapshot>),
    Bookmarks(Seq<BookmarkSnapshot>),
    Scores(Seq<Score>),
    Settlement {
        stage: Ch3StageSnapshot,
        energy: Ch3EnergySnapshot,
        profile: FollowerProfileSnapshot,
        rewards: Seq<RewardGrant>,
    },
    Chapter(Ch3EnergySnapshot, Seq<RewardGrant>),
    Stream {
        stage_id: i64,
        energy: Ch3EnergySnapshot,
        profile: FollowerProfileSnapshot,
        rolls: Seq<(i32, Seq<RewardGrant>)>,
    },
    Package { chocolate: Real, candy: Real, music_ids: Seq<i64> },
    Attendance { status: Seq<char>, count: i32, date: i32, max_continuous: i32 },
    MailGrant(Option<RewardGrant>),
    Purchase {
        chocolate: Real,
        candy: Real,
        rewards: Seq<RewardGrant>,
        ad_level: Option<AdLevelSnapshot>,
    },
    Content(ContentPurchaseOutcome),
    PassFill(PassFillOutcome),
    PassClaim {
        season: i64,
        lane: i16,
        step: i32,
        version: i32,
        claimed_at: i64,
        rewards: Seq<RewardGrant>,
    },
}

/// What reaching an affection level gave.
pub ghost struct ProfileReward {
    pub profile_id: i64,
    pub level: i32,
    pub rewards: Seq<RewardGrant>,
    pub profile: FollowerProfileSnapshot,
}

/// The best results on a piece of music.
pub ghost struct Score {
    pub music_id: i32,
    pub difficulty: i16,
    pub state: ScoreState,
    pub played_at: Seq<char>,
}

/// The numbers of a score, and when it was stored.
pub open spec fn score_state(s: MusicScoreSnapshot, updated_at: i64) -> ScoreState {
    ScoreState {
        score: s.score,
        grade: s.grade,
        play_count: s.play_count,
        combo_grade: s.combo_grade,
        gp: s.gp,
        multiple: s.multiple,
        achievement: s.achievement,
        play_type: s.play_type,
        mission_clear: s.mission_clear,
        is_credit: s.is_credit,
        updated_at,
    }
}

/// A score without the time at which it was stored.
pub open spec fn score_model(s: MusicScoreSnapshot) -> Score {
    Score {
        music_id: s.music_id,
        difficulty: s.difficulty,
        state: score_state(s, 0),
        played_at: s.played_at@,
    }
}

pub open spec fn profile_reward_model(r: FollowerProfileRewardOutcome) -> ProfileReward {
    ProfileReward {
        profile_id: r.profile_id,
        level: r.level,
        rewards: r.rewards@,
        profile: r.profile,
    }
}

pub open spec fn rolls_model(rolls: Seq<(i32, Vec<RewardGrant>)>) -> Seq<(i32, Seq<RewardGrant>)> {
    rolls.map_values(|r: (i32, Vec<RewardGrant>)| (r.0, r.1@))
}

pub open spec fn quest_outcome(q: FollowerQuestOutcome) -> Outcome {
    Outcome::Quest {
        quest: q.quest,
        complete_id: q.complete_id,
        next: q.next,
        rewards: q.rewards@,
    }
}

pub open spec fn encore_outcome(e: MusicEncoreRewardOutcome) -> Outcome {
    Outcome::Encore {
        rewards: e.rewards@,
        profiles: e.profiles@,
        rejected: e.rejected_music_ids@,
    }
}

pub open spec fn ad_outcome(a: AdRewardOutcome) -> Outcome {
    Outcome::Ad {
        ad_id: a.ad_id,
        day_count: a.day_count,
        total_count: a.total_count,
        last_view_time: a.last_view_time,
        rewards: a.rewards@,
        profile: a.profile,
    }
}

pub open spec fn event_outcome(e: EventAnswer) -> Outcome {
    Outcome::Event {
        rewards: e.rewards@,
        chocolate: e.chocolate,
        candy: e.candy,
        likes: e.likes,
        fans: e.fans,
    }
}

pub open spec fn settlement_outcome(s: Ch3Settlement) -> Outcome {
    Outcome::Settlement {
        stage: s.stage,
        energy: s.energy,
        profile: s.profile,
        rewards: s.rewards@,
    }
}

pub open spec fn stream_outcome(s: Ch3StreamSettlement) -> Outcome {
    Outcome::Stream {
        stage_id: s.stage_id,
        energy: s.energy,
        profile: s.profile,
        rolls: rolls_model(s.reward_rolls@),
    }
}

pub open spec fn package_outcome(p: PackagePurchaseOutcome) -> Outcome {
    Outcome::Package { chocolate: p.chocolate, candy: p.candy, music_ids: p.music_ids@ }
}

pub open spec fn attendance_outcome(a: AttendanceResult) -> Outcome {
    Outcome::Attendance {
        status: a.status@,
        count: a.attendance_count,
        date: a.attendance_date,
        max_continuous: a.max_continuous_count,
    }
}

pub open spec fn purchase_outcome(p: PurchaseOutcome) -> Outcome {
    Outcome::Purchase {
        chocolate: p.chocolate,
        candy: p.candy,
        rewards: p.rewards@,
        ad_level: p.ad_level,
    }
}

pub open spec fn pass_claim_outcome(c: PassClaimOutcome) -> Outcome {
    Outcome::PassClaim {
        season: c.season,
        lane: c.lane,
        step: c.step,
        version: c.version,
        claimed_at: c.claimed_at,
        rewards: c.rewards@,
    }
}

impl View for Summary {
    type V = Outcome;

    open spec fn view(&self) -> Outcome {
        match *self {
            Summary::Done => Outcome::Done,
            Summary::Integer(v) => Outcome::Integer(v),
            Summary::Step(v) => Outcome::Step(v),
            Summary::Text(t) => Outcome::Text(t@),
            Summary::Ids(v) => Outcome::Ids(v@),
            Summary::Identity(v) => Outcome::Identity(v.usn, v.user_id@),
            Summary::Gift(v) => Outcome::Gift(v),
            Summary::Selections(v) => Outcome::Selections(v@),
            Summary::Encore(v) => encore_outcome(v),
            Summary::ProfileRewards(v) => Outcome::ProfileRewards(
                v@.map_values(|r: FollowerProfileRewardOutcome| profile_reward_model(r)),
            ),
            Summary::Quest(v) => quest_outcome(v),
            Summary::QuestState(v) => Outcome::QuestState(v),
            Summary::Ad(v) => ad_outcome(v),
            Summary::Event(v) => event_outcome(v),
            Summary::Game(level, rewards) => Outcome::Game(level, rewards@),
            Summary::Reviews(v) => Outcome::Reviews(v@),
            Summary::Bookmarks(v) => Outcome::Bookmarks(v@),
            Summary::Scores(v) => Outcome::Scores(
                v@.map_values(|s: MusicScoreSnapshot| score_model(s)),
            ),
            Summary::Settlement(v) => settlement_outcome(v),
            Summary::Chapter(energy, rewards) => Outcome::Chapter(energy, rewards@),
            Summary::Stream(v) => stream_outcome(v),
            Summary::Package(v) => package_outcome(v),
            Summary::Attendance(v) => attendance_outcome(v),
            Summary::MailGrant(v) => Outcome::MailGrant(v),
            Summary::Purchase(v) => purchase_outcome(v),
            Summary::Content(v) => Outcome::Content(v),
            Summary::PassFill(v) => Outcome::PassFill(v),
            Summary::PassClaim(v) => pass_claim_outcome(v),
        }
    }
}

pub fn dup_score(s: &MusicScoreSnapshot) -> (r: MusicScoreSnapshot)
    ensures
        r == *s,
{
    MusicScoreSnapshot {
        music_id: s.music_id,
        difficulty: s.difficulty,
        score: s.score,
        grade: s.grade,
        play_count: s.play_count,
        combo_grade: s.combo_grade,
        gp: s.gp,
        multiple: s.multiple,
        achievement: s.achievement,
        play_type: s.play_type,
        played_at: s.played_at.clone(),
        mission_clear: s.mission_clear,
        is_credit: s.is_credit,
    }
}

fn dup_scores(v: &Vec<MusicScoreSnapshot>) -> (r: Vec<MusicScoreSnapshot>)
    ensures
        r@ == v@,
{
    let mut r: Vec<MusicScoreSnapshot> = Vec::new();
    let mut i: usize = 0;
    while i < v.len()
        invariant
            i <= v@.len(),
            r@ == v@.take(i as int),
        decreases v@.len() - i,
    {
        r.push(dup_score(&v[i]));
        proof {
            assert(v@.take(i + 1) =~= v@.take(i as int).push(v@[i as int]));
        }
        i = i + 1;
    }
    proof {
        assert(v@.take(i as int) =~= v@);
    }
    r
}

fn dup_profile_rewards(v: &Vec<FollowerProfileRewardOutcome>) -> (r: Vec<
    FollowerProfileRewardOutcome,
>)
    ensures
        r@.map_values(|x: FollowerProfileRewardOutcome| profile_reward_model(x)) == v@.map_values(
            |x: FollowerProfileRewardOutcome| profile_reward_model(x),
        ),
{
    let mut r: Vec<FollowerProfileRewardOutcome> = Vec::new();
    let mut i: usize = 0;
    while i < v.len()
        invariant
            i <= v@.len(),
            r@.len() == i,
            forall|j: int|
                0 <= j < i ==> profile_reward_model(#[trigger] r@[j]) == profile_reward_model(
                    v@[j],
                ),
        decreases v@.len() - i,
    {
        r.push(
            FollowerProfileRewardOutcome {
                profile_id: v[i].profile_id,
                level: v[i].level,
                rewards: copies(&v[i].rewards),
                profile: v[i].profile,
            },
        );
        i = i + 1;
    }
    proof {
        assert(r@.map_values(|x: FollowerProfileRewardOutcome| profile_reward_model(x))
            =~= v@.map_values(|x: FollowerProfileRewardOutcome| profile_reward_model(x)));
    }
    r
}

fn dup_rolls(v: &Vec<(i32, Vec<RewardGrant>)>) -> (r: Vec<(i32, Vec<RewardGrant>)>)
    ensures
        rolls_model(r@) == rolls_model(v@),
{
    let mut r: Vec<(i32, Vec<RewardGrant>)> = Vec::new();
    let mut i: usize = 0;
    while i < v.len()
        invariant
            i <= v@.len(),
            r@.len() == i,
            forall|j: int|
                0 <= j < i ==> (#[trigger] r@[j]).0 == v@[j].0 && r@[j].1@ == v@[j].1@,
        decreases v@.len() - i,
    {
        r.push((v[i].0, copies(&v[i].1)));
        i = i + 1;
    }
    proof {
        assert(rolls_model(r@) =~= rolls_model(v@));
    }
    r
}

impl Summary {
    pub fn dup(&self) -> (r: Summary)
        ensures
            r@ == self@,
    {
        match self {
            Summary::Done => Summary::Done,
            Summary::Integer(v) => Summary::Integer(*v),
            Summary::Step(v) => Summary::Step(*v),
            Summary::Text(t) => Summary::Text(t.clone()),
            Summary::Ids(v) => Summary::Ids(copies(v)),
            Summary::Identity(v) => Summary::Identity(
                UserIdentity { usn: v.usn, user_id: v.user_id.clone() },
            ),
            Summary::Gift(v) => Summary::Gift(*v),
            Summary::Selections(v) => Summary::Selections(copies(v)),
            Summary::Encore(v) => Summary::Encore(
                MusicEncoreRewardOutcome {
                    rewards: copies(&v.rewards),
                    profiles: copies(&v.profiles),
                    rejected_music_ids: copies(&v.rejected_music_ids),
                },
            ),
            Summary::ProfileRewards(v) => Summary::ProfileRewards(dup_profile_rewards(v)),
            Summary::Quest(v) => Summary::Quest(
                FollowerQuestOutcome {
                    quest: v.quest,
                    complete_id: v.complete_id,
                    next: v.next,
                    rewards: copies(&v.rewards),
                },
            ),
            Summary::QuestState(v) => Summary::QuestState(*v),
            Summary::Ad(v) => Summary::Ad(
                AdRewardOutcome {
                    ad_id: v.ad_id,
                    day_count: v.day_count,
                    total_count: v.total_count,
                    last_view_time: v.last_view_time,
                    rewards: copies(&v.rewards),
                    profile: v.profile,
                },
            ),
            Summary::Event(v) => Summary::Event(
                EventAnswer {
                    rewards: copies(&v.rewards),
                    chocolate: v.chocolate,
                    candy: v.candy,
                    likes: v.likes,
                    fans: v.fans,
                },
            ),
            Summary::Game(level, rewards) => Summary::Game(*level, copies(rewards)),
            Summary::Reviews(v) => Summary::Reviews(copies(v)),
            Summary::Bookmarks(v) => Summary::Bookmarks(copies(v)),
            Summary::Scores(v) => Summary::Scores(dup_scores(v)),
            Summary::Settlement(v) => Summary::Settlement(
                Ch3Settlement {
                    stage: v.stage,
                    energy: v.energy,
                    profile: v.profile,
                    rewards: copies(&v.rewards),
                },
            ),
            Summary::Chapter(energy, rewards) => Summary::Chapter(*energy, copies(rewards)),
            Summary::Stream(v) => Summary::Stream(
                Ch3StreamSettlement {
                    stage_id: v.stage_id,
                    energy: v.energy,
                    profile: v.profile,
                    reward_rolls: dup_rolls(&v.reward_rolls),
                },
            ),
            Summary::Package(v) => Summary::Package(
                PackagePurchaseOutcome {
                    chocolate: v.chocolate,
                    candy: v.candy,
                    music_ids: copies(&v.music_ids),
                },
            ),
            Summary::Attendance(v) => Summary::Attendance(
                AttendanceResult {
                    status: v.status.clone(),
                    attendance_count: v.attendance_count,
                    attendance_date: v.attendance_date,
                    max_continuous_count: v.max_continuous_count,
                },
            ),
            Summary::MailGrant(v) => Summary::MailGrant(*v),
            Summary::Purchase(v) => Summary::Purchase(
                PurchaseOutcome {
                    chocolate: v.chocolate,
                    candy: v.candy,
                    rewards: copies(&v.rewards),
                    ad_level: v.ad_level,
                },
            ),
            Summary::Content(v) => Summary::Content(*v),
            Summary::PassFill(v) => Summary::PassFill(*v),
            Summary::PassClaim(v) => Summary::PassClaim(
                PassClaimOutcome {
                    season: v.season,
                    lane: v.lane,
                    step: v.step,
                    version: v.version,
                    claimed_at: v.claimed_at,
                    rewards: copies(&v.rewards),
                },
            ),
        }
    }
}

} // verus!
