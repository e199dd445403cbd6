//! What callers are answered.
use crate::ch3::{listed, ClaimChapter, SettleStage, SettleStream};
use crate::claims::{Attend, ClaimEvent, ClaimGame};
use crate::command::{executed, Command, Effect, Mutation, Rules};
use crate::domain::{
    AdRewardOutcome, AttendanceResult, Ch3Settlement, Ch3StreamSettlement, DeviceClock,
    FollowerQuestOutcome, LoginSession, MusicEncoreRewardOutcome, PackagePurchaseOutcome,
    PassClaimOutcome, PassSnapshot, PurchaseOutcome, RewardGrant, UserIdentity,
};
use crate::errors::StoreError;
use crate::followers::{ClaimEncores, ClaimProfileRewards, GiveGift, GrantAdReward};
use crate::mail::{replaced_by, ClaimMail, ClaimSamSeck, DeleteMail, PostMail, ReadMail};
use crate::music::MergeScores;
use crate::outcome::{
    ad_outcome, attendance_outcome, encore_outcome, package_outcome, pass_claim_outcome,
    purchase_outcome, quest_outcome, settlement_outcome, stream_outcome, Outcome, Summary,
};
use crate::pass::{pass_result, ActivatePasses, ClaimPass, FillPass};
use crate::player::PlayerModel;
use crate::profile::{GrantPackage, MergeTutorials};
use crate::queries::altered;
use crate::quests::AdvanceQuest;
use crate::rewards::{changed, Change};
use crate::rows::Wallet;
use crate::save::MergeSave;
use crate::shop::{balances_left, PurchaseContent, PurchaseRewards};
use crate::slots::{created, creates, leaves, lists, opens, resolved, resolves, views, SlotView};
use crate::store::{concluded, replied, with_player, StoreModel};
use crate::table::{get, k1};
use crate::text::{decimal, digits, digits_value, is_digit, parsed_i64};
use crate::transfer::reports;
use vstd::prelude::*;

verus! {

/// A command that has an effect succeeds, with its answers, and leaves the player that the
/// effect says; one that has none fails for the reason that the effect says.
pub proof fn law_commands_answer(
    effect: Effect,
    after: PlayerModel,
    r: Result<(Summary, Summary), StoreError>,
)
    requires
        executed(effect, after, r),
    ensures
        effect is Ok <==> r is Ok,
        effect is Ok ==> after == effect->Ok_0.0 && r->Ok_0.0@ == effect->Ok_0.1 && r->Ok_0.1@
            == effect->Ok_0.2,
        effect is Err ==> r->Err_0 == effect->Err_0,
{
}

/// So does every part of a command: giving a reward, giving a list of them, paying and
/// changing a mail.
pub proof fn law_parts_answer(
    change: Change<bool>,
    list: Change<Seq<RewardGrant>>,
    payment: Result<Wallet, StoreError>,
    mail: Result<PlayerModel, StoreError>,
    before: PlayerModel,
    after: PlayerModel,
    a: Result<bool, StoreError>,
    b: Result<Vec<RewardGrant>, StoreError>,
    c: Result<(), StoreError>,
)
    ensures
        changed(change, after, a) ==> (change matches Ok((q, new)) ==> a == Ok::<bool, StoreError>(
            new,
        ) && after == q) && (change matches Err(e) ==> a == Err::<bool, StoreError>(e)),
        listed(list, after, b) ==> (list matches Ok((q, given)) ==> (b matches Ok(v) && v@ == given)
            && after == q) && (list matches Err(e) ==> b == Err::<Vec<RewardGrant>, StoreError>(e)),
        balances_left(payment, before, after, c) ==> (payment matches Ok(wallet) ==> c is Ok
            && after == (PlayerModel { wallet, ..before })) && (payment matches Err(e) ==> c
            == Err::<(), StoreError>(e)),
        replaced_by(mail, after, c) ==> (mail matches Ok(q) ==> c is Ok && after == q) && (
        mail matches Err(e) ==> c == Err::<(), StoreError>(e)),
{
}

/// A request leaves the store of its verdict and is answered as the verdict says.
pub proof fn law_requests_answer(
    v: (StoreModel, Result<Outcome, StoreError>),
    after: StoreModel,
    r: Result<Summary, StoreError>,
    n: Result<i64, StoreError>,
)
    ensures
        concluded(v, after, r) ==> after == v.0 && (v.1 matches Ok(answer) ==> (r matches Ok(s)
            && s@ == answer)) && (v.1 matches Err(e) ==> r == Err::<Summary, StoreError>(e)),
        replied(v, after, n, |x: i64| Outcome::Integer(x), |o: Outcome| o is Integer) ==> after
            == v.0 && (v.1 matches Ok(Outcome::Integer(x)) ==> n == Ok::<i64, StoreError>(x)) && (
        v.1 matches Err(e) ==> n == Err::<i64, StoreError>(e)),
{
}

/// What is no request answers likewise: where it fails the store stays as it was.
pub proof fn law_direct_changes_answer(
    before: StoreModel,
    usn: int,
    effect: Change<bool>,
    after: StoreModel,
    r: Result<bool, StoreError>,
    change: Result<StoreModel, StoreError>,
    done: Result<(), StoreError>,
)
    ensures
        altered(before, usn, effect, after, r) ==> (effect matches Ok((q, value)) ==> r == Ok::<
            bool,
            StoreError,
        >(value) && (get(before.slots, k1(usn)) is Some ==> after
            == with_player(before, usn, q))) && (effect matches Err(e) ==> r
            == Err::<bool, StoreError>(e) && after == before),
        leaves(change, before, after, done) ==> (change matches Ok(s) ==> done is Ok && after == s)
            && (change matches Err(e) ==> done == Err::<(), StoreError>(e) && after == before),
{
}

/// Making a slot answers with its number and its user id.
pub proof fn law_making_a_slot_answers(
    before: StoreModel,
    display_name: Seq<char>,
    now: i64,
    after: StoreModel,
    r: Result<UserIdentity, StoreError>,
)
    requires
        creates(before, display_name, now, after, r),
    ensures
        match created(before, display_name, now) {
            Err(e) => r == Err::<UserIdentity, StoreError>(e) && after == before,
            Ok((s, usn)) => after == s && (r matches Ok(id) && id.usn == usn && id.user_id@
                == decimal(1_788_360_000_000 + usn)),
        },
{
}

/// Looking for a slot answers with the one that is found, or says that it is missing.
pub proof fn law_looking_for_a_slot_answers(
    s: StoreModel,
    selector: Seq<char>,
    r: Result<UserIdentity, StoreError>,
)
    requires
        resolves(s, selector, r),
    ensures
        match resolved(s.slots, selector) {
            Some((key, slot)) => r matches Ok(id) && id.usn == key.a && id.user_id@
                == slot.user_id,
            None => r matches Err(StoreError::MissingSlot(n)) && (parsed_i64(
                selector,
            ) matches Some(x) ==> n == x),
        },
{
}

/// A list of slots shows each as it is, and which is in use and about to be.
pub proof fn law_slots_are_listed(s: StoreModel, i: int, v: SlotView, id: UserIdentity)
    ensures
        views(s, i, v) ==> ({
            let (key, slot) = s.slots[i];
            &&& v.usn == key.a
            &&& v.user_id@ == slot.user_id
            &&& v.display_name@ == slot.display_name
            &&& v.created_at == slot.created_at
            &&& v.updated_at == slot.updated_at
            &&& v.active == (s.selection.active == Some(key.a))
            &&& v.pending == (s.selection.pending == Some(key.a))
        }),
        lists(s, i, id) ==> id.usn == s.slots[i].0.a && id.user_id@ == s.slots[i].1.user_id,
{
}

/// A login answers with whose it is, its number and its clock.
pub proof fn law_logins_answer(before: StoreModel, clock: DeviceClock, login: LoginSession)
    requires
        opens(before, clock, login),
    ensures
        ({
            let usn = match before.selection.pending {
                Some(usn) => Some(usn),
                None => before.selection.active,
            };
            &&& usn == Some(login.identity.usn)
            &&& get(before.slots, k1(login.identity.usn as int)) matches Some(slot)
                && slot.user_id == login.identity.user_id@
            &&& login.nonce == before.selection.nonce + 1
            &&& login.clock == clock
        }),
{
}

/// There is a pass from the first login on.
pub proof fn law_passes_answer(p: PlayerModel, r: Result<PassSnapshot, StoreError>)
    requires
        pass_result(p, r),
    ensures
        p.anchor is Some <==> r is Ok,
{
}

/// A save that is good passes, and one that is not is refused with its report.
pub proof fn law_saves_are_judged(r: Result<(), StoreError>, good: bool, report: Seq<char>)
    requires
        reports(r, good, report),
    ensures
        good <==> r is Ok,
        !good ==> (r matches Err(StoreError::Integrity(text)) && text@ == report),
{
}

/// Different answers are told apart: what a caller reads is what was answered.
pub proof fn law_answers_are_read(
    quest: FollowerQuestOutcome,
    encore: MusicEncoreRewardOutcome,
    ad: AdRewardOutcome,
    stage: Ch3Settlement,
    stream: Ch3StreamSettlement,
    package: PackagePurchaseOutcome,
    visit: AttendanceResult,
    purchase: PurchaseOutcome,
    step: PassClaimOutcome,
)
    ensures
        quest_outcome(quest) matches Outcome::Quest { quest: q, complete_id, next, rewards } && q
            == quest.quest && complete_id == quest.complete_id && next == quest.next && rewards
            == quest.rewards@,
        encore_outcome(encore) matches Outcome::Encore { rewards, profiles, rejected } && rewards
            == encore.rewards@ && profiles == encore.profiles@ && rejected
            == encore.rejected_music_ids@,
        ad_outcome(ad) matches Outcome::Ad {
            ad_id,
            day_count,
            total_count,
            last_view_time,
            rewards,
            profile,
        } && ad_id == ad.ad_id && day_count == ad.day_count && total_count == ad.total_count
            && last_view_time == ad.last_view_time && rewards == ad.rewards@ && profile
            == ad.profile,
        settlement_outcome(stage) matches Outcome::Settlement {
            stage: s,
            energy,
            profile,
            rewards,
        } && s == stage.stage && energy == stage.energy && profile == stage.profile && rewards
            == stage.rewards@,
        stream_outcome(stream) matches Outcome::Stream { stage_id, energy, profile, rolls }
            && stage_id == stream.stage_id && energy == stream.energy && profile == stream.profile
            && rolls.len() == stream.reward_rolls@.len() && forall|i: int|
            0 <= i < rolls.len() ==> (#[trigger] rolls[i]).0 == stream.reward_rolls@[i].0
                && rolls[i].1 == stream.reward_rolls@[i].1@,
        package_outcome(package) matches Outcome::Package { chocolate, candy, music_ids }
            && chocolate == package.chocolate && candy == package.candy && music_ids
            == package.music_ids@,
        attendance_outcome(visit) matches Outcome::Attendance {
            status,
            count,
            date,
            max_continuous,
        } && status == visit.status@ && count == visit.attendance_count && date
            == visit.attendance_date && max_continuous == visit.max_continuous_count,
        purchase_outcome(purchase) matches Outcome::Purchase {
            chocolate,
            candy,
            rewards,
            ad_level,
        } && chocolate == purchase.chocolate && candy == purchase.candy && rewards
            == purchase.rewards@ && ad_level == purchase.ad_level,
        pass_claim_outcome(step) matches Outcome::PassClaim {
            season,
            lane,
            step: number,
            version,
            claimed_at,
            rewards,
        } && season == step.season && lane == step.lane && number == step.step && version
            == step.version && claimed_at == step.claimed_at && rewards == step.rewards@,
{
}

/// What a repetition is answered: the same without the rewards, and without the news that
/// a stage of the guide was closed.
pub open spec fn repeated_as(answer: Outcome, repeated: Outcome) -> bool {
    match answer {
        Outcome::ProfileRewards(_) => repeated matches Outcome::ProfileRewards(levels)
            && levels.len() == 0,
        Outcome::Quest { quest, complete_id, next, rewards } => repeated == (Outcome::Quest {
            quest,
            complete_id,
            next: false,
            rewards: Seq::empty(),
        }),
        Outcome::Ad { ad_id, day_count, total_count, last_view_time, rewards, profile } => repeated
            == (Outcome::Ad {
            ad_id,
            day_count,
            total_count,
            last_view_time,
            rewards: Seq::empty(),
            profile,
        }),
        Outcome::Event { rewards, chocolate, candy, likes, fans } => repeated == (Outcome::Event {
            rewards: Seq::empty(),
            chocolate,
            candy,
            likes,
            fans,
        }),
        Outcome::Game(level, _) => repeated == Outcome::Game(level, Seq::empty()),
        Outcome::Settlement { stage, energy, profile, rewards } => repeated == (
        Outcome::Settlement { stage, energy, profile, rewards: Seq::empty() }),
        Outcome::Chapter(energy, _) => repeated == Outcome::Chapter(energy, Seq::empty()),
        Outcome::Stream { stage_id, energy, profile, rolls } => repeated == (Outcome::Stream {
            stage_id,
            energy,
            profile,
            rolls: Seq::empty(),
        }),
        Outcome::MailGrant(_) => repeated == Outcome::MailGrant(None),
        Outcome::Purchase { chocolate, candy, rewards, ad_level } => repeated == (
        Outcome::Purchase { chocolate, candy, rewards: Seq::empty(), ad_level }),
        Outcome::PassClaim { season, lane, step, version, claimed_at, rewards } => repeated == (
        Outcome::PassClaim { season, lane, step, version, claimed_at, rewards: Seq::empty() }),
        _ => repeated == answer,
    }
}

/// Whether an effect answers a repetition so.
pub open spec fn repeats(effect: Effect) -> bool {
    effect matches Ok((_, answer, repeated)) ==> repeated_as(answer, repeated)
}

/// The commands that give rewards answer a repetition as they did the first time, without
/// the rewards.
pub proof fn law_rewarding_commands_repeat(
    p: PlayerModel,
    m: Mutation,
    rules: Rules,
    levels: ClaimProfileRewards,
    quest: AdvanceQuest,
    ad: GrantAdReward,
    event: ClaimEvent,
    game: ClaimGame,
    stage: SettleStage,
    chapter: ClaimChapter,
    stream: SettleStream,
    mail: ClaimMail,
    purchase: PurchaseRewards,
    pass: ClaimPass<'_>,
)
    ensures
        repeats(levels.effect(p, m, rules)),
        repeats(quest.effect(p, m, rules)),
        repeats(ad.effect(p, m, rules)),
        repeats(event.effect(p, m, rules)),
        repeats(game.effect(p, m, rules)),
        repeats(stage.effect(p, m, rules)),
        repeats(chapter.effect(p, m, rules)),
        repeats(stream.effect(p, m, rules)),
        repeats(mail.effect(p, m, rules)),
        repeats(purchase.effect(p, m, rules)),
        repeats(pass.effect(p, m, rules)),
{
}

/// The other commands answer a repetition exactly as they did the first time.
pub proof fn law_other_commands_repeat(
    p: PlayerModel,
    m: Mutation,
    rules: Rules,
    save: MergeSave<'_>,
    visit: Attend,
    gift: GiveGift,
    encores: ClaimEncores,
    content: PurchaseContent,
    points: FillPass,
    seasons: ActivatePasses,
    post: PostMail,
    read: ReadMail,
    delete: DeleteMail,
    festival: ClaimSamSeck,
    scores: MergeScores,
    package: GrantPackage,
    tutorials: MergeTutorials,
)
    ensures
        repeats(save.effect(p, m, rules)),
        repeats(visit.effect(p, m, rules)),
        repeats(gift.effect(p, m, rules)),
        repeats(encores.effect(p, m, rules)),
        repeats(content.effect(p, m, rules)),
        repeats(points.effect(p, m, rules)),
        repeats(seasons.effect(p, m, rules)),
        repeats(post.effect(p, m, rules)),
        repeats(read.effect(p, m, rules)),
        repeats(delete.effect(p, m, rules)),
        repeats(festival.effect(p, m, rules)),
        repeats(scores.effect(p, m, rules)),
        repeats(package.effect(p, m, rules)),
        repeats(tutorials.effect(p, m, rules)),
{
}

proof fn lemma_digits(n: nat)
    ensures
        digits(n).len() > 0,
        digits_value(digits(n)) == n,
        forall|i: int| 0 <= i < digits(n).len() ==> is_digit(#[trigger] digits(n)[i]),
    decreases n,
{
    if n < 10 {
        let s = digits(n);
        assert(s.drop_last() =~= Seq::<char>::empty());
        reveal_with_fuel(digits_value, 2);
    } else {
        lemma_digits(n / 10);
        let front = digits(n / 10);
        let s = digits(n);
        assert(s.drop_last() =~= front);
        assert forall|i: int| 0 <= i < s.len() implies is_digit(#[trigger] s[i]) by {
            if i < front.len() {
                assert(s[i] == front[i]);
            }
        }
    }
}

/// A number that is written in decimals is read back as itself.
pub proof fn law_decimals_are_read(n: i64)
    ensures
        parsed_i64(decimal(n as int)) == Some(n),
{
    let s = decimal(n as int);
    if n >= 0 {
        lemma_digits(n as nat);
        assert(is_digit(s[0]));
    } else {
        let body = digits((-n) as nat);
        lemma_digits((-n) as nat);
        assert(s.skip(1) =~= body);
        assert(s[0] == '-');
    }
}

} // verus!
