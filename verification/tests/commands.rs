//! What single commands do, refuse and answer when they are repeated.
use ggfm::command::RpcMutation;
use ggfm::consume_reward::RewardRules;
use ggfm::domain::{
    AdProfileGrant, BookmarkSnapshot, Ch3StageDefinition, ContentKind, ContentPurchaseCommand,
    CurrencyKind, DeviceClock, DomainError, FollowerProfileSnapshot, GameRewardClaimCommand,
    MusicReviewSnapshot, MusicScoreSnapshot, Reward, RewardGrant, RewardPurchaseCommand,
    SelectRewardSnapshot, UserIdentity, UserSavePatch,
};
use ggfm::errors::{RewardFault, SqlFault, StoreError};
use ggfm::number::{Real, Real32};
use ggfm::player::Player;
use ggfm::rows::EncoreRow;
use ggfm::store::Database;
use ggfm::table::{key1, Plain, Row};

fn num(value: f64) -> Real {
    Real { bits: value.to_bits() }
}

struct Game {
    db: Database,
    user: UserIdentity,
    nonce: i64,
    seq: i64,
}

impl Game {
    fn new() -> Game {
        let mut db = Database::open_memory().unwrap();
        let mut rules = RewardRules::new();
        rules.set(1, 1, Real32 { bits: 0 });
        db.configure_reward_rules(rules).unwrap();
        let user = db.create_slot("One", 100).unwrap();
        let session = db.begin_login(b"test", DeviceClock::new(200, 0).unwrap()).unwrap();
        Game { db, user, nonce: session.nonce, seq: 0 }
    }

    fn next(&mut self, rpc: &str) -> RpcMutation {
        self.seq += 1;
        RpcMutation {
            nonce: self.nonce,
            identity: self.user.clone(),
            request_seq: self.seq,
            rpc: rpc.to_owned(),
            idempotency_key: format!("{rpc}:{}", self.seq),
            committed_at: 200 + self.seq,
        }
    }

    fn edit(&mut self, change: impl FnOnce(&mut Player)) {
        let key = key1(self.user.usn);
        let mut slot = self.db.slots.get(key).unwrap().dup();
        change(&mut slot.player);
        self.db.slots.put(key, slot);
    }

    fn balance(&self, kind: CurrencyKind) -> f64 {
        f64::from_bits(self.db.currency(self.user.usn, kind).unwrap().bits)
    }
}

fn grant(reward_type: i16, reward_id: i32, amount: f64) -> RewardGrant {
    RewardGrant { reward_type, reward_id, amount: num(amount) }
}

fn refused<T>(result: Result<T, StoreError>) -> DomainError {
    match result {
        Err(StoreError::Domain(error)) => error,
        Err(other) => panic!("refused with {}", other.message()),
        Ok(_) => panic!("not refused"),
    }
}

#[test]
fn gifts_are_used_up_and_raise_affection() {
    let mut game = Game::new();
    game.edit(|player| player.gifts.put(key1(7), Plain(5)));
    let mutation = game.next("giveGift");
    let none = game.db.give_follower_gift(&mutation, 3, 7, 0, 10, vec![]);
    assert_eq!(refused(none), DomainError::InvalidAmount);
    let many = game.db.give_follower_gift(&mutation, 3, 7, 6, 10, vec![]);
    assert_eq!(refused(many), DomainError::InsufficientBalance);
    let levels = vec![(1, 0, 1), (2, 20, 4), (3, 100, 9)];
    let outcome = game.db.give_follower_gift(&mutation, 3, 7, 2, 10, levels.clone()).unwrap();
    assert_eq!(outcome.remaining, 3);
    let expected =
        FollowerProfileSnapshot { profile_id: 3, level: 2, experience: 20, add_candy: 4 };
    assert_eq!(outcome.profile, expected);
    let again = game.db.give_follower_gift(&mutation, 3, 7, 2, 10, levels).unwrap();
    assert_eq!(again, outcome);
}

#[test]
fn choices_replace_earlier_ones() {
    let mut game = Game::new();
    let first = game.next("select");
    game.db.select_reward(&first, 1, 20, 30, 40).unwrap();
    let second = game.next("select");
    game.db.select_reward(&second, 2, 10, 31, 41).unwrap();
    let third = game.next("select");
    let listed = game.db.select_reward(&third, 3, 20, 32, 42).unwrap();
    let row = |group_id, reward_group_id, alternate_reward_group_id| SelectRewardSnapshot {
        group_id,
        reward_group_id,
        alternate_reward_group_id,
    };
    assert_eq!(listed, [row(10, 31, 41), row(20, 32, 42)]);
}

#[test]
fn encores_pay_candy_when_they_are_ready() {
    let mut game = Game::new();
    game.edit(|player| {
        player.encores.put(
            key1(1),
            Plain(EncoreRow {
                encore_appears: false,
                encore_follower_id: Some(9),
                encore_ready_at: 201,
                ch3_active_until: 0,
            }),
        );
    });
    let mutation = game.next("encore");
    let rewards = vec![(1, 6, 50, 900), (2, 6, 50, 900)];
    let outcome =
        game.db.claim_music_encore_rewards(&mutation, rewards, vec![(9, 2, 40, 3)]).unwrap();
    assert_eq!(outcome.rewards, [(1, 6)]);
    assert_eq!(outcome.rejected_music_ids, [2]);
    assert_eq!(outcome.profiles.len(), 1);
    assert_eq!(outcome.profiles[0].level, 2);
    assert_eq!(game.balance(CurrencyKind::Candy), 6.0);
    let early = game.next("encore");
    let outcome =
        game.db.claim_music_encore_rewards(&early, vec![(1, 6, 50, 999)], vec![]).unwrap();
    assert!(outcome.rewards.is_empty());
    assert_eq!(outcome.rejected_music_ids, [1]);
}

#[test]
fn affection_levels_pay_once() {
    let mut game = Game::new();
    let mutation = game.next("profile");
    let locked = game.db.claim_follower_profile_rewards(&mutation, 100_000, vec![(2, vec![])]);
    assert_eq!(refused(locked), DomainError::Locked);
    assert!(matches!(
        game.db.claim_follower_profile_rewards(&mutation, 5, vec![]),
        Err(StoreError::Sql(_))
    ));
    let rewards = vec![(1, vec![grant(1, 1, 3.0)])];
    let outcome =
        game.db.claim_follower_profile_rewards(&mutation, 100_000, rewards.clone()).unwrap();
    assert_eq!(outcome.len(), 1);
    assert_eq!(outcome[0].rewards, [grant(1, 1, 3.0)]);
    let again = game.next("profile");
    let outcome = game.db.claim_follower_profile_rewards(&again, 100_000, rewards).unwrap();
    assert!(outcome.is_empty());
    assert_eq!(game.balance(CurrencyKind::Chocolate), 3.0);
}

#[test]
fn flags_and_profiles_are_what_was_last_said() {
    let mut game = Game::new();
    let mutation = game.next("flag");
    assert_eq!(game.db.set_one_time_flag(&mutation, "seen".to_owned(), 4).unwrap(), 4);
    let mutation = game.next("avatar");
    assert_eq!(game.db.update_avatar(&mutation, 17).unwrap(), 17);
    let mutation = game.next("name");
    assert_eq!(game.db.update_nickname(&mutation, "").unwrap(), "Guitar Girl");
    let snapshot = game.db.player_snapshot(game.user.usn).unwrap();
    assert_eq!(snapshot.avatar_id, Some(17));
    let slot = game.db.slots.get(key1(game.user.usn)).unwrap();
    assert_eq!(slot.player.flags.find(&"seen".to_owned()).unwrap().0.value, 4);
}

#[test]
fn advertisements_are_counted_by_day() {
    let mut game = Game::new();
    for (day, expected) in [(5, (1, 1)), (5, (2, 2)), (6, (1, 3))] {
        let mutation = game.next("ad");
        let profile =
            AdProfileGrant { profile_id: 4, experience: 10, level_thresholds: vec![(2, 25, 1)] };
        let outcome = game
            .db
            .grant_ad_reward(&mutation, 8, day, vec![grant(1, 2, 1.0)], Some(profile))
            .unwrap();
        assert_eq!((outcome.day_count, outcome.total_count), expected);
        assert_eq!(outcome.last_view_time, mutation.committed_at);
        assert_eq!(outcome.profile.unwrap().experience, i64::from(expected.1) * 10);
    }
    assert_eq!(game.balance(CurrencyKind::Candy), 3.0);
}

#[test]
fn daily_rewards_are_claimed_once() {
    let mut game = Game::new();
    let mutation = game.next("event");
    let (rewards, chocolate, _, _, _) =
        game.db.claim_event_reward(&mutation, 31, grant(1, 1, 2.0)).unwrap();
    assert_eq!(rewards, [grant(1, 1, 2.0)]);
    assert_eq!(chocolate, num(2.0));
    let (rewards, _, _, _, _) =
        game.db.claim_event_reward(&mutation, 31, grant(1, 1, 2.0)).unwrap();
    assert!(rewards.is_empty());
    let again = game.next("event");
    let result = game.db.claim_event_reward(&again, 31, grant(1, 1, 2.0));
    assert_eq!(refused(result), DomainError::AlreadyClaimed);
    assert_eq!(game.db.claimed_event_rewards(game.user.usn).unwrap(), [31]);
}

#[test]
fn daily_missions_are_claimed_level_by_level() {
    let mut game = Game::new();
    let command = |level, threshold| GameRewardClaimCommand {
        kind: "daily_mission".to_owned(),
        id: 2,
        level,
        quantity: num(5.0),
        threshold: num(threshold),
        local_day: 3,
        reward: None,
    };
    let mutation = game.next("game");
    let result = game.db.claim_game_reward(&mutation, command(1, 6.0));
    assert_eq!(refused(result), DomainError::Locked);
    let result = game.db.claim_game_reward(&mutation, command(2, 5.0));
    assert_eq!(refused(result), DomainError::AlreadyClaimed);
    assert_eq!(game.db.claim_game_reward(&mutation, command(1, 5.0)).unwrap(), (2, vec![]));
    let unknown = GameRewardClaimCommand { kind: "weekly".to_owned(), ..command(1, 5.0) };
    let mutation = game.next("game");
    assert!(matches!(
        game.db.claim_game_reward(&mutation, unknown),
        Err(StoreError::UnsupportedReward(RewardFault::Named(name))) if name == "weekly"
    ));
    let negative = GameRewardClaimCommand { quantity: num(-1.0), ..command(1, 5.0) };
    let result = game.db.claim_game_reward(&mutation, negative);
    assert_eq!(refused(result), DomainError::InvalidAmount);
}

#[test]
fn missions_show_their_quantities_in_decimals() {
    for (quantity, text) in [(5.0, "5"), (5.25, "5.25"), (1e21, "1000000000000000000000")] {
        let mut game = Game::new();
        let command = GameRewardClaimCommand {
            kind: "daily_mission".to_owned(),
            id: 2,
            level: 1,
            quantity: num(quantity),
            threshold: num(5.0),
            local_day: 3,
            reward: None,
        };
        let mutation = game.next("game");
        game.db.claim_game_reward(&mutation, command).unwrap();
        let missions = game.db.player_snapshot(game.user.usn).unwrap().daily_missions;
        let claimed = missions.iter().find(|mission| mission.id == 2).unwrap();
        assert_eq!(claimed.quantity, num(quantity));
        assert_eq!(claimed.quantity_text, text);
        for mission in missions {
            let quantity = f64::from_bits(mission.quantity.bits);
            assert_eq!(mission.quantity_text, quantity.to_string());
        }
    }
}

#[test]
fn a_count_of_days_beyond_its_column_is_refused() {
    let mut game = Game::new();
    game.edit(|player| player.attendance.count = i32::MAX);
    let mutation = game.next("attendance");
    let clock = DeviceClock::new(86_400 * 30, 0).unwrap();
    assert!(matches!(
        game.db.attendance(&mutation, clock, "add"),
        Err(StoreError::Sql(SqlFault::Integral { value: 2_147_483_648, index: 0 }))
    ));
}

fn score(score: i32, multiple: f64) -> MusicScoreSnapshot {
    MusicScoreSnapshot {
        music_id: 1,
        difficulty: 2,
        score,
        grade: 3,
        play_count: 4,
        combo_grade: 5,
        gp: 6,
        multiple: num(multiple),
        achievement: 7,
        play_type: 8,
        played_at: format!("at {score}"),
        mission_clear: 9,
        is_credit: 0,
    }
}

#[test]
fn scores_keep_their_best_and_lists_their_last() {
    let mut game = Game::new();
    let mutation = game.next("score");
    game.db.merge_music_scores(&mutation, vec![score(90, 2.0)]).unwrap();
    let mutation = game.next("score");
    let merged = game.db.merge_music_scores(&mutation, vec![score(10, 1.0)]).unwrap();
    let expected = MusicScoreSnapshot { score: 90, ..score(10, 1.0) };
    assert_eq!(merged, [expected]);
    assert_eq!(game.db.music_scores(game.user.usn).unwrap(), merged);
    let review = |point| MusicReviewSnapshot { music_id: 1, difficulty: 2, point: num(point) };
    for point in [4.5, 2.5] {
        let mutation = game.next("review");
        assert_eq!(
            game.db.save_music_reviews(&mutation, vec![review(point)]).unwrap(),
            [review(point)]
        );
    }
    assert_eq!(game.db.music_reviews(game.user.usn).unwrap(), [review(2.5)]);
    let mark = |music_id, flag| BookmarkSnapshot { music_id, flag };
    let mutation = game.next("bookmark");
    game.db.save_bookmarks(&mutation, vec![mark(4, 1), mark(2, 1), mark(4, 0)]).unwrap();
    assert_eq!(game.db.bookmarks(game.user.usn).unwrap(), [mark(2, 1), mark(4, 0)]);
}

fn stage(stage_id: i64, stage_index: i32) -> Ch3StageDefinition {
    Ch3StageDefinition { stage_id, chapter: 1, stage_index, story: false }
}

#[test]
fn stages_cost_energy_and_unlock_the_next() {
    let mut game = Game::new();
    let mutation = game.next("stage");
    let locked = game.db.settle_ch3_stage(
        &mutation,
        stage(1002, 2),
        None,
        3,
        10,
        5,
        200,
        vec![],
        1,
        vec![],
    );
    assert_eq!(refused(locked), DomainError::Locked);
    let weak = game.db.settle_ch3_stage(
        &mutation,
        stage(1001, 1),
        None,
        3,
        10,
        201,
        200,
        vec![],
        1,
        vec![],
    );
    assert_eq!(refused(weak), DomainError::InsufficientEnergy);
    let settle = |db: &mut Database| {
        db.settle_ch3_stage(
            &mutation,
            stage(1001, 1),
            Some(stage(1002, 2)),
            3,
            10,
            5,
            200,
            vec![grant(1, 2, 4.0)],
            30,
            vec![(2, 30, 7)],
        )
        .unwrap()
    };
    let outcome = settle(&mut game.db);
    assert_eq!(outcome.energy.amount, 195);
    assert!(outcome.stage.completed);
    assert_eq!((outcome.stage.best_star, outcome.stage.best_score), (3, 10));
    assert_eq!((outcome.profile.level, outcome.profile.add_candy), (2, 7));
    assert_eq!(outcome.rewards, [grant(1, 2, 4.0)]);
    assert!(settle(&mut game.db).rewards.is_empty());
    assert_eq!(game.balance(CurrencyKind::Candy), 4.0);
    let snapshot = game.db.ch3_snapshot_raw(game.user.usn).unwrap();
    assert_eq!(snapshot.stages.iter().map(|row| row.stage_id).collect::<Vec<_>>(), [1001, 1002]);

    let mutation = game.next("chapter");
    let few = game.db.claim_ch3_chapter_reward(&mutation, 1, 1, 4, vec![], 200);
    assert_eq!(refused(few), DomainError::Locked);
    let (energy, rewards) = game
        .db
        .claim_ch3_chapter_reward(&mutation, 1, 1, 3, vec![grant(1, 1, 8.0)], 200)
        .unwrap();
    assert_eq!(energy.amount, 196);
    assert_eq!(rewards, [grant(1, 1, 8.0)]);
    let mutation = game.next("chapter");
    let twice = game.db.claim_ch3_chapter_reward(&mutation, 1, 1, 3, vec![], 200);
    assert_eq!(refused(twice), DomainError::AlreadyClaimed);

    let mutation = game.next("stream");
    let none = game.db.settle_ch3_stream(&mutation, 1001, 6, 5, 200, vec![], 1, vec![]);
    assert_eq!(refused(none), DomainError::InvalidStage);
    let open = game.db.settle_ch3_stream(&mutation, 1002, 2, 5, 200, vec![], 1, vec![]);
    assert_eq!(refused(open), DomainError::Locked);
    let rolls = vec![(1, vec![grant(1, 2, 1.0)]), (2, vec![grant(1, 2, 2.0)])];
    let outcome = game
        .db
        .settle_ch3_stream(&mutation, 1001, 2, 5, 200, rolls.clone(), 10, vec![])
        .unwrap();
    assert_eq!(outcome.energy.amount, 188);
    assert_eq!(outcome.reward_rolls, rolls);
    assert_eq!(outcome.profile.experience, 50);
    assert_eq!(game.balance(CurrencyKind::Candy), 7.0);
}

#[test]
fn mail_is_read_claimed_and_deleted_in_turn() {
    let mut game = Game::new();
    let reward = Reward::Currency { currency: CurrencyKind::Candy, amount: num(2.0) };
    game.db.queue_mail(game.user.usn, 5, "s", "b", &reward, 150).unwrap();
    let mutation = game.next("mail");
    assert!(matches!(
        game.db.read_mail(&mutation, 6),
        Err(StoreError::MissingMail(6))
    ));
    assert_eq!(game.db.read_mail(&mutation, 5).unwrap(), 5);
    let mutation = game.next("mail");
    assert_eq!(game.db.delete_mail(&mutation, 5, false).unwrap(), 5);
    let mailbox = game.db.mailbox(game.user.usn).unwrap();
    assert_eq!(mailbox.mail.len(), 1);
    assert!(mailbox.mail[0].read && !mailbox.mail[0].claimed);
    let mutation = game.next("mail");
    game.db.claim_mail_rpc(&mutation, 5).unwrap();
    let mutation = game.next("mail");
    assert!(matches!(
        game.db.claim_mail_rpc(&mutation, 5),
        Err(StoreError::MailAlreadyClaimed(5))
    ));
    game.db.delete_mail(&mutation, 5, true).unwrap();
    assert!(game.db.mailbox(game.user.usn).unwrap().mail.is_empty());
    assert_eq!(game.balance(CurrencyKind::Candy), 2.0);
}

#[test]
fn passes_are_activated_within_the_seasons() {
    let mut game = Game::new();
    game.edit(|player| player.entitlements.remove(key1(4)));
    let paid = |db: &mut Database, mutation: &RpcMutation| {
        db.claim_pass_reward(mutation, 4, 0, 1, 1, 0, &[], 1, 77)
    };
    let mutation = game.next("pass");
    assert_eq!(refused(paid(&mut game.db, &mutation)), DomainError::InsufficientBalance);
    let seasons = game.db.activate_passes(&mutation, &[4, 14, 0]).unwrap();
    assert_eq!(seasons, (1..=13).collect::<Vec<_>>());
    let mutation = game.next("pass");
    paid(&mut game.db, &mutation).unwrap();
    assert_eq!(game.db.pass_snapshot(game.user.usn).unwrap().tickets, [77]);
    let mutation = game.next("pass");
    let clock = DeviceClock::new(300, 0).unwrap();
    assert!(matches!(
        game.db.select_pass_season_rpc(&mutation, clock, 14),
        Err(StoreError::UnsupportedReward(RewardFault::PassSeason(14)))
    ));
}

#[test]
fn slots_are_chosen_and_deleted_by_request() {
    let mut game = Game::new();
    let second = game.db.create_slot("Two", 201).unwrap();
    let mutation = game.next("switch");
    assert!(matches!(
        game.db.request_switch_rpc(&mutation, "9"),
        Err(StoreError::MissingSlot(9))
    ));
    assert_eq!(game.db.request_switch_rpc(&mutation, &second.user_id).unwrap(), second);
    let views = game.db.slot_views().unwrap();
    assert!(views[0].active && views[1].pending && !views[1].active);
    let mutation = game.next("delete");
    let wrong = game.db.delete_inactive_slot_rpc(&mutation, second.usn, "One");
    assert_eq!(refused(wrong), DomainError::IdentityMismatch);
    assert!(matches!(
        game.db.delete_inactive_slot_rpc(&mutation, second.usn, "Two"),
        Err(StoreError::ActiveSlot(2))
    ));
    let third = game.db.create_slot("Three", 202).unwrap();
    game.db.delete_inactive_slot_rpc(&mutation, third.usn, "Three").unwrap();
    assert_eq!(game.db.list_slots().unwrap().len(), 2);
    assert_eq!(game.db.ensure_default_slot(1).unwrap(), game.user);
}

#[test]
fn requests_of_others_and_old_requests_are_refused() {
    let mut game = Game::new();
    let first = game.next("name");
    game.db.update_nickname(&first, "A").unwrap();
    let stranger = RpcMutation {
        identity: UserIdentity { usn: game.user.usn, user_id: "1".to_owned() },
        ..game.next("name")
    };
    assert!(game.db.update_nickname(&stranger, "B").is_err());
    let reused = RpcMutation { rpc: "other".to_owned(), ..first.clone() };
    assert!(matches!(
        game.db.update_nickname(&reused, "B"),
        Err(StoreError::IdempotencyConflict)
    ));
    game.db.end_session(game.nonce, 400).unwrap();
    let late = game.next("name");
    assert_eq!(refused(game.db.update_nickname(&late, "B")), DomainError::StaleRequest);
    assert_eq!(game.db.player_snapshot(game.user.usn).unwrap().nickname, "A");
    let mut empty = Database::open_memory().unwrap();
    assert!(matches!(
        empty.begin_login(b"x", DeviceClock::new(1, 0).unwrap()),
        Err(StoreError::NoActiveSlot)
    ));
    assert_eq!(DeviceClock::new(1, 900).unwrap_err(), DomainError::InvalidUtcOffset(900));
}

#[test]
fn rewards_that_nobody_knows_change_nothing() {
    let mut game = Game::new();
    let buy = |id: &str, reward| RewardPurchaseCommand {
        transaction_id: id.to_owned(),
        purchase_kind: "shop".to_owned(),
        target_id: 1,
        cost: None,
        rewards: vec![grant(1, 1, 5.0), reward],
        ad_progression: None,
    };
    let mutation = game.next("buy");
    for (reward, described) in [
        (grant(1, 12, 1.0), "consume:12"),
        (grant(12, 1, 1.0), "type:12"),
    ] {
        match game.db.purchase_rewards(&mutation, buy("a", reward)) {
            Err(StoreError::UnsupportedReward(fault)) => assert_eq!(fault.text(), described),
            _ => panic!("accepted {described}"),
        }
    }
    let result = game.db.purchase_rewards(&mutation, buy("a", grant(1, 1, -1.0)));
    assert_eq!(refused(result), DomainError::InvalidAmount);
    assert_eq!(game.balance(CurrencyKind::Chocolate), 0.0);
    game.db.purchase_rewards(&mutation, buy("a", grant(11, 6, 2.4))).unwrap();
    let snapshot = game.db.player_snapshot(game.user.usn).unwrap();
    assert_eq!((snapshot.gifts[0].gift_id, snapshot.gifts[0].quantity), (6, 2));
    game.edit(|player| {
        let owned = player.owned.row_at(0).dup();
        player.owned.put(ggfm::table::key2(ContentKind::Costume.exec_rank(), 50), owned);
    });
    let mutation = game.next("buy");
    assert!(matches!(
        game.db.purchase_rewards(&mutation, buy("b", grant(1, 8, 10.0))),
        Err(StoreError::UnsupportedReward(RewardFault::CostumeBonus(50)))
    ));
}

#[test]
fn prices_rise_with_the_level() {
    let mut game = Game::new();
    let usn = game.user.usn;
    assert!(game.db.grant_currency(usn, CurrencyKind::Candy, num(100.0), "seed", 150).unwrap());
    let mut levels = vec![];
    for _ in 0..3 {
        let mutation = game.next("content");
        let command = ContentPurchaseCommand {
            kind: ContentKind::Unit,
            area: 1,
            content_id: 5,
            currency: CurrencyKind::Candy,
            price: num(1.0),
            price_increment: num(2.0),
            max_level: 2,
        };
        let outcome = game.db.purchase_content(&mutation, command).unwrap();
        levels.push((outcome.level, f64::from_bits(outcome.candy.bits)));
    }
    assert_eq!(levels, [(1, 99.0), (2, 96.0), (2, 96.0)]);
}

#[test]
fn lists_rise_however_they_were_filled() {
    let mut game = Game::new();
    let mutation = game.next("tutorial");
    game.db.merge_tutorials(&mutation, &[9, 2, 5, 2]).unwrap();
    for gift in [8, 3, 6] {
        let mutation = game.next("buy");
        let command = RewardPurchaseCommand {
            transaction_id: format!("gift-{gift}"),
            purchase_kind: "shop".to_owned(),
            target_id: 1,
            cost: None,
            rewards: vec![grant(11, gift, 1.0), grant(2, 100 - gift, 1.0), grant(10, gift, 1.0)],
            ad_progression: None,
        };
        game.db.purchase_rewards(&mutation, command).unwrap();
    }
    let snapshot = game.db.player_snapshot(game.user.usn).unwrap();
    assert_eq!(snapshot.tutorials, [2, 5, 9]);
    assert_eq!(snapshot.pass.tickets, [3, 6, 8]);
    let gifts: Vec<i64> = snapshot.gifts.iter().map(|gift| gift.gift_id).collect();
    assert_eq!(gifts, [3, 6, 8]);
    let levels: Vec<_> =
        snapshot.content_levels.iter().map(|row| (row.kind.exec_rank(), row.content_id)).collect();
    assert!(levels.windows(2).all(|pair| pair[0] < pair[1]));
    let owned: Vec<_> = snapshot
        .owned_content
        .iter()
        .map(|row| (row.kind.exec_rank(), row.area, row.content_id))
        .collect();
    assert!(owned.windows(2).all(|pair| pair[0] < pair[1]));
    assert_eq!(owned.iter().filter(|row| row.0 == ContentKind::Music.exec_rank()).count(), 4);
    let areas: Vec<i32> = snapshot.areas.iter().map(|row| row.area).collect();
    assert_eq!(areas, [1, 2]);
}

#[test]
fn saves_take_the_time_of_their_request() {
    let mut game = Game::new();
    let mutation = game.next("userSave");
    let answer =
        game.db.merge_user_save(&mutation, &UserSavePatch::default(), "phone", 10, &[]).unwrap();
    assert_eq!(answer, "Y");
    let (time, device) = game.db.last_save_time(game.user.usn).unwrap();
    assert_eq!((time, device.as_str()), (201, "reborn-local-device"));
}

#[test]
fn a_recorded_answer_of_another_kind_is_no_replay() {
    let mut game = Game::new();
    let mutation = game.next("userSave");
    game.db.merge_user_save(&mutation, &UserSavePatch::default(), "phone", 10, &[]).unwrap();
    let refused = game.db.attendance(&mutation, DeviceClock::new(300, 0).unwrap(), "add");
    let Err(error) = refused else { panic!("answered") };
    assert!(matches!(error, StoreError::InvalidReplay(_)));
    assert_eq!(
        error.message(),
        "mutation replay payload is invalid: the recorded answer is of another kind"
    );
}

#[test]
fn errors_say_what_they_mean() {
    assert_eq!(
        StoreError::UnsupportedSchema { actual: 1, expected: 4 }.message(),
        "save database schema 1 is unsupported (expected 4); \
         this development build intentionally does not migrate test saves"
    );
    assert_eq!(StoreError::MissingSlot(-3).message(), "slot -3 does not exist");
    assert_eq!(
        StoreError::Domain(DomainError::InvalidUtcOffset(900)).message(),
        "UTC offset 900 minutes is outside Android's supported range"
    );
    assert_eq!(
        StoreError::UnsupportedReward(RewardFault::Kind(12)).message(),
        "reward type type:12 is not supported by the memorial inventory"
    );
    assert_eq!(
        StoreError::Unreadable(RewardFault::Kind(12)).message(),
        "Conversion error from type Text at index: 0, \
         reward type type:12 is not supported by the memorial inventory"
    );
    let beyond = SqlFault::Integral { value: 2_147_483_648, index: 1 };
    assert_eq!(StoreError::Sql(beyond).message(), "Integer 2147483648 out of range at index 1");
    assert_eq!(StoreError::Sql(SqlFault::NoRows).message(), "Query returned no rows");
    assert_eq!(
        StoreError::Sql(SqlFault::Taken).message(),
        "UNIQUE constraint failed: login_sessions.nonce"
    );
}
