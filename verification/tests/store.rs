//! Slots, logins and commands, played through.
use ggfm::command::RpcMutation;
use ggfm::consume_reward::{ConsumeReward, RewardRules};
use ggfm::domain::{
    AdLevelProgression, AdLevelSnapshot, AreaSavePatch, BuffTimerSnapshot, Ch3EnergySnapshot,
    ContentKind, ContentPurchaseCommand, ContentSavePatch, CoreSavePatch, CurrencyKind,
    DeviceClock, DomainError, FollowerQuestSavePatch, GameRewardClaimCommand, MusicStateSavePatch,
    PassProgressSavePatch, ProgressSavePatch, Reward, RewardGrant, RewardPurchaseCommand,
    UserIdentity, UserSavePatch,
};
use ggfm::errors::StoreError;
use ggfm::mail::stored_reward_grant;
use ggfm::number::{Real, Real32};
use ggfm::outcome::Summary;
use ggfm::player::Player;
use ggfm::rows::{EncoreRow, OwnedRow, StoredKind, StoredReward};
use ggfm::shop::PurchaseRewards;
use ggfm::store::{opening, Database, DATABASE_SCHEMA_VERSION};
use ggfm::table::{key1, key2, Plain, Row};

fn num(value: f64) -> Real {
    Real { bits: value.to_bits() }
}

fn rules(bonuses: &[(i64, i32, f32)]) -> RewardRules {
    let mut rules = RewardRules::new();
    for (costume, area, bonus) in bonuses {
        rules.set(*costume, *area, Real32 { bits: bonus.to_bits() });
    }
    rules
}

fn setup() -> (Database, UserIdentity) {
    let mut db = Database::open_memory().unwrap();
    db.configure_reward_rules(rules(&[(1, 1, 0.0), (201, 2, 0.0)])).unwrap();
    let identity = db.create_slot("One", 100).unwrap();
    (db, identity)
}

fn edit(db: &mut Database, usn: i64, change: impl FnOnce(&mut Player)) {
    let mut slot = db.slots.get(key1(usn)).unwrap().dup();
    change(&mut slot.player);
    db.slots.put(key1(usn), slot);
}

fn owned(area: i32, acquired_at: i64, source: &str) -> OwnedRow {
    OwnedRow { area, acquired_at, source: source.to_owned() }
}

fn stored(currency: CurrencyKind, reward_id: i64) -> StoredReward {
    StoredReward {
        kind: StoredKind::Currency(currency),
        reward_id: Some(reward_id),
        amount: Some(num(2.5)),
        area: 1,
    }
}

#[test]
fn fresh_slot_keeps_ch2_locked_with_ch2_catalog_defaults() {
    let (mut db, identity) = setup();
    db.begin_login(b"fresh-area", DeviceClock::new(101, 0).unwrap())
        .unwrap();
    let snapshot = db.player_snapshot(identity.usn).unwrap();
    let area2 = snapshot.areas.iter().find(|area| area.area == 2).unwrap();
    assert!(!area2.unlocked);
    assert_eq!(area2.current_costume, Some(201));
    assert_eq!(area2.current_guitar, Some(201));
    assert_eq!(area2.current_music, Some(201));
    for kind in [
        ContentKind::Character,
        ContentKind::Costume,
        ContentKind::Guitar,
        ContentKind::Music,
    ] {
        let level = snapshot
            .content_levels
            .iter()
            .find(|level| level.kind == kind && level.content_id == 1)
            .unwrap();
        assert_eq!(level.level, 1);
        assert_eq!(level.reward_level, 0);
    }
}

#[test]
fn user_save_area_snapshot_does_not_grant_area_unlock() {
    let (mut db, identity) = setup();
    let session = db
        .begin_login(b"area-lock", DeviceClock::new(101, 0).unwrap())
        .unwrap();
    let mutation = RpcMutation {
        nonce: session.nonce,
        identity: identity.clone(),
        request_seq: 1,
        rpc: "userSave".into(),
        idempotency_key: "area-lock:1".into(),
        committed_at: 102,
    };
    db.merge_user_save(
        &mutation,
        &UserSavePatch {
            areas: vec![AreaSavePatch {
                area: 2,
                like_amount: Some(num(10.0)),
                current_costume: Some(201),
                current_guitar: Some(201),
                current_music: Some(201),
                ..Default::default()
            }],
            content: vec![
                ContentSavePatch {
                    kind: ContentKind::Music,
                    area: 2,
                    content_id: 201,
                    level: Some(0),
                    reward_level: Some(0),
                },
                ContentSavePatch {
                    kind: ContentKind::Costume,
                    area: 2,
                    content_id: 201,
                    level: None,
                    reward_level: None,
                },
                ContentSavePatch {
                    kind: ContentKind::Guitar,
                    area: 2,
                    content_id: 201,
                    level: Some(-1),
                    reward_level: None,
                },
            ],
            music_states: vec![MusicStateSavePatch {
                music_id: 201,
                encore_appears: false,
                encore_follower_id: None,
            }],
            ..Default::default()
        },
        "device-a",
        10,
        &[],
    )
    .unwrap();
    let snapshot = db.player_snapshot(identity.usn).unwrap();
    assert!(
        !snapshot
            .areas
            .iter()
            .find(|area| area.area == 2)
            .unwrap()
            .unlocked
    );
    for kind in [
        ContentKind::Costume,
        ContentKind::Guitar,
        ContentKind::Music,
    ] {
        assert!(!snapshot.owned_content.iter().any(|content| {
            content.kind == kind && content.area == 2 && content.content_id == 201
        }));
    }
    assert!(!snapshot.music_states.iter().any(|row| row.music_id == 201));
}

#[test]
fn content_identity_cannot_be_duplicated_across_areas() {
    let (mut db, identity) = setup();
    edit(&mut db, identity.usn, |player| {
        let key = key2(ContentKind::Music.exec_rank(), 2);
        assert!(player.owned.put_new(key, owned(1, 101, "test")));
        assert!(!player.owned.put_new(key, owned(2, 102, "test")));
        assert_eq!(player.owned.get(key).unwrap().area, 1);
    });
}

#[test]
fn old_development_database_is_rejected_instead_of_partially_opened() {
    assert!(matches!(
        opening("ok", 1),
        Err(StoreError::UnsupportedSchema {
            actual: 1,
            expected: DATABASE_SCHEMA_VERSION
        })
    ));
}

#[test]
fn backup_is_self_contained_and_reopenable() {
    let (mut db, identity) = setup();
    db.grant_currency(
        identity.usn,
        CurrencyKind::Chocolate,
        num(17.0),
        "backup-seed",
        101,
    )
    .unwrap();
    let restored = db.dup();
    drop(db);
    assert_eq!(
        restored
            .currency(identity.usn, CurrencyKind::Chocolate)
            .unwrap(),
        num(17.0)
    );
}

#[test]
fn slots_and_progress_are_isolated() {
    let (mut db, first) = setup();
    let second = db.create_slot("Two", 101).unwrap();
    db.grant_currency(first.usn, CurrencyKind::Chocolate, num(7.0), "one", 102)
        .unwrap();
    assert_eq!(
        db.currency(first.usn, CurrencyKind::Chocolate).unwrap(),
        num(7.0)
    );
    assert_eq!(
        db.currency(second.usn, CurrencyKind::Chocolate).unwrap(),
        num(0.0)
    );
}

#[test]
fn mail_preserves_each_consume_id_and_channel_without_coalescing() {
    let (mut db, user) = setup();
    let other = db.create_slot("Other", 101).unwrap();
    edit(&mut db, user.usn, |player| {
        for id in 1..=10 {
            let grant = RewardGrant { reward_type: 1, reward_id: id, amount: num(2.5) };
            assert!(player.queue_reward_mail(i64::from(id), "s", "b", &grant, 102).unwrap());
            assert!(!player.queue_reward_mail(i64::from(id), "s", "b", &grant, 102).unwrap());
        }
    });
    let mailbox = db.mailbox(user.usn).unwrap();
    assert_eq!(mailbox.mail.len(), 10);
    assert_eq!(mailbox.cursor, 10);
    for mail in mailbox.mail {
        assert_eq!(mail.reward.reward_id, mail.post_id as i32);
        assert_eq!(mail.reward.amount, num(2.5));
        let slot = db.slots.get(key1(user.usn)).unwrap();
        let area = slot.player.mail.get(key1(mail.post_id)).unwrap().state.reward.unwrap().area;
        assert_eq!(area, ConsumeReward::from_id(mail.reward.reward_id).unwrap().area);
    }
    assert!(db.mailbox(other.usn).unwrap().mail.is_empty());
    assert!(stored_reward_grant(&stored(CurrencyKind::Ch1Like, 7)).is_err());
    assert!(stored_reward_grant(&stored(CurrencyKind::Fans, i64::MAX)).is_err());
}

#[test]
fn attendance_claim_uses_distinct_dates_even_with_inflated_saved_progress() {
    let (mut db, user) = setup();
    edit(&mut db, user.usn, |player| {
        let mut row = player.achievements.get(key1(10)).unwrap().dup();
        row.quantity = num(999.0);
        player.achievements.put(key1(10), row);
    });
    let command = || GameRewardClaimCommand {
        kind: "achievement".into(), id: 10, level: 1,
        quantity: num(999.0), threshold: num(3.0), local_day: 0,
        reward: Some(RewardGrant { reward_type: 1, reward_id: 1, amount: num(5.0) }),
    };
    for (index, now) in [101, 102, 86_501, 86_502, 172_901].into_iter().enumerate() {
        let session = db.begin_login(format!("attendance:{index}").as_bytes(), DeviceClock::new(now, 0).unwrap()).unwrap();
        let mutation = RpcMutation {
            nonce: session.nonce, identity: user.clone(), request_seq: 2,
            rpc: "setGameReward".into(), idempotency_key: format!("attendance:{index}"),
            committed_at: now,
        };
        let add = RpcMutation {
            request_seq: 1, rpc: "setAttendance".into(),
            idempotency_key: format!("attendance-add:{index}"), ..mutation.clone()
        };
        db.attendance(&add, DeviceClock::new(now, 0).unwrap(), "add").unwrap();
        if index < 4 {
            assert!(matches!(db.claim_game_reward(&mutation, command()), Err(StoreError::Domain(DomainError::Locked))));
            assert_eq!(db.currency(user.usn, CurrencyKind::Chocolate).unwrap(), num(0.0));
        } else {
            let (next, rewards) = db.claim_game_reward(&mutation, command()).unwrap();
            assert_eq!(next, 2);
            assert_eq!(rewards.len(), 1);
            assert!(db.claim_game_reward(&mutation, command()).unwrap().1.is_empty());
            assert_eq!(db.currency(user.usn, CurrencyKind::Chocolate).unwrap(), num(5.0));
        }
    }
}

#[test]
fn reward_transactions_and_mail_are_idempotent() {
    let (mut db, user) = setup();
    assert!(
        db.grant_currency(user.usn, CurrencyKind::Candy, num(2.0), "tx", 101)
            .unwrap()
    );
    assert!(
        !db.grant_currency(user.usn, CurrencyKind::Candy, num(2.0), "tx", 101)
            .unwrap()
    );
    let reward = Reward::Currency {
        currency: CurrencyKind::Chocolate,
        amount: num(4.0),
    };
    assert!(db.queue_mail(user.usn, 10, "s", "b", &reward, 102).unwrap());
    assert!(!db.queue_mail(user.usn, 10, "s", "b", &reward, 102).unwrap());
    assert_eq!(db.mailbox(user.usn).unwrap().cursor, 1);
    let session = db
        .begin_login(b"mail-capability", DeviceClock::new(103, 0).unwrap())
        .unwrap();
    let mutation = RpcMutation {
        nonce: session.nonce,
        identity: user.clone(),
        request_seq: 1,
        rpc: "providePost".into(),
        idempotency_key: "mail-claim-10".into(),
        committed_at: 103,
    };
    let grant = db.claim_mail_rpc(&mutation, 10).unwrap().unwrap();
    assert_eq!(grant.reward_type, 1);
    assert_eq!(grant.reward_id, 1);
    assert_eq!(grant.amount, num(4.0));
    assert_eq!(db.currency(user.usn, CurrencyKind::Chocolate).unwrap(), num(4.0));
    assert_eq!(db.claim_mail_rpc(&mutation, 10).unwrap(), None);
    assert_eq!(db.currency(user.usn, CurrencyKind::Chocolate).unwrap(), num(4.0));
    let mailbox = db.mailbox(user.usn).unwrap();
    assert_eq!(mailbox.cursor, 2);
    assert!(mailbox.mail[0].claimed);

    let fan_reward = Reward::Currency {
        currency: CurrencyKind::Fans,
        amount: num(1_000.0),
    };
    assert!(
        db.queue_mail(user.usn, 11, "fans", "fans", &fan_reward, 104)
            .unwrap()
    );
    let fan_claim = RpcMutation {
        request_seq: 2,
        idempotency_key: "mail-claim-11".into(),
        committed_at: 105,
        ..mutation
    };
    let grant = db.claim_mail_rpc(&fan_claim, 11).unwrap().unwrap();
    assert_eq!(grant.reward_id, 8);
    assert_eq!(grant.amount, num(1_000.0));
    assert_eq!(db.currency(user.usn, CurrencyKind::Fans).unwrap(), num(1_000.0));
}

#[test]
fn delivery_state_and_duplicate_guard_share_usn_and_unscoped_ownership_rules() {
    let (mut db, first) = setup();
    let other = db.create_slot("Other", 101).unwrap();
    let item = Reward::Content { content: ContentKind::Guitar, area: 1, content_id: 99 };
    assert_eq!(db.content_delivery_state(first.usn, ContentKind::Guitar, 1, 99).unwrap(), (false, false));
    db.queue_generated_mail(first.usn, "subject", "body", &item, 102).unwrap();
    assert_eq!(db.content_delivery_state(first.usn, ContentKind::Guitar, 1, 99).unwrap(), (false, true));
    assert_eq!(db.content_delivery_state(other.usn, ContentKind::Guitar, 1, 99).unwrap(), (false, false));
    edit(&mut db, other.usn, |player| {
        player.owned.put(key2(ContentKind::Guitar.exec_rank(), 99), owned(0, 103, "reward"));
    });
    assert_eq!(db.content_delivery_state(other.usn, ContentKind::Guitar, 1, 99).unwrap(), (true, false));
    assert!(matches!(db.queue_generated_mail(other.usn, "subject", "body", &item, 104),
        Err(StoreError::Domain(DomainError::AlreadyOwned))));
    assert!(db.mailbox(other.usn).unwrap().mail.is_empty());
    assert_eq!(db.mailbox(first.usn).unwrap().mail.len(), 1);
}

#[test]
fn generated_unique_mail_is_ledgered_and_rejects_pending_duplicates() {
    let (mut db, identity) = setup();
    let session = db
        .begin_login(b"admin-mail", DeviceClock::new(200, 0).unwrap())
        .unwrap();
    let mutation = RpcMutation {
        nonce: session.nonce,
        identity: identity.clone(),
        request_seq: 1,
        rpc: "memorial.sendLegacyItem".into(),
        idempotency_key: "admin:mail:1".into(),
        committed_at: 201,
    };
    let reward = Reward::Content {
        content: ContentKind::Costume,
        area: 1,
        content_id: 99,
    };
    let first = db
        .queue_generated_mail_rpc(&mutation, "subject", "body", &reward)
        .unwrap();
    let replay = db
        .queue_generated_mail_rpc(&mutation, "subject", "body", &reward)
        .unwrap();
    assert_eq!(replay, first);
    assert_eq!(db.mailbox(identity.usn).unwrap().mail.len(), 1);

    let duplicate = RpcMutation {
        request_seq: 2,
        idempotency_key: "admin:mail:2".into(),
        committed_at: 202,
        ..mutation.clone()
    };
    assert!(matches!(
        db.queue_generated_mail_rpc(&duplicate, "subject", "body", &reward),
        Err(StoreError::Domain(DomainError::AlreadyOwned))
    ));

    let stale = RpcMutation {
        request_seq: 1,
        idempotency_key: "admin:mail:stale".into(),
        committed_at: 203,
        ..mutation
    };
    assert!(matches!(
        db.queue_generated_mail_rpc(
            &stale,
            "currency",
            "body",
            &Reward::Currency {
                currency: CurrencyKind::Candy,
                amount: num(1.0),
            },
        ),
        Err(StoreError::Domain(DomainError::StaleRequest))
    ));
}

#[test]
fn slot_and_pass_admin_commands_replay_without_reapplying() {
    let (mut db, identity) = setup();
    let clock = DeviceClock::new(86_400 * 20, 120).unwrap();
    let session = db.begin_login(b"admin-slots", clock).unwrap();
    let create = RpcMutation {
        nonce: session.nonce,
        identity: identity.clone(),
        request_seq: 1,
        rpc: "memorial.createSlot".into(),
        idempotency_key: "admin:create:1".into(),
        committed_at: clock.unix_seconds,
    };
    let second = db.create_slot_rpc(&create, "Two").unwrap();
    assert_eq!(db.create_slot_rpc(&create, "Two").unwrap(), second);
    assert_eq!(db.list_slots().unwrap().len(), 2);

    let select = RpcMutation {
        request_seq: 2,
        rpc: "memorial.selectPass".into(),
        idempotency_key: "admin:pass:2".into(),
        committed_at: clock.unix_seconds + 1,
        ..create
    };
    db.select_pass_season_rpc(&select, clock, 9).unwrap();
    db.select_pass_season_rpc(&select, clock, 9).unwrap();
    assert_eq!(
        db.pass_snapshot(identity.usn).unwrap().anchor.anchor_season,
        9
    );
}

#[test]
fn pending_slot_activates_only_at_next_login() {
    let (mut db, first) = setup();
    let second = db.create_slot("Two", 101).unwrap();
    let clock = DeviceClock::new(200, 0).unwrap();
    let a = db.begin_login(b"a", clock).unwrap();
    assert_eq!(a.identity, first);
    db.request_switch(second.usn).unwrap();
    assert_eq!(a.identity, first);
    let b = db.begin_login(b"b", clock).unwrap();
    assert_eq!(b.identity, second);
}

#[test]
fn cold_slot_switch_invalidates_old_session_and_never_cross_writes() {
    let (mut db, first) = setup();
    let second = db.create_slot("Two", 101).unwrap();
    let clock = DeviceClock::new(200, 0).unwrap();
    let first_session = db.begin_login(b"slot-a", clock).unwrap();
    let first_write = RpcMutation {
        nonce: first_session.nonce,
        identity: first.clone(),
        request_seq: 1,
        rpc: "updateNickName".into(),
        idempotency_key: "slot-a:1".into(),
        committed_at: 201,
    };
    db.update_nickname(&first_write, "First").unwrap();

    db.request_switch(second.usn).unwrap();
    let final_old_save = RpcMutation {
        request_seq: 2,
        rpc: "setUserGP".into(),
        idempotency_key: "slot-a:2".into(),
        committed_at: 202,
        ..first_write.clone()
    };
    assert_eq!(db.update_user_gp(&final_old_save, 25).unwrap(), 25);

    let second_session = db
        .begin_login(b"slot-b", DeviceClock::new(203, 0).unwrap())
        .unwrap();
    assert_eq!(second_session.identity, second);
    let stale_old_write = RpcMutation {
        request_seq: 3,
        rpc: "updateUserTitle".into(),
        idempotency_key: "slot-a:3".into(),
        committed_at: 204,
        ..first_write.clone()
    };
    assert!(matches!(
        db.update_user_title(&stale_old_write, 9),
        Err(StoreError::Domain(DomainError::StaleRequest))
    ));
    assert!(matches!(
        db.update_nickname(&first_write, "First"),
        Err(StoreError::Domain(DomainError::StaleRequest))
    ));

    let second_write = RpcMutation {
        nonce: second_session.nonce,
        identity: second.clone(),
        request_seq: 1,
        rpc: "updateNickName".into(),
        idempotency_key: "slot-b:1".into(),
        committed_at: 205,
    };
    db.update_nickname(&second_write, "Second").unwrap();
    assert_eq!(db.player_snapshot(first.usn).unwrap().nickname, "First");
    assert_eq!(db.player_snapshot(first.usn).unwrap().areas[0].gp, num(25.0));
    assert_eq!(db.player_snapshot(second.usn).unwrap().nickname, "Second");
    assert_eq!(db.player_snapshot(second.usn).unwrap().areas[0].gp, num(0.0));

    db.delete_inactive_slot(first.usn, "One").unwrap();
    assert!(matches!(
        db.resolve_slot(&first.user_id),
        Err(StoreError::MissingSlot(_))
    ));
    assert_eq!(db.resolve_slot(&second.user_id).unwrap(), second);
}

#[test]
fn recovered_baseline_writes_survive_restart_and_remain_usn_isolated() {
    let (mut db, first) = setup();
    let second = db.create_slot("Two", 101).unwrap();
    db.select_pass_season(second.usn, DeviceClock::new(200, 0).unwrap(), 1)
        .unwrap();
    let session = db
        .begin_login(b"baseline-writes", DeviceClock::new(200, 0).unwrap())
        .unwrap();
    let make = |seq, rpc: &str| RpcMutation {
        nonce: session.nonce,
        identity: first.clone(),
        request_seq: seq,
        rpc: rpc.into(),
        idempotency_key: format!("{rpc}:{seq}"),
        committed_at: 200 + seq,
    };

    assert_eq!(
        db.update_nickname(&make(1, "updateNickName"), "Memorial")
            .unwrap(),
        "Memorial"
    );
    assert_eq!(
        db.update_user_title(&make(2, "updateUserTitle"), 7)
            .unwrap(),
        7
    );
    assert_eq!(db.update_user_gp(&make(3, "setUserGP"), 90).unwrap(), 90);
    assert_eq!(db.update_user_gp(&make(4, "setUserGP"), 12).unwrap(), 90);
    assert_eq!(
        db.merge_tutorials(&make(5, "setTutorial"), &[1, 2, 3])
            .unwrap(),
        vec![1, 2, 3]
    );
    assert!(
        db.set_follower_quest_infinite(&make(6, "setFollowerQuestInfinite"))
            .unwrap()
            .infinite
    );
    db.grant_package_contents(
        &make(7, "buyPackage"),
        &[(ContentKind::Guitar, 1, 6), (ContentKind::Costume, 1, 10)],
        &[],
    )
    .unwrap();

    let before_restart = db.player_snapshot(first.usn).unwrap();
    assert_eq!(before_restart.nickname, "Memorial");
    assert_eq!(before_restart.title_id, Some(7));
    assert_eq!(before_restart.areas[0].gp, num(90.0));
    assert_eq!(before_restart.tutorials, vec![1, 2, 3]);
    assert!(before_restart.follower_quests[0].infinite);
    assert!(
        before_restart
            .owned_content
            .iter()
            .any(|row| { row.kind == ContentKind::Guitar && row.content_id == 6 })
    );

    let untouched = db.player_snapshot(second.usn).unwrap();
    assert_eq!(untouched.nickname, "Guitar Girl");
    assert_eq!(untouched.title_id, Some(1));
    assert_eq!(untouched.areas[0].gp, num(0.0));
    assert!(untouched.tutorials.is_empty());
    assert!(untouched.follower_quests.is_empty());
    assert!(
        !untouched
            .owned_content
            .iter()
            .any(|row| { row.kind == ContentKind::Guitar && row.content_id == 6 })
    );

    let restored = db.dup();
    drop(db);
    assert_eq!(restored.player_snapshot(first.usn).unwrap(), before_restart);
    assert_eq!(restored.player_snapshot(second.usn).unwrap(), untouched);
}

#[test]
fn follower_guide_stages_keep_each_task_state_independently() {
    let (mut db, identity) = setup();
    let session = db
        .begin_login(b"guide-stages", DeviceClock::new(300, 0).unwrap())
        .unwrap();
    let make = |seq| RpcMutation {
        nonce: session.nonce,
        identity: identity.clone(),
        request_seq: seq,
        rpc: "setUserFollowerQuest".into(),
        idempotency_key: format!("guide:{seq}"),
        committed_at: 300 + seq,
    };
    for sub_id in 1..=3 {
        let result = db
            .advance_follower_quest(
                &make(sub_id),
                1,
                sub_id,
                num(f64::from(sub_id as i32)),
                [num(1.0), num(2.0), num(3.0)],
                Vec::new(),
                Some(2),
            )
            .unwrap();
        assert_eq!(result.next, sub_id == 3);
    }

    let snapshot = db.player_snapshot(identity.usn).unwrap();
    assert_eq!(snapshot.follower_quests.len(), 2);
    let first = snapshot
        .follower_quests
        .iter()
        .find(|quest| quest.current_id == 1)
        .unwrap();
    assert!(first.completed);
    assert_eq!(first.condition_values, [num(1.0), num(2.0), num(3.0)]);
    assert_eq!(first.claimed, [true, true, true]);
    let second = snapshot
        .follower_quests
        .iter()
        .find(|quest| quest.current_id == 2)
        .unwrap();
    assert!(!second.completed);
    assert_eq!(second.condition_values, [num(0.0); 3]);
    assert_eq!(second.claimed, [false; 3]);
}

#[test]
fn user_save_and_guide_rpc_share_the_same_quest_chain() {
    let (mut db, identity) = setup();
    let session = db
        .begin_login(b"guide-merge", DeviceClock::new(400, 0).unwrap())
        .unwrap();
    let save = RpcMutation {
        nonce: session.nonce,
        identity: identity.clone(),
        request_seq: 1,
        rpc: "userSave".into(),
        idempotency_key: "guide-save".into(),
        committed_at: 401,
    };
    db.merge_user_save(
        &save,
        &UserSavePatch {
            follower_quests: vec![FollowerQuestSavePatch {
                current_id: 9,
                condition_values: [num(99.0), num(99.0), num(99.0)],
            }],
            ..Default::default()
        },
        "device-a",
        10,
        &[],
    )
    .unwrap();
    let rpc = RpcMutation {
        request_seq: 2,
        rpc: "setUserFollowerQuest".into(),
        idempotency_key: "guide-rpc".into(),
        committed_at: 402,
        ..save
    };
    db.advance_follower_quest(&rpc, 1, 2, num(2.0), [num(1.0), num(2.0), num(0.0)], Vec::new(), Some(2))
        .unwrap();

    let slot = db.slots.get(key1(identity.usn)).unwrap();
    assert_eq!(slot.player.quests.len(), 1);
    assert!(slot.player.quests.contains(key1(1)));
    let snapshot = db.player_snapshot(identity.usn).unwrap();
    assert!(
        snapshot
            .follower_quests
            .iter()
            .all(|quest| quest.current_id != 9),
        "the asynchronous client snapshot must not select the authoritative guide stage"
    );
    assert_eq!(
        snapshot.follower_quests[0].condition_values,
        [num(0.0), num(2.0), num(0.0)]
    );
}

#[test]
fn rpc_sequence_domain_write_and_ledger_are_one_transaction() {
    let (mut db, identity) = setup();
    let session = db
        .begin_login(b"capability", DeviceClock::new(200, 0).unwrap())
        .unwrap();
    let mutation = RpcMutation {
        nonce: session.nonce,
        identity: identity.clone(),
        request_seq: 1,
        rpc: "testMutation".into(),
        idempotency_key: "same-request".into(),
        committed_at: 201,
    };
    let add_candy = |amount| PurchaseRewards {
        purchase: RewardPurchaseCommand {
            transaction_id: "test-mutation".into(),
            purchase_kind: "test".into(),
            target_id: 1,
            cost: None,
            rewards: vec![RewardGrant { reward_type: 1, reward_id: 2, amount: num(amount) }],
            ad_progression: None,
        },
    };
    let first = db.commit_rpc_mutation(&mutation, &add_candy(5.0)).unwrap();
    assert!(matches!(&first, Summary::Purchase(outcome) if outcome.candy == num(5.0)));
    let replay = db.commit_rpc_mutation(&mutation, &add_candy(7.0)).unwrap();
    assert_eq!(replay, first);
    assert_eq!(db.currency(identity.usn, CurrencyKind::Candy).unwrap(), num(5.0));

    let stale = RpcMutation {
        request_seq: 1,
        idempotency_key: "different-request".into(),
        ..mutation
    };
    let result = db.commit_rpc_mutation(&stale, &add_candy(7.0));
    assert!(matches!(
        result,
        Err(StoreError::Domain(DomainError::StaleRequest))
    ));
    assert_eq!(db.currency(identity.usn, CurrencyKind::Candy).unwrap(), num(5.0));
}

#[test]
fn commands_that_are_repeated_or_stale_are_not_run() {
    let (mut db, identity) = setup();
    let session = db.begin_login(b"capability", DeviceClock::new(200, 0).unwrap()).unwrap();
    let mutation = RpcMutation {
        nonce: session.nonce,
        identity: identity.clone(),
        request_seq: 1,
        rpc: "testMutation".into(),
        idempotency_key: "same-request".into(),
        committed_at: 201,
    };
    let add_candy = |transaction: &str, amount| PurchaseRewards {
        purchase: RewardPurchaseCommand {
            transaction_id: transaction.into(),
            purchase_kind: "test".into(),
            target_id: 1,
            cost: None,
            rewards: vec![RewardGrant { reward_type: 1, reward_id: 2, amount: num(amount) }],
            ad_progression: None,
        },
    };
    let first = db.commit_rpc_mutation(&mutation, &add_candy("first", 5.0)).unwrap();
    let replay = db.commit_rpc_mutation(&mutation, &add_candy("second", 7.0)).unwrap();
    assert_eq!(replay, first);
    assert_eq!(db.currency(identity.usn, CurrencyKind::Candy).unwrap(), num(5.0));
    let stale = RpcMutation { idempotency_key: "different-request".into(), ..mutation.clone() };
    assert!(matches!(
        db.commit_rpc_mutation(&stale, &add_candy("third", 7.0)),
        Err(StoreError::Domain(DomainError::StaleRequest))
    ));
    assert_eq!(db.currency(identity.usn, CurrencyKind::Candy).unwrap(), num(5.0));
    let slot = db.slots.get(key1(identity.usn)).unwrap();
    assert_eq!(slot.player.purchases.len(), 1);
    let next = RpcMutation { request_seq: 2, ..stale };
    db.commit_rpc_mutation(&next, &add_candy("fourth", 7.0)).unwrap();
    assert_eq!(db.currency(identity.usn, CurrencyKind::Candy).unwrap(), num(12.0));
}

#[test]
fn guide_unclaimed_progress_claims_and_stages_survive_restart() {
    let mut db = Database::open_memory().unwrap();
    let first = db.create_slot("First", 100).unwrap();
    let second = db.create_slot("Other", 100).unwrap();
    let session = db.begin_login(b"guide-save", DeviceClock::new(100, 0).unwrap()).unwrap();
    let make = |seq, rpc: &str| RpcMutation {
        nonce: session.nonce,
        identity: first.clone(),
        request_seq: seq,
        rpc: rpc.into(),
        idempotency_key: format!("guide-save:{seq}"),
        committed_at: 100 + seq,
    };
    let patch = |stage, quantities: [f64; 3]| UserSavePatch {
        follower_quests: vec![FollowerQuestSavePatch {
            current_id: stage,
            condition_values: quantities.map(num),
        }],
        ..Default::default()
    };
    let thresholds = [2.0, 3.0, 4.0].map(num);
    let stages = |db: &Database, usn| db.slots.get(key1(usn)).unwrap().player.quests.len();
    db.merge_user_save(&make(1, "userSave"), &patch(1, [2.0, 3.0, 4.0]), "phone", 10, &[]).unwrap();
    let snapshot = db.player_snapshot(first.usn).unwrap();
    assert_eq!(snapshot.follower_quests[0].condition_values, [2.0, 3.0, 4.0].map(num));
    assert_eq!(snapshot.follower_quests[0].claimed, [false; 3]);
    // Lower, malformed, absent and wrong-stage snapshots cannot erase progress.
    db.merge_user_save(&make(2, "userSave"), &patch(1, [0.0, f64::NAN, -1.0]), "phone", 10, &[])
        .unwrap();
    db.merge_user_save(&make(3, "userSave"), &patch(2, [99.0; 3]), "phone", 10, &[]).unwrap();
    db.merge_user_save(&make(4, "userSave"), &UserSavePatch::default(), "phone", 10, &[]).unwrap();
    assert_eq!(db.player_snapshot(first.usn).unwrap().follower_quests, snapshot.follower_quests);
    assert_eq!(stages(&db, second.usn), 0);
    // Saved progress can satisfy a claim even if the request carries zero.
    let claim = db
        .advance_follower_quest(
            &make(5, "setUserFollowerQuest"),
            1,
            1,
            num(0.0),
            thresholds,
            Vec::new(),
            Some(2),
        )
        .unwrap();
    assert_eq!(claim.quest.claimed, [true, false, false]);
    assert!(!claim.next);
    let replay = db
        .advance_follower_quest(
            &make(5, "setUserFollowerQuest"),
            1,
            1,
            num(0.0),
            thresholds,
            Vec::new(),
            Some(2),
        )
        .unwrap();
    assert!(replay.rewards.is_empty());
    let stale = RpcMutation { idempotency_key: "late-save".into(), ..make(3, "userSave") };
    assert!(matches!(
        db.merge_user_save(&stale, &patch(1, [0.0; 3]), "phone", 10, &[]),
        Err(StoreError::Domain(DomainError::StaleRequest))
    ));
    let expected = db.player_snapshot(first.usn).unwrap();
    let mut db = db.dup();
    assert_eq!(db.player_snapshot(first.usn).unwrap(), expected);
    let session = db.begin_login(b"guide-restart", DeviceClock::new(200, -300).unwrap()).unwrap();
    let make = |seq, rpc: &str| RpcMutation {
        nonce: session.nonce,
        identity: first.clone(),
        request_seq: seq,
        rpc: rpc.into(),
        idempotency_key: format!("guide-restart:{seq}"),
        committed_at: 200 + seq,
    };
    db.advance_follower_quest(
        &make(1, "setUserFollowerQuest"),
        1,
        2,
        num(0.0),
        thresholds,
        Vec::new(),
        Some(2),
    )
    .unwrap();
    let complete = db
        .advance_follower_quest(
            &make(2, "setUserFollowerQuest"),
            1,
            3,
            num(0.0),
            thresholds,
            Vec::new(),
            Some(2),
        )
        .unwrap();
    assert!(complete.next);
    assert_eq!(complete.quest.current_id, 2);
    assert_eq!(complete.quest.condition_values, [num(0.0); 3]);
    assert_eq!(complete.quest.claimed, [false; 3]);
    // Late prior-stage data cannot be relabeled as progress for the new stage.
    db.merge_user_save(&make(3, "userSave"), &patch(1, [99.0; 3]), "phone", 10, &[]).unwrap();
    db.merge_user_save(&make(4, "userSave"), &patch(2, [1.0, 0.0, 0.0]), "phone", 10, &[]).unwrap();
    let repeated = db
        .advance_follower_quest(
            &make(5, "setUserFollowerQuest"),
            1,
            3,
            num(99.0),
            thresholds,
            Vec::new(),
            Some(2),
        )
        .unwrap();
    assert!(!repeated.next);
    assert!(repeated.rewards.is_empty());
    assert_eq!(repeated.quest.condition_values, [1.0, 0.0, 0.0].map(num));
    let expected = db.player_snapshot(first.usn).unwrap();
    assert_eq!(expected.follower_quests[0].claimed, [true; 3]);
    let db = db.dup();
    assert_eq!(db.player_snapshot(first.usn).unwrap(), expected);
    assert_eq!(stages(&db, second.usn), 0);
}

#[test]
fn user_save_keeps_spendable_balances_exact_and_progress_monotonic() {
    let (mut db, identity) = setup();
    let session = db
        .begin_login(b"save-capability", DeviceClock::new(200, 0).unwrap())
        .unwrap();
    let mutation = RpcMutation {
        nonce: session.nonce,
        identity: identity.clone(),
        request_seq: 1,
        rpc: "userSave".into(),
        idempotency_key: "save-1".into(),
        committed_at: 201,
    };
    let patch = UserSavePatch {
        core: Some(CoreSavePatch {
            ch1_like: Some(num(100.0)),
            fans: Some(500),
            fan_level: Some(99),
            current_costume: Some(2),
            current_music: None,
        }),
        areas: vec![
            AreaSavePatch {
                area: 1,
                like_amount: Some(num(100.0)),
                fans: Some(400),
                fan_level: Some(2),
                candy: Some(num(50.0)),
                ..Default::default()
            },
            AreaSavePatch {
                area: 2,
                like_amount: Some(num(200.0)),
                fans: Some(500),
                fan_level: Some(3),
                candy: Some(num(75.0)),
                ..Default::default()
            },
        ],
        ..Default::default()
    };
    db.merge_user_save(&mutation, &patch, "device-a", 10, &[])
        .unwrap();
    let second = RpcMutation {
        request_seq: 2,
        idempotency_key: "save-2".into(),
        committed_at: 202,
        ..mutation
    };
    let older = UserSavePatch {
        core: Some(CoreSavePatch {
            ch1_like: Some(num(10.0)),
            fans: Some(50),
            fan_level: Some(88),
            current_costume: None,
            current_music: None,
        }),
        areas: vec![AreaSavePatch {
            area: 1,
            like_amount: Some(num(10.0)),
            fans: Some(40),
            fan_level: Some(1),
            candy: Some(num(5.0)),
            ..Default::default()
        }],
        ..Default::default()
    };
    db.merge_user_save(&second, &older, "device-a", 10, &[])
        .unwrap();
    let snapshot = db.player_snapshot(identity.usn).unwrap();
    assert_eq!(snapshot.currency(CurrencyKind::Ch1Like), num(10.0));
    assert_eq!(snapshot.currency(CurrencyKind::Ch2Like), num(200.0));
    assert_eq!(snapshot.currency(CurrencyKind::Candy), num(5.0));
    assert_eq!(snapshot.currency(CurrencyKind::Fans), num(500.0));
    assert_eq!(snapshot.fan_level, 1);
    assert_eq!(snapshot.areas[0].fans, num(40.0));
    assert_eq!(snapshot.areas[0].area_level, 1);
    assert_eq!(snapshot.areas[0].candy, num(5.0));
    assert_eq!(snapshot.areas[1].fans, num(500.0));
    assert_eq!(snapshot.areas[1].area_level, 3);
    assert_eq!(snapshot.areas[1].candy, num(75.0));
    assert_eq!(snapshot.areas[0].current_costume, Some(2));
    assert!(!snapshot.owned_content.iter().any(|content| {
        content.kind == ContentKind::Costume && content.area == 1 && content.content_id == 2
    }));
}

#[test]
fn user_save_music_does_not_invent_or_overwrite_server_timestamps() {
    let (mut db, identity) = setup();
    edit(&mut db, identity.usn, |player| {
        player.encores.put(
            key1(1),
            Plain(EncoreRow {
                encore_appears: false,
                encore_follower_id: None,
                encore_ready_at: 999,
                ch3_active_until: 888,
            }),
        );
    });
    let session = db
        .begin_login(b"music-save", DeviceClock::new(500, 0).unwrap())
        .unwrap();
    let mutation = RpcMutation {
        nonce: session.nonce,
        identity: identity.clone(),
        request_seq: 1,
        rpc: "userSave".into(),
        idempotency_key: "music-save-1".into(),
        committed_at: 501,
    };
    db.merge_user_save(
        &mutation,
        &UserSavePatch {
            music_states: vec![MusicStateSavePatch {
                music_id: 1,
                encore_appears: true,
                encore_follower_id: Some(77),
            }],
            ..Default::default()
        },
        "device-a",
        10,
        &[],
    )
    .unwrap();

    let music = db
        .player_snapshot(identity.usn)
        .unwrap()
        .music_states
        .into_iter()
        .find(|state| state.music_id == 1)
        .unwrap();
    assert!(music.encore_appears);
    assert_eq!(music.encore_follower_id, Some(77));
    assert_eq!(music.encore_ready_at, 999);
    assert_eq!(music.ch3_active_until, 888);
}

#[test]
fn user_save_keeps_attendance_authoritative_and_accelerates_pass_delta() {
    let (mut db, identity) = setup();
    edit(&mut db, identity.usn, |player| {
        player.attendance.count = 2;
    });
    let session = db
        .begin_login(b"authority-save", DeviceClock::new(600, 0).unwrap())
        .unwrap();
    let mutation = RpcMutation {
        nonce: session.nonce,
        identity: identity.clone(),
        request_seq: 1,
        rpc: "userSave".into(),
        idempotency_key: "authority-save-1".into(),
        committed_at: 601,
    };
    db.merge_user_save(
        &mutation,
        &UserSavePatch {
            achievements: vec![ProgressSavePatch {
                id: 10,
                quantity: num(999.0),
                quantity_text: Some("999".into()),
            }],
            pass_progress: vec![PassProgressSavePatch {
                event_type: "SUBSCRIBE_PASS".into(),
                season: 2,
                points: 12_345,
                step: 3,
                version: 6,
            }],
            ..Default::default()
        },
        "device-a",
        10,
        &[(2, 0, 0), (2, 14, 106_000), (2, 15, 121_000)],
    )
    .unwrap();

    let snapshot = db.player_snapshot(identity.usn).unwrap();
    let attendance = snapshot
        .achievements
        .iter()
        .find(|achievement| achievement.id == 10)
        .unwrap();
    assert_eq!(attendance.quantity, num(2.0));
    assert_eq!(attendance.quantity_text, "2");
    let pass = snapshot
        .pass
        .progress
        .iter()
        .find(|progress| progress.season == 2 && progress.version == 6)
        .unwrap();
    assert_eq!(pass.points, 123_450);
    assert_eq!(pass.step, 15);
}

#[test]
fn attendance_check_and_same_day_add_do_not_advance_twice() {
    let (mut db, identity) = setup();
    let session = db
        .begin_login(b"attendance", DeviceClock::new(86_400 * 10, 0).unwrap())
        .unwrap();
    let make = |seq, key: &str| RpcMutation {
        nonce: session.nonce,
        identity: identity.clone(),
        request_seq: seq,
        rpc: "setAttendance".into(),
        idempotency_key: key.into(),
        committed_at: 86_400 * 10,
    };
    let check = db
        .attendance(
            &make(1, "check"),
            DeviceClock::new(86_400 * 10, 0).unwrap(),
            "check",
        )
        .unwrap();
    assert_eq!(check.status, "Y");
    assert_eq!(check.attendance_count, 0);
    let added = db
        .attendance(
            &make(2, "add"),
            DeviceClock::new(86_400 * 10, 0).unwrap(),
            "add",
        )
        .unwrap();
    assert_eq!(added.status, "ADD");
    assert_eq!(added.attendance_count, 1);
    let duplicate = db
        .attendance(
            &make(3, "add-again"),
            DeviceClock::new(86_400 * 10, 0).unwrap(),
            "add",
        )
        .unwrap();
    assert_eq!(duplicate.status, "N");
    assert_eq!(duplicate.attendance_count, 1);
}

#[test]
fn purchase_is_atomic_and_reward_replays_are_empty() {
    let (mut db, identity) = setup();
    db.grant_currency(identity.usn, CurrencyKind::Chocolate, num(20.0), "seed", 101)
        .unwrap();
    let session = db
        .begin_login(b"purchase", DeviceClock::new(102, 0).unwrap())
        .unwrap();
    let first = RpcMutation {
        nonce: session.nonce,
        identity: identity.clone(),
        request_seq: 1,
        rpc: "buyShop".into(),
        idempotency_key: "request-1".into(),
        committed_at: 103,
    };
    let rewards = vec![
        RewardGrant {
            reward_type: 1,
            reward_id: 2,
            amount: num(3.0),
        },
        RewardGrant {
            reward_type: 3,
            reward_id: 10,
            amount: num(1.0),
        },
    ];
    let result = db
        .purchase_rewards(
            &first,
            RewardPurchaseCommand {
                transaction_id: "shop-once:6".into(),
                purchase_kind: "shop".into(),
                target_id: 6,
                cost: Some((CurrencyKind::Chocolate, num(10.0))),
                rewards: rewards.clone(),
                ad_progression: None,
            },
        )
        .unwrap();
    assert_eq!(result.chocolate, num(10.0));
    assert_eq!(result.candy, num(3.0));
    assert_eq!(result.rewards, rewards);
    assert!(
        db.purchase_rewards(
            &first,
            RewardPurchaseCommand {
                transaction_id: "shop-once:6".into(),
                purchase_kind: "shop".into(),
                target_id: 6,
                cost: Some((CurrencyKind::Chocolate, num(10.0))),
                rewards: rewards.clone(),
                ad_progression: None,
            },
        )
        .unwrap()
        .rewards
        .is_empty()
    );
    assert_eq!(
        db.currency(identity.usn, CurrencyKind::Chocolate).unwrap(),
        num(10.0)
    );

    let second = RpcMutation {
        request_seq: 2,
        idempotency_key: "request-2".into(),
        committed_at: 104,
        ..first
    };
    let replay = db
        .purchase_rewards(
            &second,
            RewardPurchaseCommand {
                transaction_id: "shop-once:6".into(),
                purchase_kind: "shop".into(),
                target_id: 6,
                cost: Some((CurrencyKind::Chocolate, num(10.0))),
                rewards: rewards.clone(),
                ad_progression: None,
            },
        )
        .unwrap();
    assert!(replay.rewards.is_empty());
    assert_eq!(replay.chocolate, num(10.0));
    assert_eq!(replay.candy, num(3.0));
}

#[test]
fn free_shop_claim_advances_its_own_ad_level_exactly_once() {
    let (mut db, identity) = setup();
    let session = db
        .begin_login(b"free-shop-level", DeviceClock::new(700, 0).unwrap())
        .unwrap();
    let progression = AdLevelProgression {
        group_id: 200_010,
        thresholds: vec![(1, 0), (2, 2), (3, 4)],
    };
    let reward = RewardGrant {
        reward_type: 1,
        reward_id: 1,
        amount: num(10.0),
    };
    let mutation = |sequence| RpcMutation {
        nonce: session.nonce,
        identity: identity.clone(),
        request_seq: sequence,
        rpc: "buyShop".into(),
        idempotency_key: format!("free-shop-level:{sequence}"),
        committed_at: 700 + sequence,
    };

    let first = db
        .purchase_rewards(
            &mutation(1),
            RewardPurchaseCommand {
                transaction_id: "free-shop:1".into(),
                purchase_kind: "shop".into(),
                target_id: 3,
                cost: None,
                rewards: vec![reward.clone()],
                ad_progression: Some(progression.clone()),
            },
        )
        .unwrap();
    assert_eq!(
        first.ad_level,
        Some(AdLevelSnapshot {
            ad_level_id: 200_010,
            level: 1,
            experience: 1,
        })
    );

    let second_mutation = mutation(2);
    let second = db
        .purchase_rewards(
            &second_mutation,
            RewardPurchaseCommand {
                transaction_id: "free-shop:2".into(),
                purchase_kind: "shop".into(),
                target_id: 3,
                cost: None,
                rewards: vec![reward.clone()],
                ad_progression: Some(progression.clone()),
            },
        )
        .unwrap();
    assert_eq!(second.ad_level.as_ref().unwrap().level, 2);
    assert_eq!(second.ad_level.as_ref().unwrap().experience, 2);

    let replay = db
        .purchase_rewards(
            &second_mutation,
            RewardPurchaseCommand {
                transaction_id: "free-shop:2".into(),
                purchase_kind: "shop".into(),
                target_id: 3,
                cost: None,
                rewards: vec![reward.clone()],
                ad_progression: Some(progression.clone()),
            },
        )
        .unwrap();
    assert_eq!(replay.ad_level, second.ad_level);
    assert_eq!(db.ad_level(identity.usn, 200_010).unwrap().experience, 2);
}

#[test]
fn premium_upgrade_curve_is_charged_at_transaction_level_and_replay_is_free() {
    let (mut db, identity) = setup();
    let clock = DeviceClock::new(500, 0).unwrap();
    let session = db.begin_login(b"curve", clock).unwrap();
    db.grant_currency(identity.usn, CurrencyKind::Chocolate, num(1000.0), "seed-curve", 500).unwrap();
    let mut balance = 1000.0;
    let mut seq = 0;
    for (kind, id, maximum, increment, offset, cap) in [
        (ContentKind::Skill, 2, 20, 0.5, 2, 10.0),
        (ContentKind::Skill, 3, 20, 14.0 / 18.0, 2, 15.0),
        (ContentKind::Skill, 23, 20, 19.0 / 18.0, 2, 20.0),
        (ContentKind::Unit, 3, 6, 3.8, 1, 20.0),
    ] {
        let mut last_cost = 0.0;
        for target in 1..=maximum {
            seq += 1;
            let mutation = RpcMutation { nonce: session.nonce, identity: identity.clone(),
                request_seq: seq, rpc: "buyContents".into(), idempotency_key: format!("curve:{seq}"), committed_at: 500 + seq };
            let command = ContentPurchaseCommand { kind, area: 1, content_id: id,
                currency: CurrencyKind::Chocolate, price: num(1.0), price_increment: num(increment), max_level: maximum };
            let cost = (1.0_f32 + (target - offset).max(0) as f32 * increment as f32).trunc() as f64;
            assert!(cost >= last_cost && cost <= cap);
            balance -= cost;
            let result = db.purchase_content(&mutation, command.clone()).unwrap();
            assert_eq!(result.level, target);
            assert_eq!(result.chocolate, num(balance));
            let replay = db.purchase_content(&mutation, command).unwrap();
            assert_eq!(replay, result);
            last_cost = cost;
        }
        assert_eq!(last_cost, cap);
    }
}

#[test]
fn purchases_reject_insufficient_balance_without_partial_mutation() {
    let (mut db, identity) = setup();
    let clock = DeviceClock::new(500, 0).unwrap();
    let session = db.begin_login(b"free-purchase", clock).unwrap();
    let make = |seq, rpc: &str| RpcMutation {
        nonce: session.nonce,
        identity: identity.clone(),
        request_seq: seq,
        rpc: rpc.into(),
        idempotency_key: format!("{rpc}:{seq}"),
        committed_at: clock.unix_seconds + seq,
    };

    let rejected_content = db.purchase_content(
        &make(1, "buyContents"),
        ContentPurchaseCommand {
            kind: ContentKind::Skill,
            area: 1,
            content_id: 2,
            currency: CurrencyKind::Chocolate,
            price: num(9.0),
            price_increment: num(0.0),
            max_level: 2,
        },
    );
    assert!(matches!(
        rejected_content,
        Err(StoreError::Domain(DomainError::InsufficientBalance))
    ));
    assert_eq!(
        db.player_snapshot(identity.usn)
            .unwrap()
            .content_levels
            .iter()
            .find(|row| row.kind == ContentKind::Skill && row.content_id == 2),
        None
    );

    db.grant_currency(
        identity.usn,
        CurrencyKind::Chocolate,
        num(20.0),
        "purchase-seed-1",
        501,
    )
    .unwrap();
    let content = db
        .purchase_content(
            &make(1, "buyContents"),
            ContentPurchaseCommand {
                kind: ContentKind::Skill,
                area: 1,
                content_id: 2,
                currency: CurrencyKind::Chocolate,
                price: num(9.0),
                price_increment: num(0.0),
                max_level: 2,
            },
        )
        .unwrap();
    assert_eq!(content.level, 1);
    assert_eq!(content.chocolate, num(11.0));

    let maxed = db
        .purchase_content(
            &make(2, "buyContents"),
            ContentPurchaseCommand {
                kind: ContentKind::Skill,
                area: 1,
                content_id: 2,
                currency: CurrencyKind::Chocolate,
                price: num(9.0),
                price_increment: num(0.0),
                max_level: 1,
            },
        )
        .unwrap();
    assert_eq!(maxed.level, 1);
    assert_eq!(maxed.chocolate, num(11.0));

    let reward = RewardGrant {
        reward_type: 1,
        reward_id: 2,
        amount: num(4.0),
    };
    let rejected_shop = db.purchase_rewards(
        &make(3, "buyShop"),
        RewardPurchaseCommand {
            transaction_id: "empty-balance-shop".into(),
            purchase_kind: "shop".into(),
            target_id: 1,
            cost: Some((CurrencyKind::Chocolate, num(99.0))),
            rewards: vec![reward.clone()],
            ad_progression: None,
        },
    );
    assert!(matches!(
        rejected_shop,
        Err(StoreError::Domain(DomainError::InsufficientBalance))
    ));
    assert_eq!(db.currency(identity.usn, CurrencyKind::Candy).unwrap(), num(0.0));

    db.grant_currency(
        identity.usn,
        CurrencyKind::Chocolate,
        num(150.0),
        "purchase-seed-2",
        503,
    )
    .unwrap();
    let shop = db
        .purchase_rewards(
            &make(3, "buyShop"),
            RewardPurchaseCommand {
                transaction_id: "empty-balance-shop".into(),
                purchase_kind: "shop".into(),
                target_id: 1,
                cost: Some((CurrencyKind::Chocolate, num(99.0))),
                rewards: vec![reward.clone()],
                ad_progression: None,
            },
        )
        .unwrap();
    assert_eq!(shop.chocolate, num(62.0));
    assert_eq!(shop.candy, num(4.0));
    assert_eq!(shop.rewards, vec![reward]);

    let pass = db
        .fill_pass(&make(4, "paidEventPoint"), 3, 0, num(50.0), 100, &[(1, 100)])
        .unwrap();
    assert_eq!(pass.chocolate, num(12.0));
    assert_eq!(pass.points, 100);
    assert_eq!(pass.version, 0);
}

#[test]
fn pass_progress_claims_and_versions_are_independent() {
    let (mut db, identity) = setup();
    db.grant_currency(
        identity.usn,
        CurrencyKind::Chocolate,
        num(100.0),
        "pass-seed",
        101,
    )
    .unwrap();
    let clock = DeviceClock::new(86_400 * 20, 120).unwrap();
    let session = db.begin_login(b"pass", clock).unwrap();
    let make = |seq, rpc: &str| RpcMutation {
        nonce: session.nonce,
        identity: identity.clone(),
        request_seq: seq,
        rpc: rpc.into(),
        idempotency_key: format!("{rpc}:{seq}"),
        committed_at: clock.unix_seconds + seq,
    };
    let fill = db
        .fill_pass(
            &make(1, "paidEventPoint"),
            2,
            1,
            num(50.0),
            500,
            &[(0, 0), (1, 500)],
        )
        .unwrap();
    assert_eq!(fill.points, 500);
    assert_eq!(fill.chocolate, num(50.0));
    let reward = vec![RewardGrant {
        reward_type: 1,
        reward_id: 2,
        amount: num(2.0),
    }];
    let claimed = db
        .claim_pass_reward(&make(2, "setPassReward"), 2, 1, 0, 1, 500, &reward, 32, 2)
        .unwrap();
    assert_eq!(claimed.rewards, reward);
    let retry = db
        .claim_pass_reward(&make(3, "setPassReward"), 2, 1, 0, 1, 500, &reward, 32, 2)
        .unwrap();
    assert!(retry.rewards.is_empty());
    db.fill_pass(&make(4, "paidEventPoint"), 2, 2, num(0.0), 500, &[(1, 500)])
        .map(|fill| {
            assert_eq!(fill.version, 2);
            assert_eq!(fill.points, 500);
        })
        .unwrap();
    let version_two = db
        .claim_pass_reward(&make(5, "setPassReward"), 2, 2, 0, 1, 500, &reward, 32, 2)
        .unwrap();
    assert_eq!(version_two.rewards, reward);
    let snapshot = db.pass_snapshot(identity.usn).unwrap();
    assert_eq!(snapshot.progress.len(), 2);
    assert_eq!(snapshot.claims.len(), 2);
    db.select_pass_season(identity.usn, clock, 9).unwrap();
    assert_eq!(
        db.pass_snapshot(identity.usn).unwrap().anchor.anchor_season,
        9
    );
}

#[test]
fn pass_selection_revision_and_anchor_survive_restart() {
    let clock = DeviceClock::new(86_400 * 30, 600).unwrap();

    let mut before = Database::open_memory().unwrap();
    let identity = before.create_slot("Pass", clock.unix_seconds).unwrap();
    assert_eq!(before.state_revision(identity.usn, "master-data").unwrap(), 0);
    before.select_pass_season(identity.usn, clock, 9).unwrap();
    assert_eq!(before.state_revision(identity.usn, "master-data").unwrap(), 1);

    let db = before.dup();
    drop(before);
    assert_eq!(db.state_revision(identity.usn, "master-data").unwrap(), 1);
    let pass = db.pass_snapshot(identity.usn).unwrap();
    assert_eq!(pass.anchor.anchor_day, clock.local_epoch_day());
    assert_eq!(pass.anchor.anchor_season, 9);
    assert_eq!(pass.anchor.utc_offset_minutes, 600);
}

#[test]
fn fever_reward_seconds_extend_once_and_expired_timer_restarts_from_device_time() {
    let (mut db, user) = setup();
    let other = db.create_slot("Other fever", 100).unwrap();
    let session = db
        .begin_login(b"fever", DeviceClock::new(200, 600).unwrap())
        .unwrap();
    for (seq, now, seconds, expected_end) in [
        (1, 200, 300.0, 500),
        (2, 250, 600.0, 1100),
        (3, 2000, 60.0, 2060),
    ] {
        let mutation = RpcMutation {
            nonce: session.nonce,
            identity: user.clone(),
            request_seq: seq,
            rpc: "buyShop".into(),
            idempotency_key: format!("fever:{seq}"),
            committed_at: now,
        };
        let command = RewardPurchaseCommand {
            transaction_id: format!("fever-purchase:{seq}"),
            purchase_kind: "shop".into(),
            target_id: 9,
            cost: None,
            rewards: vec![RewardGrant {
                reward_type: 6,
                reward_id: 2,
                amount: num(seconds),
            }],
            ad_progression: None,
        };
        assert_eq!(
            db.purchase_rewards(&mutation, command.clone())
                .unwrap()
                .rewards
                .len(),
            1
        );
        assert!(
            db.purchase_rewards(&mutation, command)
                .unwrap()
                .rewards
                .is_empty()
        );
        let snapshot = db.player_snapshot(user.usn).unwrap();
        assert_eq!(
            snapshot.buff_timers,
            vec![BuffTimerSnapshot {
                buff_id: 2,
                active_at: now,
                expires_at: expected_end,
            }]
        );
        assert_eq!(
            snapshot
                .owned_content
                .iter()
                .filter(|row| row.kind == ContentKind::Buff)
                .count(),
            1
        );
    }
    let mut db = db.dup();
    db.begin_login(b"fever-reopened", DeviceClock::new(10000, -480).unwrap())
        .unwrap();
    // Restart/timezone changes do not refresh expired Fever or add 900 seconds.
    assert_eq!(
        db.player_snapshot(user.usn).unwrap().buff_timers[0].expires_at,
        2060
    );
    let slot = db.slots.get(key1(other.usn)).unwrap();
    assert_eq!(slot.player.buffs.len(), 0);
}

#[test]
fn fan_multipliers_share_shop_pass_and_mail_settlement_with_owned_bonuses() {
    let (mut db, user) = setup();
    let other = db.create_slot("Other fans", 101).unwrap();
    db.configure_reward_rules(rules(&[
        (1, 1, 0.0),
        (2, 1, 0.3),
        (201, 2, 0.0),
        (202, 2, 0.5),
    ]))
    .unwrap();
    edit(&mut db, user.usn, |player| {
        for (area, id) in [(1, 2), (2, 202)] {
            let key = key2(ContentKind::Costume.exec_rank(), id);
            player.owned.put(key, owned(area, 101, "fixture"));
        }
    });
    let session = db
        .begin_login(b"fan-paths", DeviceClock::new(200, 0).unwrap())
        .unwrap();
    let make = |seq, rpc: &str| RpcMutation {
        nonce: session.nonce,
        identity: user.clone(),
        request_seq: seq,
        rpc: rpc.into(),
        idempotency_key: format!("fan:{seq}:{rpc}"),
        committed_at: 200 + seq,
    };
    for (index, id) in [8, 9].into_iter().enumerate() {
        let reward = RewardGrant {
            reward_type: 1,
            reward_id: id,
            amount: num(1000.0),
        };
        let seq = index as i64 * 3;
        let command = || RewardPurchaseCommand {
            transaction_id: format!("fan-shop:{id}"),
            purchase_kind: "shop".into(),
            target_id: i64::from(id),
            cost: None,
            rewards: vec![reward.clone()],
            ad_progression: None,
        };
        let mutation = make(seq + 1, "buyShop");
        assert_eq!(
            db.purchase_rewards(&mutation, command()).unwrap().rewards,
            vec![reward.clone()]
        );
        assert!(
            db.purchase_rewards(&mutation, command())
                .unwrap()
                .rewards
                .is_empty()
        );
        let mutation = make(seq + 2, "provideSubscribePassReward");
        db.claim_pass_reward(
            &mutation,
            1,
            0,
            0,
            id,
            0,
            std::slice::from_ref(&reward),
            1,
            0,
        )
        .unwrap();
        assert!(
            db.claim_pass_reward(
                &mutation,
                1,
                0,
                0,
                id,
                0,
                std::slice::from_ref(&reward),
                1,
                0
            )
            .unwrap()
            .rewards
            .is_empty()
        );
        edit(&mut db, user.usn, |player| {
            player.queue_reward_mail(i64::from(id), "s", "b", &reward, 200).unwrap();
        });
        let mutation = make(seq + 3, "providePost");
        db.claim_mail_rpc(&mutation, i64::from(id)).unwrap();
        db.claim_mail_rpc(&mutation, i64::from(id)).unwrap();
    }
    let snapshot = db.player_snapshot(user.usn).unwrap();
    // CH1 1.3f32 * 1000 truncates to 1299, CH2 1.5f32 * 1000 to 1500.
    assert_eq!(snapshot.currency(CurrencyKind::Fans), num(3897.0));
    assert_eq!(
        snapshot
            .areas
            .iter()
            .find(|row| row.area == 1)
            .unwrap()
            .fans,
        num(3897.0)
    );
    assert_eq!(
        snapshot
            .areas
            .iter()
            .find(|row| row.area == 2)
            .unwrap()
            .fans,
        num(4500.0)
    );
    assert_eq!(db.currency(other.usn, CurrencyKind::Fans).unwrap(), num(0.0));
}

#[test]
fn guide_each_task_and_reward_remain_independent_through_four_stage_restarts() {
    let (mut initial, user) = setup();
    let other = initial.create_slot("Other guide", 101).unwrap();
    initial
        .begin_login(b"guide-initial", DeviceClock::new(200, 0).unwrap())
        .unwrap();
    let mut closed = initial;
    for stage in 1..=4 {
        for task in 1..=3 {
            let mut db = closed.dup();
            let session = db
                .begin_login(
                    format!("guide:{stage}:{task}").as_bytes(),
                    DeviceClock::new(200 + stage * 10 + task, 0).unwrap(),
                )
                .unwrap();
            let mutation = RpcMutation {
                nonce: session.nonce,
                identity: user.clone(),
                request_seq: 1,
                rpc: "setUserFollowerQuest".into(),
                idempotency_key: format!("guide:{stage}:{task}"),
                committed_at: session.clock.unix_seconds,
            };
            let run = |db: &mut Database, mutation: &RpcMutation| {
                db.advance_follower_quest(
                    mutation,
                    stage,
                    task,
                    num(task as f64),
                    [num(1.0), num(2.0), num(3.0)],
                    vec![RewardGrant {
                        reward_type: 1,
                        reward_id: 1,
                        amount: num(1.0),
                    }],
                    Some(stage + 1),
                )
            };
            let result = run(&mut db, &mutation).unwrap();
            assert_eq!(result.next, task == 3);
            assert_eq!(
                result.complete_id,
                if task == 3 { stage } else { stage - 1 }
            );
            assert_eq!(result.rewards.len(), 1);
            assert!(run(&mut db, &mutation).unwrap().rewards.is_empty());
            assert!(!run(&mut db, &mutation).unwrap().next);
            // A new transport request for the same claimed task is also safe.
            let duplicate = RpcMutation {
                request_seq: 2,
                idempotency_key: format!("duplicate:{stage}:{task}"),
                ..mutation
            };
            assert!(run(&mut db, &duplicate).unwrap().rewards.is_empty());
            let snapshot = db.player_snapshot(user.usn).unwrap();
            assert_eq!(
                snapshot.follower_quests.last().unwrap().complete_id,
                result.complete_id
            );
            for previous in 1..stage {
                let row = snapshot
                    .follower_quests
                    .iter()
                    .find(|row| row.current_id == previous)
                    .unwrap();
                assert!(row.completed);
                assert_eq!(row.claimed, [true; 3]);
            }
            let row = snapshot
                .follower_quests
                .iter()
                .find(|row| row.current_id == stage)
                .unwrap();
            assert_eq!(row.claimed, [true, task >= 2, task == 3]);
            assert_eq!(
                row.condition_values,
                [
                    num(1.0),
                    if task >= 2 { num(2.0) } else { num(0.0) },
                    if task == 3 { num(3.0) } else { num(0.0) }
                ]
            );
            if task == 3 {
                let next = snapshot
                    .follower_quests
                    .iter()
                    .find(|row| row.current_id == stage + 1)
                    .unwrap();
                assert_eq!(next.claimed, [false; 3]);
                assert_eq!(next.condition_values, [num(0.0); 3]);
            }
            assert_eq!(
                db.currency(user.usn, CurrencyKind::Chocolate).unwrap(),
                num(((stage - 1) * 3 + task) as f64)
            );
            assert_eq!(
                db.currency(other.usn, CurrencyKind::Chocolate).unwrap(),
                num(0.0)
            );
            closed = db;
        }
    }
}

#[test]
fn ch3_energy_recovers_while_server_is_closed_without_login_date_side_effects() {
    let (mut db, user) = setup();
    let other = db.create_slot("Other energy", 100).unwrap();
    edit(&mut db, user.usn, |player| {
        player.energy = Ch3EnergySnapshot { amount: 3, cap: 25, calculated_at: 200 };
    });
    let mut reopened = db.dup();
    drop(db);
    // No ticking task ran between 200 and 207. Offset is intentionally not
    // involved in elapsed-duration restoration.
    assert_eq!(
        reopened
            .ch3_snapshot_at(user.usn, 207, 25)
            .unwrap()
            .energy
            .amount,
        10
    );
    assert_eq!(
        reopened
            .ch3_snapshot_at(user.usn, 207, 25)
            .unwrap()
            .energy
            .amount,
        10
    );
    assert_eq!(
        reopened
            .ch3_snapshot_at(user.usn, 190, 25)
            .unwrap()
            .energy
            .amount,
        10
    );
    assert_eq!(
        reopened
            .ch3_snapshot_at(user.usn, 193, 25)
            .unwrap()
            .energy
            .amount,
        13
    );
    assert_eq!(
        reopened
            .ch3_snapshot_at(user.usn, 100000, 25)
            .unwrap()
            .energy
            .amount,
        25
    );
    assert_eq!(
        reopened
            .ch3_snapshot_raw(other.usn)
            .unwrap()
            .energy
            .calculated_at,
        100
    );
}

#[test]
fn samseck_completion_survives_relogin_reopen_and_does_not_resend_mail() {
    let (mut db, user) = setup();
    let other = db.create_slot("Other", 101).unwrap();
    db.select_pass_season(other.usn, DeviceClock::new(101, 0).unwrap(), 1)
        .unwrap();
    edit(&mut db, user.usn, |player| {
        let key = key2(ContentKind::Character.exec_rank(), 1);
        let mut row = player.levels.get(key).unwrap().0;
        row.level = 200;
        player.levels.put(key, Plain(row));
    });
    let session = db
        .begin_login(b"samseck-first", DeviceClock::new(200, 0).unwrap())
        .unwrap();
    let make = |seq, nonce| RpcMutation {
        nonce,
        identity: user.clone(),
        request_seq: seq,
        rpc: "setSamSeck".into(),
        idempotency_key: format!("samseck:{nonce}:{seq}"),
        committed_at: 200 + seq,
    };
    let reward = || RewardGrant {
        reward_type: 1,
        reward_id: 1,
        amount: num(5.0),
    };
    assert_eq!(
        db.claim_sam_seck(&make(1, session.nonce), 1, 8001, reward())
            .unwrap(),
        1
    );
    assert_eq!(
        db.claim_sam_seck(&make(1, session.nonce), 1, 8001, reward())
            .unwrap(),
        1
    );
    assert_eq!(db.mailbox(user.usn).unwrap().mail.len(), 1);
    let claim = RpcMutation {
        rpc: "providePost".into(),
        ..make(2, session.nonce)
    };
    db.claim_mail_rpc(&claim, 8001).unwrap();
    assert_eq!(db.currency(user.usn, CurrencyKind::Chocolate).unwrap(), num(5.0));

    let session = db
        .begin_login(b"samseck-relogin", DeviceClock::new(900, 600).unwrap())
        .unwrap();
    assert_eq!(db.player_snapshot(user.usn).unwrap().samseck_step, 1);
    assert_eq!(db.player_snapshot(other.usn).unwrap().samseck_step, 0);
    assert_eq!(
        db.claim_sam_seck(&make(1, session.nonce), 1, 8001, reward())
            .unwrap(),
        1
    );
    assert_eq!(
        db.mailbox(user.usn)
            .unwrap()
            .mail
            .iter()
            .filter(|mail| !mail.claimed)
            .count(),
        0
    );

    let mut reopened = db.dup();
    drop(db);
    let session = reopened
        .begin_login(b"samseck-reopen", DeviceClock::new(90000, -480).unwrap())
        .unwrap();
    assert_eq!(reopened.player_snapshot(user.usn).unwrap().samseck_step, 1);
    assert_eq!(
        reopened
            .claim_sam_seck(&make(1, session.nonce), 1, 8001, reward())
            .unwrap(),
        1
    );
    assert_eq!(reopened.mailbox(user.usn).unwrap().mail.len(), 1);
    assert_eq!(
        reopened
            .currency(user.usn, CurrencyKind::Chocolate)
            .unwrap(),
        num(5.0)
    );
    assert!(reopened.mailbox(other.usn).unwrap().mail.is_empty());
    assert_eq!(reopened.player_snapshot(other.usn).unwrap().samseck_step, 0);
}

#[test]
fn attendance_and_pass_use_local_midnight_not_utc_or_restart() {
    for offset in [-720, -360, -300, -210, 0, 330, 345, 540, 600, 840] {
        let (mut db, user) = setup();
        let midnight = 20_000 * 86_400 - i64::from(offset) * 60;
        let initial = DeviceClock::new(midnight + 1, offset).unwrap();
        db.select_pass_season(user.usn, initial, 8).unwrap();
        for (index, seconds, expected_count) in
            [(0, 1, 1), (1, 43_200, 1), (2, 86_399, 1),
             (3, 86_400, 2), (4, 86_401, 2)]
        {
            let clock = DeviceClock::new(midnight + seconds, offset).unwrap();
            // Re-login invalidates the previous session, not the day's claim.
            let session = db.begin_login(format!("tz:{offset}:{index}").as_bytes(), clock).unwrap();
            let mutation = RpcMutation {
                nonce: session.nonce, identity: user.clone(), request_seq: 1,
                rpc: "setAttendance".into(),
                idempotency_key: format!("tz:{offset}:{index}"),
                committed_at: clock.unix_seconds,
            };
            let result = db.attendance(&mutation, clock, "add").unwrap();
            assert_eq!(result.attendance_count, expected_count, "offset={offset} seconds={seconds}");
            let anchor = db.pass_snapshot(user.usn).unwrap().anchor;
            assert_eq!(anchor.anchor_day, initial.local_epoch_day());
            assert_eq!(anchor.anchor_season, 8);
        }
    }
}

#[test]
fn daylight_saving_repeated_and_skipped_hours_do_not_create_a_new_day() {
    let (mut db, user) = setup();
    // Fall back: 01:59:59 UTC-5 becomes 01:00:00 UTC-6 one real second later.
    // Spring forward: 01:59:59 UTC-6 becomes 03:00:00 UTC-5.
    for (case, offsets, utc_hour) in [(0, [-300, -360], 7), (1, [-360, -300], 8)] {
        let day = 20_000 + case;
        for (index, offset) in offsets.into_iter().enumerate() {
            let now = day * 86_400 + utc_hour * 3600 - 1 + index as i64;
            let clock = DeviceClock::new(now, offset).unwrap();
            assert_eq!(clock.local_epoch_day(), day);
            let session = db.begin_login(format!("dst:{case}:{index}").as_bytes(), clock).unwrap();
            let mutation = RpcMutation {
                nonce: session.nonce, identity: user.clone(), request_seq: 1,
                rpc: "setAttendance".into(), idempotency_key: format!("dst:{case}:{index}"),
                committed_at: now,
            };
            assert_eq!(db.attendance(&mutation, clock, "add").unwrap().attendance_count, (case + 1) as i32);
        }
    }
}
