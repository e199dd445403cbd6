//! What is shown, kept and checked at the start.
use ggfm::banner::{render, startup_banner};
use ggfm::boot_log::BootLog;
use ggfm::domain::DeviceClock;
use ggfm::errors::StoreError;
use ggfm::master::{
    check_integrity, check_version, game_data_tables, gift_experience, master_row,
    normalize_column_name, parse_id_list, MasterCatalog, MasterData, MasterDataError,
    MasterMetadata, MasterScalar, PassRewardRow, PercentRewardRow, RewardGroupRow, ShopRow,
    MASTER_SCHEMA_VERSION,
};
use ggfm::number::Real;
use ggfm::startup::{
    choose_capability, plan_start, read_capability, signed_seconds, StartPlan, ABI_VERSION,
};
use ggfm::store::{opening, Opening};
use ggfm::transfer::{
    check_complete, check_distinct, check_health, check_save_version, check_schema, check_size,
    SchemaEntry, MAX_SAVE_BYTES,
};

#[test]
fn responsive_wordmark_never_wraps_glyphs() {
    for columns in [0, 1, 32, 45, 46, 65, 66, 100, u32::MAX] {
        let text = render(columns);
        let wide = columns >= 66;
        assert_eq!(text.lines().count(), if wide { 6 } else { 13 });
        assert!(text.lines().all(|line| line.chars().count() <= if wide { 66 } else { 46 }));
        assert!(!text.contains('\0'));
    }
    assert_eq!(render(66), render(100));
    assert_eq!(render(46), render(65));
    assert!(render(66).contains("██████╗"));
}

#[test]
fn ffi_reports_capacity_and_never_partially_writes_utf8() {
    let required = startup_banner(66, &mut Vec::new(), 0);
    let mut short = vec![0x55_u8; required - 1];
    let capacity = short.len();
    assert_eq!(startup_banner(66, &mut short, capacity), required);
    assert!(short.iter().all(|v| *v == 0x55));
    let mut bytes = vec![0x55_u8; required + 1];
    assert_eq!(startup_banner(66, &mut bytes, required), required);
    assert_eq!(&bytes[..required - 1], render(66).as_bytes());
    assert_eq!(bytes[required - 1], 0);
    assert_eq!(bytes[required], 0x55);
}

#[test]
fn log_lines_are_marked_and_bounded() {
    let mut log = BootLog::new();
    log.log("runtime.abi.ready");
    log.log("fatal.server_thread");
    log.log("[WARN] kept");
    assert_eq!(
        log.drain(1000),
        b"[INFO] runtime.abi.ready\n[ERROR] fatal.server_thread\n[WARN] kept"
    );
    assert!(log.drain(1000).is_empty());
    for i in 0..300 {
        log.log(&format!("[{i}]"));
    }
    let text = String::from_utf8(log.drain(100_000)).unwrap();
    assert_eq!(text.lines().count(), 256);
    assert_eq!(text.lines().next(), Some("[44]"));
    log.log("lost");
    log.clear();
    assert!(log.drain(1000).is_empty());
}

#[test]
fn log_lines_are_handed_out_whole() {
    let mut log = BootLog::new();
    log.log("[ab]");
    log.log("[cd]");
    assert!(log.drain(1).is_empty());
    assert!(log.drain(4).is_empty());
    assert_eq!(log.drain(9), b"[ab]");
    assert_eq!(log.drain(5), b"[cd]");
    log.log("[ab]");
    log.log("[cd]");
    assert_eq!(log.drain(10), b"[ab]\n[cd]");
}

#[test]
fn capabilities_are_hexadecimal() {
    let text = "0123456789abcdefABCDEF".repeat(3)[..64].to_owned();
    assert_eq!(read_capability(&text), Some(text.to_lowercase()));
    assert_eq!(read_capability(&text[..63]), None);
    assert_eq!(read_capability(&text.replace('f', "g")), None);
}

#[test]
fn starts_are_refused_in_order() {
    let good = "a".repeat(64);
    let code = |present, readable, capability: &str, offset, running| match plan_start(
        present, readable, capability, 5, offset, running,
    ) {
        StartPlan::Refuse { code } => code,
        StartPlan::Start { .. } => 0,
    };
    assert_eq!(code(false, false, "", 900, true), -1);
    assert_eq!(code(true, false, &good, 900, true), -2);
    assert_eq!(code(true, true, "short", 900, true), -2);
    assert_eq!(code(true, true, &good, 841, true), -3);
    assert_eq!(code(true, true, &good, -840, true), 1);
    assert_eq!(code(true, true, &good, 840, false), 0);
    match plan_start(true, true, &"A".repeat(64), 7, 60, false) {
        StartPlan::Start { capability, clock } => {
            assert_eq!(capability, good);
            assert_eq!(clock, DeviceClock { unix_seconds: 7, utc_offset_minutes: 60 });
        }
        StartPlan::Refuse { code } => panic!("refused with {code}"),
    }
    assert_eq!(ABI_VERSION, 1);
    assert_eq!(signed_seconds(17), 17);
    assert_eq!(signed_seconds(u64::MAX), i64::MAX);
}

fn integrity(result: Result<(), StoreError>) -> Option<String> {
    match result {
        Err(StoreError::Integrity(text)) => Some(text),
        _ => None,
    }
}

#[test]
fn saves_are_looked_at_before_they_are_taken() {
    assert!(check_size(1).is_ok());
    assert!(check_size(MAX_SAVE_BYTES).is_ok());
    assert_eq!(MAX_SAVE_BYTES, 256 * 1024 * 1024);
    for size in [0, MAX_SAVE_BYTES + 1] {
        assert_eq!(
            integrity(check_size(size)).as_deref(),
            Some("save size outside supported limits")
        );
    }
    assert!(check_save_version(4).is_ok());
    assert!(matches!(
        check_save_version(3),
        Err(StoreError::UnsupportedSchema { actual: 3, expected: 4 })
    ));
    let entry = |sql: Option<&str>| SchemaEntry {
        entry_type: "table".to_owned(),
        name: "mail".to_owned(),
        sql: sql.map(str::to_owned),
    };
    assert!(check_schema(&vec![entry(Some("x"))], &vec![entry(Some("x"))]).is_ok());
    for other in [vec![], vec![entry(None)], vec![entry(Some("y"))]] {
        assert_eq!(
            integrity(check_schema(&vec![entry(Some("x"))], &other)).as_deref(),
            Some("save schema does not match this build")
        );
    }
    assert!(check_health("ok", false).is_ok());
    for (report, broken) in [("ok", true), ("broken", false)] {
        assert_eq!(
            integrity(check_health(report, broken)).as_deref(),
            Some("save integrity or foreign key check failed")
        );
    }
    assert!(check_distinct(false).is_ok());
    assert_eq!(
        integrity(check_distinct(true)).as_deref(),
        Some("source and destination must differ")
    );
    assert!(check_complete(true).is_ok());
    assert_eq!(
        integrity(check_complete(false)).as_deref(),
        Some("save is busy; retry before starting the game")
    );
}

#[test]
fn files_are_opened_by_their_version() {
    assert!(matches!(opening("ok", 0), Ok(Opening::Create)));
    assert!(matches!(opening("ok", 4), Ok(Opening::Ready)));
    assert!(matches!(opening("bad page", 4), Err(StoreError::Integrity(text)) if text == "bad page"));
}

fn metadata(version: i64) -> MasterMetadata {
    MasterMetadata { version, source_asset_count: 1, source_table_count: 0 }
}

#[test]
fn rejects_incomplete_master_database() {
    assert!(matches!(
        MasterData::new(metadata(2), vec![]),
        Err(MasterDataError::MissingTable(_))
    ));
}

#[test]
fn master_tables_must_be_complete_and_current() {
    let mut tables: Vec<String> =
        game_data_tables().into_iter().map(|(_, table)| table.to_owned()).collect();
    assert_eq!(tables.len(), 39);
    assert_eq!(
        MasterData::new(metadata(2), tables.clone()).unwrap_err(),
        MasterDataError::MissingTable("DailyReward")
    );
    tables.push("DailyReward".to_owned());
    let data = MasterData::new(metadata(2), tables.clone()).unwrap();
    assert!(data.has_table("Fan"));
    assert!(!data.has_table("fan"));
    assert_eq!(data.metadata().version, MASTER_SCHEMA_VERSION);
    assert_eq!(
        MasterData::new(metadata(1), tables).unwrap_err(),
        MasterDataError::UnsupportedSchema { actual: 1, expected: 2 }
    );
    assert_eq!(check_integrity("ok"), Ok(()));
    assert_eq!(check_integrity("no"), Err(MasterDataError::Integrity("no".to_owned())));
    assert!(check_version(2).is_ok());
}

#[test]
fn columns_lose_their_types_and_capitals() {
    assert_eq!(normalize_column_name("i_RewardGroupID1"), "rewardgroupid1");
    assert_eq!(normalize_column_name("RewardGroup_2"), "rewardgroup2");
    assert_eq!(normalize_column_name("é_Name"), "name");
    assert_eq!(normalize_column_name("éName_É"), "name");
    assert_eq!(normalize_column_name("_"), "");
}

#[test]
fn a_normalized_column_stays() {
    for name in ["i_RewardGroupID1", "RewardGroup_2", "s_i_Name", "a_b_c", "_x", "é_Name", ""] {
        let once = normalize_column_name(name);
        assert_eq!(normalize_column_name(&once), once);
    }
}

#[test]
fn id_lists_keep_positive_numbers() {
    assert_eq!(parse_id_list("12,0;-7 99999999999999999999|3"), [12, 7, 3]);
    assert!(parse_id_list("").is_empty());
    assert!(parse_id_list("none").is_empty());
}

#[test]
fn gifts_are_worth_whole_numbers() {
    let worth = |value: f64| gift_experience(Real { bits: value.to_bits() });
    assert_eq!(worth(12.9), 12);
    assert_eq!(worth(-3.0), 0);
    assert_eq!(worth(f64::NAN), 0);
    assert_eq!(worth(1e300), i64::MAX);
}

#[test]
fn rows_keep_the_later_of_two_columns() {
    let columns = vec!["b".to_owned(), "a".to_owned(), "b".to_owned()];
    let cells = vec![MasterScalar::Integer(1), MasterScalar::Null, MasterScalar::Integer(3)];
    let row = master_row(&columns, cells);
    assert_eq!(row.len(), 2);
    assert_eq!(row.name_at(0), "a");
    assert_eq!(row.find("a"), Some(&MasterScalar::Null));
    assert_eq!(row.find("b"), Some(&MasterScalar::Integer(3)));
    assert_eq!(row.find("c"), None);
}

#[test]
fn the_catalog_finds_its_rows() {
    let zero = Real { bits: 0 };
    let reward = |row_id, group| RewardGroupRow {
        row_id,
        group,
        reward_type: 1,
        reward_id: 1,
        quantity: zero,
        first_purchase_quantity: zero,
    };
    let percent = |row_id, active| PercentRewardRow {
        row_id,
        group: 5,
        percent: 10,
        reward_type: 1,
        reward_id: 1,
        quantity: zero,
        active,
    };
    let shop = |id, sell_value| ShopRow {
        id,
        product_type: 0,
        reward_group: 0,
        sell_type: 0,
        sell_value,
        active: true,
        condition: 0,
        condition_value: 0,
    };
    let step = |id, step| PassRewardRow {
        id,
        group: 2,
        step,
        goal: 0,
        free_reward_group: 0,
        paid_reward_group: 0,
    };
    let catalog = MasterCatalog {
        reward_groups: vec![reward(1, 7), reward(2, 8), reward(3, 7)],
        percent_rewards: vec![percent(1, false), percent(2, true)],
        shops: vec![shop(4, 10), shop(4, 20)],
        pass_rewards: vec![step(1, 1), step(2, 2)],
        ..MasterCatalog::default()
    };
    let ids: Vec<_> = catalog.rewards(7).iter().map(|row| row.row_id).collect();
    assert_eq!(ids, [1, 3]);
    let ids: Vec<_> = catalog.percent_rewards(5).iter().map(|row| row.row_id).collect();
    assert_eq!(ids, [2]);
    assert_eq!(catalog.shop(4).unwrap().sell_value, 10);
    assert!(catalog.shop(5).is_none());
    assert_eq!(catalog.pass_reward(2, 2).unwrap().id, 2);
    assert!(catalog.pass_reward(3, 2).is_none());
}

#[test]
fn capabilities_are_given_or_made_of_random_bytes() {
    assert_eq!(choose_capability(Some("AB".to_owned()), &[1]), "AB");
    assert_eq!(choose_capability(None, &[0x00, 0x9a, 0xf1]), "009af1");
    let made = choose_capability(None, &[0xc3; 32]);
    assert_eq!(read_capability(&made), Some(made));
}
