//! The admin commands.

use pgdog_quota::admin::{
    resolve_quota_database, ColumnType, Error, ResetQuota, SetQuota, ShowQuotas,
};
use pgdog_quota::config::{ConfigAndUsers, Database, General, Role};
use pgdog_quota::quota::{
    is_over_quota, quota_override, quota_status, Overrides, QuotaState, QuotaStatus,
};
use pgdog_quota::text::ParseIntError;

fn make_db(name: &str, max_db_size: Option<u64>) -> Database {
    Database {
        name: name.to_string(),
        host: "127.0.0.1".to_string(),
        port: 5432,
        role: Role::Primary,
        database_name: None,
        user: None,
        password: None,
        max_db_size,
    }
}

fn make_config(databases: Vec<Database>) -> ConfigAndUsers {
    ConfigAndUsers {
        general: General::default(),
        databases,
        users: vec![],
    }
}

fn make_state(list: Vec<(&str, u64, u64, bool)>) -> QuotaState {
    let mut state = QuotaState::new();
    for (name, current_size, max_size, over_limit) in list {
        state.insert(
            name.to_string(),
            QuotaStatus {
                database: name.to_string(),
                current_size,
                max_size,
                over_limit,
            },
        );
    }
    state
}

// ── Reading ──────────────────────────────────────────────────────────

#[test]
fn parses_set_quota() {
    let cmd = SetQuota::parse("set quota tenant_a 2147483648").unwrap();
    assert_eq!(cmd.database, "tenant_a");
    assert_eq!(cmd.max_size, 2_147_483_648);
}

#[test]
fn parses_set_quota_zero() {
    // Zero is a legitimate lockdown value — every size > 0 is over.
    let cmd = SetQuota::parse("set quota tenant_a 0").unwrap();
    assert_eq!(cmd.max_size, 0);
}

#[test]
fn parses_reset_quota() {
    let cmd = ResetQuota::parse("reset quota tenant_a").unwrap();
    assert_eq!(cmd.database, "tenant_a");
}

#[test]
fn set_quota_rejects_missing_value() {
    assert!(matches!(
        SetQuota::parse("set quota tenant_a"),
        Err(Error::Syntax)
    ));
}

#[test]
fn set_quota_rejects_extra_tokens() {
    assert!(matches!(
        SetQuota::parse("set quota tenant_a 100 200"),
        Err(Error::Syntax)
    ));
}

#[test]
fn set_quota_rejects_non_numeric_bytes() {
    assert!(matches!(
        SetQuota::parse("set quota tenant_a notanumber"),
        Err(Error::ParseInt(_))
    ));
}

#[test]
fn set_quota_rejects_negative_bytes() {
    // u64 parse rejects leading '-'; ensures no silent wrap.
    assert!(matches!(
        SetQuota::parse("set quota tenant_a -1"),
        Err(Error::ParseInt(_))
    ));
}

#[test]
fn reset_quota_rejects_missing_database() {
    assert!(matches!(
        ResetQuota::parse("reset quota"),
        Err(Error::Syntax)
    ));
}

#[test]
fn reset_quota_rejects_extra_tokens() {
    assert!(matches!(
        ResetQuota::parse("reset quota tenant_a extra"),
        Err(Error::Syntax)
    ));
}

#[test]
fn any_white_space_separates() {
    let cmd = SetQuota::parse(" \tset\u{a0}quota\n\n tenant_a\u{3000}+42 ").unwrap();
    assert_eq!(cmd.database, "tenant_a");
    assert_eq!(cmd.max_size, 42);
}

#[test]
fn keywords_are_exact() {
    assert!(matches!(SetQuota::parse(""), Err(Error::Syntax)));
    assert!(matches!(SetQuota::parse("SET QUOTA db 1"), Err(Error::Syntax)));
    assert!(matches!(SetQuota::parse("set quotas db 1"), Err(Error::Syntax)));
    assert!(matches!(SetQuota::parse("reset quota db 1"), Err(Error::Syntax)));
    assert!(matches!(ResetQuota::parse("set quota db"), Err(Error::Syntax)));
    assert!(matches!(ResetQuota::parse("reset quotas db"), Err(Error::Syntax)));
}

#[test]
fn number_faults_are_told_apart() {
    assert!(matches!(
        SetQuota::parse("set quota db 18446744073709551616"),
        Err(Error::ParseInt(ParseIntError::PosOverflow))
    ));
    assert!(matches!(
        SetQuota::parse("set quota db 12x"),
        Err(Error::ParseInt(ParseIntError::InvalidDigit))
    ));
    assert_eq!(
        SetQuota::parse("set quota db 18446744073709551615").unwrap().max_size,
        u64::MAX
    );
}

#[test]
fn what_is_written_is_read() {
    for bytes in [0, 9, 10, 1_073_741_824, u64::MAX] {
        let cmd = SetQuota::parse(&format!("set quota Tenant-A {}", bytes)).unwrap();
        assert_eq!(cmd.database, "Tenant-A");
        assert_eq!(cmd.max_size, bytes);
    }
}

#[test]
fn commands_have_names() {
    let set = SetQuota { database: "db".to_string(), max_size: 1 };
    let reset = ResetQuota { database: "db".to_string() };
    let show = ShowQuotas::parse("show quotas").unwrap();
    assert_eq!(set.name(), "SET QUOTA");
    assert_eq!(reset.name(), "RESET QUOTA");
    assert_eq!(show.name(), "SHOW QUOTAS");
}

// ── Databases by name ────────────────────────────────────────────────

#[test]
fn name_is_found_in_any_case() {
    let cfg = make_config(vec![make_db("Tenant_A", Some(1)), make_db("other", Some(1))]);
    assert_eq!(resolve_quota_database(&cfg, "tenant_a").unwrap(), "Tenant_A");
    assert_eq!(resolve_quota_database(&cfg, "TENANT_A").unwrap(), "Tenant_A");
}

#[test]
fn several_servers_of_one_name_are_one_database() {
    // The first server opts out, the second has a limit: the database is polled.
    let cfg = make_config(vec![make_db("db", Some(0)), make_db("db", Some(5))]);
    assert_eq!(resolve_quota_database(&cfg, "db").unwrap(), "db");
}

#[test]
fn unknown_database_is_refused() {
    let cfg = make_config(vec![make_db("db", Some(1))]);
    match resolve_quota_database(&cfg, "nobody") {
        Err(Error::UnknownDatabase(name)) => assert_eq!(name, "nobody"),
        _ => panic!("expected an unknown database"),
    }
}

#[test]
fn database_without_a_limit_is_refused() {
    let mut cfg = make_config(vec![make_db("Plain", None), make_db("Off", Some(0))]);
    match resolve_quota_database(&cfg, "plain") {
        Err(Error::QuotaNotConfigured(name)) => assert_eq!(name, "Plain"),
        _ => panic!("expected no configured quota"),
    }
    // A general limit covers the databases that set none, not those that opt out.
    cfg.general.default_max_db_size = Some(10);
    assert_eq!(resolve_quota_database(&cfg, "plain").unwrap(), "Plain");
    match resolve_quota_database(&cfg, "off") {
        Err(Error::QuotaNotConfigured(name)) => assert_eq!(name, "Off"),
        _ => panic!("expected no configured quota"),
    }
    cfg.general.default_max_db_size = Some(0);
    assert!(matches!(
        resolve_quota_database(&cfg, "plain"),
        Err(Error::QuotaNotConfigured(_))
    ));
}

#[test]
fn names_that_differ_in_case_are_ambiguous() {
    let cfg = make_config(vec![
        make_db("DB", Some(1)),
        make_db("db", Some(1)),
        make_db("DB", Some(1)),
        make_db("Db", None),
    ]);
    match resolve_quota_database(&cfg, "dB") {
        Err(Error::AmbiguousDatabase(name, names)) => {
            assert_eq!(name, "dB");
            assert_eq!(names, "DB, db, Db");
        }
        _ => panic!("expected an ambiguous name"),
    }
}

#[test]
fn only_ascii_letters_are_folded() {
    let cfg = make_config(vec![make_db("\u{c4}", Some(1)), make_db("[", Some(1))]);
    assert!(matches!(
        resolve_quota_database(&cfg, "\u{e4}"),
        Err(Error::UnknownDatabase(_))
    ));
    assert!(matches!(
        resolve_quota_database(&cfg, "{"),
        Err(Error::UnknownDatabase(_))
    ));
}

// ── Execution ────────────────────────────────────────────────────────

#[test]
fn set_and_reset_take_effect_at_once() {
    let cfg = make_config(vec![make_db("Tenant_A", Some(1_000))]);
    let mut state = make_state(vec![("Tenant_A", 1_500, 1_000, true)]);
    let mut overrides = Overrides::new();

    let set = SetQuota::parse("set quota tenant_a 2000").unwrap();
    assert!(set.execute(&cfg, &mut overrides, &mut state).is_ok());
    assert_eq!(quota_override(&overrides, "Tenant_A"), Some(2_000));
    assert!(!is_over_quota(&state, "Tenant_A"));

    let reset = ResetQuota::parse("reset quota tenant_a").unwrap();
    assert!(reset.execute(&cfg, &mut overrides, &mut state).is_ok());
    assert_eq!(quota_override(&overrides, "Tenant_A"), None);
    assert!(is_over_quota(&state, "Tenant_A"));
    assert_eq!(quota_status(&state, "Tenant_A").unwrap().max_size, 1_000);
}

#[test]
fn refused_commands_change_nothing() {
    let cfg = make_config(vec![make_db("db", None)]);
    let mut state = make_state(vec![("db", 5, 10, false)]);
    let mut overrides = Overrides::new();
    overrides.insert("db".to_string(), 10);

    let set = SetQuota { database: "db".to_string(), max_size: 1 };
    assert!(matches!(
        set.execute(&cfg, &mut overrides, &mut state),
        Err(Error::QuotaNotConfigured(_))
    ));
    let reset = ResetQuota { database: "nobody".to_string() };
    assert!(matches!(
        reset.execute(&cfg, &mut overrides, &mut state),
        Err(Error::UnknownDatabase(_))
    ));
    assert_eq!(quota_override(&overrides, "db"), Some(10));
    assert_eq!(quota_status(&state, "db").unwrap().max_size, 10);
}

#[test]
fn show_lists_databases_in_order() {
    let state = make_state(vec![
        ("zoe", 1, 2, false),
        ("Zoe", u64::MAX, u64::MAX, true),
        ("alice", u64::MAX - 1, 5, true),
        ("ali", i64::MAX as u64, i64::MAX as u64 + 1, false),
    ]);
    let shown = ShowQuotas.execute(&state);

    let columns: Vec<(&str, ColumnType)> =
        shown.columns.iter().map(|c| (c.name, c.column_type)).collect();
    assert_eq!(
        columns,
        vec![
            ("database", ColumnType::Text),
            ("current_size", ColumnType::Bigint),
            ("max_size", ColumnType::Bigint),
            ("over_limit", ColumnType::Bool),
        ]
    );

    let rows: Vec<(&str, i64, i64, bool)> = shown
        .rows
        .iter()
        .map(|r| (r.database.as_str(), r.current_size, r.max_size, r.over_limit))
        .collect();
    assert_eq!(
        rows,
        vec![
            // Not measured yet; a limit too large for the column shows as the largest.
            ("Zoe", -1, i64::MAX, true),
            ("ali", i64::MAX, i64::MAX, false),
            ("alice", i64::MAX, 5, true),
            ("zoe", 1, 2, false),
        ]
    );
}

#[test]
fn show_of_nothing_has_columns_only() {
    let shown = ShowQuotas.execute(&QuotaState::new());
    assert_eq!(shown.columns.len(), 4);
    assert!(shown.rows.is_empty());
}
