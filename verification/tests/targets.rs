//! Configuration and the choice of databases to poll.

use pgdog_quota::config::{effective_limit, ConfigAndUsers, Database, General, Role, User};
use pgdog_quota::targets::collect_targets;

fn make_config_with_databases(databases: Vec<Database>, users: Vec<User>) -> ConfigAndUsers {
    ConfigAndUsers {
        general: General::default(),
        databases,
        users,
    }
}

fn make_db_with_role(name: &str, host: &str, role: Role, max_db_size: Option<u64>) -> Database {
    Database {
        name: name.to_string(),
        host: host.to_string(),
        port: 5432,
        role,
        database_name: None,
        user: None,
        password: None,
        max_db_size,
    }
}

fn make_db(name: &str, host: &str, max_db_size: Option<u64>) -> Database {
    make_db_with_role(name, host, Role::Primary, max_db_size)
}

fn make_user(name: &str, password: &str) -> User {
    User {
        name: name.to_string(),
        database: String::new(),
        password: Some(password.to_string()),
    }
}

// ── Configuration ────────────────────────────────────────────────────

#[test]
fn test_config_quota_poll_interval_default() {
    let general = General::default();
    assert_eq!(general.quota_poll_interval, 60_000);
}

#[test]
fn test_config_default_max_db_size_optional() {
    let general = General::default();
    assert_eq!(general.default_max_db_size, None);
}

#[test]
fn own_limit_goes_before_the_general_one() {
    assert_eq!(effective_limit(Some(5), Some(9)), Some(5));
    assert_eq!(effective_limit(Some(0), Some(9)), None);
    assert_eq!(effective_limit(None, Some(9)), Some(9));
    assert_eq!(effective_limit(None, Some(0)), None);
    assert_eq!(effective_limit(None, None), None);
    assert_eq!(effective_limit(Some(5), None), Some(5));
}

// ── collect_targets ──────────────────────────────────────────────────

#[test]
fn test_collect_targets_basic() {
    let cfg = make_config_with_databases(
        vec![make_db("tenant1", "pg1.example.com", Some(1_000_000_000))],
        vec![make_user("app", "secret")],
    );
    let targets = collect_targets(&cfg);
    assert_eq!(targets.len(), 1);
    assert_eq!(targets[0].pool_name, "tenant1");
    assert_eq!(targets[0].host, "pg1.example.com");
    assert_eq!(targets[0].max_size, 1_000_000_000);
    assert_eq!(targets[0].user, "app");
    assert_eq!(targets[0].password, "secret");
    assert_eq!(targets[0].port, 5432);
}

#[test]
fn test_collect_targets_skips_no_quota() {
    let cfg = make_config_with_databases(
        vec![
            make_db("with_quota", "pg1", Some(1_000_000)),
            make_db("no_quota", "pg2", None),
        ],
        vec![make_user("app", "pw")],
    );
    let targets = collect_targets(&cfg);
    assert_eq!(targets.len(), 1);
    assert_eq!(targets[0].pool_name, "with_quota");
}

#[test]
fn test_collect_targets_skips_zero_quota() {
    let cfg = make_config_with_databases(
        vec![make_db("zero", "pg1", Some(0))],
        vec![make_user("app", "pw")],
    );
    let targets = collect_targets(&cfg);
    assert!(targets.is_empty(), "zero max_db_size should be skipped");
}

#[test]
fn test_collect_targets_prefers_primary() {
    let cfg = make_config_with_databases(
        vec![
            make_db_with_role("mydb", "replica1", Role::Replica, Some(1_000_000)),
            make_db_with_role("mydb", "primary1", Role::Primary, Some(1_000_000)),
        ],
        vec![make_user("app", "pw")],
    );
    let targets = collect_targets(&cfg);
    assert_eq!(targets.len(), 1);
    assert_eq!(targets[0].host, "primary1");
}

#[test]
fn test_collect_targets_database_name_fallback() {
    let mut db = make_db("pool_name", "pg1", Some(1_000_000));
    db.database_name = Some("actual_pg_db".to_string());
    let cfg = make_config_with_databases(vec![db], vec![make_user("app", "pw")]);
    let targets = collect_targets(&cfg);
    assert_eq!(targets[0].pool_name, "pool_name");
    assert_eq!(targets[0].pg_database_name, "actual_pg_db");
}

#[test]
fn test_collect_targets_database_name_defaults_to_pool_name() {
    let cfg = make_config_with_databases(
        vec![make_db("mypool", "pg1", Some(1_000_000))],
        vec![make_user("app", "pw")],
    );
    let targets = collect_targets(&cfg);
    assert_eq!(targets[0].pg_database_name, "mypool");
}

#[test]
fn test_collect_targets_user_from_database_config() {
    let mut db = make_db("mydb", "pg1", Some(1_000_000));
    db.user = Some("monitor_user".to_string());
    db.password = Some("monitor_pw".to_string());
    let cfg = make_config_with_databases(vec![db], vec![make_user("app", "app_pw")]);
    let targets = collect_targets(&cfg);
    assert_eq!(targets[0].user, "monitor_user");
    assert_eq!(targets[0].password, "monitor_pw");
}

#[test]
fn test_collect_targets_sorted_user_fallback() {
    // With no db.user, collect_targets picks the first user alphabetically.
    let cfg = make_config_with_databases(
        vec![make_db("mydb", "pg1", Some(1_000_000))],
        vec![make_user("zoe", "zoe_pw"), make_user("alice", "alice_pw")],
    );
    let targets = collect_targets(&cfg);
    assert_eq!(targets[0].user, "alice"); // sorted, deterministic
    assert_eq!(targets[0].password, "alice_pw");
}

#[test]
fn test_collect_targets_uses_general_default_when_db_unset() {
    // db has no max_db_size; general.default_max_db_size kicks in.
    let mut cfg = make_config_with_databases(
        vec![make_db("inherits", "pg1", None)],
        vec![make_user("app", "pw")],
    );
    cfg.general.default_max_db_size = Some(2_000_000);
    let targets = collect_targets(&cfg);
    assert_eq!(targets.len(), 1);
    assert_eq!(targets[0].pool_name, "inherits");
    assert_eq!(targets[0].max_size, 2_000_000);
}

#[test]
fn test_collect_targets_per_db_overrides_general_default() {
    // Per-db value wins over the global default.
    let mut cfg = make_config_with_databases(
        vec![make_db("explicit", "pg1", Some(500))],
        vec![make_user("app", "pw")],
    );
    cfg.general.default_max_db_size = Some(9_999_999);
    let targets = collect_targets(&cfg);
    assert_eq!(targets.len(), 1);
    assert_eq!(targets[0].max_size, 500);
}

#[test]
fn test_collect_targets_per_db_zero_disables_even_with_general_default() {
    // Some(0) at the db level explicitly disables enforcement, regardless
    // of any general default. This lets operators carve out exemptions.
    let mut cfg = make_config_with_databases(
        vec![
            make_db("opt_out", "pg1", Some(0)),
            make_db("inherits", "pg2", None),
        ],
        vec![make_user("app", "pw")],
    );
    cfg.general.default_max_db_size = Some(1_000_000);
    let targets = collect_targets(&cfg);
    assert_eq!(targets.len(), 1);
    assert_eq!(targets[0].pool_name, "inherits");
    assert_eq!(targets[0].max_size, 1_000_000);
}

#[test]
fn test_collect_targets_general_default_zero_is_disabled() {
    // Explicit zero on the general default behaves like None.
    let mut cfg = make_config_with_databases(
        vec![make_db("orphan", "pg1", None)],
        vec![make_user("app", "pw")],
    );
    cfg.general.default_max_db_size = Some(0);
    let targets = collect_targets(&cfg);
    assert!(targets.is_empty());
}

#[test]
fn test_collect_targets_multiple_databases() {
    let cfg = make_config_with_databases(
        vec![
            make_db("t1", "pg1", Some(100)),
            make_db("t2", "pg2", Some(200)),
            make_db("t3", "pg3", Some(300)),
        ],
        vec![make_user("app", "pw")],
    );
    let targets = collect_targets(&cfg);
    assert_eq!(targets.len(), 3);
    let names: Vec<&str> = targets.iter().map(|t| t.pool_name.as_str()).collect();
    assert!(names.contains(&"t1"));
    assert!(names.contains(&"t2"));
    assert!(names.contains(&"t3"));
}

#[test]
fn last_primary_is_polled_in_its_own_place() {
    let cfg = make_config_with_databases(
        vec![
            make_db_with_role("a", "a-replica", Role::Replica, Some(1)),
            make_db_with_role("b", "b-first", Role::Primary, Some(2)),
            make_db_with_role("a", "a-first", Role::Primary, Some(3)),
            make_db_with_role("a", "a-second", Role::Primary, Some(4)),
            make_db_with_role("a", "a-late-replica", Role::Replica, Some(5)),
            make_db_with_role("c", "c-replica-1", Role::Replica, Some(6)),
            make_db_with_role("c", "c-replica-2", Role::Replica, Some(7)),
        ],
        vec![],
    );
    let targets = collect_targets(&cfg);
    let hosts: Vec<&str> = targets.iter().map(|t| t.host.as_str()).collect();
    assert_eq!(hosts, vec!["b-first", "a-second", "c-replica-1"]);
    let limits: Vec<u64> = targets.iter().map(|t| t.max_size).collect();
    assert_eq!(limits, vec![2, 4, 6]);
}

#[test]
fn primary_without_a_limit_does_not_stand_in() {
    let cfg = make_config_with_databases(
        vec![
            make_db_with_role("a", "replica", Role::Replica, Some(1)),
            make_db_with_role("a", "primary", Role::Primary, None),
        ],
        vec![],
    );
    let targets = collect_targets(&cfg);
    assert_eq!(targets.len(), 1);
    assert_eq!(targets[0].host, "replica");
}

#[test]
fn credentials_fall_back_one_by_one() {
    // No users at all.
    let cfg = make_config_with_databases(vec![make_db("db", "pg1", Some(1))], vec![]);
    let targets = collect_targets(&cfg);
    assert_eq!(targets[0].user, "postgres");
    assert_eq!(targets[0].password, "");

    // The user of the database is looked up, the last entry of a name counts.
    let mut db = make_db("db", "pg1", Some(1));
    db.user = Some("bob".to_string());
    let cfg = make_config_with_databases(
        vec![db],
        vec![
            make_user("bob", "old"),
            make_user("alice", "a"),
            make_user("bob", "new"),
        ],
    );
    let targets = collect_targets(&cfg);
    assert_eq!(targets[0].user, "bob");
    assert_eq!(targets[0].password, "new");

    // A user without a password has the empty one.
    let mut db = make_db("db", "pg1", Some(1));
    db.user = Some("carol".to_string());
    let carol = User {
        name: "carol".to_string(),
        database: String::new(),
        password: None,
    };
    let cfg = make_config_with_databases(vec![db], vec![carol, make_user("bob", "b")]);
    assert_eq!(collect_targets(&cfg)[0].password, "");
}
