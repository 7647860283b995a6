//! Statuses and limits set at run time.

use pgdog_quota::config::{ConfigAndUsers, Database, General, Role, User};
use pgdog_quota::quota::{
    all_quota_statuses, apply_limit, clear_quota_override, is_over_quota, quota_override,
    quota_status, set_quota_override, Overrides, QuotaState, QuotaStatus,
};

fn status(name: &str, current_size: u64, max_size: u64, over_limit: bool) -> QuotaStatus {
    QuotaStatus {
        database: name.to_string(),
        current_size,
        max_size,
        over_limit,
    }
}

fn state_of(list: Vec<QuotaStatus>) -> QuotaState {
    let mut state = QuotaState::new();
    for status in list {
        state.insert(status.database.clone(), status);
    }
    state
}

fn make_config_with_databases(databases: Vec<Database>, users: Vec<User>) -> ConfigAndUsers {
    ConfigAndUsers {
        general: General::default(),
        databases,
        users,
    }
}

fn no_config() -> ConfigAndUsers {
    make_config_with_databases(vec![], vec![])
}

fn make_db(name: &str, host: &str, max_db_size: Option<u64>) -> Database {
    Database {
        name: name.to_string(),
        host: host.to_string(),
        port: 5432,
        role: Role::Primary,
        database_name: None,
        user: None,
        password: None,
        max_db_size,
    }
}

// ── Basic state management ───────────────────────────────────────────

#[test]
fn test_is_over_quota_unknown_db() {
    let state = QuotaState::new();
    assert!(!is_over_quota(&state, "nonexistent_db"));
}

#[test]
fn test_quota_status_returns_none_for_unknown() {
    let state = QuotaState::new();
    assert!(quota_status(&state, "nonexistent_db").is_none());
}

#[test]
fn test_quota_status_under_limit() {
    let state = state_of(vec![status("test_db", 500_000, 1_000_000, false)]);

    let status = quota_status(&state, "test_db").unwrap();
    assert_eq!(status.current_size, 500_000);
    assert_eq!(status.max_size, 1_000_000);
    assert!(!status.over_limit);
    assert!(!is_over_quota(&state, "test_db"));
}

#[test]
fn test_over_quota_detection() {
    let state = state_of(vec![status("big_db", 2_000_000, 1_000_000, true)]);

    assert!(is_over_quota(&state, "big_db"));
    assert!(!is_over_quota(&state, "other_db"));
}

#[test]
fn test_all_quota_statuses_values() {
    let state = state_of(vec![
        status("db1", 100, 200, false),
        status("db2", 300, 200, true),
    ]);

    let statuses = all_quota_statuses(&state);
    assert_eq!(statuses.len(), 2);

    let db1 = statuses.iter().find(|s| s.database == "db1").unwrap();
    assert_eq!(db1.current_size, 100);
    assert_eq!(db1.max_size, 200);
    assert!(!db1.over_limit);

    let db2 = statuses.iter().find(|s| s.database == "db2").unwrap();
    assert_eq!(db2.current_size, 300);
    assert!(db2.over_limit);
}

// ── Multi-tenant isolation ───────────────────────────────────────────

#[test]
fn test_multi_tenant_one_over_one_under() {
    let state = state_of(vec![
        status("tenant_a", 2_000_000, 1_000_000, true),
        status("tenant_b", 100_000, 1_000_000, false),
    ]);

    // tenant_a is blocked, tenant_b is not.
    assert!(is_over_quota(&state, "tenant_a"));
    assert!(!is_over_quota(&state, "tenant_b"));
}

#[test]
fn setting_one_limit_leaves_other_tenants_alone() {
    let config = make_config_with_databases(
        vec![
            make_db("tenant_a", "pg1", Some(1_000)),
            make_db("tenant_b", "pg1", Some(2_000)),
        ],
        vec![],
    );
    let mut state = state_of(vec![
        status("tenant_a", 900, 1_000, false),
        status("tenant_b", 1_900, 2_000, false),
    ]);
    let mut overrides = Overrides::new();

    set_quota_override(&mut overrides, &mut state, "tenant_a", 10);
    assert!(is_over_quota(&state, "tenant_a"));
    assert!(!is_over_quota(&state, "tenant_b"));
    assert_eq!(quota_status(&state, "tenant_b").unwrap().max_size, 2_000);
    assert_eq!(quota_override(&overrides, "tenant_b"), None);

    clear_quota_override(&mut overrides, &mut state, &config, "tenant_a");
    assert_eq!(quota_status(&state, "tenant_b").unwrap().max_size, 2_000);
    assert_eq!(quota_status(&state, "tenant_b").unwrap().current_size, 1_900);
}

// ── Override management ──────────────────────────────────────────────

#[test]
fn test_quota_override_persists() {
    let mut state = state_of(vec![status("resize_db", 800_000, 500_000, true)]);
    let mut overrides = Overrides::new();

    assert!(is_over_quota(&state, "resize_db"));

    set_quota_override(&mut overrides, &mut state, "resize_db", 1_000_000);

    assert!(!is_over_quota(&state, "resize_db"));
    let status = quota_status(&state, "resize_db").unwrap();
    assert_eq!(status.max_size, 1_000_000);
    assert!(!status.over_limit);

    assert_eq!(overrides.get("resize_db").copied(), Some(1_000_000u64));

    clear_quota_override(&mut overrides, &mut state, &no_config(), "resize_db");
    assert!(overrides.get("resize_db").is_none());
}

#[test]
fn test_clear_override_snaps_state_back_to_config() {
    // When config has a max_db_size for the database, clear_quota_override
    // must update the state in place so SHOW QUOTAS sees the revert
    // immediately (symmetric with set_quota_override).
    let db = make_db("clear_revert_db", "127.0.0.1", Some(500_000));
    let user = User {
        name: "alice".into(),
        database: "clear_revert_db".into(),
        password: Some("secret".into()),
    };
    let cfg = make_config_with_databases(vec![db], vec![user]);

    let mut state = state_of(vec![status("clear_revert_db", 300_000, 500_000, false)]);
    let mut overrides = Overrides::new();

    // Override lowers the limit below current size.
    set_quota_override(&mut overrides, &mut state, "clear_revert_db", 100_000);
    let after_set = quota_status(&state, "clear_revert_db").unwrap();
    assert_eq!(after_set.max_size, 100_000);
    assert!(after_set.over_limit);

    // Clearing must snap back to the config value immediately.
    clear_quota_override(&mut overrides, &mut state, &cfg, "clear_revert_db");
    let after_clear = quota_status(&state, "clear_revert_db").unwrap();
    assert_eq!(after_clear.max_size, 500_000);
    assert!(!after_clear.over_limit);
    assert!(overrides.get("clear_revert_db").is_none());
}

#[test]
fn test_clear_override_no_config_is_noop_on_state() {
    // If no config entry matches (or no max_db_size), clearing should
    // just drop the override: there is no config value to revert to.
    let mut state = QuotaState::new();
    let mut overrides = Overrides::new();
    set_quota_override(&mut overrides, &mut state, "no_config_db", 777);
    clear_quota_override(&mut overrides, &mut state, &no_config(), "no_config_db");
    assert!(overrides.get("no_config_db").is_none());
}

#[test]
fn clearing_without_a_configured_limit_keeps_the_status() {
    let mut state = state_of(vec![status("db", 50, 100, false)]);
    let mut overrides = Overrides::new();
    let cfg = make_config_with_databases(
        vec![make_db("other", "pg1", Some(7)), make_db("db", "pg1", None)],
        vec![],
    );
    set_quota_override(&mut overrides, &mut state, "db", 10);
    clear_quota_override(&mut overrides, &mut state, &cfg, "db");
    assert_eq!(quota_override(&overrides, "db"), None);
    let after = quota_status(&state, "db").unwrap();
    assert_eq!(after.max_size, 10);
    assert!(after.over_limit);

    // A general limit of zero is none either.
    let mut zero = make_config_with_databases(vec![make_db("db", "pg1", None)], vec![]);
    zero.general.default_max_db_size = Some(0);
    clear_quota_override(&mut overrides, &mut state, &zero, "db");
    assert_eq!(quota_status(&state, "db").unwrap().max_size, 10);
}

#[test]
fn clearing_goes_back_to_an_own_limit_of_zero() {
    let mut state = state_of(vec![status("db", 50, 100, false)]);
    let mut overrides = Overrides::new();
    let mut off = make_config_with_databases(vec![make_db("db", "pg1", Some(0))], vec![]);
    off.general.default_max_db_size = Some(500);
    clear_quota_override(&mut overrides, &mut state, &off, "db");
    let after = quota_status(&state, "db").unwrap();
    assert_eq!(after.max_size, 0);
    assert!(after.over_limit);
}

#[test]
fn clearing_goes_back_to_the_limit_that_is_polled() {
    let mut state = state_of(vec![status("db", 50, 100, false)]);
    let mut overrides = Overrides::new();

    // The last primary is polled.
    let cfg = make_config_with_databases(
        vec![
            make_db("db2", "pg0", Some(5)),
            make_db("db", "pg1", Some(40)),
            make_db("db", "pg2", Some(60)),
        ],
        vec![],
    );
    clear_quota_override(&mut overrides, &mut state, &cfg, "db");
    assert_eq!(quota_status(&state, "db").unwrap().max_size, 60);
    assert!(!is_over_quota(&state, "db"));

    // A replica that opts out, or sets no limit, does not count.
    for first in [Some(0), None, Some(100)] {
        let mut replica = make_db("db", "pg1", first);
        replica.role = Role::Replica;
        let cfg = make_config_with_databases(
            vec![replica, make_db("db", "pg2", Some(500))],
            vec![],
        );
        set_quota_override(&mut overrides, &mut state, "db", 10);
        clear_quota_override(&mut overrides, &mut state, &cfg, "db");
        assert_eq!(quota_status(&state, "db").unwrap().max_size, 500);
        assert!(!is_over_quota(&state, "db"));
    }
}

#[test]
fn test_quota_override_getter() {
    // Public `quota_override` reads what was inserted and returns
    // None after clear.
    let mut state = QuotaState::new();
    let mut overrides = Overrides::new();
    assert_eq!(quota_override(&overrides, "getter_db"), None);
    set_quota_override(&mut overrides, &mut state, "getter_db", 123);
    assert_eq!(quota_override(&overrides, "getter_db"), Some(123));
    clear_quota_override(&mut overrides, &mut state, &no_config(), "getter_db");
    assert_eq!(quota_override(&overrides, "getter_db"), None);
}

#[test]
fn test_override_for_unknown_db_stores_but_doesnt_crash() {
    let mut state = QuotaState::new();
    let mut overrides = Overrides::new();
    set_quota_override(&mut overrides, &mut state, "phantom_db", 999);
    assert_eq!(overrides.get("phantom_db").copied(), Some(999u64));
    assert!(quota_status(&state, "phantom_db").is_none());
    clear_quota_override(&mut overrides, &mut state, &no_config(), "phantom_db");
}

#[test]
fn test_override_reduces_limit_triggers_over_quota() {
    let mut state = state_of(vec![status("shrink_limit_db", 500_000, 1_000_000, false)]);
    let mut overrides = Overrides::new();

    assert!(!is_over_quota(&state, "shrink_limit_db"));
    set_quota_override(&mut overrides, &mut state, "shrink_limit_db", 100_000);
    assert!(is_over_quota(&state, "shrink_limit_db"));
}

#[test]
fn test_clear_override_snaps_to_general_default() {
    // db has no per-db limit but inherits the general default; after
    // clearing a runtime override, max_size should revert to the default.
    let db = make_db("inheriting_db", "127.0.0.1", None);
    let user = User {
        name: "alice".into(),
        database: "inheriting_db".into(),
        password: Some("secret".into()),
    };
    let mut cfg = make_config_with_databases(vec![db], vec![user]);
    cfg.general.default_max_db_size = Some(750_000);

    let mut state = state_of(vec![status("inheriting_db", 400_000, 750_000, false)]);
    let mut overrides = Overrides::new();

    set_quota_override(&mut overrides, &mut state, "inheriting_db", 100_000);
    assert_eq!(quota_status(&state, "inheriting_db").unwrap().max_size, 100_000);

    clear_quota_override(&mut overrides, &mut state, &cfg, "inheriting_db");
    let after = quota_status(&state, "inheriting_db").unwrap();
    assert_eq!(after.max_size, 750_000);
    assert!(!after.over_limit);
}

#[test]
fn clearing_undoes_setting() {
    let cfg = make_config_with_databases(vec![make_db("db", "pg1", Some(100))], vec![]);
    let mut state = state_of(vec![status("db", 60, 100, false)]);
    let mut overrides = Overrides::new();
    set_quota_override(&mut overrides, &mut state, "db", 5);
    clear_quota_override(&mut overrides, &mut state, &cfg, "db");
    let after = quota_status(&state, "db").unwrap();
    assert_eq!(after.database, "db");
    assert_eq!(after.current_size, 60);
    assert_eq!(after.max_size, 100);
    assert!(!after.over_limit);
    assert_eq!(overrides.len(), 0);
}

#[test]
fn zero_limit_locks_any_size_above_zero() {
    let mut state = state_of(vec![status("db", 1, 100, false), status("empty", 0, 100, false)]);
    let mut overrides = Overrides::new();
    set_quota_override(&mut overrides, &mut state, "db", 0);
    set_quota_override(&mut overrides, &mut state, "empty", 0);
    assert!(is_over_quota(&state, "db"));
    assert!(!is_over_quota(&state, "empty"));
}

// ── Fail-closed behavior ─────────────────────────────────────────────

#[test]
fn test_fail_closed_pre_seed() {
    let state = state_of(vec![status("new_tenant", u64::MAX, 1_000_000, true)]);

    assert!(is_over_quota(&state, "new_tenant"));
    let status = quota_status(&state, "new_tenant").unwrap();
    assert_eq!(status.current_size, u64::MAX);
    assert!(status.over_limit);
}

#[test]
fn test_fail_closed_unblocks_after_successful_poll() {
    let state = state_of(vec![status("tenant_a", u64::MAX, 1_000_000, true)]);
    assert!(is_over_quota(&state, "tenant_a"));

    // Simulate successful poll.
    let new_state = state_of(vec![status("tenant_a", 500_000, 1_000_000, false)]);

    assert!(!is_over_quota(&new_state, "tenant_a"));
}

// ── Boundary conditions ──────────────────────────────────────────────

#[test]
fn test_exactly_at_limit_is_not_over() {
    let state = state_of(vec![status("exact_db", 1_000_000, 1_000_000, false)]);
    assert!(!is_over_quota(&state, "exact_db"));
}

#[test]
fn test_one_byte_over_is_over() {
    let state = state_of(vec![status("one_over", 1_000_001, 1_000_000, true)]);
    assert!(is_over_quota(&state, "one_over"));
}

#[test]
fn limit_itself_is_allowed_and_one_byte_more_is_not() {
    let mut state = state_of(vec![status("db", 1_000, 5_000, false)]);
    apply_limit(&mut state, "db", 1_000);
    assert!(!is_over_quota(&state, "db"));
    apply_limit(&mut state, "db", 999);
    assert!(is_over_quota(&state, "db"));
    apply_limit(&mut state, "nobody", 1);
    assert_eq!(state.len(), 1);
}

// ── Maps by name ─────────────────────────────────────────────────────

#[test]
fn names_keep_their_order() {
    let mut overrides = Overrides::new();
    overrides.insert("b".to_string(), 1);
    overrides.insert("a".to_string(), 2);
    overrides.insert("c".to_string(), 3);
    overrides.insert("b".to_string(), 4);
    assert_eq!(overrides.len(), 3);
    assert_eq!(overrides.entry(0), (&"b".to_string(), &4));
    assert_eq!(overrides.entry(1), (&"a".to_string(), &2));
    assert_eq!(overrides.entry(2), (&"c".to_string(), &3));

    overrides.remove("a");
    overrides.remove("nobody");
    let copy = overrides.duplicate();
    assert_eq!(copy.len(), 2);
    assert_eq!(copy.get("a"), None);
    assert_eq!(copy.get("b"), Some(&4));
    assert_eq!(copy.entry(1), (&"c".to_string(), &3));
}
