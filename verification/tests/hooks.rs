//! Enforcement before a query is executed.

use pgdog_quota::classify::{Ast, Statement};
use pgdog_quota::config::{ConfigAndUsers, Database, General, Role};
use pgdog_quota::hooks::{refusal, Error, QueryEngineContext, QueryEngineHooks};
use pgdog_quota::monitor::{plan_monitor, Event, PollCycle};
use pgdog_quota::names::NameMap;
use pgdog_quota::quota::{set_quota_override, Overrides, QuotaState, QuotaStatus};

fn make_state(list: Vec<(&str, u64, u64, bool)>) -> QuotaState {
    let mut state = QuotaState::new();
    for (name, current_size, max_size, over_limit) in list {
        state.insert(
            name.to_string(),
            QuotaStatus {
                database: name.to_string(),
                current_size,
                max_size,
                over_limit,
            },
        );
    }
    state
}

fn context(params: Vec<(&str, &str)>, stmts: Option<Vec<Statement>>) -> QueryEngineContext {
    let mut map: NameMap<String> = NameMap::new();
    for (name, value) in params {
        map.insert(name.to_string(), value.to_string());
    }
    QueryEngineContext {
        params: map,
        ast: stmts.map(|list| Ast { stmts: list.into_iter().map(Some).collect() }),
    }
}

fn passes(params: Vec<(&str, &str)>, stmts: Option<Vec<Statement>>, state: &QuotaState) -> bool {
    let mut hooks = QueryEngineHooks::default();
    hooks.before_execution(&mut context(params, stmts), state).is_ok()
}

fn tenant() -> Vec<(&'static str, &'static str)> {
    vec![("user", "app"), ("database", "tenant")]
}

#[test]
fn write_over_the_limit_is_refused() {
    let state = make_state(vec![("tenant", 2_000, 1_000, true)]);
    let hooks = QueryEngineHooks::new();
    let context = context(tenant(), Some(vec![Statement::InsertStmt]));
    match hooks.check_quota(&context, &state) {
        Err(error) => {
            assert_eq!(
                error.message(),
                "database quota exceeded: database 'tenant' has exceeded its size quota \
                 (2000 bytes used, 1000 bytes limit)"
            );
            match error {
                Error::QuotaExceeded(reason) => assert_eq!(
                    reason,
                    "database 'tenant' has exceeded its size quota \
                     (2000 bytes used, 1000 bytes limit)"
                ),
            }
        }
        Ok(()) => panic!("expected a refusal"),
    }
}

#[test]
fn refusal_without_a_status_is_short() {
    assert_eq!(refusal("db", None), "database 'db' has exceeded its size quota");
}

#[test]
fn write_within_the_limit_passes() {
    let state = make_state(vec![("tenant", 1_000, 1_000, false)]);
    assert!(passes(tenant(), Some(vec![Statement::InsertStmt]), &state));
    assert!(passes(tenant(), Some(vec![Statement::InsertStmt]), &QuotaState::new()));
}

#[test]
fn imports_are_refused_and_exports_pass() {
    let state = make_state(vec![("tenant", 2, 1, true)]);
    assert!(!passes(tenant(), Some(vec![Statement::CopyStmt { is_from: true }]), &state));
    assert!(passes(tenant(), Some(vec![Statement::CopyStmt { is_from: false }]), &state));
}

#[test]
fn reads_and_control_statements_pass() {
    let state = make_state(vec![("tenant", 2, 1, true)]);
    assert!(passes(tenant(), Some(vec![Statement::Other]), &state));
    assert!(passes(tenant(), Some(vec![]), &state));
}

#[test]
fn shrinking_passes_and_a_mixed_batch_does_not() {
    let state = make_state(vec![("tenant", 2, 1, true)]);
    for s in [
        Statement::DeleteStmt,
        Statement::TruncateStmt,
        Statement::DropStmt,
        Statement::VacuumStmt,
    ] {
        assert!(passes(tenant(), Some(vec![s]), &state));
        assert!(passes(tenant(), Some(vec![s, Statement::Other]), &state));
        assert!(!passes(tenant(), Some(vec![s, Statement::InsertStmt]), &state));
    }
}

#[test]
fn dropping_a_database_is_not_exempt() {
    let state = make_state(vec![("tenant", 2, 1, true)]);
    assert!(!passes(tenant(), Some(vec![Statement::DropdbStmt]), &state));
    assert!(!passes(tenant(), Some(vec![Statement::DeleteStmt, Statement::DropdbStmt]), &state));
    let within = make_state(vec![("tenant", 1, 1, false)]);
    assert!(passes(tenant(), Some(vec![Statement::DropdbStmt]), &within));
}

#[test]
fn query_without_a_parse_tree_passes() {
    let state = make_state(vec![("tenant", 2, 1, true)]);
    assert!(passes(tenant(), None, &state));
}

#[test]
fn database_falls_back_to_the_user() {
    let state = make_state(vec![("app", 2, 1, true)]);
    let write = || Some(vec![Statement::UpdateStmt]);
    assert!(!passes(vec![("user", "app")], write(), &state));
    assert!(passes(vec![("user", "app"), ("database", "other")], write(), &state));
    // A client without a user is not looked up at all.
    assert!(passes(vec![("database", "app")], write(), &state));
}

#[test]
fn other_tenants_do_not_count() {
    let state = make_state(vec![("other", 2, 1, true), ("tenant", 1, 1, false)]);
    assert!(passes(tenant(), Some(vec![Statement::InsertStmt]), &state));
}

#[test]
fn new_limit_decides_on_the_next_query() {
    let mut state = make_state(vec![("tenant", 1_500, 1_000, true)]);
    let mut overrides = Overrides::new();
    let write = || Some(vec![Statement::CreateStmt]);
    assert!(!passes(tenant(), write(), &state));
    set_quota_override(&mut overrides, &mut state, "tenant", 1_500);
    assert!(passes(tenant(), write(), &state));
    set_quota_override(&mut overrides, &mut state, "tenant", 0);
    assert!(!passes(tenant(), write(), &state));
}

#[test]
fn other_hooks_let_everything_pass() {
    let mut hooks = QueryEngineHooks::new();
    let mut context = context(tenant(), Some(vec![Statement::InsertStmt]));
    assert!(hooks.after_connected(&mut context).is_ok());
    assert!(hooks.after_execution(&mut context).is_ok());
    assert!(hooks.on_server_message(&mut context).is_ok());
    assert!(hooks.on_engine_error(&mut context).is_ok());
}

// ── From poll to query ───────────────────────────────────────────────

fn make_config(databases: Vec<(&str, Option<u64>)>) -> ConfigAndUsers {
    ConfigAndUsers {
        general: General::default(),
        databases: databases
            .into_iter()
            .map(|(name, max_db_size)| Database {
                name: name.to_string(),
                host: "127.0.0.1".to_string(),
                port: 5432,
                role: Role::Primary,
                database_name: None,
                user: None,
                password: None,
                max_db_size,
            })
            .collect(),
        users: vec![],
    }
}

fn polled(config: &ConfigAndUsers, size: u64, overrides: &Overrides) -> QuotaState {
    let live = plan_monitor(config).unwrap().state;
    PollCycle::begin(config, overrides.duplicate(), NameMap::new())
        .handle(Event::Size(size))
        .handle(Event::ReadOnlySet)
        .commit(&live, overrides)
}

#[test]
fn polls_decide_on_queries() {
    let config = make_config(vec![("tenant", Some(1_000))]);
    let mut overrides = Overrides::new();
    let write = || Some(vec![Statement::InsertStmt]);
    assert!(passes(tenant(), write(), &polled(&config, 1_000, &overrides)));
    assert!(!passes(tenant(), write(), &polled(&config, 1_001, &overrides)));
    overrides.insert("tenant".to_string(), 2_000);
    assert!(passes(tenant(), write(), &polled(&config, 2_000, &overrides)));
    assert!(!passes(tenant(), write(), &polled(&config, 2_001, &overrides)));
}

#[test]
fn writes_are_refused_until_the_first_measurement() {
    let config = make_config(vec![("tenant", Some(u64::MAX))]);
    let state = plan_monitor(&config).unwrap().state;
    assert!(!passes(tenant(), Some(vec![Statement::InsertStmt]), &state));
    assert!(passes(tenant(), Some(vec![Statement::Other]), &state));
}

#[test]
fn databases_without_a_limit_are_left_alone() {
    let config = make_config(vec![("other", Some(1)), ("tenant", Some(0))]);
    let write = || Some(vec![Statement::InsertStmt]);
    assert!(passes(tenant(), write(), &plan_monitor(&config).unwrap().state));
    assert!(passes(tenant(), write(), &polled(&config, 5, &Overrides::new())));
}
