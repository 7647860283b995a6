//! Polls.

use pgdog_quota::config::{ConfigAndUsers, Database, General, Role};
use pgdog_quota::monitor::{
    initial_state, plan_monitor, Action, Event, PollCycle, ServerNote, ServerNotes,
};
use pgdog_quota::quota::{
    clear_quota_override, is_over_quota, quota_status, set_quota_override, Overrides, QuotaState,
};
use pgdog_quota::targets::collect_targets;

fn make_db(name: &str, max_db_size: Option<u64>) -> Database {
    Database {
        name: name.to_string(),
        host: "127.0.0.1".to_string(),
        port: 5432,
        role: Role::Primary,
        database_name: None,
        user: None,
        password: None,
        max_db_size,
    }
}

fn make_config(databases: Vec<Database>) -> ConfigAndUsers {
    ConfigAndUsers {
        general: General::default(),
        databases,
        users: vec![],
    }
}

fn two_tenants() -> ConfigAndUsers {
    make_config(vec![make_db("a", Some(100)), make_db("b", Some(200))])
}

fn modes_of(list: Vec<(&str, bool)>) -> ServerNotes {
    let mut modes = ServerNotes::new();
    for (name, read_only) in list {
        modes.insert(
            name.to_string(),
            ServerNote {
                host: "127.0.0.1".to_string(),
                port: 5432,
                pg_database_name: name.to_string(),
                read_only,
            },
        );
    }
    modes
}

fn mode(modes: &ServerNotes, name: &str) -> Option<bool> {
    modes.get(name).map(|note| note.read_only)
}

fn sizes(state: &QuotaState, name: &str) -> (u64, u64, bool) {
    let status = quota_status(state, name).unwrap();
    assert_eq!(status.database, name);
    (status.current_size, status.max_size, status.over_limit)
}

// ── Start ────────────────────────────────────────────────────────────

#[test]
fn nothing_starts_without_limits() {
    assert!(plan_monitor(&make_config(vec![])).is_none());
    let config = make_config(vec![make_db("a", None), make_db("b", Some(0))]);
    assert!(plan_monitor(&config).is_none());
}

#[test]
fn start_blocks_every_target() {
    let mut config = two_tenants();
    config.databases.push(make_db("free", None));
    config.general.quota_poll_interval = 5_000;
    let start = plan_monitor(&config).unwrap();
    assert_eq!(start.interval_ms, 5_000);
    assert_eq!(start.state.len(), 2);
    assert_eq!(sizes(&start.state, "a"), (u64::MAX, 100, true));
    assert_eq!(sizes(&start.state, "b"), (u64::MAX, 200, true));
    assert!(!is_over_quota(&start.state, "free"));
    assert_eq!(initial_state(&collect_targets(&config)).len(), 2);
}

// ── Polls ────────────────────────────────────────────────────────────

#[test]
fn poll_goes_through_all_targets() {
    let config = two_tenants();
    let live = plan_monitor(&config).unwrap().state;
    let overrides = Overrides::new();

    let cycle = PollCycle::begin(&config, overrides.duplicate(), ServerNotes::new());
    assert_eq!(cycle.action(), Action::CheckSize(0));
    assert_eq!(cycle.target(0).unwrap().pool_name, "a");
    assert_eq!(cycle.target(1).unwrap().pool_name, "b");
    assert!(cycle.target(2).is_none());
    assert_eq!(cycle.limit(0), Some(100));
    assert_eq!(cycle.limit(1), Some(200));
    assert_eq!(cycle.limit(2), None);

    // Nothing is known of the servers yet, so each is told.
    let cycle = cycle.handle(Event::Size(100));
    assert_eq!(cycle.action(), Action::SetReadOnly(0, false));
    let cycle = cycle.handle(Event::ReadOnlySet);
    assert_eq!(cycle.action(), Action::CheckSize(1));
    let cycle = cycle.handle(Event::Size(201));
    assert_eq!(cycle.action(), Action::SetReadOnly(1, true));
    let cycle = cycle.handle(Event::ReadOnlySet);
    assert_eq!(cycle.action(), Action::Commit);

    let state = cycle.commit(&live, &overrides);
    assert_eq!(state.len(), 2);
    assert_eq!(sizes(&state, "a"), (100, 100, false));
    assert_eq!(sizes(&state, "b"), (201, 200, true));
    let modes = cycle.into_modes();
    assert_eq!(mode(&modes, "a"), Some(false));
    assert_eq!(mode(&modes, "b"), Some(true));
    assert_eq!(modes.get("a").unwrap().host, "127.0.0.1");
    assert_eq!(modes.get("a").unwrap().port, 5432);
    assert_eq!(modes.get("a").unwrap().pg_database_name, "a");
}

#[test]
fn servers_are_told_on_change_only() {
    let config = two_tenants();
    let modes = modes_of(vec![("a", false), ("b", true)]);
    let cycle = PollCycle::begin(&config, Overrides::new(), modes);
    let cycle = cycle.handle(Event::Size(50));
    assert_eq!(cycle.action(), Action::CheckSize(1));
    let cycle = cycle.handle(Event::Size(500));
    assert_eq!(cycle.action(), Action::Commit);

    let modes = cycle.into_modes();
    let cycle = PollCycle::begin(&config, Overrides::new(), modes);
    let cycle = cycle.handle(Event::Size(101));
    assert_eq!(cycle.action(), Action::SetReadOnly(0, true));
}

#[test]
fn failed_check_keeps_the_status() {
    let config = two_tenants();
    let live = plan_monitor(&config).unwrap().state;
    let overrides = Overrides::new();
    let cycle = PollCycle::begin(&config, overrides.duplicate(), ServerNotes::new());
    let cycle = cycle.handle(Event::CheckFailed).handle(Event::CheckFailed);
    assert_eq!(cycle.action(), Action::Commit);

    // Writes stay blocked while the size is not known.
    let state = cycle.commit(&live, &overrides);
    assert_eq!(sizes(&state, "a"), (u64::MAX, 100, true));
    assert_eq!(sizes(&state, "b"), (u64::MAX, 200, true));

    // A database that has no status gets none.
    assert_eq!(cycle.commit(&QuotaState::new(), &overrides).len(), 0);
}

#[test]
fn server_that_could_not_be_told_is_told_again() {
    let config = make_config(vec![make_db("a", Some(100))]);
    let overrides = Overrides::new();
    let cycle = PollCycle::begin(&config, overrides.duplicate(), modes_of(vec![("a", false)]));
    let cycle = cycle.handle(Event::Size(150));
    assert_eq!(cycle.action(), Action::SetReadOnly(0, true));
    let cycle = cycle.handle(Event::ReadOnlyFailed);
    assert_eq!(cycle.action(), Action::Commit);
    // The proxy blocks writes nevertheless.
    let state = cycle.commit(&QuotaState::new(), &overrides);
    assert_eq!(sizes(&state, "a"), (150, 100, true));

    let modes = cycle.into_modes();
    assert_eq!(modes.len(), 0);
    let cycle = PollCycle::begin(&config, overrides, modes).handle(Event::Size(150));
    assert_eq!(cycle.action(), Action::SetReadOnly(0, true));
}

#[test]
fn server_of_a_returning_database_is_told_anew() {
    let config = two_tenants();
    let without_a = make_config(vec![make_db("b", Some(200))]);
    let modes = modes_of(vec![("a", false), ("b", false)]);
    let cycle = PollCycle::begin(&without_a, Overrides::new(), modes).handle(Event::Size(1));
    assert_eq!(cycle.action(), Action::Commit);
    let modes = cycle.into_modes();
    assert_eq!(modes.len(), 1);
    assert_eq!(mode(&modes, "b"), Some(false));

    let cycle = PollCycle::begin(&config, Overrides::new(), modes).handle(Event::Size(1));
    assert_eq!(cycle.action(), Action::SetReadOnly(0, false));
}

#[test]
fn server_that_a_database_moves_to_is_told() {
    let told = || modes_of(vec![("a", true)]);
    let stays = make_config(vec![make_db("a", Some(100))]);
    let cycle = PollCycle::begin(&stays, Overrides::new(), told()).handle(Event::Size(150));
    assert_eq!(cycle.action(), Action::Commit);

    let mut host = make_db("a", Some(100));
    host.host = "127.0.0.2".to_string();
    let mut port = make_db("a", Some(100));
    port.port = 5433;
    let mut name = make_db("a", Some(100));
    name.database_name = Some("a2".to_string());
    for db in [host, port, name] {
        let moved = make_config(vec![db]);
        let cycle = PollCycle::begin(&moved, Overrides::new(), told()).handle(Event::Size(150));
        assert_eq!(cycle.action(), Action::SetReadOnly(0, true));
        let modes = cycle.handle(Event::ReadOnlySet).into_modes();
        let cycle = PollCycle::begin(&moved, Overrides::new(), modes).handle(Event::Size(150));
        assert_eq!(cycle.action(), Action::Commit);
    }
}

#[test]
fn stray_events_change_nothing() {
    let config = make_config(vec![make_db("a", Some(100))]);
    let cycle = PollCycle::begin(&config, Overrides::new(), ServerNotes::new());
    let cycle = cycle.handle(Event::ReadOnlySet).handle(Event::ReadOnlyFailed);
    assert_eq!(cycle.action(), Action::CheckSize(0));
    let cycle = cycle.handle(Event::Size(1));
    let cycle = cycle.handle(Event::Size(2)).handle(Event::CheckFailed);
    assert_eq!(cycle.action(), Action::SetReadOnly(0, false));
    let cycle = cycle.handle(Event::ReadOnlySet).handle(Event::Size(9));
    assert_eq!(cycle.action(), Action::Commit);
    let state = cycle.commit(&QuotaState::new(), &Overrides::new());
    assert_eq!(sizes(&state, "a"), (1, 100, false));
}

#[test]
fn databases_that_left_the_configuration_lose_their_status() {
    let before = plan_monitor(&two_tenants()).unwrap().state;
    let config = make_config(vec![make_db("b", Some(300))]);
    let overrides = Overrides::new();
    let cycle = PollCycle::begin(&config, overrides.duplicate(), modes_of(vec![("b", false)]));
    let cycle = cycle.handle(Event::Size(250));
    let state = cycle.commit(&before, &overrides);
    assert_eq!(state.len(), 1);
    assert_eq!(sizes(&state, "b"), (250, 300, false));
}

// ── Limits set at run time ───────────────────────────────────────────

#[test]
fn override_survives_polls() {
    let config = make_config(vec![make_db("a", Some(100))]);
    let mut state = plan_monitor(&config).unwrap().state;
    let mut overrides = Overrides::new();
    set_quota_override(&mut overrides, &mut state, "a", 1_000);
    for size in [500, 1_000, 1_001] {
        let modes = modes_of(vec![("a", size > 1_000)]);
        let cycle = PollCycle::begin(&config, overrides.duplicate(), modes);
        let cycle = cycle.handle(Event::Size(size));
        assert_eq!(cycle.action(), Action::Commit);
        assert_eq!(cycle.limit(0), Some(1_000));
        state = cycle.commit(&state, &overrides);
        assert_eq!(sizes(&state, "a"), (size, 1_000, size > 1_000));
    }
}

#[test]
fn override_set_during_a_poll_is_not_lost() {
    let config = two_tenants();
    let mut live = plan_monitor(&config).unwrap().state;
    let mut overrides = Overrides::new();
    let modes = modes_of(vec![("a", false), ("b", false)]);
    let cycle = PollCycle::begin(&config, overrides.duplicate(), modes);
    let cycle = cycle.handle(Event::Size(50));
    set_quota_override(&mut overrides, &mut live, "a", 10);
    set_quota_override(&mut overrides, &mut live, "b", 20);
    let cycle = cycle.handle(Event::CheckFailed);
    let state = cycle.commit(&live, &overrides);
    assert_eq!(sizes(&state, "a"), (50, 10, true));
    assert_eq!(sizes(&state, "b"), (u64::MAX, 20, true));
}

#[test]
fn override_cleared_during_a_poll_does_not_come_back() {
    let config = two_tenants();
    let mut live = plan_monitor(&config).unwrap().state;
    let mut overrides = Overrides::new();
    set_quota_override(&mut overrides, &mut live, "a", 10);
    set_quota_override(&mut overrides, &mut live, "b", 20);
    let modes = modes_of(vec![("a", true), ("b", true)]);
    let cycle = PollCycle::begin(&config, overrides.duplicate(), modes);
    let cycle = cycle.handle(Event::Size(50)).handle(Event::CheckFailed);
    clear_quota_override(&mut overrides, &mut live, &config, "a");
    clear_quota_override(&mut overrides, &mut live, &config, "b");
    let state = cycle.commit(&live, &overrides);
    assert_eq!(sizes(&state, "a"), (50, 100, false));
    assert_eq!(sizes(&state, "b"), (u64::MAX, 200, true));
}

#[test]
fn larger_limit_releases_the_server() {
    let config = make_config(vec![make_db("a", Some(100))]);
    let mut overrides = Overrides::new();
    let cycle = PollCycle::begin(&config, overrides.duplicate(), ServerNotes::new());
    let cycle = cycle.handle(Event::Size(150));
    assert_eq!(cycle.action(), Action::SetReadOnly(0, true));
    let cycle = cycle.handle(Event::ReadOnlySet);
    let mut state = cycle.commit(&QuotaState::new(), &overrides);
    let modes = cycle.into_modes();

    // The proxy accepts writes at once, the server with the next poll.
    set_quota_override(&mut overrides, &mut state, "a", 200);
    assert!(!is_over_quota(&state, "a"));
    let cycle = PollCycle::begin(&config, overrides, modes).handle(Event::Size(150));
    assert_eq!(cycle.action(), Action::SetReadOnly(0, false));
}
