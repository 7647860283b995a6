//! Connections and statements.

use pgdog_quota::config::TlsVerifyMode;
use pgdog_quota::connect::{
    connect_config, read_only_statement, reported_size, size_query, uses_tls,
};
use pgdog_quota::targets::QuotaTarget;
use tokio_postgres::config::Host;

fn target() -> QuotaTarget {
    QuotaTarget {
        pool_name: "tenant".to_string(),
        pg_database_name: "tenant\"db".to_string(),
        host: "pg1.example.com".to_string(),
        port: 6543,
        user: "app".to_string(),
        password: "s\u{e9}cret".to_string(),
        max_size: 1_000,
    }
}

#[test]
fn connection_is_made_as_the_target_says() {
    let config = connect_config(&target());
    assert_eq!(config.get_hosts(), &[Host::Tcp("pg1.example.com".to_string())]);
    assert_eq!(config.get_ports(), &[6543]);
    assert_eq!(config.get_user(), Some("app"));
    assert_eq!(config.get_password(), Some("s\u{e9}cret".as_bytes()));
    assert_eq!(config.get_dbname(), Some("tenant\"db"));
}

#[test]
fn tls_is_used_unless_disabled() {
    assert!(!uses_tls(TlsVerifyMode::Disabled));
    assert!(uses_tls(TlsVerifyMode::Prefer));
    assert!(uses_tls(TlsVerifyMode::VerifyCa));
    assert!(uses_tls(TlsVerifyMode::VerifyFull));
}

#[test]
fn negative_sizes_are_zero() {
    assert_eq!(reported_size(i64::MIN), 0);
    assert_eq!(reported_size(-1), 0);
    assert_eq!(reported_size(0), 0);
    assert_eq!(reported_size(1), 1);
    assert_eq!(reported_size(i64::MAX), 9_223_372_036_854_775_807);
}

#[test]
fn statements_are_exact() {
    assert_eq!(size_query(), "SELECT pg_database_size(current_database())");
    assert_eq!(
        read_only_statement(&target(), true),
        "ALTER DATABASE \"tenant\"\"db\" SET default_transaction_read_only = on"
    );
    assert_eq!(
        read_only_statement(&target(), false),
        "ALTER DATABASE \"tenant\"\"db\" SET default_transaction_read_only = off"
    );
}
