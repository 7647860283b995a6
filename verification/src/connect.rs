//! What the monitor says to a server, and how it reaches one.

use vstd::prelude::*;
use vstd::utf8::encode_utf8;

use crate::config::TlsVerifyMode;
use crate::targets::QuotaTarget;
use crate::text::{quote_ident, quoted, quoting_is_exact, scanned};

verus! {

// ── Connection settings ─────────────────────────────────────────────────

/// The connection settings of `tokio_postgres`, carried as they are.
#[verifier::external_type_specification]
#[verifier::external_body]
pub struct ExConfig(tokio_postgres::Config);

/// The settings of a connection that the monitor makes use of.
#[verifier::ext_equal]
pub struct Settings {
    /// The hosts to try, in order, each as it was written.
    pub hosts: Seq<Seq<char>>,
    /// The ports of the hosts.
    pub ports: Seq<u16>,
    /// The user to connect as.
    pub user: Option<Seq<char>>,
    /// The bytes of the password.
    pub password: Option<Seq<u8>>,
    /// The database to connect to.
    pub dbname: Option<Seq<char>>,
}

/// The settings that a `tokio_postgres::Config` holds.
pub uninterp spec fn settings_of(config: tokio_postgres::Config) -> Settings;

/// Calls `tokio_postgres::Config::new`, which sets no host, port, user,
/// password or database.
#[verifier::external_body]
fn new_config() -> (r: tokio_postgres::Config)
    ensures
        settings_of(r) == (Settings {
            hosts: Seq::empty(),
            ports: Seq::empty(),
            user: None,
            password: None,
            dbname: None,
        }),
{
    tokio_postgres::Config::new()
}

/// Calls `tokio_postgres::Config::host`, which adds `host` behind the hosts
/// that are there and leaves the other settings alone.
#[verifier::external_body]
fn add_host(config: &mut tokio_postgres::Config, host: &str)
    ensures
        settings_of(*final(config)) == (Settings {
            hosts: settings_of(*old(config)).hosts.push(host@),
            ..settings_of(*old(config))
        }),
{
    config.host(host);
}

/// Calls `tokio_postgres::Config::port`, which adds `port` behind the ports
/// that are there and leaves the other settings alone.
#[verifier::external_body]
fn add_port(config: &mut tokio_postgres::Config, port: u16)
    ensures
        settings_of(*final(config)) == (Settings {
            ports: settings_of(*old(config)).ports.push(port),
            ..settings_of(*old(config))
        }),
{
    config.port(port);
}

/// Calls `tokio_postgres::Config::user`, which sets the user and leaves the
/// other settings alone.
#[verifier::external_body]
fn set_user(config: &mut tokio_postgres::Config, user: &str)
    ensures
        settings_of(*final(config)) == (Settings {
            user: Some(user@),
            ..settings_of(*old(config))
        }),
{
    config.user(user);
}

/// Calls `tokio_postgres::Config::password`, which sets the password to the
/// UTF-8 bytes of `password` and leaves the other settings alone.
#[verifier::external_body]
fn set_password(config: &mut tokio_postgres::Config, password: &str)
    ensures
        settings_of(*final(config)) == (Settings {
            password: Some(encode_utf8(password@)),
            ..settings_of(*old(config))
        }),
{
    config.password(password);
}

/// Calls `tokio_postgres::Config::dbname`, which sets the database and leaves
/// the other settings alone.
#[verifier::external_body]
fn set_dbname(config: &mut tokio_postgres::Config, dbname: &str)
    ensures
        settings_of(*final(config)) == (Settings {
            dbname: Some(dbname@),
            ..settings_of(*old(config))
        }),
{
    config.dbname(dbname);
}

/// How to connect to the server of a target.
pub fn connect_config(target: &QuotaTarget) -> (r: tokio_postgres::Config)
    ensures
        settings_of(r) == (Settings {
            hosts: seq![target.host@],
            ports: seq![target.port],
            user: Some(target.user@),
            password: Some(encode_utf8(target.password@)),
            dbname: Some(target.pg_database_name@),
        }),
{
    let mut config: tokio_postgres::Config = new_config();
    add_host(&mut config, target.host.as_str());
    add_port(&mut config, target.port);
    set_user(&mut config, target.user.as_str());
    set_password(&mut config, target.password.as_str());
    set_dbname(&mut config, target.pg_database_name.as_str());
    assert(settings_of(config).hosts == seq![target.host@]);
    assert(settings_of(config).ports == seq![target.port]);
    config
}

/// Whether a connection is made over TLS.
pub fn uses_tls(mode: TlsVerifyMode) -> (r: bool)
    ensures
        r == (mode != TlsVerifyMode::Disabled),
{
    match mode {
        TlsVerifyMode::Disabled => false,
        _ => true,
    }
}

// ── Statements ──────────────────────────────────────────────────────────

/// The query for the size of the database that one is connected to.
pub fn size_query() -> (r: &'static str)
    ensures
        r@ == "SELECT pg_database_size(current_database())"@,
{
    "SELECT pg_database_size(current_database())"
}

/// The size in bytes that the server reports by `reported`.
pub fn reported_size(reported: i64) -> (r: u64)
    ensures
        r == (if reported > 0 {
            reported as int
        } else {
            0
        }),
{
    if reported > 0 {
        reported as u64
    } else {
        0
    }
}

/// The statement by which new sessions on the database `name` refuse writes,
/// or accept them.
pub open spec fn read_only_text(name: Seq<char>, read_only: bool) -> Seq<char> {
    "ALTER DATABASE "@ + quoted(name) + " SET default_transaction_read_only = "@ + (if read_only {
        "on"@
    } else {
        "off"@
    })
}

/// The statement by which new sessions on the database of a target refuse
/// writes, or accept them.
pub fn read_only_statement(target: &QuotaTarget, read_only: bool) -> (r: String)
    ensures
        r@ == read_only_text(target.pg_database_name@, read_only),
{
    let mut sql: String = "ALTER DATABASE ".to_owned();
    sql.append(quote_ident(target.pg_database_name.as_str()).as_str());
    sql.append(" SET default_transaction_read_only = ");
    sql.append(
        if read_only {
            "on"
        } else {
            "off"
        },
    );
    sql
}

/// The statement names the database and nothing else: behind `ALTER DATABASE`
/// a SQL scanner reads a quoted identifier that is exactly `name`, whatever
/// characters that holds, and then the setting.
pub proof fn statement_names_its_database(name: Seq<char>, read_only: bool)
    ensures
        ({
            let head = "ALTER DATABASE "@;
            let sql = read_only_text(name, read_only);
            &&& sql.take(head.len() as int) == head
            &&& sql[head.len() as int] == '"'
            &&& scanned(sql.skip(head.len() as int + 1)) == Some(
                (
                    name,
                    " SET default_transaction_read_only = "@ + (if read_only {
                        "on"@
                    } else {
                        "off"@
                    }),
                ),
            )
        }),
{
    let head = "ALTER DATABASE "@;
    let sql = read_only_text(name, read_only);
    let rest = " SET default_transaction_read_only = "@ + (if read_only {
        "on"@
    } else {
        "off"@
    });
    reveal_strlit(" SET default_transaction_read_only = ");
    quoting_is_exact(name, rest);
    assert(sql == head + (quoted(name) + rest));
    assert(sql.take(head.len() as int) == head);
    assert(sql.skip(head.len() as int + 1) == (quoted(name) + rest).skip(1));
}

} // verus!
