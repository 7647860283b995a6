//! The part of the configuration that quotas depend on.

use vstd::prelude::*;

verus! {

/// What a configured server does for its database.
#[derive(Clone, Copy, Debug, PartialEq, Eq, Structural)]
pub enum Role {
    /// It takes reads and writes.
    Primary,
    /// It takes reads only.
    Replica,
}

/// How far the certificate of a server is verified.
#[derive(Clone, Copy, Debug, PartialEq, Eq, Structural)]
pub enum TlsVerifyMode {
    /// TLS is not used.
    Disabled,
    /// TLS is used, the certificate is not verified.
    Prefer,
    /// The certificate chain is verified.
    VerifyCa,
    /// The certificate chain and the host name are verified.
    VerifyFull,
}

/// One configured server of a database.
pub struct Database {
    /// The name by which clients know the database.
    pub name: String,
    /// The host of the server.
    pub host: String,
    /// The port of the server.
    pub port: u16,
    /// What the server does.
    pub role: Role,
    /// The name of the database on the server, if it has another one there.
    pub database_name: Option<String>,
    /// The user to connect as.
    pub user: Option<String>,
    /// The password of that user.
    pub password: Option<String>,
    /// The size limit in bytes. Zero switches enforcement off.
    pub max_db_size: Option<u64>,
}

/// A user that clients can log in as.
pub struct User {
    /// The name of the user.
    pub name: String,
    /// The database that the user belongs to.
    pub database: String,
    /// The password of the user.
    pub password: Option<String>,
}

/// Settings for all databases.
#[derive(Clone, Copy, Debug)]
pub struct General {
    /// The size limit of the databases that set none of their own. Zero is no
    /// limit.
    pub default_max_db_size: Option<u64>,
    /// Milliseconds between two polls of the database sizes.
    pub quota_poll_interval: u64,
}

impl Default for General {
    fn default() -> (r: Self)
        ensures
            r.default_max_db_size is None,
            r.quota_poll_interval == 60_000,
    {
        General { default_max_db_size: None, quota_poll_interval: 60_000 }
    }
}

/// The configuration.
pub struct ConfigAndUsers {
    /// Settings for all databases.
    pub general: General,
    /// The configured servers.
    pub databases: Vec<Database>,
    /// The configured users.
    pub users: Vec<User>,
}

/// The limit that is enforced on a database: its own one, where it sets one,
/// else the general one. Zero enforces nothing.
pub open spec fn limit_of(own: Option<u64>, general: Option<u64>) -> Option<u64> {
    match own {
        Some(0) => None,
        Some(bytes) => Some(bytes),
        None => match general {
            Some(0) => None,
            other => other,
        },
    }
}

/// The limit that is enforced on a database with the limit `own`, `general`
/// being that for databases without one.
pub fn effective_limit(own: Option<u64>, general: Option<u64>) -> (r: Option<u64>)
    ensures
        r == limit_of(own, general),
        own matches Some(bytes) ==> r == (if bytes > 0 {
            Some(bytes)
        } else {
            None
        }),
        own is None ==> (r is Some <==> general is Some && general->0 > 0),
        own is None && r is Some ==> r == general,
{
    match own {
        Some(bytes) => if bytes > 0 {
            Some(bytes)
        } else {
            None
        },
        None => match general {
            Some(bytes) => if bytes > 0 {
                Some(bytes)
            } else {
                None
            },
            None => None,
        },
    }
}

impl ConfigAndUsers {
    /// The limit that is enforced on the server at place `i`.
    pub open spec fn limit(&self, i: int) -> Option<u64> {
        limit_of(self.databases@[i].max_db_size, self.general.default_max_db_size)
    }
}

/// A database's own limit wins over the general one, be it smaller or larger:
/// one above zero is enforced as it is, and zero opts out. Only where a server
/// sets none does the general one hold, if it is above zero.
pub proof fn own_limit_wins(config: ConfigAndUsers, i: int)
    ensures
        ({
            let own = config.databases@[i].max_db_size;
            let general = config.general.default_max_db_size;
            &&& config.limit(i) == limit_of(own, general)
            &&& own is Some && own->0 > 0 ==> limit_of(own, general) == own
            &&& own == Some(0u64) ==> limit_of(own, general) is None
            &&& own is None && general is Some && general->0 > 0 ==> limit_of(own, general)
                == general
            &&& own is None && (general is None || general == Some(0u64)) ==> limit_of(
                own,
                general,
            ) is None
        }),
{
}

} // verus!
