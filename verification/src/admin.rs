//! The admin commands on quotas.
//!
//! `SET QUOTA <database> <bytes>` sets the limit of a database at run time,
//! `RESET QUOTA <database>` goes back to the configured one, and `SHOW QUOTAS`
//! lists all databases with a limit.
//!
//! Only databases with a configured limit are polled. A limit set on another
//! one would do nothing, so the commands refuse it.

use vstd::prelude::*;

use crate::config::{effective_limit, ConfigAndUsers, Database};
use crate::monitor::clear_agrees_with_poll;
use crate::names::Duplicate;
use crate::quota::{
    after_clear, after_set, all_quota_statuses, clear_quota_override, set_quota_override,
    status_list, status_views, Overrides, QuotaState, QuotaStatus, StatusView,
};
use crate::targets::{enforced, polled_iff_enforced, targets_of};
use crate::text::{
    decimal, decimal_is_word, eq_ignore_ascii_case, is_before, is_word, join, joined,
    names_match_but_for_case, order_is_total, parse_of_decimal, parse_u64, parsed_u64, precedes, same_name, same_text,
    split_words, texts, words, words_of_joined, ParseIntError,
};

verus! {

/// Why a command fails.
#[derive(Debug)]
pub enum Error {
    /// It is no such command.
    Syntax,
    /// The number of bytes is none.
    ParseInt(ParseIntError),
    /// No configured database has this name.
    UnknownDatabase(String),
    /// No limit is configured for this database.
    QuotaNotConfigured(String),
    /// The first name could mean any of the databases in the second.
    AmbiguousDatabase(String, String),
}

/// What an [`Error`] says.
pub enum ErrorView {
    Syntax,
    ParseInt(ParseIntError),
    UnknownDatabase(Seq<char>),
    QuotaNotConfigured(Seq<char>),
    AmbiguousDatabase(Seq<char>, Seq<char>),
}

impl View for Error {
    type V = ErrorView;

    open spec fn view(&self) -> ErrorView {
        match *self {
            Error::Syntax => ErrorView::Syntax,
            Error::ParseInt(e) => ErrorView::ParseInt(e),
            Error::UnknownDatabase(name) => ErrorView::UnknownDatabase(name@),
            Error::QuotaNotConfigured(name) => ErrorView::QuotaNotConfigured(name@),
            Error::AmbiguousDatabase(name, names) => ErrorView::AmbiguousDatabase(name@, names@),
        }
    }
}

// ── Databases by name ───────────────────────────────────────────────────

/// The different names of configured databases that `requested` could mean,
/// in the order of the configuration.
pub open spec fn matching_names(dbs: Seq<Database>, requested: Seq<char>) -> Seq<Seq<char>>
    decreases dbs.len(),
{
    if dbs.len() == 0 {
        Seq::empty()
    } else {
        let before = matching_names(dbs.drop_last(), requested);
        let name = dbs.last().name@;
        if same_name(name, requested) && !before.contains(name) {
            before.push(name)
        } else {
            before
        }
    }
}

/// Whether a limit is enforced on some database that `requested` could mean.
pub open spec fn some_enforced(
    dbs: Seq<Database>,
    general: Option<u64>,
    requested: Seq<char>,
) -> bool {
    exists|i: int|
        0 <= i < dbs.len() && same_name((#[trigger] dbs[i]).name@, requested) && enforced(
            dbs[i],
            general,
        )
}

/// The database that `requested` means.
pub open spec fn resolution(config: ConfigAndUsers, requested: Seq<char>) -> Result<
    Seq<char>,
    ErrorView,
> {
    let names = matching_names(config.databases@, requested);
    if names.len() == 0 {
        Err(ErrorView::UnknownDatabase(requested))
    } else if names.len() > 1 {
        Err(ErrorView::AmbiguousDatabase(requested, joined(names, ", "@)))
    } else if some_enforced(
        config.databases@,
        config.general.default_max_db_size,
        requested,
    ) {
        Ok(names[0])
    } else {
        Err(ErrorView::QuotaNotConfigured(names[0]))
    }
}

fn contains_text(list: &Vec<String>, name: &str) -> (r: bool)
    ensures
        r == texts(list@).contains(name@),
{
    let mut i: usize = 0;
    while i < list.len()
        invariant
            i <= list.len(),
            forall|j: int| 0 <= j < i ==> #[trigger] texts(list@)[j] != name@,
        decreases list.len() - i,
    {
        if same_text(list[i].as_str(), name) {
            assert(texts(list@)[i as int] == name@);
            return true;
        }
        i = i + 1;
    }
    false
}

/// Finds the configured database that `requested` means, whatever the case of
/// its letters, and returns its name as configured.
///
/// Several servers of one name are one database. Names that differ in case
/// only are several databases, of which none is picked.
pub fn resolve_quota_database(config: &ConfigAndUsers, requested: &str) -> (r: Result<
    String,
    Error,
>)
    ensures
        match resolution(*config, requested@) {
            Ok(name) => r matches Ok(found) && found@ == name,
            Err(error) => r matches Err(e) && e@ == error,
        },
{
    let general: Option<u64> = config.general.default_max_db_size;
    let ghost dbs = config.databases@;
    let mut names: Vec<String> = Vec::new();
    let mut has_quota: bool = false;
    let mut i: usize = 0;
    assert(texts(names@) == matching_names(dbs.take(0), requested@));
    while i < config.databases.len()
        invariant
            dbs == config.databases@,
            general == config.general.default_max_db_size,
            i <= dbs.len(),
            texts(names@) == matching_names(dbs.take(i as int), requested@),
            has_quota == some_enforced(dbs.take(i as int), general, requested@),
        decreases config.databases.len() - i,
    {
        let db: &Database = &config.databases[i];
        let ghost front = dbs.take(i as int);
        let ghost more = dbs.take(i + 1);
        proof {
            assert(more.drop_last() == front);
            assert(more.last() == *db);
            assert(some_enforced(more, general, requested@) == (some_enforced(
                front,
                general,
                requested@,
            ) || (same_name(db.name@, requested@) && enforced(*db, general)))) by {
                if some_enforced(front, general, requested@) {
                    let j = choose|j: int|
                        0 <= j < front.len() && same_name((#[trigger] front[j]).name@, requested@)
                            && enforced(front[j], general);
                    assert(more[j] == front[j]);
                }
                if same_name(db.name@, requested@) && enforced(*db, general) {
                    assert(more[i as int] == *db);
                }
                if some_enforced(more, general, requested@) {
                    let j = choose|j: int|
                        0 <= j < more.len() && same_name((#[trigger] more[j]).name@, requested@)
                            && enforced(more[j], general);
                    if j < i {
                        assert(front[j] == more[j]);
                    }
                }
            }
        }
        if eq_ignore_ascii_case(db.name.as_str(), requested) {
            if !contains_text(&names, db.name.as_str()) {
                let ghost before = texts(names@);
                names.push(db.name.clone());
                assert(texts(names@) == before.push(db.name@));
            }
            if effective_limit(db.max_db_size, general).is_some() {
                has_quota = true;
            }
        }
        i = i + 1;
    }
    assert(dbs.take(i as int) == dbs);
    assert(texts(names@).len() == names@.len());
    if names.len() == 0 {
        Err(Error::UnknownDatabase(requested.to_owned()))
    } else if names.len() > 1 {
        Err(Error::AmbiguousDatabase(requested.to_owned(), join(&names, ", ")))
    } else {
        let name: String = names[0].clone();
        assert(texts(names@)[0] == name@);
        if !has_quota {
            return Err(Error::QuotaNotConfigured(name));
        }
        Ok(name)
    }
}

// ── SET QUOTA ───────────────────────────────────────────────────────────

/// `SET QUOTA <database> <bytes>`.
pub struct SetQuota {
    /// The database, in any case of letters.
    pub database: String,
    /// The limit in bytes. Zero locks the database.
    pub max_size: u64,
}

impl SetQuota {
    /// The name of the command.
    pub fn name(&self) -> (r: String)
        ensures
            r@ == "SET QUOTA"@,
    {
        "SET QUOTA".to_owned()
    }

    /// Reads the command, which is expected in small letters.
    pub fn parse(sql: &str) -> (r: Result<Self, Error>)
        ensures
            ({
                let w = words(sql@);
                if w.len() == 4 && w[0] == "set"@ && w[1] == "quota"@ {
                    match parsed_u64(w[3]) {
                        Ok(bytes) => r matches Ok(command) && command.database@ == w[2]
                            && command.max_size == bytes,
                        Err(e) => r matches Err(error) && error@ == ErrorView::ParseInt(e),
                    }
                } else {
                    r matches Err(error) && error@ == ErrorView::Syntax
                }
            }),
    {
        let parts: Vec<String> = split_words(sql);
        assert(texts(parts@).len() == parts@.len());
        if parts.len() != 4 {
            return Err(Error::Syntax);
        }
        assert(forall|i: int| 0 <= i < 4 ==> texts(parts@)[i] == (#[trigger] parts@[i])@);
        if !same_text(parts[0].as_str(), "set") || !same_text(parts[1].as_str(), "quota") {
            return Err(Error::Syntax);
        }
        match parse_u64(parts[3].as_str()) {
            Ok(max_size) => Ok(SetQuota { database: parts[2].clone(), max_size }),
            Err(e) => Err(Error::ParseInt(e)),
        }
    }

    /// Sets the limit of the database.
    pub fn execute(
        &self,
        config: &ConfigAndUsers,
        overrides: &mut Overrides,
        state: &mut QuotaState,
    ) -> (r: Result<(), Error>)
        ensures
            match resolution(*config, self.database@) {
                Ok(name) => r is Ok && (final(overrides)@, final(state)@) == after_set(
                    old(overrides)@,
                    old(state)@,
                    name,
                    self.max_size,
                ),
                Err(error) => r matches Err(e) && e@ == error && *final(overrides) == *old(
                    overrides,
                ) && *final(state) == *old(state),
            },
            final(state).order() == old(state).order(),
    {
        match resolve_quota_database(config, self.database.as_str()) {
            Ok(name) => {
                set_quota_override(overrides, state, name.as_str(), self.max_size);
                Ok(())
            },
            Err(e) => Err(e),
        }
    }
}

// ── RESET QUOTA ─────────────────────────────────────────────────────────

/// `RESET QUOTA <database>`.
pub struct ResetQuota {
    /// The database, in any case of letters.
    pub database: String,
}

impl ResetQuota {
    /// The name of the command.
    pub fn name(&self) -> (r: String)
        ensures
            r@ == "RESET QUOTA"@,
    {
        "RESET QUOTA".to_owned()
    }

    /// Reads the command, which is expected in small letters.
    pub fn parse(sql: &str) -> (r: Result<Self, Error>)
        ensures
            ({
                let w = words(sql@);
                if w.len() == 3 && w[0] == "reset"@ && w[1] == "quota"@ {
                    r matches Ok(command) && command.database@ == w[2]
                } else {
                    r matches Err(error) && error@ == ErrorView::Syntax
                }
            }),
    {
        let parts: Vec<String> = split_words(sql);
        assert(texts(parts@).len() == parts@.len());
        if parts.len() != 3 {
            return Err(Error::Syntax);
        }
        assert(forall|i: int| 0 <= i < 3 ==> texts(parts@)[i] == (#[trigger] parts@[i])@);
        if !same_text(parts[0].as_str(), "reset") || !same_text(parts[1].as_str(), "quota") {
            return Err(Error::Syntax);
        }
        Ok(ResetQuota { database: parts[2].clone() })
    }

    /// Goes back to the configured limit of the database.
    pub fn execute(
        &self,
        config: &ConfigAndUsers,
        overrides: &mut Overrides,
        state: &mut QuotaState,
    ) -> (r: Result<(), Error>)
        ensures
            match resolution(*config, self.database@) {
                Ok(name) => r is Ok && (final(overrides)@, final(state)@) == after_clear(
                    old(overrides)@,
                    old(state)@,
                    *config,
                    name,
                ),
                Err(error) => r matches Err(e) && e@ == error && *final(overrides) == *old(
                    overrides,
                ) && *final(state) == *old(state),
            },
            final(state).order() == old(state).order(),
    {
        match resolve_quota_database(config, self.database.as_str()) {
            Ok(name) => {
                clear_quota_override(overrides, state, config, name.as_str());
                Ok(())
            },
            Err(e) => Err(e),
        }
    }
}

// ── SHOW QUOTAS ─────────────────────────────────────────────────────────

/// The type of a column.
#[derive(Clone, Copy, Debug, PartialEq, Eq, Structural)]
pub enum ColumnType {
    Text,
    Bigint,
    Bool,
}

/// A column of a result.
pub struct Column {
    /// Its name.
    pub name: &'static str,
    /// Its type.
    pub column_type: ColumnType,
}

/// A row of `SHOW QUOTAS`.
pub struct QuotaRow {
    /// The name of the database.
    pub database: String,
    /// Its size in bytes; -1 before the first measurement.
    pub current_size: i64,
    /// Its limit in bytes.
    pub max_size: i64,
    /// Whether writes are blocked.
    pub over_limit: bool,
}

/// What a [`QuotaRow`] says.
#[verifier::ext_equal]
pub struct RowView {
    pub database: Seq<char>,
    pub current_size: int,
    pub max_size: int,
    pub over_limit: bool,
}

impl View for QuotaRow {
    type V = RowView;

    open spec fn view(&self) -> RowView {
        RowView {
            database: self.database@,
            current_size: self.current_size as int,
            max_size: self.max_size as int,
            over_limit: self.over_limit,
        }
    }
}

/// The result of `SHOW QUOTAS`.
pub struct QuotaRows {
    /// The columns.
    pub columns: Vec<Column>,
    /// The rows.
    pub rows: Vec<QuotaRow>,
}

/// What a list of rows says.
pub open spec fn row_views(list: Seq<QuotaRow>) -> Seq<RowView> {
    list.map_values(|row: QuotaRow| row@)
}

/// A number of bytes as a signed one, the largest where it does not fit.
pub open spec fn signed(bytes: u64) -> int {
    if bytes > i64::MAX {
        i64::MAX as int
    } else {
        bytes as int
    }
}

/// The row of a database. A size that was not measured yet shows as -1.
pub open spec fn row_of(status: StatusView) -> RowView {
    RowView {
        database: status.database,
        current_size: if status.current_size == u64::MAX {
            -1
        } else {
            signed(status.current_size)
        },
        max_size: signed(status.max_size),
        over_limit: status.over_limit,
    }
}

/// The rows of databases.
pub open spec fn rows_of(list: Seq<StatusView>) -> Seq<RowView> {
    list.map_values(|status: StatusView| row_of(status))
}

/// Whether `list` is in alphabetical order of the databases.
pub open spec fn is_sorted(list: Seq<StatusView>) -> bool {
    forall|i: int, j: int|
        0 <= i < j < list.len() ==> !precedes(
            (#[trigger] list[j]).database,
            (#[trigger] list[i]).database,
        )
}

fn clamp(bytes: u64) -> (r: i64)
    ensures
        r == signed(bytes),
{
    if bytes > 0x7fff_ffff_ffff_ffff {
        0x7fff_ffff_ffff_ffff
    } else {
        bytes as i64
    }
}

/// Where in the sorted list `list` a database of the name `name` goes: behind
/// those that do not come after it.
fn insertion_point(list: &Vec<QuotaStatus>, name: &str) -> (r: usize)
    requires
        is_sorted(status_views(list@)),
    ensures
        r <= list.len(),
        forall|i: int|
            0 <= i < r ==> !precedes(name@, (#[trigger] status_views(list@)[i]).database),
        forall|i: int|
            r <= i < list.len() ==> !precedes((#[trigger] status_views(list@)[i]).database, name@),
{
    let ghost all = status_views(list@);
    assert(all.len() == list@.len());
    let mut p: usize = 0;
    while p < list.len()
        invariant
            p <= list.len(),
            all == status_views(list@),
            is_sorted(all),
            all.len() == list@.len(),
            forall|i: int| 0 <= i < p ==> !precedes(name@, (#[trigger] all[i]).database),
        decreases list.len() - p,
    {
        if is_before(name, list[p].database.as_str()) {
            proof {
                assert(all[p as int].database == list@[p as int].database@);
                assert forall|i: int| p <= i < list.len() implies !precedes(
                    (#[trigger] all[i]).database,
                    name@,
                ) by {
                    order_is_total(all[i].database, name@, all[p as int].database);
                }
            }
            return p;
        }
        assert(all[p as int].database == list@[p as int].database@);
        p = p + 1;
    }
    p
}

/// Wherever a value is put in, the list holds that value more.
proof fn lemma_insert_adds(list: Seq<StatusView>, p: int, status: StatusView)
    requires
        0 <= p <= list.len(),
    ensures
        list.insert(p, status).to_multiset() == list.to_multiset().insert(status),
{
    let longer = list.insert(p, status);
    longer.to_multiset_ensures();
    assert(longer.remove(p) == list);
    assert(longer[p] == status);
    assert(longer.contains(status));
    assert(longer.to_multiset().remove(status).insert(status) == longer.to_multiset());
}

/// The statuses of all databases, in alphabetical order.
fn sorted_statuses(state: &QuotaState) -> (r: Vec<QuotaStatus>)
    ensures
        is_sorted(status_views(r@)),
        status_views(r@).to_multiset() == status_list(*state).to_multiset(),
{
    let list: Vec<QuotaStatus> = all_quota_statuses(state);
    let ghost all = status_views(list@);
    let mut out: Vec<QuotaStatus> = Vec::new();
    let mut i: usize = 0;
    assert(all.take(0) == Seq::<StatusView>::empty());
    assert(status_views(out@) == Seq::<StatusView>::empty());
    while i < list.len()
        invariant
            i <= list.len(),
            all == status_views(list@),
            is_sorted(status_views(out@)),
            status_views(out@).to_multiset() == all.take(i as int).to_multiset(),
        decreases list.len() - i,
    {
        let ghost before = status_views(out@);
        assert(before.len() == out@.len());
        let status: QuotaStatus = list[i].duplicate();
        let p: usize = insertion_point(&out, status.database.as_str());
        out.insert(p, status);
        proof {
            let after = status_views(out@);
            assert(after == before.insert(p as int, status@));
            assert(all.take(i + 1) == all.take(i as int).push(all[i as int]));
            assert(all[i as int] == status@);
            lemma_insert_adds(before, p as int, status@);
            all.take(i as int).to_multiset_ensures();
            assert forall|a: int, b: int| 0 <= a < b < after.len() implies !precedes(
                (#[trigger] after[b]).database,
                (#[trigger] after[a]).database,
            ) by {
                let a0 = if a < p {
                    a
                } else {
                    a - 1
                };
                let b0 = if b < p {
                    b
                } else {
                    b - 1
                };
                if a != p {
                    assert(after[a] == before[a0]);
                }
                if b != p {
                    assert(after[b] == before[b0]);
                }
            }
        }
        i = i + 1;
    }
    assert(all.take(i as int) == all);
    out
}

/// A list with the statuses of `state` holds each of them, and no others.
proof fn lemma_same_statuses(state: QuotaState, sorted: Seq<StatusView>)
    requires
        sorted.to_multiset() == status_list(state).to_multiset(),
    ensures
        sorted.len() == state.order().len(),
        forall|s: StatusView| #[trigger]
            sorted.contains(s) <==> status_list(state).contains(s),
{
    let listed = status_list(state);
    sorted.to_multiset_ensures();
    listed.to_multiset_ensures();
    assert forall|s: StatusView| #[trigger] sorted.contains(s) <==> listed.contains(s) by {
        assert(sorted.contains(s) <==> sorted.to_multiset().count(s) > 0);
        assert(listed.contains(s) <==> listed.to_multiset().count(s) > 0);
    }
}

/// `SHOW QUOTAS`.
pub struct ShowQuotas;

impl ShowQuotas {
    /// The name of the command.
    pub fn name(&self) -> (r: String)
        ensures
            r@ == "SHOW QUOTAS"@,
    {
        "SHOW QUOTAS".to_owned()
    }

    /// Reads the command, which takes no arguments.
    pub fn parse(_sql: &str) -> (r: Result<Self, Error>)
        ensures
            r is Ok,
    {
        Ok(ShowQuotas)
    }

    /// Lists all databases with a status, in alphabetical order.
    pub fn execute(&self, state: &QuotaState) -> (r: QuotaRows)
        ensures
            r.columns.len() == 4,
            r.columns[0].name@ == "database"@ && r.columns[0].column_type == ColumnType::Text,
            r.columns[1].name@ == "current_size"@ && r.columns[1].column_type
                == ColumnType::Bigint,
            r.columns[2].name@ == "max_size"@ && r.columns[2].column_type == ColumnType::Bigint,
            r.columns[3].name@ == "over_limit"@ && r.columns[3].column_type == ColumnType::Bool,
            r.rows.len() == state.order().len(),
            forall|i: int, j: int|
                0 <= i < j < r.rows.len() ==> !precedes(
                    (#[trigger] r.rows@[j]).database@,
                    (#[trigger] r.rows@[i]).database@,
                ),
            forall|k: int|
                0 <= k < state.order().len() ==> row_views(r.rows@).contains(
                    row_of(state@[#[trigger] state.order()[k]]),
                ),
            forall|i: int|
                0 <= i < r.rows.len() ==> rows_of(status_list(*state)).contains(
                    (#[trigger] r.rows@[i])@,
                ),
            exists|sorted: Seq<StatusView>|
                is_sorted(sorted) && sorted.to_multiset() == status_list(*state).to_multiset()
                    && row_views(r.rows@) == #[trigger] rows_of(sorted),
    {
        let mut columns: Vec<Column> = Vec::new();
        columns.push(Column { name: "database", column_type: ColumnType::Text });
        columns.push(Column { name: "current_size", column_type: ColumnType::Bigint });
        columns.push(Column { name: "max_size", column_type: ColumnType::Bigint });
        columns.push(Column { name: "over_limit", column_type: ColumnType::Bool });
        let list: Vec<QuotaStatus> = sorted_statuses(state);
        let ghost sorted = status_views(list@);
        let ghost all = rows_of(sorted);
        let mut rows: Vec<QuotaRow> = Vec::new();
        let mut i: usize = 0;
        assert(row_views(rows@) == all.take(0));
        while i < list.len()
            invariant
                i <= list.len(),
                sorted == status_views(list@),
                all == rows_of(sorted),
                row_views(rows@) == all.take(i as int),
            decreases list.len() - i,
        {
            let ghost before = row_views(rows@);
            let status: &QuotaStatus = &list[i];
            let current_size: i64 = if status.current_size == u64::MAX {
                -1
            } else {
                clamp(status.current_size)
            };
            let row = QuotaRow {
                database: status.database.clone(),
                current_size,
                max_size: clamp(status.max_size),
                over_limit: status.over_limit,
            };
            proof {
                assert(sorted[i as int] == status@);
                assert(all[i as int] == row@);
                assert(all.take(i + 1) == all.take(i as int).push(row@));
            }
            rows.push(row);
            assert(row_views(rows@) == before.push(row@));
            i = i + 1;
        }
        assert(all.take(i as int) == all);
        proof {
            lemma_same_statuses(*state, sorted);
            let listed = status_list(*state);
            assert(row_views(rows@).len() == rows@.len());
            assert(all.len() == sorted.len());
            assert forall|i: int| 0 <= i < rows.len() implies (#[trigger] rows@[i])@ == row_of(
                sorted[i],
            ) by {
                assert(row_views(rows@)[i] == rows@[i]@);
                assert(all[i] == row_of(sorted[i]));
            }
            assert forall|i: int, j: int| 0 <= i < j < rows.len() implies !precedes(
                (#[trigger] rows@[j]).database@,
                (#[trigger] rows@[i]).database@,
            ) by {
                assert(rows@[i]@.database == sorted[i].database);
                assert(rows@[j]@.database == sorted[j].database);
            }
            assert forall|k: int| 0 <= k < state.order().len() implies row_views(rows@).contains(
                row_of(state@[#[trigger] state.order()[k]]),
            ) by {
                assert(listed[k] == state@[state.order()[k]]);
                assert(listed.contains(listed[k]));
                assert(sorted.contains(listed[k]));
                let i = sorted.index_of(listed[k]);
                assert(row_views(rows@)[i] == row_of(sorted[i]));
            }
            assert forall|i: int| 0 <= i < rows.len() implies rows_of(listed).contains(
                (#[trigger] rows@[i])@,
            ) by {
                assert(sorted.contains(sorted[i]));
                assert(listed.contains(sorted[i]));
                let k = listed.index_of(sorted[i]);
                assert(rows_of(listed)[k] == row_of(listed[k]));
            }
        }
        QuotaRows { columns, rows }
    }
}

// ── Laws ────────────────────────────────────────────────────────────────

/// The names that a request could mean are those of the configured databases
/// that differ from it at most in case, each once.
pub proof fn matches_are_configured(dbs: Seq<Database>, requested: Seq<char>, name: Seq<char>)
    ensures
        matching_names(dbs, requested).no_duplicates(),
        matching_names(dbs, requested).contains(name) <==> same_name(name, requested) && exists|
            i: int,
        |
            0 <= i < dbs.len() && (#[trigger] dbs[i]).name@ == name,
    decreases dbs.len(),
{
    if dbs.len() > 0 {
        let front = dbs.drop_last();
        let before = matching_names(front, requested);
        let last = dbs.last().name@;
        matches_are_configured(front, requested, name);
        matches_are_configured(front, requested, last);
        if before.contains(name) {
            let i = choose|i: int| 0 <= i < front.len() && (#[trigger] front[i]).name@ == name;
            assert(dbs[i].name@ == name);
            let k = before.index_of(name);
            assert(before.push(last)[k] == name);
        }
        assert(before.push(last)[before.len() as int] == last);
        assert(dbs[dbs.len() - 1].name@ == last);
        if exists|i: int| 0 <= i < dbs.len() && (#[trigger] dbs[i]).name@ == name {
            let i = choose|i: int| 0 <= i < dbs.len() && (#[trigger] dbs[i]).name@ == name;
            if i < front.len() {
                assert(front[i].name@ == name);
            }
        }
    }
}

/// A limit is only ever set on a database that is polled: the name that a
/// request resolves to differs from it at most in case, and is that of a
/// target.
pub proof fn resolved_is_polled(config: ConfigAndUsers, requested: Seq<char>)
    requires
        resolution(config, requested) is Ok,
    ensures
        same_name(resolution(config, requested)->Ok_0, requested),
        exists|p: int|
            0 <= p < targets_of(config).len() && #[trigger] targets_of(config)[p].pool_name
                == resolution(config, requested)->Ok_0,
{
    let dbs = config.databases@;
    let general = config.general.default_max_db_size;
    let names = matching_names(dbs, requested);
    let i = choose|i: int|
        0 <= i < dbs.len() && same_name((#[trigger] dbs[i]).name@, requested) && enforced(
            dbs[i],
            general,
        );
    matches_are_configured(dbs, requested, dbs[i].name@);
    assert(names[0] == dbs[i].name@);
    polled_iff_enforced(config, names[0]);
}

/// Any spelling of a polled database resolves to it, however many servers it
/// has, unless another database has the same name but for case.
pub proof fn polled_is_resolved(config: ConfigAndUsers, requested: Seq<char>, p: int)
    requires
        0 <= p < targets_of(config).len(),
        same_name(targets_of(config)[p].pool_name, requested),
        forall|i: int|
            0 <= i < config.databases@.len() && same_name(
                (#[trigger] config.databases@[i]).name@,
                requested,
            ) ==> config.databases@[i].name@ == targets_of(config)[p].pool_name,
    ensures
        resolution(config, requested) == Ok::<Seq<char>, ErrorView>(
            targets_of(config)[p].pool_name,
        ),
{
    let dbs = config.databases@;
    let general = config.general.default_max_db_size;
    let names = matching_names(dbs, requested);
    let name = targets_of(config)[p].pool_name;
    polled_iff_enforced(config, name);
    let i = choose|i: int|
        0 <= i < dbs.len() && (#[trigger] dbs[i]).name@ == name && enforced(dbs[i], general);
    assert(same_name(dbs[i].name@, requested));
    matches_are_configured(dbs, requested, name);
    assert forall|k: int| 0 <= k < names.len() implies names[k] == name by {
        matches_are_configured(dbs, requested, names[k]);
        assert(names.contains(names[k]));
    }
    if names.len() > 1 {
        assert(names[0] == names[1]);
    }
}

/// When a request fails, and with which error: no configured database matches;
/// or several that differ in case do; or one does, and it is not polled.
pub proof fn resolution_errors(config: ConfigAndUsers, requested: Seq<char>)
    ensures
        ({
            let dbs = config.databases@;
            let r = resolution(config, requested);
            &&& (r matches Err(ErrorView::UnknownDatabase(_))) <==> forall|i: int|
                0 <= i < dbs.len() ==> !same_name((#[trigger] dbs[i]).name@, requested)
            &&& (r matches Err(ErrorView::AmbiguousDatabase(_, _))) <==> exists|i: int, j: int|
                0 <= i < dbs.len() && 0 <= j < dbs.len() && same_name(
                    (#[trigger] dbs[i]).name@,
                    requested,
                ) && same_name((#[trigger] dbs[j]).name@, requested) && dbs[i].name@
                    != dbs[j].name@
            &&& (r matches Err(ErrorView::QuotaNotConfigured(_))) ==> forall|p: int|
                0 <= p < targets_of(config).len() ==> !same_name(
                    #[trigger] targets_of(config)[p].pool_name,
                    requested,
                )
        }),
{
    let dbs = config.databases@;
    let general = config.general.default_max_db_size;
    let names = matching_names(dbs, requested);
    assert forall|i: int|
        0 <= i < dbs.len() && same_name((#[trigger] dbs[i]).name@, requested) implies names.contains(
        dbs[i].name@,
    ) by {
        matches_are_configured(dbs, requested, dbs[i].name@);
    }
    if names.len() > 0 {
        assert(names.contains(names[0]));
        matches_are_configured(dbs, requested, names[0]);
    }
    if names.len() > 1 {
        assert(names.contains(names[1]));
        matches_are_configured(dbs, requested, names[1]);
        let i = choose|i: int| 0 <= i < dbs.len() && (#[trigger] dbs[i]).name@ == names[0];
        let j = choose|j: int| 0 <= j < dbs.len() && (#[trigger] dbs[j]).name@ == names[1];
        assert(dbs[i].name@ != dbs[j].name@);
    }
    if resolution(config, requested) matches Err(ErrorView::QuotaNotConfigured(_)) {
        assert forall|p: int| 0 <= p < targets_of(config).len() implies !same_name(
            #[trigger] targets_of(config)[p].pool_name,
            requested,
        ) by {
            polled_iff_enforced(config, targets_of(config)[p].pool_name);
        }
    }
}

/// What is written is read: a command of a name without white space and the
/// digits of a number is read as that name and that number.
pub proof fn set_quota_reads_back(database: Seq<char>, bytes: u64)
    requires
        is_word(database),
    ensures
        ({
            let w = words(
                joined(seq!["set"@, "quota"@, database, decimal(bytes as nat)], seq![' ']),
            );
            &&& w.len() == 4 && w[0] == "set"@ && w[1] == "quota"@ && w[2] == database
            &&& parsed_u64(w[3]) == Ok::<u64, ParseIntError>(bytes)
        }),
{
    let list = seq!["set"@, "quota"@, database, decimal(bytes as nat)];
    reveal_strlit("set");
    reveal_strlit("quota");
    decimal_is_word(bytes as nat);
    words_of_joined(list);
    parse_of_decimal(bytes);
}

/// A reset takes effect at once: where a request resolves, the status of the
/// database, if it has one, is under the limit of its target behind the reset,
/// and over exactly where it is larger.
pub proof fn reset_is_visible(
    config: ConfigAndUsers,
    requested: Seq<char>,
    overrides: Map<Seq<char>, u64>,
    state: Map<Seq<char>, StatusView>,
)
    requires
        resolution(config, requested) is Ok,
    ensures
        ({
            let name = resolution(config, requested)->Ok_0;
            let (o, s) = after_clear(overrides, state, config, name);
            &&& !o.contains_key(name)
            &&& state.contains_key(name) ==> s.contains_key(name) && s[name].over_limit == (
            s[name].current_size > s[name].max_size) && s[name].current_size
                == state[name].current_size && exists|p: int|
                0 <= p < targets_of(config).len() && (#[trigger] targets_of(config)[p]).pool_name
                    == name && targets_of(config)[p].max_size == s[name].max_size
        }),
{
    resolved_is_polled(config, requested);
    let p = choose|p: int|
        0 <= p < targets_of(config).len() && #[trigger] targets_of(config)[p].pool_name
            == resolution(config, requested)->Ok_0;
    clear_agrees_with_poll(config, overrides, state, p);
}

/// The number -1 shows exactly where the size of a database is not known.
pub proof fn unmeasured_shows_minus_one(status: StatusView)
    ensures
        row_of(status).current_size == -1 <==> status.current_size == u64::MAX,
        status.current_size <= i64::MAX ==> row_of(status).current_size == status.current_size,
        row_of(status).current_size <= i64::MAX,
{
}

// ── Laws by fields ──────────────────────────────────────────────────────

/// Each row shows the status of its database: its name, whether it is over its
/// limit, whatever its size, its size and its limit as far as they fit into the
/// column, and -1 for a size that is not known.
pub proof fn rows_show_their_status(status: StatusView)
    ensures
        row_of(status).database == status.database,
        row_of(status).over_limit == status.over_limit,
        status.max_size <= i64::MAX ==> row_of(status).max_size == status.max_size,
        status.max_size > i64::MAX ==> row_of(status).max_size == i64::MAX,
        status.current_size <= i64::MAX ==> row_of(status).current_size == status.current_size,
        i64::MAX < status.current_size < u64::MAX ==> row_of(status).current_size == i64::MAX,
        status.current_size == u64::MAX ==> row_of(status).current_size == -1,
{
}

/// A row says what its fields say, and a list of rows what its rows say.
pub proof fn rows_by_fields(row: QuotaRow, list: Seq<QuotaRow>, statuses: Seq<StatusView>, i: int)
    ensures
        row@.database == row.database@,
        row@.current_size == row.current_size,
        row@.max_size == row.max_size,
        row@.over_limit == row.over_limit,
        row_views(list).len() == list.len(),
        0 <= i < list.len() ==> row_views(list)[i] == list[i]@,
        rows_of(statuses).len() == statuses.len(),
        0 <= i < statuses.len() ==> rows_of(statuses)[i] == row_of(statuses[i]),
{
}

/// In a sorted list no database stands behind one that it comes before.
pub proof fn sorted_by_name(list: Seq<StatusView>, i: int, j: int)
    requires
        is_sorted(list),
        0 <= i < j < list.len(),
    ensures
        !precedes(list[j].database, list[i].database),
{
}

/// An error says what it holds.
pub proof fn errors_by_fields(a: String, b: String, e: ParseIntError)
    ensures
        Error::Syntax@ == ErrorView::Syntax,
        Error::ParseInt(e)@ == ErrorView::ParseInt(e),
        Error::UnknownDatabase(a)@ == ErrorView::UnknownDatabase(a@),
        Error::QuotaNotConfigured(a)@ == ErrorView::QuotaNotConfigured(a@),
        Error::AmbiguousDatabase(a, b)@ == ErrorView::AmbiguousDatabase(a@, b@),
{
}

/// What the errors of a request say: the request itself where nothing or too
/// much matches, in the latter case with the matching names, separated by
/// commas; and the configured name where the database is not polled.
pub proof fn resolution_errors_by_fields(
    config: ConfigAndUsers,
    requested: Seq<char>,
    error: ErrorView,
)
    requires
        resolution(config, requested) == Err::<Seq<char>, ErrorView>(error),
    ensures
        error is UnknownDatabase || error is QuotaNotConfigured || error is AmbiguousDatabase,
        error is UnknownDatabase ==> error->UnknownDatabase_0 == requested,
        error is AmbiguousDatabase ==> error->AmbiguousDatabase_0 == requested
            && error->AmbiguousDatabase_1 == joined(
            matching_names(config.databases@, requested),
            ", "@,
        ),
        error is QuotaNotConfigured ==> same_name(error->QuotaNotConfigured_0, requested)
            && exists|i: int|
            0 <= i < config.databases@.len() && (#[trigger] config.databases@[i]).name@
                == error->QuotaNotConfigured_0,
{
    let names = matching_names(config.databases@, requested);
    if names.len() > 0 {
        assert(names.contains(names[0]));
        matches_are_configured(config.databases@, requested, names[0]);
    }
}

/// A name that a request could mean is listed where the first database of that
/// name stands: adding a server to the configuration leaves the names that are
/// there in place, and adds at most the new server's name behind them.
pub proof fn matches_keep_their_order(dbs: Seq<Database>, db: Database, requested: Seq<char>)
    ensures
        ({
            let before = matching_names(dbs, requested);
            let after = matching_names(dbs.push(db), requested);
            &&& after.take(before.len() as int) == before
            &&& before.len() <= after.len() <= before.len() + 1
            &&& after.len() > before.len() <==> same_name(db.name@, requested) && forall|i: int|
                0 <= i < dbs.len() ==> (#[trigger] dbs[i]).name@ != db.name@
            &&& after.len() > before.len() ==> after.last() == db.name@
        }),
{
    let before = matching_names(dbs, requested);
    let after = matching_names(dbs.push(db), requested);
    assert(dbs.push(db).drop_last() == dbs);
    matches_are_configured(dbs, requested, db.name@);
    assert(after.take(before.len() as int) == before);
}

/// A name is found in any case of its letters, and in no other spelling: what a
/// request resolves to has its length, and at each place the same character or
/// the same ASCII letter in the other case.
pub proof fn resolved_is_the_name_requested(config: ConfigAndUsers, requested: Seq<char>)
    requires
        resolution(config, requested) is Ok,
    ensures
        ({
            let name = resolution(config, requested)->Ok_0;
            &&& name.len() == requested.len()
            &&& forall|i: int|
                0 <= i < name.len() ==> (#[trigger] name[i] == requested[i] || ('A' <= name[i]
                    <= 'Z' && requested[i] as int == name[i] as int + 32) || ('A' <= requested[i]
                    <= 'Z' && name[i] as int == requested[i] as int + 32))
        }),
{
    resolved_is_polled(config, requested);
    names_match_but_for_case(resolution(config, requested)->Ok_0, requested);
}

} // verus!
