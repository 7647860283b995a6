//! The hooks of the query engine: quotas are enforced before a query is
//! executed.

use vstd::prelude::*;

use crate::classify::{
    batches_add_up, has_copy_from, has_data_write, has_drop_database, is_copy_from, is_data_write,
    is_drop_database, is_shrink_operation, only_shrinks, shrinking_is_no_write, Ast, Statement,
};
use crate::config::ConfigAndUsers;
use crate::monitor::{
    committed, config_names_differ, limit_in_force, measurement_decides, poll_publishes_targets,
    seeded, start_is_closed,
};
use crate::names::NameMap;
use crate::quota::{after_set, is_over_quota, quota_status, QuotaState, QuotaStatus, StatusView};
use crate::targets::{enforced, polled_iff_enforced, targets_of};
use crate::text::{decimal, push_decimal};

verus! {

/// Why a query is refused.
#[derive(Debug)]
pub enum Error {
    /// The database is over its limit.
    QuotaExceeded(String),
}

impl Error {
    /// The error as clients see it.
    pub fn message(&self) -> (r: String)
        ensures
            match *self {
                Error::QuotaExceeded(reason) => r@ == "database quota exceeded: "@ + reason@,
            },
    {
        match self {
            Error::QuotaExceeded(reason) => {
                let mut text: String = "database quota exceeded: ".to_owned();
                text.append(reason.as_str());
                text
            },
        }
    }
}

/// A query on its way through the engine.
pub struct QueryEngineContext {
    /// The parameters that the client connected with.
    pub params: NameMap<String>,
    /// The parse tree of the query. There is none in the extended protocol, nor
    /// where the parser is switched off.
    pub ast: Option<Ast>,
}

/// The database of a client: its parameter `database`, else that of the name
/// of its user. A client without a user has none.
pub open spec fn database_of(params: Map<Seq<char>, Seq<char>>) -> Option<Seq<char>> {
    if !params.contains_key("user"@) {
        None
    } else if params.contains_key("database"@) {
        Some(params["database"@])
    } else {
        Some(params["user"@])
    }
}

/// Whether a query of these statements is blocked over the limit: one of them
/// writes data, imports rows or drops a database.
pub open spec fn has_blocked(stmts: Seq<Option<Statement>>) -> bool {
    has_data_write(stmts) || has_copy_from(stmts) || has_drop_database(stmts)
}

/// Whether a parse tree is one that is blocked over the limit.
pub open spec fn is_blocked(ast: Option<Ast>) -> bool {
    match ast {
        Some(ast) => !only_shrinks(ast.stmts@) && has_blocked(ast.stmts@),
        None => false,
    }
}

/// Whether a query of a client with the parameters `params` is refused.
pub open spec fn is_refused(
    params: Map<Seq<char>, Seq<char>>,
    ast: Option<Ast>,
    state: Map<Seq<char>, StatusView>,
) -> bool {
    match database_of(params) {
        Some(database) => state.contains_key(database) && state[database].over_limit && is_blocked(
            ast,
        ),
        None => false,
    }
}

/// What a refused client is told of its database.
pub open spec fn refusal_text(database: Seq<char>, status: Option<StatusView>) -> Seq<char> {
    match status {
        Some(status) => "database '"@ + database + "' has exceeded its size quota ("@ + decimal(
            status.current_size as nat,
        ) + " bytes used, "@ + decimal(status.max_size as nat) + " bytes limit)"@,
        None => "database '"@ + database + "' has exceeded its size quota"@,
    }
}

/// What a refused client is told of its database, which has the status
/// `status`.
pub fn refusal(database: &str, status: Option<QuotaStatus>) -> (r: String)
    ensures
        r@ == refusal_text(
            database@,
            match status {
                Some(status) => Some(status@),
                None => None,
            },
        ),
        status is None ==> r@ == "database '"@ + database@ + "' has exceeded its size quota"@,
        status is Some ==> r@ == "database '"@ + database@ + "' has exceeded its size quota ("@
            + decimal(status->0.current_size as nat) + " bytes used, "@ + decimal(
            status->0.max_size as nat,
        ) + " bytes limit)"@,
{
    let mut text: String = "database '".to_owned();
    text.append(database);
    match status {
        Some(status) => {
            text.append("' has exceeded its size quota (");
            push_decimal(&mut text, status.current_size);
            text.append(" bytes used, ");
            push_decimal(&mut text, status.max_size);
            text.append(" bytes limit)");
        },
        None => {
            text.append("' has exceeded its size quota");
        },
    }
    text
}

/// What a check of a query gives.
pub open spec fn checked(
    params: Map<Seq<char>, Seq<char>>,
    ast: Option<Ast>,
    state: Map<Seq<char>, StatusView>,
    r: Result<(), Error>,
) -> bool {
    match r {
        Ok(_) => !is_refused(params, ast, state),
        Err(Error::QuotaExceeded(reason)) => is_refused(params, ast, state) && reason@
            == refusal_text(database_of(params)->0, Some(state[database_of(params)->0])),
    }
}

/// The hooks of the query engine.
#[derive(Debug)]
pub struct QueryEngineHooks;

impl Default for QueryEngineHooks {
    fn default() -> (r: Self)
        ensures
            r == QueryEngineHooks,
    {
        QueryEngineHooks::new()
    }
}

impl QueryEngineHooks {
    /// The hooks.
    pub fn new() -> (r: Self)
        ensures
            r == QueryEngineHooks,
    {
        QueryEngineHooks
    }

    /// Runs before a query is executed.
    pub fn before_execution(
        &mut self,
        context: &mut QueryEngineContext,
        state: &QuotaState,
    ) -> (r: Result<(), Error>)
        ensures
            *final(context) == *old(context),
            checked(old(context).params@, old(context).ast, state@, r),
    {
        self.check_quota(context, state)
    }

    /// Runs when a server connection was made.
    pub fn after_connected(&mut self, _context: &mut QueryEngineContext) -> (r: Result<(), Error>)
        ensures
            *final(_context) == *old(_context),
            r is Ok,
    {
        Ok(())
    }

    /// Runs after a query was executed.
    pub fn after_execution(&mut self, _context: &mut QueryEngineContext) -> (r: Result<(), Error>)
        ensures
            *final(_context) == *old(_context),
            r is Ok,
    {
        Ok(())
    }

    /// Runs on each message of the server.
    pub fn on_server_message(&mut self, _context: &mut QueryEngineContext) -> (r: Result<
        (),
        Error,
    >)
        ensures
            *final(_context) == *old(_context),
            r is Ok,
    {
        Ok(())
    }

    /// Runs on each error of the engine.
    pub fn on_engine_error(&mut self, _context: &mut QueryEngineContext) -> (r: Result<(), Error>)
        ensures
            *final(_context) == *old(_context),
            r is Ok,
    {
        Ok(())
    }

    /// Refuses a query that writes to a database over its limit.
    ///
    /// A query that shrinks the database is let through, and so is one that
    /// neither writes data nor imports rows nor drops a database.
    ///
    /// A query without a parse tree is let through: its kind is not known, and
    /// most such queries are reads. The server itself refuses writes soon
    /// after the limit is passed.
    pub fn check_quota(&self, context: &QueryEngineContext, state: &QuotaState) -> (r: Result<
        (),
        Error,
    >)
        ensures
            checked(context.params@, context.ast, state@, r),
    {
        let user: &String = match context.params.get("user") {
            Some(user) => user,
            None => return Ok(()),
        };
        let database: &String = match context.params.get("database") {
            Some(database) => database,
            None => user,
        };
        assert(database_of(context.params@) == Some(database@));
        if !is_over_quota(state, database.as_str()) {
            return Ok(());
        }
        match &context.ast {
            Some(ast) => {
                if is_shrink_operation(ast) {
                    return Ok(());
                }
                if !is_data_write(ast) && !is_copy_from(ast) && !is_drop_database(ast) {
                    return Ok(());
                }
            },
            None => {
                return Ok(());
            },
        }
        let status: Option<QuotaStatus> = quota_status(state, database.as_str());
        Err(Error::QuotaExceeded(refusal(database.as_str(), status)))
    }
}

// ── Laws ────────────────────────────────────────────────────────────────

/// A query is refused exactly where its database is over the limit and it
/// holds a statement that writes data, a COPY FROM or a DROP DATABASE, whatever
/// else it holds.
pub proof fn refused_iff_write_over_limit(
    params: Map<Seq<char>, Seq<char>>,
    ast: Ast,
    state: Map<Seq<char>, StatusView>,
)
    ensures
        is_refused(params, Some(ast), state) <==> (database_of(params) matches Some(database)
            && state.contains_key(database) && state[database].over_limit && has_blocked(
            ast.stmts@,
        )),
{
    if only_shrinks(ast.stmts@) {
        shrinking_is_no_write(ast.stmts@);
    }
}

/// A query that reads, controls the session or shrinks the database is let
/// through, however large the database is: so is every query without a
/// statement that writes data, a COPY FROM and a DROP DATABASE.
pub proof fn reads_and_shrinks_pass(
    params: Map<Seq<char>, Seq<char>>,
    ast: Ast,
    state: Map<Seq<char>, StatusView>,
)
    requires
        only_shrinks(ast.stmts@) || !has_blocked(ast.stmts@),
    ensures
        !is_refused(params, Some(ast), state),
{
}

/// A query without a parse tree is let through.
pub proof fn unparsed_queries_pass(
    params: Map<Seq<char>, Seq<char>>,
    state: Map<Seq<char>, StatusView>,
)
    ensures
        !is_refused(params, None, state),
{
}

/// One tenant does not see the size of another: only the status of the
/// client's own database decides.
pub proof fn only_own_database_counts(
    params: Map<Seq<char>, Seq<char>>,
    ast: Option<Ast>,
    state: Map<Seq<char>, StatusView>,
    other: Seq<char>,
    status: StatusView,
)
    requires
        database_of(params) != Some(other),
    ensures
        is_refused(params, ast, state.insert(other, status)) == is_refused(params, ast, state),
        is_refused(params, ast, state.remove(other)) == is_refused(params, ast, state),
{
}

/// A new limit decides on the next query: a write to the database is refused
/// exactly where the database is larger than the new limit.
pub proof fn new_limit_decides_next_query(
    params: Map<Seq<char>, Seq<char>>,
    ast: Ast,
    overrides: Map<Seq<char>, u64>,
    state: Map<Seq<char>, StatusView>,
    max_size: u64,
)
    requires
        database_of(params) is Some,
        state.contains_key(database_of(params)->0),
        has_blocked(ast.stmts@),
    ensures
        is_refused(
            params,
            Some(ast),
            after_set(overrides, state, database_of(params)->0, max_size).1,
        ) <==> state[database_of(params)->0].current_size > max_size,
{
    if only_shrinks(ast.stmts@) {
        shrinking_is_no_write(ast.stmts@);
    }
}

/// Quotas are enforced: behind a poll that measured a database, a query that
/// writes to it is refused exactly where the database is larger than its
/// limit, be it configured or set at run time.
pub proof fn measured_excess_is_refused(
    config: ConfigAndUsers,
    sizes: Seq<Option<u64>>,
    live: Map<Seq<char>, StatusView>,
    overrides: Map<Seq<char>, u64>,
    p: int,
    params: Map<Seq<char>, Seq<char>>,
    ast: Ast,
)
    requires
        sizes.len() == targets_of(config).len(),
        0 <= p < sizes.len(),
        sizes[p] is Some,
        database_of(params) == Some(targets_of(config)[p].pool_name),
        has_blocked(ast.stmts@),
    ensures
        is_refused(
            params,
            Some(ast),
            committed(targets_of(config), sizes, live, overrides, sizes.len() as int),
        ) <==> sizes[p]->0 > limit_in_force(overrides, targets_of(config)[p]),
{
    config_names_differ(config);
    measurement_decides(targets_of(config), sizes, live, overrides, p);
    if only_shrinks(ast.stmts@) {
        shrinking_is_no_write(ast.stmts@);
    }
}

/// Enforcement starts closed: until a database with a limit has been measured,
/// every query that writes to it is refused.
pub proof fn unmeasured_is_refused(
    config: ConfigAndUsers,
    p: int,
    params: Map<Seq<char>, Seq<char>>,
    ast: Ast,
)
    requires
        0 <= p < targets_of(config).len(),
        database_of(params) == Some(targets_of(config)[p].pool_name),
        has_blocked(ast.stmts@),
    ensures
        is_refused(params, Some(ast), seeded(targets_of(config))),
{
    start_is_closed(targets_of(config), targets_of(config)[p].pool_name);
    if only_shrinks(ast.stmts@) {
        shrinking_is_no_write(ast.stmts@);
    }
}

/// A database on which no limit is enforced is left alone, before the first
/// poll and behind every poll.
pub proof fn unlimited_passes(
    config: ConfigAndUsers,
    sizes: Seq<Option<u64>>,
    live: Map<Seq<char>, StatusView>,
    overrides: Map<Seq<char>, u64>,
    params: Map<Seq<char>, Seq<char>>,
    ast: Option<Ast>,
)
    requires
        sizes.len() == targets_of(config).len(),
        database_of(params) matches Some(database) ==> forall|i: int|
            0 <= i < config.databases@.len() && (#[trigger] config.databases@[i]).name@ == database
                ==> config.limit(i) is None,
    ensures
        !is_refused(params, ast, seeded(targets_of(config))),
        !is_refused(
            params,
            ast,
            committed(targets_of(config), sizes, live, overrides, sizes.len() as int),
        ),
{
    if let Some(database) = database_of(params) {
        let targets = targets_of(config);
        polled_iff_enforced(config, database);
        assert forall|p: int| 0 <= p < targets.len() implies (#[trigger] targets[p]).pool_name
            != database by {
            if targets[p].pool_name == database {
                let i = choose|i: int|
                    0 <= i < config.databases@.len() && (#[trigger] config.databases@[i]).name@
                        == database && enforced(
                        config.databases@[i],
                        config.general.default_max_db_size,
                    );
                assert(config.limit(i) is None);
            }
        }
        config_names_differ(config);
        start_is_closed(targets, database);
        poll_publishes_targets(targets, sizes, live, overrides, database);
    }
}

// ── Laws by fields ──────────────────────────────────────────────────────

/// Which database a query counts against: that of the parameter `database`,
/// else that of the name of the user, and none without a user.
pub proof fn database_by_parameters(params: Map<Seq<char>, Seq<char>>)
    ensures
        database_of(params) is Some <==> params.contains_key("user"@),
        params.contains_key("user"@) && params.contains_key("database"@) ==> database_of(params)
            == Some(params["database"@]),
        params.contains_key("user"@) && !params.contains_key("database"@) ==> database_of(params)
            == Some(params["user"@]),
{
}

/// A query is refused exactly where the client has a user, its database has a
/// status that is over the limit, and some statement of the query writes data,
/// is a COPY FROM or is a DROP DATABASE. Nothing else of the status, of the
/// parameters or of the query counts.
pub proof fn refused_by_statements(
    params: Map<Seq<char>, Seq<char>>,
    ast: Ast,
    state: Map<Seq<char>, StatusView>,
)
    ensures
        ({
            let name = if params.contains_key("database"@) {
                params["database"@]
            } else {
                params["user"@]
            };
            is_refused(params, Some(ast), state) <==> params.contains_key("user"@)
                && state.contains_key(name) && state[name].over_limit && (has_data_write(
                ast.stmts@,
            ) || has_copy_from(ast.stmts@) || has_drop_database(ast.stmts@))
        }),
{
    if only_shrinks(ast.stmts@) {
        shrinking_is_no_write(ast.stmts@);
    }
}

/// A write stays refused over the limit, whatever statements stand in front of
/// it or behind it in the same query.
pub proof fn refused_in_any_batch(
    params: Map<Seq<char>, Seq<char>>,
    x: Ast,
    ast: Ast,
    y: Ast,
    batch: Ast,
    state: Map<Seq<char>, StatusView>,
)
    requires
        batch.stmts@ == x.stmts@ + ast.stmts@ + y.stmts@,
        is_refused(params, Some(ast), state),
    ensures
        is_refused(params, Some(batch), state),
{
    batches_add_up(x.stmts@, ast.stmts@);
    batches_add_up(x.stmts@ + ast.stmts@, y.stmts@);
    refused_by_statements(params, ast, state);
    refused_by_statements(params, batch, state);
}

/// A check fails exactly where the query is refused, and then says the name of
/// the database, its size and its limit, each in decimal digits.
pub proof fn refusals_name_size_and_limit(
    params: Map<Seq<char>, Seq<char>>,
    ast: Option<Ast>,
    state: Map<Seq<char>, StatusView>,
    r: Result<(), Error>,
    reason: String,
)
    requires
        checked(params, ast, state, r),
    ensures
        r is Err <==> is_refused(params, ast, state),
        r == Err::<(), Error>(Error::QuotaExceeded(reason)) ==> ({
            let name = if params.contains_key("database"@) {
                params["database"@]
            } else {
                params["user"@]
            };
            reason@ == "database '"@ + name + "' has exceeded its size quota ("@ + decimal(
                state[name].current_size as nat,
            ) + " bytes used, "@ + decimal(state[name].max_size as nat) + " bytes limit)"@
        }),
{
}

} // verus!
