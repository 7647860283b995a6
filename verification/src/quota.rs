//! The quota status of each database, and limits set at run time.
//!
//! Writes to a database are blocked while it exceeds its size limit. A limit
//! set at run time goes before the configured one, and holds until it is
//! cleared or the process ends.

use vstd::prelude::*;

use crate::config::{ConfigAndUsers, Database};
use crate::names::{Duplicate, NameMap};
use crate::targets::{collect_targets, target_views, targets_of, QuotaTarget, TargetView};
use crate::text::same_text;

verus! {

/// The quota status of a database.
#[derive(Debug, Clone)]
pub struct QuotaStatus {
    /// The name of the database.
    pub database: String,
    /// Its size in bytes; the largest number before the first measurement.
    pub current_size: u64,
    /// Its limit in bytes.
    pub max_size: u64,
    /// Whether writes are blocked.
    pub over_limit: bool,
}

/// What a [`QuotaStatus`] says.
#[verifier::ext_equal]
pub struct StatusView {
    pub database: Seq<char>,
    pub current_size: u64,
    pub max_size: u64,
    pub over_limit: bool,
}

impl View for QuotaStatus {
    type V = StatusView;

    open spec fn view(&self) -> StatusView {
        StatusView {
            database: self.database@,
            current_size: self.current_size,
            max_size: self.max_size,
            over_limit: self.over_limit,
        }
    }
}

impl Duplicate for QuotaStatus {
    fn duplicate(&self) -> (r: Self) {
        QuotaStatus {
            database: self.database.clone(),
            current_size: self.current_size,
            max_size: self.max_size,
            over_limit: self.over_limit,
        }
    }
}

/// The status of each database that is polled.
pub type QuotaState = NameMap<QuotaStatus>;

/// The limits set at run time.
pub type Overrides = NameMap<u64>;

/// What a list of statuses says.
pub open spec fn status_views(list: Seq<QuotaStatus>) -> Seq<StatusView> {
    list.map_values(|s: QuotaStatus| s@)
}

/// The statuses of all databases, in the order in which the databases came in.
pub open spec fn status_list(state: QuotaState) -> Seq<StatusView> {
    state.order().map_values(|name: Seq<char>| state@[name])
}

/// `status` under the limit `max_size`: over exactly where it is larger.
pub open spec fn with_limit(status: StatusView, max_size: u64) -> StatusView {
    StatusView { max_size, over_limit: status.current_size > max_size, ..status }
}

/// `state` with the database `name`, where it has a status, under the limit
/// `max_size`.
pub open spec fn limited(
    state: Map<Seq<char>, StatusView>,
    name: Seq<char>,
    max_size: u64,
) -> Map<Seq<char>, StatusView> {
    if state.contains_key(name) {
        state.insert(name, with_limit(state[name], max_size))
    } else {
        state
    }
}

/// The limit of the target `name`.
pub open spec fn polled_limit(targets: Seq<TargetView>, name: Seq<char>) -> Option<u64>
    decreases targets.len(),
{
    if targets.len() == 0 {
        None
    } else if targets[0].pool_name == name {
        Some(targets[0].max_size)
    } else {
        polled_limit(targets.skip(1), name)
    }
}

/// The limit that the first server of the name `name` itself sets.
pub open spec fn first_own_limit(dbs: Seq<Database>, name: Seq<char>) -> Option<u64>
    decreases dbs.len(),
{
    if dbs.len() == 0 {
        None
    } else if dbs[0].name@ == name {
        dbs[0].max_db_size
    } else {
        first_own_limit(dbs.skip(1), name)
    }
}

/// The configured limit of the database `name`: the one that polls apply to
/// it. For a database that is not polled, it is what its first server sets.
pub open spec fn configured_limit(config: ConfigAndUsers, name: Seq<char>) -> Option<u64> {
    match polled_limit(targets_of(config), name) {
        Some(max_size) => Some(max_size),
        None => first_own_limit(config.databases@, name),
    }
}

/// The run-time limits and the state behind a new run-time limit.
pub open spec fn after_set(
    overrides: Map<Seq<char>, u64>,
    state: Map<Seq<char>, StatusView>,
    database: Seq<char>,
    max_size: u64,
) -> (Map<Seq<char>, u64>, Map<Seq<char>, StatusView>) {
    (overrides.insert(database, max_size), limited(state, database, max_size))
}

/// The run-time limits and the state behind the clearing of a run-time limit.
/// Where no limit is configured there is none to go back to.
pub open spec fn after_clear(
    overrides: Map<Seq<char>, u64>,
    state: Map<Seq<char>, StatusView>,
    config: ConfigAndUsers,
    database: Seq<char>,
) -> (Map<Seq<char>, u64>, Map<Seq<char>, StatusView>) {
    (
        overrides.remove(database),
        match configured_limit(config, database) {
            Some(max_size) => limited(state, database, max_size),
            None => state,
        },
    )
}

/// The quota status of a database.
pub fn quota_status(state: &QuotaState, database: &str) -> (r: Option<QuotaStatus>)
    ensures
        match r {
            Some(status) => state@.contains_key(database@) && status@ == state@[database@],
            None => !state@.contains_key(database@),
        },
{
    match state.get(database) {
        Some(status) => Some(status.duplicate()),
        None => None,
    }
}

/// Whether a database is over its limit. One without a status is not.
pub fn is_over_quota(state: &QuotaState, database: &str) -> (r: bool)
    ensures
        r == (state@.contains_key(database@) && state@[database@].over_limit),
{
    match state.get(database) {
        Some(status) => status.over_limit,
        None => false,
    }
}

/// The statuses of all databases, each once.
pub fn all_quota_statuses(state: &QuotaState) -> (r: Vec<QuotaStatus>)
    ensures
        status_views(r@) == status_list(*state),
        r.len() == state.order().len(),
        forall|i: int|
            0 <= i < r.len() ==> (#[trigger] r@[i])@ == state@[state.order()[i]],
        state.order().no_duplicates(),
        forall|name: Seq<char>| #[trigger]
            state@.contains_key(name) <==> state.order().contains(name),
{
    let n: usize = state.len();
    let mut out: Vec<QuotaStatus> = Vec::new();
    let mut i: usize = 0;
    while i < n
        invariant
            n == state.order().len(),
            i <= n,
            status_views(out@) == status_list(*state).take(i as int),
        decreases n - i,
    {
        let ghost before = status_views(out@);
        let e: (&String, &QuotaStatus) = state.entry(i);
        let status: QuotaStatus = e.1.duplicate();
        out.push(status);
        proof {
            assert(status_list(*state)[i as int] == status@);
            assert(status_views(out@) == before.push(status@));
            assert(status_list(*state).take(i + 1) == status_list(*state).take(i as int).push(
                status@,
            ));
        }
        i = i + 1;
    }
    assert(status_list(*state).take(n as int) == status_list(*state));
    proof {
        assert(status_views(out@).len() == out@.len());
        assert forall|i: int| 0 <= i < out.len() implies (#[trigger] out@[i])@
            == state@[state.order()[i]] by {
            assert(status_views(out@)[i] == out@[i]@);
        }
    }
    out
}

/// Puts the database, where it has a status, under the limit `max_size`.
pub fn apply_limit(state: &mut QuotaState, database: &str, max_size: u64)
    ensures
        final(state)@ == limited(old(state)@, database@, max_size),
        final(state).order() == old(state).order(),
{
    let updated: Option<QuotaStatus> = match state.get(database) {
        Some(status) => Some(
            QuotaStatus {
                database: status.database.clone(),
                current_size: status.current_size,
                max_size,
                over_limit: status.current_size > max_size,
            },
        ),
        None => None,
    };
    if let Some(status) = updated {
        assert(status@ == with_limit(state@[database@], max_size));
        state.insert(database.to_owned(), status);
    }
}

/// Sets the limit of a database at run time. Its status changes at once; the
/// limit also holds in later polls.
pub fn set_quota_override(
    overrides: &mut Overrides,
    state: &mut QuotaState,
    database: &str,
    max_size: u64,
)
    ensures
        (final(overrides)@, final(state)@) == after_set(
            old(overrides)@,
            old(state)@,
            database@,
            max_size,
        ),
        final(state).order() == old(state).order(),
{
    overrides.insert(database.to_owned(), max_size);
    apply_limit(state, database, max_size);
}

fn find_polled_limit(targets: &Vec<QuotaTarget>, database: &str) -> (r: Option<u64>)
    ensures
        r == polled_limit(target_views(targets@), database@),
{
    let ghost all = target_views(targets@);
    let mut i: usize = 0;
    assert(all.skip(0) == all);
    while i < targets.len()
        invariant
            i <= targets.len(),
            all == target_views(targets@),
            polled_limit(all, database@) == polled_limit(all.skip(i as int), database@),
        decreases targets.len() - i,
    {
        assert(all.skip(i as int)[0] == targets@[i as int]@);
        assert(all.skip(i as int).skip(1) == all.skip(i + 1));
        if same_text(targets[i].pool_name.as_str(), database) {
            return Some(targets[i].max_size);
        }
        i = i + 1;
    }
    None
}

fn find_first_own_limit(databases: &Vec<Database>, database: &str) -> (r: Option<u64>)
    ensures
        r == first_own_limit(databases@, database@),
{
    let ghost dbs = databases@;
    let mut i: usize = 0;
    assert(dbs.skip(0) == dbs);
    while i < databases.len()
        invariant
            dbs == databases@,
            i <= dbs.len(),
            first_own_limit(dbs, database@) == first_own_limit(dbs.skip(i as int), database@),
        decreases databases.len() - i,
    {
        assert(dbs.skip(i as int)[0] == dbs[i as int]);
        assert(dbs.skip(i as int).skip(1) == dbs.skip(i + 1));
        if same_text(databases[i].name.as_str(), database) {
            return databases[i].max_db_size;
        }
        i = i + 1;
    }
    None
}

fn find_configured_limit(config: &ConfigAndUsers, database: &str) -> (r: Option<u64>)
    ensures
        r == configured_limit(*config, database@),
{
    match find_polled_limit(&collect_targets(config), database) {
        Some(max_size) => Some(max_size),
        None => find_first_own_limit(&config.databases, database),
    }
}

/// Clears the limit of a database that was set at run time. Where a limit is
/// configured, the status goes back to it at once, and so to the limit that the
/// next poll applies.
pub fn clear_quota_override(
    overrides: &mut Overrides,
    state: &mut QuotaState,
    config: &ConfigAndUsers,
    database: &str,
)
    ensures
        (final(overrides)@, final(state)@) == after_clear(
            old(overrides)@,
            old(state)@,
            *config,
            database@,
        ),
        final(state).order() == old(state).order(),
{
    overrides.remove(database);
    if let Some(max_size) = find_configured_limit(config, database) {
        apply_limit(state, database, max_size);
    }
}

/// The limit of a database that was set at run time, if any.
pub fn quota_override(overrides: &Overrides, database: &str) -> (r: Option<u64>)
    ensures
        r == (if overrides@.contains_key(database@) {
            Some(overrides@[database@])
        } else {
            None
        }),
{
    match overrides.get(database) {
        Some(max_size) => Some(*max_size),
        None => None,
    }
}

// ── Laws ────────────────────────────────────────────────────────────────

/// Whether no database in `state` is larger than its limit without being
/// blocked.
pub open spec fn blocks_excess(state: Map<Seq<char>, StatusView>) -> bool {
    forall|name: Seq<char>| #[trigger]
        state.contains_key(name) && state[name].current_size > state[name].max_size
            ==> state[name].over_limit
}

/// A limit set at run time reads back, and shows in the status at once: the
/// database is over exactly where it is larger. Its size stays, and no status
/// appears or goes away.
pub proof fn override_is_visible(
    overrides: Map<Seq<char>, u64>,
    state: Map<Seq<char>, StatusView>,
    database: Seq<char>,
    max_size: u64,
)
    ensures
        ({
            let (o, s) = after_set(overrides, state, database, max_size);
            &&& o.contains_key(database) && o[database] == max_size
            &&& s.dom() == state.dom()
            &&& state.contains_key(database) ==> s[database].max_size == max_size
                && s[database].over_limit == (state[database].current_size > max_size)
                && s[database].current_size == state[database].current_size
                && s[database].database == state[database].database
        }),
{
    let (o, s) = after_set(overrides, state, database, max_size);
    assert(s.dom() =~= state.dom());
}

/// A limit of zero locks a database: it is over unless it is empty.
pub proof fn zero_locks(
    overrides: Map<Seq<char>, u64>,
    state: Map<Seq<char>, StatusView>,
    database: Seq<char>,
)
    requires
        state.contains_key(database),
    ensures
        after_set(overrides, state, database, 0).1[database].over_limit <==> state[database].current_size
            > 0,
{
}

/// A database that is exactly as large as its limit is not over it, and one
/// byte more is over.
pub proof fn limit_is_inclusive(status: StatusView, max_size: u64)
    ensures
        status.current_size == max_size ==> !with_limit(status, max_size).over_limit,
        status.current_size == max_size + 1 ==> with_limit(status, max_size).over_limit,
{
}

/// Setting or clearing the limit of one database changes nothing for another.
pub proof fn tenants_are_isolated(
    overrides: Map<Seq<char>, u64>,
    state: Map<Seq<char>, StatusView>,
    config: ConfigAndUsers,
    database: Seq<char>,
    max_size: u64,
    other: Seq<char>,
)
    requires
        other != database,
    ensures
        ({
            let (o, s) = after_set(overrides, state, database, max_size);
            &&& o.contains_key(other) == overrides.contains_key(other)
            &&& o[other] == overrides[other]
            &&& s.contains_key(other) == state.contains_key(other)
            &&& s[other] == state[other]
        }),
        ({
            let (o, s) = after_clear(overrides, state, config, database);
            &&& o.contains_key(other) == overrides.contains_key(other)
            &&& overrides.contains_key(other) ==> o[other] == overrides[other]
            &&& s.contains_key(other) == state.contains_key(other)
            &&& s[other] == state[other]
        }),
{
}

/// Clearing a limit undoes setting it. No limit is set then, and the status
/// is what it was, under the configured limit. So a database that was under
/// its configured limit, and nothing else, is back where it was.
pub proof fn clear_undoes_set(
    overrides: Map<Seq<char>, u64>,
    state: Map<Seq<char>, StatusView>,
    config: ConfigAndUsers,
    database: Seq<char>,
    max_size: u64,
)
    requires
        configured_limit(config, database) is Some,
    ensures
        ({
            let limit = configured_limit(config, database)->0;
            let (o1, s1) = after_set(overrides, state, database, max_size);
            let (o2, s2) = after_clear(o1, s1, config, database);
            &&& o2 == overrides.remove(database)
            &&& s2 == limited(state, database, limit)
            &&& (!overrides.contains_key(database) && (state.contains_key(database)
                ==> state[database] == with_limit(state[database], limit))) ==> o2 == overrides
                && s2 == state
        }),
{
    let limit = configured_limit(config, database)->0;
    let (o1, s1) = after_set(overrides, state, database, max_size);
    let (o2, s2) = after_clear(o1, s1, config, database);
    assert(o2 =~= overrides.remove(database));
    assert(s2 =~= limited(state, database, limit));
    if !overrides.contains_key(database) {
        assert(o2 =~= overrides);
    }
    if state.contains_key(database) && state[database] == with_limit(state[database], limit) {
        assert(s2 =~= state);
    }
}

/// Where no limit is configured, clearing one only forgets it: no status
/// changes.
pub proof fn clear_without_config_keeps_state(
    overrides: Map<Seq<char>, u64>,
    state: Map<Seq<char>, StatusView>,
    config: ConfigAndUsers,
    database: Seq<char>,
)
    requires
        configured_limit(config, database) is None,
    ensures
        after_clear(overrides, state, config, database).1 == state,
        !after_clear(overrides, state, config, database).0.contains_key(database),
{
}

/// Setting and clearing limits never lets a database pass that is larger than
/// its limit.
pub proof fn overrides_block_excess(
    overrides: Map<Seq<char>, u64>,
    state: Map<Seq<char>, StatusView>,
    config: ConfigAndUsers,
    database: Seq<char>,
    max_size: u64,
)
    requires
        blocks_excess(state),
    ensures
        blocks_excess(after_set(overrides, state, database, max_size).1),
        blocks_excess(after_clear(overrides, state, config, database).1),
{
}

/// Whether each status in `state` is that of the database it stands under.
pub open spec fn is_keyed(state: Map<Seq<char>, StatusView>) -> bool {
    forall|name: Seq<char>| #[trigger]
        state.contains_key(name) ==> state[name].database == name
}

/// Setting and clearing limits keeps each status under its database.
pub proof fn overrides_keep_names(
    overrides: Map<Seq<char>, u64>,
    state: Map<Seq<char>, StatusView>,
    config: ConfigAndUsers,
    database: Seq<char>,
    max_size: u64,
)
    requires
        is_keyed(state),
    ensures
        is_keyed(after_set(overrides, state, database, max_size).1),
        is_keyed(after_clear(overrides, state, config, database).1),
{
}

/// A status says what its fields say.
pub proof fn status_by_fields(status: QuotaStatus)
    ensures
        status@.database == status.database@,
        status@.current_size == status.current_size,
        status@.max_size == status.max_size,
        status@.over_limit == status.over_limit,
{
}

/// Clearing changes at most the limit of the database and whether it is over
/// it, which is so exactly where it is larger. It goes back to the limit of the
/// target of that name; where there is no target, to what the first server of
/// that name sets, and to nothing where that sets none.
pub proof fn clear_by_fields(
    overrides: Map<Seq<char>, u64>,
    state: Map<Seq<char>, StatusView>,
    config: ConfigAndUsers,
    database: Seq<char>,
    i: int,
)
    requires
        state.contains_key(database),
        forall|p: int|
            0 <= p < targets_of(config).len() ==> (#[trigger] targets_of(config)[p]).pool_name
                != database,
        0 <= i < config.databases@.len(),
        config.databases@[i].name@ == database,
        forall|k: int| 0 <= k < i ==> (#[trigger] config.databases@[k]).name@ != database,
    ensures
        ({
            let own = config.databases@[i].max_db_size;
            let s = after_clear(overrides, state, config, database).1;
            &&& s.contains_key(database)
            &&& s[database].database == state[database].database
            &&& s[database].current_size == state[database].current_size
            &&& own is Some ==> s[database].max_size == own->0 && s[database].over_limit == (
            state[database].current_size > own->0)
            &&& own is None ==> s[database].max_size == state[database].max_size
                && s[database].over_limit == state[database].over_limit
        }),
{
    lemma_not_polled(targets_of(config), database);
    lemma_first_own_limit(config.databases@, database, i);
}

proof fn lemma_not_polled(targets: Seq<TargetView>, name: Seq<char>)
    requires
        forall|p: int| 0 <= p < targets.len() ==> (#[trigger] targets[p]).pool_name != name,
    ensures
        polled_limit(targets, name) is None,
    decreases targets.len(),
{
    if targets.len() > 0 {
        assert(targets[0].pool_name != name);
        let rest = targets.skip(1);
        assert forall|p: int| 0 <= p < rest.len() implies (#[trigger] rest[p]).pool_name != name by {
            assert(rest[p] == targets[p + 1]);
        }
        lemma_not_polled(rest, name);
    }
}

proof fn lemma_first_own_limit(dbs: Seq<Database>, name: Seq<char>, i: int)
    requires
        0 <= i < dbs.len(),
        dbs[i].name@ == name,
        forall|k: int| 0 <= k < i ==> (#[trigger] dbs[k]).name@ != name,
    ensures
        first_own_limit(dbs, name) == dbs[i].max_db_size,
    decreases dbs.len(),
{
    if i > 0 {
        assert(dbs[0].name@ != name);
        let rest = dbs.skip(1);
        assert forall|k: int| 0 <= k < i - 1 implies (#[trigger] rest[k]).name@ != name by {
            assert(rest[k] == dbs[k + 1]);
        }
        lemma_first_own_limit(rest, name, i - 1);
    }
}

/// The statuses of all databases are those in the state, one for each name.
pub proof fn status_list_by_names(state: QuotaState, i: int)
    ensures
        status_list(state).len() == state.order().len(),
        0 <= i < state.order().len() ==> status_list(state)[i] == state@[state.order()[i]],
{
}

/// A list of statuses says what its statuses say, one by one.
pub proof fn status_views_one_by_one(list: Seq<QuotaStatus>, i: int)
    ensures
        status_views(list).len() == list.len(),
        0 <= i < list.len() ==> status_views(list)[i] == list[i]@,
{
}

/// A limit that is set or cleared is there, or gone, and no status appears or
/// goes away.
pub proof fn overrides_by_name(
    overrides: Map<Seq<char>, u64>,
    state: Map<Seq<char>, StatusView>,
    config: ConfigAndUsers,
    database: Seq<char>,
    max_size: u64,
    name: Seq<char>,
)
    ensures
        after_set(overrides, state, database, max_size).0.contains_key(name) <==> name == database
            || overrides.contains_key(name),
        after_clear(overrides, state, config, database).0.contains_key(name) <==> name != database
            && overrides.contains_key(name),
        after_set(overrides, state, database, max_size).1.contains_key(name)
            <==> state.contains_key(name),
        after_clear(overrides, state, config, database).1.contains_key(name)
            <==> state.contains_key(name),
{
}

} // verus!
