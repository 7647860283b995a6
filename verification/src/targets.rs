//! Which databases the monitor polls, and how it connects to them.

use vstd::prelude::*;

use crate::config::{effective_limit, limit_of, ConfigAndUsers, Database, Role, User};
use crate::text::{is_before, order_is_total, precedes, same_text};

verus! {

/// A database that the monitor polls.
pub struct QuotaTarget {
    /// The name by which clients know the database.
    pub pool_name: String,
    /// The name of the database on its server.
    pub pg_database_name: String,
    /// The host of the server.
    pub host: String,
    /// The port of the server.
    pub port: u16,
    /// The user to connect as.
    pub user: String,
    /// The password of that user.
    pub password: String,
    /// The configured limit in bytes.
    pub max_size: u64,
}

/// What a [`QuotaTarget`] says.
pub struct TargetView {
    pub pool_name: Seq<char>,
    pub pg_database_name: Seq<char>,
    pub host: Seq<char>,
    pub port: u16,
    pub user: Seq<char>,
    pub password: Seq<char>,
    pub max_size: u64,
}

impl View for QuotaTarget {
    type V = TargetView;

    open spec fn view(&self) -> TargetView {
        TargetView {
            pool_name: self.pool_name@,
            pg_database_name: self.pg_database_name@,
            host: self.host@,
            port: self.port,
            user: self.user@,
            password: self.password@,
            max_size: self.max_size,
        }
    }
}

/// What a list of targets says.
pub open spec fn target_views(list: Seq<QuotaTarget>) -> Seq<TargetView> {
    list.map_values(|t: QuotaTarget| t@)
}

// ── Credentials ─────────────────────────────────────────────────────────

/// The user name that comes first in alphabetical order.
pub open spec fn first_user(users: Seq<User>) -> Option<Seq<char>>
    decreases users.len(),
{
    if users.len() == 0 {
        None
    } else {
        let name = users.last().name@;
        match first_user(users.drop_last()) {
            Some(first) if !precedes(name, first) => Some(first),
            _ => Some(name),
        }
    }
}

/// The first user is one of the users, and none comes before it; there is one
/// as soon as there are users.
pub proof fn first_user_is_least(users: Seq<User>)
    ensures
        first_user(users) is Some <==> users.len() > 0,
        forall|i: int|
            0 <= i < users.len() ==> !precedes(
                #[trigger] users[i].name@,
                first_user(users)->0,
            ),
        users.len() > 0 ==> exists|i: int|
            0 <= i < users.len() && #[trigger] users[i].name@ == first_user(users)->0,
    decreases users.len(),
{
    if users.len() > 0 {
        let front = users.drop_last();
        let name = users.last().name@;
        first_user_is_least(front);
        let least = first_user(users)->0;
        assert forall|i: int| 0 <= i < users.len() implies !precedes(
            #[trigger] users[i].name@,
            least,
        ) by {
            order_is_total(name, name, name);
            if i < front.len() {
                assert(users[i] == front[i]);
                let before = first_user(front)->0;
                order_is_total(users[i].name@, name, before);
            }
        }
        if least == name {
            assert(users[users.len() - 1].name@ == least);
        } else {
            let i = choose|i: int| 0 <= i < front.len() && #[trigger] front[i].name@ == least;
            assert(users[i].name@ == least);
        }
    }
}

/// The password of the user `name`: that of its last entry, empty where it
/// has none.
pub open spec fn password_of(users: Seq<User>, name: Seq<char>) -> Seq<char>
    decreases users.len(),
{
    if users.len() == 0 {
        Seq::empty()
    } else if users.last().name@ == name {
        match users.last().password {
            Some(password) => password@,
            None => Seq::empty(),
        }
    } else {
        password_of(users.drop_last(), name)
    }
}

fn find_first_user(users: &Vec<User>) -> (r: Option<String>)
    ensures
        match r {
            Some(name) => first_user(users@) == Some(name@),
            None => first_user(users@) is None,
        },
{
    let mut best: Option<usize> = None;
    let mut i: usize = 0;
    while i < users.len()
        invariant
            i <= users.len(),
            match best {
                Some(b) => b < users.len() && first_user(users@.take(i as int)) == Some(
                    users@[b as int].name@,
                ),
                None => i == 0,
            },
        decreases users.len() - i,
    {
        assert(users@.take(i + 1).drop_last() == users@.take(i as int));
        match best {
            Some(b) => {
                if is_before(users[i].name.as_str(), users[b].name.as_str()) {
                    best = Some(i);
                }
            },
            None => {
                best = Some(i);
            },
        }
        i = i + 1;
    }
    assert(users@.take(i as int) == users@);
    match best {
        Some(b) => Some(users[b].name.clone()),
        None => None,
    }
}

fn find_password(users: &Vec<User>, name: &str) -> (r: String)
    ensures
        r@ == password_of(users@, name@),
{
    let mut i: usize = users.len();
    assert(users@.take(i as int) == users@);
    while i > 0
        invariant
            i <= users.len(),
            password_of(users@, name@) == password_of(users@.take(i as int), name@),
        decreases i,
    {
        i = i - 1;
        assert(users@.take(i + 1).drop_last() == users@.take(i as int));
        if same_text(users[i].name.as_str(), name) {
            return match &users[i].password {
                Some(password) => password.clone(),
                None => String::new(),
            };
        }
    }
    String::new()
}

/// How the monitor connects to the server `db`, and the limit that it
/// enforces there.
pub open spec fn target_of(users: Seq<User>, general: Option<u64>, db: Database) -> TargetView {
    let user = match db.user {
        Some(user) => user@,
        None => match first_user(users) {
            Some(user) => user,
            None => "postgres"@,
        },
    };
    TargetView {
        pool_name: db.name@,
        pg_database_name: match db.database_name {
            Some(name) => name@,
            None => db.name@,
        },
        host: db.host@,
        port: db.port,
        user,
        password: match db.password {
            Some(password) => password@,
            None => password_of(users, user),
        },
        max_size: limit_of(db.max_db_size, general)->0,
    }
}

fn make_target(users: &Vec<User>, db: &Database, max_size: u64) -> (r: QuotaTarget)
    ensures
        r@ == (TargetView { max_size, ..target_of(users@, None, *db) }),
{
    let user: String = match &db.user {
        Some(user) => user.clone(),
        None => match find_first_user(users) {
            Some(user) => user,
            None => "postgres".to_owned(),
        },
    };
    let password: String = match &db.password {
        Some(password) => password.clone(),
        None => find_password(users, user.as_str()),
    };
    let pg_database_name: String = match &db.database_name {
        Some(name) => name.clone(),
        None => db.name.clone(),
    };
    QuotaTarget {
        pool_name: db.name.clone(),
        pg_database_name,
        host: db.host.clone(),
        port: db.port,
        user,
        password,
        max_size,
    }
}

// ── Choice of servers ───────────────────────────────────────────────────

/// Whether a limit is enforced on the server `db`.
pub open spec fn enforced(db: Database, general: Option<u64>) -> bool {
    limit_of(db.max_db_size, general) is Some
}

/// Whether the server at place `i` is the one that is polled for its database.
/// Among the servers of a database on which a limit is enforced, that is the
/// last primary, or the first of all where there is no primary.
pub open spec fn chosen(dbs: Seq<Database>, general: Option<u64>, i: int) -> bool {
    &&& 0 <= i < dbs.len()
    &&& enforced(dbs[i], general)
    &&& forall|j: int|
        i < j < dbs.len() && enforced(dbs[j], general) && (#[trigger] dbs[j]).name@ == dbs[i].name@
            ==> dbs[j].role != Role::Primary
    &&& dbs[i].role == Role::Primary || forall|j: int|
        0 <= j < i && enforced(dbs[j], general) ==> (#[trigger] dbs[j]).name@ != dbs[i].name@
}

/// The places below `n` whose servers are polled, in ascending order.
pub open spec fn chosen_below(dbs: Seq<Database>, general: Option<u64>, n: int) -> Seq<int>
    decreases n,
{
    if n <= 0 {
        Seq::empty()
    } else if chosen(dbs, general, n - 1) {
        chosen_below(dbs, general, n - 1).push(n - 1)
    } else {
        chosen_below(dbs, general, n - 1)
    }
}

/// The targets for the servers at the places in `list`.
pub open spec fn targets_at(
    users: Seq<User>,
    general: Option<u64>,
    dbs: Seq<Database>,
    list: Seq<int>,
) -> Seq<TargetView> {
    list.map_values(|i: int| target_of(users, general, dbs[i]))
}

/// The targets that a configuration asks for: one for each database with an
/// enforced limit, in the order of the configuration.
pub open spec fn targets_of(config: ConfigAndUsers) -> Seq<TargetView> {
    let dbs = config.databases@;
    let general = config.general.default_max_db_size;
    targets_at(config.users@, general, dbs, chosen_below(dbs, general, dbs.len() as int))
}

/// The places in `list` whose servers have another name than `name`.
spec fn without(list: Seq<int>, dbs: Seq<Database>, name: Seq<char>) -> Seq<int>
    decreases list.len(),
{
    if list.len() == 0 {
        Seq::empty()
    } else if dbs[list.last()].name@ == name {
        without(list.drop_last(), dbs, name)
    } else {
        without(list.drop_last(), dbs, name).push(list.last())
    }
}

/// Whether an earlier server than that at place `k` has its name.
spec fn seen_before(dbs: Seq<Database>, general: Option<u64>, k: int) -> bool {
    exists|j: int|
        0 <= j < k && enforced(dbs[j], general) && (#[trigger] dbs[j]).name@ == dbs[k].name@
}

/// How the choice among the first `k` servers changes with one more.
proof fn lemma_step(dbs: Seq<Database>, general: Option<u64>, k: int, n: int)
    requires
        0 <= k < dbs.len(),
        0 <= n <= k,
    ensures
        ({
            let old_list = chosen_below(dbs.take(k), general, n);
            let new_list = chosen_below(dbs.take(k + 1), general, n);
            let replaces = enforced(dbs[k], general) && dbs[k].role == Role::Primary;
            new_list == (if replaces {
                without(old_list, dbs, dbs[k].name@)
            } else {
                old_list
            })
        }),
        chosen(dbs.take(k + 1), general, k) <==> enforced(dbs[k], general) && (dbs[k].role
            == Role::Primary || !seen_before(dbs, general, k)),
    decreases n,
{
    let s = dbs.take(k);
    let t = dbs.take(k + 1);
    let replaces = enforced(dbs[k], general) && dbs[k].role == Role::Primary;
    assert forall|i: int| 0 <= i < k implies #[trigger] chosen(t, general, i) == (chosen(
        s,
        general,
        i,
    ) && !(replaces && dbs[i].name@ == dbs[k].name@)) by {
        assert(t[k] == dbs[k]);
        if chosen(s, general, i) && !(replaces && dbs[i].name@ == dbs[k].name@) {
            assert forall|j: int|
                i < j < t.len() && enforced(t[j], general) && (#[trigger] t[j]).name@ == t[i].name@
                implies t[j].role != Role::Primary by {
                if j < k {
                    assert(s[j] == t[j]);
                }
            }
            if s[i].role != Role::Primary {
                assert forall|j: int| 0 <= j < i && enforced(t[j], general) implies (
                #[trigger] t[j]).name@ != t[i].name@ by {
                    assert(s[j] == t[j]);
                }
            }
        }
        if chosen(t, general, i) {
            assert forall|j: int|
                i < j < s.len() && enforced(s[j], general) && (#[trigger] s[j]).name@ == s[i].name@
                implies s[j].role != Role::Primary by {
                assert(s[j] == t[j]);
            }
            if t[i].role != Role::Primary {
                assert forall|j: int| 0 <= j < i && enforced(s[j], general) implies (
                #[trigger] s[j]).name@ != s[i].name@ by {
                    assert(s[j] == t[j]);
                }
            }
        }
    }
    if n > 0 {
        lemma_step(dbs, general, k, n - 1);
        let old_list = chosen_below(s, general, n - 1);
        assert(old_list.push(n - 1).drop_last() == old_list);
        assert(chosen(t, general, n - 1) == (chosen(s, general, n - 1) && !(replaces && dbs[n
            - 1].name@ == dbs[k].name@)));
    }
    assert(t[k] == dbs[k]);
    if chosen(t, general, k) && dbs[k].role != Role::Primary {
        assert forall|j: int| 0 <= j < k && enforced(dbs[j], general) implies (#[trigger] dbs[j]).name@
            != dbs[k].name@ by {
            assert(t[j] == dbs[j]);
        }
    }
    if enforced(dbs[k], general) && !seen_before(dbs, general, k) {
        assert forall|j: int| 0 <= j < k && enforced(t[j], general) implies (#[trigger] t[j]).name@
            != t[k].name@ by {
            assert(t[j] == dbs[j]);
        }
    }
}

/// The list of chosen places is ascending and holds the chosen places.
proof fn lemma_chosen_list(dbs: Seq<Database>, general: Option<u64>, n: int)
    requires
        0 <= n <= dbs.len(),
    ensures
        forall|p: int|
            0 <= p < chosen_below(dbs, general, n).len() ==> 0 <= #[trigger] chosen_below(
                dbs,
                general,
                n,
            )[p] < n && chosen(dbs, general, chosen_below(dbs, general, n)[p]),
        forall|p: int, q: int|
            0 <= p < q < chosen_below(dbs, general, n).len() ==> (#[trigger] chosen_below(
                dbs,
                general,
                n,
            )[p]) < (#[trigger] chosen_below(dbs, general, n)[q]),
        forall|i: int|
            0 <= i < n && #[trigger] chosen(dbs, general, i) ==> chosen_below(
                dbs,
                general,
                n,
            ).contains(i),
    decreases n,
{
    if n > 0 {
        lemma_chosen_list(dbs, general, n - 1);
        let front = chosen_below(dbs, general, n - 1);
        let list = chosen_below(dbs, general, n);
        assert forall|i: int| 0 <= i < n && #[trigger] chosen(dbs, general, i) implies list.contains(
            i,
        ) by {
            if i < n - 1 {
                let p = front.index_of(i);
                assert(list[p] == i);
            } else {
                assert(list[list.len() - 1] == i);
            }
        }
    }
}

/// No two chosen servers have one name.
proof fn lemma_one_per_name(dbs: Seq<Database>, general: Option<u64>, i: int, j: int)
    requires
        chosen(dbs, general, i),
        chosen(dbs, general, j),
        i < j,
    ensures
        dbs[i].name@ != dbs[j].name@,
{
}

proof fn lemma_primary_is_covered(dbs: Seq<Database>, general: Option<u64>, j: int) -> (i: int)
    requires
        0 <= j < dbs.len(),
        enforced(dbs[j], general),
        dbs[j].role == Role::Primary,
    ensures
        chosen(dbs, general, i),
        dbs[i].name@ == dbs[j].name@,
    decreases dbs.len() - j,
{
    if chosen(dbs, general, j) {
        j
    } else {
        let later = choose|k: int|
            j < k < dbs.len() && enforced(dbs[k], general) && (#[trigger] dbs[k]).name@
                == dbs[j].name@ && dbs[k].role == Role::Primary;
        lemma_primary_is_covered(dbs, general, later)
    }
}

/// Each server with an enforced limit has a chosen one of its name.
proof fn lemma_is_covered(dbs: Seq<Database>, general: Option<u64>, j: int) -> (i: int)
    requires
        0 <= j < dbs.len(),
        enforced(dbs[j], general),
    ensures
        chosen(dbs, general, i),
        dbs[i].name@ == dbs[j].name@,
    decreases j,
{
    if exists|k: int|
        0 <= k < dbs.len() && enforced(dbs[k], general) && (#[trigger] dbs[k]).name@
            == dbs[j].name@ && dbs[k].role == Role::Primary {
        let k = choose|k: int|
            0 <= k < dbs.len() && enforced(dbs[k], general) && (#[trigger] dbs[k]).name@
                == dbs[j].name@ && dbs[k].role == Role::Primary;
        lemma_primary_is_covered(dbs, general, k)
    } else if chosen(dbs, general, j) {
        j
    } else {
        let earlier = choose|k: int|
            0 <= k < j && enforced(dbs[k], general) && (#[trigger] dbs[k]).name@ == dbs[j].name@;
        lemma_is_covered(dbs, general, earlier)
    }
}

/// Leaving out a name that occurs once, at place `p`, takes that place out.
proof fn lemma_without_one(list: Seq<int>, dbs: Seq<Database>, name: Seq<char>, p: int)
    requires
        0 <= p < list.len(),
        dbs[list[p]].name@ == name,
        forall|q: int| 0 <= q < list.len() && q != p ==> (#[trigger] dbs[list[q]]).name@ != name,
    ensures
        without(list, dbs, name) == list.remove(p),
    decreases list.len(),
{
    let front = list.drop_last();
    if p == list.len() - 1 {
        lemma_without_none(front, dbs, name);
        assert(list.remove(p) == front);
    } else {
        assert forall|q: int| 0 <= q < front.len() && q != p implies (#[trigger] dbs[front[q]]).name@
            != name by {
            assert(front[q] == list[q]);
        }
        lemma_without_one(front, dbs, name, p);
        assert(dbs[list[list.len() - 1]].name@ != name);
        assert(list.remove(p) == front.remove(p).push(list.last()));
    }
}

proof fn lemma_without_none(list: Seq<int>, dbs: Seq<Database>, name: Seq<char>)
    requires
        forall|q: int| 0 <= q < list.len() ==> (#[trigger] dbs[list[q]]).name@ != name,
    ensures
        without(list, dbs, name) == list,
    decreases list.len(),
{
    if list.len() > 0 {
        let front = list.drop_last();
        assert forall|q: int| 0 <= q < front.len() implies (#[trigger] dbs[front[q]]).name@ != name by {
            assert(front[q] == list[q]);
        }
        lemma_without_none(front, dbs, name);
        assert(dbs[list[list.len() - 1]].name@ != name);
        assert(front.push(list.last()) == list);
    }
}

/// Where a target has the name `name`.
fn find_target(targets: &Vec<QuotaTarget>, name: &str) -> (r: Option<usize>)
    ensures
        match r {
            Some(p) => p < targets.len() && targets@[p as int].pool_name@ == name@,
            None => forall|p: int|
                0 <= p < targets.len() ==> (#[trigger] targets@[p]).pool_name@ != name@,
        },
{
    let mut p: usize = 0;
    while p < targets.len()
        invariant
            p <= targets.len(),
            forall|q: int| 0 <= q < p ==> (#[trigger] targets@[q]).pool_name@ != name@,
        decreases targets.len() - p,
    {
        if same_text(targets[p].pool_name.as_str(), name) {
            return Some(p);
        }
        p = p + 1;
    }
    None
}

/// Collects the databases that the monitor polls.
///
/// A database is polled where a limit is enforced on it. Of several servers
/// the primary is asked for the size.
pub fn collect_targets(config: &ConfigAndUsers) -> (r: Vec<QuotaTarget>)
    ensures
        target_views(r@) == targets_of(*config),
{
    let general: Option<u64> = config.general.default_max_db_size;
    let ghost dbs = config.databases@;
    let ghost users = config.users@;
    let mut targets: Vec<QuotaTarget> = Vec::new();
    let mut k: usize = 0;
    while k < config.databases.len()
        invariant
            dbs == config.databases@,
            users == config.users@,
            general == config.general.default_max_db_size,
            k <= dbs.len(),
            target_views(targets@) == targets_at(
                users,
                general,
                dbs,
                chosen_below(dbs.take(k as int), general, k as int),
            ),
        decreases config.databases.len() - k,
    {
        let db: &Database = &config.databases[k];
        let ghost front = dbs.take(k as int);
        let ghost list = chosen_below(front, general, k as int);
        let ghost more = chosen_below(dbs.take(k + 1), general, k + 1);
        proof {
            lemma_step(dbs, general, k as int, k as int);
            lemma_chosen_list(front, general, k as int);
            assert(targets_at(users, general, dbs, list).len() == list.len());
            assert(target_views(targets@).len() == targets@.len());
            assert forall|p: int| 0 <= p < targets@.len() implies #[trigger] targets@[p].pool_name@
                == dbs[list[p]].name@ by {
                assert(target_views(targets@)[p] == target_of(users, general, dbs[list[p]]));
            }
        }
        match effective_limit(db.max_db_size, general) {
            Some(max_size) => {
                let place: Option<usize> = find_target(&targets, db.name.as_str());
                proof {
                    // Exactly where a target has the name, an earlier server has it.
                    match place {
                        Some(p) => {
                            assert(enforced(front[list[p as int]], general));
                            assert(dbs[list[p as int]].name@ == db.name@);
                            assert(seen_before(dbs, general, k as int));
                            assert forall|q: int| 0 <= q < list.len() && q != p implies (
                            #[trigger] dbs[list[q]]).name@ != db.name@ by {
                                if q < p {
                                    lemma_one_per_name(front, general, list[q], list[p as int]);
                                } else {
                                    lemma_one_per_name(front, general, list[p as int], list[q]);
                                }
                            }
                            lemma_without_one(list, dbs, db.name@, p as int);
                        },
                        None => {
                            if seen_before(dbs, general, k as int) {
                                let j = choose|j: int|
                                    0 <= j < k && enforced(dbs[j], general) && (
                                    #[trigger] dbs[j]).name@ == dbs[k as int].name@;
                                assert(front[j] == dbs[j]);
                                let i = lemma_is_covered(front, general, j);
                                let p = list.index_of(i);
                                assert(targets@[p].pool_name@ == db.name@);
                            }
                            assert forall|q: int| 0 <= q < list.len() implies (
                            #[trigger] dbs[list[q]]).name@ != db.name@ by {
                                assert(targets@[q].pool_name@ == dbs[list[q]].name@);
                            }
                            lemma_without_none(list, dbs, db.name@);
                        },
                    }
                }
                let mut wanted: bool = true;
                if let Some(p) = place {
                    if db.role == Role::Primary {
                        let ghost before = target_views(targets@);
                        let _replaced = targets.remove(p);
                        assert(target_views(targets@) == before.remove(p as int));
                        assert(target_views(targets@) == targets_at(
                            users,
                            general,
                            dbs,
                            list.remove(p as int),
                        ));
                    } else {
                        wanted = false;
                    }
                }
                if wanted {
                    let ghost kept = without(list, dbs, db.name@);
                    let ghost before = target_views(targets@);
                    let made: QuotaTarget = make_target(&config.users, db, max_size);
                    assert(made@ == target_of(users, general, dbs[k as int]));
                    targets.push(made);
                    proof {
                        assert(target_views(targets@) == before.push(made@));
                        if dbs[k as int].role != Role::Primary {
                            assert(kept == list);
                        }
                        assert(more == kept.push(k as int));
                        assert(target_views(targets@) == targets_at(users, general, dbs, more));
                    }
                } else {
                    assert(more == list);
                }
            },
            None => {
                assert(more == list);
            },
        }
        k = k + 1;
    }
    assert(dbs.take(k as int) == dbs);
    targets
}

/// The monitor polls a database once: no two targets have one name.
pub proof fn targets_have_distinct_names(config: ConfigAndUsers, p: int, q: int)
    requires
        0 <= p < q < targets_of(config).len(),
    ensures
        targets_of(config)[p].pool_name != targets_of(config)[q].pool_name,
{
    let dbs = config.databases@;
    let general = config.general.default_max_db_size;
    let list = chosen_below(dbs, general, dbs.len() as int);
    lemma_chosen_list(dbs, general, dbs.len() as int);
    lemma_one_per_name(dbs, general, list[p], list[q]);
}

/// A database is polled exactly where some configured server of that name has
/// an enforced limit.
pub proof fn polled_iff_enforced(config: ConfigAndUsers, name: Seq<char>)
    ensures
        (exists|p: int|
            0 <= p < targets_of(config).len() && #[trigger] targets_of(config)[p].pool_name == name)
            <==> (exists|i: int|
            0 <= i < config.databases@.len() && (#[trigger] config.databases@[i]).name@ == name
                && enforced(config.databases@[i], config.general.default_max_db_size)),
{
    let dbs = config.databases@;
    let general = config.general.default_max_db_size;
    let list = chosen_below(dbs, general, dbs.len() as int);
    lemma_chosen_list(dbs, general, dbs.len() as int);
    if exists|p: int|
        0 <= p < targets_of(config).len() && #[trigger] targets_of(config)[p].pool_name == name {
        let p = choose|p: int|
            0 <= p < targets_of(config).len() && #[trigger] targets_of(config)[p].pool_name == name;
        assert(dbs[list[p]].name@ == name);
    }
    if exists|i: int|
        0 <= i < dbs.len() && (#[trigger] dbs[i]).name@ == name && enforced(dbs[i], general) {
        let j = choose|i: int|
            0 <= i < dbs.len() && (#[trigger] dbs[i]).name@ == name && enforced(dbs[i], general);
        let i = lemma_is_covered(dbs, general, j);
        let p = list.index_of(i);
        assert(targets_of(config)[p].pool_name == name);
    }
}

/// Each target stands for a configured server with an enforced limit, and
/// that limit is above zero.
pub proof fn targets_are_configured(config: ConfigAndUsers, p: int)
    requires
        0 <= p < targets_of(config).len(),
    ensures
        exists|i: int|
            0 <= i < config.databases@.len() && targets_of(config)[p] == target_of(
                config.users@,
                config.general.default_max_db_size,
                #[trigger] config.databases@[i],
            ) && config.limit(i) == Some(targets_of(config)[p].max_size),
        targets_of(config)[p].max_size > 0,
{
    let dbs = config.databases@;
    let general = config.general.default_max_db_size;
    let list = chosen_below(dbs, general, dbs.len() as int);
    lemma_chosen_list(dbs, general, dbs.len() as int);
    let i = list[p];
    assert(targets_of(config)[p] == target_of(config.users@, general, dbs[i]));
}

/// A primary goes before any other server: where a database has a primary
/// with an enforced limit, its target is such a primary.
pub proof fn primary_is_preferred(config: ConfigAndUsers, i: int, p: int)
    requires
        0 <= i < config.databases@.len(),
        config.databases@[i].role == Role::Primary,
        config.limit(i) is Some,
        0 <= p < targets_of(config).len(),
        targets_of(config)[p].pool_name == config.databases@[i].name@,
    ensures
        exists|j: int|
            0 <= j < config.databases@.len() && config.databases@[j].role == Role::Primary
                && targets_of(config)[p] == target_of(
                config.users@,
                config.general.default_max_db_size,
                #[trigger] config.databases@[j],
            ),
{
    let dbs = config.databases@;
    let general = config.general.default_max_db_size;
    let list = chosen_below(dbs, general, dbs.len() as int);
    lemma_chosen_list(dbs, general, dbs.len() as int);
    let j = list[p];
    assert(targets_of(config)[p] == target_of(config.users@, general, dbs[j]));
    assert(dbs[i].name@ == dbs[j].name@);
    if dbs[j].role != Role::Primary {
        assert(i != j);
        if i < j {
            assert(dbs[i].name@ != dbs[j].name@);
        }
    }
}

// ── Laws by fields ──────────────────────────────────────────────────────

/// A list of targets says what its targets say, one by one and field by field.
pub proof fn target_views_by_fields(list: Seq<QuotaTarget>, i: int)
    ensures
        target_views(list).len() == list.len(),
        0 <= i < list.len() ==> ({
            let t = target_views(list)[i];
            &&& t.pool_name == list[i].pool_name@
            &&& t.pg_database_name == list[i].pg_database_name@
            &&& t.host == list[i].host@
            &&& t.port == list[i].port
            &&& t.user == list[i].user@
            &&& t.password == list[i].password@
            &&& t.max_size == list[i].max_size
        }),
{
}

/// A limit is enforced on a server exactly where it sets one above zero, or
/// sets none and the general one is above zero.
pub proof fn enforced_by_fields(db: Database, general: Option<u64>)
    ensures
        enforced(db, general) <==> (db.max_db_size is Some && db.max_db_size->0 > 0) || (
        db.max_db_size is None && general is Some && general->0 > 0),
{
}

/// The password of a user is that of the last entry of its name, empty where
/// that entry has none, and empty where there is no entry.
pub proof fn password_is_of_last_entry(users: Seq<User>, name: Seq<char>, k: int)
    ensures
        (forall|m: int| 0 <= m < users.len() ==> (#[trigger] users[m]).name@ != name)
            ==> password_of(users, name) == Seq::<char>::empty(),
        0 <= k < users.len() && users[k].name@ == name && (forall|m: int|
            k < m < users.len() ==> (#[trigger] users[m]).name@ != name) ==> password_of(
            users,
            name,
        ) == (if users[k].password is Some {
            users[k].password->0@
        } else {
            Seq::empty()
        }),
    decreases users.len(),
{
    if users.len() > 0 {
        let front = users.drop_last();
        let last = users.len() - 1;
        password_is_of_last_entry(front, name, k);
        assert(users[last] == users.last());
        assert(forall|m: int| 0 <= m < front.len() ==> #[trigger] front[m] == users[m]);
    }
}

/// A target is its server, field by field. The limit is the server's own one,
/// whatever the general one is, and the general one only where the server sets
/// none. The user falls back to the first of all users, and to `postgres`
/// where there is none; the password to that of the user.
pub proof fn target_by_fields(users: Seq<User>, general: Option<u64>, db: Database)
    requires
        enforced(db, general),
    ensures
        ({
            let t = target_of(users, general, db);
            &&& t.pool_name == db.name@
            &&& t.host == db.host@
            &&& t.port == db.port
            &&& t.pg_database_name == (if db.database_name is Some {
                db.database_name->0@
            } else {
                db.name@
            })
            &&& db.max_db_size is Some ==> t.max_size == db.max_db_size->0
            &&& db.max_db_size is None ==> Some(t.max_size) == general
            &&& db.user is Some ==> t.user == db.user->0@
            &&& db.user is None && users.len() == 0 ==> t.user == "postgres"@
            &&& db.user is None && users.len() > 0 ==> (exists|k: int|
                0 <= k < users.len() && #[trigger] users[k].name@ == t.user) && (forall|k: int|
                0 <= k < users.len() ==> !precedes(#[trigger] users[k].name@, t.user))
            &&& db.password is Some ==> t.password == db.password->0@
            &&& db.password is None ==> t.password == password_of(users, t.user)
        }),
{
    first_user_is_least(users);
}

/// The limit of each target is exactly the `max_db_size` of a configured server
/// of that name, host and port, where that server sets one, be it smaller or
/// larger than the general one; it is the general one only where the server
/// sets none.
pub proof fn target_limit_is_configured(config: ConfigAndUsers, p: int)
    requires
        0 <= p < targets_of(config).len(),
    ensures
        exists|i: int|
            0 <= i < config.databases@.len() && ({
                let db = #[trigger] config.databases@[i];
                let t = targets_of(config)[p];
                &&& db.name@ == t.pool_name && db.host@ == t.host && db.port == t.port
                &&& db.max_db_size is Some ==> db.max_db_size == Some(t.max_size)
                &&& db.max_db_size is None ==> config.general.default_max_db_size == Some(
                    t.max_size,
                )
            }),
        targets_of(config)[p].max_size > 0,
{
    targets_are_configured(config, p);
    let general = config.general.default_max_db_size;
    let i = choose|i: int|
        0 <= i < config.databases@.len() && targets_of(config)[p] == target_of(
            config.users@,
            general,
            #[trigger] config.databases@[i],
        ) && config.limit(i) == Some(targets_of(config)[p].max_size);
    target_by_fields(config.users@, general, config.databases@[i]);
    assert(config.databases@[i].name@ == targets_of(config)[p].pool_name);
}

/// Of the servers of one name on which a limit is enforced, the one that is
/// polled is a primary behind which no other primary stands; where none is a
/// primary, it is the one in front of all others.
pub proof fn chosen_by_role(dbs: Seq<Database>, general: Option<u64>, i: int, j: int)
    requires
        0 <= i < dbs.len(),
        0 <= j < dbs.len(),
        i != j,
        chosen(dbs, general, i),
        enforced(dbs[j], general),
        dbs[i].name@ == dbs[j].name@,
    ensures
        enforced(dbs[i], general),
        dbs[i].role == Role::Primary ==> dbs[j].role != Role::Primary || j < i,
        dbs[i].role != Role::Primary ==> dbs[j].role != Role::Primary && i < j,
        !chosen(dbs, general, j),
{
}

/// The targets are the servers that are chosen, each once and in the order of
/// the configuration, and every database on which a limit is enforced has one.
pub proof fn targets_follow_configuration(config: ConfigAndUsers, p: int, q: int)
    requires
        0 <= p < q < targets_of(config).len(),
    ensures
        exists|i: int, j: int|
            0 <= i < j < config.databases@.len() && chosen(
                config.databases@,
                config.general.default_max_db_size,
                i,
            ) && chosen(config.databases@, config.general.default_max_db_size, j)
                && targets_of(config)[p] == target_of(
                config.users@,
                config.general.default_max_db_size,
                #[trigger] config.databases@[i],
            ) && targets_of(config)[q] == target_of(
                config.users@,
                config.general.default_max_db_size,
                #[trigger] config.databases@[j],
            ),
{
    let dbs = config.databases@;
    let general = config.general.default_max_db_size;
    let list = chosen_below(dbs, general, dbs.len() as int);
    lemma_chosen_list(dbs, general, dbs.len() as int);
    let i = list[p];
    let j = list[q];
    assert(targets_of(config)[p] == target_of(config.users@, general, dbs[i]));
    assert(targets_of(config)[q] == target_of(config.users@, general, dbs[j]));
}

/// Every database with a server that sets a limit above zero, or sets none
/// under a general limit above zero, is polled; and where the server is a
/// primary behind which no other such primary of that name stands, it is that
/// server that is polled.
pub proof fn limited_servers_are_polled(config: ConfigAndUsers, j: int)
    requires
        0 <= j < config.databases@.len(),
        ({
            let db = config.databases@[j];
            let general = config.general.default_max_db_size;
            (db.max_db_size is Some && db.max_db_size->0 > 0) || (db.max_db_size is None
                && general is Some && general->0 > 0)
        }),
    ensures
        exists|p: int|
            0 <= p < targets_of(config).len() && #[trigger] targets_of(config)[p].pool_name
                == config.databases@[j].name@,
        config.databases@[j].role == Role::Primary && (forall|k: int|
            j < k < config.databases@.len() && (#[trigger] config.databases@[k]).name@
                == config.databases@[j].name@ && enforced(
                config.databases@[k],
                config.general.default_max_db_size,
            ) ==> config.databases@[k].role != Role::Primary) ==> exists|p: int|
            0 <= p < targets_of(config).len() && #[trigger] targets_of(config)[p].pool_name
                == config.databases@[j].name@ && targets_of(config)[p] == target_of(
                config.users@,
                config.general.default_max_db_size,
                config.databases@[j],
            ),
{
    let dbs = config.databases@;
    let general = config.general.default_max_db_size;
    let list = chosen_below(dbs, general, dbs.len() as int);
    lemma_chosen_list(dbs, general, dbs.len() as int);
    let i = lemma_is_covered(dbs, general, j);
    let p = list.index_of(i);
    assert(targets_of(config)[p].pool_name == dbs[j].name@);
    if dbs[j].role == Role::Primary && (forall|k: int|
        j < k < dbs.len() && (#[trigger] dbs[k]).name@ == dbs[j].name@ && enforced(dbs[k], general)
            ==> dbs[k].role != Role::Primary) {
        assert(chosen(dbs, general, j));
        let q = list.index_of(j);
        assert(targets_of(config)[q] == target_of(config.users@, general, dbs[j]));
        assert(targets_of(config)[q].pool_name == dbs[j].name@);
    }
}

/// Each target is a server that is chosen, and so is the only one of its name
/// that is polled.
pub proof fn targets_are_chosen(config: ConfigAndUsers, p: int)
    requires
        0 <= p < targets_of(config).len(),
    ensures
        exists|i: int|
            0 <= i < config.databases@.len() && chosen(
                config.databases@,
                config.general.default_max_db_size,
                i,
            ) && targets_of(config)[p] == target_of(
                config.users@,
                config.general.default_max_db_size,
                #[trigger] config.databases@[i],
            ),
{
    let dbs = config.databases@;
    let general = config.general.default_max_db_size;
    let list = chosen_below(dbs, general, dbs.len() as int);
    lemma_chosen_list(dbs, general, dbs.len() as int);
    let i = list[p];
    assert(targets_of(config)[p] == target_of(config.users@, general, dbs[i]));
}

} // verus!
