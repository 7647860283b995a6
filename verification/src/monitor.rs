//! The decisions of the monitor that polls the database sizes.
//!
//! A poll goes through the targets one by one: it asks for the size of the
//! database, tells its server to refuse or to accept writes where it was not
//! told so before, and in the end publishes the new state. The monitor itself only
//! performs the actions that [`PollCycle`] asks for and reports what came of
//! them.

use vstd::prelude::*;

use crate::config::ConfigAndUsers;
use crate::names::{Duplicate, NameMap};
use crate::quota::{
    after_clear, after_set, blocks_excess, configured_limit, is_keyed, polled_limit, with_limit,
    Overrides, QuotaState, QuotaStatus, StatusView,
};
use crate::targets::{
    collect_targets, target_views, targets_have_distinct_names, targets_of, QuotaTarget, TargetView,
};
use crate::text::same_text;

verus! {

// ── Start ───────────────────────────────────────────────────────────────

/// The status of a database before its size is known: over its limit, so that
/// writes are blocked until a measurement shows otherwise.
pub open spec fn unmeasured(target: TargetView) -> StatusView {
    StatusView {
        database: target.pool_name,
        current_size: u64::MAX,
        max_size: target.max_size,
        over_limit: true,
    }
}

/// The state before the first poll.
pub open spec fn seeded(targets: Seq<TargetView>) -> Map<Seq<char>, StatusView>
    decreases targets.len(),
{
    if targets.len() == 0 {
        Map::empty()
    } else {
        seeded(targets.drop_last()).insert(targets.last().pool_name, unmeasured(targets.last()))
    }
}

/// The state before the first poll of `targets`.
pub fn initial_state(targets: &Vec<QuotaTarget>) -> (r: QuotaState)
    ensures
        r@ == seeded(target_views(targets@)),
{
    let mut state: QuotaState = NameMap::new();
    let ghost all = target_views(targets@);
    let mut i: usize = 0;
    assert(all.take(0) == Seq::<TargetView>::empty());
    while i < targets.len()
        invariant
            i <= targets.len(),
            all == target_views(targets@),
            state@ == seeded(all.take(i as int)),
        decreases targets.len() - i,
    {
        let status = QuotaStatus {
            database: targets[i].pool_name.clone(),
            current_size: u64::MAX,
            max_size: targets[i].max_size,
            over_limit: true,
        };
        proof {
            assert(all.take(i + 1).drop_last() == all.take(i as int));
            assert(all.take(i + 1).last() == targets@[i as int]@);
            assert(status@ == unmeasured(all[i as int]));
        }
        state.insert(targets[i].pool_name.clone(), status);
        i = i + 1;
    }
    assert(all.take(i as int) == all);
    state
}

/// What a monitor starts with.
pub struct MonitorStart {
    /// The state to publish before the first poll.
    pub state: QuotaState,
    /// Milliseconds between two polls.
    pub interval_ms: u64,
}

/// What the monitor starts with under `config`. There is nothing to start
/// where no limit is enforced on any database.
pub fn plan_monitor(config: &ConfigAndUsers) -> (r: Option<MonitorStart>)
    ensures
        match r {
            Some(start) => targets_of(*config).len() > 0 && start.state@ == seeded(
                targets_of(*config),
            ) && start.interval_ms == config.general.quota_poll_interval,
            None => targets_of(*config).len() == 0,
        },
{
    let targets: Vec<QuotaTarget> = collect_targets(config);
    assert(target_views(targets@).len() == targets@.len());
    if targets.len() == 0 {
        return None;
    }
    Some(
        MonitorStart {
            state: initial_state(&targets),
            interval_ms: config.general.quota_poll_interval,
        },
    )
}

// ── Poll ────────────────────────────────────────────────────────────────

/// What the monitor is to do next.
#[derive(Clone, Copy, Debug, PartialEq, Eq, Structural)]
pub enum Action {
    /// Ask for the size of the database of the target at this place.
    CheckSize(usize),
    /// Tell the server of the target at this place to refuse writes (`true`)
    /// or to accept them (`false`).
    SetReadOnly(usize, bool),
    /// Publish the new state.
    Commit,
}

/// What came of an action.
#[derive(Clone, Copy, Debug, PartialEq, Eq, Structural)]
pub enum Event {
    /// The database has this size in bytes.
    Size(u64),
    /// The size could not be had, or not in time.
    CheckFailed,
    /// The server was told.
    ReadOnlySet,
    /// The server could not be told, or not in time.
    ReadOnlyFailed,
}

/// What the server of a database was told, and where it was told so.
pub struct ServerNote {
    /// The host of the server.
    pub host: String,
    /// The port of the server.
    pub port: u16,
    /// The name of the database on the server.
    pub pg_database_name: String,
    /// Whether to refuse writes.
    pub read_only: bool,
}

/// What a [`ServerNote`] says.
#[verifier::ext_equal]
pub struct NoteView {
    pub host: Seq<char>,
    pub port: u16,
    pub pg_database_name: Seq<char>,
    pub read_only: bool,
}

impl View for ServerNote {
    type V = NoteView;

    open spec fn view(&self) -> NoteView {
        NoteView {
            host: self.host@,
            port: self.port,
            pg_database_name: self.pg_database_name@,
            read_only: self.read_only,
        }
    }
}

impl Duplicate for ServerNote {
    fn duplicate(&self) -> (r: Self) {
        ServerNote {
            host: self.host.clone(),
            port: self.port,
            pg_database_name: self.pg_database_name.clone(),
            read_only: self.read_only,
        }
    }
}

/// What the servers of databases were last told.
pub type ServerNotes = NameMap<ServerNote>;

/// The note that the server of `target` was told to refuse writes, or to
/// accept them.
pub open spec fn note_of(target: TargetView, read_only: bool) -> NoteView {
    NoteView {
        host: target.host,
        port: target.port,
        pg_database_name: target.pg_database_name,
        read_only,
    }
}

/// A poll of all targets.
pub struct PollCycle {
    targets: Vec<QuotaTarget>,
    overrides: Overrides,
    modes: ServerNotes,
    sizes: Vec<Option<u64>>,
    pending: Option<u64>,
}

/// What a [`PollCycle`] says.
#[verifier::ext_equal]
pub struct CycleView {
    /// The targets, in the order of the poll.
    pub targets: Seq<TargetView>,
    /// The limits set at run time, as of the start of the poll.
    pub overrides: Map<Seq<char>, u64>,
    /// What each server was last told. A server that was told nothing, or not
    /// for certain, has no entry.
    pub modes: Map<Seq<char>, NoteView>,
    /// The sizes of the targets that are done; none where the check failed.
    pub sizes: Seq<Option<u64>>,
    /// The size of the current target while its server is being told.
    pub pending: Option<u64>,
}

/// The limit of a target: that set at run time, else the configured one.
pub open spec fn limit_in_force(overrides: Map<Seq<char>, u64>, target: TargetView) -> u64 {
    if overrides.contains_key(target.pool_name) {
        overrides[target.pool_name]
    } else {
        target.max_size
    }
}

impl CycleView {
    /// Whether all targets are done.
    pub open spec fn done(self) -> bool {
        self.sizes.len() >= self.targets.len()
    }

    /// The target that the poll is at.
    pub open spec fn current(self) -> TargetView {
        self.targets[self.sizes.len() as int]
    }

    /// Whether the current target, at `bytes`, is over its limit.
    pub open spec fn over(self, bytes: u64) -> bool {
        bytes > limit_in_force(self.overrides, self.current())
    }

    /// What the monitor is to do next.
    pub open spec fn action(self) -> Action {
        if self.done() {
            Action::Commit
        } else {
            match self.pending {
                Some(bytes) => Action::SetReadOnly(self.sizes.len() as usize, self.over(bytes)),
                None => Action::CheckSize(self.sizes.len() as usize),
            }
        }
    }

    /// Whether the server of the current target was last told what the size
    /// `bytes` calls for. What another server was told does not count.
    pub open spec fn is_told(self, bytes: u64) -> bool {
        let name = self.current().pool_name;
        self.modes.contains_key(name) && self.modes[name] == note_of(
            self.current(),
            self.over(bytes),
        )
    }

    /// The poll behind its current target, which has the size `size`.
    pub open spec fn advanced(self, size: Option<u64>) -> CycleView {
        CycleView { sizes: self.sizes.push(size), pending: None, ..self }
    }

    /// The poll behind an event. An event that the last action does not lead
    /// to changes nothing.
    pub open spec fn step(self, event: Event) -> CycleView {
        let name = self.current().pool_name;
        if self.done() {
            self
        } else {
            match (self.pending, event) {
                (None, Event::Size(bytes)) => if self.is_told(bytes) {
                    self.advanced(Some(bytes))
                } else {
                    CycleView { pending: Some(bytes), ..self }
                },
                (None, Event::CheckFailed) => self.advanced(None),
                (Some(bytes), Event::ReadOnlySet) => CycleView {
                    modes: self.modes.insert(name, note_of(self.current(), self.over(bytes))),
                    ..self.advanced(Some(bytes))
                },
                // Whether the server was reached is not known now.
                (Some(bytes), Event::ReadOnlyFailed) => CycleView {
                    modes: self.modes.remove(name),
                    ..self.advanced(Some(bytes))
                },
                _ => self,
            }
        }
    }
}

/// The names of targets.
pub open spec fn target_names(targets: Seq<TargetView>) -> Set<Seq<char>> {
    Set::new(
        |name: Seq<char>|
            exists|p: int| 0 <= p < targets.len() && (#[trigger] targets[p]).pool_name == name,
    )
}

/// The first moment of a poll under `config`. What is noted of servers that
/// are no targets any more is forgotten.
pub open spec fn started(
    config: ConfigAndUsers,
    overrides: Map<Seq<char>, u64>,
    modes: Map<Seq<char>, NoteView>,
) -> CycleView {
    CycleView {
        targets: targets_of(config),
        overrides,
        modes: modes.restrict(target_names(targets_of(config))),
        sizes: Seq::empty(),
        pending: None,
    }
}

/// The new status of a target, none where there is none to publish.
///
/// A size that was measured is held against the limit now in force, be it set
/// or cleared during the poll. Where there is no size, the status that is
/// published now stays, under a limit set at run time if there is one.
pub open spec fn polled(
    target: TargetView,
    size: Option<u64>,
    live: Map<Seq<char>, StatusView>,
    overrides: Map<Seq<char>, u64>,
) -> Option<StatusView> {
    let name = target.pool_name;
    match size {
        Some(bytes) => Some(
            StatusView {
                database: name,
                current_size: bytes,
                max_size: limit_in_force(overrides, target),
                over_limit: bytes > limit_in_force(overrides, target),
            },
        ),
        None => if !live.contains_key(name) {
            None
        } else if overrides.contains_key(name) {
            Some(with_limit(live[name], overrides[name]))
        } else {
            Some(live[name])
        },
    }
}

/// The state to publish for the first `n` targets.
pub open spec fn committed(
    targets: Seq<TargetView>,
    sizes: Seq<Option<u64>>,
    live: Map<Seq<char>, StatusView>,
    overrides: Map<Seq<char>, u64>,
    n: int,
) -> Map<Seq<char>, StatusView>
    decreases n,
{
    if n <= 0 {
        Map::empty()
    } else {
        let before = committed(targets, sizes, live, overrides, n - 1);
        match polled(targets[n - 1], sizes[n - 1], live, overrides) {
            Some(status) => before.insert(targets[n - 1].pool_name, status),
            None => before,
        }
    }
}

impl View for PollCycle {
    type V = CycleView;

    closed spec fn view(&self) -> CycleView {
        CycleView {
            targets: target_views(self.targets@),
            overrides: self.overrides@,
            modes: self.modes@,
            sizes: self.sizes@,
            pending: self.pending,
        }
    }
}

impl PollCycle {
    #[verifier::type_invariant]
    spec fn consistent(self) -> bool {
        self.sizes@.len() <= self.targets@.len()
    }

    /// Starts a poll under `config`.
    ///
    /// `overrides` are the limits set at run time, `modes` what the servers
    /// were last told.
    pub fn begin(config: &ConfigAndUsers, overrides: Overrides, modes: ServerNotes) -> (r: Self)
        ensures
            r@ == started(*config, overrides@, modes@),
    {
        let targets: Vec<QuotaTarget> = collect_targets(config);
        let modes: ServerNotes = notes_of(&targets, &modes);
        PollCycle {
            targets,
            overrides,
            modes,
            sizes: Vec::new(),
            pending: None,
        }
    }

    /// The target at place `i`.
    pub fn target(&self, i: usize) -> (r: Option<&QuotaTarget>)
        ensures
            match r {
                Some(target) => i < self@.targets.len() && target@ == self@.targets[i as int],
                None => i >= self@.targets.len(),
            },
    {
        assert(target_views(self.targets@).len() == self.targets@.len());
        if i < self.targets.len() {
            Some(&self.targets[i])
        } else {
            None
        }
    }

    /// The limit of the target at place `i`, as of the start of the poll.
    pub fn limit(&self, i: usize) -> (r: Option<u64>)
        ensures
            r == (if i < self@.targets.len() {
                Some(limit_in_force(self@.overrides, self@.targets[i as int]))
            } else {
                None
            }),
    {
        match self.target(i) {
            Some(target) => match self.overrides.get(target.pool_name.as_str()) {
                Some(max_size) => Some(*max_size),
                None => Some(target.max_size),
            },
            None => None,
        }
    }

    /// Whether the current target, at `bytes`, is over its limit.
    fn exceeds(&self, bytes: u64) -> (r: bool)
        requires
            !self@.done(),
        ensures
            r == self@.over(bytes),
    {
        match self.limit(self.sizes.len()) {
            Some(limit) => bytes > limit,
            None => false,
        }
    }

    /// What the monitor is to do next.
    pub fn action(&self) -> (r: Action)
        ensures
            r == self@.action(),
    {
        assert(target_views(self.targets@).len() == self.targets@.len());
        let i: usize = self.sizes.len();
        if i >= self.targets.len() {
            return Action::Commit;
        }
        match self.pending {
            Some(bytes) => Action::SetReadOnly(i, self.exceeds(bytes)),
            None => Action::CheckSize(i),
        }
    }

    /// Whether the server of the current target was last told what the size
    /// `bytes` calls for.
    fn knows(&self, bytes: u64) -> (r: bool)
        requires
            !self@.done(),
        ensures
            r == self@.is_told(bytes),
    {
        let target: &QuotaTarget = &self.targets[self.sizes.len()];
        match self.modes.get(target.pool_name.as_str()) {
            Some(note) => note.read_only == self.exceeds(bytes) && note.port == target.port
                && same_text(note.host.as_str(), target.host.as_str()) && same_text(
                note.pg_database_name.as_str(),
                target.pg_database_name.as_str(),
            ),
            None => false,
        }
    }

    /// Goes on to the next target.
    fn advance(self, size: Option<u64>) -> (r: Self)
        requires
            !self@.done(),
        ensures
            r@ == self@.advanced(size),
    {
        let mut cycle = self;
        let ghost before = cycle@;
        let mut sizes: Vec<Option<u64>> = Vec::new();
        std::mem::swap(&mut sizes, &mut cycle.sizes);
        sizes.push(size);
        let next = PollCycle { sizes, pending: None, ..cycle };
        assert(next@ == before.advanced(size));
        next
    }

    /// Notes what the server of the current target was told, none where that
    /// is not known.
    fn note(self, read_only: Option<bool>) -> (r: Self)
        requires
            !self@.done(),
        ensures
            r@ == (CycleView {
                modes: match read_only {
                    Some(mode) => self@.modes.insert(
                        self@.current().pool_name,
                        note_of(self@.current(), mode),
                    ),
                    None => self@.modes.remove(self@.current().pool_name),
                },
                ..self@
            }),
    {
        proof {
            use_type_invariant(&self);
        }
        let mut cycle = self;
        let mut modes: ServerNotes = NameMap::new();
        std::mem::swap(&mut modes, &mut cycle.modes);
        let target: &QuotaTarget = &cycle.targets[cycle.sizes.len()];
        match read_only {
            Some(mode) => {
                let note = ServerNote {
                    host: target.host.clone(),
                    port: target.port,
                    pg_database_name: target.pg_database_name.clone(),
                    read_only: mode,
                };
                modes.insert(target.pool_name.clone(), note);
            },
            None => {
                modes.remove(target.pool_name.as_str());
            },
        }
        PollCycle { modes, ..cycle }
    }

    /// Takes in what came of the last action.
    pub fn handle(self, event: Event) -> (r: Self)
        ensures
            r@ == self@.step(event),
    {
        proof {
            use_type_invariant(&self);
        }
        assert(target_views(self.targets@).len() == self.targets@.len());
        if self.sizes.len() >= self.targets.len() {
            return self;
        }
        match (self.pending, event) {
            (None, Event::Size(bytes)) => {
                if self.knows(bytes) {
                    self.advance(Some(bytes))
                } else {
                    PollCycle { pending: Some(bytes), ..self }
                }
            },
            (None, Event::CheckFailed) => self.advance(None),
            (Some(bytes), Event::ReadOnlySet) => {
                let over: bool = self.exceeds(bytes);
                self.note(Some(over)).advance(Some(bytes))
            },
            (Some(bytes), Event::ReadOnlyFailed) => self.note(None).advance(Some(bytes)),
            _ => self,
        }
    }
}

impl PollCycle {
    /// The state to publish for the targets that are done. `live` is the
    /// published state, `overrides` are the limits set at run time, both as
    /// of now.
    pub fn commit(&self, live: &QuotaState, overrides: &Overrides) -> (r: QuotaState)
        ensures
            r@ == committed(
                self@.targets,
                self@.sizes,
                live@,
                overrides@,
                self@.sizes.len() as int,
            ),
    {
        proof {
            use_type_invariant(self);
        }
        let mut state: QuotaState = NameMap::new();
        let mut i: usize = 0;
        while i < self.sizes.len()
            invariant
                self.sizes@.len() <= self.targets@.len(),
                i <= self.sizes.len(),
                state@ == committed(self@.targets, self@.sizes, live@, overrides@, i as int),
            decreases self.sizes.len() - i,
        {
            let target: &QuotaTarget = &self.targets[i];
            assert(self@.targets[i as int] == target@);
            let name: &str = target.pool_name.as_str();
            let limit: Option<u64> = match overrides.get(name) {
                Some(max_size) => Some(*max_size),
                None => None,
            };
            let status: Option<QuotaStatus> = match self.sizes[i] {
                Some(bytes) => {
                    let max_size: u64 = match limit {
                        Some(max_size) => max_size,
                        None => target.max_size,
                    };
                    Some(
                        QuotaStatus {
                            database: target.pool_name.clone(),
                            current_size: bytes,
                            max_size,
                            over_limit: bytes > max_size,
                        },
                    )
                },
                None => match live.get(name) {
                    Some(status) => Some(kept(status, limit)),
                    None => None,
                },
            };
            if let Some(status) = status {
                state.insert(target.pool_name.clone(), status);
            }
            i = i + 1;
        }
        state
    }

    /// What the servers were last told, for the next poll.
    pub fn into_modes(self) -> (r: ServerNotes)
        ensures
            r@ == self@.modes,
    {
        self.modes
    }
}

/// What is noted in `modes` of the servers of `targets`.
fn notes_of(targets: &Vec<QuotaTarget>, modes: &ServerNotes) -> (r: ServerNotes)
    ensures
        r@ == modes@.restrict(target_names(target_views(targets@))),
{
    let ghost all = target_views(targets@);
    let mut notes: ServerNotes = NameMap::new();
    let mut i: usize = 0;
    assert(notes@ == modes@.restrict(target_names(all.take(0))));
    while i < targets.len()
        invariant
            i <= targets.len(),
            all == target_views(targets@),
            notes@ == modes@.restrict(target_names(all.take(i as int))),
        decreases targets.len() - i,
    {
        let ghost seen = all.take(i as int);
        let ghost more = all.take(i + 1);
        let ghost name = targets@[i as int].pool_name@;
        proof {
            assert(all[i as int] == targets@[i as int]@);
            assert(target_names(more) == target_names(seen).insert(name)) by {
                assert forall|n: Seq<char>| #[trigger] target_names(more).contains(n) == target_names(
                    seen,
                ).insert(name).contains(n) by {
                    if target_names(seen).contains(n) {
                        let p = choose|p: int|
                            0 <= p < seen.len() && (#[trigger] seen[p]).pool_name == n;
                        assert(more[p].pool_name == n);
                    }
                    if target_names(more).contains(n) {
                        let p = choose|p: int|
                            0 <= p < more.len() && (#[trigger] more[p]).pool_name == n;
                        if p < i {
                            assert(seen[p].pool_name == n);
                        }
                    }
                    assert(more[i as int].pool_name == name);
                }
            }
        }
        if let Some(note) = modes.get(targets[i].pool_name.as_str()) {
            notes.insert(targets[i].pool_name.clone(), note.duplicate());
        }
        assert(notes@ == modes@.restrict(target_names(more)));
        i = i + 1;
    }
    assert(all.take(i as int) == all);
    notes
}

/// A status that stays, under a limit set at run time if there is one.
fn kept(status: &QuotaStatus, limit: Option<u64>) -> (r: QuotaStatus)
    ensures
        r@ == (match limit {
            Some(max_size) => with_limit(status@, max_size),
            None => status@,
        }),
{
    match limit {
        Some(max_size) => QuotaStatus {
            database: status.database.clone(),
            current_size: status.current_size,
            max_size,
            over_limit: status.current_size > max_size,
        },
        None => status.duplicate(),
    }
}

// ── Laws ────────────────────────────────────────────────────────────────

/// Whether no two targets have one name.
pub open spec fn names_differ(targets: Seq<TargetView>) -> bool {
    forall|p: int, q: int|
        0 <= p < q < targets.len() ==> (#[trigger] targets[p]).pool_name != (
        #[trigger] targets[q]).pool_name
}

/// The targets of a configuration have different names.
pub proof fn config_names_differ(config: ConfigAndUsers)
    ensures
        names_differ(targets_of(config)),
{
    assert forall|p: int, q: int| 0 <= p < q < targets_of(config).len() implies (
    #[trigger] targets_of(config)[p]).pool_name != (#[trigger] targets_of(config)[q]).pool_name by {
        targets_have_distinct_names(config, p, q);
    }
}

proof fn lemma_seeded(targets: Seq<TargetView>, name: Seq<char>)
    ensures
        seeded(targets).contains_key(name) <==> exists|p: int|
            0 <= p < targets.len() && (#[trigger] targets[p]).pool_name == name,
        seeded(targets).contains_key(name) ==> seeded(targets)[name].over_limit && seeded(
            targets,
        )[name].current_size == u64::MAX,
    decreases targets.len(),
{
    if targets.len() > 0 {
        let front = targets.drop_last();
        lemma_seeded(front, name);
        if seeded(front).contains_key(name) {
            let p = choose|p: int| 0 <= p < front.len() && (#[trigger] front[p]).pool_name == name;
            assert(targets[p].pool_name == name);
        }
        if targets.last().pool_name == name {
            assert(targets[targets.len() - 1].pool_name == name);
        }
        if exists|p: int| 0 <= p < targets.len() && (#[trigger] targets[p]).pool_name == name {
            let p = choose|p: int|
                0 <= p < targets.len() && (#[trigger] targets[p]).pool_name == name;
            if p < front.len() {
                assert(front[p].pool_name == name);
            }
        }
    }
}

/// Before the first poll every database that is polled is blocked, and none
/// other has a status.
pub proof fn start_is_closed(targets: Seq<TargetView>, name: Seq<char>)
    ensures
        seeded(targets).contains_key(name) <==> exists|p: int|
            0 <= p < targets.len() && (#[trigger] targets[p]).pool_name == name,
        seeded(targets).contains_key(name) ==> seeded(targets)[name].over_limit,
        blocks_excess(seeded(targets)),
{
    lemma_seeded(targets, name);
    assert forall|n: Seq<char>| #[trigger]
        seeded(targets).contains_key(n) && seeded(targets)[n].current_size > seeded(
            targets,
        )[n].max_size implies seeded(targets)[n].over_limit by {
        lemma_seeded(targets, n);
    }
}

proof fn lemma_committed(
    targets: Seq<TargetView>,
    sizes: Seq<Option<u64>>,
    live: Map<Seq<char>, StatusView>,
    overrides: Map<Seq<char>, u64>,
    n: int,
    p: int,
)
    requires
        0 <= p < n <= targets.len(),
        names_differ(targets),
    ensures
        ({
            let state = committed(targets, sizes, live, overrides, n);
            match polled(targets[p], sizes[p], live, overrides) {
                Some(status) => state.contains_key(targets[p].pool_name)
                    && state[targets[p].pool_name] == status,
                None => !state.contains_key(targets[p].pool_name),
            }
        }),
    decreases n,
{
    if p < n - 1 {
        lemma_committed(targets, sizes, live, overrides, n - 1, p);
        assert(targets[p].pool_name != targets[n - 1].pool_name);
    } else {
        lemma_uncommitted(targets, sizes, live, overrides, n - 1, targets[p].pool_name);
    }
}

proof fn lemma_uncommitted(
    targets: Seq<TargetView>,
    sizes: Seq<Option<u64>>,
    live: Map<Seq<char>, StatusView>,
    overrides: Map<Seq<char>, u64>,
    n: int,
    name: Seq<char>,
)
    requires
        0 <= n <= targets.len(),
        forall|p: int| 0 <= p < n ==> (#[trigger] targets[p]).pool_name != name,
    ensures
        !committed(targets, sizes, live, overrides, n).contains_key(name),
    decreases n,
{
    if n > 0 {
        lemma_uncommitted(targets, sizes, live, overrides, n - 1, name);
        assert(targets[n - 1].pool_name != name);
    }
}

/// A finished poll publishes for each target what came of it, and nothing for
/// any other database.
pub proof fn poll_publishes_targets(
    targets: Seq<TargetView>,
    sizes: Seq<Option<u64>>,
    live: Map<Seq<char>, StatusView>,
    overrides: Map<Seq<char>, u64>,
    name: Seq<char>,
)
    requires
        names_differ(targets),
        sizes.len() == targets.len(),
    ensures
        ({
            let state = committed(targets, sizes, live, overrides, sizes.len() as int);
            &&& forall|p: int|
                0 <= p < targets.len() && (#[trigger] targets[p]).pool_name == name ==> match polled(
                    targets[p],
                    sizes[p],
                    live,
                    overrides,
                ) {
                    Some(status) => state.contains_key(name) && state[name] == status,
                    None => !state.contains_key(name),
                }
            &&& (forall|p: int|
                0 <= p < targets.len() ==> (#[trigger] targets[p]).pool_name != name)
                ==> !state.contains_key(name)
        }),
{
    let n = sizes.len() as int;
    assert forall|p: int|
        0 <= p < targets.len() && (#[trigger] targets[p]).pool_name == name implies match polled(
        targets[p],
        sizes[p],
        live,
        overrides,
    ) {
        Some(status) => committed(targets, sizes, live, overrides, n).contains_key(name)
            && committed(targets, sizes, live, overrides, n)[name] == status,
        None => !committed(targets, sizes, live, overrides, n).contains_key(name),
    } by {
        lemma_committed(targets, sizes, live, overrides, n, p);
    }
    if forall|p: int| 0 <= p < targets.len() ==> (#[trigger] targets[p]).pool_name != name {
        lemma_uncommitted(targets, sizes, live, overrides, n, name);
    }
}

/// A measurement decides: whatever was published before, a database whose size
/// was had is published with it, under the limit now in force, and blocked
/// exactly where it is larger. So a database that was blocked because its size
/// was not known is released by the first measurement within its limit.
pub proof fn measurement_decides(
    targets: Seq<TargetView>,
    sizes: Seq<Option<u64>>,
    live: Map<Seq<char>, StatusView>,
    overrides: Map<Seq<char>, u64>,
    p: int,
)
    requires
        names_differ(targets),
        sizes.len() == targets.len(),
        0 <= p < targets.len(),
        sizes[p] is Some,
    ensures
        ({
            let name = targets[p].pool_name;
            let state = committed(targets, sizes, live, overrides, sizes.len() as int);
            &&& state.contains_key(name)
            &&& state[name].current_size == sizes[p]->0
            &&& state[name].max_size == limit_in_force(overrides, targets[p])
            &&& state[name].over_limit <==> sizes[p]->0 > limit_in_force(overrides, targets[p])
        }),
{
    poll_publishes_targets(targets, sizes, live, overrides, targets[p].pool_name);
}

/// A limit set at run time survives polls: whatever was measured, each
/// database that has one is published under it, and over exactly where it is
/// larger. `overrides` are the limits at the end of the poll, so a limit that
/// was set while the poll was under way is not lost either.
pub proof fn override_survives_poll(
    targets: Seq<TargetView>,
    sizes: Seq<Option<u64>>,
    live: Map<Seq<char>, StatusView>,
    overrides: Map<Seq<char>, u64>,
    name: Seq<char>,
)
    requires
        names_differ(targets),
        sizes.len() == targets.len(),
        overrides.contains_key(name),
    ensures
        ({
            let state = committed(targets, sizes, live, overrides, sizes.len() as int);
            state.contains_key(name) ==> state[name].max_size == overrides[name]
                && state[name].over_limit == (state[name].current_size > overrides[name])
        }),
{
    poll_publishes_targets(targets, sizes, live, overrides, name);
    let state = committed(targets, sizes, live, overrides, sizes.len() as int);
    if state.contains_key(name) {
        let p = choose|p: int| 0 <= p < targets.len() && (#[trigger] targets[p]).pool_name == name;
        assert(polled(targets[p], sizes[p], live, overrides) == Some(state[name]));
    }
}

/// A limit that is cleared while a poll is under way does not come back with
/// that poll. What was measured is published under the configured limit of the
/// target; what could not be measured, as the clearing left it.
pub proof fn clear_survives_poll(
    config: ConfigAndUsers,
    sizes: Seq<Option<u64>>,
    live: Map<Seq<char>, StatusView>,
    overrides: Map<Seq<char>, u64>,
    p: int,
)
    requires
        sizes.len() == targets_of(config).len(),
        0 <= p < sizes.len(),
    ensures
        ({
            let targets = targets_of(config);
            let name = targets[p].pool_name;
            let (o, l) = after_clear(overrides, live, config, name);
            let state = committed(targets, sizes, l, o, sizes.len() as int);
            match sizes[p] {
                Some(bytes) => state.contains_key(name) && state[name].max_size
                    == targets[p].max_size && state[name].over_limit == (bytes
                    > targets[p].max_size),
                None => state.contains_key(name) == l.contains_key(name) && (l.contains_key(name)
                    ==> state[name] == l[name]),
            }
        }),
{
    let targets = targets_of(config);
    let name = targets[p].pool_name;
    let (o, l) = after_clear(overrides, live, config, name);
    config_names_differ(config);
    poll_publishes_targets(targets, sizes, l, o, name);
}

/// A check that fails keeps the status of its database as it is, under a limit
/// set at run time if there is one. In particular a database that was blocked
/// because its size is not known stays blocked, unless the limit set at run
/// time is the largest there is.
pub proof fn failed_check_keeps_status(
    targets: Seq<TargetView>,
    sizes: Seq<Option<u64>>,
    live: Map<Seq<char>, StatusView>,
    overrides: Map<Seq<char>, u64>,
    p: int,
)
    requires
        names_differ(targets),
        sizes.len() == targets.len(),
        0 <= p < targets.len(),
        sizes[p] is None,
        live.contains_key(targets[p].pool_name),
    ensures
        ({
            let name = targets[p].pool_name;
            let state = committed(targets, sizes, live, overrides, sizes.len() as int);
            &&& state.contains_key(name)
            &&& state[name].current_size == live[name].current_size
            &&& !overrides.contains_key(name) ==> state[name] == live[name]
            &&& live[name] == unmeasured(targets[p]) && (overrides.contains_key(name)
                ==> overrides[name] < u64::MAX) ==> state[name].over_limit
        }),
{
    poll_publishes_targets(targets, sizes, live, overrides, targets[p].pool_name);
}

/// No poll lets a database pass that is larger than its limit.
pub proof fn polls_block_excess(
    targets: Seq<TargetView>,
    sizes: Seq<Option<u64>>,
    live: Map<Seq<char>, StatusView>,
    overrides: Map<Seq<char>, u64>,
    n: int,
)
    requires
        blocks_excess(live),
        0 <= n <= targets.len(),
        n <= sizes.len(),
    ensures
        blocks_excess(committed(targets, sizes, live, overrides, n)),
    decreases n,
{
    if n > 0 {
        polls_block_excess(targets, sizes, live, overrides, n - 1);
        assert(live.contains_key(targets[n - 1].pool_name) ==> blocks_excess(live));
    }
}

/// Whether `event` is what can come of `action`.
pub open spec fn answers(event: Event, action: Action) -> bool {
    match action {
        Action::CheckSize(_) => event matches Event::Size(_) || event == Event::CheckFailed,
        Action::SetReadOnly(_, _) => event == Event::ReadOnlySet || event == Event::ReadOnlyFailed,
        Action::Commit => false,
    }
}

/// How many more events a poll takes at most.
pub open spec fn events_left(cycle: CycleView) -> int {
    2 * (cycle.targets.len() - cycle.sizes.len()) - (if cycle.pending is Some {
        1int
    } else {
        0int
    })
}

/// A poll comes to its end: each answer to an action brings it nearer, so that
/// it takes two events for each target at most. It goes through the targets in
/// order, and keeps them and the limits that it started with.
pub proof fn polls_end(cycle: CycleView, event: Event)
    requires
        cycle.sizes.len() <= cycle.targets.len(),
        answers(event, cycle.action()),
    ensures
        ({
            let next = cycle.step(event);
            &&& 0 <= events_left(next) < events_left(cycle)
            &&& next.sizes.len() <= next.targets.len()
            &&& next.targets == cycle.targets
            &&& next.overrides == cycle.overrides
            &&& next.sizes.take(cycle.sizes.len() as int) == cycle.sizes
        }),
{
    assert(cycle.step(event).sizes.take(cycle.sizes.len() as int) =~= cycle.sizes);
}

/// A server is told where it may do the wrong thing, and only there: after a
/// measurement the poll asks for it exactly where the server was not last told
/// what the size of the database calls for.
pub proof fn servers_are_told_on_change(cycle: CycleView, bytes: u64)
    requires
        !cycle.done(),
        cycle.pending is None,
    ensures
        ({
            let name = cycle.current().pool_name;
            let next = cycle.step(Event::Size(bytes));
            if cycle.modes.contains_key(name) && cycle.modes[name] == note_of(
                cycle.current(),
                cycle.over(bytes),
            ) {
                next.sizes == cycle.sizes.push(Some(bytes)) && next.modes == cycle.modes
            } else {
                next.action() == Action::SetReadOnly(
                    cycle.sizes.len() as usize,
                    cycle.over(bytes),
                )
            }
        }),
{
}

/// A server is told with each change of the published flag: where it was last
/// told what the published status says, a measurement leads to telling it
/// exactly where the database goes over its limit or comes back within it.
pub proof fn servers_follow_the_flag(
    cycle: CycleView,
    state: Map<Seq<char>, StatusView>,
    bytes: u64,
)
    requires
        !cycle.done(),
        cycle.pending is None,
        state.contains_key(cycle.current().pool_name),
        cycle.modes.contains_key(cycle.current().pool_name),
        cycle.modes[cycle.current().pool_name] == note_of(
            cycle.current(),
            state[cycle.current().pool_name].over_limit,
        ),
    ensures
        cycle.step(Event::Size(bytes)).pending is Some <==> cycle.over(bytes)
            != state[cycle.current().pool_name].over_limit,
{
}

/// A server that a database moves to is told: where the note is of another
/// host, another port or another name of the database there, a measurement
/// leads to telling the server that is polled now, whatever the note says.
pub proof fn moved_servers_are_told(cycle: CycleView, bytes: u64)
    requires
        !cycle.done(),
        cycle.pending is None,
        ({
            let target = cycle.current();
            let note = cycle.modes[target.pool_name];
            note.host != target.host || note.port != target.port || note.pg_database_name
                != target.pg_database_name
        }),
    ensures
        cycle.step(Event::Size(bytes)).action() == Action::SetReadOnly(
            cycle.sizes.len() as usize,
            cycle.over(bytes),
        ),
{
}

/// Whether only servers of targets are noted.
pub open spec fn only_targets_noted(cycle: CycleView) -> bool {
    forall|name: Seq<char>| #[trigger]
        cycle.modes.contains_key(name) ==> target_names(cycle.targets).contains(name)
}

/// A server whose database leaves the configuration is forgotten: from its
/// start to its end a poll holds notes of its own targets only, whatever was
/// noted before. So the server is told anew when the database comes back.
pub proof fn absent_servers_are_forgotten(
    config: ConfigAndUsers,
    overrides: Map<Seq<char>, u64>,
    modes: Map<Seq<char>, NoteView>,
    cycle: CycleView,
    event: Event,
)
    ensures
        only_targets_noted(started(config, overrides, modes)),
        only_targets_noted(cycle) ==> only_targets_noted(cycle.step(event)),
{
    if only_targets_noted(cycle) && !cycle.done() {
        let p = cycle.sizes.len() as int;
        assert(cycle.targets[p].pool_name == cycle.current().pool_name);
        assert(target_names(cycle.targets).contains(cycle.current().pool_name));
    }
}

/// Whether of each target that is done the server, as far as it is known what
/// it was told, refuses writes exactly where the database was found over its
/// limit.
pub open spec fn servers_match(cycle: CycleView) -> bool {
    forall|p: int|
        0 <= p < cycle.sizes.len() && cycle.sizes[p] is Some && cycle.modes.contains_key(
            (#[trigger] cycle.targets[p]).pool_name,
        ) ==> cycle.modes[cycle.targets[p].pool_name] == note_of(
            cycle.targets[p],
            cycle.sizes[p]->0 > limit_in_force(cycle.overrides, cycle.targets[p]),
        )
}

/// What is noted of the servers agrees with what was measured, from the start
/// of a poll to its end.
pub proof fn servers_follow_sizes(cycle: CycleView, event: Event)
    requires
        names_differ(cycle.targets),
    ensures
        cycle.sizes.len() == 0 ==> servers_match(cycle),
        servers_match(cycle) ==> servers_match(cycle.step(event)),
{
    if servers_match(cycle) {
        let next = cycle.step(event);
        assert forall|p: int|
            0 <= p < next.sizes.len() && next.sizes[p] is Some && next.modes.contains_key(
                (#[trigger] next.targets[p]).pool_name,
            ) implies next.modes[next.targets[p].pool_name] == note_of(
            next.targets[p],
            next.sizes[p]->0 > limit_in_force(next.overrides, next.targets[p]),
        ) by {
            assert(cycle.targets[p] == next.targets[p]);
            if p < cycle.sizes.len() && !cycle.done() {
                assert(cycle.targets[p].pool_name != cycle.current().pool_name);
            }
        }
    }
}

/// A server that could be told is in step: unless telling it fails, a poll
/// that measured a database leaves a note of what its size calls for.
pub proof fn measured_servers_are_in_step(cycle: CycleView, bytes: u64)
    requires
        !cycle.done(),
        cycle.pending is None,
    ensures
        ({
            let name = cycle.current().pool_name;
            let measured = cycle.step(Event::Size(bytes));
            let next = if measured.pending is Some {
                measured.step(Event::ReadOnlySet)
            } else {
                measured
            };
            &&& next.sizes == cycle.sizes.push(Some(bytes))
            &&& next.modes.contains_key(name) && next.modes[name] == note_of(
                cycle.current(),
                cycle.over(bytes),
            )
        }),
{
}

/// Telling a server that could not be told is tried again: the next poll that
/// measures the database, whatever its size, asks for it.
pub proof fn failure_is_tried_again(cycle: CycleView, next: CycleView, bytes: u64)
    requires
        !cycle.done(),
        cycle.pending is Some,
        !next.done(),
        next.pending is None,
        next.modes == cycle.step(Event::ReadOnlyFailed).modes,
        next.current().pool_name == cycle.current().pool_name,
    ensures
        next.step(Event::Size(bytes)).action() == Action::SetReadOnly(
            next.sizes.len() as usize,
            next.over(bytes),
        ),
{
}

/// A tenant whose server refuses writes is released by a larger limit: setting
/// one leaves alone what is noted of the server, and so the poll that comes to
/// the database and finds it within that limit tells the server to accept
/// writes.
pub proof fn larger_limit_releases(
    cycle: CycleView,
    overrides: Map<Seq<char>, u64>,
    state: Map<Seq<char>, StatusView>,
    max_size: u64,
    bytes: u64,
)
    requires
        !cycle.done(),
        cycle.pending is None,
        cycle.modes.contains_key(cycle.current().pool_name),
        cycle.modes[cycle.current().pool_name].read_only,
        cycle.overrides == after_set(overrides, state, cycle.current().pool_name, max_size).0,
        bytes <= max_size,
    ensures
        cycle.step(Event::Size(bytes)).action() == Action::SetReadOnly(
            cycle.sizes.len() as usize,
            false,
        ),
{
}

/// The state before the first poll and that behind each poll hold each status
/// under its database.
pub proof fn polls_keep_names(
    targets: Seq<TargetView>,
    sizes: Seq<Option<u64>>,
    live: Map<Seq<char>, StatusView>,
    overrides: Map<Seq<char>, u64>,
    n: int,
)
    requires
        0 <= n <= targets.len(),
        n <= sizes.len(),
    ensures
        is_keyed(seeded(targets.take(n))),
        is_keyed(live) ==> is_keyed(committed(targets, sizes, live, overrides, n)),
    decreases n,
{
    if n > 0 {
        polls_keep_names(targets, sizes, live, overrides, n - 1);
        assert(targets.take(n).drop_last() == targets.take(n - 1));
    }
}

proof fn lemma_polled_limit(targets: Seq<TargetView>, p: int)
    requires
        0 <= p < targets.len(),
        forall|q: int|
            0 <= q < targets.len() && q != p ==> (#[trigger] targets[q]).pool_name
                != targets[p].pool_name,
    ensures
        polled_limit(targets, targets[p].pool_name) == Some(targets[p].max_size),
    decreases targets.len(),
{
    if p > 0 {
        let rest = targets.skip(1);
        assert(targets[0].pool_name != targets[p].pool_name);
        assert forall|q: int| 0 <= q < rest.len() && q != p - 1 implies (
        #[trigger] rest[q]).pool_name != rest[p - 1].pool_name by {
            assert(rest[q] == targets[q + 1]);
        }
        lemma_polled_limit(rest, p - 1);
    }
}

/// Clearing the limit of a database that is polled goes back to the limit of
/// its target at once, without waiting for a poll, and that is the one that the
/// next poll applies.
pub proof fn clear_agrees_with_poll(
    config: ConfigAndUsers,
    overrides: Map<Seq<char>, u64>,
    state: Map<Seq<char>, StatusView>,
    p: int,
)
    requires
        0 <= p < targets_of(config).len(),
    ensures
        ({
            let target = targets_of(config)[p];
            let (o, s) = after_clear(overrides, state, config, target.pool_name);
            &&& configured_limit(config, target.pool_name) == Some(target.max_size)
            &&& limit_in_force(o, target) == target.max_size
            &&& state.contains_key(target.pool_name) ==> s.contains_key(target.pool_name)
                && s[target.pool_name] == with_limit(state[target.pool_name], target.max_size)
        }),
{
    config_names_differ(config);
    lemma_polled_limit(targets_of(config), p);
}

// ── Laws by fields ──────────────────────────────────────────────────────

/// A note says what its fields say, and so does the note that a server was
/// told.
pub proof fn notes_by_fields(note: ServerNote, target: TargetView, read_only: bool)
    ensures
        note@.host == note.host@ && note@.port == note.port,
        note@.pg_database_name == note.pg_database_name@ && note@.read_only == note.read_only,
        note_of(target, read_only).host == target.host,
        note_of(target, read_only).port == target.port,
        note_of(target, read_only).pg_database_name == target.pg_database_name,
        note_of(target, read_only).read_only == read_only,
{
}

/// A limit set at run time goes before the configured one, be it smaller or
/// larger, and only that of the database itself counts.
pub proof fn limit_in_force_by_name(
    overrides: Map<Seq<char>, u64>,
    target: TargetView,
    other: Seq<char>,
    max_size: u64,
)
    ensures
        limit_in_force(overrides.insert(target.pool_name, max_size), target) == max_size,
        limit_in_force(overrides.remove(target.pool_name), target) == target.max_size,
        other != target.pool_name ==> limit_in_force(overrides.insert(other, max_size), target)
            == limit_in_force(overrides, target),
        overrides.contains_key(target.pool_name) ==> limit_in_force(overrides, target)
            == overrides[target.pool_name],
        !overrides.contains_key(target.pool_name) ==> limit_in_force(overrides, target)
            == target.max_size,
{
}

/// Each target is asked for its own size: while targets are left and no server
/// is being told, the poll asks for the size of the target whose place is the
/// number of sizes that it has. The size that comes in, whatever comes of
/// telling the server, is the size at the place that was asked for, and the
/// sizes that the poll had stay.
pub proof fn sizes_are_of_the_targets_asked(cycle: CycleView, bytes: u64, told: bool)
    requires
        cycle.sizes.len() < cycle.targets.len() <= usize::MAX,
        cycle.pending is None,
    ensures
        cycle.action() is CheckSize,
        cycle.action()->CheckSize_0 == cycle.sizes.len(),
        ({
            let asked = cycle.action()->CheckSize_0 as int;
            let measured = cycle.step(Event::Size(bytes));
            let done = if measured.sizes.len() > asked {
                measured
            } else {
                measured.step(
                    if told {
                        Event::ReadOnlySet
                    } else {
                        Event::ReadOnlyFailed
                    },
                )
            };
            let failed = cycle.step(Event::CheckFailed);
            &&& done.sizes.len() == asked + 1
            &&& done.sizes[asked] == Some(bytes)
            &&& done.pending is None
            &&& forall|p: int| 0 <= p < asked ==> #[trigger] done.sizes[p] == cycle.sizes[p]
            &&& failed.sizes.len() == asked + 1
            &&& failed.sizes[asked] is None
            &&& failed.pending is None
            &&& forall|p: int| 0 <= p < asked ==> #[trigger] failed.sizes[p] == cycle.sizes[p]
            &&& done.targets == cycle.targets && failed.targets == cycle.targets
            &&& done.overrides == cycle.overrides && failed.overrides == cycle.overrides
        }),
{
}

/// A poll is over exactly where it has a size, or a failure, for each target.
pub proof fn poll_is_over_with_the_last_target(cycle: CycleView)
    ensures
        cycle.action() == Action::Commit <==> cycle.sizes.len() >= cycle.targets.len(),
        cycle.done() <==> cycle.sizes.len() >= cycle.targets.len(),
{
}

/// The server that is told is that of the target whose size came in, and it is
/// told to refuse writes exactly where that size is larger than the limit of
/// that target, which is the one set at run time, else the configured one.
pub proof fn the_measured_server_is_told(cycle: CycleView, bytes: u64)
    requires
        cycle.sizes.len() < cycle.targets.len() <= usize::MAX,
        cycle.pending is None,
    ensures
        ({
            let i = cycle.sizes.len() as int;
            let target = cycle.targets[i];
            let name = target.pool_name;
            let limit = if cycle.overrides.contains_key(name) {
                cycle.overrides[name]
            } else {
                target.max_size
            };
            let next = cycle.step(Event::Size(bytes));
            let knows = cycle.modes.contains_key(name) && cycle.modes[name].host == target.host
                && cycle.modes[name].port == target.port && cycle.modes[name].pg_database_name
                == target.pg_database_name && cycle.modes[name].read_only == (bytes > limit);
            &&& !knows ==> next.action() is SetReadOnly && next.action()->SetReadOnly_0 == i
                && next.action()->SetReadOnly_1 == (bytes > limit) && next.modes == cycle.modes
                && next.sizes == cycle.sizes
            &&& knows ==> next.sizes.len() == i + 1 && next.modes == cycle.modes
        }),
{
    let target = cycle.targets[cycle.sizes.len() as int];
    let name = target.pool_name;
    let note = cycle.modes[name];
    if note.host == target.host && note.port == target.port && note.pg_database_name
        == target.pg_database_name && note.read_only == cycle.over(bytes) {
        assert(note == note_of(target, cycle.over(bytes)));
    }
}

/// A server that was told is noted with its address and what it was told; one
/// that could not be told is forgotten. What is noted of other servers stays.
pub proof fn telling_is_noted(cycle: CycleView, bytes: u64, other: Seq<char>)
    requires
        cycle.sizes.len() < cycle.targets.len() <= usize::MAX,
        cycle.pending == Some(bytes),
    ensures
        ({
            let target = cycle.targets[cycle.sizes.len() as int];
            let name = target.pool_name;
            let told = cycle.step(Event::ReadOnlySet);
            let failed = cycle.step(Event::ReadOnlyFailed);
            &&& cycle.action() is SetReadOnly
            &&& told.modes.contains_key(name)
            &&& told.modes[name].host == target.host && told.modes[name].port == target.port
            &&& told.modes[name].pg_database_name == target.pg_database_name
            &&& told.modes[name].read_only == cycle.action()->SetReadOnly_1
            &&& !failed.modes.contains_key(name)
            &&& told.sizes == cycle.sizes.push(Some(bytes)) && failed.sizes == told.sizes
            &&& other != name ==> told.modes.contains_key(other) == cycle.modes.contains_key(other)
                && failed.modes.contains_key(other) == cycle.modes.contains_key(other)
            &&& other != name && cycle.modes.contains_key(other) ==> told.modes[other]
                == cycle.modes[other] && failed.modes[other] == cycle.modes[other]
        }),
{
}

/// Events that the last action does not lead to change nothing.
pub proof fn stray_events_change_nothing(cycle: CycleView, bytes: u64)
    ensures
        cycle.sizes.len() >= cycle.targets.len() ==> cycle.step(Event::Size(bytes)) == cycle
            && cycle.step(Event::CheckFailed) == cycle && cycle.step(Event::ReadOnlySet) == cycle
            && cycle.step(Event::ReadOnlyFailed) == cycle,
        cycle.pending is None ==> cycle.step(Event::ReadOnlySet) == cycle && cycle.step(
            Event::ReadOnlyFailed,
        ) == cycle,
        cycle.pending is Some ==> cycle.step(Event::Size(bytes)) == cycle && cycle.step(
            Event::CheckFailed,
        ) == cycle,
        cycle.pending is None ==> cycle.step(Event::CheckFailed).modes == cycle.modes,
{
}

/// A poll starts with the targets of the configuration, the limits it is
/// given, no sizes, and the notes of the targets' servers.
pub proof fn start_by_fields(
    config: ConfigAndUsers,
    overrides: Map<Seq<char>, u64>,
    modes: Map<Seq<char>, NoteView>,
    name: Seq<char>,
)
    ensures
        ({
            let cycle = started(config, overrides, modes);
            &&& cycle.targets == targets_of(config)
            &&& cycle.overrides == overrides
            &&& cycle.sizes.len() == 0
            &&& cycle.pending is None
            &&& cycle.modes.contains_key(name) <==> modes.contains_key(name) && exists|p: int|
                0 <= p < targets_of(config).len() && (#[trigger] targets_of(config)[p]).pool_name
                    == name
            &&& cycle.modes.contains_key(name) ==> cycle.modes[name] == modes[name]
        }),
{
}

/// Before the first poll each target has a status of its own name, of the
/// largest size, under its configured limit, and over it.
pub proof fn start_is_closed_by_fields(config: ConfigAndUsers, p: int)
    requires
        0 <= p < targets_of(config).len(),
    ensures
        ({
            let target = targets_of(config)[p];
            let state = seeded(targets_of(config));
            &&& state.contains_key(target.pool_name)
            &&& state[target.pool_name].database == target.pool_name
            &&& state[target.pool_name].current_size == u64::MAX
            &&& state[target.pool_name].max_size == target.max_size
            &&& state[target.pool_name].over_limit
        }),
{
    config_names_differ(config);
    lemma_seeded_at(targets_of(config), p);
}

proof fn lemma_seeded_at(targets: Seq<TargetView>, p: int)
    requires
        0 <= p < targets.len(),
        names_differ(targets),
    ensures
        seeded(targets).contains_key(targets[p].pool_name),
        seeded(targets)[targets[p].pool_name] == unmeasured(targets[p]),
    decreases targets.len(),
{
    let last = targets.len() - 1;
    if p < last {
        let front = targets.drop_last();
        assert forall|a: int, b: int| 0 <= a < b < front.len() implies (
        #[trigger] front[a]).pool_name != (#[trigger] front[b]).pool_name by {
            assert(targets[a].pool_name != targets[b].pool_name);
        }
        lemma_seeded_at(front, p);
        assert(targets[p].pool_name != targets[last].pool_name);
    }
}

/// What a poll publishes of a target, field by field. A measured database is
/// published with its own size, under the limit set at run time, else its
/// configured one, and over exactly where it is larger. One that could not be
/// measured keeps what was published, under a limit set at run time if there
/// is one; and where nothing was published, nothing is.
pub proof fn published_by_fields(
    config: ConfigAndUsers,
    sizes: Seq<Option<u64>>,
    live: Map<Seq<char>, StatusView>,
    overrides: Map<Seq<char>, u64>,
    p: int,
)
    requires
        sizes.len() == targets_of(config).len(),
        0 <= p < sizes.len(),
    ensures
        ({
            let target = targets_of(config)[p];
            let name = target.pool_name;
            let state = committed(
                targets_of(config),
                sizes,
                live,
                overrides,
                sizes.len() as int,
            );
            let limit = if overrides.contains_key(name) {
                overrides[name]
            } else {
                target.max_size
            };
            &&& sizes[p] is Some ==> state.contains_key(name) && state[name].database == name
                && state[name].current_size == sizes[p]->0 && state[name].max_size == limit
                && state[name].over_limit == (sizes[p]->0 > limit)
            &&& sizes[p] is None ==> state.contains_key(name) == live.contains_key(name)
            &&& sizes[p] is None && live.contains_key(name) ==> state[name].database
                == live[name].database && state[name].current_size == live[name].current_size
            &&& sizes[p] is None && live.contains_key(name) && overrides.contains_key(name)
                ==> state[name].max_size == overrides[name] && state[name].over_limit == (
            live[name].current_size > overrides[name])
            &&& sizes[p] is None && live.contains_key(name) && !overrides.contains_key(name)
                ==> state[name].max_size == live[name].max_size && state[name].over_limit
                == live[name].over_limit
        }),
{
    config_names_differ(config);
    poll_publishes_targets(
        targets_of(config),
        sizes,
        live,
        overrides,
        targets_of(config)[p].pool_name,
    );
}

/// A poll publishes nothing of a database that is no target.
pub proof fn only_targets_are_published(
    config: ConfigAndUsers,
    sizes: Seq<Option<u64>>,
    live: Map<Seq<char>, StatusView>,
    overrides: Map<Seq<char>, u64>,
    name: Seq<char>,
)
    requires
        sizes.len() == targets_of(config).len(),
        forall|p: int|
            0 <= p < targets_of(config).len() ==> (#[trigger] targets_of(config)[p]).pool_name
                != name,
    ensures
        !seeded(targets_of(config)).contains_key(name),
        !committed(
            targets_of(config),
            sizes,
            live,
            overrides,
            sizes.len() as int,
        ).contains_key(name),
{
    config_names_differ(config);
    start_is_closed(targets_of(config), name);
    poll_publishes_targets(targets_of(config), sizes, live, overrides, name);
}

/// Clearing the limit of a polled database leaves its name and its size, puts
/// it under the limit of its target, and has it over exactly where it is
/// larger than that.
pub proof fn clear_of_polled_by_fields(
    config: ConfigAndUsers,
    overrides: Map<Seq<char>, u64>,
    state: Map<Seq<char>, StatusView>,
    p: int,
)
    requires
        0 <= p < targets_of(config).len(),
        state.contains_key(targets_of(config)[p].pool_name),
    ensures
        ({
            let target = targets_of(config)[p];
            let name = target.pool_name;
            let (o, s) = after_clear(overrides, state, config, name);
            &&& !o.contains_key(name)
            &&& s.contains_key(name)
            &&& s[name].database == state[name].database
            &&& s[name].current_size == state[name].current_size
            &&& s[name].max_size == target.max_size
            &&& s[name].over_limit == (state[name].current_size > target.max_size)
        }),
{
    clear_agrees_with_poll(config, overrides, state, p);
}

} // verus!
