//! What kinds of SQL statements a query is made of.
//!
//! Statements that shrink a database (DELETE, TRUNCATE, DROP, VACUUM) are let
//! through even where the database is over its limit, so that tenants can
//! reduce their usage. DROP DATABASE, a matter of administration, is not.

use vstd::prelude::*;

verus! {

/// The kind of a SQL statement, as far as quotas tell kinds apart. The names
/// are those of PostgreSQL's parse tree.
#[derive(Clone, Copy, Debug, PartialEq, Eq, Structural)]
pub enum Statement {
    InsertStmt,
    UpdateStmt,
    CreateStmt,
    IndexStmt,
    CreateTableAsStmt,
    CreateSchemaStmt,
    CreateSeqStmt,
    AlterTableStmt,
    RenameStmt,
    ViewStmt,
    CreateFunctionStmt,
    CreateTrigStmt,
    CreateExtensionStmt,
    CreateRoleStmt,
    AlterRoleStmt,
    GrantStmt,
    RuleStmt,
    CommentStmt,
    ReindexStmt,
    ClusterStmt,
    DeleteStmt,
    TruncateStmt,
    /// DROP TABLE, INDEX, SCHEMA and the like.
    DropStmt,
    VacuumStmt,
    /// COPY, from a source into a table or the other way.
    CopyStmt {
        /// Whether rows come in.
        is_from: bool,
    },
    /// DROP DATABASE.
    DropdbStmt,
    /// Any other statement: SELECT, SET, SHOW, BEGIN, COMMIT and so on.
    Other,
}

/// The parse tree of a query: the kinds of its statements, in order. A
/// statement that the parser left empty has none.
#[derive(Clone, Debug)]
pub struct Ast {
    /// The kinds of the statements.
    pub stmts: Vec<Option<Statement>>,
}

/// Whether a statement of this kind changes or adds data, so that it is
/// blocked over the limit.
pub open spec fn writes_data(node: Option<Statement>) -> bool {
    ||| node == Some(Statement::InsertStmt)
    ||| node == Some(Statement::UpdateStmt)
    ||| node == Some(Statement::CreateStmt)
    ||| node == Some(Statement::IndexStmt)
    ||| node == Some(Statement::CreateTableAsStmt)
    ||| node == Some(Statement::CreateSchemaStmt)
    ||| node == Some(Statement::CreateSeqStmt)
    ||| node == Some(Statement::AlterTableStmt)
    ||| node == Some(Statement::RenameStmt)
    ||| node == Some(Statement::ViewStmt)
    ||| node == Some(Statement::CreateFunctionStmt)
    ||| node == Some(Statement::CreateTrigStmt)
    ||| node == Some(Statement::CreateExtensionStmt)
    ||| node == Some(Statement::CreateRoleStmt)
    ||| node == Some(Statement::AlterRoleStmt)
    ||| node == Some(Statement::GrantStmt)
    ||| node == Some(Statement::RuleStmt)
    ||| node == Some(Statement::CommentStmt)
    ||| node == Some(Statement::ReindexStmt)
    ||| node == Some(Statement::ClusterStmt)
}

/// Whether a statement of this kind can free space.
pub open spec fn shrinks(node: Option<Statement>) -> bool {
    ||| node == Some(Statement::DeleteStmt)
    ||| node == Some(Statement::TruncateStmt)
    ||| node == Some(Statement::DropStmt)
    ||| node == Some(Statement::VacuumStmt)
}

/// Whether a statement of this kind imports rows.
pub open spec fn imports(node: Option<Statement>) -> bool {
    node == Some(Statement::CopyStmt { is_from: true })
}

/// Whether a statement of this kind drops a whole database.
pub open spec fn drops_database(node: Option<Statement>) -> bool {
    node == Some(Statement::DropdbStmt)
}

/// Whether some statement of a query writes data.
pub open spec fn has_data_write(stmts: Seq<Option<Statement>>) -> bool {
    exists|i: int| 0 <= i < stmts.len() && writes_data(#[trigger] stmts[i])
}

/// Whether some statement of a query imports rows.
pub open spec fn has_copy_from(stmts: Seq<Option<Statement>>) -> bool {
    exists|i: int| 0 <= i < stmts.len() && imports(#[trigger] stmts[i])
}

/// Whether some statement of a query drops a whole database.
pub open spec fn has_drop_database(stmts: Seq<Option<Statement>>) -> bool {
    exists|i: int| 0 <= i < stmts.len() && drops_database(#[trigger] stmts[i])
}

/// Whether a query has statements and all of them can free space.
pub open spec fn only_shrinks(stmts: Seq<Option<Statement>>) -> bool {
    stmts.len() > 0 && forall|i: int| 0 <= i < stmts.len() ==> shrinks(#[trigger] stmts[i])
}

/// Whether a statement changes or adds data. Control statements (SET, SHOW,
/// transaction control, LISTEN and the like) do not.
pub fn is_data_write_node(node: &Option<Statement>) -> (r: bool)
    ensures
        r == writes_data(*node),
{
    match node {
        Some(Statement::InsertStmt) => true,
        Some(Statement::UpdateStmt) => true,
        Some(Statement::CreateStmt) => true,
        Some(Statement::IndexStmt) => true,
        Some(Statement::CreateTableAsStmt) => true,
        Some(Statement::CreateSchemaStmt) => true,
        Some(Statement::CreateSeqStmt) => true,
        Some(Statement::AlterTableStmt) => true,
        Some(Statement::RenameStmt) => true,
        Some(Statement::ViewStmt) => true,
        Some(Statement::CreateFunctionStmt) => true,
        Some(Statement::CreateTrigStmt) => true,
        Some(Statement::CreateExtensionStmt) => true,
        Some(Statement::CreateRoleStmt) => true,
        Some(Statement::AlterRoleStmt) => true,
        Some(Statement::GrantStmt) => true,
        Some(Statement::RuleStmt) => true,
        Some(Statement::CommentStmt) => true,
        Some(Statement::ReindexStmt) => true,
        Some(Statement::ClusterStmt) => true,
        _ => false,
    }
}

/// Whether a query holds a statement that changes or adds data.
pub fn is_data_write(ast: &Ast) -> (r: bool)
    ensures
        r == has_data_write(ast.stmts@),
{
    let mut i: usize = 0;
    while i < ast.stmts.len()
        invariant
            i <= ast.stmts.len(),
            forall|j: int| 0 <= j < i ==> !writes_data(#[trigger] ast.stmts@[j]),
        decreases ast.stmts.len() - i,
    {
        if is_data_write_node(&ast.stmts[i]) {
            return true;
        }
        i = i + 1;
    }
    false
}

/// Whether a query holds a COPY FROM.
pub fn is_copy_from(ast: &Ast) -> (r: bool)
    ensures
        r == has_copy_from(ast.stmts@),
{
    let mut i: usize = 0;
    while i < ast.stmts.len()
        invariant
            i <= ast.stmts.len(),
            forall|j: int| 0 <= j < i ==> !imports(#[trigger] ast.stmts@[j]),
        decreases ast.stmts.len() - i,
    {
        if let Some(Statement::CopyStmt { is_from }) = ast.stmts[i] {
            if is_from {
                assert(imports(ast.stmts@[i as int]));
                return true;
            }
        }
        i = i + 1;
    }
    false
}

/// Whether a query holds a DROP DATABASE.
pub fn is_drop_database(ast: &Ast) -> (r: bool)
    ensures
        r == has_drop_database(ast.stmts@),
{
    let mut i: usize = 0;
    while i < ast.stmts.len()
        invariant
            i <= ast.stmts.len(),
            forall|j: int| 0 <= j < i ==> !drops_database(#[trigger] ast.stmts@[j]),
        decreases ast.stmts.len() - i,
    {
        if let Some(Statement::DropdbStmt) = ast.stmts[i] {
            assert(drops_database(ast.stmts@[i as int]));
            return true;
        }
        i = i + 1;
    }
    false
}

/// Whether a statement can free space.
pub fn is_shrink_node(node: &Option<Statement>) -> (r: bool)
    ensures
        r == shrinks(*node),
{
    match node {
        Some(Statement::DeleteStmt) => true,
        Some(Statement::TruncateStmt) => true,
        Some(Statement::DropStmt) => true,
        Some(Statement::VacuumStmt) => true,
        _ => false,
    }
}

/// Whether a query is let through over the limit because it shrinks the
/// database: it has statements, and each of them can free space. One other
/// statement in a batch is enough to refuse the whole batch this exemption.
pub fn is_shrink_operation(ast: &Ast) -> (r: bool)
    ensures
        r == only_shrinks(ast.stmts@),
{
    if ast.stmts.len() == 0 {
        return false;
    }
    let mut i: usize = 0;
    while i < ast.stmts.len()
        invariant
            i <= ast.stmts.len(),
            forall|j: int| 0 <= j < i ==> shrinks(#[trigger] ast.stmts@[j]),
        decreases ast.stmts.len() - i,
    {
        if !is_shrink_node(&ast.stmts[i]) {
            return false;
        }
        i = i + 1;
    }
    true
}

/// The kinds are apart: a query that only shrinks neither writes data nor
/// imports rows nor drops a database.
pub proof fn shrinking_is_no_write(stmts: Seq<Option<Statement>>)
    requires
        only_shrinks(stmts),
    ensures
        !has_data_write(stmts),
        !has_copy_from(stmts),
        !has_drop_database(stmts),
{
    assert forall|i: int| 0 <= i < stmts.len() implies !writes_data(#[trigger] stmts[i])
        && !imports(stmts[i]) && !drops_database(stmts[i]) by {
        assert(shrinks(stmts[i]));
    }
}

/// A batch with a statement that does not shrink is no shrink operation,
/// wherever in the batch that statement stands.
pub proof fn mixed_batch_is_not_exempt(stmts: Seq<Option<Statement>>, i: int)
    requires
        0 <= i < stmts.len(),
        !shrinks(stmts[i]),
    ensures
        !only_shrinks(stmts),
{
}

/// A batch writes data as soon as one of its statements is an INSERT, an
/// UPDATE or of another kind that adds or changes data, at whatever place and
/// whatever stands in front of it or behind it.
pub proof fn one_write_is_enough(
    x: Seq<Option<Statement>>,
    s: Statement,
    y: Seq<Option<Statement>>,
)
    requires
        s is InsertStmt || s is UpdateStmt || s is CreateStmt || s is IndexStmt
            || s is CreateTableAsStmt || s is CreateSchemaStmt || s is CreateSeqStmt
            || s is AlterTableStmt || s is RenameStmt || s is ViewStmt
            || s is CreateFunctionStmt || s is CreateTrigStmt || s is CreateExtensionStmt
            || s is CreateRoleStmt || s is AlterRoleStmt || s is GrantStmt || s is RuleStmt
            || s is CommentStmt || s is ReindexStmt || s is ClusterStmt,
    ensures
        has_data_write(x + seq![Some(s)] + y),
{
    let t = x + seq![Some(s)] + y;
    assert(t[x.len() as int] == Some(s));
    assert(writes_data(t[x.len() as int]));
}

/// A batch writes data only through a statement of one of these kinds: reads,
/// control statements, COPY, DROP DATABASE and statements that shrink the
/// database do not, nor does an empty statement.
pub proof fn writes_come_from_statements(stmts: Seq<Option<Statement>>)
    requires
        forall|i: int|
            0 <= i < stmts.len() ==> ((#[trigger] stmts[i]) is None || stmts[i]->0 is DeleteStmt
                || stmts[i]->0 is TruncateStmt || stmts[i]->0 is DropStmt || stmts[i]->0
                is VacuumStmt || stmts[i]->0 is CopyStmt || stmts[i]->0 is DropdbStmt
                || stmts[i]->0 is Other),
    ensures
        !has_data_write(stmts),
{
    assert forall|i: int| 0 <= i < stmts.len() implies !writes_data(#[trigger] stmts[i]) by {
        let s = stmts[i];
        assert(s is None || s->0 is DeleteStmt || s->0 is TruncateStmt || s->0 is DropStmt
            || s->0 is VacuumStmt || s->0 is CopyStmt || s->0 is DropdbStmt || s->0 is Other);
    }
}

/// Two batches sent as one write data, import rows or drop a database exactly
/// where one of them does: no statement hides another.
pub proof fn batches_add_up(x: Seq<Option<Statement>>, y: Seq<Option<Statement>>)
    ensures
        has_data_write(x + y) <==> has_data_write(x) || has_data_write(y),
        has_copy_from(x + y) <==> has_copy_from(x) || has_copy_from(y),
        has_drop_database(x + y) <==> has_drop_database(x) || has_drop_database(y),
        x.len() > 0 && y.len() > 0 ==> (only_shrinks(x + y) <==> only_shrinks(x) && only_shrinks(
            y,
        )),
{
    let t = x + y;
    assert forall|i: int| 0 <= i < x.len() implies #[trigger] x[i] == t[i] by {}
    assert forall|j: int| 0 <= j < y.len() implies #[trigger] y[j] == t[x.len() + j] by {}
    assert forall|i: int| 0 <= i < t.len() implies #[trigger] t[i] == (if i < x.len() {
        x[i]
    } else {
        y[i - x.len()]
    }) by {}
    if has_data_write(x) {
        let i = choose|i: int| 0 <= i < x.len() && writes_data(#[trigger] x[i]);
        assert(writes_data(t[i]));
    }
    if has_data_write(y) {
        let j = choose|j: int| 0 <= j < y.len() && writes_data(#[trigger] y[j]);
        assert(writes_data(t[x.len() + j]));
    }
    if has_copy_from(x) {
        let i = choose|i: int| 0 <= i < x.len() && imports(#[trigger] x[i]);
        assert(imports(t[i]));
    }
    if has_copy_from(y) {
        let j = choose|j: int| 0 <= j < y.len() && imports(#[trigger] y[j]);
        assert(imports(t[x.len() + j]));
    }
    if has_drop_database(x) {
        let i = choose|i: int| 0 <= i < x.len() && drops_database(#[trigger] x[i]);
        assert(drops_database(t[i]));
    }
    if has_drop_database(y) {
        let j = choose|j: int| 0 <= j < y.len() && drops_database(#[trigger] y[j]);
        assert(drops_database(t[x.len() + j]));
    }
    if x.len() > 0 && y.len() > 0 && only_shrinks(t) {
        assert forall|i: int| 0 <= i < x.len() implies shrinks(#[trigger] x[i]) by {
            assert(shrinks(t[i]));
        }
        assert forall|j: int| 0 <= j < y.len() implies shrinks(#[trigger] y[j]) by {
            assert(shrinks(t[x.len() + j]));
        }
    }
}

/// What a query of one statement is: it imports rows exactly where it is a
/// COPY FROM, drops a database exactly where it is a DROP DATABASE, and shrinks
/// exactly where it is a DELETE, a TRUNCATE, a DROP or a VACUUM. A query
/// without statements is none of these.
pub proof fn single_statements(s: Option<Statement>)
    ensures
        has_copy_from(seq![s]) <==> s == Some(Statement::CopyStmt { is_from: true }),
        has_drop_database(seq![s]) <==> s == Some(Statement::DropdbStmt),
        only_shrinks(seq![s]) <==> s is Some && (s->0 is DeleteStmt || s->0 is TruncateStmt
            || s->0 is DropStmt || s->0 is VacuumStmt),
        !has_data_write(Seq::empty()),
        !has_copy_from(Seq::empty()),
        !has_drop_database(Seq::empty()),
        !only_shrinks(Seq::empty()),
{
    let q = seq![s];
    assert(q.len() == 1 && q[0] == s);
    if s == Some(Statement::CopyStmt { is_from: true }) {
        assert(imports(q[0]));
    }
    if s == Some(Statement::DropdbStmt) {
        assert(drops_database(q[0]));
    }
    if only_shrinks(q) {
        assert(shrinks(q[0]));
    }
}

} // verus!
