//! The database: its tables and the statements that create them.

use crate::catalog::{
    declared_columns, has_id, has_name, is_rowid_column, names_distinct, rowid_name, CatalogError,
    EntityKind,
    ColumnCatalog, ColumnDesc, ColumnId, DataType, DataTypeKind, TableCatalog, TableId, TableType,
};
use crate::planner::{children_below, schema_of, BinaryOp, ColumnRef, Expr, ExprGraph, Id};
use crate::stream::{
    build_error, compiles_to, connector_key, has_connector_setting, has_setting, mview_result,
    StreamEntry,
    StreamError, StreamManager,
};
use vstd::prelude::*;

verus! {

/// A batch of rows handed back to the caller; here only its row count.
#[derive(Debug, Clone, Copy, PartialEq, Eq, Structural)]
pub struct DataChunk {
    pub cardinality: usize,
}

impl DataChunk {
    /// A batch of `cardinality` rows, such as the acknowledgment of a statement.
    pub fn single(cardinality: usize) -> (r: DataChunk)
        ensures
            r.cardinality == cardinality,
    {
        DataChunk { cardinality }
    }

    pub fn cardinality(&self) -> (r: usize)
        ensures
            r == self.cardinality,
    {
        self.cardinality
    }
}

/// A bound `create table` statement.
pub struct CreateTable {
    pub table_name: String,
    /// The columns in order of declaration; their ids are their positions.
    pub columns: Vec<ColumnDesc>,
    pub ordered_pk_ids: Vec<ColumnId>,
    /// The `with` settings; a `connector` key makes the table a source.
    pub with: Vec<(String, String)>,
}

/// A bound `create materialized view` statement.
pub struct CreateMView {
    pub name: String,
    pub graph: ExprGraph,
    pub root: Id,
}

/// A bound statement.
pub enum Statement {
    CreateTable(CreateTable),
    CreateMView(CreateMView),
}

/// The error type of database operations, by phase.
#[derive(Debug, Clone)]
pub enum Error {
    Bind(CatalogError),
    Execute(StreamError),
}

/// A statement that the engine can take: a table's columns fit their ids, a
/// view's plan graph is acyclic with its schemas computed.
pub open spec fn well_formed_statement(s: Statement) -> bool {
    match s {
        Statement::CreateTable(plan) => plan.columns@.len() < u32::MAX,
        Statement::CreateMView(plan) => plan.graph.wf(),
    }
}

/// The declared columns can stand beside the row-identity column.
pub open spec fn declarable(descs: Seq<ColumnDesc>) -> bool {
    &&& names_distinct(declared_columns(descs))
    &&& !has_name(declared_columns(descs), rowid_name())
}

/// The error that declaring `descs` meets: the first column whose name is the
/// row-identity column's or that of an earlier column; none if there is none.
pub open spec fn decl_error(descs: Seq<ColumnDesc>) -> Option<CatalogError>
    decreases descs.len(),
{
    if descs.len() == 0 {
        None
    } else {
        match decl_error(descs.drop_last()) {
            Some(e) => Some(e),
            None => if descs.last().name@ == rowid_name() || exists|j: int|
                0 <= j < descs.len() - 1 && (#[trigger] descs[j]).name@ == descs.last().name@ {
                Some(CatalogError::Duplicated(EntityKind::Column, descs.last().name))
            } else {
                None
            },
        }
    }
}

/// An error met among the first `j` columns is the error of the declaration.
proof fn lemma_decl_error_prefix(descs: Seq<ColumnDesc>, j: int)
    requires
        0 <= j <= descs.len(),
        decl_error(descs.subrange(0, j)) is Some,
    ensures
        decl_error(descs) == decl_error(descs.subrange(0, j)),
    decreases descs.len(),
{
    if j == descs.len() {
        assert(descs.subrange(0, j) =~= descs);
    } else {
        assert(descs.drop_last().subrange(0, j) =~= descs.subrange(0, j));
        lemma_decl_error_prefix(descs.drop_last(), j);
    }
}

/// The type of column `c`, looked up in the tables by id.
pub open spec fn column_type(tables: Seq<TableCatalog>, c: ColumnRef) -> Option<DataType> {
    if c.table_id < tables.len() && has_id(tables[c.table_id as int].columns_seq(), c.column_id) {
        let cols = tables[c.table_id as int].columns_seq();
        let i = choose|i: int| 0 <= i < cols.len() && #[trigger] cols[i].id == c.column_id;
        Some(cols[i].desc.datatype)
    } else {
        None
    }
}

/// The kind of what `op` yields.
pub open spec fn result_kind(op: BinaryOp) -> DataTypeKind {
    match op {
        BinaryOp::Add | BinaryOp::Sub | BinaryOp::Mul => DataTypeKind::Int64,
        _ => DataTypeKind::Bool,
    }
}

/// The type of scalar class `id`: a constant is a non-null integer, a column
/// has its catalog type, an operator yields its kind and is nullable when an
/// operand is. Other nodes have no scalar type.
pub open spec fn scalar_type(nodes: Seq<Expr>, id: int, tables: Seq<TableCatalog>) -> Option<
    DataType,
>
    decreases id,
{
    if 0 <= id < nodes.len() {
        match nodes[id] {
            Expr::Constant(_) => Some(DataType { kind: DataTypeKind::Int64, nullable: false }),
            Expr::Column(c) => column_type(tables, c),
            Expr::Binary(op, l, r) => if l < id && r < id {
                match (scalar_type(nodes, l as int, tables), scalar_type(nodes, r as int, tables)) {
                    (Some(a), Some(b)) => Some(
                        DataType { kind: result_kind(op), nullable: a.nullable || b.nullable },
                    ),
                    _ => None,
                }
            } else {
                None
            },
            _ => None,
        }
    } else {
        None
    }
}

/// The types of the columns that classes `items` provide, if each has one.
pub open spec fn types_of(nodes: Seq<Expr>, items: Seq<Id>, tables: Seq<TableCatalog>) -> Option<
    Seq<DataType>,
>
    decreases items.len(),
{
    if items.len() == 0 {
        Some(Seq::empty())
    } else {
        match (
            types_of(nodes, items.drop_last(), tables),
            scalar_type(nodes, items.last() as int, tables),
        ) {
            (Some(v), Some(t)) => Some(v.push(t)),
            _ => None,
        }
    }
}

/// What a successful `create table` leaves: one more table, with the next id,
/// the statement's name, primary key and declared columns after the
/// row-identity column, and its feed, fed by a connector if one is set.
pub open spec fn table_created(before: Database, after: Database, plan: CreateTable) -> bool {
    let id = before.tables_seq().len() as TableId;
    let t = after.tables_seq().last();
    &&& after.tables_seq().drop_last() == before.tables_seq()
    &&& after.tables_seq().len() == before.tables_seq().len() + 1
    &&& t.spec_id() == id
    &&& t.spec_name() == plan.table_name@
    &&& t.spec_type() == TableType::Base
    &&& t.spec_primary_keys() == plan.ordered_pk_ids@
    &&& is_rowid_column(t.columns_seq()[0])
    &&& t.columns_seq().drop_first() == declared_columns(plan.columns@)
    &&& after.streams() == before.streams().insert(
        id,
        if has_setting(plan.with@, connector_key()) {
            StreamEntry::Source(plan.with)
        } else {
            StreamEntry::TableFeed
        },
    )
}

/// What a successful `create materialized view` leaves: one more catalog
/// entry, with the next id and the statement's name, and the compiled
/// pipeline registered under that id.
pub open spec fn view_created(before: Database, after: Database, plan: CreateMView) -> bool {
    let id = before.tables_seq().len() as TableId;
    let t = after.tables_seq().last();
    &&& after.tables_seq().drop_last() == before.tables_seq()
    &&& after.tables_seq().len() == before.tables_seq().len() + 1
    &&& t.spec_id() == id
    &&& t.spec_name() == plan.name@
    &&& t.spec_type() == TableType::MaterializedView
    &&& after.streams().remove(id) == before.streams()
    &&& after.streams().contains_key(id)
    &&& match after.streams()[id] {
        StreamEntry::View(p) => compiles_to(plan.graph.nodes_seq(), plan.root as int, p),
        _ => false,
    }
}

/// The error of statement `s` run with `streams` registered and `id` as the
/// next id; none if it succeeds.
pub open spec fn stmt_error(s: Statement, streams: Set<TableId>, id: TableId) -> Option<Error> {
    match s {
        Statement::CreateTable(p) => match decl_error(p.columns@) {
            Some(e) => Some(Error::Bind(e)),
            None => None,
        },
        Statement::CreateMView(p) => match build_error(p.graph.nodes_seq(), streams, p.root as int) {
            Some(e) => Some(Error::Execute(StreamError::Build(e))),
            None => None,
        },
    }
}

/// The first statement of `stmts` that fails, by position, with its error,
/// when they run in order from `streams` registered and `next` as the next id;
/// each success registers its id and moves to the next.
pub open spec fn run_error(stmts: Seq<Statement>, streams: Set<TableId>, next: int) -> Option<
    (int, Error),
>
    decreases stmts.len(),
{
    if stmts.len() == 0 {
        None
    } else {
        match stmt_error(stmts[0], streams, next as TableId) {
            Some(e) => Some((0, e)),
            None => match run_error(stmts.drop_first(), streams.insert(next as TableId), next + 1) {
                Some((k, e)) => Some((k + 1, e)),
                None => None,
            },
        }
    }
}

/// A failure position moved on by `d`.
pub open spec fn shifted(r: Option<(int, Error)>, d: int) -> Option<(int, Error)> {
    match r {
        Some((k, e)) => Some((k + d, e)),
        None => None,
    }
}

/// The database instance.
pub struct Database {
    tables: Vec<TableCatalog>,
    stream: StreamManager,
}

impl Default for Database {
    fn default() -> (r: Database)
        ensures
            r.wf(),
            r.tables_seq().len() == 0,
            r.streams() == Map::<TableId, StreamEntry>::empty(),
    {
        Database::new()
    }
}

impl Database {
    /// The tables and views, by id.
    pub closed spec fn tables_seq(&self) -> Seq<TableCatalog> {
        self.tables@
    }

    /// The registered streams.
    pub closed spec fn streams(&self) -> Map<TableId, StreamEntry> {
        self.stream.entries()
    }

    /// Each table is well formed and has its position as id, and every stream
    /// belongs to a table.
    pub open spec fn wf(&self) -> bool {
        &&& forall|i: int|
            0 <= i < self.tables_seq().len() ==> (#[trigger] self.tables_seq()[i]).wf()
                && self.tables_seq()[i].spec_id() == i
        &&& forall|k: TableId| #[trigger]
            self.streams().contains_key(k) ==> k < self.tables_seq().len()
    }

    /// A new database with no tables.
    pub fn new() -> (r: Database)
        ensures
            r.wf(),
            r.tables_seq().len() == 0,
            r.streams() == Map::<TableId, StreamEntry>::empty(),
    {
        Database { tables: Vec::new(), stream: StreamManager::new() }
    }

    /// The table or view with id `id`.
    pub fn table(&self, id: TableId) -> (r: Option<&TableCatalog>)
        ensures
            match r {
                Some(t) => id < self.tables_seq().len() && *t == self.tables_seq()[id as int],
                None => id >= self.tables_seq().len(),
            },
    {
        if (id as usize) < self.tables.len() {
            Some(&self.tables[id as usize])
        } else {
            None
        }
    }

    /// The stream registered under `id`.
    pub fn stream(&self, id: TableId) -> (r: Option<&StreamEntry>)
        ensures
            match r {
                Some(e) => self.streams().contains_key(id) && *e == self.streams()[id],
                None => !self.streams().contains_key(id),
            },
    {
        self.stream.get_stream(id)
    }

    /// Creates a table whose columns get their positions as ids, and its change
    /// feed; with a `connector` setting the feed is fed by that connector.
    /// Column names that clash, among themselves or with the row-identity
    /// column, are refused and change nothing.
    pub fn create_table(&mut self, plan: CreateTable) -> (r: Result<DataChunk, Error>)
        requires
            old(self).wf(),
            old(self).tables_seq().len() < u32::MAX,
            plan.columns@.len() < u32::MAX,
        ensures
            final(self).wf(),
            decl_error(plan.columns@) is None <==> declarable(plan.columns@),
            match decl_error(plan.columns@) {
                Some(e) => r == Err::<DataChunk, Error>(Error::Bind(e)),
                None => r is Ok,
            },
            !declarable(plan.columns@) ==> (r matches Err(Error::Bind(_)))
                && final(self).tables_seq() == old(self).tables_seq()
                && final(self).streams() == old(self).streams(),
            declarable(plan.columns@) ==> r == Ok::<DataChunk, Error>(DataChunk { cardinality: 1 })
                && table_created(*old(self), *final(self), plan),
    {
        let id = self.tables.len() as TableId;
        let mut table = TableCatalog::new(
            id,
            plan.table_name,
            TableType::Base,
            Vec::new(),
            plan.ordered_pk_ids,
        );
        let ghost rowid = table.columns_seq()[0];
        let ghost decl = declared_columns(plan.columns@);
        proof {
            assert(table.columns_seq() =~= seq![rowid]);
        }
        let mut i: usize = 0;
        while i < plan.columns.len()
            invariant
                i <= plan.columns@.len(),
                plan.columns@.len() < u32::MAX,
                decl == declared_columns(plan.columns@),
                table.wf(),
                is_rowid_column(rowid),
                table.columns_seq() == seq![rowid] + decl.subrange(0, i as int),
                decl_error(plan.columns@.subrange(0, i as int)) is None,
                table.spec_id() == id,
                table.spec_name() == plan.table_name@,
                table.spec_type() == TableType::Base,
                table.spec_primary_keys() == plan.ordered_pk_ids@,
                self.wf(),
                self.tables_seq() == old(self).tables_seq(),
                self.streams() == old(self).streams(),
                id == old(self).tables_seq().len(),
            decreases plan.columns@.len() - i,
        {
            let col = ColumnCatalog::new(i as ColumnId, plan.columns[i].duplicate());
            let ghost cols = table.columns_seq();
            let ghost pre = plan.columns@.subrange(0, i + 1);
            proof {
                assert(col == decl[i as int]);
                assert(pre.drop_last() =~= plan.columns@.subrange(0, i as int));
                assert(pre.last() == plan.columns@[i as int]);
                assert forall|j: int| 0 <= j < i implies #[trigger] pre[j] == plan.columns@[j]
                    && cols[j + 1] == decl[j] by {}
                if has_id(cols, col.id) {
                    let k = choose|k: int| 0 <= k < cols.len() && #[trigger] cols[k].id == col.id;
                    if k > 0 {
                        assert(cols[k] == decl[k - 1]);
                    }
                }
            }
            match table.add_column(col) {
                Ok(_) => {},
                Err(e) => {
                    proof {
                        let k = choose|k: int|
                            0 <= k < cols.len() && #[trigger] cols[k].desc.name@ == col.desc.name@;
                        if k == 0 {
                            assert(decl[i as int].desc.name@ == rowid_name());
                        } else {
                            assert(cols[k] == decl[k - 1]);
                            assert(decl[k - 1].desc.name@ == decl[i as int].desc.name@);
                            assert(pre[k - 1] == plan.columns@[k - 1]);
                        }
                        assert(decl_error(pre) == Some(
                            CatalogError::Duplicated(EntityKind::Column, col.desc.name),
                        ));
                        lemma_decl_error_prefix(plan.columns@, i + 1);
                    }
                    return Err(Error::Bind(e));
                },
            }
            proof {
                assert(!has_name(cols, col.desc.name@));
                assert(cols[0] == rowid);
                if exists|j: int|
                    0 <= j < pre.len() - 1 && (#[trigger] pre[j]).name@ == pre.last().name@ {
                    let j = choose|j: int|
                        0 <= j < pre.len() - 1 && (#[trigger] pre[j]).name@ == pre.last().name@;
                    assert(cols[j + 1].desc.name@ == col.desc.name@);
                }
                assert(decl_error(pre) is None);
            }
            i = i + 1;
            proof {
                assert(decl.subrange(0, i as int) =~= decl.subrange(0, i - 1).push(col));
                assert(table.columns_seq() =~= seq![rowid] + decl.subrange(0, i as int));
            }
        }
        proof {
            let cols = table.columns_seq();
            assert(plan.columns@.subrange(0, plan.columns@.len() as int) =~= plan.columns@);
            assert(decl.subrange(0, decl.len() as int) =~= decl);
            assert(cols.drop_first() =~= decl);
            assert forall|a: int, b: int|
                0 <= a < decl.len() && 0 <= b < decl.len() && a != b implies #[trigger] decl[a].desc.name@
                    != #[trigger] decl[b].desc.name@ by {
                assert(cols[a + 1] == decl[a] && cols[b + 1] == decl[b]);
            }
            if has_name(decl, rowid_name()) {
                let k = choose|k: int|
                    0 <= k < decl.len() && #[trigger] decl[k].desc.name@ == rowid_name();
                assert(cols[k + 1] == decl[k]);
            }
        }
        let _ = self.stream.create_table_feed(id);
        if has_connector_setting(&plan.with) {
            let _ = self.stream.create_source(id, plan.with);
        }
        self.tables.push(table);
        proof {
            assert(self.tables@.drop_last() =~= old(self).tables@);
            assert forall|i: int| 0 <= i < self.tables_seq().len() implies (
            #[trigger] self.tables_seq()[i]).wf()
                && self.tables_seq()[i].spec_id() == i by {
                if i < old(self).tables_seq().len() {
                    assert(self.tables_seq()[i] == old(self).tables_seq()[i]);
                }
            }
            let t = self.tables_seq().last();
            assert(t == table);
            assert(t.spec_id() == id);
            assert(t.columns_seq().drop_first() == declared_columns(plan.columns@));
            assert(self.streams() == old(self).streams().insert(
                id,
                if has_setting(plan.with@, connector_key()) {
                    StreamEntry::Source(plan.with)
                } else {
                    StreamEntry::TableFeed
                },
            ));
            assert(table_created(*old(self), *self, plan));
        }
        Ok(DataChunk::single(1))
    }

    /// Creates a materialized view: its catalog entry, named `plan.name`, and the
    /// compiled pipeline of its plan registered under its id. A plan that does
    /// not compile changes nothing.
    pub fn create_mview(&mut self, plan: CreateMView) -> (r: Result<DataChunk, Error>)
        requires
            old(self).wf(),
            old(self).tables_seq().len() < u32::MAX,
            plan.graph.wf(),
        ensures
            final(self).wf(),
            ({
                let id = old(self).tables_seq().len() as TableId;
                match mview_result(old(self).streams(), id, plan.graph.nodes_seq(), plan.root as int) {
                    Err(e) => r == Err::<DataChunk, Error>(Error::Execute(e)) && final(self).tables_seq()
                        == old(self).tables_seq() && final(self).streams() == old(self).streams(),
                    Ok(_) => r == Ok::<DataChunk, Error>(DataChunk { cardinality: 1 })
                        && view_created(*old(self), *final(self), plan),
                }
            }),
    {
        let id = self.tables.len() as TableId;
        let ghost nodes = plan.graph.nodes_seq();
        match self.stream.create_mview(id, plan.graph, plan.root) {
            Ok(()) => {},
            Err(e) => return Err(Error::Execute(e)),
        }
        let table = TableCatalog::new(
            id,
            plan.name,
            TableType::MaterializedView,
            Vec::new(),
            Vec::new(),
        );
        self.tables.push(table);
        proof {
            assert(self.tables@.drop_last() =~= old(self).tables@);
            assert forall|i: int| 0 <= i < self.tables_seq().len() implies (
            #[trigger] self.tables_seq()[i]).wf()
                && self.tables_seq()[i].spec_id() == i by {
                if i < old(self).tables_seq().len() {
                    assert(self.tables_seq()[i] == old(self).tables_seq()[i]);
                }
            }
            assert forall|k: TableId| #[trigger] self.streams().contains_key(k) implies k
                < self.tables_seq().len() by {
                if k != id {
                    assert(self.streams().remove(id).contains_key(k));
                }
            }
        }
        Ok(DataChunk::single(1))
    }

    /// Executes one statement.
    pub fn execute(&mut self, stmt: Statement) -> (r: Result<DataChunk, Error>)
        requires
            old(self).wf(),
            old(self).tables_seq().len() < u32::MAX,
            well_formed_statement(stmt),
        ensures
            final(self).wf(),
            r == match stmt_error(
                stmt,
                old(self).streams().dom(),
                old(self).tables_seq().len() as TableId,
            ) {
                Some(e) => Err::<DataChunk, Error>(e),
                None => Ok::<DataChunk, Error>(DataChunk { cardinality: 1 }),
            },
            r is Ok ==> final(self).tables_seq().len() == old(self).tables_seq().len() + 1
                && final(self).tables_seq().drop_last() == old(self).tables_seq()
                && final(self).streams().dom() == old(self).streams().dom().insert(
                old(self).tables_seq().len() as TableId,
            ),
            r is Err ==> final(self).tables_seq() == old(self).tables_seq() && final(self).streams()
                == old(self).streams(),
            r is Ok ==> match stmt {
                Statement::CreateTable(plan) => table_created(*old(self), *final(self), plan),
                Statement::CreateMView(plan) => view_created(*old(self), *final(self), plan),
            },
    {
        let id = self.tables.len() as TableId;
        proof {
            if old(self).streams().contains_key(id) {
                assert(id < old(self).tables_seq().len());
            }
        }
        let r = match stmt {
            Statement::CreateTable(plan) => self.create_table(plan),
            Statement::CreateMView(plan) => self.create_mview(plan),
        };
        proof {
            if r is Ok {
                assert(self.streams().dom() =~= old(self).streams().dom().insert(id));
            }
        }
        r
    }

    /// Executes statements in order, one acknowledgment each, and stops at the
    /// first that fails, whose error it returns; the statements before it keep
    /// their effect.
    pub fn run(&mut self, stmts: Vec<Statement>) -> (r: Result<Vec<DataChunk>, Error>)
        requires
            old(self).wf(),
            old(self).tables_seq().len() + stmts@.len() < u32::MAX,
            forall|i: int| 0 <= i < stmts@.len() ==> well_formed_statement(#[trigger] stmts@[i]),
        ensures
            final(self).wf(),
            final(self).tables_seq().len() <= old(self).tables_seq().len() + stmts@.len(),
            final(self).tables_seq().subrange(0, old(self).tables_seq().len() as int)
                == old(self).tables_seq(),
            match run_error(stmts@, old(self).streams().dom(), old(self).tables_seq().len() as int) {
                None => r matches Ok(v) && v@ == Seq::new(
                    stmts@.len(),
                    |i: int| DataChunk { cardinality: 1 },
                ) && final(self).tables_seq().len() == old(self).tables_seq().len() + stmts@.len(),
                Some((k, e)) => r == Err::<Vec<DataChunk>, Error>(e) && final(self).tables_seq().len()
                    == old(self).tables_seq().len() + k,
            },
    {
        let ghost n = stmts@.len();
        let mut pending = stmts;
        let mut outputs: Vec<DataChunk> = Vec::new();
        while pending.len() > 0
            invariant
                self.wf(),
                outputs@.len() + pending@.len() == n,
                n == stmts@.len(),
                self.tables_seq().subrange(0, old(self).tables_seq().len() as int)
                    == old(self).tables_seq(),
                self.tables_seq().len() == old(self).tables_seq().len() + outputs@.len(),
                old(self).tables_seq().len() + n < u32::MAX,
                forall|i: int| 0 <= i < pending@.len() ==> well_formed_statement(#[trigger] pending@[i]),
                forall|i: int| 0 <= i < outputs@.len() ==> (#[trigger] outputs@[i]).cardinality == 1,
                run_error(stmts@, old(self).streams().dom(), old(self).tables_seq().len() as int)
                    == shifted(
                    run_error(pending@, self.streams().dom(), self.tables_seq().len() as int),
                    outputs@.len() as int,
                ),
            decreases pending@.len(),
        {
            let ghost before = pending@;
            let stmt = pending.remove(0);
            proof {
                assert(stmt == before[0]);
                assert forall|i: int| 0 <= i < pending@.len() implies well_formed_statement(
                    #[trigger] pending@[i],
                ) by {
                    assert(pending@[i] == before[i + 1]);
                }
            }
            let ghost mid = self.tables_seq();
            let ghost dom = self.streams().dom();
            proof {
                assert(pending@ =~= before.drop_first());
            }
            let output = match self.execute(stmt) {
                Ok(o) => o,
                Err(e) => {
                    return Err(e);
                },
            };
            proof {
                let rest = run_error(pending@, self.streams().dom(), self.tables_seq().len() as int);
                assert(shifted(shifted(rest, 1), outputs@.len() as int) == shifted(
                    rest,
                    outputs@.len() + 1 as int,
                ));
            }
            outputs.push(output);
            proof {
                assert(self.tables_seq().subrange(0, old(self).tables_seq().len() as int)
                    =~= mid.subrange(0, old(self).tables_seq().len() as int));
            }
        }
        proof {
            assert(outputs@ =~= Seq::new(n, |i: int| DataChunk { cardinality: 1 }));
        }
        Ok(outputs)
    }

    /// The type of scalar class `id` of `graph`.
    pub fn scalar_type(&self, graph: &ExprGraph, id: Id) -> (r: Option<DataType>)
        requires
            self.wf(),
            graph.wf(),
        ensures
            r == scalar_type(graph.nodes_seq(), id as int, self.tables_seq()),
        decreases id,
    {
        if id >= graph.len() {
            return None;
        }
        proof {
            assert(children_below(graph.nodes_seq()[id as int], id as int));
        }
        match graph.node(id) {
            Expr::Constant(_) => Some(DataTypeKind::Int64.not_null()),
            Expr::Column(c) => {
                if (c.table_id as usize) >= self.tables.len() {
                    return None;
                }
                let t = &self.tables[c.table_id as usize];
                match t.get_column_by_id(c.column_id) {
                    Some(col) => {
                        proof {
                            let cols = t.columns_seq();
                            assert(self.tables_seq()[c.table_id as int].wf());
                            let j = choose|j: int| 0 <= j < cols.len() && #[trigger] cols[j] == col;
                            let i = choose|i: int|
                                0 <= i < cols.len() && #[trigger] cols[i].id == c.column_id;
                            assert(cols[j].id == c.column_id);
                            assert(i == j);
                        }
                        Some(col.desc.datatype)
                    },
                    None => None,
                }
            },
            Expr::Binary(op, l, r) => {
                let a = match self.scalar_type(graph, *l) {
                    Some(a) => a,
                    None => return None,
                };
                let b = match self.scalar_type(graph, *r) {
                    Some(b) => b,
                    None => return None,
                };
                let kind = match op {
                    BinaryOp::Add | BinaryOp::Sub | BinaryOp::Mul => DataTypeKind::Int64,
                    _ => DataTypeKind::Bool,
                };
                Some(DataType { kind, nullable: a.nullable || b.nullable })
            },
            _ => None,
        }
    }

    /// The types of the output columns of plan class `id` of `graph`, in the
    /// order of its schema; `None` if a column has no type.
    pub fn plan_types(&self, graph: &ExprGraph, id: Id) -> (r: Option<Vec<DataType>>)
        requires
            self.wf(),
            graph.wf(),
            id < graph.nodes_seq().len(),
        ensures
            match r {
                Some(v) => types_of(
                    graph.nodes_seq(),
                    schema_of(graph.nodes_seq(), id as int),
                    self.tables_seq(),
                ) == Some(v@),
                None => types_of(
                    graph.nodes_seq(),
                    schema_of(graph.nodes_seq(), id as int),
                    self.tables_seq(),
                ) is None,
            },
    {
        let schema = graph.schema(id);
        let mut out: Vec<DataType> = Vec::new();
        let mut i: usize = 0;
        while i < schema.len()
            invariant
                self.wf(),
                graph.wf(),
                schema@ == schema_of(graph.nodes_seq(), id as int),
                i <= schema@.len(),
                types_of(graph.nodes_seq(), schema@.subrange(0, i as int), self.tables_seq()) == Some(
                    out@,
                ),
            decreases schema@.len() - i,
        {
            proof {
                assert(schema@.subrange(0, i + 1).drop_last() =~= schema@.subrange(0, i as int));
                assert(schema@.subrange(0, i + 1).last() == schema@[i as int]);
            }
            match self.scalar_type(graph, schema[i]) {
                Some(t) => out.push(t),
                None => {
                    proof {
                        lemma_types_of_prefix_none(graph.nodes_seq(), schema@, self.tables_seq(), i + 1);
                    }
                    return None;
                },
            }
            i = i + 1;
        }
        proof {
            assert(schema@.subrange(0, schema@.len() as int) =~= schema@);
        }
        Some(out)
    }
}

/// A missing type among the first `j` items leaves the whole list untyped.
proof fn lemma_types_of_prefix_none(nodes: Seq<Expr>, items: Seq<Id>, tables: Seq<TableCatalog>, j: int)
    requires
        0 <= j <= items.len(),
        types_of(nodes, items.subrange(0, j), tables) is None,
    ensures
        types_of(nodes, items, tables) is None,
    decreases items.len(),
{
    if j == items.len() {
        assert(items.subrange(0, j) =~= items);
    } else {
        assert(items.drop_last().subrange(0, j) =~= items.subrange(0, j));
        lemma_types_of_prefix_none(nodes, items.drop_last(), tables, j);
    }
}

} // verus!
