//! Table and column catalog entries.

use vstd::prelude::*;
use std::collections::BTreeMap;
use vstd::string::*;

verus! {

broadcast use vstd::laws_cmp::group_laws_cmp;

/// Identifier of a table.
pub type TableId = u32;

/// Identifier of a column inside a table.
pub type ColumnId = u32;

/// The reserved id of the implicit row-identity column.
pub const ROWID_COLUMN_ID: u32 = 4294967295;

/// The kind of a column's values.
#[derive(Debug, Clone, Copy, PartialEq, Eq, Structural)]
pub enum DataTypeKind {
    Bool,
    Int32,
    Int64,
    String,
}

/// A value type together with its nullability.
#[derive(Debug, Clone, Copy, PartialEq, Eq, Structural)]
pub struct DataType {
    pub kind: DataTypeKind,
    pub nullable: bool,
}

impl DataTypeKind {
    /// The nullable type of this kind.
    pub fn nullable(self) -> (r: DataType)
        ensures
            r == (DataType { kind: self, nullable: true }),
    {
        DataType { kind: self, nullable: true }
    }

    /// The non-nullable type of this kind.
    pub fn not_null(self) -> (r: DataType)
        ensures
            r == (DataType { kind: self, nullable: false }),
    {
        DataType { kind: self, nullable: false }
    }
}

impl DataType {
    pub fn kind(&self) -> (r: DataTypeKind)
        ensures
            r == self.kind,
    {
        self.kind
    }

    pub fn is_nullable(&self) -> (r: bool)
        ensures
            r == self.nullable,
    {
        self.nullable
    }

    /// A column description of this type under the given name.
    pub fn to_column(self, name: String) -> (r: ColumnDesc)
        ensures
            r == (ColumnDesc { datatype: self, name }),
    {
        ColumnDesc { datatype: self, name }
    }
}

/// The name and type of a column.
#[derive(Debug, Clone)]
pub struct ColumnDesc {
    pub datatype: DataType,
    pub name: String,
}

impl ColumnDesc {
    /// An equal copy of this description.
    pub fn duplicate(&self) -> (r: ColumnDesc)
        ensures
            r == *self,
    {
        ColumnDesc { datatype: self.datatype, name: self.name.clone() }
    }
}

/// A column of a table: its id and its description.
#[derive(Debug, Clone)]
pub struct ColumnCatalog {
    pub id: ColumnId,
    pub desc: ColumnDesc,
}

impl ColumnCatalog {
    pub fn new(id: ColumnId, desc: ColumnDesc) -> (r: ColumnCatalog)
        ensures
            r == (ColumnCatalog { id, desc }),
    {
        ColumnCatalog { id, desc }
    }

    pub fn id(&self) -> (r: ColumnId)
        ensures
            r == self.id,
    {
        self.id
    }

    pub fn name(&self) -> (r: &str)
        ensures
            r@ == self.desc.name@,
    {
        self.desc.name.as_str()
    }

    pub fn datatype(&self) -> (r: DataType)
        ensures
            r == self.desc.datatype,
    {
        self.desc.datatype
    }

    /// An equal copy of this entry.
    pub fn duplicate(&self) -> (r: ColumnCatalog)
        ensures
            r == *self,
    {
        ColumnCatalog { id: self.id, desc: self.desc.duplicate() }
    }
}

/// The name of the implicit row-identity column.
pub open spec fn rowid_name() -> Seq<char> {
    seq!['_', 'r', 'o', 'w', 'i', 'd', '_']
}

/// Whether `c` is the implicit row-identity column.
pub open spec fn is_rowid_column(c: ColumnCatalog) -> bool {
    &&& c.id == ROWID_COLUMN_ID
    &&& c.desc.name@ == rowid_name()
    &&& c.desc.datatype == (DataType { kind: DataTypeKind::Int64, nullable: false })
}

/// Some column of `cols` is named `name`.
pub open spec fn has_name(cols: Seq<ColumnCatalog>, name: Seq<char>) -> bool {
    exists|i: int| 0 <= i < cols.len() && #[trigger] cols[i].desc.name@ == name
}

/// Some column of `cols` has id `id`.
pub open spec fn has_id(cols: Seq<ColumnCatalog>, id: ColumnId) -> bool {
    exists|i: int| 0 <= i < cols.len() && #[trigger] cols[i].id == id
}

/// No two columns share a name.
pub open spec fn names_distinct(cols: Seq<ColumnCatalog>) -> bool {
    forall|i: int, j: int|
        0 <= i < cols.len() && 0 <= j < cols.len() && i != j ==> #[trigger] cols[i].desc.name@
            != #[trigger] cols[j].desc.name@
}

/// No two columns share an id.
pub open spec fn ids_distinct(cols: Seq<ColumnCatalog>) -> bool {
    forall|i: int, j: int|
        0 <= i < cols.len() && 0 <= j < cols.len() && i != j ==> #[trigger] cols[i].id
            != #[trigger] cols[j].id
}

/// The columns keyed by id.
pub open spec fn column_map(cols: Seq<ColumnCatalog>) -> Map<ColumnId, ColumnCatalog>
    decreases cols.len(),
{
    if cols.len() == 0 {
        Map::empty()
    } else {
        column_map(cols.drop_last()).insert(cols.last().id, cols.last())
    }
}

/// The columns declared by `descs`, with ids in order of declaration from 0.
pub open spec fn declared_columns(descs: Seq<ColumnDesc>) -> Seq<ColumnCatalog> {
    Seq::new(descs.len(), |i: int| ColumnCatalog { id: i as ColumnId, desc: descs[i] })
}

/// Declared user columns that a new table can hold beside the row-identity column.
pub open spec fn valid_user_columns(cols: Seq<ColumnCatalog>) -> bool {
    &&& names_distinct(cols)
    &&& ids_distinct(cols)
    &&& !has_name(cols, rowid_name())
    &&& !has_id(cols, ROWID_COLUMN_ID)
}

/// The type of a table.
#[derive(Debug, Clone, Copy, PartialEq, Eq, Structural)]
pub enum TableType {
    Base,
    System,
    MaterializedView,
}

/// Which kind of entity an error speaks of.
#[derive(Debug, Clone, Copy, PartialEq, Eq, Structural)]
pub enum EntityKind {
    Column,
    ColumnId,
}

/// An error of the catalog.
#[derive(Debug, Clone)]
pub enum CatalogError {
    /// An entity of this kind and name exists already.
    Duplicated(EntityKind, String),
}

/// The catalog of a table.
pub struct TableCatalog {
    id: TableId,
    name: String,
    type_: TableType,
    /// The columns in order of addition, the row-identity column first.
    columns: Vec<ColumnCatalog>,
    primary_keys: Vec<ColumnId>,
}

impl TableCatalog {
    /// The columns in order of addition, the row-identity column first.
    pub closed spec fn columns_seq(&self) -> Seq<ColumnCatalog> {
        self.columns@
    }

    pub closed spec fn spec_id(&self) -> TableId {
        self.id
    }

    pub closed spec fn spec_name(&self) -> Seq<char> {
        self.name@
    }

    pub closed spec fn spec_type(&self) -> TableType {
        self.type_
    }

    pub closed spec fn spec_primary_keys(&self) -> Seq<ColumnId> {
        self.primary_keys@
    }

    /// Names and ids are unique and the row-identity column comes first.
    pub open spec fn wf(&self) -> bool {
        let cols = self.columns_seq();
        &&& cols.len() >= 1
        &&& is_rowid_column(cols[0])
        &&& names_distinct(cols)
        &&& ids_distinct(cols)
    }

    /// The position of the column named `name`, if any.
    fn position_of_name(&self, name: &String) -> (r: Option<usize>)
        ensures
            match r {
                Some(i) => i < self.columns_seq().len() && self.columns_seq()[i as int].desc.name@
                    == name@,
                None => !has_name(self.columns_seq(), name@),
            },
    {
        let mut i: usize = 0;
        while i < self.columns.len()
            invariant
                i <= self.columns@.len(),
                forall|j: int| 0 <= j < i ==> #[trigger] self.columns@[j].desc.name@ != name@,
            decreases self.columns@.len() - i,
        {
            if self.columns[i].desc.name == *name {
                return Some(i);
            }
            i = i + 1;
        }
        None
    }

    /// The position of the column with id `id`, if any.
    fn position_of_id(&self, id: ColumnId) -> (r: Option<usize>)
        ensures
            match r {
                Some(i) => i < self.columns_seq().len() && self.columns_seq()[i as int].id == id,
                None => !has_id(self.columns_seq(), id),
            },
    {
        let mut i: usize = 0;
        while i < self.columns.len()
            invariant
                i <= self.columns@.len(),
                forall|j: int| 0 <= j < i ==> #[trigger] self.columns@[j].id != id,
            decreases self.columns@.len() - i,
        {
            if self.columns[i].id == id {
                return Some(i);
            }
            i = i + 1;
        }
        None
    }

    /// Appends a column. A column whose name or id is taken already is refused,
    /// and the catalog is left as it was.
    pub fn add_column(&mut self, col_catalog: ColumnCatalog) -> (r: Result<ColumnId, CatalogError>)
        requires
            old(self).wf(),
        ensures
            final(self).wf(),
            final(self).spec_id() == old(self).spec_id(),
            final(self).spec_name() == old(self).spec_name(),
            final(self).spec_type() == old(self).spec_type(),
            final(self).spec_primary_keys() == old(self).spec_primary_keys(),
            has_name(old(self).columns_seq(), col_catalog.desc.name@) ==> r == Err::<
                ColumnId,
                CatalogError,
            >(CatalogError::Duplicated(EntityKind::Column, col_catalog.desc.name)),
            !has_name(old(self).columns_seq(), col_catalog.desc.name@) && has_id(
                old(self).columns_seq(),
                col_catalog.id,
            ) ==> r == Err::<ColumnId, CatalogError>(
                CatalogError::Duplicated(EntityKind::ColumnId, col_catalog.desc.name),
            ),
            r is Err ==> final(self).columns_seq() == old(self).columns_seq(),
            !has_name(old(self).columns_seq(), col_catalog.desc.name@) && !has_id(
                old(self).columns_seq(),
                col_catalog.id,
            ) ==> r == Ok::<ColumnId, CatalogError>(col_catalog.id) && final(self).columns_seq()
                == old(self).columns_seq().push(col_catalog),
    {
        if self.position_of_name(&col_catalog.desc.name).is_some() {
            return Err(CatalogError::Duplicated(EntityKind::Column, col_catalog.desc.name));
        }
        if self.position_of_id(col_catalog.id).is_some() {
            return Err(CatalogError::Duplicated(EntityKind::ColumnId, col_catalog.desc.name));
        }
        let id = col_catalog.id;
        let ghost before = self.columns@;
        self.columns.push(col_catalog);
        proof {
            let cols = self.columns@;
            assert forall|i: int, j: int|
                0 <= i < cols.len() && 0 <= j < cols.len() && i != j implies #[trigger] cols[i].desc.name@
                    != #[trigger] cols[j].desc.name@ by {
                if i == cols.len() - 1 {
                    assert(before[j] == cols[j]);
                } else if j == cols.len() - 1 {
                    assert(before[i] == cols[i]);
                }
            }
            assert forall|i: int, j: int|
                0 <= i < cols.len() && 0 <= j < cols.len() && i != j implies #[trigger] cols[i].id
                    != #[trigger] cols[j].id by {
                if i == cols.len() - 1 {
                    assert(before[j] == cols[j]);
                } else if j == cols.len() - 1 {
                    assert(before[i] == cols[i]);
                }
            }
        }
        Ok(id)
    }

    /// A new table holding the row-identity column followed by `columns`.
    pub fn new(
        id: TableId,
        name: String,
        type_: TableType,
        columns: Vec<ColumnCatalog>,
        primary_keys: Vec<ColumnId>,
    ) -> (r: TableCatalog)
        requires
            valid_user_columns(columns@),
        ensures
            r.wf(),
            r.spec_id() == id,
            r.spec_name() == name@,
            r.spec_type() == type_,
            r.spec_primary_keys() == primary_keys@,
            is_rowid_column(r.columns_seq()[0]),
            r.columns_seq().drop_first() == columns@,
    {
        let mut table_catalog = TableCatalog {
            id,
            name,
            type_,
            columns: Vec::new(),
            primary_keys,
        };
        let rowid = ColumnCatalog::new(
            ROWID_COLUMN_ID,
            DataTypeKind::Int64.not_null().to_column(String::from_str("_rowid_")),
        );
        proof {
            reveal_strlit("_rowid_");
            assert(rowid.desc.name@ =~= rowid_name());
        }
        table_catalog.columns.push(rowid);
        let mut i: usize = 0;
        while i < columns.len()
            invariant
                i <= columns@.len(),
                valid_user_columns(columns@),
                table_catalog.wf(),
                table_catalog.spec_id() == id,
                table_catalog.spec_name() == name@,
                table_catalog.spec_type() == type_,
                table_catalog.spec_primary_keys() == primary_keys@,
                table_catalog.columns_seq() == seq![rowid] + columns@.subrange(0, i as int),
                is_rowid_column(rowid),
            decreases columns@.len() - i,
        {
            let col = columns[i].duplicate();
            proof {
                let cols = table_catalog.columns_seq();
                if has_name(cols, col.desc.name@) {
                    let k = choose|k: int|
                        0 <= k < cols.len() && #[trigger] cols[k].desc.name@ == col.desc.name@;
                    if k == 0 {
                        assert(has_name(columns@, rowid_name()));
                    } else {
                        assert(cols[k] == columns@[k - 1]);
                    }
                }
                if has_id(cols, col.id) {
                    let k = choose|k: int| 0 <= k < cols.len() && #[trigger] cols[k].id == col.id;
                    if k == 0 {
                        assert(has_id(columns@, ROWID_COLUMN_ID));
                    } else {
                        assert(cols[k] == columns@[k - 1]);
                    }
                }
            }
            let _ = table_catalog.add_column(col);
            i = i + 1;
            proof {
                assert(columns@.subrange(0, i as int) =~= columns@.subrange(0, i - 1).push(col));
                assert(table_catalog.columns_seq() =~= seq![rowid] + columns@.subrange(0, i as int));
            }
        }
        proof {
            assert(columns@.subrange(0, columns@.len() as int) =~= columns@);
            assert(table_catalog.columns_seq().drop_first() =~= columns@);
        }
        table_catalog
    }

    /// Whether a column is named `name`.
    pub fn contains_column(&self, name: &str) -> (r: bool)
        ensures
            r == has_name(self.columns_seq(), name@),
    {
        self.position_of_name(&String::from_str(name)).is_some()
    }

    /// The user columns keyed by id, without the row-identity column.
    pub fn all_columns(&self) -> (r: BTreeMap<ColumnId, ColumnCatalog>)
        requires
            self.wf(),
        ensures
            r@ == column_map(self.columns_seq()).remove(ROWID_COLUMN_ID),
    {
        let mut columns = self.all_columns_with_rowid();
        columns.remove(&ROWID_COLUMN_ID);
        columns
    }

    /// All columns keyed by id, the row-identity column included.
    pub fn all_columns_with_rowid(&self) -> (r: BTreeMap<ColumnId, ColumnCatalog>)
        ensures
            r@ == column_map(self.columns_seq()),
    {
        let mut map: BTreeMap<ColumnId, ColumnCatalog> = BTreeMap::new();
        let mut i: usize = 0;
        while i < self.columns.len()
            invariant
                i <= self.columns@.len(),
                map@ == column_map(self.columns@.subrange(0, i as int)),
            decreases self.columns@.len() - i,
        {
            let col = self.columns[i].duplicate();
            map.insert(col.id, col);
            i = i + 1;
            proof {
                assert(self.columns@.subrange(0, i as int).drop_last() =~= self.columns@.subrange(
                    0,
                    i - 1,
                ));
            }
        }
        proof {
            assert(self.columns@.subrange(0, self.columns@.len() as int) =~= self.columns@);
        }
        map
    }

    /// The positions, in a full row of this table, of the columns `ids`, in
    /// order; `None` if some id is not a column of the table.
    pub fn column_positions(&self, ids: &Vec<ColumnId>) -> (r: Option<Vec<usize>>)
        ensures
            match r {
                Some(v) => v@.len() == ids@.len() && forall|i: int|
                    0 <= i < ids@.len() ==> v@[i] < self.columns_seq().len() && (
                    #[trigger] self.columns_seq()[v@[i] as int]).id == ids@[i],
                None => exists|i: int|
                    0 <= i < ids@.len() && !has_id(self.columns_seq(), #[trigger] ids@[i]),
            },
    {
        let mut out: Vec<usize> = Vec::new();
        let mut i: usize = 0;
        while i < ids.len()
            invariant
                i <= ids@.len(),
                out@.len() == i,
                forall|j: int|
                    0 <= j < i ==> out@[j] < self.columns@.len() && (
                    #[trigger] self.columns@[out@[j] as int]).id == ids@[j],
            decreases ids@.len() - i,
        {
            match self.position_of_id(ids[i]) {
                Some(p) => out.push(p),
                None => return None,
            }
            i = i + 1;
        }
        Some(out)
    }

    /// The id of the column named `name`.
    pub fn get_column_id_by_name(&self, name: &str) -> (r: Option<ColumnId>)
        ensures
            match r {
                Some(id) => exists|i: int|
                    0 <= i < self.columns_seq().len() && #[trigger] self.columns_seq()[i].desc.name@
                        == name@ && self.columns_seq()[i].id == id,
                None => !has_name(self.columns_seq(), name@),
            },
    {
        match self.position_of_name(&String::from_str(name)) {
            Some(i) => Some(self.columns[i].id),
            None => None,
        }
    }

    /// The column with id `id`.
    pub fn get_column_by_id(&self, id: ColumnId) -> (r: Option<ColumnCatalog>)
        ensures
            match r {
                Some(c) => c.id == id && exists|i: int|
                    0 <= i < self.columns_seq().len() && #[trigger] self.columns_seq()[i] == c,
                None => !has_id(self.columns_seq(), id),
            },
    {
        match self.position_of_id(id) {
            Some(i) => Some(self.columns[i].duplicate()),
            None => None,
        }
    }

    /// The column named `name`.
    pub fn get_column_by_name(&self, name: &str) -> (r: Option<ColumnCatalog>)
        ensures
            match r {
                Some(c) => c.desc.name@ == name@ && exists|i: int|
                    0 <= i < self.columns_seq().len() && #[trigger] self.columns_seq()[i] == c,
                None => !has_name(self.columns_seq(), name@),
            },
    {
        match self.position_of_name(&String::from_str(name)) {
            Some(i) => Some(self.columns[i].duplicate()),
            None => None,
        }
    }

    pub fn name(&self) -> (r: String)
        ensures
            r@ == self.spec_name(),
    {
        self.name.clone()
    }

    pub fn id(&self) -> (r: TableId)
        ensures
            r == self.spec_id(),
    {
        self.id
    }

    pub fn primary_keys(&self) -> (r: Vec<ColumnId>)
        ensures
            r@ == self.spec_primary_keys(),
    {
        self.primary_keys.clone()
    }

    pub fn is_base(&self) -> (r: bool)
        ensures
            r == (self.spec_type() == TableType::Base),
    {
        self.type_ == TableType::Base
    }

    pub fn is_system(&self) -> (r: bool)
        ensures
            r == (self.spec_type() == TableType::System),
    {
        self.type_ == TableType::System
    }

    pub fn is_materialized_view(&self) -> (r: bool)
        ensures
            r == (self.spec_type() == TableType::MaterializedView),
    {
        self.type_ == TableType::MaterializedView
    }
}

/// A table whose user columns are `a` then `b` lists exactly those two by id
/// without the row-identity column, and three entries with it.
pub proof fn lemma_two_column_table(t: TableCatalog, a: ColumnCatalog, b: ColumnCatalog)
    requires
        t.wf(),
        t.columns_seq().drop_first() == seq![a, b],
    ensures
        column_map(t.columns_seq()).remove(ROWID_COLUMN_ID) == map![a.id => a, b.id => b],
        column_map(t.columns_seq()).contains_key(ROWID_COLUMN_ID),
        column_map(t.columns_seq()).dom().len() == 3,
{
    let cols = t.columns_seq();
    assert(seq![a, b].len() == 2);
    assert(cols.len() == 3);
    assert(cols.drop_first()[0] == a && cols.drop_first()[1] == b);
    assert(cols[1] == a && cols[2] == b);
    reveal_with_fuel(column_map, 4);
    assert(a.id != b.id && a.id != ROWID_COLUMN_ID && b.id != ROWID_COLUMN_ID);
    assert(cols.drop_last().drop_last().drop_last() =~= Seq::<ColumnCatalog>::empty());
    assert(cols.drop_last().drop_last() =~= seq![cols[0]]);
    assert(cols.drop_last() =~= seq![cols[0], a]);
    let m = column_map(cols);
    assert(m == Map::<ColumnId, ColumnCatalog>::empty().insert(ROWID_COLUMN_ID, cols[0]).insert(
        a.id,
        a,
    ).insert(b.id, b));
    assert(m.remove(ROWID_COLUMN_ID) =~= map![a.id => a, b.id => b]);
    assert(m.dom() =~= set![ROWID_COLUMN_ID, a.id, b.id]);
    assert(set![ROWID_COLUMN_ID].insert(a.id).insert(b.id).len() == 3);
}

} // verus!
