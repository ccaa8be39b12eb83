use risinglight::catalog::{CatalogError, DataTypeKind, EntityKind, ROWID_COLUMN_ID};
use risinglight::db::{CreateMView, CreateTable, Database, Error, Statement};
use risinglight::planner::{BinaryOp, ColumnRef, Expr, ExprGraph};
use risinglight::stream::{StreamEntry, StreamError};

fn create_t(with: Vec<(String, String)>) -> Statement {
    Statement::CreateTable(CreateTable {
        table_name: "t".to_string(),
        columns: vec![
            DataTypeKind::Int32.not_null().to_column("a".into()),
            DataTypeKind::Bool.nullable().to_column("b".into()),
        ],
        ordered_pk_ids: vec![0],
        with,
    })
}

fn view_of_a(name: &str) -> Statement {
    let mut g = ExprGraph::new();
    let t = g.add(Expr::Table(0));
    let a = g.add(Expr::Column(ColumnRef { table_id: 0, column_id: 0 }));
    let list = g.add(Expr::List(vec![a]));
    let scan = g.add(Expr::Scan(t, list));
    let proj = g.add(Expr::Proj(list, scan));
    Statement::CreateMView(CreateMView { name: name.to_string(), graph: g, root: proj })
}

#[test]
fn run_creates_table_and_view() {
    let mut db = Database::new();
    let out = db.run(vec![create_t(vec![]), view_of_a("v1")]).unwrap();
    assert_eq!(out.len(), 2);
    assert!(out.iter().all(|c| c.cardinality() == 1));
    let t = db.table(0).unwrap();
    assert_eq!(t.name(), "t");
    assert_eq!(t.get_column_id_by_name("b"), Some(1));
    assert_eq!(t.all_columns_with_rowid().len(), 3);
    assert!(t.get_column_by_id(ROWID_COLUMN_ID).is_some());
    assert!(db.table(1).unwrap().is_materialized_view());
    assert!(matches!(db.stream(0), Some(StreamEntry::TableFeed)));
    assert!(matches!(db.stream(1), Some(StreamEntry::View(_))));
}

#[test]
fn run_stops_at_first_error() {
    let mut db = Database::new();
    let r = db.run(vec![view_of_a("v"), create_t(vec![])]);
    assert!(matches!(r, Err(Error::Execute(StreamError::Build(_)))));
    assert!(db.table(0).is_none());
}

#[test]
fn duplicate_column_names_are_refused() {
    let mut db = Database::new();
    let stmt = Statement::CreateTable(CreateTable {
        table_name: "t".to_string(),
        columns: vec![
            DataTypeKind::Int32.not_null().to_column("a".into()),
            DataTypeKind::Int32.not_null().to_column("a".into()),
        ],
        ordered_pk_ids: vec![],
        with: vec![],
    });
    match db.execute(stmt) {
        Err(Error::Bind(CatalogError::Duplicated(EntityKind::Column, name))) => {
            assert_eq!(name, "a")
        }
        other => panic!("unexpected {:?}", other.map(|c| c.cardinality())),
    }
    assert!(db.table(0).is_none());
    assert!(db.stream(0).is_none());
}

#[test]
fn connector_setting_makes_a_source() {
    let mut db = Database::new();
    let with = vec![("connector".to_string(), "kafka".to_string())];
    db.execute(create_t(with)).unwrap();
    assert!(matches!(db.stream(0), Some(StreamEntry::Source(_))));
}

#[test]
fn plan_types_follow_schema() {
    let mut db = Database::new();
    db.execute(create_t(vec![])).unwrap();
    let mut g = ExprGraph::new();
    let t = g.add(Expr::Table(0));
    let a = g.add(Expr::Column(ColumnRef { table_id: 0, column_id: 0 }));
    let b = g.add(Expr::Column(ColumnRef { table_id: 0, column_id: 1 }));
    let list = g.add(Expr::List(vec![b, a]));
    let scan = g.add(Expr::Scan(t, list));
    let one = g.add(Expr::Constant(1));
    let sum = g.add(Expr::Binary(BinaryOp::Add, a, one));
    let lt = g.add(Expr::Binary(BinaryOp::Lt, b, a));
    let projs = g.add(Expr::List(vec![sum, lt]));
    let proj = g.add(Expr::Proj(projs, scan));
    assert_eq!(
        db.plan_types(&g, scan),
        Some(vec![
            DataTypeKind::Bool.nullable(),
            DataTypeKind::Int32.not_null()
        ])
    );
    assert_eq!(
        db.plan_types(&g, proj),
        Some(vec![
            DataTypeKind::Int64.not_null(),
            DataTypeKind::Bool.nullable()
        ])
    );
    let missing = g.add(Expr::Column(ColumnRef { table_id: 0, column_id: 9 }));
    assert_eq!(db.scalar_type(&g, missing), None);
    let other = g.add(Expr::List(vec![missing]));
    let scan2 = g.add(Expr::Scan(t, other));
    assert_eq!(db.plan_types(&g, scan2), None);
}

#[test]
fn default_is_empty() {
    let db = Database::default();
    assert!(db.table(0).is_none());
    assert!(db.stream(0).is_none());
}

#[test]
fn run_returns_the_failing_statements_error_and_keeps_earlier_effects() {
    let mut db = Database::new();
    let bad = Statement::CreateTable(CreateTable {
        table_name: "u".to_string(),
        columns: vec![
            DataTypeKind::Int32.not_null().to_column("x".into()),
            DataTypeKind::Int32.not_null().to_column("_rowid_".into()),
            DataTypeKind::Int32.not_null().to_column("x".into()),
        ],
        ordered_pk_ids: vec![],
        with: vec![],
    });
    let r = db.run(vec![create_t(vec![]), bad, create_t(vec![])]);
    match r {
        Err(Error::Bind(CatalogError::Duplicated(EntityKind::Column, name))) => {
            assert_eq!(name, "_rowid_")
        }
        Err(e) => panic!("unexpected {:?}", e),
        Ok(_) => panic!("unexpected success"),
    }
    assert_eq!(db.table(0).unwrap().name(), "t");
    assert!(db.table(1).is_none());
    assert!(db.stream(1).is_none());
}

#[test]
fn run_of_nothing_succeeds() {
    let mut db = Database::new();
    assert!(db.run(vec![]).unwrap().is_empty());
}
