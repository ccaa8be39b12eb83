use risinglight::catalog::{
    CatalogError, ColumnCatalog, DataTypeKind, EntityKind, TableCatalog, TableType,
    ROWID_COLUMN_ID,
};

fn two_columns() -> TableCatalog {
    let col0 = ColumnCatalog::new(0, DataTypeKind::Int32.not_null().to_column("a".into()));
    let col1 = ColumnCatalog::new(1, DataTypeKind::Bool.not_null().to_column("b".into()));
    TableCatalog::new(0, "t".into(), TableType::Base, vec![col0, col1], vec![])
}

#[test]
fn test_table_catalog() {
    let col0 = ColumnCatalog::new(0, DataTypeKind::Int32.not_null().to_column("a".into()));
    let col1 = ColumnCatalog::new(1, DataTypeKind::Bool.not_null().to_column("b".into()));

    let col_catalogs = vec![col0, col1];
    let table_catalog = TableCatalog::new(0, "t".into(), TableType::Base, col_catalogs, vec![]);

    assert!(!table_catalog.contains_column("c"));
    assert!(table_catalog.contains_column("a"));
    assert!(table_catalog.contains_column("b"));

    assert_eq!(table_catalog.get_column_id_by_name("a"), Some(0));
    assert_eq!(table_catalog.get_column_id_by_name("b"), Some(1));

    let col0_catalog = table_catalog.get_column_by_id(0).unwrap();
    assert_eq!(col0_catalog.name(), "a");
    assert_eq!(col0_catalog.datatype().kind(), DataTypeKind::Int32);

    let col1_catalog = table_catalog.get_column_by_id(1).unwrap();
    assert_eq!(col1_catalog.name(), "b");
    assert_eq!(col1_catalog.datatype().kind(), DataTypeKind::Bool);
}

#[test]
fn add_column_with_taken_name_is_refused() {
    let mut t = two_columns();
    let dup = ColumnCatalog::new(7, DataTypeKind::Int64.nullable().to_column("a".into()));
    match t.add_column(dup) {
        Err(CatalogError::Duplicated(EntityKind::Column, name)) => assert_eq!(name, "a"),
        other => panic!("unexpected {:?}", other),
    }
    assert_eq!(t.get_column_id_by_name("a"), Some(0));
    assert!(t.get_column_by_id(7).is_none());
    assert_eq!(t.all_columns_with_rowid().len(), 3);
}

#[test]
fn add_column_with_taken_id_is_refused() {
    let mut t = two_columns();
    let dup = ColumnCatalog::new(1, DataTypeKind::Int64.nullable().to_column("c".into()));
    match t.add_column(dup) {
        Err(CatalogError::Duplicated(EntityKind::ColumnId, name)) => assert_eq!(name, "c"),
        other => panic!("unexpected {:?}", other),
    }
    assert!(!t.contains_column("c"));
    assert_eq!(t.get_column_by_id(1).unwrap().name(), "b");
}

#[test]
fn add_column_appends() {
    let mut t = two_columns();
    let c = ColumnCatalog::new(2, DataTypeKind::Int64.nullable().to_column("c".into()));
    assert_eq!(t.add_column(c).unwrap(), 2);
    assert_eq!(t.get_column_id_by_name("c"), Some(2));
    let got = t.get_column_by_name("c").unwrap();
    assert!(got.datatype().is_nullable());
    assert_eq!(t.all_columns().len(), 3);
}

#[test]
fn all_columns_hides_rowid() {
    let t = two_columns();
    let cols = t.all_columns();
    assert_eq!(cols.len(), 2);
    assert_eq!(cols[&0].name(), "a");
    assert_eq!(cols[&1].name(), "b");
    assert!(!cols.contains_key(&ROWID_COLUMN_ID));
    let with_rowid = t.all_columns_with_rowid();
    assert_eq!(with_rowid.len(), 3);
    assert_eq!(with_rowid[&ROWID_COLUMN_ID].name(), "_rowid_");
    assert_eq!(
        with_rowid[&ROWID_COLUMN_ID].datatype().kind(),
        DataTypeKind::Int64
    );
    assert!(!with_rowid[&ROWID_COLUMN_ID].datatype().is_nullable());
}

#[test]
fn rowid_column_is_present_by_name() {
    let t = two_columns();
    assert!(t.contains_column("_rowid_"));
    assert_eq!(t.get_column_id_by_name("_rowid_"), Some(ROWID_COLUMN_ID));
    assert!(t.get_column_by_name("zzz").is_none());
}

#[test]
fn table_getters() {
    let t = TableCatalog::new(4, "v".into(), TableType::MaterializedView, vec![], vec![3, 1]);
    assert_eq!(t.id(), 4);
    assert_eq!(t.name(), "v");
    assert_eq!(t.primary_keys(), vec![3, 1]);
    assert!(t.is_materialized_view());
    assert!(!t.is_base());
    assert!(!t.is_system());
    let s = TableCatalog::new(5, "s".into(), TableType::System, vec![], vec![]);
    assert!(s.is_system());
    assert!(two_columns().is_base());
    assert!(t.all_columns().is_empty());
}
