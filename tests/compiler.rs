use risinglight::planner::{BinaryOp, BuildError, ColumnRef, Expr, ExprGraph, Scalar};
use risinglight::stream::{Builder, Pipeline, StreamEntry, StreamError, StreamManager};

/// Table 0 with columns a (id 0) and b (id 1); returns the graph and the
/// handles of the `Table` node and the two column references.
fn base_graph() -> (ExprGraph, usize, usize, usize) {
    let mut g = ExprGraph::new();
    let t = g.add(Expr::Table(0));
    let a = g.add(Expr::Column(ColumnRef { table_id: 0, column_id: 0 }));
    let b = g.add(Expr::Column(ColumnRef { table_id: 0, column_id: 1 }));
    (g, t, a, b)
}

#[test]
fn congruent_nodes_share_a_class() {
    let (mut g, t, a, _) = base_graph();
    assert_eq!(g.add(Expr::Table(0)), t);
    let l1 = g.add(Expr::List(vec![a]));
    let l2 = g.add(Expr::List(vec![a]));
    assert_eq!(l1, l2);
    assert_eq!(g.len(), 4);
    let other = g.add(Expr::Table(1));
    assert_eq!(other, 4);
}

#[test]
fn scan_schema_is_requested_columns() {
    let (mut g, t, a, b) = base_graph();
    let list = g.add(Expr::List(vec![b, a]));
    let scan = g.add(Expr::Scan(t, list));
    assert_eq!(g.schema(scan), &vec![b, a]);
    let cond = g.add(Expr::Constant(1));
    let filter = g.add(Expr::Filter(cond, scan));
    assert_eq!(g.schema(filter), &vec![b, a]);
    assert!(g.schema(t).is_empty());
}

#[test]
fn projection_resolves_against_its_input_schema() {
    let (mut g, t, a, _) = base_graph();
    let list = g.add(Expr::List(vec![a]));
    let scan = g.add(Expr::Scan(t, list));
    assert_eq!(g.schema(scan).len(), 1);
    let projs = g.add(Expr::List(vec![a]));
    let proj = g.add(Expr::Proj(projs, scan));

    let mut sm = StreamManager::new();
    sm.create_table_feed(0).unwrap();
    match Builder::new(&sm, g, proj).build().unwrap() {
        Pipeline::Project { exprs, input } => {
            assert_eq!(exprs.len(), 1);
            assert!(matches!(exprs[0], Scalar::ColumnIndex(0)));
            match *input {
                Pipeline::Scan { table_id, columns } => {
                    assert_eq!(table_id, 0);
                    assert_eq!(columns, vec![0]);
                }
                other => panic!("unexpected {:?}", other),
            }
        }
        other => panic!("unexpected {:?}", other),
    }
}

#[test]
fn resolution_gives_position_in_context() {
    let (mut g, t, a, b) = base_graph();
    let list = g.add(Expr::List(vec![b, a]));
    let scan = g.add(Expr::Scan(t, list));
    let one = g.add(Expr::Constant(1));
    let sum = g.add(Expr::Binary(BinaryOp::Add, a, one));
    let projs = g.add(Expr::List(vec![a, sum, b]));
    let out = g.resolve_column_index(projs, scan).unwrap();
    assert_eq!(out.len(), 3);
    assert!(matches!(out[0], Scalar::ColumnIndex(1)));
    match &out[1] {
        Scalar::Binary(BinaryOp::Add, l, r) => {
            assert!(matches!(**l, Scalar::ColumnIndex(1)));
            assert!(matches!(**r, Scalar::Constant(1)));
        }
        other => panic!("unexpected {:?}", other),
    }
    assert!(matches!(out[2], Scalar::ColumnIndex(0)));
}

#[test]
fn absent_column_is_unresolved() {
    let (mut g, t, a, b) = base_graph();
    let list = g.add(Expr::List(vec![a]));
    let scan = g.add(Expr::Scan(t, list));
    let projs = g.add(Expr::List(vec![b]));
    assert_eq!(
        g.resolve_column_index(projs, scan).unwrap_err(),
        BuildError::UnresolvedColumn(ColumnRef { table_id: 0, column_id: 1 })
    );
    let s = g.resolve_scalar(b, &vec![a]).unwrap_err();
    assert_eq!(s, BuildError::UnresolvedColumn(ColumnRef { table_id: 0, column_id: 1 }));
}

#[test]
fn unsupported_plan_node_fails() {
    let (mut g, t, a, _) = base_graph();
    let list = g.add(Expr::List(vec![a]));
    let scan = g.add(Expr::Scan(t, list));
    let cond = g.add(Expr::Constant(1));
    let filter = g.add(Expr::Filter(cond, scan));
    let mut sm = StreamManager::new();
    sm.create_table_feed(0).unwrap();
    let err = Builder::new(&sm, g, filter).build().unwrap_err();
    assert_eq!(err, BuildError::UnsupportedNode(filter));
}

#[test]
fn scan_of_unknown_stream_fails() {
    let (mut g, t, a, _) = base_graph();
    let list = g.add(Expr::List(vec![a]));
    let scan = g.add(Expr::Scan(t, list));
    let sm = StreamManager::new();
    assert_eq!(
        Builder::new(&sm, g, scan).build().unwrap_err(),
        BuildError::StreamNotFound(0)
    );
}

fn scan_plan(columns: &[u32]) -> (ExprGraph, usize) {
    let mut g = ExprGraph::new();
    let t = g.add(Expr::Table(0));
    let mut items = vec![];
    for c in columns {
        items.push(g.add(Expr::Column(ColumnRef { table_id: 0, column_id: *c })));
    }
    let list = g.add(Expr::List(items));
    let scan = g.add(Expr::Scan(t, list));
    (g, scan)
}

#[test]
fn second_view_under_same_id_is_refused() {
    let mut sm = StreamManager::new();
    sm.create_table_feed(0).unwrap();
    let (ga, ra) = scan_plan(&[0]);
    sm.create_mview(1, ga, ra).unwrap();
    let (gb, rb) = scan_plan(&[1, 0]);
    assert_eq!(sm.create_mview(1, gb, rb), Err(StreamError::Duplicated(1)));
    match sm.get_stream(1) {
        Some(StreamEntry::View(Pipeline::Scan { table_id, columns })) => {
            assert_eq!(*table_id, 0);
            assert_eq!(columns, &vec![0]);
        }
        other => panic!("unexpected {:?}", other),
    }
}

#[test]
fn view_can_be_scanned_like_a_table() {
    let mut sm = StreamManager::new();
    sm.create_table_feed(0).unwrap();
    let (ga, ra) = scan_plan(&[0]);
    sm.create_mview(1, ga, ra).unwrap();
    let mut g = ExprGraph::new();
    let t = g.add(Expr::Table(1));
    let c = g.add(Expr::Column(ColumnRef { table_id: 1, column_id: 0 }));
    let list = g.add(Expr::List(vec![c]));
    let scan = g.add(Expr::Scan(t, list));
    assert!(Builder::new(&sm, g, scan).build().is_ok());
}

#[test]
fn failed_view_leaves_registry() {
    let mut sm = StreamManager::new();
    let (g, r) = scan_plan(&[0]);
    assert_eq!(
        sm.create_mview(1, g, r),
        Err(StreamError::Build(BuildError::StreamNotFound(0)))
    );
    assert!(!sm.contains(1));
}

#[test]
fn duplicate_table_feed_is_refused() {
    let mut sm = StreamManager::new();
    sm.create_table_feed(3).unwrap();
    assert_eq!(sm.create_table_feed(3), Err(StreamError::Duplicated(3)));
    assert!(matches!(sm.get_stream(3), Some(StreamEntry::TableFeed)));
}

#[test]
fn source_needs_connector_setting() {
    let mut sm = StreamManager::new();
    assert_eq!(
        sm.create_source(2, vec![]),
        Err(StreamError::Build(BuildError::StreamNotFound(2)))
    );
    sm.create_table_feed(2).unwrap();
    assert!(matches!(
        sm.create_source(2, vec![("url".to_string(), "x".to_string())]),
        Err(StreamError::MissingSetting(_))
    ));
    let config = vec![("connector".to_string(), "kafka".to_string())];
    sm.create_source(2, config).unwrap();
    assert!(matches!(sm.get_stream(2), Some(StreamEntry::Source(_))));
    assert_eq!(
        sm.create_source(2, vec![("connector".to_string(), "kafka".to_string())]),
        Err(StreamError::Duplicated(2))
    );
}

#[test]
fn add_expr_merges_shared_subtrees() {
    let mut g = ExprGraph::new();
    let tree = vec![
        Expr::Table(0),
        Expr::Column(ColumnRef { table_id: 0, column_id: 0 }),
        Expr::List(vec![1]),
        Expr::Scan(0, 2),
        Expr::List(vec![1]),
        Expr::Proj(4, 3),
    ];
    let ids = g.add_expr(&tree).unwrap();
    assert_eq!(ids.len(), 6);
    assert_eq!(ids[2], ids[4]);
    assert_eq!(g.len(), 5);
    let root = ids[5];
    assert_eq!(g.schema(root), &vec![ids[1]]);
    let mut sm = StreamManager::new();
    sm.create_table_feed(0).unwrap();
    match Builder::new(&sm, g, root).build().unwrap() {
        Pipeline::Project { exprs, .. } => assert!(matches!(exprs[0], Scalar::ColumnIndex(0))),
        other => panic!("unexpected {:?}", other),
    }
}

#[test]
fn add_expr_refuses_forward_reference() {
    let mut g = ExprGraph::new();
    g.add(Expr::Table(0));
    assert!(g.add_expr(&vec![Expr::List(vec![0])]).is_none());
    assert!(g.add_expr(&vec![Expr::Constant(1), Expr::Scan(0, 2)]).is_none());
    assert_eq!(g.len(), 1);
}

#[test]
fn operators_have_diagnostic_names() {
    let (mut g, t, a, _) = base_graph();
    let list = g.add(Expr::List(vec![a]));
    let scan = g.add(Expr::Scan(t, list));
    let proj = g.add(Expr::Proj(list, scan));
    let outer = g.add(Expr::Proj(list, proj));
    let mut sm = StreamManager::new();
    sm.create_table_feed(0).unwrap();
    let p = Builder::new(&sm, g, outer).build().unwrap();
    assert_eq!(p.name(), "Projection(Projection(TableScan))");
}

#[test]
fn absent_reference_anywhere_in_list_fails() {
    let (mut g, t, a, b) = base_graph();
    let list = g.add(Expr::List(vec![a]));
    let scan = g.add(Expr::Scan(t, list));
    let projs = g.add(Expr::List(vec![a, a, b]));
    assert_eq!(
        g.resolve_column_index(projs, scan).unwrap_err(),
        BuildError::UnresolvedColumn(ColumnRef { table_id: 0, column_id: 1 })
    );
}
