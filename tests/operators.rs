use risinglight::catalog::{ColumnCatalog, DataTypeKind, TableCatalog, TableType};
use risinglight::executor::{
    eval_row, eval_scalar, project_chunk, scan_chunk, EvalError, Op, StreamChunk, Value,
};
use risinglight::planner::{BinaryOp, Scalar};

fn chunk() -> StreamChunk {
    StreamChunk {
        ops: vec![Op::Insert, Op::Delete, Op::Insert],
        rows: vec![
            vec![Value::Int(1), Value::Int(10), Value::Bool(true)],
            vec![Value::Int(2), Value::Null, Value::Bool(false)],
            vec![Value::Int(3), Value::Int(30), Value::Bool(true)],
        ],
    }
}

fn bin(op: BinaryOp, l: Scalar, r: Scalar) -> Scalar {
    Scalar::Binary(op, Box::new(l), Box::new(r))
}

#[test]
fn scan_keeps_requested_columns_and_tags() {
    let out = scan_chunk(&vec![2, 0], &chunk()).unwrap();
    assert_eq!(out.ops, vec![Op::Insert, Op::Delete, Op::Insert]);
    assert_eq!(
        out.rows,
        vec![
            vec![Value::Bool(true), Value::Int(1)],
            vec![Value::Bool(false), Value::Int(2)],
            vec![Value::Bool(true), Value::Int(3)],
        ]
    );
}

#[test]
fn scan_of_missing_position_fails() {
    assert_eq!(
        scan_chunk(&vec![5], &chunk()).unwrap_err(),
        EvalError::ColumnOutOfRange(5)
    );
}

#[test]
fn projection_evaluates_each_row() {
    let exprs = vec![
        bin(BinaryOp::Add, Scalar::ColumnIndex(0), Scalar::ColumnIndex(1)),
        bin(BinaryOp::Lt, Scalar::ColumnIndex(0), Scalar::Constant(2)),
    ];
    let out = project_chunk(&exprs, &chunk()).unwrap();
    assert_eq!(out.ops, chunk().ops);
    assert_eq!(
        out.rows,
        vec![
            vec![Value::Int(11), Value::Bool(true)],
            vec![Value::Null, Value::Bool(false)],
            vec![Value::Int(33), Value::Bool(false)],
        ]
    );
}

#[test]
fn projection_of_empty_batch_is_empty() {
    let empty = StreamChunk { ops: vec![], rows: vec![] };
    let out = project_chunk(&vec![Scalar::Constant(1)], &empty).unwrap();
    assert!(out.rows.is_empty());
    assert!(out.ops.is_empty());
}

#[test]
fn arithmetic_overflow_is_an_error() {
    let row = vec![Value::Int(i64::MAX)];
    let e = bin(BinaryOp::Add, Scalar::ColumnIndex(0), Scalar::Constant(1));
    assert_eq!(eval_scalar(&e, &row), Err(EvalError::Overflow(BinaryOp::Add)));
    let m = bin(BinaryOp::Mul, Scalar::ColumnIndex(0), Scalar::Constant(2));
    assert_eq!(eval_scalar(&m, &row), Err(EvalError::Overflow(BinaryOp::Mul)));
    let s = bin(BinaryOp::Sub, Scalar::Constant(-5), Scalar::ColumnIndex(0));
    assert_eq!(eval_scalar(&s, &row), Err(EvalError::Overflow(BinaryOp::Sub)));
    let t = bin(BinaryOp::Sub, Scalar::Constant(-1), Scalar::ColumnIndex(0));
    assert_eq!(eval_scalar(&t, &row), Ok(Value::Int(i64::MIN)));
}

#[test]
fn type_mismatch_is_an_error() {
    let row = vec![Value::Int(1), Value::Bool(true)];
    let e = bin(BinaryOp::And, Scalar::ColumnIndex(0), Scalar::ColumnIndex(1));
    assert_eq!(eval_scalar(&e, &row), Err(EvalError::TypeMismatch(BinaryOp::And)));
    let exprs = vec![Scalar::ColumnIndex(0), e];
    assert_eq!(eval_row(&exprs, &row), Err(EvalError::TypeMismatch(BinaryOp::And)));
}

#[test]
fn boolean_logic() {
    let row = vec![Value::Bool(true), Value::Bool(false)];
    let and = bin(BinaryOp::And, Scalar::ColumnIndex(0), Scalar::ColumnIndex(1));
    let or = bin(BinaryOp::Or, Scalar::ColumnIndex(0), Scalar::ColumnIndex(1));
    let eq = bin(BinaryOp::Eq, Scalar::ColumnIndex(1), Scalar::ColumnIndex(1));
    assert_eq!(
        eval_row(&vec![and, or, eq], &row),
        Ok(vec![Value::Bool(false), Value::Bool(true), Value::Bool(true)])
    );
}

#[test]
fn positions_of_columns_in_full_row() {
    let col0 = ColumnCatalog::new(0, DataTypeKind::Int32.not_null().to_column("a".into()));
    let col1 = ColumnCatalog::new(1, DataTypeKind::Bool.not_null().to_column("b".into()));
    let t = TableCatalog::new(0, "t".into(), TableType::Base, vec![col0, col1], vec![]);
    assert_eq!(t.column_positions(&vec![1, 0]), Some(vec![2, 1]));
    assert_eq!(t.column_positions(&vec![0, 9]), None);
}
