//! What the streaming operators do to each change batch: a scan keeps the
//! requested columns of each row, a projection evaluates its resolved
//! expressions on each row. Insert and delete tags and row order are kept.

use crate::planner::{BinaryOp, Scalar};
use vstd::prelude::*;

verus! {

/// A value of a column.
#[derive(Debug, Clone, Copy, PartialEq, Eq, Structural)]
pub enum Value {
    Null,
    Bool(bool),
    Int(i64),
}

/// Whether a row is inserted or deleted.
#[derive(Debug, Clone, Copy, PartialEq, Eq, Structural)]
pub enum Op {
    Insert,
    Delete,
}

/// Why an expression could not be evaluated on a row.
#[derive(Debug, Clone, Copy, PartialEq, Eq, Structural)]
pub enum EvalError {
    /// The row has no column at this position.
    ColumnOutOfRange(usize),
    /// The operator does not apply to its operands' types.
    TypeMismatch(BinaryOp),
    /// Integer arithmetic left the range of `i64`.
    Overflow(BinaryOp),
}

/// A batch of changes: row `i` carries tag `ops[i]`.
#[derive(Debug, Clone)]
pub struct StreamChunk {
    pub ops: Vec<Op>,
    pub rows: Vec<Vec<Value>>,
}

/// The rows of a chunk, as sequences of values.
pub open spec fn rows_of(c: StreamChunk) -> Seq<Seq<Value>> {
    c.rows@.map_values(|r: Vec<Value>| r@)
}

/// `op` applied to two values: null if either is null, checked arithmetic and
/// comparison on integers, logic and equality on booleans.
pub open spec fn apply(op: BinaryOp, a: Value, b: Value) -> Result<Value, EvalError> {
    match (a, b) {
        (Value::Null, _) => Ok(Value::Null),
        (_, Value::Null) => Ok(Value::Null),
        (Value::Int(x), Value::Int(y)) => match op {
            BinaryOp::Add => if i64::MIN <= x + y <= i64::MAX {
                Ok(Value::Int((x + y) as i64))
            } else {
                Err(EvalError::Overflow(op))
            },
            BinaryOp::Sub => if i64::MIN <= x - y <= i64::MAX {
                Ok(Value::Int((x - y) as i64))
            } else {
                Err(EvalError::Overflow(op))
            },
            BinaryOp::Mul => if i64::MIN <= x * y <= i64::MAX {
                Ok(Value::Int((x * y) as i64))
            } else {
                Err(EvalError::Overflow(op))
            },
            BinaryOp::Eq => Ok(Value::Bool(x == y)),
            BinaryOp::Lt => Ok(Value::Bool(x < y)),
            _ => Err(EvalError::TypeMismatch(op)),
        },
        (Value::Bool(x), Value::Bool(y)) => match op {
            BinaryOp::And => Ok(Value::Bool(x && y)),
            BinaryOp::Or => Ok(Value::Bool(x || y)),
            BinaryOp::Eq => Ok(Value::Bool(x == y)),
            _ => Err(EvalError::TypeMismatch(op)),
        },
        _ => Err(EvalError::TypeMismatch(op)),
    }
}

/// The value of `e` on `row`; operands are evaluated left first.
pub open spec fn eval(e: Scalar, row: Seq<Value>) -> Result<Value, EvalError>
    decreases e,
{
    match e {
        Scalar::Constant(v) => Ok(Value::Int(v)),
        Scalar::ColumnIndex(i) => if i < row.len() {
            Ok(row[i as int])
        } else {
            Err(EvalError::ColumnOutOfRange(i))
        },
        Scalar::Binary(op, l, r) => match eval(*l, row) {
            Err(e) => Err(e),
            Ok(a) => match eval(*r, row) {
                Err(e) => Err(e),
                Ok(b) => apply(op, a, b),
            },
        },
    }
}

/// The expressions evaluated on `row`, in order; the first failure if any.
pub open spec fn eval_all(exprs: Seq<Scalar>, row: Seq<Value>) -> Result<Seq<Value>, EvalError>
    decreases exprs.len(),
{
    if exprs.len() == 0 {
        Ok(Seq::empty())
    } else {
        match eval_all(exprs.drop_last(), row) {
            Err(e) => Err(e),
            Ok(v) => match eval(exprs.last(), row) {
                Err(e) => Err(e),
                Ok(x) => Ok(v.push(x)),
            },
        }
    }
}

/// Each row projected by `exprs`, in order; the first failure if any.
pub open spec fn project_rows(exprs: Seq<Scalar>, rows: Seq<Seq<Value>>) -> Result<
    Seq<Seq<Value>>,
    EvalError,
>
    decreases rows.len(),
{
    if rows.len() == 0 {
        Ok(Seq::empty())
    } else {
        match project_rows(exprs, rows.drop_last()) {
            Err(e) => Err(e),
            Ok(v) => match eval_all(exprs, rows.last()) {
                Err(e) => Err(e),
                Ok(x) => Ok(v.push(x)),
            },
        }
    }
}

/// Evaluates `e` on `row`.
pub fn eval_scalar(e: &Scalar, row: &Vec<Value>) -> (r: Result<Value, EvalError>)
    ensures
        r == eval(*e, row@),
    decreases e,
{
    match e {
        Scalar::Constant(v) => Ok(Value::Int(*v)),
        Scalar::ColumnIndex(i) => if *i < row.len() {
            Ok(row[*i])
        } else {
            Err(EvalError::ColumnOutOfRange(*i))
        },
        Scalar::Binary(op, l, r) => {
            let a = match eval_scalar(&**l, row) {
                Ok(a) => a,
                Err(e) => return Err(e),
            };
            let b = match eval_scalar(&**r, row) {
                Ok(b) => b,
                Err(e) => return Err(e),
            };
            apply_op(*op, a, b)
        },
    }
}

/// Applies `op` to two values.
fn apply_op(op: BinaryOp, a: Value, b: Value) -> (r: Result<Value, EvalError>)
    ensures
        r == apply(op, a, b),
{
    match (a, b) {
        (Value::Null, _) => Ok(Value::Null),
        (_, Value::Null) => Ok(Value::Null),
        (Value::Int(x), Value::Int(y)) => match op {
            BinaryOp::Add => match x.checked_add(y) {
                Some(z) => Ok(Value::Int(z)),
                None => Err(EvalError::Overflow(op)),
            },
            BinaryOp::Sub => match x.checked_sub(y) {
                Some(z) => Ok(Value::Int(z)),
                None => Err(EvalError::Overflow(op)),
            },
            BinaryOp::Mul => match x.checked_mul(y) {
                Some(z) => Ok(Value::Int(z)),
                None => Err(EvalError::Overflow(op)),
            },
            BinaryOp::Eq => Ok(Value::Bool(x == y)),
            BinaryOp::Lt => Ok(Value::Bool(x < y)),
            _ => Err(EvalError::TypeMismatch(op)),
        },
        (Value::Bool(x), Value::Bool(y)) => match op {
            BinaryOp::And => Ok(Value::Bool(x && y)),
            BinaryOp::Or => Ok(Value::Bool(x || y)),
            BinaryOp::Eq => Ok(Value::Bool(x == y)),
            _ => Err(EvalError::TypeMismatch(op)),
        },
        _ => Err(EvalError::TypeMismatch(op)),
    }
}

/// Expressions that read the columns at `positions`, in order.
pub open spec fn column_exprs(positions: Seq<usize>) -> Seq<Scalar> {
    positions.map_values(|p: usize| Scalar::ColumnIndex(p))
}

/// Evaluates every expression of `exprs` on `row`.
pub fn eval_row(exprs: &Vec<Scalar>, row: &Vec<Value>) -> (r: Result<Vec<Value>, EvalError>)
    ensures
        match r {
            Ok(v) => eval_all(exprs@, row@) == Ok::<Seq<Value>, EvalError>(v@),
            Err(e) => eval_all(exprs@, row@) == Err::<Seq<Value>, EvalError>(e),
        },
{
    let mut out: Vec<Value> = Vec::new();
    let mut i: usize = 0;
    while i < exprs.len()
        invariant
            i <= exprs@.len(),
            eval_all(exprs@.subrange(0, i as int), row@) == Ok::<Seq<Value>, EvalError>(out@),
        decreases exprs@.len() - i,
    {
        proof {
            assert(exprs@.subrange(0, i + 1).drop_last() =~= exprs@.subrange(0, i as int));
            assert(exprs@.subrange(0, i + 1).last() == exprs@[i as int]);
        }
        match eval_scalar(&exprs[i], row) {
            Ok(x) => out.push(x),
            Err(e) => {
                proof {
                    lemma_eval_all_prefix_err(exprs@, row@, i + 1);
                }
                return Err(e);
            },
        }
        i = i + 1;
    }
    proof {
        assert(exprs@.subrange(0, exprs@.len() as int) =~= exprs@);
    }
    Ok(out)
}

/// The projection operator on one batch: each row replaced by the values of
/// `exprs` on it, with the same tags in the same order.
pub fn project_chunk(exprs: &Vec<Scalar>, chunk: &StreamChunk) -> (r: Result<StreamChunk, EvalError>)
    ensures
        match r {
            Ok(c) => c.ops@ == chunk.ops@ && project_rows(exprs@, rows_of(*chunk)) == Ok::<
                Seq<Seq<Value>>,
                EvalError,
            >(rows_of(c)),
            Err(e) => project_rows(exprs@, rows_of(*chunk)) == Err::<Seq<Seq<Value>>, EvalError>(
                e,
            ),
        },
{
    let ghost rows = rows_of(*chunk);
    let mut out: Vec<Vec<Value>> = Vec::new();
    let mut i: usize = 0;
    proof {
        assert(rows.subrange(0, 0) =~= Seq::<Seq<Value>>::empty());
        assert(out@.map_values(|r: Vec<Value>| r@) =~= Seq::<Seq<Value>>::empty());
    }
    while i < chunk.rows.len()
        invariant
            rows == rows_of(*chunk),
            i <= chunk.rows@.len(),
            project_rows(exprs@, rows.subrange(0, i as int)) == Ok::<Seq<Seq<Value>>, EvalError>(
                out@.map_values(|r: Vec<Value>| r@),
            ),
        decreases chunk.rows@.len() - i,
    {
        proof {
            assert(rows.subrange(0, i + 1).drop_last() =~= rows.subrange(0, i as int));
            assert(rows.subrange(0, i + 1).last() == chunk.rows@[i as int]@);
        }
        match eval_row(exprs, &chunk.rows[i]) {
            Ok(v) => {
                let ghost before = out@;
                out.push(v);
                proof {
                    assert(out@.map_values(|r: Vec<Value>| r@) =~= before.map_values(
                        |r: Vec<Value>| r@,
                    ).push(v@));
                }
            },
            Err(e) => {
                proof {
                    lemma_project_rows_prefix_err(exprs@, rows, i + 1);
                }
                return Err(e);
            },
        }
        i = i + 1;
    }
    proof {
        assert(rows.subrange(0, rows.len() as int) =~= rows);
    }
    Ok(StreamChunk { ops: copy_ops(&chunk.ops), rows: out })
}

/// The table scan operator on one batch of the table's feed: each row cut down
/// to the columns at `positions`, in that order, with the same tags.
pub fn scan_chunk(positions: &Vec<usize>, chunk: &StreamChunk) -> (r: Result<StreamChunk, EvalError>)
    ensures
        match r {
            Ok(c) => c.ops@ == chunk.ops@ && project_rows(column_exprs(positions@), rows_of(*chunk))
                == Ok::<Seq<Seq<Value>>, EvalError>(rows_of(c)),
            Err(e) => project_rows(column_exprs(positions@), rows_of(*chunk)) == Err::<
                Seq<Seq<Value>>,
                EvalError,
            >(e),
        },
{
    let mut exprs: Vec<Scalar> = Vec::new();
    let mut i: usize = 0;
    while i < positions.len()
        invariant
            i <= positions@.len(),
            exprs@ == column_exprs(positions@.subrange(0, i as int)),
        decreases positions@.len() - i,
    {
        exprs.push(Scalar::ColumnIndex(positions[i]));
        i = i + 1;
        proof {
            assert(exprs@ =~= column_exprs(positions@.subrange(0, i as int)));
        }
    }
    proof {
        assert(positions@.subrange(0, positions@.len() as int) =~= positions@);
    }
    project_chunk(&exprs, chunk)
}

/// A copy of a list of tags.
fn copy_ops(v: &Vec<Op>) -> (r: Vec<Op>)
    ensures
        r@ == v@,
{
    let mut r: Vec<Op> = Vec::new();
    let mut i: usize = 0;
    while i < v.len()
        invariant
            i <= v@.len(),
            r@ == v@.subrange(0, i as int),
        decreases v@.len() - i,
    {
        r.push(v[i]);
        i = i + 1;
        proof {
            assert(r@ =~= v@.subrange(0, i as int));
        }
    }
    proof {
        assert(v@.subrange(0, v@.len() as int) =~= v@);
    }
    r
}

/// A failure among the first `j` expressions is the failure of all of them.
proof fn lemma_eval_all_prefix_err(exprs: Seq<Scalar>, row: Seq<Value>, j: int)
    requires
        0 <= j <= exprs.len(),
        eval_all(exprs.subrange(0, j), row) is Err,
    ensures
        eval_all(exprs, row) == eval_all(exprs.subrange(0, j), row),
    decreases exprs.len(),
{
    if j == exprs.len() {
        assert(exprs.subrange(0, j) =~= exprs);
    } else {
        assert(exprs.drop_last().subrange(0, j) =~= exprs.subrange(0, j));
        lemma_eval_all_prefix_err(exprs.drop_last(), row, j);
    }
}

/// A failure among the first `j` rows is the failure of the batch.
proof fn lemma_project_rows_prefix_err(exprs: Seq<Scalar>, rows: Seq<Seq<Value>>, j: int)
    requires
        0 <= j <= rows.len(),
        project_rows(exprs, rows.subrange(0, j)) is Err,
    ensures
        project_rows(exprs, rows) == project_rows(exprs, rows.subrange(0, j)),
    decreases rows.len(),
{
    if j == rows.len() {
        assert(rows.subrange(0, j) =~= rows);
    } else {
        assert(rows.drop_last().subrange(0, j) =~= rows.subrange(0, j));
        lemma_project_rows_prefix_err(exprs, rows.drop_last(), j);
    }
}

} // verus!
