//! The shared-subexpression plan graph, its schema analysis and the column
//! resolver.

use crate::catalog::{ColumnId, TableId};
use vstd::prelude::*;

verus! {

/// The handle of an equivalence class of the plan graph.
pub type Id = usize;

/// A reference to a column of a table.
#[derive(Debug, Clone, Copy, PartialEq, Eq, Structural)]
pub struct ColumnRef {
    pub table_id: TableId,
    pub column_id: ColumnId,
}

/// A binary scalar operator.
#[derive(Debug, Clone, Copy, PartialEq, Eq, Structural)]
pub enum BinaryOp {
    Add,
    Sub,
    Mul,
    Eq,
    Lt,
    And,
    Or,
}

/// A node of the plan graph. Children are class handles.
#[derive(Debug, Clone)]
pub enum Expr {
    Constant(i64),
    Column(ColumnRef),
    ColumnIndex(usize),
    Table(TableId),
    List(Vec<Id>),
    Binary(BinaryOp, Id, Id),
    /// A scan of a table (a `Table` node) for a list of `Column` nodes.
    Scan(Id, Id),
    /// A projection of a list of expressions over a child plan.
    Proj(Id, Id),
    /// A filter of a child plan by a condition.
    Filter(Id, Id),
}

/// Every child of `e` is a class below `n`.
pub open spec fn children_below(e: Expr, n: int) -> bool {
    match e {
        Expr::List(v) => forall|i: int| 0 <= i < v@.len() ==> (#[trigger] v@[i]) < n,
        Expr::Binary(_, a, b) => a < n && b < n,
        Expr::Scan(a, b) => a < n && b < n,
        Expr::Proj(a, b) => a < n && b < n,
        Expr::Filter(a, b) => a < n && b < n,
        _ => true,
    }
}

/// Two nodes are congruent: same kind, same payload, same children.
pub open spec fn same_node(a: Expr, b: Expr) -> bool {
    match (a, b) {
        (Expr::Constant(x), Expr::Constant(y)) => x == y,
        (Expr::Column(x), Expr::Column(y)) => x == y,
        (Expr::ColumnIndex(x), Expr::ColumnIndex(y)) => x == y,
        (Expr::Table(x), Expr::Table(y)) => x == y,
        (Expr::List(x), Expr::List(y)) => x@ == y@,
        (Expr::Binary(o, x1, x2), Expr::Binary(p, y1, y2)) => o == p && x1 == y1 && x2 == y2,
        (Expr::Scan(x1, x2), Expr::Scan(y1, y2)) => x1 == y1 && x2 == y2,
        (Expr::Proj(x1, x2), Expr::Proj(y1, y2)) => x1 == y1 && x2 == y2,
        (Expr::Filter(x1, x2), Expr::Filter(y1, y2)) => x1 == y1 && x2 == y2,
        _ => false,
    }
}

/// The items of a `List` node; nothing for any other node.
pub open spec fn list_items(e: Expr) -> Seq<Id> {
    match e {
        Expr::List(v) => v@,
        _ => Seq::empty(),
    }
}

/// Each node's children are classes added before it.
pub open spec fn acyclic(nodes: Seq<Expr>) -> bool {
    forall|i: int| 0 <= i < nodes.len() ==> children_below(#[trigger] nodes[i], i)
}

/// `out` is node `e` of a tree with each child position `k` replaced by the
/// class `ids[k]`.
pub open spec fn remaps(e: Expr, ids: Seq<Id>, out: Expr) -> bool {
    match (e, out) {
        (Expr::Constant(x), Expr::Constant(y)) => x == y,
        (Expr::Column(x), Expr::Column(y)) => x == y,
        (Expr::ColumnIndex(x), Expr::ColumnIndex(y)) => x == y,
        (Expr::Table(x), Expr::Table(y)) => x == y,
        (Expr::List(v), Expr::List(w)) => v@.len() == w@.len() && forall|i: int|
            0 <= i < v@.len() ==> (#[trigger] v@[i]) < ids.len() && w@[i] == ids[v@[i] as int],
        (Expr::Binary(o, a, b), Expr::Binary(p, x, y)) => o == p && a < ids.len() && b < ids.len()
            && x == ids[a as int] && y == ids[b as int],
        (Expr::Scan(a, b), Expr::Scan(x, y)) => a < ids.len() && b < ids.len() && x == ids[a as int]
            && y == ids[b as int],
        (Expr::Proj(a, b), Expr::Proj(x, y)) => a < ids.len() && b < ids.len() && x == ids[a as int]
            && y == ids[b as int],
        (Expr::Filter(a, b), Expr::Filter(x, y)) => a < ids.len() && b < ids.len() && x
            == ids[a as int] && y == ids[b as int],
        _ => false,
    }
}

/// Every node of a tree refers only to nodes before it.
pub open spec fn well_ordered(expr: Seq<Expr>) -> bool {
    forall|k: int| 0 <= k < expr.len() ==> children_below(#[trigger] expr[k], k)
}

/// The output schema of class `id`: the classes that provide its columns, in order.
/// A scan yields its requested columns, a projection its expressions, a filter
/// its child's schema; a scalar node yields none.
pub open spec fn schema_of(nodes: Seq<Expr>, id: int) -> Seq<Id>
    decreases id,
{
    if 0 <= id < nodes.len() {
        match nodes[id] {
            Expr::Scan(_, list) => if list < nodes.len() {
                list_items(nodes[list as int])
            } else {
                Seq::empty()
            },
            Expr::Proj(list, _) => if list < nodes.len() {
                list_items(nodes[list as int])
            } else {
                Seq::empty()
            },
            Expr::Filter(_, child) => if child < id {
                schema_of(nodes, child as int)
            } else {
                Seq::empty()
            },
            _ => Seq::empty(),
        }
    } else {
        Seq::empty()
    }
}

/// A scalar expression whose column references are positions in its input's schema.
#[derive(Debug)]
pub enum Scalar {
    Constant(i64),
    ColumnIndex(usize),
    Binary(BinaryOp, Box<Scalar>, Box<Scalar>),
}

/// Why a plan could not be compiled.
#[derive(Debug, Clone, Copy, PartialEq, Eq, Structural)]
pub enum BuildError {
    /// A column reference that its context's schema does not provide.
    UnresolvedColumn(ColumnRef),
    /// A node of a kind that cannot stand where it stands.
    UnsupportedNode(Id),
    /// A scan of a table or view that has no registered stream.
    StreamNotFound(TableId),
}

/// The first position of `x` in `s`.
pub open spec fn position(s: Seq<Id>, x: Id) -> Option<int>
    decreases s.len(),
{
    if s.len() == 0 {
        None
    } else {
        match position(s.drop_last(), x) {
            Some(p) => Some(p),
            None => if s.last() == x {
                Some(s.len() - 1)
            } else {
                None
            },
        }
    }
}

/// The concrete scalar for class `id` under a context with schema `schema`: a
/// class of the schema becomes its position there, a constant stays, an
/// operator is rebuilt from its resolved operands. A column reference that
/// the schema lacks is unresolved.
pub open spec fn resolve(nodes: Seq<Expr>, id: int, schema: Seq<Id>) -> Result<Scalar, BuildError>
    decreases id,
{
    if 0 <= id < nodes.len() {
        match position(schema, id as Id) {
            Some(p) => Ok(Scalar::ColumnIndex(p as usize)),
            None => match nodes[id] {
                Expr::Constant(v) => Ok(Scalar::Constant(v)),
                Expr::Column(c) => Err(BuildError::UnresolvedColumn(c)),
                Expr::Binary(op, l, r) => if l < id && r < id {
                    match resolve(nodes, l as int, schema) {
                        Err(e) => Err(e),
                        Ok(a) => match resolve(nodes, r as int, schema) {
                            Err(e) => Err(e),
                            Ok(b) => Ok(Scalar::Binary(op, Box::new(a), Box::new(b))),
                        },
                    }
                } else {
                    Err(BuildError::UnsupportedNode(id as Id))
                },
                _ => Err(BuildError::UnsupportedNode(id as Id)),
            },
        }
    } else {
        Err(BuildError::UnsupportedNode(id as Id))
    }
}

/// The items resolved in order; the first failure if any fails.
pub open spec fn resolve_items(nodes: Seq<Expr>, items: Seq<Id>, schema: Seq<Id>) -> Result<
    Seq<Scalar>,
    BuildError,
>
    decreases items.len(),
{
    if items.len() == 0 {
        Ok(Seq::empty())
    } else {
        match resolve_items(nodes, items.drop_last(), schema) {
            Err(e) => Err(e),
            Ok(v) => match resolve(nodes, items.last() as int, schema) {
                Err(e) => Err(e),
                Ok(s) => Ok(v.push(s)),
            },
        }
    }
}

/// The expression list `list` resolved against the schema of class `ctx`.
pub open spec fn resolve_list(nodes: Seq<Expr>, list: int, ctx: int) -> Result<
    Seq<Scalar>,
    BuildError,
> {
    if 0 <= list < nodes.len() {
        match nodes[list] {
            Expr::List(v) => resolve_items(nodes, v@, schema_of(nodes, ctx)),
            _ => Err(BuildError::UnsupportedNode(list as Id)),
        }
    } else {
        Err(BuildError::UnsupportedNode(list as Id))
    }
}

/// Extending a sequence keeps a position found in its prefix.
proof fn lemma_position_prefix(s: Seq<Id>, x: Id, j: int)
    requires
        0 <= j <= s.len(),
        position(s.subrange(0, j), x) is Some,
    ensures
        position(s, x) == position(s.subrange(0, j), x),
    decreases s.len(),
{
    if j == s.len() {
        assert(s.subrange(0, j) =~= s);
    } else {
        assert(s.drop_last().subrange(0, j) =~= s.subrange(0, j));
        lemma_position_prefix(s.drop_last(), x, j);
    }
}

/// `x` has no position exactly when it does not occur.
proof fn lemma_position_none(s: Seq<Id>, x: Id)
    ensures
        position(s, x) is None <==> !s.contains(x),
    decreases s.len(),
{
    if s.len() > 0 {
        lemma_position_none(s.drop_last(), x);
        if s.drop_last().contains(x) {
            let k = choose|k: int| 0 <= k < s.drop_last().len() && s.drop_last()[k] == x;
            assert(s[k] == x);
        }
        if s.contains(x) && !s.drop_last().contains(x) {
            let k = choose|k: int| 0 <= k < s.len() && s[k] == x;
            if k < s.len() - 1 {
                assert(s.drop_last()[k] == x);
            }
        }
        if s.last() == x {
            assert(s[s.len() - 1] == x);
        }
    }
}

/// The position of `x` is its first occurrence.
proof fn lemma_position_first(s: Seq<Id>, x: Id, k: int)
    requires
        0 <= k < s.len(),
        s[k] == x,
        forall|j: int| 0 <= j < k ==> s[j] != x,
    ensures
        position(s, x) == Some(k),
{
    let pre = s.subrange(0, k);
    lemma_position_none(pre, x);
    assert(!pre.contains(x));
    assert(s.subrange(0, k + 1).drop_last() =~= pre);
    assert(position(s.subrange(0, k + 1), x) == Some(k));
    lemma_position_prefix(s, x, k + 1);
}

/// Resolution is positional: a class found first at position `k` of the context's
/// schema resolves to index `k`, and a column reference that the schema does not
/// hold fails as unresolved, never taking some other index.
pub proof fn lemma_resolution_is_positional(nodes: Seq<Expr>, schema: Seq<Id>, x: Id, k: int)
    requires
        0 <= x < nodes.len(),
    ensures
        0 <= k < schema.len() && schema[k] == x && (forall|j: int| 0 <= j < k ==> schema[j] != x)
            ==> resolve(nodes, x as int, schema) == Ok::<Scalar, BuildError>(
            Scalar::ColumnIndex(k as usize),
        ),
        !schema.contains(x) ==> match nodes[x as int] {
            Expr::Column(c) => resolve(nodes, x as int, schema) == Err::<Scalar, BuildError>(
                BuildError::UnresolvedColumn(c),
            ),
            _ => true,
        },
{
    if 0 <= k < schema.len() && schema[k] == x && (forall|j: int| 0 <= j < k ==> schema[j] != x) {
        lemma_position_first(schema, x, k);
    }
    lemma_position_none(schema, x);
}

/// A list that holds a column reference its context's schema lacks fails to
/// resolve: no item ever gets a defaulted index.
pub proof fn lemma_absent_reference_fails_list(
    nodes: Seq<Expr>,
    items: Seq<Id>,
    schema: Seq<Id>,
    k: int,
)
    requires
        0 <= k < items.len(),
        items[k] < nodes.len(),
        nodes[items[k] as int] is Column,
        !schema.contains(items[k]),
    ensures
        resolve_items(nodes, items, schema) is Err,
    decreases items.len(),
{
    lemma_position_none(schema, items[k]);
    if k < items.len() - 1 {
        assert(items.drop_last()[k] == items[k]);
        lemma_absent_reference_fails_list(nodes, items.drop_last(), schema, k);
    }
}

/// The plan graph: one node per class, each class with its memoized schema.
pub struct ExprGraph {
    nodes: Vec<Expr>,
    schemas: Vec<Vec<Id>>,
}

impl ExprGraph {
    /// The node of each class, by handle.
    pub closed spec fn nodes_seq(&self) -> Seq<Expr> {
        self.nodes@
    }

    /// The memoized schemas agree with the analysis.
    pub closed spec fn memo_ok(&self) -> bool {
        &&& self.schemas@.len() == self.nodes@.len()
        &&& forall|i: int|
            0 <= i < self.nodes@.len() ==> (#[trigger] self.schemas@[i])@ == schema_of(
                self.nodes@,
                i,
            )
    }

    pub open spec fn wf(&self) -> bool {
        &&& acyclic(self.nodes_seq())
        &&& self.memo_ok()
    }

    /// An empty graph.
    pub fn new() -> (r: ExprGraph)
        ensures
            r.wf(),
            r.nodes_seq() == Seq::<Expr>::empty(),
    {
        ExprGraph { nodes: Vec::new(), schemas: Vec::new() }
    }

    /// The number of classes.
    pub fn len(&self) -> (r: usize)
        ensures
            r == self.nodes_seq().len(),
    {
        self.nodes.len()
    }

    /// The canonical node of class `id`.
    pub fn node(&self, id: Id) -> (r: &Expr)
        requires
            id < self.nodes_seq().len(),
        ensures
            *r == self.nodes_seq()[id as int],
    {
        &self.nodes[id]
    }

    /// The schema of class `id`, as memoized.
    pub fn schema(&self, id: Id) -> (r: &Vec<Id>)
        requires
            self.wf(),
            id < self.nodes_seq().len(),
        ensures
            r@ == schema_of(self.nodes_seq(), id as int),
    {
        &self.schemas[id]
    }

    /// Adds `node` and returns its class: the class of a congruent node already
    /// present, else a new class holding `node` with its schema computed from
    /// its children's.
    pub fn add(&mut self, node: Expr) -> (r: Id)
        requires
            old(self).wf(),
            children_below(node, old(self).nodes_seq().len() as int),
            old(self).nodes_seq().len() < usize::MAX,
        ensures
            final(self).wf(),
            r < final(self).nodes_seq().len(),
            same_node(final(self).nodes_seq()[r as int], node),
            (exists|i: int|
                0 <= i < old(self).nodes_seq().len() && same_node(
                    #[trigger] old(self).nodes_seq()[i],
                    node,
                )) ==> final(self).nodes_seq() == old(self).nodes_seq(),
            !(exists|i: int|
                0 <= i < old(self).nodes_seq().len() && same_node(
                    #[trigger] old(self).nodes_seq()[i],
                    node,
                )) ==> final(self).nodes_seq() == old(self).nodes_seq().push(node) && r
                == old(self).nodes_seq().len(),
    {
        let mut i: usize = 0;
        while i < self.nodes.len()
            invariant
                i <= self.nodes@.len(),
                self.wf(),
                self.nodes@ == old(self).nodes@,
                forall|j: int| 0 <= j < i ==> !same_node(#[trigger] self.nodes@[j], node),
            decreases self.nodes@.len() - i,
        {
            if congruent(&self.nodes[i], &node) {
                return i;
            }
            i = i + 1;
        }
        let n = self.nodes.len();
        let schema = match &node {
            Expr::Scan(_, list) => items_of(&self.nodes[*list]),
            Expr::Proj(list, _) => items_of(&self.nodes[*list]),
            Expr::Filter(_, child) => copy_ids(&self.schemas[*child]),
            _ => Vec::new(),
        };
        let ghost before = self.nodes@;
        let ghost old_schemas = self.schemas@;
        proof {
            if let Expr::Filter(_, child) = node {
                lemma_schema_of_prefix(before, before.push(node), child as int);
            }
        }
        self.nodes.push(node);
        self.schemas.push(schema);
        proof {
            let nodes = self.nodes@;
            assert forall|j: int| 0 <= j < nodes.len() implies children_below(#[trigger] nodes[j], j) by {
                if j < n {
                    assert(nodes[j] == before[j]);
                }
            }
            assert forall|j: int| 0 <= j < nodes.len() implies (#[trigger] self.schemas@[j])@
                == schema_of(nodes, j) by {
                if j < n {
                    assert(self.schemas@[j] == old_schemas[j]);
                    lemma_schema_of_prefix(before, nodes, j);
                } else {
                    assert(nodes[j] == node);
                }
            }
        }
        n
    }

    /// Adds a tree whose nodes name their children by earlier positions, and
    /// returns the class of each node, the root's last. A tree with a node that
    /// names itself or a later node is refused and changes nothing.
    pub fn add_expr(&mut self, expr: &Vec<Expr>) -> (r: Option<Vec<Id>>)
        requires
            old(self).wf(),
            old(self).nodes_seq().len() + expr@.len() < usize::MAX,
        ensures
            final(self).wf(),
            final(self).nodes_seq().subrange(0, old(self).nodes_seq().len() as int) == old(self).nodes_seq(),
            r is None <==> !well_ordered(expr@),
            r is None ==> final(self).nodes_seq() == old(self).nodes_seq(),
            match r {
                Some(ids) => ids@.len() == expr@.len() && forall|k: int|
                    0 <= k < expr@.len() ==> (#[trigger] ids@[k]) < final(self).nodes_seq().len()
                        && remaps(expr@[k], ids@, final(self).nodes_seq()[ids@[k] as int]),
                None => true,
            },
    {
        let mut k: usize = 0;
        while k < expr.len()
            invariant
                self.wf(),
                self.nodes@ == old(self).nodes@,
                k <= expr@.len(),
                forall|j: int| 0 <= j < k ==> children_below(#[trigger] expr@[j], j),
            decreases expr@.len() - k,
        {
            if !child_positions_below(&expr[k], k) {
                return None;
            }
            k = k + 1;
        }
        let ghost start = self.nodes@;
        let mut ids: Vec<Id> = Vec::new();
        let mut k: usize = 0;
        while k < expr.len()
            invariant
                self.wf(),
                well_ordered(expr@),
                k <= expr@.len(),
                ids@.len() == k,
                start.len() <= self.nodes@.len() <= start.len() + k,
                start.len() + expr@.len() < usize::MAX,
                self.nodes@.subrange(0, start.len() as int) == start,
                forall|j: int|
                    0 <= j < k ==> (#[trigger] ids@[j]) < self.nodes@.len() && remaps(
                        expr@[j],
                        ids@,
                        self.nodes@[ids@[j] as int],
                    ),
            decreases expr@.len() - k,
        {
            let node = remap_node(&expr[k], &ids);
            let ghost before = self.nodes@;
            let id = self.add(node);
            proof {
                assert(self.nodes@ == before || self.nodes@ == before.push(node));
                assert(self.nodes@.subrange(0, start.len() as int) =~= before.subrange(
                    0,
                    start.len() as int,
                ));
            }
            let ghost old_ids = ids@;
            ids.push(id);
            proof {
                assert forall|j: int| 0 <= j <= k implies (#[trigger] ids@[j]) < self.nodes@.len()
                    && remaps(expr@[j], ids@, self.nodes@[ids@[j] as int]) by {
                    if j < k {
                        assert(ids@[j] == old_ids[j]);
                        assert(self.nodes@[ids@[j] as int] == before[ids@[j] as int]);
                        lemma_remaps_extend(expr@[j], old_ids, id, self.nodes@[ids@[j] as int], j);
                    } else {
                        lemma_remaps_same(expr@[j], ids@, node, self.nodes@[id as int]);
                    }
                }
            }
            k = k + 1;
        }
        Some(ids)
    }

    /// Resolves the scalar of class `id` against `schema`.
    pub fn resolve_scalar(&self, id: Id, schema: &Vec<Id>) -> (r: Result<Scalar, BuildError>)
        requires
            self.wf(),
            id < self.nodes_seq().len(),
        ensures
            r == resolve(self.nodes_seq(), id as int, schema@),
        decreases id,
    {
        if let Some(p) = position_in(schema, id) {
            return Ok(Scalar::ColumnIndex(p));
        }
        proof {
            assert(children_below(self.nodes@[id as int], id as int));
        }
        match &self.nodes[id] {
            Expr::Constant(v) => Ok(Scalar::Constant(*v)),
            Expr::Column(c) => Err(BuildError::UnresolvedColumn(*c)),
            Expr::Binary(op, l, r) => {
                let a = match self.resolve_scalar(*l, schema) {
                    Ok(a) => a,
                    Err(e) => return Err(e),
                };
                let b = match self.resolve_scalar(*r, schema) {
                    Ok(b) => b,
                    Err(e) => return Err(e),
                };
                Ok(Scalar::Binary(*op, Box::new(a), Box::new(b)))
            },
            _ => Err(BuildError::UnsupportedNode(id)),
        }
    }

    /// Resolves the expression list of class `expr` against the output schema of
    /// class `plan`, the operator context it will run under.
    pub fn resolve_column_index(&self, expr: Id, plan: Id) -> (r: Result<Vec<Scalar>, BuildError>)
        requires
            self.wf(),
            plan < self.nodes_seq().len(),
        ensures
            match r {
                Ok(v) => resolve_list(self.nodes_seq(), expr as int, plan as int) == Ok::<
                    Seq<Scalar>,
                    BuildError,
                >(v@),
                Err(e) => resolve_list(self.nodes_seq(), expr as int, plan as int) == Err::<
                    Seq<Scalar>,
                    BuildError,
                >(e),
            },
    {
        if expr >= self.nodes.len() {
            return Err(BuildError::UnsupportedNode(expr));
        }
        let items = match &self.nodes[expr] {
            Expr::List(v) => v,
            _ => return Err(BuildError::UnsupportedNode(expr)),
        };
        proof {
            assert(children_below(self.nodes@[expr as int], expr as int));
        }
        let schema = &self.schemas[plan];
        assert(schema@ == schema_of(self.nodes@, plan as int));
        let mut out: Vec<Scalar> = Vec::new();
        let mut i: usize = 0;
        while i < items.len()
            invariant
                self.wf(),
                expr < self.nodes@.len(),
                self.nodes@[expr as int] == Expr::List(*items),
                schema@ == schema_of(self.nodes@, plan as int),
                i <= items@.len(),
                forall|j: int| 0 <= j < items@.len() ==> (#[trigger] items@[j]) < self.nodes@.len(),
                resolve_items(self.nodes@, items@.subrange(0, i as int), schema@) == Ok::<
                    Seq<Scalar>,
                    BuildError,
                >(out@),
            decreases items@.len() - i,
        {
            let ghost pre = items@.subrange(0, i as int);
            let s = self.resolve_scalar(items[i], schema);
            proof {
                assert(items@.subrange(0, i + 1).drop_last() =~= pre);
            }
            match s {
                Ok(s) => out.push(s),
                Err(e) => {
                    proof {
                        assert(items@.subrange(0, i + 1).last() == items@[i as int]);
                        assert(resolve_items(self.nodes@, items@.subrange(0, i + 1), schema@)
                            == Err::<Seq<Scalar>, BuildError>(e));
                        lemma_resolve_items_prefix_err(self.nodes@, items@, schema@, i as int + 1);
                    }
                    return Err(e);
                },
            }
            i = i + 1;
        }
        proof {
            assert(items@.subrange(0, items@.len() as int) =~= items@);
        }
        Ok(out)
    }
}

/// The first position of `x` in `s`.
fn position_in(s: &Vec<Id>, x: Id) -> (r: Option<usize>)
    ensures
        match r {
            Some(p) => position(s@, x) == Some(p as int),
            None => position(s@, x) is None,
        },
{
    let mut i: usize = 0;
    while i < s.len()
        invariant
            i <= s@.len(),
            position(s@.subrange(0, i as int), x) is None,
        decreases s@.len() - i,
    {
        proof {
            assert(s@.subrange(0, i + 1).drop_last() =~= s@.subrange(0, i as int));
        }
        if s[i] == x {
            proof {
                lemma_position_prefix(s@, x, i + 1);
            }
            return Some(i);
        }
        i = i + 1;
    }
    proof {
        assert(s@.subrange(0, s@.len() as int) =~= s@);
    }
    None
}

/// A failure among the first `j` items is the failure of the whole list.
proof fn lemma_resolve_items_prefix_err(nodes: Seq<Expr>, items: Seq<Id>, schema: Seq<Id>, j: int)
    requires
        0 <= j <= items.len(),
        resolve_items(nodes, items.subrange(0, j), schema) is Err,
    ensures
        resolve_items(nodes, items, schema) == resolve_items(nodes, items.subrange(0, j), schema),
    decreases items.len(),
{
    if j == items.len() {
        assert(items.subrange(0, j) =~= items);
    } else {
        assert(items.drop_last().subrange(0, j) =~= items.subrange(0, j));
        lemma_resolve_items_prefix_err(nodes, items.drop_last(), schema, j);
    }
}

/// Whether every child position of `e` is below `k`.
fn child_positions_below(e: &Expr, k: usize) -> (r: bool)
    ensures
        r == children_below(*e, k as int),
{
    match e {
        Expr::List(v) => all_below(v, k),
        Expr::Binary(_, a, b) => *a < k && *b < k,
        Expr::Scan(a, b) => *a < k && *b < k,
        Expr::Proj(a, b) => *a < k && *b < k,
        Expr::Filter(a, b) => *a < k && *b < k,
        _ => true,
    }
}

/// Whether every item of `v` is below `k`.
fn all_below(v: &Vec<Id>, k: usize) -> (r: bool)
    ensures
        r == (forall|j: int| 0 <= j < v@.len() ==> (#[trigger] v@[j]) < k),
{
    let mut i: usize = 0;
    while i < v.len()
        invariant
            i <= v@.len(),
            forall|j: int| 0 <= j < i ==> (#[trigger] v@[j]) < k,
        decreases v@.len() - i,
    {
        if v[i] >= k {
            return false;
        }
        i = i + 1;
    }
    true
}

/// Node `e` with each child position replaced by its class in `ids`.
fn remap_node(e: &Expr, ids: &Vec<Id>) -> (r: Expr)
    requires
        children_below(*e, ids@.len() as int),
    ensures
        remaps(*e, ids@, r),
        forall|n: int|
            (forall|j: int| 0 <= j < ids@.len() ==> #[trigger] ids@[j] < n) ==> children_below(r, n),
{
    match e {
        Expr::Constant(x) => Expr::Constant(*x),
        Expr::Column(x) => Expr::Column(*x),
        Expr::ColumnIndex(x) => Expr::ColumnIndex(*x),
        Expr::Table(x) => Expr::Table(*x),
        Expr::List(v) => {
            let mut w: Vec<Id> = Vec::new();
            let mut i: usize = 0;
            while i < v.len()
                invariant
                    i <= v@.len(),
                    w@.len() == i,
                    forall|j: int| 0 <= j < v@.len() ==> (#[trigger] v@[j]) < ids@.len(),
                    forall|j: int| 0 <= j < i ==> (#[trigger] w@[j]) == ids@[v@[j] as int],
                decreases v@.len() - i,
            {
                w.push(ids[v[i]]);
                i = i + 1;
            }
            Expr::List(w)
        },
        Expr::Binary(o, a, b) => Expr::Binary(*o, ids[*a], ids[*b]),
        Expr::Scan(a, b) => Expr::Scan(ids[*a], ids[*b]),
        Expr::Proj(a, b) => Expr::Proj(ids[*a], ids[*b]),
        Expr::Filter(a, b) => Expr::Filter(ids[*a], ids[*b]),
    }
}

/// A node remapped by the first `j` classes stays remapped when more follow.
proof fn lemma_remaps_extend(e: Expr, ids: Seq<Id>, id: Id, out: Expr, j: int)
    requires
        0 <= j < ids.len(),
        children_below(e, j),
        remaps(e, ids, out),
    ensures
        remaps(e, ids.push(id), out),
{
    if let (Expr::List(v), Expr::List(w)) = (e, out) {
        assert forall|i: int| 0 <= i < v@.len() implies (#[trigger] v@[i]) < ids.push(id).len()
            && w@[i] == ids.push(id)[v@[i] as int] by {
            assert(v@[i] < ids.len());
        }
    }
}

/// Remapping looks through congruence.
proof fn lemma_remaps_same(e: Expr, ids: Seq<Id>, a: Expr, b: Expr)
    requires
        remaps(e, ids, a),
        same_node(b, a),
    ensures
        remaps(e, ids, b),
{
}

/// Whether two nodes are congruent.
fn congruent(a: &Expr, b: &Expr) -> (r: bool)
    ensures
        r == same_node(*a, *b),
{
    match (a, b) {
        (Expr::Constant(x), Expr::Constant(y)) => *x == *y,
        (Expr::Column(x), Expr::Column(y)) => *x == *y,
        (Expr::ColumnIndex(x), Expr::ColumnIndex(y)) => *x == *y,
        (Expr::Table(x), Expr::Table(y)) => *x == *y,
        (Expr::List(x), Expr::List(y)) => same_ids(x, y),
        (Expr::Binary(o, x1, x2), Expr::Binary(p, y1, y2)) => *o == *p && *x1 == *y1 && *x2 == *y2,
        (Expr::Scan(x1, x2), Expr::Scan(y1, y2)) => *x1 == *y1 && *x2 == *y2,
        (Expr::Proj(x1, x2), Expr::Proj(y1, y2)) => *x1 == *y1 && *x2 == *y2,
        (Expr::Filter(x1, x2), Expr::Filter(y1, y2)) => *x1 == *y1 && *x2 == *y2,
        _ => false,
    }
}

/// Whether two lists of class handles are equal.
fn same_ids(x: &Vec<Id>, y: &Vec<Id>) -> (r: bool)
    ensures
        r == (x@ == y@),
{
    if x.len() != y.len() {
        return false;
    }
    let mut i: usize = 0;
    while i < x.len()
        invariant
            x@.len() == y@.len(),
            i <= x@.len(),
            forall|j: int| 0 <= j < i ==> x@[j] == y@[j],
        decreases x@.len() - i,
    {
        if x[i] != y[i] {
            proof {
                assert(x@[i as int] != y@[i as int]);
            }
            return false;
        }
        i = i + 1;
    }
    proof {
        assert(x@ =~= y@);
    }
    true
}

/// A copy of a list of class handles.
fn copy_ids(v: &Vec<Id>) -> (r: Vec<Id>)
    ensures
        r@ == v@,
{
    let mut r: Vec<Id> = Vec::new();
    let mut i: usize = 0;
    while i < v.len()
        invariant
            i <= v@.len(),
            r@ == v@.subrange(0, i as int),
        decreases v@.len() - i,
    {
        r.push(v[i]);
        i = i + 1;
        proof {
            assert(r@ =~= v@.subrange(0, i as int));
        }
    }
    proof {
        assert(v@.subrange(0, v@.len() as int) =~= v@);
    }
    r
}

/// The items of a `List` node, copied; none for any other node.
fn items_of(e: &Expr) -> (r: Vec<Id>)
    ensures
        r@ == list_items(*e),
{
    match e {
        Expr::List(v) => copy_ids(v),
        _ => Vec::new(),
    }
}

/// Appending classes leaves the schema of every earlier acyclic class as it was.
proof fn lemma_schema_of_prefix(before: Seq<Expr>, after: Seq<Expr>, id: int)
    requires
        before.len() <= after.len(),
        forall|j: int| 0 <= j < before.len() ==> after[j] == before[j],
        acyclic(before),
    ensures
        0 <= id < before.len() ==> schema_of(after, id) == schema_of(before, id),
    decreases id,
{
    if 0 <= id < before.len() {
        match before[id] {
            Expr::Filter(_, child) => {
                lemma_schema_of_prefix(before, after, child as int);
            },
            Expr::Scan(_, list) => {
                assert(before[id] == after[id]);
            },
            Expr::Proj(list, _) => {
                assert(before[id] == after[id]);
            },
            _ => {
                assert(before[id] == after[id]);
            },
        }
    }
}

} // verus!
