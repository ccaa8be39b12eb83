//! The plan compiler and the registry of live streams.

use crate::catalog::{ColumnId, TableId};
use crate::planner::{
    children_below, list_items, resolve_list, BuildError, Expr, ExprGraph, Id, Scalar,
};
use std::collections::BTreeMap;
use vstd::prelude::*;
use vstd::string::*;

verus! {

broadcast use vstd::laws_cmp::group_laws_cmp;

/// A compiled pipeline: one streaming operator per relational node, each
/// reading the output of its input operator.
#[derive(Debug)]
pub enum Pipeline {
    /// Subscribes to the feed of a table or view and keeps the given columns.
    Scan { table_id: TableId, columns: Vec<ColumnId> },
    /// Applies resolved expressions to each row of its input.
    Project { exprs: Vec<Scalar>, input: Box<Pipeline> },
}

/// The diagnostic name of a pipeline's root operator, derived from its
/// subtree: `TableScan`, or `Projection(` the input's name `)`.
pub open spec fn pipeline_name(p: Pipeline) -> Seq<char>
    decreases p,
{
    match p {
        Pipeline::Scan { .. } => seq!['T', 'a', 'b', 'l', 'e', 'S', 'c', 'a', 'n'],
        Pipeline::Project { input, .. } => seq![
            'P',
            'r',
            'o',
            'j',
            'e',
            'c',
            't',
            'i',
            'o',
            'n',
            '(',
        ] + pipeline_name(*input) + seq![')'],
    }
}

impl Pipeline {
    /// The diagnostic name of the root operator.
    pub fn name(&self) -> (r: String)
        ensures
            r@ == pipeline_name(*self),
        decreases self,
    {
        match self {
            Pipeline::Scan { .. } => {
                let r = String::from_str("TableScan");
                proof {
                    reveal_strlit("TableScan");
                    assert(r@ =~= pipeline_name(*self));
                }
                r
            },
            Pipeline::Project { input, .. } => {
                let inner = input.name();
                let mut r = String::from_str("Projection(");
                r.append(inner.as_str());
                r.append(")");
                proof {
                    reveal_strlit("Projection(");
                    reveal_strlit(")");
                    assert(r@ =~= pipeline_name(*self));
                }
                r
            },
        }
    }
}

/// What a registered stream is.
#[derive(Debug)]
pub enum StreamEntry {
    /// The change feed of a table.
    TableFeed,
    /// The change feed of a table, fed by an external connector with these settings.
    Source(Vec<(String, String)>),
    /// The output of a materialized view's pipeline.
    View(Pipeline),
}

/// An error of the stream registry.
#[derive(Debug, Clone, Copy, PartialEq, Eq, Structural)]
pub enum StreamError {
    /// A stream is registered under this identifier already.
    Duplicated(TableId),
    /// The plan could not be compiled.
    Build(BuildError),
    /// A connector's settings lack the named setting.
    MissingSetting(SettingKey),
}

/// A setting that a source connector needs.
#[derive(Debug, Clone, Copy, PartialEq, Eq, Structural)]
pub enum SettingKey {
    Connector,
}

/// The column ids that a scan's `Column` nodes request, in order; the first node
/// of another kind fails.
pub open spec fn scan_columns(nodes: Seq<Expr>, items: Seq<Id>) -> Result<Seq<ColumnId>, BuildError>
    decreases items.len(),
{
    if items.len() == 0 {
        Ok(Seq::empty())
    } else {
        match scan_columns(nodes, items.drop_last()) {
            Err(e) => Err(e),
            Ok(v) => {
                let id = items.last();
                if id < nodes.len() {
                    match nodes[id as int] {
                        Expr::Column(c) => Ok(v.push(c.column_id)),
                        _ => Err(BuildError::UnsupportedNode(id)),
                    }
                } else {
                    Err(BuildError::UnsupportedNode(id))
                }
            },
        }
    }
}

/// The column ids that the `Column` nodes of `List` node `list` request.
pub open spec fn scan_list(nodes: Seq<Expr>, list: int) -> Result<Seq<ColumnId>, BuildError> {
    if 0 <= list < nodes.len() && nodes[list] is List {
        scan_columns(nodes, list_items(nodes[list]))
    } else {
        Err(BuildError::UnsupportedNode(list as Id))
    }
}

/// Why class `id` does not compile, given the identifiers that have streams; none
/// if it compiles. A scan needs a `Table` node, `Column` nodes and a registered
/// stream; a projection needs its child compiled and its list resolved against
/// the child's schema; no other node is a plan.
pub open spec fn build_error(nodes: Seq<Expr>, streams: Set<TableId>, id: int) -> Option<
    BuildError,
>
    decreases id,
{
    if 0 <= id < nodes.len() {
        match nodes[id] {
            Expr::Scan(t, list) => if t < nodes.len() {
                match nodes[t as int] {
                    Expr::Table(tid) => match scan_list(nodes, list as int) {
                        Err(e) => Some(e),
                        Ok(_) => if streams.contains(tid) {
                            None
                        } else {
                            Some(BuildError::StreamNotFound(tid))
                        },
                    },
                    _ => Some(BuildError::UnsupportedNode(t)),
                }
            } else {
                Some(BuildError::UnsupportedNode(t))
            },
            Expr::Proj(projs, child) => if child < id {
                match build_error(nodes, streams, child as int) {
                    Some(e) => Some(e),
                    None => match resolve_list(nodes, projs as int, child as int) {
                        Err(e) => Some(e),
                        Ok(_) => None,
                    },
                }
            } else {
                Some(BuildError::UnsupportedNode(id as Id))
            },
            _ => Some(BuildError::UnsupportedNode(id as Id)),
        }
    } else {
        Some(BuildError::UnsupportedNode(id as Id))
    }
}

/// `p` is the pipeline compiled from class `id`.
pub open spec fn compiles_to(nodes: Seq<Expr>, id: int, p: Pipeline) -> bool
    decreases id,
{
    if 0 <= id < nodes.len() {
        match nodes[id] {
            Expr::Scan(t, list) => t < nodes.len() && match (nodes[t as int], p) {
                (Expr::Table(tid), Pipeline::Scan { table_id, columns }) => table_id == tid
                    && scan_list(nodes, list as int) == Ok::<
                    Seq<ColumnId>,
                    BuildError,
                >(columns@),
                _ => false,
            },
            Expr::Proj(projs, child) => child < id && match p {
                Pipeline::Project { exprs, input } => resolve_list(
                    nodes,
                    projs as int,
                    child as int,
                ) == Ok::<Seq<Scalar>, BuildError>(exprs@) && compiles_to(
                    nodes,
                    child as int,
                    *input,
                ),
                _ => false,
            },
            _ => false,
        }
    } else {
        false
    }
}

/// The registry of live streams, by table or view identifier.
pub struct StreamManager {
    streams: BTreeMap<TableId, StreamEntry>,
}

impl StreamManager {
    /// The registered streams.
    pub closed spec fn entries(&self) -> Map<TableId, StreamEntry> {
        self.streams@
    }

    /// An empty registry.
    pub fn new() -> (r: StreamManager)
        ensures
            r.entries() == Map::<TableId, StreamEntry>::empty(),
    {
        StreamManager { streams: BTreeMap::new() }
    }

    /// Whether a stream is registered under `id`.
    pub fn contains(&self, id: TableId) -> (r: bool)
        ensures
            r == self.entries().contains_key(id),
    {
        self.streams.contains_key(&id)
    }

    /// The stream registered under `id`.
    pub fn get_stream(&self, id: TableId) -> (r: Option<&StreamEntry>)
        ensures
            match r {
                Some(e) => self.entries().contains_key(id) && *e == self.entries()[id],
                None => !self.entries().contains_key(id),
            },
    {
        self.streams.get(&id)
    }

    /// Registers `entry` under `id`, unless `id` is taken: then nothing changes.
    fn register(&mut self, id: TableId, entry: StreamEntry) -> (r: Result<(), StreamError>)
        ensures
            old(self).entries().contains_key(id) ==> r == Err::<(), StreamError>(
                StreamError::Duplicated(id),
            ) && final(self).entries() == old(self).entries(),
            !old(self).entries().contains_key(id) ==> r == Ok::<(), StreamError>(())
                && final(self).entries() == old(self).entries().insert(id, entry),
    {
        if self.streams.contains_key(&id) {
            return Err(StreamError::Duplicated(id));
        }
        self.streams.insert(id, entry);
        Ok(())
    }

    /// Allocates the change feed of a new table.
    pub fn create_table_feed(&mut self, id: TableId) -> (r: Result<(), StreamError>)
        ensures
            old(self).entries().contains_key(id) ==> r == Err::<(), StreamError>(
                StreamError::Duplicated(id),
            ) && final(self).entries() == old(self).entries(),
            !old(self).entries().contains_key(id) ==> r == Ok::<(), StreamError>(())
                && final(self).entries() == old(self).entries().insert(id, StreamEntry::TableFeed),
    {
        self.register(id, StreamEntry::TableFeed)
    }

    /// Starts an external connector that feeds the table `id`, whose feed must
    /// exist and not be fed already. Settings without a `connector` key are
    /// refused; other keys are passed on as they are.
    pub fn create_source(&mut self, id: TableId, config: Vec<(String, String)>) -> (r: Result<
        (),
        StreamError,
    >)
        ensures
            !old(self).entries().contains_key(id) ==> r == Err::<(), StreamError>(
                StreamError::Build(BuildError::StreamNotFound(id)),
            ),
            old(self).entries().contains_key(id) && !(old(self).entries()[id] is TableFeed) ==> r
                == Err::<(), StreamError>(StreamError::Duplicated(id)),
            old(self).entries().contains_key(id) && old(self).entries()[id] is TableFeed
                && !has_setting(config@, connector_key()) ==> r == Err::<(), StreamError>(
                StreamError::MissingSetting(SettingKey::Connector),
            ),
            r is Err ==> final(self).entries() == old(self).entries(),
            old(self).entries().contains_key(id) && old(self).entries()[id] is TableFeed
                && has_setting(config@, connector_key()) ==> r == Ok::<(), StreamError>(())
                && final(self).entries() == old(self).entries().insert(id, StreamEntry::Source(config)),
    {
        match self.streams.get(&id) {
            None => return Err(StreamError::Build(BuildError::StreamNotFound(id))),
            Some(StreamEntry::TableFeed) => {},
            Some(_) => return Err(StreamError::Duplicated(id)),
        }
        if !has_connector_setting(&config) {
            return Err(StreamError::MissingSetting(SettingKey::Connector));
        }
        self.streams.insert(id, StreamEntry::Source(config));
        Ok(())
    }

    /// Compiles the plan rooted at `root` and registers its output under `id`,
    /// where a scan can then read it as it reads a table. A taken `id` or a plan
    /// that does not compile leaves the registry as it was.
    pub fn create_mview(&mut self, id: TableId, graph: ExprGraph, root: Id) -> (r: Result<
        (),
        StreamError,
    >)
        requires
            graph.wf(),
        ensures
            r == mview_result(old(self).entries(), id, graph.nodes_seq(), root as int),
            r is Err ==> final(self).entries() == old(self).entries(),
            !old(self).entries().contains_key(id) && build_error(
                graph.nodes_seq(),
                old(self).entries().dom(),
                root as int,
            ) is None ==> {
                &&& r == Ok::<(), StreamError>(())
                &&& final(self).entries().remove(id) == old(self).entries()
                &&& final(self).entries().contains_key(id)
                &&& match final(self).entries()[id] {
                    StreamEntry::View(p) => compiles_to(graph.nodes_seq(), root as int, p),
                    _ => false,
                }
            },
    {
        if self.streams.contains_key(&id) {
            return Err(StreamError::Duplicated(id));
        }
        let pipeline = {
            let builder = Builder::new(&*self, graph, root);
            match builder.build() {
                Ok(p) => p,
                Err(e) => return Err(StreamError::Build(e)),
            }
        };
        let ghost before = self.streams@;
        self.streams.insert(id, StreamEntry::View(pipeline));
        proof {
            assert(self.streams@.remove(id) =~= before);
        }
        Ok(())
    }
}

/// The outcome of registering the plan rooted at `root` under `id` in registry
/// `m`: a duplicate if `id` is taken, else the plan's first compile error, else
/// success.
pub open spec fn mview_result(
    m: Map<TableId, StreamEntry>,
    id: TableId,
    nodes: Seq<Expr>,
    root: int,
) -> Result<(), StreamError> {
    if m.contains_key(id) {
        Err(StreamError::Duplicated(id))
    } else {
        match build_error(nodes, m.dom(), root) {
            Some(e) => Err(StreamError::Build(e)),
            None => Ok(()),
        }
    }
}

/// Once a view's pipeline `p` is registered under `id` by a registration that
/// succeeded, registering any other plan under `id` is refused as a duplicate;
/// a refused registration leaves the registry, and so `p` under `id`, as it was.
pub proof fn lemma_duplicate_view_keeps_first(
    m0: Map<TableId, StreamEntry>,
    m1: Map<TableId, StreamEntry>,
    id: TableId,
    nodes_a: Seq<Expr>,
    root_a: int,
    p: Pipeline,
    nodes_b: Seq<Expr>,
    root_b: int,
)
    requires
        mview_result(m0, id, nodes_a, root_a) is Ok,
        m1.remove(id) == m0,
        m1.contains_key(id),
        m1[id] == StreamEntry::View(p),
        compiles_to(nodes_a, root_a, p),
    ensures
        !m0.contains_key(id),
        mview_result(m1, id, nodes_b, root_b) == Err::<(), StreamError>(StreamError::Duplicated(id)),
        m1[id] == StreamEntry::View(p),
{
}

/// The key that names a connector's kind.
pub open spec fn connector_key() -> Seq<char> {
    seq!['c', 'o', 'n', 'n', 'e', 'c', 't', 'o', 'r']
}

/// Some setting of `config` has key `key`.
pub open spec fn has_setting(config: Seq<(String, String)>, key: Seq<char>) -> bool {
    exists|i: int| 0 <= i < config.len() && (#[trigger] config[i]).0@ == key
}

/// Whether `config` has a `connector` key.
pub fn has_connector_setting(config: &Vec<(String, String)>) -> (r: bool)
    ensures
        r == has_setting(config@, connector_key()),
{
    let key = String::from_str("connector");
    proof {
        reveal_strlit("connector");
        assert(key@ =~= connector_key());
    }
    let mut i: usize = 0;
    while i < config.len()
        invariant
            i <= config@.len(),
            key@ == connector_key(),
            forall|j: int| 0 <= j < i ==> (#[trigger] config@[j]).0@ != connector_key(),
        decreases config@.len() - i,
    {
        if config[i].0 == key {
            return true;
        }
        i = i + 1;
    }
    false
}

/// Compiles a plan graph into a pipeline of streaming operators.
pub struct Builder<'a> {
    streaming: &'a StreamManager,
    egraph: ExprGraph,
    root: Id,
}

impl<'a> Builder<'a> {
    pub closed spec fn spec_streams(&self) -> Set<TableId> {
        self.streaming.entries().dom()
    }

    pub closed spec fn spec_graph(&self) -> ExprGraph {
        self.egraph
    }

    pub closed spec fn spec_root(&self) -> Id {
        self.root
    }

    /// A builder for the plan rooted at `root`, scanning the streams of `streaming`.
    pub fn new(streaming: &'a StreamManager, egraph: ExprGraph, root: Id) -> (r: Builder<'a>)
        ensures
            r.spec_streams() == streaming.entries().dom(),
            r.spec_graph() == egraph,
            r.spec_root() == root,
    {
        Builder { streaming, egraph, root }
    }

    /// Compiles the whole plan. Nothing is started: a plan either compiles
    /// whole or yields the first error met.
    pub fn build(&self) -> (r: Result<Pipeline, BuildError>)
        requires
            self.spec_graph().wf(),
        ensures
            match r {
                Ok(p) => build_error(
                    self.spec_graph().nodes_seq(),
                    self.spec_streams(),
                    self.spec_root() as int,
                ) is None && compiles_to(self.spec_graph().nodes_seq(), self.spec_root() as int, p),
                Err(e) => build_error(
                    self.spec_graph().nodes_seq(),
                    self.spec_streams(),
                    self.spec_root() as int,
                ) == Some(e),
            },
    {
        self.build_id(self.root)
    }

    fn build_id(&self, id: Id) -> (r: Result<Pipeline, BuildError>)
        requires
            self.egraph.wf(),
        ensures
            match r {
                Ok(p) => build_error(self.egraph.nodes_seq(), self.spec_streams(), id as int) is None
                    && compiles_to(self.egraph.nodes_seq(), id as int, p),
                Err(e) => build_error(self.egraph.nodes_seq(), self.spec_streams(), id as int)
                    == Some(e),
            },
        decreases id,
    {
        if id >= self.egraph.len() {
            return Err(BuildError::UnsupportedNode(id));
        }
        proof {
            assert(children_below(self.egraph.nodes_seq()[id as int], id as int));
        }
        match self.egraph.node(id) {
            Expr::Scan(t, list) => {
                let t = *t;
                let list = *list;
                let tid = match self.egraph.node(t) {
                    Expr::Table(tid) => *tid,
                    _ => return Err(BuildError::UnsupportedNode(t)),
                };
                let columns = match self.scan_column_ids(list) {
                    Ok(c) => c,
                    Err(e) => return Err(e),
                };
                if !self.streaming.contains(tid) {
                    return Err(BuildError::StreamNotFound(tid));
                }
                Ok(Pipeline::Scan { table_id: tid, columns })
            },
            Expr::Proj(projs, child) => {
                let projs = *projs;
                let child = *child;
                let input = match self.build_id(child) {
                    Ok(p) => p,
                    Err(e) => return Err(e),
                };
                let exprs = match self.egraph.resolve_column_index(projs, child) {
                    Ok(v) => v,
                    Err(e) => return Err(e),
                };
                Ok(Pipeline::Project { exprs, input: Box::new(input) })
            },
            _ => Err(BuildError::UnsupportedNode(id)),
        }
    }

    /// The column ids that the `Column` nodes of list `list` request.
    fn scan_column_ids(&self, list: Id) -> (r: Result<Vec<ColumnId>, BuildError>)
        ensures
            match r {
                Ok(v) => scan_list(self.egraph.nodes_seq(), list as int) == Ok::<
                    Seq<ColumnId>,
                    BuildError,
                >(v@),
                Err(e) => scan_list(self.egraph.nodes_seq(), list as int) == Err::<
                    Seq<ColumnId>,
                    BuildError,
                >(e),
            },
    {
        let ghost nodes = self.egraph.nodes_seq();
        if list >= self.egraph.len() {
            return Err(BuildError::UnsupportedNode(list));
        }
        let items = match self.egraph.node(list) {
            Expr::List(v) => v,
            _ => return Err(BuildError::UnsupportedNode(list)),
        };
        let mut out: Vec<ColumnId> = Vec::new();
        let mut i: usize = 0;
        while i < items.len()
            invariant
                nodes == self.egraph.nodes_seq(),
                list < nodes.len(),
                nodes[list as int] == Expr::List(*items),
                i <= items@.len(),
                scan_columns(nodes, items@.subrange(0, i as int)) == Ok::<
                    Seq<ColumnId>,
                    BuildError,
                >(out@),
            decreases items@.len() - i,
        {
            let item = items[i];
            proof {
                assert(items@.subrange(0, i + 1).drop_last() =~= items@.subrange(0, i as int));
                assert(items@.subrange(0, i + 1).last() == item);
            }
            if item >= self.egraph.len() {
                proof {
                    lemma_scan_columns_prefix_err(nodes, items@, i + 1);
                }
                return Err(BuildError::UnsupportedNode(item));
            }
            match self.egraph.node(item) {
                Expr::Column(c) => out.push(c.column_id),
                _ => {
                    proof {
                        lemma_scan_columns_prefix_err(nodes, items@, i + 1);
                    }
                    return Err(BuildError::UnsupportedNode(item));
                },
            }
            i = i + 1;
        }
        proof {
            assert(items@.subrange(0, items@.len() as int) =~= items@);
        }
        Ok(out)
    }
}

/// A failure among the first `j` items is the failure of the whole list.
proof fn lemma_scan_columns_prefix_err(nodes: Seq<Expr>, items: Seq<Id>, j: int)
    requires
        0 <= j <= items.len(),
        scan_columns(nodes, items.subrange(0, j)) is Err,
    ensures
        scan_columns(nodes, items) == scan_columns(nodes, items.subrange(0, j)),
    decreases items.len(),
{
    if j == items.len() {
        assert(items.subrange(0, j) =~= items);
    } else {
        assert(items.drop_last().subrange(0, j) =~= items.subrange(0, j));
        lemma_scan_columns_prefix_err(nodes, items.drop_last(), j);
    }
}

} // verus!
