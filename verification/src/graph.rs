//! The logic graph: nodes (sources, sinks and gates) with directed edges.

use crate::ops::{AnyOp, BinaryOp, ConstOp, UnaryOp};
use crate::text::str_eq;
use crate::yosys::{
    const_bit_str, module_names_unique, Cell, ConstBit, Module, Port, PortDirection, SignalBit,
};
use vstd::string::StringExecFns;
use vstd::prelude::*;

verus! {

/// The index of a node in a [`Graph`].
#[derive(Clone, Copy, Debug, PartialEq, Eq, Structural, Hash, PartialOrd, Ord)]
pub struct Node(pub usize);

impl Node {
    pub fn new(id: usize) -> (r: Self)
        ensures
            r.0 == id,
    {
        Node(id)
    }

    pub fn advance(&mut self, count: usize)
        requires
            old(self).0 + count <= usize::MAX,
        ensures
            final(self).0 == old(self).0 + count,
    {
        self.0 = self.0 + count;
    }

    pub fn bump(&mut self)
        requires
            old(self).0 < usize::MAX,
        ensures
            final(self).0 == old(self).0 + 1,
    {
        self.advance(1)
    }
}

/// The nodes `start`, `start + 1`, ..., up to but excluding `end`.
#[derive(Clone, Copy, Debug)]
pub struct NodeRange {
    pub start: Node,
    pub end: Node,
}

impl NodeRange {
    /// The next node of the range, if any, advancing the range.
    pub fn next(&mut self) -> (r: Option<Node>)
        ensures
            old(self).start.0 < old(self).end.0 ==> r == Some(old(self).start)
                && final(self).start.0 == old(self).start.0 + 1 && final(self).end == old(self).end,
            old(self).start.0 >= old(self).end.0 ==> r is None && *final(self) == *old(self),
    {
        if self.start.0 < self.end.0 {
            let n = self.start;
            self.start.bump();
            Some(n)
        } else {
            None
        }
    }

    /// The number of nodes left, as a lower and an upper bound.
    pub fn size_hint(&self) -> (r: (usize, Option<usize>))
        ensures
            self.start.0 < self.end.0 ==> r == (
                (self.end.0 - self.start.0) as usize,
                Some((self.end.0 - self.start.0) as usize),
            ),
            self.start.0 >= self.end.0 ==> r == (0usize, Some(0usize)),
    {
        if self.start.0 < self.end.0 {
            let len = self.end.0 - self.start.0;
            (len, Some(len))
        } else {
            (0, Some(0))
        }
    }
}

/// What a node is.
#[derive(Clone, Copy, Debug, PartialEq, Eq, Structural)]
pub enum NodeKind {
    Source,
    Sink,
    Gate(AnyOp),
}

/// The data held by a node.
#[derive(Clone, Copy, Debug, PartialEq, Eq, Structural)]
pub struct NodeData {
    pub kind: NodeKind,
}

impl NodeData {
    /// A gate node for the operation `op` (of any operation type that
    /// converts to [`AnyOp`]).
    pub fn new_op<Op>(op: Op) -> (r: Self) where AnyOp: From<Op>
        ensures
            r.kind is Gate,
            <AnyOp as vstd::std_specs::convert::FromSpec<Op>>::obeys_from_spec() ==> r.kind
                == NodeKind::Gate(<AnyOp as vstd::std_specs::convert::FromSpec<Op>>::from_spec(op)),
    {
        NodeData { kind: NodeKind::Gate(AnyOp::from(op)) }
    }

    pub fn new_source() -> (r: Self)
        ensures
            r.kind == NodeKind::Source,
    {
        NodeData { kind: NodeKind::Source }
    }

    pub fn new_sink() -> (r: Self)
        ensures
            r.kind == NodeKind::Sink,
    {
        NodeData { kind: NodeKind::Sink }
    }
}

/// A directed edge.
#[derive(Clone, Copy, Debug, PartialEq, Eq, Structural)]
pub struct Edge {
    pub source: Node,
    pub sink: Node,
}

#[derive(Clone, Debug)]
struct NodeEntry {
    data: NodeData,
    sinks: Vec<Node>,
}

impl NodeEntry {
    fn from_data(data: NodeData) -> (r: Self)
        ensures
            r.data == data,
            r.sinks@ == Seq::<Node>::empty(),
    {
        NodeEntry { data, sinks: Vec::new() }
    }
}

/// A node with the nodes its outgoing edges lead to.
pub type EntryModel = (NodeData, Seq<Node>);

/// A graph: a list of nodes, each with the list of its edges' sinks in the
/// order the edges were added.
#[derive(Clone, Debug)]
pub struct Graph {
    entries: Vec<NodeEntry>,
}

/// The model of a graph after adding `node`.
pub open spec fn push_node(g: Seq<EntryModel>, node: NodeData) -> Seq<EntryModel> {
    g.push((node, Seq::empty()))
}

/// The model of a graph after adding each of `nodes` in turn.
pub open spec fn push_nodes(g: Seq<EntryModel>, nodes: Seq<NodeData>) -> Seq<EntryModel> {
    g + nodes.map_values(|n: NodeData| (n, Seq::<Node>::empty()))
}

/// The model of a graph after adding the edge `e` (its source must be a node).
pub open spec fn push_edge(g: Seq<EntryModel>, e: Edge) -> Seq<EntryModel> {
    g.update(e.source.0 as int, (g[e.source.0 as int].0, g[e.source.0 as int].1.push(e.sink)))
}

/// Every edge of `edges` joins two nodes of a graph with `n` nodes.
pub open spec fn edges_in_bounds(edges: Seq<Edge>, n: nat) -> bool {
    forall|i: int|
        0 <= i < edges.len() ==> (#[trigger] edges[i]).source.0 < n && edges[i].sink.0 < n
}

/// The model of a graph after adding the edges `edges[..k]` in turn.
pub open spec fn push_edges(g: Seq<EntryModel>, edges: Seq<Edge>, k: nat) -> Seq<EntryModel>
    decreases k,
{
    if k == 0 || k > edges.len() {
        g
    } else {
        push_edge(push_edges(g, edges, (k - 1) as nat), edges[k - 1])
    }
}

/// The graph `g` has an edge from node `source` to node `sink`.
pub open spec fn has_edge(g: Seq<EntryModel>, source: nat, sink: Node) -> bool {
    source < g.len() && g[source as int].1.contains(sink)
}

/// Adding an edge makes it an edge of the graph and keeps every node and
/// every edge the graph had.
pub proof fn lemma_edge_added(g: Seq<EntryModel>, e: Edge, source: nat, sink: Node)
    requires
        e.source.0 < g.len(),
    ensures
        has_edge(push_edge(g, e), e.source.0 as nat, e.sink),
        push_edge(g, e).len() == g.len(),
        forall|i: int| 0 <= i < g.len() ==> (#[trigger] push_edge(g, e)[i]).0 == g[i].0,
        has_edge(g, source, sink) ==> has_edge(push_edge(g, e), source, sink),
{
    let h = push_edge(g, e);
    let s = e.source.0 as int;
    assert(h[s].1[h[s].1.len() - 1] == e.sink);
    if has_edge(g, source, sink) {
        let k = choose|k: int| 0 <= k < g[source as int].1.len() && g[source as int].1[k] == sink;
        assert(h[source as int].1[k] == sink);
    }
}

/// Adding a node keeps every node and every edge the graph had, and gives
/// the new node no edges.
pub proof fn lemma_node_added(g: Seq<EntryModel>, node: NodeData, source: nat, sink: Node)
    ensures
        push_node(g, node).len() == g.len() + 1,
        push_node(g, node)[g.len() as int] == (node, Seq::<Node>::empty()),
        forall|i: int| 0 <= i < g.len() ==> #[trigger] push_node(g, node)[i] == g[i],
        has_edge(g, source, sink) ==> has_edge(push_node(g, node), source, sink),
        !has_edge(push_node(g, node), g.len(), sink),
{
}

/// `n` copies of `node`.
pub open spec fn copies(node: NodeData, n: nat) -> Seq<NodeData> {
    Seq::new(n, |i: int| node)
}

proof fn lemma_push_edges_len(g: Seq<EntryModel>, edges: Seq<Edge>, k: nat)
    requires
        edges_in_bounds(edges, g.len()),
    ensures
        push_edges(g, edges, k).len() == g.len(),
    decreases k,
{
    if k != 0 && k <= edges.len() {
        lemma_push_edges_len(g, edges, (k - 1) as nat);
    }
}

proof fn lemma_push_edges_prefix(g: Seq<EntryModel>, a: Seq<Edge>, b: Seq<Edge>, k: nat)
    requires
        k <= a.len(),
    ensures
        push_edges(g, a + b, k) == push_edges(g, a, k),
    decreases k,
{
    if k > 0 {
        lemma_push_edges_prefix(g, a, b, (k - 1) as nat);
        assert((a + b)[k - 1] == a[k - 1]);
    }
}

proof fn lemma_push_edges_split(g: Seq<EntryModel>, a: Seq<Edge>, b: Seq<Edge>, j: nat)
    requires
        j <= b.len(),
    ensures
        push_edges(g, a + b, a.len() + j) == push_edges(push_edges(g, a, a.len()), b, j),
    decreases j,
{
    if j == 0 {
        lemma_push_edges_prefix(g, a, b, a.len());
    } else {
        lemma_push_edges_split(g, a, b, (j - 1) as nat);
        assert((a + b)[a.len() + j - 1] == b[j - 1]);
        assert((a.len() + j - 1) as nat == a.len() + (j - 1) as nat);
    }
}

/// Adding edges in two batches is adding them all in one, in the same
/// order: the edges of `a` and then those of `b` give the graph that the
/// edges of `a + b` give. In particular adding a batch is adding its edges
/// one at a time, each with [`Graph::add_edge`].
pub proof fn lemma_add_edges_in_batches(g: Seq<EntryModel>, a: Seq<Edge>, b: Seq<Edge>)
    ensures
        push_edges(g, a + b, (a + b).len()) == push_edges(
            push_edges(g, a, a.len()),
            b,
            b.len(),
        ),
{
    lemma_push_edges_split(g, a, b, b.len());
}

/// Adding a batch of edges and then one more edge `e` with
/// [`Graph::add_edge`] is adding the batch with `e` at its end.
pub proof fn lemma_add_edges_then_edge(g: Seq<EntryModel>, a: Seq<Edge>, e: Edge)
    ensures
        push_edges(g, a.push(e), a.len() + 1) == push_edge(push_edges(g, a, a.len()), e),
{
    lemma_push_edges_prefix(g, a, seq![e], a.len());
    assert(a.push(e) =~= a + seq![e]);
    assert(a.push(e)[a.len() as int] == e);
}

impl View for Graph {
    type V = Seq<EntryModel>;

    closed spec fn view(&self) -> Seq<EntryModel> {
        self.entries@.map_values(|e: NodeEntry| (e.data, e.sinks@))
    }
}

impl Default for Graph {
    fn default() -> (r: Self)
        ensures
            r@ == Seq::<EntryModel>::empty(),
    {
        let r = Graph { entries: Vec::new() };
        assert(r@ =~= Seq::<EntryModel>::empty());
        r
    }
}

impl Graph {
    /// A graph with the nodes `nodes` and then the edges `edges`, added in
    /// order.
    pub fn new(nodes: Vec<NodeData>, edges: Vec<Edge>) -> (r: Self)
        requires
            nodes@.len() < usize::MAX,
            edges_in_bounds(edges@, nodes@.len()),
        ensures
            r@ == push_edges(push_nodes(Seq::empty(), nodes@), edges@, edges@.len()),
    {
        let mut graph = Graph::default();
        graph.add_nodes(nodes);
        graph.add_edges(edges);
        graph
    }

    /// The number of nodes.
    pub fn len(&self) -> (r: usize)
        ensures
            r == self@.len(),
    {
        self.entries.len()
    }

    pub fn add_node(&mut self, node: NodeData) -> (r: Node)
        requires
            old(self)@.len() < usize::MAX,
        ensures
            final(self)@ == push_node(old(self)@, node),
            r.0 == old(self)@.len(),
    {
        self.entries.push(NodeEntry::from_data(node));
        proof {
            assert(self@ =~= push_node(old(self)@, node));
        }
        Node::new(self.entries.len() - 1)
    }

    pub fn add_nodes(&mut self, nodes: Vec<NodeData>) -> (r: NodeRange)
        requires
            old(self)@.len() + nodes@.len() < usize::MAX,
        ensures
            final(self)@ == push_nodes(old(self)@, nodes@),
            r.start.0 == old(self)@.len(),
            r.end.0 == final(self)@.len(),
    {
        let start = Node::new(self.entries.len());
        let mut i: usize = 0;
        while i < nodes.len()
            invariant
                i <= nodes@.len(),
                old(self)@.len() + nodes@.len() < usize::MAX,
                self@ =~= push_nodes(old(self)@, nodes@.take(i as int)),
            decreases nodes@.len() - i,
        {
            self.add_node(nodes[i]);
            proof {
                assert(nodes@.take(i + 1) =~= nodes@.take(i as int).push(nodes@[i as int]));
                assert(push_nodes(old(self)@, nodes@.take(i + 1)) =~= push_node(
                    push_nodes(old(self)@, nodes@.take(i as int)),
                    nodes@[i as int],
                ));
            }
            i = i + 1;
        }
        proof {
            assert(nodes@.take(nodes@.len() as int) =~= nodes@);
        }
        let end = Node::new(self.entries.len());
        NodeRange { start, end }
    }

    fn add_copies(&mut self, node: NodeData, width: usize) -> (r: NodeRange)
        requires
            old(self)@.len() + width < usize::MAX,
        ensures
            final(self)@ == push_nodes(old(self)@, copies(node, width as nat)),
            r.start.0 == old(self)@.len(),
            r.end.0 == final(self)@.len(),
    {
        let mut nodes: Vec<NodeData> = Vec::new();
        let mut i: usize = 0;
        while i < width
            invariant
                i <= width,
                nodes@ =~= copies(node, i as nat),
            decreases width - i,
        {
            nodes.push(node);
            i = i + 1;
        }
        self.add_nodes(nodes)
    }

    /// Adds `width` source nodes.
    pub fn add_source(&mut self, width: usize) -> (r: NodeRange)
        requires
            old(self)@.len() + width < usize::MAX,
        ensures
            final(self)@ == push_nodes(old(self)@, copies(NodeData { kind: NodeKind::Source }, width as nat)),
            r.start.0 == old(self)@.len(),
            r.end.0 == final(self)@.len(),
    {
        self.add_copies(NodeData::new_source(), width)
    }

    /// Adds `width` sink nodes.
    pub fn add_sink(&mut self, width: usize) -> (r: NodeRange)
        requires
            old(self)@.len() + width < usize::MAX,
        ensures
            final(self)@ == push_nodes(old(self)@, copies(NodeData { kind: NodeKind::Sink }, width as nat)),
            r.start.0 == old(self)@.len(),
            r.end.0 == final(self)@.len(),
    {
        self.add_copies(NodeData::new_sink(), width)
    }

    pub fn add_const(&mut self, k: ConstOp) -> (r: Node)
        requires
            old(self)@.len() < usize::MAX,
        ensures
            final(self)@ == push_node(old(self)@, NodeData { kind: NodeKind::Gate(AnyOp::Const(k)) }),
            r.0 == old(self)@.len(),
    {
        self.add_node(NodeData::new_op(k))
    }

    pub fn add_unit(&mut self) -> (r: Node)
        requires
            old(self)@.len() < usize::MAX,
        ensures
            final(self)@ == push_node(old(self)@, NodeData { kind: NodeKind::Gate(AnyOp::Const(ConstOp::Unit)) }),
            r.0 == old(self)@.len(),
    {
        self.add_const(ConstOp::Unit)
    }

    /// Adds a constant node. The node it adds is labelled
    /// [`ConstOp::Unit`], as [`Graph::add_unit`]'s is.
    pub fn add_zero(&mut self) -> (r: Node)
        requires
            old(self)@.len() < usize::MAX,
        ensures
            final(self)@ == push_node(old(self)@, NodeData { kind: NodeKind::Gate(AnyOp::Const(ConstOp::Unit)) }),
            r.0 == old(self)@.len(),
    {
        self.add_const(ConstOp::Unit)
    }

    /// Checks that `node` is a node of the graph (callers must ensure it).
    fn check_node(&self, node: Node)
        requires
            node.0 < self@.len(),
    {
    }

    /// Checks that both ends of `edge` are nodes of the graph (callers must
    /// ensure it).
    fn check_edge(&self, edge: &Edge)
        requires
            edge.source.0 < self@.len(),
            edge.sink.0 < self@.len(),
    {
        self.check_node(edge.source);
        self.check_node(edge.sink);
    }

    pub fn add_edge(&mut self, edge: Edge)
        requires
            edge.source.0 < old(self)@.len(),
            edge.sink.0 < old(self)@.len(),
        ensures
            final(self)@ == push_edge(old(self)@, edge),
    {
        self.check_edge(&edge);
        self.add_edge_unchecked(edge)
    }

    /// Adds `edge` without checking its sink.
    pub fn add_edge_unchecked(&mut self, edge: Edge)
        requires
            edge.source.0 < old(self)@.len(),
        ensures
            final(self)@ == push_edge(old(self)@, edge),
    {
        let i = edge.source.0;
        self.entries[i].sinks.push(edge.sink);
        proof {
            assert(self@ =~= push_edge(old(self)@, edge));
        }
    }

    pub fn add_edges(&mut self, edges: Vec<Edge>)
        requires
            edges_in_bounds(edges@, old(self)@.len()),
        ensures
            final(self)@ == push_edges(old(self)@, edges@, edges@.len()),
    {
        let mut i: usize = 0;
        while i < edges.len()
            invariant
                i <= edges@.len(),
                edges_in_bounds(edges@, old(self)@.len()),
                self@ == push_edges(old(self)@, edges@, i as nat),
            decreases edges@.len() - i,
        {
            proof {
                lemma_push_edges_len(old(self)@, edges@, i as nat);
            }
            self.add_edge(edges[i]);
            i = i + 1;
        }
    }

    /// A cursor over the node data, in order.
    pub fn nodes(&self) -> (r: Nodes<'_>)
        ensures
            r.graph() == self@,
            r.pos() == 0,
    {
        Nodes { entries: &self.entries, pos: 0 }
    }

    /// A cursor over the edges; see [`Edges::next`].
    pub fn edges(&self) -> (r: Edges<'_>)
        ensures
            r.graph() == self@,
            r.state() == (0nat, None::<(nat, nat)>),
    {
        Edges { entries: &self.entries, last_node: 0, current: None }
    }
}

/// A cursor over the nodes of a graph.
pub struct Nodes<'a> {
    entries: &'a Vec<NodeEntry>,
    pos: usize,
}

impl<'a> Nodes<'a> {
    pub closed spec fn graph(&self) -> Seq<EntryModel> {
        self.entries@.map_values(|e: NodeEntry| (e.data, e.sinks@))
    }

    pub closed spec fn pos(&self) -> nat {
        self.pos as nat
    }

    /// The next node's data, advancing the cursor.
    pub fn next(&mut self) -> (r: Option<&'a NodeData>)
        requires
            old(self).pos() <= old(self).graph().len(),
        ensures
            final(self).graph() == old(self).graph(),
            final(self).pos() <= final(self).graph().len(),
            old(self).pos() < old(self).graph().len() ==> r == Some(
                &old(self).graph()[old(self).pos() as int].0,
            ) && final(self).pos() == old(self).pos() + 1,
            old(self).pos() >= old(self).graph().len() ==> r is None && final(self).pos()
                == old(self).pos(),
    {
        if self.pos < self.entries.len() {
            let e = &self.entries[self.pos];
            self.pos = self.pos + 1;
            Some(&e.data)
        } else {
            None
        }
    }

    /// The number of nodes left, as a lower and an upper bound.
    pub fn size_hint(&self) -> (r: (usize, Option<usize>))
        requires
            self.pos() <= self.graph().len(),
        ensures
            r == ((self.graph().len() - self.pos()) as usize, Some(
                (self.graph().len() - self.pos()) as usize,
            )),
    {
        let n = self.entries.len() - self.pos;
        (n, Some(n))
    }
}

/// A cursor over the edges of a graph. It walks the nodes in order; for the
/// node it is at, it hands out one edge per call, and once that node's edges
/// are used up it returns `None` once before it moves on to the next node.
pub struct Edges<'a> {
    entries: &'a Vec<NodeEntry>,
    last_node: usize,
    current: Option<(usize, usize)>,
}

/// The state of an edge cursor: the number of nodes it has entered, and the
/// node it is at with the number of that node's edges it has handed out.
pub type EdgesState = (nat, Option<(nat, nat)>);

/// One step of an edge cursor over the graph `g`: the edge handed out (if
/// any) and the state after it.
pub open spec fn edges_step(g: Seq<EntryModel>, s: EdgesState) -> (Option<(Node, Node)>, EdgesState) {
    let (last, cur) = s;
    let (last1, cur1) = if cur is None {
        if last < g.len() {
            ((last + 1) as nat, Some((last, 0nat)))
        } else {
            (last, None)
        }
    } else {
        (last, cur)
    };
    match cur1 {
        Some((id, k)) => if k < g[id as int].1.len() {
            (Some((Node(id as usize), g[id as int].1[k as int])), (last1, Some((id, (k + 1) as nat))))
        } else {
            (None, (last1, None))
        },
        None => (None, (last1, None)),
    }
}

impl<'a> Edges<'a> {
    pub closed spec fn graph(&self) -> Seq<EntryModel> {
        self.entries@.map_values(|e: NodeEntry| (e.data, e.sinks@))
    }

    pub closed spec fn state(&self) -> EdgesState {
        (
            self.last_node as nat,
            match self.current {
                Some((id, k)) => Some((id as nat, k as nat)),
                None => None,
            },
        )
    }

    pub closed spec fn wf(&self) -> bool {
        &&& self.last_node <= self.entries@.len()
        &&& match self.current {
            Some((id, k)) => id < self.last_node && k <= self.entries@[id as int].sinks@.len(),
            None => true,
        }
    }

    pub fn next(&mut self) -> (r: Option<(Node, Node)>)
        requires
            old(self).wf(),
        ensures
            final(self).wf(),
            final(self).graph() == old(self).graph(),
            (r, final(self).state()) == edges_step(old(self).graph(), old(self).state()),
    {
        if self.current.is_none() {
            if self.last_node < self.entries.len() {
                self.current = Some((self.last_node, 0));
                self.last_node = self.last_node + 1;
            }
        }
        match self.current {
            Some((id, k)) => {
                if k < self.entries[id].sinks.len() {
                    let sink = self.entries[id].sinks[k];
                    self.current = Some((id, k + 1));
                    Some((Node(id), sink))
                } else {
                    self.current = None;
                    None
                }
            },
            None => None,
        }
    }
}

/// Why a Yosys module could not be turned into a graph.
#[derive(Clone, Debug, PartialEq)]
pub enum YosysError {
    Unsupported(String),
    ShouldHaveOutput(String),
    MultiBitOutput(String),
    MissingOutput(String),
    ConstOutput(String),
    ShouldHaveInput { cell: String, port: String },
    MultiBitInput { cell: String, port: String },
    MissingInput { cell: String, port: String },
    BitOutOfBounds(usize),
}

/// A [`YosysError`] with its strings taken by their contents.
pub enum YosysErrorModel {
    Unsupported(Seq<char>),
    ShouldHaveOutput(Seq<char>),
    MultiBitOutput(Seq<char>),
    MissingOutput(Seq<char>),
    ConstOutput(Seq<char>),
    ShouldHaveInput { cell: Seq<char>, port: Seq<char> },
    MultiBitInput { cell: Seq<char>, port: Seq<char> },
    MissingInput { cell: Seq<char>, port: Seq<char> },
    BitOutOfBounds(usize),
}

impl View for YosysError {
    type V = YosysErrorModel;

    open spec fn view(&self) -> YosysErrorModel {
        match self {
            YosysError::Unsupported(s) => YosysErrorModel::Unsupported(s@),
            YosysError::ShouldHaveOutput(s) => YosysErrorModel::ShouldHaveOutput(s@),
            YosysError::MultiBitOutput(s) => YosysErrorModel::MultiBitOutput(s@),
            YosysError::MissingOutput(s) => YosysErrorModel::MissingOutput(s@),
            YosysError::ConstOutput(s) => YosysErrorModel::ConstOutput(s@),
            YosysError::ShouldHaveInput { cell, port } => YosysErrorModel::ShouldHaveInput {
                cell: cell@,
                port: port@,
            },
            YosysError::MultiBitInput { cell, port } => YosysErrorModel::MultiBitInput {
                cell: cell@,
                port: port@,
            },
            YosysError::MissingInput { cell, port } => YosysErrorModel::MissingInput {
                cell: cell@,
                port: port@,
            },
            YosysError::BitOutOfBounds(b) => YosysErrorModel::BitOutOfBounds(*b),
        }
    }
}

/// The operation of the Yosys internal gate cell type `ty`, if it is one
/// that the graph supports.
pub open spec fn cell_op(ty: Seq<char>) -> Option<AnyOp> {
    if ty == "$_NOT_"@ {
        Some(AnyOp::Unary(UnaryOp::Not))
    } else if ty == "$_AND_"@ {
        Some(AnyOp::Binary(BinaryOp::And))
    } else if ty == "$_OR_"@ {
        Some(AnyOp::Binary(BinaryOp::Or))
    } else if ty == "$_XOR_"@ {
        Some(AnyOp::Binary(BinaryOp::Xor))
    } else if ty == "$_MUX_"@ {
        Some(AnyOp::Mux)
    } else {
        None
    }
}

/// The Yosys internal gate cells that become gates, and the operation each
/// is labelled with: `$_NOT_` is Not, `$_AND_` is And, `$_OR_` is Or,
/// `$_XOR_` is Xor and `$_MUX_` is Mux; every other cell type is none.
pub proof fn lemma_cell_types(ty: Seq<char>)
    ensures
        cell_op(seq!['$', '_', 'N', 'O', 'T', '_']) == Some(AnyOp::Unary(UnaryOp::Not)),
        cell_op(seq!['$', '_', 'A', 'N', 'D', '_']) == Some(AnyOp::Binary(BinaryOp::And)),
        cell_op(seq!['$', '_', 'O', 'R', '_']) == Some(AnyOp::Binary(BinaryOp::Or)),
        cell_op(seq!['$', '_', 'X', 'O', 'R', '_']) == Some(AnyOp::Binary(BinaryOp::Xor)),
        cell_op(seq!['$', '_', 'M', 'U', 'X', '_']) == Some(AnyOp::Mux),
        ty != seq!['$', '_', 'N', 'O', 'T', '_'] && ty != seq!['$', '_', 'A', 'N', 'D', '_'] && ty
            != seq!['$', '_', 'O', 'R', '_'] && ty != seq!['$', '_', 'X', 'O', 'R', '_'] && ty
            != seq!['$', '_', 'M', 'U', 'X', '_'] ==> cell_op(ty) is None,
{
    reveal_strlit("$_NOT_");
    reveal_strlit("$_AND_");
    reveal_strlit("$_OR_");
    reveal_strlit("$_XOR_");
    reveal_strlit("$_MUX_");
    assert("$_NOT_"@ =~= seq!['$', '_', 'N', 'O', 'T', '_']);
    assert("$_AND_"@ =~= seq!['$', '_', 'A', 'N', 'D', '_']);
    assert("$_OR_"@ =~= seq!['$', '_', 'O', 'R', '_']);
    assert("$_XOR_"@ =~= seq!['$', '_', 'X', 'O', 'R', '_']);
    assert("$_MUX_"@ =~= seq!['$', '_', 'M', 'U', 'X', '_']);
}

/// The bits connected to the port `key`: those of the first connection with
/// that name, from position `i` on.
pub open spec fn lookup_conn(conns: Seq<(String, Vec<SignalBit>)>, key: Seq<char>, i: int) -> Option<
    Seq<SignalBit>,
>
    decreases conns.len() - i,
{
    if i < 0 || i >= conns.len() {
        None
    } else if conns[i].0@ == key {
        Some(conns[i].1@)
    } else {
        lookup_conn(conns, key, i + 1)
    }
}

/// The graph after adding the nodes of one module port.
pub open spec fn port_step(p: Port, g: Seq<EntryModel>) -> Result<Seq<EntryModel>, YosysErrorModel> {
    match p.direction {
        PortDirection::Input => Ok(
            push_nodes(g, copies(NodeData { kind: NodeKind::Source }, p.bits@.len())),
        ),
        PortDirection::Output => Ok(
            push_nodes(g, copies(NodeData { kind: NodeKind::Sink }, p.bits@.len())),
        ),
        PortDirection::InOut => Err(YosysErrorModel::Unsupported("inout ports"@)),
    }
}

/// A port adds one node per bit, after the nodes already there and with no
/// edges: a source for an input port and a sink for an output port; an
/// inout port is refused.
pub proof fn lemma_port_nodes(p: Port, g: Seq<EntryModel>)
    ensures
        port_step(p, g) is Err <==> p.direction == PortDirection::InOut,
        (port_step(p, g) matches Ok(g2) ==> {
            &&& g2.len() == g.len() + p.bits@.len()
            &&& forall|i: int| 0 <= i < g.len() ==> #[trigger] g2[i] == g[i]
            &&& forall|i: int|
                g.len() <= i < g2.len() ==> (#[trigger] g2[i]).1.len() == 0 && g2[i].0.kind == (if p.direction
                    == PortDirection::Input {
                    NodeKind::Source
                } else {
                    NodeKind::Sink
                })
        }),
{
}

/// The graph after adding the nodes of the ports `ports`, in order.
pub open spec fn ports_spec(ports: Seq<(String, Port)>, g: Seq<EntryModel>) -> Result<
    Seq<EntryModel>,
    YosysErrorModel,
>
    decreases ports.len(),
{
    if ports.len() == 0 {
        Ok(g)
    } else {
        match ports_spec(ports.drop_last(), g) {
            Err(e) => Err(e),
            Ok(g1) => port_step(ports.last().1, g1),
        }
    }
}

/// The number of bits over all ports.
pub open spec fn port_bits_total(ports: Seq<(String, Port)>) -> nat
    decreases ports.len(),
{
    if ports.len() == 0 {
        0
    } else {
        port_bits_total(ports.drop_last()) + ports.last().1.bits@.len()
    }
}

/// The graph after connecting the input `port` of the node `id` (cell
/// `name`): `None` where the input names a node that does not exist yet.
pub open spec fn input_spec(
    name: Seq<char>,
    cell: Cell,
    port: Seq<char>,
    id: nat,
    g: Seq<EntryModel>,
) -> Option<Result<Seq<EntryModel>, YosysErrorModel>> {
    match lookup_conn(cell.connections@, port, 0) {
        None => Some(Err(YosysErrorModel::ShouldHaveInput { cell: cell.ty@, port })),
        Some(bits) => if bits.len() == 0 {
            Some(Err(YosysErrorModel::MissingInput { cell: name, port }))
        } else if bits.len() >= 2 {
            Some(Err(YosysErrorModel::MultiBitInput { cell: name, port }))
        } else {
            match bits[0] {
                SignalBit::Ref(b) => if b < g.len() {
                    Some(Ok(push_edge(g, Edge { source: Node(b), sink: Node(id as usize) })))
                } else {
                    None
                },
                SignalBit::Const(k) => match k {
                    ConstBit::_0 | ConstBit::_1 => {
                        let g1 = push_node(
                            g,
                            NodeData { kind: NodeKind::Gate(AnyOp::Const(ConstOp::Unit)) },
                        );
                        Some(
                            Ok(
                                push_edge(
                                    g1,
                                    Edge { source: Node(g.len() as usize), sink: Node(id as usize) },
                                ),
                            ),
                        )
                    },
                    _ => Some(
                        Err(YosysErrorModel::Unsupported(const_bit_str(k) + " constants"@)),
                    ),
                },
            }
        },
    }
}

/// Chains a step after a result that may have failed or stopped.
pub open spec fn then_input(
    r: Option<Result<Seq<EntryModel>, YosysErrorModel>>,
    name: Seq<char>,
    cell: Cell,
    port: Seq<char>,
    id: nat,
) -> Option<Result<Seq<EntryModel>, YosysErrorModel>> {
    match r {
        Some(Ok(g)) => input_spec(name, cell, port, id, g),
        _ => r,
    }
}

/// The graph after adding the node of the cell `name` with operation `op`.
pub open spec fn cell_step(name: Seq<char>, cell: Cell, op: AnyOp, g: Seq<EntryModel>) -> Option<
    Result<Seq<EntryModel>, YosysErrorModel>,
> {
    let id = g.len();
    let g1 = push_node(g, NodeData { kind: NodeKind::Gate(op) });
    match lookup_conn(cell.connections@, "Y"@, 0) {
        None => Some(Err(YosysErrorModel::ShouldHaveOutput(cell.ty@))),
        Some(bits) => if bits.len() == 0 {
            Some(Err(YosysErrorModel::MissingOutput(name)))
        } else if bits.len() >= 2 {
            Some(Err(YosysErrorModel::MultiBitOutput(name)))
        } else if bits[0] is Const {
            Some(Err(YosysErrorModel::ConstOutput(name)))
        } else {
            let ra = input_spec(name, cell, "A"@, id, g1);
            let rb = if op is Binary || op is Mux {
                then_input(ra, name, cell, "B"@, id)
            } else {
                ra
            };
            if op is Mux {
                then_input(rb, name, cell, "S"@, id)
            } else {
                rb
            }
        },
    }
}

/// The graph after adding the gates of the supported cells among `cells`,
/// in order; cells of other types are skipped.
pub open spec fn cells_spec(cells: Seq<(String, Cell)>, g: Seq<EntryModel>) -> Option<
    Result<Seq<EntryModel>, YosysErrorModel>,
>
    decreases cells.len(),
{
    if cells.len() == 0 {
        Some(Ok(g))
    } else {
        match cells_spec(cells.drop_last(), g) {
            Some(Ok(g1)) => match cell_op(cells.last().1.ty@) {
                Some(op) => cell_step(cells.last().0@, cells.last().1, op, g1),
                None => Some(Ok(g1)),
            },
            r => r,
        }
    }
}

/// The nodes a graph already has keep their data when an input is connected.
proof fn lemma_input_keeps_nodes(name: Seq<char>, cell: Cell, port: Seq<char>, id: nat, g: Seq<EntryModel>)
    ensures
        (input_spec(name, cell, port, id, g) matches Some(Ok(g2)) ==> g2.len() >= g.len() && forall|i: int|
            0 <= i < g.len() ==> (#[trigger] g2[i]).0 == g[i].0),
{
    match lookup_conn(cell.connections@, port, 0) {
        Some(bits) => if bits.len() == 1 {
            match bits[0] {
                SignalBit::Ref(b) => if b < g.len() {
                    lemma_edge_added(g, Edge { source: Node(b), sink: Node(id as usize) }, 0, Node(0));
                },
                SignalBit::Const(k) => {
                    let g1 = push_node(g, NodeData { kind: NodeKind::Gate(AnyOp::Const(ConstOp::Unit)) });
                    lemma_edge_added(
                        g1,
                        Edge { source: Node(g.len() as usize), sink: Node(id as usize) },
                        0,
                        Node(0),
                    );
                },
            }
        },
        None => {},
    }
}

proof fn lemma_then_input_keeps_nodes(
    r: Option<Result<Seq<EntryModel>, YosysErrorModel>>,
    name: Seq<char>,
    cell: Cell,
    port: Seq<char>,
    id: nat,
    g: Seq<EntryModel>,
)
    requires
        (r matches Some(Ok(g1)) ==> g1.len() >= g.len() && forall|i: int|
            0 <= i < g.len() ==> (#[trigger] g1[i]).0 == g[i].0),
    ensures
        (then_input(r, name, cell, port, id) matches Some(Ok(g2)) ==> g2.len() >= g.len() && forall|i: int|
            0 <= i < g.len() ==> (#[trigger] g2[i]).0 == g[i].0),
{
    if let Some(Ok(g1)) = r {
        lemma_input_keeps_nodes(name, cell, port, id, g1);
        if let Some(Ok(g2)) = then_input(r, name, cell, port, id) {
            assert forall|i: int| 0 <= i < g.len() implies (#[trigger] g2[i]).0 == g[i].0 by {
                assert(g2[i].0 == g1[i].0);
            }
        }
    }
}

/// A supported cell's gate node carries the cell's operation: when the
/// cells before it give a graph, a further cell whose type has the
/// operation `op` (see [`lemma_cell_types`]) gives a graph whose next node
/// is a gate of `op`, and keeps every node already there.
pub proof fn lemma_cell_gate_labelled(
    cells: Seq<(String, Cell)>,
    name: String,
    cell: Cell,
    g: Seq<EntryModel>,
    g1: Seq<EntryModel>,
    g2: Seq<EntryModel>,
    op: AnyOp,
)
    requires
        cells_spec(cells, g) == Some(Ok::<Seq<EntryModel>, YosysErrorModel>(g1)),
        cell_op(cell.ty@) == Some(op),
        cells_spec(cells.push((name, cell)), g) == Some(Ok::<Seq<EntryModel>, YosysErrorModel>(g2)),
    ensures
        g2.len() > g1.len(),
        g2[g1.len() as int].0 == (NodeData { kind: NodeKind::Gate(op) }),
        forall|i: int| 0 <= i < g1.len() ==> (#[trigger] g2[i]).0 == g1[i].0,
{
    let all = cells.push((name, cell));
    assert(all.drop_last() =~= cells);
    assert(all.last() == (name, cell));
    let n = name@;
    let id = g1.len();
    let gn = push_node(g1, NodeData { kind: NodeKind::Gate(op) });
    let ra = input_spec(n, cell, "A"@, id, gn);
    lemma_input_keeps_nodes(n, cell, "A"@, id, gn);
    let rb = if op is Binary || op is Mux {
        then_input(ra, n, cell, "B"@, id)
    } else {
        ra
    };
    lemma_then_input_keeps_nodes(ra, n, cell, "B"@, id, gn);
    lemma_then_input_keeps_nodes(rb, n, cell, "S"@, id, gn);
    assert(gn[id as int].0 == NodeData { kind: NodeKind::Gate(op) });
}

/// The graph of a Yosys module: a source node per input port bit and a sink
/// node per output port bit (ports in order), then a gate per supported
/// cell with edges from its inputs. `None` where a cell input names a node
/// that does not exist yet.
pub open spec fn module_graph_spec(m: Module) -> Option<Result<Seq<EntryModel>, YosysErrorModel>> {
    match ports_spec(m.ports@, Seq::empty()) {
        Err(e) => Some(Err(e)),
        Ok(g) => cells_spec(m.cells@, g),
    }
}

/// The module is small enough that its graph's node count fits in a `usize`.
pub open spec fn module_fits(m: Module) -> bool {
    port_bits_total(m.ports@) + 4 * m.cells@.len() < usize::MAX
}

fn lookup_connection<'m>(cell: &'m Cell, port: &str) -> (r: Option<&'m Vec<SignalBit>>)
    ensures
        match lookup_conn(cell.connections@, port@, 0) {
            Some(bits) => r is Some && r.unwrap()@ == bits,
            None => r is None,
        },
{
    let mut i: usize = 0;
    while i < cell.connections.len()
        invariant
            i <= cell.connections@.len(),
            lookup_conn(cell.connections@, port@, 0) == lookup_conn(
                cell.connections@,
                port@,
                i as int,
            ),
        decreases cell.connections@.len() - i,
    {
        if str_eq(cell.connections[i].0.as_str(), port) {
            return Some(&cell.connections[i].1);
        }
        i = i + 1;
    }
    None
}

fn cell_operation(ty: &String) -> (r: Option<AnyOp>)
    ensures
        r == cell_op(ty@),
{
    let t = ty.as_str();
    if str_eq(t, "$_NOT_") {
        Some(AnyOp::not())
    } else if str_eq(t, "$_AND_") {
        Some(AnyOp::and())
    } else if str_eq(t, "$_OR_") {
        Some(AnyOp::or())
    } else if str_eq(t, "$_XOR_") {
        Some(AnyOp::xor())
    } else if str_eq(t, "$_MUX_") {
        Some(AnyOp::mux())
    } else {
        None
    }
}

impl Graph {
    fn add_input(&mut self, name: &String, cell: &Cell, port: &str, id: Node) -> (r: Option<
        Result<(), YosysError>,
    >)
        requires
            old(self)@.len() + 1 < usize::MAX,
            id.0 < old(self)@.len(),
        ensures
            match input_spec(name@, *cell, port@, id.0 as nat, old(self)@) {
                None => r is None,
                Some(Ok(g)) => r == Some(Ok::<(), YosysError>(())) && final(self)@ == g,
                Some(Err(e)) => r matches Some(Err(e2)) && e2@ == e,
            },
            final(self)@.len() <= old(self)@.len() + 1,
    {
        let bits = match lookup_connection(cell, port) {
            None => {
                return Some(
                    Err(YosysError::ShouldHaveInput { cell: cell.ty.clone(), port: port.to_owned() }),
                );
            },
            Some(bits) => bits,
        };
        if bits.len() == 0 {
            return Some(Err(YosysError::MissingInput { cell: name.clone(), port: port.to_owned() }));
        }
        if bits.len() >= 2 {
            return Some(
                Err(YosysError::MultiBitInput { cell: name.clone(), port: port.to_owned() }),
            );
        }
        match bits[0] {
            SignalBit::Ref(bit) => {
                if bit >= self.entries.len() {
                    return None;
                }
                self.add_edge_unchecked(Edge { source: Node::new(bit), sink: id });
                Some(Ok(()))
            },
            SignalBit::Const(k) => {
                let node = match k {
                    ConstBit::_0 => self.add_zero(),
                    ConstBit::_1 => self.add_unit(),
                    _ => {
                        let mut msg = k.as_str().to_owned();
                        msg.append(" constants");
                        return Some(Err(YosysError::Unsupported(msg)));
                    },
                };
                self.add_edge_unchecked(Edge { source: node, sink: id });
                Some(Ok(()))
            },
        }
    }

    fn add_cell(&mut self, name: &String, cell: &Cell, op: AnyOp) -> (r: Option<
        Result<(), YosysError>,
    >)
        requires
            old(self)@.len() + 4 < usize::MAX,
        ensures
            match cell_step(name@, *cell, op, old(self)@) {
                None => r is None,
                Some(Ok(g)) => r == Some(Ok::<(), YosysError>(())) && final(self)@ == g,
                Some(Err(e)) => r matches Some(Err(e2)) && e2@ == e,
            },
            final(self)@.len() <= old(self)@.len() + 4,
    {
        let id = self.add_node(NodeData { kind: NodeKind::Gate(op) });
        let bits = match lookup_connection(cell, "Y") {
            None => {
                return Some(Err(YosysError::ShouldHaveOutput(cell.ty.clone())));
            },
            Some(bits) => bits,
        };
        if bits.len() == 0 {
            return Some(Err(YosysError::MissingOutput(name.clone())));
        }
        if bits.len() >= 2 {
            return Some(Err(YosysError::MultiBitOutput(name.clone())));
        }
        match bits[0] {
            SignalBit::Ref(_) => {},
            SignalBit::Const(_) => {
                return Some(Err(YosysError::ConstOutput(name.clone())));
            },
        }
        match self.add_input(name, cell, "A", id) {
            Some(Ok(())) => {},
            other => return other,
        }
        match op {
            AnyOp::Binary(_) | AnyOp::Mux => {
                match self.add_input(name, cell, "B", id) {
                    Some(Ok(())) => {},
                    other => return other,
                }
            },
            _ => {},
        }
        match op {
            AnyOp::Mux => {
                match self.add_input(name, cell, "S", id) {
                    Some(Ok(())) => {},
                    other => return other,
                }
            },
            _ => {},
        }
        Some(Ok(()))
    }

    /// The graph of a Yosys module (see [`module_graph_spec`]); `None` where
    /// a cell input names a node that does not exist yet.
    pub fn try_from_module_checked(module: &Module) -> (r: Option<Result<Graph, YosysError>>)
        requires
            module_fits(*module),
            module_names_unique(*module),
        ensures
            match module_graph_spec(*module) {
                None => r is None,
                Some(Ok(g)) => r matches Some(Ok(graph)) && graph@ == g,
                Some(Err(e)) => r matches Some(Err(e2)) && e2@ == e,
            },
    {
        let mut graph = Graph::default();
        let ports = &module.ports;
        let mut i: usize = 0;
        while i < ports.len()
            invariant
                i <= ports@.len(),
                port_bits_total(ports@) + 4 * module.cells@.len() < usize::MAX,
                ports == &module.ports,
                ports_spec(ports@.take(i as int), Seq::empty()) == Ok::<_, YosysErrorModel>(graph@),
                graph@.len() == port_bits_total(ports@.take(i as int)),
                port_bits_total(ports@.take(i as int)) <= port_bits_total(ports@),
            decreases ports@.len() - i,
        {
            proof {
                assert(ports@.take(i + 1).drop_last() =~= ports@.take(i as int));
                lemma_port_bits_total_prefix(ports@, i + 1);
            }
            let port = &ports[i].1;
            let width = port.bits.len();
            match port.direction {
                PortDirection::Input => {
                    graph.add_source(width);
                },
                PortDirection::Output => {
                    graph.add_sink(width);
                },
                PortDirection::InOut => {
                    proof {
                        lemma_ports_spec_err_extends(ports@, i + 1);
                    }
                    return Some(Err(YosysError::Unsupported("inout ports".to_owned())));
                },
            }
            i = i + 1;
        }
        proof {
            assert(ports@.take(ports@.len() as int) =~= ports@);
        }
        let cells = &module.cells;
        let ghost g0 = graph@;
        let mut j: usize = 0;
        while j < cells.len()
            invariant
                j <= cells@.len(),
                cells == &module.cells,
                ports_spec(module.ports@, Seq::empty()) == Ok::<_, YosysErrorModel>(g0),
                g0.len() == port_bits_total(module.ports@),
                port_bits_total(module.ports@) + 4 * cells@.len() < usize::MAX,
                cells_spec(cells@.take(j as int), g0) == Some(Ok::<_, YosysErrorModel>(graph@)),
                graph@.len() <= g0.len() + 4 * j,
            decreases cells@.len() - j,
        {
            proof {
                assert(cells@.take(j + 1).drop_last() =~= cells@.take(j as int));
            }
            let name = &cells[j].0;
            let cell = &cells[j].1;
            match cell_operation(&cell.ty) {
                Some(op) => {
                    match graph.add_cell(name, cell, op) {
                        Some(Ok(())) => {},
                        Some(Err(e)) => {
                            proof {
                                lemma_cells_spec_stops(cells@, j + 1, g0);
                            }
                            return Some(Err(e));
                        },
                        None => {
                            proof {
                                lemma_cells_spec_stops(cells@, j + 1, g0);
                            }
                            return None;
                        },
                    }
                },
                None => {},
            }
            j = j + 1;
        }
        proof {
            assert(cells@.take(cells@.len() as int) =~= cells@);
        }
        Some(Ok(graph))
    }

    /// The graph of a Yosys module (see [`module_graph_spec`]).
    pub fn try_from_module(module: &Module) -> (r: Result<Graph, YosysError>)
        requires
            module_fits(*module),
            module_names_unique(*module),
            module_graph_spec(*module) is Some,
        ensures
            match module_graph_spec(*module) {
                Some(Ok(g)) => r matches Ok(graph) && graph@ == g,
                Some(Err(e)) => r matches Err(e2) && e2@ == e,
                None => false,
            },
    {
        match Self::try_from_module_checked(module) {
            Some(r) => r,
            None => {
                proof {
                    assert(false);
                }
                Err(YosysError::BitOutOfBounds(0))
            },
        }
    }
}

proof fn lemma_port_bits_total_prefix(ports: Seq<(String, Port)>, k: int)
    requires
        0 <= k <= ports.len(),
    ensures
        port_bits_total(ports.take(k)) <= port_bits_total(ports),
    decreases ports.len() - k,
{
    if k < ports.len() {
        lemma_port_bits_total_prefix(ports, k + 1);
        assert(ports.take(k + 1).drop_last() =~= ports.take(k));
    } else {
        assert(ports.take(k) =~= ports);
    }
}

proof fn lemma_ports_spec_err_extends(ports: Seq<(String, Port)>, k: int)
    requires
        0 <= k <= ports.len(),
        ports_spec(ports.take(k), Seq::empty()) is Err,
    ensures
        ports_spec(ports, Seq::empty()) == ports_spec(ports.take(k), Seq::empty()),
    decreases ports.len() - k,
{
    if k < ports.len() {
        assert(ports.take(k + 1).drop_last() =~= ports.take(k));
        lemma_ports_spec_err_extends(ports, k + 1);
    } else {
        assert(ports.take(k) =~= ports);
    }
}

proof fn lemma_cells_spec_stops(cells: Seq<(String, Cell)>, k: int, g: Seq<EntryModel>)
    requires
        0 <= k <= cells.len(),
        !(cells_spec(cells.take(k), g) matches Some(Ok(_))),
    ensures
        cells_spec(cells, g) == cells_spec(cells.take(k), g),
    decreases cells.len() - k,
{
    if k < cells.len() {
        assert(cells.take(k + 1).drop_last() =~= cells.take(k));
        lemma_cells_spec_stops(cells, k + 1, g);
    } else {
        assert(cells.take(k) =~= cells);
    }
}

} // verus!
