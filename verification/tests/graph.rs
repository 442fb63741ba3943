use vts::graph::{Edge, Graph, Node, NodeData, NodeKind, YosysError};
use vts::ops::{AnyOp, BinaryOp, ConstOp, UnaryOp};
use vts::yosys::{Cell, ConstBit, Module, Port, PortDirection, SignalBit};

fn and() -> NodeData {
    NodeData::new_op(BinaryOp::And)
}

fn or() -> NodeData {
    NodeData::new_op(BinaryOp::Or)
}

fn xor() -> NodeData {
    NodeData::new_op(BinaryOp::Xor)
}

fn edge(src: usize, sink: usize) -> Edge {
    Edge {
        source: Node::new(src),
        sink: Node::new(sink),
    }
}

fn get_test_graph() -> Graph {
    let mut nodes: Vec<NodeData> = Vec::new();
    // A 0-3
    nodes.extend(vec![NodeData::new_source(); 4]);
    // B 4-7
    nodes.extend(vec![NodeData::new_source(); 4]);
    // Cin 8
    nodes.push(NodeData::new_source());
    // Gates 9-28
    nodes.extend(vec![
        xor(),
        and(),
        and(),
        or(),
        xor(),
        and(),
        and(),
        or(),
        xor(),
        and(),
        and(),
        or(),
        xor(),
        xor(),
        xor(),
        xor(),
        xor(),
        and(),
        and(),
        or(),
    ]);
    // Cout 29
    nodes.push(NodeData::new_sink());
    // S 30-33
    nodes.extend(vec![NodeData::new_sink(); 4]);
    assert_eq!(nodes.len(), 34);
    let pairs = [
        (0, 9),
        (0, 11),
        (1, 13),
        (1, 14),
        (2, 17),
        (2, 19),
        (3, 21),
        (3, 26),
        (4, 9),
        (4, 11),
        (5, 13),
        (5, 14),
        (6, 17),
        (6, 19),
        (7, 21),
        (7, 26),
        (8, 10),
        (8, 22),
        (9, 10),
        (9, 22),
        (10, 12),
        (11, 12),
        (12, 15),
        (12, 23),
        (13, 15),
        (13, 23),
        (14, 16),
        (15, 16),
        (16, 18),
        (16, 24),
        (17, 18),
        (17, 24),
        (18, 20),
        (19, 20),
        (20, 25),
        (20, 27),
        (21, 25),
        (21, 27),
        (22, 30),
        (23, 31),
        (24, 32),
        (25, 33),
        (26, 28),
        (27, 28),
        (28, 29),
    ];
    let edges: Vec<Edge> = pairs.iter().map(|&(a, b)| edge(a, b)).collect();
    assert_eq!(edges.len(), 45);
    Graph::new(nodes, edges)
}

#[test]
fn test_new_graph() {
    get_test_graph();
}

#[test]
fn test_graph_nodes_and_edges_cursors() {
    let g = get_test_graph();
    assert_eq!(g.len(), 34);
    let mut nodes = g.nodes();
    assert_eq!(nodes.size_hint(), (34, Some(34)));
    assert_eq!(nodes.next().map(|n| n.kind), Some(NodeKind::Source));
    // Node 0's edges come out, then the cursor pauses once before node 1.
    let mut edges = g.edges();
    assert_eq!(edges.next(), Some((Node(0), Node(9))));
    assert_eq!(edges.next(), Some((Node(0), Node(11))));
    assert_eq!(edges.next(), None);
    assert_eq!(edges.next(), Some((Node(1), Node(13))));
}

#[test]
fn test_add_nodes() {
    let mut g = Graph::default();
    let sources = g.add_source(3);
    assert_eq!((sources.start, sources.end), (Node(0), Node(3)));
    let sinks = g.add_sink(2);
    assert_eq!((sinks.start, sinks.end), (Node(3), Node(5)));
    let mut range = sinks;
    assert_eq!(range.size_hint(), (2, Some(2)));
    assert_eq!(range.next(), Some(Node(3)));
    assert_eq!(range.next(), Some(Node(4)));
    assert_eq!(range.next(), None);
    assert_eq!(g.add_unit(), Node(5));
    assert_eq!(g.add_zero(), Node(6));
    let mut n = g.nodes();
    for _ in 0..5 {
        n.next();
    }
    assert_eq!(n.next().unwrap().kind, NodeKind::Gate(AnyOp::Const(ConstOp::Unit)));
    // `add_zero` labels its node `Unit` too.
    assert_eq!(n.next().unwrap().kind, NodeKind::Gate(AnyOp::Const(ConstOp::Unit)));
    assert!(n.next().is_none());
    g.add_edge(edge(0, 5));
    g.add_edge_unchecked(edge(0, 6));
    let mut e = g.edges();
    assert_eq!(e.next(), Some((Node(0), Node(5))));
    assert_eq!(e.next(), Some((Node(0), Node(6))));
    assert_eq!(e.next(), None);
}

#[test]
fn test_ops() {
    assert_eq!(AnyOp::not(), AnyOp::Unary(UnaryOp::Not));
    assert_eq!(AnyOp::and(), AnyOp::Binary(BinaryOp::And));
    assert_eq!(AnyOp::or(), AnyOp::Binary(BinaryOp::Or));
    assert_eq!(AnyOp::xor(), AnyOp::Binary(BinaryOp::Xor));
    assert_eq!(AnyOp::unit(), AnyOp::Const(ConstOp::Unit));
    assert_eq!(AnyOp::zero(), AnyOp::Const(ConstOp::Zero));
    assert_eq!(AnyOp::mux(), AnyOp::Mux);
    assert_eq!(
        NodeData::new_op(AnyOp::mux()).kind,
        NodeKind::Gate(AnyOp::Mux)
    );
}

fn port(direction: PortDirection, bits: Vec<usize>) -> Port {
    Port {
        direction,
        bits,
        offset: 0,
        upto: 0,
        signed: 0,
    }
}

fn cell(ty: &str, conns: Vec<(&str, Vec<SignalBit>)>) -> Cell {
    Cell {
        hide_name: 0,
        ty: ty.to_string(),
        parameters: vec![],
        attributes: vec![],
        port_directions: vec![],
        connections: conns
            .into_iter()
            .map(|(n, b)| (n.to_string(), b))
            .collect(),
    }
}

fn module(ports: Vec<(&str, Port)>, cells: Vec<(&str, Cell)>) -> Module {
    Module {
        attributes: vec![],
        parameter_default_values: vec![],
        ports: ports.into_iter().map(|(n, p)| (n.to_string(), p)).collect(),
        cells: cells.into_iter().map(|(n, c)| (n.to_string(), c)).collect(),
        memories: vec![],
        netnames: vec![],
    }
}

#[test]
fn test_module_to_graph() {
    let m = module(
        vec![
            ("a", port(PortDirection::Input, vec![2, 3])),
            ("y", port(PortDirection::Output, vec![4])),
        ],
        vec![
            (
                "g",
                cell(
                    "$_AND_",
                    vec![
                        ("A", vec![SignalBit::Ref(0)]),
                        ("B", vec![SignalBit::Const(ConstBit::_1)]),
                        ("Y", vec![SignalBit::Ref(4)]),
                    ],
                ),
            ),
            ("u", cell("$_DFF_P_", vec![])),
        ],
    );
    let g = Graph::try_from_module(&m).unwrap();
    // two sources, one sink, the AND node, and a constant for input B
    assert_eq!(g.len(), 5);
    let mut e = g.edges();
    assert_eq!(e.next(), Some((Node(0), Node(3))));
    let mut n = g.nodes();
    let kinds: Vec<NodeKind> = (0..5).map(|_| n.next().unwrap().kind).collect();
    assert_eq!(
        kinds,
        vec![
            NodeKind::Source,
            NodeKind::Source,
            NodeKind::Sink,
            NodeKind::Gate(AnyOp::Binary(BinaryOp::And)),
            NodeKind::Gate(AnyOp::Const(ConstOp::Unit)),
        ]
    );
}

#[test]
fn test_module_to_graph_errors() {
    let m = module(vec![("io", port(PortDirection::InOut, vec![2]))], vec![]);
    assert_eq!(
        Graph::try_from_module(&m).unwrap_err(),
        YosysError::Unsupported("inout ports".to_string())
    );
    let m = module(vec![], vec![("n", cell("$_NOT_", vec![("A", vec![])]))]);
    assert_eq!(
        Graph::try_from_module(&m).unwrap_err(),
        YosysError::ShouldHaveOutput("$_NOT_".to_string())
    );
    let m = module(vec![], vec![("n", cell("$_NOT_", vec![("Y", vec![])]))]);
    assert_eq!(
        Graph::try_from_module(&m).unwrap_err(),
        YosysError::MissingOutput("n".to_string())
    );
    let m = module(
        vec![],
        vec![(
            "n",
            cell(
                "$_NOT_",
                vec![("Y", vec![SignalBit::Ref(1), SignalBit::Ref(2)])],
            ),
        )],
    );
    assert_eq!(
        Graph::try_from_module(&m).unwrap_err(),
        YosysError::MultiBitOutput("n".to_string())
    );
    let m = module(
        vec![],
        vec![("n", cell("$_NOT_", vec![("Y", vec![SignalBit::Const(ConstBit::X)])]))],
    );
    assert_eq!(
        Graph::try_from_module(&m).unwrap_err(),
        YosysError::ConstOutput("n".to_string())
    );
    let m = module(
        vec![],
        vec![("n", cell("$_NOT_", vec![("Y", vec![SignalBit::Ref(1)])]))],
    );
    assert_eq!(
        Graph::try_from_module(&m).unwrap_err(),
        YosysError::ShouldHaveInput {
            cell: "$_NOT_".to_string(),
            port: "A".to_string()
        }
    );
    let m = module(
        vec![],
        vec![(
            "n",
            cell(
                "$_NOT_",
                vec![
                    ("Y", vec![SignalBit::Ref(1)]),
                    ("A", vec![SignalBit::Const(ConstBit::Z)]),
                ],
            ),
        )],
    );
    assert_eq!(
        Graph::try_from_module(&m).unwrap_err(),
        YosysError::Unsupported("z constants".to_string())
    );
    let m = module(
        vec![],
        vec![(
            "n",
            cell(
                "$_NOT_",
                vec![("Y", vec![SignalBit::Ref(1)]), ("A", vec![SignalBit::Ref(7)])],
            ),
        )],
    );
    assert!(Graph::try_from_module_checked(&m).is_none());
}

#[test]
fn test_added_edge_is_kept() {
    let mut g = Graph::default();
    let a = g.add_node(and());
    let b = g.add_node(or());
    g.add_edge(edge(a.0, b.0));
    let c = g.add_node(xor());
    g.add_edge(edge(b.0, c.0));
    let mut edges = g.edges();
    assert_eq!(edges.next(), Some((a, b)));
    assert_eq!(edges.next(), None);
    assert_eq!(edges.next(), Some((b, c)));
    assert_eq!(g.len(), 3);
}

#[test]
fn test_add_edges_in_batches() {
    let nodes = vec![and(), or(), xor()];
    let e = |a: usize, b: usize| Edge { source: Node(a), sink: Node(b) };
    let mut one = Graph::default();
    one.add_nodes(nodes.clone());
    one.add_edges(vec![e(0, 1), e(1, 2), e(0, 2)]);
    let mut two = Graph::default();
    two.add_nodes(nodes.clone());
    two.add_edges(vec![e(0, 1)]);
    two.add_edge(e(1, 2));
    two.add_edges(vec![e(0, 2)]);
    let edges_one: Vec<(Node, Node)> = collect_edges(&one);
    let edges_two: Vec<(Node, Node)> = collect_edges(&two);
    assert_eq!(edges_one, edges_two);
    assert_eq!(edges_one.len(), 3);
    let built = Graph::new(nodes, vec![e(0, 1), e(1, 2), e(0, 2)]);
    assert_eq!(collect_edges(&built), edges_one);
}

fn collect_edges(g: &Graph) -> Vec<(Node, Node)> {
    let mut edges = g.edges();
    let mut all = Vec::new();
    for _ in 0..(4 * g.len() + 4) {
        if let Some(edge) = edges.next() {
            all.push(edge);
        }
    }
    all
}

#[test]
fn test_new_op_is_gate() {
    assert_eq!(NodeData::new_op(AnyOp::Binary(BinaryOp::And)).kind, NodeKind::Gate(AnyOp::Binary(BinaryOp::And)));
    assert_eq!(NodeData::new_op(ConstOp::Zero).kind, NodeKind::Gate(AnyOp::Const(ConstOp::Zero)));
}
