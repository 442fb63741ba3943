use vts::architecture as arch;
use vts::archmodel::{
    Architecture, Block, BlockClass, Connection, ConnectionKind, PinRange, Port, PortClass,
    PortDirection,
};

fn lut_port(pins: usize, direction: PortDirection, class: PortClass) -> Port {
    Port { pins, direction, class: Some(class) }
}

fn leaf(count: usize) -> Block {
    Block {
        count,
        children: vec![],
        ports: vec![],
        connections: vec![],
        class: Some(BlockClass::Latch),
    }
}

#[test]
fn test_make_abstract_keeps_order_and_drops_connections() {
    let block = Block {
        count: 4,
        children: vec![("ff".to_string(), leaf(1)), ("lut".to_string(), leaf(2))],
        ports: vec![
            ("in".to_string(), lut_port(6, PortDirection::Input, PortClass::LookupTableIn)),
            ("out".to_string(), lut_port(1, PortDirection::Output, PortClass::LookupTableOut)),
        ],
        connections: vec![Connection {
            input: vec![("in".to_string(), PinRange::From(0))],
            output: vec![("out".to_string(), PinRange::Single(0))],
            kind: ConnectionKind::Direct,
        }],
        class: None,
    };
    let a = block.make_abstract_partial("clb").unwrap();
    assert_eq!(a.name, "clb");
    assert_eq!(a.count, 4);
    assert_eq!(a.class, None);
    assert!(a.connections.is_empty());
    assert_eq!(a.children.len(), 2);
    assert_eq!(a.children[0].name, "ff");
    assert_eq!(a.children[1].name, "lut");
    assert_eq!(a.children[1].count, 2);
    assert_eq!(a.ports.len(), 2);
    assert_eq!(a.ports[0].name, "in");
    assert_eq!(a.ports[0].pins, 6);
    assert_eq!(a.ports[1].direction, PortDirection::Output);
    assert_eq!(a.ports[1].class, Some(PortClass::LookupTableOut));

    let arch = Architecture { blocks: vec![("top".to_string(), block)] };
    let abs = arch.make_abstract().unwrap();
    assert_eq!(abs.blocks.len(), 1);
    assert_eq!(abs.blocks[0].name, "top");
    assert_eq!(abs.blocks[0].children.len(), 2);
}

#[test]
fn test_make_concrete_names_entries() {
    let clk = arch::Port {
        name: "clk",
        pins: 1,
        direction: PortDirection::Input,
        class: Some(PortClass::Clock),
    };
    let d = arch::Port { name: "d", pins: 2, direction: PortDirection::Input, class: None };
    let first = arch::Block {
        name: "x",
        count: 1,
        children: vec![],
        ports: vec![],
        connections: vec![],
        class: None,
    };
    let second = arch::Block {
        name: "x",
        count: 7,
        children: vec![],
        ports: vec![],
        connections: vec![],
        class: Some(BlockClass::LookupTable),
    };
    let other = arch::Block {
        name: "y",
        count: 3,
        children: vec![],
        ports: vec![],
        connections: vec![],
        class: None,
    };
    let block = arch::Block {
        name: "clb",
        count: 2,
        children: vec![first, other, second],
        ports: vec![clk, d, arch::Port { name: "clk", pins: 5, direction: PortDirection::Output, class: None }],
        connections: vec![arch::Connection {
            input: vec![(&clk, PinRange::Single(0)), (&d, PinRange::Inclusive { start: 0, end: 1 })],
            output: vec![(&d, PinRange::From(1))],
            kind: ConnectionKind::Mux,
        }],
        class: Some(BlockClass::Latch),
    };
    let m = block.make_concrete().unwrap();
    assert_eq!(m.count, 2);
    assert_eq!(m.class, Some(BlockClass::Latch));
    assert_eq!(m.children.len(), 2);
    assert_eq!(m.children[0].0, "x");
    assert_eq!(m.children[0].1.count, 7);
    assert_eq!(m.children[0].1.class, Some(BlockClass::LookupTable));
    assert_eq!(m.children[1].0, "y");
    assert_eq!(m.children[1].1.count, 3);
    assert_eq!(m.ports.len(), 2);
    assert_eq!(m.ports[0].0, "clk");
    assert_eq!(m.ports[0].1, Port { pins: 5, direction: PortDirection::Output, class: None });
    assert_eq!(m.ports[1].0, "d");
    assert_eq!(m.ports[1].1.pins, 2);
    assert_eq!(m.connections.len(), 1);
    assert_eq!(m.connections[0].kind, ConnectionKind::Mux);
    assert_eq!(
        m.connections[0].input,
        vec![
            ("clk".to_string(), PinRange::Single(0)),
            ("d".to_string(), PinRange::Inclusive { start: 0, end: 1 })
        ]
    );
    assert_eq!(m.connections[0].output, vec![("d".to_string(), PinRange::From(1))]);

    let top = arch::Architecture { blocks: vec![block] };
    let concrete = top.make_concrete().unwrap();
    assert_eq!(concrete.blocks.len(), 1);
    assert_eq!(concrete.blocks[0].0, "clb");
    assert_eq!(concrete.blocks[0].1.children.len(), 2);
}

#[test]
fn test_abstract_then_concrete_round_trip() {
    let block = Block {
        count: 2,
        children: vec![("ff".to_string(), leaf(1)), ("lut".to_string(), leaf(3))],
        ports: vec![
            ("clk".to_string(), lut_port(1, PortDirection::Input, PortClass::Clock)),
            ("q".to_string(), lut_port(1, PortDirection::Output, PortClass::LatchOut)),
        ],
        connections: vec![],
        class: Some(BlockClass::Latch),
    };
    let back = block.make_abstract_partial("clb").unwrap().make_concrete().unwrap();
    assert_eq!(back.count, block.count);
    assert_eq!(back.class, block.class);
    assert!(back.connections.is_empty());
    assert_eq!(back.children.len(), 2);
    for (name, child) in &block.children {
        let found = back.children.iter().find(|(n, _)| n == name).unwrap();
        assert_eq!(found.1.count, child.count);
        assert_eq!(found.1.class, child.class);
    }
    assert_eq!(back.ports.len(), 2);
    for (name, port) in &block.ports {
        let found = back.ports.iter().find(|(n, _)| n == name).unwrap();
        assert_eq!(found.1, *port);
    }
}
