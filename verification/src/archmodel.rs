//! The architecture description model: blocks, ports and connections held
//! under their names, and the kinds they are made of.

use crate::architecture as arch;
use vstd::prelude::*;

verus! {

/// What a block implements.
#[derive(Clone, Copy, Debug, PartialEq, Eq, Structural)]
pub enum BlockClass {
    LookupTable,
    Latch,
}

/// The direction of a block port.
#[derive(Clone, Copy, Debug, PartialEq, Eq, Structural)]
pub enum PortDirection {
    Input,
    Output,
}

/// The role of a block port.
#[derive(Clone, Copy, Debug, PartialEq, Eq, Structural)]
pub enum PortClass {
    LookupTableIn,
    LookupTableOut,
    LatchIn,
    LatchOut,
    Clock,
}

/// A range of pins of a port.
#[derive(Clone, Copy, Debug, PartialEq, Eq, Structural)]
pub enum PinRange {
    Single(usize),
    From(usize),
    Inclusive { start: usize, end: usize },
}

/// How the pins of a connection are wired.
#[derive(Clone, Copy, Debug, PartialEq, Eq, Structural)]
pub enum ConnectionKind {
    Direct,
    Complete,
    Mux,
}

/// A port of a block: how many pins it has, which way they point and what
/// role they play.
#[derive(Clone, Copy, Debug, PartialEq, Eq, Structural)]
pub struct Port {
    pub pins: usize,
    pub direction: PortDirection,
    pub class: Option<PortClass>,
}

/// A connection between the pins of ports, each end named by its port.
#[derive(Clone, Debug)]
pub struct Connection {
    pub input: Vec<(String, PinRange)>,
    pub output: Vec<(String, PinRange)>,
    pub kind: ConnectionKind,
}

/// A block: how many of it there are, its child blocks and its ports (each
/// under its name), its connections and what it implements.
#[derive(Debug)]
pub struct Block {
    pub count: usize,
    pub children: Vec<(String, Block)>,
    pub ports: Vec<(String, Port)>,
    pub connections: Vec<Connection>,
    pub class: Option<BlockClass>,
}

/// An architecture: its blocks, each under its name.
#[derive(Debug)]
pub struct Architecture {
    pub blocks: Vec<(String, Block)>,
}

/// The abstract port `a` is the port `p` under the name `name`.
pub open spec fn abstracts_port(p: Port, name: Seq<char>, a: arch::Port<'_>) -> bool {
    &&& a.name@ == name
    &&& a.pins == p.pins
    &&& a.direction == p.direction
    &&& a.class == p.class
}

/// The abstract block `a` is the block `b` under the name `name`: the same
/// count and class, its children and ports in the same order, each child
/// abstracted in turn, and no connections.
pub open spec fn abstracts(b: Block, name: Seq<char>, a: arch::Block<'_>) -> bool
    decreases b,
{
    &&& a.name@ == name
    &&& a.count == b.count
    &&& a.class == b.class
    &&& a.connections@.len() == 0
    &&& a.ports@.len() == b.ports@.len()
    &&& forall|i: int|
        0 <= i < b.ports@.len() ==> abstracts_port(
            b.ports@[i].1,
            b.ports@[i].0@,
            #[trigger] a.ports@[i],
        )
    &&& a.children@.len() == b.children@.len()
    &&& forall|i: int|
        0 <= i < b.children@.len() ==> abstracts(
            b.children@[i].1,
            b.children@[i].0@,
            #[trigger] a.children@[i],
        )
}

impl Block {
    /// The abstract block of this block under the name `name`, its children
    /// and ports in the order they are held; connections are not carried
    /// over.
    pub fn make_abstract_partial<'a>(&'a self, name: &'a str) -> (r: Result<arch::Block<'a>, ()>)
        ensures
            r matches Ok(a) && abstracts(*self, name@, a),
        decreases self,
    {
        let mut children: Vec<arch::Block<'a>> = Vec::new();
        let mut i: usize = 0;
        while i < self.children.len()
            invariant
                i <= self.children@.len(),
                children@.len() == i,
                forall|k: int|
                    0 <= k < i ==> abstracts(
                        self.children@[k].1,
                        self.children@[k].0@,
                        #[trigger] children@[k],
                    ),
            decreases self.children@.len() - i,
        {
            let entry = &self.children[i];
            match entry.1.make_abstract_partial(entry.0.as_str()) {
                Ok(child) => children.push(child),
                Err(e) => {
                    proof {
                        assert(false);
                    }
                    return Err(e);
                },
            }
            i = i + 1;
        }
        let mut ports: Vec<arch::Port<'a>> = Vec::new();
        let mut j: usize = 0;
        while j < self.ports.len()
            invariant
                j <= self.ports@.len(),
                ports@.len() == j,
                forall|k: int|
                    0 <= k < j ==> abstracts_port(
                        self.ports@[k].1,
                        self.ports@[k].0@,
                        #[trigger] ports@[k],
                    ),
            decreases self.ports@.len() - j,
        {
            let entry = &self.ports[j];
            ports.push(
                arch::Port {
                    name: entry.0.as_str(),
                    pins: entry.1.pins,
                    direction: entry.1.direction,
                    class: entry.1.class,
                },
            );
            j = j + 1;
        }
        let a = arch::Block {
            name,
            count: self.count,
            children,
            ports,
            connections: Vec::new(),
            class: self.class,
        };
        Ok(a)
    }
}

impl Architecture {
    /// The abstract architecture: its blocks in the order they are held,
    /// each under its name.
    pub fn make_abstract(&self) -> (r: Result<arch::Architecture<'_>, ()>)
        ensures
            r matches Ok(a) && a.blocks@.len() == self.blocks@.len() && forall|i: int|
                0 <= i < self.blocks@.len() ==> abstracts(
                    self.blocks@[i].1,
                    self.blocks@[i].0@,
                    #[trigger] a.blocks@[i],
                ),
    {
        let mut blocks: Vec<arch::Block<'_>> = Vec::new();
        let mut i: usize = 0;
        while i < self.blocks.len()
            invariant
                i <= self.blocks@.len(),
                blocks@.len() == i,
                forall|k: int|
                    0 <= k < i ==> abstracts(
                        self.blocks@[k].1,
                        self.blocks@[k].0@,
                        #[trigger] blocks@[k],
                    ),
            decreases self.blocks@.len() - i,
        {
            let entry = &self.blocks[i];
            match entry.1.make_abstract_partial(entry.0.as_str()) {
                Ok(block) => blocks.push(block),
                Err(e) => {
                    proof {
                        assert(false);
                    }
                    return Err(e);
                },
            }
            i = i + 1;
        }
        Ok(arch::Architecture { blocks })
    }
}

} // verus!
