//! The Yosys JSON netlist, as plain data.
//!
//! Every map of the JSON format is held as a list of key-value pairs, in the
//! order in which the map was walked when the JSON text was read; a name is
//! held at most once in each (see [`module_names_unique`]).

use crate::text::names_unique;
use vstd::prelude::*;

verus! {

/// The direction of a module port.
#[derive(Clone, Copy, Debug, PartialEq, Eq, Structural)]
pub enum PortDirection {
    Input,
    Output,
    InOut,
}

/// A constant signal bit.
#[derive(Clone, Copy, Debug, PartialEq, Eq, Structural)]
pub enum ConstBit {
    _0,
    _1,
    X,
    Z,
}

impl ConstBit {
    /// The bit as it is written in the JSON format.
    pub fn as_str(&self) -> (r: &'static str)
        ensures
            r@ == const_bit_str(*self),
    {
        match self {
            ConstBit::_0 => "0",
            ConstBit::_1 => "1",
            ConstBit::X => "x",
            ConstBit::Z => "z",
        }
    }
}

pub open spec fn const_bit_str(b: ConstBit) -> Seq<char> {
    match b {
        ConstBit::_0 => "0"@,
        ConstBit::_1 => "1"@,
        ConstBit::X => "x"@,
        ConstBit::Z => "z"@,
    }
}

/// A signal bit: a wire number or a constant.
#[derive(Clone, Copy, Debug, PartialEq, Eq, Structural)]
pub enum SignalBit {
    Ref(usize),
    Const(ConstBit),
}

#[derive(Clone, Debug, PartialEq)]
pub struct Port {
    pub direction: PortDirection,
    pub bits: Vec<usize>,
    pub offset: usize,
    pub upto: usize,
    pub signed: usize,
}

#[derive(Clone, Debug, PartialEq)]
pub struct Cell {
    pub hide_name: usize,
    pub ty: String,
    pub parameters: Vec<(String, String)>,
    pub attributes: Vec<(String, String)>,
    pub port_directions: Vec<(String, PortDirection)>,
    pub connections: Vec<(String, Vec<SignalBit>)>,
}

#[derive(Clone, Debug, PartialEq)]
pub struct Memory {
    pub hide_name: usize,
    pub attributes: Vec<(String, String)>,
    pub width: usize,
    pub start_offset: usize,
    pub size: usize,
}

#[derive(Clone, Debug, PartialEq)]
pub struct NetName {
    pub hide_name: usize,
    pub attributes: Vec<(String, String)>,
    pub bits: Vec<SignalBit>,
    pub offset: usize,
    pub upto: usize,
    pub signed: usize,
}

#[derive(Clone, Debug, PartialEq)]
pub struct Module {
    pub attributes: Vec<(String, String)>,
    pub parameter_default_values: Vec<(String, String)>,
    pub ports: Vec<(String, Port)>,
    pub cells: Vec<(String, Cell)>,
    pub memories: Vec<(String, Memory)>,
    pub netnames: Vec<(String, NetName)>,
}

/// Every name map of the module and of its cells holds each name once, as
/// the JSON objects they are read from do.
pub open spec fn module_names_unique(m: Module) -> bool {
    &&& names_unique(m.attributes@)
    &&& names_unique(m.parameter_default_values@)
    &&& names_unique(m.ports@)
    &&& names_unique(m.cells@)
    &&& names_unique(m.memories@)
    &&& names_unique(m.netnames@)
    &&& forall|i: int|
        0 <= i < m.cells@.len() ==> {
            let c = (#[trigger] m.cells@[i]).1;
            &&& names_unique(c.parameters@)
            &&& names_unique(c.attributes@)
            &&& names_unique(c.port_directions@)
            &&& names_unique(c.connections@)
        }
}

#[derive(Clone, Debug, PartialEq)]
pub struct Design {
    pub creator: String,
    pub modules: Vec<(String, Module)>,
}

} // verus!
