//! The architecture description as a tree of named blocks, ports named by
//! reference.

use crate::archmodel::{self as model, BlockClass, ConnectionKind, PinRange, PortClass, PortDirection};
use crate::text::{names_unique, str_eq};
use vstd::prelude::*;

verus! {

/// A port of a block.
#[derive(Clone, Copy, Debug, PartialEq, Eq)]
pub struct Port<'a> {
    pub name: &'a str,
    pub pins: usize,
    pub direction: PortDirection,
    pub class: Option<PortClass>,
}

/// A connection between the pins of ports.
#[derive(Clone, Debug)]
pub struct Connection<'a> {
    pub input: Vec<(&'a Port<'a>, PinRange)>,
    pub output: Vec<(&'a Port<'a>, PinRange)>,
    pub kind: ConnectionKind,
}

/// A named block with its child blocks, ports and connections.
#[derive(Debug)]
pub struct Block<'a> {
    pub name: &'a str,
    pub count: usize,
    pub children: Vec<Block<'a>>,
    pub ports: Vec<Port<'a>>,
    pub connections: Vec<Connection<'a>>,
    pub class: Option<BlockClass>,
}

/// An architecture: its blocks.
#[derive(Debug)]
pub struct Architecture<'a> {
    pub blocks: Vec<Block<'a>>,
}

/// The entries hold each of `names` once, and no other name.
pub open spec fn holds_names<V>(entries: Seq<(String, V)>, names: Seq<Seq<char>>) -> bool {
    &&& names_unique(entries)
    &&& forall|j: int|
        0 <= j < entries.len() ==> exists|i: int|
            0 <= i < names.len() && #[trigger] names[i] == (#[trigger] entries[j]).0@
    &&& forall|i: int|
        0 <= i < names.len() ==> exists|j: int|
            0 <= j < entries.len() && (#[trigger] entries[j]).0@ == #[trigger] names[i]
}

/// The name at `i` is not given again after `i` (nor at or after `end`).
pub open spec fn last_named(names: Seq<Seq<char>>, i: int, end: int) -> bool {
    forall|k: int| i < k < end ==> #[trigger] names[k] != names[i]
}

/// The names of blocks, in order.
pub open spec fn block_names<'a>(blocks: Seq<Block<'a>>) -> Seq<Seq<char>> {
    blocks.map_values(|b: Block<'a>| b.name@)
}

/// The names of ports, in order.
pub open spec fn port_names<'a>(ports: Seq<Port<'a>>) -> Seq<Seq<char>> {
    ports.map_values(|p: Port<'a>| p.name@)
}

/// The concrete port of an abstract one.
pub open spec fn port_model(p: Port<'_>) -> model::Port {
    model::Port { pins: p.pins, direction: p.direction, class: p.class }
}

/// The ends of a concrete connection name the ports of the abstract one.
pub open spec fn ends_named(ends: Seq<(&Port<'_>, PinRange)>, named: Seq<(String, PinRange)>) -> bool {
    &&& named.len() == ends.len()
    &&& forall|k: int|
        0 <= k < ends.len() ==> (#[trigger] named[k]).0@ == ends[k].0.name@ && named[k].1
            == ends[k].1
}

/// The concrete connection `m` of the abstract connection `c`.
pub open spec fn concretizes_connection(c: Connection<'_>, m: model::Connection) -> bool {
    &&& m.kind == c.kind
    &&& ends_named(c.input@, m.input@)
    &&& ends_named(c.output@, m.output@)
}

/// The named concrete blocks `ms` of the abstract blocks `bs`: each name
/// once, where a name given twice keeps the block that came last.
pub open spec fn blocks_concretized(bs: Seq<Block<'_>>, ms: Seq<(String, model::Block)>) -> bool
    decreases bs,
{
    &&& holds_names(ms, block_names(bs))
    &&& forall|i: int, j: int|
        0 <= i < bs.len() && 0 <= j < ms.len() && ms[j].0@ == bs[i].name@ && last_named(
            block_names(bs),
            i,
            bs.len() as int,
        ) ==> concretizes(#[trigger] bs[i], #[trigger] ms[j].1)
}

/// The concrete block `m` of the abstract block `b`: the same count and
/// class; its children (see [`blocks_concretized`]) and ports under their
/// names, each name once, where a name given twice keeps what came last;
/// its connections in order, each end named by its port.
pub open spec fn concretizes(b: Block<'_>, m: model::Block) -> bool
    decreases b,
{
    &&& m.count == b.count
    &&& m.class == b.class
    &&& blocks_concretized(b.children@, m.children@)
    &&& holds_names(m.ports@, port_names(b.ports@))
    &&& forall|i: int, j: int|
        0 <= i < b.ports@.len() && 0 <= j < m.ports@.len() && m.ports@[j].0@ == b.ports@[i].name@
            && last_named(port_names(b.ports@), i, b.ports@.len() as int) ==> (#[trigger] m.ports@[j]).1
            == port_model(#[trigger] b.ports@[i])
    &&& m.connections@.len() == b.connections@.len()
    &&& forall|k: int|
        0 <= k < b.connections@.len() ==> concretizes_connection(
            #[trigger] b.connections@[k],
            m.connections@[k],
        )
}

/// `after` is `before` with `value` put under `name`: in place of what
/// `name` held, else at the end.
pub open spec fn inserted<V>(before: Seq<(String, V)>, after: Seq<(String, V)>, name: Seq<char>, value: V) -> bool {
    &&& names_unique(after)
    &&& after.len() >= before.len()
    &&& forall|j: int| 0 <= j < before.len() ==> (#[trigger] after[j]).0@ == before[j].0@
    &&& forall|j: int| 0 <= j < before.len() && before[j].0@ != name ==> #[trigger] after[j] == before[j]
    &&& forall|j: int| 0 <= j < after.len() && (#[trigger] after[j]).0@ == name ==> after[j].1 == value
    &&& forall|j: int| before.len() <= j < after.len() ==> (#[trigger] after[j]).0@ == name
    &&& exists|j: int| 0 <= j < after.len() && (#[trigger] after[j]).0@ == name
}

/// Puts `value` under `name`: in place of what `name` held, else at the end.
fn insert_named<V>(entries: &mut Vec<(String, V)>, name: String, value: V)
    requires
        names_unique(old(entries)@),
    ensures
        inserted(old(entries)@, final(entries)@, name@, value),
{
    let mut j: usize = 0;
    while j < entries.len()
        invariant
            j <= entries@.len(),
            entries@ == old(entries)@,
            names_unique(entries@),
            forall|k: int| 0 <= k < j ==> (#[trigger] entries@[k]).0@ != name@,
        decreases entries@.len() - j,
    {
        if str_eq(entries[j].0.as_str(), name.as_str()) {
            let ghost before = entries@;
            entries.set(j, (name, value));
            proof {
                assert(entries@[j as int].0@ == before[j as int].0@);
                assert forall|a: int, b: int| 0 <= a < b < entries@.len() implies (
                #[trigger] entries@[a]).0@ != (#[trigger] entries@[b]).0@ by {
                    assert(before[a].0@ != before[b].0@);
                }
                assert(entries@[j as int].0@ == name@);
            }
            return;
        }
        j = j + 1;
    }
    let ghost before = entries@;
    entries.push((name, value));
    proof {
        assert forall|a: int, b: int| 0 <= a < b < entries@.len() implies (
        #[trigger] entries@[a]).0@ != (#[trigger] entries@[b]).0@ by {
            if b < before.len() {
                assert(before[a].0@ != before[b].0@);
            }
        }
        assert(entries@[before.len() as int].0@ == name@);
    }
}

/// The concrete ends of a connection: each port by its name.
fn name_ends<'a>(ends: &Vec<(&'a Port<'a>, PinRange)>) -> (r: Vec<(String, PinRange)>)
    ensures
        ends_named(ends@, r@),
{
    let mut r: Vec<(String, PinRange)> = Vec::new();
    let mut k: usize = 0;
    while k < ends.len()
        invariant
            k <= ends@.len(),
            r@.len() == k,
            forall|i: int|
                0 <= i < k ==> (#[trigger] r@[i]).0@ == ends@[i].0.name@ && r@[i].1 == ends@[i].1,
        decreases ends@.len() - k,
    {
        r.push((ends[k].0.name.to_owned(), ends[k].1));
        k = k + 1;
    }
    r
}

proof fn lemma_holds_names_step<V>(
    before: Seq<(String, V)>,
    after: Seq<(String, V)>,
    names: Seq<Seq<char>>,
    i: int,
    value: V,
)
    requires
        0 <= i < names.len(),
        holds_names(before, names.take(i)),
        inserted(before, after, names[i], value),
    ensures
        holds_names(after, names.take(i + 1)),
{
    let next = names.take(i + 1);
    let prev = names.take(i);
    assert forall|j: int| 0 <= j < after.len() implies exists|k: int|
        0 <= k < next.len() && #[trigger] next[k] == (#[trigger] after[j]).0@ by {
        if j < before.len() {
            let k = choose|k: int| 0 <= k < prev.len() && #[trigger] prev[k] == (#[trigger] before[j]).0@;
            assert(next[k] == after[j].0@);
        } else {
            assert(next[i] == after[j].0@);
        }
    }
    assert forall|k: int| 0 <= k < next.len() implies exists|j: int|
        0 <= j < after.len() && (#[trigger] after[j]).0@ == #[trigger] next[k] by {
        if k < i {
            assert(prev[k] == next[k]);
            let j = choose|j: int| 0 <= j < before.len() && (#[trigger] before[j]).0@ == #[trigger] prev[k];
            assert(after[j].0@ == next[k]);
        } else {
            let j = choose|j: int| 0 <= j < after.len() && (#[trigger] after[j]).0@ == names[i];
            assert(after[j].0@ == next[k]);
        }
    }
}

proof fn lemma_last_named_step<V>(
    before: Seq<(String, V)>,
    after: Seq<(String, V)>,
    names: Seq<Seq<char>>,
    i: int,
    value: V,
    rel: spec_fn(int, V) -> bool,
)
    requires
        0 <= i < names.len(),
        inserted(before, after, names[i], value),
        rel(i, value),
        forall|i2: int, j: int|
            0 <= i2 < i && 0 <= j < before.len() && (#[trigger] before[j]).0@ == #[trigger] names[i2]
                && last_named(names, i2, i) ==> rel(i2, before[j].1),
    ensures
        forall|i2: int, j: int|
            0 <= i2 < i + 1 && 0 <= j < after.len() && (#[trigger] after[j]).0@ == #[trigger] names[i2]
                && last_named(names, i2, i + 1) ==> rel(i2, after[j].1),
{
    assert forall|i2: int, j: int|
        0 <= i2 < i + 1 && 0 <= j < after.len() && (#[trigger] after[j]).0@ == #[trigger] names[i2]
            && last_named(names, i2, i + 1) implies rel(i2, after[j].1) by {
        if i2 < i {
            assert(names[i] != names[i2]);
            if j >= before.len() {
                assert(after[j].0@ == names[i]);
            }
            assert(after[j] == before[j]);
            assert(last_named(names, i2, i)) by {
                assert forall|k: int| i2 < k < i implies #[trigger] names[k] != names[i2] by {
                    assert(names[k] != names[i2]);
                }
            }
        } else {
            assert(after[j].1 == value);
        }
    }
}

/// The concrete blocks of `blocks`, each under its name (a name given twice
/// keeps the block that came last).
fn concrete_blocks<'a>(blocks: &Vec<Block<'a>>) -> (r: Vec<(String, model::Block)>)
    ensures
        blocks_concretized(blocks@, r@),
    decreases blocks,
{
    let ghost names = block_names(blocks@);
    let ghost child_rel = |i2: int, m: model::Block| concretizes(blocks@[i2], m);
    let mut children: Vec<(String, model::Block)> = Vec::new();
    let mut i: usize = 0;
    while i < blocks.len()
        invariant
            i <= blocks@.len(),
            names == block_names(blocks@),
            child_rel == (|i2: int, m: model::Block| concretizes(blocks@[i2], m)),
            holds_names(children@, names.take(i as int)),
            forall|i2: int, j: int|
                0 <= i2 < i && 0 <= j < children@.len() && (#[trigger] children@[j]).0@
                    == #[trigger] names[i2] && last_named(names, i2, i as int) ==> child_rel(
                    i2,
                    children@[j].1,
                ),
        decreases blocks@.len() - i,
    {
        let child = match blocks[i].make_concrete() {
            Ok(c) => c,
            Err(_) => {
                proof {
                    assert(false);
                }
                return Vec::new();
            },
        };
        let ghost before = children@;
        let name = blocks[i].name.to_owned();
        proof {
            assert(names[i as int] == name@);
        }
        insert_named(&mut children, name, child);
        proof {
            lemma_holds_names_step(before, children@, names, i as int, child);
            lemma_last_named_step(before, children@, names, i as int, child, child_rel);
        }
        i = i + 1;
    }
    proof {
        assert(names.take(blocks@.len() as int) =~= names);
        assert forall|i2: int, j: int|
            0 <= i2 < blocks@.len() && 0 <= j < children@.len() && children@[j].0@
                == blocks@[i2].name@ && last_named(
                block_names(blocks@),
                i2,
                blocks@.len() as int,
            ) implies concretizes(#[trigger] blocks@[i2], #[trigger] children@[j].1) by {
            assert(names[i2] == blocks@[i2].name@);
            assert(child_rel(i2, children@[j].1));
        }
    }
    children
}

impl<'a> Block<'a> {
    /// The concrete block of this block: children and ports under their
    /// names (a name given twice keeps what came last), connections with
    /// each end named by its port.
    pub fn make_concrete(&self) -> (r: Result<model::Block, ()>)
        ensures
            r matches Ok(m) && concretizes(*self, m),
        decreases self,
    {
        let children = concrete_blocks(&self.children);
        let ghost pnames = port_names(self.ports@);
        let ghost port_rel = |i2: int, m: model::Port| m == port_model(self.ports@[i2]);
        let mut ports: Vec<(String, model::Port)> = Vec::new();
        let mut p: usize = 0;
        while p < self.ports.len()
            invariant
                p <= self.ports@.len(),
                pnames == port_names(self.ports@),
                port_rel == (|i2: int, m: model::Port| m == port_model(self.ports@[i2])),
                holds_names(ports@, pnames.take(p as int)),
                forall|i2: int, j: int|
                    0 <= i2 < p && 0 <= j < ports@.len() && (#[trigger] ports@[j]).0@
                        == #[trigger] pnames[i2] && last_named(pnames, i2, p as int) ==> port_rel(
                        i2,
                        ports@[j].1,
                    ),
            decreases self.ports@.len() - p,
        {
            let port = self.ports[p];
            let value = model::Port { pins: port.pins, direction: port.direction, class: port.class };
            let ghost before = ports@;
            let name = port.name.to_owned();
            proof {
                assert(pnames[p as int] == name@);
            }
            insert_named(&mut ports, name, value);
            proof {
                lemma_holds_names_step(before, ports@, pnames, p as int, value);
                lemma_last_named_step(before, ports@, pnames, p as int, value, port_rel);
            }
            p = p + 1;
        }
        proof {
            assert(pnames.take(self.ports@.len() as int) =~= pnames);
            assert forall|i2: int, j: int|
                0 <= i2 < self.ports@.len() && 0 <= j < ports@.len() && ports@[j].0@
                    == self.ports@[i2].name@ && last_named(
                    port_names(self.ports@),
                    i2,
                    self.ports@.len() as int,
                ) implies (#[trigger] ports@[j]).1 == port_model(#[trigger] self.ports@[i2]) by {
                assert(pnames[i2] == self.ports@[i2].name@);
                assert(port_rel(i2, ports@[j].1));
            }
        }
        let mut connections: Vec<model::Connection> = Vec::new();
        let mut k: usize = 0;
        while k < self.connections.len()
            invariant
                k <= self.connections@.len(),
                connections@.len() == k,
                forall|c: int|
                    0 <= c < k ==> concretizes_connection(
                        #[trigger] self.connections@[c],
                        connections@[c],
                    ),
            decreases self.connections@.len() - k,
        {
            let conn = &self.connections[k];
            connections.push(
                model::Connection {
                    input: name_ends(&conn.input),
                    output: name_ends(&conn.output),
                    kind: conn.kind,
                },
            );
            k = k + 1;
        }
        Ok(model::Block { count: self.count, children, ports, connections, class: self.class })
    }
}

/// Every block of the tree holds each child and port name once and has no
/// connections, as a block read from a description of blocks by name does
/// before its connections are given.
pub open spec fn well_named(b: model::Block) -> bool
    decreases b,
{
    &&& names_unique(b.children@)
    &&& names_unique(b.ports@)
    &&& b.connections@.len() == 0
    &&& forall|i: int| 0 <= i < b.children@.len() ==> well_named(#[trigger] b.children@[i].1)
}

/// The named entries `x` and `y` hold the same names.
pub open spec fn same_names<V, W>(x: Seq<(String, V)>, y: Seq<(String, W)>) -> bool {
    &&& forall|j: int| 0 <= j < x.len() ==> names_entry(y, #[trigger] x[j].0@)
    &&& forall|i: int| 0 <= i < y.len() ==> names_entry(x, #[trigger] y[i].0@)
}

/// Some entry is held under `name`.
pub open spec fn names_entry<V>(entries: Seq<(String, V)>, name: Seq<char>) -> bool {
    exists|i: int| 0 <= i < entries.len() && #[trigger] entries[i].0@ == name
}

/// The blocks `m` and `b` agree by name: the same count, class and
/// connections, the same child names with the blocks under each name
/// agreeing in turn, and the same port names with the same port under each.
pub open spec fn same_by_name(m: model::Block, b: model::Block) -> bool
    decreases b,
{
    &&& m.count == b.count
    &&& m.class == b.class
    &&& m.connections@.len() == b.connections@.len()
    &&& names_unique(m.children@)
    &&& same_names(m.children@, b.children@)
    &&& forall|i: int, j: int|
        0 <= i < b.children@.len() && 0 <= j < m.children@.len() && m.children@[j].0@
            == b.children@[i].0@ ==> same_by_name(#[trigger] m.children@[j].1, #[trigger] b.children@[i].1)
    &&& names_unique(m.ports@)
    &&& same_names(m.ports@, b.ports@)
    &&& forall|i: int, j: int|
        0 <= i < b.ports@.len() && 0 <= j < m.ports@.len() && (#[trigger] m.ports@[j]).0@
            == (#[trigger] b.ports@[i]).0@ ==> m.ports@[j].1 == b.ports@[i].1
}

proof fn lemma_same_names<V, W>(x: Seq<(String, V)>, y: Seq<(String, W)>, names: Seq<Seq<char>>)
    requires
        holds_names(x, names),
        names.len() == y.len(),
        forall|i: int| 0 <= i < y.len() ==> #[trigger] names[i] == y[i].0@,
    ensures
        same_names(x, y),
{
    assert forall|j: int| 0 <= j < x.len() implies names_entry(y, #[trigger] x[j].0@) by {
        let i = choose|i: int| 0 <= i < names.len() && #[trigger] names[i] == x[j].0@;
        assert(y[i].0@ == x[j].0@);
    }
    assert forall|i: int| 0 <= i < y.len() implies names_entry(x, #[trigger] y[i].0@) by {
        assert(names[i] == y[i].0@);
        let j = choose|j: int| 0 <= j < x.len() && (#[trigger] x[j]).0@ == names[i];
        assert(x[j].0@ == y[i].0@);
    }
}

/// Making a block abstract and then concrete again gives back the block, by
/// name: where every block of the tree holds each name once and has no
/// connections, the concrete block of the abstract block of `b` agrees with
/// `b` (see [`same_by_name`]).
pub proof fn lemma_abstract_then_concrete(b: model::Block, name: Seq<char>, a: Block<'_>, m: model::Block)
    requires
        well_named(b),
        model::abstracts(b, name, a),
        concretizes(a, m),
    ensures
        same_by_name(m, b),
    decreases b,
{
    let an = block_names(a.children@);
    assert(blocks_concretized(a.children@, m.children@));
    assert(holds_names(m.children@, an));
    assert(holds_names(m.ports@, port_names(a.ports@)));
    assert forall|i: int| 0 <= i < b.children@.len() implies #[trigger] an[i] == b.children@[i].0@ && last_named(
        an,
        i,
        a.children@.len() as int,
    ) by {
        assert(model::abstracts(b.children@[i].1, b.children@[i].0@, a.children@[i]));
        assert forall|k: int| i < k < a.children@.len() implies #[trigger] an[k] != an[i] by {
            assert(model::abstracts(b.children@[k].1, b.children@[k].0@, a.children@[k]));
            assert(b.children@[i].0@ != b.children@[k].0@);
        }
    }
    assert forall|i: int, j: int|
        0 <= i < b.children@.len() && 0 <= j < m.children@.len() && m.children@[j].0@
            == b.children@[i].0@ implies same_by_name(#[trigger] m.children@[j].1, #[trigger] b.children@[i].1) by {
        assert(an[i] == b.children@[i].0@);
        assert(concretizes(a.children@[i], m.children@[j].1));
        assert(model::abstracts(b.children@[i].1, b.children@[i].0@, a.children@[i]));
        lemma_abstract_then_concrete(b.children@[i].1, b.children@[i].0@, a.children@[i], m.children@[j].1);
    }
    lemma_same_names(m.children@, b.children@, an);
    let pn = port_names(a.ports@);
    assert forall|i: int| 0 <= i < b.ports@.len() implies #[trigger] pn[i] == b.ports@[i].0@ && last_named(
        pn,
        i,
        a.ports@.len() as int,
    ) && port_model(a.ports@[i]) == b.ports@[i].1 by {
        assert(model::abstracts_port(b.ports@[i].1, b.ports@[i].0@, a.ports@[i]));
        assert forall|k: int| i < k < a.ports@.len() implies #[trigger] pn[k] != pn[i] by {
            assert(model::abstracts_port(b.ports@[k].1, b.ports@[k].0@, a.ports@[k]));
            assert(b.ports@[i].0@ != b.ports@[k].0@);
        }
    }
    assert forall|i: int, j: int|
        0 <= i < b.ports@.len() && 0 <= j < m.ports@.len() && (#[trigger] m.ports@[j]).0@
            == (#[trigger] b.ports@[i]).0@ implies m.ports@[j].1 == b.ports@[i].1 by {
        assert(pn[i] == b.ports@[i].0@);
        assert(m.ports@[j].1 == port_model(a.ports@[i]));
    }
    lemma_same_names(m.ports@, b.ports@, pn);
}

impl<'a> Architecture<'a> {
    /// The concrete architecture: its blocks under their names (a name
    /// given twice keeps the block that came last).
    pub fn make_concrete(&self) -> (r: Result<model::Architecture, ()>)
        ensures
            r matches Ok(m) && blocks_concretized(self.blocks@, m.blocks@),
    {
        Ok(model::Architecture { blocks: concrete_blocks(&self.blocks) })
    }
}

} // verus!
