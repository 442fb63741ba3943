//! The architecture data model: a module of components with ports, and the
//! references and connections between them.

use crate::database::{Database, DbKey};
use crate::key::OpaqueKey;
use crate::stringtable::{lemma_entry_appends, lemma_keys_distinct, lemma_nonempty, StringTable, TableKey};
use std::collections::HashMap;
use std::ops::Range;
use vstd::prelude::*;

pub mod component;
pub mod port;
pub mod view;

use component::ComponentBuilder;

verus! {

broadcast use vstd::std_specs::hash::group_hash_axioms;

/// The key of an interned string of a module.
#[derive(Clone, Copy, Debug, PartialEq, Eq, Structural, Hash)]
pub struct StringId(pub u32);

/// The key of a component of a module.
#[derive(Clone, Copy, Debug, PartialEq, Eq, Structural, Hash)]
pub struct ComponentId(pub u32);

/// The key of a reference from one component to another.
#[derive(Clone, Copy, Debug, PartialEq, Eq, Structural, Hash)]
pub struct ComponentRefId(pub u32);

/// The key of a port of a module.
#[derive(Clone, Copy, Debug, PartialEq, Eq, Structural, Hash)]
pub struct PortId(pub u32);

impl OpaqueKey for StringId {
    open spec fn spec_index(&self) -> nat {
        self.0.spec_index()
    }

    open spec fn spec_max_index() -> nat {
        <u32 as OpaqueKey>::spec_max_index()
    }

    proof fn lemma_max_index_fits() {
        <u32 as OpaqueKey>::lemma_max_index_fits();
    }

    proof fn lemma_index_determines_key(a: Self, b: Self) {
    }

    fn as_index(&self) -> (r: usize) {
        self.0.as_index()
    }

    fn from_index(idx: usize) -> (r: Self) {
        StringId(<u32 as OpaqueKey>::from_index(idx))
    }

    fn max_index() -> (r: usize) {
        <u32 as OpaqueKey>::max_index()
    }

    fn increment(&mut self) -> (r: Self) {
        self.0.increment();
        *self
    }
}

impl TableKey for StringId {

}

impl OpaqueKey for ComponentId {
    open spec fn spec_index(&self) -> nat {
        self.0.spec_index()
    }

    open spec fn spec_max_index() -> nat {
        <u32 as OpaqueKey>::spec_max_index()
    }

    proof fn lemma_max_index_fits() {
        <u32 as OpaqueKey>::lemma_max_index_fits();
    }

    proof fn lemma_index_determines_key(a: Self, b: Self) {
    }

    fn as_index(&self) -> (r: usize) {
        self.0.as_index()
    }

    fn from_index(idx: usize) -> (r: Self) {
        ComponentId(<u32 as OpaqueKey>::from_index(idx))
    }

    fn max_index() -> (r: usize) {
        <u32 as OpaqueKey>::max_index()
    }

    fn increment(&mut self) -> (r: Self) {
        self.0.increment();
        *self
    }
}

impl DbKey for ComponentId {

}

impl OpaqueKey for ComponentRefId {
    open spec fn spec_index(&self) -> nat {
        self.0.spec_index()
    }

    open spec fn spec_max_index() -> nat {
        <u32 as OpaqueKey>::spec_max_index()
    }

    proof fn lemma_max_index_fits() {
        <u32 as OpaqueKey>::lemma_max_index_fits();
    }

    proof fn lemma_index_determines_key(a: Self, b: Self) {
    }

    fn as_index(&self) -> (r: usize) {
        self.0.as_index()
    }

    fn from_index(idx: usize) -> (r: Self) {
        ComponentRefId(<u32 as OpaqueKey>::from_index(idx))
    }

    fn max_index() -> (r: usize) {
        <u32 as OpaqueKey>::max_index()
    }

    fn increment(&mut self) -> (r: Self) {
        self.0.increment();
        *self
    }
}

impl DbKey for ComponentRefId {

}

impl OpaqueKey for PortId {
    open spec fn spec_index(&self) -> nat {
        self.0.spec_index()
    }

    open spec fn spec_max_index() -> nat {
        <u32 as OpaqueKey>::spec_max_index()
    }

    proof fn lemma_max_index_fits() {
        <u32 as OpaqueKey>::lemma_max_index_fits();
    }

    proof fn lemma_index_determines_key(a: Self, b: Self) {
    }

    fn as_index(&self) -> (r: usize) {
        self.0.as_index()
    }

    fn from_index(idx: usize) -> (r: Self) {
        PortId(<u32 as OpaqueKey>::from_index(idx))
    }

    fn max_index() -> (r: usize) {
        <u32 as OpaqueKey>::max_index()
    }

    fn increment(&mut self) -> (r: Self) {
        self.0.increment();
        *self
    }
}

impl DbKey for PortId {

}

/// What a component implements.
#[derive(Clone, Copy, Debug, PartialEq, Eq, Structural)]
pub enum ComponentClass {
    Lut,
    Latch,
}

/// The direction of a port.
#[derive(Clone, Copy, Debug, PartialEq, Eq, Structural)]
pub enum PortKind {
    Input,
    Output,
}

/// The role of a port.
#[derive(Clone, Copy, Debug, PartialEq, Eq, Structural)]
pub enum PortClass {
    Clock,
    LutIn,
    LutOut,
    LatchIn,
    LatchOut,
}

/// A port of a component.
#[derive(Clone, Debug, PartialEq)]
pub struct PortData {
    pub name: StringId,
    pub parent: ComponentId,
    pub kind: PortKind,
    pub n_pins: usize,
    pub class: Option<PortClass>,
}

/// A range of pins of a port.
#[derive(Debug, PartialEq)]
pub struct PinRange {
    pub port: PortId,
    pub range: Range<u32>,
}

impl PinRange {
    pub fn new(port: PortId, range: Range<u32>) -> (r: Self)
        ensures
            r.port == port,
            r.range == range,
    {
        PinRange { port, range }
    }
}

/// The pins of a connection end.
pub type PortPins = PinRange;

/// A range of pins of a port known by name only.
#[derive(Debug, PartialEq)]
pub struct WeakPortPins {
    pub port: StringId,
    pub range: Range<u32>,
}

impl WeakPortPins {
    pub fn new(port: StringId, range: Range<u32>) -> (r: Self)
        ensures
            r.port == port,
            r.range == range,
    {
        WeakPortPins { port, range }
    }
}

/// A reference from a component to (`n_instances` instances of) another,
/// under an alias.
#[derive(Clone, Debug, PartialEq)]
pub struct ComponentRefData {
    pub component: ComponentId,
    pub alias: StringId,
    pub n_instances: usize,
}

impl ComponentRefData {
    pub fn new(component: ComponentId, alias: StringId, n_instances: usize) -> (r: Self)
        ensures
            r.component == component,
            r.alias == alias,
            r.n_instances == n_instances,
    {
        ComponentRefData { component, alias, n_instances }
    }
}

/// A reference to a component known by name only.
#[derive(Clone, Copy, Debug, PartialEq, Eq, Structural, Hash)]
pub struct ComponentWeakRef {
    pub component: StringId,
    pub n_instances: usize,
}

/// A connection between pins of components known by name only.
#[derive(Debug, PartialEq)]
pub struct WeakConnection {
    pub source_pins: WeakPortPins,
    pub source_component: Option<StringId>,
    pub sink_pins: WeakPortPins,
    pub sink_component: Option<StringId>,
}

/// A connection between pins of (references to) components.
#[derive(Debug, PartialEq)]
pub struct Connection {
    pub source_component: Option<ComponentRefId>,
    pub source_pins: PortPins,
    pub sink_component: Option<ComponentRefId>,
    pub sink_pins: PortPins,
}

impl Connection {
    pub fn new(
        source_pins: PortPins,
        sink_pins: PortPins,
        source_component: Option<ComponentRefId>,
        sink_component: Option<ComponentRefId>,
    ) -> (r: Self)
        ensures
            r.source_pins == source_pins,
            r.sink_pins == sink_pins,
            r.source_component == source_component,
            r.sink_component == sink_component,
    {
        Connection { source_component, source_pins, sink_component, sink_pins }
    }
}

/// A component: its name, its ports and references by name (keyed by the
/// raw string key), its connections and its class.
pub struct ComponentData {
    pub name: StringId,
    pub ports: HashMap<u32, PortId>,
    pub references: HashMap<u32, ComponentRefId>,
    pub connections: Vec<Connection>,
    pub class: Option<ComponentClass>,
}

impl ComponentData {
    /// The component's name.
    pub fn name<'m>(&self, module: &'m Module) -> (r: &'m str)
        requires
            module.wf(),
            module.valid_key(self.name.spec_index()),
        ensures
            r@ == module.text_of(self.name.spec_index()),
    {
        module.string(self.name)
    }
}

#[derive(Debug)]
pub enum ComponentBuildError {
    DuplicateComponent { module: String, component: String },
    DuplicateReference { component: String, reference: String },
    MissingField(&'static str),
}

#[derive(Debug)]
pub enum ConnectionBuildError {
    MissingField(&'static str),
}

#[derive(Debug)]
pub enum ModuleBuildError {
    DuplicateReference { component: String, reference: String },
    MissingField(&'static str),
    UndefinedReference { component: String, reference: String },
}

#[derive(Debug)]
pub enum PortBuildError {
    DuplicatePort { module: String, port: String },
    MissingField(&'static str),
}

/// A module: its name, its strings, and databases of its components, ports
/// and references, with the components indexed by name.
pub struct Module {
    pub name: StringId,
    pub strings: StringTable<StringId>,
    pub component_db: Database<ComponentData, ComponentId>,
    pub components: HashMap<u32, ComponentId>,
    pub port_db: Database<PortData, PortId>,
    pub reference_db: Database<ComponentRefData, ComponentRefId>,
}

impl Module {
    /// The text of the raw string key `k`: empty for key 0.
    pub open spec fn text_of(&self, k: nat) -> Seq<char> {
        if k == 0 {
            Seq::empty()
        } else {
            self.strings.strings()[k - 1]
        }
    }

    /// `k` is a key of this module's strings (0 stands for the empty string).
    pub open spec fn valid_key(&self, k: nat) -> bool {
        k <= self.strings.strings().len()
    }

    /// The module's invariant: its string table is well formed, and every
    /// name it holds is one of its strings, every component key it holds is
    /// a key of its component database.
    pub open spec fn wf(&self) -> bool {
        &&& self.strings.wf()
        &&& self.valid_key(self.name.spec_index())
        &&& forall|i: int|
            0 <= i < self.component_db@.len() ==> self.valid_key(
                (#[trigger] self.component_db@[i]).name.spec_index(),
            )
        &&& forall|i: int|
            0 <= i < self.port_db@.len() ==> self.valid_key(
                (#[trigger] self.port_db@[i]).name.spec_index(),
            )
        &&& forall|i: int|
            0 <= i < self.reference_db@.len() ==> self.valid_key(
                (#[trigger] self.reference_db@[i]).alias.spec_index(),
            ) && self.reference_db@[i].component.spec_index() < self.component_db@.len()
        &&& forall|k: u32| #[trigger]
            self.components@.contains_key(k) ==> self.valid_key(k as nat)
                && self.components@[k].spec_index() < self.component_db@.len()
    }

    /// The module's name.
    pub open spec fn spec_name(&self) -> Seq<char> {
        self.text_of(self.name.spec_index())
    }

    /// There is room to intern `n` more strings.
    pub open spec fn room(&self, n: nat) -> bool {
        self.strings.strings().len() + n <= <StringId as OpaqueKey>::spec_max_index()
    }

    /// The key of the text `s`, where `s` is interned (or empty).
    pub open spec fn key_of(&self, s: Seq<char>) -> nat {
        choose|k: nat| self.valid_key(k) && self.text_of(k) == s
    }

    /// A component of the module is named `s`.
    pub open spec fn has_component_named(&self, s: Seq<char>) -> bool {
        exists|k: u32| #[trigger] self.components@.contains_key(k) && self.text_of(k as nat) == s
    }

    /// `later` holds the strings of `self`, and maybe more after them.
    pub open spec fn strings_grow_to(&self, later: &Module) -> bool {
        &&& self.strings.strings().len() <= later.strings.strings().len()
        &&& later.strings.strings().subrange(0, self.strings.strings().len() as int)
            == self.strings.strings()
    }

    /// Interns `s` in the module's strings.
    pub(crate) fn intern(&mut self, s: &str) -> (r: StringId)
        requires
            old(self).wf(),
            s@.len() == 0 || old(self).room(1),
        ensures
            final(self).wf(),
            final(self).valid_key(r.spec_index()),
            final(self).text_of(r.spec_index()) == s@,
            old(self).strings_grow_to(final(self)),
            final(self).strings.strings().len() <= old(self).strings.strings().len() + 1,
            s@.len() == 0 ==> final(self).strings.strings() == old(self).strings.strings(),
            final(self).name == old(self).name,
            final(self).component_db == old(self).component_db,
            final(self).components == old(self).components,
            final(self).port_db == old(self).port_db,
            final(self).reference_db == old(self).reference_db,
    {
        let ghost before = self.strings.strings();
        let r = self.strings.entry(s);
        proof {
            lemma_entry_appends::<StringId>(before, self.strings.strings(), s@);
        }
        r
    }

    /// An empty module named `name`.
    pub fn new(name: &str) -> (r: Self)
        ensures
            r.wf(),
            r.spec_name() == name@,
            r.component_db@.len() == 0,
            r.port_db@.len() == 0,
            r.reference_db@.len() == 0,
            r.components@ == Map::<u32, ComponentId>::empty(),
            r.strings.strings().len() <= 1,
    {
        let mut strings: StringTable<StringId> = StringTable::default();
        proof {
            <u32 as OpaqueKey>::lemma_max_index_fits();
        }
        let name = strings.entry(name);
        Module {
            name,
            strings,
            component_db: Database::default(),
            components: HashMap::new(),
            port_db: Database::default(),
            reference_db: Database::default(),
        }
    }

    /// The module's name.
    pub fn name(&self) -> (r: &str)
        requires
            self.wf(),
        ensures
            r@ == self.spec_name(),
    {
        self.strings.lookup(self.name)
    }

    /// The text of the string key `key`.
    pub fn string(&self, key: StringId) -> (r: &str)
        requires
            self.wf(),
            self.valid_key(key.spec_index()),
        ensures
            r@ == self.text_of(key.spec_index()),
    {
        self.strings.lookup(key)
    }

    /// Whether there is room to intern `n` more strings.
    pub fn has_room(&self, n: usize) -> (r: bool)
        ensures
            r == self.room(n as nat),
    {
        proof {
            <StringId as OpaqueKey>::lemma_max_index_fits();
        }
        let len = self.strings.len();
        let max = <StringId as OpaqueKey>::max_index();
        len <= max && n <= max - len
    }

    /// Renames the module, interning the new name.
    pub fn rename(&mut self, name: &str)
        requires
            old(self).wf(),
            old(self).room(1),
        ensures
            final(self).wf(),
            final(self).spec_name() == name@,
            old(self).strings_grow_to(final(self)),
            final(self).component_db@ == old(self).component_db@,
            final(self).port_db@ == old(self).port_db@,
            final(self).reference_db@ == old(self).reference_db@,
            final(self).components@ == old(self).components@,
    {
        self.name = self.intern(name);
    }

    /// The component data of `component`.
    pub fn component(&self, component: ComponentId) -> (r: &ComponentData)
        requires
            component.spec_index() < self.component_db@.len(),
        ensures
            *r == self.component_db@[component.spec_index() as int],
    {
        self.component_db.lookup(component)
    }

    /// The port data of `port`.
    pub fn port(&self, port: PortId) -> (r: &PortData)
        requires
            port.spec_index() < self.port_db@.len(),
        ensures
            *r == self.port_db@[port.spec_index() as int],
    {
        self.port_db.lookup(port)
    }

    /// The component data of `component`, if the module names it among its
    /// components.
    pub fn get_component(&self, component: ComponentId) -> (r: Option<&ComponentData>)
        requires
            self.wf(),
        ensures
            self.components@.values().contains(component) ==> r == Some(
                &self.component_db@[component.spec_index() as int],
            ),
            !self.components@.values().contains(component) ==> r is None,
    {
        if has_component_value(&self.components, component) {
            proof {
                let k = choose|k: u32|
                    #[trigger] self.components@.contains_key(k) && self.components@[k] == component;
                assert(self.components@.contains_key(k));
            }
            Some(self.component_db.lookup(component))
        } else {
            None
        }
    }
}

/// Growing the strings keeps a valid key valid, with its text.
pub proof fn lemma_key_kept(a: &Module, b: &Module, k: nat)
    requires
        a.strings_grow_to(b),
        a.valid_key(k),
    ensures
        b.valid_key(k),
        b.text_of(k) == a.text_of(k),
{
    if k > 0 {
        assert(b.strings.strings().subrange(0, a.strings.strings().len() as int)[k - 1]
            == b.strings.strings()[k - 1]);
    }
}

/// The strings of a module grow to themselves.
pub proof fn lemma_grow_refl(m: &Module)
    ensures
        m.strings_grow_to(m),
{
    assert(m.strings.strings().subrange(0, m.strings.strings().len() as int) =~= m.strings.strings());
}

/// Growing the strings twice grows them.
pub proof fn lemma_grow_trans(a: &Module, b: &Module, c: &Module)
    requires
        a.strings_grow_to(b),
        b.strings_grow_to(c),
    ensures
        a.strings_grow_to(c),
{
    assert(c.strings.strings().subrange(0, a.strings.strings().len() as int) =~= c.strings.strings().subrange(
        0,
        b.strings.strings().len() as int,
    ).subrange(0, a.strings.strings().len() as int));
}

/// The key of a valid key's text is that key.
pub proof fn lemma_key_of(m: &Module, k: nat)
    requires
        m.wf(),
        m.valid_key(k),
    ensures
        m.key_of(m.text_of(k)) == k,
{
    let j = m.key_of(m.text_of(k));
    assert(m.valid_key(k) && m.text_of(k) == m.text_of(k));
    lemma_same_text_same_key(m, j, k);
}

/// Growing the strings keeps the text of every key that was valid, and so
/// which names the components have.
pub proof fn lemma_texts_kept(a: &Module, b: &Module)
    requires
        a.wf(),
        a.strings_grow_to(b),
        b.components@ == a.components@,
    ensures
        forall|k: nat| a.valid_key(k) ==> b.valid_key(k) && #[trigger] b.text_of(k) == a.text_of(k),
        forall|s: Seq<char>| #[trigger] b.has_component_named(s) == a.has_component_named(s),
{
    assert forall|k: nat| a.valid_key(k) implies b.valid_key(k) && #[trigger] b.text_of(k)
        == a.text_of(k) by {
        if k > 0 {
            assert(b.strings.strings().subrange(0, a.strings.strings().len() as int)[k - 1]
                == b.strings.strings()[k - 1]);
        }
    }
    assert forall|s: Seq<char>| #[trigger] b.has_component_named(s) == a.has_component_named(s) by {
        if b.has_component_named(s) {
            let k = choose|k: u32| #[trigger] b.components@.contains_key(k) && b.text_of(k as nat) == s;
            assert(a.components@.contains_key(k));
        }
        if a.has_component_named(s) {
            let k = choose|k: u32| #[trigger] a.components@.contains_key(k) && a.text_of(k as nat) == s;
            assert(b.components@.contains_key(k));
        }
    }
}

/// In a well-formed module, the key of a text is the only key with that
/// text: a component key has the text `s` exactly when some component is
/// named `s`.
pub proof fn lemma_named_key(m: &Module, k: nat, s: Seq<char>)
    requires
        m.wf(),
        m.valid_key(k),
        m.text_of(k) == s,
        k <= u32::MAX,
    ensures
        m.components@.contains_key(k as u32) == m.has_component_named(s),
{
    if m.has_component_named(s) {
        let j = choose|j: u32| #[trigger] m.components@.contains_key(j) && m.text_of(j as nat) == s;
        assert(m.valid_key(j as nat));
        lemma_same_text_same_key(m, j as nat, k);
    }
}

/// Two valid keys with the same text are equal.
pub proof fn lemma_same_text_same_key(m: &Module, j: nat, k: nat)
    requires
        m.wf(),
        m.valid_key(j),
        m.valid_key(k),
        m.text_of(j) == m.text_of(k),
    ensures
        j == k,
{
    if j > 0 {
        lemma_nonempty(m.strings, j);
    }
    if k > 0 {
        lemma_nonempty(m.strings, k);
    }
    if j > 0 && k > 0 {
        lemma_keys_distinct(m.strings, j, k);
    }
}

/// `id` is one of the values of `m`.
fn has_component_value(m: &HashMap<u32, ComponentId>, id: ComponentId) -> (r: bool)
    ensures
        r == m@.values().contains(id),
{
    broadcast use vstd::seq_lib::group_seq_properties;

    let ghost vals = m@.values();
    let mut found = false;
    for v in it: m.values()
        invariant
            found == (exists|j: int| 0 <= j < it.index() && it.seq().unref()[j] == id),
            it.seq().unref().to_set() == vals,
        ensures
            found == vals.contains(id),
    {
        let ghost s = it.seq().unref();
        let ghost i = it.index() as int;
        proof {
            assert(*v == s[i]);
        }
        if v.0 == id.0 {
            found = true;
        }
        proof {
            if *v == id {
                assert(s[i] == id);
            }
        }
    }
    found
}

/// `id` is one of the values of `m`.
fn has_port_value(m: &HashMap<u32, PortId>, id: PortId) -> (r: bool)
    ensures
        r == m@.values().contains(id),
{
    broadcast use vstd::seq_lib::group_seq_properties;

    let ghost vals = m@.values();
    let mut found = false;
    for v in it: m.values()
        invariant
            found == (exists|j: int| 0 <= j < it.index() && it.seq().unref()[j] == id),
            it.seq().unref().to_set() == vals,
        ensures
            found == vals.contains(id),
    {
        let ghost s = it.seq().unref();
        let ghost i = it.index() as int;
        proof {
            assert(*v == s[i]);
        }
        if v.0 == id.0 {
            found = true;
        }
        proof {
            if *v == id {
                assert(s[i] == id);
            }
        }
    }
    found
}

/// Why a reference could not be resolved: the component it names is not in
/// the module, or its alias is already used.
#[derive(Clone, Copy, Debug, PartialEq, Eq, Structural)]
pub enum ResolveFailure {
    Undefined(StringId),
    Duplicate(StringId),
}

/// Resolving `refs[i..]` for a component whose references are `map`, with
/// `db` the references of the module: each names a component of `m`, gets
/// its alias (or that component's name) and a new reference; it stops at
/// the first reference that names no component or reuses an alias. The
/// result is the references of the module, the component's references and
/// what failed, if anything.
pub open spec fn resolve_from(
    m: Module,
    refs: Seq<(Option<StringId>, ComponentWeakRef)>,
    i: int,
    db: Seq<ComponentRefData>,
    map: Map<u32, ComponentRefId>,
) -> (Seq<ComponentRefData>, Map<u32, ComponentRefId>, Option<ResolveFailure>)
    decreases refs.len() - i,
{
    if i < 0 || i >= refs.len() {
        (db, map, None)
    } else {
        let (a, w) = refs[i];
        if !m.components@.contains_key(w.component.0) {
            (db, map, Some(ResolveFailure::Undefined(w.component)))
        } else {
            let target = m.components@[w.component.0];
            let alias = match a {
                Some(k) => k,
                None => m.component_db@[target.spec_index() as int].name,
            };
            let id = ComponentRefId(db.len() as u32);
            let db2 = db.push(ComponentRefData { component: target, alias, n_instances: w.n_instances });
            let map2 = map.insert(alias.0, id);
            if map.contains_key(alias.0) {
                (db2, map2, Some(ResolveFailure::Duplicate(alias)))
            } else {
                resolve_from(m, refs, i + 1, db2, map2)
            }
        }
    }
}

/// The alias a reference is held under: the one it is given, else the name
/// of the component it names.
pub open spec fn ref_alias(m: Module, r: (Option<StringId>, ComponentWeakRef)) -> StringId {
    match r.0 {
        Some(k) => k,
        None => m.component_db@[m.components@[r.1.component.0].spec_index() as int].name,
    }
}

/// The references `refs[i..]` can all be resolved against `m` beside the
/// references `map`: each names a component of `m`, and no two of them, nor
/// any of them and `map`, share an alias.
pub open spec fn resolvable(
    m: Module,
    refs: Seq<(Option<StringId>, ComponentWeakRef)>,
    i: int,
    map: Map<u32, ComponentRefId>,
) -> bool {
    &&& forall|k: int| i <= k < refs.len() ==> m.components@.contains_key((#[trigger] refs[k]).1.component.0)
    &&& forall|k: int| i <= k < refs.len() ==> !map.contains_key(ref_alias(m, #[trigger] refs[k]).0)
    &&& forall|k: int, k2: int|
        i <= k < k2 < refs.len() ==> ref_alias(m, #[trigger] refs[k]).0 != ref_alias(m, #[trigger] refs[k2]).0
}

/// Resolving references adds one module reference per given reference, in
/// order, and holds each in the component's references under its alias;
/// it succeeds exactly when every reference names a component and no alias
/// is used twice (see [`resolvable`]). On success the module's references
/// grow by the number of references given, the `k`-th new one refers to the
/// component named by `refs[k]` with its alias and instance count, the
/// component's references map that alias to it, and what the component's
/// references held before stays.
pub proof fn lemma_resolve_adds_each(
    m: Module,
    refs: Seq<(Option<StringId>, ComponentWeakRef)>,
    i: int,
    db: Seq<ComponentRefData>,
    map: Map<u32, ComponentRefId>,
)
    requires
        0 <= i <= refs.len(),
    ensures
        (resolve_from(m, refs, i, db, map).2 is None) == resolvable(m, refs, i, map),
        resolvable(m, refs, i, map) ==> ({
            let (db2, map2, _) = resolve_from(m, refs, i, db, map);
            &&& db2.len() == db.len() + (refs.len() - i)
            &&& forall|j: int| 0 <= j < db.len() ==> #[trigger] db2[j] == db[j]
            &&& forall|k: int|
                i <= k < refs.len() ==> #[trigger] db2[db.len() + (k - i)] == (ComponentRefData {
                    component: m.components@[refs[k].1.component.0],
                    alias: ref_alias(m, refs[k]),
                    n_instances: refs[k].1.n_instances,
                })
            &&& forall|k: int|
                i <= k < refs.len() ==> map2.contains_key(ref_alias(m, #[trigger] refs[k]).0) && map2[ref_alias(
                    m,
                    refs[k],
                ).0] == ComponentRefId((db.len() + (k - i)) as u32)
            &&& forall|key: u32| #[trigger] map.contains_key(key) ==> map2.contains_key(key) && map2[key] == map[key]
            &&& forall|key: u32|
                #[trigger] map2.contains_key(key) ==> map.contains_key(key) || exists|k: int|
                    i <= k < refs.len() && ref_alias(m, #[trigger] refs[k]).0 == key
        }),
    decreases refs.len() - i,
{
    if i < refs.len() {
        let (a, w) = refs[i];
        if m.components@.contains_key(w.component.0) {
            let target = m.components@[w.component.0];
            let alias = ref_alias(m, refs[i]);
            let id = ComponentRefId(db.len() as u32);
            let db1 = db.push(ComponentRefData { component: target, alias, n_instances: w.n_instances });
            let map1 = map.insert(alias.0, id);
            if !map.contains_key(alias.0) {
                lemma_resolve_adds_each(m, refs, i + 1, db1, map1);
                if resolvable(m, refs, i + 1, map1) {
                    assert(resolvable(m, refs, i, map)) by {
                        assert forall|k: int| i <= k < refs.len() implies !map.contains_key(
                            ref_alias(m, #[trigger] refs[k]).0,
                        ) by {
                            if k > i {
                                assert(!map1.contains_key(ref_alias(m, refs[k]).0));
                            }
                        }
                        assert forall|k: int, k2: int| i <= k < k2 < refs.len() implies ref_alias(
                            m,
                            #[trigger] refs[k],
                        ).0 != ref_alias(m, #[trigger] refs[k2]).0 by {
                            if k == i {
                                assert(!map1.contains_key(ref_alias(m, refs[k2]).0));
                            }
                        }
                    }
                    let (db2, map2, _) = resolve_from(m, refs, i, db, map);
                    assert(db2[db.len() + (i - i)] == db1[db.len() as int]);
                    assert(map2.contains_key(alias.0) && map2[alias.0] == id) by {
                        assert(map1.contains_key(alias.0));
                    }
                    assert(db.len() + (i - i) == db.len());
                    assert forall|key: u32| #[trigger] map.contains_key(key) implies map2.contains_key(key)
                        && map2[key] == map[key] by {
                        assert(key != alias.0);
                        assert(map1.contains_key(key) && map1[key] == map[key]);
                    }
                    assert forall|key: u32| #[trigger] map2.contains_key(key) implies map.contains_key(key)
                        || exists|k: int| i <= k < refs.len() && ref_alias(m, #[trigger] refs[k]).0 == key by {
                        if !map1.contains_key(key) {
                        } else if key == alias.0 {
                            assert(ref_alias(m, refs[i]).0 == key);
                        }
                    }
                } else {
                    assert(!resolvable(m, refs, i, map)) by {
                        if resolvable(m, refs, i, map) {
                            assert forall|k: int| i + 1 <= k < refs.len() implies !map1.contains_key(
                                ref_alias(m, #[trigger] refs[k]).0,
                            ) by {
                                assert(ref_alias(m, refs[i]).0 != ref_alias(m, refs[k]).0);
                            }
                        }
                    }
                }
            } else {
                assert(!map.contains_key(ref_alias(m, refs[i]).0) == false);
            }
        } else {
            assert(!m.components@.contains_key(refs[i].1.component.0));
        }
    }
}

/// Every key of the references is a valid key of `m`.
pub open spec fn refs_fit(m: Module, refs: Seq<(Option<StringId>, ComponentWeakRef)>) -> bool {
    forall|i: int|
        0 <= i < refs.len() ==> m.valid_key((#[trigger] refs[i]).1.component.spec_index()) && (
        refs[i].0 matches Some(k) ==> m.valid_key(k.spec_index()))
}

/// Builds a module: set its name, then finish.
pub struct ModuleBuilder {
    module: Module,
    name_is_set: bool,
}

impl ModuleBuilder {
    pub closed spec fn spec_module(&self) -> Module {
        self.module
    }

    pub closed spec fn spec_name_is_set(&self) -> bool {
        self.name_is_set
    }

    pub fn new() -> (r: Self)
        ensures
            r.spec_module().wf(),
            r.spec_module().spec_name() == Seq::<char>::empty(),
            !r.spec_name_is_set(),
    {
        let e = "";
        proof {
            reveal_strlit("");
        }
        ModuleBuilder { module: Module::new(e), name_is_set: false }
    }

    pub fn set_name(&mut self, name: &str)
        requires
            old(self).spec_module().wf(),
            old(self).spec_module().room(1),
        ensures
            final(self).spec_module().wf(),
            final(self).spec_module().spec_name() == name@,
            final(self).spec_name_is_set(),
    {
        self.module.rename(name);
        self.name_is_set = true;
    }

    pub fn is_name_set(&self) -> (r: bool)
        ensures
            r == self.spec_name_is_set(),
    {
        self.name_is_set
    }

    /// The module being built, to change.
    pub fn module_mut(&mut self) -> (r: &mut Module)
        ensures
            *r == old(self).spec_module(),
            final(self).spec_module() == *final(r),
            final(self).spec_name_is_set() == old(self).spec_name_is_set(),
    {
        &mut self.module
    }

    /// A builder of a component of the module (see [`ComponentBuilder::new`]).
    pub fn add_component(&mut self) -> (r: ComponentBuilder)
        requires
            old(self).spec_module().wf(),
            !old(self).spec_module().has_component_named(Seq::empty()),
        ensures
            final(self).spec_module().wf(),
            final(self).spec_module().strings.strings() == old(self).spec_module().strings.strings(),
            final(self).spec_module().component_db == old(self).spec_module().component_db,
            final(self).spec_module().components == old(self).spec_module().components,
            final(self).spec_module().reference_db == old(self).spec_module().reference_db,
            final(self).spec_name_is_set() == old(self).spec_name_is_set(),
            r.fits(&final(self).spec_module()),
            r.spec_data().name.spec_index() == 0,
            !r.spec_name_is_set(),
    {
        ComponentBuilder::new(&mut self.module)
    }

    /// Whether `references` can be resolved for `component` (see
    /// [`ModuleBuilder::resolve_references`]): the component is one of the
    /// module's, every key is one of its strings, and there are keys left for
    /// as many more references.
    pub fn can_resolve(
        &self,
        component: ComponentId,
        references: &[(Option<StringId>, ComponentWeakRef)],
    ) -> (r: bool)
        ensures
            r == (component.spec_index() < self.spec_module().component_db@.len() && refs_fit(
                self.spec_module(),
                references@,
            ) && self.spec_module().reference_db@.len() + references@.len()
                < <ComponentRefId as OpaqueKey>::spec_max_index()),
    {
        proof {
            <ComponentRefId as OpaqueKey>::lemma_max_index_fits();
            <StringId as OpaqueKey>::lemma_max_index_fits();
            <ComponentId as OpaqueKey>::lemma_max_index_fits();
        }
        if component.as_index() >= self.module.component_db.len() {
            return false;
        }
        let n_strings = self.module.strings.len();
        let mut i: usize = 0;
        while i < references.len()
            invariant
                i <= references@.len(),
                n_strings == self.spec_module().strings.strings().len(),
                forall|k: int|
                    0 <= k < i ==> self.spec_module().valid_key(
                        (#[trigger] references@[k]).1.component.spec_index(),
                    ) && (references@[k].0 matches Some(a) ==> self.spec_module().valid_key(
                        a.spec_index(),
                    )),
            decreases references@.len() - i,
        {
            let entry = &references[i];
            if entry.1.component.as_index() > n_strings {
                return false;
            }
            match entry.0 {
                Some(alias) => {
                    if alias.as_index() > n_strings {
                        return false;
                    }
                },
                None => {},
            }
            i = i + 1;
        }
        let max = <ComponentRefId as OpaqueKey>::max_index();
        let used = self.module.reference_db.len();
        used < max && references.len() < max - used
    }

    /// Resolves the references of `component`, each given with its alias if
    /// it has one, against the components of the module (see
    /// [`resolve_from`]).
    pub fn resolve_references(
        &mut self,
        component: ComponentId,
        references: &[(Option<StringId>, ComponentWeakRef)],
    ) -> (r: Result<(), ModuleBuildError>)
        requires
            old(self).spec_module().wf(),
            component.spec_index() < old(self).spec_module().component_db@.len(),
            refs_fit(old(self).spec_module(), references@),
            old(self).spec_module().reference_db@.len() + references@.len()
                < <ComponentRefId as OpaqueKey>::spec_max_index(),
        ensures
            ({
                let m0 = old(self).spec_module();
                let m1 = final(self).spec_module();
                let c = component.spec_index() as int;
                let (db, map, failure) = resolve_from(
                    m0,
                    references@,
                    0,
                    m0.reference_db@,
                    m0.component_db@[c].references@,
                );
                &&& m1.wf()
                &&& m1.strings == m0.strings
                &&& m1.name == m0.name
                &&& m1.components == m0.components
                &&& m1.port_db == m0.port_db
                &&& m1.reference_db@ == db
                &&& m1.component_db@.len() == m0.component_db@.len()
                &&& forall|j: int|
                    0 <= j < m0.component_db@.len() && j != c ==> m1.component_db@[j]
                        == m0.component_db@[j]
                &&& m1.component_db@[c].references@ == map
                &&& m1.component_db@[c].name == m0.component_db@[c].name
                &&& m1.component_db@[c].ports == m0.component_db@[c].ports
                &&& m1.component_db@[c].connections == m0.component_db@[c].connections
                &&& m1.component_db@[c].class == m0.component_db@[c].class
                &&& failure is None ==> r is Ok
                &&& failure matches Some(ResolveFailure::Undefined(k)) ==> (r matches Err(
                    ModuleBuildError::UndefinedReference { component: cn, reference: rn },
                ) && cn@ == m0.text_of(m0.component_db@[c].name.spec_index()) && rn@ == m0.text_of(
                    k.spec_index(),
                ))
                &&& failure matches Some(ResolveFailure::Duplicate(k)) ==> (r matches Err(
                    ModuleBuildError::DuplicateReference { component: cn, reference: rn },
                ) && cn@ == m0.text_of(m0.component_db@[c].name.spec_index()) && rn@ == m0.text_of(
                    k.spec_index(),
                ))
            }),
            final(self).spec_name_is_set() == old(self).spec_name_is_set(),
    {
        let ghost m0 = self.module;
        let ghost c = component.spec_index() as int;
        let ghost total = resolve_from(
            m0,
            references@,
            0,
            m0.reference_db@,
            m0.component_db@[c].references@,
        );
        let mut i: usize = 0;
        while i < references.len()
            invariant
                i <= references@.len(),
                self.module.wf(),
                component.spec_index() < self.module.component_db@.len(),
                refs_fit(m0, references@),
                m0 == old(self).spec_module(),
                c == component.spec_index() as int,
                total == resolve_from(
                    m0,
                    references@,
                    0,
                    m0.reference_db@,
                    m0.component_db@[c].references@,
                ),
                m0.wf(),
                self.module.reference_db@.len() == m0.reference_db@.len() + i,
                m0.reference_db@.len() + references@.len()
                    < <ComponentRefId as OpaqueKey>::spec_max_index(),
                self.module.strings == m0.strings,
                self.module.name == m0.name,
                self.module.components == m0.components,
                self.module.port_db == m0.port_db,
                self.name_is_set == old(self).spec_name_is_set(),
                self.module.component_db@.len() == m0.component_db@.len(),
                forall|j: int|
                    0 <= j < m0.component_db@.len() && j != c ==> self.module.component_db@[j]
                        == m0.component_db@[j],
                self.module.component_db@[c].name == m0.component_db@[c].name,
                self.module.component_db@[c].ports == m0.component_db@[c].ports,
                self.module.component_db@[c].connections == m0.component_db@[c].connections,
                self.module.component_db@[c].class == m0.component_db@[c].class,
                resolve_from(
                    m0,
                    references@,
                    i as int,
                    self.module.reference_db@,
                    self.module.component_db@[c].references@,
                ) == total,
            decreases references@.len() - i,
        {
            let (alias, weak) = references[i];
            proof {
                assert(refs_fit(m0, references@));
                assert(m0.valid_key(references@[i as int].1.component.spec_index()));
            }
            let target = match self.module.components.get(&weak.component.0) {
                Some(target) => *target,
                None => {
                    let component_name = self.module.component(component).name;
                    let component = self.module.string(component_name).to_owned();
                    let reference = self.module.string(weak.component).to_owned();
                    return Err(ModuleBuildError::UndefinedReference { component, reference });
                },
            };
            let alias = match alias {
                Some(alias) => alias,
                None => self.module.component(target).name,
            };
            let ghost db0 = self.module.reference_db@;
            let reference = self.module.reference_db.entry(
                ComponentRefData::new(target, alias, weak.n_instances),
            );
            proof {
                assert(reference == ComponentRefId(db0.len() as u32));
                assert forall|j: int| 0 <= j < self.module.reference_db@.len() implies self.module.valid_key(
                    (#[trigger] self.module.reference_db@[j]).alias.spec_index(),
                ) && self.module.reference_db@[j].component.spec_index()
                    < self.module.component_db@.len() by {
                    if j < db0.len() {
                        assert(self.module.reference_db@[j] == db0[j]);
                    }
                }
            }
            let ghost cdb0 = self.module.component_db@;
            let data = self.module.component_db.lookup_mut(component);
            let previous = data.references.insert(alias.0, reference);
            proof {
                assert forall|j: int| 0 <= j < self.module.component_db@.len() implies self.module.valid_key(
                    (#[trigger] self.module.component_db@[j]).name.spec_index(),
                ) by {
                    assert(self.module.component_db@[j].name == cdb0[j].name);
                }
            }
            if previous.is_some() {
                let component_name = self.module.component(component).name;
                let component = self.module.string(component_name).to_owned();
                let reference = self.module.string(alias).to_owned();
                return Err(ModuleBuildError::DuplicateReference { component, reference });
            }
            i = i + 1;
        }
        Ok(())
    }

    pub fn is_components_empty(&self) -> (r: bool)
        ensures
            r == (self.spec_module().components@.len() == 0),
    {
        self.module.components.is_empty()
    }

    /// The module, once its name is set.
    pub fn finish(self) -> (r: Result<Module, ModuleBuildError>)
        ensures
            self.spec_name_is_set() ==> (r matches Ok(m) && m == self.spec_module()),
            !self.spec_name_is_set() ==> (r matches Err(ModuleBuildError::MissingField(f)) && f@
                == "name"@),
    {
        if !self.name_is_set {
            return Err(ModuleBuildError::MissingField("name"));
        }
        Ok(self.module)
    }
}

} // verus!
