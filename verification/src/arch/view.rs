//! Components, references and ports seen through the module that holds
//! them.

use super::{
    ComponentClass, ComponentData, ComponentId, ComponentRefData, ComponentRefId, Module, PinRange,
    PortClass, PortData, PortId, PortKind,
};
use crate::key::OpaqueKey;
use std::collections::HashMap;
use std::ops::Range;
use vstd::prelude::*;

verus! {

broadcast use vstd::std_specs::hash::group_hash_axioms;

/// Every port the component holds is a port of the module.
pub open spec fn ports_in(module: &Module, c: ComponentData) -> bool {
    forall|k: u32| #[trigger]
        c.ports@.contains_key(k) ==> c.ports@[k].spec_index() < module.port_db@.len()
}

/// Every reference the component holds is a reference of the module, under
/// an alias that is one of the module's strings.
pub open spec fn references_in(module: &Module, c: ComponentData) -> bool {
    forall|k: u32| #[trigger]
        c.references@.contains_key(k) ==> c.references@[k].spec_index()
            < module.reference_db@.len() && module.valid_key(k as nat)
}

/// A component of a module.
pub struct Component<'m> {
    module: &'m Module,
    id: ComponentId,
    data: &'m ComponentData,
}

impl<'m> Component<'m> {
    pub closed spec fn spec_module(&self) -> Module {
        *self.module
    }

    pub closed spec fn spec_id(&self) -> ComponentId {
        self.id
    }

    /// The component's data is the module's data for its id.
    pub closed spec fn inv(&self) -> bool {
        &&& self.id.spec_index() < self.module.component_db@.len()
        &&& *self.data == self.module.component_db@[self.id.spec_index() as int]
    }

    /// The component's data.
    pub open spec fn spec_data(&self) -> ComponentData {
        self.spec_module().component_db@[self.spec_id().spec_index() as int]
    }

    pub(crate) fn new(module: &'m Module, id: ComponentId) -> (r: Self)
        requires
            id.spec_index() < module.component_db@.len(),
        ensures
            r.inv(),
            r.spec_module() == *module,
            r.spec_id() == id,
    {
        Component { module, id, data: module.component(id) }
    }

    /// The component's name.
    pub fn name(&self) -> (r: &'m str)
        requires
            self.inv(),
            self.spec_module().wf(),
        ensures
            r@ == self.spec_module().text_of(self.spec_data().name.spec_index()),
    {
        self.data.name(self.module)
    }

    /// The component's ports, each once, in no set order.
    pub fn ports(&self) -> (r: Vec<Port<'m>>)
        requires
            self.inv(),
            ports_in(&self.spec_module(), self.spec_data()),
        ensures
            r@.len() == self.spec_data().ports@.len(),
            forall|i: int|
                0 <= i < r@.len() ==> (#[trigger] r@[i]).inv() && r@[i].spec_module()
                    == self.spec_module() && self.spec_data().ports@.values().contains(
                    r@[i].spec_id(),
                ),
            forall|p: PortId| #[trigger]
                self.spec_data().ports@.values().contains(p) ==> exists|i: int|
                    0 <= i < r@.len() && r@[i].spec_id() == p,
    {
        broadcast use vstd::seq_lib::group_seq_properties;

        let module = self.module;
        let ports: &'m HashMap<u32, PortId> = &self.data.ports;
        let mut r: Vec<Port<'m>> = Vec::new();
        for p in it: ports.values()
            invariant
                ports_in(module, self.spec_data()),
                *ports == self.spec_data().ports,
                *module == self.spec_module(),
                it.seq().unref().to_set() == ports@.values(),
                it.seq().len() == ports@.len(),
                r@.len() == it.index(),
                forall|i: int|
                    #![trigger r@[i]]
                    #![trigger it.seq().unref()[i]]
                    0 <= i < r@.len() ==> r@[i].inv() && r@[i].spec_module() == *module
                        && r@[i].spec_id() == it.seq().unref()[i],
            ensures
                r@.len() == ports@.len(),
                forall|i: int|
                    0 <= i < r@.len() ==> (#[trigger] r@[i]).inv() && r@[i].spec_module() == *module
                        && ports@.values().contains(r@[i].spec_id()),
                forall|q: PortId| #[trigger]
                    ports@.values().contains(q) ==> exists|i: int|
                        0 <= i < r@.len() && r@[i].spec_id() == q,
        {
            proof {
                let s = it.seq().unref();
                assert(*p == s[it.index() as int]);
                assert(s.contains(s[it.index() as int]));
                assert(ports@.values().contains(*p));
                let k = choose|k: u32| #[trigger] ports@.contains_key(k) && ports@[k] == *p;
                assert(ports@.contains_key(k));
            }
            r.push(Port::new(module, *p));
        }
        r
    }
}

impl<'m> Component<'m> {
    pub fn class(&self) -> (r: Option<ComponentClass>)
        requires
            self.inv(),
        ensures
            r == self.spec_data().class,
    {
        self.data.class
    }

    /// The component's references, each with its alias, in no set order.
    pub fn references(&self) -> (r: Vec<(&'m str, ComponentRef<'m>)>)
        requires
            self.inv(),
            self.spec_module().wf(),
            references_in(&self.spec_module(), self.spec_data()),
        ensures
            r@.len() == self.spec_data().references@.len(),
            forall|i: int|
                0 <= i < r@.len() ==> (#[trigger] r@[i]).1.inv() && r@[i].1.spec_module()
                    == self.spec_module() && exists|k: u32|
                    #![trigger self.spec_data().references@[k]]
                    self.spec_data().references@.contains_key(k)
                        && self.spec_data().references@[k] == r@[i].1.spec_id() && r@[i].0@
                        == self.spec_module().text_of(k as nat),
            forall|k: u32| #[trigger]
                self.spec_data().references@.contains_key(k) ==> exists|i: int|
                    0 <= i < r@.len() && r@[i].1.spec_id() == self.spec_data().references@[k],
    {
        broadcast use vstd::seq_lib::group_seq_properties;

        let module = self.module;
        let refs: &'m HashMap<u32, ComponentRefId> = &self.data.references;
        let mut r: Vec<(&'m str, ComponentRef<'m>)> = Vec::new();
        for entry in it: refs.iter()
            invariant
                references_in(module, self.spec_data()),
                *refs == self.spec_data().references,
                *module == self.spec_module(),
                module.wf(),
                it.seq().len() == refs@.len(),
                forall|j: int|
                    0 <= j < it.seq().len() ==> refs@.contains_key(*(#[trigger] it.seq()[j]).0)
                        && refs@[*it.seq()[j].0] == *it.seq()[j].1,
                forall|k: u32| #[trigger] refs@.contains_key(k) ==> it.seq().contains((&k, &refs@[k])),
                r@.len() == it.index(),
                forall|i: int|
                    #![trigger r@[i]]
                    #![trigger it.seq()[i]]
                    0 <= i < r@.len() ==> r@[i].1.inv() && r@[i].1.spec_module() == *module
                        && r@[i].1.spec_id() == *it.seq()[i].1 && r@[i].0@ == module.text_of(
                        *it.seq()[i].0 as nat,
                    ),
            ensures
                r@.len() == refs@.len(),
                forall|i: int|
                    0 <= i < r@.len() ==> (#[trigger] r@[i]).1.inv() && r@[i].1.spec_module()
                        == *module && exists|k: u32|
                        #![trigger refs@[k]]
                        refs@.contains_key(k) && refs@[k] == r@[i].1.spec_id() && r@[i].0@
                            == module.text_of(k as nat),
                forall|k: u32| #[trigger]
                    refs@.contains_key(k) ==> exists|i: int|
                        0 <= i < r@.len() && r@[i].1.spec_id() == refs@[k],
        {
            let (alias, reference) = entry;
            proof {
                let j = it.index() as int;
                assert(refs@.contains_key(*alias));
                assert(refs@[*alias] == *reference);
            }
            let alias_text = module.string(super::StringId(*alias));
            r.push((alias_text, ComponentRef::new(module, *reference)));
        }
        r
    }
}

/// A reference from a component to another, under an alias.
pub struct ComponentRef<'m> {
    module: &'m Module,
    id: ComponentRefId,
    data: &'m ComponentRefData,
}

impl<'m> ComponentRef<'m> {
    pub closed spec fn spec_module(&self) -> Module {
        *self.module
    }

    pub closed spec fn spec_id(&self) -> ComponentRefId {
        self.id
    }

    /// The reference's data is the module's data for its id.
    pub closed spec fn inv(&self) -> bool {
        &&& self.id.spec_index() < self.module.reference_db@.len()
        &&& *self.data == self.module.reference_db@[self.id.spec_index() as int]
    }

    /// The reference's data.
    pub open spec fn spec_data(&self) -> ComponentRefData {
        self.spec_module().reference_db@[self.spec_id().spec_index() as int]
    }

    pub(crate) fn new(module: &'m Module, id: ComponentRefId) -> (r: Self)
        requires
            id.spec_index() < module.reference_db@.len(),
        ensures
            r.inv(),
            r.spec_module() == *module,
            r.spec_id() == id,
    {
        ComponentRef { module, id, data: module.reference_db.lookup(id) }
    }

    /// The referenced component.
    pub fn component(&self) -> (r: Component<'m>)
        requires
            self.inv(),
            self.spec_module().wf(),
        ensures
            r.inv(),
            r.spec_module() == self.spec_module(),
            r.spec_id() == self.spec_data().component,
    {
        Component::new(self.module, self.data.component)
    }

    /// The alias the component is referenced under.
    pub fn alias(&self) -> (r: &'m str)
        requires
            self.inv(),
            self.spec_module().wf(),
        ensures
            r@ == self.spec_module().text_of(self.spec_data().alias.spec_index()),
    {
        self.module.string(self.data.alias)
    }

    pub fn n_instances(&self) -> (r: usize)
        requires
            self.inv(),
        ensures
            r == self.spec_data().n_instances,
    {
        self.data.n_instances
    }
}

impl ComponentId {
    /// The component of `module` with this id.
    pub fn to_component(self, module: &Module) -> (r: Component<'_>)
        requires
            self.spec_index() < module.component_db@.len(),
        ensures
            r.inv(),
            r.spec_module() == *module,
            r.spec_id() == self,
    {
        Component::new(module, self)
    }
}

impl ComponentRefId {
    /// The component of `module` that this reference refers to.
    pub fn to_component(self, module: &Module) -> (r: Component<'_>)
        requires
            module.wf(),
            self.spec_index() < module.reference_db@.len(),
        ensures
            r.inv(),
            r.spec_module() == *module,
            r.spec_id() == module.reference_db@[self.spec_index() as int].component,
    {
        let reference = module.reference_db.lookup(self);
        Component::new(module, reference.component)
    }

    /// The reference of `module` with this id.
    pub fn to_reference(self, module: &Module) -> (r: ComponentRef<'_>)
        requires
            self.spec_index() < module.reference_db@.len(),
        ensures
            r.inv(),
            r.spec_module() == *module,
            r.spec_id() == self,
    {
        ComponentRef::new(module, self)
    }
}

impl PortId {
    /// The port of `module` with this id.
    pub fn to_port(self, module: &Module) -> (r: Port<'_>)
        requires
            self.spec_index() < module.port_db@.len(),
        ensures
            r.inv(),
            r.spec_module() == *module,
            r.spec_id() == self,
    {
        Port::new(module, self)
    }
}

impl Module {
    /// The components the module knows by name, each once, in no set order.
    pub fn components(&self) -> (r: Vec<Component<'_>>)
        requires
            self.wf(),
        ensures
            r@.len() == self.components@.len(),
            forall|i: int|
                0 <= i < r@.len() ==> (#[trigger] r@[i]).inv() && r@[i].spec_module() == *self
                    && self.components@.values().contains(r@[i].spec_id()),
            forall|c: ComponentId| #[trigger]
                self.components@.values().contains(c) ==> exists|i: int|
                    0 <= i < r@.len() && r@[i].spec_id() == c,
    {
        broadcast use vstd::seq_lib::group_seq_properties;

        let mut r: Vec<Component<'_>> = Vec::new();
        for c in it: self.components.values()
            invariant
                self.wf(),
                it.seq().unref().to_set() == self.components@.values(),
                it.seq().len() == self.components@.len(),
                r@.len() == it.index(),
                forall|i: int|
                    #![trigger r@[i]]
                    #![trigger it.seq().unref()[i]]
                    0 <= i < r@.len() ==> r@[i].inv() && r@[i].spec_module() == *self
                        && r@[i].spec_id() == it.seq().unref()[i],
            ensures
                r@.len() == self.components@.len(),
                forall|i: int|
                    0 <= i < r@.len() ==> (#[trigger] r@[i]).inv() && r@[i].spec_module() == *self
                        && self.components@.values().contains(r@[i].spec_id()),
                forall|q: ComponentId| #[trigger]
                    self.components@.values().contains(q) ==> exists|i: int|
                        0 <= i < r@.len() && r@[i].spec_id() == q,
        {
            proof {
                let s = it.seq().unref();
                assert(*c == s[it.index() as int]);
                assert(s.contains(s[it.index() as int]));
                assert(self.components@.values().contains(*c));
                let k = choose|k: u32| #[trigger] self.components@.contains_key(k) && self.components@[k] == *c;
                assert(self.components@.contains_key(k));
            }
            r.push(Component::new(self, *c));
        }
        r
    }
}

impl Module {
    /// The component data of `component`, to change, if the module names it
    /// among its components.
    pub fn get_component_mut(&mut self, component: ComponentId) -> (r: Option<&mut ComponentData>)
        requires
            old(self).wf(),
        ensures
            old(self).components@.values().contains(component) ==> (r matches Some(c) && *c
                == old(self).component_db@[component.spec_index() as int]
                && final(self).component_db@ == old(self).component_db@.update(
                component.spec_index() as int,
                *final(c),
            )),
            !old(self).components@.values().contains(component) ==> r is None && *final(self)
                == *old(self),
            final(self).name == old(self).name,
            final(self).strings == old(self).strings,
            final(self).components == old(self).components,
            final(self).port_db == old(self).port_db,
            final(self).reference_db == old(self).reference_db,
    {
        if super::has_component_value(&self.components, component) {
            proof {
                let k = choose|k: u32|
                    #[trigger] self.components@.contains_key(k) && self.components@[k] == component;
                assert(self.components@.contains_key(k));
            }
            Some(self.component_db.lookup_mut(component))
        } else {
            None
        }
    }

    /// The component named `name`, if the module knows one.
    pub fn component_id(&self, name: &str) -> (r: Option<ComponentId>)
        requires
            self.wf(),
        ensures
            self.has_component_named(name@) ==> r == Some(
                self.components@[self.key_of(name@) as u32],
            ),
            !self.has_component_named(name@) ==> r is None,
    {
        match self.strings.rlookup(name) {
            Some(key) => {
                proof {
                    if name@.len() == 0 {
                        assert(name@ =~= Seq::<char>::empty());
                    }
                    super::lemma_key_of(self, key.spec_index());
                    super::lemma_named_key(self, key.spec_index(), name@);
                }
                match self.components.get(&key.0) {
                    Some(id) => Some(*id),
                    None => None,
                }
            },
            None => {
                proof {
                    if self.has_component_named(name@) {
                        let k = choose|k: u32| #[trigger] self.components@.contains_key(k)
                            && self.text_of(k as nat) == name@;
                        assert(self.valid_key(k as nat));
                        assert(self.strings.strings()[k - 1] == name@);
                    }
                }
                None
            },
        }
    }
}

/// The reference `r` is held under the alias key `k` that is the referenced
/// component's own name.
pub open spec fn default_alias(module: &Module, r: ComponentRefId, k: u32) -> bool {
    module.component_db@[module.reference_db@[r.spec_index() as int].component.spec_index() as int].name.0
        == k
}

/// `r` is held in `refs` under the referenced component's own name.
pub open spec fn held_under_own_name(module: &Module, refs: Map<u32, ComponentRefId>, r: ComponentRefId) -> bool {
    exists|k: u32| #[trigger] refs.contains_key(k) && refs[k] == r && default_alias(module, r, k)
}

impl ComponentData {
    /// The component's references split in two: those held under the
    /// referenced component's own name, and the others with their aliases.
    pub fn split_references(&self, module: &Module) -> (r: (
        Vec<ComponentRefId>,
        Vec<(super::StringId, ComponentRefId)>,
    ))
        requires
            module.wf(),
            references_in(module, *self),
        ensures
            forall|i: int|
                0 <= i < r.0@.len() ==> held_under_own_name(module, self.references@, #[trigger] r.0@[i]),
            forall|i: int|
                0 <= i < r.1@.len() ==> self.references@.contains_key((#[trigger] r.1@[i]).0.0)
                    && self.references@[r.1@[i].0.0] == r.1@[i].1 && !default_alias(
                    module,
                    r.1@[i].1,
                    r.1@[i].0.0,
                ),
            forall|k: u32| #[trigger]
                self.references@.contains_key(k) ==> (default_alias(module, self.references@[k], k)
                    ==> r.0@.contains(self.references@[k])) && (!default_alias(
                    module,
                    self.references@[k],
                    k,
                ) ==> r.1@.contains((super::StringId(k), self.references@[k]))),
    {
        broadcast use vstd::seq_lib::group_seq_properties;

        let refs = &self.references;
        let mut unnamed: Vec<ComponentRefId> = Vec::new();
        let mut named: Vec<(super::StringId, ComponentRefId)> = Vec::new();
        let ghost mut ukeys: Seq<u32> = Seq::empty();
        for entry in it: refs.iter()
            invariant
                references_in(module, *self),
                *refs == self.references,
                module.wf(),
                it.seq().len() == self.references@.len(),
                forall|j: int|
                    0 <= j < it.seq().len() ==> self.references@.contains_key(*(#[trigger] it.seq()[j]).0)
                        && self.references@[*it.seq()[j].0] == *it.seq()[j].1,
                forall|k: u32| #[trigger] self.references@.contains_key(k) ==> it.seq().contains((&k, &self.references@[k])),
                ukeys.len() == unnamed@.len(),
                forall|i: int|
                    0 <= i < unnamed@.len() ==> self.references@.contains_key(#[trigger] ukeys[i])
                        && self.references@[ukeys[i]] == unnamed@[i] && default_alias(
                        module,
                        unnamed@[i],
                        ukeys[i],
                    ),
                forall|i: int|
                    0 <= i < named@.len() ==> self.references@.contains_key((#[trigger] named@[i]).0.0)
                        && self.references@[named@[i].0.0] == named@[i].1 && !default_alias(
                        module,
                        named@[i].1,
                        named@[i].0.0,
                    ),
                forall|j: int|
                    0 <= j < it.index() ==> (default_alias(
                        module,
                        *(#[trigger] it.seq()[j]).1,
                        *it.seq()[j].0,
                    ) ==> unnamed@.contains(*it.seq()[j].1)) && (!default_alias(
                        module,
                        *it.seq()[j].1,
                        *it.seq()[j].0,
                    ) ==> named@.contains((super::StringId(*it.seq()[j].0), *it.seq()[j].1))),
            ensures
                ukeys.len() == unnamed@.len(),
                forall|i: int|
                    0 <= i < unnamed@.len() ==> self.references@.contains_key(#[trigger] ukeys[i])
                        && self.references@[ukeys[i]] == unnamed@[i] && default_alias(
                        module,
                        unnamed@[i],
                        ukeys[i],
                    ),
                forall|i: int|
                    0 <= i < named@.len() ==> self.references@.contains_key((#[trigger] named@[i]).0.0)
                        && self.references@[named@[i].0.0] == named@[i].1 && !default_alias(
                        module,
                        named@[i].1,
                        named@[i].0.0,
                    ),
                forall|k: u32| #[trigger]
                    self.references@.contains_key(k) ==> (default_alias(module, self.references@[k], k)
                        ==> unnamed@.contains(self.references@[k])) && (!default_alias(module, self.references@[k], k)
                        ==> named@.contains((super::StringId(k), self.references@[k]))),
        {
            let (alias, reference) = entry;
            proof {
                assert(self.references@.contains_key(*alias));
            }
            let data = module.reference_db.lookup(*reference);
            let target = module.component(data.component);
            let ghost u0 = unnamed@;
            let ghost n0 = named@;
            if target.name.0 == *alias {
                unnamed.push(*reference);
                proof {
                    assert(unnamed@[unnamed@.len() - 1] == *reference);
                    assert forall|x: ComponentRefId| u0.contains(x) implies unnamed@.contains(x) by {
                        let i = choose|i: int| 0 <= i < u0.len() && u0[i] == x;
                        assert(unnamed@[i] == x);
                    }
                    ukeys = ukeys.push(*alias);
                    assert forall|i: int| 0 <= i < unnamed@.len() implies self.references@.contains_key(
                        #[trigger] ukeys[i],
                    ) && self.references@[ukeys[i]] == unnamed@[i] && default_alias(
                        module,
                        unnamed@[i],
                        ukeys[i],
                    ) by {
                        if i < u0.len() {
                            assert(unnamed@[i] == u0[i]);
                        }
                    }
                }
            } else {
                named.push((super::StringId(*alias), *reference));
                proof {
                    assert(named@[named@.len() - 1] == (super::StringId(*alias), *reference));
                    assert forall|x: (super::StringId, ComponentRefId)| n0.contains(x) implies named@.contains(x) by {
                        let i = choose|i: int| 0 <= i < n0.len() && n0[i] == x;
                        assert(named@[i] == x);
                    }
                    assert forall|i: int| 0 <= i < named@.len() implies self.references@.contains_key(
                        (#[trigger] named@[i]).0.0,
                    ) && self.references@[named@[i].0.0] == named@[i].1 && !default_alias(
                        module,
                        named@[i].1,
                        named@[i].0.0,
                    ) by {
                        if i < n0.len() {
                            assert(named@[i] == n0[i]);
                        }
                    }
                }
            }
        }
        let r = (unnamed, named);
        proof {
            assert forall|i: int| 0 <= i < r.0@.len() implies held_under_own_name(
                module,
                self.references@,
                #[trigger] r.0@[i],
            ) by {
                assert(self.references@.contains_key(ukeys[i]));
                assert(self.references@[ukeys[i]] == r.0@[i]);
            }
        }
        r
    }

    /// The port of this component named `name`, if it has one.
    pub fn port_id(&self, module: &Module, name: &str) -> (r: Option<PortId>)
        requires
            module.wf(),
            self.fits(module),
        ensures
            super::port::has_port_named(module, *self, name@) ==> r == Some(
                self.ports@[module.key_of(name@) as u32],
            ),
            !super::port::has_port_named(module, *self, name@) ==> r is None,
    {
        match module.strings.rlookup(name) {
            Some(key) => {
                proof {
                    if name@.len() == 0 {
                        assert(name@ =~= Seq::<char>::empty());
                    }
                    super::lemma_key_of(module, key.spec_index());
                    super::port::lemma_key_in(module, self.ports@.dom(), key.spec_index(), name@);
                }
                match self.ports.get(&key.0) {
                    Some(id) => Some(*id),
                    None => None,
                }
            },
            None => {
                proof {
                    if super::port::has_port_named(module, *self, name@) {
                        let k = choose|k: u32| #[trigger] self.ports@.contains_key(k)
                            && module.text_of(k as nat) == name@;
                        assert(module.valid_key(k as nat));
                        assert(module.strings.strings()[k - 1] == name@);
                    }
                }
                None
            },
        }
    }

    /// The data of `port`, to change, if it is one of this component's ports.
    pub fn get_port_mut<'m>(&self, module: &'m mut Module, port: PortId) -> (r: Option<&'m mut PortData>)
        requires
            ports_in(old(module), *self),
        ensures
            self.ports@.values().contains(port) ==> (r matches Some(p) && *p == old(module).port_db@[port.spec_index() as int] && final(module).port_db@ == old(module).port_db@.update(port.spec_index() as int, *final(p))),
            !self.ports@.values().contains(port) ==> r is None && *final(module) == *old(module),
            final(module).name == old(module).name,
            final(module).strings == old(module).strings,
            final(module).components == old(module).components,
            final(module).component_db == old(module).component_db,
            final(module).reference_db == old(module).reference_db,
    {
        if super::has_port_value(&self.ports, port) {
            proof {
                let k = choose|k: u32| #[trigger] self.ports@.contains_key(k) && self.ports@[k] == port;
                assert(self.ports@.contains_key(k));
            }
            Some(module.port_db.lookup_mut(port))
        } else {
            None
        }
    }

    /// The data of `port`, if it is one of this component's ports.
    pub fn get_port<'m>(&self, module: &'m Module, port: PortId) -> (r: Option<&'m PortData>)
        requires
            ports_in(module, *self),
        ensures
            self.ports@.values().contains(port) ==> r == Some(
                &module.port_db@[port.spec_index() as int],
            ),
            !self.ports@.values().contains(port) ==> r is None,
    {
        if super::has_port_value(&self.ports, port) {
            proof {
                let k = choose|k: u32| #[trigger] self.ports@.contains_key(k) && self.ports@[k] == port;
                assert(self.ports@.contains_key(k));
            }
            Some(module.port(port))
        } else {
            None
        }
    }
}

/// A port of a module.
pub struct Port<'m> {
    module: &'m Module,
    id: PortId,
    data: &'m PortData,
}

impl<'m> Port<'m> {
    pub closed spec fn spec_module(&self) -> Module {
        *self.module
    }

    pub closed spec fn spec_id(&self) -> PortId {
        self.id
    }

    /// The port's data is the module's data for its id.
    pub closed spec fn inv(&self) -> bool {
        &&& self.id.spec_index() < self.module.port_db@.len()
        &&& *self.data == self.module.port_db@[self.id.spec_index() as int]
    }

    /// The port's data.
    pub open spec fn spec_data(&self) -> PortData {
        self.spec_module().port_db@[self.spec_id().spec_index() as int]
    }

    pub(crate) fn new(module: &'m Module, id: PortId) -> (r: Self)
        requires
            id.spec_index() < module.port_db@.len(),
        ensures
            r.inv(),
            r.spec_module() == *module,
            r.spec_id() == id,
    {
        Port { module, id, data: module.port(id) }
    }

    /// The port's name.
    pub fn name(&self) -> (r: &'m str)
        requires
            self.inv(),
            self.spec_module().wf(),
        ensures
            r@ == self.spec_module().text_of(self.spec_data().name.spec_index()),
    {
        self.data.name(self.module)
    }

    pub fn kind(&self) -> (r: PortKind)
        requires
            self.inv(),
        ensures
            r == self.spec_data().kind,
    {
        self.data.kind
    }

    pub fn n_pins(&self) -> (r: usize)
        requires
            self.inv(),
        ensures
            r == self.spec_data().n_pins,
    {
        self.data.n_pins
    }

    pub fn class(&self) -> (r: Option<PortClass>)
        requires
            self.inv(),
        ensures
            r == self.spec_data().class,
    {
        self.data.class
    }

    /// The pins `range` of the port.
    pub fn select(&self, range: Range<u32>) -> (r: PinRange)
        ensures
            r.port == self.spec_id(),
            r.range == range,
    {
        PinRange::new(self.id, range)
    }
}

} // verus!
