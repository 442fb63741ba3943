//! Building the components of a module: their names, references and
//! connections.

use super::{
    lemma_grow_refl, lemma_grow_trans, lemma_key_kept, lemma_key_of, lemma_named_key, lemma_texts_kept, ComponentBuildError,
    ComponentClass, ComponentData, ComponentId, ComponentRefData, ComponentRefId,
    ComponentWeakRef, Module, StringId,
};
use super::port::{has_port_named, PortBuilder};
use crate::key::OpaqueKey;
use std::collections::HashMap;
use vstd::prelude::*;

verus! {

broadcast use vstd::std_specs::hash::group_hash_axioms;

impl ComponentData {
    /// Every key the component holds is a key of the module's strings.
    pub open spec fn fits(&self, module: &Module) -> bool {
        &&& module.valid_key(self.name.spec_index())
        &&& forall|k: u32| #[trigger] self.ports@.contains_key(k) ==> module.valid_key(k as nat)
        &&& forall|k: u32| #[trigger] self.references@.contains_key(k) ==> module.valid_key(k as nat)
    }

    /// The data of a new component named `name`, of class `class`, with no
    /// ports, references or connections. No component of the module may
    /// have that name already.
    pub(crate) fn new(module: &mut Module, name: &str, class: Option<ComponentClass>) -> (r: Self)
        requires
            old(module).wf(),
            name@.len() == 0 || old(module).room(1),
            !old(module).has_component_named(name@),
        ensures
            final(module).wf(),
            old(module).strings_grow_to(final(module)),
            final(module).strings.strings().len() <= old(module).strings.strings().len() + 1,
            name@.len() == 0 ==> final(module).strings.strings() == old(module).strings.strings(),
            final(module).name == old(module).name,
            final(module).component_db == old(module).component_db,
            final(module).components == old(module).components,
            final(module).port_db == old(module).port_db,
            final(module).reference_db == old(module).reference_db,
            final(module).text_of(r.name.spec_index()) == name@,
            r.fits(final(module)),
            !final(module).components@.contains_key(r.name.0),
            r.ports@ == Map::<u32, super::PortId>::empty(),
            r.references@ == Map::<u32, ComponentRefId>::empty(),
            r.connections@ == Seq::<super::Connection>::empty(),
            r.class == class,
    {
        let key = module.intern(name);
        proof {
            lemma_texts_kept(old(module), module);
            lemma_named_key(module, key.spec_index(), name@);
        }
        ComponentData {
            name: key,
            ports: HashMap::new(),
            references: HashMap::new(),
            connections: Vec::new(),
            class,
        }
    }

    /// Renames the component, interning the new name; if the module knows
    /// the component by its old name, it knows it by the new one instead.
    /// No component of the module may have the new name already.
    pub fn rename(&mut self, module: &mut Module, name: &str)
        requires
            old(module).wf(),
            old(module).room(1),
            old(self).fits(old(module)),
            !old(module).has_component_named(name@),
        ensures
            final(module).wf(),
            old(module).strings_grow_to(final(module)),
            final(module).strings.strings().len() <= old(module).strings.strings().len() + 1,
            final(module).name == old(module).name,
            final(module).component_db == old(module).component_db,
            final(module).port_db == old(module).port_db,
            final(module).reference_db == old(module).reference_db,
            final(module).text_of(final(self).name.spec_index()) == name@,
            old(module).components@.contains_key(old(self).name.0) ==> final(module).components@
                == old(module).components@.remove(old(self).name.0).insert(
                final(self).name.0,
                old(module).components@[old(self).name.0],
            ),
            !old(module).components@.contains_key(old(self).name.0) ==> final(module).components@
                == old(module).components@,
            final(self).ports == old(self).ports,
            final(self).references == old(self).references,
            final(self).connections == old(self).connections,
            final(self).class == old(self).class,
            final(self).fits(final(module)),
    {
        let key = module.intern(name);
        proof {
            lemma_texts_kept(old(module), module);
            lemma_named_key(module, key.spec_index(), name@);
        }
        match module.components.remove(&self.name.0) {
            Some(component) => {
                module.components.insert(key.0, component);
            },
            None => {},
        }
        self.name = key;
    }
}

/// Builds a component of a module: set its name, add its ports, references
/// and connections, then finish. The references and connections that name
/// other components are kept unresolved until the whole module is known.
pub struct ComponentBuilder {
    data: ComponentData,
    unresolved_references: Vec<ComponentWeakRef>,
    unresolved_named_references: HashMap<u32, ComponentWeakRef>,
    unresolved_connections: Vec<super::WeakConnection>,
    name_is_set: bool,
}

impl ComponentBuilder {
    /// The data of the component being built.
    pub closed spec fn spec_data(&self) -> ComponentData {
        self.data
    }

    /// The unnamed references added so far, each once.
    pub closed spec fn spec_unresolved(&self) -> Seq<ComponentWeakRef> {
        self.unresolved_references@
    }

    /// The named references added so far, by the raw key of their alias.
    pub closed spec fn spec_named(&self) -> Map<u32, ComponentWeakRef> {
        self.unresolved_named_references@
    }

    /// The connections between components known by name, in order.
    pub closed spec fn spec_connections(&self) -> Seq<super::WeakConnection> {
        self.unresolved_connections@
    }

    pub closed spec fn spec_name_is_set(&self) -> bool {
        self.name_is_set
    }

    /// The builder's invariant against `module`: its keys are keys of the
    /// module's strings, and no unnamed reference occurs twice.
    pub open spec fn fits(&self, module: &Module) -> bool {
        &&& self.spec_data().fits(module)
        &&& self.spec_unresolved().no_duplicates()
        &&& forall|i: int|
            0 <= i < self.spec_unresolved().len() ==> module.valid_key(
                (#[trigger] self.spec_unresolved()[i]).component.spec_index(),
            )
        &&& forall|k: u32| #[trigger]
            self.spec_named().contains_key(k) ==> module.valid_key(k as nat) && module.valid_key(
                self.spec_named()[k].component.spec_index(),
            )
    }

    /// A builder of an unnamed component. No component of the module may be
    /// named by the empty string.
    pub fn new(module: &mut Module) -> (r: Self)
        requires
            old(module).wf(),
            !old(module).has_component_named(Seq::empty()),
        ensures
            final(module).wf(),
            final(module).strings.strings() == old(module).strings.strings(),
            final(module).name == old(module).name,
            final(module).component_db == old(module).component_db,
            final(module).components == old(module).components,
            final(module).port_db == old(module).port_db,
            final(module).reference_db == old(module).reference_db,
            r.fits(final(module)),
            r.spec_data().name.spec_index() == 0,
            r.spec_data().ports@ == Map::<u32, super::PortId>::empty(),
            r.spec_data().references@ == Map::<u32, ComponentRefId>::empty(),
            r.spec_data().connections@ == Seq::<super::Connection>::empty(),
            r.spec_data().class is None,
            r.spec_unresolved() == Seq::<ComponentWeakRef>::empty(),
            r.spec_named() == Map::<u32, ComponentWeakRef>::empty(),
            r.spec_connections() == Seq::<super::WeakConnection>::empty(),
            !r.spec_name_is_set(),
    {
        let e = "";
        proof {
            reveal_strlit("");
            assert(e@ =~= Seq::<char>::empty());
        }
        let data = ComponentData::new(module, e, None);
        proof {
            if data.name.spec_index() > 0 {
                assert(module.strings.strings()[data.name.spec_index() - 1].len() == 0);
                crate::stringtable::lemma_nonempty(module.strings, data.name.spec_index());
            }
        }
        ComponentBuilder {
            data,
            unresolved_references: Vec::new(),
            unresolved_named_references: HashMap::new(),
            unresolved_connections: Vec::new(),
            name_is_set: false,
        }
    }

    /// Names the component. No component of the module may have that name
    /// already.
    pub fn set_name(&mut self, module: &mut Module, name: &str)
        requires
            old(module).wf(),
            old(module).room(1),
            old(self).fits(old(module)),
            !old(module).has_component_named(name@),
        ensures
            final(module).wf(),
            old(module).strings_grow_to(final(module)),
            final(module).strings.strings().len() <= old(module).strings.strings().len() + 1,
            final(module).component_db == old(module).component_db,
            final(module).port_db == old(module).port_db,
            final(module).reference_db == old(module).reference_db,
            final(module).text_of(final(self).spec_data().name.spec_index()) == name@,
            final(self).fits(final(module)),
            final(self).spec_name_is_set(),
            final(self).spec_data().ports == old(self).spec_data().ports,
            final(self).spec_data().references == old(self).spec_data().references,
            final(self).spec_data().connections == old(self).spec_data().connections,
            final(self).spec_data().class == old(self).spec_data().class,
            final(self).spec_unresolved() == old(self).spec_unresolved(),
            final(self).spec_named() == old(self).spec_named(),
            final(self).spec_connections() == old(self).spec_connections(),
            !old(module).components@.contains_key(old(self).spec_data().name.0) ==> final(module).components@
                == old(module).components@,
    {
        self.data.rename(module, name);
        self.name_is_set = true;
        proof {
            assert forall|i: int| 0 <= i < self.spec_unresolved().len() implies module.valid_key(
                (#[trigger] self.spec_unresolved()[i]).component.spec_index(),
            ) by {
                assert(old(module).valid_key(old(self).spec_unresolved()[i].component.spec_index()));
            }
            assert forall|k: u32| #[trigger] self.spec_named().contains_key(k) implies module.valid_key(
                k as nat,
            ) && module.valid_key(self.spec_named()[k].component.spec_index()) by {
                assert(old(self).spec_named().contains_key(k));
            }
        }
    }

    /// Sets the component's class.
    pub fn set_class(&mut self, class: ComponentClass)
        ensures
            final(self).spec_data().class == Some(class),
            final(self).spec_data().name == old(self).spec_data().name,
            final(self).spec_data().ports == old(self).spec_data().ports,
            final(self).spec_data().references == old(self).spec_data().references,
            final(self).spec_data().connections == old(self).spec_data().connections,
            final(self).spec_unresolved() == old(self).spec_unresolved(),
            final(self).spec_named() == old(self).spec_named(),
            final(self).spec_connections() == old(self).spec_connections(),
            final(self).spec_name_is_set() == old(self).spec_name_is_set(),
    {
        self.data.class = Some(class);
    }

    /// Adds a reference to `n_instances` (by default one) instances of
    /// `component`, under `alias` (by default the referenced component's
    /// name). The reference is stored either way; an alias the component
    /// already uses is an error.
    pub fn add_reference(
        &mut self,
        module: &mut Module,
        component: ComponentId,
        alias: Option<&str>,
        n_instances: Option<usize>,
    ) -> (r: Result<ComponentRefId, ComponentBuildError>)
        requires
            old(module).wf(),
            old(module).room(1),
            old(self).fits(old(module)),
            component.spec_index() < old(module).component_db@.len(),
            old(module).reference_db@.len() < <ComponentRefId as OpaqueKey>::spec_max_index(),
        ensures
            final(module).wf(),
            old(module).strings_grow_to(final(module)),
            final(module).strings.strings().len() <= old(module).strings.strings().len() + 1,
            final(module).name == old(module).name,
            final(module).component_db == old(module).component_db,
            final(module).components == old(module).components,
            final(module).port_db == old(module).port_db,
            final(self).fits(final(module)),
            final(module).reference_db@.len() == old(module).reference_db@.len() + 1,
            final(module).reference_db@.drop_last() == old(module).reference_db@,
            final(module).reference_db@.last().component == component,
            final(module).reference_db@.last().n_instances == default_instances(n_instances),
            final(module).text_of(final(module).reference_db@.last().alias.spec_index())
                == alias_text(old(module), component, alias),
            final(self).spec_data().references@ == old(self).spec_data().references@.insert(
                final(module).reference_db@.last().alias.0,
                ComponentRefId(old(module).reference_db@.len() as u32),
            ),
            old(self).spec_data().references@.contains_key(
                final(module).reference_db@.last().alias.0,
            ) ==> (r matches Err(ComponentBuildError::DuplicateReference { component: c, reference: a })
                && c@ == old(module).text_of(
                old(module).component_db@[component.spec_index() as int].name.spec_index(),
            ) && a@ == alias_text(old(module), component, alias)),
            !old(self).spec_data().references@.contains_key(
                final(module).reference_db@.last().alias.0,
            ) ==> r == Ok::<ComponentRefId, ComponentBuildError>(
                ComponentRefId(old(module).reference_db@.len() as u32),
            ),
            final(self).spec_data().name == old(self).spec_data().name,
            final(self).spec_data().ports == old(self).spec_data().ports,
            final(self).spec_data().connections == old(self).spec_data().connections,
            final(self).spec_data().class == old(self).spec_data().class,
            final(self).spec_unresolved() == old(self).spec_unresolved(),
            final(self).spec_named() == old(self).spec_named(),
            final(self).spec_connections() == old(self).spec_connections(),
            final(self).spec_name_is_set() == old(self).spec_name_is_set(),
    {
        let ghost m0 = *module;
        let target_name = module.component(component).name;
        proof {
            assert(m0.valid_key(m0.component_db@[component.spec_index() as int].name.spec_index()));
        }
        proof {
            lemma_grow_refl(module);
        }
        let alias = match alias {
            Some(alias) => module.intern(alias),
            None => target_name,
        };
        proof {
            lemma_key_kept(&m0, module, target_name.spec_index());
        }
        let n_instances = match n_instances {
            Some(n) => n,
            None => 1,
        };
        let reference = ComponentRefData::new(component, alias, n_instances);
        let ghost m1 = *module;
        let reference = module.reference_db.entry(reference);
        proof {
            assert(module.reference_db@.drop_last() =~= m1.reference_db@);
            assert forall|i: int| 0 <= i < module.reference_db@.len() implies module.valid_key(
                (#[trigger] module.reference_db@[i]).alias.spec_index(),
            ) && module.reference_db@[i].component.spec_index() < module.component_db@.len() by {
                if i < m1.reference_db@.len() {
                    assert(module.reference_db@[i] == m1.reference_db@[i]);
                }
            }
            assert(reference == ComponentRefId(m0.reference_db@.len() as u32));
            self.lemma_fits_grows(&m0, module);
        }
        let previous = self.data.references.insert(alias.0, reference);
        proof {
            assert forall|k: u32| #[trigger] self.data.references@.contains_key(k) implies module.valid_key(
                k as nat,
            ) by {
                if k != alias.0 {
                    assert(old(self).spec_data().references@.contains_key(k));
                }
            }
            assert forall|k: u32| #[trigger] self.spec_named().contains_key(k) implies module.valid_key(
                k as nat,
            ) && module.valid_key(self.spec_named()[k].component.spec_index()) by {
                assert(old(self).spec_named().contains_key(k));
            }
            assert forall|i: int| 0 <= i < self.spec_unresolved().len() implies module.valid_key(
                (#[trigger] self.spec_unresolved()[i]).component.spec_index(),
            ) by {
                assert(old(self).spec_unresolved()[i] == self.spec_unresolved()[i]);
            }
        }
        match previous {
            Some(_) => {
                let component = module.string(target_name).to_owned();
                let reference = module.string(alias).to_owned();
                Err(ComponentBuildError::DuplicateReference { component, reference })
            },
            None => Ok(reference),
        }
    }

    /// The builder keeps fitting a module whose strings grow.
    pub proof fn lemma_fits_grows(&self, a: &Module, b: &Module)
        requires
            self.fits(a),
            a.strings_grow_to(b),
        ensures
            self.fits(b),
    {
        assert(b.valid_key(self.spec_data().name.spec_index()));
    }

    /// Adds a reference, known by the referenced component's name, to
    /// `n_instances` (by default one) instances of it: under `alias` if one
    /// is given, else unnamed. An alias already used, or an unnamed reference
    /// already added, is an error.
    pub fn add_weak_reference<S: GetStringId>(
        &mut self,
        module: &mut Module,
        component: S,
        alias: Option<S>,
        n_instances: Option<usize>,
    ) -> (r: Result<ComponentWeakRef, ComponentBuildError>)
        requires
            old(module).wf(),
            old(module).room(2),
            old(self).fits(old(module)),
            component.fits_in(old(module)),
            alias matches Some(a) ==> a.fits_in(old(module)),
        ensures
            final(module).wf(),
            old(module).strings_grow_to(final(module)),
            final(module).strings.strings().len() <= old(module).strings.strings().len() + 2,
            final(module).name == old(module).name,
            final(module).component_db == old(module).component_db,
            final(module).components == old(module).components,
            final(module).port_db == old(module).port_db,
            final(module).reference_db == old(module).reference_db,
            final(self).fits(final(module)),
            final(self).spec_data() == old(self).spec_data(),
            final(self).spec_connections() == old(self).spec_connections(),
            final(self).spec_name_is_set() == old(self).spec_name_is_set(),
            weak_reference_added(
                *old(self),
                *final(self),
                *final(module),
                component.text_in(old(module)),
                match alias {
                    Some(a) => Some(a.text_in(old(module))),
                    None => None,
                },
                default_instances(n_instances),
                old(module).text_of(old(self).spec_data().name.spec_index()),
                r,
            ),
    {
        let ghost m0 = *module;
        let component_key = component.get_string_id(module);
        let reference = ComponentWeakRef {
            component: component_key,
            n_instances: match n_instances {
                Some(n) => n,
                None => 1,
            },
        };
        proof {
            lemma_key_of(module, component_key.spec_index());
            lemma_key_kept(&m0, module, self.data.name.spec_index());
            self.lemma_fits_grows(&m0, module);
        }
        match alias {
            Some(alias) => {
                let ghost m1 = *module;
                proof {
                    alias.lemma_grows(&m0, module);
                }
                let alias_key = alias.get_string_id(module);
                proof {
                    lemma_key_of(module, alias_key.spec_index());
                    lemma_key_kept(&m1, module, component_key.spec_index());
                    lemma_key_kept(&m1, module, self.data.name.spec_index());
                    self.lemma_fits_grows(&m1, module);
                    lemma_key_of(module, component_key.spec_index());
                    lemma_grow_trans(&m0, &m1, module);
                }
                let previous = self.unresolved_named_references.insert(alias_key.0, reference);
                proof {
                    assert forall|k: u32| #[trigger] self.spec_named().contains_key(k) implies module.valid_key(
                        k as nat,
                    ) && module.valid_key(self.spec_named()[k].component.spec_index()) by {
                        if k != alias_key.0 {
                            assert(old(self).spec_named().contains_key(k));
                        }
                    }
                    assert forall|i: int| 0 <= i < self.spec_unresolved().len() implies module.valid_key(
                        (#[trigger] self.spec_unresolved()[i]).component.spec_index(),
                    ) by {
                        assert(old(self).spec_unresolved()[i] == self.spec_unresolved()[i]);
                    }
                }
                if previous.is_some() {
                    let component = module.string(self.data.name).to_owned();
                    let reference = module.string(alias_key).to_owned();
                    return Err(ComponentBuildError::DuplicateReference { component, reference });
                }
            },
            None => {
                let pushed = push_unique(&mut self.unresolved_references, reference);
                proof {
                    assert forall|k: u32| #[trigger] self.spec_named().contains_key(k) implies module.valid_key(
                        k as nat,
                    ) && module.valid_key(self.spec_named()[k].component.spec_index()) by {
                        assert(old(self).spec_named().contains_key(k));
                    }
                    if !pushed {
                        assert forall|i: int| 0 <= i < self.spec_unresolved().len() implies module.valid_key(
                            (#[trigger] self.spec_unresolved()[i]).component.spec_index(),
                        ) by {
                            assert(old(self).spec_unresolved()[i] == self.spec_unresolved()[i]);
                        }
                    }
                    if pushed {
                        assert forall|i: int| 0 <= i < self.spec_unresolved().len() implies module.valid_key(
                            (#[trigger] self.spec_unresolved()[i]).component.spec_index(),
                        ) by {
                            if i < old(self).spec_unresolved().len() {
                                assert(self.spec_unresolved()[i] == old(self).spec_unresolved()[i]);
                            }
                        }
                        assert forall|i: int, j: int|
                            0 <= i < j < self.spec_unresolved().len() implies self.spec_unresolved()[i]
                            != self.spec_unresolved()[j] by {
                            if j == old(self).spec_unresolved().len() {
                                assert(old(self).spec_unresolved()[i] == self.spec_unresolved()[i]);
                            }
                        }
                    }
                }
                if !pushed {
                    let component = module.string(self.data.name).to_owned();
                    let reference = module.string(component_key).to_owned();
                    return Err(ComponentBuildError::DuplicateReference { component, reference });
                }
            },
        }
        Ok(reference)
    }

    /// A builder of a connection between pins of this component's
    /// references.
    pub fn add_connection(&mut self) -> (r: ConnectionBuilder)
        ensures
            r.spec_source() is None,
            r.spec_sink() is None,
            *final(self) == *old(self),
    {
        ConnectionBuilder { source: None, sink: None }
    }

    /// A builder of a connection between pins of components known by name.
    pub fn add_weak_connection(&mut self) -> (r: WeakConnectionBuilder)
        ensures
            r.spec_source() is None,
            r.spec_sink() is None,
            *final(self) == *old(self),
    {
        WeakConnectionBuilder { source: None, sink: None }
    }

    /// Adds the component to the module, once it is named: its id, with the
    /// references still to resolve. Another component of the same name is
    /// an error, though the module then knows the name by the new component.
    pub fn finish(self, module: &mut Module) -> (r: Result<
        (ComponentId, Vec<ComponentWeakRef>, HashMap<u32, ComponentWeakRef>),
        ComponentBuildError,
    >)
        requires
            old(module).wf(),
            self.fits(old(module)),
            old(module).component_db@.len() < <ComponentId as OpaqueKey>::spec_max_index(),
        ensures
            final(module).wf(),
            final(module).strings == old(module).strings,
            final(module).name == old(module).name,
            final(module).port_db == old(module).port_db,
            final(module).reference_db == old(module).reference_db,
            !self.spec_name_is_set() ==> *final(module) == *old(module) && (r matches Err(
                ComponentBuildError::MissingField(f),
            ) && f@ == "name"@),
            self.spec_name_is_set() ==> {
                &&& final(module).component_db@ == old(module).component_db@.push(self.spec_data())
                &&& final(module).components@ == old(module).components@.insert(
                    self.spec_data().name.0,
                    ComponentId(old(module).component_db@.len() as u32),
                )
                &&& old(module).components@.contains_key(self.spec_data().name.0) ==> (r matches Err(
                    ComponentBuildError::DuplicateComponent { module: m, component: c },
                ) && m@ == old(module).spec_name() && c@ == old(module).text_of(
                    self.spec_data().name.spec_index(),
                ))
                &&& !old(module).components@.contains_key(self.spec_data().name.0) ==> (r matches Ok(
                    (id, refs, named),
                ) && id == ComponentId(old(module).component_db@.len() as u32) && refs@
                    == self.spec_unresolved() && named@ == self.spec_named())
            },
            r matches Ok((id, _, _)) ==> final(module).components@[self.spec_data().name.0] == id
                && final(module).component_db@[id.spec_index() as int].name == self.spec_data().name,
    {
        if !self.name_is_set {
            return Err(ComponentBuildError::MissingField("name"));
        }
        let name = self.data.name;
        let ghost m0 = *module;
        let component = module.component_db.entry(self.data);
        proof {
            assert forall|i: int| 0 <= i < module.component_db@.len() implies module.valid_key(
                (#[trigger] module.component_db@[i]).name.spec_index(),
            ) by {
                if i < m0.component_db@.len() {
                    assert(module.component_db@[i] == m0.component_db@[i]);
                }
            }
            assert(component == ComponentId(m0.component_db@.len() as u32));
        }
        if module.components.insert(name.0, component).is_some() {
            let component = module.string(name).to_owned();
            let module_name = module.name().to_owned();
            return Err(ComponentBuildError::DuplicateComponent { module: module_name, component });
        }
        Ok((component, self.unresolved_references, self.unresolved_named_references))
    }

    /// A builder of a port of the component being built (see
    /// [`PortBuilder::new`]).
    pub fn add_port(&mut self, module: &mut Module) -> (r: PortBuilder)
        requires
            old(module).wf(),
            old(self).fits(old(module)),
            old(module).components@.contains_key(old(self).spec_data().name.0),
            !has_port_named(old(module), old(self).spec_data(), Seq::empty()),
        ensures
            final(module).wf(),
            final(module).strings.strings() == old(module).strings.strings(),
            final(module).name == old(module).name,
            final(module).component_db == old(module).component_db,
            final(module).components == old(module).components,
            final(module).port_db == old(module).port_db,
            final(module).reference_db == old(module).reference_db,
            *final(self) == *old(self),
            r.spec_data().name.spec_index() == 0,
            r.spec_data().parent == old(module).components@[old(self).spec_data().name.0],
            !r.spec_name_is_set(),
            !r.spec_kind_is_set(),
            !r.spec_n_pins_is_set(),
    {
        PortBuilder::new(module, &mut self.data)
    }

    /// The data of the component being built.
    pub fn data(&self) -> (r: &ComponentData)
        ensures
            *r == self.spec_data(),
    {
        &self.data
    }

    /// The data of the component being built, to change.
    pub fn data_mut(&mut self) -> (r: &mut ComponentData)
        ensures
            *r == old(self).spec_data(),
            final(self).spec_data() == *final(r),
            final(self).spec_unresolved() == old(self).spec_unresolved(),
            final(self).spec_named() == old(self).spec_named(),
            final(self).spec_connections() == old(self).spec_connections(),
            final(self).spec_name_is_set() == old(self).spec_name_is_set(),
    {
        &mut self.data
    }

    pub fn is_name_set(&self) -> (r: bool)
        ensures
            r == self.spec_name_is_set(),
    {
        self.name_is_set
    }

    pub fn is_ports_empty(&self) -> (r: bool)
        ensures
            r == (self.spec_data().ports@.len() == 0),
    {
        self.data.ports.is_empty()
    }

    pub fn is_references_empty(&self) -> (r: bool)
        ensures
            r == (self.spec_data().references@.len() == 0),
    {
        self.data.references.is_empty()
    }

    pub fn is_unresolved_references_empty(&self) -> (r: bool)
        ensures
            r == (self.spec_unresolved().len() == 0),
    {
        self.unresolved_references.len() == 0
    }

    pub fn is_unresolved_named_references_empty(&self) -> (r: bool)
        ensures
            r == (self.spec_named().len() == 0),
    {
        self.unresolved_named_references.is_empty()
    }

    pub fn is_connections_empty(&self) -> (r: bool)
        ensures
            r == (self.spec_data().connections@.len() == 0),
    {
        self.data.connections.len() == 0
    }

    pub fn is_class_set(&self) -> (r: bool)
        ensures
            r == (self.spec_data().class is Some),
    {
        self.data.class.is_some()
    }
}

/// The number of instances of a reference: one where none is given.
pub open spec fn default_instances(n: Option<usize>) -> usize {
    match n {
        Some(n) => n,
        None => 1,
    }
}

/// The alias of a reference to `component`: the one given, else the
/// component's name.
pub open spec fn alias_text(module: &Module, component: ComponentId, alias: Option<&str>) -> Seq<
    char,
> {
    match alias {
        Some(a) => a@,
        None => module.text_of(module.component_db@[component.spec_index() as int].name.spec_index()),
    }
}

/// What `add_weak_reference` does to a builder: `before` becomes `after`
/// and it answers `r`, for a reference to the component named `component`
/// with `n_instances` instances, under the alias `alias` if there is one,
/// in a component named `parent`; `module` is the module after the call.
pub open spec fn weak_reference_added(
    before: ComponentBuilder,
    after: ComponentBuilder,
    module: Module,
    component: Seq<char>,
    alias: Option<Seq<char>>,
    n_instances: usize,
    parent: Seq<char>,
    r: Result<ComponentWeakRef, ComponentBuildError>,
) -> bool {
    let w = ComponentWeakRef {
        component: StringId(module.key_of(component) as u32),
        n_instances,
    };
    match alias {
        Some(a) => {
            let k = module.key_of(a) as u32;
            &&& after.spec_unresolved() == before.spec_unresolved()
            &&& after.spec_named() == before.spec_named().insert(k, w)
            &&& before.spec_named().contains_key(k) ==> (r matches Err(
                ComponentBuildError::DuplicateReference { component: c, reference: f },
            ) && c@ == parent && f@ == a)
            &&& !before.spec_named().contains_key(k) ==> r == Ok::<
                ComponentWeakRef,
                ComponentBuildError,
            >(w)
        },
        None => {
            &&& after.spec_named() == before.spec_named()
            &&& before.spec_unresolved().contains(w) ==> (r matches Err(
                ComponentBuildError::DuplicateReference { component: c, reference: f },
            ) && c@ == parent && f@ == component && after.spec_unresolved()
                == before.spec_unresolved())
            &&& !before.spec_unresolved().contains(w) ==> r == Ok::<
                ComponentWeakRef,
                ComponentBuildError,
            >(w) && after.spec_unresolved() == before.spec_unresolved().push(w)
        },
    }
}

/// Pushes `w` unless `v` holds it already; whether it was pushed.
fn push_unique(v: &mut Vec<ComponentWeakRef>, w: ComponentWeakRef) -> (r: bool)
    ensures
        r == !old(v)@.contains(w),
        r ==> final(v)@ == old(v)@.push(w),
        !r ==> final(v)@ == old(v)@,
{
    let mut i: usize = 0;
    while i < v.len()
        invariant
            i <= v@.len(),
            forall|j: int| 0 <= j < i ==> v@[j] != w,
        decreases v@.len() - i,
    {
        if v[i].component.0 == w.component.0 && v[i].n_instances == w.n_instances {
            assert(v@[i as int] == w);
            return false;
        }
        i = i + 1;
    }
    v.push(w);
    true
}

/// A value that stands for a string of a module: a key, or a text to intern.
pub trait GetStringId {
    /// The text this value stands for in `module`.
    spec fn text_in(&self, module: &Module) -> Seq<char>;

    /// The value can be turned into a key of `module`.
    spec fn fits_in(&self, module: &Module) -> bool;

    /// What the value stands for does not change as the strings grow.
    proof fn lemma_grows(&self, a: &Module, b: &Module)
        requires
            a.wf(),
            self.fits_in(a),
            a.strings_grow_to(b),
        ensures
            self.fits_in(b),
            self.text_in(b) == self.text_in(a),
    ;

    /// The key of the string, interning it first if it is new.
    fn get_string_id(&self, module: &mut Module) -> (r: StringId)
        requires
            old(module).wf(),
            old(module).room(1),
            self.fits_in(old(module)),
        ensures
            final(module).wf(),
            old(module).strings_grow_to(final(module)),
            final(module).strings.strings().len() <= old(module).strings.strings().len() + 1,
            final(module).name == old(module).name,
            final(module).component_db == old(module).component_db,
            final(module).components == old(module).components,
            final(module).port_db == old(module).port_db,
            final(module).reference_db == old(module).reference_db,
            final(module).valid_key(r.spec_index()),
            final(module).text_of(r.spec_index()) == self.text_in(old(module)),
    ;
}

impl GetStringId for StringId {
    open spec fn text_in(&self, module: &Module) -> Seq<char> {
        module.text_of(self.spec_index())
    }

    open spec fn fits_in(&self, module: &Module) -> bool {
        module.valid_key(self.spec_index())
    }

    proof fn lemma_grows(&self, a: &Module, b: &Module) {
        lemma_key_kept(a, b, self.spec_index());
    }

    fn get_string_id(&self, module: &mut Module) -> (r: StringId) {
        proof {
            assert(old(module).strings.strings().subrange(
                0,
                old(module).strings.strings().len() as int,
            ) =~= old(module).strings.strings());
        }
        *self
    }
}

impl<'s> GetStringId for &'s str {
    open spec fn text_in(&self, module: &Module) -> Seq<char> {
        (*self)@
    }

    open spec fn fits_in(&self, module: &Module) -> bool {
        true
    }

    proof fn lemma_grows(&self, a: &Module, b: &Module) {
    }

    fn get_string_id(&self, module: &mut Module) -> (r: StringId) {
        module.intern(*self)
    }
}

/// Builds a connection between pins of (references to) components: set
/// its source and sink, then finish.
pub struct ConnectionBuilder {
    source: Option<(super::PinRange, Option<ComponentRefId>)>,
    sink: Option<(super::PinRange, Option<ComponentRefId>)>,
}

impl ConnectionBuilder {
    pub closed spec fn spec_source(&self) -> Option<(super::PinRange, Option<ComponentRefId>)> {
        self.source
    }

    pub closed spec fn spec_sink(&self) -> Option<(super::PinRange, Option<ComponentRefId>)> {
        self.sink
    }

    pub fn set_source(&mut self, pins: super::PinRange, component: Option<ComponentRefId>)
        ensures
            final(self).spec_source() == Some((pins, component)),
            final(self).spec_sink() == old(self).spec_sink(),
    {
        self.source = Some((pins, component));
    }

    pub fn set_sink(&mut self, pins: super::PinRange, component: Option<ComponentRefId>)
        ensures
            final(self).spec_sink() == Some((pins, component)),
            final(self).spec_source() == old(self).spec_source(),
    {
        self.sink = Some((pins, component));
    }

    pub fn is_source_set(&self) -> (r: bool)
        ensures
            r == self.spec_source() is Some,
    {
        self.source.is_some()
    }

    pub fn is_sink_set(&self) -> (r: bool)
        ensures
            r == self.spec_sink() is Some,
    {
        self.sink.is_some()
    }

    /// Adds the connection to `component`, once its source and sink are set.
    pub fn finish(self, component: &mut ComponentData) -> (r: Result<(), super::ConnectionBuildError>)
        ensures
            self.spec_source() is None ==> (r matches Err(super::ConnectionBuildError::MissingField(f))
                && f@ == "source"@ && *final(component) == *old(component)),
            self.spec_source() is Some && self.spec_sink() is None ==> (r matches Err(
                super::ConnectionBuildError::MissingField(f),
            ) && f@ == "sink"@ && *final(component) == *old(component)),
            self.spec_source() is Some && self.spec_sink() is Some ==> (r is Ok && final(component).connections@ == old(component).connections@.push(
                super::Connection {
                    source_component: self.spec_source().unwrap().1,
                    source_pins: self.spec_source().unwrap().0,
                    sink_component: self.spec_sink().unwrap().1,
                    sink_pins: self.spec_sink().unwrap().0,
                },
            ) && final(component).name == old(component).name && final(component).ports
                == old(component).ports && final(component).references == old(component).references && final(component).class == old(component).class),
    {
        let source = match self.source {
            Some(source) => source,
            None => return Err(super::ConnectionBuildError::MissingField("source")),
        };
        let sink = match self.sink {
            Some(sink) => sink,
            None => return Err(super::ConnectionBuildError::MissingField("sink")),
        };
        component.connections.push(super::Connection::new(source.0, sink.0, source.1, sink.1));
        Ok(())
    }
}

/// Builds a connection between pins of components known by name: set its
/// source and sink, then finish.
pub struct WeakConnectionBuilder {
    source: Option<(super::WeakPortPins, Option<StringId>)>,
    sink: Option<(super::WeakPortPins, Option<StringId>)>,
}

impl WeakConnectionBuilder {
    pub closed spec fn spec_source(&self) -> Option<(super::WeakPortPins, Option<StringId>)> {
        self.source
    }

    pub closed spec fn spec_sink(&self) -> Option<(super::WeakPortPins, Option<StringId>)> {
        self.sink
    }

    /// The end of a connection at pins `range` of the port named `port` of
    /// the component named `component` (this one if there is none), with
    /// the names interned.
    fn interface(module: &mut Module, port: &str, range: std::ops::Range<u32>, component: Option<&str>) -> (r: (super::WeakPortPins, Option<StringId>))
        requires
            old(module).wf(),
            old(module).room(2),
        ensures
            final(module).wf(),
            old(module).strings_grow_to(final(module)),
            final(module).strings.strings().len() <= old(module).strings.strings().len() + 2,
            final(module).name == old(module).name,
            final(module).component_db == old(module).component_db,
            final(module).components == old(module).components,
            final(module).port_db == old(module).port_db,
            final(module).reference_db == old(module).reference_db,
            final(module).valid_key(r.0.port.spec_index()),
            final(module).text_of(r.0.port.spec_index()) == port@,
            r.0.range == range,
            component is None ==> r.1 is None,
            component matches Some(c) ==> (r.1 matches Some(k) && final(module).valid_key(
                k.spec_index(),
            ) && final(module).text_of(k.spec_index()) == c@),
    {
        let ghost m0 = *module;
        let port = module.intern(port);
        let ghost m1 = *module;
        proof {
            lemma_grow_refl(module);
        }
        let pins = super::WeakPortPins::new(port, range);
        let component = match component {
            Some(component) => Some(module.intern(component)),
            None => None,
        };
        proof {
            lemma_key_kept(&m1, module, port.spec_index());
            lemma_grow_trans(&m0, &m1, module);
        }
        (pins, component)
    }

    /// Sets the source: pins `range` of the port named `port` of the
    /// component named `component` (this one if there is none).
    pub fn set_source(&mut self, module: &mut Module, port: &str, range: std::ops::Range<u32>, component: Option<&str>)
        requires
            old(module).wf(),
            old(module).room(2),
        ensures
            final(module).wf(),
            old(module).strings_grow_to(final(module)),
            final(module).strings.strings().len() <= old(module).strings.strings().len() + 2,
            final(module).name == old(module).name,
            final(module).component_db == old(module).component_db,
            final(module).components == old(module).components,
            final(module).port_db == old(module).port_db,
            final(module).reference_db == old(module).reference_db,
            final(self).spec_sink() == old(self).spec_sink(),
            final(self).spec_source() matches Some(source) && names_interface(
                *final(module),
                source,
                port@,
                range,
                match component {
                    Some(c) => Some(c@),
                    None => None,
                },
            ),
    {
        let interface = Self::interface(module, port, range, component);
        self.source = Some(interface);
    }

    /// Sets the sink: pins `range` of the port named `port` of the component
    /// named `component` (this one if there is none).
    pub fn set_sink(&mut self, module: &mut Module, port: &str, range: std::ops::Range<u32>, component: Option<&str>)
        requires
            old(module).wf(),
            old(module).room(2),
        ensures
            final(module).wf(),
            old(module).strings_grow_to(final(module)),
            final(module).strings.strings().len() <= old(module).strings.strings().len() + 2,
            final(module).name == old(module).name,
            final(module).component_db == old(module).component_db,
            final(module).components == old(module).components,
            final(module).port_db == old(module).port_db,
            final(module).reference_db == old(module).reference_db,
            final(self).spec_source() == old(self).spec_source(),
            final(self).spec_sink() matches Some(sink) && names_interface(
                *final(module),
                sink,
                port@,
                range,
                match component {
                    Some(c) => Some(c@),
                    None => None,
                },
            ),
    {
        let interface = Self::interface(module, port, range, component);
        self.sink = Some(interface);
    }

    pub fn is_source_set(&self) -> (r: bool)
        ensures
            r == self.spec_source() is Some,
    {
        self.source.is_some()
    }

    pub fn is_sink_set(&self) -> (r: bool)
        ensures
            r == self.spec_sink() is Some,
    {
        self.sink.is_some()
    }

    /// Adds the connection to the builder's unresolved connections, once its
    /// source and sink are set.
    pub fn finish(self, builder: &mut ComponentBuilder) -> (r: Result<(), super::ConnectionBuildError>)
        ensures
            final(builder).spec_data() == old(builder).spec_data(),
            final(builder).spec_unresolved() == old(builder).spec_unresolved(),
            final(builder).spec_named() == old(builder).spec_named(),
            final(builder).spec_name_is_set() == old(builder).spec_name_is_set(),
            self.spec_source() is None ==> (r matches Err(super::ConnectionBuildError::MissingField(f))
                && f@ == "source"@ && final(builder).spec_connections() == old(builder).spec_connections()),
            self.spec_source() is Some && self.spec_sink() is None ==> (r matches Err(
                super::ConnectionBuildError::MissingField(f),
            ) && f@ == "sink"@ && final(builder).spec_connections() == old(builder).spec_connections()),
            self.spec_source() is Some && self.spec_sink() is Some ==> (r is Ok && final(builder).spec_connections() == old(builder).spec_connections().push(
                super::WeakConnection {
                    source_pins: self.spec_source().unwrap().0,
                    source_component: self.spec_source().unwrap().1,
                    sink_pins: self.spec_sink().unwrap().0,
                    sink_component: self.spec_sink().unwrap().1,
                },
            )),
    {
        let source = match self.source {
            Some(source) => source,
            None => return Err(super::ConnectionBuildError::MissingField("source")),
        };
        let sink = match self.sink {
            Some(sink) => sink,
            None => return Err(super::ConnectionBuildError::MissingField("sink")),
        };
        builder.unresolved_connections.push(
            super::WeakConnection {
                source_pins: source.0,
                source_component: source.1,
                sink_pins: sink.0,
                sink_component: sink.1,
            },
        );
        Ok(())
    }
}

/// `end` is the end of a connection at pins `range` of the port named
/// `port`, of the component named `component` if there is one, in `module`.
pub open spec fn names_interface(
    module: Module,
    end: (super::WeakPortPins, Option<StringId>),
    port: Seq<char>,
    range: std::ops::Range<u32>,
    component: Option<Seq<char>>,
) -> bool {
    &&& module.valid_key(end.0.port.spec_index())
    &&& module.text_of(end.0.port.spec_index()) == port
    &&& end.0.range == range
    &&& match component {
        Some(c) => end.1 matches Some(k) && module.valid_key(k.spec_index()) && module.text_of(
            k.spec_index(),
        ) == c,
        None => end.1 is None,
    }
}

} // verus!
