//! Building the ports of a component.

use super::{
    lemma_key_kept, lemma_same_text_same_key, ComponentData, Module, PortBuildError, PortClass,
    PortData, PortId, PortKind,
};
use crate::key::OpaqueKey;
use vstd::prelude::*;

verus! {

broadcast use vstd::std_specs::hash::group_hash_axioms;

/// The component data `c` has a port named `s` in `module`.
pub open spec fn has_port_named(module: &Module, c: ComponentData, s: Seq<char>) -> bool {
    exists|k: u32| #[trigger] c.ports@.contains_key(k) && module.text_of(k as nat) == s
}

/// Among keys that are all valid, the key `k` of the text `s` is present
/// exactly when some present key has the text `s`.
pub proof fn lemma_key_in(module: &Module, keys: Set<u32>, k: nat, s: Seq<char>)
    requires
        module.wf(),
        module.valid_key(k),
        module.text_of(k) == s,
        k <= u32::MAX,
        forall|j: u32| #[trigger] keys.contains(j) ==> module.valid_key(j as nat),
    ensures
        keys.contains(k as u32) == exists|j: u32| #[trigger]
            keys.contains(j) && module.text_of(j as nat) == s,
{
    if exists|j: u32| #[trigger] keys.contains(j) && module.text_of(j as nat) == s {
        let j = choose|j: u32| #[trigger] keys.contains(j) && module.text_of(j as nat) == s;
        lemma_same_text_same_key(module, j as nat, k);
    }
}

impl PortData {
    /// The data of a new port named `name` of `parent`, which the module
    /// must know by its name and which must have no port of that name.
    pub(crate) fn new(
        module: &mut Module,
        parent: &mut ComponentData,
        name: &str,
        kind: PortKind,
        n_pins: usize,
        class: Option<PortClass>,
    ) -> (r: Self)
        requires
            old(module).wf(),
            name@.len() == 0 || old(module).room(1),
            old(parent).fits(old(module)),
            old(module).components@.contains_key(old(parent).name.0),
            !has_port_named(old(module), *old(parent), name@),
        ensures
            final(module).wf(),
            old(module).strings_grow_to(final(module)),
            final(module).strings.strings().len() <= old(module).strings.strings().len() + 1,
            name@.len() == 0 ==> final(module).strings.strings() == old(module).strings.strings(),
            final(module).name == old(module).name,
            final(module).component_db == old(module).component_db,
            final(module).components == old(module).components,
            final(module).port_db == old(module).port_db,
            final(module).reference_db == old(module).reference_db,
            *final(parent) == *old(parent),
            final(parent).fits(final(module)),
            final(module).valid_key(r.name.spec_index()),
            final(module).text_of(r.name.spec_index()) == name@,
            !final(parent).ports@.contains_key(r.name.0),
            r.parent == old(module).components@[old(parent).name.0],
            r.kind == kind,
            r.n_pins == n_pins,
            r.class == class,
    {
        let ghost m0 = *module;
        let key = module.intern(name);
        proof {
            lemma_key_kept(&m0, module, parent.name.spec_index());
            assert forall|k: u32| #[trigger] parent.ports@.contains_key(k) implies module.valid_key(
                k as nat,
            ) && module.text_of(k as nat) == m0.text_of(k as nat) by {
                lemma_key_kept(&m0, module, k as nat);
            }
            assert forall|k: u32| #[trigger] parent.references@.contains_key(k) implies module.valid_key(
                k as nat,
            ) by {
                lemma_key_kept(&m0, module, k as nat);
            }
            lemma_key_in(module, parent.ports@.dom(), key.spec_index(), name@);
        }
        let parent_id = *module.components.get(&parent.name.0).unwrap();
        PortData { name: key, parent: parent_id, kind, n_pins, class }
    }

    /// The port's name.
    pub fn name<'m>(&self, module: &'m Module) -> (r: &'m str)
        requires
            module.wf(),
            module.valid_key(self.name.spec_index()),
        ensures
            r@ == module.text_of(self.name.spec_index()),
    {
        module.string(self.name)
    }

    /// Renames the port, interning the new name, and re-keys it in its
    /// component, which must hold it by its old name and have no port of
    /// the new name.
    pub fn rename(&mut self, module: &mut Module, name: &str)
        requires
            old(module).wf(),
            old(module).room(1),
            old(self).parent.spec_index() < old(module).component_db@.len(),
            old(module).component_db@[old(self).parent.spec_index() as int].fits(old(module)),
            old(module).component_db@[old(self).parent.spec_index() as int].ports@.contains_key(
                old(self).name.0,
            ),
            !has_port_named(
                old(module),
                old(module).component_db@[old(self).parent.spec_index() as int],
                name@,
            ),
        ensures
            final(module).wf(),
            old(module).strings_grow_to(final(module)),
            final(module).strings.strings().len() <= old(module).strings.strings().len() + 1,
            final(module).name == old(module).name,
            final(module).components == old(module).components,
            final(module).port_db == old(module).port_db,
            final(module).reference_db == old(module).reference_db,
            final(module).valid_key(final(self).name.spec_index()),
            final(module).text_of(final(self).name.spec_index()) == name@,
            final(self).parent == old(self).parent,
            final(self).kind == old(self).kind,
            final(self).n_pins == old(self).n_pins,
            final(self).class == old(self).class,
            final(module).component_db@ == old(module).component_db@.update(
                old(self).parent.spec_index() as int,
                ComponentData {
                    ports: final(module).component_db@[old(self).parent.spec_index() as int].ports,
                    ..old(module).component_db@[old(self).parent.spec_index() as int]
                },
            ),
            final(module).component_db@[old(self).parent.spec_index() as int].ports@ == old(module).component_db@[old(self).parent.spec_index() as int].ports@.remove(
                old(self).name.0,
            ).insert(
                final(self).name.0,
                old(module).component_db@[old(self).parent.spec_index() as int].ports@[old(self).name.0],
            ),
    {
        let ghost m0 = *module;
        let key = module.intern(name);
        let ghost c0 = module.component_db@[self.parent.spec_index() as int];
        proof {
            assert forall|k: u32| #[trigger] c0.ports@.contains_key(k) implies module.valid_key(
                k as nat,
            ) && module.text_of(k as nat) == m0.text_of(k as nat) by {
                lemma_key_kept(&m0, module, k as nat);
            }
            lemma_key_in(module, c0.ports@.dom(), key.spec_index(), name@);
        }
        let parent = module.component_db.lookup_mut(self.parent);
        let port = parent.ports.remove(&self.name.0).unwrap();
        parent.ports.insert(key.0, port);
        self.name = key;
    }

    /// The component the port belongs to.
    pub fn parent(&self) -> (r: super::ComponentId)
        ensures
            r == self.parent,
    {
        self.parent
    }
}

/// Builds a port of a component: set its name and kind (and maybe its
/// number of pins and class), then finish.
pub struct PortBuilder {
    data: PortData,
    name_is_set: bool,
    kind_is_set: bool,
    n_pins_is_set: bool,
}

impl PortBuilder {
    /// The data of the port being built.
    pub closed spec fn spec_data(&self) -> PortData {
        self.data
    }

    pub closed spec fn spec_name_is_set(&self) -> bool {
        self.name_is_set
    }

    pub closed spec fn spec_kind_is_set(&self) -> bool {
        self.kind_is_set
    }

    pub closed spec fn spec_n_pins_is_set(&self) -> bool {
        self.n_pins_is_set
    }

    /// A builder of an unnamed input port of one pin of `parent`, which the
    /// module must know by its name and which must have no unnamed port.
    pub fn new(module: &mut Module, parent: &mut ComponentData) -> (r: Self)
        requires
            old(module).wf(),
            old(parent).fits(old(module)),
            old(module).components@.contains_key(old(parent).name.0),
            !has_port_named(old(module), *old(parent), Seq::empty()),
        ensures
            final(module).wf(),
            final(module).strings.strings() == old(module).strings.strings(),
            final(module).name == old(module).name,
            final(module).component_db == old(module).component_db,
            final(module).components == old(module).components,
            final(module).port_db == old(module).port_db,
            final(module).reference_db == old(module).reference_db,
            *final(parent) == *old(parent),
            r.spec_data().name.spec_index() == 0,
            r.spec_data().parent == old(module).components@[old(parent).name.0],
            r.spec_data().kind == PortKind::Input,
            r.spec_data().n_pins == 1,
            r.spec_data().class is None,
            !r.spec_name_is_set(),
            !r.spec_kind_is_set(),
            !r.spec_n_pins_is_set(),
    {
        let e = "";
        proof {
            reveal_strlit("");
            assert(e@ =~= Seq::<char>::empty());
        }
        let data = PortData::new(module, parent, e, PortKind::Input, 1, None);
        proof {
            if data.name.spec_index() > 0 {
                crate::stringtable::lemma_nonempty(module.strings, data.name.spec_index());
            }
        }
        PortBuilder { data, name_is_set: false, kind_is_set: false, n_pins_is_set: false }
    }

    /// Names the port (see [`PortData::rename`]).
    pub fn set_name(&mut self, module: &mut Module, name: &str)
        requires
            old(module).wf(),
            old(module).room(1),
            old(self).spec_data().parent.spec_index() < old(module).component_db@.len(),
            old(module).component_db@[old(self).spec_data().parent.spec_index() as int].fits(
                old(module),
            ),
            old(module).component_db@[old(self).spec_data().parent.spec_index() as int].ports@.contains_key(
                old(self).spec_data().name.0,
            ),
            !has_port_named(
                old(module),
                old(module).component_db@[old(self).spec_data().parent.spec_index() as int],
                name@,
            ),
        ensures
            final(module).wf(),
            old(module).strings_grow_to(final(module)),
            final(module).text_of(final(self).spec_data().name.spec_index()) == name@,
            final(module).valid_key(final(self).spec_data().name.spec_index()),
            final(self).spec_data().parent == old(self).spec_data().parent,
            final(self).spec_data().kind == old(self).spec_data().kind,
            final(self).spec_data().n_pins == old(self).spec_data().n_pins,
            final(self).spec_data().class == old(self).spec_data().class,
            final(self).spec_name_is_set(),
            final(self).spec_kind_is_set() == old(self).spec_kind_is_set(),
            final(self).spec_n_pins_is_set() == old(self).spec_n_pins_is_set(),
    {
        self.data.rename(module, name);
        self.name_is_set = true;
    }

    pub fn set_kind(&mut self, kind: PortKind)
        ensures
            final(self).spec_data() == (PortData { kind, ..old(self).spec_data() }),
            final(self).spec_kind_is_set(),
            final(self).spec_name_is_set() == old(self).spec_name_is_set(),
            final(self).spec_n_pins_is_set() == old(self).spec_n_pins_is_set(),
    {
        self.data.kind = kind;
        self.kind_is_set = true;
    }

    pub fn set_n_pins(&mut self, n_pins: usize)
        ensures
            final(self).spec_data() == (PortData { n_pins, ..old(self).spec_data() }),
            final(self).spec_n_pins_is_set(),
            final(self).spec_name_is_set() == old(self).spec_name_is_set(),
            final(self).spec_kind_is_set() == old(self).spec_kind_is_set(),
    {
        self.data.n_pins = n_pins;
        self.n_pins_is_set = true;
    }

    pub fn set_class(&mut self, class: PortClass)
        ensures
            final(self).spec_data() == (PortData { class: Some(class), ..old(self).spec_data() }),
            final(self).spec_name_is_set() == old(self).spec_name_is_set(),
            final(self).spec_kind_is_set() == old(self).spec_kind_is_set(),
            final(self).spec_n_pins_is_set() == old(self).spec_n_pins_is_set(),
    {
        self.data.class = Some(class);
    }

    /// The data of the port being built.
    pub fn data(&self) -> (r: &PortData)
        ensures
            *r == self.spec_data(),
    {
        &self.data
    }

    pub fn is_name_set(&self) -> (r: bool)
        ensures
            r == self.spec_name_is_set(),
    {
        self.name_is_set
    }

    pub fn is_kind_set(&self) -> (r: bool)
        ensures
            r == self.spec_kind_is_set(),
    {
        self.kind_is_set
    }

    pub fn is_n_pins_set(&self) -> (r: bool)
        ensures
            r == self.spec_n_pins_is_set(),
    {
        self.n_pins_is_set
    }

    pub fn is_class_set(&self) -> (r: bool)
        ensures
            r == self.spec_data().class is Some,
    {
        self.data.class.is_some()
    }

    /// Adds the port to the module and to `parent`, once it is named and
    /// has a kind. A port of the same name in `parent` is an error, though
    /// `parent` then knows the name by the new port.
    pub fn finish(self, module: &mut Module, parent: &mut ComponentData) -> (r: Result<
        PortId,
        PortBuildError,
    >)
        requires
            old(module).wf(),
            old(module).valid_key(self.spec_data().name.spec_index()),
            old(module).port_db@.len() < <PortId as OpaqueKey>::spec_max_index(),
        ensures
            final(module).wf(),
            final(module).strings == old(module).strings,
            final(module).name == old(module).name,
            final(module).component_db == old(module).component_db,
            final(module).components == old(module).components,
            final(module).reference_db == old(module).reference_db,
            !self.spec_name_is_set() ==> *final(module) == *old(module) && *final(parent) == *old(
                parent) && (r matches Err(PortBuildError::MissingField(f)) && f@ == "name"@),
            self.spec_name_is_set() && !self.spec_kind_is_set() ==> *final(module) == *old(module)
                && *final(parent) == *old(parent) && (r matches Err(PortBuildError::MissingField(f))
                && f@ == "kind"@),
            self.spec_name_is_set() && self.spec_kind_is_set() ==> {
                &&& final(module).port_db@ == old(module).port_db@.push(self.spec_data())
                &&& final(parent).ports@ == old(parent).ports@.insert(
                    self.spec_data().name.0,
                    PortId(old(module).port_db@.len() as u32),
                )
                &&& final(parent).name == old(parent).name
                &&& final(parent).references == old(parent).references
                &&& final(parent).connections == old(parent).connections
                &&& final(parent).class == old(parent).class
                &&& old(parent).ports@.contains_key(self.spec_data().name.0) ==> (r matches Err(
                    PortBuildError::DuplicatePort { module: m, port: p },
                ) && m@ == old(module).spec_name() && p@ == old(module).text_of(
                    self.spec_data().name.spec_index(),
                ))
                &&& !old(parent).ports@.contains_key(self.spec_data().name.0) ==> r == Ok::<
                    PortId,
                    PortBuildError,
                >(PortId(old(module).port_db@.len() as u32))
            },
            r matches Ok(p) ==> final(parent).ports@[self.spec_data().name.0] == p && final(module).port_db@[p.spec_index() as int].name == self.spec_data().name,
    {
        if !self.name_is_set {
            return Err(PortBuildError::MissingField("name"));
        }
        if !self.kind_is_set {
            return Err(PortBuildError::MissingField("kind"));
        }
        let name = self.data.name;
        let ghost m0 = *module;
        let port = module.port_db.entry(self.data);
        proof {
            assert forall|i: int| 0 <= i < module.port_db@.len() implies module.valid_key(
                (#[trigger] module.port_db@[i]).name.spec_index(),
            ) by {
                if i < m0.port_db@.len() {
                    assert(module.port_db@[i] == m0.port_db@[i]);
                }
            }
            assert(port == PortId(m0.port_db@.len() as u32));
        }
        if parent.ports.insert(name.0, port).is_some() {
            let port = module.string(name).to_owned();
            let module_name = module.name().to_owned();
            return Err(PortBuildError::DuplicatePort { module: module_name, port });
        }
        Ok(port)
    }
}

} // verus!
