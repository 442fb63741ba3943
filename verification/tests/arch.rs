use vts::arch::{
    ComponentId, ComponentRefData, ComponentRefId, Module, ModuleBuilder, PinRange, PortId, StringId,
};

#[test]
fn module_test_module() {
    let mut _module = Module::new("test_mod");
}

#[test]
fn mod_test_module() {
    let mut _module = Module::new("test_mod");
}

#[test]
fn test_module_names() {
    let mut module = Module::new("top");
    assert_eq!(module.name(), "top");
    module.rename("other");
    assert_eq!(module.name(), "other");
    let mut builder = ModuleBuilder::new();
    assert!(!builder.is_name_set());
    assert!(builder.is_components_empty());
    builder.set_name("m");
    assert!(builder.is_name_set());
    let m = builder.finish().ok().unwrap();
    assert_eq!(m.name(), "m");
    assert!(ModuleBuilder::new().finish().is_err());
}

#[test]
fn test_arch_data() {
    let r = ComponentRefData::new(ComponentId(1), StringId(2), 3);
    assert_eq!((r.component, r.alias, r.n_instances), (ComponentId(1), StringId(2), 3));
    let p = PinRange::new(PortId(4), 0..8);
    assert_eq!(p.port, PortId(4));
    assert_eq!(p.range, 0..8);
}

use vts::arch::component::{ConnectionBuilder, WeakConnectionBuilder};
use vts::arch::{
    ComponentBuildError, ComponentClass, ComponentWeakRef, ConnectionBuildError, ModuleBuildError,
};

fn key_of(module: &Module, text: &str) -> StringId {
    module.strings.rlookup(text).unwrap()
}

#[test]
fn test_component_builder_references() {
    let mut mb = ModuleBuilder::new();
    mb.set_name("top");
    let mut cb = mb.add_component();
    assert!(!cb.is_name_set());
    cb.set_name(mb.module_mut(), "lut");
    assert!(cb.is_name_set());
    cb.set_class(ComponentClass::Lut);
    assert!(cb.is_class_set());

    let weak = cb.add_weak_reference(mb.module_mut(), "ff", None, None).unwrap();
    let ff = key_of(mb.module_mut(), "ff");
    assert_eq!(weak, ComponentWeakRef { component: ff, n_instances: 1 });
    match cb.add_weak_reference(mb.module_mut(), "ff", None, None) {
        Err(ComponentBuildError::DuplicateReference { component, reference }) => {
            assert_eq!((component.as_str(), reference.as_str()), ("lut", "ff"));
        }
        other => panic!("unexpected {:?}", other),
    }
    // The same component with another number of instances is another reference.
    assert!(cb.add_weak_reference(mb.module_mut(), "ff", None, Some(2)).is_ok());
    let named = cb.add_weak_reference(mb.module_mut(), "ff", Some("reg"), Some(4)).unwrap();
    assert_eq!(named.n_instances, 4);
    match cb.add_weak_reference(mb.module_mut(), "ff", Some("reg"), None) {
        Err(ComponentBuildError::DuplicateReference { component, reference }) => {
            assert_eq!((component.as_str(), reference.as_str()), ("lut", "reg"));
        }
        other => panic!("unexpected {:?}", other),
    }
    assert!(!cb.is_unresolved_references_empty());
    assert!(!cb.is_unresolved_named_references_empty());

    let (id, refs, named) = cb.finish(mb.module_mut()).ok().unwrap();
    assert_eq!(refs.len(), 2);
    assert_eq!(named.len(), 1);
    let module = mb.module_mut();
    let data = module.get_component(id).unwrap();
    assert_eq!(data.name(module), "lut");
    assert_eq!(data.class, Some(ComponentClass::Lut));
    assert!(module.get_component(ComponentId(7)).is_none());
}

#[test]
fn test_component_builder_errors() {
    let mut module = Module::new("top");
    let cb = vts::arch::component::ComponentBuilder::new(&mut module);
    match cb.finish(&mut module) {
        Err(ComponentBuildError::MissingField(f)) => assert_eq!(f, "name"),
        other => panic!("unexpected {:?}", other.map(|r| r.0)),
    }
    let mut a = vts::arch::component::ComponentBuilder::new(&mut module);
    a.set_name(&mut module, "x");
    let mut b = vts::arch::component::ComponentBuilder::new(&mut module);
    b.set_name(&mut module, "x");
    assert!(a.finish(&mut module).is_ok());
    match b.finish(&mut module) {
        Err(ComponentBuildError::DuplicateComponent { module: m, component }) => {
            assert_eq!((m.as_str(), component.as_str()), ("top", "x"));
        }
        other => panic!("unexpected {:?}", other.map(|r| r.0)),
    }
}

#[test]
fn test_add_reference() {
    let mut module = Module::new("top");
    let mut ff = vts::arch::component::ComponentBuilder::new(&mut module);
    ff.set_name(&mut module, "ff");
    let (ff_id, _, _) = ff.finish(&mut module).ok().unwrap();
    let mut lut = vts::arch::component::ComponentBuilder::new(&mut module);
    lut.set_name(&mut module, "lut");
    let r = lut.add_reference(&mut module, ff_id, None, Some(2)).unwrap();
    assert_eq!(r, ComponentRefId(0));
    assert_eq!(module.reference_db.len(), 1);
    let data = module.reference_db.lookup(r);
    assert_eq!((data.component, data.n_instances), (ff_id, 2));
    assert_eq!(module.string(data.alias), "ff");
    match lut.add_reference(&mut module, ff_id, Some("ff"), None) {
        Err(ComponentBuildError::DuplicateReference { component, reference }) => {
            assert_eq!((component.as_str(), reference.as_str()), ("ff", "ff"));
        }
        other => panic!("unexpected {:?}", other),
    }
    assert_eq!(lut.add_reference(&mut module, ff_id, Some("other"), None).unwrap(), ComponentRefId(2));
    assert!(!lut.is_references_empty());
}

#[test]
fn test_connection_builders() {
    let mut module = Module::new("top");
    let mut cb = vts::arch::component::ComponentBuilder::new(&mut module);
    cb.set_name(&mut module, "lut");

    let conn: ConnectionBuilder = cb.add_connection();
    match conn.finish(cb.data_mut()) {
        Err(ConnectionBuildError::MissingField(f)) => assert_eq!(f, "source"),
        Ok(()) => panic!("a connection needs a source"),
    }
    let mut conn = cb.add_connection();
    conn.set_source(PinRange::new(PortId(0), 0..1), None);
    assert!(conn.is_source_set() && !conn.is_sink_set());
    match conn.finish(cb.data_mut()) {
        Err(ConnectionBuildError::MissingField(f)) => assert_eq!(f, "sink"),
        Ok(()) => panic!("a connection needs a sink"),
    }
    let mut conn = cb.add_connection();
    conn.set_source(PinRange::new(PortId(0), 0..1), None);
    conn.set_sink(PinRange::new(PortId(1), 0..1), Some(ComponentRefId(0)));
    assert!(conn.finish(cb.data_mut()).is_ok());
    assert!(!cb.is_connections_empty());
    assert_eq!(cb.data().connections.len(), 1);

    let mut weak: WeakConnectionBuilder = cb.add_weak_connection();
    weak.set_source(&mut module, "O", 0..1, Some("ff"));
    assert!(weak.is_source_set());
    match weak.finish(&mut cb) {
        Err(ConnectionBuildError::MissingField(f)) => assert_eq!(f, "sink"),
        Ok(()) => panic!("a connection needs a sink"),
    }
    let mut weak = cb.add_weak_connection();
    weak.set_source(&mut module, "O", 0..1, Some("ff"));
    weak.set_sink(&mut module, "I", 2..3, None);
    assert!(weak.finish(&mut cb).is_ok());
    assert!(module.strings.rlookup("O").is_some());
    assert!(module.strings.rlookup("I").is_some());
}

#[test]
fn test_resolve_references() {
    let mut mb = ModuleBuilder::new();
    mb.set_name("top");
    let mut ff = mb.add_component();
    ff.set_name(mb.module_mut(), "ff");
    ff.finish(mb.module_mut()).ok().unwrap();
    let mut lut = mb.add_component();
    lut.set_name(mb.module_mut(), "lut");
    let w = lut.add_weak_reference(mb.module_mut(), "ff", None, Some(3)).unwrap();
    let missing = lut.add_weak_reference(mb.module_mut(), "nothere", None, None).unwrap();
    let (lut_id, _, _) = lut.finish(mb.module_mut()).ok().unwrap();

    assert!(mb.resolve_references(lut_id, &[(None, w)]).is_ok());
    {
        let module = mb.module_mut();
        let data = module.component(lut_id);
        assert_eq!(data.references.len(), 1);
        let r = *data.references.get(&key_of(module, "ff").0).unwrap();
        assert_eq!(module.reference_db.lookup(r).n_instances, 3);
    }
    match mb.resolve_references(lut_id, &[(None, w)]) {
        Err(ModuleBuildError::DuplicateReference { component, reference }) => {
            assert_eq!((component.as_str(), reference.as_str()), ("lut", "ff"));
        }
        other => panic!("unexpected {:?}", other),
    }
    let alias = key_of(mb.module_mut(), "lut");
    assert!(mb.resolve_references(lut_id, &[(Some(alias), w)]).is_ok());
    match mb.resolve_references(lut_id, &[(None, missing)]) {
        Err(ModuleBuildError::UndefinedReference { component, reference }) => {
            assert_eq!((component.as_str(), reference.as_str()), ("lut", "nothere"));
        }
        other => panic!("unexpected {:?}", other),
    }
    let module = mb.finish().ok().unwrap();
    assert_eq!(module.name(), "top");
}

#[test]
fn test_component_views() {
    let mut mb = ModuleBuilder::new();
    mb.set_name("top");
    let mut ff = mb.add_component();
    ff.set_name(mb.module_mut(), "ff");
    ff.set_class(ComponentClass::Latch);
    let (ff_id, _, _) = ff.finish(mb.module_mut()).ok().unwrap();
    let mut lut = mb.add_component();
    lut.set_name(mb.module_mut(), "lut");
    let r = lut.add_reference(mb.module_mut(), ff_id, Some("reg"), Some(2)).unwrap();
    let (lut_id, _, _) = lut.finish(mb.module_mut()).ok().unwrap();
    let module = mb.finish().ok().unwrap();

    let lut = lut_id.to_component(&module);
    assert_eq!(lut.name(), "lut");
    assert_eq!(lut.class(), None);
    assert!(lut.ports().is_empty());
    let refs = lut.references();
    assert_eq!(refs.len(), 1);
    assert_eq!(refs[0].0, "reg");
    assert_eq!(refs[0].1.alias(), "reg");
    assert_eq!(refs[0].1.n_instances(), 2);
    assert_eq!(refs[0].1.component().name(), "ff");
    assert_eq!(r.to_component(&module).name(), "ff");
    assert_eq!(r.to_reference(&module).n_instances(), 2);
    assert_eq!(ff_id.to_component(&module).class(), Some(ComponentClass::Latch));

    let mut names: Vec<&str> = module.components().iter().map(|c| c.name()).collect();
    names.sort();
    assert_eq!(names, vec!["ff", "lut"]);
    assert!(module.component(lut_id).get_port(&module, PortId(0)).is_none());
    assert_eq!(module.component_id("lut"), Some(lut_id));
    assert_eq!(module.component_id("ff"), Some(ff_id));
    assert_eq!(module.component_id("reg"), None);
    assert_eq!(module.component_id("nothing"), None);
    let mut module = module;
    module.get_component_mut(lut_id).unwrap().class = Some(ComponentClass::Lut);
    assert_eq!(module.component(lut_id).class, Some(ComponentClass::Lut));
    assert!(module.get_component_mut(ComponentId(9)).is_none());
}

use std::collections::HashMap;
use vts::arch::port::PortBuilder;
use vts::arch::{ComponentData, PortBuildError, PortClass, PortData, PortKind};

fn component_data(name: StringId) -> ComponentData {
    ComponentData {
        name,
        ports: HashMap::new(),
        references: HashMap::new(),
        connections: Vec::new(),
        class: None,
    }
}

#[test]
fn test_port_views() {
    let mut module = Module::new("top");
    let clk = module.strings.entry("clk");
    let p = module.port_db.entry(PortData {
        name: clk,
        parent: ComponentId(0),
        kind: PortKind::Input,
        n_pins: 1,
        class: Some(PortClass::Clock),
    });
    let port = p.to_port(&module);
    assert_eq!(port.name(), "clk");
    assert_eq!(port.kind(), PortKind::Input);
    assert_eq!(port.n_pins(), 1);
    assert_eq!(port.class(), Some(PortClass::Clock));
    assert_eq!(port.select(0..1), PinRange::new(p, 0..1));
    assert_eq!(module.port(p).parent(), ComponentId(0));
}

#[test]
fn test_port_builder() {
    let mut module = Module::new("top");
    let name = module.strings.entry("ff");
    let id = module.component_db.entry(component_data(name));
    module.components.insert(name.0, id);
    // The registered component holds the port being built under its
    // current (empty) name, as renaming a port requires.
    module.component_db.lookup_mut(id).ports.insert(0, PortId(0));
    let mut parent = component_data(name);

    let mut builder = PortBuilder::new(&mut module, &mut parent);
    assert!(!builder.is_name_set() && !builder.is_kind_set() && !builder.is_n_pins_set());
    builder.set_name(&mut module, "q");
    builder.set_kind(PortKind::Output);
    builder.set_n_pins(4);
    builder.set_class(PortClass::LatchOut);
    assert!(builder.is_class_set());
    let q = module.strings.rlookup("q").unwrap();
    assert!(module.component(id).ports.contains_key(&q.0));
    let port = builder.finish(&mut module, &mut parent).ok().unwrap();
    assert_eq!(port, PortId(0));
    assert_eq!(parent.ports.get(&q.0), Some(&port));
    let data = module.port(port);
    assert_eq!((data.kind, data.n_pins, data.class), (PortKind::Output, 4, Some(PortClass::LatchOut)));
    assert_eq!(data.name(&module), "q");
    assert_eq!(parent.get_port(&module, port).map(|d| d.n_pins), Some(4));
    assert_eq!(parent.port_id(&module, "q"), Some(port));
    parent.get_port_mut(&mut module, port).unwrap().n_pins = 8;
    assert_eq!(module.port(port).n_pins, 8);
    assert!(component_data(name).get_port_mut(&mut module, port).is_none());
    assert_eq!(parent.port_id(&module, "d"), None);
    assert_eq!(parent.port_id(&module, "ff"), None);

    let builder = PortBuilder::new(&mut module, &mut component_data(name));
    match builder.finish(&mut module, &mut parent) {
        Err(PortBuildError::MissingField(f)) => assert_eq!(f, "name"),
        other => panic!("unexpected {:?}", other.ok()),
    }
}

#[test]
fn test_split_references() {
    let mut module = Module::new("top");
    let mut ff = vts::arch::component::ComponentBuilder::new(&mut module);
    ff.set_name(&mut module, "ff");
    let (ff_id, _, _) = ff.finish(&mut module).ok().unwrap();
    let mut lut = vts::arch::component::ComponentBuilder::new(&mut module);
    lut.set_name(&mut module, "lut");
    let plain = lut.add_reference(&mut module, ff_id, None, None).unwrap();
    let aliased = lut.add_reference(&mut module, ff_id, Some("reg"), None).unwrap();
    let (lut_id, _, _) = lut.finish(&mut module).ok().unwrap();
    let (unnamed, named) = module.component(lut_id).split_references(&module);
    assert_eq!(unnamed, vec![plain]);
    let reg = module.strings.rlookup("reg").unwrap();
    assert_eq!(named, vec![(reg, aliased)]);
}
