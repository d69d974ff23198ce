use rox::registry::{NodeRef, NodeRegistry, RegistryError};

/// A factory that makes a node known by its name.
type Factory = Box<dyn Fn() -> String>;

fn dummy(name: &'static str) -> Factory {
    Box::new(move || name.to_string())
}

fn node(id: &str, node_type: &str) -> NodeRef {
    NodeRef { id: id.to_string(), node_type: node_type.to_string() }
}

#[test]
fn test_register_and_create() {
    let mut registry: NodeRegistry<Factory> = NodeRegistry::new();
    registry.register("test::Dummy", dummy("dummy"));

    assert!(registry.has("test::Dummy"));
    assert_eq!(registry.len(), 1);

    let config = node("node1", "test::Dummy");
    let factory = registry.create(&config).unwrap();
    assert_eq!(factory(), "dummy");
}

#[test]
fn test_missing_factory() {
    let registry: NodeRegistry<Factory> = NodeRegistry::new();
    let config = node("node1", "nonexistent::Type");
    let err = registry.create(&config).err().unwrap();
    assert_eq!(
        err.message(),
        "no factory registered for node type 'nonexistent::Type' (node id: 'node1')"
    );
}

#[test]
fn test_validate_config() {
    let mut registry: NodeRegistry<Factory> = NodeRegistry::new();
    registry.register("test::A", dummy("a"));

    let nodes = vec![node("a", "test::A"), node("b", "test::B")];

    let result = registry.validate_config(&nodes);
    assert!(result.is_err());
    assert!(result.unwrap_err().message().contains("test::B"));
}

#[test]
fn validation_lists_every_missing_type_in_order() {
    let mut registry: NodeRegistry<Factory> = NodeRegistry::new();
    assert!(registry.is_empty());
    registry.register("t::A", dummy("a"));
    registry.register("t::A", dummy("a2"));
    assert_eq!(registry.len(), 1);
    assert_eq!(registry.create(&node("x", "t::A")).unwrap()(), "a2");
    registry.register("t::C", dummy("c"));
    assert_eq!(registry.registered_types(), vec!["t::A", "t::C"]);
    assert!(registry.validate_config(&[node("x", "t::A"), node("y", "t::C")]).is_ok());
    let err = registry
        .validate_config(&[node("b", "t::B"), node("x", "t::A"), node("d", "t::D")])
        .unwrap_err();
    match &err {
        RegistryError::MissingFactories(items) => assert_eq!(items.len(), 2),
        _ => panic!("expected MissingFactories"),
    }
    assert_eq!(
        err.message(),
        "missing node factories: 't::B' (node 'b'), 't::D' (node 'd')"
    );
}
