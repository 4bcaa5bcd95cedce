//! Models built from small trees.

use fuchsia_logic::cm_fidl_analyzer::component_model::{
    AnalyzerModelError, CapabilitySource, ComponentInstanceError, ComponentInstanceForAnalyzer,
    ComponentModelForAnalyzer, ExposeDecl, ModelBuilderForAnalyzer, ParentInstance, RouteRequest,
    RouteSource, UseDecl,
};
use fuchsia_logic::cm_fidl_analyzer::component_tree::{
    ComponentDecl, ComponentNode, ComponentTree, EnvironmentExtends, NodeEnvironment, NodePath,
    PartialMoniker,
};
use fuchsia_logic::zircon::Status;
use std::sync::Arc;

/// Runners and debug capabilities are kept by name.
type Environment = NodeEnvironment<Vec<String>, Vec<String>>;
type Tree = ComponentTree<String, Environment>;
type Model = ComponentModelForAnalyzer<Vec<String>, &'static str, u32, String, Environment>;
type Instance = ComponentInstanceForAnalyzer<String, Environment>;

fn moniker(name: &str) -> PartialMoniker {
    PartialMoniker::new(name.to_string(), None)
}

fn path(names: &[&str]) -> NodePath {
    NodePath::new(names.iter().map(|name| moniker(name)).collect())
}

fn text(path: &NodePath) -> String {
    path.monikers.iter().map(|moniker| format!("/{}", moniker.name)).collect()
}

fn node(names: &[&str], children: &[&str], has_program: bool) -> ComponentNode<String, Environment> {
    let node_path = path(names);
    let children = children.iter().map(|name| node_path.extended(moniker(name))).collect();
    ComponentNode {
        node_path,
        children,
        decl: Arc::new(ComponentDecl { has_program, content: names.join("-") }),
        environment: Arc::new(NodeEnvironment {
            name: None,
            extends: EnvironmentExtends::Realm,
            runner_registry: vec!["elf".to_string()],
            debug_registry: vec![],
        }),
    }
}

fn two_node_tree() -> Tree {
    ComponentTree { nodes: vec![node(&["child"], &[], false), node(&[], &["child"], true)] }
}

fn build(tree: &Tree) -> Model {
    match ModelBuilderForAnalyzer::new().build(tree, vec![], "policy", 5) {
        Ok(model) => model,
        Err(path) => panic!("{} is missing", text(&path)),
    }
}

fn instance<'a>(model: &'a Model, id: &NodePath) -> &'a Instance {
    match model.get_instance(id) {
        Ok(instance) => instance,
        Err(ComponentInstanceError::InstanceNotFound(path)) => panic!("no {}", text(&path)),
    }
}

#[test]
fn build_model() {
    let tree = two_node_tree();
    let model = build(&tree);
    assert_eq!(model.len(), 2);

    let child_moniker = PartialMoniker::new("child".to_string(), None);
    let root_id = NodePath::new(vec![]);
    let child_id = root_id.extended(child_moniker.duplicate());
    let other_id = root_id.extended(PartialMoniker::new("other".to_string(), None));

    let root_instance = instance(&model, &root_id);
    let child_instance = instance(&model, &child_id);
    match model.get_instance(&other_id) {
        Err(ComponentInstanceError::InstanceNotFound(path)) => assert!(path.same(&other_id)),
        Ok(_) => panic!("there is no such instance"),
    }

    assert!(root_instance.abs_moniker().same(&path(&[])));
    assert!(child_instance.abs_moniker().same(&path(&["child"])));

    assert_eq!(root_instance.parent, ParentInstance::AboveRoot);
    assert!(model.try_get_parent(root_instance).is_none());
    let parent = model.try_get_parent(child_instance).expect("the child has a parent");
    assert!(parent.abs_moniker().same(root_instance.abs_moniker()));

    let get_child = model.get_live_child(root_instance, &child_moniker);
    assert!(get_child.is_some());
    assert!(get_child.unwrap().abs_moniker().same(child_instance.abs_moniker()));

    let root_environment = root_instance.environment();
    let child_environment = child_instance.environment();

    assert_eq!(root_environment.name(), None);
    assert_eq!(root_environment.parent(), ParentInstance::AboveRoot);

    assert_eq!(child_environment.name(), None);
    match child_environment.parent() {
        ParentInstance::Component(position) => {
            assert!(model.instances[position].abs_moniker().same(root_instance.abs_moniker()))
        }
        ParentInstance::AboveRoot => panic!("child environment's parent should be root component"),
    }

    assert_eq!(*model.try_get_policy_checker(root_instance), "policy");
    assert_eq!(*model.try_get_component_id_index(root_instance), 5);

    assert_eq!(*model.try_get_policy_checker(child_instance), "policy");
    assert_eq!(*model.try_get_component_id_index(child_instance), 5);

    assert!(root_instance.decl().has_program);
    assert_eq!(child_instance.decl().content, "child");
}

#[test]
fn environments_are_those_of_the_tree() {
    let mut tree = two_node_tree();
    tree.nodes[0].environment = Arc::new(NodeEnvironment {
        name: Some("env".to_string()),
        extends: EnvironmentExtends::Nothing,
        runner_registry: vec![],
        debug_registry: vec!["fuchsia.debug".to_string()],
    });
    let model = build(&tree);
    let root = instance(&model, &path(&[])).environment();
    assert_eq!(root.extends(), EnvironmentExtends::Realm);
    assert_eq!(root.runner_registry(), &["elf"]);
    let child = instance(&model, &path(&["child"])).environment();
    assert_eq!(child.name(), Some(&"env".to_string()));
    assert_eq!(child.extends(), EnvironmentExtends::Nothing);
    assert!(child.runner_registry().is_empty());
    assert_eq!(child.debug_registry(), &["fuchsia.debug"]);
}

#[test]
fn every_component_has_its_instance() {
    let tree = ComponentTree {
        nodes: vec![
            node(&[], &["a", "b"], false),
            node(&["a"], &["c", "d"], false),
            node(&["b"], &["c"], false),
            node(&["a", "c"], &[], true),
            node(&["a", "d"], &[], false),
            node(&["b", "c"], &[], false),
            // Nobody declares this one.
            node(&["z"], &[], false),
        ],
    };
    let model = build(&tree);
    assert_eq!(model.len(), 6);
    let order: Vec<String> = model.instances.iter().map(|i| text(&i.node_path)).collect();
    assert_eq!(order, ["", "/a", "/a/c", "/a/d", "/b", "/b/c"]);
    assert!(model.get_instance(&path(&["z"])).is_err());

    let a = instance(&model, &path(&["a"]));
    let c = model.get_live_child(a, &moniker("c")).unwrap();
    assert_eq!(c.decl.content, "a-c");
    assert_eq!(model.try_get_parent(c).unwrap().decl.content, "a");
    assert!(model.get_live_child(a, &moniker("b")).is_none());
    let in_collection = PartialMoniker::new("c".to_string(), Some("coll".to_string()));
    assert!(model.get_live_child(a, &in_collection).is_none());
    assert!(model.live_children_in_collection(a, &"coll".to_string()).is_empty());
}

#[test]
fn missing_components_are_named() {
    let missing = |nodes| match ModelBuilderForAnalyzer::new().build(&Tree { nodes }, (), (), ()) {
        Ok(_) => panic!("a component is missing"),
        Err(path) => text(&path),
    };
    assert_eq!(missing(vec![]), "");
    assert_eq!(missing(vec![node(&[], &["a", "b"], false), node(&["b"], &[], false)]), "/a");
    // What is further down comes before what is further on.
    assert_eq!(
        missing(vec![node(&[], &["a", "b"], false), node(&["a"], &["x"], false)]),
        "/a/x"
    );
}

#[test]
fn namespace_capabilities_are_kept() {
    let tree = two_node_tree();
    let capabilities = vec!["fuchsia.foo".to_string()];
    let model = match ModelBuilderForAnalyzer::new().build(&tree, capabilities, (), ()) {
        Ok(model) => model,
        Err(_) => panic!("nothing is missing"),
    };
    assert_eq!(model.top_instance.namespace_capabilities(), &["fuchsia.foo"]);
}

#[test]
fn sources_have_to_be_executable() {
    let model = build(&two_node_tree());
    let (root, child) = (0, 1);
    assert!(model.check_use_source(&RouteSource::Directory(CapabilitySource::Namespace)).is_ok());
    for source in [RouteSource::Directory, RouteSource::Protocol] {
        assert!(model.check_use_source(&source(CapabilitySource::Component(Ok(root)))).is_ok());
        let error = model
            .check_use_source(&source(CapabilitySource::Component(Ok(child))))
            .expect_err("the child has no program");
        match &error {
            AnalyzerModelError::SourceInstanceNotExecutable(id) => assert_eq!(text(id), "/child"),
            other => panic!("unexpected {:?}", other),
        }
        assert_eq!(error.as_zx_status(), Status::Unavailable);
        let error = model
            .check_use_source(&source(CapabilitySource::Component(Err(Status::NotFound))))
            .expect_err("there is no such component");
        assert!(matches!(error, AnalyzerModelError::ComponentInstanceError(Status::NotFound)));
        assert_eq!(error.as_zx_status(), Status::NotFound);
    }
}

#[test]
fn used_capabilities_are_routed() {
    let model = build(&two_node_tree());
    let target = instance(&model, &path(&["child"]));
    let uses = [
        (UseDecl::Directory(7), RouteRequest::UseDirectory(7)),
        (UseDecl::Event(7), RouteRequest::UseEvent(7)),
        (UseDecl::Protocol(7), RouteRequest::UseProtocol(7)),
        (UseDecl::Service(7), RouteRequest::UseService(7)),
        (UseDecl::Storage(7), RouteRequest::UseStorage(7)),
    ];
    for (use_decl, expected) in uses {
        let route = |request: RouteRequest<i32>, at: &Instance| {
            assert_eq!(request, expected);
            assert!(at.node_path.same(&path(&["child"])));
            Ok(RouteSource::Protocol(CapabilitySource::Component(Ok(0))))
        };
        assert!(model.check_use_capability(use_decl, target, &route).is_ok());
    }
    let refuse = |_: RouteRequest<i32>, _: &Instance| Err(Status::AccessDenied);
    let error = model.check_use_capability(UseDecl::Protocol(1), target, &refuse).unwrap_err();
    assert!(matches!(error, AnalyzerModelError::RoutingError(Status::AccessDenied)));
    assert_eq!(error.as_zx_status(), Status::AccessDenied);
    let not_executable = |_: RouteRequest<i32>, _: &Instance| {
        Ok(RouteSource::Directory(CapabilitySource::Component(Ok(1))))
    };
    assert!(model
        .check_use_capability(UseDecl::Directory(1), target, &not_executable)
        .is_err());
}

#[test]
fn exposed_capabilities_are_routed_if_they_can_be_used() {
    let model = build(&two_node_tree());
    let target = instance(&model, &path(&[]));
    let exposes = [
        (ExposeDecl::Directory(7), RouteRequest::ExposeDirectory(7)),
        (ExposeDecl::Protocol(7), RouteRequest::ExposeProtocol(7)),
        (ExposeDecl::Service(7), RouteRequest::ExposeService(7)),
    ];
    for (expose_decl, expected) in exposes {
        let route = |request: RouteRequest<i32>, _: &Instance| {
            assert_eq!(request, expected);
            Err(Status::NotFound)
        };
        assert!(model.check_use_exposed_capability(expose_decl, target, &route).is_err());
    }
    // Nothing is routed for what cannot be used.
    let never = |_: RouteRequest<i32>, _: &Instance| panic!("not to be routed");
    assert!(model.check_use_exposed_capability(ExposeDecl::Other(7), target, &never).is_ok());
}

#[test]
fn paths_are_compared_by_names_and_collections() {
    let in_collection = PartialMoniker::new("a".to_string(), Some("coll".to_string()));
    assert!(!moniker("a").same(&in_collection));
    assert!(in_collection.same(&in_collection.duplicate()));
    assert!(path(&["a", "b"]).same(&path(&["a"]).extended(moniker("b"))));
    assert!(!path(&["a"]).same(&path(&["a", "b"])));
    assert!(!path(&["a"]).same(&path(&["b"])));
    assert!(two_node_tree().get_node(&path(&["child"])).is_some());
    assert!(two_node_tree().get_node(&path(&["nobody"])).is_none());
}
