//! The realm protocol against a scripted component model.

use fuchsia_logic::component_manager::framework::{
    BindEvent, CapabilityProvider, ChildDecl, ChildRef, ChildStep, Error, Event, EventType,
    InternalCapability, ModelError, OpenEvent, ParentState, RealmCapabilityHost,
    RealmCapabilityProvider, StartupMode,
};

fn child(name: &str, collection: Option<&str>) -> ChildRef {
    ChildRef { name: name.to_string(), collection: collection.map(|c| c.to_string()) }
}

fn child_decl(name: &str) -> ChildDecl {
    ChildDecl {
        name: Some(name.to_string()),
        url: Some(format!("test:///{}", name)),
        startup: Some(StartupMode::Lazy),
        environment: None,
    }
}

fn names(children: &[ChildRef]) -> Vec<(String, Option<String>)> {
    children.iter().map(|c| (c.name.clone(), c.collection.clone())).collect()
}

/// A component with collections, of which it tells the host what a component model would.
struct Component {
    alive: bool,
    transient_collections: Vec<String>,
    persistent_collections: Vec<String>,
    live_children: Vec<ChildRef>,
}

impl Component {
    fn new(transient: &[&str], persistent: &[&str], children: Vec<ChildRef>) -> Component {
        Component {
            alive: true,
            transient_collections: transient.iter().map(|c| c.to_string()).collect(),
            persistent_collections: persistent.iter().map(|c| c.to_string()).collect(),
            live_children: children,
        }
    }

    fn parent(&self) -> ParentState {
        if self.alive {
            ParentState::Resolved
        } else {
            ParentState::Died
        }
    }

    fn create_child(&mut self, collection: &str, decl: ChildDecl) -> Result<(), Error> {
        let is_valid = decl.name.is_some() && decl.url.is_some() && decl.startup.is_some();
        let (collection, decl) =
            RealmCapabilityHost::create_child(self.alive, is_valid, collection.to_string(), decl)?;
        RealmCapabilityHost::child_added(self.add_dynamic_child(collection, decl))
    }

    fn add_dynamic_child(&mut self, collection: String, decl: ChildDecl) -> Result<(), ModelError> {
        if self.persistent_collections.contains(&collection) {
            return Err(ModelError::Unsupported);
        }
        if !self.transient_collections.contains(&collection) {
            return Err(ModelError::CollectionNotFound);
        }
        if decl.startup == Some(StartupMode::Eager) {
            return Err(ModelError::Unsupported);
        }
        let new = ChildRef { name: decl.name.unwrap(), collection: Some(collection) };
        if names(&self.live_children).contains(&(new.name.clone(), new.collection.clone())) {
            return Err(ModelError::InstanceAlreadyExists);
        }
        self.live_children.push(new);
        Ok(())
    }

    fn destroy_child(&mut self, child: ChildRef) -> Result<(), Error> {
        let child = RealmCapabilityHost::destroy_child(self.alive, child)?;
        let wanted = names(&[child]).remove(0);
        let before = self.live_children.len();
        self.live_children.retain(|c| (c.name.clone(), c.collection.clone()) != wanted);
        RealmCapabilityHost::child_removed(if self.live_children.len() < before {
            Ok(())
        } else {
            Err(ModelError::InstanceNotFoundInRealm)
        })
    }

    fn list_children(&self, collection: &str) -> Result<Vec<ChildRef>, Error> {
        let collection = collection.to_string();
        let collections =
            [self.transient_collections.clone(), self.persistent_collections.clone()].concat();
        RealmCapabilityHost::list_children(
            self.parent(),
            &collections,
            &self.live_children,
            &collection,
            true,
        )
    }

    fn bind_child(
        &self,
        child: &ChildRef,
        bound: Result<(), ModelError>,
        opened: Result<(), ModelError>,
    ) -> Result<(), Error> {
        let found = RealmCapabilityHost::get_child(self.parent(), &self.live_children, child);
        match RealmCapabilityHost::bind_child(BindEvent::Found(found)) {
            ChildStep::Respond(response) => return response,
            step => {
                let i = found.unwrap().unwrap();
                assert_eq!(step, ChildStep::Bind(i));
                assert_eq!(self.live_children[i].name, child.name);
            }
        }
        match RealmCapabilityHost::bind_child(BindEvent::Bound(bound)) {
            ChildStep::Respond(response) => return response,
            step => assert_eq!(step, ChildStep::OpenExposed),
        }
        match RealmCapabilityHost::bind_child(BindEvent::Opened(opened)) {
            ChildStep::Respond(response) => response,
            step => panic!("unexpected {:?}", step),
        }
    }

    fn open_exposed_dir(
        &self,
        child: &ChildRef,
        resolved: Result<(), ModelError>,
        opened: Result<(), ModelError>,
    ) -> Result<(), Error> {
        let found = RealmCapabilityHost::get_child(self.parent(), &self.live_children, child);
        match RealmCapabilityHost::open_exposed_dir(OpenEvent::Found(found)) {
            ChildStep::Respond(response) => return response,
            step => assert_eq!(step, ChildStep::Resolve(found.unwrap().unwrap())),
        }
        match RealmCapabilityHost::open_exposed_dir(OpenEvent::Resolved(resolved)) {
            ChildStep::Respond(response) => return response,
            step => assert_eq!(step, ChildStep::OpenExposed),
        }
        match RealmCapabilityHost::open_exposed_dir(OpenEvent::Opened(opened)) {
            ChildStep::Respond(response) => response,
            step => panic!("unexpected {:?}", step),
        }
    }
}

#[test]
fn create_dynamic_child() {
    let mut system = Component::new(&["coll"], &[], vec![]);
    assert_eq!(system.create_child("coll", child_decl("a")), Ok(()));
    assert_eq!(system.create_child("coll", child_decl("b")), Ok(()));
    assert_eq!(
        names(&system.live_children),
        names(&[child("a", Some("coll")), child("b", Some("coll"))])
    );
}

#[test]
fn create_dynamic_child_errors() {
    let mut system = Component::new(&["coll"], &["pcoll"], vec![]);

    // Invalid arguments.
    let no_url = ChildDecl { url: None, ..child_decl("a") };
    assert_eq!(system.create_child("coll", no_url), Err(Error::InvalidArguments));
    let with_environment = ChildDecl { environment: Some("env".to_string()), ..child_decl("a") };
    assert_eq!(system.create_child("coll", with_environment), Err(Error::InvalidArguments));

    // Instance already exists.
    assert_eq!(system.create_child("coll", child_decl("a")), Ok(()));
    assert_eq!(
        system.create_child("coll", child_decl("a")),
        Err(Error::InstanceAlreadyExists)
    );

    // Collection not found.
    assert_eq!(
        system.create_child("nonexistent", child_decl("a")),
        Err(Error::CollectionNotFound)
    );

    // Unsupported.
    assert_eq!(system.create_child("pcoll", child_decl("a")), Err(Error::Unsupported));
    let eager = ChildDecl { startup: Some(StartupMode::Eager), ..child_decl("b") };
    assert_eq!(system.create_child("coll", eager), Err(Error::Unsupported));

    // Anything else.
    assert_eq!(
        RealmCapabilityHost::child_added(Err(ModelError::Other)),
        Err(Error::Internal)
    );

    // Instance died.
    system.alive = false;
    assert_eq!(system.create_child("coll", child_decl("b")), Err(Error::InstanceDied));
}

#[test]
fn destroy_dynamic_child() {
    let mut system = Component::new(&["coll"], &[], vec![]);
    assert_eq!(system.create_child("coll", child_decl("a")), Ok(()));
    assert_eq!(system.create_child("coll", child_decl("b")), Ok(()));
    assert_eq!(system.destroy_child(child("a", Some("coll"))), Ok(()));
    assert_eq!(names(&system.live_children), names(&[child("b", Some("coll"))]));
    assert_eq!(system.create_child("coll", child_decl("a")), Ok(()));
    assert_eq!(
        names(&system.live_children),
        names(&[child("b", Some("coll")), child("a", Some("coll"))])
    );
}

#[test]
fn destroy_dynamic_child_errors() {
    let mut system = Component::new(&["coll"], &[], vec![]);
    assert_eq!(system.create_child("coll", child_decl("a")), Ok(()));

    assert_eq!(system.destroy_child(child("a", None)), Err(Error::InvalidArguments));
    assert_eq!(
        system.destroy_child(child("b", Some("coll"))),
        Err(Error::InstanceNotFound)
    );
    assert_eq!(
        RealmCapabilityHost::child_removed(Err(ModelError::Unsupported)),
        Err(Error::Unsupported)
    );
    assert_eq!(
        RealmCapabilityHost::child_removed(Err(ModelError::CollectionNotFound)),
        Err(Error::Internal)
    );

    system.alive = false;
    assert_eq!(system.destroy_child(child("a", Some("coll"))), Err(Error::InstanceDied));
}

#[test]
fn bind_static_child() {
    let root = Component::new(&[], &[], vec![child("system", None)]);
    assert_eq!(root.bind_child(&child("system", None), Ok(()), Ok(())), Ok(()));
}

#[test]
fn bind_dynamic_child() {
    let mut root = Component::new(&["coll"], &[], vec![]);
    assert_eq!(root.create_child("coll", child_decl("system")), Ok(()));
    assert_eq!(root.bind_child(&child("system", Some("coll")), Ok(()), Ok(())), Ok(()));
    // The collection is part of the name.
    assert_eq!(
        root.bind_child(&child("system", None), Ok(()), Ok(())),
        Err(Error::InstanceNotFound)
    );
}

#[test]
fn bind_child_errors() {
    let mut root = Component::new(
        &[],
        &[],
        vec![child("system", None), child("unresolvable", None), child("unrunnable", None)],
    );
    // Instance not found.
    assert_eq!(
        root.bind_child(&child("missing", None), Ok(()), Ok(())),
        Err(Error::InstanceNotFound)
    );
    // Instance cannot resolve.
    assert_eq!(
        root.bind_child(&child("unresolvable", None), Err(ModelError::ResolverError), Ok(())),
        Err(Error::InstanceCannotResolve)
    );
    // Instance cannot start.
    assert_eq!(
        root.bind_child(&child("system", None), Err(ModelError::RunnerError), Ok(())),
        Err(Error::InstanceCannotStart)
    );
    assert_eq!(
        root.bind_child(&child("system", None), Err(ModelError::Other), Ok(())),
        Err(Error::Internal)
    );
    assert_eq!(
        root.bind_child(&child("system", None), Ok(()), Err(ModelError::Other)),
        Err(Error::Internal)
    );
    // Instance died.
    root.alive = false;
    assert_eq!(
        root.bind_child(&child("system", None), Ok(()), Ok(())),
        Err(Error::InstanceDied)
    );
}

#[test]
fn bind_child_runner_failure() {
    // If a runner fails to launch a child, that is no error.
    let root = Component::new(&[], &[], vec![child("unrunnable", None)]);
    assert_eq!(
        root.bind_child(
            &child("unrunnable", None),
            Ok(()),
            Err(ModelError::SourceInstanceStopped)
        ),
        Ok(())
    );
}

#[test]
fn list_children() {
    let mut root = Component::new(&["coll", "coll2"], &[], vec![child("static", None)]);
    for (collection, name) in [("coll", "a"), ("coll", "b"), ("coll", "c"), ("coll2", "d")] {
        assert_eq!(root.create_child(collection, child_decl(name)), Ok(()));
    }
    let host = RealmCapabilityHost::new(2);
    let mut children = root.list_children("coll").unwrap();
    assert_eq!(
        names(&host.serve_child_iterator(&mut children)),
        names(&[child("a", Some("coll")), child("b", Some("coll"))])
    );
    assert_eq!(
        names(&host.serve_child_iterator(&mut children)),
        names(&[child("c", Some("coll"))])
    );
    assert!(host.serve_child_iterator(&mut children).is_empty());
}

#[test]
fn list_children_errors() {
    let mut root = Component::new(&["coll"], &[], vec![]);
    assert_eq!(root.list_children("nonexistent").err(), Some(Error::CollectionNotFound));
    root.alive = false;
    assert_eq!(root.list_children("coll").err(), Some(Error::InstanceDied));
    let coll = "coll".to_string();
    let list = |parent, can_serve| {
        let collections = vec!["other".to_string(), "coll".to_string()];
        RealmCapabilityHost::list_children(parent, &collections, &vec![], &coll, can_serve).err()
    };
    for parent in [ParentState::ResolveFailed, ParentState::Unavailable] {
        assert_eq!(list(parent, true), Some(Error::Internal));
    }
    assert_eq!(list(ParentState::Resolved, false), Some(Error::AccessDenied));
    assert_eq!(list(ParentState::Resolved, true), None);
}

#[test]
fn children_are_listed_by_name() {
    let root = Component::new(
        &["coll"],
        &[],
        vec![
            child("z", Some("coll")),
            child("ab", Some("coll")),
            child("\u{e9}", Some("coll")),
            child("a", Some("coll")),
            child("B", Some("coll")),
        ],
    );
    let listed: Vec<String> =
        root.list_children("coll").unwrap().into_iter().map(|c| c.name).collect();
    assert_eq!(listed, ["B", "a", "ab", "z", "\u{e9}"]);
}

#[test]
fn open_exposed_dir() {
    let root = Component::new(&[], &[], vec![child("system", None)]);
    assert_eq!(root.open_exposed_dir(&child("system", None), Ok(()), Ok(())), Ok(()));
}

#[test]
fn open_exposed_dir_errors() {
    let mut root = Component::new(
        &[],
        &[],
        vec![child("system", None), child("unresolvable", None), child("unrunnable", None)],
    );
    assert_eq!(
        root.open_exposed_dir(&child("missing", None), Ok(()), Ok(())),
        Err(Error::InstanceNotFound)
    );
    assert_eq!(
        root.open_exposed_dir(&child("unresolvable", None), Err(ModelError::ResolverError), Ok(())),
        Err(Error::InstanceCannotResolve)
    );
    // The directory can be opened though the child cannot run.
    assert_eq!(root.open_exposed_dir(&child("unrunnable", None), Ok(()), Ok(())), Ok(()));
    assert_eq!(
        root.open_exposed_dir(&child("system", None), Ok(()), Err(ModelError::InstanceShutDown)),
        Err(Error::InstanceDied)
    );
    assert_eq!(
        root.open_exposed_dir(&child("system", None), Ok(()), Err(ModelError::Other)),
        Err(Error::Internal)
    );
    root.alive = false;
    assert_eq!(
        root.open_exposed_dir(&child("system", None), Ok(()), Ok(())),
        Err(Error::InstanceDied)
    );
}

#[test]
fn a_parent_that_is_not_there_has_no_child() {
    let children = vec![child("a", None), child("a", Some("coll"))];
    let wanted = child("a", Some("coll"));
    let get = |parent| RealmCapabilityHost::get_child(parent, &children, &wanted);
    assert_eq!(get(ParentState::Resolved), Ok(Some(1)));
    assert_eq!(get(ParentState::Died), Err(Error::InstanceDied));
    assert_eq!(get(ParentState::ResolveFailed), Err(Error::InstanceCannotResolve));
    assert_eq!(get(ParentState::Unavailable), Err(Error::Internal));
    assert_eq!(
        RealmCapabilityHost::get_child(ParentState::Resolved, &children, &child("b", None)),
        Ok(None)
    );
}

#[test]
fn batches_hold_all_children() {
    for batch_size in 1..5 {
        let host = RealmCapabilityHost::new(batch_size);
        let all = ["p", "q", "r", "s"];
        let mut children: Vec<ChildRef> = all.iter().map(|n| child(n, Some("coll"))).collect();
        let mut seen = Vec::new();
        loop {
            let batch = host.serve_child_iterator(&mut children);
            if batch.is_empty() {
                break;
            }
            assert!(batch.len() <= batch_size);
            seen.extend(batch.into_iter().map(|c| c.name));
        }
        assert_eq!(seen, all);
    }
}

#[test]
fn only_the_realm_protocol_is_provided() {
    let host = RealmCapabilityHost::new(3);
    let on = |event: Event<&'static str>,
              provider: Option<CapabilityProvider<&'static str, u8>>| host.on(event, provider);
    let routed = |name: &str| Event::FrameworkCapabilityRouted {
        capability: InternalCapability::Protocol(name.to_string()),
        component: "/a:0",
    };
    match on(routed("fuchsia.sys2.Realm"), None) {
        Some(CapabilityProvider::Realm(provider)) => {
            assert_eq!(provider, RealmCapabilityProvider::new("/a:0", host))
        }
        other => panic!("unexpected {:?}", other),
    }
    // Another provider stays.
    assert!(matches!(
        on(routed("fuchsia.sys2.Realm"), Some(CapabilityProvider::Other(7))),
        Some(CapabilityProvider::Other(7))
    ));
    assert!(on(routed("fuchsia.sys2.LifecycleController"), None).is_none());
    let directory = Event::FrameworkCapabilityRouted {
        capability: InternalCapability::Other,
        component: "/a:0",
    };
    assert!(on(directory, None).is_none());
    assert!(on(Event::Other, None).is_none());
    assert!(on(Event::Other, Some(CapabilityProvider::Other(7))).is_some());
}

#[test]
fn the_host_is_told_of_routed_capabilities() {
    let hooks = RealmCapabilityHost::new(3).hooks();
    assert_eq!(hooks.len(), 1);
    assert_eq!(hooks[0].name, "RealmCapabilityHost");
    assert_eq!(hooks[0].events, [EventType::CapabilityRouted]);
}
