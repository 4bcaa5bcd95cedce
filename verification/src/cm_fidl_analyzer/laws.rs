//! What holds of component trees and of the models that are built from them.

use crate::cm_fidl_analyzer::component_model::{
    AnalyzerModelError, CapabilitySource, ComponentInstanceError, ComponentInstanceForAnalyzer,
    ComponentModelForAnalyzer, EnvironmentForAnalyzer, ExposeDecl, ModelBuilderForAnalyzer,
    ParentInstance, RouteRequest, RouteSource, TopInstanceForAnalyzer, UseDecl,
};
use crate::cm_fidl_analyzer::component_tree::{
    ComponentDecl, ComponentNode, ComponentTree, EnvironmentExtends, NodeEnvironment, NodePath,
    PartialMoniker, Path,
};
use crate::zircon::Status;
use vstd::prelude::*;

verus! {

/// Whether two monikers have the same name, and the same collection if one at all.
pub open spec fn same_moniker(a: PartialMoniker, b: PartialMoniker) -> bool {
    &&& a.name@ == b.name@
    &&& a.collection is Some <==> b.collection is Some
    &&& a.collection is Some ==> a.collection->0@ == b.collection->0@
}

/// Whether two paths go through the same monikers.
pub open spec fn same_path(a: NodePath, b: NodePath) -> bool {
    &&& a.monikers@.len() == b.monikers@.len()
    &&& forall|i: int|
        0 <= i < a.monikers@.len() ==> same_moniker(#[trigger] a.monikers@[i], b.monikers@[i])
}

/// Whether `child` is one step below `parent`.
pub open spec fn one_below(parent: NodePath, child: NodePath) -> bool {
    &&& child.monikers@.len() == parent.monikers@.len() + 1
    &&& forall|i: int|
        0 <= i < parent.monikers@.len() ==> same_moniker(
            #[trigger] parent.monikers@[i],
            child.monikers@[i],
        )
}

proof fn lemma_same_moniker(a: PartialMoniker, b: PartialMoniker)
    ensures
        same_moniker(a, b) <==> a@ == b@,
{
}

proof fn lemma_same_path(a: NodePath, b: NodePath)
    ensures
        same_path(a, b) <==> a@ == b@,
{
    assert forall|i: int| 0 <= i < a.monikers@.len() && i < b.monikers@.len() implies same_moniker(
        #[trigger] a.monikers@[i],
        b.monikers@[i],
    ) == (a@[i] == b@[i]) by {
        lemma_same_moniker(a.monikers@[i], b.monikers@[i]);
    }
    if same_path(a, b) {
        assert forall|i: int| 0 <= i < a@.len() implies a@[i] == b@[i] by {
            assert(same_moniker(a.monikers@[i], b.monikers@[i]));
        }
        assert(a@ =~= b@);
    }
    if a@ == b@ {
        assert(a@.len() == a.monikers@.len() && b@.len() == b.monikers@.len());
    }
}

proof fn lemma_one_below(parent: NodePath, child: NodePath)
    ensures
        one_below(parent, child) <==> child@.len() > 0 && child@.drop_last() == parent@,
{
    assert forall|i: int|
        0 <= i < parent.monikers@.len() && i < child.monikers@.len() implies same_moniker(
        #[trigger] parent.monikers@[i],
        child.monikers@[i],
    ) == (parent@[i] == child@[i]) by {
        lemma_same_moniker(parent.monikers@[i], child.monikers@[i]);
    }
    if one_below(parent, child) {
        assert forall|i: int| 0 <= i < parent@.len() implies child@.drop_last()[i]
            == parent@[i] by {
            assert(same_moniker(parent.monikers@[i], child.monikers@[i]));
        }
        assert(child@.drop_last() =~= parent@);
    }
    if child@.len() > 0 && child@.drop_last() == parent@ {
        assert(child@.drop_last().len() == parent@.len());
        assert forall|i: int| 0 <= i < parent.monikers@.len() implies same_moniker(
            #[trigger] parent.monikers@[i],
            child.monikers@[i],
        ) by {
            assert(child@.drop_last()[i] == child@[i]);
        }
    }
}

/// Monikers are told apart by their names and collections, and a copy is like what it was made of.
pub proof fn law_monikers_are_told_apart(a: PartialMoniker, b: PartialMoniker, r: bool)
    ensures
        call_ensures(PartialMoniker::same, (&a, &b), r) ==> r == same_moniker(a, b),
        call_ensures(PartialMoniker::duplicate, (&a,), b) ==> same_moniker(a, b),
        call_ensures(PartialMoniker::new, (a.name, a.collection), b) ==> same_moniker(a, b),
{
    lemma_same_moniker(a, b);
}

/// Paths are told apart by their monikers, and a copy is like what it was made of.
pub proof fn law_paths_are_told_apart(a: NodePath, b: NodePath, r: bool)
    ensures
        call_ensures(NodePath::same, (&a, &b), r) ==> r == same_path(a, b),
        call_ensures(NodePath::duplicate, (&a,), b) ==> same_path(a, b),
        call_ensures(NodePath::new, (a.monikers,), b) ==> same_path(a, b),
{
    lemma_same_path(a, b);
    if call_ensures(NodePath::new, (a.monikers,), b) {
        assert(a@ =~= b@);
    }
}

/// The path of a child goes on from that of its parent with the moniker of the child.
pub proof fn law_children_are_one_step_down(path: NodePath, moniker: PartialMoniker, r: NodePath)
    requires
        call_ensures(NodePath::extended, (&path, moniker), r),
    ensures
        one_below(path, r),
        same_moniker(r.monikers@.last(), moniker),
{
    assert(r@.drop_last() =~= path@);
    assert(r@.len() == r.monikers@.len());
    assert(r@.last() == r.monikers@.last()@);
    lemma_one_below(path, r);
    lemma_same_moniker(r.monikers@.last(), moniker);
}

/// A component is found just when one in the tree has the path, and it is that one.
pub proof fn law_nodes_are_found_by_path<D, N>(
    tree: ComponentTree<D, N>,
    path: NodePath,
    r: Option<&ComponentNode<D, N>>,
)
    requires
        tree.wf(),
        call_ensures(ComponentTree::<D, N>::get_node, (&tree, &path), r),
    ensures
        r is Some <==> exists|i: int|
            0 <= i < tree.nodes@.len() && same_path((#[trigger] tree.nodes@[i]).node_path, path),
        r is Some ==> tree.nodes@.contains(*(r->0)) && same_path(r->0.node_path, path),
{
    lemma_has_node(tree, path);
    if r is Some {
        let i = lemma_node(tree, path@);
        lemma_same_path(r->0.node_path, path);
    }
}

// Where the component at a path is in the tree.
proof fn lemma_node<D, N>(tree: ComponentTree<D, N>, path: Path) -> (n: int)
    requires
        tree.wf(),
        tree.has_node(path),
    ensures
        0 <= n < tree.nodes@.len(),
        tree.nodes@[n].node_path@ == path,
        tree.node(path) == tree.nodes@[n],
{
    let i = choose|i: int|
        0 <= i < tree.nodes@.len() && (#[trigger] tree.nodes@[i]).node_path@ == path;
    assert(tree.nodes@[i].node_path@ == path);
    i
}

proof fn lemma_has_node<D, N>(tree: ComponentTree<D, N>, path: NodePath)
    ensures
        tree.has_node(path@) <==> exists|i: int|
            0 <= i < tree.nodes@.len() && same_path((#[trigger] tree.nodes@[i]).node_path, path),
{
    assert forall|i: int| 0 <= i < tree.nodes@.len() implies same_path(
        (#[trigger] tree.nodes@[i]).node_path,
        path,
    ) == (tree.nodes@[i].node_path@ == path@) by {
        lemma_same_path(tree.nodes@[i].node_path, path);
    }
    if tree.has_node(path@) {
        let i = choose|i: int|
            0 <= i < tree.nodes@.len() && (#[trigger] tree.nodes@[i]).node_path@ == path@;
        assert(same_path(tree.nodes@[i].node_path, path));
    }
}

/// A source without a program is unavailable. Other errors have the status that they came with.
pub proof fn law_errors_have_a_status(error: AnalyzerModelError, r: Status)
    requires
        call_ensures(AnalyzerModelError::as_zx_status, (&error,), r),
    ensures
        error is SourceInstanceNotExecutable ==> r is Unavailable,
        error is ComponentInstanceError ==> r == error->ComponentInstanceError_0,
        error is RoutingError ==> r == error->RoutingError_0,
{
}

/// What an instance, its environment and the top instance are asked for is what they hold.
pub proof fn law_instances_give_what_they_hold<C, D, R, G>(
    top: TopInstanceForAnalyzer<C>,
    capabilities: &C,
    instance: ComponentInstanceForAnalyzer<D, NodeEnvironment<R, G>>,
    path: &NodePath,
    decl: &ComponentDecl<D>,
    environment: &EnvironmentForAnalyzer<NodeEnvironment<R, G>>,
    parent: ParentInstance,
    name: Option<&String>,
    extends: EnvironmentExtends,
    runners: &R,
    debug: &G,
)
    ensures
        call_ensures(TopInstanceForAnalyzer::<C>::namespace_capabilities, (&top,), capabilities)
            ==> *capabilities == top.namespace_capabilities,
        call_ensures(
            ComponentInstanceForAnalyzer::<D, NodeEnvironment<R, G>>::abs_moniker,
            (&instance,),
            path,
        ) ==> *path == instance.node_path,
        call_ensures(
            ComponentInstanceForAnalyzer::<D, NodeEnvironment<R, G>>::decl,
            (&instance,),
            decl,
        ) ==> *decl == *instance.decl,
        call_ensures(
            ComponentInstanceForAnalyzer::<D, NodeEnvironment<R, G>>::environment,
            (&instance,),
            environment,
        ) ==> *environment == instance.environment,
        call_ensures(
            EnvironmentForAnalyzer::<NodeEnvironment<R, G>>::parent,
            (environment,),
            parent,
        ) ==> parent == environment.parent,
        call_ensures(EnvironmentForAnalyzer::<NodeEnvironment<R, G>>::name, (environment,), name)
            ==> (name is Some <==> environment.environment.name is Some) && (name is Some
            ==> *(name->0) == environment.environment.name->0),
        call_ensures(
            EnvironmentForAnalyzer::<NodeEnvironment<R, G>>::extends,
            (environment,),
            extends,
        ) ==> extends == environment.environment.extends,
        call_ensures(
            EnvironmentForAnalyzer::<NodeEnvironment<R, G>>::runner_registry,
            (environment,),
            runners,
        ) ==> *runners == environment.environment.runner_registry,
        call_ensures(
            EnvironmentForAnalyzer::<NodeEnvironment<R, G>>::debug_registry,
            (environment,),
            debug,
        ) ==> *debug == environment.environment.debug_registry,
{
}

/// An instance is found just when one in the model has the path. Otherwise the error names the path.
pub proof fn law_instances_are_found_by_path<C, G, I, D, N>(
    model: ComponentModelForAnalyzer<C, G, I, D, N>,
    id: NodePath,
    r: Result<&ComponentInstanceForAnalyzer<D, N>, ComponentInstanceError>,
)
    requires
        call_ensures(ComponentModelForAnalyzer::<C, G, I, D, N>::get_instance, (&model, &id), r),
    ensures
        r is Ok <==> exists|i: int|
            0 <= i < model.instances@.len() && same_path(
                (#[trigger] model.instances@[i]).node_path,
                id,
            ),
        r is Ok ==> model.instances@.contains(*(r->Ok_0)) && same_path(r->Ok_0.node_path, id),
        r is Err ==> same_path(r->Err_0->InstanceNotFound_0, id),
{
    assert forall|i: int| 0 <= i < model.instances@.len() implies same_path(
        (#[trigger] model.instances@[i]).node_path,
        id,
    ) == (model.instances@[i].node_path@ == id@) by {
        lemma_same_path(model.instances@[i].node_path, id);
    }
    match r {
        Ok(instance) => {
            lemma_same_path(instance.node_path, id);
            let i = model.instances@.index_of(*instance);
            assert(same_path(model.instances@[i].node_path, id));
        },
        Err(ComponentInstanceError::InstanceNotFound(path)) => {
            lemma_same_path(path, id);
            assert(!model.has_instance(id@));
        },
    }
}

/// The parent of an instance is the one a step up. Only an instance below the top instance has none.
pub proof fn law_parents_are_one_step_up<C, G, I, D, N>(
    model: ComponentModelForAnalyzer<C, G, I, D, N>,
    instance: ComponentInstanceForAnalyzer<D, N>,
    r: Option<&ComponentInstanceForAnalyzer<D, N>>,
)
    requires
        call_ensures(
            ComponentModelForAnalyzer::<C, G, I, D, N>::try_get_parent,
            (&model, &instance),
            r,
        ),
    ensures
        r is None <==> instance.parent is AboveRoot,
        r is Some ==> model.instances@.contains(*(r->0)) && one_below(
            r->0.node_path,
            instance.node_path,
        ),
{
    if r is Some {
        lemma_one_below(r->0.node_path, instance.node_path);
    }
}

/// A child is found just when one of the instance's children has the moniker. It is then one step
/// below the instance.
pub proof fn law_children_are_found_by_moniker<C, G, I, D, N>(
    model: ComponentModelForAnalyzer<C, G, I, D, N>,
    instance: ComponentInstanceForAnalyzer<D, N>,
    moniker: PartialMoniker,
    r: Option<&ComponentInstanceForAnalyzer<D, N>>,
    k: int,
)
    requires
        call_ensures(
            ComponentModelForAnalyzer::<C, G, I, D, N>::get_live_child,
            (&model, &instance, &moniker),
            r,
        ),
        0 <= k < instance.children@.len(),
    ensures
        r is Some ==> {
            let child = r->0.node_path;
            &&& model.instances@.contains(*(r->0))
            &&& one_below(instance.node_path, child)
            &&& same_moniker(child.monikers@.last(), moniker)
        },
        r is None ==> {
            let child = model.instances@[instance.children@[k] as int].node_path;
            !(one_below(instance.node_path, child) && same_moniker(
                child.monikers@.last(),
                moniker,
            ))
        },
{
    match r {
        Some(child) => {
            let path = child.node_path;
            assert(path@.drop_last() =~= instance.node_path@);
            assert(path@.len() == path.monikers@.len());
            assert(path@.last() == path.monikers@.last()@);
            lemma_one_below(instance.node_path, path);
            lemma_same_moniker(path.monikers@.last(), moniker);
        },
        None => {
            let path = model.instances@[instance.children@[k] as int].node_path;
            assert(path@ != instance.node_path@.push(moniker@));
            if one_below(instance.node_path, path) && same_moniker(
                path.monikers@.last(),
                moniker,
            ) {
                lemma_one_below(instance.node_path, path);
                lemma_same_moniker(path.monikers@.last(), moniker);
                assert(path@.len() == path.monikers@.len());
                assert(path@.last() == path.monikers@.last()@);
                assert(path@ =~= path@.drop_last().push(path@.last()));
            }
        },
    }
}

/// All instances share the policy checker and the component ID index of the model, and no instance
/// is ever in a collection.
pub proof fn law_instances_share_what_the_model_has<C, G, I, D, N>(
    model: ComponentModelForAnalyzer<C, G, I, D, N>,
    instance: ComponentInstanceForAnalyzer<D, N>,
    collection: String,
    checker: &G,
    index: &I,
    count: usize,
    members: Vec<&ComponentInstanceForAnalyzer<D, N>>,
)
    ensures
        call_ensures(
            ComponentModelForAnalyzer::<C, G, I, D, N>::try_get_policy_checker,
            (&model, &instance),
            checker,
        ) ==> *checker == model.policy_checker,
        call_ensures(
            ComponentModelForAnalyzer::<C, G, I, D, N>::try_get_component_id_index,
            (&model, &instance),
            index,
        ) ==> *index == model.component_id_index,
        call_ensures(ComponentModelForAnalyzer::<C, G, I, D, N>::len, (&model,), count) ==> count
            == model.instances@.len(),
        call_ensures(
            ComponentModelForAnalyzer::<C, G, I, D, N>::live_children_in_collection,
            (&model, &instance, &collection),
            members,
        ) ==> members@.len() == 0,
{
}

/// Whether `r` is how the check of a source that is `instance` ends: well if there is a program, and
/// otherwise with the path of the instance.
pub open spec fn checked_instance<D, N>(
    instance: ComponentInstanceForAnalyzer<D, N>,
    r: Result<(), AnalyzerModelError>,
) -> bool {
    &&& r is Ok <==> instance.decl.has_program
    &&& r is Err ==> r->Err_0 is SourceInstanceNotExecutable && same_path(
        r->Err_0->SourceInstanceNotExecutable_0,
        instance.node_path,
    )
}

/// A directory or protocol can be used from the component manager's namespace, and from an instance
/// that has a program. When it has none, the error names it. When the instance could not be had, the
/// error says why.
pub proof fn law_sources_must_be_executable<C, G, I, D, N>(
    model: ComponentModelForAnalyzer<C, G, I, D, N>,
    source: CapabilitySource,
    r: Result<(), AnalyzerModelError>,
)
    requires
        call_ensures(
            ComponentModelForAnalyzer::<C, G, I, D, N>::check_use_source,
            (&model, &RouteSource::Directory(source)),
            r,
        ) || call_ensures(
            ComponentModelForAnalyzer::<C, G, I, D, N>::check_use_source,
            (&model, &RouteSource::Protocol(source)),
            r,
        ),
    ensures
        source is Namespace ==> r is Ok,
        source is Component && source->Component_0 is Ok ==> checked_instance(
            model.instances@[source->Component_0->Ok_0 as int],
            r,
        ),
        source is Component && source->Component_0 is Err ==> r is Err
            && r->Err_0 is ComponentInstanceError && r->Err_0->ComponentInstanceError_0
            == source->Component_0->Err_0,
{
    if source is Component && source->Component_0 is Ok && r is Err {
        lemma_same_path(
            r->Err_0->SourceInstanceNotExecutable_0,
            model.instances@[source->Component_0->Ok_0 as int].node_path,
        );
    }
}

/// Whether `r` is how the check of a capability ends that routing has ended for with `routed`.
pub open spec fn checked_route<C, G, I, D, N>(
    model: ComponentModelForAnalyzer<C, G, I, D, N>,
    routed: Result<RouteSource, Status>,
    r: Result<(), AnalyzerModelError>,
) -> bool {
    match routed {
        Err(status) => r is Err && r->Err_0 is RoutingError && r->Err_0->RoutingError_0 == status,
        Ok(RouteSource::Directory(CapabilitySource::Component(Ok(position)))) => checked_instance(
            model.instances@[position as int],
            r,
        ),
        Ok(RouteSource::Protocol(CapabilitySource::Component(Ok(position)))) => checked_instance(
            model.instances@[position as int],
            r,
        ),
        Ok(RouteSource::Directory(CapabilitySource::Component(Err(status)))) => r is Err
            && r->Err_0 is ComponentInstanceError && r->Err_0->ComponentInstanceError_0 == status,
        Ok(RouteSource::Protocol(CapabilitySource::Component(Err(status)))) => r is Err
            && r->Err_0 is ComponentInstanceError && r->Err_0->ComponentInstanceError_0 == status,
        Ok(_) => r is Ok,
    }
}

proof fn lemma_checked_route<C, G, I, D, N>(
    model: ComponentModelForAnalyzer<C, G, I, D, N>,
    routed: Result<RouteSource, Status>,
    r: Result<(), AnalyzerModelError>,
)
    requires
        model.route_checked(routed, r),
    ensures
        checked_route(model, routed, r),
{
    match routed {
        Ok(source) => match source.capability_source() {
            CapabilitySource::Component(Ok(position)) => {
                if r is Err {
                    lemma_same_path(
                        r->Err_0->SourceInstanceNotExecutable_0,
                        model.instances@[position as int].node_path,
                    );
                }
            },
            _ => {},
        },
        Err(_) => {},
    }
}

/// A capability that a component uses is routed by a request of its own kind, from the component
/// that uses it, and its source is then checked. An error in routing is the answer.
pub proof fn law_used_capabilities_are_routed<C, G, I, D, N, P, F>(
    model: ComponentModelForAnalyzer<C, G, I, D, N>,
    use_decl: UseDecl<P>,
    target: ComponentInstanceForAnalyzer<D, N>,
    route: &F,
    r: Result<(), AnalyzerModelError>,
) -> (routed: Result<RouteSource, Status>) where
    F: Fn(RouteRequest<P>, &ComponentInstanceForAnalyzer<D, N>) -> Result<RouteSource, Status>,

    requires
        call_ensures(
            ComponentModelForAnalyzer::<C, G, I, D, N>::check_use_capability::<P, F>,
            (&model, use_decl, &target, route),
            r,
        ),
        !(use_decl is Other),
    ensures
        use_decl is Directory ==> call_ensures(
            *route,
            (RouteRequest::UseDirectory(use_decl->Directory_0), &target),
            routed,
        ),
        use_decl is Event ==> call_ensures(
            *route,
            (RouteRequest::UseEvent(use_decl->Event_0), &target),
            routed,
        ),
        use_decl is Protocol ==> call_ensures(
            *route,
            (RouteRequest::UseProtocol(use_decl->Protocol_0), &target),
            routed,
        ),
        use_decl is Service ==> call_ensures(
            *route,
            (RouteRequest::UseService(use_decl->Service_0), &target),
            routed,
        ),
        use_decl is Storage ==> call_ensures(
            *route,
            (RouteRequest::UseStorage(use_decl->Storage_0), &target),
            routed,
        ),
        checked_route(model, routed, r),
{
    let request = crate::cm_fidl_analyzer::component_model::use_request(use_decl);
    let routed = choose|routed: Result<RouteSource, Status>| #[trigger]
        call_ensures(*route, (request, &target), routed) && model.route_checked(routed, r);
    lemma_checked_route(model, routed, r);
    routed
}

/// A directory, protocol or service that a component exposes is routed by a request of its own kind
/// and its source is then checked. Of anything else that a component exposes there is nothing to
/// check.
pub proof fn law_exposed_capabilities_are_routed<C, G, I, D, N, P, F>(
    model: ComponentModelForAnalyzer<C, G, I, D, N>,
    expose_decl: ExposeDecl<P>,
    target: ComponentInstanceForAnalyzer<D, N>,
    route: &F,
    r: Result<(), AnalyzerModelError>,
) -> (routed: Result<RouteSource, Status>) where
    F: Fn(RouteRequest<P>, &ComponentInstanceForAnalyzer<D, N>) -> Result<RouteSource, Status>,

    requires
        call_ensures(
            ComponentModelForAnalyzer::<C, G, I, D, N>::check_use_exposed_capability::<P, F>,
            (&model, expose_decl, &target, route),
            r,
        ),
    ensures
        expose_decl is Directory ==> call_ensures(
            *route,
            (RouteRequest::ExposeDirectory(expose_decl->Directory_0), &target),
            routed,
        ),
        expose_decl is Protocol ==> call_ensures(
            *route,
            (RouteRequest::ExposeProtocol(expose_decl->Protocol_0), &target),
            routed,
        ),
        expose_decl is Service ==> call_ensures(
            *route,
            (RouteRequest::ExposeService(expose_decl->Service_0), &target),
            routed,
        ),
        !(expose_decl is Other) ==> checked_route(model, routed, r),
        expose_decl is Other ==> r is Ok,
{
    match crate::cm_fidl_analyzer::component_model::expose_request(expose_decl) {
        Some(request) => {
            let routed = choose|routed: Result<RouteSource, Status>| #[trigger]
                call_ensures(*route, (request, &target), routed) && model.route_checked(routed, r);
            lemma_checked_route(model, routed, r);
            routed
        },
        None => Ok(RouteSource::Other),
    }
}

/// Whether a component declares a child with the given path.
pub open spec fn declares_path<D, N>(node: ComponentNode<D, N>, path: NodePath) -> bool {
    exists|k: int| 0 <= k < node.children@.len() && same_path(#[trigger] node.children@[k], path)
}

/// Whether the instance at `i` is that of `node`: it has the path, the declaration and the
/// environment of the component, and for each child that the component declares it has a child with
/// that path, whose parent it is.
pub open spec fn instance_of<D, N>(
    instances: Seq<ComponentInstanceForAnalyzer<D, N>>,
    i: int,
    node: ComponentNode<D, N>,
) -> bool {
    let instance = instances[i];
    &&& same_path(instance.node_path, node.node_path)
    &&& instance.decl == node.decl
    &&& instance.environment.environment == node.environment
    &&& instance.environment.parent == instance.parent
    &&& instance.children@.len() == node.children@.len()
    &&& forall|k: int|
        0 <= k < instance.children@.len() ==> {
            let child = #[trigger] instance.children@[k] as int;
            &&& 0 <= child < instances.len()
            &&& same_path(instances[child].node_path, node.children@[k])
            &&& instances[child].parent == ParentInstance::Component(i as usize)
        }
}

/// Every instance of a model is that of a component of the tree, and no two have the same path. The
/// model has what it was given.
pub proof fn law_models_have_instances_of_components<C, G, I, D, N>(
    builder: ModelBuilderForAnalyzer,
    tree: ComponentTree<D, N>,
    capabilities: C,
    checker: G,
    index: I,
    model: ComponentModelForAnalyzer<C, G, I, D, N>,
    i: int,
) -> (node: int)
    requires
        tree.wf(),
        call_ensures(
            ModelBuilderForAnalyzer::build::<C, G, I, D, N>,
            (builder, &tree, capabilities, checker, index),
            Ok(model),
        ),
        0 <= i < model.instances@.len(),
    ensures
        0 <= node < tree.nodes@.len(),
        instance_of(model.instances@, i, tree.nodes@[node]),
        forall|j: int|
            0 <= j < model.instances@.len() && j != i ==> !same_path(
                (#[trigger] model.instances@[j]).node_path,
                model.instances@[i].node_path,
            ),
        model.top_instance.namespace_capabilities == capabilities,
        model.policy_checker == checker,
        model.component_id_index == index,
{
    let instances = model.instances@;
    let path = instances[i].node_path@;
    assert(crate::cm_fidl_analyzer::component_model::instance_matches(tree, instances, i));
    let node = lemma_node(tree, path);
    lemma_same_path(instances[i].node_path, tree.nodes@[node].node_path);
    assert forall|k: int| 0 <= k < instances[i].children@.len() implies {
        let child = #[trigger] instances[i].children@[k] as int;
        &&& 0 <= child < instances.len()
        &&& same_path(instances[child].node_path, tree.nodes@[node].children@[k])
        &&& instances[child].parent == ParentInstance::Component(i as usize)
    } by {
        let child = instances[i].children@[k] as int;
        lemma_same_path(instances[child].node_path, tree.nodes@[node].children@[k]);
    }
    assert forall|j: int| 0 <= j < instances.len() && j != i implies !same_path(
        (#[trigger] instances[j]).node_path,
        instances[i].node_path,
    ) by {
        lemma_same_path(instances[j].node_path, instances[i].node_path);
        if j < i {
            assert(instances[j].node_path@ != instances[i].node_path@);
        } else {
            assert(instances[i].node_path@ != instances[j].node_path@);
        }
    }
    node
}

/// A model has an instance at the root. Every other instance is among the children of its parent,
/// which is one step up, and every instance but that at the root has one.
pub proof fn law_models_go_down_from_the_root<C, G, I, D, N>(
    builder: ModelBuilderForAnalyzer,
    tree: ComponentTree<D, N>,
    capabilities: C,
    checker: G,
    index: I,
    model: ComponentModelForAnalyzer<C, G, I, D, N>,
    i: int,
) -> (root: int)
    requires
        tree.wf(),
        call_ensures(
            ModelBuilderForAnalyzer::build::<C, G, I, D, N>,
            (builder, &tree, capabilities, checker, index),
            Ok(model),
        ),
        0 <= i < model.instances@.len(),
    ensures
        0 <= root < model.instances@.len(),
        model.instances@[root].node_path.monikers@.len() == 0,
        model.instances@[i].parent is AboveRoot <==> i == root,
        i != root ==> {
            let parent = model.instances@[i].parent->Component_0;
            &&& parent < i
            &&& one_below(model.instances@[parent as int].node_path, model.instances@[i].node_path)
            &&& exists|k: int|
                0 <= k < model.instances@[parent as int].children@.len()
                    && #[trigger] model.instances@[parent as int].children@[k] == i
        },
{
    let instances = model.instances@;
    let empty: Path = Seq::empty();
    assert(crate::cm_fidl_analyzer::component_model::declared(tree, empty));
    assert(model.has_instance(empty));
    let root = choose|n: int|
        0 <= n < instances.len() && (#[trigger] instances[n]).node_path@ == empty;
    assert(instances[root].node_path@.len() == instances[root].node_path.monikers@.len());
    let path = instances[i].node_path@;
    assert(crate::cm_fidl_analyzer::component_model::instance_matches(tree, instances, i));
    if i != root {
        if path.len() == 0 {
            assert(path =~= empty);
            if i < root {
                assert(instances[i].node_path@ != instances[root].node_path@);
            } else {
                assert(instances[root].node_path@ != instances[i].node_path@);
            }
        }
        let parent = instances[i].parent->Component_0 as int;
        lemma_one_below(instances[parent].node_path, instances[i].node_path);
        assert(model.has_instance(path));
        assert(crate::cm_fidl_analyzer::component_model::declared(tree, path));
        let node = tree.node(path.drop_last());
        assert(node.declares(path));
        let k = choose|k: int|
            0 <= k < node.children@.len() && (#[trigger] node.children@[k])@ == path;
        assert(crate::cm_fidl_analyzer::component_model::instance_matches(
            tree,
            instances,
            parent,
        ));
        let child = instances[parent].children@[k] as int;
        assert(instances[child].node_path@ == path);
        if child < i {
            assert(instances[child].node_path@ != instances[i].node_path@);
        } else if child > i {
            assert(instances[i].node_path@ != instances[child].node_path@);
        }
        assert(instances[parent].children@[k] == i);
    }
    root
}

/// A model cannot be built just for want of a component: the path that is answered is that of the
/// root or of a child that a component of the tree declares, and no component of the tree has it.
pub proof fn law_models_fail_for_a_missing_component<C, G, I, D, N>(
    builder: ModelBuilderForAnalyzer,
    tree: ComponentTree<D, N>,
    capabilities: C,
    checker: G,
    index: I,
    path: NodePath,
)
    requires
        tree.wf(),
        call_ensures(
            ModelBuilderForAnalyzer::build::<C, G, I, D, N>,
            (builder, &tree, capabilities, checker, index),
            Err(path),
        ),
    ensures
        forall|n: int|
            0 <= n < tree.nodes@.len() ==> !same_path((#[trigger] tree.nodes@[n]).node_path, path),
        path.monikers@.len() == 0 || exists|n: int|
            0 <= n < tree.nodes@.len() && one_below((#[trigger] tree.nodes@[n]).node_path, path)
                && declares_path(tree.nodes@[n], path),
{
    lemma_has_node(tree, path);
    assert(path@.len() == path.monikers@.len());
    if path.monikers@.len() != 0 {
        let up = path@.drop_last();
        assert(tree.has_node(up));
        let n = lemma_node(tree, up);
        let node = tree.nodes@[n];
        assert(node.declares(path@));
        let k = choose|k: int|
            0 <= k < node.children@.len() && (#[trigger] node.children@[k])@ == path@;
        lemma_same_path(node.children@[k], path);
        lemma_one_below(node.node_path, path);
        assert(declares_path(node, path));
    }
}

/// Whether nothing is missing at `path` or below: every component that is declared, by one that is
/// declared itself, is in the tree. Only `levels` levels are looked at.
pub open spec fn complete<D, N>(tree: ComponentTree<D, N>, path: NodePath, levels: nat) -> bool
    decreases levels,
{
    exists|n: int|
        {
            &&& 0 <= n < tree.nodes@.len()
            &&& same_path((#[trigger] tree.nodes@[n]).node_path, path)
            &&& levels > 0 ==> forall|k: int|
                0 <= k < tree.nodes@[n].children@.len() ==> complete(
                    tree,
                    #[trigger] tree.nodes@[n].children@[k],
                    (levels - 1) as nat,
                )
        }
}

proof fn lemma_depth_of<D, N>(nodes: Seq<ComponentNode<D, N>>, i: int)
    requires
        0 <= i < nodes.len(),
    ensures
        nodes[i].node_path@.len() <= crate::cm_fidl_analyzer::component_tree::depth_of(nodes),
    decreases nodes.len(),
{
    if i < nodes.len() - 1 {
        lemma_depth_of(nodes.drop_last(), i);
    }
}

// When nothing is missing from the child at `k` on, nothing is missing at a child from there on.
proof fn lemma_no_child_missing<D, N>(tree: ComponentTree<D, N>, path: Path, k: nat, j: int)
    requires
        tree.wf(),
        tree.has_node(path),
        crate::cm_fidl_analyzer::component_model::first_missing_child(tree, path, k) is None,
        k <= j < tree.node(path).children@.len(),
    ensures
        crate::cm_fidl_analyzer::component_model::first_missing(
            tree,
            tree.node(path).children@[j]@,
        ) is None,
    decreases j - k,
{
    let n = lemma_node(tree, path);
    lemma_depth_of(tree.nodes@, n);
    if k < j {
        lemma_no_child_missing(tree, path, k + 1, j);
    }
}

proof fn lemma_complete<D, N>(tree: ComponentTree<D, N>, path: NodePath, levels: nat)
    requires
        tree.wf(),
        crate::cm_fidl_analyzer::component_model::first_missing(tree, path@) is None,
    ensures
        complete(tree, path, levels),
    decreases levels,
{
    let n = lemma_node(tree, path@);
    lemma_depth_of(tree.nodes@, n);
    let node = tree.nodes@[n];
    lemma_same_path(node.node_path, path);
    if levels > 0 {
        assert forall|k: int| 0 <= k < node.children@.len() implies complete(
            tree,
            #[trigger] node.children@[k],
            (levels - 1) as nat,
        ) by {
            lemma_no_child_missing(tree, path@, 0, k);
            lemma_complete(tree, node.children@[k], (levels - 1) as nat);
        }
    }
    assert(same_path(tree.nodes@[n].node_path, path));
}

// The child at or after `k` at or below which the first missing component is. Nothing is missing at
// the children before it.
proof fn lemma_missing_child<D, N>(
    tree: ComponentTree<D, N>,
    path: Path,
    k: nat,
    missing: Path,
) -> (place: int)
    requires
        tree.wf(),
        tree.has_node(path),
        crate::cm_fidl_analyzer::component_model::first_missing_child(tree, path, k) == Some(
            missing,
        ),
    ensures
        k <= place < tree.node(path).children@.len(),
        crate::cm_fidl_analyzer::component_model::first_missing(
            tree,
            tree.node(path).children@[place]@,
        ) == Some(missing),
        forall|j: int|
            k <= j < place ==> crate::cm_fidl_analyzer::component_model::first_missing(
                tree,
                (#[trigger] tree.node(path).children@[j])@,
            ) is None,
    decreases tree.node(path).children@.len() - k,
{
    let n = lemma_node(tree, path);
    lemma_depth_of(tree.nodes@, n);
    let child = tree.node(path).children@[k as int]@;
    if crate::cm_fidl_analyzer::component_model::first_missing(tree, child) is None {
        lemma_missing_child(tree, path, k + 1, missing)
    } else {
        k as int
    }
}

/// Whether `missing` is the first component at `path` or below that is missing, children being
/// looked at in the order in which they are declared, each with all that is below it: no component
/// is at `path` and it is `missing` itself, or there is one and `missing` is the first that is missing
/// at one of its children or below, while nothing is missing at the children before.
pub open spec fn is_first_missing<D, N>(
    tree: ComponentTree<D, N>,
    path: NodePath,
    missing: NodePath,
    levels: nat,
) -> bool
    decreases missing.monikers@.len() - path.monikers@.len(),
{
    if missing.monikers@.len() <= path.monikers@.len() {
        same_path(path, missing)
    } else {
        exists|n: int, place: int|
            #![trigger tree.nodes@[n].children@[place]]
            {
                let node = tree.nodes@[n];
                &&& 0 <= n < tree.nodes@.len()
                &&& same_path(node.node_path, path)
                &&& 0 <= place < node.children@.len()
                &&& one_below(path, node.children@[place])
                &&& is_first_missing(tree, node.children@[place], missing, levels)
                &&& forall|j: int|
                    0 <= j < place ==> complete(tree, #[trigger] node.children@[j], levels)
            }
    }
}

// What is missing at a path or below has a path at least as long.
proof fn lemma_missing_is_below<D, N>(
    tree: ComponentTree<D, N>,
    path: NodePath,
    missing: NodePath,
    levels: nat,
    up: nat,
)
    requires
        tree.wf(),
        crate::cm_fidl_analyzer::component_model::first_missing(tree, path@) == Some(missing@),
        up == tree.depth() + 1 - path@.len() || path@.len() > tree.depth(),
    ensures
        is_first_missing(tree, path, missing, levels),
        path.monikers@.len() <= missing.monikers@.len(),
    decreases up,
{
    assert(path@.len() == path.monikers@.len());
    assert(missing@.len() == missing.monikers@.len());
    if tree.has_node(path@) {
        let n = lemma_node(tree, path@);
        lemma_depth_of(tree.nodes@, n);
        let node = tree.nodes@[n];
        lemma_same_path(node.node_path, path);
        let place = lemma_missing_child(tree, path@, 0, missing@);
        let child = node.children@[place];
        assert(child@.len() == path@.len() + 1);
        lemma_one_below(path, child);
        lemma_missing_is_below(tree, child, missing, levels, (up - 1) as nat);
        assert forall|j: int| 0 <= j < place implies complete(
            tree,
            #[trigger] node.children@[j],
            levels,
        ) by {
            assert(crate::cm_fidl_analyzer::component_model::first_missing(
                tree,
                tree.node(path@).children@[j]@,
            ) is None);
            lemma_complete(tree, node.children@[j], levels);
        }
        assert(tree.nodes@[n].children@[place] == child);
    } else {
        lemma_same_path(path, missing);
    }
}

/// When a model cannot be built, the answer is the first component that is missing from the root
/// down. Everything that comes before it is there, however far down one looks.
pub proof fn law_models_fail_for_the_first_missing_component<C, G, I, D, N>(
    builder: ModelBuilderForAnalyzer,
    tree: ComponentTree<D, N>,
    capabilities: C,
    checker: G,
    index: I,
    root: NodePath,
    path: NodePath,
    levels: nat,
)
    requires
        tree.wf(),
        call_ensures(
            ModelBuilderForAnalyzer::build::<C, G, I, D, N>,
            (builder, &tree, capabilities, checker, index),
            Err(path),
        ),
        root.monikers@.len() == 0,
    ensures
        is_first_missing(tree, root, path, levels),
{
    assert(root@ =~= Seq::empty());
    lemma_missing_is_below(tree, root, path, levels, (tree.depth() + 1) as nat);
}

} // verus!
