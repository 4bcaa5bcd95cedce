//! A model of the component instances that a tree of declarations leads to.

use crate::cm_fidl_analyzer::component_tree::{
    ComponentDecl, ComponentNode, ComponentTree, EnvironmentExtends, NodeEnvironment, NodePath,
    PartialMoniker, Path,
};
use crate::zircon::Status;
use std::sync::Arc;
use vstd::prelude::*;

verus! {

/// Why a capability cannot be used.
#[derive(Debug)]
pub enum AnalyzerModelError {
    /// The instance that the capability comes from has no program.
    SourceInstanceNotExecutable(NodePath),
    /// An instance could not be had, with the status for that.
    ComponentInstanceError(Status),
    /// The capability could not be routed, with the status for that.
    RoutingError(Status),
}

impl AnalyzerModelError {
    pub open spec fn status(self) -> Status {
        match self {
            AnalyzerModelError::SourceInstanceNotExecutable(_) => Status::Unavailable,
            AnalyzerModelError::ComponentInstanceError(status) => status,
            AnalyzerModelError::RoutingError(status) => status,
        }
    }

    pub fn as_zx_status(&self) -> (r: Status)
        ensures
            r == self.status(),
    {
        match self {
            AnalyzerModelError::SourceInstanceNotExecutable(_) => Status::Unavailable,
            AnalyzerModelError::ComponentInstanceError(status) => *status,
            AnalyzerModelError::RoutingError(status) => *status,
        }
    }
}

/// Why an instance cannot be had.
#[derive(Debug)]
pub enum ComponentInstanceError {
    /// There is none at the path.
    InstanceNotFound(NodePath),
}

/// The parent of an instance.
#[derive(Clone, Copy, Debug, PartialEq, Eq, Structural)]
pub enum ParentInstance {
    /// The component manager's own instance.
    AboveRoot,
    /// The instance at a position in the model.
    Component(usize),
}

/// A representation of `ComponentManager`'s instance, providing a set of capabilities to the root
/// component instance.
#[derive(Debug)]
pub struct TopInstanceForAnalyzer<C> {
    pub namespace_capabilities: C,
}

impl<C> TopInstanceForAnalyzer<C> {
    fn new(namespace_capabilities: C) -> (r: Self)
        ensures
            r.namespace_capabilities == namespace_capabilities,
    {
        Self { namespace_capabilities }
    }

    /// Returns the capabilities that the component manager has in its namespace.
    pub fn namespace_capabilities(&self) -> (r: &C)
        ensures
            *r == self.namespace_capabilities,
    {
        &self.namespace_capabilities
    }
}

/// A representation of a v2 component instance's environment and its relationship to the parent
/// realm's environment.
pub struct EnvironmentForAnalyzer<N> {
    pub environment: Arc<N>,
    pub parent: ParentInstance,
}

impl<N> EnvironmentForAnalyzer<N> {
    fn new(environment: Arc<N>, parent: ParentInstance) -> (r: Self)
        ensures
            r.environment == environment,
            r.parent == parent,
    {
        Self { environment, parent }
    }

    /// Returns the instance whose environment this one builds on.
    pub fn parent(&self) -> (r: ParentInstance)
        ensures
            r == self.parent,
    {
        self.parent
    }
}

impl<R, G> EnvironmentForAnalyzer<NodeEnvironment<R, G>> {
    /// Returns the name of the environment, if it has one.
    pub fn name(&self) -> (r: Option<&String>)
        ensures
            match r {
                Some(name) => self.environment.name == Some(*name),
                None => self.environment.name is None,
            },
    {
        match &self.environment.name {
            Some(name) => Some(name),
            None => None,
        }
    }

    /// Returns what the environment extends.
    pub fn extends(&self) -> (r: EnvironmentExtends)
        ensures
            r == self.environment.extends,
    {
        self.environment.extends
    }

    /// Returns the runners that the environment has.
    pub fn runner_registry(&self) -> (r: &R)
        ensures
            *r == self.environment.runner_registry,
    {
        &self.environment.runner_registry
    }

    /// Returns the debug capabilities that the environment has.
    pub fn debug_registry(&self) -> (r: &G)
        ensures
            *r == self.environment.debug_registry,
    {
        &self.environment.debug_registry
    }
}

/// A representation of a v2 component instance.
pub struct ComponentInstanceForAnalyzer<D, N> {
    pub node_path: NodePath,
    pub decl: Arc<ComponentDecl<D>>,
    pub parent: ParentInstance,
    /// The positions of the children in the model.
    pub children: Vec<usize>,
    pub environment: EnvironmentForAnalyzer<N>,
}

impl<D, N> ComponentInstanceForAnalyzer<D, N> {
    /// Returns the path of the instance.
    pub fn abs_moniker(&self) -> (r: &NodePath)
        ensures
            *r == self.node_path,
    {
        &self.node_path
    }

    /// Returns the environment of the instance.
    pub fn environment(&self) -> (r: &EnvironmentForAnalyzer<N>)
        ensures
            *r == self.environment,
    {
        &self.environment
    }

    /// Returns what the component declares.
    pub fn decl(&self) -> (r: &ComponentDecl<D>)
        ensures
            *r == *self.decl,
    {
        &*self.decl
    }
}

/// Whether a tree declares the component at `path` when that at `top` is there: it is `top` itself
/// or a component on the way down from there declares it.
pub open spec fn declared_under<D, N>(tree: ComponentTree<D, N>, top: Path, path: Path) -> bool
    decreases path.len(),
{
    path == top || {
        &&& path.len() > top.len()
        &&& tree.has_node(path.drop_last())
        &&& tree.node(path.drop_last()).declares(path)
        &&& declared_under(tree, top, path.drop_last())
    }
}

/// Whether a tree declares the component at `path`.
pub open spec fn declared<D, N>(tree: ComponentTree<D, N>, path: Path) -> bool {
    declared_under(tree, Seq::empty(), path)
}

/// The first component from `path` on down that is declared and not in the tree.
pub open spec fn first_missing<D, N>(tree: ComponentTree<D, N>, path: Path) -> Option<Path>
    decreases tree.depth() + 1 - path.len(), tree.node(path).children@.len() + 1,
{
    if !tree.has_node(path) {
        Some(path)
    } else if path.len() > tree.depth() {
        None
    } else {
        first_missing_child(tree, path, 0)
    }
}

/// The first component from the child of `path` at position `k` on, and the children after it, that
/// is declared and not in the tree.
pub open spec fn first_missing_child<D, N>(tree: ComponentTree<D, N>, path: Path, k: nat) -> Option<
    Path,
>
    decreases tree.depth() + 1 - path.len(), tree.node(path).children@.len() - k,
{
    if k >= tree.node(path).children@.len() || path.len() > tree.depth() {
        None
    } else {
        let child = tree.node(path).children@[k as int]@;
        if child.len() != path.len() + 1 {
            None
        } else {
            match first_missing(tree, child) {
                Some(missing) => Some(missing),
                None => first_missing_child(tree, path, k + 1),
            }
        }
    }
}

/// Whether `path` is `top`, or leads on from there.
pub open spec fn is_below(top: Path, path: Path) -> bool {
    top.len() <= path.len() && path.take(top.len() as int) == top
}

/// Whether the instances have different paths.
pub open spec fn paths_distinct<D, N>(instances: Seq<ComponentInstanceForAnalyzer<D, N>>) -> bool {
    forall|i: int, j: int|
        0 <= i < j < instances.len() ==> (#[trigger] instances[i]).node_path@ != (
        #[trigger] instances[j]).node_path@
}

/// Whether an instance is what the tree says: it has the declaration and the environment of its
/// component, its parent is the instance one step up, and its children are those that its component
/// declares.
pub open spec fn instance_matches<D, N>(
    tree: ComponentTree<D, N>,
    instances: Seq<ComponentInstanceForAnalyzer<D, N>>,
    i: int,
) -> bool {
    let instance = instances[i];
    let node = tree.node(instance.node_path@);
    &&& tree.has_node(instance.node_path@)
    &&& instance.decl == node.decl
    &&& instance.environment.environment == node.environment
    &&& instance.environment.parent == instance.parent
    &&& match instance.parent {
        ParentInstance::AboveRoot => instance.node_path@.len() == 0,
        ParentInstance::Component(parent) => {
            &&& parent < i
            &&& instance.node_path@.len() > 0
            &&& instances[parent as int].node_path@ == instance.node_path@.drop_last()
        },
    }
    &&& instance.children@.len() == node.children@.len()
    &&& forall|k: int|
        0 <= k < instance.children@.len() ==> {
            let child = #[trigger] instance.children@[k] as int;
            &&& i < child < instances.len()
            &&& instances[child].node_path@ == node.children@[k]@
            &&& instances[child].parent == ParentInstance::Component(i as usize)
        }
}

proof fn lemma_declared_is_below<D, N>(tree: ComponentTree<D, N>, top: Path, path: Path)
    requires
        declared_under(tree, top, path),
    ensures
        is_below(top, path),
    decreases path.len(),
{
    if path != top {
        lemma_declared_is_below(tree, top, path.drop_last());
        assert(path.take(top.len() as int) =~= path.drop_last().take(top.len() as int));
    } else {
        assert(path.take(top.len() as int) =~= top);
    }
}

// What is declared under a child is declared under its parent.
proof fn lemma_declared_under_parent<D, N>(
    tree: ComponentTree<D, N>,
    top: Path,
    child: Path,
    path: Path,
)
    requires
        tree.has_node(top),
        tree.node(top).declares(child),
        child.len() == top.len() + 1,
        child.drop_last() == top,
        declared_under(tree, child, path),
    ensures
        declared_under(tree, top, path),
    decreases path.len(),
{
    if path == child {
        assert(declared_under(tree, top, top));
    } else {
        lemma_declared_under_parent(tree, top, child, path.drop_last());
    }
}

// What is declared under a component is the component, or is declared under one of its children.
proof fn lemma_declared_under_child<D, N>(tree: ComponentTree<D, N>, top: Path, path: Path) -> (child: Path)
    requires
        declared_under(tree, top, path),
        path != top,
    ensures
        tree.node(top).declares(child),
        declared_under(tree, child, path),
    decreases path.len(),
{
    let up = path.drop_last();
    if up == top {
        assert(declared_under(tree, path, path));
        path
    } else {
        let child = lemma_declared_under_child(tree, top, up);
        lemma_declared_is_below(tree, child, up);
        child
    }
}

// Two paths of the same length do not lead to the same path.
proof fn lemma_below_one(a: Path, b: Path, path: Path)
    requires
        is_below(a, path),
        is_below(b, path),
        a.len() == b.len(),
    ensures
        a == b,
{
}

// A path that leads on from a child leads on from its parent.
proof fn lemma_below_parent(top: Path, child: Path, path: Path)
    requires
        child.len() == top.len() + 1,
        child.drop_last() == top,
        is_below(child, path),
    ensures
        is_below(top, path),
{
    assert(path.take(top.len() as int) =~= path.take(child.len() as int).drop_last());
}

/// Builds a `ComponentModelForAnalyzer` from a `ComponentTree`.
pub struct ModelBuilderForAnalyzer {}

impl ModelBuilderForAnalyzer {
    pub fn new() -> (r: Self)
        ensures
            r == (ModelBuilderForAnalyzer {  }),
    {
        Self {  }
    }

    /// Builds the model. Fails with the path of the first component, from the root down, that is
    /// declared and not in the tree, if there is one.
    pub fn build<C, G, I, D, N>(
        self,
        tree: &ComponentTree<D, N>,
        namespace_capabilities: C,
        policy_checker: G,
        component_id_index: I,
    ) -> (r: Result<ComponentModelForAnalyzer<C, G, I, D, N>, NodePath>)
        requires
            tree.wf(),
        ensures
            match r {
                Ok(model) => {
                    &&& model.top_instance.namespace_capabilities == namespace_capabilities
                    &&& model.policy_checker == policy_checker
                    &&& model.component_id_index == component_id_index
                    &&& paths_distinct(model.instances@)
                    &&& forall|i: int|
                        0 <= i < model.instances@.len() ==> #[trigger] instance_matches(
                            *tree,
                            model.instances@,
                            i,
                        )
                    &&& forall|path: Path| #[trigger]
                        declared(*tree, path) <==> model.has_instance(path)
                },
                Err(path) => declared(*tree, path@) && !tree.has_node(path@) && first_missing(
                    *tree,
                    Seq::empty(),
                ) == Some(path@),
            },
    {
        let root_path = NodePath::new(Vec::new());
        assert(root_path@ =~= Seq::empty());
        let root = match tree.get_node(&root_path) {
            Some(root) => root,
            None => {
                return Err(root_path);
            },
        };
        let mut instances: Vec<ComponentInstanceForAnalyzer<D, N>> = Vec::new();
        match self.build_realm(root, ParentInstance::AboveRoot, tree, &mut instances) {
            Ok(_) => {},
            Err(path) => {
                return Err(path);
            },
        }
        let model = ComponentModelForAnalyzer {
            top_instance: TopInstanceForAnalyzer::new(namespace_capabilities),
            instances,
            policy_checker,
            component_id_index,
        };
        proof {
            assert forall|path: Path| #[trigger] declared(*tree, path) <==> model.has_instance(
                path,
            ) by {
                if declared(*tree, path) {
                    assert(declared_under(*tree, root.node_path@, path));
                }
                if model.has_instance(path) {
                    let i = choose|i: int|
                        0 <= i < model.instances@.len() && (
                        #[trigger] model.instances@[i]).node_path@ == path;
                    assert(declared_under(*tree, root.node_path@, model.instances@[i].node_path@));
                }
            }
        }
        Ok(model)
    }

    // Adds the instance of a component and those of the components below it. Returns its position.
    fn build_realm<D, N>(
        &self,
        node: &ComponentNode<D, N>,
        parent: ParentInstance,
        tree: &ComponentTree<D, N>,
        instances: &mut Vec<ComponentInstanceForAnalyzer<D, N>>,
    ) -> (r: Result<usize, NodePath>)
        requires
            tree.wf(),
            tree.has_node(node.node_path@),
            *node == tree.node(node.node_path@),
            node.wf(),
            node.node_path@.len() <= tree.depth(),
            paths_distinct(old(instances)@),
            forall|i: int|
                0 <= i < old(instances)@.len() ==> !is_below(
                    node.node_path@,
                    (#[trigger] old(instances)@[i]).node_path@,
                ),
            match parent {
                ParentInstance::AboveRoot => node.node_path@.len() == 0,
                ParentInstance::Component(p) => {
                    &&& p < old(instances)@.len()
                    &&& node.node_path@.len() > 0
                    &&& old(instances)@[p as int].node_path@ == node.node_path@.drop_last()
                },
            },
        ensures
            match r {
                Ok(position) => {
                    &&& position == old(instances)@.len()
                    &&& position < final(instances)@.len()
                    &&& final(instances)@.take(position as int) == old(instances)@
                    &&& final(instances)@[position as int].node_path@ == node.node_path@
                    &&& final(instances)@[position as int].parent == parent
                    &&& built_under(*tree, node.node_path@, final(instances)@, position as int)
                    &&& first_missing(*tree, node.node_path@) is None
                },
                Err(path) => declared_under(*tree, node.node_path@, path@) && !tree.has_node(path@)
                    && first_missing(*tree, node.node_path@) == Some(path@),
            },
        decreases tree.depth() - node.node_path@.len(), 1nat,
    {
        let position: usize = instances.len();
        let ghost before = instances@;
        instances.push(
            ComponentInstanceForAnalyzer {
                node_path: node.node_path.duplicate(),
                decl: node.decl.clone(),
                parent,
                children: Vec::new(),
                environment: EnvironmentForAnalyzer::new(node.environment.clone(), parent),
            },
        );
        let ghost added = instances@;
        proof {
            assert(is_below(node.node_path@, node.node_path@)) by {
                assert(node.node_path@.take(node.node_path@.len() as int) =~= node.node_path@);
            }
            assert(forall|i: int| 0 <= i < before.len() ==> #[trigger] added[i] == before[i]);
        }
        match self.build_children(node, position, tree, instances) {
            Ok(children) => {
                let ghost built = instances@;
                instances[position].children = children;
                proof {
                    let end = instances@;
                    assert(forall|i: int| 0 <= i < end.len() && i != position ==> #[trigger] end[i] == built[i]);
                    assert forall|i: int| 0 <= i <= position implies #[trigger] built[i]
                        == added[i] by {
                        assert(built.take(position + 1)[i] == built[i]);
                    }
                    assert forall|i: int| 0 <= i < position implies #[trigger] end[i]
                        == before[i] by {
                        assert(end[i] == built[i]);
                        assert(built[i] == added[i]);
                    }
                    assert(end.take(position as int) =~= before);
                    lemma_built_with_children(*tree, *node, built, end, position as int, children@);
                }
                Ok(position)
            },
            Err(path) => Err(path),
        }
    }

    // Adds the instances of the components that a component declares, and of those below them.
    // Returns the positions of the former.
    fn build_children<D, N>(
        &self,
        node: &ComponentNode<D, N>,
        position: usize,
        tree: &ComponentTree<D, N>,
        instances: &mut Vec<ComponentInstanceForAnalyzer<D, N>>,
    ) -> (r: Result<Vec<usize>, NodePath>)
        requires
            tree.wf(),
            tree.has_node(node.node_path@),
            *node == tree.node(node.node_path@),
            node.wf(),
            node.node_path@.len() <= tree.depth(),
            paths_distinct(old(instances)@),
            position + 1 == old(instances)@.len(),
            old(instances)@[position as int].node_path@ == node.node_path@,
            forall|i: int|
                0 <= i < position ==> !is_below(
                    node.node_path@,
                    (#[trigger] old(instances)@[i]).node_path@,
                ),
        ensures
            match r {
                Ok(children) => {
                    &&& final(instances)@.len() >= position + 1
                    &&& final(instances)@.take(position + 1) == old(instances)@
                    &&& children_built(
                        *tree,
                        *node,
                        final(instances)@,
                        position as int,
                        children@,
                        node.children@.len() as int,
                    )
                    &&& first_missing_child(*tree, node.node_path@, 0) is None
                },
                Err(path) => declared_under(*tree, node.node_path@, path@) && !tree.has_node(path@)
                    && first_missing_child(*tree, node.node_path@, 0) == Some(path@),
            },
        decreases tree.depth() - node.node_path@.len(), 0nat,
    {
        let ghost before = instances@;
        let mut children: Vec<usize> = Vec::new();
        let mut k: usize = 0;
        assert(instances@.take(position + 1) =~= before);
        while k < node.children.len()
            invariant
                k <= node.children@.len(),
                tree.wf(),
                tree.has_node(node.node_path@),
                *node == tree.node(node.node_path@),
                node.wf(),
                node.node_path@.len() <= tree.depth(),
                position + 1 == before.len(),
                before[position as int].node_path@ == node.node_path@,
                forall|i: int|
                    0 <= i < position ==> !is_below(
                        node.node_path@,
                        (#[trigger] before[i]).node_path@,
                    ),
                instances@.len() >= position + 1,
                instances@.take(position + 1) == before,
                children_built(*tree, *node, instances@, position as int, children@, k as int),
                first_missing_child(*tree, node.node_path@, 0) == first_missing_child(
                    *tree,
                    node.node_path@,
                    k as nat,
                ),
            decreases node.children@.len() - k,
        {
            let ghost child_path = node.children@[k as int]@;
            let ghost was = instances@;
            let child = match tree.get_node(&node.children[k]) {
                Some(child) => child,
                None => {
                    let missing = node.children[k].duplicate();
                    proof {
                        assert(node.declares(child_path));
                        assert(declared_under(*tree, child_path, child_path));
                        assert(first_missing(*tree, child_path) == Some(child_path));
                        lemma_declared_under_parent(
                            *tree,
                            node.node_path@,
                            child_path,
                            child_path,
                        );
                    }
                    return Err(missing);
                },
            };
            proof {
                lemma_no_clash(*tree, *node, was, position as int, before, children@, k as int);
                assert(was.take(position + 1)[position as int] == was[position as int]);
            }
            match self.build_realm(child, ParentInstance::Component(position), tree, instances) {
                Ok(child_position) => {
                    children.push(child_position);
                    proof {
                        assert(instances@.take(position + 1) =~= before) by {
                            assert(instances@.take(child_position as int) == was);
                            assert(instances@.take(position + 1) =~= was.take(position + 1));
                        }
                        lemma_child_built(
                            *tree,
                            *node,
                            was,
                            instances@,
                            position as int,
                            children@,
                            k as int,
                        );
                    }
                },
                Err(path) => {
                    proof {
                        assert(node.declares(child_path));
                        lemma_declared_under_parent(*tree, node.node_path@, child_path, path@);
                    }
                    return Err(path);
                },
            }
            k += 1;
        }
        Ok(children)
    }
}

// Whether the instances from `position` on are those of the components that are declared under
// `top`.
spec fn built_under<D, N>(
    tree: ComponentTree<D, N>,
    top: Path,
    instances: Seq<ComponentInstanceForAnalyzer<D, N>>,
    position: int,
) -> bool {
    &&& paths_distinct(instances)
    &&& forall|i: int|
        position <= i < instances.len() ==> {
            &&& declared_under(tree, top, (#[trigger] instances[i]).node_path@)
            &&& instance_matches(tree, instances, i)
        }
    &&& forall|path: Path| #[trigger]
        declared_under(tree, top, path) ==> exists|i: int|
            position <= i < instances.len() && (#[trigger] instances[i]).node_path@ == path
}

// Whether the instances after `position` are those of the components that are declared under the
// first `count` children of `node`, of which `children` are the positions.
spec fn children_built<D, N>(
    tree: ComponentTree<D, N>,
    node: ComponentNode<D, N>,
    instances: Seq<ComponentInstanceForAnalyzer<D, N>>,
    position: int,
    children: Seq<usize>,
    count: int,
) -> bool {
    &&& paths_distinct(instances)
    &&& children.len() == count
    &&& forall|k: int|
        0 <= k < count ==> {
            let child = #[trigger] children[k] as int;
            &&& position < child < instances.len()
            &&& instances[child].node_path@ == node.children@[k]@
            &&& instances[child].parent == ParentInstance::Component(position as usize)
        }
    &&& forall|i: int|
        position < i < instances.len() ==> {
            &&& under_some_child(tree, node, (#[trigger] instances[i]).node_path@, count)
            &&& instance_matches(tree, instances, i)
        }
    &&& forall|k: int, path: Path|
        0 <= k < count && #[trigger] declared_under(tree, node.children@[k]@, path) ==> exists|
            i: int,
        |
            position < i < instances.len() && (#[trigger] instances[i]).node_path@ == path
}

spec fn under_some_child<D, N>(
    tree: ComponentTree<D, N>,
    node: ComponentNode<D, N>,
    path: Path,
    count: int,
) -> bool {
    exists|k: int|
        0 <= k < count && #[trigger] declared_under(tree, node.children@[k]@, path)
}

// No instance is at or below the next child.
proof fn lemma_no_clash<D, N>(
    tree: ComponentTree<D, N>,
    node: ComponentNode<D, N>,
    instances: Seq<ComponentInstanceForAnalyzer<D, N>>,
    position: int,
    before: Seq<ComponentInstanceForAnalyzer<D, N>>,
    children: Seq<usize>,
    count: int,
)
    requires
        node.wf(),
        0 <= count < node.children@.len(),
        position + 1 == before.len(),
        position + 1 <= instances.len(),
        instances.take(position + 1) == before,
        before[position].node_path@ == node.node_path@,
        forall|i: int|
            0 <= i < position ==> !is_below(node.node_path@, (#[trigger] before[i]).node_path@),
        children_built(tree, node, instances, position, children, count),
    ensures
        forall|i: int|
            0 <= i < instances.len() ==> !is_below(
                node.children@[count]@,
                (#[trigger] instances[i]).node_path@,
            ),
{
    let next = node.children@[count]@;
    assert forall|i: int| 0 <= i < instances.len() implies !is_below(
        next,
        (#[trigger] instances[i]).node_path@,
    ) by {
        let path = instances[i].node_path@;
        if is_below(next, path) {
            if i <= position {
                assert(instances.take(position + 1)[i] == instances[i]);
                assert(before[i] == instances[i]);
                lemma_below_parent(node.node_path@, next, path);
            } else {
                assert(under_some_child(tree, node, path, count));
                let k = choose|k: int|
                    0 <= k < count && #[trigger] declared_under(tree, node.children@[k]@, path);
                lemma_declared_is_below(tree, node.children@[k]@, path);
                assert(node.children@[k]@.len() == next.len());
                lemma_below_one(node.children@[k]@, next, path);
                assert(node.children@[k]@ != node.children@[count]@);
            }
        }
    }
}

// The children that have been built when one more has been.
proof fn lemma_child_built<D, N>(
    tree: ComponentTree<D, N>,
    node: ComponentNode<D, N>,
    was: Seq<ComponentInstanceForAnalyzer<D, N>>,
    instances: Seq<ComponentInstanceForAnalyzer<D, N>>,
    position: int,
    children: Seq<usize>,
    count: int,
)
    requires
        0 <= count < node.children@.len(),
        0 <= position < was.len() < instances.len(),
        children.len() == count + 1,
        children_built(tree, node, was, position, children.take(count), count),
        instances.take(was.len() as int) == was,
        children[count] == was.len(),
        instances[was.len() as int].node_path@ == node.children@[count]@,
        instances[was.len() as int].parent == ParentInstance::Component(position as usize),
        built_under(tree, node.children@[count]@, instances, was.len() as int),
    ensures
        children_built(tree, node, instances, position, children, count + 1),
{
    let n = was.len() as int;
    assert forall|i: int| 0 <= i < n implies #[trigger] instances[i] == was[i] by {
        assert(instances.take(n)[i] == instances[i]);
    }
    assert forall|k: int| 0 <= k < count + 1 implies {
        let child = #[trigger] children[k] as int;
        &&& position < child < instances.len()
        &&& instances[child].node_path@ == node.children@[k]@
        &&& instances[child].parent == ParentInstance::Component(position as usize)
    } by {
        if k < count {
            assert(children.take(count)[k] == children[k]);
        }
    }
    assert forall|i: int| position < i < instances.len() implies {
        &&& under_some_child(tree, node, (#[trigger] instances[i]).node_path@, count + 1)
        &&& instance_matches(tree, instances, i)
    } by {
        let path = instances[i].node_path@;
        if i < n {
            assert(under_some_child(tree, node, was[i].node_path@, count));
            let k = choose|k: int|
                0 <= k < count && #[trigger] declared_under(tree, node.children@[k]@, path);
            assert(declared_under(tree, node.children@[k]@, path));
            lemma_matches_kept(tree, was, instances, i);
        } else {
            assert(declared_under(tree, node.children@[count]@, path));
        }
    }
    assert forall|k: int, path: Path|
        0 <= k < count + 1 && #[trigger] declared_under(
            tree,
            node.children@[k]@,
            path,
        ) implies exists|i: int|
        position < i < instances.len() && (#[trigger] instances[i]).node_path@ == path by {
        if k < count {
            let i = choose|i: int|
                position < i < was.len() && (#[trigger] was[i]).node_path@ == path;
            assert(instances[i].node_path@ == path);
        } else {
            let i = choose|i: int|
                n <= i < instances.len() && (#[trigger] instances[i]).node_path@ == path;
            assert(instances[i].node_path@ == path);
        }
    }
}

// An instance still matches the tree when more instances have been added.
proof fn lemma_matches_kept<D, N>(
    tree: ComponentTree<D, N>,
    was: Seq<ComponentInstanceForAnalyzer<D, N>>,
    instances: Seq<ComponentInstanceForAnalyzer<D, N>>,
    i: int,
)
    requires
        0 <= i < was.len() <= instances.len(),
        forall|j: int| 0 <= j < was.len() ==> #[trigger] instances[j] == was[j],
        instance_matches(tree, was, i),
    ensures
        instance_matches(tree, instances, i),
{
    let instance = was[i];
    assert forall|k: int| 0 <= k < instance.children@.len() implies {
        let child = #[trigger] instance.children@[k] as int;
        &&& i < child < instances.len()
        &&& instances[child].node_path@ == tree.node(instance.node_path@).children@[k]@
        &&& instances[child].parent == ParentInstance::Component(i as usize)
    } by {
        let child = instance.children@[k] as int;
        assert(instances[child] == was[child]);
    }
}

// A component has been built when its children have been, and it knows them.
proof fn lemma_built_with_children<D, N>(
    tree: ComponentTree<D, N>,
    node: ComponentNode<D, N>,
    built: Seq<ComponentInstanceForAnalyzer<D, N>>,
    end: Seq<ComponentInstanceForAnalyzer<D, N>>,
    position: int,
    children: Seq<usize>,
)
    requires
        node.wf(),
        tree.has_node(node.node_path@),
        node == tree.node(node.node_path@),
        0 <= position < built.len(),
        end.len() == built.len(),
        forall|i: int| 0 <= i < end.len() && i != position ==> #[trigger] end[i] == built[i],
        end[position].node_path@ == node.node_path@,
        end[position].node_path == built[position].node_path,
        end[position].decl == node.decl,
        end[position].environment.environment == node.environment,
        end[position].environment.parent == end[position].parent,
        match end[position].parent {
            ParentInstance::AboveRoot => node.node_path@.len() == 0,
            ParentInstance::Component(parent) => {
                &&& parent < position
                &&& node.node_path@.len() > 0
                &&& end[parent as int].node_path@ == node.node_path@.drop_last()
            },
        },
        end[position].children@ == children,
        position <= usize::MAX,
        children_built(tree, node, built, position, children, node.children@.len() as int),
    ensures
        built_under(tree, node.node_path@, end, position),
{
    assert forall|i: int| 0 <= i < end.len() implies (#[trigger] end[i]).node_path@
        == built[i].node_path@ by {}
    assert forall|i: int, j: int| 0 <= i < j < end.len() implies (#[trigger] end[i]).node_path@ != (
    #[trigger] end[j]).node_path@ by {
        assert(built[i].node_path@ != built[j].node_path@);
    }
    assert forall|i: int| position <= i < end.len() implies {
        &&& declared_under(tree, node.node_path@, (#[trigger] end[i]).node_path@)
        &&& instance_matches(tree, end, i)
    } by {
        if i == position {
            assert forall|k: int| 0 <= k < children.len() implies {
                let child = #[trigger] children[k] as int;
                &&& position < child < end.len()
                &&& end[child].node_path@ == node.children@[k]@
                &&& end[child].parent == ParentInstance::Component(position as usize)
            } by {
                assert(end[children[k] as int] == built[children[k] as int]);
            }
        } else {
            let path = built[i].node_path@;
            assert(end[i] == built[i]);
            assert(under_some_child(tree, node, path, node.children@.len() as int));
            let k = choose|k: int|
                0 <= k < node.children@.len() && #[trigger] declared_under(
                    tree,
                    node.children@[k]@,
                    path,
                );
            assert(node.declares(node.children@[k]@));
            lemma_declared_under_parent(tree, node.node_path@, node.children@[k]@, path);
            assert(instance_matches(tree, built, i));
            let instance = built[i];
            assert forall|c: int| 0 <= c < instance.children@.len() implies {
                let child = #[trigger] instance.children@[c] as int;
                &&& i < child < end.len()
                &&& end[child].node_path@ == tree.node(instance.node_path@).children@[c]@
                &&& end[child].parent == ParentInstance::Component(i as usize)
            } by {
                let child = instance.children@[c] as int;
                assert(end[child] == built[child]);
            }
        }
    }
    assert forall|path: Path| #[trigger] declared_under(
        tree,
        node.node_path@,
        path,
    ) implies exists|i: int|
        position <= i < end.len() && (#[trigger] end[i]).node_path@ == path by {
        if path == node.node_path@ {
            assert(end[position].node_path@ == path);
        } else {
            let child = lemma_declared_under_child(tree, node.node_path@, path);
            let k = choose|k: int|
                0 <= k < node.children@.len() && (#[trigger] node.children@[k])@ == child;
            assert(declared_under(tree, node.children@[k]@, path));
            let i = choose|i: int|
                position < i < built.len() && (#[trigger] built[i]).node_path@ == path;
            assert(end[i].node_path@ == path);
        }
    }
}

/// `ComponentModelForAnalyzer` owns a representation of each v2 component instance and supports
/// lookup by `NodePath`. All instances share one policy checker, of type `G`, and one component ID
/// index, of type `I`.
pub struct ComponentModelForAnalyzer<C, G, I, D, N> {
    pub top_instance: TopInstanceForAnalyzer<C>,
    pub instances: Vec<ComponentInstanceForAnalyzer<D, N>>,
    pub policy_checker: G,
    pub component_id_index: I,
}

impl<C, G, I, D, N> ComponentModelForAnalyzer<C, G, I, D, N> {
    pub open spec fn has_instance(&self, path: Path) -> bool {
        exists|i: int|
            0 <= i < self.instances@.len() && (#[trigger] self.instances@[i]).node_path@ == path
    }

    /// Whether an instance is one of the model's.
    pub open spec fn holds(&self, instance: ComponentInstanceForAnalyzer<D, N>) -> bool {
        self.instances@.contains(instance)
    }

    /// Whether the positions of parents and children are those of instances, and each parent's
    /// children are told apart by their monikers.
    pub open spec fn wf(&self) -> bool {
        &&& paths_distinct(self.instances@)
        &&& forall|i: int|
            0 <= i < self.instances@.len() ==> ((#[trigger] self.instances@[i]).parent matches ParentInstance::Component(
                parent,
            ) ==> {
                &&& parent < self.instances@.len()
                &&& self.instances@[i].node_path@.len() > 0
                &&& self.instances@[parent as int].node_path@
                    == self.instances@[i].node_path@.drop_last()
            })
        &&& forall|i: int, k: int|
            #![trigger self.instances@[i].children@[k]]
            0 <= i < self.instances@.len() && 0 <= k < self.instances@[i].children@.len() ==> {
                let child = self.instances@[i].children@[k] as int;
                &&& child < self.instances@.len()
                &&& self.instances@[child].node_path@.len() > 0
                &&& self.instances@[child].node_path@.drop_last() == self.instances@[i].node_path@
            }
    }

    /// Returns the number of component instances in the model, not counting the top instance.
    pub fn len(&self) -> (r: usize)
        ensures
            r == self.instances@.len(),
    {
        self.instances.len()
    }

    /// Returns the component instance corresponding to `id` if it is present in the model, or an
    /// `InstanceNotFound` error if not.
    pub fn get_instance(&self, id: &NodePath) -> (r: Result<
        &ComponentInstanceForAnalyzer<D, N>,
        ComponentInstanceError,
    >)
        ensures
            match r {
                Ok(instance) => self.holds(*instance) && instance.node_path@ == id@,
                Err(ComponentInstanceError::InstanceNotFound(path)) => !self.has_instance(id@)
                    && path@ == id@,
            },
    {
        let mut i: usize = 0;
        while i < self.instances.len()
            invariant
                i <= self.instances.len(),
                forall|j: int| 0 <= j < i ==> (#[trigger] self.instances@[j]).node_path@ != id@,
            decreases self.instances.len() - i,
        {
            if self.instances[i].node_path.same(id) {
                assert(self.instances@[i as int] == self.instances[i as int]);
                return Ok(&self.instances[i]);
            }
            i += 1;
        }
        Err(ComponentInstanceError::InstanceNotFound(id.duplicate()))
    }

    /// Returns the parent of an instance; `None` for the root, which is below the top instance.
    pub fn try_get_parent(&self, instance: &ComponentInstanceForAnalyzer<D, N>) -> (r: Option<
        &ComponentInstanceForAnalyzer<D, N>,
    >)
        requires
            self.wf(),
            self.holds(*instance),
        ensures
            match r {
                Some(parent) => self.holds(*parent) && instance.node_path@.len() > 0
                    && parent.node_path@ == instance.node_path@.drop_last(),
                None => instance.parent is AboveRoot,
            },
            r is None <==> instance.parent is AboveRoot,
    {
        match instance.parent {
            ParentInstance::AboveRoot => None,
            ParentInstance::Component(parent) => {
                proof {
                    let i = self.instances@.index_of(*instance);
                    assert(self.instances@[i] == *instance);
                    assert(self.instances@[parent as int] == self.instances[parent as int]);
                }
                Some(&self.instances[parent])
            },
        }
    }

    /// Returns what checks the policies that an instance is subject to.
    pub fn try_get_policy_checker(&self, instance: &ComponentInstanceForAnalyzer<D, N>) -> (r: &G)
        ensures
            *r == self.policy_checker,
    {
        &self.policy_checker
    }

    /// Returns the index in which the ID of an instance is found.
    pub fn try_get_component_id_index(&self, instance: &ComponentInstanceForAnalyzer<D, N>) -> (r:
        &I)
        ensures
            *r == self.component_id_index,
    {
        &self.component_id_index
    }

    /// Returns the child of an instance with the given moniker, if there is one.
    pub fn get_live_child(
        &self,
        instance: &ComponentInstanceForAnalyzer<D, N>,
        moniker: &PartialMoniker,
    ) -> (r: Option<&ComponentInstanceForAnalyzer<D, N>>)
        requires
            self.wf(),
            self.holds(*instance),
        ensures
            match r {
                Some(child) => self.holds(*child) && child.node_path@ == instance.node_path@.push(
                    moniker@,
                ),
                None => forall|k: int|
                    #![trigger instance.children@[k]]
                    0 <= k < instance.children@.len()
                        ==> self.instances@[instance.children@[k] as int].node_path@
                        != instance.node_path@.push(moniker@),
            },
    {
        let path = instance.node_path.extended(moniker.duplicate());
        let ghost i = self.instances@.index_of(*instance);
        assert(self.instances@[i] == *instance);
        let mut k: usize = 0;
        while k < instance.children.len()
            invariant
                k <= instance.children.len(),
                self.wf(),
                0 <= i < self.instances@.len(),
                self.instances@[i] == *instance,
                path@ == instance.node_path@.push(moniker@),
                forall|j: int|
                    #![trigger instance.children@[j]]
                    0 <= j < k ==> self.instances@[instance.children@[j] as int].node_path@
                        != path@,
            decreases instance.children.len() - k,
        {
            let position: usize = instance.children[k];
            assert(self.instances@[i].children@[k as int] == position);
            let child = &self.instances[position];
            if child.node_path.same(&path) {
                assert(self.instances@[position as int] == *child);
                return Some(child);
            }
            k += 1;
        }
        None
    }

    /// Returns the children of an instance that are in a collection. This is a static model with no
    /// notion of a collection.
    pub fn live_children_in_collection(
        &self,
        instance: &ComponentInstanceForAnalyzer<D, N>,
        collection: &String,
    ) -> (r: Vec<&ComponentInstanceForAnalyzer<D, N>>)
        ensures
            r@.len() == 0,
    {
        Vec::new()
    }

    /// Whether `r` is what checking a capability source leads to: if it is a component instance,
    /// that instance must be executable.
    pub open spec fn source_checked(
        &self,
        source: CapabilitySource,
        r: Result<(), AnalyzerModelError>,
    ) -> bool {
        match source {
            CapabilitySource::Component(Ok(position)) => {
                let instance = self.instances@[position as int];
                if instance.decl.has_program {
                    r is Ok
                } else {
                    r matches Err(AnalyzerModelError::SourceInstanceNotExecutable(path)) && path@
                        == instance.node_path@
                }
            },
            CapabilitySource::Component(Err(status)) => r matches Err(
                AnalyzerModelError::ComponentInstanceError(s),
            ) && s == status,
            _ => r is Ok,
        }
    }

    /// Whether a source can be checked: it has to be of a supported kind, and an instance of this
    /// model.
    pub open spec fn can_check(&self, route_source: RouteSource) -> bool {
        &&& !(route_source.capability_source() is Other)
        &&& route_source.capability_source() matches CapabilitySource::Component(Ok(position))
            ==> position < self.instances@.len()
    }

    /// Whether `r` is what checking a routed capability leads to.
    pub open spec fn route_checked(
        &self,
        routed: Result<RouteSource, Status>,
        r: Result<(), AnalyzerModelError>,
    ) -> bool {
        match routed {
            Ok(route_source) => self.source_checked(route_source.capability_source(), r),
            Err(status) => r matches Err(AnalyzerModelError::RoutingError(s)) && s == status,
        }
    }

    /// Given a `UseDecl` for a capability at an instance `target`, first routes the capability to
    /// its source and then validates the source. `route_capability` does the routing.
    pub fn check_use_capability<P, F>(
        &self,
        use_decl: UseDecl<P>,
        target: &ComponentInstanceForAnalyzer<D, N>,
        route_capability: &F,
    ) -> (r: Result<(), AnalyzerModelError>) where
        F: Fn(RouteRequest<P>, &ComponentInstanceForAnalyzer<D, N>) -> Result<RouteSource, Status>,

        requires
            !(use_decl is Other),
            call_requires(*route_capability, (use_request(use_decl), target)),
            forall|routed: Result<RouteSource, Status>| #[trigger]
                call_ensures(*route_capability, (use_request(use_decl), target), routed) ==> (
                routed matches Ok(route_source) ==> self.can_check(route_source)),
        ensures
            exists|routed: Result<RouteSource, Status>| #[trigger]
                call_ensures(*route_capability, (use_request(use_decl), target), routed)
                    && self.route_checked(routed, r),
    {
        let request = match use_decl {
            UseDecl::Directory(decl) => RouteRequest::UseDirectory(decl),
            UseDecl::Event(decl) => RouteRequest::UseEvent(decl),
            UseDecl::Protocol(decl) => RouteRequest::UseProtocol(decl),
            UseDecl::Service(decl) => RouteRequest::UseService(decl),
            UseDecl::Storage(decl) => RouteRequest::UseStorage(decl),
            UseDecl::Other(_) => unreached(),
        };
        let routed = route_capability(request, target);
        let ghost given = routed;
        assert(call_ensures(*route_capability, (use_request(use_decl), target), given));
        match routed {
            Ok(source) => self.check_use_source(&source),
            Err(status) => Err(AnalyzerModelError::RoutingError(status)),
        }
    }

    /// Given a `ExposeDecl` for a capability at an instance `target`, checks whether the capability
    /// can be used from an expose declaration. If so, routes the capability to its source and then
    /// validates the source. `route_capability` does the routing.
    pub fn check_use_exposed_capability<P, F>(
        &self,
        expose_decl: ExposeDecl<P>,
        target: &ComponentInstanceForAnalyzer<D, N>,
        route_capability: &F,
    ) -> (r: Result<(), AnalyzerModelError>) where
        F: Fn(RouteRequest<P>, &ComponentInstanceForAnalyzer<D, N>) -> Result<RouteSource, Status>,

        requires
            expose_request(expose_decl) matches Some(request) ==> {
                &&& call_requires(*route_capability, (request, target))
                &&& forall|routed: Result<RouteSource, Status>| #[trigger]
                    call_ensures(*route_capability, (request, target), routed) ==> (
                    routed matches Ok(route_source) ==> self.can_check(route_source))
            },
        ensures
            match expose_request(expose_decl) {
                Some(request) => exists|routed: Result<RouteSource, Status>| #[trigger]
                    call_ensures(*route_capability, (request, target), routed)
                        && self.route_checked(routed, r),
                None => r is Ok,
            },
    {
        match request_from_expose(expose_decl) {
            Some(request) => {
                let ghost asked = request;
                let routed = route_capability(request, target);
                let ghost given = routed;
                assert(call_ensures(*route_capability, (asked, target), given));
                match routed {
                    Ok(source) => self.check_use_source(&source),
                    Err(status) => Err(AnalyzerModelError::RoutingError(status)),
                }
            },
            None => Ok(()),
        }
    }

    /// Checks properties of a capability source that are necessary to use the capability and that
    /// are possible to verify statically.
    pub fn check_use_source(&self, route_source: &RouteSource) -> (r: Result<(), AnalyzerModelError>)
        requires
            self.can_check(*route_source),
        ensures
            self.source_checked(route_source.capability_source(), r),
    {
        match route_source {
            RouteSource::Directory(source) => self.check_directory_source(source),
            RouteSource::Protocol(source) => self.check_protocol_source(source),
            RouteSource::Other => unreached(),
        }
    }

    // If the source of a directory capability is a component instance, checks that that instance is
    // executable.
    fn check_directory_source(&self, source: &CapabilitySource) -> (r: Result<(), AnalyzerModelError>)
        requires
            !(source is Other),
            *source matches CapabilitySource::Component(Ok(position)) ==> position
                < self.instances@.len(),
        ensures
            self.source_checked(*source, r),
    {
        match source {
            CapabilitySource::Component(component) => match component {
                Ok(position) => check_executable(&self.instances[*position]),
                Err(status) => Err(AnalyzerModelError::ComponentInstanceError(*status)),
            },
            CapabilitySource::Namespace => Ok(()),
            CapabilitySource::Other => unreached(),
        }
    }

    // If the source of a protocol capability is a component instance, checks that that instance is
    // executable.
    fn check_protocol_source(&self, source: &CapabilitySource) -> (r: Result<(), AnalyzerModelError>)
        requires
            !(source is Other),
            *source matches CapabilitySource::Component(Ok(position)) ==> position
                < self.instances@.len(),
        ensures
            self.source_checked(*source, r),
    {
        match source {
            CapabilitySource::Component(component) => match component {
                Ok(position) => check_executable(&self.instances[*position]),
                Err(status) => Err(AnalyzerModelError::ComponentInstanceError(*status)),
            },
            CapabilitySource::Namespace => Ok(()),
            CapabilitySource::Other => unreached(),
        }
    }
}

// Checks whether a component instance is executable.
fn check_executable<D, N>(component: &ComponentInstanceForAnalyzer<D, N>) -> (r: Result<
    (),
    AnalyzerModelError,
>)
    ensures
        if component.decl.has_program {
            r is Ok
        } else {
            r matches Err(AnalyzerModelError::SourceInstanceNotExecutable(path)) && path@
                == component.node_path@
        },
{
    if component.decl().has_program {
        Ok(())
    } else {
        Err(AnalyzerModelError::SourceInstanceNotExecutable(component.node_path.duplicate()))
    }
}

/// What a component uses. `P` stands for what each declaration holds.
#[derive(Debug, PartialEq, Eq)]
pub enum UseDecl<P> {
    Directory(P),
    Event(P),
    Protocol(P),
    Service(P),
    Storage(P),
    /// A declaration that is not routed.
    Other(P),
}

/// What a component exposes.
#[derive(Debug, PartialEq, Eq)]
pub enum ExposeDecl<P> {
    Directory(P),
    Protocol(P),
    Service(P),
    /// A declaration of something that cannot be used by those who see it.
    Other(P),
}

/// A request to route a capability.
#[derive(Debug, PartialEq, Eq)]
pub enum RouteRequest<P> {
    ExposeDirectory(P),
    ExposeProtocol(P),
    ExposeService(P),
    UseDirectory(P),
    UseEvent(P),
    UseProtocol(P),
    UseService(P),
    UseStorage(P),
}

/// Who provides a capability.
#[derive(Clone, Copy, Debug)]
pub enum CapabilitySource {
    /// The instance at a position in the model, or why it could not be had.
    Component(Result<usize, Status>),
    /// The component manager's namespace.
    Namespace,
    /// Another source, which is not checked.
    Other,
}

/// Where a capability has been routed from.
#[derive(Clone, Copy, Debug)]
pub enum RouteSource {
    Directory(CapabilitySource),
    Protocol(CapabilitySource),
    /// A capability that is not checked.
    Other,
}

impl RouteSource {
    pub open spec fn capability_source(self) -> CapabilitySource {
        match self {
            RouteSource::Directory(source) => source,
            RouteSource::Protocol(source) => source,
            RouteSource::Other => CapabilitySource::Other,
        }
    }
}

/// The request to route a capability that a component uses.
pub open spec fn use_request<P>(use_decl: UseDecl<P>) -> RouteRequest<P> {
    match use_decl {
        UseDecl::Directory(decl) => RouteRequest::UseDirectory(decl),
        UseDecl::Event(decl) => RouteRequest::UseEvent(decl),
        UseDecl::Protocol(decl) => RouteRequest::UseProtocol(decl),
        UseDecl::Service(decl) => RouteRequest::UseService(decl),
        UseDecl::Storage(decl) => RouteRequest::UseStorage(decl),
        UseDecl::Other(decl) => RouteRequest::UseProtocol(decl),
    }
}

/// The request to route a capability that a component exposes. `None` if the capability type cannot
/// be used from an expose.
pub open spec fn expose_request<P>(expose_decl: ExposeDecl<P>) -> Option<RouteRequest<P>> {
    match expose_decl {
        ExposeDecl::Directory(decl) => Some(RouteRequest::ExposeDirectory(decl)),
        ExposeDecl::Protocol(decl) => Some(RouteRequest::ExposeProtocol(decl)),
        ExposeDecl::Service(decl) => Some(RouteRequest::ExposeService(decl)),
        ExposeDecl::Other(_) => None,
    }
}

// Prepares a route request for capabilities which can be used from an expose declaration, and
// returns None if the capability type cannot be used from an expose.
fn request_from_expose<P>(expose_decl: ExposeDecl<P>) -> (r: Option<RouteRequest<P>>)
    ensures
        r == expose_request(expose_decl),
{
    match expose_decl {
        ExposeDecl::Directory(decl) => Some(RouteRequest::ExposeDirectory(decl)),
        ExposeDecl::Protocol(decl) => Some(RouteRequest::ExposeProtocol(decl)),
        ExposeDecl::Service(decl) => Some(RouteRequest::ExposeService(decl)),
        ExposeDecl::Other(_) => None,
    }
}

/// A model whose instances match a tree is well formed, and the child of an instance with a moniker
/// is found exactly where the tree declares one.
pub proof fn law_built_models_follow_the_tree<C, G, I, D, N>(
    tree: ComponentTree<D, N>,
    model: ComponentModelForAnalyzer<C, G, I, D, N>,
)
    requires
        tree.wf(),
        paths_distinct(model.instances@),
        forall|i: int|
            0 <= i < model.instances@.len() ==> #[trigger] instance_matches(
                tree,
                model.instances@,
                i,
            ),
    ensures
        model.wf(),
        forall|i: int, path: Path|
            #![trigger tree.node(model.instances@[i].node_path@).declares(path)]
            0 <= i < model.instances@.len() && tree.node(
                model.instances@[i].node_path@,
            ).declares(path) ==> exists|k: int|
                0 <= k < model.instances@[i].children@.len()
                    && model.instances@[#[trigger] model.instances@[i].children@[k] as int].node_path@
                    == path,
{
    let instances = model.instances@;
    assert forall|i: int| 0 <= i < instances.len() implies ((#[trigger] instances[i]).parent matches ParentInstance::Component(
        parent,
    ) ==> {
        &&& parent < instances.len()
        &&& instances[i].node_path@.len() > 0
        &&& instances[parent as int].node_path@ == instances[i].node_path@.drop_last()
    }) by {
        assert(instance_matches(tree, instances, i));
    }
    assert forall|i: int, k: int|
        #![trigger instances[i].children@[k]]
        0 <= i < instances.len() && 0 <= k < instances[i].children@.len() implies {
        let child = instances[i].children@[k] as int;
        &&& child < instances.len()
        &&& instances[child].node_path@.len() > 0
        &&& instances[child].node_path@.drop_last() == instances[i].node_path@
    } by {
        assert(instance_matches(tree, instances, i));
        let child = instances[i].children@[k] as int;
        assert(instance_matches(tree, instances, child));
        assert(instances[child].parent == ParentInstance::Component(i as usize));
    }
    assert forall|i: int, path: Path|
        #![trigger tree.node(instances[i].node_path@).declares(path)]
        0 <= i < instances.len() && tree.node(instances[i].node_path@).declares(
            path,
        ) implies exists|k: int|
        0 <= k < instances[i].children@.len()
            && instances[#[trigger] instances[i].children@[k] as int].node_path@ == path by {
        assert(instance_matches(tree, instances, i));
        let node = tree.node(instances[i].node_path@);
        let k = choose|k: int| 0 <= k < node.children@.len() && (#[trigger] node.children@[k])@ == path;
        let child = instances[i].children@[k] as int;
        assert(instances[child].node_path@ == path);
    }
}

} // verus!
