//! A tree of component declarations.

use std::sync::Arc;
use vstd::prelude::*;

verus! {

/// The name of a component instance among the children of its parent.
#[derive(Debug)]
#[verifier::ext_equal]
pub struct PartialMoniker<S = String> {
    pub name: S,
    pub collection: Option<S>,
}

impl View for PartialMoniker {
    type V = PartialMoniker<Seq<char>>;

    open spec fn view(&self) -> PartialMoniker<Seq<char>> {
        PartialMoniker {
            name: self.name@,
            collection: match self.collection {
                Some(collection) => Some(collection@),
                None => None,
            },
        }
    }
}

/// A path as a value.
pub type Path = Seq<PartialMoniker<Seq<char>>>;

/// The monikers from the root down to a component instance.
#[derive(Debug)]
pub struct NodePath {
    pub monikers: Vec<PartialMoniker>,
}

impl View for NodePath {
    type V = Path;

    open spec fn view(&self) -> Path {
        self.monikers@.map_values(|moniker: PartialMoniker| moniker@)
    }
}

impl PartialMoniker {
    pub fn new(name: String, collection: Option<String>) -> (r: Self)
        ensures
            r.name == name,
            r.collection == collection,
    {
        PartialMoniker { name, collection }
    }

    /// Whether the two monikers are equal.
    pub fn same(&self, other: &PartialMoniker) -> (r: bool)
        ensures
            r == (self@ == other@),
    {
        if self.name != other.name {
            return false;
        }
        match (&self.collection, &other.collection) {
            (None, None) => true,
            (Some(a), Some(b)) => *a == *b,
            _ => false,
        }
    }

    pub fn duplicate(&self) -> (r: PartialMoniker)
        ensures
            r@ == self@,
    {
        PartialMoniker {
            name: self.name.clone(),
            collection: match &self.collection {
                Some(collection) => Some(collection.clone()),
                None => None,
            },
        }
    }
}

impl NodePath {
    pub fn new(monikers: Vec<PartialMoniker>) -> (r: Self)
        ensures
            r.monikers == monikers,
    {
        NodePath { monikers }
    }

    pub fn duplicate(&self) -> (r: NodePath)
        ensures
            r@ == self@,
    {
        let mut monikers: Vec<PartialMoniker> = Vec::new();
        let mut i: usize = 0;
        while i < self.monikers.len()
            invariant
                i <= self.monikers.len(),
                monikers.len() == i,
                forall|j: int| 0 <= j < i ==> (#[trigger] monikers[j])@ == self.monikers[j]@,
            decreases self.monikers.len() - i,
        {
            monikers.push(self.monikers[i].duplicate());
            i += 1;
        }
        let r = NodePath { monikers };
        assert(r@ =~= self@);
        r
    }

    /// The path of the child with the given moniker.
    pub fn extended(&self, moniker: PartialMoniker) -> (r: NodePath)
        ensures
            r@ == self@.push(moniker@),
    {
        let mut r = self.duplicate();
        let ghost before = r@;
        r.monikers.push(moniker);
        assert(r@ =~= before.push(moniker@));
        r
    }

    /// Whether the two paths are equal.
    pub fn same(&self, other: &NodePath) -> (r: bool)
        ensures
            r == (self@ == other@),
    {
        if self.monikers.len() != other.monikers.len() {
            assert(self@.len() != other@.len());
            return false;
        }
        let mut i: usize = 0;
        while i < self.monikers.len()
            invariant
                i <= self.monikers.len(),
                self.monikers.len() == other.monikers.len(),
                forall|j: int|
                    0 <= j < i ==> (#[trigger] self.monikers[j])@ == other.monikers[j]@,
            decreases self.monikers.len() - i,
        {
            if !self.monikers[i].same(&other.monikers[i]) {
                assert(self@[i as int] != other@[i as int]);
                return false;
            }
            i += 1;
        }
        assert(self@ =~= other@);
        true
    }
}

/// A component in the tree: what it declares, and the environment that it was given. `D` and `N`
/// stand for the parts of these that are not looked at here.
pub struct ComponentNode<D, N> {
    pub node_path: NodePath,
    /// The paths of the children that the component declares.
    pub children: Vec<NodePath>,
    pub decl: Arc<ComponentDecl<D>>,
    pub environment: Arc<N>,
}

/// What a component declares.
pub struct ComponentDecl<D> {
    /// Whether there is a program to run.
    pub has_program: bool,
    pub content: D,
}

/// What an environment builds on.
#[derive(Clone, Copy, Debug, PartialEq, Eq, Structural)]
pub enum EnvironmentExtends {
    /// Nothing.
    Nothing,
    /// The environment of the parent.
    Realm,
}

/// The environment that a component was given. `R` and `G` stand for the runners and the debug
/// capabilities that are registered in it.
pub struct NodeEnvironment<R, G> {
    pub name: Option<String>,
    pub extends: EnvironmentExtends,
    pub runner_registry: R,
    pub debug_registry: G,
}

impl<D, N> ComponentNode<D, N> {
    /// Whether `path` is that of a child that the component declares.
    pub open spec fn declares(&self, path: Path) -> bool {
        exists|i: int| 0 <= i < self.children@.len() && (#[trigger] self.children@[i])@ == path
    }

    /// The children are directly below the component, and each is declared once.
    pub open spec fn wf(&self) -> bool {
        &&& forall|i: int|
            0 <= i < self.children@.len() ==> {
                &&& (#[trigger] self.children@[i])@.len() == self.node_path@.len() + 1
                &&& self.children@[i]@.drop_last() == self.node_path@
            }
        &&& forall|i: int, j: int|
            0 <= i < j < self.children@.len() ==> (#[trigger] self.children@[i])@ != (
            #[trigger] self.children@[j])@
    }
}

/// The components of a tree, which are found by their paths.
pub struct ComponentTree<D, N> {
    pub nodes: Vec<ComponentNode<D, N>>,
}

impl<D, N> ComponentTree<D, N> {
    /// Each path is that of at most one component.
    pub open spec fn wf(&self) -> bool {
        &&& forall|i: int| 0 <= i < self.nodes@.len() ==> (#[trigger] self.nodes@[i]).wf()
        &&& forall|i: int, j: int|
            0 <= i < j < self.nodes@.len() ==> (#[trigger] self.nodes@[i]).node_path@ != (
            #[trigger] self.nodes@[j]).node_path@
    }

    pub open spec fn has_node(&self, path: Path) -> bool {
        exists|i: int| 0 <= i < self.nodes@.len() && (#[trigger] self.nodes@[i]).node_path@ == path
    }

    /// The component at a path.
    pub open spec fn node(&self, path: Path) -> ComponentNode<D, N> {
        self.nodes@[choose|i: int|
            0 <= i < self.nodes@.len() && (#[trigger] self.nodes@[i]).node_path@ == path]
    }

    /// No path of a component is longer.
    pub open spec fn depth(&self) -> nat {
        depth_of(self.nodes@)
    }

    /// Returns the component at a path.
    pub fn get_node(&self, path: &NodePath) -> (r: Option<&ComponentNode<D, N>>)
        requires
            self.wf(),
        ensures
            match r {
                Some(node) => self.has_node(path@) && *node == self.node(path@) && node.node_path@
                    == path@ && node.wf() && path@.len() <= self.depth(),
                None => !self.has_node(path@),
            },
    {
        let mut i: usize = 0;
        while i < self.nodes.len()
            invariant
                i <= self.nodes.len(),
                self.wf(),
                forall|j: int| 0 <= j < i ==> (#[trigger] self.nodes@[j]).node_path@ != path@,
            decreases self.nodes.len() - i,
        {
            if self.nodes[i].node_path.same(path) {
                proof {
                    lemma_depth(self.nodes@, i as int);
                    let k = choose|k: int|
                        0 <= k < self.nodes@.len() && (#[trigger] self.nodes@[k]).node_path@
                            == path@;
                    assert(self.nodes@[i as int].node_path@ == path@);
                    assert(k == i);
                }
                return Some(&self.nodes[i]);
            }
            i += 1;
        }
        None
    }
}

/// The length of the longest path.
pub open spec fn depth_of<D, N>(nodes: Seq<ComponentNode<D, N>>) -> nat
    decreases nodes.len(),
{
    if nodes.len() == 0 {
        0
    } else {
        let before = depth_of(nodes.drop_last());
        let last = nodes.last().node_path@.len();
        if last > before {
            last
        } else {
            before
        }
    }
}

proof fn lemma_depth<D, N>(nodes: Seq<ComponentNode<D, N>>, i: int)
    requires
        0 <= i < nodes.len(),
    ensures
        nodes[i].node_path@.len() <= depth_of(nodes),
    decreases nodes.len(),
{
    if i < nodes.len() - 1 {
        lemma_depth(nodes.drop_last(), i);
    }
}

} // verus!
