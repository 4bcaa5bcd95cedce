//! Serving the realm protocol to a component.
//!
//! What only the component model can do is done outside of this module. Its functions say what to
//! ask the model for, or how to answer a request when the model has been asked.

use vstd::prelude::*;

verus! {

/// The name of the protocol over which a component manages its children.
pub open spec fn realm_service() -> Seq<char> {
    "fuchsia.sys2.Realm"@
}

/// How a request is refused.
#[derive(Clone, Copy, Debug, PartialEq, Eq, Structural)]
pub enum Error {
    AccessDenied,
    CollectionNotFound,
    InstanceAlreadyExists,
    InstanceCannotResolve,
    InstanceCannotStart,
    InstanceDied,
    InstanceNotFound,
    Internal,
    InvalidArguments,
    Unsupported,
}

/// Why the component model has refused something.
#[derive(Clone, Copy, Debug, PartialEq, Eq, Structural)]
pub enum ModelError {
    CollectionNotFound,
    InstanceAlreadyExists,
    InstanceNotFoundInRealm,
    InstanceShutDown,
    ResolverError,
    RunnerError,
    /// The component that a capability is routed from has stopped.
    SourceInstanceStopped,
    Unsupported,
    Other,
}

/// A child of a component.
#[derive(Debug)]
#[verifier::ext_equal]
pub struct ChildRef<S = String> {
    pub name: S,
    pub collection: Option<S>,
}

impl View for ChildRef {
    type V = ChildRef<Seq<char>>;

    open spec fn view(&self) -> ChildRef<Seq<char>> {
        ChildRef {
            name: self.name@,
            collection: match self.collection {
                Some(collection) => Some(collection@),
                None => None,
            },
        }
    }
}

/// The views of the children.
pub open spec fn views(children: Seq<ChildRef>) -> Seq<ChildRef<Seq<char>>> {
    children.map_values(|child: ChildRef| child@)
}

/// When a child is started.
#[derive(Clone, Copy, Debug, PartialEq, Eq, Structural)]
pub enum StartupMode {
    /// When something asks for it.
    Lazy,
    /// Along with its parent.
    Eager,
}

/// A child that a component asks to have created. Anything may be missing from the declaration
/// until it has been validated.
#[derive(Debug)]
pub struct ChildDecl {
    pub name: Option<String>,
    pub url: Option<String>,
    pub startup: Option<StartupMode>,
    pub environment: Option<String>,
}

/// What is known of the component that a request is about.
#[derive(Clone, Copy, Debug, PartialEq, Eq, Structural)]
pub enum ParentState {
    /// The component is no longer there.
    Died,
    /// The component could not be resolved.
    ResolveFailed,
    /// The state of the component could not be had for another reason.
    Unavailable,
    /// The state of the component has been had.
    Resolved,
}

/// How far a request to bind a child has come.
#[derive(Clone, Copy, Debug, PartialEq, Eq)]
pub enum BindEvent {
    /// The child has been looked for.
    Found(Result<Option<usize>, Error>),
    /// The child has been asked to be started.
    Bound(Result<(), ModelError>),
    /// The child's exposed directory has been asked to be opened.
    Opened(Result<(), ModelError>),
}

/// How far a request to open a child's exposed directory has come.
#[derive(Clone, Copy, Debug, PartialEq, Eq)]
pub enum OpenEvent {
    /// The child has been looked for.
    Found(Result<Option<usize>, Error>),
    /// The child has been asked to be resolved.
    Resolved(Result<(), ModelError>),
    /// The child's exposed directory has been asked to be opened.
    Opened(Result<(), ModelError>),
}

/// What to do next about a request about a child. A child is named by its place among the live
/// children.
#[derive(Clone, Copy, Debug, PartialEq, Eq)]
pub enum ChildStep {
    Bind(usize),
    Resolve(usize),
    OpenExposed,
    Respond(Result<(), Error>),
}

/// What follows each part of a request to bind a child. A child that has stopped by the time its
/// directory is opened is no error: the runner may decide not to run it at any time.
pub open spec fn bind_step(event: BindEvent) -> ChildStep {
    match event {
        BindEvent::Found(Ok(Some(child))) => ChildStep::Bind(child),
        BindEvent::Found(Ok(None)) => ChildStep::Respond(Err(Error::InstanceNotFound)),
        BindEvent::Found(Err(error)) => ChildStep::Respond(Err(error)),
        BindEvent::Bound(Ok(())) => ChildStep::OpenExposed,
        BindEvent::Bound(Err(error)) => ChildStep::Respond(
            Err(
                match error {
                    ModelError::ResolverError => Error::InstanceCannotResolve,
                    ModelError::RunnerError => Error::InstanceCannotStart,
                    _ => Error::Internal,
                },
            ),
        ),
        BindEvent::Opened(Ok(())) => ChildStep::Respond(Ok(())),
        BindEvent::Opened(Err(error)) => ChildStep::Respond(
            if error == ModelError::SourceInstanceStopped {
                Ok(())
            } else {
                Err(Error::Internal)
            },
        ),
    }
}

/// What follows each part of a request to open a child's exposed directory. The child is resolved
/// but not started.
pub open spec fn open_step(event: OpenEvent) -> ChildStep {
    match event {
        OpenEvent::Found(Ok(Some(child))) => ChildStep::Resolve(child),
        OpenEvent::Found(Ok(None)) => ChildStep::Respond(Err(Error::InstanceNotFound)),
        OpenEvent::Found(Err(error)) => ChildStep::Respond(Err(error)),
        OpenEvent::Resolved(Ok(())) => ChildStep::OpenExposed,
        OpenEvent::Resolved(Err(_)) => ChildStep::Respond(Err(Error::InstanceCannotResolve)),
        OpenEvent::Opened(Ok(())) => ChildStep::Respond(Ok(())),
        OpenEvent::Opened(Err(error)) => ChildStep::Respond(
            Err(
                if error == ModelError::InstanceShutDown {
                    Error::InstanceDied
                } else {
                    Error::Internal
                },
            ),
        ),
    }
}

/// Whether one byte string comes before another one.
pub open spec fn bytes_before(a: Seq<u8>, b: Seq<u8>) -> bool
    decreases a.len(),
{
    if b.len() == 0 {
        false
    } else if a.len() == 0 {
        true
    } else if a[0] != b[0] {
        a[0] < b[0]
    } else {
        bytes_before(a.drop_first(), b.drop_first())
    }
}

/// Whether one name comes before another one: names are ordered by the bytes that they are made of.
pub open spec fn name_before(a: Seq<char>, b: Seq<char>) -> bool {
    bytes_before(vstd::utf8::encode_utf8(a), vstd::utf8::encode_utf8(b))
}

/// Whether the children are in the order of their names.
pub open spec fn sorted_by_name(children: Seq<ChildRef<Seq<char>>>) -> bool {
    forall|i: int, j: int|
        0 <= i < j < children.len() ==> !name_before(
            (#[trigger] children[j]).name,
            (#[trigger] children[i]).name,
        )
}

proof fn lemma_bytes_before_skip(a: Seq<u8>, b: Seq<u8>, n: int)
    requires
        0 <= n <= a.len(),
        n <= b.len(),
        forall|i: int| 0 <= i < n ==> a[i] == b[i],
    ensures
        bytes_before(a, b) == bytes_before(a.skip(n), b.skip(n)),
    decreases n,
{
    if n == 0 {
        assert(a.skip(0) =~= a);
        assert(b.skip(0) =~= b);
    } else {
        let (x, y) = (a.drop_first(), b.drop_first());
        assert(a[0] == b[0]);
        assert forall|i: int| 0 <= i < n - 1 implies x[i] == y[i] by {
            assert(a[i + 1] == b[i + 1]);
        }
        lemma_bytes_before_skip(x, y, n - 1);
        assert(x.skip(n - 1) =~= a.skip(n));
        assert(y.skip(n - 1) =~= b.skip(n));
    }
}

proof fn lemma_bytes_before_transitive(a: Seq<u8>, b: Seq<u8>, c: Seq<u8>)
    requires
        !bytes_before(b, a),
        !bytes_before(c, b),
    ensures
        !bytes_before(c, a),
    decreases a.len(),
{
    if a.len() > 0 && b.len() > 0 && c.len() > 0 {
        if a[0] == b[0] && b[0] == c[0] {
            lemma_bytes_before_transitive(a.drop_first(), b.drop_first(), c.drop_first());
        }
    }
}

fn is_name_before(a: &String, b: &String) -> (r: bool)
    ensures
        r == name_before(a@, b@),
{
    let x = a.as_str().as_bytes();
    let y = b.as_str().as_bytes();
    let mut i: usize = 0;
    while i < x.len() && i < y.len() && x[i] == y[i]
        invariant
            i <= x@.len(),
            i <= y@.len(),
            forall|j: int| 0 <= j < i ==> x@[j] == y@[j],
        decreases x@.len() - i,
    {
        i += 1;
    }
    proof {
        lemma_bytes_before_skip(x@, y@, i as int);
    }
    if i >= y.len() {
        false
    } else if i >= x.len() {
        true
    } else {
        x[i] < y[i]
    }
}

fn same_child(a: &ChildRef, b: &ChildRef) -> (r: bool)
    ensures
        r == (a@ == b@),
{
    let same_collection = match (&a.collection, &b.collection) {
        (Some(x), Some(y)) => *x == *y,
        (None, None) => true,
        _ => false,
    };
    a.name == b.name && same_collection
}

fn copy_child(child: &ChildRef) -> (r: ChildRef)
    ensures
        r@ == child@,
{
    ChildRef {
        name: child.name.clone(),
        collection: match &child.collection {
            Some(collection) => Some(collection.clone()),
            None => None,
        },
    }
}

// Puts a child where it belongs among children that are in the order of their names.
fn insert_by_name(children: &mut Vec<ChildRef>, child: ChildRef)
    requires
        sorted_by_name(views(old(children)@)),
    ensures
        sorted_by_name(views(final(children)@)),
        views(final(children)@).to_multiset() == views(old(children)@).to_multiset().insert(child@),
{
    let ghost before = views(children@);
    let mut i: usize = 0;
    while i < children.len() && !is_name_before(&child.name, &children[i].name)
        invariant
            i <= children.len(),
            views(children@) == before,
            forall|j: int| 0 <= j < i ==> !name_before(child@.name, (#[trigger] before[j]).name),
        decreases children.len() - i,
    {
        assert(before[i as int] == children[i as int]@);
        i += 1;
    }
    let ghost new = child@;
    proof {
        if i < children.len() {
            assert(before[i as int] == children[i as int]@);
        }
    }
    children.insert(i, child);
    proof {
        let n = i as int;
        let after = views(children@);
        assert(after =~= before.insert(n, new));
        vstd::seq_lib::to_multiset_insert(before, n, new);
        assert forall|a: int, b: int| 0 <= a < b < after.len() implies !name_before(
            (#[trigger] after[b]).name,
            (#[trigger] after[a]).name,
        ) by {
            if a < n && b < n {
                assert(after[a] == before[a] && after[b] == before[b]);
            } else if a < n && b == n {
                assert(after[a] == before[a]);
            } else if a < n {
                assert(after[a] == before[a] && after[b] == before[b - 1]);
            } else if a > n {
                assert(after[a] == before[a - 1] && after[b] == before[b - 1]);
            } else {
                assert(after[b] == before[b - 1]);
                lemma_not_before(new.name, before[n].name);
                if b - 1 > n {
                    assert(!name_before(before[b - 1].name, before[n].name));
                    lemma_bytes_before_transitive(
                        vstd::utf8::encode_utf8(new.name),
                        vstd::utf8::encode_utf8(before[n].name),
                        vstd::utf8::encode_utf8(before[b - 1].name),
                    );
                }
            }
        }
    }
}

// A name does not come before one that it comes after.
proof fn lemma_not_before(a: Seq<char>, b: Seq<char>)
    requires
        name_before(a, b),
    ensures
        !name_before(b, a),
{
    lemma_bytes_not_before(vstd::utf8::encode_utf8(a), vstd::utf8::encode_utf8(b));
}

proof fn lemma_bytes_not_before(a: Seq<u8>, b: Seq<u8>)
    requires
        bytes_before(a, b),
    ensures
        !bytes_before(b, a),
    decreases a.len(),
{
    if a.len() > 0 && b.len() > 0 && a[0] == b[0] {
        lemma_bytes_not_before(a.drop_first(), b.drop_first());
    }
}

/// Whether a child is in a collection.
pub open spec fn is_in(child: ChildRef<Seq<char>>, collection: Seq<char>) -> bool {
    child.collection == Some(collection)
}

/// Whether a child is among the given ones.
pub open spec fn is_among(children: Seq<ChildRef>, child: ChildRef<Seq<char>>) -> bool {
    exists|i: int| 0 <= i < children.len() && (#[trigger] children[i])@ == child
}

/// Whether a collection is declared.
pub open spec fn has_collection(collections: Seq<String>, collection: Seq<char>) -> bool {
    exists|i: int| 0 <= i < collections.len() && (#[trigger] collections[i])@ == collection
}

fn find_collection(collections: &Vec<String>, collection: &String) -> (r: bool)
    ensures
        r == has_collection(collections@, collection@),
{
    let mut i: usize = 0;
    while i < collections.len()
        invariant
            i <= collections.len(),
            forall|j: int| 0 <= j < i ==> (#[trigger] collections@[j])@ != collection@,
        decreases collections.len() - i,
    {
        if collections[i] == *collection {
            return true;
        }
        i += 1;
    }
    false
}

/// How many children the next batch holds.
pub open spec fn batch_len(children: nat, batch_size: usize) -> nat {
    if children < batch_size {
        children
    } else {
        batch_size as nat
    }
}

/// What all batches hold, one after the other.
pub open spec fn all_batches(children: Seq<ChildRef>, batch_size: usize) -> Seq<ChildRef>
    decreases children.len(),
{
    let n = batch_len(children.len(), batch_size) as int;
    if n == 0 {
        seq![]
    } else {
        children.take(n) + all_batches(children.skip(n), batch_size)
    }
}

/// The batches hold all children, each once and in their order. When there are none left, a batch
/// is empty.
pub proof fn law_batches_hold_all_children(children: Seq<ChildRef>, batch_size: usize)
    requires
        batch_size > 0,
    ensures
        all_batches(children, batch_size) == children,
        batch_len(children.len(), batch_size) == 0 <==> children.len() == 0,
    decreases children.len(),
{
    let n = batch_len(children.len(), batch_size) as int;
    if n > 0 {
        law_batches_hold_all_children(children.skip(n), batch_size);
        assert(children.take(n) + children.skip(n) =~= children);
    } else {
        assert(children =~= seq![]);
    }
}

/// Serves the realm protocol.
#[derive(Clone, Copy, Debug, PartialEq, Eq)]
pub struct RealmCapabilityHost {
    /// How many children are listed at a time.
    pub list_children_batch_size: usize,
}

impl RealmCapabilityHost {
    pub fn new(list_children_batch_size: usize) -> (r: Self)
        ensures
            r.list_children_batch_size == list_children_batch_size,
    {
        RealmCapabilityHost { list_children_batch_size }
    }

    /// What a request to create a child asks the model to add, and to which collection. `alive` says
    /// whether the component is still there, and `is_valid` whether the declaration is valid. A
    /// dynamic child cannot name an environment.
    pub fn create_child(
        alive: bool,
        is_valid: bool,
        collection: String,
        child_decl: ChildDecl,
    ) -> (r: Result<(String, ChildDecl), Error>)
        ensures
            r == (if !alive {
                Err(Error::InstanceDied)
            } else if !is_valid || child_decl.environment is Some {
                Err(Error::InvalidArguments)
            } else {
                Ok((collection, child_decl))
            }),
    {
        if !alive {
            return Err(Error::InstanceDied);
        }
        if !is_valid {
            return Err(Error::InvalidArguments);
        }
        if child_decl.environment.is_some() {
            return Err(Error::InvalidArguments);
        }
        Ok((collection, child_decl))
    }

    /// How a request to create a child is answered, when the model has been asked to add it.
    pub fn child_added(added: Result<(), ModelError>) -> (r: Result<(), Error>)
        ensures
            r == (match added {
                Ok(()) => Ok(()),
                Err(ModelError::InstanceAlreadyExists) => Err(Error::InstanceAlreadyExists),
                Err(ModelError::CollectionNotFound) => Err(Error::CollectionNotFound),
                Err(ModelError::Unsupported) => Err(Error::Unsupported),
                Err(_) => Err(Error::Internal),
            }),
    {
        match added {
            Ok(()) => Ok(()),
            Err(ModelError::InstanceAlreadyExists) => Err(Error::InstanceAlreadyExists),
            Err(ModelError::CollectionNotFound) => Err(Error::CollectionNotFound),
            Err(ModelError::Unsupported) => Err(Error::Unsupported),
            Err(_) => Err(Error::Internal),
        }
    }

    /// Where the child that a request names is among the live children of the component.
    pub fn get_child(
        parent: ParentState,
        live_children: &Vec<ChildRef>,
        child: &ChildRef,
    ) -> (r: Result<Option<usize>, Error>)
        ensures
            match parent {
                ParentState::Died => r == Err::<Option<usize>, _>(Error::InstanceDied),
                ParentState::ResolveFailed => r == Err::<Option<usize>, _>(
                    Error::InstanceCannotResolve,
                ),
                ParentState::Unavailable => r == Err::<Option<usize>, _>(Error::Internal),
                ParentState::Resolved => match r {
                    Ok(Some(i)) => {
                        &&& i < live_children@.len()
                        &&& live_children@[i as int]@ == child@
                        &&& forall|j: int| 0 <= j < i ==> (#[trigger] live_children@[j])@ != child@
                    },
                    Ok(None) => !is_among(live_children@, child@),
                    Err(_) => false,
                },
            },
    {
        match parent {
            ParentState::Died => {
                return Err(Error::InstanceDied);
            },
            ParentState::ResolveFailed => {
                return Err(Error::InstanceCannotResolve);
            },
            ParentState::Unavailable => {
                return Err(Error::Internal);
            },
            ParentState::Resolved => {},
        }
        let mut i: usize = 0;
        while i < live_children.len()
            invariant
                parent is Resolved,
                i <= live_children.len(),
                forall|j: int| 0 <= j < i ==> (#[trigger] live_children@[j])@ != child@,
            decreases live_children.len() - i,
        {
            if same_child(&live_children[i], child) {
                return Ok(Some(i));
            }
            i += 1;
        }
        Ok(None)
    }

    /// What to do next about a request to bind a child.
    pub fn bind_child(event: BindEvent) -> (r: ChildStep)
        ensures
            r == bind_step(event),
    {
        match event {
            BindEvent::Found(found) => match found {
                Ok(Some(child)) => ChildStep::Bind(child),
                Ok(None) => ChildStep::Respond(Err(Error::InstanceNotFound)),
                Err(error) => ChildStep::Respond(Err(error)),
            },
            BindEvent::Bound(bound) => match bound {
                Ok(()) => ChildStep::OpenExposed,
                Err(ModelError::ResolverError) => ChildStep::Respond(
                    Err(Error::InstanceCannotResolve),
                ),
                Err(ModelError::RunnerError) => ChildStep::Respond(Err(Error::InstanceCannotStart)),
                Err(_) => ChildStep::Respond(Err(Error::Internal)),
            },
            BindEvent::Opened(opened) => match opened {
                Ok(()) => ChildStep::Respond(Ok(())),
                Err(ModelError::SourceInstanceStopped) => ChildStep::Respond(Ok(())),
                Err(_) => ChildStep::Respond(Err(Error::Internal)),
            },
        }
    }

    /// What to do next about a request to open a child's exposed directory.
    pub fn open_exposed_dir(event: OpenEvent) -> (r: ChildStep)
        ensures
            r == open_step(event),
    {
        match event {
            OpenEvent::Found(found) => match found {
                Ok(Some(child)) => ChildStep::Resolve(child),
                Ok(None) => ChildStep::Respond(Err(Error::InstanceNotFound)),
                Err(error) => ChildStep::Respond(Err(error)),
            },
            OpenEvent::Resolved(resolved) => match resolved {
                Ok(()) => ChildStep::OpenExposed,
                Err(_) => ChildStep::Respond(Err(Error::InstanceCannotResolve)),
            },
            OpenEvent::Opened(opened) => match opened {
                Ok(()) => ChildStep::Respond(Ok(())),
                Err(ModelError::InstanceShutDown) => ChildStep::Respond(Err(Error::InstanceDied)),
                Err(_) => ChildStep::Respond(Err(Error::Internal)),
            },
        }
    }

    /// What a request to destroy a child asks the model to remove: only children in a collection can
    /// be destroyed. `alive` says whether the component is still there.
    pub fn destroy_child(alive: bool, child: ChildRef) -> (r: Result<ChildRef, Error>)
        ensures
            r == (if !alive {
                Err(Error::InstanceDied)
            } else if child.collection is None {
                Err(Error::InvalidArguments)
            } else {
                Ok(child)
            }),
    {
        if !alive {
            return Err(Error::InstanceDied);
        }
        if child.collection.is_none() {
            return Err(Error::InvalidArguments);
        }
        Ok(child)
    }

    /// How a request to destroy a child is answered, when the model has been asked to remove it.
    pub fn child_removed(removed: Result<(), ModelError>) -> (r: Result<(), Error>)
        ensures
            r == (match removed {
                Ok(()) => Ok(()),
                Err(ModelError::InstanceNotFoundInRealm) => Err(Error::InstanceNotFound),
                Err(ModelError::Unsupported) => Err(Error::Unsupported),
                Err(_) => Err(Error::Internal),
            }),
    {
        match removed {
            Ok(()) => Ok(()),
            Err(ModelError::InstanceNotFoundInRealm) => Err(Error::InstanceNotFound),
            Err(ModelError::Unsupported) => Err(Error::Unsupported),
            Err(_) => Err(Error::Internal),
        }
    }

    /// The children in a collection, in the order of their names. `parent` is what is known of the
    /// component, `collections` are those that it declares, and `live_children` are all its children.
    /// `can_serve` says whether an iterator over the children can be served.
    pub fn list_children(
        parent: ParentState,
        collections: &Vec<String>,
        live_children: &Vec<ChildRef>,
        collection: &String,
        can_serve: bool,
    ) -> (r: Result<Vec<ChildRef>, Error>)
        ensures
            match r {
                Ok(children) => {
                    &&& parent is Resolved
                    &&& has_collection(collections@, collection@)
                    &&& can_serve
                    &&& sorted_by_name(views(children@))
                    &&& views(children@).to_multiset() == views(live_children@).filter(
                        |child: ChildRef<Seq<char>>| is_in(child, collection@),
                    ).to_multiset()
                },
                Err(error) => match parent {
                    ParentState::Died => error == Error::InstanceDied,
                    ParentState::ResolveFailed | ParentState::Unavailable => error
                        == Error::Internal,
                    ParentState::Resolved => if !has_collection(collections@, collection@) {
                        error == Error::CollectionNotFound
                    } else {
                        !can_serve && error == Error::AccessDenied
                    },
                },
            },
    {
        match parent {
            ParentState::Died => {
                return Err(Error::InstanceDied);
            },
            ParentState::ResolveFailed => {
                return Err(Error::Internal);
            },
            ParentState::Unavailable => {
                return Err(Error::Internal);
            },
            ParentState::Resolved => {},
        }
        if !find_collection(collections, collection) {
            return Err(Error::CollectionNotFound);
        }
        if !can_serve {
            return Err(Error::AccessDenied);
        }
        let mut children: Vec<ChildRef> = Vec::new();
        let ghost all = views(live_children@);
        let ghost wanted = |child: ChildRef<Seq<char>>| is_in(child, collection@);
        let mut i: usize = 0;
        proof {
            reveal(Seq::filter);
            assert(all.take(0).filter(wanted) =~= Seq::empty());
            assert(views(children@) =~= Seq::empty());
        }
        while i < live_children.len()
            invariant
                i <= live_children.len(),
                all == views(live_children@),
                wanted == |child: ChildRef<Seq<char>>| is_in(child, collection@),
                sorted_by_name(views(children@)),
                views(children@).to_multiset() == all.take(i as int).filter(wanted).to_multiset(),
            decreases live_children.len() - i,
        {
            let child = &live_children[i];
            let wants = match &child.collection {
                Some(c) => *c == *collection,
                None => false,
            };
            proof {
                reveal(Seq::filter);
                broadcast use vstd::seq_lib::group_to_multiset_ensures;

                let next = all.take(i + 1);
                assert(next.drop_last() =~= all.take(i as int));
                assert(next.last() == child@);
                assert(wants == wanted(child@));
                let kept = all.take(i as int).filter(wanted);
                assert(kept.push(child@).to_multiset() =~= kept.to_multiset().insert(child@));
            }
            if wants {
                insert_by_name(&mut children, copy_child(child));
            }
            i += 1;
        }
        assert(all.take(i as int) =~= all);
        Ok(children)
    }

    /// Takes the next batch of children off the front.
    pub fn serve_child_iterator(&self, children: &mut Vec<ChildRef>) -> (r: Vec<ChildRef>)
        ensures
            r@ == old(children)@.take(
                batch_len(old(children)@.len(), self.list_children_batch_size) as int,
            ),
            final(children)@ == old(children)@.skip(
                batch_len(old(children)@.len(), self.list_children_batch_size) as int,
            ),
    {
        let n_to_send: usize = if children.len() < self.list_children_batch_size {
            children.len()
        } else {
            self.list_children_batch_size
        };
        let mut rest = children.split_off(n_to_send);
        std::mem::swap(children, &mut rest);
        rest
    }

    /// The events that the host is told of.
    pub fn hooks(&self) -> (r: Vec<HooksRegistration>)
        ensures
            r@.len() == 1,
            r@[0].name@ == "RealmCapabilityHost"@,
            r@[0].events@ == seq![EventType::CapabilityRouted],
    {
        let mut events: Vec<EventType> = Vec::new();
        events.push(EventType::CapabilityRouted);
        assert(events@ =~= seq![EventType::CapabilityRouted]);
        let mut hooks: Vec<HooksRegistration> = Vec::new();
        hooks.push(HooksRegistration { name: "RealmCapabilityHost".to_owned(), events });
        hooks
    }

    // Who provides a framework capability, in the scope of a component.
    fn on_scoped_framework_capability_routed<M, P>(
        &self,
        scope_moniker: M,
        capability: &InternalCapability,
        capability_provider: Option<CapabilityProvider<M, P>>,
    ) -> (r: Option<CapabilityProvider<M, P>>)
        ensures
            r == self.routed(scope_moniker, *capability, capability_provider),
    {
        // If some other capability has already been installed, then there's nothing to do here.
        if capability_provider.is_none() && capability.matches_protocol("fuchsia.sys2.Realm") {
            Some(CapabilityProvider::Realm(RealmCapabilityProvider::new(scope_moniker, *self)))
        } else {
            capability_provider
        }
    }

    /// Who provides a framework capability, in the scope of a component: the host, if the capability
    /// is the realm protocol and nobody else has been installed to provide it.
    pub open spec fn routed<M, P>(
        self,
        scope_moniker: M,
        capability: InternalCapability,
        capability_provider: Option<CapabilityProvider<M, P>>,
    ) -> Option<CapabilityProvider<M, P>> {
        if capability_provider is None && capability.is_protocol(realm_service()) {
            Some(
                CapabilityProvider::Realm(RealmCapabilityProvider { scope_moniker, host: self }),
            )
        } else {
            capability_provider
        }
    }

    /// Who provides what an event is about from then on. `capability_provider` is who has been
    /// installed to provide it before.
    pub fn on<M, P>(
        &self,
        event: Event<M>,
        capability_provider: Option<CapabilityProvider<M, P>>,
    ) -> (r: Option<CapabilityProvider<M, P>>)
        ensures
            r == (match event {
                Event::FrameworkCapabilityRouted { capability, component } => self.routed(
                    component,
                    capability,
                    capability_provider,
                ),
                Event::Other => capability_provider,
            }),
    {
        match event {
            Event::FrameworkCapabilityRouted { capability, component } =>
                self.on_scoped_framework_capability_routed(
                component,
                &capability,
                capability_provider,
            ),
            Event::Other => capability_provider,
        }
    }
}

/// The default implementation for framework services: serves the realm protocol in the scope of a
/// component, whose moniker is of type `M`.
#[derive(Clone, Copy, Debug, PartialEq, Eq)]
pub struct RealmCapabilityProvider<M> {
    pub scope_moniker: M,
    pub host: RealmCapabilityHost,
}

impl<M> RealmCapabilityProvider<M> {
    pub fn new(scope_moniker: M, host: RealmCapabilityHost) -> (r: Self)
        ensures
            r == (RealmCapabilityProvider { scope_moniker, host }),
    {
        Self { scope_moniker, host }
    }
}

/// Who provides a capability. `P` stands for any provider but the realm's.
#[derive(Debug)]
pub enum CapabilityProvider<M, P> {
    Realm(RealmCapabilityProvider<M>),
    Other(P),
}

/// A capability that the framework provides.
#[derive(Debug)]
pub enum InternalCapability {
    /// The protocol with the given name.
    Protocol(String),
    /// A capability of another kind.
    Other,
}

impl InternalCapability {
    /// Whether the capability is the protocol with the given name.
    pub open spec fn is_protocol(self, name: Seq<char>) -> bool {
        self matches InternalCapability::Protocol(protocol) && protocol@ == name
    }

    fn matches_protocol(&self, name: &str) -> (r: bool)
        ensures
            r == self.is_protocol(name@),
    {
        match self {
            InternalCapability::Protocol(protocol) => *protocol == name.to_owned(),
            InternalCapability::Other => false,
        }
    }
}

/// What the host can be told of.
#[derive(Clone, Copy, Debug, PartialEq, Eq, Structural)]
pub enum EventType {
    CapabilityRouted,
}

/// What the host asks to be told of.
#[derive(Debug)]
pub struct HooksRegistration {
    pub name: String,
    pub events: Vec<EventType>,
}

/// What the host is told.
#[derive(Debug)]
pub enum Event<M> {
    /// A component uses a capability of the framework.
    FrameworkCapabilityRouted { capability: InternalCapability, component: M },
    /// Something else has happened, or failed to happen.
    Other,
}

} // verus!
