//! What holds of serving the realm protocol.

use crate::component_manager::framework::{
    BindEvent, CapabilityProvider, ChildDecl, ChildRef, ChildStep, Error, Event, HooksRegistration,
    ModelError, OpenEvent, ParentState, RealmCapabilityHost, RealmCapabilityProvider,
};
use vstd::prelude::*;

verus! {

/// Whether two references are to the same child: one with the same name, and in the same
/// collection if in one at all.
pub open spec fn same_reference(a: ChildRef, b: ChildRef) -> bool {
    &&& a.name@ == b.name@
    &&& a.collection is Some <==> b.collection is Some
    &&& a.collection is Some ==> a.collection->0@ == b.collection->0@
}

proof fn lemma_same_reference(a: ChildRef, b: ChildRef)
    ensures
        same_reference(a, b) <==> a@ == b@,
{
}

/// A child is found just when the component is resolved and a live child has the same name and
/// collection. The first such child is found.
pub proof fn law_named_children_are_found(
    parent: ParentState,
    live: Vec<ChildRef>,
    child: ChildRef,
    r: Result<Option<usize>, Error>,
)
    requires
        call_ensures(RealmCapabilityHost::get_child, (parent, &live, &child), r),
    ensures
        r is Ok <==> parent is Resolved,
        parent is Died ==> r->Err_0 is InstanceDied,
        parent is ResolveFailed ==> r->Err_0 is InstanceCannotResolve,
        parent is Unavailable ==> r->Err_0 is Internal,
        r is Ok ==> (r->Ok_0 is Some <==> exists|i: int|
            0 <= i < live@.len() && same_reference(#[trigger] live@[i], child)),
        r is Ok && r->Ok_0 is Some ==> {
            let place = r->Ok_0->0;
            &&& place < live@.len()
            &&& same_reference(live@[place as int], child)
            &&& forall|i: int| 0 <= i < place ==> !same_reference(#[trigger] live@[i], child)
        },
{
    assert forall|i: int| 0 <= i < live@.len() implies same_reference(#[trigger] live@[i], child)
        == (live@[i]@ == child@) by {
        lemma_same_reference(live@[i], child);
    }
    if r is Ok && r->Ok_0 is Some {
        assert(same_reference(live@[r->Ok_0->0 as int], child));
    }
}

/// A child that was found is bound, and nothing else is. It is answered that there is no such child
/// just when it was looked for without success. A search that failed is answered with its error.
pub proof fn law_found_children_are_bound(
    found: Result<Option<usize>, Error>,
    bind: ChildStep,
    open: ChildStep,
)
    requires
        call_ensures(RealmCapabilityHost::bind_child, (BindEvent::Found(found),), bind),
        call_ensures(RealmCapabilityHost::open_exposed_dir, (OpenEvent::Found(found),), open),
    ensures
        found is Ok && found->Ok_0 is Some ==> {
            &&& bind is Bind && bind->Bind_0 == found->Ok_0->0
            &&& open is Resolve && open->Resolve_0 == found->Ok_0->0
        },
        found is Ok && found->Ok_0 is None ==> {
            &&& bind == ChildStep::Respond(Err(Error::InstanceNotFound))
            &&& open == ChildStep::Respond(Err(Error::InstanceNotFound))
        },
        found is Err ==> {
            &&& bind == ChildStep::Respond(Err(found->Err_0))
            &&& open == ChildStep::Respond(Err(found->Err_0))
        },
{
}

/// Only when the child has been started, or resolved, is its directory opened. What keeps it from
/// that is answered: that it cannot be resolved, that it cannot be started, or else an internal
/// error. A child that is only to be opened is never started.
pub proof fn law_directories_are_opened_after_the_child(
    done: Result<(), ModelError>,
    bind: ChildStep,
    open: ChildStep,
)
    requires
        call_ensures(RealmCapabilityHost::bind_child, (BindEvent::Bound(done),), bind),
        call_ensures(RealmCapabilityHost::open_exposed_dir, (OpenEvent::Resolved(done),), open),
    ensures
        bind is OpenExposed <==> done is Ok,
        open is OpenExposed <==> done is Ok,
        done is Err ==> bind is Respond && bind->Respond_0 is Err && open == ChildStep::Respond(
            Err(Error::InstanceCannotResolve),
        ),
        done is Err ==> {
            let answer = bind->Respond_0->Err_0;
            &&& answer is InstanceCannotResolve <==> done->Err_0 is ResolverError
            &&& answer is InstanceCannotStart <==> done->Err_0 is RunnerError
            &&& answer is Internal <==> !(done->Err_0 is ResolverError || done->Err_0 is RunnerError)
        },
{
}

/// A request ends when the directory has been opened. That the child has stopped by then is no error
/// for one who asked to bind it. That it was shut down means, for one who only asked to open it, that
/// it has died. Anything else is an internal error.
pub proof fn law_opened_directories_end_requests(
    opened: Result<(), ModelError>,
    bind: ChildStep,
    open: ChildStep,
)
    requires
        call_ensures(RealmCapabilityHost::bind_child, (BindEvent::Opened(opened),), bind),
        call_ensures(RealmCapabilityHost::open_exposed_dir, (OpenEvent::Opened(opened),), open),
    ensures
        bind is Respond,
        open is Respond,
        bind->Respond_0 is Ok <==> (opened is Ok || opened->Err_0 is SourceInstanceStopped),
        open->Respond_0 is Ok <==> opened is Ok,
        bind->Respond_0 is Err ==> bind->Respond_0->Err_0 is Internal,
        open->Respond_0 is Err ==> (open->Respond_0->Err_0 is InstanceDied
            <==> opened->Err_0 is InstanceShutDown) && (open->Respond_0->Err_0 is Internal
            <==> !(opened->Err_0 is InstanceShutDown)),
{
}

/// A child is created as it was declared, in the collection that was named, just when the component
/// is there, the declaration is valid and it names no environment. A component that is gone has died
/// whatever it asks for.
pub proof fn law_valid_children_are_created(
    alive: bool,
    is_valid: bool,
    collection: String,
    decl: ChildDecl,
    r: Result<(String, ChildDecl), Error>,
)
    requires
        call_ensures(RealmCapabilityHost::create_child, (alive, is_valid, collection, decl), r),
    ensures
        r is Ok <==> alive && is_valid && decl.environment is None,
        r is Ok ==> (r->Ok_0).0 == collection && (r->Ok_0).1 == decl,
        r is Err ==> (r->Err_0 is InstanceDied <==> !alive),
        r is Err ==> (r->Err_0 is InvalidArguments <==> alive),
{
}

/// A child is destroyed as it was named, just when the component is there and the child is in a
/// collection.
pub proof fn law_children_in_collections_are_destroyed(
    alive: bool,
    child: ChildRef,
    r: Result<ChildRef, Error>,
)
    requires
        call_ensures(RealmCapabilityHost::destroy_child, (alive, child), r),
    ensures
        r is Ok <==> alive && child.collection is Some,
        r is Ok ==> r->Ok_0 == child,
        r is Err ==> (r->Err_0 is InstanceDied <==> !alive),
        r is Err ==> (r->Err_0 is InvalidArguments <==> alive),
{
}

/// Creating and destroying a child succeed just when the model has done it. Of the model's errors,
/// those that the caller can do something about are told apart, and each other one is internal.
pub proof fn law_model_errors_are_told(
    done: Result<(), ModelError>,
    added: Result<(), Error>,
    removed: Result<(), Error>,
)
    requires
        call_ensures(RealmCapabilityHost::child_added, (done,), added),
        call_ensures(RealmCapabilityHost::child_removed, (done,), removed),
    ensures
        added is Ok <==> done is Ok,
        removed is Ok <==> done is Ok,
        done is Err ==> {
            let error = done->Err_0;
            let (a, r) = (added->Err_0, removed->Err_0);
            &&& a is InstanceAlreadyExists <==> error is InstanceAlreadyExists
            &&& a is CollectionNotFound <==> error is CollectionNotFound
            &&& a is Unsupported <==> error is Unsupported
            &&& a is Internal <==> !(error is InstanceAlreadyExists || error is CollectionNotFound
                || error is Unsupported)
            &&& r is InstanceNotFound <==> error is InstanceNotFoundInRealm
            &&& r is Unsupported <==> error is Unsupported
            &&& r is Internal <==> !(error is InstanceNotFoundInRealm || error is Unsupported)
        },
{
}

/// Whether the first place where two byte strings differ is `n`, and the byte of the first one is
/// smaller there, or the first one ends there.
pub open spec fn smaller_at(a: Seq<u8>, b: Seq<u8>, n: int) -> bool {
    &&& 0 <= n <= a.len()
    &&& n < b.len()
    &&& forall|i: int| 0 <= i < n ==> a[i] == b[i]
    &&& n == a.len() || a[n] < b[n]
}

/// Whether two byte strings are in order: they are equal, or the first one is smaller where they
/// differ first.
pub open spec fn in_order(a: Seq<u8>, b: Seq<u8>) -> bool {
    a == b || exists|n: int| #[trigger] smaller_at(a, b, n)
}

// Byte strings that do not come before each other the other way round are in order.
proof fn lemma_in_order(a: Seq<u8>, b: Seq<u8>)
    requires
        !crate::component_manager::framework::bytes_before(b, a),
    ensures
        in_order(a, b),
    decreases a.len(),
{
    if a.len() == 0 && b.len() == 0 {
        assert(a =~= b);
    } else if a.len() == 0 || b.len() == 0 || a[0] != b[0] {
        assert(smaller_at(a, b, 0));
    } else {
        let (x, y) = (a.drop_first(), b.drop_first());
        lemma_in_order(x, y);
        if x =~= y {
            assert(a =~= seq![a[0]] + x);
            assert(b =~= seq![b[0]] + y);
        } else {
            let n = choose|n: int| #[trigger] smaller_at(x, y, n);
            assert forall|i: int| 0 <= i < n + 1 implies a[i] == b[i] by {
                if i > 0 {
                    assert(x[i - 1] == y[i - 1]);
                }
            }
            assert(smaller_at(a, b, n + 1));
        }
    }
}

/// Children can be listed just when the component is resolved, it declares the collection, and an
/// iterator can be served. Which of these fails first is answered.
pub proof fn law_declared_collections_are_listed(
    parent: ParentState,
    collections: Vec<String>,
    live: Vec<ChildRef>,
    collection: String,
    can_serve: bool,
    r: Result<Vec<ChildRef>, Error>,
)
    requires
        call_ensures(
            RealmCapabilityHost::list_children,
            (parent, &collections, &live, &collection, can_serve),
            r,
        ),
    ensures
        ({
            let declared = exists|i: int|
                0 <= i < collections@.len() && (#[trigger] collections@[i])@ == collection@;
            &&& r is Ok <==> parent is Resolved && declared && can_serve
            &&& parent is Died ==> r->Err_0 is InstanceDied
            &&& parent is ResolveFailed ==> r->Err_0 is Internal
            &&& parent is Unavailable ==> r->Err_0 is Internal
            &&& parent is Resolved && !declared ==> r->Err_0 is CollectionNotFound
            &&& parent is Resolved && declared && !can_serve ==> r->Err_0 is AccessDenied
        }),
{
}

/// Just the live children that are in the collection are listed.
pub proof fn law_children_of_the_collection_are_listed(
    parent: ParentState,
    collections: Vec<String>,
    live: Vec<ChildRef>,
    collection: String,
    can_serve: bool,
    r: Vec<ChildRef>,
    child: ChildRef,
)
    requires
        call_ensures(
            RealmCapabilityHost::list_children,
            (parent, &collections, &live, &collection, can_serve),
            Ok(r),
        ),
    ensures
        (exists|i: int| 0 <= i < r@.len() && same_reference(#[trigger] r@[i], child)) <==> ({
            &&& child.collection is Some
            &&& child.collection->0@ == collection@
            &&& exists|i: int| 0 <= i < live@.len() && same_reference(#[trigger] live@[i], child)
        }),
{
    broadcast use vstd::seq_lib::group_to_multiset_ensures;

    let wanted = |c: ChildRef<Seq<char>>|
        crate::component_manager::framework::is_in(c, collection@);
    let all = crate::component_manager::framework::views(live@);
    let listed = crate::component_manager::framework::views(r@);
    let kept = all.filter(wanted);
    assert(listed.contains(child@) <==> listed.to_multiset().count(child@) > 0);
    assert(kept.contains(child@) <==> kept.to_multiset().count(child@) > 0);
    assert(listed.contains(child@) <==> kept.contains(child@));
    lemma_reference_in(r@, child);
    lemma_reference_in(live@, child);
    if kept.contains(child@) {
        let k = kept.index_of(child@);
        all.lemma_filter_pred(wanted, k);
        all.lemma_filter_contains_rev(wanted, child@);
    }
    if wanted(child@) && all.contains(child@) {
        let k = all.index_of(child@);
        all.lemma_filter_contains(wanted, k);
    }
}

// A reference is among those of a list just when its view is among the views.
proof fn lemma_reference_in(children: Seq<ChildRef>, child: ChildRef)
    ensures
        crate::component_manager::framework::views(children).contains(child@) <==> exists|i: int|
            0 <= i < children.len() && same_reference(#[trigger] children[i], child),
{
    let views = crate::component_manager::framework::views(children);
    if views.contains(child@) {
        let i = views.index_of(child@);
        lemma_same_reference(children[i], child);
        assert(same_reference(children[i], child));
    }
    if exists|i: int| 0 <= i < children.len() && same_reference(#[trigger] children[i], child) {
        let i = choose|i: int|
            0 <= i < children.len() && same_reference(#[trigger] children[i], child);
        lemma_same_reference(children[i], child);
        assert(views[i] == child@);
    }
}

/// How many of the children are in the collection with the given name.
pub open spec fn count_in(children: Seq<ChildRef>, collection: Seq<char>) -> nat
    decreases children.len(),
{
    if children.len() == 0 {
        0
    } else {
        let collection_of_last = children.last().collection;
        let before = count_in(children.drop_last(), collection);
        if collection_of_last is Some && collection_of_last->0@ == collection {
            before + 1
        } else {
            before
        }
    }
}

// As many children are in a collection as are kept when the others are left out.
proof fn lemma_count_in(children: Seq<ChildRef>, collection: Seq<char>)
    ensures
        count_in(children, collection) == crate::component_manager::framework::views(
            children,
        ).filter(
            |c: ChildRef<Seq<char>>| crate::component_manager::framework::is_in(c, collection),
        ).len(),
    decreases children.len(),
{
    reveal(Seq::filter);
    let views = crate::component_manager::framework::views(children);
    if children.len() > 0 {
        lemma_count_in(children.drop_last(), collection);
        assert(views.drop_last() =~= crate::component_manager::framework::views(
            children.drop_last(),
        ));
        assert(views.last() == children.last()@);
    }
}

/// As many children are listed as there are live ones in the collection.
pub proof fn law_children_are_listed_once(
    parent: ParentState,
    collections: Vec<String>,
    live: Vec<ChildRef>,
    collection: String,
    can_serve: bool,
    r: Vec<ChildRef>,
)
    requires
        call_ensures(
            RealmCapabilityHost::list_children,
            (parent, &collections, &live, &collection, can_serve),
            Ok(r),
        ),
    ensures
        r@.len() == count_in(live@, collection@),
{
    broadcast use vstd::seq_lib::group_to_multiset_ensures;

    lemma_count_in(live@, collection@);
    let wanted = |c: ChildRef<Seq<char>>|
        crate::component_manager::framework::is_in(c, collection@);
    let kept = crate::component_manager::framework::views(live@).filter(wanted);
    let listed = crate::component_manager::framework::views(r@);
    assert(listed.to_multiset().len() == listed.len());
    assert(kept.to_multiset().len() == kept.len());
}

/// Children are listed in the order of the bytes of their names.
pub proof fn law_children_are_listed_by_name(
    parent: ParentState,
    collections: Vec<String>,
    live: Vec<ChildRef>,
    collection: String,
    can_serve: bool,
    r: Vec<ChildRef>,
    i: int,
    j: int,
)
    requires
        call_ensures(
            RealmCapabilityHost::list_children,
            (parent, &collections, &live, &collection, can_serve),
            Ok(r),
        ),
        0 <= i < j < r@.len(),
    ensures
        in_order(
            vstd::utf8::encode_utf8(r@[i].name@),
            vstd::utf8::encode_utf8(r@[j].name@),
        ),
{
    let views = crate::component_manager::framework::views(r@);
    assert(views[i].name == r@[i].name@ && views[j].name == r@[j].name@);
    assert(!crate::component_manager::framework::name_before(views[j].name, views[i].name));
    lemma_in_order(
        vstd::utf8::encode_utf8(r@[i].name@),
        vstd::utf8::encode_utf8(r@[j].name@),
    );
}

/// A batch holds the first of the remaining children, as many as a batch can hold or as there are.
/// The others remain.
pub proof fn law_batches_are_taken_off_the_front(
    host: RealmCapabilityHost,
    children: &mut Vec<ChildRef>,
    r: Vec<ChildRef>,
)
    requires
        call_ensures(RealmCapabilityHost::serve_child_iterator, (&host, children), r),
    ensures
        r@ + final(children)@ == old(children)@,
        r@.len() <= host.list_children_batch_size,
        r@.len() < host.list_children_batch_size ==> final(children)@.len() == 0,
{
}

/// The host is the provider of the realm protocol, in the scope of the component that uses it,
/// unless another provider has been installed. It never takes the place of a provider, nor provides
/// anything else.
pub proof fn law_host_provides_the_realm_protocol<M, P>(
    host: RealmCapabilityHost,
    event: Event<M>,
    installed: Option<CapabilityProvider<M, P>>,
    r: Option<CapabilityProvider<M, P>>,
)
    requires
        call_ensures(RealmCapabilityHost::on::<M, P>, (&host, event, installed), r),
    ensures
        installed is Some ==> r == installed,
        installed is None ==> (r is Some <==> {
            &&& event is FrameworkCapabilityRouted
            &&& event->capability is Protocol
            &&& event->capability->Protocol_0@ == "fuchsia.sys2.Realm"@
        }),
        installed is None && r is Some ==> {
            &&& r->0 is Realm
            &&& (r->0->Realm_0).scope_moniker == event->component
            &&& (r->0->Realm_0).host == host
        },
{
}

/// A provider serves in the scope that it was made for, with the host that it was made with.
pub proof fn law_providers_serve_their_scope<M>(
    scope_moniker: M,
    host: RealmCapabilityHost,
    r: RealmCapabilityProvider<M>,
)
    requires
        call_ensures(RealmCapabilityProvider::<M>::new, (scope_moniker, host), r),
    ensures
        r.scope_moniker == scope_moniker,
        r.host == host,
{
}

/// The host asks to be told when capabilities are routed, under its own name.
pub proof fn law_host_is_told_of_routing(
    host: RealmCapabilityHost,
    r: Vec<HooksRegistration>,
    size: usize,
    made: RealmCapabilityHost,
)
    requires
        call_ensures(RealmCapabilityHost::hooks, (&host,), r),
        call_ensures(RealmCapabilityHost::new, (size,), made),
    ensures
        r@.len() == 1,
        r@[0].name@ == "RealmCapabilityHost"@,
        r@[0].events@.len() == 1,
        r@[0].events@[0] is CapabilityRouted,
        made.list_children_batch_size == size,
{
}

} // verus!
