//! What holds of the requests on a directory connection.

use crate::vfs::io1::{
    handle_requests, BaseConnection, BaseDirectoryRequest, ConnectionState, DirectoryAction,
    DirectoryRequest, DirectoryRequestType, LinkEvent, LinkStep, NodeAttributes, OpenRights,
    ProtocolBits, ReadEntries,
};
use crate::zircon::Status;
use vstd::prelude::*;

verus! {

/// A sorted request is of the same kind as the one that was sent, and has the same fields.
pub proof fn law_sorted_requests_keep_their_kind<H>(
    request: DirectoryRequest<H>,
    r: DirectoryRequestType<H>,
)
    requires
        call_ensures(DirectoryRequestType::<H>::from, (request,), r),
    ensures
        request is Clone <==> (r is Base && r->Base_0 is Clone),
        request is Close <==> (r is Base && r->Base_0 is Close),
        request is Describe <==> (r is Base && r->Base_0 is Describe),
        request is GetAttr <==> (r is Base && r->Base_0 is GetAttr),
        request is NodeGetFlags <==> (r is Base && r->Base_0 is GetFlags),
        request is NodeSetFlags <==> (r is Base && r->Base_0 is SetFlags),
        request is AdvisoryLock <==> (r is Base && r->Base_0 is AdvisoryLock),
        request is Open <==> (r is Base && r->Base_0 is Open),
        request is AddInotifyFilter <==> (r is Base && r->Base_0 is AddInotifyFilter),
        request is ReadDirents <==> (r is Base && r->Base_0 is ReadDirents),
        request is Rewind <==> (r is Base && r->Base_0 is Rewind),
        request is Link <==> (r is Base && r->Base_0 is Link),
        request is Watch <==> (r is Base && r->Base_0 is Watch),
        request is Unlink <==> (r is Derived && r->Derived_0 is Unlink),
        request is Unlink2 <==> (r is Derived && r->Derived_0 is Unlink2),
        request is GetToken <==> (r is Derived && r->Derived_0 is GetToken),
        request is Rename <==> (r is Derived && r->Derived_0 is Rename),
        request is Rename2 <==> (r is Derived && r->Derived_0 is Rename2),
        request is SetAttr <==> (r is Derived && r->Derived_0 is SetAttr),
        request is Sync <==> (r is Derived && r->Derived_0 is Sync),
        request is Clone ==> {
            &&& r->Base_0->Clone_flags == request->Clone_flags
            &&& r->Base_0->Clone_object == request->Clone_object
            &&& r->Base_0->Clone_control_handle == request->Clone_control_handle
        },
        request is Close ==> {
            &&& r->Base_0->Close_responder == request->Close_responder
        },
        request is Describe ==> {
            &&& r->Base_0->Describe_responder == request->Describe_responder
        },
        request is GetAttr ==> {
            &&& r->Base_0->GetAttr_responder == request->GetAttr_responder
        },
        request is NodeGetFlags ==> {
            &&& r->Base_0->GetFlags_responder == request->NodeGetFlags_responder
        },
        request is NodeSetFlags ==> {
            &&& r->Base_0->SetFlags_flags == request->NodeSetFlags_flags
            &&& r->Base_0->SetFlags_responder == request->NodeSetFlags_responder
        },
        request is AdvisoryLock ==> {
            &&& r->Base_0->AdvisoryLock_request == request->AdvisoryLock_request
            &&& r->Base_0->AdvisoryLock_responder == request->AdvisoryLock_responder
        },
        request is Open ==> {
            &&& r->Base_0->Open_flags == request->Open_flags
            &&& r->Base_0->Open_mode == request->Open_mode
            &&& r->Base_0->Open_path == request->Open_path
            &&& r->Base_0->Open_object == request->Open_object
            &&& r->Base_0->Open_control_handle == request->Open_control_handle
        },
        request is AddInotifyFilter ==> {
            &&& r->Base_0->AddInotifyFilter_path == request->AddInotifyFilter_path
            &&& r->Base_0->AddInotifyFilter_filters == request->AddInotifyFilter_filters
            &&& r->Base_0->AddInotifyFilter_watch_descriptor == request->AddInotifyFilter_watch_descriptor
            &&& r->Base_0->AddInotifyFilter_socket == request->AddInotifyFilter_socket
            &&& r->Base_0->AddInotifyFilter_responder == request->AddInotifyFilter_responder
        },
        request is ReadDirents ==> {
            &&& r->Base_0->ReadDirents_max_bytes == request->ReadDirents_max_bytes
            &&& r->Base_0->ReadDirents_responder == request->ReadDirents_responder
        },
        request is Rewind ==> {
            &&& r->Base_0->Rewind_responder == request->Rewind_responder
        },
        request is Link ==> {
            &&& r->Base_0->Link_src == request->Link_src
            &&& r->Base_0->Link_dst_parent_token == request->Link_dst_parent_token
            &&& r->Base_0->Link_dst == request->Link_dst
            &&& r->Base_0->Link_responder == request->Link_responder
        },
        request is Watch ==> {
            &&& r->Base_0->Watch_mask == request->Watch_mask
            &&& r->Base_0->Watch_options == request->Watch_options
            &&& r->Base_0->Watch_watcher == request->Watch_watcher
            &&& r->Base_0->Watch_responder == request->Watch_responder
        },
        request is Unlink ==> {
            &&& r->Derived_0->Unlink_path == request->Unlink_path
            &&& r->Derived_0->Unlink_responder == request->Unlink_responder
        },
        request is Unlink2 ==> {
            &&& r->Derived_0->Unlink2_name == request->Unlink2_name
            &&& r->Derived_0->Unlink2_options == request->Unlink2_options
            &&& r->Derived_0->Unlink2_responder == request->Unlink2_responder
        },
        request is GetToken ==> {
            &&& r->Derived_0->GetToken_responder == request->GetToken_responder
        },
        request is Rename ==> {
            &&& r->Derived_0->Rename_src == request->Rename_src
            &&& r->Derived_0->Rename_dst_parent_token == request->Rename_dst_parent_token
            &&& r->Derived_0->Rename_dst == request->Rename_dst
            &&& r->Derived_0->Rename_responder == request->Rename_responder
        },
        request is Rename2 ==> {
            &&& r->Derived_0->Rename2_src == request->Rename2_src
            &&& r->Derived_0->Rename2_dst_parent_token == request->Rename2_dst_parent_token
            &&& r->Derived_0->Rename2_dst == request->Rename2_dst
            &&& r->Derived_0->Rename2_responder == request->Rename2_responder
        },
        request is SetAttr ==> {
            &&& r->Derived_0->SetAttr_flags == request->SetAttr_flags
            &&& r->Derived_0->SetAttr_attributes == request->SetAttr_attributes
            &&& r->Derived_0->SetAttr_responder == request->SetAttr_responder
        },
        request is Sync ==> {
            &&& r->Derived_0->Sync_responder == request->Sync_responder
        },
{
}

/// A connection is closed by a request to close it, and by no other. Being rewound is what makes it
/// start anew; no other request moves its position, and none changes what it may do.
pub proof fn law_only_close_ends_and_only_rewind_moves<P, H>(
    connection: &mut BaseConnection<P>,
    request: BaseDirectoryRequest<H>,
    rights: OpenRights,
    r: (DirectoryAction<H>, ConnectionState),
)
    requires
        call_ensures(
            BaseConnection::<P>::handle_request::<H>,
            (connection, request, rights),
            r,
        ),
    ensures
        r.1 is Closed <==> request is Close,
        r.1 is Alive <==> !(request is Close),
        r.0 is Close <==> request is Close,
        request is Rewind ==> final(connection).seek is None,
        !(request is Rewind) ==> final(connection).seek == old(connection).seek,
        final(connection).flags == old(connection).flags,
        final(connection).bits == old(connection).bits,
{
}

/// Each request is answered to the one that sent it. What is not supported is refused, an inotify
/// filter is dropped without an answer, and the others are answered, or passed on to the directory
/// as they came.
pub proof fn law_answers_go_to_who_asked<P, H>(
    connection: &mut BaseConnection<P>,
    request: BaseDirectoryRequest<H>,
    rights: OpenRights,
    r: (DirectoryAction<H>, ConnectionState),
)
    requires
        call_ensures(
            BaseConnection::<P>::handle_request::<H>,
            (connection, request, rights),
            r,
        ),
    ensures
        r.0 is Ignore <==> request is AddInotifyFilter,
        request is Close ==> r.0->Close_responder == request->Close_responder,
        r.0 is SendInfo <==> request is Describe,
        request is Describe ==> r.0->SendInfo_responder == request->Describe_responder,
        r.0 is GetAttrs <==> request is GetAttr,
        request is GetAttr ==> r.0->GetAttrs_responder == request->GetAttr_responder,
        r.0 is SendFlags <==> request is GetFlags,
        request is GetFlags ==> r.0->SendFlags_responder == request->GetFlags_responder,
        request is SetFlags ==> r.0 == (DirectoryAction::SendStatus {
            responder: request->SetFlags_responder,
            status: Err(Status::NotSupported),
        }),
        request is AdvisoryLock ==> r.0 == (DirectoryAction::SendStatus {
            responder: request->AdvisoryLock_responder,
            status: Err(Status::NotSupported),
        }),
        request is Rewind ==> r.0 == (DirectoryAction::SendStatus {
            responder: request->Rewind_responder,
            status: Ok(()),
        }),
        r.0 is Link <==> request is Link,
        request is Link ==> {
            &&& r.0->Link_src == request->Link_src
            &&& r.0->Link_dst_parent_token == request->Link_dst_parent_token
            &&& r.0->Link_dst == request->Link_dst
            &&& r.0->Link_responder == request->Link_responder
        },
        r.0 is RegisterWatcher <==> request is Watch && request->Watch_options == 0,
        request is Watch && request->Watch_options == 0 ==> {
            &&& r.0->RegisterWatcher_mask == request->Watch_mask
            &&& r.0->RegisterWatcher_watcher == request->Watch_watcher
            &&& r.0->RegisterWatcher_responder == request->Watch_responder
        },
        request is Watch && request->Watch_options != 0 ==> r.0 == (DirectoryAction::SendStatus {
            responder: request->Watch_responder,
            status: Err(Status::InvalidArgs),
        }),
{
}

/// Entries are read, as many as were asked for, over every connection but one that only refers to
/// the node, which is told that it cannot.
pub proof fn law_entries_are_read_unless_by_reference<P, H>(
    connection: &mut BaseConnection<P>,
    max_bytes: u64,
    responder: H,
    rights: OpenRights,
    r: (DirectoryAction<H>, ConnectionState),
)
    requires
        call_ensures(
            BaseConnection::<P>::handle_request::<H>,
            (connection, BaseDirectoryRequest::ReadDirents { max_bytes, responder }, rights),
            r,
        ),
    ensures
        old(connection).flags & old(connection).bits.open_flag_node_reference == 0 ==> r.0 == (
        DirectoryAction::ReadDirents { max_bytes, responder }),
        old(connection).flags & old(connection).bits.open_flag_node_reference != 0 ==> r.0 == (
        DirectoryAction::SendNoDirents { responder, status: Status::BadHandle }),
{
}

/// The flags that are told are those of the connection that are visible, and no others.
pub proof fn law_visible_flags_are_told<P, H>(
    connection: &mut BaseConnection<P>,
    responder: H,
    rights: OpenRights,
    r: (DirectoryAction<H>, ConnectionState),
    bit: u32,
)
    requires
        call_ensures(
            BaseConnection::<P>::handle_request::<H>,
            (connection, BaseDirectoryRequest::GetFlags { responder }, rights),
            r,
        ),
        bit < 32,
    ensures
        r.0 is SendFlags,
        r.0->SendFlags_flags & (1u32 << bit) != 0 <==> old(connection).flags & (1u32 << bit) != 0
            && old(connection).bits.get_flags_visible & (1u32 << bit) != 0,
{
    let flags = old(connection).flags;
    let visible = old(connection).bits.get_flags_visible;
    assert((flags & visible) & (1u32 << bit) != 0 <==> flags & (1u32 << bit) != 0 && visible & (1u32
        << bit) != 0) by (bit_vector);
}

/// A clone inherits the rights that it was found to have, and is told why where it cannot have any.
/// It has no mode.
pub proof fn law_clones_inherit_rights<P, H>(
    connection: &mut BaseConnection<P>,
    flags: u32,
    object: H,
    control_handle: H,
    rights: OpenRights,
    r: (DirectoryAction<H>, ConnectionState),
)
    requires
        call_ensures(
            BaseConnection::<P>::handle_request::<H>,
            (connection, BaseDirectoryRequest::Clone { flags, object, control_handle }, rights),
            r,
        ),
    ensures
        rights.clone_flags is Ok ==> r.0 == (DirectoryAction::OpenSelf {
            flags: rights.clone_flags->Ok_0,
            mode: 0,
            server_end: object,
        }),
        rights.clone_flags is Err ==> r.0 == (DirectoryAction::SendOnOpenWithError {
            flags,
            server_end: object,
            status: rights.clone_flags->Err_0,
        }),
{
}

/// What opening a path leads to. A path is refused over a connection that only refers to the node.
/// The root and nothing are no paths. The directory itself is opened anew, unless it should be
/// created. Any other path is that of a child, which is opened with the rights that it was found to
/// have, and with the mode of a directory where the path is that of one.
pub proof fn law_paths_are_opened<P, H>(
    connection: &mut BaseConnection<P>,
    flags: u32,
    mode: u32,
    path: String,
    object: H,
    control_handle: H,
    rights: OpenRights,
    r: (DirectoryAction<H>, ConnectionState),
)
    requires
        call_ensures(
            BaseConnection::<P>::handle_request::<H>,
            (
                connection,
                BaseDirectoryRequest::Open { flags, mode, path, object, control_handle },
                rights,
            ),
            r,
        ),
        old(connection).flags & old(connection).bits.open_flag_node_reference == 0,
    ensures
        r.0 is OpenSelf || r.0 is OpenChild || r.0 is SendOnOpenWithError,
        r.0 is SendOnOpenWithError ==> {
            &&& r.0->SendOnOpenWithError_flags == flags
            &&& r.0->SendOnOpenWithError_server_end == object
        },
        path@ == seq!['/'] || path@.len() == 0 ==> {
            &&& r.0 is SendOnOpenWithError
            &&& r.0->SendOnOpenWithError_status is BadPath
        },
        path@ == seq!['.'] || path@ == seq!['.', '/'] ==> {
            &&& flags & old(connection).bits.open_flag_create != 0 ==> {
                &&& r.0 is SendOnOpenWithError
                &&& r.0->SendOnOpenWithError_status is InvalidArgs
            }
            &&& flags & old(connection).bits.open_flag_create == 0 && rights.clone_flags is Ok
                ==> r.0 == (DirectoryAction::OpenSelf {
                flags: rights.clone_flags->Ok_0,
                mode,
                server_end: object,
            })
            &&& flags & old(connection).bits.open_flag_create == 0 && rights.clone_flags is Err
                ==> r.0 is SendOnOpenWithError && r.0->SendOnOpenWithError_status
                == rights.clone_flags->Err_0
        },
        path@.len() > 0 && path@ != seq!['/'] && path@ != seq!['.'] && path@ != seq!['.', '/'] ==> {
            &&& !(r.0 is OpenSelf)
            &&& r.0 is OpenChild <==> rights.path_is_dir is Ok && rights.child_flags is Ok
            &&& rights.path_is_dir is Err ==> r.0->SendOnOpenWithError_status
                == rights.path_is_dir->Err_0
            &&& rights.path_is_dir is Ok && rights.child_flags is Err
                ==> r.0->SendOnOpenWithError_status == rights.child_flags->Err_0
            &&& r.0 is OpenChild ==> {
                &&& r.0->OpenChild_flags == rights.child_flags->Ok_0
                &&& r.0->OpenChild_path == path
                &&& r.0->OpenChild_server_end == object
                &&& rights.path_is_dir == Ok::<bool, Status>(false) ==> r.0->OpenChild_mode == mode
                &&& rights.path_is_dir == Ok::<bool, Status>(true) ==> r.0->OpenChild_mode == mode
                    | old(connection).bits.mode_type_directory
            }
        },
{
    reveal_strlit("/");
    reveal_strlit("");
    reveal_strlit(".");
    reveal_strlit("./");
    assert("/"@ =~= seq!['/']);
    assert("."@ =~= seq!['.']);
    assert("./"@ =~= seq!['.', '/']);
    if path@.len() == 0 {
        assert(path@ =~= ""@);
    }
    assert(seq!['/'][0] != seq!['.'][0]);
    assert(seq!['.', '/'].len() == 2);
}

/// A connection that only refers to the node opens nothing.
pub proof fn law_references_open_nothing<P, H>(
    connection: &mut BaseConnection<P>,
    flags: u32,
    mode: u32,
    path: String,
    object: H,
    control_handle: H,
    rights: OpenRights,
    r: (DirectoryAction<H>, ConnectionState),
)
    requires
        call_ensures(
            BaseConnection::<P>::handle_request::<H>,
            (
                connection,
                BaseDirectoryRequest::Open { flags, mode, path, object, control_handle },
                rights,
            ),
            r,
        ),
        old(connection).flags & old(connection).bits.open_flag_node_reference != 0,
    ensures
        r.0 == (DirectoryAction::SendOnOpenWithError {
            flags,
            server_end: object,
            status: Status::BadHandle,
        }),
{
}

/// A new connection is at the start of the directory, with the flags that it was given.
pub proof fn law_new_connections_start_anew<P>(
    bits: ProtocolBits,
    flags: u32,
    r: BaseConnection<P>,
)
    requires
        call_ensures(BaseConnection::<P>::new, (bits, flags), r),
    ensures
        r.seek is None,
        r.flags == flags,
        r.bits == bits,
{
}

/// What a directory says of itself is told as it is, but for the mode, which is that of a directory
/// in any case. Where it says nothing, what is told are the error and an unknown node with one link
/// and nothing in it.
pub proof fn law_attributes_are_those_of_a_directory<P>(
    connection: BaseConnection<P>,
    attrs: Result<NodeAttributes, Status>,
    r: (Result<(), Status>, NodeAttributes),
)
    requires
        call_ensures(BaseConnection::<P>::handle_attrs, (&connection, attrs), r),
    ensures
        r.0 is Ok <==> attrs is Ok,
        attrs is Err ==> r.0->Err_0 == attrs->Err_0,
        r.1.mode == connection.bits.mode_type_directory
            | connection.bits.posix_directory_protection_attributes,
        attrs is Ok ==> {
            &&& r.1.id == attrs->Ok_0.id
            &&& r.1.content_size == attrs->Ok_0.content_size
            &&& r.1.storage_size == attrs->Ok_0.storage_size
            &&& r.1.link_count == attrs->Ok_0.link_count
            &&& r.1.creation_time == attrs->Ok_0.creation_time
            &&& r.1.modification_time == attrs->Ok_0.modification_time
        },
        attrs is Err ==> {
            &&& r.1.id == connection.bits.ino_unknown
            &&& r.1.content_size == 0
            &&& r.1.storage_size == 0
            &&& r.1.link_count == 1
            &&& r.1.creation_time == 0
            &&& r.1.modification_time == 0
        },
{
}

/// Reading entries moves the connection to where the reading ended, and nothing else of it. The
/// entries and the status are handed on. When nothing could be read, the position stays, and there
/// are no entries.
pub proof fn law_reading_moves_to_where_it_ended<P>(
    connection: &mut BaseConnection<P>,
    read: Result<ReadEntries<P>, Status>,
    r: (Result<(), Status>, Vec<u8>),
)
    requires
        call_ensures(BaseConnection::<P>::handle_read_dirents, (connection, read), r),
    ensures
        final(connection).flags == old(connection).flags,
        final(connection).bits == old(connection).bits,
        read is Ok ==> final(connection).seek == Some(read->Ok_0.position),
        read is Err ==> final(connection).seek == old(connection).seek,
        read is Err ==> r.0 == Err::<(), Status>(read->Err_0) && r.1@.len() == 0,
        read is Ok && read->Ok_0.entries is Some ==> {
            &&& r.0 == (read->Ok_0.entries->0).0
            &&& r.1@ == (read->Ok_0.entries->0).1@
        },
        read is Ok && read->Ok_0.entries is None ==> {
            &&& r.0 == Err::<(), Status>(Status::NotSupported)
            &&& r.1@.len() == 0
        },
{
}

/// A request to link goes on only from one part to the next: the entry is looked for over a
/// connection that can be written to, where there are tokens; then the directory to link it in, if
/// it can be linked; then it is linked, if that directory exists. Each failure is answered with its
/// own error, and the answer is success only when it has been linked.
pub proof fn law_linking_takes_one_part_after_the_other<P>(
    connection: BaseConnection<P>,
    event: LinkEvent,
    r: LinkStep,
)
    requires
        call_ensures(BaseConnection::<P>::handle_link, (&connection, event), r),
    ensures
        r is GetEntry <==> event == (LinkEvent::Start { has_token_registry: true })
            && connection.flags & connection.bits.open_right_writable != 0,
        r is GetContainer <==> event == LinkEvent::Entry(Ok(true)),
        r is Link <==> event == LinkEvent::Container(Ok(true)),
        r == LinkStep::Respond(Ok(())) <==> event == LinkEvent::Linked(Ok(())),
        event == (LinkEvent::Start { has_token_registry: false }) ==> r == LinkStep::Respond(
            Err(Status::NotSupported),
        ),
        event == (LinkEvent::Start { has_token_registry: true }) && connection.flags
            & connection.bits.open_right_writable == 0 ==> r == LinkStep::Respond(
            Err(Status::BadHandle),
        ),
        event == LinkEvent::Entry(Ok(false)) ==> r == LinkStep::Respond(Err(Status::NotFile)),
        event == LinkEvent::Container(Ok(false)) ==> r == LinkStep::Respond(Err(Status::NotFound)),
        event matches LinkEvent::Entry(Err(status)) ==> r == LinkStep::Respond(Err(status)),
        event matches LinkEvent::Container(Err(status)) ==> r == LinkStep::Respond(Err(status)),
        event matches LinkEvent::Linked(Err(status)) ==> r == LinkStep::Respond(Err(status)),
{
}

/// More requests are read after one, if and only if it has been handled and the connection is alive.
pub proof fn law_requests_are_read_while_alive<E>(handled: Result<ConnectionState, E>, r: bool)
    requires
        call_ensures(handle_requests::<E>, (&handled,), r),
    ensures
        handled is Err ==> !r,
        handled is Ok ==> (r <==> handled->Ok_0 is Alive),
{
}

} // verus!
