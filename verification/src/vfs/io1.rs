//! A connection to a directory.
//!
//! The functions here decide how a request is answered. What they cannot know, the directory is
//! asked for; its answer is given to the function that goes on with the request.

use crate::zircon::Status;
use vstd::prelude::*;

verus! {

/// What becomes of the connection when a request has been handled.
#[derive(Clone, Copy, Debug, PartialEq, Eq, Structural)]
pub enum ConnectionState {
    /// Connection is still alive.
    Alive,
    /// Connection have received Node::Close message and should be closed.
    Closed,
}

/// The bits of the protocol that are looked at or set here.
#[derive(Clone, Copy, Debug, PartialEq, Eq, Structural)]
pub struct ProtocolBits {
    pub open_flag_node_reference: u32,
    pub open_flag_create: u32,
    pub open_right_writable: u32,
    pub mode_type_directory: u32,
    /// The protection that every directory has.
    pub posix_directory_protection_attributes: u32,
    /// The flags that are told when asked for.
    pub get_flags_visible: u32,
    /// The inode number of a node that has none.
    pub ino_unknown: u64,
}

#[derive(Clone, Copy, Debug, PartialEq, Eq, Structural)]
pub struct NodeAttributes {
    pub mode: u32,
    pub id: u64,
    pub content_size: u64,
    pub storage_size: u64,
    pub link_count: u64,
    pub creation_time: u64,
    pub modification_time: u64,
}

/// A request to a directory. `H` stands for the channels, sockets and tokens that come with
/// requests, and for the means to respond to them.
pub enum DirectoryRequest<H> {
    Clone { flags: u32, object: H, control_handle: H },
    Close { responder: H },
    Describe { responder: H },
    Sync { responder: H },
    GetAttr { responder: H },
    SetAttr { flags: u32, attributes: NodeAttributes, responder: H },
    NodeGetFlags { responder: H },
    NodeSetFlags { flags: u32, responder: H },
    Open { flags: u32, mode: u32, path: String, object: H, control_handle: H },
    AddInotifyFilter { path: String, filters: u32, watch_descriptor: u32, socket: H, responder: H },
    AdvisoryLock { request: H, responder: H },
    Unlink { path: String, responder: H },
    Unlink2 { name: String, options: H, responder: H },
    ReadDirents { max_bytes: u64, responder: H },
    Rewind { responder: H },
    GetToken { responder: H },
    Rename { src: String, dst_parent_token: H, dst: String, responder: H },
    Rename2 { src: String, dst_parent_token: H, dst: String, responder: H },
    Link { src: String, dst_parent_token: H, dst: String, responder: H },
    Watch { mask: u32, options: u32, watcher: H, responder: H },
}

/// Subset of the [`DirectoryRequest`] protocol that is handled by the
/// [`BaseConnection::handle_request`] method.
pub enum BaseDirectoryRequest<H> {
    Clone { flags: u32, object: H, control_handle: H },
    Close { responder: H },
    Describe { responder: H },
    GetAttr { responder: H },
    GetFlags { responder: H },
    SetFlags { flags: u32, responder: H },
    AdvisoryLock { request: H, responder: H },
    Open { flags: u32, mode: u32, path: String, object: H, control_handle: H },
    AddInotifyFilter { path: String, filters: u32, watch_descriptor: u32, socket: H, responder: H },
    ReadDirents { max_bytes: u64, responder: H },
    Rewind { responder: H },
    Link { src: String, dst_parent_token: H, dst: String, responder: H },
    Watch { mask: u32, options: u32, watcher: H, responder: H },
}

/// The rest of the protocol, which mutable and immutable directories handle differently.
pub enum DerivedDirectoryRequest<H> {
    Unlink { path: String, responder: H },
    Unlink2 { name: String, options: H, responder: H },
    GetToken { responder: H },
    Rename { src: String, dst_parent_token: H, dst: String, responder: H },
    Rename2 { src: String, dst_parent_token: H, dst: String, responder: H },
    SetAttr { flags: u32, attributes: NodeAttributes, responder: H },
    Sync { responder: H },
}

pub enum DirectoryRequestType<H> {
    Base(BaseDirectoryRequest<H>),
    Derived(DerivedDirectoryRequest<H>),
}

impl<H> DirectoryRequestType<H> {
    /// The request that this is a part of the protocol for.
    pub open spec fn request(self) -> DirectoryRequest<H> {
        match self {
            DirectoryRequestType::Base(request) => match request {
                BaseDirectoryRequest::Clone { flags, object, control_handle } =>
                    DirectoryRequest::Clone { flags, object, control_handle },
                BaseDirectoryRequest::Close { responder } => DirectoryRequest::Close { responder },
                BaseDirectoryRequest::Describe { responder } => DirectoryRequest::Describe {
                    responder,
                },
                BaseDirectoryRequest::GetAttr { responder } => DirectoryRequest::GetAttr {
                    responder,
                },
                BaseDirectoryRequest::GetFlags { responder } => DirectoryRequest::NodeGetFlags {
                    responder,
                },
                BaseDirectoryRequest::SetFlags { flags, responder } =>
                    DirectoryRequest::NodeSetFlags { flags, responder },
                BaseDirectoryRequest::AdvisoryLock { request, responder } =>
                    DirectoryRequest::AdvisoryLock { request, responder },
                BaseDirectoryRequest::Open { flags, mode, path, object, control_handle } =>
                    DirectoryRequest::Open { flags, mode, path, object, control_handle },
                BaseDirectoryRequest::AddInotifyFilter {
                    path,
                    filters,
                    watch_descriptor,
                    socket,
                    responder,
                } => DirectoryRequest::AddInotifyFilter {
                    path,
                    filters,
                    watch_descriptor,
                    socket,
                    responder,
                },
                BaseDirectoryRequest::ReadDirents { max_bytes, responder } =>
                    DirectoryRequest::ReadDirents { max_bytes, responder },
                BaseDirectoryRequest::Rewind { responder } => DirectoryRequest::Rewind {
                    responder,
                },
                BaseDirectoryRequest::Link { src, dst_parent_token, dst, responder } =>
                    DirectoryRequest::Link { src, dst_parent_token, dst, responder },
                BaseDirectoryRequest::Watch { mask, options, watcher, responder } =>
                    DirectoryRequest::Watch { mask, options, watcher, responder },
            },
            DirectoryRequestType::Derived(request) => match request {
                DerivedDirectoryRequest::Unlink { path, responder } => DirectoryRequest::Unlink {
                    path,
                    responder,
                },
                DerivedDirectoryRequest::Unlink2 { name, options, responder } =>
                    DirectoryRequest::Unlink2 { name, options, responder },
                DerivedDirectoryRequest::GetToken { responder } => DirectoryRequest::GetToken {
                    responder,
                },
                DerivedDirectoryRequest::Rename { src, dst_parent_token, dst, responder } =>
                    DirectoryRequest::Rename { src, dst_parent_token, dst, responder },
                DerivedDirectoryRequest::Rename2 { src, dst_parent_token, dst, responder } =>
                    DirectoryRequest::Rename2 { src, dst_parent_token, dst, responder },
                DerivedDirectoryRequest::SetAttr { flags, attributes, responder } =>
                    DirectoryRequest::SetAttr { flags, attributes, responder },
                DerivedDirectoryRequest::Sync { responder } => DirectoryRequest::Sync { responder },
            },
        }
    }

    /// Sorts a request. Nothing of it is lost.
    pub fn from(request: DirectoryRequest<H>) -> (r: Self)
        ensures
            r.request() == request,
    {
        match request {
            DirectoryRequest::Clone { flags, object, control_handle } => DirectoryRequestType::Base(
                BaseDirectoryRequest::Clone { flags, object, control_handle },
            ),
            DirectoryRequest::Close { responder } => DirectoryRequestType::Base(
                BaseDirectoryRequest::Close { responder },
            ),
            DirectoryRequest::Describe { responder } => DirectoryRequestType::Base(
                BaseDirectoryRequest::Describe { responder },
            ),
            DirectoryRequest::Sync { responder } => DirectoryRequestType::Derived(
                DerivedDirectoryRequest::Sync { responder },
            ),
            DirectoryRequest::GetAttr { responder } => DirectoryRequestType::Base(
                BaseDirectoryRequest::GetAttr { responder },
            ),
            DirectoryRequest::SetAttr { flags, attributes, responder } =>
                DirectoryRequestType::Derived(
                DerivedDirectoryRequest::SetAttr { flags, attributes, responder },
            ),
            DirectoryRequest::NodeGetFlags { responder } => DirectoryRequestType::Base(
                BaseDirectoryRequest::GetFlags { responder },
            ),
            DirectoryRequest::NodeSetFlags { flags, responder } => DirectoryRequestType::Base(
                BaseDirectoryRequest::SetFlags { flags, responder },
            ),
            DirectoryRequest::Open { flags, mode, path, object, control_handle } =>
                DirectoryRequestType::Base(
                BaseDirectoryRequest::Open { flags, mode, path, object, control_handle },
            ),
            DirectoryRequest::AddInotifyFilter {
                path,
                filters,
                watch_descriptor,
                socket,
                responder,
            } => DirectoryRequestType::Base(
                BaseDirectoryRequest::AddInotifyFilter {
                    path,
                    filters,
                    watch_descriptor,
                    socket,
                    responder,
                },
            ),
            DirectoryRequest::AdvisoryLock { request, responder } => DirectoryRequestType::Base(
                BaseDirectoryRequest::AdvisoryLock { request, responder },
            ),
            DirectoryRequest::Unlink { path, responder } => DirectoryRequestType::Derived(
                DerivedDirectoryRequest::Unlink { path, responder },
            ),
            DirectoryRequest::Unlink2 { name, options, responder } =>
                DirectoryRequestType::Derived(
                DerivedDirectoryRequest::Unlink2 { name, options, responder },
            ),
            DirectoryRequest::ReadDirents { max_bytes, responder } => DirectoryRequestType::Base(
                BaseDirectoryRequest::ReadDirents { max_bytes, responder },
            ),
            DirectoryRequest::Rewind { responder } => DirectoryRequestType::Base(
                BaseDirectoryRequest::Rewind { responder },
            ),
            DirectoryRequest::GetToken { responder } => DirectoryRequestType::Derived(
                DerivedDirectoryRequest::GetToken { responder },
            ),
            DirectoryRequest::Rename { src, dst_parent_token, dst, responder } =>
                DirectoryRequestType::Derived(
                DerivedDirectoryRequest::Rename { src, dst_parent_token, dst, responder },
            ),
            DirectoryRequest::Rename2 { src, dst_parent_token, dst, responder } =>
                DirectoryRequestType::Derived(
                DerivedDirectoryRequest::Rename2 { src, dst_parent_token, dst, responder },
            ),
            DirectoryRequest::Link { src, dst_parent_token, dst, responder } =>
                DirectoryRequestType::Base(
                BaseDirectoryRequest::Link { src, dst_parent_token, dst, responder },
            ),
            DirectoryRequest::Watch { mask, options, watcher, responder } =>
                DirectoryRequestType::Base(
                BaseDirectoryRequest::Watch { mask, options, watcher, responder },
            ),
        }
    }
}

/// Each request is sorted in one way only.
pub proof fn law_requests_are_sorted_one_way<H>(
    a: DirectoryRequestType<H>,
    b: DirectoryRequestType<H>,
)
    requires
        a.request() == b.request(),
    ensures
        a == b,
{
}

/// What is known of the rights and the path of a request to open or clone.
#[derive(Clone, Copy, Debug)]
pub struct OpenRights {
    /// The flags of a clone that inherits the rights of this connection, or why there can be none.
    pub clone_flags: Result<u32, Status>,
    /// Whether the path is that of a directory, or why it is not a path.
    pub path_is_dir: Result<bool, Status>,
    /// The flags of a connection to a child, or why there can be none.
    pub child_flags: Result<u32, Status>,
}

/// What is to be done about a request. Those that call the directory go on with its answer.
pub enum DirectoryAction<H> {
    /// Nothing: the request is dropped.
    Ignore,
    SendStatus { responder: H, status: Result<(), Status> },
    SendInfo { responder: H },
    SendFlags { responder: H, flags: u32 },
    /// Answers a request for entries without any.
    SendNoDirents { responder: H, status: Status },
    /// Tells the other end that it could not be opened, if it asked to be told.
    SendOnOpenWithError { flags: u32, server_end: H, status: Status },
    /// Opens the directory itself.
    OpenSelf { flags: u32, mode: u32, server_end: H },
    OpenChild { flags: u32, mode: u32, path: String, server_end: H },
    Close { responder: H },
    GetAttrs { responder: H },
    ReadDirents { max_bytes: u64, responder: H },
    Link { src: String, dst_parent_token: H, dst: String, responder: H },
    RegisterWatcher { mask: u32, watcher: H, responder: H },
}

/// Handles functionality shared between mutable and immutable connections to a directory.  A
/// single directory may contain multiple connections.  Instances of the `BaseConnection` will also
/// hold any state that is "per-connection".  Currently that would be the access flags and the seek
/// position.
pub struct BaseConnection<P> {
    pub bits: ProtocolBits,
    /// Flags set on this connection when it was opened or cloned.
    pub flags: u32,
    /// Seek position for this connection to the directory: where the last ReadDirents ended. `None`
    /// at the start.
    pub seek: Option<P>,
}

/// Whether any of `bits` is set in `flags`.
pub open spec fn has(flags: u32, bits: u32) -> bool {
    flags & bits != 0
}

fn is_set(flags: u32, bits: u32) -> (r: bool)
    ensures
        r == has(flags, bits),
{
    flags & bits != 0
}

fn is_path(path: &String, literal: &str) -> (r: bool)
    ensures
        r == (path@ == literal@),
{
    *path == literal.to_owned()
}

/// How a connection with the given flags is cloned.
pub open spec fn clone_action<H>(
    rights: OpenRights,
    flags: u32,
    mode: u32,
    server_end: H,
) -> DirectoryAction<H> {
    match rights.clone_flags {
        Ok(updated) => DirectoryAction::OpenSelf { flags: updated, mode, server_end },
        Err(status) => DirectoryAction::SendOnOpenWithError { flags, server_end, status },
    }
}

impl<P> BaseConnection<P> {
    /// How a path is opened from this connection.
    pub open spec fn open_action<H>(
        self,
        rights: OpenRights,
        flags: u32,
        mode: u32,
        path: String,
        server_end: H,
    ) -> DirectoryAction<H> {
        let refuse = |status: Status|
            DirectoryAction::SendOnOpenWithError { flags, server_end, status };
        if has(self.flags, self.bits.open_flag_node_reference) {
            refuse(Status::BadHandle)
        } else if path@ == "/"@ || path@ == ""@ {
            refuse(Status::BadPath)
        } else if path@ == "."@ || path@ == "./"@ {
            if has(flags, self.bits.open_flag_create) {
                refuse(Status::InvalidArgs)
            } else {
                clone_action(rights, flags, mode, server_end)
            }
        } else {
            match (rights.path_is_dir, rights.child_flags) {
                (Err(status), _) => refuse(status),
                (Ok(_), Err(status)) => refuse(status),
                (Ok(is_dir), Ok(updated)) => DirectoryAction::OpenChild {
                    flags: updated,
                    mode: if is_dir {
                        mode | self.bits.mode_type_directory
                    } else {
                        mode
                    },
                    path,
                    server_end,
                },
            }
        }
    }

    /// What is to be done about a request.
    pub open spec fn action<H>(
        self,
        request: BaseDirectoryRequest<H>,
        rights: OpenRights,
    ) -> DirectoryAction<H> {
        match request {
            BaseDirectoryRequest::Clone { flags, object, control_handle } => clone_action(
                rights,
                flags,
                0,
                object,
            ),
            BaseDirectoryRequest::Close { responder } => DirectoryAction::Close { responder },
            BaseDirectoryRequest::Describe { responder } => DirectoryAction::SendInfo { responder },
            BaseDirectoryRequest::GetAttr { responder } => DirectoryAction::GetAttrs { responder },
            BaseDirectoryRequest::GetFlags { responder } => DirectoryAction::SendFlags {
                responder,
                flags: self.flags & self.bits.get_flags_visible,
            },
            BaseDirectoryRequest::SetFlags { flags, responder } => DirectoryAction::SendStatus {
                responder,
                status: Err(Status::NotSupported),
            },
            BaseDirectoryRequest::AdvisoryLock { request, responder } =>
                DirectoryAction::SendStatus { responder, status: Err(Status::NotSupported) },
            BaseDirectoryRequest::Open { flags, mode, path, object, control_handle } =>
                self.open_action(rights, flags, mode, path, object),
            BaseDirectoryRequest::AddInotifyFilter {
                path,
                filters,
                watch_descriptor,
                socket,
                responder,
            } => DirectoryAction::Ignore,
            BaseDirectoryRequest::ReadDirents { max_bytes, responder } => if has(
                self.flags,
                self.bits.open_flag_node_reference,
            ) {
                DirectoryAction::SendNoDirents { responder, status: Status::BadHandle }
            } else {
                DirectoryAction::ReadDirents { max_bytes, responder }
            },
            BaseDirectoryRequest::Rewind { responder } => DirectoryAction::SendStatus {
                responder,
                status: Ok(()),
            },
            BaseDirectoryRequest::Link { src, dst_parent_token, dst, responder } =>
                DirectoryAction::Link { src, dst_parent_token, dst, responder },
            BaseDirectoryRequest::Watch { mask, options, watcher, responder } => if options != 0 {
                DirectoryAction::SendStatus { responder, status: Err(Status::InvalidArgs) }
            } else {
                DirectoryAction::RegisterWatcher { mask, watcher, responder }
            },
        }
    }
}

/// What a directory has read of its entries: how far it has come, and the entries with a status,
/// unless it has not given them in the expected form.
pub struct ReadEntries<P> {
    pub position: P,
    pub entries: Option<(Result<(), Status>, Vec<u8>)>,
}

/// How far a request to link has come.
#[derive(Clone, Copy, Debug, PartialEq, Eq)]
pub enum LinkEvent {
    /// The request has come, and there are tokens in this scope or not.
    Start { has_token_registry: bool },
    /// The entry to link has been looked for, and can be linked or not.
    Entry(Result<bool, Status>),
    /// The directory to link it in has been looked for, and exists or not.
    Container(Result<bool, Status>),
    /// The entry has been asked to be linked.
    Linked(Result<(), Status>),
}

/// What is to be done next about a request to link.
#[derive(Clone, Copy, Debug, PartialEq, Eq)]
pub enum LinkStep {
    /// Look for the entry.
    GetEntry,
    /// Look for the directory to link it in.
    GetContainer,
    /// Link it.
    Link,
    /// Answer the request.
    Respond(Result<(), Status>),
}

/// What follows each part of a request to link.
pub open spec fn link_step(writable: bool, event: LinkEvent) -> LinkStep {
    match event {
        LinkEvent::Start { has_token_registry } => if !has_token_registry {
            LinkStep::Respond(Err(Status::NotSupported))
        } else if !writable {
            LinkStep::Respond(Err(Status::BadHandle))
        } else {
            LinkStep::GetEntry
        },
        LinkEvent::Entry(Err(status)) => LinkStep::Respond(Err(status)),
        LinkEvent::Entry(Ok(can_hardlink)) => if can_hardlink {
            LinkStep::GetContainer
        } else {
            LinkStep::Respond(Err(Status::NotFile))
        },
        LinkEvent::Container(Err(status)) => LinkStep::Respond(Err(status)),
        LinkEvent::Container(Ok(found)) => if found {
            LinkStep::Link
        } else {
            LinkStep::Respond(Err(Status::NotFound))
        },
        LinkEvent::Linked(result) => LinkStep::Respond(result),
    }
}

/// An entry is linked only over a connection that can be written to, in a scope with tokens, when
/// the entry can be linked and the directory to link it in exists; and then the answer is what
/// linking it has led to.
pub proof fn law_link_needs_all_conditions(
    writable: bool,
    has_token_registry: bool,
    entry: Result<bool, Status>,
    container: Result<bool, Status>,
    linked: Result<(), Status>,
)
    ensures
        link_step(writable, LinkEvent::Start { has_token_registry }) is GetEntry <==> writable
            && has_token_registry,
        link_step(writable, LinkEvent::Entry(entry)) is GetContainer <==> entry == Ok::<
            bool,
            Status,
        >(true),
        link_step(writable, LinkEvent::Container(container)) is Link <==> container == Ok::<
            bool,
            Status,
        >(true),
        link_step(writable, LinkEvent::Linked(linked)) == LinkStep::Respond(linked),
        !(link_step(writable, LinkEvent::Start { has_token_registry }) is Link),
        !(link_step(writable, LinkEvent::Entry(entry)) is Link),
{
}

/// What is told of a directory's attributes: those it gives, or what holds of any directory where
/// it cannot give them. The mode is that of a directory either way.
pub open spec fn attributes_told(
    bits: ProtocolBits,
    attrs: Result<NodeAttributes, Status>,
) -> NodeAttributes {
    let mode = bits.mode_type_directory | bits.posix_directory_protection_attributes;
    match attrs {
        Ok(attrs) => NodeAttributes { mode, ..attrs },
        Err(_) => NodeAttributes {
            mode,
            id: bits.ino_unknown,
            content_size: 0,
            storage_size: 0,
            link_count: 1,
            creation_time: 0,
            modification_time: 0,
        },
    }
}

impl<P> BaseConnection<P> {
    /// Constructs an instance of `BaseConnection`, at the start of the directory.
    pub fn new(bits: ProtocolBits, flags: u32) -> (r: Self)
        ensures
            r == (BaseConnection::<P> { bits, flags, seek: None }),
    {
        BaseConnection { bits, flags, seek: None }
    }

    /// Handle a [`DirectoryRequest`].  This function is responsible for handing all the basic
    /// directory operations.
    pub fn handle_request<H>(&mut self, request: BaseDirectoryRequest<H>, rights: OpenRights) -> (r: (
        DirectoryAction<H>,
        ConnectionState,
    ))
        ensures
            r.0 == old(self).action(request, rights),
            r.1 == (if request is Close {
                ConnectionState::Closed
            } else {
                ConnectionState::Alive
            }),
            *final(self) == (BaseConnection {
                seek: if request is Rewind {
                    None
                } else {
                    old(self).seek
                },
                ..*old(self)
            }),
    {
        let action = match request {
            BaseDirectoryRequest::Clone { flags, object, control_handle: _ } => self.handle_clone(
                rights,
                flags,
                0,
                object,
            ),
            BaseDirectoryRequest::Close { responder } => {
                return (DirectoryAction::Close { responder }, ConnectionState::Closed);
            },
            BaseDirectoryRequest::Describe { responder } => DirectoryAction::SendInfo { responder },
            BaseDirectoryRequest::GetAttr { responder } => DirectoryAction::GetAttrs { responder },
            BaseDirectoryRequest::GetFlags { responder } => DirectoryAction::SendFlags {
                responder,
                flags: self.flags & self.bits.get_flags_visible,
            },
            BaseDirectoryRequest::SetFlags { flags: _, responder } => DirectoryAction::SendStatus {
                responder,
                status: Err(Status::NotSupported),
            },
            BaseDirectoryRequest::Open { flags, mode, path, object, control_handle: _ } =>
                self.handle_open(rights, flags, mode, path, object),
            BaseDirectoryRequest::AddInotifyFilter {
                path: _,
                filters: _,
                watch_descriptor: _,
                socket: _,
                responder: _,
            } => DirectoryAction::Ignore,
            BaseDirectoryRequest::AdvisoryLock { request: _, responder } =>
                DirectoryAction::SendStatus { responder, status: Err(Status::NotSupported) },
            BaseDirectoryRequest::ReadDirents { max_bytes, responder } => {
                if is_set(self.flags, self.bits.open_flag_node_reference) {
                    DirectoryAction::SendNoDirents { responder, status: Status::BadHandle }
                } else {
                    DirectoryAction::ReadDirents { max_bytes, responder }
                }
            },
            BaseDirectoryRequest::Rewind { responder } => {
                self.seek = None;
                DirectoryAction::SendStatus { responder, status: Ok(()) }
            },
            BaseDirectoryRequest::Link { src, dst_parent_token, dst, responder } =>
                DirectoryAction::Link { src, dst_parent_token, dst, responder },
            BaseDirectoryRequest::Watch { mask, options, watcher, responder } => {
                if options != 0 {
                    DirectoryAction::SendStatus { responder, status: Err(Status::InvalidArgs) }
                } else {
                    DirectoryAction::RegisterWatcher { mask, watcher, responder }
                }
            },
        };
        (action, ConnectionState::Alive)
    }

    fn handle_clone<H>(&self, rights: OpenRights, flags: u32, mode: u32, server_end: H) -> (r: DirectoryAction<H>)
        ensures
            r == clone_action(rights, flags, mode, server_end),
    {
        match rights.clone_flags {
            Ok(updated) => DirectoryAction::OpenSelf { flags: updated, mode, server_end },
            Err(status) => DirectoryAction::SendOnOpenWithError { flags, server_end, status },
        }
    }

    fn handle_open<H>(
        &self,
        rights: OpenRights,
        flags: u32,
        mode: u32,
        path: String,
        server_end: H,
    ) -> (r: DirectoryAction<H>)
        ensures
            r == self.open_action(rights, flags, mode, path, server_end),
    {
        if is_set(self.flags, self.bits.open_flag_node_reference) {
            return DirectoryAction::SendOnOpenWithError {
                flags,
                server_end,
                status: Status::BadHandle,
            };
        }
        if is_path(&path, "/") || is_path(&path, "") {
            return DirectoryAction::SendOnOpenWithError {
                flags,
                server_end,
                status: Status::BadPath,
            };
        }
        if is_path(&path, ".") || is_path(&path, "./") {
            // Both the flag to create and the one to create if absent are rejected, as in other
            // filesystems.
            if is_set(flags, self.bits.open_flag_create) {
                return DirectoryAction::SendOnOpenWithError {
                    flags,
                    server_end,
                    status: Status::InvalidArgs,
                };
            }
            return self.handle_clone(rights, flags, mode, server_end);
        }
        let is_dir = match rights.path_is_dir {
            Ok(is_dir) => is_dir,
            Err(status) => {
                return DirectoryAction::SendOnOpenWithError { flags, server_end, status };
            },
        };
        let mode: u32 = if is_dir {
            mode | self.bits.mode_type_directory
        } else {
            mode
        };
        match rights.child_flags {
            Ok(updated) => DirectoryAction::OpenChild { flags: updated, mode, path, server_end },
            Err(status) => DirectoryAction::SendOnOpenWithError { flags, server_end, status },
        }
    }

    /// What to answer to a request for attributes, when the directory has been asked for them.
    pub fn handle_attrs(&self, attrs: Result<NodeAttributes, Status>) -> (r: (
        Result<(), Status>,
        NodeAttributes,
    ))
        ensures
            r.0 == (match attrs {
                Ok(_) => Ok::<(), Status>(()),
                Err(status) => Err(status),
            }),
            r.1 == attributes_told(self.bits, attrs),
    {
        let mode: u32 = self.bits.mode_type_directory
            | self.bits.posix_directory_protection_attributes;
        match attrs {
            Ok(attrs) => {
                let mut attrs = attrs;
                attrs.mode = mode;
                (Ok(()), attrs)
            },
            Err(status) => (
                Err(status),
                NodeAttributes {
                    mode,
                    id: self.bits.ino_unknown,
                    content_size: 0,
                    storage_size: 0,
                    link_count: 1,
                    creation_time: 0,
                    modification_time: 0,
                },
            ),
        }
    }

    /// What to answer to a request for entries, when the directory has been asked for them. The
    /// next request goes on where this one ended.
    pub fn handle_read_dirents(&mut self, read: Result<ReadEntries<P>, Status>) -> (r: (
        Result<(), Status>,
        Vec<u8>,
    ))
        ensures
            match read {
                Err(status) => {
                    &&& r.0 == Err::<(), Status>(status)
                    &&& r.1@.len() == 0
                    &&& *final(self) == *old(self)
                },
                Ok(ReadEntries { position, entries }) => {
                    &&& *final(self) == (BaseConnection { seek: Some(position), ..*old(self) })
                    &&& match entries {
                        Some((status, buffer)) => r.0 == status && r.1@ == buffer@,
                        None => r.0 == Err::<(), Status>(Status::NotSupported) && r.1@.len() == 0,
                    }
                },
            },
    {
        match read {
            Ok(ReadEntries { position, entries }) => {
                self.seek = Some(position);
                match entries {
                    Some((status, buffer)) => (status, buffer),
                    None => (Err(Status::NotSupported), Vec::new()),
                }
            },
            Err(status) => (Err(status), Vec::new()),
        }
    }

    /// What to do next about a request to link an entry of this directory in another one.
    pub fn handle_link(&self, event: LinkEvent) -> (r: LinkStep)
        ensures
            r == link_step(has(self.flags, self.bits.open_right_writable), event),
    {
        match event {
            LinkEvent::Start { has_token_registry } => {
                if !has_token_registry {
                    LinkStep::Respond(Err(Status::NotSupported))
                } else if !is_set(self.flags, self.bits.open_right_writable) {
                    LinkStep::Respond(Err(Status::BadHandle))
                } else {
                    LinkStep::GetEntry
                }
            },
            LinkEvent::Entry(entry) => match entry {
                Err(status) => LinkStep::Respond(Err(status)),
                Ok(can_hardlink) => if can_hardlink {
                    LinkStep::GetContainer
                } else {
                    LinkStep::Respond(Err(Status::NotFile))
                },
            },
            LinkEvent::Container(container) => match container {
                Err(status) => LinkStep::Respond(Err(status)),
                Ok(found) => if found {
                    LinkStep::Link
                } else {
                    LinkStep::Respond(Err(Status::NotFound))
                },
            },
            LinkEvent::Linked(result) => LinkStep::Respond(result),
        }
    }
}

/// Whether more requests are read after one that has been handled. The connection is closed when
/// it has been asked for, and on any unexpected error.
pub fn handle_requests<E>(handled: &Result<ConnectionState, E>) -> (r: bool)
    ensures
        r == (*handled matches Ok(ConnectionState::Alive)),
{
    match handled {
        Ok(ConnectionState::Alive) => true,
        Ok(ConnectionState::Closed) => false,
        Err(_) => false,
    }
}

/// A connection that only refers to the node can neither open anything nor read entries.
pub proof fn law_node_references_are_refused<P, H>(
    connection: BaseConnection<P>,
    rights: OpenRights,
    flags: u32,
    mode: u32,
    path: String,
    object: H,
    control_handle: H,
    max_bytes: u64,
    responder: H,
)
    requires
        has(connection.flags, connection.bits.open_flag_node_reference),
    ensures
        connection.action(
            BaseDirectoryRequest::Open { flags, mode, path, object, control_handle },
            rights,
        ) == (DirectoryAction::SendOnOpenWithError {
            flags,
            server_end: object,
            status: Status::BadHandle,
        }),
        connection.action(BaseDirectoryRequest::ReadDirents { max_bytes, responder }, rights) == (
        DirectoryAction::SendNoDirents { responder, status: Status::BadHandle }),
{
}

} // verus!
