//! Connections to a directory.

use fuchsia_logic::vfs::io1::{
    handle_requests, BaseConnection, BaseDirectoryRequest, ConnectionState,
    DerivedDirectoryRequest, DirectoryAction, DirectoryRequest, DirectoryRequestType, LinkEvent,
    LinkStep, NodeAttributes, OpenRights, ProtocolBits, ReadEntries,
};
use fuchsia_logic::zircon::Status;

const NODE_REFERENCE: u32 = 0x0040_0000;
const CREATE: u32 = 0x0001_0000;
const READABLE: u32 = 1;
const WRITABLE: u32 = 2;

/// What stands for channels and responders.
type Handle = u32;
type Connection = BaseConnection<&'static str>;

fn bits() -> ProtocolBits {
    ProtocolBits {
        open_flag_node_reference: NODE_REFERENCE,
        open_flag_create: CREATE,
        open_right_writable: WRITABLE,
        mode_type_directory: 0x4000,
        posix_directory_protection_attributes: 0o700,
        get_flags_visible: READABLE | WRITABLE | NODE_REFERENCE,
        ino_unknown: u64::MAX,
    }
}

fn connection(flags: u32) -> Connection {
    BaseConnection::new(bits(), flags)
}

fn rights() -> OpenRights {
    OpenRights { clone_flags: Ok(31), path_is_dir: Ok(false), child_flags: Ok(32) }
}

fn open(path: &str, flags: u32) -> BaseDirectoryRequest<Handle> {
    BaseDirectoryRequest::Open {
        flags,
        mode: 0o22,
        path: path.to_string(),
        object: 5,
        control_handle: 6,
    }
}

fn handle(
    connection: &mut Connection,
    request: BaseDirectoryRequest<Handle>,
    rights: OpenRights,
) -> DirectoryAction<Handle> {
    let (action, state) = connection.handle_request(request, rights);
    assert_eq!(state, ConnectionState::Alive);
    action
}

/// The status with which an open has been refused.
fn refused(action: DirectoryAction<Handle>) -> Status {
    match action {
        DirectoryAction::SendOnOpenWithError { server_end: 5, status, .. } => status,
        _ => panic!("expected a refusal"),
    }
}

fn status_sent(action: DirectoryAction<Handle>) -> Result<(), Status> {
    match action {
        DirectoryAction::SendStatus { responder: 9, status } => status,
        _ => panic!("expected a status"),
    }
}

#[test]
fn paths_that_name_nothing_are_refused() {
    let mut connection = connection(READABLE);
    assert_eq!(refused(handle(&mut connection, open("/", 0), rights())), Status::BadPath);
    assert_eq!(refused(handle(&mut connection, open("", 0), rights())), Status::BadPath);
    let bad_path = OpenRights { path_is_dir: Err(Status::InvalidArgs), ..rights() };
    assert_eq!(
        refused(handle(&mut connection, open("a//b", 0), bad_path)),
        Status::InvalidArgs
    );
    let no_rights = OpenRights { child_flags: Err(Status::AccessDenied), ..rights() };
    assert_eq!(
        refused(handle(&mut connection, open("a", 0), no_rights)),
        Status::AccessDenied
    );
}

#[test]
fn the_directory_itself_is_cloned() {
    let mut connection = connection(READABLE);
    for path in [".", "./"] {
        match handle(&mut connection, open(path, 7), rights()) {
            DirectoryAction::OpenSelf { flags: 31, mode: 0o22, server_end: 5 } => (),
            _ => panic!("expected a clone"),
        }
        assert_eq!(
            refused(handle(&mut connection, open(path, CREATE), rights())),
            Status::InvalidArgs
        );
    }
    let request = || BaseDirectoryRequest::Clone { flags: 3, object: 5, control_handle: 6 };
    match handle(&mut connection, request(), rights()) {
        DirectoryAction::OpenSelf { flags: 31, mode: 0, server_end: 5 } => (),
        _ => panic!("expected a clone"),
    }
    let more = OpenRights { clone_flags: Err(Status::AccessDenied), ..rights() };
    match handle(&mut connection, request(), more) {
        DirectoryAction::SendOnOpenWithError { flags: 3, server_end: 5, status } => {
            assert_eq!(status, Status::AccessDenied)
        }
        _ => panic!("expected a refusal"),
    }
}

#[test]
fn children_are_opened() {
    let mut connection = connection(READABLE);
    match handle(&mut connection, open("a/b", CREATE), rights()) {
        DirectoryAction::OpenChild { flags: 32, mode: 0o22, path, server_end: 5 } => {
            assert_eq!(path, "a/b")
        }
        _ => panic!("expected a child"),
    }
    let dir = OpenRights { path_is_dir: Ok(true), ..rights() };
    match handle(&mut connection, open("a/", 0), dir) {
        DirectoryAction::OpenChild { mode, .. } => assert_eq!(mode, 0x4000 | 0o22),
        _ => panic!("expected a child"),
    }
}

#[test]
fn node_references_can_open_and_read_nothing() {
    let mut connection = connection(NODE_REFERENCE);
    for path in ["/", ".", "a"] {
        assert_eq!(
            refused(handle(&mut connection, open(path, 0), rights())),
            Status::BadHandle
        );
    }
    let read = BaseDirectoryRequest::ReadDirents { max_bytes: 100, responder: 9 };
    match handle(&mut connection, read, rights()) {
        DirectoryAction::SendNoDirents { responder: 9, status } => {
            assert_eq!(status, Status::BadHandle)
        }
        _ => panic!("expected no entries"),
    }
}

#[test]
fn attributes_are_those_of_a_directory() {
    let connection = connection(READABLE);
    let mode = 0x4000 | 0o700;
    let attrs = NodeAttributes {
        mode: 7,
        id: 12,
        content_size: 3,
        storage_size: 4,
        link_count: 2,
        creation_time: 5,
        modification_time: 6,
    };
    assert_eq!(connection.handle_attrs(Ok(attrs)), (Ok(()), NodeAttributes { mode, ..attrs }));
    assert_eq!(
        connection.handle_attrs(Err(Status::NotSupported)),
        (
            Err(Status::NotSupported),
            NodeAttributes {
                mode,
                id: u64::MAX,
                content_size: 0,
                storage_size: 0,
                link_count: 1,
                creation_time: 0,
                modification_time: 0,
            }
        )
    );
}

#[test]
fn reading_goes_on_where_it_ended() {
    let mut connection = connection(READABLE);
    assert_eq!(connection.seek, None);
    let read = BaseDirectoryRequest::ReadDirents { max_bytes: 100, responder: 9 };
    match handle(&mut connection, read, rights()) {
        DirectoryAction::ReadDirents { max_bytes: 100, responder: 9 } => (),
        _ => panic!("expected a read"),
    }
    let entries = Some((Ok(()), vec![1, 2, 3]));
    let (status, buffer) =
        connection.handle_read_dirents(Ok(ReadEntries { position: "b", entries }));
    assert_eq!((status, buffer), (Ok(()), vec![1, 2, 3]));
    assert_eq!(connection.seek, Some("b"));

    assert_eq!(
        connection.handle_read_dirents(Err(Status::NotFound)),
        (Err(Status::NotFound), vec![])
    );
    assert_eq!(connection.seek, Some("b"));
    assert_eq!(
        connection.handle_read_dirents(Ok(ReadEntries { position: "c", entries: None })),
        (Err(Status::NotSupported), vec![])
    );
    assert_eq!(connection.seek, Some("c"));

    let rewind = BaseDirectoryRequest::Rewind { responder: 9 };
    assert_eq!(status_sent(handle(&mut connection, rewind, rights())), Ok(()));
    assert_eq!(connection.seek, None);
}

#[test]
fn simple_requests_are_answered() {
    let mut connection = connection(READABLE | CREATE);
    match handle(&mut connection, BaseDirectoryRequest::Describe { responder: 9 }, rights()) {
        DirectoryAction::SendInfo { responder: 9 } => (),
        _ => panic!("expected a description"),
    }
    match handle(&mut connection, BaseDirectoryRequest::GetAttr { responder: 9 }, rights()) {
        DirectoryAction::GetAttrs { responder: 9 } => (),
        _ => panic!("expected attributes"),
    }
    match handle(&mut connection, BaseDirectoryRequest::GetFlags { responder: 9 }, rights()) {
        DirectoryAction::SendFlags { responder: 9, flags } => assert_eq!(flags, READABLE),
        _ => panic!("expected flags"),
    }
    let set = BaseDirectoryRequest::SetFlags { flags: 1, responder: 9 };
    assert_eq!(
        status_sent(handle(&mut connection, set, rights())),
        Err(Status::NotSupported)
    );
    let lock = BaseDirectoryRequest::AdvisoryLock { request: 8, responder: 9 };
    assert_eq!(
        status_sent(handle(&mut connection, lock, rights())),
        Err(Status::NotSupported)
    );
    let filter = BaseDirectoryRequest::AddInotifyFilter {
        path: "a".to_string(),
        filters: 1,
        watch_descriptor: 2,
        socket: 3,
        responder: 9,
    };
    assert!(matches!(handle(&mut connection, filter, rights()), DirectoryAction::Ignore));
    let watch =
        |options| BaseDirectoryRequest::Watch { mask: 3, options, watcher: 4, responder: 9 };
    assert_eq!(
        status_sent(handle(&mut connection, watch(1), rights())),
        Err(Status::InvalidArgs)
    );
    match handle(&mut connection, watch(0), rights()) {
        DirectoryAction::RegisterWatcher { mask: 3, watcher: 4, responder: 9 } => (),
        _ => panic!("expected a watcher"),
    }
    let link = BaseDirectoryRequest::Link {
        src: "x".to_string(),
        dst_parent_token: 1,
        dst: "y".to_string(),
        responder: 9,
    };
    match handle(&mut connection, link, rights()) {
        DirectoryAction::Link { src, dst_parent_token: 1, dst, responder: 9 } => {
            assert_eq!((src.as_str(), dst.as_str()), ("x", "y"))
        }
        _ => panic!("expected a link"),
    }
}

#[test]
fn closing_ends_the_connection() {
    let mut connection = connection(READABLE);
    let (action, state) =
        connection.handle_request(BaseDirectoryRequest::Close { responder: 9 }, rights());
    assert!(matches!(action, DirectoryAction::Close { responder: 9 }));
    assert_eq!(state, ConnectionState::Closed);
    assert!(!handle_requests::<()>(&Ok(ConnectionState::Closed)));
    assert!(!handle_requests(&Err(())));
    assert!(handle_requests::<()>(&Ok(ConnectionState::Alive)));
}

#[test]
fn links_need_all_conditions() {
    let writable = connection(WRITABLE);
    let start = |has_token_registry| LinkEvent::Start { has_token_registry };
    assert_eq!(writable.handle_link(start(true)), LinkStep::GetEntry);
    assert_eq!(
        writable.handle_link(start(false)),
        LinkStep::Respond(Err(Status::NotSupported))
    );
    assert_eq!(
        connection(READABLE).handle_link(start(true)),
        LinkStep::Respond(Err(Status::BadHandle))
    );
    // That there are no tokens comes first.
    assert_eq!(
        connection(READABLE).handle_link(start(false)),
        LinkStep::Respond(Err(Status::NotSupported))
    );
    assert_eq!(writable.handle_link(LinkEvent::Entry(Ok(true))), LinkStep::GetContainer);
    assert_eq!(
        writable.handle_link(LinkEvent::Entry(Ok(false))),
        LinkStep::Respond(Err(Status::NotFile))
    );
    assert_eq!(
        writable.handle_link(LinkEvent::Entry(Err(Status::AccessDenied))),
        LinkStep::Respond(Err(Status::AccessDenied))
    );
    assert_eq!(writable.handle_link(LinkEvent::Container(Ok(true))), LinkStep::Link);
    assert_eq!(
        writable.handle_link(LinkEvent::Container(Ok(false))),
        LinkStep::Respond(Err(Status::NotFound))
    );
    assert_eq!(
        writable.handle_link(LinkEvent::Container(Err(Status::BadHandle))),
        LinkStep::Respond(Err(Status::BadHandle))
    );
    assert_eq!(writable.handle_link(LinkEvent::Linked(Ok(()))), LinkStep::Respond(Ok(())));
    assert_eq!(
        writable.handle_link(LinkEvent::Linked(Err(Status::Other(-26)))),
        LinkStep::Respond(Err(Status::Other(-26)))
    );
}

#[test]
fn requests_are_sorted() {
    let derived = [
        DirectoryRequest::Sync { responder: 9 },
        DirectoryRequest::Unlink { path: "a".to_string(), responder: 9 },
        DirectoryRequest::Unlink2 { name: "a".to_string(), options: 1, responder: 9 },
        DirectoryRequest::GetToken { responder: 9 },
        DirectoryRequest::Rename {
            src: "a".to_string(),
            dst_parent_token: 1,
            dst: "b".to_string(),
            responder: 9,
        },
    ];
    for request in derived {
        assert!(matches!(DirectoryRequestType::from(request), DirectoryRequestType::Derived(_)));
    }
    let base = [
        DirectoryRequest::Close { responder: 9 },
        DirectoryRequest::NodeGetFlags { responder: 9 },
        DirectoryRequest::ReadDirents { max_bytes: 1, responder: 9 },
    ];
    for request in base {
        assert!(matches!(DirectoryRequestType::from(request), DirectoryRequestType::Base(_)));
    }
    match DirectoryRequestType::from(DirectoryRequest::NodeSetFlags { flags: 4, responder: 9 }) {
        DirectoryRequestType::Base(BaseDirectoryRequest::SetFlags { flags: 4, responder: 9 }) => (),
        _ => panic!("expected the flags"),
    }
    let rename = DirectoryRequest::Rename2 {
        src: "a".to_string(),
        dst_parent_token: 1,
        dst: "b".to_string(),
        responder: 9,
    };
    match DirectoryRequestType::from(rename) {
        DirectoryRequestType::Derived(DerivedDirectoryRequest::Rename2 {
            src,
            dst_parent_token: 1,
            dst,
            responder: 9,
        }) => assert_eq!((src.as_str(), dst.as_str()), ("a", "b")),
        _ => panic!("expected the rename"),
    }
}
