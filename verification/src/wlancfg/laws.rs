//! What holds of the client state machine.

use crate::wlancfg::state_machine::{
    handle_event, scan_result_of, serve, Action, ConnectedEvent, ConnectingEvent,
    ConnectingOptions, DisconnectingOptions, Event, ExitError, ManualRequest, Responder, ScanSource,
    SmeOperation, State, StatusResponse, Transition,
};
use crate::wlancfg::types::{
    bytes_equal, BssDescription, Bssid, ConnectRequest, ConnectResultCode,
    ConnectionCandidate, ConnectionState, Credential, DisconnectReason, DisconnectStatus,
    NetworkIdentifier, ScanType,
};
use vstd::prelude::*;

verus! {

/// Whether two identifiers have the same name and the same protection.
pub open spec fn same_network(a: NetworkIdentifier, b: NetworkIdentifier) -> bool {
    a.ssid@ == b.ssid@ && a.type_ == b.type_
}

/// Whether two credentials are of the same kind and have the same bytes.
pub open spec fn same_credential(a: Credential, b: Credential) -> bool {
    match (a, b) {
        (Credential::Open, Credential::Open) => true,
        (Credential::Password(x), Credential::Password(y)) => x@ == y@,
        (Credential::Psk(x), Credential::Psk(y)) => x@ == y@,
        _ => false,
    }
}

/// Whether two descriptions are those of the same access point.
pub open spec fn same_bss(a: BssDescription, b: BssDescription) -> bool {
    a.bssid == b.bssid && a.description@ == b.description@
}

/// Whether two candidates agree in all that they say.
pub open spec fn same_target(a: ConnectionCandidate, b: ConnectionCandidate) -> bool {
    &&& same_network(a.network, b.network)
    &&& same_credential(a.credential, b.credential)
    &&& a.observed_in_passive_scan == b.observed_in_passive_scan
    &&& a.multiple_bss_candidates == b.multiple_bss_candidates
    &&& a.bss is Some <==> b.bss is Some
    &&& a.bss is Some ==> same_bss(a.bss->0, b.bss->0)
}

/// Whether two requests ask for the same, for the same reason.
pub open spec fn same_request(a: ConnectRequest, b: ConnectRequest) -> bool {
    same_target(a.target, b.target) && a.reason == b.reason
}

/// Whether an action tells listeners that `network` is in the given state.
pub open spec fn tells(
    action: Action,
    network: NetworkIdentifier,
    state: ConnectionState,
    status: Option<DisconnectStatus>,
) -> bool {
    action matches Action::NotifyListeners(told) && same_network(told.id, network) && told.state
        == state && told.status == status
}

/// How many of the actions that are done for a state are for one who may be waiting.
pub open spec fn count_of<T>(option: Option<T>) -> int {
    if option is Some {
        1
    } else {
        0
    }
}

/// Whether the machine ends with `error` and does nothing more.
pub open spec fn just_ends(r: Transition, error: ExitError) -> bool {
    r.actions@.len() == 0 && r.next == State::<Vec<u8>>::Exited(Err(error))
}

// What is said of the views of a transition's actions is said of the actions.
proof fn lemma_action_views(r: Transition)
    ensures
        r@.actions.len() == r.actions@.len(),
        forall|i: int|
            0 <= i < r.actions@.len() ==> (#[trigger] r.actions@[i])@ == r@.actions[i],
{
}

/// When the credentials are rejected, the machine ends at once, however many attempts have failed
/// before. Nothing is waited for, nothing is asked of the driver, and listeners are told last that
/// the credentials have failed.
pub proof fn law_rejected_credentials_are_not_tried_again(
    options: ConnectingOptions,
    bssid: Bssid,
    r: Transition,
)
    requires
        call_ensures(
            handle_event,
            (
                State::Connecting(options, SmeOperation::Connect(bssid)),
                Event::Connecting(
                    ConnectingEvent::ConnectResult(Some(ConnectResultCode::CredentialRejected)),
                ),
            ),
            r,
        ),
    ensures
        r.next == State::<Vec<u8>>::Exited(Err(ExitError::BadCredentials)),
        r.actions@.len() == 2,
        r.actions@[0] is RecordConnectResult,
        tells(
            r.actions@.last(),
            options.connect_request.target.network,
            ConnectionState::Failed,
            Some(DisconnectStatus::CredentialsFailed),
        ),
{
    lemma_action_views(r);
}

/// When the connection has been made, listeners are told, the status is asked for, and the machine
/// stays connected for the request that it has served.
pub proof fn law_successful_attempts_connect(
    options: ConnectingOptions,
    bssid: Bssid,
    r: Transition,
)
    requires
        call_ensures(
            handle_event,
            (
                State::Connecting(options, SmeOperation::Connect(bssid)),
                Event::Connecting(ConnectingEvent::ConnectResult(Some(ConnectResultCode::Success))),
            ),
            r,
        ),
    ensures
        r.next is Connected,
        same_request(
            r.next->Connected_currently_fulfilled_request,
            options.connect_request,
        ),
        r.next->Connected_status_pending,
        r.actions@.len() == 3,
        r.actions@[0] is RecordConnectResult,
        tells(
            r.actions@[1],
            options.connect_request.target.network,
            ConnectionState::Connected,
            None,
        ),
        r.actions@[2] is SmeStatus,
{
    lemma_action_views(r);
}

/// A failed attempt is followed by another one for the same target, when fewer than four have
/// failed: after a wait that gets longer by 400 milliseconds each time, and a disconnect. Nobody is
/// told of it. The fourth failure ends the machine, and listeners are told last that the connection
/// has failed.
pub proof fn law_failed_attempts_are_repeated_three_times(
    options: ConnectingOptions,
    operation: SmeOperation,
    event: ConnectingEvent,
    r: Transition,
)
    requires
        call_ensures(
            handle_event,
            (State::Connecting(options, operation), Event::Connecting(event)),
            r,
        ),
        event == ConnectingEvent::<Vec<u8>>::ScanResult(None) || event == ConnectingEvent::<
            Vec<u8>,
        >::ConnectResult(Some(ConnectResultCode::Failed)) || event == ConnectingEvent::<
            Vec<u8>,
        >::ConnectResult(Some(ConnectResultCode::Canceled)) || event == ConnectingEvent::<
            Vec<u8>,
        >::ConnectResult(Some(ConnectResultCode::BadRequest)),
    ensures
        ({
            let recorded: int = if event is ScanResult {
                0
            } else {
                1
            };
            &&& event is ConnectResult ==> r.actions@[0] is RecordConnectResult
            &&& options.attempt_counter < 3 ==> {
                &&& r.actions@.len() == recorded + 2
                &&& r.actions@[recorded] == Action::<Vec<u8>>::Wait(
                    (400 * (options.attempt_counter + 1)) as i64,
                )
                &&& r.actions@[recorded + 1] == Action::<Vec<u8>>::SmeDisconnect(
                    DisconnectReason::FailedToConnect,
                )
                &&& r.next is Disconnecting
                &&& r.next->Disconnecting_0.reason is FailedToConnect
                &&& r.next->Disconnecting_0.disconnect_responder is None
                &&& r.next->Disconnecting_0.previous_network is None
                &&& r.next->Disconnecting_0.next_network matches Some(next)
                &&& next.attempt_counter == options.attempt_counter + 1
                &&& next.connect_responder is None
                &&& next.connect_request.reason is RetryAfterFailedConnectAttempt
                &&& same_target(next.connect_request.target, options.connect_request.target)
            }
            &&& options.attempt_counter >= 3 ==> {
                &&& r.actions@.len() == recorded + 1
                &&& tells(
                    r.actions@[recorded],
                    options.connect_request.target.network,
                    ConnectionState::Failed,
                    Some(DisconnectStatus::ConnectionFailed),
                )
                &&& r.next == State::<Vec<u8>>::Exited(
                    Err(ExitError::ExceededConnectionAttemptLimit),
                )
            }
        }),
{
    lemma_action_views(r);
}

/// Every outcome of an attempt is recorded first, with the network, the credentials and the access
/// point that it was made with, and with the kind of the scan that found the network.
pub proof fn law_outcomes_are_recorded(
    options: ConnectingOptions,
    bssid: Bssid,
    code: ConnectResultCode,
    r: Transition,
)
    requires
        call_ensures(
            handle_event,
            (
                State::Connecting(options, SmeOperation::Connect(bssid)),
                Event::Connecting(ConnectingEvent::ConnectResult(Some(code))),
            ),
            r,
        ),
    ensures
        r.actions@.len() > 0,
        r.actions@[0] matches Action::RecordConnectResult {
            network,
            credential,
            bssid: tried,
            code: outcome,
            scan_type,
        } && {
            &&& same_network(network, options.connect_request.target.network)
            &&& same_credential(credential, options.connect_request.target.credential)
            &&& tried == bssid
            &&& outcome == code
            &&& scan_type is None
                <==> options.connect_request.target.observed_in_passive_scan is None
            &&& scan_type == Some(ScanType::Passive)
                <==> options.connect_request.target.observed_in_passive_scan == Some(true)
            &&& scan_type == Some(ScanType::Active)
                <==> options.connect_request.target.observed_in_passive_scan == Some(false)
        },
        forall|i: int|
            0 < i < r.actions@.len() ==> !((#[trigger] r.actions@[i]) is RecordConnectResult),
{
    lemma_action_views(r);
}

/// An access point that has been found is connected to, with the name and the credentials of the
/// network that was asked for. The attempt stays as it was.
pub proof fn law_found_access_points_are_connected_to(
    options: ConnectingOptions,
    bss: BssDescription,
    multiple: bool,
    r: Transition,
)
    requires
        call_ensures(
            handle_event,
            (
                State::Connecting(options, SmeOperation::Scan),
                Event::Connecting(ConnectingEvent::ScanResult(Some((bss, multiple)))),
            ),
            r,
        ),
    ensures
        r.actions@.len() == 1,
        r.actions@[0] matches Action::SmeConnect(request) && {
            &&& request.ssid@ == options.connect_request.target.network.ssid@
            &&& same_bss(request.bss_desc, bss)
            &&& request.multiple_bss_candidates == multiple
            &&& same_credential(request.credential, options.connect_request.target.credential)
            &&& request.radio_cfg.phy is None
            &&& request.radio_cfg.cbw is None
            &&& request.radio_cfg.primary_chan is None
            &&& request.deprecated_scan_type is Active
        },
        r.next is Connecting,
        same_request(r.next->Connecting_0.connect_request, options.connect_request),
        r.next->Connecting_0.attempt_counter == options.attempt_counter,
        r.next->Connecting_0.connect_responder == options.connect_responder,
        r.next->Connecting_1 == SmeOperation::Connect(bss.bssid),
{
    lemma_action_views(r);
}

/// What cannot be gone on with ends the machine, each with its own error, and nothing is done about
/// it. When the interface is gone, the machine ends without an error, whatever its state.
pub proof fn law_what_cannot_go_on_ends(state: State, event: Event, r: Transition)
    requires
        call_ensures(handle_event, (state, event), r),
    ensures
        event is SmeRemoved ==> r.actions@.len() == 0 && r.next == State::<Vec<u8>>::Exited(Ok(())),
        state is Disconnecting && event == Event::<Vec<u8>>::Disconnect(false) ==> just_ends(
            r,
            ExitError::CommandFailed,
        ),
        state is Connecting && event is Connecting ==> {
            &&& event->Connecting_0 is CommandFailed ==> just_ends(r, ExitError::CommandFailed)
            &&& event->Connecting_0 == ConnectingEvent::<Vec<u8>>::ConnectResult(None)
                ==> just_ends(r, ExitError::ConnectFailed)
            &&& event->Connecting_0 is RequestsEnded ==> just_ends(r, ExitError::RequestsEnded)
        },
        state is Connected && event is Connected ==> {
            &&& event->Connected_0 is StatusFailed ==> just_ends(r, ExitError::StatusFailed)
            &&& event->Connected_0 is RequestsEnded ==> just_ends(r, ExitError::RequestsEnded)
        },
{
    lemma_action_views(r);
}

/// While connecting, a request for the same network is answered and changes nothing. Any other
/// request stops the attempt, of which listeners are told first, and is served after a disconnect.
pub proof fn law_requests_while_connecting(
    options: ConnectingOptions,
    operation: SmeOperation,
    request: ManualRequest,
    r: Transition,
)
    requires
        call_ensures(
            handle_event,
            (
                State::Connecting(options, operation),
                Event::Connecting(ConnectingEvent::Request(request)),
            ),
            r,
        ),
    ensures
        request is Connect && same_network(
            request->Connect_0.target.network,
            options.connect_request.target.network,
        ) ==> {
            &&& r.actions@.len() == 1
            &&& r.actions@[0] == Action::<Vec<u8>>::Respond(request->Connect_1)
            &&& r.next is Connecting
            &&& r.next->Connecting_1 == operation
            &&& same_request(r.next->Connecting_0.connect_request, options.connect_request)
            &&& r.next->Connecting_0.attempt_counter == options.attempt_counter
            &&& r.next->Connecting_0.connect_responder == options.connect_responder
        },
        request is Disconnect || !same_network(
            request->Connect_0.target.network,
            options.connect_request.target.network,
        ) ==> {
            &&& r.actions@.len() == 2
            &&& tells(
                r.actions@[0],
                options.connect_request.target.network,
                ConnectionState::Disconnected,
                Some(DisconnectStatus::ConnectionStopped),
            )
            &&& leaves_for(r, request)
            &&& r.next->Disconnecting_0.previous_network is None
        },
{
    lemma_action_views(r);
    if request is Connect && same_network(
        request->Connect_0.target.network,
        options.connect_request.target.network,
    ) {
        assert(request->Connect_0.target.network@ =~= options.connect_request.target.network@);
    }
}

/// Whether a disconnect is asked for last, so that `request` is served after it.
pub open spec fn leaves_for(r: Transition, request: ManualRequest) -> bool {
    &&& r.next is Disconnecting
    &&& r.actions@.len() > 0
    &&& r.actions@.last() == Action::<Vec<u8>>::SmeDisconnect(r.next->Disconnecting_0.reason)
    &&& match request {
        ManualRequest::Disconnect(reason, responder) => {
            &&& r.next->Disconnecting_0.reason == reason
            &&& r.next->Disconnecting_0.disconnect_responder == Some(responder)
            &&& r.next->Disconnecting_0.next_network is None
        },
        ManualRequest::Connect(connect_request, responder) => {
            &&& r.next->Disconnecting_0.disconnect_responder is None
            &&& connect_request.reason is ProactiveNetworkSwitch
                <==> r.next->Disconnecting_0.reason is ProactiveNetworkSwitch
            &&& connect_request.reason is FidlConnectRequest
                <==> r.next->Disconnecting_0.reason is FidlConnectRequest
            &&& !(connect_request.reason is ProactiveNetworkSwitch) && !(
            connect_request.reason is FidlConnectRequest) ==> r.next->Disconnecting_0.reason
                is Unknown
            &&& r.next->Disconnecting_0.next_network matches Some(next)
            &&& next.connect_responder == Some(responder)
            &&& next.attempt_counter == 0
            &&& same_request(next.connect_request, connect_request)
        },
    }
}

/// While connected, a request for the same network is answered and changes nothing. Any other
/// request is served after a disconnect, after which listeners will be told that the connection was
/// stopped.
pub proof fn law_requests_while_connected(
    currently_fulfilled_request: ConnectRequest,
    status_pending: bool,
    request: ManualRequest,
    r: Transition,
)
    requires
        call_ensures(
            handle_event,
            (
                State::Connected { currently_fulfilled_request, status_pending },
                Event::Connected(ConnectedEvent::Request(request)),
            ),
            r,
        ),
    ensures
        request is Connect && same_network(
            request->Connect_0.target.network,
            currently_fulfilled_request.target.network,
        ) ==> {
            &&& r.actions@.len() == 1
            &&& r.actions@[0] == Action::<Vec<u8>>::Respond(request->Connect_1)
            &&& r.next is Connected
            &&& r.next->Connected_status_pending == status_pending
            &&& same_request(
                r.next->Connected_currently_fulfilled_request,
                currently_fulfilled_request,
            )
        },
        request is Disconnect || !same_network(
            request->Connect_0.target.network,
            currently_fulfilled_request.target.network,
        ) ==> {
            &&& r.actions@.len() == 1
            &&& leaves_for(r, request)
            &&& r.next->Disconnecting_0.previous_network matches Some((network, status))
            &&& same_network(network, currently_fulfilled_request.target.network)
            &&& status is ConnectionStopped
        },
{
    lemma_action_views(r);
    if request is Connect && same_network(
        request->Connect_0.target.network,
        currently_fulfilled_request.target.network,
    ) {
        assert(request->Connect_0.target.network@ =~= currently_fulfilled_request.target.network@);
    }
}

/// What the driver says of the connection. While it is connected to the network, or connecting to it
/// again, the machine stays; in the latter case the disconnection is logged. Connected to another
/// network, the machine ends. Otherwise the connection has been lost: it is made again, after a
/// disconnect, to the same network with the same credentials, for which an access point is looked
/// for anew.
pub proof fn law_status_shows_lost_connections(
    currently_fulfilled_request: ConnectRequest,
    status_pending: bool,
    status: StatusResponse,
    r: Transition,
)
    requires
        call_ensures(
            handle_event,
            (
                State::Connected { currently_fulfilled_request, status_pending },
                Event::Connected(ConnectedEvent::Status(status)),
            ),
            r,
        ),
    ensures
        ({
            let target = currently_fulfilled_request.target;
            let connected = status.connected_to is Some && status.connected_to->0@
                == target.network.ssid@;
            let reconnecting = status.connected_to is None && status.connecting_to_ssid@
                == target.network.ssid@;
            &&& connected || reconnecting ==> {
                &&& r.next is Connected
                &&& !r.next->Connected_status_pending
                &&& same_request(
                    r.next->Connected_currently_fulfilled_request,
                    currently_fulfilled_request,
                )
            }
            &&& connected ==> r.actions@.len() == 0
            &&& reconnecting ==> {
                &&& r.actions@.len() == 1
                &&& r.actions@[0] == Action::<Vec<u8>>::LogDisconnection(
                    DisconnectReason::DisconnectDetectedFromSme,
                )
            }
            &&& status.connected_to is Some && !connected ==> just_ends(r, ExitError::SsidChanged)
            &&& status.connected_to is None && !reconnecting ==> {
                &&& r.actions@.len() == 1
                &&& r.actions@[0] == Action::<Vec<u8>>::SmeDisconnect(
                    DisconnectReason::DisconnectDetectedFromSme,
                )
                &&& r.next is Disconnecting
                &&& r.next->Disconnecting_0.reason is DisconnectDetectedFromSme
                &&& r.next->Disconnecting_0.disconnect_responder is None
                &&& r.next->Disconnecting_0.previous_network matches Some((network, lost))
                &&& same_network(network, target.network)
                &&& lost is ConnectionFailed
                &&& r.next->Disconnecting_0.next_network matches Some(next)
                &&& next.connect_responder is None
                &&& next.attempt_counter == 0
                &&& next.connect_request.reason is RetryAfterDisconnectDetected
                &&& same_network(next.connect_request.target.network, target.network)
                &&& same_credential(next.connect_request.target.credential, target.credential)
                &&& next.connect_request.target.bss is None
                &&& next.connect_request.target.observed_in_passive_scan is None
                &&& next.connect_request.target.multiple_bss_candidates
                    == target.multiple_bss_candidates
            }
        }),
{
    lemma_action_views(r);
}

/// The status is asked for when it is time, unless it has been asked for and has not come.
pub proof fn law_status_is_asked_for_once(
    currently_fulfilled_request: ConnectRequest,
    status_pending: bool,
    r: Transition,
)
    requires
        call_ensures(
            handle_event,
            (
                State::Connected { currently_fulfilled_request, status_pending },
                Event::Connected(ConnectedEvent::StatusTimer),
            ),
            r,
        ),
    ensures
        status_pending ==> r.actions@.len() == 0,
        !status_pending ==> r.actions@.len() == 1 && r.actions@[0] is SmeStatus,
        r.next is Connected,
        r.next->Connected_status_pending,
        same_request(
            r.next->Connected_currently_fulfilled_request,
            currently_fulfilled_request,
        ),
{
    lemma_action_views(r);
}

/// When the disconnect has been sent, who asked for it is told first, then listeners of the network
/// that has been left, and the disconnection is logged. Without another network to connect to, the
/// machine ends without an error.
pub proof fn law_disconnecting_tells_of_it(options: DisconnectingOptions, r: Transition)
    requires
        call_ensures(
            handle_event,
            (State::Disconnecting(options), Event::Disconnect(true)),
            r,
        ),
    ensures
        ({
            let told = count_of(options.disconnect_responder);
            let logged = told + count_of(options.previous_network);
            &&& r.actions@.len() > logged
            &&& options.disconnect_responder is Some ==> r.actions@[0] == Action::<
                Vec<u8>,
            >::Respond(options.disconnect_responder->0)
            &&& options.previous_network is Some ==> tells(
                r.actions@[told],
                (options.previous_network->0).0,
                ConnectionState::Disconnected,
                Some((options.previous_network->0).1),
            )
            &&& r.actions@[logged] == Action::<Vec<u8>>::LogDisconnection(options.reason)
            &&& options.next_network is None ==> r.actions@.len() == logged + 1 && r.next
                == State::<Vec<u8>>::Exited(Ok(()))
            &&& options.next_network is Some ==> begins_to_connect(
                r,
                logged + 1,
                options.next_network->0,
            )
        }),
{
    lemma_action_views(r);
}

/// Whether the actions from `from` on begin to connect as `options` says: listeners are told, unless
/// attempts have failed before; the attempt is logged; who asked is told; and an access point is
/// looked for, unless one came with the request.
pub open spec fn begins_to_connect(r: Transition, from: int, options: ConnectingOptions) -> bool {
    let target = options.connect_request.target;
    let logged = if options.attempt_counter == 0 {
        from + 1
    } else {
        from
    };
    let scanned = logged + 1 + count_of(options.connect_responder);
    &&& r.actions@.len() == scanned + 1
    &&& options.attempt_counter == 0 ==> tells(
        r.actions@[from],
        target.network,
        ConnectionState::Connecting,
        None,
    )
    &&& r.actions@[logged] == Action::<Vec<u8>>::LogConnectionAttempt(
        options.connect_request.reason,
    )
    &&& options.connect_responder is Some ==> r.actions@[logged + 1] == Action::<
        Vec<u8>,
    >::Respond(options.connect_responder->0)
    &&& r.actions@[scanned] matches Action::Scan(source)
    &&& match source {
        ScanSource::Known(bss, multiple) => {
            &&& target.bss is Some
            &&& same_bss(bss, target.bss->0)
            &&& multiple <==> target.multiple_bss_candidates != Some(false)
        },
        ScanSource::Search(network) => target.bss is None && same_network(network, target.network),
    }
    &&& r.next is Connecting
    &&& r.next->Connecting_1 is Scan
    &&& r.next->Connecting_0.connect_responder is None
    &&& r.next->Connecting_0.attempt_counter == options.attempt_counter
    &&& same_request(r.next->Connecting_0.connect_request, options.connect_request)
}

/// A machine starts with a disconnect, after which the request that it was given, if any, is served
/// for the first time.
pub proof fn law_serving_starts_with_a_disconnect(
    connect_request: Option<(ConnectRequest, Responder)>,
    r: Transition,
)
    requires
        call_ensures(serve, (connect_request,), r),
    ensures
        r.actions@.len() == 1,
        r.actions@[0] == Action::<Vec<u8>>::SmeDisconnect(DisconnectReason::Startup),
        r.next is Disconnecting,
        r.next->Disconnecting_0.reason is Startup,
        r.next->Disconnecting_0.disconnect_responder is None,
        r.next->Disconnecting_0.previous_network is None,
        r.next->Disconnecting_0.next_network is Some <==> connect_request is Some,
        connect_request is Some ==> {
            let next = r.next->Disconnecting_0.next_network->0;
            &&& next.attempt_counter == 0
            &&& next.connect_responder == Some((connect_request->0).1)
            &&& same_request(next.connect_request, (connect_request->0).0)
        },
{
    lemma_action_views(r);
}

/// A search finds an access point if and only if the candidate has one. It is taken to be one of
/// several, unless it is known to be the only one.
pub proof fn law_searches_find_what_candidates_have(
    candidate: Option<ConnectionCandidate>,
    r: Option<(BssDescription, bool)>,
)
    requires
        call_ensures(scan_result_of, (candidate,), r),
    ensures
        r is Some <==> candidate is Some && candidate->0.bss is Some,
        r is Some ==> same_bss((r->0).0, candidate->0.bss->0),
        r is Some ==> ((r->0).1 <==> candidate->0.multiple_bss_candidates != Some(false)),
{
}

/// Networks are the same if and only if both their names and their protection are.
pub proof fn law_networks_are_told_apart(a: NetworkIdentifier, b: NetworkIdentifier, r: bool)
    requires
        call_ensures(NetworkIdentifier::same_network, (&a, &b), r),
    ensures
        r <==> a.ssid@ == b.ssid@ && a.type_ == b.type_,
{
}

/// Byte strings are equal if and only if they have the same bytes in the same places.
pub proof fn law_bytes_are_compared(a: Vec<u8>, b: Vec<u8>, r: bool)
    requires
        call_ensures(bytes_equal, (&a, &b), r),
    ensures
        r <==> a@.len() == b@.len() && forall|i: int|
            0 <= i < a@.len() ==> #[trigger] a@[i] == b@[i],
{
    if a@.len() == b@.len() && forall|i: int| 0 <= i < a@.len() ==> #[trigger] a@[i] == b@[i] {
        assert(a@ =~= b@);
    }
}

/// A copy of a request, and of what it is made of, agrees with it in all that it says.
pub proof fn law_copies_are_alike(
    request: ConnectRequest,
    request_copy: ConnectRequest,
    target: ConnectionCandidate,
    target_copy: ConnectionCandidate,
    network: NetworkIdentifier,
    network_copy: NetworkIdentifier,
    credential: Credential,
    credential_copy: Credential,
    bss: BssDescription,
    bss_copy: BssDescription,
)
    ensures
        call_ensures(ConnectRequest::clone, (&request,), request_copy) ==> same_request(
            request,
            request_copy,
        ),
        call_ensures(ConnectionCandidate::clone, (&target,), target_copy) ==> same_target(
            target,
            target_copy,
        ),
        call_ensures(NetworkIdentifier::clone, (&network,), network_copy) ==> same_network(
            network,
            network_copy,
        ),
        call_ensures(Credential::clone, (&credential,), credential_copy) ==> same_credential(
            credential,
            credential_copy,
        ),
        call_ensures(BssDescription::clone, (&bss,), bss_copy) ==> same_bss(bss, bss_copy),
{
}

} // verus!
