//! The state machine that keeps a client interface connected.
//!
//! Each function takes a state and what has happened, and returns the state after it with the
//! actions to perform, in order, before anything else is looked at.

use crate::wlancfg::types::{
    bytes_equal, BssDescription, Bssid, ClientNetworkState, ConnectReason, ConnectRequest,
    ConnectResultCode, ConnectionCandidate, ConnectionState, Credential, DisconnectReason,
    DisconnectStatus, NetworkIdentifier, ScanType,
};
use vstd::multiset::Multiset;
use vstd::prelude::*;

verus! {

/// How often the status is asked for while connected. This poll is very cheap, so it can be done
/// frequently.
pub const SME_STATUS_INTERVAL_SEC: i64 = 1;

/// How many attempts are made to connect to a network.
pub const MAX_CONNECTION_ATTEMPTS: u8 = 4;

/// Identifies who waits to be told that a request is being served.
pub type Responder = u64;

/// A request from outside of the state machine.
#[derive(Debug)]
#[verifier::ext_equal]
pub enum ManualRequest<B = Vec<u8>> {
    Connect(ConnectRequest<B>, Responder),
    Disconnect(DisconnectReason, Responder),
}

#[derive(Debug)]
#[verifier::ext_equal]
pub struct ConnectingOptions<B = Vec<u8>> {
    pub connect_responder: Option<Responder>,
    pub connect_request: ConnectRequest<B>,
    /// Count of previous consecutive failed connection attempts to this same network.
    pub attempt_counter: u8,
}

#[derive(Debug)]
#[verifier::ext_equal]
pub struct DisconnectingOptions<B = Vec<u8>> {
    pub disconnect_responder: Option<Responder>,
    /// Information about the previously connected network, if there was one. Used to send out
    /// listener updates.
    pub previous_network: Option<(NetworkIdentifier<B>, DisconnectStatus)>,
    /// Configuration for the next network to connect to, after the disconnect is complete. If not
    /// present, the state machine will proceed to IDLE.
    pub next_network: Option<ConnectingOptions<B>>,
    pub reason: DisconnectReason,
}

/// What a connecting state machine waits for.
#[derive(Clone, Copy, Debug, PartialEq, Eq)]
pub enum SmeOperation {
    /// An access point of the network.
    Scan,
    /// The outcome of the attempt to connect to this access point.
    Connect(Bssid),
}

/// Why a state machine has ended, when nobody asked it to.
#[derive(Clone, Copy, Debug, PartialEq, Eq, Structural)]
pub enum ExitError {
    /// A command could not be sent.
    CommandFailed,
    ExceededConnectionAttemptLimit,
    BadCredentials,
    /// The outcome of the attempt to connect never came.
    ConnectFailed,
    StatusFailed,
    /// The currently connected SSID changed unexpectedly.
    SsidChanged,
    /// The stream of requests ended unexpectedly.
    RequestsEnded,
}

#[derive(Debug)]
#[verifier::ext_equal]
pub enum State<B = Vec<u8>> {
    /// A disconnect has been asked for.
    Disconnecting(DisconnectingOptions<B>),
    Connecting(ConnectingOptions<B>, SmeOperation),
    Connected {
        currently_fulfilled_request: ConnectRequest<B>,
        /// Whether the status has been asked for and has not come.
        status_pending: bool,
    },
    Exited(Result<(), ExitError>),
}

/// Where an access point comes from.
#[derive(Debug)]
#[verifier::ext_equal]
pub enum ScanSource<B = Vec<u8>> {
    /// It came with the request, along with whether there were others.
    Known(BssDescription<B>, bool),
    /// It has to be looked for.
    Search(NetworkIdentifier<B>),
}

#[derive(Debug)]
#[verifier::ext_equal]
pub struct SmeConnectRequest<B = Vec<u8>> {
    pub ssid: B,
    pub bss_desc: BssDescription<B>,
    pub multiple_bss_candidates: bool,
    pub credential: Credential<B>,
    pub radio_cfg: RadioConfig,
    pub deprecated_scan_type: ScanType,
}

/// How the radio is to be used, where that is not left open.
#[derive(Clone, Copy, Debug, PartialEq, Eq)]
pub struct RadioConfig {
    pub phy: Option<u32>,
    pub cbw: Option<u32>,
    pub primary_chan: Option<u8>,
}

#[derive(Debug)]
#[verifier::ext_equal]
pub enum Action<B = Vec<u8>> {
    SmeDisconnect(DisconnectReason),
    SmeConnect(SmeConnectRequest<B>),
    SmeStatus,
    Scan(ScanSource<B>),
    /// Tells who asked that the request is being served.
    Respond(Responder),
    NotifyListeners(ClientNetworkState<B>),
    LogConnectionAttempt(ConnectReason),
    LogDisconnection(DisconnectReason),
    RecordConnectResult {
        network: NetworkIdentifier<B>,
        credential: Credential<B>,
        bssid: Bssid,
        code: ConnectResultCode,
        scan_type: Option<ScanType>,
    },
    /// Waits for as many milliseconds.
    Wait(i64),
}

/// What can happen while connecting.
#[derive(Debug)]
#[verifier::ext_equal]
pub enum ConnectingEvent<B = Vec<u8>> {
    /// An access point, with whether there were others.
    ScanResult(Option<(BssDescription<B>, bool)>),
    /// The command to connect could not be sent.
    CommandFailed,
    /// The outcome of the attempt; `None` when it is not going to come.
    ConnectResult(Option<ConnectResultCode>),
    Request(ManualRequest<B>),
    RequestsEnded,
}

/// What the driver says about the connection.
#[derive(Debug)]
#[verifier::ext_equal]
pub struct StatusResponse<B = Vec<u8>> {
    /// The SSID of the network that there is a connection to.
    pub connected_to: Option<B>,
    pub connecting_to_ssid: B,
}

/// What can happen while connected.
#[derive(Debug)]
#[verifier::ext_equal]
pub enum ConnectedEvent<B = Vec<u8>> {
    Status(StatusResponse<B>),
    StatusFailed,
    StatusTimer,
    Request(ManualRequest<B>),
    RequestsEnded,
}

/// What can happen to a state machine.
#[derive(Debug)]
#[verifier::ext_equal]
pub enum Event<B = Vec<u8>> {
    /// The request to disconnect has been answered, or could not be sent.
    Disconnect(bool),
    Connecting(ConnectingEvent<B>),
    Connected(ConnectedEvent<B>),
    /// The interface is gone.
    SmeRemoved,
}

/// What is to be done, and the state after it.
#[derive(Debug)]
pub struct Transition {
    pub actions: Vec<Action>,
    pub next: State,
}

/// A [`Transition`] as a value.
#[verifier::ext_equal]
pub struct Step {
    pub actions: Seq<Action<Seq<u8>>>,
    pub next: State<Seq<u8>>,
}

impl View for ManualRequest {
    type V = ManualRequest<Seq<u8>>;

    open spec fn view(&self) -> ManualRequest<Seq<u8>> {
        match self {
            ManualRequest::Connect(request, responder) => ManualRequest::Connect(
                request@,
                *responder,
            ),
            ManualRequest::Disconnect(reason, responder) => ManualRequest::Disconnect(
                *reason,
                *responder,
            ),
        }
    }
}

impl View for ConnectingOptions {
    type V = ConnectingOptions<Seq<u8>>;

    open spec fn view(&self) -> ConnectingOptions<Seq<u8>> {
        ConnectingOptions {
            connect_responder: self.connect_responder,
            connect_request: self.connect_request@,
            attempt_counter: self.attempt_counter,
        }
    }
}

impl View for DisconnectingOptions {
    type V = DisconnectingOptions<Seq<u8>>;

    open spec fn view(&self) -> DisconnectingOptions<Seq<u8>> {
        DisconnectingOptions {
            disconnect_responder: self.disconnect_responder,
            previous_network: match self.previous_network {
                Some((network, status)) => Some((network@, status)),
                None => None,
            },
            next_network: match self.next_network {
                Some(options) => Some(options@),
                None => None,
            },
            reason: self.reason,
        }
    }
}

impl View for State {
    type V = State<Seq<u8>>;

    open spec fn view(&self) -> State<Seq<u8>> {
        match self {
            State::Disconnecting(options) => State::Disconnecting(options@),
            State::Connecting(options, operation) => State::Connecting(options@, *operation),
            State::Connected { currently_fulfilled_request, status_pending } => State::Connected {
                currently_fulfilled_request: currently_fulfilled_request@,
                status_pending: *status_pending,
            },
            State::Exited(reason) => State::Exited(*reason),
        }
    }
}

impl View for ScanSource {
    type V = ScanSource<Seq<u8>>;

    open spec fn view(&self) -> ScanSource<Seq<u8>> {
        match self {
            ScanSource::Known(bss, multiple) => ScanSource::Known(bss@, *multiple),
            ScanSource::Search(network) => ScanSource::Search(network@),
        }
    }
}

impl View for SmeConnectRequest {
    type V = SmeConnectRequest<Seq<u8>>;

    open spec fn view(&self) -> SmeConnectRequest<Seq<u8>> {
        SmeConnectRequest {
            ssid: self.ssid@,
            bss_desc: self.bss_desc@,
            multiple_bss_candidates: self.multiple_bss_candidates,
            credential: self.credential@,
            radio_cfg: self.radio_cfg,
            deprecated_scan_type: self.deprecated_scan_type,
        }
    }
}

impl View for Action {
    type V = Action<Seq<u8>>;

    open spec fn view(&self) -> Action<Seq<u8>> {
        match self {
            Action::SmeDisconnect(reason) => Action::SmeDisconnect(*reason),
            Action::SmeConnect(request) => Action::SmeConnect(request@),
            Action::SmeStatus => Action::SmeStatus,
            Action::Scan(source) => Action::Scan(source@),
            Action::Respond(responder) => Action::Respond(*responder),
            Action::NotifyListeners(state) => Action::NotifyListeners(state@),
            Action::LogConnectionAttempt(reason) => Action::LogConnectionAttempt(*reason),
            Action::LogDisconnection(reason) => Action::LogDisconnection(*reason),
            Action::RecordConnectResult { network, credential, bssid, code, scan_type } => {
                Action::RecordConnectResult {
                    network: network@,
                    credential: credential@,
                    bssid: *bssid,
                    code: *code,
                    scan_type: *scan_type,
                }
            },
            Action::Wait(millis) => Action::Wait(*millis),
        }
    }
}

impl View for ConnectingEvent {
    type V = ConnectingEvent<Seq<u8>>;

    open spec fn view(&self) -> ConnectingEvent<Seq<u8>> {
        match self {
            ConnectingEvent::ScanResult(Some((bss, multiple))) => ConnectingEvent::ScanResult(
                Some((bss@, *multiple)),
            ),
            ConnectingEvent::ScanResult(None) => ConnectingEvent::ScanResult(None),
            ConnectingEvent::CommandFailed => ConnectingEvent::CommandFailed,
            ConnectingEvent::ConnectResult(code) => ConnectingEvent::ConnectResult(*code),
            ConnectingEvent::Request(request) => ConnectingEvent::Request(request@),
            ConnectingEvent::RequestsEnded => ConnectingEvent::RequestsEnded,
        }
    }
}

impl View for StatusResponse {
    type V = StatusResponse<Seq<u8>>;

    open spec fn view(&self) -> StatusResponse<Seq<u8>> {
        StatusResponse {
            connected_to: match self.connected_to {
                Some(ssid) => Some(ssid@),
                None => None,
            },
            connecting_to_ssid: self.connecting_to_ssid@,
        }
    }
}

impl View for ConnectedEvent {
    type V = ConnectedEvent<Seq<u8>>;

    open spec fn view(&self) -> ConnectedEvent<Seq<u8>> {
        match self {
            ConnectedEvent::Status(response) => ConnectedEvent::Status(response@),
            ConnectedEvent::StatusFailed => ConnectedEvent::StatusFailed,
            ConnectedEvent::StatusTimer => ConnectedEvent::StatusTimer,
            ConnectedEvent::Request(request) => ConnectedEvent::Request(request@),
            ConnectedEvent::RequestsEnded => ConnectedEvent::RequestsEnded,
        }
    }
}

impl View for Event {
    type V = Event<Seq<u8>>;

    open spec fn view(&self) -> Event<Seq<u8>> {
        match self {
            Event::Disconnect(sent) => Event::Disconnect(*sent),
            Event::Connecting(event) => Event::Connecting(event@),
            Event::Connected(event) => Event::Connected(event@),
            Event::SmeRemoved => Event::SmeRemoved,
        }
    }
}

/// The views of the actions.
pub open spec fn views(actions: Seq<Action>) -> Seq<Action<Seq<u8>>> {
    actions.map_values(|action: Action| action@)
}

impl View for Transition {
    type V = Step;

    open spec fn view(&self) -> Step {
        Step { actions: views(self.actions@), next: self.next@ }
    }
}

impl Step {
    /// The step when `before` has been done first.
    pub open spec fn after(self, before: Seq<Action<Seq<u8>>>) -> Step {
        Step { actions: before + self.actions, ..self }
    }

    /// Nothing is done, and the state machine ends.
    pub open spec fn exit(reason: Result<(), ExitError>) -> Step {
        Step { actions: seq![], next: State::Exited(reason) }
    }
}

/// Tells listeners about a network.
pub open spec fn notify(
    id: NetworkIdentifier<Seq<u8>>,
    state: ConnectionState,
    status: Option<DisconnectStatus>,
) -> Action<Seq<u8>> {
    Action::NotifyListeners(ClientNetworkState { id, state, status })
}

/// Tells who waits, if anybody does.
pub open spec fn respond(responder: Option<Responder>) -> Seq<Action<Seq<u8>>> {
    match responder {
        Some(responder) => seq![Action::Respond(responder)],
        None => seq![],
    }
}

/// Where the access point for a request comes from. Where it is not known whether there are
/// others, it is taken that there are.
pub open spec fn scan_source(request: ConnectRequest<Seq<u8>>) -> ScanSource<Seq<u8>> {
    match request.target.bss {
        Some(bss) => ScanSource::Known(
            bss,
            match request.target.multiple_bss_candidates {
                Some(multiple) => multiple,
                None => true,
            },
        ),
        None => ScanSource::Search(request.target.network),
    }
}

/// Begins to disconnect.
pub open spec fn start_disconnecting(options: DisconnectingOptions<Seq<u8>>) -> Step {
    Step {
        actions: seq![Action::SmeDisconnect(options.reason)],
        next: State::Disconnecting(options),
    }
}

/// Begins to connect: listeners are told unless this is a retry, the attempt is logged, who asked
/// is told that it has been started, and an access point is sought.
pub open spec fn start_connecting(options: ConnectingOptions<Seq<u8>>) -> Step {
    let network = options.connect_request.target.network;
    Step {
        actions: (if options.attempt_counter == 0 {
            seq![notify(network, ConnectionState::Connecting, None)]
        } else {
            seq![]
        }) + seq![Action::LogConnectionAttempt(options.connect_request.reason)] + respond(
            options.connect_responder,
        ) + seq![Action::Scan(scan_source(options.connect_request))],
        next: State::Connecting(
            ConnectingOptions { connect_responder: None, ..options },
            SmeOperation::Scan,
        ),
    }
}

/// Enters the connected state: the status is asked for at once.
pub open spec fn start_connected(request: ConnectRequest<Seq<u8>>) -> Step {
    Step {
        actions: seq![Action::SmeStatus],
        next: State::Connected { currently_fulfilled_request: request, status_pending: true },
    }
}

/// Ends a connection that `options` describes: who asked is told, then listeners, and the
/// disconnection is logged. If there is a network to connect to, that is begun.
pub open spec fn finish_disconnecting(options: DisconnectingOptions<Seq<u8>>) -> Step {
    let next = match options.next_network {
        Some(next_network) => start_connecting(next_network),
        None => Step::exit(Ok(())),
    };
    next.after(
        respond(options.disconnect_responder) + (match options.previous_network {
            Some((network, status)) => seq![
                notify(network, ConnectionState::Disconnected, Some(status)),
            ],
            None => seq![],
        }) + seq![Action::LogDisconnection(options.reason)],
    )
}

/// How long to wait before the next attempt, in milliseconds.
pub open spec fn backoff_time(attempt_count: int) -> int {
    400 * attempt_count
}

/// Tries again after an attempt has failed, unless there have been too many.
pub open spec fn retry(options: ConnectingOptions<Seq<u8>>) -> Step {
    let attempt_count = options.attempt_counter + 1;
    if attempt_count >= MAX_CONNECTION_ATTEMPTS {
        Step::exit(Err(ExitError::ExceededConnectionAttemptLimit)).after(
            seq![
                notify(
                    options.connect_request.target.network,
                    ConnectionState::Failed,
                    Some(DisconnectStatus::ConnectionFailed),
                ),
            ],
        )
    } else {
        start_disconnecting(
            DisconnectingOptions {
                disconnect_responder: None,
                previous_network: None,
                next_network: Some(
                    ConnectingOptions {
                        connect_responder: None,
                        connect_request: ConnectRequest {
                            reason: ConnectReason::RetryAfterFailedConnectAttempt,
                            ..options.connect_request
                        },
                        attempt_counter: attempt_count as u8,
                    },
                ),
                reason: DisconnectReason::FailedToConnect,
            },
        ).after(seq![Action::Wait(backoff_time(attempt_count) as i64)])
    }
}

/// Why a connection is given up for another one.
pub open spec fn switch_reason(reason: ConnectReason) -> DisconnectReason {
    match reason {
        ConnectReason::ProactiveNetworkSwitch => DisconnectReason::ProactiveNetworkSwitch,
        ConnectReason::FidlConnectRequest => DisconnectReason::FidlConnectRequest,
        _ => DisconnectReason::Unknown,
    }
}

/// Serves a request that asks for something other than what is being done. `previous_network` is
/// what the disconnection is told of.
pub open spec fn change_course(
    request: ManualRequest<Seq<u8>>,
    previous_network: Option<(NetworkIdentifier<Seq<u8>>, DisconnectStatus)>,
) -> Step {
    match request {
        ManualRequest::Disconnect(reason, responder) => start_disconnecting(
            DisconnectingOptions {
                disconnect_responder: Some(responder),
                previous_network,
                next_network: None,
                reason,
            },
        ),
        ManualRequest::Connect(connect_request, responder) => start_disconnecting(
            DisconnectingOptions {
                disconnect_responder: None,
                previous_network,
                next_network: Some(
                    ConnectingOptions {
                        connect_responder: Some(responder),
                        connect_request,
                        attempt_counter: 0,
                    },
                ),
                reason: switch_reason(connect_request.reason),
            },
        ),
    }
}

/// Whether a request asks for a connection to `network`.
pub open spec fn asks_for(
    request: ManualRequest<Seq<u8>>,
    network: NetworkIdentifier<Seq<u8>>,
) -> bool {
    request matches ManualRequest::Connect(connect_request, _)
        && connect_request.target.network == network
}

/// Who waits for a request to be served.
pub open spec fn responder_of(request: ManualRequest<Seq<u8>>) -> Responder {
    match request {
        ManualRequest::Connect(_, responder) => responder,
        ManualRequest::Disconnect(_, responder) => responder,
    }
}

/// What the saved networks are told of an attempt to connect.
pub open spec fn record_result(
    target: ConnectionCandidate<Seq<u8>>,
    bssid: Bssid,
    code: ConnectResultCode,
) -> Action<Seq<u8>> {
    Action::RecordConnectResult {
        network: target.network,
        credential: target.credential,
        bssid,
        code,
        scan_type: match target.observed_in_passive_scan {
            Some(true) => Some(ScanType::Passive),
            Some(false) => Some(ScanType::Active),
            None => None,
        },
    }
}

/// What an event does to an attempt to connect.
pub open spec fn connecting_step(
    options: ConnectingOptions<Seq<u8>>,
    operation: SmeOperation,
    event: ConnectingEvent<Seq<u8>>,
) -> Step {
    let target = options.connect_request.target;
    match event {
        ConnectingEvent::ScanResult(None) => retry(options),
        ConnectingEvent::ScanResult(Some((bss, multiple))) => Step {
            actions: seq![
                Action::SmeConnect(
                    SmeConnectRequest {
                        ssid: target.network.ssid,
                        bss_desc: bss,
                        multiple_bss_candidates: multiple,
                        credential: target.credential,
                        radio_cfg: RadioConfig { phy: None, cbw: None, primary_chan: None },
                        deprecated_scan_type: ScanType::Active,
                    },
                ),
            ],
            next: State::Connecting(options, SmeOperation::Connect(bss.bssid)),
        },
        ConnectingEvent::CommandFailed => Step::exit(Err(ExitError::CommandFailed)),
        ConnectingEvent::ConnectResult(None) => Step::exit(Err(ExitError::ConnectFailed)),
        ConnectingEvent::ConnectResult(Some(code)) => connect_outcome(options, code).after(
            seq![record_result(target, operation->Connect_0, code)],
        ),
        ConnectingEvent::Request(request) => if asks_for(request, target.network) {
            Step {
                actions: respond(Some(responder_of(request))),
                next: State::Connecting(options, operation),
            }
        } else {
            change_course(request, None).after(
                seq![
                    notify(
                        target.network,
                        ConnectionState::Disconnected,
                        Some(DisconnectStatus::ConnectionStopped),
                    ),
                ],
            )
        },
        ConnectingEvent::RequestsEnded => Step::exit(Err(ExitError::RequestsEnded)),
    }
}

/// What the outcome of an attempt to connect leads to.
pub open spec fn connect_outcome(
    options: ConnectingOptions<Seq<u8>>,
    code: ConnectResultCode,
) -> Step {
    let network = options.connect_request.target.network;
    match code {
        ConnectResultCode::Success => start_connected(options.connect_request).after(
            seq![notify(network, ConnectionState::Connected, None)],
        ),
        ConnectResultCode::CredentialRejected => Step::exit(Err(ExitError::BadCredentials)).after(
            seq![
                notify(
                    network,
                    ConnectionState::Failed,
                    Some(DisconnectStatus::CredentialsFailed),
                ),
            ],
        ),
        _ => retry(options),
    }
}

/// Connects anew after the connection has been lost: the access point is forgotten, to force a new
/// scan.
pub open spec fn reconnect(request: ConnectRequest<Seq<u8>>) -> Step {
    start_disconnecting(
        DisconnectingOptions {
            disconnect_responder: None,
            previous_network: Some((request.target.network, DisconnectStatus::ConnectionFailed)),
            next_network: Some(
                ConnectingOptions {
                    connect_responder: None,
                    connect_request: ConnectRequest {
                        reason: ConnectReason::RetryAfterDisconnectDetected,
                        target: ConnectionCandidate {
                            bss: None,
                            observed_in_passive_scan: None,
                            ..request.target
                        },
                    },
                    attempt_counter: 0,
                },
            ),
            reason: DisconnectReason::DisconnectDetectedFromSme,
        },
    )
}

/// What an event does to a connection.
pub open spec fn connected_step(
    request: ConnectRequest<Seq<u8>>,
    status_pending: bool,
    event: ConnectedEvent<Seq<u8>>,
) -> Step {
    let network = request.target.network;
    let stay = |pending: bool|
        State::Connected { currently_fulfilled_request: request, status_pending: pending };
    match event {
        ConnectedEvent::Status(status) => match status.connected_to {
            Some(ssid) => if ssid == network.ssid {
                Step { actions: seq![], next: stay(false) }
            } else {
                Step::exit(Err(ExitError::SsidChanged))
            },
            None => if status.connecting_to_ssid == network.ssid {
                // The driver is already reconnecting.
                Step {
                    actions: seq![
                        Action::LogDisconnection(DisconnectReason::DisconnectDetectedFromSme),
                    ],
                    next: stay(false),
                }
            } else {
                reconnect(request)
            },
        },
        ConnectedEvent::StatusFailed => Step::exit(Err(ExitError::StatusFailed)),
        ConnectedEvent::StatusTimer => if status_pending {
            Step { actions: seq![], next: stay(true) }
        } else {
            Step { actions: seq![Action::SmeStatus], next: stay(true) }
        },
        ConnectedEvent::Request(new) => if asks_for(new, network) {
            Step { actions: respond(Some(responder_of(new))), next: stay(status_pending) }
        } else {
            change_course(new, Some((network, DisconnectStatus::ConnectionStopped)))
        },
        ConnectedEvent::RequestsEnded => Step::exit(Err(ExitError::RequestsEnded)),
    }
}

/// What the answer to a request to disconnect leads to. `sent` says whether it could be sent.
pub open spec fn disconnecting_step(options: DisconnectingOptions<Seq<u8>>, sent: bool) -> Step {
    if sent {
        finish_disconnecting(options)
    } else {
        Step::exit(Err(ExitError::CommandFailed))
    }
}

/// Whether an attempt to connect has failed in a way that another one may follow.
pub open spec fn is_failure<B>(event: ConnectingEvent<B>) -> bool {
    match event {
        ConnectingEvent::ScanResult(found) => found is None,
        ConnectingEvent::ConnectResult(Some(code)) => is_retried(code),
        _ => false,
    }
}

/// Whether an outcome is one after which another attempt to connect is made.
pub open spec fn is_retried(code: ConnectResultCode) -> bool {
    !(code is Success) && !(code is CredentialRejected)
}

/// Whether an event is one that can happen in a state.
pub open spec fn can_happen<B>(state: State<B>, event: Event<B>) -> bool {
    match (state, event) {
        (State::Exited(_), _) => false,
        (_, Event::SmeRemoved) => true,
        (State::Disconnecting(_), Event::Disconnect(_)) => true,
        (State::Connecting(options, operation), Event::Connecting(event)) => {
            &&& is_failure(event) ==> options.attempt_counter < u8::MAX
            &&& event is ScanResult ==> operation is Scan
            &&& event is ConnectResult ==> operation is Connect
        },
        (State::Connected { .. }, Event::Connected(_)) => true,
        _ => false,
    }
}

/// What an event does to a state machine. It ends, whatever its state, when the interface is gone.
pub open spec fn machine_step(state: State<Seq<u8>>, event: Event<Seq<u8>>) -> Step {
    match (state, event) {
        (State::Disconnecting(options), Event::Disconnect(sent)) => disconnecting_step(
            options,
            sent,
        ),
        (State::Connecting(options, operation), Event::Connecting(event)) => connecting_step(
            options,
            operation,
            event,
        ),
        (
            State::Connected { currently_fulfilled_request, status_pending },
            Event::Connected(event),
        ) => connected_step(currently_fulfilled_request, status_pending, event),
        _ => Step::exit(Ok(())),
    }
}

fn push(actions: &mut Vec<Action>, action: Action)
    ensures
        views(final(actions)@) == views(old(actions)@).push(action@),
{
    actions.push(action);
    assert(views(actions@) =~= views(old(actions)@).push(action@));
}

fn no_actions() -> (actions: Vec<Action>)
    ensures
        views(actions@) == Seq::<Action<Seq<u8>>>::empty(),
{
    let actions = Vec::new();
    assert(views(actions@) =~= Seq::empty());
    actions
}

// Tells listeners about a network.
fn send_listener_state_update(
    actions: &mut Vec<Action>,
    id: &NetworkIdentifier,
    state: ConnectionState,
    status: Option<DisconnectStatus>,
)
    ensures
        views(final(actions)@) == views(old(actions)@).push(notify(id@, state, status)),
{
    push(actions, Action::NotifyListeners(ClientNetworkState { id: id.clone(), state, status }));
}

fn send_response(actions: &mut Vec<Action>, responder: Option<Responder>)
    ensures
        views(final(actions)@) == views(old(actions)@) + respond(responder),
{
    match responder {
        Some(responder) => {
            push(actions, Action::Respond(responder));
        },
        None => {},
    }
    assert(views(actions@) =~= views(old(actions)@) + respond(responder));
}

// Ends the state machine after `actions`.
fn exit(actions: Vec<Action>, reason: Result<(), ExitError>) -> (r: Transition)
    ensures
        r@ == Step::exit(reason).after(views(actions@)),
{
    assert(Step::exit(reason).after(views(actions@)).actions =~= views(actions@));
    Transition { actions, next: State::Exited(reason) }
}

fn handle_none_request() -> (r: Transition)
    ensures
        r@ == Step::exit(Err(ExitError::RequestsEnded)),
{
    Transition { actions: no_actions(), next: State::Exited(Err(ExitError::RequestsEnded)) }
}

/// The state machine that starts by leaving whatever network the interface may be connected to,
/// and then serves the given request, if there is one.
pub fn serve(connect_request: Option<(ConnectRequest, Responder)>) -> (r: Transition)
    ensures
        r@ == start_disconnecting(
            (DisconnectingOptions {
                disconnect_responder: None,
                previous_network: None,
                next_network: match connect_request {
                    Some((request, responder)) => Some(
                        ConnectingOptions {
                            connect_responder: Some(responder),
                            connect_request: request@,
                            attempt_counter: 0,
                        },
                    ),
                    None => None,
                },
                reason: DisconnectReason::Startup,
            }),
        ),
        attempts_limited(r@.next),
{
    let next_network = match connect_request {
        Some((request, responder)) => Some(
            ConnectingOptions {
                connect_responder: Some(responder),
                connect_request: request,
                attempt_counter: 0,
            },
        ),
        None => None,
    };
    to_disconnecting_state(
        no_actions(),
        DisconnectingOptions {
            disconnect_responder: None,
            previous_network: None,
            next_network,
            reason: DisconnectReason::Startup,
        },
    )
}

/// Begins to disconnect, after `actions`.
pub fn to_disconnecting_state(actions: Vec<Action>, options: DisconnectingOptions) -> (r: Transition)
    ensures
        r@ == start_disconnecting(options@).after(views(actions@)),
        views(actions@).len() == 0 ==> r@ == start_disconnecting(options@),
{
    let ghost before = views(actions@);
    let mut actions = actions;
    push(&mut actions, Action::SmeDisconnect(options.reason));
    assert(views(actions@) =~= before + start_disconnecting(options@).actions);
    proof {
        if before.len() == 0 {
            assert(views(actions@) =~= start_disconnecting(options@).actions);
        }
    }
    Transition { actions, next: State::Disconnecting(options) }
}

/// Begins to connect, after `actions`.
pub fn to_connecting_state(actions: Vec<Action>, options: ConnectingOptions) -> (r: Transition)
    ensures
        r@ == start_connecting(options@).after(views(actions@)),
{
    let ghost before = views(actions@);
    let ghost given = options@;
    let mut actions = actions;
    // Send a "Connecting" update to listeners, unless this is a retry
    if options.attempt_counter == 0 {
        send_listener_state_update(
            &mut actions,
            &options.connect_request.target.network,
            ConnectionState::Connecting,
            None,
        );
    }
    // Log a connect attempt
    push(&mut actions, Action::LogConnectionAttempt(options.connect_request.reason));
    // Let the responder know we've successfully started this connection attempt
    send_response(&mut actions, options.connect_responder);
    // If detailed bss information was not provided, perform a scan to discover it
    let source = match &options.connect_request.target.bss {
        Some(bss) => ScanSource::Known(
            bss.clone(),
            match options.connect_request.target.multiple_bss_candidates {
                Some(multiple) => multiple,
                None => true,
            },
        ),
        None => ScanSource::Search(options.connect_request.target.network.clone()),
    };
    push(&mut actions, Action::Scan(source));
    assert(views(actions@) =~= before + start_connecting(given).actions);
    Transition {
        actions,
        next: State::Connecting(
            ConnectingOptions {
                connect_responder: None,
                connect_request: options.connect_request,
                attempt_counter: options.attempt_counter,
            },
            SmeOperation::Scan,
        ),
    }
}

/// Enters the connected state, after `actions`.
pub fn to_connected_state(actions: Vec<Action>, connect_request: ConnectRequest) -> (r: Transition)
    ensures
        r@ == start_connected(connect_request@).after(views(actions@)),
{
    let ghost before = views(actions@);
    let mut actions = actions;
    // Request status immediately upon entering the connected state.
    push(&mut actions, Action::SmeStatus);
    assert(views(actions@) =~= before + start_connected(connect_request@).actions);
    Transition {
        actions,
        next: State::Connected {
            currently_fulfilled_request: connect_request,
            status_pending: true,
        },
    }
}

/// The DISCONNECTING state requests an SME disconnect, then transitions to either:
/// - the CONNECTING state if options.next_network is present
/// - exit otherwise
///
/// `sent` says whether the request could be sent.
pub fn disconnecting_state(options: DisconnectingOptions, sent: bool) -> (r: Transition)
    ensures
        r@ == disconnecting_step(options@, sent),
{
    if !sent {
        return Transition {
            actions: no_actions(),
            next: State::Exited(Err(ExitError::CommandFailed)),
        };
    }
    let ghost given = options@;
    let mut actions = no_actions();
    // Notify the caller that disconnect was sent to the SME
    send_response(&mut actions, options.disconnect_responder);
    // Notify listeners of disconnection
    match &options.previous_network {
        Some((network_identifier, status)) => {
            send_listener_state_update(
                &mut actions,
                network_identifier,
                ConnectionState::Disconnected,
                Some(*status),
            );
        },
        None => {},
    }
    // Log a disconnect
    push(&mut actions, Action::LogDisconnection(options.reason));
    assert(views(actions@) =~= respond(given.disconnect_responder) + (
    match given.previous_network {
        Some((network, status)) => seq![
            notify(network, ConnectionState::Disconnected, Some(status)),
        ],
        None => seq![],
    }) + seq![Action::LogDisconnection(given.reason)]);
    // Transition to next state
    match options.next_network {
        Some(next_network) => to_connecting_state(actions, next_network),
        None => exit(actions, Ok(())),
    }
}

/// What the search for an access point of a network has found, with whether there were others.
pub fn scan_result_of(candidate: Option<ConnectionCandidate>) -> (r: Option<(BssDescription, bool)>)
    ensures
        match r {
            Some((bss, multiple)) => {
                &&& candidate is Some
                &&& candidate->0.bss == Some(bss)
                &&& multiple == match candidate->0.multiple_bss_candidates {
                    Some(multiple) => multiple,
                    None => true,
                }
            },
            None => candidate is None || candidate->0.bss is None,
        },
{
    match candidate {
        Some(candidate) => match candidate.bss {
            Some(bss) => Some(
                (
                    bss,
                    match candidate.multiple_bss_candidates {
                        Some(multiple) => multiple,
                        None => true,
                    },
                ),
            ),
            None => None,
        },
        None => None,
    }
}

/// Tries again after an attempt to connect has failed, after `actions`, unless the limit for
/// connection attempts to this network has been exceeded.
pub fn handle_connecting_error_and_retry(actions: Vec<Action>, options: ConnectingOptions) -> (r: Transition)
    requires
        options.attempt_counter < u8::MAX,
    ensures
        r@ == retry(options@).after(views(actions@)),
{
    let ghost before = views(actions@);
    let ghost given = options@;
    let mut actions = actions;
    let new_attempt_count: u8 = options.attempt_counter + 1;
    if new_attempt_count >= MAX_CONNECTION_ATTEMPTS {
        send_listener_state_update(
            &mut actions,
            &options.connect_request.target.network,
            ConnectionState::Failed,
            Some(DisconnectStatus::ConnectionFailed),
        );
        let r = exit(actions, Err(ExitError::ExceededConnectionAttemptLimit));
        assert(r@.actions =~= retry(given).after(before).actions);
        r
    } else {
        // Limit not exceeded, retry after backing off.
        let backoff: i64 = 400 * (new_attempt_count as i64);
        push(&mut actions, Action::Wait(backoff));
        let next_connecting_options = ConnectingOptions {
            connect_responder: None,
            connect_request: ConnectRequest {
                reason: ConnectReason::RetryAfterFailedConnectAttempt,
                target: options.connect_request.target,
            },
            attempt_counter: new_attempt_count,
        };
        let r = to_disconnecting_state(
            actions,
            DisconnectingOptions {
                disconnect_responder: None,
                previous_network: None,
                next_network: Some(next_connecting_options),
                reason: DisconnectReason::FailedToConnect,
            },
        );
        assert(r@.actions =~= retry(given).after(before).actions);
        r
    }
}

// Serves a request that asks for something other than what is being done, after `actions`.
fn handle_new_course(
    actions: Vec<Action>,
    request: ManualRequest,
    previous_network: Option<(NetworkIdentifier, DisconnectStatus)>,
) -> (r: Transition)
    ensures
        r@ == change_course(
            request@,
            match previous_network {
                Some((network, status)) => Some((network@, status)),
                None => None,
            },
        ).after(views(actions@)),
{
    match request {
        ManualRequest::Disconnect(reason, responder) => to_disconnecting_state(
            actions,
            DisconnectingOptions {
                disconnect_responder: Some(responder),
                previous_network,
                next_network: None,
                reason,
            },
        ),
        ManualRequest::Connect(connect_request, responder) => {
            let reason = match connect_request.reason {
                ConnectReason::ProactiveNetworkSwitch => DisconnectReason::ProactiveNetworkSwitch,
                ConnectReason::FidlConnectRequest => DisconnectReason::FidlConnectRequest,
                _ => DisconnectReason::Unknown,
            };
            to_disconnecting_state(
                actions,
                DisconnectingOptions {
                    disconnect_responder: None,
                    previous_network,
                    next_network: Some(
                        ConnectingOptions {
                            connect_responder: Some(responder),
                            connect_request,
                            attempt_counter: 0,
                        },
                    ),
                    reason,
                },
            )
        },
    }
}

// Who waits for the request, if it asks for a connection to `network`.
fn duplicate_of(request: &ManualRequest, network: &NetworkIdentifier) -> (r: Option<Responder>)
    ensures
        r == (if asks_for(request@, network@) {
            Some(responder_of(request@))
        } else {
            None
        }),
{
    match request {
        ManualRequest::Connect(new_connect_request, new_responder) => {
            if new_connect_request.target.network.same_network(network) {
                Some(*new_responder)
            } else {
                None
            }
        },
        ManualRequest::Disconnect(_, _) => None,
    }
}

/// The CONNECTING state checks for the required bss information in the connection request. If not
/// present, the state first requests an SME scan. For a failed scan, retry connection by passing a
/// next_network to the DISCONNECTING state, as long as there haven't been too many attempts.
/// Next, it requests an SME connect. It handles the SME connect response:
/// - for a successful connection, transition to CONNECTED state
/// - for a failed connection, retry connection by passing a next_network to the
///       DISCONNECTING state, as long as there haven't been too many connection attempts
/// During this time, incoming ManualRequests are also monitored for:
/// - duplicate connect requests are deduped
/// - different connect requests are serviced by passing a next_network to the DISCONNECTING state
/// - disconnect requests cause a transition to DISCONNECTING state
pub fn connecting_state(
    options: ConnectingOptions,
    operation: SmeOperation,
    event: ConnectingEvent,
) -> (r: Transition)
    requires
        is_failure(event) ==> options.attempt_counter < u8::MAX,
        event is ScanResult ==> operation is Scan,
        event is ConnectResult ==> operation is Connect,
    ensures
        r@ == connecting_step(options@, operation, event@),
{
    let ghost given = options@;
    let ghost happened = event@;
    match event {
        ConnectingEvent::ScanResult(None) => {
            let r = handle_connecting_error_and_retry(no_actions(), options);
            assert(r@.actions =~= retry(given).actions);
            r
        },
        ConnectingEvent::ScanResult(Some((bss_desc, multiple_bss_candidates))) => {
            let bssid = bss_desc.bssid;
            let mut actions = no_actions();
            // Send a connect request to the SME
            let request = SmeConnectRequest {
                ssid: options.connect_request.target.network.ssid.clone(),
                bss_desc,
                multiple_bss_candidates,
                credential: options.connect_request.target.credential.clone(),
                radio_cfg: RadioConfig { phy: None, cbw: None, primary_chan: None },
                deprecated_scan_type: ScanType::Active,
            };
            push(&mut actions, Action::SmeConnect(request));
            let r = Transition {
                actions,
                next: State::Connecting(options, SmeOperation::Connect(bssid)),
            };
            assert(r@.actions =~= connecting_step(given, operation, happened).actions);
            r
        },
        ConnectingEvent::CommandFailed => Transition {
            actions: no_actions(),
            next: State::Exited(Err(ExitError::CommandFailed)),
        },
        ConnectingEvent::ConnectResult(None) => Transition {
            actions: no_actions(),
            next: State::Exited(Err(ExitError::ConnectFailed)),
        },
        ConnectingEvent::ConnectResult(Some(code)) => {
            let bssid = match operation {
                SmeOperation::Connect(bssid) => bssid,
                SmeOperation::Scan => unreached(),
            };
            let r = handle_connect_result(options, bssid, code);
            assert(r@ == connecting_step(given, operation, happened));
            r
        },
        ConnectingEvent::Request(request) => {
            match duplicate_of(&request, &options.connect_request.target.network) {
                Some(new_responder) => {
                    let mut actions = no_actions();
                    send_response(&mut actions, Some(new_responder));
                    assert(views(actions@) =~= respond(Some(new_responder)));
                    Transition { actions, next: State::Connecting(options, operation) }
                },
                None => {
                    let mut actions = no_actions();
                    send_listener_state_update(
                        &mut actions,
                        &options.connect_request.target.network,
                        ConnectionState::Disconnected,
                        Some(DisconnectStatus::ConnectionStopped),
                    );
                    let r = handle_new_course(actions, request, None);
                    assert(r@.actions =~= connecting_step(given, operation, happened).actions);
                    r
                },
            }
        },
        ConnectingEvent::RequestsEnded => handle_none_request(),
    }
}

// Records the outcome of an attempt to connect, and acts on it.
fn handle_connect_result(
    options: ConnectingOptions,
    bssid: Bssid,
    code: ConnectResultCode,
) -> (r: Transition)
    requires
        is_retried(code) ==> options.attempt_counter < u8::MAX,
    ensures
        r@ == connect_outcome(options@, code).after(
            seq![record_result(options@.connect_request.target, bssid, code)],
        ),
{
    let ghost given = options@;
    let ghost record = seq![record_result(given.connect_request.target, bssid, code)];
    let mut actions = no_actions();
    // Notify the saved networks manager. observed_in_passive_scan will be false if network was
    // seen in active scan, or None if no scan was performed.
    let scan_type = match options.connect_request.target.observed_in_passive_scan {
        Some(observed_in_passive_scan) => if observed_in_passive_scan {
            Some(ScanType::Passive)
        } else {
            Some(ScanType::Active)
        },
        None => None,
    };
    push(
        &mut actions,
        Action::RecordConnectResult {
            network: options.connect_request.target.network.clone(),
            credential: options.connect_request.target.credential.clone(),
            bssid,
            code,
            scan_type,
        },
    );
    assert(views(actions@) =~= record);
    match code {
        ConnectResultCode::Success => {
            send_listener_state_update(
                &mut actions,
                &options.connect_request.target.network,
                ConnectionState::Connected,
                None,
            );
            let r = to_connected_state(actions, options.connect_request);
            assert(r@.actions =~= record + connect_outcome(given, code).actions);
            r
        },
        ConnectResultCode::CredentialRejected => {
            send_listener_state_update(
                &mut actions,
                &options.connect_request.target.network,
                ConnectionState::Failed,
                Some(DisconnectStatus::CredentialsFailed),
            );
            assert(views(actions@) =~= record + connect_outcome(given, code).actions);
            let r = exit(actions, Err(ExitError::BadCredentials));
            assert(r@.actions =~= record + connect_outcome(given, code).actions);
            r
        },
        _ => handle_connecting_error_and_retry(actions, options),
    }
}

/// The CONNECTED state monitors the SME status. It handles the SME status response:
/// - if still connected to the correct network, no action
/// - if disconnected, retry connection by passing a next_network to the
///       DISCONNECTING state
/// During this time, incoming ManualRequests are also monitored for:
/// - duplicate connect requests are deduped
/// - different connect requests are serviced by passing a next_network to the DISCONNECTING state
/// - disconnect requests cause a transition to DISCONNECTING state
pub fn connected_state(
    currently_fulfilled_request: ConnectRequest,
    status_pending: bool,
    event: ConnectedEvent,
) -> (r: Transition)
    ensures
        r@ == connected_step(currently_fulfilled_request@, status_pending, event@),
{
    let ghost given = currently_fulfilled_request@;
    let ghost happened = event@;
    let mut actions = no_actions();
    match event {
        ConnectedEvent::Status(status_response) => handle_status(
            currently_fulfilled_request,
            status_pending,
            status_response,
        ),
        ConnectedEvent::StatusFailed => Transition {
            actions,
            next: State::Exited(Err(ExitError::StatusFailed)),
        },
        ConnectedEvent::StatusTimer => {
            if !status_pending {
                push(&mut actions, Action::SmeStatus);
            }
            let r = Transition {
                actions,
                next: State::Connected { currently_fulfilled_request, status_pending: true },
            };
            assert(r@.actions =~= connected_step(given, status_pending, happened).actions);
            r
        },
        ConnectedEvent::Request(request) => {
            match duplicate_of(&request, &currently_fulfilled_request.target.network) {
                Some(new_responder) => {
                    send_response(&mut actions, Some(new_responder));
                    assert(views(actions@) =~= respond(Some(new_responder)));
                    Transition {
                        actions,
                        next: State::Connected { currently_fulfilled_request, status_pending },
                    }
                },
                None => {
                    let r = handle_new_course(
                        actions,
                        request,
                        Some(
                            (
                                currently_fulfilled_request.target.network,
                                DisconnectStatus::ConnectionStopped,
                            ),
                        ),
                    );
                    assert(r@.actions =~= connected_step(given, status_pending, happened).actions);
                    r
                },
            }
        },
        ConnectedEvent::RequestsEnded => handle_none_request(),
    }
}

// Checks if we're still connected to the network.
fn handle_status(
    currently_fulfilled_request: ConnectRequest,
    status_pending: bool,
    status_response: StatusResponse,
) -> (r: Transition)
    ensures
        r@ == connected_step(
            currently_fulfilled_request@,
            status_pending,
            ConnectedEvent::Status(status_response@),
        ),
{
    let ghost given = currently_fulfilled_request@;
    let mut actions = no_actions();
    match &status_response.connected_to {
        Some(ssid) => {
            if !bytes_equal(ssid, &currently_fulfilled_request.target.network.ssid) {
                return Transition {
                    actions,
                    next: State::Exited(Err(ExitError::SsidChanged)),
                };
            }
        },
        None => {
            // We're no longer connected to a network. When the SME layer detects a
            // Disassociation, it will automatically attempt a reconnection. We can check for that
            // scenario via the `connecting_to_ssid` field.
            if bytes_equal(
                &status_response.connecting_to_ssid,
                &currently_fulfilled_request.target.network.ssid,
            ) {
                push(
                    &mut actions,
                    Action::LogDisconnection(DisconnectReason::DisconnectDetectedFromSme),
                );
            } else {
                let network = currently_fulfilled_request.target.network.clone();
                let next_connecting_options = ConnectingOptions {
                    connect_responder: None,
                    connect_request: ConnectRequest {
                        reason: ConnectReason::RetryAfterDisconnectDetected,
                        target: ConnectionCandidate {
                            // strip out the bss info to force a new scan
                            bss: None,
                            observed_in_passive_scan: None,
                            network: currently_fulfilled_request.target.network,
                            credential: currently_fulfilled_request.target.credential,
                            multiple_bss_candidates:
                                currently_fulfilled_request.target.multiple_bss_candidates,
                        },
                    },
                    attempt_counter: 0,
                };
                let r = to_disconnecting_state(
                    actions,
                    DisconnectingOptions {
                        disconnect_responder: None,
                        previous_network: Some((network, DisconnectStatus::ConnectionFailed)),
                        next_network: Some(next_connecting_options),
                        reason: DisconnectReason::DisconnectDetectedFromSme,
                    },
                );
                return r;
            }
        },
    }
    let r = Transition {
        actions,
        next: State::Connected { currently_fulfilled_request, status_pending: false },
    };
    assert(r@.actions =~= connected_step(
        given,
        status_pending,
        ConnectedEvent::Status(status_response@),
    ).actions);
    r
}

/// Runs the state machine for one event.
pub fn handle_event(state: State, event: Event) -> (r: Transition)
    requires
        can_happen(state, event),
    ensures
        r@ == machine_step(state@, event@),
{
    match (state, event) {
        (State::Disconnecting(options), Event::Disconnect(sent)) => disconnecting_state(
            options,
            sent,
        ),
        (State::Connecting(options, operation), Event::Connecting(event)) => connecting_state(
            options,
            operation,
            event,
        ),
        (
            State::Connected { currently_fulfilled_request, status_pending },
            Event::Connected(event),
        ) => connected_state(currently_fulfilled_request, status_pending, event),
        _ => Transition { actions: no_actions(), next: State::Exited(Ok(())) },
    }
}

/// Whether fewer attempts than allowed have failed, wherever a state counts them.
pub open spec fn attempts_limited(state: State<Seq<u8>>) -> bool {
    match state {
        State::Disconnecting(options) => options.next_network matches Some(next)
            ==> next.attempt_counter < MAX_CONNECTION_ATTEMPTS,
        State::Connecting(options, _) => options.attempt_counter < MAX_CONNECTION_ATTEMPTS,
        _ => true,
    }
}

/// A state machine that has been started never counts as many failed attempts as are allowed.
pub proof fn law_attempts_are_limited(state: State<Seq<u8>>, event: Event<Seq<u8>>)
    requires
        can_happen(state, event),
        attempts_limited(state),
    ensures
        attempts_limited(machine_step(state, event).next),
{
}

/// An attempt that fails is followed by another one, after a wait that is longer each time, until
/// as many as allowed have failed. A retry does not make the next one start anew.
pub proof fn law_retries_count_up(options: ConnectingOptions<Seq<u8>>)
    requires
        options.attempt_counter < MAX_CONNECTION_ATTEMPTS,
    ensures
        options.attempt_counter + 1 == MAX_CONNECTION_ATTEMPTS ==> retry(options).next
            == State::<Seq<u8>>::Exited(Err(ExitError::ExceededConnectionAttemptLimit)),
        options.attempt_counter + 1 < MAX_CONNECTION_ATTEMPTS ==> {
            &&& retry(options).next matches State::Disconnecting(disconnecting)
            &&& disconnecting.next_network matches Some(next)
            &&& next.attempt_counter == options.attempt_counter + 1
            &&& next.connect_request.target == options.connect_request.target
            &&& retry(options).actions[0] == Action::<Seq<u8>>::Wait(
                (400 * (options.attempt_counter + 1)) as i64,
            )
        },
{
}

/// A request for the network that is being connected to, or is connected, is answered and changes
/// nothing else.
pub proof fn law_duplicate_requests_are_deduped(
    connecting: ConnectingOptions<Seq<u8>>,
    operation: SmeOperation,
    connected: ConnectRequest<Seq<u8>>,
    status_pending: bool,
    request: ConnectRequest<Seq<u8>>,
    responder: Responder,
)
    ensures
        request.target.network == connecting.connect_request.target.network ==> connecting_step(
            connecting,
            operation,
            ConnectingEvent::Request(ManualRequest::Connect(request, responder)),
        ) == (Step {
            actions: seq![Action::Respond(responder)],
            next: State::Connecting(connecting, operation),
        }),
        request.target.network == connected.target.network ==> connected_step(
            connected,
            status_pending,
            ConnectedEvent::Request(ManualRequest::Connect(request, responder)),
        ) == (Step {
            actions: seq![Action::Respond(responder)],
            next: State::Connected { currently_fulfilled_request: connected, status_pending },
        }),
{
}

/// A request to disconnect makes the state machine exit gracefully once the disconnect has been
/// sent, and who asked is told.
pub proof fn law_disconnect_request_ends_the_state_machine(
    connecting: ConnectingOptions<Seq<u8>>,
    operation: SmeOperation,
    connected: ConnectRequest<Seq<u8>>,
    status_pending: bool,
    reason: DisconnectReason,
    responder: Responder,
)
    ensures
        ({
            let request = ManualRequest::<Seq<u8>>::Disconnect(reason, responder);
            let from_connecting = connecting_step(
                connecting,
                operation,
                ConnectingEvent::Request(request),
            );
            let from_connected = connected_step(
                connected,
                status_pending,
                ConnectedEvent::Request(request),
            );
            &&& from_connecting.next matches State::Disconnecting(options)
                && ends_and_answers(finish_disconnecting(options), responder)
            &&& from_connected.next matches State::Disconnecting(options)
                && ends_and_answers(finish_disconnecting(options), responder)
        }),
{
    let request = ManualRequest::<Seq<u8>>::Disconnect(reason, responder);
    let a = connecting_step(connecting, operation, ConnectingEvent::Request(request));
    let b = connected_step(connected, status_pending, ConnectedEvent::Request(request));
    let (x, y) = (finish_disconnecting(a.next->Disconnecting_0), finish_disconnecting(
        b.next->Disconnecting_0,
    ));
    assert(x.actions[0] == Action::<Seq<u8>>::Respond(responder));
    assert(y.actions[0] == Action::<Seq<u8>>::Respond(responder));
}

/// Whether a step ends the state machine gracefully and tells `responder`.
pub open spec fn ends_and_answers(step: Step, responder: Responder) -> bool {
    &&& step.next == State::<Seq<u8>>::Exited(Ok(()))
    &&& step.actions.contains(Action::Respond(responder))
}

/// Those who are told by `actions`.
pub open spec fn answered(actions: Seq<Action<Seq<u8>>>) -> Multiset<Responder>
    decreases actions.len(),
{
    if actions.len() == 0 {
        Multiset::empty()
    } else {
        let before = answered(actions.drop_last());
        match actions.last() {
            Action::Respond(responder) => before.insert(responder),
            _ => before,
        }
    }
}

/// The one who waits, if anybody does.
pub open spec fn waiting(responder: Option<Responder>) -> Multiset<Responder> {
    match responder {
        Some(responder) => Multiset::singleton(responder),
        None => Multiset::empty(),
    }
}

/// Those who wait to be told in a state.
pub open spec fn held(state: State<Seq<u8>>) -> Multiset<Responder> {
    match state {
        State::Disconnecting(options) => waiting(options.disconnect_responder).add(
            match options.next_network {
                Some(next) => waiting(next.connect_responder),
                None => Multiset::empty(),
            },
        ),
        State::Connecting(options, _) => waiting(options.connect_responder),
        _ => Multiset::empty(),
    }
}

proof fn lemma_answered_append(a: Seq<Action<Seq<u8>>>, b: Seq<Action<Seq<u8>>>)
    ensures
        answered(a + b) == answered(a).add(answered(b)),
    decreases b.len(),
{
    if b.len() == 0 {
        assert(a + b =~= a);
        assert(answered(a).add(answered(b)) =~= answered(a));
    } else {
        lemma_answered_append(a, b.drop_last());
        assert((a + b).drop_last() =~= a + b.drop_last());
        assert(answered(a + b) =~= answered(a).add(answered(b)));
    }
}

proof fn lemma_answered_one(action: Action<Seq<u8>>)
    ensures
        answered(seq![action]) == match action {
            Action::Respond(responder) => Multiset::singleton(responder),
            _ => Multiset::empty(),
        },
{
    assert(seq![action].drop_last() =~= seq![]);
    assert(answered(seq![]) =~= Multiset::empty());
    assert(answered(seq![action]) =~= match action {
        Action::Respond(responder) => Multiset::singleton(responder),
        _ => Multiset::empty(),
    });
}

proof fn lemma_answered_respond(responder: Option<Responder>)
    ensures
        answered(respond(responder)) == waiting(responder),
{
    if let Some(r) = responder {
        lemma_answered_one(Action::Respond(r));
    }
}

proof fn lemma_start_disconnecting_answers_nobody(options: DisconnectingOptions<Seq<u8>>)
    ensures
        answered(start_disconnecting(options).actions) == Multiset::<Responder>::empty(),
{
    lemma_answered_one(Action::SmeDisconnect(options.reason));
}

proof fn lemma_start_connecting_answers(options: ConnectingOptions<Seq<u8>>)
    ensures
        answered(start_connecting(options).actions) == waiting(options.connect_responder),
{
    let network = options.connect_request.target.network;
    let a = if options.attempt_counter == 0 {
        seq![notify(network, ConnectionState::Connecting, None)]
    } else {
        seq![]
    };
    let b = seq![Action::<Seq<u8>>::LogConnectionAttempt(options.connect_request.reason)];
    let c = respond(options.connect_responder);
    let d = seq![Action::Scan(scan_source(options.connect_request))];
    lemma_answered_one(notify(network, ConnectionState::Connecting, None));
    lemma_answered_one(b[0]);
    lemma_answered_respond(options.connect_responder);
    lemma_answered_one(d[0]);
    lemma_answered_append(a, b);
    lemma_answered_append(a + b, c);
    lemma_answered_append(a + b + c, d);
    assert(answered(a) =~= Multiset::empty());
    assert(answered(start_connecting(options).actions) =~= waiting(options.connect_responder));
}

/// When a disconnect has been sent, those who wait for it and for the connection that follows it
/// are told once each.
pub proof fn law_disconnecting_answers_each_once(options: DisconnectingOptions<Seq<u8>>)
    ensures
        held(State::Disconnecting(options)) == held(finish_disconnecting(options).next).add(
            answered(finish_disconnecting(options).actions),
        ),
{
    let a = respond(options.disconnect_responder);
    let b = match options.previous_network {
        Some((network, status)) => seq![
            notify(network, ConnectionState::Disconnected, Some(status)),
        ],
        None => seq![],
    };
    let c = seq![Action::<Seq<u8>>::LogDisconnection(options.reason)];
    let step = finish_disconnecting(options);
    lemma_answered_respond(options.disconnect_responder);
    if let Some((network, status)) = options.previous_network {
        lemma_answered_one(notify(network, ConnectionState::Disconnected, Some(status)));
    }
    assert(answered(b) =~= Multiset::empty());
    lemma_answered_one(c[0]);
    lemma_answered_append(a, b);
    lemma_answered_append(a + b, c);
    match options.next_network {
        Some(next) => {
            lemma_start_connecting_answers(next);
            lemma_answered_append(a + b + c, start_connecting(next).actions);
        },
        None => {
            assert(step.actions =~= a + b + c);
        },
    }
    assert(held(State::Disconnecting(options)) =~= held(step.next).add(answered(step.actions)));
}

/// A request that comes while connecting is answered once: at once, or when it is served.
pub proof fn law_connecting_answers_each_once(
    options: ConnectingOptions<Seq<u8>>,
    operation: SmeOperation,
    request: ManualRequest<Seq<u8>>,
)
    requires
        options.connect_responder is None,
    ensures
        ({
            let step = connecting_step(options, operation, ConnectingEvent::Request(request));
            Multiset::singleton(responder_of(request)) == held(step.next).add(
                answered(step.actions),
            )
        }),
{
    let step = connecting_step(options, operation, ConnectingEvent::Request(request));
    let network = options.connect_request.target.network;
    if asks_for(request, network) {
        lemma_answered_respond(Some(responder_of(request)));
    } else {
        let stopped = notify(
            network,
            ConnectionState::Disconnected,
            Some(DisconnectStatus::ConnectionStopped),
        );
        let course = change_course(request, None);
        lemma_answered_one(stopped);
        lemma_start_disconnecting_answers_nobody(course.next->Disconnecting_0);
        lemma_answered_append(seq![stopped], course.actions);
    }
    assert(Multiset::singleton(responder_of(request)) =~= held(step.next).add(
        answered(step.actions),
    ));
}

/// A request that comes while connected is answered once: at once, or when it is served.
pub proof fn law_connected_answers_each_once(
    connected: ConnectRequest<Seq<u8>>,
    status_pending: bool,
    request: ManualRequest<Seq<u8>>,
)
    ensures
        ({
            let step = connected_step(connected, status_pending, ConnectedEvent::Request(request));
            Multiset::singleton(responder_of(request)) == held(step.next).add(
                answered(step.actions),
            )
        }),
{
    let step = connected_step(connected, status_pending, ConnectedEvent::Request(request));
    let network = connected.target.network;
    if asks_for(request, network) {
        lemma_answered_respond(Some(responder_of(request)));
    } else {
        let course = change_course(request, Some((network, DisconnectStatus::ConnectionStopped)));
        lemma_start_disconnecting_answers_nobody(course.next->Disconnecting_0);
    }
    assert(Multiset::singleton(responder_of(request)) =~= held(step.next).add(
        answered(step.actions),
    ));
}

/// Whether who asked for the connection that is being made has been told that it was started.
pub open spec fn started_is_told(state: State<Seq<u8>>) -> bool {
    state matches State::Connecting(options, _) ==> options.connect_responder is None
}

/// Who waits because of an event.
pub open spec fn arriving(event: Event<Seq<u8>>) -> Multiset<Responder> {
    match event {
        Event::Connecting(ConnectingEvent::Request(request)) => Multiset::singleton(
            responder_of(request),
        ),
        Event::Connected(ConnectedEvent::Request(request)) => Multiset::singleton(
            responder_of(request),
        ),
        _ => Multiset::empty(),
    }
}

// Where nothing is said to those who wait, nobody is told.
proof fn lemma_answers_nobody(actions: Seq<Action<Seq<u8>>>)
    requires
        forall|i: int| 0 <= i < actions.len() ==> !((#[trigger] actions[i]) is Respond),
    ensures
        answered(actions) == Multiset::<Responder>::empty(),
    decreases actions.len(),
{
    if actions.len() > 0 {
        assert(!(actions[actions.len() - 1] is Respond));
        lemma_answers_nobody(actions.drop_last());
    } else {
        assert(answered(actions) =~= Multiset::empty());
    }
}

/// Whatever happens, nobody is told who does not wait, nor more than once. Unless the state machine
/// ends, everybody who waits is told or goes on waiting; and so they are when it ends because a
/// disconnect was asked for.
pub proof fn law_everybody_is_told_once(state: State<Seq<u8>>, event: Event<Seq<u8>>)
    requires
        can_happen(state, event),
        started_is_told(state),
    ensures
        started_is_told(machine_step(state, event).next),
        answered(machine_step(state, event).actions).subset_of(held(state).add(arriving(event))),
        !(machine_step(state, event).next is Exited) || event == Event::<Seq<u8>>::Disconnect(true)
            ==> held(state).add(arriving(event)) == held(machine_step(state, event).next).add(
            answered(machine_step(state, event).actions),
        ),
{
    let step = machine_step(state, event);
    let before = held(state).add(arriving(event));
    match (state, event) {
        (State::Disconnecting(options), Event::Disconnect(true)) => {
            law_disconnecting_answers_each_once(options);
            assert(before =~= held(state));
        },
        (
            State::Connecting(options, operation),
            Event::Connecting(ConnectingEvent::Request(request)),
        ) => {
            law_connecting_answers_each_once(options, operation, request);
            assert(before =~= Multiset::singleton(responder_of(request)));
        },
        (
            State::Connected { currently_fulfilled_request, status_pending },
            Event::Connected(ConnectedEvent::Request(request)),
        ) => {
            law_connected_answers_each_once(currently_fulfilled_request, status_pending, request);
            assert(before =~= Multiset::singleton(responder_of(request)));
        },
        _ => {
            lemma_answers_nobody(step.actions);
            if !(step.next is Exited) {
                assert(before =~= Multiset::empty());
                assert(held(step.next) =~= Multiset::empty());
                assert(held(step.next).add(answered(step.actions)) =~= Multiset::empty());
            }
        },
    }
}

} // verus!
