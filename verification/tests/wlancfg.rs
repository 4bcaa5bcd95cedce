//! The client state machine against a scripted driver.

use fuchsia_logic::wlancfg::state_machine::{
    connected_state, connecting_state, disconnecting_state, handle_connecting_error_and_retry,
    handle_event, scan_result_of, serve, to_connected_state, to_connecting_state,
    to_disconnecting_state, Action, ConnectedEvent, ConnectingEvent, ConnectingOptions,
    DisconnectingOptions, Event, ExitError, ManualRequest, RadioConfig, Responder, ScanSource,
    SmeConnectRequest, SmeOperation, State, StatusResponse, Transition, MAX_CONNECTION_ATTEMPTS,
    SME_STATUS_INTERVAL_SEC,
};
use fuchsia_logic::wlancfg::types::{
    bytes_equal, BssDescription, Bssid, ClientNetworkState, ConnectReason, ConnectRequest,
    ConnectResultCode, ConnectionCandidate, ConnectionState, Credential, DisconnectReason,
    DisconnectStatus, NetworkIdentifier, ScanType, SecurityType,
};
use std::collections::VecDeque;
use std::fmt::Debug;

/// What the driver is asked.
#[derive(Debug)]
enum Sme {
    Disconnect(DisconnectReason),
    Connect(SmeConnectRequest),
    Status,
    Search(NetworkIdentifier),
}

#[derive(Debug, PartialEq)]
enum Metric {
    Attempt(ConnectReason),
    Disconnection(DisconnectReason),
}

struct Record {
    network: NetworkIdentifier,
    credential: Credential,
    bssid: Bssid,
    code: ConnectResultCode,
    scan_type: Option<ScanType>,
}

/// A state machine, and what it has done that nobody has looked at yet.
struct Machine {
    state: State,
    sme: VecDeque<Sme>,
    updates: VecDeque<ClientNetworkState>,
    metrics: VecDeque<Metric>,
    responses: VecDeque<Responder>,
    records: VecDeque<Record>,
    waits: VecDeque<i64>,
}

impl Machine {
    fn new(start: Transition) -> Machine {
        let mut machine = Machine {
            state: State::Exited(Ok(())),
            sme: VecDeque::new(),
            updates: VecDeque::new(),
            metrics: VecDeque::new(),
            responses: VecDeque::new(),
            records: VecDeque::new(),
            waits: VecDeque::new(),
        };
        machine.perform(start);
        machine
    }

    fn connecting(options: ConnectingOptions) -> Machine {
        Machine::new(to_connecting_state(vec![], options))
    }

    fn connected(request: ConnectRequest) -> Machine {
        Machine::new(to_connected_state(vec![], request))
    }

    fn perform(&mut self, transition: Transition) {
        self.state = transition.next;
        for action in transition.actions {
            match action {
                Action::SmeDisconnect(reason) => self.sme.push_back(Sme::Disconnect(reason)),
                Action::SmeConnect(request) => self.sme.push_back(Sme::Connect(request)),
                Action::SmeStatus => self.sme.push_back(Sme::Status),
                Action::Scan(ScanSource::Search(network)) => {
                    self.sme.push_back(Sme::Search(network))
                }
                // What is known already is found at once.
                Action::Scan(ScanSource::Known(bss, multiple)) => {
                    self.scan_found(Some((bss, multiple)))
                }
                Action::Respond(responder) => self.responses.push_back(responder),
                Action::NotifyListeners(update) => self.updates.push_back(update),
                Action::LogConnectionAttempt(reason) => {
                    self.metrics.push_back(Metric::Attempt(reason))
                }
                Action::LogDisconnection(reason) => {
                    self.metrics.push_back(Metric::Disconnection(reason))
                }
                Action::RecordConnectResult { network, credential, bssid, code, scan_type } => {
                    self.records.push_back(Record { network, credential, bssid, code, scan_type })
                }
                Action::Wait(millis) => self.waits.push_back(millis),
            }
        }
    }

    fn happen(&mut self, event: Event) {
        let state = std::mem::replace(&mut self.state, State::Exited(Ok(())));
        let transition = handle_event(state, event);
        self.perform(transition);
    }

    fn disconnect_answered(&mut self) {
        self.happen(Event::Disconnect(true));
    }

    fn scan_found(&mut self, result: Option<(BssDescription, bool)>) {
        self.happen(Event::Connecting(ConnectingEvent::ScanResult(result)));
    }

    fn connect_finished(&mut self, code: ConnectResultCode) {
        self.happen(Event::Connecting(ConnectingEvent::ConnectResult(Some(code))));
    }

    fn status(&mut self, connected_to: Option<&str>, connecting_to_ssid: &str) {
        self.happen(Event::Connected(ConnectedEvent::Status(StatusResponse {
            connected_to: connected_to.map(|ssid| ssid.as_bytes().to_vec()),
            connecting_to_ssid: connecting_to_ssid.as_bytes().to_vec(),
        })));
    }

    fn request(&mut self, request: ManualRequest) {
        let event = match self.state {
            State::Connecting(_, _) => Event::Connecting(ConnectingEvent::Request(request)),
            State::Connected { .. } => Event::Connected(ConnectedEvent::Request(request)),
            _ => panic!("requests are not looked at in {:?}", self.state),
        };
        self.happen(event);
    }

    fn expect_disconnect(&mut self, reason: DisconnectReason) {
        match self.sme.pop_front() {
            Some(Sme::Disconnect(actual)) => assert_eq!(actual, reason),
            other => panic!("expected a disconnect, got {:?}", other),
        }
    }

    fn expect_connect(&mut self) -> SmeConnectRequest {
        match self.sme.pop_front() {
            Some(Sme::Connect(request)) => request,
            other => panic!("expected a connect, got {:?}", other),
        }
    }

    fn expect_status(&mut self) {
        match self.sme.pop_front() {
            Some(Sme::Status) => (),
            other => panic!("expected a status request, got {:?}", other),
        }
    }

    fn expect_search(&mut self, ssid: &str, type_: SecurityType) {
        match self.sme.pop_front() {
            Some(Sme::Search(network)) => same(&network, &network_id(ssid, type_)),
            other => panic!("expected a scan, got {:?}", other),
        }
    }

    fn expect_update(
        &mut self,
        ssid: &str,
        type_: SecurityType,
        state: ConnectionState,
        status: Option<DisconnectStatus>,
    ) {
        let update = self.updates.pop_front().expect("no update");
        same(&update, &ClientNetworkState { id: network_id(ssid, type_), state, status });
    }

    fn expect_no_update(&mut self) {
        assert!(self.updates.is_empty());
    }

    fn expect_attempt(&mut self, reason: ConnectReason) {
        assert_eq!(self.metrics.pop_front(), Some(Metric::Attempt(reason)));
    }

    fn expect_disconnection(&mut self, reason: DisconnectReason) {
        assert_eq!(self.metrics.pop_front(), Some(Metric::Disconnection(reason)));
    }

    fn expect_no_metric(&mut self) {
        assert_eq!(self.metrics.pop_front(), None);
    }

    fn expect_response(&mut self, responder: Responder) {
        assert_eq!(self.responses.pop_front(), Some(responder));
    }

    fn expect_exit(&self, expected: Result<(), ExitError>) {
        match &self.state {
            State::Exited(reason) => assert_eq!(*reason, expected),
            other => panic!("expected an exit, got {:?}", other),
        }
    }
}

fn same<T: Debug>(a: &T, b: &T) {
    assert_eq!(format!("{:?}", a), format!("{:?}", b));
}

fn network_id(ssid: &str, type_: SecurityType) -> NetworkIdentifier {
    NetworkIdentifier { ssid: ssid.as_bytes().to_vec(), type_ }
}

fn password(text: &str) -> Credential {
    Credential::Password(text.as_bytes().to_vec())
}

fn bss(seed: u8) -> BssDescription {
    BssDescription { bssid: [seed, 1, 2, 3, 4, 5], description: vec![seed; 9] }
}

fn request(
    ssid: &str,
    type_: SecurityType,
    credential: Credential,
    bss: Option<BssDescription>,
    multiple: Option<bool>,
    reason: ConnectReason,
) -> ConnectRequest {
    ConnectRequest {
        target: ConnectionCandidate {
            network: network_id(ssid, type_),
            credential,
            observed_in_passive_scan: Some(true),
            bss,
            multiple_bss_candidates: multiple,
        },
        reason,
    }
}

fn attempt(responder: Responder, connect_request: ConnectRequest, counter: u8) -> ConnectingOptions {
    ConnectingOptions {
        connect_responder: Some(responder),
        connect_request,
        attempt_counter: counter,
    }
}

fn check_connect(
    actual: &SmeConnectRequest,
    request: &ConnectRequest,
    bss_desc: &BssDescription,
    multiple: bool,
) {
    assert_eq!(actual.ssid, request.target.network.ssid);
    same(&actual.credential, &request.target.credential);
    same(&actual.bss_desc, bss_desc);
    assert_eq!(actual.radio_cfg, RadioConfig { phy: None, cbw: None, primary_chan: None });
    assert_eq!(actual.deprecated_scan_type, ScanType::Active);
    assert_eq!(actual.multiple_bss_candidates, multiple);
}

#[test]
fn connecting_state_successfully_connects() {
    let connect_request = request(
        "bar",
        SecurityType::Wep,
        password("five0"),
        Some(bss(1)),
        Some(true),
        ConnectReason::FidlConnectRequest,
    );
    let mut machine = Machine::connecting(attempt(7, connect_request.clone(), 0));

    // A connect request is sent
    check_connect(&machine.expect_connect(), &connect_request, &bss(1), true);
    // The responder is acknowledged
    machine.expect_response(7);
    machine.expect_update("bar", SecurityType::Wep, ConnectionState::Connecting, None);
    machine.connect_finished(ConnectResultCode::Success);
    machine.expect_update("bar", SecurityType::Wep, ConnectionState::Connected, None);

    // The saved networks are told of the success
    let record = machine.records.pop_front().unwrap();
    same(&record.network, &network_id("bar", SecurityType::Wep));
    same(&record.credential, &password("five0"));
    assert_eq!(record.bssid, bss(1).bssid);
    assert_eq!(record.code, ConnectResultCode::Success);
    assert_eq!(record.scan_type, Some(ScanType::Passive));

    machine.expect_no_update();
    machine.expect_attempt(ConnectReason::FidlConnectRequest);
    machine.expect_status();
    assert!(matches!(machine.state, State::Connected { status_pending: true, .. }));
}

#[test]
fn connecting_state_successfully_scans_and_connects() {
    let mut connect_request = request(
        "bar",
        SecurityType::Wep,
        password("12345"),
        None,
        None,
        ConnectReason::FidlConnectRequest,
    );
    connect_request.target.observed_in_passive_scan = None;
    let mut machine = Machine::connecting(attempt(7, connect_request.clone(), 0));

    machine.expect_response(7);
    machine.expect_search("bar", SecurityType::Wep);
    machine.expect_update("bar", SecurityType::Wep, ConnectionState::Connecting, None);
    machine.scan_found(Some((bss(2), false)));
    check_connect(&machine.expect_connect(), &connect_request, &bss(2), false);
    machine.connect_finished(ConnectResultCode::Success);
    machine.expect_update("bar", SecurityType::Wep, ConnectionState::Connected, None);
    let record = machine.records.pop_front().unwrap();
    assert_eq!(record.bssid, bss(2).bssid);
    assert_eq!(record.code, ConnectResultCode::Success);
    // No scan was asked for before the request.
    assert_eq!(record.scan_type, None);
    machine.expect_no_update();
    machine.expect_attempt(ConnectReason::FidlConnectRequest);
}

fn connects_with(type_: SecurityType) {
    let mut connect_request = request(
        "bar",
        type_,
        password("Anything"),
        None,
        None,
        ConnectReason::FidlConnectRequest,
    );
    connect_request.target.observed_in_passive_scan = None;
    let mut machine = Machine::connecting(attempt(7, connect_request.clone(), 0));
    machine.expect_response(7);
    machine.expect_search("bar", type_);
    machine.expect_update("bar", type_, ConnectionState::Connecting, None);
    // The mixed network that the scan finds is selected
    machine.scan_found(Some((bss(3), false)));
    check_connect(&machine.expect_connect(), &connect_request, &bss(3), false);
    machine.connect_finished(ConnectResultCode::Success);
    machine.expect_update("bar", type_, ConnectionState::Connected, None);
    machine.expect_no_update();
}

#[test]
fn connecting_state_successfully_connects_wpa2wpa3() {
    connects_with(SecurityType::Wpa3);
    connects_with(SecurityType::Wpa2);
}

#[test]
fn connecting_state_fails_to_connect_and_retries() {
    let connect_request = request(
        "bar",
        SecurityType::Wpa2,
        Credential::Open,
        Some(bss(1)),
        Some(false),
        ConnectReason::FidlConnectRequest,
    );
    let mut machine = Machine::connecting(attempt(7, connect_request.clone(), 0));
    machine.expect_response(7);
    check_connect(&machine.expect_connect(), &connect_request, &bss(1), false);
    machine.expect_update("bar", SecurityType::Wpa2, ConnectionState::Connecting, None);
    machine.connect_finished(ConnectResultCode::Failed);

    // It backs off, then disconnects
    assert_eq!(machine.waits.pop_front(), Some(400));
    machine.expect_disconnect(DisconnectReason::FailedToConnect);
    machine.disconnect_answered();

    // A second attempt is made, of which listeners are not told
    check_connect(&machine.expect_connect(), &connect_request, &bss(1), false);
    machine.connect_finished(ConnectResultCode::Success);
    machine.expect_update("bar", SecurityType::Wpa2, ConnectionState::Connected, None);
    machine.expect_no_update();

    machine.expect_attempt(ConnectReason::FidlConnectRequest);
    machine.expect_disconnection(DisconnectReason::FailedToConnect);
    machine.expect_attempt(ConnectReason::RetryAfterFailedConnectAttempt);
}

#[test]
fn connecting_state_fails_to_scan_and_retries() {
    let mut connect_request = request(
        "bar",
        SecurityType::Wpa2,
        password("Anything"),
        None,
        None,
        ConnectReason::FidlConnectRequest,
    );
    connect_request.target.observed_in_passive_scan = None;
    let mut machine = Machine::connecting(attempt(7, connect_request.clone(), 0));
    machine.expect_response(7);
    machine.expect_search("bar", SecurityType::Wpa2);
    machine.scan_found(None);
    machine.expect_update("bar", SecurityType::Wpa2, ConnectionState::Connecting, None);

    assert_eq!(machine.waits.pop_front(), Some(400));
    machine.expect_disconnect(DisconnectReason::FailedToConnect);
    machine.disconnect_answered();

    machine.expect_search("bar", SecurityType::Wpa2);
    machine.scan_found(Some((bss(4), false)));
    check_connect(&machine.expect_connect(), &connect_request, &bss(4), false);
    machine.connect_finished(ConnectResultCode::Success);

    machine.expect_attempt(ConnectReason::FidlConnectRequest);
    machine.expect_disconnection(DisconnectReason::FailedToConnect);
    machine.expect_attempt(ConnectReason::RetryAfterFailedConnectAttempt);
}

#[test]
fn connecting_state_fails_to_connect_at_max_retries() {
    let connect_request = request(
        "bar",
        SecurityType::Unprotected,
        Credential::Open,
        Some(bss(1)),
        Some(true),
        ConnectReason::FidlConnectRequest,
    );
    let mut machine =
        Machine::connecting(attempt(7, connect_request.clone(), MAX_CONNECTION_ATTEMPTS - 1));
    machine.expect_response(7);
    check_connect(&machine.expect_connect(), &connect_request, &bss(1), true);
    machine.connect_finished(ConnectResultCode::Failed);

    machine.expect_exit(Err(ExitError::ExceededConnectionAttemptLimit));
    machine.expect_update(
        "bar",
        SecurityType::Unprotected,
        ConnectionState::Failed,
        Some(DisconnectStatus::ConnectionFailed),
    );
    assert_eq!(machine.records.pop_front().unwrap().code, ConnectResultCode::Failed);
    machine.expect_attempt(ConnectReason::FidlConnectRequest);
}

#[test]
fn connecting_state_fails_to_connect_with_bad_credentials() {
    let connect_request = request(
        "bar",
        SecurityType::Wpa2,
        password("password"),
        Some(bss(1)),
        Some(true),
        ConnectReason::ProactiveNetworkSwitch,
    );
    let mut machine =
        Machine::connecting(attempt(7, connect_request.clone(), MAX_CONNECTION_ATTEMPTS - 1));
    machine.expect_response(7);
    check_connect(&machine.expect_connect(), &connect_request, &bss(1), true);
    machine.connect_finished(ConnectResultCode::CredentialRejected);

    machine.expect_exit(Err(ExitError::BadCredentials));
    machine.expect_update(
        "bar",
        SecurityType::Wpa2,
        ConnectionState::Failed,
        Some(DisconnectStatus::CredentialsFailed),
    );
    assert_eq!(machine.records.pop_front().unwrap().code, ConnectResultCode::CredentialRejected);
    machine.expect_attempt(ConnectReason::ProactiveNetworkSwitch);
}

#[test]
fn connecting_state_gets_duplicate_connect_request() {
    let connect_request = request(
        "bar",
        SecurityType::Wpa2,
        Credential::Open,
        Some(bss(1)),
        Some(true),
        ConnectReason::RegulatoryChangeReconnect,
    );
    let mut machine = Machine::connecting(attempt(7, connect_request.clone(), 0));
    machine.expect_response(7);
    machine.expect_update("bar", SecurityType::Wpa2, ConnectionState::Connecting, None);

    // It is deduped regardless of the bss info and of the reason
    let mut duplicate_request = connect_request.clone();
    duplicate_request.target.bss = None;
    duplicate_request.reason = ConnectReason::ProactiveNetworkSwitch;
    machine.request(ManualRequest::Connect(duplicate_request, 8));
    machine.expect_response(8);

    check_connect(&machine.expect_connect(), &connect_request, &bss(1), true);
    machine.connect_finished(ConnectResultCode::Success);
    machine.expect_update("bar", SecurityType::Wpa2, ConnectionState::Connected, None);
    machine.expect_no_update();
    machine.expect_attempt(ConnectReason::RegulatoryChangeReconnect);
    machine.expect_no_metric();
}

#[test]
fn connecting_state_gets_different_connect_request() {
    let first = request(
        "foo",
        SecurityType::Wpa2,
        Credential::Open,
        Some(bss(1)),
        Some(true),
        ConnectReason::RegulatoryChangeReconnect,
    );
    let second = request(
        "bar",
        SecurityType::Wpa2,
        Credential::Open,
        Some(bss(2)),
        Some(false),
        ConnectReason::FidlConnectRequest,
    );
    let mut machine = Machine::connecting(attempt(7, first.clone(), 0));
    machine.expect_response(7);
    machine.expect_update("foo", SecurityType::Wpa2, ConnectionState::Connecting, None);

    machine.request(ManualRequest::Connect(second.clone(), 8));
    machine.expect_update(
        "foo",
        SecurityType::Wpa2,
        ConnectionState::Disconnected,
        Some(DisconnectStatus::ConnectionStopped),
    );

    check_connect(&machine.expect_connect(), &first, &bss(1), true);
    machine.expect_disconnect(DisconnectReason::FidlConnectRequest);
    machine.disconnect_answered();
    check_connect(&machine.expect_connect(), &second, &bss(2), false);
    machine.connect_finished(ConnectResultCode::Success);
    machine.expect_response(8);
    machine.expect_update("bar", SecurityType::Wpa2, ConnectionState::Connecting, None);
    machine.expect_update("bar", SecurityType::Wpa2, ConnectionState::Connected, None);
    machine.expect_no_update();

    machine.expect_attempt(ConnectReason::RegulatoryChangeReconnect);
    machine.expect_disconnection(DisconnectReason::FidlConnectRequest);
    machine.expect_attempt(ConnectReason::FidlConnectRequest);
}

#[test]
fn connecting_state_gets_disconnect_request() {
    let connect_request = request(
        "foo",
        SecurityType::Wpa2,
        Credential::Open,
        Some(bss(1)),
        Some(true),
        ConnectReason::RegulatoryChangeReconnect,
    );
    let mut machine = Machine::connecting(attempt(7, connect_request.clone(), 0));
    machine.expect_response(7);
    machine.expect_update("foo", SecurityType::Wpa2, ConnectionState::Connecting, None);

    machine.request(ManualRequest::Disconnect(DisconnectReason::NetworkUnsaved, 8));
    machine.expect_update(
        "foo",
        SecurityType::Wpa2,
        ConnectionState::Disconnected,
        Some(DisconnectStatus::ConnectionStopped),
    );
    check_connect(&machine.expect_connect(), &connect_request, &bss(1), true);
    machine.expect_disconnect(DisconnectReason::NetworkUnsaved);
    machine.disconnect_answered();
    machine.expect_exit(Ok(()));
    machine.expect_response(8);
    machine.expect_no_update();
    machine.expect_attempt(ConnectReason::RegulatoryChangeReconnect);
    machine.expect_disconnection(DisconnectReason::NetworkUnsaved);
}

#[test]
fn connecting_state_has_broken_sme() {
    let connect_request = request(
        "foo",
        SecurityType::Wpa2,
        Credential::Open,
        None,
        Some(true),
        ConnectReason::RegulatoryChangeReconnect,
    );
    let mut machine = Machine::connecting(attempt(7, connect_request, 0));
    machine.expect_response(7);
    // Nothing is found, and nothing can be sent
    machine.scan_found(None);
    machine.happen(Event::Disconnect(false));
    machine.expect_exit(Err(ExitError::CommandFailed));
}

#[test]
fn connected_state_gets_disconnect_request() {
    let connect_request = request(
        "test",
        SecurityType::Wpa2,
        Credential::Open,
        Some(bss(1)),
        Some(true),
        ConnectReason::RegulatoryChangeReconnect,
    );
    let mut machine = Machine::connected(connect_request);
    machine.expect_status();
    machine.status(Some("test"), "");

    machine.request(ManualRequest::Disconnect(
        DisconnectReason::FidlStopClientConnectionsRequest,
        8,
    ));
    machine.expect_disconnect(DisconnectReason::FidlStopClientConnectionsRequest);
    machine.disconnect_answered();
    machine.expect_exit(Ok(()));
    machine.expect_update(
        "test",
        SecurityType::Wpa2,
        ConnectionState::Disconnected,
        Some(DisconnectStatus::ConnectionStopped),
    );
    machine.expect_response(8);
    machine.expect_disconnection(DisconnectReason::FidlStopClientConnectionsRequest);
}

#[test]
fn connected_state_gets_duplicate_connect_request() {
    let connect_request = request(
        "test",
        SecurityType::Wpa2,
        Credential::Open,
        Some(bss(1)),
        Some(true),
        ConnectReason::RegulatoryChangeReconnect,
    );
    let mut machine = Machine::connected(connect_request.clone());
    machine.expect_status();
    machine.status(Some("test"), "");

    machine.request(ManualRequest::Connect(connect_request, 8));
    // Nothing is sent for it
    assert!(machine.sme.is_empty());
    machine.expect_response(8);
    machine.expect_no_update();
    machine.expect_no_metric();
}

#[test]
fn connected_state_gets_different_connect_request() {
    let first = request(
        "foo",
        SecurityType::Wpa2,
        Credential::Open,
        Some(bss(1)),
        Some(true),
        ConnectReason::IdleInterfaceAutoconnect,
    );
    let second = request(
        "bar",
        SecurityType::Wpa2,
        Credential::Open,
        Some(bss(2)),
        Some(true),
        ConnectReason::ProactiveNetworkSwitch,
    );
    let mut machine = Machine::connected(first);
    machine.expect_status();
    machine.status(Some("foo"), "");

    machine.request(ManualRequest::Connect(second.clone(), 8));
    machine.expect_disconnect(DisconnectReason::ProactiveNetworkSwitch);
    machine.disconnect_answered();
    machine.expect_update(
        "foo",
        SecurityType::Wpa2,
        ConnectionState::Disconnected,
        Some(DisconnectStatus::ConnectionStopped),
    );
    check_connect(&machine.expect_connect(), &second, &bss(2), true);
    machine.expect_response(8);
    machine.expect_update("bar", SecurityType::Wpa2, ConnectionState::Connecting, None);
    machine.connect_finished(ConnectResultCode::Success);
    machine.expect_update("bar", SecurityType::Wpa2, ConnectionState::Connected, None);
    machine.expect_no_update();
    machine.expect_disconnection(DisconnectReason::ProactiveNetworkSwitch);
    machine.expect_attempt(ConnectReason::ProactiveNetworkSwitch);
}

#[test]
fn connected_state_detects_network_disconnect() {
    let connect_request = request(
        "foo",
        SecurityType::Wpa2,
        password("Anything"),
        Some(bss(1)),
        Some(true),
        ConnectReason::RegulatoryChangeReconnect,
    );
    let mut machine = Machine::connected(connect_request.clone());
    machine.expect_status();
    machine.status(None, "");

    machine.expect_disconnect(DisconnectReason::DisconnectDetectedFromSme);
    machine.disconnect_answered();
    machine.expect_update(
        "foo",
        SecurityType::Wpa2,
        ConnectionState::Disconnected,
        Some(DisconnectStatus::ConnectionFailed),
    );
    // A scan finds a new BSS to reconnect with
    machine.expect_search("foo", SecurityType::Wpa2);
    machine.scan_found(Some((bss(9), false)));
    check_connect(&machine.expect_connect(), &connect_request, &bss(9), false);
    machine.connect_finished(ConnectResultCode::Success);
    machine.expect_update("foo", SecurityType::Wpa2, ConnectionState::Connecting, None);
    machine.expect_disconnection(DisconnectReason::DisconnectDetectedFromSme);
    machine.expect_attempt(ConnectReason::RetryAfterDisconnectDetected);
}

#[test]
fn connected_state_detects_sme_reconnect() {
    let connect_request = request(
        "foo",
        SecurityType::Wpa2,
        Credential::Open,
        Some(bss(1)),
        Some(true),
        ConnectReason::IdleInterfaceAutoconnect,
    );
    let mut machine = Machine::connected(connect_request);
    machine.expect_status();
    machine.status(None, "foo");
    machine.happen(Event::Connected(ConnectedEvent::StatusTimer));
    machine.expect_status();
    machine.status(Some("foo"), "");
    machine.happen(Event::Connected(ConnectedEvent::StatusTimer));
    machine.expect_status();
    machine.expect_no_update();
    machine.expect_disconnection(DisconnectReason::DisconnectDetectedFromSme);
    machine.expect_no_metric();
}

#[test]
fn disconnecting_state_completes_and_exits() {
    let mut machine = Machine::new(to_disconnecting_state(
        vec![],
        DisconnectingOptions {
            disconnect_responder: Some(7),
            previous_network: None,
            next_network: None,
            reason: DisconnectReason::RegulatoryRegionChange,
        },
    ));
    machine.expect_disconnect(DisconnectReason::RegulatoryRegionChange);
    machine.disconnect_answered();
    machine.expect_exit(Ok(()));
    machine.expect_response(7);
    machine.expect_disconnection(DisconnectReason::RegulatoryRegionChange);
}

#[test]
fn disconnecting_state_completes_disconnect_to_connecting() {
    let connect_request = request(
        "bar",
        SecurityType::Wpa2,
        Credential::Open,
        Some(bss(1)),
        Some(true),
        ConnectReason::ProactiveNetworkSwitch,
    );
    let mut machine = Machine::new(to_disconnecting_state(
        vec![],
        DisconnectingOptions {
            disconnect_responder: Some(8),
            previous_network: Some((
                network_id("foo", SecurityType::Wpa2),
                DisconnectStatus::ConnectionStopped,
            )),
            next_network: Some(attempt(7, connect_request.clone(), 0)),
            reason: DisconnectReason::ProactiveNetworkSwitch,
        },
    ));
    machine.expect_disconnect(DisconnectReason::ProactiveNetworkSwitch);
    machine.disconnect_answered();
    machine.expect_update(
        "foo",
        SecurityType::Wpa2,
        ConnectionState::Disconnected,
        Some(DisconnectStatus::ConnectionStopped),
    );
    machine.expect_response(8);
    check_connect(&machine.expect_connect(), &connect_request, &bss(1), true);
    machine.expect_disconnection(DisconnectReason::ProactiveNetworkSwitch);
    machine.expect_attempt(ConnectReason::ProactiveNetworkSwitch);
}

#[test]
fn disconnecting_state_has_broken_sme() {
    let mut machine = Machine::new(to_disconnecting_state(
        vec![],
        DisconnectingOptions {
            disconnect_responder: Some(7),
            previous_network: None,
            next_network: None,
            reason: DisconnectReason::NetworkConfigUpdated,
        },
    ));
    machine.happen(Event::Disconnect(false));
    machine.expect_exit(Err(ExitError::CommandFailed));
    // The responder is never told
    assert!(machine.responses.is_empty());
}

fn no_password(bss: Option<BssDescription>, reason: ConnectReason) -> ConnectRequest {
    request("no_password", SecurityType::Unprotected, Credential::Open, bss, Some(true), reason)
}

#[test]
fn serve_loop_handles_startup() {
    let connect_request = no_password(None, ConnectReason::IdleInterfaceAutoconnect);
    let mut machine = Machine::new(serve(Some((connect_request, 7))));
    machine.expect_disconnect(DisconnectReason::Startup);
    machine.disconnect_answered();
    assert!(!matches!(machine.state, State::Exited(_)));
    machine.expect_disconnection(DisconnectReason::Startup);
}

#[test]
fn serve_loop_handles_sme_disappearance() {
    let connect_request = no_password(None, ConnectReason::FidlConnectRequest);
    let mut machine = Machine::new(serve(Some((connect_request, 7))));
    machine.expect_disconnect(DisconnectReason::Startup);
    machine.disconnect_answered();
    assert!(!matches!(machine.state, State::Exited(_)));
    machine.sme.clear();
    machine.happen(Event::SmeRemoved);
    assert!(machine.sme.is_empty());
    machine.expect_exit(Ok(()));
}

#[test]
fn serve_loop_handles_disconnect() {
    let connect_request = no_password(Some(bss(1)), ConnectReason::RegulatoryChangeReconnect);
    let mut machine = Machine::new(serve(Some((connect_request, 7))));
    machine.expect_disconnect(DisconnectReason::Startup);
    machine.disconnect_answered();
    machine.expect_response(7);
    machine.expect_connect();
    machine.connect_finished(ConnectResultCode::Success);
    machine.expect_status();
    machine.status(Some("no_password"), "");

    machine.request(ManualRequest::Disconnect(DisconnectReason::NetworkConfigUpdated, 8));
    machine.expect_disconnect(DisconnectReason::NetworkConfigUpdated);
    machine.disconnect_answered();
    machine.expect_exit(Ok(()));
    machine.expect_response(8);
    machine.expect_disconnection(DisconnectReason::Startup);
    machine.expect_attempt(ConnectReason::RegulatoryChangeReconnect);
    machine.expect_disconnection(DisconnectReason::NetworkConfigUpdated);
}

#[test]
fn serve_loop_handles_state_machine_error() {
    let connect_request = no_password(None, ConnectReason::FidlConnectRequest);
    let mut machine = Machine::new(serve(Some((connect_request, 7))));
    machine.happen(Event::Disconnect(false));
    machine.expect_exit(Err(ExitError::CommandFailed));
}

#[test]
fn serve_without_a_request_exits() {
    let mut machine = Machine::new(serve(None));
    machine.expect_disconnect(DisconnectReason::Startup);
    machine.disconnect_answered();
    machine.expect_exit(Ok(()));
    machine.expect_no_update();
    machine.expect_disconnection(DisconnectReason::Startup);
    machine.expect_no_metric();
}

#[test]
fn attempts_are_limited_and_back_off() {
    let connect_request = no_password(Some(bss(1)), ConnectReason::FidlConnectRequest);
    let mut machine = Machine::new(serve(Some((connect_request, 7))));
    machine.disconnect_answered();
    for i in 1..MAX_CONNECTION_ATTEMPTS {
        machine.connect_finished(ConnectResultCode::Failed);
        assert_eq!(machine.waits.pop_front(), Some(400 * i64::from(i)));
        machine.disconnect_answered();
    }
    machine.connect_finished(ConnectResultCode::Failed);
    machine.expect_exit(Err(ExitError::ExceededConnectionAttemptLimit));
    assert_eq!(machine.records.len(), 4);
    assert!(machine.waits.is_empty());
    // One who asked is told once
    machine.expect_response(7);
    assert!(machine.responses.is_empty());
}

#[test]
fn every_other_failure_is_retried() {
    for code in [ConnectResultCode::Canceled, ConnectResultCode::BadRequest] {
        let request = no_password(Some(bss(1)), ConnectReason::FidlConnectRequest);
        let mut machine = Machine::connecting(attempt(7, request, 2));
        machine.expect_connect();
        machine.connect_finished(code);
        assert_eq!(machine.waits.pop_front(), Some(1200));
        machine.expect_disconnect(DisconnectReason::FailedToConnect);
    }
}

#[test]
fn retry_keeps_the_actions_before_it() {
    let request = no_password(Some(bss(1)), ConnectReason::FidlConnectRequest);
    let transition =
        handle_connecting_error_and_retry(vec![Action::Respond(3)], attempt(7, request, 0));
    assert_eq!(
        format!("{:?}", transition.actions),
        "[Respond(3), Wait(400), SmeDisconnect(FailedToConnect)]"
    );
    match transition.next {
        State::Disconnecting(options) => {
            let next = options.next_network.unwrap();
            assert_eq!(next.attempt_counter, 1);
            assert_eq!(next.connect_responder, None);
            assert_eq!(
                next.connect_request.reason,
                ConnectReason::RetryAfterFailedConnectAttempt
            );
        }
        other => panic!("unexpected {:?}", other),
    }
}

#[test]
fn unexpected_switch_reason_is_unknown() {
    let mut machine = Machine::connected(no_password(None, ConnectReason::FidlConnectRequest));
    machine.expect_status();
    let other = request(
        "other",
        SecurityType::Wpa3,
        password("x"),
        None,
        None,
        ConnectReason::IdleInterfaceAutoconnect,
    );
    machine.request(ManualRequest::Connect(other, 9));
    machine.expect_disconnect(DisconnectReason::Unknown);
}

#[test]
fn another_reason_makes_no_other_request() {
    let connect_request = no_password(Some(bss(1)), ConnectReason::IdleInterfaceAutoconnect);
    let mut machine = Machine::connected(connect_request.clone());
    machine.expect_status();
    machine.request(ManualRequest::Connect(
        ConnectRequest { reason: ConnectReason::ProactiveNetworkSwitch, ..connect_request },
        8,
    ));
    assert!(machine.sme.is_empty());
    machine.expect_response(8);
    machine.expect_no_metric();
}

#[test]
fn same_ssid_with_other_security_is_another_network() {
    let mut machine = Machine::connected(no_password(None, ConnectReason::FidlConnectRequest));
    machine.expect_status();
    let mut other = no_password(None, ConnectReason::FidlConnectRequest);
    other.target.network.type_ = SecurityType::Wpa;
    machine.request(ManualRequest::Connect(other, 9));
    machine.expect_disconnect(DisconnectReason::FidlConnectRequest);
}

#[test]
fn connected_state_errors() {
    let connected = || no_password(None, ConnectReason::FidlConnectRequest);

    let mut machine = Machine::connected(connected());
    machine.status(Some("elsewhere"), "");
    machine.expect_exit(Err(ExitError::SsidChanged));

    let mut machine = Machine::connected(connected());
    machine.happen(Event::Connected(ConnectedEvent::StatusFailed));
    machine.expect_exit(Err(ExitError::StatusFailed));

    let transition = connected_state(connected(), true, ConnectedEvent::RequestsEnded);
    assert!(transition.actions.is_empty());
    assert!(matches!(transition.next, State::Exited(Err(ExitError::RequestsEnded))));
}

#[test]
fn connecting_state_errors() {
    let request = no_password(Some(bss(1)), ConnectReason::FidlConnectRequest);
    for (event, error) in [
        (ConnectingEvent::ConnectResult(None), ExitError::ConnectFailed),
        (ConnectingEvent::CommandFailed, ExitError::CommandFailed),
        (ConnectingEvent::RequestsEnded, ExitError::RequestsEnded),
    ] {
        let mut machine = Machine::connecting(attempt(7, request.clone(), 0));
        machine.happen(Event::Connecting(event));
        machine.expect_exit(Err(error));
    }
    let transition = connecting_state(
        attempt(7, request, 0),
        SmeOperation::Scan,
        ConnectingEvent::ScanResult(None),
    );
    assert_eq!(transition.actions.len(), 2);
}

#[test]
fn status_is_not_asked_for_twice() {
    let mut machine = Machine::connected(no_password(None, ConnectReason::FidlConnectRequest));
    machine.expect_status();
    machine.happen(Event::Connected(ConnectedEvent::StatusTimer));
    assert!(machine.sme.is_empty());
    assert_eq!(SME_STATUS_INTERVAL_SEC, 1);
}

#[test]
fn unknown_candidates_are_taken_to_be_many() {
    let mut request = no_password(Some(bss(1)), ConnectReason::FidlConnectRequest);
    request.target.multiple_bss_candidates = None;
    let mut machine = Machine::connecting(attempt(7, request.clone(), 0));
    assert!(machine.expect_connect().multiple_bss_candidates);

    let (found, multiple) = scan_result_of(Some(request.target.clone())).unwrap();
    same(&found, &bss(1));
    assert!(multiple);
    request.target.multiple_bss_candidates = Some(false);
    assert!(!scan_result_of(Some(request.target.clone())).unwrap().1);
    request.target.bss = None;
    assert!(scan_result_of(Some(request.target)).is_none());
    assert!(scan_result_of(None).is_none());
}

#[test]
fn disconnecting_tells_the_one_who_asked_first() {
    let transition = disconnecting_state(
        DisconnectingOptions {
            disconnect_responder: Some(5),
            previous_network: Some((
                network_id("a", SecurityType::Wpa),
                DisconnectStatus::ConnectionFailed,
            )),
            next_network: None,
            reason: DisconnectReason::NetworkUnsaved,
        },
        true,
    );
    assert_eq!(
        format!("{:?}", transition.actions),
        "[Respond(5), NotifyListeners(ClientNetworkState { id: NetworkIdentifier { ssid: [97], \
         type_: Wpa }, state: Disconnected, status: Some(ConnectionFailed) }), \
         LogDisconnection(NetworkUnsaved)]"
    );
}

#[test]
fn active_scans_are_recorded_as_such() {
    let mut request = no_password(Some(bss(1)), ConnectReason::FidlConnectRequest);
    request.target.observed_in_passive_scan = Some(false);
    let mut machine = Machine::connecting(attempt(7, request, 0));
    machine.connect_finished(ConnectResultCode::Success);
    assert_eq!(machine.records.pop_front().unwrap().scan_type, Some(ScanType::Active));
}

#[test]
fn bytes_are_compared_whole() {
    assert!(bytes_equal(&vec![1, 2], &vec![1, 2]));
    assert!(!bytes_equal(&vec![1, 2], &vec![1, 3]));
    assert!(!bytes_equal(&vec![1, 2], &vec![1, 2, 3]));
    assert!(bytes_equal(&vec![], &vec![]));
    let psk = Credential::Psk(vec![1; 32]);
    same(&psk.clone(), &psk);
    assert!(network_id("x", SecurityType::Wpa).same_network(&network_id("x", SecurityType::Wpa)));
}

#[test]
fn everybody_is_told_once() {
    let wanted = |ssid: &str, reason| {
        request(ssid, SecurityType::Wpa2, password("12345"), Some(bss(1)), Some(true), reason)
    };
    let first = wanted("one", ConnectReason::FidlConnectRequest);
    let mut machine = Machine::new(serve(Some((first.clone(), 1))));
    assert!(machine.responses.is_empty());
    machine.disconnect_answered();
    // A duplicate while connecting, and another network while connected.
    machine.request(ManualRequest::Connect(first, 2));
    machine.connect_finished(ConnectResultCode::Success);
    machine.request(ManualRequest::Connect(
        wanted("two", ConnectReason::ProactiveNetworkSwitch),
        3,
    ));
    assert_eq!(machine.responses, [1, 2]);
    machine.disconnect_answered();
    machine.request(ManualRequest::Disconnect(DisconnectReason::FidlStopClientConnectionsRequest, 4));
    assert_eq!(machine.responses, [1, 2, 3]);
    machine.disconnect_answered();
    assert_eq!(machine.responses, [1, 2, 3, 4]);
    machine.expect_exit(Ok(()));
}
