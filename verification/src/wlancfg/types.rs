//! Networks, and what is asked and told about them.
//!
//! The types that hold bytes are generic in how they hold them: `Vec<u8>` in values, `Seq<u8>` in
//! what is said of the values.

use vstd::prelude::*;

verus! {

#[derive(Clone, Copy, Debug, PartialEq, Eq, Structural)]
pub enum SecurityType {
    Unprotected,
    Wep,
    Wpa,
    Wpa2,
    Wpa3,
}

/// A network as the user knows it.
#[derive(Debug)]
#[verifier::ext_equal]
pub struct NetworkIdentifier<B = Vec<u8>> {
    pub ssid: B,
    pub type_: SecurityType,
}

#[derive(Debug)]
#[verifier::ext_equal]
pub enum Credential<B = Vec<u8>> {
    Open,
    Password(B),
    Psk(B),
}

pub type Bssid = [u8; 6];

/// An access point, as the driver described it.
#[derive(Debug)]
#[verifier::ext_equal]
pub struct BssDescription<B = Vec<u8>> {
    pub bssid: Bssid,
    /// The encoded rest of the description, which is handed on as it is.
    pub description: B,
}

/// A network that can be connected to.
#[derive(Debug)]
#[verifier::ext_equal]
pub struct ConnectionCandidate<B = Vec<u8>> {
    pub network: NetworkIdentifier<B>,
    pub credential: Credential<B>,
    pub observed_in_passive_scan: Option<bool>,
    pub bss: Option<BssDescription<B>>,
    pub multiple_bss_candidates: Option<bool>,
}

#[derive(Clone, Copy, Debug, PartialEq, Eq, Structural)]
pub enum ConnectReason {
    RetryAfterDisconnectDetected,
    RetryAfterFailedConnectAttempt,
    FidlConnectRequest,
    ProactiveNetworkSwitch,
    RegulatoryChangeReconnect,
    IdleInterfaceAutoconnect,
}

#[derive(Clone, Copy, Debug, PartialEq, Eq, Structural)]
pub enum DisconnectReason {
    Unknown,
    FailedToConnect,
    FidlConnectRequest,
    FidlStopClientConnectionsRequest,
    ProactiveNetworkSwitch,
    DisconnectDetectedFromSme,
    RegulatoryRegionChange,
    Startup,
    NetworkUnsaved,
    NetworkConfigUpdated,
}

/// A request for a connection, and why it is made.
#[derive(Debug)]
#[verifier::ext_equal]
pub struct ConnectRequest<B = Vec<u8>> {
    pub target: ConnectionCandidate<B>,
    pub reason: ConnectReason,
}

#[derive(Clone, Copy, Debug, PartialEq, Eq, Structural)]
pub enum ConnectionState {
    Failed,
    Disconnected,
    Connecting,
    Connected,
}

#[derive(Clone, Copy, Debug, PartialEq, Eq, Structural)]
pub enum DisconnectStatus {
    ConnectionStopped,
    CredentialsFailed,
    ConnectionFailed,
}

/// What listeners are told about a network.
#[derive(Debug)]
#[verifier::ext_equal]
pub struct ClientNetworkState<B = Vec<u8>> {
    pub id: NetworkIdentifier<B>,
    pub state: ConnectionState,
    pub status: Option<DisconnectStatus>,
}

#[derive(Clone, Copy, Debug, PartialEq, Eq, Structural)]
pub enum ConnectResultCode {
    Success,
    Canceled,
    Failed,
    CredentialRejected,
    BadRequest,
}

#[derive(Clone, Copy, Debug, PartialEq, Eq, Structural)]
pub enum ScanType {
    Active,
    Passive,
}

impl View for NetworkIdentifier {
    type V = NetworkIdentifier<Seq<u8>>;

    open spec fn view(&self) -> NetworkIdentifier<Seq<u8>> {
        NetworkIdentifier { ssid: self.ssid@, type_: self.type_ }
    }
}

impl View for Credential {
    type V = Credential<Seq<u8>>;

    open spec fn view(&self) -> Credential<Seq<u8>> {
        match self {
            Credential::Open => Credential::Open,
            Credential::Password(bytes) => Credential::Password(bytes@),
            Credential::Psk(bytes) => Credential::Psk(bytes@),
        }
    }
}

impl View for BssDescription {
    type V = BssDescription<Seq<u8>>;

    open spec fn view(&self) -> BssDescription<Seq<u8>> {
        BssDescription { bssid: self.bssid, description: self.description@ }
    }
}

/// The view of an optional description.
pub open spec fn bss_view(bss: Option<BssDescription>) -> Option<BssDescription<Seq<u8>>> {
    match bss {
        Some(bss) => Some(bss@),
        None => None,
    }
}

impl View for ConnectionCandidate {
    type V = ConnectionCandidate<Seq<u8>>;

    open spec fn view(&self) -> ConnectionCandidate<Seq<u8>> {
        ConnectionCandidate {
            network: self.network@,
            credential: self.credential@,
            observed_in_passive_scan: self.observed_in_passive_scan,
            bss: bss_view(self.bss),
            multiple_bss_candidates: self.multiple_bss_candidates,
        }
    }
}

impl View for ConnectRequest {
    type V = ConnectRequest<Seq<u8>>;

    open spec fn view(&self) -> ConnectRequest<Seq<u8>> {
        ConnectRequest { target: self.target@, reason: self.reason }
    }
}

impl View for ClientNetworkState {
    type V = ClientNetworkState<Seq<u8>>;

    open spec fn view(&self) -> ClientNetworkState<Seq<u8>> {
        ClientNetworkState { id: self.id@, state: self.state, status: self.status }
    }
}

/// Whether two byte strings are equal.
pub fn bytes_equal(a: &Vec<u8>, b: &Vec<u8>) -> (r: bool)
    ensures
        r == (a@ == b@),
{
    if a.len() != b.len() {
        return false;
    }
    let mut i: usize = 0;
    while i < a.len()
        invariant
            i <= a.len(),
            a.len() == b.len(),
            forall|j: int| 0 <= j < i ==> a[j] == b[j],
        decreases a.len() - i,
    {
        if a[i] != b[i] {
            return false;
        }
        i += 1;
    }
    assert(a@ =~= b@);
    true
}

impl NetworkIdentifier {
    /// Whether the two identifiers name the same network.
    pub fn same_network(&self, other: &NetworkIdentifier) -> (r: bool)
        ensures
            r == (self@ == other@),
    {
        bytes_equal(&self.ssid, &other.ssid) && self.type_ == other.type_
    }
}

impl Clone for NetworkIdentifier {
    fn clone(&self) -> (r: Self)
        ensures
            r@ == self@,
    {
        NetworkIdentifier { ssid: self.ssid.clone(), type_: self.type_ }
    }
}

impl Clone for Credential {
    fn clone(&self) -> (r: Self)
        ensures
            r@ == self@,
    {
        match self {
            Credential::Open => Credential::Open,
            Credential::Password(bytes) => Credential::Password(bytes.clone()),
            Credential::Psk(bytes) => Credential::Psk(bytes.clone()),
        }
    }
}

impl Clone for BssDescription {
    fn clone(&self) -> (r: Self)
        ensures
            r@ == self@,
    {
        BssDescription { bssid: self.bssid, description: self.description.clone() }
    }
}

impl Clone for ConnectionCandidate {
    fn clone(&self) -> (r: Self)
        ensures
            r@ == self@,
    {
        ConnectionCandidate {
            network: self.network.clone(),
            credential: self.credential.clone(),
            observed_in_passive_scan: self.observed_in_passive_scan,
            bss: match &self.bss {
                Some(bss) => Some(bss.clone()),
                None => None,
            },
            multiple_bss_candidates: self.multiple_bss_candidates,
        }
    }
}

impl Clone for ConnectRequest {
    fn clone(&self) -> (r: Self)
        ensures
            r@ == self@,
    {
        ConnectRequest { target: self.target.clone(), reason: self.reason }
    }
}

} // verus!
