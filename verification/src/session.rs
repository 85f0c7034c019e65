//! Session rules: which profiles are accepted, and how one connection moves from
//! connect through completion and probe to the running pump.
//!
//! Data-plane records share the data nonce purpose with the probe, so the session
//! tracks the next sequence explicitly: the pump resumes from it, and once the
//! pump has been claimed its counters are the session's. No sequence is used for
//! two records.

use vstd::prelude::*;
use vstd::utf8::{encode_utf8, encode_utf8_decode_utf8};

use crate::bytes::{ascii, be64, bytes_eq};
use crate::crypto::{
    aes256_gcm_open_of, base64_decode, base64_decode_of, base64_encode, base64_encode_of, hex_bytes,
    is_hex, opt_bytes, sha256_of,
};
use crate::handshake::{
    accepted_keys, law_data_record_construction, law_nonce_inputs_distinct, material_key, nonce_input, opened_record, peer_opens,
    sealed_record, Direction, HandshakeError, HandshakeMaterial, HandshakeParams, HandshakeState,
    HandshakeView, NONCE_PURPOSE_DATA,
};
use crate::pump::{
    delivered_step, exit_step, idle_pump, inbound_step, outbound_step, sent_step, seq_next,
    PumpConfig, PumpView, TunnelPump,
};

verus! {

/// The data-plane probe: the bytes of `shadevpn-dataplane-probe`.
pub const PROBE: [u8; 24] = [
    0x73, 0x68, 0x61, 0x64, 0x65, 0x76, 0x70, 0x6e, 0x2d, 0x64, 0x61, 0x74, 0x61, 0x70, 0x6c, 0x61,
    0x6e, 0x65, 0x2d, 0x70, 0x72, 0x6f, 0x62, 0x65,
];

// ---------------------------------------------------------------------------
// Profiles
// ---------------------------------------------------------------------------

/// A sanitized connection profile.
pub struct RealityProfile {
    pub server_address: String,
    pub server_port: u16,
    pub security: String,
    pub network: String,
    pub sni: Option<String>,
    pub public_key_present: bool,
    pub short_id_present: bool,
    pub public_key: Option<String>,
    pub short_id: Option<String>,
}

/// Why a profile does not make a lane.
#[derive(Debug, Clone, Copy, PartialEq, Eq, Structural)]
pub enum LaneError {
    NotReality,
    UnsupportedNetwork,
    SniRequired,
    KeysRequired,
}

impl LaneError {
    /// The text of each error.
    pub open spec fn text(self) -> Seq<char> {
        match self {
            LaneError::NotReality => "only Reality profiles are accepted"@,
            LaneError::UnsupportedNetwork => "unsupported Reality network"@,
            LaneError::SniRequired => "Reality SNI is required"@,
            LaneError::KeysRequired => "Reality public key and short ID are required"@,
        }
    }

    /// A fixed description.
    pub fn reason(&self) -> (r: &'static str)
        ensures
            r@ == self.text(),
    {
        match self {
            LaneError::NotReality => "only Reality profiles are accepted",
            LaneError::UnsupportedNetwork => "unsupported Reality network",
            LaneError::SniRequired => "Reality SNI is required",
            LaneError::KeysRequired => "Reality public key and short ID are required",
        }
    }
}

/// The lower-case form of an ASCII letter; other bytes stand for themselves.
pub open spec fn ascii_lower(b: u8) -> u8 {
    if 0x41 <= b <= 0x5a {
        (b + 0x20) as u8
    } else {
        b
    }
}

/// Whether two byte strings are equal but for the case of ASCII letters.
pub open spec fn same_ignoring_case(a: Seq<u8>, b: Seq<u8>) -> bool {
    a.len() == b.len() && forall|i: int|
        0 <= i < a.len() ==> ascii_lower(#[trigger] a[i]) == ascii_lower(b[i])
}

/// The lower-case form of an ASCII letter.
fn to_lower(b: u8) -> (r: u8)
    ensures
        r == ascii_lower(b),
{
    if 0x41 <= b && b <= 0x5a {
        b + 0x20
    } else {
        b
    }
}

/// Whether two texts are equal but for the case of ASCII letters.
pub fn eq_ignore_ascii_case(a: &str, b: &str) -> (r: bool)
    ensures
        r == same_ignoring_case(encode_utf8(a@), encode_utf8(b@)),
{
    let x = a.as_bytes();
    let y = b.as_bytes();
    if x.len() != y.len() {
        return false;
    }
    let mut i: usize = 0;
    while i < x.len()
        invariant
            i <= x@.len(),
            x@.len() == y@.len(),
            x@ == encode_utf8(a@),
            y@ == encode_utf8(b@),
            forall|k: int| 0 <= k < i ==> ascii_lower(#[trigger] x@[k]) == ascii_lower(y@[k]),
        decreases x@.len() - i,
    {
        if to_lower(x[i]) != to_lower(y[i]) {
            assert(ascii_lower(x@[i as int]) != ascii_lower(y@[i as int]));
            return false;
        }
        i += 1;
    }
    true
}

/// Whether two texts are equal.
fn text_eq(a: &str, b: &str) -> (r: bool)
    ensures
        r == (a@ == b@),
{
    proof {
        encode_utf8_decode_utf8(a@);
        encode_utf8_decode_utf8(b@);
    }
    bytes_eq(a.as_bytes(), b.as_bytes())
}

impl RealityProfile {
    /// Whether the profile asks for REALITY.
    pub open spec fn asks_reality(&self) -> bool {
        same_ignoring_case(encode_utf8(self.security@), encode_utf8("reality"@))
    }

    /// Whether the profile names a host.
    pub open spec fn has_sni(&self) -> bool {
        self.sni matches Some(host) && encode_utf8(host@).len() > 0
    }

    /// Whether the profile says that both keys are there.
    pub open spec fn has_keys(&self) -> bool {
        self.public_key_present && self.short_id_present
    }

    /// Whether the network is one that a lane can use.
    pub open spec fn network_ok(&self) -> bool {
        self.network@ == "tcp"@ || self.network@ == "ws"@ || self.network@ == "xhttp"@
    }

    /// The first check that the profile fails, if it fails one.
    pub open spec fn lane_error(&self) -> Option<LaneError> {
        if !self.asks_reality() {
            Some(LaneError::NotReality)
        } else if !self.network_ok() {
            Some(LaneError::UnsupportedNetwork)
        } else if !self.has_sni() {
            Some(LaneError::SniRequired)
        } else if !self.has_keys() {
            Some(LaneError::KeysRequired)
        } else {
            None
        }
    }

    /// Whether the profile asks for REALITY.
    fn is_reality(&self) -> (r: bool)
        ensures
            r == self.asks_reality(),
    {
        eq_ignore_ascii_case(self.security.as_str(), "reality")
    }

    /// Whether the profile names a host.
    fn names_host(&self) -> (r: bool)
        ensures
            r == self.has_sni(),
    {
        match &self.sni {
            Some(host) => host.as_str().as_bytes().len() > 0,
            None => false,
        }
    }

    /// Checks that the profile makes a lane.
    pub fn check_lane(&self) -> (r: Result<(), LaneError>)
        ensures
            r == (match self.lane_error() {
                Some(e) => Err::<(), LaneError>(e),
                None => Ok(()),
            }),
    {
        if !self.is_reality() {
            return Err(LaneError::NotReality);
        }
        let network = self.network.as_str();
        if !(text_eq(network, "tcp") || text_eq(network, "ws") || text_eq(network, "xhttp")) {
            return Err(LaneError::UnsupportedNetwork);
        }
        if !self.names_host() {
            return Err(LaneError::SniRequired);
        }
        if !self.public_key_present || !self.short_id_present {
            return Err(LaneError::KeysRequired);
        }
        Ok(())
    }

    /// Whether the profile is valid, and the sentence shown with the verdict.
    pub fn validate(&self) -> (r: (bool, &'static str))
        ensures
            r.0 == (self.asks_reality() && self.has_keys() && self.has_sni()),
            r.1@ == (if self.asks_reality() {
                "Reality profile parsed"@
            } else {
                "security must be Reality"@
            }),
    {
        let reality = self.is_reality();
        let valid = reality && self.public_key_present && self.short_id_present
            && self.names_host();
        if reality {
            (valid, "Reality profile parsed")
        } else {
            (valid, "security must be Reality")
        }
    }
}

/// Law: a profile that makes a lane is valid.
pub proof fn law_lane_profiles_are_valid(p: RealityProfile)
    requires
        p.lane_error() is None,
    ensures
        p.asks_reality() && p.has_keys() && p.has_sni(),
{
}

/// Why a connection cannot be prepared.
#[derive(Debug, Clone, Copy, PartialEq, Eq, Structural)]
pub enum ConnectError {
    KeysMissing,
    Material(HandshakeError),
}

impl ConnectError {
    /// The text of each error.
    pub open spec fn text(self) -> Seq<char> {
        match self {
            ConnectError::KeysMissing => "publicKey and shortId are required"@,
            ConnectError::Material(e) => e.text(),
        }
    }

    /// A fixed description that reveals no key material.
    pub fn reason(&self) -> (r: &'static str)
        ensures
            r@ == self.text(),
    {
        match self {
            ConnectError::KeysMissing => "publicKey and shortId are required",
            ConnectError::Material(e) => e.reason(),
        }
    }
}

/// The text of an optional field; empty when it is missing.
pub open spec fn text_or_empty(s: Option<String>) -> Seq<char> {
    match s {
        Some(t) => t@,
        None => Seq::empty(),
    }
}

/// An optional field; empty when it is missing.
fn or_empty(s: Option<String>) -> (r: String)
    ensures
        r@ == text_or_empty(s),
{
    match s {
        Some(t) => t,
        None => String::new(),
    }
}

/// What preparing a connection comes to, given what the key text decodes to.
pub open spec fn prepared(
    p: RealityProfile,
    key: Option<Seq<u8>>,
    r: Result<HandshakeParams, ConnectError>,
) -> bool {
    let hex = encode_utf8(text_or_empty(p.short_id));
    if !p.has_keys() {
        r == Err::<HandshakeParams, _>(ConnectError::KeysMissing)
    } else if key is None || key->0.len() != 32 {
        r == Err::<HandshakeParams, _>(ConnectError::Material(HandshakeError::BadServerKey))
    } else if !is_hex(hex) || hex.len() == 0 {
        r == Err::<HandshakeParams, _>(ConnectError::Material(HandshakeError::BadShortId))
    } else {
        &&& r is Ok
        &&& r->Ok_0.server_address == p.server_address
        &&& r->Ok_0.server_port == p.server_port
        &&& r->Ok_0.sni@ == text_or_empty(p.sni)
        &&& r->Ok_0.server_public_key@ == key->0
        &&& r->Ok_0.short_id@ == hex_bytes(hex)
        &&& r->Ok_0.fingerprint is None
    }
}

/// Prepares the handshake parameters of a profile.
pub fn prepare_connect(profile: RealityProfile) -> (r: Result<HandshakeParams, ConnectError>)
    ensures
        prepared(profile, material_key(text_or_empty(profile.public_key)), r),
{
    if !profile.public_key_present || !profile.short_id_present {
        return Err(ConnectError::KeysMissing);
    }
    let material = HandshakeMaterial {
        server_address: profile.server_address,
        server_port: profile.server_port,
        sni: or_empty(profile.sni),
        server_public_key_b64: or_empty(profile.public_key),
        short_id_hex: or_empty(profile.short_id),
    };
    match material.into_params() {
        Ok(params) => Ok(params),
        Err(e) => Err(ConnectError::Material(e)),
    }
}

/// The text of a server response, which is handed back for completion.
pub fn response_text(response: &[u8]) -> (r: String)
    ensures
        r@ == base64_encode_of(response@),
        base64_decode_of(encode_utf8(r@)) == Some(response@),
{
    base64_encode(response)
}

// ---------------------------------------------------------------------------
// The session
// ---------------------------------------------------------------------------

/// Why a session step was refused.
#[derive(Debug, Clone, Copy, PartialEq, Eq, Structural)]
pub enum SessionError {
    NotCompleted,
    NoSocket,
    ProbeMismatch,
    BadBase64,
    NoHandshake,
    PumpRunning,
    Handshake(HandshakeError),
}

impl SessionError {
    /// The text of each error.
    pub open spec fn text(self) -> Seq<char> {
        match self {
            SessionError::NotCompleted => "handshake not completed"@,
            SessionError::NoSocket => "tunnel socket not established"@,
            SessionError::ProbeMismatch => "probe response mismatch"@,
            SessionError::BadBase64 => "response is not valid base64"@,
            SessionError::NoHandshake => "no handshake in progress"@,
            SessionError::PumpRunning => "tunnel pump already running"@,
            SessionError::Handshake(e) => e.text(),
        }
    }

    /// A fixed description that reveals no key material.
    pub fn reason(&self) -> (r: &'static str)
        ensures
            r@ == self.text(),
    {
        match self {
            SessionError::NotCompleted => "handshake not completed",
            SessionError::NoSocket => "tunnel socket not established",
            SessionError::ProbeMismatch => "probe response mismatch",
            SessionError::BadBase64 => "response is not valid base64",
            SessionError::NoHandshake => "no handshake in progress",
            SessionError::PumpRunning => "tunnel pump already running",
            SessionError::Handshake(e) => e.reason(),
        }
    }
}

/// The state of a session.
#[verifier::ext_equal]
pub struct SessionView {
    pub handshake: Option<HandshakeView>,
    pub pump: PumpView,
    /// Next data record sequence to seal, until the pump is claimed.
    pub next_out_seq: u64,
    /// Next data record sequence expected when opening, until the pump is
    /// claimed.
    pub next_in_seq: u64,
    /// Whether the tunnel socket is established.
    pub socket: bool,
    /// Whether the pump has been claimed for this handshake.
    pub pumped: bool,
}

/// Next data record sequence to seal.
pub open spec fn out_seq(s: SessionView) -> u64 {
    if s.pumped {
        s.pump.seq_out
    } else {
        s.next_out_seq
    }
}

/// Next data record sequence expected when opening.
pub open spec fn in_seq(s: SessionView) -> u64 {
    if s.pumped {
        s.pump.seq_in
    } else {
        s.next_in_seq
    }
}

/// A session before its first connection.
pub open spec fn new_session() -> SessionView {
    SessionView {
        handshake: None,
        pump: idle_pump(),
        next_out_seq: 0,
        next_in_seq: 0,
        socket: false,
        pumped: false,
    }
}

/// A session after a full teardown: the pump is asked to stop, the keys and the
/// socket are gone and the sequences start over.
pub open spec fn torn_down(s: SessionView) -> SessionView {
    SessionView {
        handshake: None,
        pump: PumpView { stop: true, ..s.pump },
        next_out_seq: 0,
        next_in_seq: 0,
        socket: false,
        pumped: false,
    }
}

/// A session that has sealed a probe: the sequence is used up.
pub open spec fn probed(s: SessionView) -> SessionView {
    if s.pumped {
        SessionView { pump: PumpView { seq_out: seq_next(s.pump.seq_out), ..s.pump }, ..s }
    } else {
        SessionView { next_out_seq: (s.next_out_seq + 1) as u64, ..s }
    }
}

/// A session whose probe has come back.
pub open spec fn echoed(s: SessionView) -> SessionView {
    if s.pumped {
        SessionView { pump: PumpView { seq_in: seq_next(s.pump.seq_in), ..s.pump }, ..s }
    } else {
        SessionView { next_in_seq: (s.next_in_seq + 1) as u64, ..s }
    }
}

/// What a mirrored probe does to a session: it must open at the next inbound
/// sequence and be the probe.
pub open spec fn echo_step(s: SessionView, record: Seq<u8>) -> (
    SessionView,
    Result<(), SessionError>,
) {
    if s.handshake is None {
        (s, Err(SessionError::NotCompleted))
    } else if s.handshake->0.keys is None || opened_record(
        s.handshake->0,
        in_seq(s),
        record,
    ) is None {
        (s, Err(SessionError::Handshake(HandshakeError::SessionAuthRejected)))
    } else if opened_record(s.handshake->0, in_seq(s), record)->0 != PROBE@ {
        (s, Err(SessionError::ProbeMismatch))
    } else {
        (echoed(s), Ok(()))
    }
}

/// A session whose pump has been claimed: its record sequences continue behind
/// the session's.
pub open spec fn pumping(s: SessionView) -> SessionView {
    SessionView {
        pump: PumpView {
            running: true,
            stop: false,
            seq_out: out_seq(s),
            seq_in: in_seq(s),
            ..s.pump
        },
        pumped: true,
        ..s
    }
}

/// What starting the pump does to a session.
pub open spec fn start_step(s: SessionView) -> (SessionView, Result<(), SessionError>) {
    match data_error(s) {
        Some(e) => (s, Err(e)),
        None => if s.pump.running {
            (s, Err(SessionError::PumpRunning))
        } else {
            (pumping(s), Ok(()))
        },
    }
}

/// What completing against a server response does to a session. A response that
/// does not decode or does not authenticate tears it down.
pub open spec fn completion(s: SessionView, response: Option<Seq<u8>>) -> (
    SessionView,
    Result<(), SessionError>,
) {
    match response {
        None => (torn_down(s), Err(SessionError::BadBase64)),
        Some(bytes) => match s.handshake {
            None => (s, Err(SessionError::NoHandshake)),
            Some(h) => if h.keys is None && accepted_keys(h, bytes) is Some {
                (
                    SessionView {
                        handshake: Some(HandshakeView { keys: accepted_keys(h, bytes), ..h }),
                        ..s
                    },
                    Ok(()),
                )
            } else {
                (torn_down(s), Err(SessionError::Handshake(HandshakeError::SessionAuthRejected)))
            },
        },
    }
}

/// The first thing that keeps a session from carrying data, if there is one.
pub open spec fn data_error(s: SessionView) -> Option<SessionError> {
    if s.handshake is None || s.handshake->0.keys is None {
        Some(SessionError::NotCompleted)
    } else if !s.socket {
        Some(SessionError::NoSocket)
    } else {
        None
    }
}

/// Session state shared across calls. One connection at a time.
pub struct Session {
    handshake: Option<HandshakeState>,
    pump: TunnelPump,
    next_out_seq: u64,
    next_in_seq: u64,
    socket: bool,
    pumped: bool,
}

impl View for Session {
    type V = SessionView;

    closed spec fn view(&self) -> SessionView {
        SessionView {
            handshake: match self.handshake {
                Some(h) => Some(h@),
                None => None,
            },
            pump: self.pump@,
            next_out_seq: self.next_out_seq,
            next_in_seq: self.next_in_seq,
            socket: self.socket,
            pumped: self.pumped,
        }
    }
}

impl Session {
    /// A session before its first connection.
    pub fn new() -> (r: Session)
        ensures
            r@ == new_session(),
    {
        Session {
            handshake: None,
            pump: TunnelPump::new(),
            next_out_seq: 0,
            next_in_seq: 0,
            socket: false,
            pumped: false,
        }
    }

    /// Whether a handshake is held.
    pub fn has_handshake(&self) -> (r: bool)
        ensures
            r == (self@.handshake is Some),
    {
        self.handshake.is_some()
    }

    /// Whether the tunnel socket is established.
    pub fn has_socket(&self) -> (r: bool)
        ensures
            r == self@.socket,
    {
        self.socket
    }

    /// Next data record sequence to seal.
    pub fn next_out_seq(&self) -> (r: u64)
        ensures
            r == out_seq(self@),
    {
        if self.pumped {
            self.pump.next_out()
        } else {
            self.next_out_seq
        }
    }

    /// Next data record sequence expected when opening.
    pub fn next_in_seq(&self) -> (r: u64)
        ensures
            r == in_seq(self@),
    {
        if self.pumped {
            self.pump.next_in()
        } else {
            self.next_in_seq
        }
    }

    /// The pump of the session.
    pub fn pump(&self) -> (r: &TunnelPump)
        ensures
            r@ == self@.pump,
    {
        &self.pump
    }

    /// The pump of the session, to be worked by the data path.
    pub fn pump_mut(&mut self) -> (r: &mut TunnelPump)
        ensures
            r@ == old(self)@.pump,
            final(self)@ == (SessionView { pump: final(r)@, ..old(self)@ }),
    {
        &mut self.pump
    }

    /// Keeps a started handshake and its socket. Completion is a separate step.
    pub fn connected(&mut self, state: HandshakeState)
        ensures
            final(self)@ == (SessionView {
                handshake: Some(state@),
                socket: true,
                pumped: false,
                ..old(self)@
            }),
    {
        self.handshake = Some(state);
        self.socket = true;
        self.pumped = false;
    }

    /// Full teardown: stop the pump, drop the keys, close the socket.
    pub fn teardown(&mut self)
        ensures
            final(self)@ == torn_down(old(self)@),
    {
        self.pump.stop();
        self.handshake = None;
        self.socket = false;
        self.next_out_seq = 0;
        self.next_in_seq = 0;
        self.pumped = false;
    }

    /// Completes the handshake against the base64 text of a server response.
    pub fn complete_text(&mut self, response: &str) -> (r: Result<(), SessionError>)
        ensures
            (final(self)@, r) == completion(
                old(self)@,
                base64_decode_of(encode_utf8(response@)),
            ),
    {
        let decoded = base64_decode(response.as_bytes());
        self.complete(decoded)
    }

    /// Completes the handshake against a decoded server response. Only a
    /// response that authenticates completes the session; any other tears the
    /// whole session down, so a later probe or pump start can never fake
    /// completion.
    pub fn complete(&mut self, response: Option<Vec<u8>>) -> (r: Result<(), SessionError>)
        ensures
            (final(self)@, r) == completion(old(self)@, opt_bytes(response)),
    {
        let bytes = match response {
            Some(b) => b,
            None => {
                self.teardown();
                return Err(SessionError::BadBase64);
            },
        };
        match self.handshake.take() {
            None => Err(SessionError::NoHandshake),
            Some(state) => {
                let mut state = state;
                match state.complete(&bytes) {
                    Ok(()) => {
                        self.handshake = Some(state);
                        Ok(())
                    },
                    Err(e) => {
                        self.teardown();
                        Err(SessionError::Handshake(e))
                    },
                }
            },
        }
    }

    /// Checks that the session can carry data.
    pub fn check_data(&self) -> (r: Result<(), SessionError>)
        ensures
            r == (match data_error(self@) {
                Some(e) => Err::<(), SessionError>(e),
                None => Ok(()),
            }),
    {
        match &self.handshake {
            None => Err(SessionError::NotCompleted),
            Some(state) => if !state.is_completed() {
                Err(SessionError::NotCompleted)
            } else if !self.socket {
                Err(SessionError::NoSocket)
            } else {
                Ok(())
            },
        }
    }

    /// Seals the data-plane probe at the session's next sequence, which is used
    /// up with it.
    pub fn seal_probe(&mut self) -> (r: Result<Vec<u8>, SessionError>)
        requires
            data_error(old(self)@) is None ==> out_seq(old(self)@) < u64::MAX,
        ensures
            match data_error(old(self)@) {
                Some(e) => r == Err::<Vec<u8>, _>(e) && final(self)@ == old(self)@,
                None => r is Ok && Some(r->Ok_0@) == sealed_record(
                    old(self)@.handshake->0,
                    out_seq(old(self)@),
                    PROBE@,
                ) && peer_opens(
                    (old(self)@.handshake->0.keys->0).0,
                    old(self)@.handshake->0.session_id,
                    out_seq(old(self)@),
                    r->Ok_0@,
                ) == Some(PROBE@) && final(self)@ == probed(old(self)@),
            },
    {
        self.check_data()?;
        let seq = self.next_out_seq();
        let sealed = match &self.handshake {
            None => return Err(SessionError::NotCompleted),
            Some(state) => match state.seal_record(seq, &PROBE) {
                Ok(sealed) => sealed,
                Err(e) => return Err(SessionError::Handshake(e)),
            },
        };
        if self.pumped {
            self.pump.take_out();
        } else {
            self.next_out_seq = self.next_out_seq + 1;
        }
        Ok(sealed)
    }

    /// Judges the mirrored probe: it must open at the next inbound sequence and
    /// be the probe.
    pub fn check_probe(&mut self, record: &[u8]) -> (r: Result<(), SessionError>)
        requires
            in_seq(old(self)@) < u64::MAX,
        ensures
            (final(self)@, r) == echo_step(old(self)@, record@),
    {
        let seq = self.next_in_seq();
        let opened = match &self.handshake {
            None => return Err(SessionError::NotCompleted),
            Some(state) => match state.open_record(seq, record) {
                Ok(m) => m,
                Err(e) => return Err(SessionError::Handshake(e)),
            },
        };
        if !bytes_eq(&opened, &PROBE) {
            return Err(SessionError::ProbeMismatch);
        }
        if self.pumped {
            self.pump.take_in();
        } else {
            self.next_in_seq = self.next_in_seq + 1;
        }
        Ok(())
    }

    /// Claims the pump for the session's tunnel, with record sequences that
    /// continue where the session's probes, or an earlier run of the pump, left
    /// off. Returns a handle on the handshake for the data path.
    pub fn start_pump(&mut self) -> (r: Result<HandshakeState, SessionError>)
        ensures
            final(self)@ == start_step(old(self)@).0,
            match start_step(old(self)@).1 {
                Ok(_) => r is Ok && r->Ok_0@ == old(self)@.handshake->0,
                Err(e) => r == Err::<HandshakeState, _>(e),
            },
    {
        self.check_data()?;
        let handle = match &self.handshake {
            None => return Err(SessionError::NotCompleted),
            Some(state) => state.duplicate(),
        };
        let (next_out, next_in) = (self.next_out_seq(), self.next_in_seq());
        match self.pump.start(next_out, next_in) {
            Ok(()) => {
                self.pumped = true;
                Ok(handle)
            },
            Err(_) => Err(SessionError::PumpRunning),
        }
    }
}

// ---------------------------------------------------------------------------
// Laws
// ---------------------------------------------------------------------------

/// Law: a rejected response leaves nothing to fake completion with, whether it
/// does not decode, does not authenticate or comes a second time: the session
/// holds no keys and no socket, carries no data, and its sequences start over.
pub proof fn law_rejected_response_tears_down(s: SessionView, response: Option<Seq<u8>>)
    requires
        response matches Some(bytes) ==> s.handshake is Some && (s.handshake->0.keys is Some
            || accepted_keys(s.handshake->0, bytes) is None),
    ensures
        ({
            let (next, r) = completion(s, response);
            &&& r is Err
            &&& next.handshake is None && !next.socket
            &&& next.pump.stop
            &&& out_seq(next) == 0 && in_seq(next) == 0
            &&& data_error(next) == Some(SessionError::NotCompleted)
        }),
{
}

/// Law: a session carries data only with an authenticated handshake; completion
/// is the one step that gives it one, and is single-use: a second response tears
/// the session down.
pub proof fn law_completion_is_single_use(s: SessionView, response: Seq<u8>, again: Seq<u8>)
    requires
        completion(s, Some(response)).1 is Ok,
    ensures
        s.handshake is Some && s.handshake->0.keys is None,
        completion(completion(s, Some(response)).0, Some(again)).1 is Err,
        completion(completion(s, Some(response)).0, Some(again)).0.handshake is None,
{
}

/// A step of a session between its connection and its teardown.
pub enum SessionStep {
    /// A probe is sealed.
    Probe,
    /// A mirrored probe is judged.
    Echo(Seq<u8>),
    /// The pump is started.
    Start,
    /// The halves of the pump are about to run.
    Launch,
    /// A packet was read from the TUN.
    Packet(PumpConfig, Seq<u8>),
    /// An attempt to send a record of this length has ended.
    Sent(int, bool),
    /// A frame was read from the socket.
    Frame(Seq<u8>),
    /// An attempt to deliver a packet of this length has ended.
    Delivered(int, bool),
    /// The pump is asked to stop.
    Stop,
    /// A half of the pump has exited.
    Exit,
}

/// What a step does to a session, and the sequence that it seals a record under.
/// A packet meets the session's keys only once the pump has been claimed, since
/// the handle on them comes with the claim.
pub open spec fn session_step(s: SessionView, step: SessionStep) -> (SessionView, Option<u64>) {
    match step {
        SessionStep::Probe => if data_error(s) is None {
            (probed(s), Some(out_seq(s)))
        } else {
            (s, None)
        },
        SessionStep::Echo(record) => (echo_step(s, record).0, None),
        SessionStep::Start => (start_step(s).0, None),
        SessionStep::Launch => (SessionView { pump: PumpView { alive: 2, ..s.pump }, ..s }, None),
        SessionStep::Packet(config, packet) => if s.pumped {
            let (pump, action) = outbound_step(s.pump, config, s.handshake->0, packet);
            (
                SessionView { pump, ..s },
                if action is Send {
                    Some(s.pump.seq_out)
                } else {
                    None
                },
            )
        } else {
            (s, None)
        },
        SessionStep::Sent(len, ok) => (SessionView { pump: sent_step(s.pump, len, ok).0, ..s }, None),
        SessionStep::Frame(frame) => if s.pumped {
            (SessionView { pump: inbound_step(s.pump, s.handshake->0, frame).0, ..s }, None)
        } else {
            (s, None)
        },
        SessionStep::Delivered(len, ok) => (
            SessionView { pump: delivered_step(s.pump, len, ok).0, ..s },
            None,
        ),
        SessionStep::Stop => (SessionView { pump: PumpView { stop: true, ..s.pump }, ..s }, None),
        SessionStep::Exit => (SessionView { pump: exit_step(s.pump).0, ..s }, None),
    }
}

/// The sequences that the steps of a session seal records under, in order.
pub open spec fn session_sequences(s: SessionView, steps: Seq<SessionStep>) -> Seq<u64>
    decreases steps.len(),
{
    if steps.len() == 0 {
        Seq::empty()
    } else {
        let (next, sealed) = session_step(s, steps[0]);
        let rest = session_sequences(next, steps.skip(1));
        match sealed {
            Some(seq) => seq![seq] + rest,
            None => rest,
        }
    }
}

/// A step keeps the handshake, and the next sequence moves by one when a record
/// was sealed under it and stays otherwise.
proof fn lemma_session_step(s: SessionView, step: SessionStep)
    requires
        out_seq(s) < u64::MAX,
    ensures
        session_step(s, step).0.handshake == s.handshake,
        match session_step(s, step).1 {
            Some(seq) => seq == out_seq(s) && out_seq(session_step(s, step).0) == out_seq(s) + 1,
            None => out_seq(session_step(s, step).0) == out_seq(s),
        },
{
}

/// Law: whatever order a session's probes, pump starts, packets and exits come
/// in, its records are sealed under consecutive sequences, from the next one of
/// the session.
pub proof fn law_session_sequences_are_consecutive(s: SessionView, steps: Seq<SessionStep>)
    requires
        out_seq(s) + steps.len() <= u64::MAX,
    ensures
        session_sequences(s, steps).len() <= steps.len(),
        forall|i: int|
            0 <= i < session_sequences(s, steps).len() ==> #[trigger] session_sequences(
                s,
                steps,
            )[i] == out_seq(s) + i,
    decreases steps.len(),
{
    if steps.len() > 0 {
        lemma_session_step(s, steps[0]);
        law_session_sequences_are_consecutive(session_step(s, steps[0]).0, steps.skip(1));
    }
}

/// Law: no two records of a session share what is hashed into their nonces,
/// whatever order its probes, pump starts, packets and exits come in.
pub proof fn law_no_nonce_input_is_reused(
    s: SessionView,
    steps: Seq<SessionStep>,
    i: int,
    j: int,
)
    requires
        s.handshake is Some,
        s.handshake->0.session_id.len() == 32,
        out_seq(s) + steps.len() <= u64::MAX,
        0 <= i < j < session_sequences(s, steps).len(),
    ensures
        ({
            let used = session_sequences(s, steps);
            let id = s.handshake->0.session_id;
            &&& used[i] < used[j]
            &&& nonce_input(id, used[i], Direction::Client, NONCE_PURPOSE_DATA@) != nonce_input(
                id,
                used[j],
                Direction::Client,
                NONCE_PURPOSE_DATA@,
            )
        }),
{
    let used = session_sequences(s, steps);
    let id = s.handshake->0.session_id;
    law_session_sequences_are_consecutive(s, steps);
    if nonce_input(id, used[i], Direction::Client, NONCE_PURPOSE_DATA@) == nonce_input(
        id,
        used[j],
        Direction::Client,
        NONCE_PURPOSE_DATA@,
    ) {
        law_nonce_inputs_distinct(
            id,
            used[i],
            Direction::Client,
            NONCE_PURPOSE_DATA@,
            id,
            used[j],
            Direction::Client,
            NONCE_PURPOSE_DATA@,
        );
    }
}

/// Law: texts are compared byte by byte, and two bytes agree exactly if they are
/// equal or the two cases of one ASCII letter. Texts of different lengths never
/// agree.
pub proof fn law_case_is_ignored(a: Seq<u8>, b: Seq<u8>, x: u8, y: u8)
    ensures
        a.len() != b.len() ==> !same_ignoring_case(a, b),
        same_ignoring_case(Seq::empty(), Seq::empty()),
        same_ignoring_case(a.push(x), b.push(y)) == (same_ignoring_case(a, b) && (x == y || (0x41
            <= x <= 0x5a && y == x + 0x20) || (0x41 <= y <= 0x5a && x == y + 0x20))),
{
    let p = a.push(x);
    let q = b.push(y);
    if a.len() == b.len() {
        let n = a.len() as int;
        assert(forall|i: int| 0 <= i < n ==> p[i] == a[i] && q[i] == b[i]);
        assert(p[n] == x && q[n] == y);
        if same_ignoring_case(p, q) {
            assert forall|i: int| 0 <= i < n implies ascii_lower(#[trigger] a[i]) == ascii_lower(
                b[i],
            ) by {
                assert(ascii_lower(p[i]) == ascii_lower(q[i]));
            }
            assert(ascii_lower(p[n]) == ascii_lower(q[n]));
        }
        if same_ignoring_case(a, b) && ascii_lower(x) == ascii_lower(y) {
            assert forall|i: int| 0 <= i < p.len() implies ascii_lower(#[trigger] p[i])
                == ascii_lower(q[i]) by {
                if i < n {
                    assert(ascii_lower(a[i]) == ascii_lower(b[i]));
                }
            }
        }
    }
}

/// Law: a profile makes a lane exactly if it asks for REALITY, in whatever case,
/// over `tcp`, `ws` or `xhttp`, names a host and has both keys; the first of
/// these that fails is the error.
pub proof fn law_lane_checks(p: RealityProfile)
    ensures
        ({
            let reality = same_ignoring_case(encode_utf8(p.security@), encode_utf8("reality"@));
            let network = p.network@ == "tcp"@ || p.network@ == "ws"@ || p.network@ == "xhttp"@;
            let host = p.sni is Some && encode_utf8(p.sni->0@).len() > 0;
            let keys = p.public_key_present && p.short_id_present;
            &&& p.lane_error() is None <==> reality && network && host && keys
            &&& !reality ==> p.lane_error() == Some(LaneError::NotReality)
            &&& reality && !network ==> p.lane_error() == Some(LaneError::UnsupportedNetwork)
            &&& reality && network && !host ==> p.lane_error() == Some(LaneError::SniRequired)
            &&& reality && network && host && !keys ==> p.lane_error() == Some(
                LaneError::KeysRequired,
            )
            &&& p.asks_reality() == reality && p.has_sni() == host && p.has_keys() == keys
        }),
{
}

/// Law: what preparing a connection comes to. Both keys must be there, the key
/// must be 32 bytes and the short id hexadecimal digits; the parameters then
/// carry the fields of the profile, with an empty host where it names none.
pub proof fn law_prepared_outcomes(
    p: RealityProfile,
    key: Option<Seq<u8>>,
    r: Result<HandshakeParams, ConnectError>,
)
    requires
        prepared(p, key, r),
    ensures
        ({
            let keys = p.public_key_present && p.short_id_present;
            let key_ok = key is Some && key->0.len() == 32;
            let short = if p.short_id is Some {
                encode_utf8(p.short_id->0@)
            } else {
                encode_utf8(Seq::<char>::empty())
            };
            let short_ok = is_hex(short) && short.len() > 0;
            &&& r is Ok <==> keys && key_ok && short_ok
            &&& !keys ==> r == Err::<HandshakeParams, _>(ConnectError::KeysMissing)
            &&& keys && !key_ok ==> r == Err::<HandshakeParams, _>(
                ConnectError::Material(HandshakeError::BadServerKey),
            )
            &&& keys && key_ok && !short_ok ==> r == Err::<HandshakeParams, _>(
                ConnectError::Material(HandshakeError::BadShortId),
            )
            &&& r is Ok ==> {
                let params = r->Ok_0;
                &&& params.server_address == p.server_address
                &&& params.server_port == p.server_port
                &&& params.server_public_key@ == key->0
                &&& params.short_id@ == hex_bytes(short)
                &&& p.sni is Some ==> params.sni@ == p.sni->0@
                &&& p.sni is None ==> params.sni@.len() == 0
                &&& params.fingerprint is None
            }
        }),
{
}

/// Law: the probe is a fixed text.
pub proof fn law_probe_text()
    ensures
        PROBE@ == ascii("shadevpn-dataplane-probe"@),
{
    reveal_strlit("shadevpn-dataplane-probe");
    assert(PROBE@ =~= ascii("shadevpn-dataplane-probe"@));
}

/// Law: a session carries data exactly with a completed handshake and a socket,
/// and says which of the two is missing.
pub proof fn law_data_needs(s: SessionView)
    ensures
        ({
            let completed = s.handshake is Some && s.handshake->0.keys is Some;
            &&& data_error(s) is None <==> completed && s.socket
            &&& !completed ==> data_error(s) == Some(SessionError::NotCompleted)
            &&& completed && !s.socket ==> data_error(s) == Some(SessionError::NoSocket)
        }),
{
}

/// Law: once the pump is claimed its sequences are the session's; until then the
/// session has its own.
pub proof fn law_session_sequences(s: SessionView)
    ensures
        s.pumped ==> out_seq(s) == s.pump.seq_out && in_seq(s) == s.pump.seq_in,
        !s.pumped ==> out_seq(s) == s.next_out_seq && in_seq(s) == s.next_in_seq,
        new_session().handshake is None && !new_session().socket && !new_session().pumped,
        out_seq(new_session()) == 0 && in_seq(new_session()) == 0,
        !new_session().pump.running,
{
}

/// Law: sealing a probe uses up the next outbound sequence and nothing else: the
/// inbound sequence, the handshake, the socket and the pump's counters stay.
pub proof fn law_probe_uses_a_sequence(s: SessionView)
    requires
        out_seq(s) < u64::MAX,
    ensures
        ({
            let next = probed(s);
            &&& out_seq(next) == out_seq(s) + 1
            &&& in_seq(next) == in_seq(s)
            &&& next.handshake == s.handshake && next.socket == s.socket && next.pumped == s.pumped
            &&& next.pump.stats == s.pump.stats && next.pump.running == s.pump.running
            &&& next.pump.stop == s.pump.stop && next.pump.alive == s.pump.alive
        }),
{
}

/// Law: a mirrored probe is accepted exactly if it opens, under the receive key
/// and the nonce of the next inbound sequence, to the probe; that sequence is
/// then used up, and nothing else changes. A record that does not open, or opens
/// to something else, changes nothing.
pub proof fn law_mirrored_probe(
    s: SessionView,
    h: HandshakeView,
    send: Seq<u8>,
    recv: Seq<u8>,
    record: Seq<u8>,
)
    requires
        s.handshake == Some(h),
        h.keys == Some((send, recv)),
        in_seq(s) < u64::MAX,
    ensures
        ({
            let (next, r) = echo_step(s, record);
            let opened = aes256_gcm_open_of(
                recv,
                sha256_of(
                    ascii("shadevpn-nonce-server-v1"@) + ascii("shadevpn-purpose-data-v1"@)
                        + h.session_id + be64(in_seq(s) as int),
                ).take(12),
                Seq::empty(),
                record,
            );
            let probe = ascii("shadevpn-dataplane-probe"@);
            &&& opened == Some(probe) ==> r == Ok::<(), SessionError>(()) && in_seq(next) == in_seq(
                s,
            ) + 1 && out_seq(next) == out_seq(s) && next.handshake == s.handshake && next.socket
                == s.socket && next.pumped == s.pumped && next.pump.stats == s.pump.stats
                && next.pump.running == s.pump.running && next.pump.stop == s.pump.stop
            &&& opened is None ==> r == Err::<(), _>(
                SessionError::Handshake(HandshakeError::SessionAuthRejected),
            ) && next == s
            &&& opened is Some && opened->0 != probe ==> r == Err::<(), _>(
                SessionError::ProbeMismatch,
            ) && next == s
        }),
{
    law_probe_text();
    law_data_record_construction(h, send, recv, in_seq(s), record);
}

/// Law: without a handshake, or before it is completed, no probe is accepted.
pub proof fn law_probe_needs_completion(s: SessionView, record: Seq<u8>)
    ensures
        s.handshake is None ==> echo_step(s, record) == (
            s,
            Err::<(), _>(SessionError::NotCompleted),
        ),
        (s.handshake matches Some(h) && h.keys is None) ==> echo_step(s, record) == (
            s,
            Err::<(), _>(SessionError::Handshake(HandshakeError::SessionAuthRejected)),
        ),
{
}

/// Law: the pump starts exactly if the session carries data and the pump does not
/// run; it then runs, is not asked to stop, and goes on with the session's
/// sequences, which do not move. Otherwise nothing changes and the error says
/// why.
pub proof fn law_pump_start(s: SessionView)
    ensures
        ({
            let (next, r) = start_step(s);
            let carries = s.handshake is Some && s.handshake->0.keys is Some && s.socket;
            &&& r is Ok <==> carries && !s.pump.running
            &&& carries && s.pump.running ==> r == Err::<(), _>(SessionError::PumpRunning)
            &&& r is Err ==> next == s
            &&& r is Ok ==> {
                &&& next.pump.running && !next.pump.stop && next.pumped
                &&& next.pump.seq_out == out_seq(s) && next.pump.seq_in == in_seq(s)
                &&& out_seq(next) == out_seq(s) && in_seq(next) == in_seq(s)
                &&& next.pump.stats == s.pump.stats && next.pump.alive == s.pump.alive
                &&& next.handshake == s.handshake && next.socket == s.socket
            }
        }),
{
}

/// Law: an accepted response completes the session: the handshake gets the keys
/// that the response establishes, and nothing else changes. A response before a
/// connection changes nothing.
pub proof fn law_accepted_response_completes(
    s: SessionView,
    h: HandshakeView,
    response: Seq<u8>,
    keys: (Seq<u8>, Seq<u8>),
)
    ensures
        s.handshake == Some(h) && h.keys is None && accepted_keys(h, response) == Some(keys) ==> {
            let (next, r) = completion(s, Some(response));
            &&& r == Ok::<(), SessionError>(())
            &&& next.handshake == Some(
                HandshakeView {
                    ephemeral: h.ephemeral,
                    auth_key: h.auth_key,
                    hello: h.hello,
                    session_id: h.session_id,
                    keys: Some(keys),
                },
            )
            &&& next == (SessionView { handshake: next.handshake, ..s })
        },
        s.handshake is None ==> completion(s, Some(response)) == (
            s,
            Err::<(), _>(SessionError::NoHandshake),
        ),
{
    if s.handshake == Some(h) && h.keys is None && accepted_keys(h, response) == Some(keys) {
        let next = completion(s, Some(response)).0;
        assert(next =~= SessionView { handshake: next.handshake, ..s });
    }
}

/// Law: what a refused response is answered: one that does not decode is no
/// base64, one that does not authenticate, or comes to a completed session, is
/// rejected.
pub proof fn law_refused_response_reason(s: SessionView, h: HandshakeView, response: Seq<u8>)
    ensures
        completion(s, None).1 == Err::<(), _>(SessionError::BadBase64),
        s.handshake == Some(h) && (h.keys is Some || accepted_keys(h, response) is None)
            ==> completion(s, Some(response)).1 == Err::<(), _>(
            SessionError::Handshake(HandshakeError::SessionAuthRejected),
        ),
{
}

/// Law: a teardown leaves no handshake, no socket and no claim on the pump, asks
/// the pump to stop, keeps its counters, and starts the sequences over.
pub proof fn law_teardown(s: SessionView)
    ensures
        ({
            let next = torn_down(s);
            &&& next.handshake is None && !next.socket && !next.pumped
            &&& out_seq(next) == 0 && in_seq(next) == 0
            &&& next.pump.stop && next.pump.running == s.pump.running
            &&& next.pump.stats == s.pump.stats && next.pump.alive == s.pump.alive
        }),
{
}

} // verus!
