//! Tunnel pump: the decisions of the bidirectional data path.
//!
//! Outbound, each IP packet read from the TUN is sealed into a record under the
//! session send key and framed onto the tunnel socket. Inbound, each framed
//! record is opened under the session receive key and written into the TUN.
//!
//! Sequence numbers are handed in by the session layer so data records continue
//! after any other records of the session without nonce reuse; a sequence that a
//! record was sealed under is never used again. If either half dies, the socket
//! is shut down and the other half is asked to stop, so it exits promptly too.

use vstd::prelude::*;

use crate::bytes::{ascii, be64};
use crate::crypto::{
    aes256_gcm_open_of, aes256_gcm_seal_of, sha256_of, GCM_MAX, TAG_LEN,
};
use crate::handshake::{
    law_data_record_construction, opened_record, peer_opens, sealed_record, HandshakeState,
    HandshakeView,
};

verus! {

/// Size of the buffer that a packet is read into.
pub const READ_BUF: usize = 1500;

/// Poll timeout for the TUN read loop, in milliseconds: short enough that a
/// stop is noticed, long enough to not burn CPU.
pub const POLL_MS: i32 = 200;

/// Counters surfaced for the UI and diagnostics.
#[derive(Debug, Clone, Copy, PartialEq, Eq, Structural)]
pub struct PumpStats {
    /// IP packets read from the TUN (outbound).
    pub packets_in: u64,
    /// Records written to the socket (outbound, sealed).
    pub packets_out: u64,
    pub bytes_in: u64,
    pub bytes_out: u64,
    /// Opened records delivered into the TUN (inbound).
    pub delivered_packets: u64,
    pub delivered_bytes: u64,
    pub seal_errors: u64,
    pub open_errors: u64,
    /// IPv6 packets deliberately blackholed inside the tunnel (leak shield).
    pub dropped_packets: u64,
}

/// Counters before any packet.
pub open spec fn zero_stats() -> PumpStats {
    PumpStats {
        packets_in: 0,
        packets_out: 0,
        bytes_in: 0,
        bytes_out: 0,
        delivered_packets: 0,
        delivered_bytes: 0,
        seal_errors: 0,
        open_errors: 0,
        dropped_packets: 0,
    }
}

impl Default for PumpStats {
    /// Counters before any packet.
    fn default() -> (r: Self)
        ensures
            r == zero_stats(),
    {
        PumpStats {
            packets_in: 0,
            packets_out: 0,
            bytes_in: 0,
            bytes_out: 0,
            delivered_packets: 0,
            delivered_bytes: 0,
            seal_errors: 0,
            open_errors: 0,
            dropped_packets: 0,
        }
    }
}

/// Pump behavior knobs.
#[derive(Debug, Clone, Copy, PartialEq, Eq, Structural)]
pub struct PumpConfig {
    /// Drop (blackhole) all IPv6 packets read from the TUN instead of sealing
    /// them. The pump is the only egress from the TUN, so dropping here means
    /// IPv6 never reaches the underlying network while the VPN still advertises
    /// an IPv6 route to catch that traffic.
    pub block_ipv6: bool,
}

impl Default for PumpConfig {
    /// Nothing is blocked.
    fn default() -> (r: Self)
        ensures
            r == (PumpConfig { block_ipv6: false }),
    {
        PumpConfig { block_ipv6: false }
    }
}

/// The version nibble of an IP header; zero for an empty packet.
pub open spec fn version_of(packet: Seq<u8>) -> int {
    if packet.len() == 0 {
        0
    } else {
        packet[0] as int / 16
    }
}

/// IP version nibble of an IPv4/IPv6 header.
pub fn ip_version(buf: &[u8]) -> (r: u8)
    ensures
        r == version_of(buf@),
{
    if buf.len() == 0 {
        0
    } else {
        buf[0] / 16
    }
}

/// Why a pump did not start.
#[derive(Debug, Clone, Copy, PartialEq, Eq, Structural)]
pub enum PumpError {
    AlreadyRunning,
}

impl PumpError {
    /// The text of each error.
    pub open spec fn text(self) -> Seq<char> {
        match self {
            PumpError::AlreadyRunning => "tunnel pump already running"@,
        }
    }

    /// A fixed description.
    pub fn reason(&self) -> (r: &'static str)
        ensures
            r@ == self.text(),
    {
        match self {
            PumpError::AlreadyRunning => "tunnel pump already running",
        }
    }
}

/// What a half of the pump does next.
pub enum PumpAction {
    /// Go on with the next packet or frame.
    Continue,
    /// Frame this record onto the socket, then report how that went.
    Send(Vec<u8>),
    /// Write this packet into the TUN, then report how that went.
    Deliver(Vec<u8>),
    /// Shut the socket down and leave the loop.
    Halt,
}

/// The mathematical content of a [`PumpAction`].
pub enum ActionView {
    Continue,
    Send(Seq<u8>),
    Deliver(Seq<u8>),
    Halt,
}

impl View for PumpAction {
    type V = ActionView;

    open spec fn view(&self) -> ActionView {
        match self {
            PumpAction::Continue => ActionView::Continue,
            PumpAction::Send(record) => ActionView::Send(record@),
            PumpAction::Deliver(packet) => ActionView::Deliver(packet@),
            PumpAction::Halt => ActionView::Halt,
        }
    }
}

/// The state of a pump.
#[verifier::ext_equal]
pub struct PumpView {
    pub running: bool,
    pub stop: bool,
    /// Halves that have not exited.
    pub alive: usize,
    pub stats: PumpStats,
    /// Sequence of the next outbound record.
    pub seq_out: u64,
    /// Sequence of the next inbound record.
    pub seq_in: u64,
}

/// A pump before its first start.
pub open spec fn idle_pump() -> PumpView {
    PumpView { running: false, stop: false, alive: 0, stats: zero_stats(), seq_out: 0, seq_in: 0 }
}

/// The sequence behind `seq`; sequences wrap.
pub open spec fn seq_next(seq: u64) -> u64 {
    if seq == u64::MAX {
        0
    } else {
        (seq + 1) as u64
    }
}

/// The sequence in front of `seq`.
pub open spec fn seq_back(seq: u64) -> u64 {
    if seq == 0 {
        u64::MAX
    } else {
        (seq - 1) as u64
    }
}

/// The counters after a packet read from the TUN.
pub open spec fn counted_in(s: PumpStats, len: int) -> PumpStats {
    PumpStats {
        packets_in: (s.packets_in + 1) as u64,
        bytes_in: (s.bytes_in + len) as u64,
        ..s
    }
}

/// Whether the counters have room for one more packet or record of this length.
pub open spec fn room_for(s: PumpStats, len: int) -> bool {
    &&& s.packets_in < u64::MAX
    &&& s.packets_out < u64::MAX
    &&& s.bytes_in + len <= u64::MAX
    &&& s.bytes_out + len <= u64::MAX
    &&& s.delivered_packets < u64::MAX
    &&& s.delivered_bytes + len <= u64::MAX
    &&& s.seal_errors < u64::MAX
    &&& s.open_errors < u64::MAX
    &&& s.dropped_packets < u64::MAX
}

/// What a packet from the TUN leads to. A blocked IPv6 packet is counted and
/// dropped; any other is sealed under the next outbound sequence, which is given
/// back when sealing fails.
pub open spec fn outbound_step(p: PumpView, config: PumpConfig, h: HandshakeView, packet: Seq<u8>) -> (
    PumpView,
    ActionView,
) {
    let stats = counted_in(p.stats, packet.len() as int);
    if config.block_ipv6 && version_of(packet) == 6 {
        (
            PumpView {
                stats: PumpStats { dropped_packets: (stats.dropped_packets + 1) as u64, ..stats },
                ..p
            },
            ActionView::Continue,
        )
    } else if h.keys is Some && packet.len() <= GCM_MAX {
        (
            PumpView { stats, seq_out: seq_next(p.seq_out), ..p },
            ActionView::Send(sealed_record(h, p.seq_out, packet)->0),
        )
    } else {
        (
            PumpView {
                stats: PumpStats { seal_errors: (stats.seal_errors + 1) as u64, ..stats },
                ..p
            },
            ActionView::Continue,
        )
    }
}

/// What follows an attempt to send a record: it is counted, or the pump halts.
/// Its sequence is used up either way.
pub open spec fn sent_step(p: PumpView, len: int, ok: bool) -> (PumpView, ActionView) {
    if ok {
        (
            PumpView {
                stats: PumpStats {
                    packets_out: (p.stats.packets_out + 1) as u64,
                    bytes_out: (p.stats.bytes_out + len) as u64,
                    ..p.stats
                },
                ..p
            },
            ActionView::Continue,
        )
    } else {
        (p, ActionView::Halt)
    }
}

/// What a frame from the socket leads to. An empty frame is skipped; any other
/// is opened under the next inbound sequence, which is given back when it does
/// not open.
pub open spec fn inbound_step(p: PumpView, h: HandshakeView, frame: Seq<u8>) -> (
    PumpView,
    ActionView,
) {
    if frame.len() == 0 {
        (p, ActionView::Continue)
    } else if h.keys is Some && opened_record(h, p.seq_in, frame) is Some {
        (
            PumpView { seq_in: seq_next(p.seq_in), ..p },
            ActionView::Deliver(opened_record(h, p.seq_in, frame)->0),
        )
    } else {
        (
            PumpView {
                stats: PumpStats { open_errors: (p.stats.open_errors + 1) as u64, ..p.stats },
                ..p
            },
            ActionView::Continue,
        )
    }
}

/// What follows an attempt to deliver a packet into the TUN.
pub open spec fn delivered_step(p: PumpView, len: int, ok: bool) -> (PumpView, ActionView) {
    if ok {
        (
            PumpView {
                stats: PumpStats {
                    delivered_packets: (p.stats.delivered_packets + 1) as u64,
                    delivered_bytes: (p.stats.delivered_bytes + len) as u64,
                    ..p.stats
                },
                ..p
            },
            ActionView::Continue,
        )
    } else {
        (PumpView { seq_in: seq_back(p.seq_in), ..p }, ActionView::Halt)
    }
}

/// What the exit of a half leads to, whatever it exited for: the socket is shut
/// down, the other half is asked to stop, and the last half marks the pump as
/// stopped. The count of halves wraps.
pub open spec fn exit_step(p: PumpView) -> (PumpView, ActionView) {
    (
        PumpView {
            stop: true,
            alive: if p.alive == 0 {
                usize::MAX
            } else {
                (p.alive - 1) as usize
            },
            running: p.running && p.alive != 1,
            ..p
        },
        ActionView::Halt,
    )
}

/// One bidirectional tunnel over one TUN and one connected socket.
pub struct TunnelPump {
    running: bool,
    stop: bool,
    alive: usize,
    stats: PumpStats,
    seq_out: u64,
    seq_in: u64,
}

impl View for TunnelPump {
    type V = PumpView;

    closed spec fn view(&self) -> PumpView {
        PumpView {
            running: self.running,
            stop: self.stop,
            alive: self.alive,
            stats: self.stats,
            seq_out: self.seq_out,
            seq_in: self.seq_in,
        }
    }
}

impl TunnelPump {
    /// A pump before its first start.
    pub fn new() -> (r: TunnelPump)
        ensures
            r@ == idle_pump(),
    {
        TunnelPump {
            running: false,
            stop: false,
            alive: 0,
            stats: PumpStats::default(),
            seq_out: 0,
            seq_in: 0,
        }
    }

    /// Claims the pump for one tunnel. `next_out_seq` and `next_in_seq` continue
    /// the session's record sequences after handshake-time records. A running
    /// pump is not restarted.
    pub fn start(&mut self, next_out_seq: u64, next_in_seq: u64) -> (r: Result<(), PumpError>)
        ensures
            old(self)@.running ==> r == Err::<(), _>(PumpError::AlreadyRunning) && *final(self)
                == *old(self),
            !old(self)@.running ==> r == Ok::<(), PumpError>(()) && final(self)@ == (PumpView {
                running: true,
                stop: false,
                seq_out: next_out_seq,
                seq_in: next_in_seq,
                ..old(self)@
            }),
    {
        if self.running {
            return Err(PumpError::AlreadyRunning);
        }
        self.running = true;
        self.stop = false;
        self.seq_out = next_out_seq;
        self.seq_in = next_in_seq;
        Ok(())
    }

    /// Records that both halves are about to run.
    pub fn launch(&mut self)
        ensures
            final(self)@ == (PumpView { alive: 2, ..old(self)@ }),
    {
        self.alive = 2;
    }

    /// Asks both halves to stop. The caller shuts the socket down so the inbound
    /// read unblocks.
    pub fn stop(&mut self)
        ensures
            final(self)@ == (PumpView { stop: true, ..old(self)@ }),
    {
        self.stop = true;
    }

    /// Whether the halves have been asked to stop.
    pub fn stopping(&self) -> (r: bool)
        ensures
            r == self@.stop,
    {
        self.stop
    }

    /// False once both halves have exited, and before a start.
    pub fn is_running(&self) -> (r: bool)
        ensures
            r == self@.running,
    {
        self.running
    }

    /// The counters so far.
    pub fn stats(&self) -> (r: PumpStats)
        ensures
            r == self@.stats,
    {
        self.stats
    }

    /// Whether the counters have room for one more packet or record of this
    /// length.
    pub fn has_room(&self, len: usize) -> (r: bool)
        ensures
            r == room_for(self@.stats, len as int),
    {
        let s = self.stats;
        let n: u64 = len as u64;
        s.packets_in < u64::MAX && s.packets_out < u64::MAX && s.bytes_in <= u64::MAX - n
            && s.bytes_out <= u64::MAX - n && s.delivered_packets < u64::MAX && s.delivered_bytes
            <= u64::MAX - n && s.seal_errors < u64::MAX && s.open_errors < u64::MAX
            && s.dropped_packets < u64::MAX
    }

    /// A packet was read from the TUN.
    pub fn outbound_packet(
        &mut self,
        config: PumpConfig,
        handshake: &HandshakeState,
        packet: &[u8],
    ) -> (r: PumpAction)
        requires
            room_for(old(self)@.stats, packet@.len() as int),
        ensures
            (final(self)@, r@) == outbound_step(old(self)@, config, handshake@, packet@),
            r@ matches ActionView::Send(record) ==> record.len() == packet@.len() + TAG_LEN,
            r@ matches ActionView::Send(record) ==> handshake@.keys is Some && peer_opens(
                (handshake@.keys->0).0,
                handshake@.session_id,
                old(self)@.seq_out,
                record,
            ) == Some(packet@),
    {
        self.stats.packets_in = self.stats.packets_in + 1;
        self.stats.bytes_in = self.stats.bytes_in + packet.len() as u64;
        if config.block_ipv6 && ip_version(packet) == 6 {
            self.stats.dropped_packets = self.stats.dropped_packets + 1;
            return PumpAction::Continue;
        }
        match handshake.seal_record(self.seq_out, packet) {
            Ok(sealed) => {
                self.seq_out = self.seq_out.wrapping_add(1);
                PumpAction::Send(sealed)
            },
            Err(_) => {
                self.stats.seal_errors = self.stats.seal_errors + 1;
                PumpAction::Continue
            },
        }
    }

    /// An attempt to send a record of this length has ended.
    pub fn outbound_sent(&mut self, len: usize, ok: bool) -> (r: PumpAction)
        requires
            room_for(old(self)@.stats, len as int),
        ensures
            (final(self)@, r@) == sent_step(old(self)@, len as int, ok),
    {
        if ok {
            self.stats.packets_out = self.stats.packets_out + 1;
            self.stats.bytes_out = self.stats.bytes_out + len as u64;
            PumpAction::Continue
        } else {
            PumpAction::Halt
        }
    }

    /// A frame was read from the socket.
    pub fn inbound_frame(&mut self, handshake: &HandshakeState, frame: &[u8]) -> (r: PumpAction)
        requires
            room_for(old(self)@.stats, 0),
        ensures
            (final(self)@, r@) == inbound_step(old(self)@, handshake@, frame@),
            r@ matches ActionView::Deliver(packet) ==> packet.len() + TAG_LEN == frame@.len(),
            frame@.len() > 0 && handshake@.keys is Some && opened_record(
                handshake@,
                old(self)@.seq_in,
                frame@,
            ) is Some ==> r@ == ActionView::Deliver(
                opened_record(handshake@, old(self)@.seq_in, frame@)->0,
            ),
    {
        if frame.len() == 0 {
            return PumpAction::Continue;
        }
        match handshake.open_record(self.seq_in, frame) {
            Ok(packet) => {
                self.seq_in = self.seq_in.wrapping_add(1);
                PumpAction::Deliver(packet)
            },
            Err(_) => {
                self.stats.open_errors = self.stats.open_errors + 1;
                PumpAction::Continue
            },
        }
    }

    /// An attempt to deliver a packet of this length into the TUN has ended.
    pub fn inbound_delivered(&mut self, len: usize, ok: bool) -> (r: PumpAction)
        requires
            room_for(old(self)@.stats, len as int),
        ensures
            (final(self)@, r@) == delivered_step(old(self)@, len as int, ok),
    {
        if ok {
            self.stats.delivered_packets = self.stats.delivered_packets + 1;
            self.stats.delivered_bytes = self.stats.delivered_bytes + len as u64;
            PumpAction::Continue
        } else {
            self.seq_in = self.seq_in.wrapping_sub(1);
            PumpAction::Halt
        }
    }

    /// One half has exited, for whatever reason. The caller shuts the socket
    /// down.
    pub fn half_finished(&mut self) -> (r: PumpAction)
        ensures
            (final(self)@, r@) == exit_step(old(self)@),
    {
        self.stop = true;
        self.alive = self.alive.wrapping_sub(1);
        if self.alive == 0 {
            self.running = false;
        }
        PumpAction::Halt
    }

    /// Sequence of the next outbound record.
    pub fn next_out(&self) -> (r: u64)
        ensures
            r == self@.seq_out,
    {
        self.seq_out
    }

    /// Sequence of the next inbound record.
    pub fn next_in(&self) -> (r: u64)
        ensures
            r == self@.seq_in,
    {
        self.seq_in
    }

    /// Uses up the next outbound sequence, for a record sealed beside the pump.
    pub fn take_out(&mut self)
        ensures
            final(self)@ == (PumpView { seq_out: seq_next(old(self)@.seq_out), ..old(self)@ }),
    {
        self.seq_out = self.seq_out.wrapping_add(1);
    }

    /// Uses up the next inbound sequence, for a record opened beside the pump.
    pub fn take_in(&mut self)
        ensures
            final(self)@ == (PumpView { seq_in: seq_next(old(self)@.seq_in), ..old(self)@ }),
    {
        self.seq_in = self.seq_in.wrapping_add(1);
    }
}

impl Default for TunnelPump {
    /// A pump before its first start.
    fn default() -> (r: Self)
        ensures
            r@ == idle_pump(),
    {
        Self::new()
    }
}

// ---------------------------------------------------------------------------
// Laws
// ---------------------------------------------------------------------------

/// Law (leak shield): with IPv6 blocked, an IPv6 packet is never sealed and
/// never sent: it uses no sequence number, is counted as dropped, and the record
/// counters stay.
pub proof fn law_blocked_ipv6_never_leaves(
    p: PumpView,
    config: PumpConfig,
    h: HandshakeView,
    packet: Seq<u8>,
)
    requires
        config.block_ipv6,
        version_of(packet) == 6,
        room_for(p.stats, packet.len() as int),
    ensures
        ({
            let (next, action) = outbound_step(p, config, h, packet);
            &&& action is Continue
            &&& next.seq_out == p.seq_out && next.seq_in == p.seq_in
            &&& next.stats.dropped_packets == p.stats.dropped_packets + 1
            &&& next.stats.packets_out == p.stats.packets_out
            &&& next.stats.bytes_out == p.stats.bytes_out
        }),
{
}

/// Law: every other packet of a completed session is sealed, under the next
/// sequence, and the following one gets the sequence behind it, whether or not
/// the record could be sent.
pub proof fn law_outbound_sequence(
    p: PumpView,
    config: PumpConfig,
    h: HandshakeView,
    packet: Seq<u8>,
    len: int,
)
    requires
        !(config.block_ipv6 && version_of(packet) == 6),
        h.keys is Some,
        packet.len() <= GCM_MAX,
    ensures
        ({
            let (next, action) = outbound_step(p, config, h, packet);
            &&& action == ActionView::Send(sealed_record(h, p.seq_out, packet)->0)
            &&& next.seq_out == seq_next(p.seq_out)
            &&& next.seq_out != p.seq_out
            &&& sent_step(next, len, true).0.seq_out == next.seq_out
            &&& sent_step(next, len, false).0.seq_out == next.seq_out
        }),
{
}

/// Law: a frame that a peer sealed around a packet is delivered as that packet.
/// Whenever the session has keys and a non-empty frame opens under the receive
/// key at the next inbound sequence, exactly the opened bytes are delivered,
/// whatever they are; the inbound sequence moves by one, and nothing else
/// changes.
pub proof fn law_opened_frame_is_delivered(
    p: PumpView,
    h: HandshakeView,
    send: Seq<u8>,
    recv: Seq<u8>,
    frame: Seq<u8>,
    packet: Seq<u8>,
)
    requires
        h.keys == Some((send, recv)),
        frame.len() > 0,
        aes256_gcm_open_of(
            recv,
            sha256_of(
                ascii("shadevpn-nonce-server-v1"@) + ascii("shadevpn-purpose-data-v1"@)
                    + h.session_id + be64(p.seq_in as int),
            ).take(12),
            Seq::empty(),
            frame,
        ) == Some(packet),
    ensures
        inbound_step(p, h, frame).1 == ActionView::Deliver(packet),
        ({
            let next = inbound_step(p, h, frame).0;
            &&& p.seq_in < u64::MAX ==> next.seq_in == p.seq_in + 1
            &&& p.seq_in == u64::MAX ==> next.seq_in == 0
            &&& next == (PumpView { seq_in: next.seq_in, ..p })
        }),
{
    law_data_record_construction(h, send, recv, p.seq_in, frame);
}

/// Law: a frame that does not open is counted and skipped: nothing is delivered,
/// and its sequence stays the next one. An empty frame changes nothing at all,
/// and neither does any frame deliver something before the session has keys.
pub proof fn law_unopened_frame_is_skipped(
    p: PumpView,
    h: HandshakeView,
    send: Seq<u8>,
    recv: Seq<u8>,
    frame: Seq<u8>,
)
    requires
        p.stats.open_errors < u64::MAX,
    ensures
        frame.len() == 0 ==> inbound_step(p, h, frame) == (p, ActionView::Continue),
        frame.len() > 0 && (h.keys is None || (h.keys == Some((send, recv)) && aes256_gcm_open_of(
            recv,
            sha256_of(
                ascii("shadevpn-nonce-server-v1"@) + ascii("shadevpn-purpose-data-v1"@)
                    + h.session_id + be64(p.seq_in as int),
            ).take(12),
            Seq::empty(),
            frame,
        ) is None)) ==> {
            let (next, action) = inbound_step(p, h, frame);
            &&& action is Continue
            &&& next.stats.open_errors == p.stats.open_errors + 1
            &&& next == (PumpView {
                stats: PumpStats { open_errors: next.stats.open_errors, ..p.stats },
                ..p
            })
        },
{
    if h.keys == Some((send, recv)) {
        law_data_record_construction(h, send, recv, p.seq_in, frame);
    }
}

/// Law: a packet that is not blocked leaves as the AEAD seal of exactly its
/// bytes, under the send key and the nonce of the next outbound sequence; it is
/// counted as read, the outbound sequence moves by one, and nothing else
/// changes.
pub proof fn law_packet_is_sealed_and_sent(
    p: PumpView,
    config: PumpConfig,
    h: HandshakeView,
    send: Seq<u8>,
    recv: Seq<u8>,
    packet: Seq<u8>,
)
    requires
        h.keys == Some((send, recv)),
        packet.len() <= 0x10_0000_0000,
        !config.block_ipv6 || packet.len() == 0 || packet[0] < 0x60 || packet[0] >= 0x70,
        room_for(p.stats, packet.len() as int),
    ensures
        ({
            let (next, action) = outbound_step(p, config, h, packet);
            let record = aes256_gcm_seal_of(
                send,
                sha256_of(
                    ascii("shadevpn-nonce-client-v1"@) + ascii("shadevpn-purpose-data-v1"@)
                        + h.session_id + be64(p.seq_out as int),
                ).take(12),
                Seq::empty(),
                packet,
            );
            &&& action == ActionView::Send(record->0)
            &&& p.seq_out < u64::MAX ==> next.seq_out == p.seq_out + 1
            &&& p.seq_out == u64::MAX ==> next.seq_out == 0
            &&& next.stats.packets_in == p.stats.packets_in + 1
            &&& next.stats.bytes_in == p.stats.bytes_in + packet.len()
            &&& next == (PumpView {
                stats: PumpStats {
                    packets_in: next.stats.packets_in,
                    bytes_in: next.stats.bytes_in,
                    ..p.stats
                },
                seq_out: next.seq_out,
                ..p
            })
        }),
{
    law_data_record_construction(h, send, recv, p.seq_out, packet);
}

/// Law: a blocked packet is one whose first byte starts with the nibble 6, and
/// only where IPv6 is blocked; it is counted as read and as dropped, and nothing
/// else changes. A packet that cannot be sealed is counted as read and as a seal
/// error, and nothing else changes.
pub proof fn law_unsent_packet_is_counted(
    p: PumpView,
    config: PumpConfig,
    h: HandshakeView,
    packet: Seq<u8>,
)
    requires
        room_for(p.stats, packet.len() as int),
    ensures
        ({
            let (next, action) = outbound_step(p, config, h, packet);
            let blocked = config.block_ipv6 && packet.len() > 0 && 0x60 <= packet[0] < 0x70;
            let sealable = h.keys is Some && packet.len() <= 0x10_0000_0000;
            &&& next.stats.packets_in == p.stats.packets_in + 1
            &&& next.stats.bytes_in == p.stats.bytes_in + packet.len()
            &&& next.stats.dropped_packets == p.stats.dropped_packets + (if blocked {
                1int
            } else {
                0
            })
            &&& next.stats.seal_errors == p.stats.seal_errors + (if !blocked && !sealable {
                1int
            } else {
                0
            })
            &&& (action is Send) == (!blocked && sealable)
            &&& (blocked || !sealable ==> action is Continue && next == (PumpView {
                stats: PumpStats {
                    packets_in: next.stats.packets_in,
                    bytes_in: next.stats.bytes_in,
                    dropped_packets: next.stats.dropped_packets,
                    seal_errors: next.stats.seal_errors,
                    ..p.stats
                },
                ..p
            }))
        }),
{
}

/// Law: what is sent or delivered is counted, with its length, and the half goes
/// on; what is not sent or delivered is not counted, and the half stops. A
/// failed send leaves its sequence used up; a failed delivery gives back the
/// sequence that its frame was opened at.
pub proof fn law_attempts_are_counted(p: PumpView, len: int)
    requires
        0 <= len,
        room_for(p.stats, len),
    ensures
        ({
            let (next, action) = sent_step(p, len, true);
            &&& action is Continue
            &&& next.stats.packets_out == p.stats.packets_out + 1
            &&& next.stats.bytes_out == p.stats.bytes_out + len
            &&& next == (PumpView {
                stats: PumpStats {
                    packets_out: next.stats.packets_out,
                    bytes_out: next.stats.bytes_out,
                    ..p.stats
                },
                ..p
            })
        }),
        sent_step(p, len, false) == (p, ActionView::Halt),
        ({
            let (next, action) = delivered_step(p, len, true);
            &&& action is Continue
            &&& next.stats.delivered_packets == p.stats.delivered_packets + 1
            &&& next.stats.delivered_bytes == p.stats.delivered_bytes + len
            &&& next == (PumpView {
                stats: PumpStats {
                    delivered_packets: next.stats.delivered_packets,
                    delivered_bytes: next.stats.delivered_bytes,
                    ..p.stats
                },
                ..p
            })
        }),
        ({
            let (next, action) = delivered_step(p, len, false);
            &&& action is Halt
            &&& p.seq_in > 0 ==> next.seq_in == p.seq_in - 1
            &&& p.seq_in == 0 ==> next.seq_in == u64::MAX
            &&& next == (PumpView { seq_in: next.seq_in, ..p })
        }),
{
}

/// Law: a frame whose packet could not be delivered leaves the inbound sequence
/// where it was before the frame.
pub proof fn law_failed_delivery_gives_sequence_back(
    p: PumpView,
    h: HandshakeView,
    frame: Seq<u8>,
    len: int,
)
    requires
        inbound_step(p, h, frame).1 is Deliver,
    ensures
        delivered_step(inbound_step(p, h, frame).0, len, false).0.seq_in == p.seq_in,
{
}

/// Law: a fresh pump has counted nothing and is not running; the exit of a half
/// takes one off the halves alive, asks the other to stop and changes no counter
/// and no sequence, and the pump runs on exactly while another half is alive.
pub proof fn law_pump_life(p: PumpView)
    requires
        0 < p.alive <= 2,
    ensures
        ({
            let idle = idle_pump();
            &&& !idle.running && !idle.stop
            &&& idle.stats.packets_in == 0 && idle.stats.packets_out == 0
            &&& idle.stats.bytes_in == 0 && idle.stats.bytes_out == 0
            &&& idle.stats.delivered_packets == 0 && idle.stats.delivered_bytes == 0
            &&& idle.stats.seal_errors == 0 && idle.stats.open_errors == 0
            &&& idle.stats.dropped_packets == 0
        }),
        ({
            let (next, action) = exit_step(p);
            &&& action is Halt
            &&& next.stop
            &&& next.alive == p.alive - 1
            &&& next.running == (p.running && p.alive > 1)
            &&& next.stats == p.stats && next.seq_out == p.seq_out && next.seq_in == p.seq_in
        }),
{
}

/// A packet read from the TUN, and whether the record it is sealed into can be
/// sent.
pub struct OutboundEvent {
    pub packet: Seq<u8>,
    pub sent: bool,
}

/// The sequences that a run of the outbound half seals records under, in order.
/// A record that cannot be sent ends the run.
pub open spec fn run_sequences(
    p: PumpView,
    config: PumpConfig,
    h: HandshakeView,
    events: Seq<OutboundEvent>,
) -> Seq<u64>
    decreases events.len(),
{
    if events.len() == 0 {
        Seq::empty()
    } else {
        let (next, action) = outbound_step(p, config, h, events[0].packet);
        match action {
            ActionView::Send(record) => if events[0].sent {
                seq![p.seq_out] + run_sequences(
                    sent_step(next, record.len() as int, true).0,
                    config,
                    h,
                    events.skip(1),
                )
            } else {
                seq![p.seq_out]
            },
            _ => run_sequences(next, config, h, events.skip(1)),
        }
    }
}

/// Law: a run of the outbound half seals its records under consecutive
/// sequences, from the one it started at: no sequence is used twice and none is
/// skipped, whatever is dropped, refused or sent on the way.
pub proof fn law_run_sequences_are_consecutive(
    p: PumpView,
    config: PumpConfig,
    h: HandshakeView,
    events: Seq<OutboundEvent>,
)
    requires
        p.seq_out + events.len() <= u64::MAX,
    ensures
        run_sequences(p, config, h, events).len() <= events.len(),
        forall|i: int|
            0 <= i < run_sequences(p, config, h, events).len() ==> #[trigger] run_sequences(
                p,
                config,
                h,
                events,
            )[i] == p.seq_out + i,
    decreases events.len(),
{
    if events.len() > 0 {
        let (next, action) = outbound_step(p, config, h, events[0].packet);
        if action is Send {
            if events[0].sent {
                let after = sent_step(next, action->Send_0.len() as int, true).0;
                law_run_sequences_are_consecutive(after, config, h, events.skip(1));
            }
        } else {
            law_run_sequences_are_consecutive(next, config, h, events.skip(1));
        }
    }
}

/// Law: the two directions keep separate sequences: outbound work never moves
/// the inbound sequence, and inbound work never moves the outbound one.
pub proof fn law_directions_are_separate(
    p: PumpView,
    config: PumpConfig,
    h: HandshakeView,
    bytes: Seq<u8>,
    len: int,
    ok: bool,
)
    ensures
        outbound_step(p, config, h, bytes).0.seq_in == p.seq_in,
        sent_step(p, len, ok).0.seq_in == p.seq_in,
        inbound_step(p, h, bytes).0.seq_out == p.seq_out,
        delivered_step(p, len, ok).0.seq_out == p.seq_out,
{
}

/// Law: when either half of a started pump exits, the socket is shut down and
/// the other half is asked to stop at once; when that one has exited too, the
/// pump is stopped and can be started again.
pub proof fn law_either_half_stops_both(p: PumpView)
    requires
        p.running && p.alive == 2,
    ensures
        exit_step(p).1 is Halt,
        exit_step(p).0.stop && exit_step(p).0.running,
        exit_step(exit_step(p).0).1 is Halt,
        !exit_step(exit_step(p).0).0.running,
{
}

/// Law: the counters have room for a packet as long as none of them, with the
/// packet counted, passes 64 bits.
pub proof fn law_counters_have_room(s: PumpStats, len: int)
    requires
        0 <= len,
    ensures
        room_for(s, len) <==> {
            &&& s.packets_in + 1 <= u64::MAX && s.packets_out + 1 <= u64::MAX
            &&& s.bytes_in + len <= u64::MAX && s.bytes_out + len <= u64::MAX
            &&& s.delivered_packets + 1 <= u64::MAX && s.delivered_bytes + len <= u64::MAX
            &&& s.seal_errors + 1 <= u64::MAX && s.open_errors + 1 <= u64::MAX
            &&& s.dropped_packets + 1 <= u64::MAX
        },
{
}

} // verus!
