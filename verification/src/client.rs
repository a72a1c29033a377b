use vstd::prelude::*;

use crate::codec::decode_envelope;
use crate::codec::parse_envelope;
use crate::codec::Envelope;
use crate::codec::EnvelopeView;

verus! {

/// Lifecycle of one connection handler.
#[derive(Clone, Copy, Debug, PartialEq, Eq, Structural)]
pub enum Phase {
    Connecting,
    Open,
    Closing,
    Closed,
}

/// One incoming transport frame, as the duplex channel hands it up.
pub enum Frame {
    /// A peer heartbeat carrying an opaque payload to echo back.
    Ping(Vec<u8>),
    /// The peer acknowledged our heartbeat.
    Pong,
    /// A text frame carrying one wire envelope.
    Text(String),
    /// Opaque binary data.
    Binary(Vec<u8>),
    /// The peer asked to close the connection.
    Close,
}

/// What the transport layer must now do on the handler's behalf. The
/// handler only decides; it performs no transport work itself.
pub enum Action {
    /// Acknowledge the peer's heartbeat with this payload, verbatim.
    Pong(Vec<u8>),
    /// Echo the binary data back, verbatim.
    EchoBinary(Vec<u8>),
    /// Relay an activation to the router, naming this connection as the
    /// live handle.
    Activate { identifier: String, credential: String },
    /// Relay one message to the router for a routing decision.
    Route { next: String, mail: String },
    /// Tell the router this identifier went away, then finish the close.
    Disconnect { id: String },
    /// A malformed envelope was dropped, with no state change and the
    /// connection left open; worth logging.
    Malformed,
    /// Nothing: a heartbeat was noted.
    Ignore,
}

/// The per-connection protocol handler: decodes envelopes, turns them into
/// router requests, and tracks its own liveness timestamp. One instance
/// exists per accepted connection.
pub struct Client {
    /// The identifier this connection activated as; empty until then.
    pub id: String,
    /// Last-seen time, refreshed by heartbeats.
    pub hb: u64,
    pub phase: Phase,
}

impl Client {
    /// A handler for a connection that has just been accepted.
    pub fn new(now: u64) -> (c: Client)
        ensures
            c.id@ == Seq::<char>::empty(),
            c.hb == now,
            c.phase == Phase::Connecting,
    {
        Client { id: String::new(), hb: now, phase: Phase::Connecting }
    }

    /// The transport finished its handshake: the channel is usable.
    pub fn on_open(&mut self)
        requires
            old(self).phase == Phase::Connecting,
        ensures
            final(self).phase == Phase::Open,
            final(self).id == old(self).id,
            final(self).hb == old(self).hb,
    {
        self.phase = Phase::Open;
    }

    /// The channel is gone; nothing may be decided for it any more.
    pub fn on_closed(&mut self)
        ensures
            final(self).phase == Phase::Closed,
            final(self).id == old(self).id,
            final(self).hb == old(self).hb,
    {
        self.phase = Phase::Closed;
    }

    /// Whether this connection has been silent for at least `timeout` ticks
    /// at time `now`. A silent connection should be deactivated and closed.
    pub fn idle_expired(&self, now: u64, timeout: u64) -> (r: bool)
        ensures
            r == (self.hb + timeout <= now),
    {
        timeout <= now && self.hb <= now - timeout
    }

    /// Handles one incoming frame and decides what the transport must do
    /// next. Heartbeats refresh the last-seen time; a well-formed envelope
    /// becomes the matching router request (an activation also records the
    /// identifier, so a later close can deactivate it); a malformed
    /// envelope is dropped with no state change and the connection left
    /// open; a peer close turns into a deactivation request and moves the
    /// handler to `Closing`.
    pub fn on_frame(&mut self, frame: Frame, now: u64) -> (action: Action)
        requires
            old(self).phase == Phase::Open,
        ensures
            (match frame {
                Frame::Ping(p) => final(self).phase == Phase::Open
                    && final(self).id == old(self).id
                    && final(self).hb == now
                    && action == Action::Pong(p),
                Frame::Pong => final(self).phase == Phase::Open
                    && final(self).id == old(self).id
                    && final(self).hb == now
                    && action == Action::Ignore,
                Frame::Binary(b) => *final(self) == *old(self)
                    && action == Action::EchoBinary(b),
                Frame::Text(t) => (match parse_envelope(t@) {
                    Some(env) => match env {
                        EnvelopeView::ActivationMessage { identifier, credential } =>
                            final(self).phase == Phase::Open
                            && final(self).hb == old(self).hb
                            && final(self).id@ == identifier
                            && (action matches Action::Activate { identifier: aid, credential: acred }
                                && aid@ == identifier && acred@ == credential),
                        EnvelopeView::SendMail { next, mail } => *final(self) == *old(self)
                            && (action matches Action::Route { next: anext, mail: amail }
                                && anext@ == next && amail@ == mail),
                        EnvelopeView::Empty => final(self).phase == Phase::Open
                            && final(self).id == old(self).id
                            && final(self).hb == now
                            && action == Action::Ignore,
                    },
                    None => *final(self) == *old(self) && action == Action::Malformed,
                }),
                Frame::Close => final(self).phase == Phase::Closing
                    && final(self).id == old(self).id
                    && final(self).hb == old(self).hb
                    && action == (Action::Disconnect { id: old(self).id }),
            }),
    {
        match frame {
            Frame::Ping(p) => {
                self.hb = now;
                Action::Pong(p)
            },
            Frame::Pong => {
                self.hb = now;
                Action::Ignore
            },
            Frame::Binary(b) => Action::EchoBinary(b),
            Frame::Text(t) => match decode_envelope(t.as_str()) {
                Ok(Envelope::ActivationMessage { identifier, credential }) => {
                    self.id = identifier.clone();
                    Action::Activate { identifier, credential }
                },
                Ok(Envelope::SendMail { next, mail }) => Action::Route { next, mail },
                Ok(Envelope::Empty) => {
                    self.hb = now;
                    Action::Ignore
                },
                Err(_) => Action::Malformed,
            },
            Frame::Close => {
                self.phase = Phase::Closing;
                Action::Disconnect { id: self.id.clone() }
            },
        }
    }
}

} // verus!
