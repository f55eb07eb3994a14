//! Carrier contract shared by session state and transport implementations.
use vstd::prelude::*;
use crate::protocol::{Epoch, FlowId};

verus! {

/// The kind of encrypted transport carrying a session.
#[derive(Clone, Copy, Debug, PartialEq, Eq, Structural)]
pub enum CarrierKind {
    Quic,
    Tls,
}

/// The delivery semantics a logical flow requires.
#[derive(Clone, Copy, Debug, PartialEq, Eq, Structural)]
pub enum Reliability {
    Stream,
    Datagram,
}

/// What one carrier can transport.
#[derive(Clone, Copy, Debug, PartialEq, Eq, Structural)]
pub struct CarrierCapabilities {
    pub streams: bool,
    pub datagrams: bool,
    pub max_datagram_payload: Option<usize>,
}

impl CarrierCapabilities {
    pub open spec fn spec_supports(self, reliability: Reliability) -> bool {
        match reliability {
            Reliability::Stream => self.streams,
            Reliability::Datagram => self.datagrams,
        }
    }

    /// Whether this carrier can deliver the given reliability class.
    pub fn supports(self, reliability: Reliability) -> (supported: bool)
        ensures
            supported == self.spec_supports(reliability),
    {
        match reliability {
            Reliability::Stream => self.streams,
            Reliability::Datagram => self.datagrams,
        }
    }
}

/// Process-local identity of one carrier.
#[derive(Clone, Copy, Debug, PartialEq, Eq, Hash, Structural)]
pub struct CarrierId(pub u64);

/// Transport measurements reported by a carrier.
#[derive(Clone, Copy, Debug, PartialEq, Eq, Structural)]
pub struct CarrierHealth {
    pub round_trip_time_millis: Option<u64>,
    pub loss_parts_per_million: Option<u32>,
    pub is_healthy: bool,
}

#[derive(Clone, Copy, Debug, PartialEq, Eq, Structural)]
pub enum CarrierError {
    Closed,
    UnsupportedReliability(Reliability),
    DatagramTooLarge { maximum: usize, actual: usize },
    Transport,
}

/// Metadata that the session supplies when opening a carrier stream.
///
/// It is deliberately not acknowledgement state: transport completion is
/// evidence for the session, never the session's delivery truth.
#[derive(Clone, Copy, Debug, PartialEq, Eq, Structural)]
pub struct StreamRequest {
    pub flow_id: FlowId,
    pub epoch: Epoch,
}

/// Bounded QUIC transport settings shared by the client and listener layers.
/// Durations are in milliseconds.
#[derive(Clone, Debug, PartialEq, Eq, Structural)]
pub struct QuicTransportProfile {
    pub max_bidirectional_streams: u32,
    pub stream_receive_window: u32,
    pub connection_receive_window: u32,
    pub send_window: u64,
    pub idle_timeout: u64,
    pub keep_alive_interval: Option<u64>,
    pub datagram_receive_buffer_bytes: usize,
    pub datagram_send_buffer_bytes: usize,
}

#[derive(Clone, Copy, Debug, PartialEq, Eq, Structural)]
pub enum QuicTransportProfileError {
    ZeroStreamLimit,
    ZeroStreamWindow,
    ConnectionWindowTooSmall,
    ZeroSendWindow,
    ZeroIdleTimeout,
    KeepAliveNotShorterThanIdleTimeout,
    ZeroDatagramBuffer,
    ValueOutOfRange,
}

/// The first rule a transport profile breaks, if any.
pub open spec fn spec_profile_error(p: QuicTransportProfile) -> Option<QuicTransportProfileError> {
    if p.max_bidirectional_streams == 0 {
        Some(QuicTransportProfileError::ZeroStreamLimit)
    } else if p.stream_receive_window == 0 {
        Some(QuicTransportProfileError::ZeroStreamWindow)
    } else if p.connection_receive_window < p.stream_receive_window {
        Some(QuicTransportProfileError::ConnectionWindowTooSmall)
    } else if p.send_window == 0 {
        Some(QuicTransportProfileError::ZeroSendWindow)
    } else if p.idle_timeout == 0 {
        Some(QuicTransportProfileError::ZeroIdleTimeout)
    } else if p.keep_alive_interval matches Some(interval) && (interval == 0 || interval
        >= p.idle_timeout) {
        Some(QuicTransportProfileError::KeepAliveNotShorterThanIdleTimeout)
    } else if p.datagram_receive_buffer_bytes == 0 || p.datagram_send_buffer_bytes == 0 {
        Some(QuicTransportProfileError::ZeroDatagramBuffer)
    } else {
        None
    }
}

impl Default for QuicTransportProfile {
    fn default() -> (profile: Self)
        ensures
            profile.max_bidirectional_streams == 64,
            profile.stream_receive_window == 256 * 1024,
            profile.connection_receive_window == 4 * 1024 * 1024,
            profile.send_window == 4 * 1024 * 1024,
            profile.idle_timeout == 30_000,
            profile.keep_alive_interval is None,
            profile.datagram_receive_buffer_bytes == 256 * 1024,
            profile.datagram_send_buffer_bytes == 256 * 1024,
    {
        QuicTransportProfile {
            max_bidirectional_streams: 64,
            stream_receive_window: 256 * 1024,
            connection_receive_window: 4 * 1024 * 1024,
            send_window: 4 * 1024 * 1024,
            idle_timeout: 30_000,
            keep_alive_interval: None,
            datagram_receive_buffer_bytes: 256 * 1024,
            datagram_send_buffer_bytes: 256 * 1024,
        }
    }
}

impl QuicTransportProfile {
    /// Accepts the profile unless a limit is zero or inconsistent; reports the
    /// first such rule.
    pub fn validate(&self) -> (valid: Result<(), QuicTransportProfileError>)
        ensures
            match spec_profile_error(*self) {
                None => valid is Ok,
                Some(e) => valid == Err::<(), QuicTransportProfileError>(e),
            },
    {
        if self.max_bidirectional_streams == 0 {
            return Err(QuicTransportProfileError::ZeroStreamLimit);
        }
        if self.stream_receive_window == 0 {
            return Err(QuicTransportProfileError::ZeroStreamWindow);
        }
        if self.connection_receive_window < self.stream_receive_window {
            return Err(QuicTransportProfileError::ConnectionWindowTooSmall);
        }
        if self.send_window == 0 {
            return Err(QuicTransportProfileError::ZeroSendWindow);
        }
        if self.idle_timeout == 0 {
            return Err(QuicTransportProfileError::ZeroIdleTimeout);
        }
        if let Some(interval) = self.keep_alive_interval {
            if interval == 0 || interval >= self.idle_timeout {
                return Err(QuicTransportProfileError::KeepAliveNotShorterThanIdleTimeout);
            }
        }
        if self.datagram_receive_buffer_bytes == 0 || self.datagram_send_buffer_bytes == 0 {
            return Err(QuicTransportProfileError::ZeroDatagramBuffer);
        }
        Ok(())
    }
}

/// `a - b`, or zero when `b` exceeds `a`.
pub open spec fn spec_saturating_sub(a: u64, b: u64) -> u64 {
    if a >= b {
        (a - b) as u64
    } else {
        0
    }
}

/// Losses per million sent packets, saturating at the largest `u32`; none
/// for an idle path.
pub open spec fn spec_loss_ppm(lost_packets: u64, sent_packets: u64) -> Option<u32> {
    if sent_packets == 0 {
        None
    } else {
        let scaled = if lost_packets * 1_000_000 > u64::MAX {
            u64::MAX as int
        } else {
            lost_packets * 1_000_000
        };
        let ratio = scaled / (sent_packets as int);
        Some(
            if ratio > u32::MAX {
                u32::MAX
            } else {
                ratio as u32
            },
        )
    }
}

/// Losses per million sent packets over one measurement interval.
pub fn loss_parts_per_million(lost_packets: u64, sent_packets: u64) -> (loss: Option<u32>)
    ensures
        loss == spec_loss_ppm(lost_packets, sent_packets),
{
    if sent_packets == 0 {
        return None;
    }
    let scaled: u64 = match lost_packets.checked_mul(1_000_000) {
        Some(value) => value,
        None => u64::MAX,
    };
    let ratio = scaled / sent_packets;
    Some(
        if ratio > 4294967295u64 {
            4294967295u32
        } else {
            ratio as u32
        },
    )
}

/// Cumulative transport counters from the previous health sample.
#[derive(Clone, Copy, Debug, Default, PartialEq, Eq, Structural)]
pub struct HealthCounters {
    pub sent_packets: u64,
    pub lost_packets: u64,
    pub sent_plpmtud_probes: u64,
}

impl HealthCounters {
    /// Samples the loss over only the interval since the previous sample,
    /// excluding path-MTU probes, and remembers the new totals.
    pub fn observe(&mut self, sent_packets: u64, lost_packets: u64, sent_plpmtud_probes: u64) -> (loss: Option<u32>)
        ensures
            loss == spec_loss_ppm(
                spec_saturating_sub(lost_packets, old(self).lost_packets),
                spec_saturating_sub(
                    spec_saturating_sub(sent_packets, sent_plpmtud_probes),
                    spec_saturating_sub(old(self).sent_packets, old(self).sent_plpmtud_probes),
                ),
            ),
            *final(self) == (HealthCounters { sent_packets, lost_packets, sent_plpmtud_probes }),
    {
        let application_packets = sent_packets.saturating_sub(sent_plpmtud_probes);
        let prior_application_packets = self.sent_packets.saturating_sub(self.sent_plpmtud_probes);
        let loss = loss_parts_per_million(
            lost_packets.saturating_sub(self.lost_packets),
            application_packets.saturating_sub(prior_application_packets),
        );
        self.sent_packets = sent_packets;
        self.lost_packets = lost_packets;
        self.sent_plpmtud_probes = sent_plpmtud_probes;
        loss
    }
}

} // verus!
