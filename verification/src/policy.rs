//! Placement recommendations are values, never session mutations.
use vstd::prelude::*;
use crate::carrier::{CarrierHealth, CarrierKind, Reliability, spec_saturating_sub};

verus! {

/// What a logical flow needs from its carrier.
#[derive(Clone, Copy, Debug, PartialEq, Eq, Structural)]
pub struct FlowRequirement {
    pub reliability: Reliability,
}

/// TLS carries reliable streams only. A caller must preserve or explicitly
/// reject datagram semantics instead of silently encapsulating them.
pub fn fallback_supports(requirement: FlowRequirement) -> (supported: bool)
    ensures
        supported <==> requirement.reliability == Reliability::Stream,
{
    match requirement.reliability {
        Reliability::Stream => true,
        Reliability::Datagram => false,
    }
}

#[derive(Clone, Copy, Debug, PartialEq, Eq, Structural)]
pub enum FallbackMode {
    Cold,
    Warm,
}

#[derive(Clone, Copy, Debug, PartialEq, Eq, Structural)]
pub enum TransitionReason {
    PrimaryUnhealthy,
    PrimaryRecovered,
    LossThresholdExceeded,
    LatencyThresholdExceeded,
}

#[derive(Clone, Copy, Debug, PartialEq, Eq, Structural)]
pub enum TransitionDecision {
    Stay,
    Transition { mode: FallbackMode, reason: TransitionReason, to: CarrierKind },
}

/// One health observation of a carrier at a point in time.
#[derive(Clone, Copy, Debug, PartialEq, Eq, Structural)]
pub struct CarrierObservation {
    pub kind: CarrierKind,
    pub health: CarrierHealth,
    pub at_millis: u64,
}

/// Hysteresis and rate limits for carrier changes. The policy is pure so its
/// decision can be replayed from redacted observations.
#[derive(Clone, Copy, Debug, PartialEq, Eq, Structural)]
pub struct TransitionPolicy {
    pub fallback_mode: FallbackMode,
    pub unhealthy_observations: u32,
    pub recovery_observations: u32,
    pub minimum_transition_interval_millis: u64,
    pub maximum_loss_parts_per_million: u32,
    pub maximum_round_trip_time_millis: u64,
}

impl TransitionPolicy {
    /// The reason and target of a carrier change, before rate limiting.
    pub open spec fn spec_reason(
        self,
        active: CarrierKind,
        primary: CarrierObservation,
        consecutive_unhealthy: u32,
        consecutive_recovered: u32,
    ) -> Option<(TransitionReason, CarrierKind)> {
        if active == CarrierKind::Quic && !primary.health.is_healthy && consecutive_unhealthy
            >= self.unhealthy_observations {
            Some((TransitionReason::PrimaryUnhealthy, CarrierKind::Tls))
        } else if active == CarrierKind::Quic && (primary.health.loss_parts_per_million matches Some(
            loss,
        ) && loss > self.maximum_loss_parts_per_million) && consecutive_unhealthy
            >= self.unhealthy_observations {
            Some((TransitionReason::LossThresholdExceeded, CarrierKind::Tls))
        } else if active == CarrierKind::Quic && (primary.health.round_trip_time_millis matches Some(
            rtt,
        ) && rtt > self.maximum_round_trip_time_millis) && consecutive_unhealthy
            >= self.unhealthy_observations {
            Some((TransitionReason::LatencyThresholdExceeded, CarrierKind::Tls))
        } else if active == CarrierKind::Tls && primary.health.is_healthy && consecutive_recovered
            >= self.recovery_observations {
            Some((TransitionReason::PrimaryRecovered, CarrierKind::Quic))
        } else {
            None
        }
    }

    /// The full decision: fallback must be usable, changes are rate limited,
    /// and then the first matching reason applies.
    pub open spec fn spec_decide(
        self,
        active: CarrierKind,
        primary: CarrierObservation,
        fallback: CarrierObservation,
        consecutive_unhealthy: u32,
        consecutive_recovered: u32,
        last_transition_at_millis: Option<u64>,
    ) -> TransitionDecision {
        if active == CarrierKind::Quic && (fallback.kind != CarrierKind::Tls
            || !fallback.health.is_healthy) {
            TransitionDecision::Stay
        } else if last_transition_at_millis matches Some(last) && spec_saturating_sub(
            primary.at_millis,
            last,
        ) < self.minimum_transition_interval_millis {
            TransitionDecision::Stay
        } else {
            match self.spec_reason(active, primary, consecutive_unhealthy, consecutive_recovered) {
                Some((reason, to)) => TransitionDecision::Transition {
                    mode: self.fallback_mode,
                    reason,
                    to,
                },
                None => TransitionDecision::Stay,
            }
        }
    }

    /// Recommends whether to change carriers. A move to TLS needs a healthy
    /// TLS fallback; every move needs the configured number of confirming
    /// observations and respects the minimum interval since the last move;
    /// a move always leaves the active carrier.
    pub fn decide(
        self,
        active: CarrierKind,
        primary: CarrierObservation,
        fallback: CarrierObservation,
        consecutive_unhealthy: u32,
        consecutive_recovered: u32,
        last_transition_at_millis: Option<u64>,
    ) -> (decision: TransitionDecision)
        ensures
            decision == self.spec_decide(
                active,
                primary,
                fallback,
                consecutive_unhealthy,
                consecutive_recovered,
                last_transition_at_millis,
            ),
            decision matches TransitionDecision::Transition { mode, to, .. } ==> {
                &&& mode == self.fallback_mode
                &&& to != active
                &&& to == CarrierKind::Tls ==> fallback.kind == CarrierKind::Tls
                    && fallback.health.is_healthy && consecutive_unhealthy
                    >= self.unhealthy_observations
                &&& to == CarrierKind::Quic ==> primary.health.is_healthy && consecutive_recovered
                    >= self.recovery_observations
                &&& last_transition_at_millis matches Some(last) ==> spec_saturating_sub(
                    primary.at_millis,
                    last,
                ) >= self.minimum_transition_interval_millis
            },
    {
        if active == CarrierKind::Quic && (fallback.kind != CarrierKind::Tls
            || !fallback.health.is_healthy) {
            return TransitionDecision::Stay;
        }
        if let Some(last) = last_transition_at_millis {
            if primary.at_millis.saturating_sub(last) < self.minimum_transition_interval_millis {
                return TransitionDecision::Stay;
            }
        }
        let quic = active == CarrierKind::Quic;
        let confirmed = consecutive_unhealthy >= self.unhealthy_observations;
        let lossy = match primary.health.loss_parts_per_million {
            Some(loss) => loss > self.maximum_loss_parts_per_million,
            None => false,
        };
        let slow = match primary.health.round_trip_time_millis {
            Some(rtt) => rtt > self.maximum_round_trip_time_millis,
            None => false,
        };
        let reason = if quic && !primary.health.is_healthy && confirmed {
            Some((TransitionReason::PrimaryUnhealthy, CarrierKind::Tls))
        } else if quic && lossy && confirmed {
            Some((TransitionReason::LossThresholdExceeded, CarrierKind::Tls))
        } else if quic && slow && confirmed {
            Some((TransitionReason::LatencyThresholdExceeded, CarrierKind::Tls))
        } else if active == CarrierKind::Tls && primary.health.is_healthy
            && consecutive_recovered >= self.recovery_observations {
            Some((TransitionReason::PrimaryRecovered, CarrierKind::Quic))
        } else {
            None
        };
        match reason {
            Some((reason, to)) => TransitionDecision::Transition { mode: self.fallback_mode, reason, to },
            None => TransitionDecision::Stay,
        }
    }
}

} // verus!
