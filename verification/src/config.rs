//! Flight-controller link configuration and the consistency rules of the
//! brain's configuration.
use vstd::prelude::*;
use crate::error::BrainError;
use crate::text::{owned, same_text};

verus! {

/// Connection to the flight controller.
#[derive(Debug, Clone)]
pub struct FcuConfig {
    /// Transport: "mock" | "serial" | "udp" | "can".
    pub transport: String,
    /// Serial device path (serial transport).
    pub serial_port: String,
    /// Baud rate.
    pub baud_rate: u32,
    /// UDP target address (udp transport).
    pub udp_target: String,
}

impl Default for FcuConfig {
    fn default() -> (c: Self)
        ensures
            c.transport@ == "mock"@,
            c.serial_port@ == "/dev/ttyS0"@,
            c.baud_rate == 921_600,
            c.udp_target@ == "127.0.0.1:14550"@,
    {
        FcuConfig {
            transport: owned("mock"),
            serial_port: owned("/dev/ttyS0"),
            baud_rate: 921_600,
            udp_target: owned("127.0.0.1:14550"),
        }
    }
}

/// The first consistency rule a configuration breaks, as its error detail;
/// `None` when it breaks none. The geofence and battery rules are judged by
/// the caller on the floating-point safety parameters.
pub open spec fn config_problem(
    heartbeat_period_ms: u64,
    failsafe_timeout_ms: u64,
    tick_period_ms: u64,
    fcu: FcuConfig,
    geofence_positive: bool,
    battery_thresholds_ordered: bool,
) -> Option<Seq<char>> {
    if failsafe_timeout_ms == 0 {
        Some("failsafe_timeout_ms must be > 0"@)
    } else if heartbeat_period_ms == 0 {
        Some("heartbeat_period_ms must be > 0"@)
    } else if tick_period_ms == 0 {
        Some("tick_period_ms must be > 0"@)
    } else if fcu.serial_port@.len() == 0 && fcu.transport@ == "serial"@ {
        Some("serial transport requires a non-empty serial_port"@)
    } else if fcu.transport@ == "serial"@ && fcu.baud_rate == 0 {
        Some("serial transport requires a non-zero baud_rate"@)
    } else if fcu.transport@ == "udp"@ && fcu.udp_target@.len() == 0 {
        Some("udp transport requires a non-empty udp_target"@)
    } else if !geofence_positive {
        Some("geofence radius/altitude must be positive"@)
    } else if !battery_thresholds_ordered {
        Some("battery thresholds must satisfy critical < rth < low"@)
    } else {
        None
    }
}

/// Checks the configuration rules in order and reports the first one broken
/// as a configuration error.
pub fn check_config(
    heartbeat_period_ms: u64,
    failsafe_timeout_ms: u64,
    tick_period_ms: u64,
    fcu: &FcuConfig,
    geofence_positive: bool,
    battery_thresholds_ordered: bool,
) -> (r: Result<(), BrainError>)
    ensures
        ({
            let p = config_problem(
                heartbeat_period_ms,
                failsafe_timeout_ms,
                tick_period_ms,
                *fcu,
                geofence_positive,
                battery_thresholds_ordered,
            );
            &&& r is Ok <==> p is None
            &&& r matches Err(e) ==> (e matches BrainError::Config(m) && m@ == p->Some_0)
        }),
{
    if failsafe_timeout_ms == 0 {
        return Err(BrainError::Config(owned("failsafe_timeout_ms must be > 0")));
    }
    if heartbeat_period_ms == 0 {
        return Err(BrainError::Config(owned("heartbeat_period_ms must be > 0")));
    }
    if tick_period_ms == 0 {
        return Err(BrainError::Config(owned("tick_period_ms must be > 0")));
    }
    let serial = same_text(fcu.transport.as_str(), "serial");
    if fcu.serial_port.as_str().is_empty() && serial {
        return Err(
            BrainError::Config(owned("serial transport requires a non-empty serial_port")),
        );
    }
    if serial && fcu.baud_rate == 0 {
        return Err(BrainError::Config(owned("serial transport requires a non-zero baud_rate")));
    }
    if same_text(fcu.transport.as_str(), "udp") && fcu.udp_target.as_str().is_empty() {
        return Err(BrainError::Config(owned("udp transport requires a non-empty udp_target")));
    }
    if !geofence_positive {
        return Err(BrainError::Config(owned("geofence radius/altitude must be positive")));
    }
    if !battery_thresholds_ordered {
        return Err(
            BrainError::Config(owned("battery thresholds must satisfy critical < rth < low")),
        );
    }
    Ok(())
}

/// A configuration is accepted exactly when every period is positive, a serial
/// link names a port and a baud rate, a UDP link names a target, and the safety
/// parameters are consistent; the settings of the transports not selected are
/// never looked at.
pub proof fn law_config_accepted(
    heartbeat_period_ms: u64,
    failsafe_timeout_ms: u64,
    tick_period_ms: u64,
    fcu: FcuConfig,
    geofence_positive: bool,
    battery_thresholds_ordered: bool,
)
    ensures
        config_problem(
            heartbeat_period_ms,
            failsafe_timeout_ms,
            tick_period_ms,
            fcu,
            geofence_positive,
            battery_thresholds_ordered,
        ) is None <==> {
            &&& heartbeat_period_ms > 0
            &&& failsafe_timeout_ms > 0
            &&& tick_period_ms > 0
            &&& fcu.transport@ == "serial"@ ==> fcu.serial_port@.len() > 0 && fcu.baud_rate > 0
            &&& fcu.transport@ == "udp"@ ==> fcu.udp_target@.len() > 0
            &&& geofence_positive
            &&& battery_thresholds_ordered
        },
{
}

} // verus!
