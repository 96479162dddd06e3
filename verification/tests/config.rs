use smart_brain::config::{check_config, FcuConfig};
use smart_brain::error::BrainError;

fn config_message(r: Result<(), BrainError>) -> String {
    match r {
        Err(BrainError::Config(m)) => m,
        other => panic!("expected a configuration error, got {:?}", other),
    }
}

#[test]
fn default_fcu_config() {
    let f = FcuConfig::default();
    assert_eq!(f.transport, "mock");
    assert_eq!(f.serial_port, "/dev/ttyS0");
    assert_eq!(f.baud_rate, 921_600);
    assert_eq!(f.udp_target, "127.0.0.1:14550");
}

#[test]
fn default_config_is_valid() {
    assert!(check_config(100, 500, 20, &FcuConfig::default(), true, true).is_ok());
}

#[test]
fn validates_zero_periods() {
    let f = FcuConfig::default();
    assert_eq!(config_message(check_config(100, 500, 0, &f, true, true)), "tick_period_ms must be > 0");
    assert_eq!(config_message(check_config(0, 500, 20, &f, true, true)), "heartbeat_period_ms must be > 0");
    assert_eq!(config_message(check_config(0, 0, 0, &f, true, true)), "failsafe_timeout_ms must be > 0");
}

#[test]
fn validates_serial_port_requirement() {
    let f = FcuConfig {
        transport: "serial".into(),
        serial_port: String::new(),
        baud_rate: 0,
        udp_target: String::new(),
    };
    assert_eq!(
        config_message(check_config(100, 500, 20, &f, true, true)),
        "serial transport requires a non-empty serial_port"
    );
    let f = FcuConfig { serial_port: "/dev/ttyUSB0".into(), ..f };
    assert_eq!(
        config_message(check_config(100, 500, 20, &f, true, true)),
        "serial transport requires a non-zero baud_rate"
    );
}

#[test]
fn validates_udp_target_requirement() {
    let f = FcuConfig {
        transport: "udp".into(),
        serial_port: String::new(),
        baud_rate: 0,
        udp_target: String::new(),
    };
    assert_eq!(
        config_message(check_config(100, 500, 20, &f, true, true)),
        "udp transport requires a non-empty udp_target"
    );
}

#[test]
fn validates_safety_parameters_in_order() {
    let f = FcuConfig::default();
    assert_eq!(
        config_message(check_config(100, 500, 20, &f, false, false)),
        "geofence radius/altitude must be positive"
    );
    assert_eq!(
        config_message(check_config(100, 500, 20, &f, true, false)),
        "battery thresholds must satisfy critical < rth < low"
    );
}
