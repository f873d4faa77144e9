use nio_blockchain::p2p_transport::{TransportConfig};

#[test]
fn default_transport_config_is_valid() {
    let config = TransportConfig::default();

    assert!(config.validate().is_ok());
    assert!(config.connect_timeout_secs > 0);
    assert!(config.read_timeout_secs > 0);
    assert!(config.write_timeout_secs > 0);
}

#[test]
fn zero_connect_timeout_is_rejected() {
    let config = TransportConfig {
        connect_timeout_secs: 0,
        ..TransportConfig::default()
    };

    assert!(config.validate().is_err());
}

#[test]
fn zero_read_timeout_is_rejected() {
    let config = TransportConfig {
        read_timeout_secs: 0,
        ..TransportConfig::default()
    };

    assert!(config.validate().is_err());
}

#[test]
fn zero_write_timeout_is_rejected() {
    let config = TransportConfig {
        write_timeout_secs: 0,
        ..TransportConfig::default()
    };

    assert!(config.validate().is_err());
}
