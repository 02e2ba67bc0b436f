use ac_client::config::{load_config_uci, parse_config, parse_number, validate_config, ClientConfig, MtpType};
use ac_client::endpoint::{
    agent_endpoint, agent_topic, broker_address, controller_topic, mac_no_colons, sanitise_topic, subprotocol_echoed,
    EndpointId,
};
use ac_client::error::AcError;
use ac_client::text::to_decimal;
use ac_client::util::{detect_mac, mac_interfaces};

#[test]
fn defaults() {
    let c = ClientConfig::default();
    assert_eq!(c.server_port, 3490);
    assert_eq!(c.status_interval, 300);
    assert_eq!(c.controller_id, "oui:00005A:OptimACS-Controller-1");
    assert_eq!(c.mtp, MtpType::WebSocket);
    assert!(c.log_syslog && !c.daemonize);
    assert_eq!(MtpType::default(), MtpType::WebSocket);
}

#[test]
fn config_file() {
    let text = "# comment\n  SERVER_HOST = ctrl.example \nserver_port=notanumber\nstatus_interval = 60\nmtp = MQTT\nmqtt_url = mqtt://b:1884\nempty =\nnoequals\ndaemonize = yes\n";
    let c = parse_config(text);
    assert_eq!(c.server_host, "ctrl.example");
    assert_eq!(c.server_port, 3490);
    assert_eq!(c.status_interval, 60);
    assert_eq!(c.mtp, MtpType::Mqtt);
    assert_eq!(c.mqtt_url.as_deref(), Some("mqtt://b:1884"));
    assert!(c.daemonize);
    assert!(validate_config(&c).is_ok());
}

#[test]
fn uci_values() {
    let c = load_config_uci(&vec![
        ("server_port".to_string(), "+4000".to_string()),
        ("daemonize".to_string(), "1".to_string()),
        ("mtp".to_string(), "Both".to_string()),
        ("log_syslog".to_string(), "0".to_string()),
    ])
    .unwrap();
    assert_eq!(c.server_port, 4000);
    assert!(!c.daemonize);
    assert_eq!(c.mtp, MtpType::Both);
    assert!(!c.log_syslog);
}

#[test]
fn validation_errors() {
    let mut c = ClientConfig::default();
    assert_eq!(
        validate_config(&c),
        Err(AcError::Config("ws_url (or server_host) is required for WebSocket MTP".to_string()))
    );
    c.mtp = MtpType::Mqtt;
    assert_eq!(validate_config(&c), Err(AcError::Config("mqtt_url is required for MQTT MTP".to_string())));
    c.mqtt_url = Some("mqtt://b".to_string());
    c.controller_id = String::new();
    assert_eq!(validate_config(&c), Err(AcError::Config("controller_id is required".to_string())));
    c.ca_file = String::new();
    assert_eq!(validate_config(&c), Err(AcError::Config("ca_file is required".to_string())));
}

#[test]
fn numbers() {
    assert_eq!(parse_number("65535", 65535), Some(65535));
    assert_eq!(parse_number("65536", 65535), None);
    assert_eq!(parse_number("+7", 10), Some(7));
    assert_eq!(parse_number("", 10), None);
    assert_eq!(parse_number("+", 10), None);
    assert_eq!(parse_number("1a", 10), None);
    assert_eq!(to_decimal(0), "0");
    assert_eq!(to_decimal(18446744073709551615), "18446744073709551615");
}

#[test]
fn endpoint_ids_and_topics() {
    let id = EndpointId::from_mac("00005A", "aa:bb");
    assert_eq!(id.as_str(), "oui:00005A:aa:bb");
    assert_eq!(id.to_string(), "oui:00005A:aa:bb");
    assert_eq!(EndpointId::new("x".to_string()).as_str(), "x");
    assert_eq!(sanitise_topic("a:b#c+d"), "a%3Ab%23c%2Bd");
    assert_eq!(agent_topic("oui:1"), "usp/v1/agent/oui%3A1");
    assert_eq!(controller_topic("c"), "usp/v1/controller/c");
    assert_eq!(mac_no_colons("aa:bb:cc:dd:ee:ff"), "aabbccddeeff");
}

#[test]
fn broker_addresses() {
    assert_eq!(broker_address("mqtt://emqx:1884"), ("emqx".to_string(), 1884));
    assert_eq!(broker_address("mqtts://emqx"), ("emqx".to_string(), 1883));
    assert_eq!(broker_address("emqx:bad"), ("emqx".to_string(), 1883));
}

#[test]
fn mac_detection() {
    assert_eq!(mac_interfaces().len(), 9);
    let reads = vec![None, Some("00:00:00:00:00:00\n".to_string()), Some("  ".to_string()), Some("aa:bb:cc:dd:ee:ff\n".to_string())];
    assert_eq!(detect_mac(&reads), "aa:bb:cc:dd:ee:ff");
    assert_eq!(detect_mac(&vec![None, None]), "");
}

#[test]
fn agent_endpoint_choice() {
    assert_eq!(agent_endpoint("", "aa:bb").as_str(), "oui:00005A:aa:bb");
    assert_eq!(agent_endpoint("proto::agent-1", "aa:bb").as_str(), "proto::agent-1");
}

#[test]
fn subprotocol_echo() {
    assert!(subprotocol_echoed(Some("v1.usp")));
    assert!(subprotocol_echoed(Some("x, v1.usp ")));
    assert!(!subprotocol_echoed(Some("v1.usp2")));
    assert!(!subprotocol_echoed(None));
}
