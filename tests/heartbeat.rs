use ac_client::config::ClientConfig;
use ac_client::gnss::GnssPosition;
use ac_client::heartbeat::{build_status, StatusReadings};

fn readings() -> StatusReadings {
    StatusReadings {
        uptime: "1d 0h 0m 0s".to_string(),
        load_avg: "0.1 0.2 0.3".to_string(),
        free_mem: "100".to_string(),
        gateway: "192.168.1.254".to_string(),
        own_ip: "192.168.1.2".to_string(),
        ssid: "home".to_string(),
        fw_version: "r1".to_string(),
        modem_present: true,
        wireless_up: false,
    }
}

#[test]
fn status_with_fix() {
    let mut cfg = ClientConfig::default();
    cfg.mac_addr = "aa:bb".to_string();
    let pos = Some(GnssPosition { latitude: "48.117300".to_string(), longitude: "11.516667".to_string() });
    let s = build_status(&cfg, &pos, readings());
    assert_eq!(s.mac, "aa:bb");
    assert_eq!(s.gw, "192.168.1.254");
    assert_eq!(s.latitude, "48.117300");
    assert_eq!(s.modem_status, 1);
    assert_eq!(s.wireless_status, 0);
    assert!(s.nbs.is_empty() && s.users.is_empty());
}

#[test]
fn status_without_fix() {
    let s = build_status(&ClientConfig::default(), &None, readings());
    assert!(s.latitude.is_empty() && s.longitude.is_empty());
    assert_eq!(s.orion_ver, "r1");
}
