use ac_client::stats::{
    arp_entries, default_gateway, free_mem_text, fw_version_text, load_avg_text, ssid_text, uptime_text, words_of,
};

#[test]
fn words_split_on_white_space() {
    assert_eq!(words_of("  a bb\tc \n"), vec!["a".to_string(), "bb".to_string(), "c".to_string()]);
    assert!(words_of("   ").is_empty());
}

#[test]
fn load_and_memory() {
    assert_eq!(load_avg_text("0.10 0.05 0.01 1/123 4567\n"), "0.10 0.05 0.01");
    assert_eq!(load_avg_text("0.5"), "0.5");
    assert_eq!(free_mem_text("MemTotal: 2000 kB\nMemFree:    1234 kB\n"), "1234");
    assert_eq!(free_mem_text("MemFree: x kB\n"), "0");
    assert_eq!(free_mem_text("MemTotal: 1 kB\n"), "");
}

#[test]
fn uptime_format() {
    assert_eq!(uptime_text(0), "0d 0h 0m 0s");
    assert_eq!(uptime_text(90061), "1d 1h 1m 1s");
}

#[test]
fn firmware_revision() {
    assert_eq!(fw_version_text(Some("DISTRIB_ID='OpenWrt'\nDISTRIB_REVISION='r1234'\n"), Some("x")), "r1234");
    assert_eq!(fw_version_text(Some("DISTRIB_ID='OpenWrt'\n"), Some(" 23.05\n")), "23.05");
    assert_eq!(fw_version_text(None, None), "");
}

#[test]
fn wireless_ssid() {
    let out = "phy#0\n\tInterface wlan0\n\t\tssid  home net \n\t\ttype AP\n";
    assert_eq!(ssid_text(out), "home net");
    assert_eq!(ssid_text("phy#0\n"), "");
}

#[test]
fn neighbour_table() {
    let text = "IP address HW type Flags HW address Mask Device\n192.168.1.20 0x1 0x2 00:40:8c:00:00:01 * br-lan\n192.168.1.21 0x1 0x0 00:00:00:00:00:00 * br-lan\n";
    assert_eq!(arp_entries(text), vec![("192.168.1.20".to_string(), "00:40:8c:00:00:01".to_string())]);
    assert!(arp_entries("").is_empty());
}

#[test]
fn routing_gateway() {
    let text = "Iface Destination Gateway Flags\nbr-lan 0001A8C0 00000000 0001\neth0 00000000 0101A8C0 0003\n";
    assert_eq!(default_gateway(text), "192.168.1.1");
    assert_eq!(default_gateway("Iface Destination Gateway\n"), "");
}
