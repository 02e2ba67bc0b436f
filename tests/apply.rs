use ac_client::apply::{build_uci_batch, DhcpHost, HostEntry, InterfaceConfig, SystemConfig, WirelessConfig};
use ac_client::config::ClientConfig;

#[test]
fn uci_batch_commands() {
    let sc = SystemConfig {
        hostname: "ap1".to_string(),
        interfaces: vec![InterfaceConfig {
            name: "eth0".to_string(),
            network_name: Some("lan".to_string()),
            con_type: "DHCP".to_string(),
            ip: "192.168.1.1".to_string(),
            netmask: String::new(),
            gateway: String::new(),
            dns: String::new(),
            wireless: Some(WirelessConfig {
                dev_name: "radio0".to_string(),
                mode: String::new(),
                essid: "home".to_string(),
                enc_type: "psk2".to_string(),
                enc_key: Some(String::new()),
            }),
        }],
        hosts: vec![HostEntry { hostname: "nas".to_string(), ip: "10.0.0.2".to_string() }],
        dhcp_hosts: vec![DhcpHost { mac: "aa:bb".to_string(), ip: "10.0.0.9".to_string() }],
        password: String::new(),
    };
    let batch = build_uci_batch(&ClientConfig::default(), &sc);
    let expected = [
        "set system.@system[0].hostname='ap1'",
        "set network.lan=interface",
        "set network.lan.proto='dhcp'",
        "set network.lan.ipaddr='192.168.1.1'",
        "set wireless.radio0=wifi-device",
        "set wireless.wif_lan=wifi-iface",
        "set wireless.wif_lan.device='radio0'",
        "set wireless.wif_lan.network='lan'",
        "set wireless.wif_lan.ssid='home'",
        "set wireless.wif_lan.encryption='psk2'",
        "delete dhcp.@dnsmasq[0].address",
        "add_list dhcp.@dnsmasq[0].address='/nas/10.0.0.2'",
        "set dhcp.host_aabb=host",
        "set dhcp.host_aabb.mac='aa:bb'",
        "set dhcp.host_aabb.ip='10.0.0.9'",
    ]
    .join("\n");
    assert_eq!(batch, expected);
}

#[test]
fn empty_batch() {
    let sc = SystemConfig { hostname: String::new(), interfaces: vec![], hosts: vec![], dhcp_hosts: vec![], password: String::new() };
    assert_eq!(build_uci_batch(&ClientConfig::default(), &sc), "");
}
