use ac_client::device_info;
use ac_client::dm::{
    camera_index_exec, capture_outputs, dispatch_get, download_outputs, get_params, issue_cert_outputs, plan_set,
    route_operate, select_camera, step_outcome, OperateAction, Platform, SetStep,
};
use ac_client::firmware;

fn platform() -> Platform {
    Platform {
        sys_model: "dir300".to_string(),
        mac_addr: "aa:bb:cc:dd:ee:ff".to_string(),
        fw_version: "r1234".to_string(),
        uptime: "1d 0h 0m 0s".to_string(),
        load_avg: "0.10 0.05 0.01".to_string(),
        free_mem: "12345".to_string(),
        wifi_ssid: String::new(),
        wifi_encryption: "psk2".to_string(),
        wifi_key: "secret".to_string(),
        wifi_channel: "6".to_string(),
        lan_ipaddr: "192.168.1.1".to_string(),
        lan_netmask: "255.255.255.0".to_string(),
        lan_proto: "static".to_string(),
        dhcp_leases: vec![("00:11:22:33:44:55".to_string(), "192.168.1.10".to_string())],
        hosts: vec![("10.0.0.1".to_string(), "gw".to_string()), ("10.0.0.2".to_string(), "nas".to_string())],
        cameras: vec![("192.168.1.20".to_string(), "00:40:8c:00:00:01".to_string())],
    }
}

fn keys(v: &[(String, String)]) -> Vec<&str> {
    v.iter().map(|(k, _)| k.as_str()).collect()
}

fn strs(v: &[&str]) -> Vec<String> {
    v.iter().map(|s| s.to_string()).collect()
}

#[test]
fn device_info_subtree_and_leaf() {
    let p = platform();
    let all = device_info::get(&p, "Device.DeviceInfo.");
    assert_eq!(all.len(), 7);
    assert!(all.contains(&("Device.DeviceInfo.SerialNumber".to_string(), "aa:bb:cc:dd:ee:ff".to_string())));
    let one = device_info::get(&p, "Device.DeviceInfo.HardwareVersion");
    assert_eq!(one, vec![("Device.DeviceInfo.HardwareVersion".to_string(), "dir300".to_string())]);
    assert!(device_info::get(&p, "Device.DeviceInfo.Nope").is_empty());
    assert_eq!(device_info::set("Device.DeviceInfo.HostName", "x").unwrap_err(), "Device.DeviceInfo.* is read-only");
}

#[test]
fn firmware_version_path() {
    let p = platform();
    let v = firmware::get(&p, "Device.X_OptimACS_Firmware.AvailableVersion");
    assert_eq!(v, vec![("Device.X_OptimACS_Firmware.AvailableVersion".to_string(), "r1234".to_string())]);
    assert!(firmware::get(&p, "Device.X_OptimACS_Firmware.Other").is_empty());
}

#[test]
fn wifi_ip_and_tables() {
    let p = platform();
    let wifi = dispatch_get("Device.WiFi.", &p);
    assert_eq!(
        keys(&wifi),
        vec![
            "Device.WiFi.AccessPoint.1.Security.ModeEnabled",
            "Device.WiFi.AccessPoint.1.Security.KeyPassphrase",
            "Device.WiFi.Radio.1.Channel"
        ]
    );
    let ip = dispatch_get("Device.IP.Interface.1.", &p);
    assert_eq!(ip[0], ("Device.IP.Interface.1.IPv4Address.1.IPAddress".to_string(), "192.168.1.1".to_string()));
    assert!(dispatch_get("Device.IP.Interface.2.", &p).is_empty());
    let hosts = dispatch_get("Device.Hosts.", &p);
    assert_eq!(hosts[2], ("Device.Hosts.Host.2.IPAddress".to_string(), "10.0.0.2".to_string()));
    assert_eq!(hosts[3], ("Device.Hosts.Host.2.HostName".to_string(), "nas".to_string()));
    let dhcp = dispatch_get("Device.DHCPv4.Server.", &p);
    assert_eq!(
        keys(&dhcp),
        vec!["Device.DHCPv4.Server.Pool.1.StaticAddress.1.Chaddr", "Device.DHCPv4.Server.Pool.1.StaticAddress.1.Yiaddr"]
    );
    let cams = dispatch_get("Device.X_OptimACS_Camera.", &p);
    assert_eq!(cams[1], ("Device.X_OptimACS_Camera.1.MACAddress".to_string(), "00:40:8c:00:00:01".to_string()));
    assert!(dispatch_get("Device.Unknown.", &p).is_empty());
}

#[test]
fn depth_filter_limits_periods() {
    let p = platform();
    let all = get_params(&strs(&["Device.DeviceInfo."]), 1, &p);
    assert_eq!(all.len(), 7);
    let none = get_params(&strs(&["Device.IP.Interface."]), 2, &p);
    assert!(none.is_empty());
    let deep = get_params(&strs(&["Device.IP.Interface."]), 3, &p);
    assert_eq!(deep.len(), 3);
    for (k, _) in &get_params(&strs(&["Device.WiFi."]), 2, &p) {
        assert!(k.matches('.').count() <= 2 + 2);
    }
}

#[test]
fn later_paths_replace_earlier_values() {
    let p = platform();
    let r = get_params(&strs(&["Device.DeviceInfo.", "Device.DeviceInfo.UpTime"]), 0, &p);
    assert_eq!(r.len(), 7);
    let up: Vec<_> = r.iter().filter(|(k, _)| k == "Device.DeviceInfo.UpTime").collect();
    assert_eq!(up.len(), 1);
}

#[test]
fn set_plans() {
    let plan = plan_set(&vec![
        ("Device.IP.Interface.1.IPv4Address.1.SubnetMask".to_string(), "255.0.0.0".to_string()),
        ("Device.Hosts.Host.1.HostName".to_string(), "x".to_string()),
        ("Device.WiFi.SSID.1.SSID".to_string(), "never".to_string()),
    ]);
    assert_eq!(plan.len(), 3);
    assert!(matches!(&plan[0], SetStep::UciSet { path, value } if path == "network.lan.netmask" && value == "255.0.0.0"));
    assert!(matches!(&plan[1], SetStep::Commit { package, checked } if package == "network" && !*checked));
    assert!(matches!(&plan[2], SetStep::Fail(m) if m == "Device.Hosts.Host.* modification not yet implemented on agent side"));

    let unknown = plan_set(&vec![("Device.Foo.X".to_string(), "1".to_string())]);
    assert!(matches!(&unknown[0], SetStep::Fail(m) if m == "read-only or unknown path: Device.Foo.X"));
    let dhcp = plan_set(&vec![("Device.DHCPv4.Server.X".to_string(), "1".to_string())]);
    assert!(matches!(&dhcp[0], SetStep::Fail(m) if m == "DHCPv4 static address modification not yet implemented on agent side"));
    let ro = plan_set(&vec![("Device.DeviceInfo.HostName".to_string(), "1".to_string())]);
    assert!(matches!(&ro[0], SetStep::Fail(m) if m == "Device.DeviceInfo.* is read-only"));
    assert!(plan_set(&vec![("Device.X_OptimACS_Security.Cert".to_string(), "1".to_string())]).is_empty());
    let wifi = plan_set(&vec![("Device.WiFi.Other".to_string(), "1".to_string())]);
    assert_eq!(wifi.len(), 1);
    assert!(matches!(&wifi[0], SetStep::Fail(m) if m == "unsupported parameter: Device.WiFi.Other"));
    let ip = plan_set(&vec![
        ("Device.IP.Interface.1.Enable".to_string(), "1".to_string()),
        ("Device.WiFi.SSID.1.SSID".to_string(), "never".to_string()),
    ]);
    assert_eq!(ip.len(), 1);
    assert!(matches!(&ip[0], SetStep::Fail(m) if m == "unsupported parameter: Device.IP.Interface.1.Enable"));
}

#[test]
fn operate_routes() {
    assert!(matches!(
        route_operate("Device.X_OptimACS_Camera.2.Capture()", &vec![]),
        Ok(OperateAction::Capture { index: 2 })
    ));
    assert!(matches!(
        route_operate("Device.X_OptimACS_Security.IssueCert()", &vec![]),
        Ok(OperateAction::IssueCert)
    ));
    let args = vec![("url".to_string(), "http://fw/img.bin".to_string())];
    assert!(matches!(
        route_operate("Device.X_OptimACS_Firmware.Download()", &args),
        Ok(OperateAction::Download { url }) if url == "http://fw/img.bin"
    ));
    assert_eq!(
        route_operate("Device.X_OptimACS_Firmware.Download()", &vec![]).err().unwrap(),
        "firmware download requires 'url' input arg"
    );
    assert_eq!(camera_index_exec("Device.X_OptimACS_Camera.Capture()"), 1);
    assert_eq!(camera_index_exec("Device.X_OptimACS_Camera.17.Capture()"), 17);
    assert_eq!(camera_index_exec("Device.X_OptimACS_Camera..3.Capture()"), 1);
    assert_eq!(camera_index_exec("Device.99999999999999999999999.Capture()"), 1);
}

#[test]
fn operate_outputs() {
    let cams = vec![("192.168.1.20".to_string(), "m".to_string())];
    assert_eq!(select_camera(1, &cams).unwrap(), "192.168.1.20");
    assert_eq!(select_camera(0, &cams).unwrap(), "192.168.1.20");
    assert_eq!(select_camera(3, &cams).unwrap_err(), "camera 3 not found");
    assert_eq!(
        capture_outputs("192.168.1.20", Some(1024)).unwrap(),
        vec![("image_size".to_string(), "1024".to_string()), ("camera_ip".to_string(), "192.168.1.20".to_string())]
    );
    assert_eq!(capture_outputs("x", None).unwrap_err(), "capture failed");
    assert_eq!(download_outputs(), vec![("status".to_string(), "applied".to_string())]);
    assert_eq!(issue_cert_outputs("PEM".to_string()), vec![("csr".to_string(), "PEM".to_string())]);
}

#[test]
fn hosts_file_entries() {
    let text = "# hosts\n127.0.0.1 localhost\n\n  10.0.0.2\tnas nas.lan\r\nlonely\n";
    assert_eq!(
        ac_client::tables::parse_hosts(text),
        vec![("127.0.0.1".to_string(), "localhost".to_string()), ("10.0.0.2".to_string(), "nas".to_string())]
    );
    assert!(ac_client::tables::parse_hosts("").is_empty());
}

#[test]
fn dhcp_listing_leases() {
    let text = "dhcp.lan=dhcp\ndhcp.@host[0].mac='ff:ff:ff:ff:ff:ff'\ndhcp.host.mac='00:11:22:33:44:55'\ndhcp.host.ip='192.168.1.10'\n";
    let leases = ac_client::tables::parse_dhcp_leases(text);
    assert_eq!(leases.len(), 1);
    assert_eq!(leases[0].0, "00:11:22:33:44:55");
    assert_eq!(leases[0].1, "");
    let with_ip = "dhcp.host.mac='aa'\ndhcp.host.ip='aa'\n";
    assert_eq!(
        ac_client::tables::parse_dhcp_leases(with_ip),
        vec![("aa".to_string(), "aa".to_string())]
    );
}

#[test]
fn set_step_outcomes() {
    let write = SetStep::UciSet { path: "a".to_string(), value: "b".to_string() };
    assert_eq!(step_outcome(&write, Err("uci set a failed".to_string())), Some("uci set a failed".to_string()));
    assert_eq!(step_outcome(&write, Ok(())), None);
    let loose = SetStep::Commit { package: "network".to_string(), checked: false };
    assert_eq!(step_outcome(&loose, Err("x".to_string())), None);
    let strict = SetStep::Commit { package: "wireless".to_string(), checked: true };
    assert_eq!(step_outcome(&strict, Err("x".to_string())), Some("x".to_string()));
    assert_eq!(step_outcome(&SetStep::Fail("no".to_string()), Ok(())), Some("no".to_string()));
}
