use ac_client::agent::{
    accept_record, frame_reply, handle_incoming, reply_boot, reply_get, reply_operate, reply_set, Incoming,
    VersionCell,
};
use ac_client::dm::{plan_set, route_operate, Platform, SetStep};
use ac_client::message::{
    decode_msg, encode_msg, Body, Get, GetSupportedProtoResp, Header, MessageType, Msg, Notification, Operate,
    Request, Response, SetReq, UpdateObject, UpdateParamSetting,
};
use ac_client::record::{decode_record, encode_record, no_session_record, RecordType};

const AGENT: &str = "oui:00005A:aabbccddeeff";
const CONTROLLER: &str = "oui:00005A:OptimACS-Controller-1";

fn platform() -> Platform {
    Platform {
        sys_model: "dir300".to_string(),
        mac_addr: "aa:bb:cc:dd:ee:ff".to_string(),
        fw_version: "r1234".to_string(),
        uptime: "0d 1h 2m 3s".to_string(),
        load_avg: "0.10 0.05 0.01".to_string(),
        free_mem: "12345".to_string(),
        wifi_ssid: "home".to_string(),
        wifi_encryption: "psk2".to_string(),
        wifi_key: "secret".to_string(),
        wifi_channel: "6".to_string(),
        lan_ipaddr: "192.168.1.1".to_string(),
        lan_netmask: "255.255.255.0".to_string(),
        lan_proto: "static".to_string(),
        dhcp_leases: vec![],
        hosts: vec![],
        cameras: vec![],
    }
}

fn request(msg_id: &str, t: MessageType, body: Option<Body>) -> Vec<u8> {
    let msg = Msg { header: Some(Header { msg_id: msg_id.to_string(), msg_type: t.code() }), body };
    encode_msg(&msg).unwrap()
}

fn header_of(m: &Msg) -> (String, u64) {
    let h = m.header.as_ref().unwrap();
    (h.msg_id.clone(), h.msg_type)
}

#[test]
fn get_device_info_uptime() {
    let bytes = request(
        "m1",
        MessageType::Get,
        Some(Body::Request(Request::Get(Get { param_paths: vec!["Device.DeviceInfo.UpTime".to_string()], max_depth: 0 }))),
    );
    let mut cell = VersionCell::new();
    let p = platform();
    let reply = match handle_incoming(&bytes, &mut cell).unwrap() {
        Incoming::Get { msg_id, paths, max_depth } => reply_get(&msg_id, &paths, max_depth, &p),
        _ => panic!("expected a Get"),
    };
    let reply = decode_msg(&encode_msg(&reply).unwrap()).unwrap();
    assert_eq!(header_of(&reply), ("m1".to_string(), MessageType::GetResp.code()));
    match reply.body {
        Some(Body::Response(Response::GetResp(g))) => {
            assert_eq!(g.req_path_results.len(), 1);
            let r = &g.req_path_results[0];
            assert_eq!(r.resolved_path_results[0].resolved_path, "Device.DeviceInfo.UpTime");
            assert_eq!(r.resolved_path_results[0].result_params, vec![(String::new(), "0d 1h 2m 3s".to_string())]);
        },
        _ => panic!("expected a GetResp"),
    }
}

#[test]
fn set_wifi_ssid() {
    let obj = UpdateObject {
        obj_path: "Device.WiFi.SSID.1.".to_string(),
        param_settings: vec![UpdateParamSetting { param: "SSID".to_string(), value: "guest-net".to_string(), required: false }],
    };
    let bytes = request(
        "m2",
        MessageType::SetReq,
        Some(Body::Request(Request::SetReq(SetReq { allow_partial: false, update_objs: vec![obj] }))),
    );
    let mut cell = VersionCell::new();
    let (msg_id, updates, obj_paths) = match handle_incoming(&bytes, &mut cell).unwrap() {
        Incoming::SetParams { msg_id, updates, obj_paths } => (msg_id, updates, obj_paths),
        _ => panic!("expected a Set"),
    };
    assert_eq!(updates, vec![("Device.WiFi.SSID.1.SSID".to_string(), "guest-net".to_string())]);
    let plan = plan_set(&updates);
    assert_eq!(plan.len(), 2);
    match &plan[0] {
        SetStep::UciSet { path, value } => {
            assert_eq!(path, "wireless.@wifi-iface[0].ssid");
            assert_eq!(value, "guest-net");
        },
        _ => panic!("expected a write"),
    }
    match &plan[1] {
        SetStep::Commit { package, checked } => {
            assert_eq!(package, "wireless");
            assert!(*checked);
        },
        _ => panic!("expected a commit"),
    }
    let reply = reply_set(&msg_id, &obj_paths, None);
    assert_eq!(header_of(&reply), ("m2".to_string(), MessageType::SetResp.code()));
    match reply.body {
        Some(Body::Response(Response::SetResp(r))) => {
            assert_eq!(r.updated_obj_results.len(), 1);
            assert_eq!(r.updated_obj_results[0].requested_path, "Device.WiFi.SSID.1.");
        },
        _ => panic!("expected a SetResp"),
    }
}

#[test]
fn operate_unknown_command() {
    let bytes = request(
        "m3",
        MessageType::Operate,
        Some(Body::Request(Request::Operate(Operate {
            command: "Device.Foo.Bar()".to_string(),
            command_key: String::new(),
            send_resp: true,
            input_args: vec![],
        }))),
    );
    let mut cell = VersionCell::new();
    let reply = match handle_incoming(&bytes, &mut cell).unwrap() {
        Incoming::Operate { msg_id, command, command_key, input_args } => {
            let outcome = route_operate(&command, &input_args).map(|_| Vec::new());
            reply_operate(&msg_id, &command, &command_key, outcome)
        },
        _ => panic!("expected an Operate"),
    };
    assert_eq!(header_of(&reply), ("m3".to_string(), MessageType::Error.code()));
    match reply.body {
        Some(Body::Error(e)) => {
            assert_eq!(e.err_code, 7800);
            assert_eq!(e.err_msg, "unknown command: Device.Foo.Bar()");
        },
        _ => panic!("expected an Error"),
    }
}

#[test]
fn reject_unsupported_message() {
    let bytes = request("m4", MessageType::Add, Some(Body::Request(Request::Unset)));
    let mut cell = VersionCell::new();
    match handle_incoming(&bytes, &mut cell).unwrap() {
        Incoming::Reply(reply) => {
            assert_eq!(header_of(&reply), ("m4".to_string(), MessageType::Error.code()));
            match reply.body {
                Some(Body::Error(e)) => {
                    assert_eq!(e.err_code, 7004);
                    assert_eq!(e.err_msg, "NOT_SUPPORTED");
                },
                _ => panic!("expected an Error"),
            }
        },
        _ => panic!("expected a reply"),
    }
}

#[test]
fn unknown_message_type_not_understood() {
    let bytes = request("m7", MessageType::GetResp, Some(Body::Response(Response::Unset)));
    let mut cell = VersionCell::new();
    match handle_incoming(&bytes, &mut cell).unwrap() {
        Incoming::Reply(reply) => match reply.body {
            Some(Body::Error(e)) => {
                assert_eq!(e.err_code, 7000);
                assert_eq!(e.err_msg, "MESSAGE_NOT_UNDERSTOOD");
            },
            _ => panic!("expected an Error"),
        },
        _ => panic!("expected a reply"),
    }
}

#[test]
fn notify_resp_needs_no_reply() {
    let bytes = request("m8", MessageType::NotifyResp, Some(Body::Response(Response::Unset)));
    let mut cell = VersionCell::new();
    assert!(matches!(handle_incoming(&bytes, &mut cell), Some(Incoming::NoReply)));
}

#[test]
fn undecodable_or_headless_ignored_unknown_type_not_understood() {
    let mut cell = VersionCell::new();
    assert!(handle_incoming(&[0xff, 0xff], &mut cell).is_none());
    let headless = encode_msg(&Msg { header: None, body: Some(Body::Request(Request::Unset)) }).unwrap();
    assert!(handle_incoming(&headless, &mut cell).is_none());
    let unknown_type = encode_msg(&Msg {
        header: Some(Header { msg_id: "x".to_string(), msg_type: 99 }),
        body: Some(Body::Request(Request::Unset)),
    })
    .unwrap();
    match handle_incoming(&unknown_type, &mut cell).unwrap() {
        Incoming::Reply(reply) => {
            assert_eq!(header_of(&reply), ("x".to_string(), MessageType::Error.code()));
            match reply.body {
                Some(Body::Error(e)) => {
                    assert_eq!(e.err_code, 7000);
                    assert_eq!(e.err_msg, "MESSAGE_NOT_UNDERSTOOD");
                },
                _ => panic!("expected an Error"),
            }
        },
        _ => panic!("expected a reply"),
    }
}

#[test]
fn addressing_discard() {
    let msg = request(
        "m5",
        MessageType::Get,
        Some(Body::Request(Request::Get(Get { param_paths: vec![], max_depth: 0 }))),
    );
    let rec = no_session_record(CONTROLLER, "someone-else", msg.clone(), "1.3");
    let bytes = encode_record(&rec).unwrap();
    assert!(accept_record(AGENT, &bytes).is_none());
    let ours = encode_record(&no_session_record(CONTROLLER, AGENT, msg.clone(), "1.3")).unwrap();
    let (from, payload) = accept_record(AGENT, &ours).unwrap();
    assert_eq!(from, CONTROLLER);
    assert_eq!(payload, msg);
    let unaddressed = encode_record(&no_session_record(CONTROLLER, "", msg.clone(), "1.3")).unwrap();
    assert!(accept_record(AGENT, &unaddressed).is_some());
    let anonymous = encode_record(&no_session_record("", AGENT, msg.clone(), "1.3")).unwrap();
    assert!(accept_record(AGENT, &anonymous).is_none());
}

#[test]
fn version_negotiation_then_boot() {
    let bytes = request(
        "m6",
        MessageType::GetSupportedProtoResp,
        Some(Body::Response(Response::GetSupportedProtoResp(GetSupportedProtoResp {
            agent_supported_versions: "1.4, 1.3".to_string(),
        }))),
    );
    let mut cell = VersionCell::new();
    assert_eq!(cell.version, "1.3");
    assert!(!cell.negotiated);
    match handle_incoming(&bytes, &mut cell).unwrap() {
        Incoming::SupportedVersions { versions } => assert_eq!(versions, vec!["1.4".to_string(), "1.3".to_string()]),
        _ => panic!("expected the versions"),
    }
    assert_eq!(cell.version, "1.4");
    assert!(cell.negotiated);
    let boot = reply_boot(&platform());
    assert_eq!(boot.header.as_ref().unwrap().msg_type, MessageType::Notify.code());
    assert_eq!(boot.header.as_ref().unwrap().msg_id.len(), 36);
    match boot.body {
        Some(Body::Request(Request::Notify(n))) => match n.notification {
            Some(Notification::Event(e)) => {
                assert_eq!(e.event_name, "Boot!");
                assert_eq!(e.obj_path, "Device.");
                assert!(e.params.contains(&("Cause".to_string(), "LocalReboot".to_string())));
                assert!(e.params.contains(&("FirmwareUpdated".to_string(), "false".to_string())));
                assert!(e.params.contains(&("Device.DeviceInfo.UpTime".to_string(), "0d 1h 2m 3s".to_string())));
            },
            _ => panic!("expected an event"),
        },
        _ => panic!("expected a Notify"),
    }
}

#[test]
fn negotiated_version_stays_after_other_messages() {
    let mut cell = VersionCell::new();
    let gsp = request(
        "a",
        MessageType::GetSupportedProtoResp,
        Some(Body::Response(Response::GetSupportedProtoResp(GetSupportedProtoResp {
            agent_supported_versions: "1.4".to_string(),
        }))),
    );
    handle_incoming(&gsp, &mut cell);
    let get = request("b", MessageType::Get, Some(Body::Request(Request::Get(Get { param_paths: vec![], max_depth: 0 }))));
    handle_incoming(&get, &mut cell);
    handle_incoming(&[1, 2, 3], &mut cell);
    assert_eq!(cell.version, "1.4");
    assert!(cell.negotiated);
}

#[test]
fn replies_echo_request_id() {
    let mut cell = VersionCell::new();
    for (id, t) in [("r1", MessageType::Delete), ("r2", MessageType::GetInstances), ("r3", MessageType::Notify)] {
        let bytes = request(id, t, Some(Body::Request(Request::Unset)));
        match handle_incoming(&bytes, &mut cell).unwrap() {
            Incoming::Reply(m) => assert_eq!(m.header.unwrap().msg_id, id),
            _ => panic!("expected a reply"),
        }
    }
    let failed = reply_set("r4", &vec!["Device.DeviceInfo.".to_string()], Some("Device.DeviceInfo.* is read-only".to_string()));
    assert_eq!(header_of(&failed), ("r4".to_string(), MessageType::Error.code()));
    match failed.body {
        Some(Body::Error(e)) => assert_eq!(e.err_code, 7200),
        _ => panic!("expected an Error"),
    }
}

#[test]
fn outbound_records_come_from_agent() {
    let reply = vec![1u8, 2, 3];
    let frame = frame_reply(AGENT, CONTROLLER, reply.clone(), "1.4");
    let rec = decode_record(&frame).unwrap();
    assert_eq!(rec.from_id, AGENT);
    assert_eq!(rec.to_id, CONTROLLER);
    assert_eq!(rec.version, "1.4");
    match rec.record_type {
        Some(RecordType::NoSessionContext(n)) => assert_eq!(n.payload, reply),
        _ => panic!("expected a no-session record"),
    }
}
