use ac_client::message::{
    build_boot_notify, build_error, build_get_resp, build_get_supported_proto, build_notify_resp, build_operate_resp,
    build_set_resp, build_value_change_notify, decode_msg, encode_msg, make_header, new_msg_id, Body, MessageType,
    Msg, Notification, Request, Response,
};
use ac_client::record::{
    decode_record, disconnect_record, encode_record, extract_msg_payload, mqtt_connect_record, no_session_record,
    websocket_connect_record, Record, RecordType, SessionContextRecord,
};
use ac_client::error::UspError;

fn round_trip_record(r: &Record) -> Record {
    decode_record(&encode_record(r).unwrap()).unwrap()
}

fn round_trip_msg(m: &Msg) -> Msg {
    decode_msg(&encode_msg(m).unwrap()).unwrap()
}

#[test]
fn no_session_record_round_trip() {
    let r = no_session_record("agent", "ctrl", vec![9, 8, 7], "1.3");
    let back = round_trip_record(&r);
    assert_eq!(back.version, "1.3");
    assert_eq!(back.to_id, "ctrl");
    assert_eq!(back.from_id, "agent");
    assert_eq!(back.payload_security, 0);
    assert!(back.mac_signature.is_empty() && back.sender_cert.is_empty());
    assert_eq!(extract_msg_payload(&back), Some(&[9u8, 8, 7][..]));
}

#[test]
fn record_encoding_bytes() {
    let r = no_session_record("a", "b", vec![5], "1.3");
    let bytes = encode_record(&r).unwrap();
    let expected: Vec<u8> = vec![
        0x0a, 3, b'1', b'.', b'3', 0x12, 1, b'b', 0x1a, 1, b'a', 0x20, 0, 0x2a, 0, 0x32, 0, 0x3a, 3, 0x0a, 1, 5,
    ];
    assert_eq!(bytes, expected);
}

#[test]
fn connect_and_disconnect_records_round_trip() {
    let ws = round_trip_record(&websocket_connect_record("agent", "ctrl"));
    assert!(matches!(ws.record_type, Some(RecordType::WebsocketConnect)));
    assert_eq!(ws.version, "1.3");
    let mq = round_trip_record(&mqtt_connect_record("agent", "ctrl", "usp/v1/agent/x"));
    match mq.record_type {
        Some(RecordType::MqttConnect(m)) => {
            assert_eq!(m.version, 0);
            assert_eq!(m.subscribed_topic, "usp/v1/agent/x");
        },
        _ => panic!("expected an MQTT connect record"),
    }
    let d = round_trip_record(&disconnect_record("agent", "ctrl", "bye"));
    match d.record_type {
        Some(RecordType::Disconnect(x)) => {
            assert_eq!(x.reason, "bye");
            assert_eq!(x.reason_code, 0);
        },
        _ => panic!("expected a disconnect record"),
    }
}

#[test]
fn session_record_payload_is_first_segment() {
    let r = Record {
        version: "1.3".to_string(),
        to_id: "a".to_string(),
        from_id: "c".to_string(),
        payload_security: 0,
        mac_signature: vec![],
        sender_cert: vec![],
        record_type: Some(RecordType::SessionContext(SessionContextRecord {
            session_id: 7,
            sequence_id: 300,
            expected_id: 2,
            retransmit_id: 0,
            payload_sar_state: 0,
            payloadrec_sar_state: 0,
            payload: vec![vec![1, 2], vec![3]],
        })),
    };
    let back = round_trip_record(&r);
    assert_eq!(extract_msg_payload(&back), Some(&[1u8, 2][..]));
    match back.record_type {
        Some(RecordType::SessionContext(s)) => {
            assert_eq!(s.session_id, 7);
            assert_eq!(s.sequence_id, 300);
            assert_eq!(s.payload, vec![vec![1, 2], vec![3]]);
        },
        _ => panic!("expected a session record"),
    }
    let empty = Record { record_type: None, ..round_trip_record(&r) };
    assert_eq!(extract_msg_payload(&empty), None);
}

#[test]
fn decode_errors() {
    assert_eq!(decode_record(&[0x0a, 5, b'x']).err(), Some(UspError::Decode));
    assert_eq!(decode_record(&[0x0a, 1, 0xff]).err(), Some(UspError::Decode));
    assert_eq!(decode_msg(&[0x80]).err(), Some(UspError::Decode));
    assert!(decode_record(&[]).is_ok());
}

#[test]
fn builders_round_trip() {
    let e = round_trip_msg(&build_error("id1", 7004, "NOT_SUPPORTED"));
    assert_eq!(e.header.as_ref().unwrap().msg_id, "id1");
    assert_eq!(e.header.as_ref().unwrap().msg_type, 0);
    match e.body {
        Some(Body::Error(x)) => {
            assert_eq!(x.err_code, 7004);
            assert_eq!(x.err_msg, "NOT_SUPPORTED");
        },
        _ => panic!("expected an Error"),
    }

    let n = round_trip_msg(&build_notify_resp("id2", "sub"));
    assert_eq!(n.header.as_ref().unwrap().msg_type, MessageType::NotifyResp.code());
    assert!(matches!(n.body, Some(Body::Response(Response::NotifyResp(ref r))) if r.subscription_id == "sub"));

    let o = round_trip_msg(&build_operate_resp("id3", "Device.X.Capture()", "key", vec![("a".to_string(), "1".to_string())]));
    match o.body {
        Some(Body::Response(Response::OperateResp(r))) => {
            assert_eq!(r.command_key, "key");
            assert_eq!(r.operation_results.len(), 1);
            assert_eq!(r.operation_results[0].executed_command, "Device.X.Capture()");
            assert_eq!(r.operation_results[0].req_output_args.output_args, vec![("a".to_string(), "1".to_string())]);
        },
        _ => panic!("expected an OperateResp"),
    }

    let s = round_trip_msg(&build_set_resp("id4", &["A.".to_string(), "B.".to_string()]));
    match s.body {
        Some(Body::Response(Response::SetResp(r))) => {
            let paths: Vec<String> = r.updated_obj_results.iter().map(|u| u.requested_path.clone()).collect();
            assert_eq!(paths, vec!["A.".to_string(), "B.".to_string()]);
        },
        _ => panic!("expected a SetResp"),
    }

    let g = round_trip_msg(&build_get_resp("id5", &vec![("Device.X".to_string(), "v".to_string())]));
    match g.body {
        Some(Body::Response(Response::GetResp(r))) => {
            assert_eq!(r.req_path_results[0].requested_path, "Device.X");
            assert_eq!(r.req_path_results[0].err_code, 0);
        },
        _ => panic!("expected a GetResp"),
    }
}

#[test]
fn fresh_messages_have_uuid_ids() {
    let a = new_msg_id();
    let b = new_msg_id();
    assert_eq!(a.len(), 36);
    assert_ne!(a, b);
    assert_eq!(a.chars().nth(8), Some('-'));
    let h = make_header(MessageType::Get);
    assert_eq!(h.msg_type, 1);

    let gsp = round_trip_msg(&build_get_supported_proto());
    assert_eq!(gsp.header.as_ref().unwrap().msg_type, MessageType::GetSupportedProto.code());
    match gsp.body {
        Some(Body::Request(Request::GetSupportedProto(g))) => assert_eq!(g.controller_supported_versions, "1.3"),
        _ => panic!("expected a GetSupportedProto"),
    }

    let boot = round_trip_msg(&build_boot_notify("s", true, vec![("k".to_string(), "v".to_string())]));
    match boot.body {
        Some(Body::Request(Request::Notify(n))) => {
            assert!(n.send_resp);
            assert_eq!(n.subscription_id, "s");
            match n.notification {
                Some(Notification::Event(e)) => {
                    assert_eq!(e.obj_path, "Device.");
                    assert_eq!(e.event_name, "Boot!");
                    assert_eq!(e.command_key, "");
                    assert_eq!(e.params, vec![("k".to_string(), "v".to_string())]);
                },
                _ => panic!("expected an event"),
            }
        },
        _ => panic!("expected a Notify"),
    }

    let vc = round_trip_msg(&build_value_change_notify("status", "Device.DeviceInfo.UpTime", "5s"));
    match vc.body {
        Some(Body::Request(Request::Notify(n))) => match n.notification {
            Some(Notification::ValueChange(v)) => {
                assert_eq!(v.param_path, "Device.DeviceInfo.UpTime");
                assert_eq!(v.param_value, "5s");
            },
            _ => panic!("expected a value change"),
        },
        _ => panic!("expected a Notify"),
    }
}

#[test]
fn message_type_codes() {
    assert_eq!(MessageType::from_code(16), Some(MessageType::NotifyResp));
    assert_eq!(MessageType::from_code(19), None);
    assert_eq!(MessageType::GetSupportedProtoResp.code(), 18);
}
