//! The message engine: classifies inbound messages, keeps the negotiated
//! protocol version, builds replies, and frames them in records.
use vstd::prelude::*;
use crate::dm::{
    get_params, get_result, pairs_view, split_on, Pair, Platform, PlatformV,
};
use crate::message::{
    build_boot_notify, build_error, build_get_resp, build_operate_resp, build_set_resp, decode_msg,
    BodyV, Body, ErrorV, HeaderV, MessageType, Msg, MsgV, OperationResultV, OperateRespV, Request,
    RequestV, Response, ResponseV, UpdateObjectV, boot_event, is_uuid_text, path_result, type_code,
    type_of, NotifyV, NotificationV,
};
use crate::pb::{dec, view_seq};
use crate::record::{
    decode_record, decode_record_spec, default_version, encode_record, extract_msg_payload,
    lemma_record_round_trip, msg_payload, no_session_record, record_bytes, RecordTypeV, RecordV,
};
use crate::text::{push_str, str_eq, trim, trimmed};

verus! {

// ---------------------------------------------------------------- inbound

pub enum IncomingV {
    Get { msg_id: Seq<char>, paths: Seq<Seq<char>>, max_depth: u32 },
    SetParams { msg_id: Seq<char>, updates: Seq<Pair>, obj_paths: Seq<Seq<char>> },
    Operate { msg_id: Seq<char>, command: Seq<char>, command_key: Seq<char>, input_args: Seq<Pair> },
    SupportedVersions { versions: Seq<Seq<char>> },
    Reply(MsgV),
    NoReply,
}

/// What an inbound message asks of the agent.
pub enum Incoming {
    /// Read parameters: answer with `reply_get`.
    Get { msg_id: String, paths: Vec<String>, max_depth: u32 },
    /// Write parameters: carry out `plan_set(updates)`, then answer with
    /// `reply_set`.
    SetParams { msg_id: String, updates: Vec<(String, String)>, obj_paths: Vec<String> },
    /// Run a command: route it with `route_operate`, then answer with
    /// `reply_operate`.
    Operate { msg_id: String, command: String, command_key: String, input_args: Vec<(String, String)> },
    /// The controller's protocol versions arrived; answer with `reply_boot`.
    SupportedVersions { versions: Vec<String> },
    /// An answer that needs no outside work.
    Reply(Msg),
    /// Nothing to answer.
    NoReply,
}

impl View for Incoming {
    type V = IncomingV;

    open spec fn view(&self) -> IncomingV {
        match self {
            Incoming::Get { msg_id, paths, max_depth } => IncomingV::Get {
                msg_id: msg_id@,
                paths: view_seq(paths@),
                max_depth: *max_depth,
            },
            Incoming::SetParams { msg_id, updates, obj_paths } => IncomingV::SetParams {
                msg_id: msg_id@,
                updates: pairs_view(updates@),
                obj_paths: view_seq(obj_paths@),
            },
            Incoming::Operate { msg_id, command, command_key, input_args } => IncomingV::Operate {
                msg_id: msg_id@,
                command: command@,
                command_key: command_key@,
                input_args: pairs_view(input_args@),
            },
            Incoming::SupportedVersions { versions } => IncomingV::SupportedVersions { versions: view_seq(versions@) },
            Incoming::Reply(m) => IncomingV::Reply(m@),
            Incoming::NoReply => IncomingV::NoReply,
        }
    }
}

pub open spec fn get_parts(b: BodyV) -> (Seq<Seq<char>>, u32) {
    match b {
        BodyV::Request(RequestV::Get(g)) => (g.param_paths, g.max_depth),
        _ => (seq![], 0),
    }
}

pub open spec fn obj_updates(o: UpdateObjectV) -> Seq<Pair> {
    o.param_settings.map_values(|p: crate::message::UpdateParamSettingV| (o.obj_path + p.param, p.value))
}

/// Each object's parameters, as (object path + parameter name, value).
pub open spec fn all_updates(objs: Seq<UpdateObjectV>) -> Seq<Pair>
    decreases objs.len(),
{
    if objs.len() == 0 {
        seq![]
    } else {
        all_updates(objs.drop_last()) + obj_updates(objs.last())
    }
}

pub open spec fn set_updates(b: BodyV) -> Seq<Pair> {
    match b {
        BodyV::Request(RequestV::SetReq(s)) => all_updates(s.update_objs),
        _ => seq![],
    }
}

pub open spec fn set_obj_paths(b: BodyV) -> Seq<Seq<char>> {
    match b {
        BodyV::Request(RequestV::SetReq(s)) => s.update_objs.map_values(|o: UpdateObjectV| o.obj_path),
        _ => seq![],
    }
}

pub open spec fn operate_parts(b: BodyV) -> (Seq<char>, Seq<char>, Seq<Pair>) {
    match b {
        BodyV::Request(RequestV::Operate(o)) => (o.command, o.command_key, o.input_args),
        _ => (seq![], seq![], seq![]),
    }
}

/// The versions a GetSupportedProtoResp lists: its text split at commas,
/// each piece trimmed.
pub open spec fn supported_versions(b: BodyV) -> Seq<Seq<char>> {
    match b {
        BodyV::Response(ResponseV::GetSupportedProtoResp(v)) => split_on(v, ',').map_values(|t: Seq<char>| trimmed(t)),
        _ => seq![],
    }
}

pub open spec fn error_reply(msg_id: Seq<char>, code: u32, text: Seq<char>) -> MsgV {
    MsgV {
        header: Some(HeaderV { msg_id, msg_type: type_code(MessageType::Error) }),
        body: Some(BodyV::Error(ErrorV { err_code: code, err_msg: text })),
    }
}

pub open spec fn by_type(t: MessageType, msg_id: Seq<char>, body: BodyV) -> IncomingV {
    match t {
        MessageType::Get => IncomingV::Get { msg_id, paths: get_parts(body).0, max_depth: get_parts(body).1 },
        MessageType::SetReq => IncomingV::SetParams { msg_id, updates: set_updates(body), obj_paths: set_obj_paths(body) },
        MessageType::Operate => IncomingV::Operate {
            msg_id,
            command: operate_parts(body).0,
            command_key: operate_parts(body).1,
            input_args: operate_parts(body).2,
        },
        MessageType::NotifyResp => IncomingV::NoReply,
        MessageType::GetSupportedProtoResp => IncomingV::SupportedVersions { versions: supported_versions(body) },
        MessageType::GetSupportedDm | MessageType::GetInstances | MessageType::Add | MessageType::Delete => IncomingV::Reply(
            error_reply(msg_id, 7004, "NOT_SUPPORTED"@),
        ),
        _ => IncomingV::Reply(error_reply(msg_id, 7000, "MESSAGE_NOT_UNDERSTOOD"@)),
    }
}

/// What inbound message bytes ask of the agent: nothing when they do not
/// decode or lack a header or a body; a type code that names no kind is not
/// understood.
pub open spec fn classify(b: Seq<u8>) -> Option<IncomingV> {
    match dec::<Msg>(b) {
        Some(m) => match (m.header, m.body) {
            (Some(h), Some(body)) => match type_of(h.msg_type) {
                Some(t) => Some(by_type(t, h.msg_id, body)),
                None => Some(IncomingV::Reply(error_reply(h.msg_id, 7000, "MESSAGE_NOT_UNDERSTOOD"@))),
            },
            _ => None,
        },
        None => None,
    }
}

// ---------------------------------------------------------------- version

pub struct VersionV {
    pub version: Seq<char>,
    pub negotiated: bool,
}

/// The protocol version written on outbound records: 1.3 until the
/// controller's versions arrive, then the first one it lists.
pub struct VersionCell {
    pub version: String,
    pub negotiated: bool,
}

impl View for VersionCell {
    type V = VersionV;

    open spec fn view(&self) -> VersionV {
        VersionV { version: self.version@, negotiated: self.negotiated }
    }
}

impl VersionCell {
    pub fn new() -> (r: Self)
        ensures
            r@ == (VersionV { version: default_version(), negotiated: false }),
    {
        VersionCell { version: crate::record::default_version_string(), negotiated: false }
    }
}

/// The version state after an inbound message.
pub open spec fn version_after(s: VersionV, inc: Option<IncomingV>) -> VersionV {
    match inc {
        Some(IncomingV::SupportedVersions { versions }) => if versions.len() > 0 {
            VersionV { version: versions[0], negotiated: true }
        } else {
            s
        },
        _ => s,
    }
}

/// Once a version has been negotiated it stays negotiated, and only the
/// controller's list of versions ever changes the version.
pub proof fn lemma_version_monotone(s: VersionV, inc: Option<IncomingV>)
    ensures
        s.negotiated ==> version_after(s, inc).negotiated,
        !(inc matches Some(IncomingV::SupportedVersions { .. })) ==> version_after(s, inc) == s,
{
}

// ---------------------------------------------------------------- extraction

fn extract_get(body: Body) -> (r: (Vec<String>, u32))
    ensures
        (view_seq(r.0@), r.1) == get_parts(body@),
{
    match body {
        Body::Request(Request::Get(g)) => (g.param_paths, g.max_depth),
        _ => (Vec::new(), 0),
    }
}

fn extract_set_updates(body: &Body) -> (r: Vec<(String, String)>)
    ensures
        pairs_view(r@) == set_updates(body@),
{
    let mut updates: Vec<(String, String)> = Vec::new();
    match body {
        Body::Request(Request::SetReq(s)) => {
            let objs = &s.update_objs;
            let mut i: usize = 0;
            while i < objs.len()
                invariant
                    i <= objs@.len(),
                    pairs_view(updates@) == all_updates(view_seq(objs@).take(i as int)),
                decreases objs@.len() - i,
            {
                let obj = &objs[i];
                let ghost start = pairs_view(updates@);
                let mut j: usize = 0;
                while j < obj.param_settings.len()
                    invariant
                        j <= obj.param_settings@.len(),
                        pairs_view(updates@) == start + obj_updates(obj@).take(j as int),
                    decreases obj.param_settings@.len() - j,
                {
                    let p = &obj.param_settings[j];
                    let mut key = obj.obj_path.clone();
                    push_str(&mut key, p.param.as_str());
                    let ghost before = pairs_view(updates@);
                    updates.push((key, p.value.clone()));
                    proof {
                        assert(obj_updates(obj@)[j as int] == (obj@.obj_path + p@.param, p@.value));
                        assert(obj_updates(obj@).take(j + 1) =~= obj_updates(obj@).take(j as int).push(
                            obj_updates(obj@)[j as int],
                        ));
                        assert(pairs_view(updates@) =~= before.push((key@, p.value@)));
                    }
                    j = j + 1;
                }
                proof {
                    let ov = view_seq(objs@);
                    assert(obj_updates(obj@).take(j as int) =~= obj_updates(obj@));
                    assert(ov.take(i + 1).drop_last() =~= ov.take(i as int));
                    assert(ov.take(i + 1).last() == obj@);
                }
                i = i + 1;
            }
            assert(view_seq(objs@).take(i as int) =~= view_seq(objs@));
        },
        _ => {},
    }
    updates
}

fn extract_set_obj_paths(body: &Body) -> (r: Vec<String>)
    ensures
        view_seq(r@) == set_obj_paths(body@),
{
    let mut paths: Vec<String> = Vec::new();
    match body {
        Body::Request(Request::SetReq(s)) => {
            let objs = &s.update_objs;
            let mut i: usize = 0;
            while i < objs.len()
                invariant
                    i <= objs@.len(),
                    view_seq(paths@) == view_seq(objs@).take(i as int).map_values(|o: UpdateObjectV| o.obj_path),
                decreases objs@.len() - i,
            {
                let ghost before = view_seq(paths@);
                paths.push(objs[i].obj_path.clone());
                assert(view_seq(paths@) =~= before.push(objs@[i as int]@.obj_path));
                assert(view_seq(objs@).take(i + 1).map_values(|o: UpdateObjectV| o.obj_path) =~= view_seq(objs@).take(
                    i as int,
                ).map_values(|o: UpdateObjectV| o.obj_path).push(objs@[i as int]@.obj_path));
                i = i + 1;
            }
            assert(view_seq(objs@).take(i as int) =~= view_seq(objs@));
        },
        _ => {},
    }
    paths
}

fn extract_operate(body: Body) -> (r: (String, String, Vec<(String, String)>))
    ensures
        (r.0@, r.1@, pairs_view(r.2@)) == operate_parts(body@),
{
    match body {
        Body::Request(Request::Operate(o)) => {
            proof {
                assert(pairs_view(o.input_args@) =~= view_seq(o.input_args@));
            }
            (o.command, o.command_key, o.input_args)
        },
        _ => {
            let r = (String::new(), String::new(), Vec::new());
            assert(pairs_view(r.2@) =~= Seq::<Pair>::empty());
            r
        },
    }
}

fn extract_supported_versions(body: &Body) -> (r: Vec<String>)
    ensures
        view_seq(r@) == supported_versions(body@),
{
    let mut out: Vec<String> = Vec::new();
    match body {
        Body::Response(Response::GetSupportedProtoResp(g)) => {
            let pieces = crate::dm::split_on_exec(g.agent_supported_versions.as_str(), ',');
            let mut i: usize = 0;
            while i < pieces.len()
                invariant
                    i <= pieces@.len(),
                    view_seq(out@) == view_seq(pieces@).take(i as int).map_values(|t: Seq<char>| trimmed(t)),
                decreases pieces@.len() - i,
            {
                let ghost before = view_seq(out@);
                out.push(trim(pieces[i].as_str()));
                assert(view_seq(out@) =~= before.push(trimmed(pieces@[i as int]@)));
                assert(view_seq(pieces@).take(i + 1).map_values(|t: Seq<char>| trimmed(t)) =~= view_seq(pieces@).take(
                    i as int,
                ).map_values(|t: Seq<char>| trimmed(t)).push(trimmed(pieces@[i as int]@)));
                i = i + 1;
            }
            assert(view_seq(pieces@).take(i as int) =~= view_seq(pieces@));
        },
        _ => {},
    }
    out
}

// ---------------------------------------------------------------- engine

/// Classifies inbound message bytes, and records the controller's first
/// listed version when its versions arrive.
pub fn handle_incoming(msg_bytes: &[u8], negotiated_ver: &mut VersionCell) -> (r: Option<Incoming>)
    ensures
        match classify(msg_bytes@) {
            Some(i) => r matches Some(x) && x@ == i,
            None => r is None,
        },
        final(negotiated_ver)@ == version_after(old(negotiated_ver)@, classify(msg_bytes@)),
{
    let msg = match decode_msg(msg_bytes) {
        Ok(m) => m,
        Err(_) => {
            return None;
        },
    };
    let Msg { header, body } = msg;
    let (header, body) = match (header, body) {
        (Some(h), Some(b)) => (h, b),
        _ => {
            return None;
        },
    };
    let msg_id = header.msg_id;
    let msg_type = match MessageType::from_code(header.msg_type) {
        Some(t) => t,
        None => {
            return Some(Incoming::Reply(build_error(msg_id.as_str(), 7000, "MESSAGE_NOT_UNDERSTOOD")));
        },
    };
    match msg_type {
        MessageType::Get => {
            let (paths, max_depth) = extract_get(body);
            Some(Incoming::Get { msg_id, paths, max_depth })
        },
        MessageType::SetReq => {
            let updates = extract_set_updates(&body);
            let obj_paths = extract_set_obj_paths(&body);
            Some(Incoming::SetParams { msg_id, updates, obj_paths })
        },
        MessageType::Operate => {
            let (command, command_key, input_args) = extract_operate(body);
            Some(Incoming::Operate { msg_id, command, command_key, input_args })
        },
        MessageType::NotifyResp => Some(Incoming::NoReply),
        MessageType::GetSupportedProtoResp => {
            let versions = extract_supported_versions(&body);
            if versions.len() > 0 {
                negotiated_ver.version = versions[0].clone();
                negotiated_ver.negotiated = true;
            }
            Some(Incoming::SupportedVersions { versions })
        },
        MessageType::GetSupportedDm | MessageType::GetInstances | MessageType::Add | MessageType::Delete => {
            Some(Incoming::Reply(build_error(msg_id.as_str(), 7004, "NOT_SUPPORTED")))
        },
        _ => Some(Incoming::Reply(build_error(msg_id.as_str(), 7000, "MESSAGE_NOT_UNDERSTOOD"))),
    }
}

/// The reply to a Get: the parameters the request selects.
pub fn reply_get(msg_id: &str, paths: &Vec<String>, max_depth: u32, platform: &Platform) -> (m: Msg)
    ensures
        m@ == (MsgV {
            header: Some(HeaderV { msg_id: msg_id@, msg_type: type_code(MessageType::GetResp) }),
            body: Some(
                BodyV::Response(
                    ResponseV::GetResp(
                        get_result(view_seq(paths@), max_depth, platform@).map_values(|p| path_result(p)),
                    ),
                ),
            ),
        }),
{
    let params = get_params(paths, max_depth, platform);
    proof {
        assert(view_seq(params@) =~= pairs_view(params@));
    }
    build_get_resp(msg_id, &params)
}

/// The reply to a Set once its steps ran: success lists the objects, a
/// failure becomes error 7200 with its reason.
pub fn reply_set(msg_id: &str, obj_paths: &Vec<String>, failure: Option<String>) -> (m: Msg)
    ensures
        match failure {
            None => m@ == (MsgV {
                header: Some(HeaderV { msg_id: msg_id@, msg_type: type_code(MessageType::SetResp) }),
                body: Some(BodyV::Response(ResponseV::SetResp(view_seq(obj_paths@)))),
            }),
            Some(e) => m@ == error_reply(msg_id@, 7200, e@),
        },
{
    match failure {
        None => build_set_resp(msg_id, obj_paths.as_slice()),
        Some(e) => build_error(msg_id, 7200, e.as_str()),
    }
}

/// The reply to an Operate once it ran: its outputs, or error 7800 with the
/// reason it failed.
pub fn reply_operate(msg_id: &str, command: &str, command_key: &str, outcome: Result<Vec<(String, String)>, String>) -> (m: Msg)
    ensures
        match outcome {
            Ok(out) => m@ == (MsgV {
                header: Some(HeaderV { msg_id: msg_id@, msg_type: type_code(MessageType::OperateResp) }),
                body: Some(
                    BodyV::Response(
                        ResponseV::OperateResp(
                            OperateRespV {
                                command_key: command_key@,
                                operation_results: seq![
                                    OperationResultV { executed_command: command@, output_args: pairs_view(out@) },
                                ],
                            },
                        ),
                    ),
                ),
            }),
            Err(e) => m@ == error_reply(msg_id@, 7800, e@),
        },
{
    match outcome {
        Ok(out) => {
            assert(view_seq(out@) =~= pairs_view(out@));
            build_operate_resp(msg_id, command, command_key, out)
        },
        Err(e) => build_error(msg_id, 7800, e.as_str()),
    }
}

/// The parameters of a Boot! event.
pub open spec fn boot_params(p: PlatformV) -> Seq<Pair> {
    seq![
        ("Device.DeviceInfo.HostName"@, p.sys_model),
        ("Device.DeviceInfo.SoftwareVersion"@, p.fw_version),
        ("Device.DeviceInfo.HardwareVersion"@, p.sys_model),
        ("Device.DeviceInfo.SerialNumber"@, p.mac_addr),
        ("Device.DeviceInfo.UpTime"@, p.uptime),
        ("Device.DeviceInfo.X_OptimACS_LoadAvg"@, p.load_avg),
        ("Device.DeviceInfo.X_OptimACS_FreeMem"@, p.free_mem),
        ("Cause"@, "LocalReboot"@),
        ("FirmwareUpdated"@, "false"@),
    ]
}

fn entry(k: &str, v: &String) -> (r: (String, String))
    ensures
        r.0@ == k@,
        r.1@ == v@,
{
    (String::from_str(k), v.clone())
}

fn entry_lit(k: &str, v: &str) -> (r: (String, String))
    ensures
        r.0@ == k@,
        r.1@ == v@,
{
    (String::from_str(k), String::from_str(v))
}

pub fn collect_boot_params(p: &Platform) -> (r: Vec<(String, String)>)
    ensures
        pairs_view(r@) == boot_params(p@),
{
    let mut m: Vec<(String, String)> = Vec::new();
    m.push(entry("Device.DeviceInfo.HostName", &p.sys_model));
    m.push(entry("Device.DeviceInfo.SoftwareVersion", &p.fw_version));
    m.push(entry("Device.DeviceInfo.HardwareVersion", &p.sys_model));
    m.push(entry("Device.DeviceInfo.SerialNumber", &p.mac_addr));
    m.push(entry("Device.DeviceInfo.UpTime", &p.uptime));
    m.push(entry("Device.DeviceInfo.X_OptimACS_LoadAvg", &p.load_avg));
    m.push(entry("Device.DeviceInfo.X_OptimACS_FreeMem", &p.free_mem));
    m.push(entry_lit("Cause", "LocalReboot"));
    m.push(entry_lit("FirmwareUpdated", "false"));
    assert(pairs_view(m@) =~= boot_params(p@));
    m
}

/// The Boot! notification sent once the version is negotiated.
pub fn reply_boot(p: &Platform) -> (m: Msg)
    ensures
        m@.header matches Some(h) && h.msg_type == type_code(MessageType::Notify) && is_uuid_text(h.msg_id),
        m@.body == Some(
            BodyV::Request(
                RequestV::Notify(
                    NotifyV {
                        subscription_id: seq![],
                        send_resp: false,
                        notification: Some(NotificationV::Event(boot_event(boot_params(p@)))),
                    },
                ),
            ),
        ),
{
    let params = collect_boot_params(p);
    assert(view_seq(params@) =~= pairs_view(params@));
    let sub = String::new();
    let m = build_boot_notify(sub.as_str(), false, params);
    assert(sub@ =~= Seq::<char>::empty());
    m
}

// ---------------------------------------------------------------- records

pub open spec fn addressed_elsewhere(r: RecordV, agent_id: Seq<char>) -> bool {
    r.to_id.len() > 0 && r.to_id != agent_id
}

/// What an inbound frame delivers: the sender and the message bytes, unless
/// it does not decode, is addressed to another endpoint, names no sender
/// (a reply could not be addressed), or carries no message.
pub open spec fn accepted(agent_id: Seq<char>, b: Seq<u8>) -> Option<(Seq<char>, Seq<u8>)> {
    match decode_record_spec(b) {
        Some(r) => if addressed_elsewhere(r, agent_id) || r.from_id.len() == 0 {
            None
        } else {
            match msg_payload(r) {
                Some(p) => Some((r.from_id, p)),
                None => None,
            }
        },
        None => None,
    }
}

/// Opens an inbound frame: the sender's identifier and the message bytes.
pub fn accept_record(agent_id: &str, data: &[u8]) -> (r: Option<(String, Vec<u8>)>)
    ensures
        match accepted(agent_id@, data@) {
            Some((from, p)) => r matches Some(x) && x.0@ == from && x.1@ == p,
            None => r is None,
        },
        r matches Some(x) ==> x.0@.len() > 0,
{
    let record = match decode_record(data) {
        Ok(r) => r,
        Err(_) => {
            return None;
        },
    };
    if record.to_id.as_str().unicode_len() > 0 && !str_eq(record.to_id.as_str(), agent_id) {
        return None;
    }
    if record.from_id.as_str().unicode_len() == 0 {
        return None;
    }
    match extract_msg_payload(&record) {
        Some(p) => Some((record.from_id.clone(), crate::pb::copy_bytes(p))),
        None => None,
    }
}

/// The frame that carries a reply: a record from the agent to the sender,
/// outside any session, at the given version.
pub open spec fn reply_record_view(agent_id: Seq<char>, to_id: Seq<char>, reply: Seq<u8>, version: Seq<char>) -> RecordV {
    RecordV {
        version,
        to_id,
        from_id: agent_id,
        payload_security: 0,
        mac_signature: Seq::empty(),
        sender_cert: Seq::empty(),
        record_type: Some(RecordTypeV::NoSessionContext(reply)),
    }
}

pub fn frame_reply(agent_id: &str, to_id: &str, reply: Vec<u8>, version: &str) -> (r: Vec<u8>)
    ensures
        r@ == record_bytes(reply_record_view(agent_id@, to_id@, reply@, version@)),
{
    let rec = no_session_record(agent_id, to_id, reply, version);
    match encode_record(&rec) {
        Ok(b) => b,
        Err(_) => Vec::new(),
    }
}

/// An inbound frame addressed to another endpoint yields nothing to answer.
pub proof fn lemma_addressing(agent_id: Seq<char>, b: Seq<u8>)
    ensures
        (decode_record_spec(b) matches Some(r) && addressed_elsewhere(r, agent_id)) ==> accepted(agent_id, b) is None,
{
}

/// Every frame the agent sends decodes to a record from the agent.
pub proof fn lemma_from_id(agent_id: Seq<char>, to_id: Seq<char>, reply: Seq<u8>, version: Seq<char>)
    requires
        record_bytes(reply_record_view(agent_id, to_id, reply, version)).len() < 0x1_0000_0000_0000_0000,
    ensures
        decode_record_spec(record_bytes(reply_record_view(agent_id, to_id, reply, version))) matches Some(r)
            && r.from_id == agent_id,
{
    lemma_record_round_trip(reply_record_view(agent_id, to_id, reply, version));
}

/// A reply to an accepted frame goes from the agent to the frame's sender,
/// whose identifier is never empty.
pub proof fn lemma_reply_addressed(agent_id: Seq<char>, b: Seq<u8>, reply: Seq<u8>, version: Seq<char>)
    requires
        accepted(agent_id, b) is Some,
        record_bytes(reply_record_view(agent_id, accepted(agent_id, b)->Some_0.0, reply, version)).len()
            < 0x1_0000_0000_0000_0000,
    ensures
        decode_record_spec(record_bytes(reply_record_view(agent_id, accepted(agent_id, b)->Some_0.0, reply, version)))
            matches Some(r) && r.from_id == agent_id && r.to_id.len() > 0,
{
    lemma_record_round_trip(reply_record_view(agent_id, accepted(agent_id, b)->Some_0.0, reply, version));
}

/// The identifier of every reply that the engine builds itself is the
/// request's own.
pub proof fn lemma_id_echo(b: Seq<u8>)
    ensures
        classify(b) matches Some(IncomingV::Reply(m)) ==> (dec::<Msg>(b) matches Some(req) && req.header matches Some(
            h,
        ) && m.header matches Some(h2) && h2.msg_id == h.msg_id),
        classify(b) matches Some(IncomingV::Get { msg_id, .. }) ==> (dec::<Msg>(b) matches Some(req)
            && req.header matches Some(h) && msg_id == h.msg_id),
        classify(b) matches Some(IncomingV::SetParams { msg_id, .. }) ==> (dec::<Msg>(b) matches Some(req)
            && req.header matches Some(h) && msg_id == h.msg_id),
        classify(b) matches Some(IncomingV::Operate { msg_id, .. }) ==> (dec::<Msg>(b) matches Some(req)
            && req.header matches Some(h) && msg_id == h.msg_id),
{
}

} // verus!
