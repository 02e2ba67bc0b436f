//! USP Records: the envelope that frames one message over a transport,
//! their constructors, and their wire encoding.
use vstd::prelude::*;
use crate::error::UspError;
use crate::pb::{
    all_len, bytes_field, copy_bytes, find_last_len, find_last_varint, find_last_fixed32,
    fixed32_f, fixed32_field, fview, last_fixed32, last_len, last_varint, len_f, lemma_absent,
    lemma_all_len_map, lemma_last_at,
    lemma_skip, lemma_str_round, opt_bytes, opt_str, opt_string, opt_u32, opt_u64, str_f,
    str_field, varint_f, varint_field,
};
use crate::wire::{
    fields_bytes, lemma_fields_ok, lemma_parse_serialize, lemma_payload_within, parse_fields,
    parse_fields_exec, serialize_fields, valid_num, Field, FieldV, Wire,
};

verus! {

// ---------------------------------------------------------------- model

pub struct SessionContextV {
    pub session_id: u64,
    pub sequence_id: u64,
    pub expected_id: u64,
    pub retransmit_id: u64,
    pub payload_sar_state: u64,
    pub payloadrec_sar_state: u64,
    pub payload: Seq<Seq<u8>>,
}

pub enum RecordTypeV {
    NoSessionContext(Seq<u8>),
    SessionContext(SessionContextV),
    WebsocketConnect,
    MqttConnect { version: u64, subscribed_topic: Seq<char> },
    Disconnect { reason: Seq<char>, reason_code: u32 },
}

pub struct RecordV {
    pub version: Seq<char>,
    pub to_id: Seq<char>,
    pub from_id: Seq<char>,
    pub payload_security: u64,
    pub mac_signature: Seq<u8>,
    pub sender_cert: Seq<u8>,
    pub record_type: Option<RecordTypeV>,
}

// ---------------------------------------------------------------- types

/// A record that carries one message outside any session.
pub struct NoSessionContextRecord {
    pub payload: Vec<u8>,
}

/// A record inside a session: sequence numbers and payload segments.
pub struct SessionContextRecord {
    pub session_id: u64,
    pub sequence_id: u64,
    pub expected_id: u64,
    pub retransmit_id: u64,
    pub payload_sar_state: u64,
    pub payloadrec_sar_state: u64,
    pub payload: Vec<Vec<u8>>,
}

/// Announces an agent on an MQTT transport.
pub struct MqttConnectRecord {
    /// 0 is MQTT 3.1.1, 1 is MQTT 5.
    pub version: u64,
    pub subscribed_topic: String,
}

/// Announces the end of a connection.
pub struct DisconnectRecord {
    pub reason: String,
    pub reason_code: u32,
}

/// What a record carries.
pub enum RecordType {
    NoSessionContext(NoSessionContextRecord),
    SessionContext(SessionContextRecord),
    WebsocketConnect,
    MqttConnect(MqttConnectRecord),
    Disconnect(DisconnectRecord),
}

/// The envelope of one USP message.
pub struct Record {
    pub version: String,
    pub to_id: String,
    pub from_id: String,
    /// 0 is plaintext.
    pub payload_security: u64,
    pub mac_signature: Vec<u8>,
    pub sender_cert: Vec<u8>,
    pub record_type: Option<RecordType>,
}

impl View for SessionContextRecord {
    type V = SessionContextV;

    open spec fn view(&self) -> SessionContextV {
        SessionContextV {
            session_id: self.session_id,
            sequence_id: self.sequence_id,
            expected_id: self.expected_id,
            retransmit_id: self.retransmit_id,
            payload_sar_state: self.payload_sar_state,
            payloadrec_sar_state: self.payloadrec_sar_state,
            payload: self.payload@.map_values(|p: Vec<u8>| p@),
        }
    }
}

impl View for RecordType {
    type V = RecordTypeV;

    open spec fn view(&self) -> RecordTypeV {
        match self {
            RecordType::NoSessionContext(r) => RecordTypeV::NoSessionContext(r.payload@),
            RecordType::SessionContext(r) => RecordTypeV::SessionContext(r@),
            RecordType::WebsocketConnect => RecordTypeV::WebsocketConnect,
            RecordType::MqttConnect(r) => RecordTypeV::MqttConnect {
                version: r.version,
                subscribed_topic: r.subscribed_topic@,
            },
            RecordType::Disconnect(r) => RecordTypeV::Disconnect {
                reason: r.reason@,
                reason_code: r.reason_code,
            },
        }
    }
}

impl View for Record {
    type V = RecordV;

    open spec fn view(&self) -> RecordV {
        RecordV {
            version: self.version@,
            to_id: self.to_id@,
            from_id: self.from_id@,
            payload_security: self.payload_security,
            mac_signature: self.mac_signature@,
            sender_cert: self.sender_cert@,
            record_type: match &self.record_type {
                Some(t) => Some(t@),
                None => None,
            },
        }
    }
}

// ---------------------------------------------------------------- encoding

pub open spec fn session_head(s: SessionContextV) -> Seq<FieldV> {
    seq![
        varint_f(1, s.session_id),
        varint_f(2, s.sequence_id),
        varint_f(3, s.expected_id),
        varint_f(4, s.retransmit_id),
        varint_f(5, s.payload_sar_state),
        varint_f(6, s.payloadrec_sar_state),
    ]
}

pub open spec fn session_fields(s: SessionContextV) -> Seq<FieldV> {
    session_head(s) + s.payload.map_values(|p: Seq<u8>| len_f(7, p))
}

pub open spec fn record_type_field(t: RecordTypeV) -> FieldV {
    match t {
        RecordTypeV::NoSessionContext(p) => len_f(7, fields_bytes(seq![len_f(1, p)])),
        RecordTypeV::SessionContext(s) => len_f(8, fields_bytes(session_fields(s))),
        RecordTypeV::WebsocketConnect => len_f(9, fields_bytes(seq![])),
        RecordTypeV::MqttConnect { version, subscribed_topic } => len_f(
            10,
            fields_bytes(seq![varint_f(1, version), str_f(2, subscribed_topic)]),
        ),
        RecordTypeV::Disconnect { reason, reason_code } => len_f(
            12,
            fields_bytes(seq![str_f(1, reason), fixed32_f(2, reason_code)]),
        ),
    }
}

pub open spec fn record_head(r: RecordV) -> Seq<FieldV> {
    seq![
        str_f(1, r.version),
        str_f(2, r.to_id),
        str_f(3, r.from_id),
        varint_f(4, r.payload_security),
        len_f(5, r.mac_signature),
        len_f(6, r.sender_cert),
    ]
}

/// The fields of a record, in the order they are written.
pub open spec fn record_fields(r: RecordV) -> Seq<FieldV> {
    match r.record_type {
        Some(t) => record_head(r).push(record_type_field(t)),
        None => record_head(r),
    }
}

/// The wire form of a record.
pub open spec fn record_bytes(r: RecordV) -> Seq<u8> {
    fields_bytes(record_fields(r))
}

// ---------------------------------------------------------------- decoding

pub open spec fn is_record_type_num(n: u64) -> bool {
    n == 7 || n == 8 || n == 9 || n == 10 || n == 12
}

/// The last field that sets what the record carries.
pub open spec fn last_record_type(fs: Seq<FieldV>) -> Option<FieldV>
    decreases fs.len(),
{
    if fs.len() == 0 {
        None
    } else if is_record_type_num(fs.last().num) && fs.last().val is Len {
        Some(fs.last())
    } else {
        last_record_type(fs.drop_last())
    }
}

pub open spec fn session_of(fs: Seq<FieldV>) -> SessionContextV {
    SessionContextV {
        session_id: opt_u64(last_varint(fs, 1)),
        sequence_id: opt_u64(last_varint(fs, 2)),
        expected_id: opt_u64(last_varint(fs, 3)),
        retransmit_id: opt_u64(last_varint(fs, 4)),
        payload_sar_state: opt_u64(last_varint(fs, 5)),
        payloadrec_sar_state: opt_u64(last_varint(fs, 6)),
        payload: all_len(fs, 7),
    }
}

/// What a record-type field decodes to.
pub open spec fn record_type_of(f: FieldV) -> Option<RecordTypeV> {
    match parse_fields(f.val->Len_0) {
        None => None,
        Some(fs) => if f.num == 7 {
            Some(RecordTypeV::NoSessionContext(opt_bytes(last_len(fs, 1))))
        } else if f.num == 8 {
            Some(RecordTypeV::SessionContext(session_of(fs)))
        } else if f.num == 9 {
            Some(RecordTypeV::WebsocketConnect)
        } else if f.num == 10 {
            match opt_str(last_len(fs, 2)) {
                Some(t) => Some(
                    RecordTypeV::MqttConnect { version: opt_u64(last_varint(fs, 1)), subscribed_topic: t },
                ),
                None => None,
            }
        } else {
            match opt_str(last_len(fs, 1)) {
                Some(reason) => Some(
                    RecordTypeV::Disconnect { reason, reason_code: opt_u32(last_fixed32(fs, 2)) },
                ),
                None => None,
            }
        },
    }
}

/// The record that a field list describes, if its strings are valid.
pub open spec fn record_of(fs: Seq<FieldV>) -> Option<RecordV> {
    match (opt_str(last_len(fs, 1)), opt_str(last_len(fs, 2)), opt_str(last_len(fs, 3))) {
        (Some(version), Some(to_id), Some(from_id)) => {
            let rt = match last_record_type(fs) {
                None => Some(None),
                Some(f) => match record_type_of(f) {
                    Some(t) => Some(Some(t)),
                    None => None,
                },
            };
            match rt {
                Some(record_type) => Some(
                    RecordV {
                        version,
                        to_id,
                        from_id,
                        payload_security: opt_u64(last_varint(fs, 4)),
                        mac_signature: opt_bytes(last_len(fs, 5)),
                        sender_cert: opt_bytes(last_len(fs, 6)),
                        record_type,
                    },
                ),
                None => None,
            }
        },
        _ => None,
    }
}

/// The record that a byte string decodes to, if any.
pub open spec fn decode_record_spec(b: Seq<u8>) -> Option<RecordV> {
    match parse_fields(b) {
        Some(fs) => record_of(fs),
        None => None,
    }
}


// ---------------------------------------------------------------- exec codec

fn session_to_fields(s: &SessionContextRecord) -> (fs: Vec<Field>)
    ensures
        fview(fs@) == session_fields(s@),
        forall|j: int| 0 <= j < fs@.len() ==> valid_num(#[trigger] fs@[j].num),
{
    let mut fs: Vec<Field> = Vec::new();
    fs.push(varint_field(1, s.session_id));
    fs.push(varint_field(2, s.sequence_id));
    fs.push(varint_field(3, s.expected_id));
    fs.push(varint_field(4, s.retransmit_id));
    fs.push(varint_field(5, s.payload_sar_state));
    fs.push(varint_field(6, s.payloadrec_sar_state));
    assert(fview(fs@) =~= session_head(s@));
    let mut i: usize = 0;
    while i < s.payload.len()
        invariant
            i <= s.payload@.len(),
            fview(fs@) == session_head(s@) + s@.payload.take(i as int).map_values(|p: Seq<u8>| len_f(7, p)),
            forall|j: int| 0 <= j < fs@.len() ==> valid_num(#[trigger] fs@[j].num),
        decreases s.payload@.len() - i,
    {
        let ghost before = fview(fs@);
        fs.push(bytes_field(7, s.payload[i].as_slice()));
        proof {
            assert(s@.payload[i as int] == s.payload@[i as int]@);
            assert(s@.payload.take(i + 1) =~= s@.payload.take(i as int).push(s@.payload[i as int]));
            assert(fview(fs@) =~= before.push(len_f(7, s@.payload[i as int])));
            assert(session_head(s@) + s@.payload.take(i + 1).map_values(|p: Seq<u8>| len_f(7, p)) =~= before.push(
                len_f(7, s@.payload[i as int]),
            ));
        }
        i = i + 1;
    }
    assert(s@.payload.take(i as int) =~= s@.payload);
    fs
}

fn record_type_to_field(t: &RecordType) -> (f: Field)
    ensures
        f@ == record_type_field(t@),
        valid_num(f.num),
{
    match t {
        RecordType::NoSessionContext(r) => {
            let mut fs: Vec<Field> = Vec::new();
            fs.push(bytes_field(1, r.payload.as_slice()));
            assert(fview(fs@) =~= seq![len_f(1, r.payload@)]);
            Field { num: 7, val: Wire::Len(serialize_fields(&fs)) }
        },
        RecordType::SessionContext(s) => {
            let fs = session_to_fields(s);
            Field { num: 8, val: Wire::Len(serialize_fields(&fs)) }
        },
        RecordType::WebsocketConnect => {
            let fs: Vec<Field> = Vec::new();
            assert(fview(fs@) =~= Seq::<FieldV>::empty());
            Field { num: 9, val: Wire::Len(serialize_fields(&fs)) }
        },
        RecordType::MqttConnect(m) => {
            let mut fs: Vec<Field> = Vec::new();
            fs.push(varint_field(1, m.version));
            fs.push(str_field(2, m.subscribed_topic.as_str()));
            assert(fview(fs@) =~= seq![varint_f(1, m.version), str_f(2, m.subscribed_topic@)]);
            Field { num: 10, val: Wire::Len(serialize_fields(&fs)) }
        },
        RecordType::Disconnect(d) => {
            let mut fs: Vec<Field> = Vec::new();
            fs.push(str_field(1, d.reason.as_str()));
            fs.push(fixed32_field(2, d.reason_code));
            assert(fview(fs@) =~= seq![str_f(1, d.reason@), fixed32_f(2, d.reason_code)]);
            Field { num: 12, val: Wire::Len(serialize_fields(&fs)) }
        },
    }
}

/// Encodes a record. Encoding cannot fail.
pub fn encode_record(record: &Record) -> (r: Result<Vec<u8>, UspError>)
    ensures
        r matches Ok(b) && b@ == record_bytes(record@),
{
    let mut fs: Vec<Field> = Vec::new();
    fs.push(str_field(1, record.version.as_str()));
    fs.push(str_field(2, record.to_id.as_str()));
    fs.push(str_field(3, record.from_id.as_str()));
    fs.push(varint_field(4, record.payload_security));
    fs.push(bytes_field(5, record.mac_signature.as_slice()));
    fs.push(bytes_field(6, record.sender_cert.as_slice()));
    match &record.record_type {
        Some(t) => {
            fs.push(record_type_to_field(t));
        },
        None => {},
    }
    assert(fview(fs@) =~= record_fields(record@));
    Ok(serialize_fields(&fs))
}

fn find_last_record_type(fs: &Vec<Field>) -> (r: Option<&Field>)
    ensures
        match last_record_type(fview(fs@)) {
            Some(f) => r matches Some(x) && x@ == f,
            None => r is None,
        },
        r matches Some(x) ==> is_record_type_num(x.num) && x.val is Len,
{
    let mut j: usize = fs.len();
    assert(fview(fs@).take(fs@.len() as int) =~= fview(fs@));
    while j > 0
        invariant
            j <= fs@.len(),
            last_record_type(fview(fs@)) == last_record_type(fview(fs@).take(j as int)),
        decreases j,
    {
        proof {
            assert(fview(fs@).take(j as int).drop_last() =~= fview(fs@).take(j - 1));
            assert(fview(fs@).take(j as int).last() == fs@[j - 1]@);
        }
        let f = &fs[j - 1];
        if f.num == 7 || f.num == 8 || f.num == 9 || f.num == 10 || f.num == 12 {
            match &f.val {
                Wire::Len(_) => {
                    return Some(f);
                },
                _ => {},
            }
        }
        j = j - 1;
    }
    assert(fview(fs@).take(0) =~= Seq::<FieldV>::empty());
    None
}

fn record_type_from_field(f: &Field) -> (r: Option<RecordType>)
    requires
        is_record_type_num(f.num),
        f.val is Len,
    ensures
        match record_type_of(f@) {
            Some(t) => r matches Some(x) && x@ == t,
            None => r is None,
        },
{
    let b = match &f.val {
        Wire::Len(b) => b,
        _ => {
            return None;
        },
    };
    let fs = match parse_fields_exec(b.as_slice()) {
        Some(fs) => fs,
        None => {
            return None;
        },
    };
    if f.num == 7 {
        let payload = match find_last_len(&fs, 1) {
            Some(p) => copy_bytes(p.as_slice()),
            None => Vec::new(),
        };
        Some(RecordType::NoSessionContext(NoSessionContextRecord { payload }))
    } else if f.num == 8 {
        let session_id = match find_last_varint(&fs, 1) { Some(v) => v, None => 0 };
        let sequence_id = match find_last_varint(&fs, 2) { Some(v) => v, None => 0 };
        let expected_id = match find_last_varint(&fs, 3) { Some(v) => v, None => 0 };
        let retransmit_id = match find_last_varint(&fs, 4) { Some(v) => v, None => 0 };
        let payload_sar_state = match find_last_varint(&fs, 5) { Some(v) => v, None => 0 };
        let payloadrec_sar_state = match find_last_varint(&fs, 6) { Some(v) => v, None => 0 };
        let payload = crate::pb::collect_bytes(&fs, 7);
        Some(
            RecordType::SessionContext(
                SessionContextRecord {
                    session_id,
                    sequence_id,
                    expected_id,
                    retransmit_id,
                    payload_sar_state,
                    payloadrec_sar_state,
                    payload,
                },
            ),
        )
    } else if f.num == 9 {
        Some(RecordType::WebsocketConnect)
    } else if f.num == 10 {
        let version = match find_last_varint(&fs, 1) { Some(v) => v, None => 0 };
        match opt_string(find_last_len(&fs, 2)) {
            Some(subscribed_topic) => Some(RecordType::MqttConnect(MqttConnectRecord { version, subscribed_topic })),
            None => None,
        }
    } else {
        let reason_code = match find_last_fixed32(&fs, 2) { Some(v) => v, None => 0 };
        match opt_string(find_last_len(&fs, 1)) {
            Some(reason) => Some(RecordType::Disconnect(DisconnectRecord { reason, reason_code })),
            None => None,
        }
    }
}

/// Decodes a record received from a transport.
pub fn decode_record(data: &[u8]) -> (r: Result<Record, UspError>)
    ensures
        match decode_record_spec(data@) {
            Some(v) => r matches Ok(x) && x@ == v,
            None => r == Err::<Record, UspError>(UspError::Decode),
        },
{
    let fs = match parse_fields_exec(data) {
        Some(fs) => fs,
        None => {
            return Err(UspError::Decode);
        },
    };
    let version = match opt_string(find_last_len(&fs, 1)) {
        Some(s) => s,
        None => {
            return Err(UspError::Decode);
        },
    };
    let to_id = match opt_string(find_last_len(&fs, 2)) {
        Some(s) => s,
        None => {
            return Err(UspError::Decode);
        },
    };
    let from_id = match opt_string(find_last_len(&fs, 3)) {
        Some(s) => s,
        None => {
            return Err(UspError::Decode);
        },
    };
    let record_type = match find_last_record_type(&fs) {
        None => None,
        Some(f) => match record_type_from_field(f) {
            Some(t) => Some(t),
            None => {
                return Err(UspError::Decode);
            },
        },
    };
    let payload_security = match find_last_varint(&fs, 4) { Some(v) => v, None => 0 };
    let mac_signature = match find_last_len(&fs, 5) {
        Some(b) => copy_bytes(b.as_slice()),
        None => Vec::new(),
    };
    let sender_cert = match find_last_len(&fs, 6) {
        Some(b) => copy_bytes(b.as_slice()),
        None => Vec::new(),
    };
    Ok(Record { version, to_id, from_id, payload_security, mac_signature, sender_cert, record_type })
}


// ---------------------------------------------------------------- constructors

/// The version written on records before any negotiation.
pub open spec fn default_version() -> Seq<char> {
    seq!['1', '.', '3']
}

pub fn default_version_string() -> (s: String)
    ensures
        s@ == default_version(),
{
    let s = String::from_str("1.3");
    proof {
        reveal_strlit("1.3");
    }
    s
}

/// A record that carries an encoded message outside any session, written
/// with the given protocol version.
pub fn no_session_record(from_id: &str, to_id: &str, msg_bytes: Vec<u8>, usp_version: &str) -> (r: Record)
    ensures
        r@ == (RecordV {
            version: usp_version@,
            to_id: to_id@,
            from_id: from_id@,
            payload_security: 0,
            mac_signature: Seq::empty(),
            sender_cert: Seq::empty(),
            record_type: Some(RecordTypeV::NoSessionContext(msg_bytes@)),
        }),
{
    Record {
        version: String::from_str(usp_version),
        to_id: String::from_str(to_id),
        from_id: String::from_str(from_id),
        payload_security: 0,
        mac_signature: Vec::new(),
        sender_cert: Vec::new(),
        record_type: Some(RecordType::NoSessionContext(NoSessionContextRecord { payload: msg_bytes })),
    }
}

/// The record that opens a WebSocket connection.
pub fn websocket_connect_record(from_id: &str, to_id: &str) -> (r: Record)
    ensures
        r@ == (RecordV {
            version: default_version(),
            to_id: to_id@,
            from_id: from_id@,
            payload_security: 0,
            mac_signature: Seq::empty(),
            sender_cert: Seq::empty(),
            record_type: Some(RecordTypeV::WebsocketConnect),
        }),
{
    Record {
        version: default_version_string(),
        to_id: String::from_str(to_id),
        from_id: String::from_str(from_id),
        payload_security: 0,
        mac_signature: Vec::new(),
        sender_cert: Vec::new(),
        record_type: Some(RecordType::WebsocketConnect),
    }
}

/// The record that announces the agent on MQTT 3.1.1, naming the topic it
/// listens on.
pub fn mqtt_connect_record(from_id: &str, to_id: &str, subscribed_topic: &str) -> (r: Record)
    ensures
        r@ == (RecordV {
            version: default_version(),
            to_id: to_id@,
            from_id: from_id@,
            payload_security: 0,
            mac_signature: Seq::empty(),
            sender_cert: Seq::empty(),
            record_type: Some(RecordTypeV::MqttConnect { version: 0, subscribed_topic: subscribed_topic@ }),
        }),
{
    Record {
        version: default_version_string(),
        to_id: String::from_str(to_id),
        from_id: String::from_str(from_id),
        payload_security: 0,
        mac_signature: Vec::new(),
        sender_cert: Vec::new(),
        record_type: Some(
            RecordType::MqttConnect(MqttConnectRecord { version: 0, subscribed_topic: String::from_str(subscribed_topic) }),
        ),
    }
}

/// The record that announces the end of a connection.
pub fn disconnect_record(from_id: &str, to_id: &str, reason: &str) -> (r: Record)
    ensures
        r@ == (RecordV {
            version: default_version(),
            to_id: to_id@,
            from_id: from_id@,
            payload_security: 0,
            mac_signature: Seq::empty(),
            sender_cert: Seq::empty(),
            record_type: Some(RecordTypeV::Disconnect { reason: reason@, reason_code: 0 }),
        }),
{
    Record {
        version: default_version_string(),
        to_id: String::from_str(to_id),
        from_id: String::from_str(from_id),
        payload_security: 0,
        mac_signature: Vec::new(),
        sender_cert: Vec::new(),
        record_type: Some(RecordType::Disconnect(DisconnectRecord { reason: String::from_str(reason), reason_code: 0 })),
    }
}

/// The message bytes that a record carries: the payload outside a session,
/// or the first segment inside one.
pub open spec fn msg_payload(r: RecordV) -> Option<Seq<u8>> {
    match r.record_type {
        Some(RecordTypeV::NoSessionContext(p)) => Some(p),
        Some(RecordTypeV::SessionContext(s)) => if s.payload.len() > 0 {
            Some(s.payload[0])
        } else {
            None
        },
        _ => None,
    }
}

pub fn extract_msg_payload(record: &Record) -> (r: Option<&[u8]>)
    ensures
        match msg_payload(record@) {
            Some(p) => r matches Some(x) && x@ == p,
            None => r is None,
        },
{
    match &record.record_type {
        Some(RecordType::NoSessionContext(n)) => Some(n.payload.as_slice()),
        Some(RecordType::SessionContext(s)) => {
            if s.payload.len() > 0 {
                assert(record@.record_type == Some(RecordTypeV::SessionContext(s@)));
                assert(s@.payload[0] == s.payload@[0]@);
                Some(s.payload[0].as_slice())
            } else {
                None
            }
        },
        _ => None,
    }
}


// ---------------------------------------------------------------- round trip

proof fn lemma_sub_round(fs: Seq<FieldV>)
    requires
        forall|i: int| 0 <= i < fs.len() ==> valid_num(#[trigger] fs[i].num),
        fields_bytes(fs).len() < 0x1_0000_0000_0000_0000,
    ensures
        parse_fields(fields_bytes(fs)) == Some(fs),
{
    lemma_fields_ok(fs);
    lemma_parse_serialize(fs);
}

proof fn lemma_session_round(s: SessionContextV)
    ensures
        session_of(session_fields(s)) == s,
{
    let h = session_head(s);
    let m = s.payload.map_values(|p: Seq<u8>| len_f(7, p));
    assert forall|i: int| 0 <= i < m.len() implies (#[trigger] m[i]).num == 7 by {}
    lemma_skip(h, m, 1);
    lemma_skip(h, m, 2);
    lemma_skip(h, m, 3);
    lemma_skip(h, m, 4);
    lemma_skip(h, m, 5);
    lemma_skip(h, m, 6);
    lemma_last_at(h, 0, 1);
    lemma_last_at(h, 1, 2);
    lemma_last_at(h, 2, 3);
    lemma_last_at(h, 3, 4);
    lemma_last_at(h, 4, 5);
    lemma_last_at(h, 5, 6);
    lemma_all_len_map(h, s.payload, 7);
    lemma_absent(h, 7);
    assert(Seq::<Seq<u8>>::empty() + s.payload =~= s.payload);
}

proof fn lemma_no_session_round(p: Seq<u8>)
    requires
        fields_bytes(seq![len_f(1, p)]).len() < 0x1_0000_0000_0000_0000,
    ensures
        record_type_of(record_type_field(RecordTypeV::NoSessionContext(p)))
            == Some(RecordTypeV::NoSessionContext(p)),
{
    let fs = seq![len_f(1, p)];
    lemma_sub_round(fs);
    lemma_last_at(fs, 0, 1);
}

proof fn lemma_session_type_round(s: SessionContextV)
    requires
        fields_bytes(session_fields(s)).len() < 0x1_0000_0000_0000_0000,
    ensures
        record_type_of(record_type_field(RecordTypeV::SessionContext(s)))
            == Some(RecordTypeV::SessionContext(s)),
{
    let fs = session_fields(s);
    assert forall|i: int| 0 <= i < fs.len() implies valid_num(#[trigger] fs[i].num) by {
        if i >= 6 {
            assert(fs[i] == len_f(7, s.payload[i - 6]));
        }
    }
    lemma_sub_round(fs);
    lemma_session_round(s);
}

proof fn lemma_mqtt_round(version: u64, topic: Seq<char>)
    requires
        fields_bytes(seq![varint_f(1, version), str_f(2, topic)]).len() < 0x1_0000_0000_0000_0000,
    ensures
        record_type_of(record_type_field(RecordTypeV::MqttConnect { version, subscribed_topic: topic }))
            == Some(RecordTypeV::MqttConnect { version, subscribed_topic: topic }),
{
    let fs = seq![varint_f(1, version), str_f(2, topic)];
    lemma_sub_round(fs);
    lemma_last_at(fs, 0, 1);
    lemma_last_at(fs, 1, 2);
    lemma_str_round(topic);
}

proof fn lemma_disconnect_round(reason: Seq<char>, code: u32)
    requires
        fields_bytes(seq![str_f(1, reason), fixed32_f(2, code)]).len() < 0x1_0000_0000_0000_0000,
    ensures
        record_type_of(record_type_field(RecordTypeV::Disconnect { reason, reason_code: code }))
            == Some(RecordTypeV::Disconnect { reason, reason_code: code }),
{
    let fs = seq![str_f(1, reason), fixed32_f(2, code)];
    lemma_sub_round(fs);
    lemma_last_at(fs, 0, 1);
    lemma_last_at(fs, 1, 2);
    lemma_str_round(reason);
}

proof fn lemma_record_type_round(t: RecordTypeV)
    requires
        record_type_field(t).val->Len_0.len() < 0x1_0000_0000_0000_0000,
    ensures
        record_type_of(record_type_field(t)) == Some(t),
{
    match t {
        RecordTypeV::NoSessionContext(p) => lemma_no_session_round(p),
        RecordTypeV::SessionContext(s) => lemma_session_type_round(s),
        RecordTypeV::WebsocketConnect => lemma_sub_round(seq![]),
        RecordTypeV::MqttConnect { version, subscribed_topic } => lemma_mqtt_round(version, subscribed_topic),
        RecordTypeV::Disconnect { reason, reason_code } => lemma_disconnect_round(reason, reason_code),
    }
}

proof fn lemma_no_record_type(fs: Seq<FieldV>)
    requires
        forall|j: int| 0 <= j < fs.len() ==> !is_record_type_num(#[trigger] fs[j].num),
    ensures
        last_record_type(fs) is None,
    decreases fs.len(),
{
    if fs.len() > 0 {
        assert(fs.last() == fs[fs.len() - 1]);
        let d = fs.drop_last();
        assert forall|j: int| 0 <= j < d.len() implies !is_record_type_num(#[trigger] d[j].num) by {
            assert(d[j] == fs[j]);
        }
        lemma_no_record_type(d);
    }
}

proof fn lemma_record_head(r: RecordV)
    ensures
        last_len(record_fields(r), 1) == Some(crate::pb::str_bytes_spec(r.version)),
        last_len(record_fields(r), 2) == Some(crate::pb::str_bytes_spec(r.to_id)),
        last_len(record_fields(r), 3) == Some(crate::pb::str_bytes_spec(r.from_id)),
        last_varint(record_fields(r), 4) == Some(r.payload_security),
        last_len(record_fields(r), 5) == Some(r.mac_signature),
        last_len(record_fields(r), 6) == Some(r.sender_cert),
{
    let fs = record_fields(r);
    assert(fs.len() >= 6);
    assert forall|j: int| 6 <= j < fs.len() implies (#[trigger] fs[j]).num >= 7 by {}
    lemma_last_at(fs, 0, 1);
    lemma_last_at(fs, 1, 2);
    lemma_last_at(fs, 2, 3);
    lemma_last_at(fs, 3, 4);
    lemma_last_at(fs, 4, 5);
    lemma_last_at(fs, 5, 6);
}

proof fn lemma_record_tail(r: RecordV)
    requires
        record_bytes(r).len() < 0x1_0000_0000_0000_0000,
    ensures
        match last_record_type(record_fields(r)) {
            None => r.record_type is None,
            Some(f) => r.record_type matches Some(t) && record_type_of(f) == Some(t),
        },
{
    let fs = record_fields(r);
    let h = record_head(r);
    match r.record_type {
        Some(t) => {
            assert(fs == h.push(record_type_field(t)));
            assert(fs.last() == record_type_field(t));
            lemma_payload_within(fs, 6);
            lemma_record_type_round(t);
        },
        None => {
            lemma_no_record_type(h);
        },
    }
}

/// Decoding the encoding of a record gives the record back, for every record
/// whose encoding fits in memory.
pub proof fn lemma_record_round_trip(r: RecordV)
    requires
        record_bytes(r).len() < 0x1_0000_0000_0000_0000,
    ensures
        decode_record_spec(record_bytes(r)) == Some(r),
{
    let fs = record_fields(r);
    assert forall|i: int| 0 <= i < fs.len() implies valid_num(#[trigger] fs[i].num) by {
        if i == 6 {
            assert(fs[i].num >= 7 && fs[i].num <= 12);
        }
    }
    lemma_sub_round(fs);
    lemma_str_round(r.version);
    lemma_str_round(r.to_id);
    lemma_str_round(r.from_id);
    lemma_record_head(r);
    lemma_record_tail(r);
}

} // verus!
