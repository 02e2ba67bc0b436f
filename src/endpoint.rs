//! Endpoint identifiers, and the MQTT topics derived from them.
use vstd::prelude::*;
use crate::text::{push_char, push_str};

verus! {

/// A USP endpoint identifier.
#[derive(Debug, Clone, PartialEq, Eq, Hash)]
pub struct EndpointId(pub String);

pub open spec fn oui_prefix() -> Seq<char> {
    seq!['o', 'u', 'i', ':']
}

impl EndpointId {
    pub fn new(s: String) -> (r: Self)
        ensures
            r.0@ == s@,
    {
        EndpointId(s)
    }

    /// The identifier `oui:<oui>:<mac>`.
    pub fn from_mac(oui: &str, mac: &str) -> (r: Self)
        ensures
            r.0@ == oui_prefix() + oui@ + seq![':'] + mac@,
    {
        let mut s = String::from_str("oui:");
        proof {
            reveal_strlit("oui:");
        }
        assert(s@ =~= oui_prefix());
        push_str(&mut s, oui);
        push_char(&mut s, ':');
        push_str(&mut s, mac);
        EndpointId(s)
    }

    pub fn as_str(&self) -> (r: &str)
        ensures
            r@ == self.0@,
    {
        self.0.as_str()
    }

    /// The identifier as text.
    pub fn to_string(&self) -> (r: String)
        ensures
            r@ == self.0@,
    {
        self.0.clone()
    }
}

/// How one character is written in an MQTT topic: the characters that MQTT
/// reserves, and `:`, are percent-encoded.
pub open spec fn topic_char(c: char) -> Seq<char> {
    if c == ':' {
        seq!['%', '3', 'A']
    } else if c == '#' {
        seq!['%', '2', '3']
    } else if c == '+' {
        seq!['%', '2', 'B']
    } else {
        seq![c]
    }
}

pub open spec fn sanitised(s: Seq<char>) -> Seq<char>
    decreases s.len(),
{
    if s.len() == 0 {
        seq![]
    } else {
        sanitised(s.drop_last()) + topic_char(s.last())
    }
}

/// An endpoint identifier made safe to stand in an MQTT topic.
pub fn sanitise_topic(s: &str) -> (r: String)
    ensures
        r@ == sanitised(s@),
{
    let n = s.unicode_len();
    let mut out = String::new();
    let mut i: usize = 0;
    while i < n
        invariant
            n == s@.len(),
            i <= n,
            out@ == sanitised(s@.subrange(0, i as int)),
        decreases n - i,
    {
        let c = s.get_char(i);
        let ghost before = out@;
        if c == ':' {
            push_char(&mut out, '%');
            push_char(&mut out, '3');
            push_char(&mut out, 'A');
        } else if c == '#' {
            push_char(&mut out, '%');
            push_char(&mut out, '2');
            push_char(&mut out, '3');
        } else if c == '+' {
            push_char(&mut out, '%');
            push_char(&mut out, '2');
            push_char(&mut out, 'B');
        } else {
            push_char(&mut out, c);
        }
        assert(s@.subrange(0, i + 1).drop_last() =~= s@.subrange(0, i as int));
        assert(out@ =~= before + topic_char(c));
        i = i + 1;
    }
    assert(s@.subrange(0, n as int) =~= s@);
    out
}

pub open spec fn agent_topic_prefix() -> Seq<char> {
    seq!['u', 's', 'p', '/', 'v', '1', '/', 'a', 'g', 'e', 'n', 't', '/']
}

pub open spec fn controller_topic_prefix() -> Seq<char> {
    seq!['u', 's', 'p', '/', 'v', '1', '/', 'c', 'o', 'n', 't', 'r', 'o', 'l', 'l', 'e', 'r', '/']
}

/// The topic an agent listens on: `usp/v1/agent/<sanitised id>`.
pub fn agent_topic(agent_id: &str) -> (r: String)
    ensures
        r@ == agent_topic_prefix() + sanitised(agent_id@),
{
    let mut s = String::from_str("usp/v1/agent/");
    proof {
        reveal_strlit("usp/v1/agent/");
    }
    assert(s@ =~= agent_topic_prefix());
    let t = sanitise_topic(agent_id);
    push_str(&mut s, t.as_str());
    s
}

/// The topic a controller listens on: `usp/v1/controller/<sanitised id>`.
pub fn controller_topic(controller_id: &str) -> (r: String)
    ensures
        r@ == controller_topic_prefix() + sanitised(controller_id@),
{
    let mut s = String::from_str("usp/v1/controller/");
    proof {
        reveal_strlit("usp/v1/controller/");
    }
    assert(s@ =~= controller_topic_prefix());
    let t = sanitise_topic(controller_id);
    push_str(&mut s, t.as_str());
    s
}

/// The characters of `s` other than `c`, in order.
pub open spec fn without_char(s: Seq<char>, c: char) -> Seq<char>
    decreases s.len(),
{
    if s.len() == 0 {
        seq![]
    } else if s.last() == c {
        without_char(s.drop_last(), c)
    } else {
        without_char(s.drop_last(), c).push(s.last())
    }
}

/// A MAC address without its colons: `aa:bb:cc:dd:ee:ff` becomes `aabbccddeeff`.
pub fn mac_no_colons(mac: &str) -> (r: String)
    ensures
        r@ == without_char(mac@, ':'),
{
    let n = mac.unicode_len();
    let mut out = String::new();
    let mut i: usize = 0;
    while i < n
        invariant
            n == mac@.len(),
            i <= n,
            out@ == without_char(mac@.subrange(0, i as int), ':'),
        decreases n - i,
    {
        let c = mac.get_char(i);
        if c != ':' {
            push_char(&mut out, c);
        }
        assert(mac@.subrange(0, i + 1).drop_last() =~= mac@.subrange(0, i as int));
        i = i + 1;
    }
    assert(mac@.subrange(0, n as int) =~= mac@);
    out
}


/// The default MQTT broker port.
pub const MQTT_PORT: u16 = 1883;

/// Where an MQTT broker URL points: the `mqtt://` and `mqtts://` schemes
/// are stripped (every leading repetition, in that order); the host ends at
/// the first `:`, and the port after it falls back to 1883 when it does not
/// read as a number.
pub open spec fn broker_of(url: Seq<char>) -> (Seq<char>, u16) {
    let u = crate::device_info::strip_all(crate::device_info::strip_all(url, "mqtt://"@), "mqtts://"@);
    match crate::gnss::find_char(u, ':') {
        Some(i) => (
            u.subrange(0, i),
            match crate::config::number_of(u.subrange(i + 1, u.len() as int), 65535) {
                Some(p) => p as u16,
                None => MQTT_PORT,
            },
        ),
        None => (u, MQTT_PORT),
    }
}

pub fn broker_address(url: &str) -> (r: (String, u16))
    ensures
        (r.0@, r.1) == broker_of(url@),
{
    let a = crate::device_info::strip_all_exec(url, "mqtt://");
    let u = crate::device_info::strip_all_exec(a.as_str(), "mqtts://");
    let u = u.as_str();
    match crate::gnss::find_char_pos(u, ':') {
        Some(i) => {
            let n = u.unicode_len();
            let host = String::from_str(u.substring_char(0, i));
            let port = crate::config::number_or(u.substring_char(i + 1, n), 65535, MQTT_PORT as u64) as u16;
            (host, port)
        },
        None => (String::from_str(u), MQTT_PORT),
    }
}


/// The agent's identifier: the configured one, or `oui:00005A:<mac>` when
/// none is configured.
pub open spec fn agent_id_of(configured: Seq<char>, mac: Seq<char>) -> Seq<char> {
    if configured.len() == 0 {
        oui_prefix() + "00005A"@ + seq![':'] + mac
    } else {
        configured
    }
}

pub fn agent_endpoint(usp_endpoint_id: &str, mac_addr: &str) -> (r: EndpointId)
    ensures
        r.0@ == agent_id_of(usp_endpoint_id@, mac_addr@),
{
    if usp_endpoint_id.unicode_len() == 0 {
        EndpointId::from_mac("00005A", mac_addr)
    } else {
        EndpointId::new(String::from_str(usp_endpoint_id))
    }
}

/// Whether a WebSocket server accepted the USP subprotocol: one of the
/// comma-separated entries of its `Sec-WebSocket-Protocol` header, trimmed,
/// is `v1.usp`.
pub open spec fn echoes_usp(h: Seq<char>) -> bool {
    exists|i: int| 0 <= i < crate::dm::split_on(h, ',').len() && #[trigger] usp_entry(h, i)
}

/// Whether entry `i` of a comma-separated header, trimmed, is `v1.usp`.
pub open spec fn usp_entry(h: Seq<char>, i: int) -> bool {
    crate::text::trimmed(crate::dm::split_on(h, ',')[i]) == seq!['v', '1', '.', 'u', 's', 'p']
}

pub fn subprotocol_echoed(header: Option<&str>) -> (r: bool)
    ensures
        r == (header matches Some(h) && echoes_usp(h@)),
{
    match header {
        None => false,
        Some(h) => {
            let pieces = crate::dm::split_on_exec(h, ',');
            let mut i: usize = 0;
            while i < pieces.len()
                invariant
                    i <= pieces@.len(),
                    pieces@.len() == crate::dm::split_on(h@, ',').len(),
                    header == Some(h),
                    crate::pb::view_seq(pieces@) == crate::dm::split_on(h@, ','),
                    forall|j: int| 0 <= j < i ==> !#[trigger] usp_entry(h@, j),
                decreases pieces@.len() - i,
            {
                let t = crate::text::trim(pieces[i].as_str());
                assert(crate::dm::split_on(h@, ',')[i as int] == pieces@[i as int]@);
                proof {
                    reveal_strlit("v1.usp");
                    assert("v1.usp"@ =~= seq!['v', '1', '.', 'u', 's', 'p']);
                }
                if crate::text::str_eq(t.as_str(), "v1.usp") {
                    proof {
                        assert(usp_entry(h@, i as int));
                        assert((i as int) < crate::dm::split_on(h@, ',').len());

                    }
                    return true;
                }
                i = i + 1;
            }
            false
        },
    }
}

} // verus!
