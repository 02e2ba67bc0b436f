//! Agent configuration: its fields and defaults, how one `key = value`
//! setting applies, and which configurations are usable.
use vstd::prelude::*;
use crate::error::AcError;
use crate::text::str_eq;

verus! {

/// Default port of the legacy server.
pub const PORT: u16 = 3490;
/// Default seconds between status reports.
pub const STATUS_INTERVAL: u64 = 300;
/// Default seconds between camera rounds.
pub const CAM_INTERVAL: u64 = 360;
/// Default seconds between update checks.
pub const UPDATE_INTERVAL: u64 = 60;
/// Default GNSS serial speed.
pub const GNSS_BAUD: u32 = 9600;

/// Which message transfer protocols the agent runs.
#[derive(Debug, Clone, Copy, PartialEq, Eq)]
pub enum MtpType {
    WebSocket,
    Mqtt,
    Both,
}

impl Default for MtpType {
    fn default() -> (r: Self)
        ensures
            r == MtpType::WebSocket,
    {
        MtpType::WebSocket
    }
}

pub struct ClientConfigV {
    pub server_host: Seq<char>,
    pub server_port: u16,
    pub server_cn: Seq<char>,
    pub ca_file: Seq<char>,
    pub cert_file: Seq<char>,
    pub key_file: Seq<char>,
    pub init_cert: Seq<char>,
    pub init_key: Seq<char>,
    pub cert_dir: Seq<char>,
    pub mac_addr: Seq<char>,
    pub arch: Seq<char>,
    pub sys_model: Seq<char>,
    pub gnss_dev: Seq<char>,
    pub gnss_baud: u32,
    pub update_interval: u64,
    pub status_interval: u64,
    pub cam_interval: u64,
    pub fw_dir: Seq<char>,
    pub img_dir: Seq<char>,
    pub pid_file: Seq<char>,
    pub daemonize: bool,
    pub log_syslog: bool,
    pub usp_endpoint_id: Seq<char>,
    pub controller_id: Seq<char>,
    pub ws_url: Option<Seq<char>>,
    pub mqtt_url: Option<Seq<char>>,
    pub mtp: MtpType,
}

/// The full agent configuration. Paths are held as text.
#[derive(Debug, Clone)]
pub struct ClientConfig {
    pub server_host: String,
    pub server_port: u16,
    pub server_cn: String,
    pub ca_file: String,
    pub cert_file: String,
    pub key_file: String,
    pub init_cert: String,
    pub init_key: String,
    pub cert_dir: String,
    pub mac_addr: String,
    pub arch: String,
    pub sys_model: String,
    pub gnss_dev: String,
    pub gnss_baud: u32,
    pub update_interval: u64,
    pub status_interval: u64,
    pub cam_interval: u64,
    pub fw_dir: String,
    pub img_dir: String,
    pub pid_file: String,
    pub daemonize: bool,
    pub log_syslog: bool,
    pub usp_endpoint_id: String,
    pub controller_id: String,
    pub ws_url: Option<String>,
    pub mqtt_url: Option<String>,
    pub mtp: MtpType,
}

impl View for ClientConfig {
    type V = ClientConfigV;

    open spec fn view(&self) -> ClientConfigV {
        ClientConfigV {
            server_host: self.server_host@,
            server_port: self.server_port,
            server_cn: self.server_cn@,
            ca_file: self.ca_file@,
            cert_file: self.cert_file@,
            key_file: self.key_file@,
            init_cert: self.init_cert@,
            init_key: self.init_key@,
            cert_dir: self.cert_dir@,
            mac_addr: self.mac_addr@,
            arch: self.arch@,
            sys_model: self.sys_model@,
            gnss_dev: self.gnss_dev@,
            gnss_baud: self.gnss_baud,
            update_interval: self.update_interval,
            status_interval: self.status_interval,
            cam_interval: self.cam_interval,
            fw_dir: self.fw_dir@,
            img_dir: self.img_dir@,
            pid_file: self.pid_file@,
            daemonize: self.daemonize,
            log_syslog: self.log_syslog,
            usp_endpoint_id: self.usp_endpoint_id@,
            controller_id: self.controller_id@,
            ws_url: match &self.ws_url { Some(s) => Some(s@), None => None },
            mqtt_url: match &self.mqtt_url { Some(s) => Some(s@), None => None },
            mtp: self.mtp,
        }
    }
}

/// The configuration before any setting applies.
pub open spec fn default_config() -> ClientConfigV {
    ClientConfigV {
        server_host: ""@,
        server_port: 3490,
        server_cn: "ac-server"@,
        ca_file: "/etc/apclient/ca.crt"@,
        cert_file: "/etc/apclient/client.crt"@,
        key_file: "/etc/apclient/client.key"@,
        init_cert: "/etc/apclient/init/client.crt"@,
        init_key: "/etc/apclient/init/client.key"@,
        cert_dir: "/etc/apclient"@,
        mac_addr: ""@,
        arch: ""@,
        sys_model: ""@,
        gnss_dev: ""@,
        gnss_baud: 9600,
        update_interval: 60,
        status_interval: 300,
        cam_interval: 360,
        fw_dir: "/tmp/firmware"@,
        img_dir: "/tmp/cam"@,
        pid_file: "/var/run/apclient.pid"@,
        daemonize: false,
        log_syslog: true,
        usp_endpoint_id: ""@,
        controller_id: "oui:00005A:OptimACS-Controller-1"@,
        ws_url: None,
        mqtt_url: None,
        mtp: MtpType::WebSocket,
    }
}

impl Default for ClientConfig {
    fn default() -> (r: Self)
        ensures
            r@ == default_config(),
    {
        let r = ClientConfig {
            server_host: String::from_str(""),
            server_port: PORT,
            server_cn: String::from_str("ac-server"),
            ca_file: String::from_str("/etc/apclient/ca.crt"),
            cert_file: String::from_str("/etc/apclient/client.crt"),
            key_file: String::from_str("/etc/apclient/client.key"),
            init_cert: String::from_str("/etc/apclient/init/client.crt"),
            init_key: String::from_str("/etc/apclient/init/client.key"),
            cert_dir: String::from_str("/etc/apclient"),
            mac_addr: String::from_str(""),
            arch: String::from_str(""),
            sys_model: String::from_str(""),
            gnss_dev: String::from_str(""),
            gnss_baud: 9600,
            update_interval: UPDATE_INTERVAL,
            status_interval: STATUS_INTERVAL,
            cam_interval: CAM_INTERVAL,
            fw_dir: String::from_str("/tmp/firmware"),
            img_dir: String::from_str("/tmp/cam"),
            pid_file: String::from_str("/var/run/apclient.pid"),
            daemonize: false,
            log_syslog: true,
            usp_endpoint_id: String::from_str(""),
            controller_id: String::from_str("oui:00005A:OptimACS-Controller-1"),
            ws_url: None,
            mqtt_url: None,
            mtp: MtpType::WebSocket,
        };
        assert(r.server_host@ =~= ""@);
        assert(r.mac_addr@ =~= ""@);
        assert(r.arch@ =~= ""@);
        assert(r.sys_model@ =~= ""@);
        assert(r.gnss_dev@ =~= ""@);
        assert(r.usp_endpoint_id@ =~= ""@);
        r
    }
}

// ---------------------------------------------------------------- values

/// ASCII letters in lower case; other characters unchanged.
pub open spec fn ascii_lower(s: Seq<char>) -> Seq<char> {
    s.map_values(|c: char| if 'A' <= c <= 'Z' {
        ((c as u8) + 32) as char
    } else {
        c
    })
}

pub fn to_ascii_lower(s: &str) -> (r: String)
    ensures
        r@ == ascii_lower(s@),
{
    let n = s.unicode_len();
    let mut out = String::new();
    let mut i: usize = 0;
    while i < n
        invariant
            n == s@.len(),
            i <= n,
            out@ == ascii_lower(s@.subrange(0, i as int)),
        decreases n - i,
    {
        let c = s.get_char(i);
        let l = if 'A' <= c && c <= 'Z' {
            ((c as u8) + 32) as char
        } else {
            c
        };
        crate::text::push_char(&mut out, l);
        assert(ascii_lower(s@.subrange(0, i + 1)) =~= ascii_lower(s@.subrange(0, i as int)).push(l));
        i = i + 1;
    }
    assert(s@.subrange(0, n as int) =~= s@);
    out
}

/// The transfer protocol a setting names: `mqtt` and `both` in any case,
/// WebSocket otherwise.
pub open spec fn mtp_of(v: Seq<char>) -> MtpType {
    if ascii_lower(v) == "mqtt"@ {
        MtpType::Mqtt
    } else if ascii_lower(v) == "both"@ {
        MtpType::Both
    } else {
        MtpType::WebSocket
    }
}

pub fn parse_mtp(v: &str) -> (r: MtpType)
    ensures
        r == mtp_of(v@),
{
    let l = to_ascii_lower(v);
    if str_eq(l.as_str(), "mqtt") {
        MtpType::Mqtt
    } else if str_eq(l.as_str(), "both") {
        MtpType::Both
    } else {
        MtpType::WebSocket
    }
}

/// Whether a setting reads as on: `true`, `1` or `yes`.
pub open spec fn flag_of(v: Seq<char>) -> bool {
    v == "true"@ || v == "1"@ || v == "yes"@
}

pub fn parse_flag(v: &str) -> (r: bool)
    ensures
        r == flag_of(v@),
{
    str_eq(v, "true") || str_eq(v, "1") || str_eq(v, "yes")
}

pub open spec fn is_digit(c: char) -> bool {
    '0' <= c <= '9'
}

/// An unsigned number as Rust's integer parsing reads it: an optional `+`,
/// then one or more decimal digits, with a value of at most `max`.
pub open spec fn number_of(v: Seq<char>, max: nat) -> Option<nat> {
    let t = if v.len() > 0 && v[0] == '+' {
        v.drop_first()
    } else {
        v
    };
    if t.len() > 0 && crate::dm::all_digits(t) && crate::dm::digits_value(t) <= max {
        Some(crate::dm::digits_value(t))
    } else {
        None
    }
}

proof fn lemma_digits_prefix_le(s: Seq<char>, k: int)
    requires
        0 <= k <= s.len(),
        crate::dm::all_digits(s),
    ensures
        crate::dm::digits_value(s.subrange(0, k)) <= crate::dm::digits_value(s),
    decreases s.len() - k,
{
    if k < s.len() {
        assert(s.subrange(0, k + 1).drop_last() =~= s.subrange(0, k));
        assert('0' <= s[k] <= '9');
        lemma_digits_prefix_le(s, k + 1);
    } else {
        assert(s.subrange(0, k) =~= s);
    }
}

/// Reads an unsigned number no larger than `max`.
pub fn parse_number(v: &str, max: u64) -> (r: Option<u64>)
    ensures
        match number_of(v@, max as nat) {
            Some(n) => r == Some(n as u64),
            None => r is None,
        },
{
    let n = v.unicode_len();
    let start: usize = if n > 0 && v.get_char(0) == '+' {
        1
    } else {
        0
    };
    let ghost t = if v@.len() > 0 && v@[0] == '+' {
        v@.drop_first()
    } else {
        v@
    };
    assert(t =~= v@.subrange(start as int, n as int));
    if start == n {
        return None;
    }
    let mut acc: u64 = 0;
    let mut i: usize = start;
    while i < n
        invariant
            n == v@.len(),
            start <= i <= n,
            start < n,
            t == v@.subrange(start as int, n as int),
            number_of(v@, max as nat) == (if t.len() > 0 && crate::dm::all_digits(t) && crate::dm::digits_value(t) <= max {
                Some(crate::dm::digits_value(t))
            } else {
                None::<nat>
            }),
            forall|j: int| 0 <= j < i - start ==> '0' <= #[trigger] t[j] <= '9',
            acc == crate::dm::digits_value(t.subrange(0, i - start)),
            acc <= max,
        decreases n - i,
    {
        let c = v.get_char(i);
        assert(t[i - start] == c);
        if !('0' <= c && c <= '9') {
            return None;
        }
        let d = (c as u32 - '0' as u32) as u64;
        assert(t.subrange(0, i - start + 1).drop_last() =~= t.subrange(0, i - start));
        if d > max || acc > (max - d) / 10 {
            proof {
                assert forall|j: int| 0 <= j < i - start + 1 implies '0' <= #[trigger] t[j] <= '9' by {}
                if crate::dm::all_digits(t) {
                    lemma_digits_prefix_le(t, i - start + 1);
                }
            }
            return None;
        }
        acc = acc * 10 + d;
        i = i + 1;
    }
    assert(t.subrange(0, n - start) =~= t);
    Some(acc)
}

pub fn number_or(v: &str, max: u64, default: u64) -> (r: u64)
    ensures
        r == match number_of(v@, max as nat) {
            Some(n) => n as u64,
            None => default,
        },
{
    match parse_number(v, max) {
        Some(n) => n,
        None => default,
    }
}

/// The configuration after one `key = value` setting; unknown keys change
/// nothing, and a number that does not read falls back to its default.
pub open spec fn with_setting(c: ClientConfigV, key: Seq<char>, val: Seq<char>) -> ClientConfigV {
    if key == "server_host"@ {
        ClientConfigV { server_host: val, ..c }
    } else if key == "server_port"@ {
        ClientConfigV { server_port: match number_of(val, 65535) { Some(x) => x as u16, None => PORT }, ..c }
    } else if key == "server_cn"@ {
        ClientConfigV { server_cn: val, ..c }
    } else if key == "ca_file"@ {
        ClientConfigV { ca_file: val, ..c }
    } else if key == "cert_file"@ {
        ClientConfigV { cert_file: val, ..c }
    } else if key == "key_file"@ {
        ClientConfigV { key_file: val, ..c }
    } else if key == "init_cert"@ {
        ClientConfigV { init_cert: val, ..c }
    } else if key == "init_key"@ {
        ClientConfigV { init_key: val, ..c }
    } else if key == "cert_dir"@ {
        ClientConfigV { cert_dir: val, ..c }
    } else if key == "mac_addr"@ {
        ClientConfigV { mac_addr: val, ..c }
    } else if key == "arch"@ {
        ClientConfigV { arch: val, ..c }
    } else if key == "sys_model"@ {
        ClientConfigV { sys_model: val, ..c }
    } else if key == "gnss_dev"@ {
        ClientConfigV { gnss_dev: val, ..c }
    } else if key == "gnss_baud"@ {
        ClientConfigV { gnss_baud: match number_of(val, 4294967295) { Some(x) => x as u32, None => GNSS_BAUD }, ..c }
    } else if key == "update_interval"@ {
        ClientConfigV { update_interval: match number_of(val, 18446744073709551615) { Some(x) => x as u64, None => UPDATE_INTERVAL }, ..c }
    } else if key == "status_interval"@ {
        ClientConfigV { status_interval: match number_of(val, 18446744073709551615) { Some(x) => x as u64, None => STATUS_INTERVAL }, ..c }
    } else if key == "cam_interval"@ {
        ClientConfigV { cam_interval: match number_of(val, 18446744073709551615) { Some(x) => x as u64, None => CAM_INTERVAL }, ..c }
    } else if key == "fw_dir"@ {
        ClientConfigV { fw_dir: val, ..c }
    } else if key == "img_dir"@ {
        ClientConfigV { img_dir: val, ..c }
    } else if key == "pid_file"@ {
        ClientConfigV { pid_file: val, ..c }
    } else if key == "daemonize"@ {
        ClientConfigV { daemonize: flag_of(val), ..c }
    } else if key == "log_syslog"@ {
        ClientConfigV { log_syslog: flag_of(val), ..c }
    } else if key == "usp_endpoint_id"@ {
        ClientConfigV { usp_endpoint_id: val, ..c }
    } else if key == "controller_id"@ {
        ClientConfigV { controller_id: val, ..c }
    } else if key == "ws_url"@ {
        ClientConfigV { ws_url: Some(val), ..c }
    } else if key == "mqtt_url"@ {
        ClientConfigV { mqtt_url: Some(val), ..c }
    } else if key == "mtp"@ {
        ClientConfigV { mtp: mtp_of(val), ..c }
    } else {
        c
    }
}

/// Applies one `key = value` setting.
pub fn apply_setting(cfg: &mut ClientConfig, key: &str, val: &str)
    ensures
        final(cfg)@ == with_setting(old(cfg)@, key@, val@),
{
    if str_eq(key, "server_host") {
        cfg.server_host = String::from_str(val);
    } else if str_eq(key, "server_port") {
        cfg.server_port = number_or(val, 65535, PORT as u64) as u16;
    } else if str_eq(key, "server_cn") {
        cfg.server_cn = String::from_str(val);
    } else if str_eq(key, "ca_file") {
        cfg.ca_file = String::from_str(val);
    } else if str_eq(key, "cert_file") {
        cfg.cert_file = String::from_str(val);
    } else if str_eq(key, "key_file") {
        cfg.key_file = String::from_str(val);
    } else if str_eq(key, "init_cert") {
        cfg.init_cert = String::from_str(val);
    } else if str_eq(key, "init_key") {
        cfg.init_key = String::from_str(val);
    } else if str_eq(key, "cert_dir") {
        cfg.cert_dir = String::from_str(val);
    } else if str_eq(key, "mac_addr") {
        cfg.mac_addr = String::from_str(val);
    } else if str_eq(key, "arch") {
        cfg.arch = String::from_str(val);
    } else if str_eq(key, "sys_model") {
        cfg.sys_model = String::from_str(val);
    } else if str_eq(key, "gnss_dev") {
        cfg.gnss_dev = String::from_str(val);
    } else if str_eq(key, "gnss_baud") {
        cfg.gnss_baud = number_or(val, 4294967295, GNSS_BAUD as u64) as u32;
    } else if str_eq(key, "update_interval") {
        cfg.update_interval = number_or(val, 18446744073709551615, UPDATE_INTERVAL as u64) as u64;
    } else if str_eq(key, "status_interval") {
        cfg.status_interval = number_or(val, 18446744073709551615, STATUS_INTERVAL as u64) as u64;
    } else if str_eq(key, "cam_interval") {
        cfg.cam_interval = number_or(val, 18446744073709551615, CAM_INTERVAL as u64) as u64;
    } else if str_eq(key, "fw_dir") {
        cfg.fw_dir = String::from_str(val);
    } else if str_eq(key, "img_dir") {
        cfg.img_dir = String::from_str(val);
    } else if str_eq(key, "pid_file") {
        cfg.pid_file = String::from_str(val);
    } else if str_eq(key, "daemonize") {
        cfg.daemonize = parse_flag(val);
    } else if str_eq(key, "log_syslog") {
        cfg.log_syslog = parse_flag(val);
    } else if str_eq(key, "usp_endpoint_id") {
        cfg.usp_endpoint_id = String::from_str(val);
    } else if str_eq(key, "controller_id") {
        cfg.controller_id = String::from_str(val);
    } else if str_eq(key, "ws_url") {
        cfg.ws_url = Some(String::from_str(val));
    } else if str_eq(key, "mqtt_url") {
        cfg.mqtt_url = Some(String::from_str(val));
    } else if str_eq(key, "mtp") {
        cfg.mtp = parse_mtp(val);
    }
}

/// The options read from the configuration database, in the order read.
pub open spec fn uci_keys() -> Seq<Seq<char>> {
    seq![
        "server_host"@, "server_port"@, "server_cn"@, "ca_file"@, "init_cert"@, "init_key"@, "cert_file"@,
        "key_file"@, "cert_dir"@, "mac_addr"@, "arch"@, "sys_model"@, "gnss_dev"@, "gnss_baud"@,
        "update_interval"@, "status_interval"@, "cam_interval"@, "fw_dir"@, "img_dir"@, "pid_file"@,
        "log_syslog"@, "usp_endpoint_id"@, "controller_id"@, "ws_url"@, "mqtt_url"@, "mtp"@,
    ]
}

/// The configuration after settings apply in order, each only when `known`
/// holds of its key.
pub open spec fn with_settings(c: ClientConfigV, s: Seq<(Seq<char>, Seq<char>)>, known: spec_fn(Seq<char>) -> bool) -> ClientConfigV
    decreases s.len(),
{
    if s.len() == 0 {
        c
    } else {
        let c2 = with_settings(c, s.drop_last(), known);
        if known(s.last().0) {
            with_setting(c2, s.last().0, s.last().1)
        } else {
            c2
        }
    }
}

fn is_uci_key(k: &str) -> (r: bool)
    ensures
        r == uci_keys().contains(k@),
{
    let keys = [
        "server_host", "server_port", "server_cn", "ca_file", "init_cert", "init_key", "cert_file",
        "key_file", "cert_dir", "mac_addr", "arch", "sys_model", "gnss_dev", "gnss_baud",
        "update_interval", "status_interval", "cam_interval", "fw_dir", "img_dir", "pid_file",
        "log_syslog", "usp_endpoint_id", "controller_id", "ws_url", "mqtt_url", "mtp",
    ];
    let ghost kv = keys@.map_values(|s: &str| s@);
    assert(kv =~= uci_keys());
    let mut i: usize = 0;
    while i < keys.len()
        invariant
            i <= keys@.len(),
            kv == keys@.map_values(|s: &str| s@),
            kv == uci_keys(),
            forall|j: int| 0 <= j < i ==> kv[j] != k@,
        decreases keys@.len() - i,
    {
        if str_eq(keys[i], k) {
            assert(kv[i as int] == k@);
            return true;
        }
        i = i + 1;
    }
    false
}

/// The configuration built from options read out of the configuration
/// database, given as (option, value) for each option that is set and not
/// empty; options that are absent keep their defaults.
pub fn load_config_uci(values: &Vec<(String, String)>) -> (r: Result<ClientConfig, AcError>)
    ensures
        r matches Ok(c) && c@ == with_settings(
            default_config(),
            crate::dm::pairs_view(values@),
            |k: Seq<char>| uci_keys().contains(k),
        ),
{
    let mut cfg = ClientConfig::default();
    let mut i: usize = 0;
    while i < values.len()
        invariant
            i <= values@.len(),
            cfg@ == with_settings(
                default_config(),
                crate::dm::pairs_view(values@).take(i as int),
                |k: Seq<char>| uci_keys().contains(k),
            ),
        decreases values@.len() - i,
    {
        let (k, v) = &values[i];
        proof {
            let pv = crate::dm::pairs_view(values@);
            assert(pv.take(i + 1).drop_last() =~= pv.take(i as int));
            assert(pv.take(i + 1).last() == (k@, v@));
        }
        if is_uci_key(k.as_str()) {
            apply_setting(&mut cfg, k.as_str(), v.as_str());
        }
        i = i + 1;
    }
    assert(crate::dm::pairs_view(values@).take(i as int) =~= crate::dm::pairs_view(values@));
    Ok(cfg)
}

/// The settings that one line of a configuration file holds: the line is
/// trimmed; blank lines and `#` comments hold none; otherwise the text
/// before the first `=` (trimmed, in lower case) names the key and the rest
/// (trimmed) is the value, which must not be empty.
pub open spec fn line_setting(line: Seq<char>) -> Option<(Seq<char>, Seq<char>)> {
    let l = crate::text::trimmed(line);
    if l.len() == 0 || l[0] == '#' {
        None
    } else {
        match crate::gnss::find_char(l, '=') {
            None => None,
            Some(i) => {
                let val = crate::text::trimmed(l.subrange(i + 1, l.len() as int));
                if val.len() == 0 {
                    None
                } else {
                    Some((ascii_lower(crate::text::trimmed(l.subrange(0, i))), val))
                }
            },
        }
    }
}

/// The settings of a configuration file, line by line.
pub open spec fn file_settings(lines: Seq<Seq<char>>) -> Seq<(Seq<char>, Seq<char>)>
    decreases lines.len(),
{
    if lines.len() == 0 {
        seq![]
    } else {
        match line_setting(lines.last()) {
            Some(s) => file_settings(lines.drop_last()).push(s),
            None => file_settings(lines.drop_last()),
        }
    }
}

fn line_setting_exec(line: &str) -> (r: Option<(String, String)>)
    ensures
        match line_setting(line@) {
            Some((k, v)) => r matches Some(x) && x.0@ == k && x.1@ == v,
            None => r is None,
        },
{
    let l = crate::text::trim(line);
    let l = l.as_str();
    let n = l.unicode_len();
    if n == 0 || l.get_char(0) == '#' {
        return None;
    }
    match crate::gnss::find_char_pos(l, '=') {
        None => None,
        Some(i) => {
            let val = crate::text::trim(l.substring_char(i + 1, n));
            if val.as_str().unicode_len() == 0 {
                return None;
            }
            let key = to_ascii_lower(crate::text::trim(l.substring_char(0, i)).as_str());
            Some((key, val))
        },
    }
}

/// The configuration that a `key = value` file describes, over the
/// defaults; unknown keys are ignored.
pub fn parse_config(content: &str) -> (r: ClientConfig)
    ensures
        r@ == with_settings(
            default_config(),
            file_settings(crate::dm::split_on(content@, '\n')),
            |k: Seq<char>| true,
        ),
{
    let lines = crate::dm::split_on_exec(content, '\n');
    let mut cfg = ClientConfig::default();
    let mut settings: Vec<(String, String)> = Vec::new();
    let mut i: usize = 0;
    while i < lines.len()
        invariant
            i <= lines@.len(),
            crate::dm::pairs_view(settings@) == file_settings(crate::pb::view_seq(lines@).take(i as int)),
            cfg@ == with_settings(default_config(), crate::dm::pairs_view(settings@), |k: Seq<char>| true),
        decreases lines@.len() - i,
    {
        proof {
            let lv = crate::pb::view_seq(lines@);
            assert(lv.take(i + 1).drop_last() =~= lv.take(i as int));
            assert(lv.take(i + 1).last() == lines@[i as int]@);
        }
        match line_setting_exec(lines[i].as_str()) {
            Some((k, v)) => {
                apply_setting(&mut cfg, k.as_str(), v.as_str());
                let ghost before = crate::dm::pairs_view(settings@);
                let ghost kv = (k@, v@);
                settings.push((k, v));
                proof {
                    assert(crate::dm::pairs_view(settings@) =~= before.push(kv));
                    assert(crate::dm::pairs_view(settings@).drop_last() =~= before);
                }
            },
            None => {},
        }
        i = i + 1;
    }
    assert(crate::pb::view_seq(lines@).take(i as int) =~= crate::pb::view_seq(lines@));
    cfg
}

/// Why a configuration cannot run, if it cannot: a CA file is needed, the
/// controller must be named (every record sent is addressed to it), and
/// the chosen transfer protocol needs its URL (for WebSocket, a server host
/// will do).
pub open spec fn config_problem(c: ClientConfigV) -> Option<Seq<char>> {
    if c.ca_file.len() == 0 {
        Some("ca_file is required"@)
    } else if c.controller_id.len() == 0 {
        Some("controller_id is required"@)
    } else if (c.mtp == MtpType::WebSocket || c.mtp == MtpType::Both) && c.ws_url is None && c.server_host.len() == 0 {
        Some("ws_url (or server_host) is required for WebSocket MTP"@)
    } else if c.mtp == MtpType::Mqtt && c.mqtt_url is None {
        Some("mqtt_url is required for MQTT MTP"@)
    } else {
        None
    }
}

pub fn validate_config(cfg: &ClientConfig) -> (r: Result<(), AcError>)
    ensures
        match config_problem(cfg@) {
            None => r is Ok,
            Some(m) => r matches Err(AcError::Config(x)) && x@ == m,
        },
{
    if cfg.ca_file.as_str().unicode_len() == 0 {
        return Err(AcError::Config(String::from_str("ca_file is required")));
    }
    if cfg.controller_id.as_str().unicode_len() == 0 {
        return Err(AcError::Config(String::from_str("controller_id is required")));
    }
    match cfg.mtp {
        MtpType::WebSocket | MtpType::Both => {
            if cfg.ws_url.is_none() && cfg.server_host.as_str().unicode_len() == 0 {
                return Err(AcError::Config(String::from_str("ws_url (or server_host) is required for WebSocket MTP")));
            }
        },
        MtpType::Mqtt => {
            if cfg.mqtt_url.is_none() {
                return Err(AcError::Config(String::from_str("mqtt_url is required for MQTT MTP")));
            }
        },
    }
    Ok(())
}


/// The WebSocket URL when none is set but a server host is:
/// `wss://<host>:<port>/usp`.
pub open spec fn derived_ws_url(c: ClientConfigV) -> Option<Seq<char>> {
    if c.ws_url is None && c.server_host.len() > 0 {
        Some("wss://"@ + c.server_host + ":"@ + crate::text::decimal(c.server_port as nat) + "/usp"@)
    } else {
        c.ws_url
    }
}

/// Fills in the WebSocket URL from the server host and port when it is not
/// set.
pub fn derive_ws_url(cfg: &mut ClientConfig)
    ensures
        final(cfg)@ == (ClientConfigV { ws_url: derived_ws_url(old(cfg)@), ..old(cfg)@ }),
{
    if cfg.ws_url.is_none() && cfg.server_host.as_str().unicode_len() > 0 {
        let mut u = String::from_str("wss://");
        crate::text::push_str(&mut u, cfg.server_host.as_str());
        crate::text::push_str(&mut u, ":");
        let port = crate::text::to_decimal(cfg.server_port as u64);
        crate::text::push_str(&mut u, port.as_str());
        crate::text::push_str(&mut u, "/usp");
        cfg.ws_url = Some(u);
    }
}

} // verus!
