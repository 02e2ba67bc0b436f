//! The periodic status report: system metrics, identity and the latest
//! position fix.
use vstd::prelude::*;
use crate::config::ClientConfig;
use crate::gnss::GnssPosition;

verus! {

/// A status report.
pub struct StatusRequest {
    pub uptime: String,
    pub load_avg: String,
    pub free_mem: String,
    pub gw: String,
    pub ip: String,
    pub mac: String,
    pub ssid: String,
    pub orion_ver: String,
    pub nbs: String,
    pub rank: String,
    pub tot_kb_up: String,
    pub tot_kb_down: String,
    pub users: String,
    pub latitude: String,
    pub longitude: String,
    pub modem_status: i32,
    pub wireless_status: i32,
}

/// The platform readings a status report carries.
pub struct StatusReadings {
    pub uptime: String,
    pub load_avg: String,
    pub free_mem: String,
    pub gateway: String,
    pub own_ip: String,
    pub ssid: String,
    pub fw_version: String,
    /// Whether a modem interface is present.
    pub modem_present: bool,
    /// Whether the wireless carrier is up.
    pub wireless_up: bool,
}

/// The report for the given readings: the configured MAC address, the
/// position when there is a fix (empty otherwise), 1 for a present modem
/// and an up wireless link, 0 otherwise; the neighbour and traffic
/// counters are not measured and stay empty.
pub fn build_status(cfg: &ClientConfig, gnss: &Option<GnssPosition>, r: StatusReadings) -> (s: StatusRequest)
    ensures
        s.uptime@ == r.uptime@,
        s.load_avg@ == r.load_avg@,
        s.free_mem@ == r.free_mem@,
        s.gw@ == r.gateway@,
        s.ip@ == r.own_ip@,
        s.mac@ == cfg.mac_addr@,
        s.ssid@ == r.ssid@,
        s.orion_ver@ == r.fw_version@,
        s.nbs@.len() == 0 && s.rank@.len() == 0 && s.users@.len() == 0,
        s.tot_kb_up@.len() == 0 && s.tot_kb_down@.len() == 0,
        match gnss {
            Some(p) => s.latitude@ == p.latitude@ && s.longitude@ == p.longitude@,
            None => s.latitude@.len() == 0 && s.longitude@.len() == 0,
        },
        s.modem_status == (if r.modem_present { 1i32 } else { 0i32 }),
        s.wireless_status == (if r.wireless_up { 1i32 } else { 0i32 }),
{
    let (latitude, longitude) = match gnss {
        Some(p) => (p.latitude.clone(), p.longitude.clone()),
        None => (String::new(), String::new()),
    };
    StatusRequest {
        uptime: r.uptime,
        load_avg: r.load_avg,
        free_mem: r.free_mem,
        gw: r.gateway,
        ip: r.own_ip,
        mac: cfg.mac_addr.clone(),
        ssid: r.ssid,
        orion_ver: r.fw_version,
        nbs: String::new(),
        rank: String::new(),
        tot_kb_up: String::new(),
        tot_kb_down: String::new(),
        users: String::new(),
        latitude,
        longitude,
        modem_status: if r.modem_present { 1 } else { 0 },
        wireless_status: if r.wireless_up { 1 } else { 0 },
    }
}

} // verus!
