//! TR-181 `Device.DeviceInfo.`: identity and system statistics, read-only.
use vstd::prelude::*;
use crate::dm::{pair_of, pairs_view, Pair, Platform, PlatformV};
use crate::text::{is_prefix, str_eq, starts_with};

verus! {

// ---------------------------------------------------------------- device info

/// `s` with every leading repetition of `p` removed.
pub open spec fn strip_all(s: Seq<char>, p: Seq<char>) -> Seq<char>
    decreases s.len(),
{
    if p.len() > 0 && is_prefix(p, s) {
        strip_all(s.subrange(p.len() as int, s.len() as int), p)
    } else {
        s
    }
}

pub fn strip_all_exec(s: &str, p: &str) -> (r: String)
    ensures
        r@ == strip_all(s@, p@),
{
    let mut cur = String::from_str(s);
    let m = p.unicode_len();
    if m == 0 {
        return cur;
    }
    loop
        invariant
            m == p@.len(),
            m > 0,
            strip_all(s@, p@) == strip_all(cur@, p@),
        decreases cur@.len(),
    {
        if !starts_with(cur.as_str(), p) {
            return cur;
        }
        let n = cur.as_str().unicode_len();
        let rest = String::from_str(cur.as_str().substring_char(m, n));
        cur = rest;
    }
}

pub open spec fn di_base() -> Seq<char> {
    "Device.DeviceInfo."@
}

pub open spec fn di(suffix: Seq<char>, v: Seq<char>) -> Pair {
    (di_base() + suffix, v)
}

/// The DeviceInfo parameters for a path.
pub open spec fn device_info_get(path: Seq<char>, p: PlatformV) -> Seq<Pair> {
    let rest = strip_all(path, di_base());
    if rest.len() == 0 {
        seq![
            di("HostName"@, p.sys_model),
            di("SoftwareVersion"@, p.fw_version),
            di("HardwareVersion"@, p.sys_model),
            di("SerialNumber"@, p.mac_addr),
            di("UpTime"@, p.uptime),
            di("X_OptimACS_LoadAvg"@, p.load_avg),
            di("X_OptimACS_FreeMem"@, p.free_mem),
        ]
    } else if rest == "HostName"@ {
        seq![di("HostName"@, p.sys_model)]
    } else if rest == "SoftwareVersion"@ {
        seq![di("SoftwareVersion"@, p.fw_version)]
    } else if rest == "HardwareVersion"@ {
        seq![di("HardwareVersion"@, p.sys_model)]
    } else if rest == "SerialNumber"@ {
        seq![di("SerialNumber"@, p.mac_addr)]
    } else if rest == "UpTime"@ {
        seq![di("UpTime"@, p.uptime)]
    } else if rest == "X_OptimACS_LoadAvg"@ {
        seq![di("X_OptimACS_LoadAvg"@, p.load_avg)]
    } else if rest == "X_OptimACS_FreeMem"@ {
        seq![di("X_OptimACS_FreeMem"@, p.free_mem)]
    } else {
        seq![]
    }
}

/// The DeviceInfo parameters that a path names: one, or all of them for
/// the subtree itself.
pub fn get(p: &Platform, path: &str) -> (r: Vec<(String, String)>)
    ensures
        pairs_view(r@) == device_info_get(path@, p@),
{
    let base = "Device.DeviceInfo.";
    let rest = strip_all_exec(path, base);
    let rest = rest.as_str();
    let mut m: Vec<(String, String)> = Vec::new();
    if rest.unicode_len() == 0 {
        m.push(pair_of(base, "HostName", &p.sys_model));
        m.push(pair_of(base, "SoftwareVersion", &p.fw_version));
        m.push(pair_of(base, "HardwareVersion", &p.sys_model));
        m.push(pair_of(base, "SerialNumber", &p.mac_addr));
        m.push(pair_of(base, "UpTime", &p.uptime));
        m.push(pair_of(base, "X_OptimACS_LoadAvg", &p.load_avg));
        m.push(pair_of(base, "X_OptimACS_FreeMem", &p.free_mem));
    } else if str_eq(rest, "HostName") {
        m.push(pair_of(base, "HostName", &p.sys_model));
    } else if str_eq(rest, "SoftwareVersion") {
        m.push(pair_of(base, "SoftwareVersion", &p.fw_version));
    } else if str_eq(rest, "HardwareVersion") {
        m.push(pair_of(base, "HardwareVersion", &p.sys_model));
    } else if str_eq(rest, "SerialNumber") {
        m.push(pair_of(base, "SerialNumber", &p.mac_addr));
    } else if str_eq(rest, "UpTime") {
        m.push(pair_of(base, "UpTime", &p.uptime));
    } else if str_eq(rest, "X_OptimACS_LoadAvg") {
        m.push(pair_of(base, "X_OptimACS_LoadAvg", &p.load_avg));
    } else if str_eq(rest, "X_OptimACS_FreeMem") {
        m.push(pair_of(base, "X_OptimACS_FreeMem", &p.free_mem));
    }
    assert(pairs_view(m@) =~= device_info_get(path@, p@));
    m
}


pub open spec fn read_only_reason() -> Seq<char> {
    "Device.DeviceInfo.* is read-only"@
}

/// Setting a DeviceInfo parameter always fails: the subtree is read-only.
pub fn set(path: &str, value: &str) -> (r: Result<(), String>)
    ensures
        r matches Err(m) && m@ == read_only_reason(),
{
    Err(String::from_str("Device.DeviceInfo.* is read-only"))
}

} // verus!
