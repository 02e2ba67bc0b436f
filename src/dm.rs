//! The TR-181 data model: handlers for each served subtree over a snapshot
//! of platform state, and the dispatcher that routes Get, Set and Operate
//! by path prefix.
use vstd::prelude::*;
use crate::text::{
    count_char, count_of, decimal, ends_with, has_infix, is_prefix, is_suffix, push_str, str_eq,
    starts_with, contains_str, to_decimal,
};

verus! {

pub type Pair = (Seq<char>, Seq<char>);

/// What the handlers read from the platform.
pub struct PlatformV {
    pub sys_model: Seq<char>,
    pub mac_addr: Seq<char>,
    pub fw_version: Seq<char>,
    pub uptime: Seq<char>,
    pub load_avg: Seq<char>,
    pub free_mem: Seq<char>,
    pub wifi_ssid: Seq<char>,
    pub wifi_encryption: Seq<char>,
    pub wifi_key: Seq<char>,
    pub wifi_channel: Seq<char>,
    pub lan_ipaddr: Seq<char>,
    pub lan_netmask: Seq<char>,
    pub lan_proto: Seq<char>,
    pub dhcp_leases: Seq<Pair>,
    pub hosts: Seq<Pair>,
    pub cameras: Seq<Pair>,
}

/// A snapshot of the platform state that the handlers read: configured
/// identity, system statistics, configuration-database values, static DHCP
/// leases as (MAC, IP), host entries as (IP, name), and discovered cameras
/// as (IP, MAC).
pub struct Platform {
    pub sys_model: String,
    pub mac_addr: String,
    pub fw_version: String,
    pub uptime: String,
    pub load_avg: String,
    pub free_mem: String,
    pub wifi_ssid: String,
    pub wifi_encryption: String,
    pub wifi_key: String,
    pub wifi_channel: String,
    pub lan_ipaddr: String,
    pub lan_netmask: String,
    pub lan_proto: String,
    pub dhcp_leases: Vec<(String, String)>,
    pub hosts: Vec<(String, String)>,
    pub cameras: Vec<(String, String)>,
}

pub open spec fn pairs_view(v: Seq<(String, String)>) -> Seq<Pair> {
    v.map_values(|p: (String, String)| (p.0@, p.1@))
}

impl View for Platform {
    type V = PlatformV;

    open spec fn view(&self) -> PlatformV {
        PlatformV {
            sys_model: self.sys_model@,
            mac_addr: self.mac_addr@,
            fw_version: self.fw_version@,
            uptime: self.uptime@,
            load_avg: self.load_avg@,
            free_mem: self.free_mem@,
            wifi_ssid: self.wifi_ssid@,
            wifi_encryption: self.wifi_encryption@,
            wifi_key: self.wifi_key@,
            wifi_channel: self.wifi_channel@,
            lan_ipaddr: self.lan_ipaddr@,
            lan_netmask: self.lan_netmask@,
            lan_proto: self.lan_proto@,
            dhcp_leases: pairs_view(self.dhcp_leases@),
            hosts: pairs_view(self.hosts@),
            cameras: pairs_view(self.cameras@),
        }
    }
}

pub fn pair_of(k: &str, s: &str, v: &String) -> (r: (String, String))
    ensures
        r.0@ == k@ + s@,
        r.1@ == v@,
{
    let mut key = String::from_str(k);
    push_str(&mut key, s);
    (key, v.clone())
}

// ---------------------------------------------------------------- wifi, ip, firmware

/// The WiFi parameters for a path: the SSID (when one is configured), the
/// access point's security settings and the radio channel, each when the
/// path names its branch or the whole subtree.
pub open spec fn wifi_get(path: Seq<char>, p: PlatformV) -> Seq<Pair> {
    let all = is_suffix("Device.WiFi."@, path);
    let ssid: Seq<Pair> = if (has_infix("SSID."@, path) || all) && p.wifi_ssid.len() > 0 {
        seq![("Device.WiFi.SSID.1.SSID"@, p.wifi_ssid)]
    } else {
        seq![]
    };
    let ap: Seq<Pair> = if has_infix("AccessPoint."@, path) || all {
        seq![
            ("Device.WiFi.AccessPoint.1.Security.ModeEnabled"@, p.wifi_encryption),
            ("Device.WiFi.AccessPoint.1.Security.KeyPassphrase"@, p.wifi_key),
        ]
    } else {
        seq![]
    };
    let radio: Seq<Pair> = if has_infix("Radio."@, path) || all {
        seq![("Device.WiFi.Radio.1.Channel"@, p.wifi_channel)]
    } else {
        seq![]
    };
    ssid + ap + radio
}

pub fn lit_pair(k: &str, v: &String) -> (r: (String, String))
    ensures
        r.0@ == k@,
        r.1@ == v@,
{
    (String::from_str(k), v.clone())
}

pub fn wifi_get_exec(path: &str, p: &Platform) -> (r: Vec<(String, String)>)
    ensures
        pairs_view(r@) == wifi_get(path@, p@),
{
    let all = ends_with(path, "Device.WiFi.");
    let mut m: Vec<(String, String)> = Vec::new();
    if (contains_str(path, "SSID.") || all) && p.wifi_ssid.as_str().unicode_len() > 0 {
        m.push(lit_pair("Device.WiFi.SSID.1.SSID", &p.wifi_ssid));
    }
    let ghost a = pairs_view(m@);
    if contains_str(path, "AccessPoint.") || all {
        m.push(lit_pair("Device.WiFi.AccessPoint.1.Security.ModeEnabled", &p.wifi_encryption));
        m.push(lit_pair("Device.WiFi.AccessPoint.1.Security.KeyPassphrase", &p.wifi_key));
    }
    let ghost b = pairs_view(m@);
    if contains_str(path, "Radio.") || all {
        m.push(lit_pair("Device.WiFi.Radio.1.Channel", &p.wifi_channel));
    }
    assert(pairs_view(m@) =~= wifi_get(path@, p@));
    m
}

pub open spec fn ip_prefix() -> Seq<char> {
    "Device.IP.Interface.1.IPv4Address.1."@
}

/// The LAN address parameters, when the path names the interface or its
/// address.
pub open spec fn ip_get(path: Seq<char>, p: PlatformV) -> Seq<Pair> {
    if is_prefix(ip_prefix(), path) || path == "Device.IP.Interface."@ || path == "Device.IP.Interface.1."@ {
        seq![
            (ip_prefix() + "IPAddress"@, p.lan_ipaddr),
            (ip_prefix() + "SubnetMask"@, p.lan_netmask),
            (ip_prefix() + "AddressingType"@, p.lan_proto),
        ]
    } else {
        seq![]
    }
}

pub fn ip_get_exec(path: &str, p: &Platform) -> (r: Vec<(String, String)>)
    ensures
        pairs_view(r@) == ip_get(path@, p@),
{
    let prefix = "Device.IP.Interface.1.IPv4Address.1.";
    let mut m: Vec<(String, String)> = Vec::new();
    if starts_with(path, prefix) || str_eq(path, "Device.IP.Interface.") || str_eq(path, "Device.IP.Interface.1.") {
        m.push(pair_of(prefix, "IPAddress", &p.lan_ipaddr));
        m.push(pair_of(prefix, "SubnetMask", &p.lan_netmask));
        m.push(pair_of(prefix, "AddressingType", &p.lan_proto));
    }
    assert(pairs_view(m@) =~= ip_get(path@, p@));
    m
}

// ---------------------------------------------------------------- indexed tables

/// Two parameters for each entry of a table, numbered from 1:
/// `<base><n>.<k1>` holds the entry's first value, `<base><n>.<k2>` its second.
pub open spec fn table(base: Seq<char>, k1: Seq<char>, k2: Seq<char>, rows: Seq<Pair>) -> Seq<Pair>
    decreases rows.len(),
{
    if rows.len() == 0 {
        seq![]
    } else {
        let n = rows.len();
        let row_base = base + decimal(n as nat) + seq!['.'];
        table(base, k1, k2, rows.drop_last()) + seq![(row_base + k1, rows.last().0), (row_base + k2, rows.last().1)]
    }
}

fn table_exec(base: &str, k1: &str, k2: &str, rows: &Vec<(String, String)>) -> (r: Vec<(String, String)>)
    ensures
        pairs_view(r@) == table(base@, k1@, k2@, pairs_view(rows@)),
{
    let mut m: Vec<(String, String)> = Vec::new();
    let mut i: usize = 0;
    while i < rows.len()
        invariant
            i <= rows@.len(),
            pairs_view(m@) == table(base@, k1@, k2@, pairs_view(rows@).take(i as int)),
        decreases rows@.len() - i,
    {
        let ghost before = pairs_view(m@);
        let mut row_base = String::from_str(base);
        let idx = to_decimal((i + 1) as u64);
        push_str(&mut row_base, idx.as_str());
        crate::text::push_char(&mut row_base, '.');
        let (a, b) = &rows[i];
        let mut key1 = row_base.clone();
        push_str(&mut key1, k1);
        let mut key2 = row_base.clone();
        push_str(&mut key2, k2);
        m.push((key1, a.clone()));
        m.push((key2, b.clone()));
        proof {
            let rv = pairs_view(rows@);
            let rb = base@ + decimal((i + 1) as nat) + seq!['.'];
            assert(row_base@ =~= rb);
            assert(key1@ =~= rb + k1@);
            assert(key2@ =~= rb + k2@);
            assert(rv.take(i + 1).drop_last() =~= rv.take(i as int));
            assert(rv.take(i + 1).last() == (a@, b@));
            assert(rv.take(i + 1).len() == i + 1);
            assert(table(base@, k1@, k2@, rv.take(i + 1)) == table(base@, k1@, k2@, rv.take(i as int)) + seq![
                (rb + k1@, a@),
                (rb + k2@, b@),
            ]);
            assert(pairs_view(m@) =~= before + seq![(key1@, a@), (key2@, b@)]);
        }
        i = i + 1;
    }
    assert(pairs_view(rows@).take(i as int) =~= pairs_view(rows@));
    m
}

pub open spec fn dhcp_get(p: PlatformV) -> Seq<Pair> {
    table("Device.DHCPv4.Server.Pool.1.StaticAddress."@, "Chaddr"@, "Yiaddr"@, p.dhcp_leases)
}

pub open spec fn hosts_get(p: PlatformV) -> Seq<Pair> {
    table("Device.Hosts.Host."@, "IPAddress"@, "HostName"@, p.hosts)
}

pub open spec fn cameras_get(p: PlatformV) -> Seq<Pair> {
    table("Device.X_OptimACS_Camera."@, "IPAddress"@, "MACAddress"@, p.cameras)
}

// ---------------------------------------------------------------- dispatch

/// Which handler serves a path, by prefix, in this order.
pub open spec fn handler_get(path: Seq<char>, p: PlatformV) -> Seq<Pair> {
    if is_prefix("Device.DeviceInfo."@, path) {
        crate::device_info::device_info_get(path, p)
    } else if is_prefix("Device.WiFi."@, path) {
        wifi_get(path, p)
    } else if is_prefix("Device.IP.Interface."@, path) {
        ip_get(path, p)
    } else if is_prefix("Device.DHCPv4."@, path) {
        dhcp_get(p)
    } else if is_prefix("Device.Hosts."@, path) {
        hosts_get(p)
    } else if is_prefix("Device.X_OptimACS_Camera."@, path) {
        cameras_get(p)
    } else if is_prefix("Device.X_OptimACS_Firmware."@, path) {
        crate::firmware::firmware_get(path, p)
    } else {
        seq![]
    }
}

pub fn dispatch_get(path: &str, p: &Platform) -> (r: Vec<(String, String)>)
    ensures
        pairs_view(r@) == handler_get(path@, p@),
{
    if starts_with(path, "Device.DeviceInfo.") {
        crate::device_info::get(p, path)
    } else if starts_with(path, "Device.WiFi.") {
        wifi_get_exec(path, p)
    } else if starts_with(path, "Device.IP.Interface.") {
        ip_get_exec(path, p)
    } else if starts_with(path, "Device.DHCPv4.") {
        table_exec("Device.DHCPv4.Server.Pool.1.StaticAddress.", "Chaddr", "Yiaddr", &p.dhcp_leases)
    } else if starts_with(path, "Device.Hosts.") {
        table_exec("Device.Hosts.Host.", "IPAddress", "HostName", &p.hosts)
    } else if starts_with(path, "Device.X_OptimACS_Camera.") {
        table_exec("Device.X_OptimACS_Camera.", "IPAddress", "MACAddress", &p.cameras)
    } else if starts_with(path, "Device.X_OptimACS_Firmware.") {
        crate::firmware::get(p, path)
    } else {
        Vec::new()
    }
}


// ---------------------------------------------------------------- get

pub open spec fn dots(s: Seq<char>) -> nat {
    count_of(s, '.')
}

/// Whether a key passes the depth limit for a requested path: no limit at
/// zero, else at most `max_depth` more periods than the path.
pub open spec fn within_depth(key: Seq<char>, path: Seq<char>, max_depth: u32) -> bool {
    max_depth == 0 || dots(key) <= dots(path) + max_depth
}

/// Sets `k` to `v`: in place where `k` is present, else at the end.
pub open spec fn put(m: Seq<Pair>, k: Seq<char>, v: Seq<char>) -> Seq<Pair>
    decreases m.len(),
{
    if m.len() == 0 {
        seq![(k, v)]
    } else if m[0].0 == k {
        seq![(k, v)] + m.drop_first()
    } else {
        seq![m[0]] + put(m.drop_first(), k, v)
    }
}

/// Puts each entry that passes the depth limit, in order.
pub open spec fn put_within(m: Seq<Pair>, es: Seq<Pair>, path: Seq<char>, max_depth: u32) -> Seq<Pair>
    decreases es.len(),
{
    if es.len() == 0 {
        m
    } else {
        let m2 = if within_depth(es[0].0, path, max_depth) {
            put(m, es[0].0, es[0].1)
        } else {
            m
        };
        put_within(m2, es.drop_first(), path, max_depth)
    }
}

/// The parameters that a Get of `paths` returns: each path's handler output,
/// filtered by depth, merged in order so that a later value for a key
/// replaces an earlier one.
pub open spec fn get_result(paths: Seq<Seq<char>>, max_depth: u32, p: PlatformV) -> Seq<Pair>
    decreases paths.len(),
{
    if paths.len() == 0 {
        seq![]
    } else {
        let last = paths.last();
        put_within(get_result(paths.drop_last(), max_depth, p), handler_get(last, p), last, max_depth)
    }
}

proof fn lemma_put_found(m: Seq<Pair>, i: int, k: Seq<char>, v: Seq<char>)
    requires
        0 <= i < m.len(),
        m[i].0 == k,
        forall|j: int| 0 <= j < i ==> m[j].0 != k,
    ensures
        put(m, k, v) == m.update(i, (k, v)),
    decreases m.len(),
{
    if i == 0 {
        assert(put(m, k, v) =~= m.update(i, (k, v)));
    } else {
        lemma_put_found(m.drop_first(), i - 1, k, v);
        assert(put(m, k, v) =~= m.update(i, (k, v)));
    }
}

proof fn lemma_put_absent(m: Seq<Pair>, k: Seq<char>, v: Seq<char>)
    requires
        forall|j: int| 0 <= j < m.len() ==> m[j].0 != k,
    ensures
        put(m, k, v) == m.push((k, v)),
    decreases m.len(),
{
    if m.len() > 0 {
        lemma_put_absent(m.drop_first(), k, v);
        assert(put(m, k, v) =~= m.push((k, v)));
    }
}

/// Sets `k` to `v` in a list of pairs.
fn put_exec(m: &mut Vec<(String, String)>, k: String, v: String)
    ensures
        pairs_view(final(m)@) == put(pairs_view(old(m)@), k@, v@),
{
    let ghost kv = (k@, v@);
    let mut i: usize = 0;
    while i < m.len()
        invariant
            i <= m@.len(),
            m@ == old(m)@,
            kv == (k@, v@),
            forall|j: int| 0 <= j < i ==> pairs_view(m@)[j].0 != k@,
        decreases m@.len() - i,
    {
        if str_eq(m[i].0.as_str(), k.as_str()) {
            proof {
                lemma_put_found(pairs_view(m@), i as int, k@, v@);
            }
            let ghost before = pairs_view(m@);
            let ghost old_m = m@;
            let ghost kk = k@;
            let ghost vv = v@;
            let entry = (k, v);
            assert(entry.0@ == kk);
            assert(entry.1@ == vv);
            assert(kv == (kk, vv));
            m.set(i, entry);
            assert(m@ == old_m.update(i as int, entry));
            assert forall|j: int| 0 <= j < m@.len() implies #[trigger] pairs_view(m@)[j] == before.update(i as int, kv)[j] by {
                if j != i {
                    assert(m@[j] == old_m[j]);
                }
            }
            assert(pairs_view(m@) =~= before.update(i as int, kv));
            return;
        }
        i = i + 1;
    }
    proof {
        lemma_put_absent(pairs_view(m@), k@, v@);
    }
    let ghost before = pairs_view(m@);
    m.push((k, v));
    assert(pairs_view(m@) =~= before.push(kv));
}

/// The parameters for a Get of `paths` with the given depth limit.
pub fn get_params(paths: &Vec<String>, max_depth: u32, p: &Platform) -> (r: Vec<(String, String)>)
    ensures
        pairs_view(r@) == get_result(crate::pb::view_seq(paths@), max_depth, p@),
{
    let mut result: Vec<(String, String)> = Vec::new();
    let mut i: usize = 0;
    while i < paths.len()
        invariant
            i <= paths@.len(),
            pairs_view(result@) == get_result(crate::pb::view_seq(paths@).take(i as int), max_depth, p@),
        decreases paths@.len() - i,
    {
        let path = paths[i].as_str();
        let partial = dispatch_get(path, p);
        let base_dots = count_char(path, '.');
        let ghost m0 = pairs_view(result@);
        let mut j: usize = 0;
        assert(pairs_view(partial@).skip(0) =~= pairs_view(partial@));
        while j < partial.len()
            invariant
                j <= partial@.len(),
                base_dots == dots(path@),
                put_within(m0, pairs_view(partial@), path@, max_depth)
                    == put_within(pairs_view(result@), pairs_view(partial@).skip(j as int), path@, max_depth),
            decreases partial@.len() - j,
        {
            let (k, v) = &partial[j];
            proof {
                assert(pairs_view(partial@).skip(j as int)[0] == (k@, v@));
                assert(pairs_view(partial@).skip(j as int).drop_first() =~= pairs_view(partial@).skip(j + 1));
            }
            let keep = if max_depth == 0 {
                true
            } else {
                let kd = count_char(k.as_str(), '.');
                (kd as u128) <= (base_dots as u128) + (max_depth as u128)
            };
            if keep {
                put_exec(&mut result, k.clone(), v.clone());
            }
            j = j + 1;
        }
        proof {
            let pv = crate::pb::view_seq(paths@);
            assert(pairs_view(partial@).skip(0) =~= pairs_view(partial@));
            assert(pv.take(i + 1).drop_last() =~= pv.take(i as int));
            assert(pv.take(i + 1).last() == path@);
        }
        i = i + 1;
    }
    assert(crate::pb::view_seq(paths@).take(i as int) =~= crate::pb::view_seq(paths@));
    result
}

// ---------------------------------------------------------------- depth law

proof fn lemma_put_keys(m: Seq<Pair>, k: Seq<char>, v: Seq<char>, ok: spec_fn(Seq<char>) -> bool)
    requires
        forall|i: int| 0 <= i < m.len() ==> ok(#[trigger] m[i].0),
        ok(k),
    ensures
        forall|i: int| 0 <= i < put(m, k, v).len() ==> ok(#[trigger] put(m, k, v)[i].0),
    decreases m.len(),
{
    if m.len() > 0 && m[0].0 != k {
        let d = m.drop_first();
        assert forall|i: int| 0 <= i < d.len() implies ok(#[trigger] d[i].0) by {
            assert(d[i] == m[i + 1]);
        }
        lemma_put_keys(d, k, v, ok);
        let r = put(m, k, v);
        assert forall|i: int| 0 <= i < r.len() implies ok(#[trigger] r[i].0) by {
            if i > 0 {
                assert(r[i] == put(d, k, v)[i - 1]);
            }
        }
    } else if m.len() > 0 {
        let r = put(m, k, v);
        assert forall|i: int| 0 <= i < r.len() implies ok(#[trigger] r[i].0) by {
            if i > 0 {
                assert(r[i] == m[i]);
            }
        }
    }
}

proof fn lemma_put_within_keys(m: Seq<Pair>, es: Seq<Pair>, path: Seq<char>, d: u32, ok: spec_fn(Seq<char>) -> bool)
    requires
        forall|i: int| 0 <= i < m.len() ==> ok(#[trigger] m[i].0),
        forall|k: Seq<char>| within_depth(k, path, d) ==> #[trigger] ok(k),
    ensures
        forall|i: int| 0 <= i < put_within(m, es, path, d).len() ==> ok(#[trigger] put_within(m, es, path, d)[i].0),
    decreases es.len(),
{
    if es.len() > 0 {
        let m2 = if within_depth(es[0].0, path, d) {
            assert(ok(es[0].0));
            lemma_put_keys(m, es[0].0, es[0].1, ok);
            put(m, es[0].0, es[0].1)
        } else {
            m
        };
        assert(put_within(m, es, path, d) == put_within(m2, es.drop_first(), path, d));
        lemma_put_within_keys(m2, es.drop_first(), path, d, ok);
    }
}

proof fn lemma_put_has(m: Seq<Pair>, k: Seq<char>, v: Seq<char>, key: Seq<char>)
    ensures
        (key == k || exists|i: int| 0 <= i < m.len() && (#[trigger] m[i]).0 == key) ==> exists|i: int|
            0 <= i < put(m, k, v).len() && (#[trigger] put(m, k, v)[i]).0 == key,
    decreases m.len(),
{
    let r = put(m, k, v);
    if m.len() == 0 {
        if key == k {
            assert(r[0].0 == key);
        }
    } else if m[0].0 == k {
        if key == k {
            assert(r[0].0 == key);
        } else if exists|i: int| 0 <= i < m.len() && (#[trigger] m[i]).0 == key {
            let i = choose|i: int| 0 <= i < m.len() && (#[trigger] m[i]).0 == key;
            assert(i != 0);
            assert(r[i] == m[i]);
        }
    } else {
        let d = m.drop_first();
        if exists|i: int| 0 <= i < m.len() && (#[trigger] m[i]).0 == key {
            let i = choose|i: int| 0 <= i < m.len() && (#[trigger] m[i]).0 == key;
            if i == 0 {
                assert(r[0] == m[0]);
            } else {
                assert(d[i - 1] == m[i]);
                lemma_put_has(d, k, v, key);
                let j = choose|j: int| 0 <= j < put(d, k, v).len() && (#[trigger] put(d, k, v)[j]).0 == key;
                assert(r[j + 1] == put(d, k, v)[j]);
            }
        } else if key == k {
            lemma_put_has(d, k, v, key);
            let j = choose|j: int| 0 <= j < put(d, k, v).len() && (#[trigger] put(d, k, v)[j]).0 == key;
            assert(r[j + 1] == put(d, k, v)[j]);
        }
    }
}

pub open spec fn has_key(m: Seq<Pair>, key: Seq<char>) -> bool {
    exists|i: int| 0 <= i < m.len() && (#[trigger] m[i]).0 == key
}

pub open spec fn has_key_within(es: Seq<Pair>, key: Seq<char>, path: Seq<char>, d: u32) -> bool {
    exists|j: int| 0 <= j < es.len() && (#[trigger] es[j]).0 == key && within_depth(key, path, d)
}

proof fn lemma_put_within_has(m: Seq<Pair>, es: Seq<Pair>, path: Seq<char>, d: u32, key: Seq<char>)
    requires
        has_key(m, key) || has_key_within(es, key, path, d),
    ensures
        has_key(put_within(m, es, path, d), key),
    decreases es.len(),
{
    if es.len() == 0 {
        if has_key_within(es, key, path, d) {
            let j = choose|j: int| 0 <= j < es.len() && (#[trigger] es[j]).0 == key && within_depth(key, path, d);
        }
    } else {
        let m2 = if within_depth(es[0].0, path, d) {
            put(m, es[0].0, es[0].1)
        } else {
            m
        };
        assert(put_within(m, es, path, d) == put_within(m2, es.drop_first(), path, d));
        if within_depth(es[0].0, path, d) {
            lemma_put_has(m, es[0].0, es[0].1, key);
        }
        if has_key(m2, key) {
            lemma_put_within_has(m2, es.drop_first(), path, d, key);
        } else {
            assert(!has_key(m, key));
            let j = choose|j: int| 0 <= j < es.len() && (#[trigger] es[j]).0 == key && within_depth(key, path, d);
            if j == 0 {
                assert(false);
            } else {
                assert(es.drop_first()[j - 1] == es[j]);
                assert(has_key_within(es.drop_first(), key, path, d));
                lemma_put_within_has(m2, es.drop_first(), path, d, key);
            }
        }
    }
}

/// A Get of one path keeps every key that its handler gives and that passes
/// the depth limit.
pub proof fn lemma_depth_keeps(path: Seq<char>, d: u32, p: PlatformV, key: Seq<char>)
    requires
        within_depth(key, path, d),
        exists|j: int| 0 <= j < handler_get(path, p).len() && (#[trigger] handler_get(path, p)[j]).0 == key,
    ensures
        exists|i: int|
            0 <= i < get_result(seq![path], d, p).len() && (#[trigger] get_result(seq![path], d, p)[i]).0 == key,
{
    assert(seq![path].drop_last() =~= Seq::<Seq<char>>::empty());
    assert(get_result(Seq::<Seq<char>>::empty(), d, p) == Seq::<Pair>::empty());
    assert(get_result(seq![path], d, p) == put_within(Seq::<Pair>::empty(), handler_get(path, p), path, d));
    assert(has_key_within(handler_get(path, p), key, path, d));
    lemma_put_within_has(seq![], handler_get(path, p), path, d, key);
}

/// With a depth limit `d` above zero, a Get of one path returns no key with
/// more periods than the path's count plus `d`.
pub proof fn lemma_depth_filter(path: Seq<char>, d: u32, p: PlatformV)
    requires
        d > 0,
    ensures
        forall|i: int|
            0 <= i < get_result(seq![path], d, p).len() ==> dots(#[trigger] get_result(seq![path], d, p)[i].0)
                <= dots(path) + d,
{
    let ok = |k: Seq<char>| dots(k) <= dots(path) + d;
    assert(seq![path].drop_last() =~= Seq::<Seq<char>>::empty());
    assert(get_result(Seq::<Seq<char>>::empty(), d, p) == Seq::<Pair>::empty());
    assert(get_result(seq![path], d, p) == put_within(Seq::<Pair>::empty(), handler_get(path, p), path, d));
    lemma_put_within_keys(seq![], handler_get(path, p), path, d, ok);
    let r = get_result(seq![path], d, p);
    assert forall|i: int| 0 <= i < r.len() implies dots(#[trigger] r[i].0) <= dots(path) + d by {
        assert(ok(r[i].0));
    }
}


// ---------------------------------------------------------------- set

pub enum SetStepV {
    UciSet { path: Seq<char>, value: Seq<char> },
    Commit { package: Seq<char>, checked: bool },
    Fail(Seq<char>),
}

/// One step of carrying out a Set: write a configuration value, commit a
/// configuration package (a failure counts only when `checked`), or fail
/// with a reason.
pub enum SetStep {
    UciSet { path: String, value: String },
    Commit { package: String, checked: bool },
    Fail(String),
}

impl View for SetStep {
    type V = SetStepV;

    open spec fn view(&self) -> SetStepV {
        match self {
            SetStep::UciSet { path, value } => SetStepV::UciSet { path: path@, value: value@ },
            SetStep::Commit { package, checked } => SetStepV::Commit { package: package@, checked: *checked },
            SetStep::Fail(m) => SetStepV::Fail(m@),
        }
    }
}

pub open spec fn wifi_write(key: Seq<char>, value: Seq<char>) -> Seq<SetStepV> {
    seq![SetStepV::UciSet { path: key, value }, SetStepV::Commit { package: "wireless"@, checked: true }]
}

/// Why a parameter in a writable subtree cannot be set: no handler writes it.
pub open spec fn unsupported_reason(path: Seq<char>) -> Seq<char> {
    "unsupported parameter: "@ + path
}

fn unsupported_step(path: &str) -> (r: SetStep)
    ensures
        r@ == SetStepV::Fail(unsupported_reason(path@)),
{
    let mut m = String::from_str("unsupported parameter: ");
    push_str(&mut m, path);
    SetStep::Fail(m)
}

/// The steps for setting one parameter: a write and its commit where a
/// handler serves the parameter, a failure where none can.
pub open spec fn update_steps(path: Seq<char>, value: Seq<char>) -> Seq<SetStepV> {
    if is_prefix("Device.DeviceInfo."@, path) {
        seq![SetStepV::Fail(crate::device_info::read_only_reason())]
    } else if is_prefix("Device.WiFi."@, path) {
        if is_suffix(".SSID"@, path) {
            wifi_write("wireless.@wifi-iface[0].ssid"@, value)
        } else if is_suffix(".KeyPassphrase"@, path) {
            wifi_write("wireless.@wifi-iface[0].key"@, value)
        } else if is_suffix(".ModeEnabled"@, path) {
            wifi_write("wireless.@wifi-iface[0].encryption"@, value)
        } else if is_suffix(".Channel"@, path) {
            wifi_write("wireless.radio0.channel"@, value)
        } else {
            seq![SetStepV::Fail(unsupported_reason(path))]
        }
    } else if is_prefix("Device.IP.Interface."@, path) {
        let commit = SetStepV::Commit { package: "network"@, checked: false };
        if is_suffix(".IPAddress"@, path) {
            seq![SetStepV::UciSet { path: "network.lan.ipaddr"@, value }, commit]
        } else if is_suffix(".SubnetMask"@, path) {
            seq![SetStepV::UciSet { path: "network.lan.netmask"@, value }, commit]
        } else if is_suffix(".AddressingType"@, path) {
            seq![SetStepV::UciSet { path: "network.lan.proto"@, value }, commit]
        } else {
            seq![SetStepV::Fail(unsupported_reason(path))]
        }
    } else if is_prefix("Device.DHCPv4."@, path) {
        seq![SetStepV::Fail("DHCPv4 static address modification not yet implemented on agent side"@)]
    } else if is_prefix("Device.Hosts."@, path) {
        seq![SetStepV::Fail("Device.Hosts.Host.* modification not yet implemented on agent side"@)]
    } else if is_prefix("Device.X_OptimACS_Security."@, path) {
        seq![]
    } else {
        seq![SetStepV::Fail("read-only or unknown path: "@ + path)]
    }
}

pub open spec fn has_fail(steps: Seq<SetStepV>) -> bool {
    exists|i: int| 0 <= i < steps.len() && (#[trigger] steps[i]) is Fail
}

/// The steps for a list of updates, in order, ending at the first failure.
pub open spec fn set_plan(updates: Seq<Pair>) -> Seq<SetStepV>
    decreases updates.len(),
{
    if updates.len() == 0 {
        seq![]
    } else {
        let first = update_steps(updates[0].0, updates[0].1);
        if has_fail(first) {
            first
        } else {
            first + set_plan(updates.drop_first())
        }
    }
}

fn uci_set_step(path: &str, value: &str) -> (r: SetStep)
    ensures
        r@ == (SetStepV::UciSet { path: path@, value: value@ }),
{
    SetStep::UciSet { path: String::from_str(path), value: String::from_str(value) }
}

fn commit_step(package: &str, checked: bool) -> (r: SetStep)
    ensures
        r@ == (SetStepV::Commit { package: package@, checked }),
{
    SetStep::Commit { package: String::from_str(package), checked }
}

fn fail_step(m: &str) -> (r: SetStep)
    ensures
        r@ == SetStepV::Fail(m@),
{
    SetStep::Fail(String::from_str(m))
}

pub open spec fn steps_view(v: Seq<SetStep>) -> Seq<SetStepV> {
    v.map_values(|s: SetStep| s@)
}

fn update_steps_exec(path: &str, value: &str) -> (r: Vec<SetStep>)
    ensures
        steps_view(r@) == update_steps(path@, value@),
{
    let mut v: Vec<SetStep> = Vec::new();
    if starts_with(path, "Device.DeviceInfo.") {
        match crate::device_info::set(path, value) {
            Err(m) => v.push(SetStep::Fail(m)),
            Ok(()) => {},
        }
    } else if starts_with(path, "Device.WiFi.") {
        let key = if ends_with(path, ".SSID") {
            Some("wireless.@wifi-iface[0].ssid")
        } else if ends_with(path, ".KeyPassphrase") {
            Some("wireless.@wifi-iface[0].key")
        } else if ends_with(path, ".ModeEnabled") {
            Some("wireless.@wifi-iface[0].encryption")
        } else if ends_with(path, ".Channel") {
            Some("wireless.radio0.channel")
        } else {
            None
        };
        match key {
            Some(k) => {
                v.push(uci_set_step(k, value));
                v.push(commit_step("wireless", true));
            },
            None => v.push(unsupported_step(path)),
        }
    } else if starts_with(path, "Device.IP.Interface.") {
        if ends_with(path, ".IPAddress") {
            v.push(uci_set_step("network.lan.ipaddr", value));
            v.push(commit_step("network", false));
        } else if ends_with(path, ".SubnetMask") {
            v.push(uci_set_step("network.lan.netmask", value));
            v.push(commit_step("network", false));
        } else if ends_with(path, ".AddressingType") {
            v.push(uci_set_step("network.lan.proto", value));
            v.push(commit_step("network", false));
        } else {
            v.push(unsupported_step(path));
        }
    } else if starts_with(path, "Device.DHCPv4.") {
        v.push(fail_step("DHCPv4 static address modification not yet implemented on agent side"));
    } else if starts_with(path, "Device.Hosts.") {
        v.push(fail_step("Device.Hosts.Host.* modification not yet implemented on agent side"));
    } else if starts_with(path, "Device.X_OptimACS_Security.") {
    } else {
        let mut m = String::from_str("read-only or unknown path: ");
        push_str(&mut m, path);
        v.push(SetStep::Fail(m));
    }
    assert(steps_view(v@) =~= update_steps(path@, value@));
    v
}

/// The steps that carry out a list of (path, value) updates: each update's
/// steps in order, ending with the first failure.
pub fn plan_set(updates: &Vec<(String, String)>) -> (r: Vec<SetStep>)
    ensures
        steps_view(r@) == set_plan(pairs_view(updates@)),
{
    let mut out: Vec<SetStep> = Vec::new();
    let mut i: usize = 0;
    assert(pairs_view(updates@).skip(0) =~= pairs_view(updates@));
    assert(steps_view(out@) + set_plan(pairs_view(updates@)) =~= set_plan(pairs_view(updates@)));
    while i < updates.len()
        invariant
            i <= updates@.len(),
            set_plan(pairs_view(updates@)) == steps_view(out@) + set_plan(pairs_view(updates@).skip(i as int)),
        decreases updates@.len() - i,
    {
        let ghost rest = pairs_view(updates@).skip(i as int);
        let steps = update_steps_exec(updates[i].0.as_str(), updates[i].1.as_str());
        proof {
            assert(rest[0] == (updates@[i as int].0@, updates@[i as int].1@));
            assert(rest.drop_first() =~= pairs_view(updates@).skip(i + 1));
        }
        let mut failed = false;
        let mut j: usize = 0;
        let ghost before = steps_view(out@);
        while j < steps.len()
            invariant
                j <= steps@.len(),
                steps_view(out@) == before + steps_view(steps@).take(j as int),
                failed == has_fail(steps_view(steps@).take(j as int)),
            decreases steps@.len() - j,
        {
            let is_fail = match &steps[j] {
                SetStep::Fail(_) => true,
                _ => false,
            };
            let st = match &steps[j] {
                SetStep::UciSet { path, value } => SetStep::UciSet { path: path.clone(), value: value.clone() },
                SetStep::Commit { package, checked } => SetStep::Commit { package: package.clone(), checked: *checked },
                SetStep::Fail(m) => SetStep::Fail(m.clone()),
            };
            assert(st@ == steps@[j as int]@);
            let ghost before_push = steps_view(out@);
            out.push(st);
            proof {
                let sv = steps_view(steps@);
                assert(steps_view(out@) =~= before_push.push(sv[j as int]));
                assert(sv.take(j + 1) =~= sv.take(j as int).push(sv[j as int]));
                if is_fail {
                    assert(sv.take(j + 1)[j as int] is Fail);
                }
                if has_fail(sv.take(j + 1)) && !is_fail {
                    let k = choose|k: int| 0 <= k < sv.take(j + 1).len() && (#[trigger] sv.take(j + 1)[k]) is Fail;
                    assert(sv.take(j as int)[k] is Fail);
                }
            }
            failed = failed || is_fail;
            j = j + 1;
        }
        assert(steps_view(steps@).take(j as int) =~= steps_view(steps@));
        if failed {
            assert(steps_view(out@) =~= set_plan(pairs_view(updates@)));
            return out;
        }
        assert(before + steps_view(steps@) + set_plan(pairs_view(updates@).skip(i + 1)) =~= steps_view(out@) + set_plan(
            pairs_view(updates@).skip(i + 1),
        ));
        i = i + 1;
    }
    assert(set_plan(pairs_view(updates@).skip(i as int)) == Seq::<SetStepV>::empty());
    assert(steps_view(out@) + Seq::<SetStepV>::empty() =~= steps_view(out@));
    out
}


/// Whether a step that ran stops the Set, and why: a failed write, a failed
/// checked commit, or a failure step stop it; an unchecked commit never does.
pub open spec fn step_stop(step: SetStepV, result: Result<(), Seq<char>>) -> Option<Seq<char>> {
    match step {
        SetStepV::Fail(m) => Some(m),
        SetStepV::UciSet { .. } => match result {
            Err(e) => Some(e),
            Ok(()) => None,
        },
        SetStepV::Commit { checked, .. } => match result {
            Err(e) => if checked {
                Some(e)
            } else {
                None
            },
            Ok(()) => None,
        },
    }
}

/// After a step of a Set plan ran with `result`, the reason to stop, if any.
pub fn step_outcome(step: &SetStep, result: Result<(), String>) -> (r: Option<String>)
    ensures
        match step_stop(step@, match result { Ok(()) => Ok(()), Err(e) => Err(e@) }) {
            Some(m) => r matches Some(x) && x@ == m,
            None => r is None,
        },
{
    match step {
        SetStep::Fail(m) => Some(m.clone()),
        SetStep::UciSet { .. } => match result {
            Err(e) => Some(e),
            Ok(()) => None,
        },
        SetStep::Commit { checked, .. } => match result {
            Err(e) => if *checked {
                Some(e)
            } else {
                None
            },
            Ok(()) => None,
        },
    }
}

// ---------------------------------------------------------------- operate

/// The pieces of `s` between occurrences of `c`.
pub open spec fn split_on(s: Seq<char>, c: char) -> Seq<Seq<char>>
    decreases s.len(),
{
    if s.len() == 0 {
        seq![seq![]]
    } else {
        let t = split_on(s.drop_last(), c);
        if s.last() == c {
            t.push(seq![])
        } else {
            t.update(t.len() - 1, t.last().push(s.last()))
        }
    }
}

pub proof fn lemma_split_nonempty(s: Seq<char>, c: char)
    ensures
        split_on(s, c).len() >= 1,
    decreases s.len(),
{
    if s.len() > 0 {
        lemma_split_nonempty(s.drop_last(), c);
    }
}

pub open spec fn all_digits(s: Seq<char>) -> bool {
    forall|i: int| 0 <= i < s.len() ==> '0' <= #[trigger] s[i] <= '9'
}

/// The first piece made of digits only (an empty piece counts).
pub open spec fn first_digit_piece(segs: Seq<Seq<char>>) -> Option<Seq<char>>
    decreases segs.len(),
{
    if segs.len() == 0 {
        None
    } else if all_digits(segs[0]) {
        Some(segs[0])
    } else {
        first_digit_piece(segs.drop_first())
    }
}

pub open spec fn digits_value(s: Seq<char>) -> nat
    decreases s.len(),
{
    if s.len() == 0 {
        0
    } else {
        digits_value(s.drop_last()) * 10 + (s.last() as nat - '0' as nat) as nat
    }
}

/// The camera a capture command names: the first all-digit piece of its
/// path read as a number, or 1 when there is none, it is empty, or it does
/// not fit in a `usize`.
pub open spec fn camera_index(command: Seq<char>) -> nat {
    match first_digit_piece(split_on(command, '.')) {
        Some(d) => if d.len() > 0 && digits_value(d) <= usize::MAX {
            digits_value(d)
        } else {
            1
        },
        None => 1,
    }
}

pub fn split_on_exec(s: &str, c: char) -> (r: Vec<String>)
    ensures
        crate::pb::view_seq(r@) == split_on(s@, c),
{
    let n = s.unicode_len();
    let mut segs: Vec<String> = Vec::new();
    let mut cur = String::new();
    let mut i: usize = 0;
    assert(s@.subrange(0, 0) =~= Seq::<char>::empty());
    assert(crate::pb::view_seq(segs@).push(cur@) =~= seq![Seq::<char>::empty()]);
    while i < n
        invariant
            n == s@.len(),
            i <= n,
            split_on(s@.subrange(0, i as int), c) == crate::pb::view_seq(segs@).push(cur@),
        decreases n - i,
    {
        let ch = s.get_char(i);
        let ghost t = s@.subrange(0, i as int);
        assert(s@.subrange(0, i + 1).drop_last() =~= t);
        assert(s@.subrange(0, i + 1).last() == ch);
        let ghost vs = crate::pb::view_seq(segs@);
        if ch == c {
            let done = cur;
            segs.push(done);
            cur = String::new();
            assert(crate::pb::view_seq(segs@) =~= vs.push(done@));
            assert(crate::pb::view_seq(segs@).push(cur@) =~= vs.push(done@).push(Seq::<char>::empty()));
        } else {
            let ghost before = cur@;
            crate::text::push_char(&mut cur, ch);
            assert(vs.push(before).update(vs.len() as int, before.push(ch)) =~= vs.push(cur@));
        }
        i = i + 1;
    }
    assert(s@.subrange(0, n as int) =~= s@);
    let ghost vs = crate::pb::view_seq(segs@);
    segs.push(cur);
    assert(crate::pb::view_seq(segs@) =~= vs.push(cur@));
    segs
}

pub fn is_all_digits(s: &str) -> (r: bool)
    ensures
        r == all_digits(s@),
{
    let n = s.unicode_len();
    let mut i: usize = 0;
    while i < n
        invariant
            n == s@.len(),
            i <= n,
            forall|j: int| 0 <= j < i ==> '0' <= #[trigger] s@[j] <= '9',
        decreases n - i,
    {
        let ch = s.get_char(i);
        if !('0' <= ch && ch <= '9') {
            return false;
        }
        i = i + 1;
    }
    true
}

fn parse_digits(s: &str) -> (r: Option<usize>)
    requires
        all_digits(s@),
    ensures
        match r {
            Some(v) => v == digits_value(s@),
            None => digits_value(s@) > usize::MAX,
        },
{
    let n = s.unicode_len();
    let mut i: usize = 0;
    let mut v: usize = 0;
    while i < n
        invariant
            n == s@.len(),
            i <= n,
            all_digits(s@),
            v == digits_value(s@.subrange(0, i as int)),
        decreases n - i,
    {
        let ch = s.get_char(i);
        let d = (ch as u32 - '0' as u32) as usize;
        assert(s@.subrange(0, i + 1).drop_last() =~= s@.subrange(0, i as int));
        assert(s@.subrange(0, i + 1).last() == ch);
        if v > (usize::MAX - d) / 10 {
            proof {
                lemma_digits_grow(s@, (i + 1) as int);
            }
            return None;
        }
        v = v * 10 + d;
        i = i + 1;
    }
    assert(s@.subrange(0, n as int) =~= s@);
    Some(v)
}

proof fn lemma_digits_mono(s: Seq<char>, k: int)
    requires
        0 <= k <= s.len(),
        all_digits(s),
    ensures
        digits_value(s.subrange(0, k)) <= digits_value(s),
    decreases s.len() - k,
{
    if k < s.len() {
        let t = s.subrange(0, k + 1);
        assert(t.drop_last() =~= s.subrange(0, k));
        assert('0' <= s[k] <= '9');
        lemma_digits_mono(s, k + 1);
    } else {
        assert(s.subrange(0, k) =~= s);
    }
}

proof fn lemma_digits_grow(s: Seq<char>, k: int)
    requires
        0 < k <= s.len(),
        all_digits(s),
        digits_value(s.subrange(0, k)) > usize::MAX,
    ensures
        digits_value(s) > usize::MAX,
{
    lemma_digits_mono(s, k);
}

fn first_digit_piece_exec(segs: &Vec<String>) -> (r: Option<&String>)
    ensures
        match first_digit_piece(crate::pb::view_seq(segs@)) {
            Some(d) => r matches Some(x) && x@ == d,
            None => r is None,
        },
        r matches Some(x) ==> all_digits(x@),
{
    let mut j: usize = 0;
    assert(crate::pb::view_seq(segs@).skip(0) =~= crate::pb::view_seq(segs@));
    while j < segs.len()
        invariant
            j <= segs@.len(),
            first_digit_piece(crate::pb::view_seq(segs@)) == first_digit_piece(crate::pb::view_seq(segs@).skip(j as int)),
        decreases segs@.len() - j,
    {
        proof {
            let v = crate::pb::view_seq(segs@).skip(j as int);
            assert(v[0] == segs@[j as int]@);
            assert(v.drop_first() =~= crate::pb::view_seq(segs@).skip(j + 1));
        }
        if is_all_digits(segs[j].as_str()) {
            return Some(&segs[j]);
        }
        j = j + 1;
    }
    None
}

pub fn camera_index_exec(command: &str) -> (r: usize)
    ensures
        r == camera_index(command@),
{
    let segs = split_on_exec(command, '.');
    match first_digit_piece_exec(&segs) {
        Some(d) => {
            if d.as_str().unicode_len() == 0 {
                1
            } else {
                match parse_digits(d.as_str()) {
                    Some(v) => v,
                    None => 1,
                }
            }
        },
        None => 1,
    }
}

/// The value of the last entry for `key`.
pub open spec fn lookup_last(args: Seq<Pair>, key: Seq<char>) -> Option<Seq<char>>
    decreases args.len(),
{
    if args.len() == 0 {
        None
    } else if args.last().0 == key {
        Some(args.last().1)
    } else {
        lookup_last(args.drop_last(), key)
    }
}

fn lookup_last_exec<'a>(args: &'a Vec<(String, String)>, key: &str) -> (r: Option<&'a String>)
    ensures
        match lookup_last(pairs_view(args@), key@) {
            Some(v) => r matches Some(x) && x@ == v,
            None => r is None,
        },
{
    let mut j: usize = args.len();
    assert(pairs_view(args@).take(args@.len() as int) =~= pairs_view(args@));
    while j > 0
        invariant
            j <= args@.len(),
            lookup_last(pairs_view(args@), key@) == lookup_last(pairs_view(args@).take(j as int), key@),
        decreases j,
    {
        proof {
            assert(pairs_view(args@).take(j as int).drop_last() =~= pairs_view(args@).take(j - 1));
            assert(pairs_view(args@).take(j as int).last() == (args@[j - 1].0@, args@[j - 1].1@));
        }
        if str_eq(args[j - 1].0.as_str(), key) {
            return Some(&args[j - 1].1);
        }
        j = j - 1;
    }
    None
}

pub enum OperateActionV {
    Capture { index: nat },
    Download { url: Seq<char> },
    IssueCert,
}

/// The outside work that a recognised command asks for.
pub enum OperateAction {
    /// Capture an image from the camera with this 1-based index.
    Capture { index: usize },
    /// Download and apply the firmware image at this URL.
    Download { url: String },
    /// Return the provisioning certificate.
    IssueCert,
}

impl View for OperateAction {
    type V = OperateActionV;

    open spec fn view(&self) -> OperateActionV {
        match self {
            OperateAction::Capture { index } => OperateActionV::Capture { index: *index as nat },
            OperateAction::Download { url } => OperateActionV::Download { url: url@ },
            OperateAction::IssueCert => OperateActionV::IssueCert,
        }
    }
}

/// How a command is routed: by the subtree its path starts with and the
/// command name it ends with.
pub open spec fn operate_route(command: Seq<char>, args: Seq<Pair>) -> Result<OperateActionV, Seq<char>> {
    if is_prefix("Device.X_OptimACS_Camera."@, command) && is_suffix(".Capture()"@, command) {
        Ok(OperateActionV::Capture { index: camera_index(command) })
    } else if is_prefix("Device.X_OptimACS_Firmware."@, command) && is_suffix(".Download()"@, command) {
        match lookup_last(args, "url"@) {
            Some(u) if u.len() > 0 => Ok(OperateActionV::Download { url: u }),
            _ => Err("firmware download requires 'url' input arg"@),
        }
    } else if is_prefix("Device.X_OptimACS_Security."@, command) && is_suffix(".IssueCert()"@, command) {
        Ok(OperateActionV::IssueCert)
    } else {
        Err("unknown command: "@ + command)
    }
}

pub fn route_operate(command: &str, input_args: &Vec<(String, String)>) -> (r: Result<OperateAction, String>)
    ensures
        match operate_route(command@, pairs_view(input_args@)) {
            Ok(a) => r matches Ok(x) && x@ == a,
            Err(e) => r matches Err(x) && x@ == e,
        },
{
    if starts_with(command, "Device.X_OptimACS_Camera.") && ends_with(command, ".Capture()") {
        Ok(OperateAction::Capture { index: camera_index_exec(command) })
    } else if starts_with(command, "Device.X_OptimACS_Firmware.") && ends_with(command, ".Download()") {
        match lookup_last_exec(input_args, "url") {
            Some(u) => {
                if u.as_str().unicode_len() > 0 {
                    Ok(OperateAction::Download { url: u.clone() })
                } else {
                    Err(String::from_str("firmware download requires 'url' input arg"))
                }
            },
            None => Err(String::from_str("firmware download requires 'url' input arg")),
        }
    } else if starts_with(command, "Device.X_OptimACS_Security.") && ends_with(command, ".IssueCert()") {
        Ok(OperateAction::IssueCert)
    } else {
        let mut m = String::from_str("unknown command: ");
        push_str(&mut m, command);
        Err(m)
    }
}

/// The camera for a capture: the entry at `index - 1` (index 0 reads as 1)
/// of the discovered cameras, given as (IP, MAC).
pub open spec fn camera_pick(index: nat, cameras: Seq<Pair>) -> Result<Seq<char>, Seq<char>> {
    let i = if index == 0 {
        0
    } else {
        index - 1
    };
    if i < cameras.len() {
        Ok(cameras[i].0)
    } else {
        Err("camera "@ + decimal(index) + " not found"@)
    }
}

/// The IP address of the camera to capture from, or why there is none.
pub fn select_camera(index: usize, cameras: &Vec<(String, String)>) -> (r: Result<String, String>)
    ensures
        match camera_pick(index as nat, pairs_view(cameras@)) {
            Ok(ip) => r matches Ok(x) && x@ == ip,
            Err(e) => r matches Err(x) && x@ == e,
        },
{
    let i = if index == 0 {
        0
    } else {
        index - 1
    };
    if i < cameras.len() {
        Ok(cameras[i].0.clone())
    } else {
        let mut m = String::from_str("camera ");
        let d = to_decimal(index as u64);
        push_str(&mut m, d.as_str());
        push_str(&mut m, " not found");
        Err(m)
    }
}

/// The outputs of a capture: the image size and the camera's address, or
/// the failure when no image came back.
pub open spec fn capture_result(ip: Seq<char>, image_len: Option<nat>) -> Result<Seq<Pair>, Seq<char>> {
    match image_len {
        Some(n) => Ok(seq![("image_size"@, decimal(n)), ("camera_ip"@, ip)]),
        None => Err("capture failed"@),
    }
}

pub fn capture_outputs(ip: &str, image_len: Option<usize>) -> (r: Result<Vec<(String, String)>, String>)
    ensures
        match capture_result(ip@, match image_len { Some(n) => Some(n as nat), None => None }) {
            Ok(o) => r matches Ok(x) && pairs_view(x@) == o,
            Err(e) => r matches Err(x) && x@ == e,
        },
{
    match image_len {
        Some(n) => {
            let mut out: Vec<(String, String)> = Vec::new();
            out.push((String::from_str("image_size"), to_decimal(n as u64)));
            out.push((String::from_str("camera_ip"), String::from_str(ip)));
            assert(pairs_view(out@) =~= seq![("image_size"@, decimal(n as nat)), ("camera_ip"@, ip@)]);
            Ok(out)
        },
        None => Err(String::from_str("capture failed")),
    }
}

/// The outputs of a firmware download that was applied.
pub fn download_outputs() -> (r: Vec<(String, String)>)
    ensures
        pairs_view(r@) == seq![("status"@, "applied"@)],
{
    let mut out: Vec<(String, String)> = Vec::new();
    out.push((String::from_str("status"), String::from_str("applied")));
    assert(pairs_view(out@) =~= seq![("status"@, "applied"@)]);
    out
}

/// The outputs of a certificate request: the certificate under `csr`.
pub fn issue_cert_outputs(cert_pem: String) -> (r: Vec<(String, String)>)
    ensures
        pairs_view(r@) == seq![("csr"@, cert_pem@)],
{
    let mut out: Vec<(String, String)> = Vec::new();
    let ghost c = cert_pem@;
    out.push((String::from_str("csr"), cert_pem));
    assert(pairs_view(out@) =~= seq![("csr"@, c)]);
    out
}

} // verus!
