//! Device configuration pushed by a server, turned into a batch of
//! configuration-database commands.
use vstd::prelude::*;
use crate::endpoint::{mac_no_colons, without_char};
use crate::pb::view_seq;
use crate::text::push_str;

verus! {

pub struct WirelessConfigV {
    pub dev_name: Seq<char>,
    pub mode: Seq<char>,
    pub essid: Seq<char>,
    pub enc_type: Seq<char>,
    pub enc_key: Option<Seq<char>>,
}

/// A radio and the access point on it.
pub struct WirelessConfig {
    pub dev_name: String,
    pub mode: String,
    pub essid: String,
    pub enc_type: String,
    pub enc_key: Option<String>,
}

impl View for WirelessConfig {
    type V = WirelessConfigV;

    open spec fn view(&self) -> WirelessConfigV {
        WirelessConfigV {
            dev_name: self.dev_name@,
            mode: self.mode@,
            essid: self.essid@,
            enc_type: self.enc_type@,
            enc_key: match &self.enc_key {
                Some(k) => Some(k@),
                None => None,
            },
        }
    }
}

pub struct InterfaceConfigV {
    pub name: Seq<char>,
    pub network_name: Option<Seq<char>>,
    pub con_type: Seq<char>,
    pub ip: Seq<char>,
    pub netmask: Seq<char>,
    pub gateway: Seq<char>,
    pub dns: Seq<char>,
    pub wireless: Option<WirelessConfigV>,
}

/// A network interface and, for a wireless one, its radio.
pub struct InterfaceConfig {
    pub name: String,
    pub network_name: Option<String>,
    pub con_type: String,
    pub ip: String,
    pub netmask: String,
    pub gateway: String,
    pub dns: String,
    pub wireless: Option<WirelessConfig>,
}

impl View for InterfaceConfig {
    type V = InterfaceConfigV;

    open spec fn view(&self) -> InterfaceConfigV {
        InterfaceConfigV {
            name: self.name@,
            network_name: match &self.network_name {
                Some(n) => Some(n@),
                None => None,
            },
            con_type: self.con_type@,
            ip: self.ip@,
            netmask: self.netmask@,
            gateway: self.gateway@,
            dns: self.dns@,
            wireless: match &self.wireless {
                Some(w) => Some(w@),
                None => None,
            },
        }
    }
}

/// A host name for the DNS forwarder.
pub struct HostEntry {
    pub hostname: String,
    pub ip: String,
}

/// A static DHCP lease.
pub struct DhcpHost {
    pub mac: String,
    pub ip: String,
}

impl View for HostEntry {
    type V = (Seq<char>, Seq<char>);

    open spec fn view(&self) -> (Seq<char>, Seq<char>) {
        (self.hostname@, self.ip@)
    }
}

impl View for DhcpHost {
    type V = (Seq<char>, Seq<char>);

    open spec fn view(&self) -> (Seq<char>, Seq<char>) {
        (self.mac@, self.ip@)
    }
}

pub struct SystemConfigV {
    pub hostname: Seq<char>,
    pub interfaces: Seq<InterfaceConfigV>,
    pub hosts: Seq<(Seq<char>, Seq<char>)>,
    pub dhcp_hosts: Seq<(Seq<char>, Seq<char>)>,
    pub password: Seq<char>,
}

/// The configuration a server pushes to the device.
pub struct SystemConfig {
    pub hostname: String,
    pub interfaces: Vec<InterfaceConfig>,
    pub hosts: Vec<HostEntry>,
    pub dhcp_hosts: Vec<DhcpHost>,
    pub password: String,
}

impl View for SystemConfig {
    type V = SystemConfigV;

    open spec fn view(&self) -> SystemConfigV {
        SystemConfigV {
            hostname: self.hostname@,
            interfaces: view_seq(self.interfaces@),
            hosts: view_seq(self.hosts@),
            dhcp_hosts: view_seq(self.dhcp_hosts@),
            password: self.password@,
        }
    }
}

/// What `str::to_lowercase` returns for a string.
pub uninterp spec fn lower_of(s: Seq<char>) -> Seq<char>;

/// Relies on `str::to_lowercase`: the lower-case form depends on the
/// characters alone.
#[verifier::external_body]
fn lowercase(s: &str) -> (r: String)
    ensures
        r@ == lower_of(s@),
{
    s.to_lowercase()
}

/// A value in single quotes.
pub open spec fn quoted(s: Seq<char>) -> Seq<char> {
    seq!['\''] + s + seq!['\'']
}

pub open spec fn when(c: bool, cmd: Seq<char>) -> Seq<Seq<char>> {
    if c {
        seq![cmd]
    } else {
        seq![]
    }
}

/// The commands for a radio attached to network `iface`.
pub open spec fn wireless_cmds(iface: Seq<char>, w: WirelessConfigV) -> Seq<Seq<char>> {
    let dev = w.dev_name;
    let wif = "wif_"@ + iface;
    seq!["set wireless."@ + dev + "=wifi-device"@]
        + when(w.mode.len() > 0, "set wireless."@ + dev + ".mode="@ + quoted(w.mode))
        + seq![
            "set wireless."@ + wif + "=wifi-iface"@,
            "set wireless."@ + wif + ".device="@ + quoted(dev),
            "set wireless."@ + wif + ".network="@ + quoted(iface),
        ]
        + when(w.essid.len() > 0, "set wireless."@ + wif + ".ssid="@ + quoted(w.essid))
        + when(w.enc_type.len() > 0, "set wireless."@ + wif + ".encryption="@ + quoted(w.enc_type))
        + match w.enc_key {
            Some(k) => when(k.len() > 0, "set wireless."@ + wif + ".key="@ + quoted(k)),
            None => seq![],
        }
}

/// The name of an interface in the configuration database.
pub open spec fn uci_name(i: InterfaceConfigV) -> Seq<char> {
    match i.network_name {
        Some(n) => n,
        None => i.name,
    }
}

/// The network commands for interface `u`.
pub open spec fn network_cmds(u: Seq<char>, i: InterfaceConfigV) -> Seq<Seq<char>> {
    seq![
        "set network."@ + u + "=interface"@,
        "set network."@ + u + ".proto="@ + quoted(lower_of(i.con_type)),
    ] + when(i.ip.len() > 0, "set network."@ + u + ".ipaddr="@ + quoted(i.ip)) + when(
        i.netmask.len() > 0,
        "set network."@ + u + ".netmask="@ + quoted(i.netmask),
    ) + when(i.gateway.len() > 0, "set network."@ + u + ".gateway="@ + quoted(i.gateway)) + when(
        i.dns.len() > 0,
        "set network."@ + u + ".dns="@ + quoted(i.dns),
    )
}

/// The commands for one interface.
pub open spec fn interface_cmds(i: InterfaceConfigV) -> Seq<Seq<char>> {
    network_cmds(uci_name(i), i) + match i.wireless {
        Some(w) => wireless_cmds(uci_name(i), w),
        None => seq![],
    }
}

pub open spec fn all_interface_cmds(is: Seq<InterfaceConfigV>) -> Seq<Seq<char>>
    decreases is.len(),
{
    if is.len() == 0 {
        seq![]
    } else {
        all_interface_cmds(is.drop_last()) + interface_cmds(is.last())
    }
}

pub open spec fn host_cmd(h: (Seq<char>, Seq<char>)) -> Seq<char> {
    "add_list dhcp.@dnsmasq[0].address="@ + quoted("/"@ + h.0 + "/"@ + h.1)
}

pub open spec fn lease_cmds(d: (Seq<char>, Seq<char>)) -> Seq<Seq<char>> {
    let base = "set dhcp.host_"@ + without_char(d.0, ':');
    seq![base + "=host"@, base + ".mac="@ + quoted(d.0), base + ".ip="@ + quoted(d.1)]
}

pub open spec fn all_lease_cmds(ds: Seq<(Seq<char>, Seq<char>)>) -> Seq<Seq<char>>
    decreases ds.len(),
{
    if ds.len() == 0 {
        seq![]
    } else {
        all_lease_cmds(ds.drop_last()) + lease_cmds(ds.last())
    }
}

/// The commands that apply a pushed configuration: the host name, each
/// interface, the DNS host names (replacing the old list), and each static
/// lease.
pub open spec fn batch_cmds(sc: SystemConfigV) -> Seq<Seq<char>> {
    when(sc.hostname.len() > 0, "set system.@system[0].hostname="@ + quoted(sc.hostname))
        + all_interface_cmds(sc.interfaces)
        + (if sc.hosts.len() > 0 {
        seq!["delete dhcp.@dnsmasq[0].address"@] + sc.hosts.map_values(|h: (Seq<char>, Seq<char>)| host_cmd(h))
    } else {
        seq![]
    })
        + all_lease_cmds(sc.dhcp_hosts)
}

/// Lines joined with newlines.
pub open spec fn joined(lines: Seq<Seq<char>>) -> Seq<char>
    decreases lines.len(),
{
    if lines.len() == 0 {
        seq![]
    } else if lines.len() == 1 {
        lines[0]
    } else {
        joined(lines.drop_last()) + seq!['\n'] + lines.last()
    }
}

fn push_cmd(cmds: &mut Vec<String>, c: String)
    ensures
        view_seq(final(cmds)@) == view_seq(old(cmds)@).push(c@),
{
    let ghost cv = c@;
    cmds.push(c);
    assert(view_seq(cmds@) =~= view_seq(old(cmds)@).push(cv));
}

fn quote(s: &str) -> (r: String)
    ensures
        r@ == quoted(s@),
{
    let mut q = String::from_str("'");
    proof {
        reveal_strlit("'");
    }
    assert(q@ =~= seq!['\'']);
    push_str(&mut q, s);
    crate::text::push_char(&mut q, '\'');
    q
}

fn line3(a: &str, b: &str, c: &str) -> (r: String)
    ensures
        r@ == a@ + b@ + c@,
{
    let mut s = String::from_str(a);
    push_str(&mut s, b);
    push_str(&mut s, c);
    s
}

fn line2(a: &str, b: &str) -> (r: String)
    ensures
        r@ == a@ + b@,
{
    let mut s = String::from_str(a);
    push_str(&mut s, b);
    s
}

fn line4(a: &str, b: &str, c: &str, d: &str) -> (r: String)
    ensures
        r@ == a@ + b@ + c@ + d@,
{
    let mut s = line3(a, b, c);
    push_str(&mut s, d);
    s
}

/// Appends the commands for a radio attached to network `iface`.
pub fn apply_wireless_cmds(iface: &str, w: &WirelessConfig, cmds: &mut Vec<String>)
    ensures
        view_seq(final(cmds)@) == view_seq(old(cmds)@) + wireless_cmds(iface@, w@),
{
    let dev = w.dev_name.as_str();
    push_cmd(cmds, line3("set wireless.", dev, "=wifi-device"));
    let ghost a = view_seq(cmds@);
    if w.mode.as_str().unicode_len() > 0 {
        push_cmd(cmds, line4("set wireless.", dev, ".mode=", quote(w.mode.as_str()).as_str()));
    }
    let ghost b = view_seq(cmds@);
    let mut wif = String::from_str("wif_");
    push_str(&mut wif, iface);
    let wif = wif.as_str();
    push_cmd(cmds, line3("set wireless.", wif, "=wifi-iface"));
    push_cmd(cmds, line4("set wireless.", wif, ".device=", quote(dev).as_str()));
    push_cmd(cmds, line4("set wireless.", wif, ".network=", quote(iface).as_str()));
    let ghost c = view_seq(cmds@);
    if w.essid.as_str().unicode_len() > 0 {
        push_cmd(cmds, line4("set wireless.", wif, ".ssid=", quote(w.essid.as_str()).as_str()));
    }
    let ghost d = view_seq(cmds@);
    if w.enc_type.as_str().unicode_len() > 0 {
        push_cmd(cmds, line4("set wireless.", wif, ".encryption=", quote(w.enc_type.as_str()).as_str()));
    }
    let ghost e = view_seq(cmds@);
    match &w.enc_key {
        Some(k) => {
            if k.as_str().unicode_len() > 0 {
                push_cmd(cmds, line4("set wireless.", wif, ".key=", quote(k.as_str()).as_str()));
            }
        },
        None => {},
    }
    assert(view_seq(cmds@) =~= view_seq(old(cmds)@) + wireless_cmds(iface@, w@));
}

fn push_network_cmds(u: &str, iface: &InterfaceConfig, cmds: &mut Vec<String>)
    ensures
        view_seq(final(cmds)@) == view_seq(old(cmds)@) + network_cmds(u@, iface@),
{
    let proto = lowercase(iface.con_type.as_str());
    push_cmd(cmds, line3("set network.", u, "=interface"));
    push_cmd(cmds, line4("set network.", u, ".proto=", quote(proto.as_str()).as_str()));
    let ghost a = view_seq(cmds@);
    if iface.ip.as_str().unicode_len() > 0 {
        push_cmd(cmds, line4("set network.", u, ".ipaddr=", quote(iface.ip.as_str()).as_str()));
    }
    let ghost b = view_seq(cmds@);
    if iface.netmask.as_str().unicode_len() > 0 {
        push_cmd(cmds, line4("set network.", u, ".netmask=", quote(iface.netmask.as_str()).as_str()));
    }
    let ghost c = view_seq(cmds@);
    if iface.gateway.as_str().unicode_len() > 0 {
        push_cmd(cmds, line4("set network.", u, ".gateway=", quote(iface.gateway.as_str()).as_str()));
    }
    let ghost d = view_seq(cmds@);
    if iface.dns.as_str().unicode_len() > 0 {
        push_cmd(cmds, line4("set network.", u, ".dns=", quote(iface.dns.as_str()).as_str()));
    }
    assert(view_seq(cmds@) =~= view_seq(old(cmds)@) + network_cmds(u@, iface@));
}

/// Appends the commands for one interface.
pub fn apply_interface_cmds(iface: &InterfaceConfig, cmds: &mut Vec<String>)
    ensures
        view_seq(final(cmds)@) == view_seq(old(cmds)@) + interface_cmds(iface@),
{
    let u = match &iface.network_name {
        Some(n) => n.as_str(),
        None => iface.name.as_str(),
    };
    assert(u@ == uci_name(iface@));
    push_network_cmds(u, iface, cmds);
    let ghost mid = view_seq(cmds@);
    match &iface.wireless {
        Some(w) => apply_wireless_cmds(u, w, cmds),
        None => {},
    }
    assert(view_seq(cmds@) =~= view_seq(old(cmds)@) + interface_cmds(iface@));
}

/// The command batch that applies a pushed configuration, one command per
/// line. The device settings `_cfg` do not enter it.
pub fn build_uci_batch(_cfg: &crate::config::ClientConfig, sc: &SystemConfig) -> (r: String)
    ensures
        r@ == joined(batch_cmds(sc@)),
{
    let mut cmds: Vec<String> = Vec::new();
    assert(view_seq(cmds@) =~= Seq::<Seq<char>>::empty());
    if sc.hostname.as_str().unicode_len() > 0 {
        push_cmd(&mut cmds, line2("set system.@system[0].hostname=", quote(sc.hostname.as_str()).as_str()));
        assert(view_seq(cmds@) =~= seq!["set system.@system[0].hostname="@ + quoted(sc.hostname@)]);
    }
    let ghost head = view_seq(cmds@);
    let mut i: usize = 0;
    while i < sc.interfaces.len()
        invariant
            i <= sc.interfaces@.len(),
            view_seq(cmds@) == head + all_interface_cmds(view_seq(sc.interfaces@).take(i as int)),
        decreases sc.interfaces@.len() - i,
    {
        apply_interface_cmds(&sc.interfaces[i], &mut cmds);
        proof {
            let v = view_seq(sc.interfaces@);
            assert(v.take(i + 1).drop_last() =~= v.take(i as int));
            assert(v.take(i + 1).last() == sc.interfaces@[i as int]@);
            assert(head + all_interface_cmds(v.take(i + 1)) =~= head + all_interface_cmds(v.take(i as int))
                + interface_cmds(sc.interfaces@[i as int]@));
        }
        i = i + 1;
    }
    assert(view_seq(sc.interfaces@).take(i as int) =~= view_seq(sc.interfaces@));
    let ghost mid = view_seq(cmds@);
    if sc.hosts.len() > 0 {
        push_cmd(&mut cmds, String::from_str("delete dhcp.@dnsmasq[0].address"));
        let mut j: usize = 0;
        while j < sc.hosts.len()
            invariant
                j <= sc.hosts@.len(),
                view_seq(cmds@) == mid + seq!["delete dhcp.@dnsmasq[0].address"@] + view_seq(sc.hosts@).take(
                    j as int,
                ).map_values(|h: (Seq<char>, Seq<char>)| host_cmd(h)),
            decreases sc.hosts@.len() - j,
        {
            let h = &sc.hosts[j];
            let mut v = String::from_str("/");
            push_str(&mut v, h.hostname.as_str());
            push_str(&mut v, "/");
            push_str(&mut v, h.ip.as_str());
            let c = line2("add_list dhcp.@dnsmasq[0].address=", quote(v.as_str()).as_str());
            push_cmd(&mut cmds, c);
            proof {
                let hv = view_seq(sc.hosts@);
                assert(hv[j as int] == h@);
                assert(v@ =~= "/"@ + h.hostname@ + "/"@ + h.ip@);
            assert(c@ =~= host_cmd(h@));
                assert(hv.take(j + 1).map_values(|h: (Seq<char>, Seq<char>)| host_cmd(h)) =~= hv.take(
                    j as int,
                ).map_values(|h: (Seq<char>, Seq<char>)| host_cmd(h)).push(host_cmd(hv[j as int])));
            }
            j = j + 1;
        }
        assert(view_seq(sc.hosts@).take(j as int) =~= view_seq(sc.hosts@));
    }
    let ghost after_hosts = view_seq(cmds@);
    let mut k: usize = 0;
    while k < sc.dhcp_hosts.len()
        invariant
            k <= sc.dhcp_hosts@.len(),
            view_seq(cmds@) == after_hosts + all_lease_cmds(view_seq(sc.dhcp_hosts@).take(k as int)),
        decreases sc.dhcp_hosts@.len() - k,
    {
        let d = &sc.dhcp_hosts[k];
        let id = mac_no_colons(d.mac.as_str());
        let mut base = String::from_str("set dhcp.host_");
        push_str(&mut base, id.as_str());
        let ghost before = view_seq(cmds@);
        push_cmd(&mut cmds, line2(base.as_str(), "=host"));
        push_cmd(&mut cmds, line3(base.as_str(), ".mac=", quote(d.mac.as_str()).as_str()));
        push_cmd(&mut cmds, line3(base.as_str(), ".ip=", quote(d.ip.as_str()).as_str()));
        proof {
            let dv = view_seq(sc.dhcp_hosts@);
            assert(dv[k as int] == d@);
            assert(dv.take(k + 1).drop_last() =~= dv.take(k as int));
            assert(base@ =~= "set dhcp.host_"@ + without_char(d.mac@, ':'));
            assert(view_seq(cmds@) =~= before + lease_cmds(d@));
        }
        k = k + 1;
    }
    assert(view_seq(sc.dhcp_hosts@).take(k as int) =~= view_seq(sc.dhcp_hosts@));
    assert(view_seq(cmds@) =~= batch_cmds(sc@));
    join_lines(&cmds)
}

/// Lines joined with newlines.
pub fn join_lines(lines: &Vec<String>) -> (r: String)
    ensures
        r@ == joined(view_seq(lines@)),
{
    let mut s = String::new();
    let mut i: usize = 0;
    while i < lines.len()
        invariant
            i <= lines@.len(),
            s@ == joined(view_seq(lines@).take(i as int)),
        decreases lines@.len() - i,
    {
        let ghost v = view_seq(lines@);
        if i > 0 {
            crate::text::push_char(&mut s, '\n');
        }
        push_str(&mut s, lines[i].as_str());
        proof {
            assert(v.take(i + 1).drop_last() =~= v.take(i as int));
            assert(v.take(i + 1).last() == lines@[i as int]@);
            if i == 0 {
                assert(s@ =~= lines@[0]@);
            }
        }
        i = i + 1;
    }
    assert(view_seq(lines@).take(i as int) =~= view_seq(lines@));
    s
}

} // verus!
