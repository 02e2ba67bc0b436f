//! Device identity helpers, and the plain records that the platform
//! readers produce.
use vstd::prelude::*;
use crate::text::{str_eq, trim, trimmed};

verus! {

/// An entry of the neighbour (ARP) table.
#[derive(Debug, Clone)]
pub struct ArpEntry {
    pub ip: String,
    pub mac: String,
}

/// A discovered camera.
#[derive(Debug, Clone)]
pub struct Camera {
    pub idx: u32,
    pub ip: String,
    pub mac: String,
}

/// The network interfaces whose addresses identify the device, in the order
/// they are tried.
pub fn mac_interfaces() -> (r: Vec<String>)
    ensures
        crate::pb::view_seq(r@) == seq![
            "br-lan"@, "eth0"@, "eth1"@, "eth0.1"@, "phy0-ap0"@, "phy1-ap0"@, "wlan0"@, "wlan1"@, "ra0"@,
        ],
{
    let mut v: Vec<String> = Vec::new();
    v.push(String::from_str("br-lan"));
    v.push(String::from_str("eth0"));
    v.push(String::from_str("eth1"));
    v.push(String::from_str("eth0.1"));
    v.push(String::from_str("phy0-ap0"));
    v.push(String::from_str("phy1-ap0"));
    v.push(String::from_str("wlan0"));
    v.push(String::from_str("wlan1"));
    v.push(String::from_str("ra0"));
    assert(crate::pb::view_seq(v@) =~= seq![
        "br-lan"@, "eth0"@, "eth1"@, "eth0.1"@, "phy0-ap0"@, "phy1-ap0"@, "wlan0"@, "wlan1"@, "ra0"@,
    ]);
    v
}

/// Whether a read address identifies the device: present, and neither
/// empty nor all zeros once trimmed.
pub open spec fn usable_mac(r: Option<Seq<char>>) -> bool {
    r matches Some(m) && trimmed(m).len() > 0 && trimmed(m) != "00:00:00:00:00:00"@
}

/// The device address: the first usable one of the addresses read for
/// each interface in turn (trimmed), or empty when none is.
pub open spec fn first_mac(reads: Seq<Option<Seq<char>>>) -> Seq<char>
    decreases reads.len(),
{
    if reads.len() == 0 {
        seq![]
    } else if usable_mac(reads[0]) {
        trimmed(reads[0]->Some_0)
    } else {
        first_mac(reads.drop_first())
    }
}

pub open spec fn reads_view(v: Seq<Option<String>>) -> Seq<Option<Seq<char>>> {
    v.map_values(|o: Option<String>| match o {
        Some(s) => Some(s@),
        None => None,
    })
}

/// Picks the device address out of the addresses read for each interface
/// of `mac_interfaces`, in that order (`None` where nothing could be read).
pub fn detect_mac(reads: &Vec<Option<String>>) -> (r: String)
    ensures
        r@ == first_mac(reads_view(reads@)),
{
    let mut i: usize = 0;
    assert(reads_view(reads@).skip(0) =~= reads_view(reads@));
    while i < reads.len()
        invariant
            i <= reads@.len(),
            first_mac(reads_view(reads@)) == first_mac(reads_view(reads@).skip(i as int)),
        decreases reads@.len() - i,
    {
        proof {
            let v = reads_view(reads@).skip(i as int);
            assert(v.drop_first() =~= reads_view(reads@).skip(i + 1));
        }
        match &reads[i] {
            Some(m) => {
                let t = trim(m.as_str());
                if t.as_str().unicode_len() > 0 && !str_eq(t.as_str(), "00:00:00:00:00:00") {
                    assert(reads_view(reads@).skip(i as int)[0] == Some(m@));
                    return t;
                }
            },
            None => {},
        }
        i = i + 1;
    }
    assert(reads_view(reads@).skip(i as int) =~= Seq::<Option<Seq<char>>>::empty());
    String::new()
}

} // verus!
