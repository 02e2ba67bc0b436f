//! TR-181 `Device.X_OptimACS_Firmware.`: the running firmware version.
use vstd::prelude::*;
use crate::dm::{lit_pair, pairs_view, Pair, Platform, PlatformV};
use crate::text::{ends_with, is_suffix};

verus! {

/// The firmware version, when the path names it or the whole subtree.
pub open spec fn firmware_get(path: Seq<char>, p: PlatformV) -> Seq<Pair> {
    if is_suffix("AvailableVersion"@, path) || is_suffix("Device.X_OptimACS_Firmware."@, path) {
        seq![("Device.X_OptimACS_Firmware.AvailableVersion"@, p.fw_version)]
    } else {
        seq![]
    }
}

/// The firmware version, when the path names it or the whole subtree.
pub fn get(p: &Platform, path: &str) -> (r: Vec<(String, String)>)
    ensures
        pairs_view(r@) == firmware_get(path@, p@),
{
    let mut m: Vec<(String, String)> = Vec::new();
    if ends_with(path, "AvailableVersion") || ends_with(path, "Device.X_OptimACS_Firmware.") {
        m.push(lit_pair("Device.X_OptimACS_Firmware.AvailableVersion", &p.fw_version));
    }
    assert(pairs_view(m@) =~= firmware_get(path@, p@));
    m
}

} // verus!
