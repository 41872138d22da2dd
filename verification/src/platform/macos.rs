//! The macOS computations. Most of the Linux-only probes have fixed
//! placeholder answers here; the disk usage arithmetic is shared.

use vstd::prelude::*;

use crate::sysinfo::shared::get_directory_usage;

verus! {

/// No power draw is reported on this platform.
pub fn get_power_draw() -> (r: i32)
    ensures
        r == 0,
{
    0
}

/// The root volume's usage figures; the caller hands in the volume's total
/// and available bytes.
pub fn get_disk_usage(total_space: u64, available_space: u64) -> (r: (u64, u64, u64))
    ensures
        r.0 == total_space / 1_000_000_000,
        r.1 == (if available_space <= total_space {
            (total_space - available_space) as u64
        } else {
            0u64
        }) / 1_000_000_000,
        r.2 == (if total_space == 0 {
            0int
        } else {
            ((if available_space <= total_space {
                total_space - available_space
            } else {
                0
            }) * 100) / total_space as int
        }),
{
    get_directory_usage(total_space, available_space)
}

/// The kernel display text: `MacOS` before the version.
pub fn format_kernel_version(kernel_version: &str) -> (r: String)
    ensures
        r@ == "MacOS "@ + kernel_version@,
{
    let mut out = String::from_str("MacOS ");
    out.append(kernel_version);
    out
}

/// The distro id is fixed here.
pub fn get_distro_id() -> (r: String)
    ensures
        r@ == "macos"@,
{
    String::from_str("macos")
}

/// No battery is probed on this platform.
pub fn get_battery() -> (r: (String, String))
    ensures
        r.0@ == "Null"@,
        r.1@ == "Null"@,
{
    (String::from_str("Null"), String::from_str("Null"))
}

/// No GPU ids are probed on this platform.
pub fn get_gpu_ids() -> (r: Option<(String, String)>)
    ensures
        r matches Some(p) && p.0@ == "Null"@ && p.1@ == "Null"@,
{
    Some((String::from_str("Null"), String::from_str("Null")))
}

} // verus!
