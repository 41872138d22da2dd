//! Tests for the platform computations and the shared system-fact
//! helpers: distro id extraction, battery and power figures, the GPU
//! probe combination, uptime formatting and disk usage arithmetic.

use rustfetch::platform::linux::{
    format_kernel_version, get_battery, get_disk_usage, get_distro_id, get_gpu_ids,
    get_gpu_subsystem_ids, get_power_draw,
};
use rustfetch::platform::macos;
use rustfetch::sysinfo::shared::{get_directory_usage, get_uptime};

#[test]
fn distro_id_from_os_release() {
    let content = "NAME=\"Arch Linux\"\nID=arch\nBUILD_ID=rolling\n";
    assert_eq!(get_distro_id(Some(content)), "arch");

    let quoted = "ID=\"ubuntu\"\nVERSION=\"22.04\"\n";
    assert_eq!(get_distro_id(Some(quoted)), "ubuntu");

    assert_eq!(get_distro_id(Some("NAME=Something\n")), "unknown");
    assert_eq!(get_distro_id(None), "unknown");
}

#[test]
fn battery_values_and_defaults() {
    let (capacity, status) = get_battery(Some("85\n"), Some("Charging\n"));
    assert_eq!(capacity, "85");
    assert_eq!(status, "Charging");

    let (capacity, status) = get_battery(None, Some("  \n"));
    assert_eq!(capacity, "Unavailable");
    assert_eq!(status, "Unavailable");
}

#[test]
fn power_draw_scales_microwatts_to_watts() {
    assert_eq!(get_power_draw(Some("12345678\n")), 12);
    assert_eq!(get_power_draw(Some("999999\n")), 0);
    assert_eq!(get_power_draw(Some("not a number\n")), 0);
    assert_eq!(get_power_draw(None), 0);
}

#[test]
fn gpu_ids_normalize_and_fall_back() {
    let ids = get_gpu_ids(Some("0x1002\n"), None, Some("0x67DF\n"), None);
    assert_eq!(ids, Some((String::from("1002"), String::from("67df"))));

    // The fallback adapter index counts when the primary has no full pair.
    let ids = get_gpu_ids(None, Some("0x10DE\n"), None, Some("0x2204\n"));
    assert_eq!(ids, Some((String::from("10de"), String::from("2204"))));

    // A missing device file means no identity at all.
    assert_eq!(get_gpu_ids(Some("0x1002\n"), None, None, None), None);
    assert_eq!(get_gpu_ids(None, None, None, None), None);
}

#[test]
fn gpu_ids_come_from_one_adapter_index() {
    // The primary index holds only a vendor file while the fallback index
    // holds both: the whole pair comes from the fallback index — its
    // vendor is never mixed with the primary's.
    let ids = get_gpu_ids(Some("0x1002\n"), Some("0x10DE\n"), None, Some("0x2204\n"));
    assert_eq!(ids, Some((String::from("10de"), String::from("2204"))));

    // One index with only a vendor beside one with only a device: no
    // index yields both files, so there is no identity.
    assert_eq!(get_gpu_ids(Some("0x1002\n"), None, None, Some("0x2204\n")), None);
}

#[test]
fn gpu_ids_take_the_first_line() {
    let ids = get_gpu_ids(Some("0x1002\nsecond line\n"), None, Some("0x67df\r\n"), None);
    assert_eq!(ids, Some((String::from("1002"), String::from("67df"))));
}

#[test]
fn gpu_subsystem_ids_are_trimmed_but_not_normalized() {
    let ids = get_gpu_subsystem_ids(Some("0x1043\n"), None, Some("0x04C3\n"), None);
    assert_eq!(ids, Some((String::from("0x1043"), String::from("0x04C3"))));

    assert_eq!(get_gpu_subsystem_ids(Some("0x1043\n"), None, None, None), None);

    // The same one-index rule as for the main pair.
    assert_eq!(
        get_gpu_subsystem_ids(Some("0x1043\n"), None, None, Some("0x04C3\n")),
        None
    );
    assert_eq!(
        get_gpu_subsystem_ids(Some("0x1043\n"), Some("0x1458\n"), None, Some("0x04C3\n")),
        Some((String::from("0x1458"), String::from("0x04C3")))
    );
}

#[test]
fn kernel_version_formatting() {
    assert_eq!(format_kernel_version("6.10.4"), "Linux 6.10.4");
    assert_eq!(macos::format_kernel_version("23.5.0"), "MacOS 23.5.0");
}

#[test]
fn uptime_formatting() {
    assert_eq!(get_uptime(0), "00m 00s");
    assert_eq!(get_uptime(59), "00m 59s");
    assert_eq!(get_uptime(3599), "59m 59s");
    assert_eq!(get_uptime(3723), "01h 02m 03s");
    assert_eq!(get_uptime(360000), "100h 00m 00s");
    assert_eq!(get_uptime(u64::MAX), "5124095576030431h 00m 15s");
}

#[test]
fn disk_usage_arithmetic() {
    // 100 GB total, 25 GB available: 75 GB used, 75 percent.
    let (total, used, percentage) = get_directory_usage(100_000_000_000, 25_000_000_000);
    assert_eq!((total, used, percentage), (100, 75, 75));

    // An empty volume reports all zeroes rather than dividing by zero.
    assert_eq!(get_directory_usage(0, 0), (0, 0, 0));

    // The percentage is floored.
    let (_, _, percentage) = get_directory_usage(3_000_000_000, 1_000_000_000);
    assert_eq!(percentage, 66);

    // The largest possible volume neither overflows nor loses the figures.
    let (total, used, percentage) = get_directory_usage(u64::MAX, 0);
    assert_eq!((total, used, percentage), (18_446_744_073, 18_446_744_073, 100));

    let linux_usage = get_disk_usage(100_000_000_000, 25_000_000_000);
    assert_eq!(linux_usage, (100, 75, 75));
    let macos_usage = macos::get_disk_usage(100_000_000_000, 25_000_000_000);
    assert_eq!(macos_usage, (100, 75, 75));
}

#[test]
fn macos_placeholders() {
    assert_eq!(macos::get_power_draw(), 0);
    assert_eq!(macos::get_distro_id(), "macos");
    let (capacity, status) = macos::get_battery();
    assert_eq!((capacity.as_str(), status.as_str()), ("Null", "Null"));
    assert_eq!(
        macos::get_gpu_ids(),
        Some((String::from("Null"), String::from("Null")))
    );
}
