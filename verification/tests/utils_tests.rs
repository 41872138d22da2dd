//! Tests for the shared helpers: name stripping, identifier normalization
//! and single-line file trimming.

use rustfetch::common::utils::{
    format_hex, get_trimmed, get_value_from_file, strip_cpu_name, strip_gpu_name,
};

#[test]
fn strip_gpu_name_normal_use() {
    let result = strip_gpu_name("AMD Sapphire RX 590 (RADV POLARIS)");
    assert_eq!(result, String::from("AMD Sapphire RX 590 "));

    let result = strip_gpu_name("Intel Arc Pro B50");
    assert_eq!(result, String::from("Intel Arc Pro B50"));

    let result = strip_gpu_name("Nvidia Geforce GTX ( 1070");
    assert_eq!(result, String::from("Nvidia Geforce GTX "))
}

#[test]
fn strip_gpu_name_empty_string() {
    let result = strip_gpu_name("");
    assert_eq!(result, String::from(""));
}

#[test]
fn strip_cpu_name_normal_use() {
    let result = strip_cpu_name("Ryzen 7 7800x with 3D V-Cache");
    assert_eq!(result, String::from("Ryzen 7 7800x"));

    let result = strip_cpu_name("Intel i5 12400KF @ 3.04Ghz");
    assert_eq!(result, String::from("Intel i5 12400KF"));

    let result = strip_cpu_name("Ryzen 5 5600x 6-Core Processor");
    assert_eq!(result, String::from("Ryzen 5 5600x"))
}

#[test]
fn strip_cpu_name_empty_string() {
    let result = strip_cpu_name("");
    assert_eq!(result, String::from(""));
}

#[test]
fn format_hex_case_insensitive() {
    assert_eq!(format_hex("0xABCD"), String::from("abcd"));
    assert_eq!(format_hex("0XabCD"), String::from("abcd"));
    assert_eq!(format_hex("abcd"), String::from("abcd"));
}

#[test]
fn format_hex_idempotent_samples() {
    for input in ["0xABCD", "0XabCD", "abcd", "", "0x", "0x0x12", "Mixed Case"] {
        let once = format_hex(input);
        let twice = format_hex(&once);
        assert_eq!(once, twice);
    }
}

#[test]
fn format_hex_plain_values() {
    assert_eq!(format_hex("0xf89"), String::from("f89"));
    assert_eq!(format_hex("1002"), String::from("1002"));
    assert_eq!(format_hex(""), String::from(""));
}

#[test]
fn value_from_file_content() {
    let os_release = "NAME=\"Arch Linux\"\nID=arch\n";
    assert_eq!(get_value_from_file(os_release, "PRETTY_NAME", "="), "Null");
    assert_eq!(get_value_from_file(os_release, "NAME", "="), "Arch Linux");
    assert_eq!(get_value_from_file(os_release, "ID", "="), "arch");

    let cpuinfo = "processor\t: 0\nmodel name\t: AMD Ryzen 5 5600X\n";
    assert_eq!(get_value_from_file(cpuinfo, "model name", ":"), "AMD Ryzen 5 5600X");

    // The quote stripping counts characters of the raw value, so a spaced
    // assignment keeps its opening quote.
    assert_eq!(get_value_from_file("KEY = \"v\"\n", "KEY", "="), "\"v");

    assert_eq!(get_value_from_file("", "ID", "="), "Null");
}

#[test]
fn get_trimmed_values() {
    assert_eq!(get_trimmed(Some("  85\n")), Ok(String::from("85")));
    assert_eq!(
        get_trimmed(Some("   \n")),
        Err(String::from("File content is empty"))
    );
    assert_eq!(get_trimmed(None), Err(String::from("Failed to read file")));
}
