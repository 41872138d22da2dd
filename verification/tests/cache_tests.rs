//! Tests for the cache record codec and the cache path helpers.

use rustfetch::cache::{
    cache_path_for, cache_wf_check, encode_cache, get_cache_path, get_default_values, parse_cache,
    Cache,
};

fn record(name: &str, vendor: &str, device: &str) -> Cache {
    Cache {
        gpu_name_pretty: String::from(name),
        gpu_vendor_id: String::from(vendor),
        gpu_device_id: String::from(device),
    }
}

#[test]
fn cache_round_trip_plain() {
    let original = record("AMD Radeon RX 580 ", "1002", "67df");
    assert!(cache_wf_check(&original));
    let text = encode_cache(&original);
    let read = parse_cache(&text).expect("an encoded record must parse");
    assert_eq!(read.gpu_name_pretty, original.gpu_name_pretty);
    assert_eq!(read.gpu_vendor_id, original.gpu_vendor_id);
    assert_eq!(read.gpu_device_id, original.gpu_device_id);
}

#[test]
fn cache_round_trip_escaped_characters() {
    let original = record("A \"quoted\" name with a \\ backslash", "10de", "2204");
    assert!(cache_wf_check(&original));
    let text = encode_cache(&original);
    let read = parse_cache(&text).expect("an encoded record must parse");
    assert_eq!(read.gpu_name_pretty, original.gpu_name_pretty);
    assert_eq!(read.gpu_vendor_id, original.gpu_vendor_id);
    assert_eq!(read.gpu_device_id, original.gpu_device_id);
}

#[test]
fn cache_encoding_shape() {
    let original = record("Radeon", "1002", "67df");
    let text = encode_cache(&original);
    assert_eq!(
        text,
        "gpu_name_pretty = \"Radeon\"\ngpu_vendor_id = \"1002\"\ngpu_device_id = \"67df\"\n"
    );
}

#[test]
fn cache_round_trip_whitespace_controls() {
    let original = record("name with\na line break\tand tab", "1002", "67df");
    assert!(cache_wf_check(&original));
    let text = encode_cache(&original);
    assert_eq!(
        text,
        "gpu_name_pretty = \"name with\\na line break\\tand tab\"\ngpu_vendor_id = \"1002\"\ngpu_device_id = \"67df\"\n"
    );
    let read = parse_cache(&text).expect("an encoded record must parse");
    assert_eq!(read.gpu_name_pretty, original.gpu_name_pretty);
}

#[test]
fn cache_record_with_unescapable_control_character_is_not_wf() {
    let bad = record("bell\u{7}name", "1002", "67df");
    assert!(!cache_wf_check(&bad));
}

#[test]
fn parse_cache_accepts_reordered_fields_and_comments() {
    let text = "# a comment\n\ngpu_device_id = \"67df\"\ngpu_name_pretty = \"Radeon\"\ngpu_vendor_id = \"1002\"\n";
    let read = parse_cache(text).expect("a reordered record must parse");
    assert_eq!(read.gpu_name_pretty, "Radeon");
    assert_eq!(read.gpu_vendor_id, "1002");
    assert_eq!(read.gpu_device_id, "67df");
}

#[test]
fn parse_cache_rejects_malformed_records() {
    // A missing field.
    assert!(parse_cache("gpu_name_pretty = \"Radeon\"\ngpu_vendor_id = \"1002\"\n").is_none());
    // A duplicate field.
    assert!(parse_cache(
        "gpu_name_pretty = \"a\"\ngpu_name_pretty = \"b\"\ngpu_vendor_id = \"1002\"\ngpu_device_id = \"67df\"\n"
    )
    .is_none());
    // An unknown key.
    assert!(parse_cache(
        "gpu_name_pretty = \"a\"\ngpu_vendor_id = \"1002\"\ngpu_device_id = \"67df\"\nextra = \"x\"\n"
    )
    .is_none());
    // An unterminated value.
    assert!(parse_cache("gpu_name_pretty = \"a\n").is_none());
    // No record at all.
    assert!(parse_cache("").is_none());
}

#[test]
fn default_values_fill_missing_probes_with_empty_strings() {
    let with_values = get_default_values(
        Some(String::from("Radeon")),
        Some((String::from("1002"), String::from("67df"))),
    );
    assert_eq!(with_values.gpu_name_pretty, "Radeon");
    assert_eq!(with_values.gpu_vendor_id, "1002");
    assert_eq!(with_values.gpu_device_id, "67df");

    let without = get_default_values(None, None);
    assert_eq!(without.gpu_name_pretty, "");
    assert_eq!(without.gpu_vendor_id, "");
    assert_eq!(without.gpu_device_id, "");
}

#[test]
fn cache_path_under_base_and_fallback() {
    assert_eq!(
        cache_path_for(Some(String::from("/home/user/.cache"))),
        "/home/user/.cache/rustfetch/cache.toml"
    );
    assert_eq!(cache_path_for(None), "cache.toml");
    assert!(get_cache_path().ends_with("cache.toml"));
}
