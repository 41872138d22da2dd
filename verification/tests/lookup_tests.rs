//! Tests for the ID database lookup: determinism on a fixed database,
//! subsystem short-circuiting, hierarchical match-state resets and unknown
//! identities.

use rustfetch::lookup::{lookup, DeviceIdentity, SubsystemIdentity};

fn identity(vendor: &str, device: &str) -> DeviceIdentity {
    DeviceIdentity {
        vendor_id: String::from(vendor),
        device_id: String::from(device),
    }
}

fn subsystem(subvendor: &str, subdevice: &str) -> SubsystemIdentity {
    SubsystemIdentity {
        subvendor_id: String::from(subvendor),
        subdevice_id: String::from(subdevice),
    }
}

const DB: &str = "# PCI ID database\n\n1002  AMD\n\t67df  Radeon RX 580\n\t\t1043 04c3  Strix RX580\n";

#[test]
fn database_determinism_subsystem_match() {
    let sub = subsystem("1043", "04c3");
    let name = lookup(DB, &identity("1002", "67df"), Some(&sub));
    assert_eq!(name, Some(String::from("Strix RX580")));
}

#[test]
fn database_determinism_no_subsystem_match() {
    let name = lookup(DB, &identity("1002", "67df"), None);
    assert_eq!(name, Some(String::from("AMD Radeon RX 580")));

    let other = subsystem("9999", "9999");
    let name = lookup(DB, &identity("1002", "67df"), Some(&other));
    assert_eq!(name, Some(String::from("AMD Radeon RX 580")));
}

#[test]
fn database_matching_is_case_insensitive() {
    let db = "1002  AMD\n\t67DF  Radeon RX 580\n";
    let name = lookup(db, &identity("1002", "67df"), None);
    assert_eq!(name, Some(String::from("AMD Radeon RX 580")));
}

#[test]
fn hierarchical_reset_on_new_vendor_header() {
    // The device match recorded under vendor 1002 must not persist once
    // the vendor header 10de appears, even though NVIDIA declares the very
    // same device code.
    let db = "1002  AMD\n\t67df  Radeon RX 580\n10de  NVIDIA\n\t67df  Impostor\n";
    let name = lookup(db, &identity("1002", "67df"), None);
    assert_eq!(name, None);

    // And the later vendor block matches only its own devices.
    let name = lookup(db, &identity("10de", "67df"), None);
    assert_eq!(name, Some(String::from("NVIDIA Impostor")));
}

#[test]
fn unknown_vendor_yields_not_found() {
    let name = lookup(DB, &identity("ffff", "0000"), None);
    assert_eq!(name, None);
}

#[test]
fn comments_and_blank_lines_are_ignored() {
    let db = "# header\n\n  \n1002  AMD\n# in between\n\t67df  Radeon RX 580\n";
    let name = lookup(db, &identity("1002", "67df"), None);
    assert_eq!(name, Some(String::from("AMD Radeon RX 580")));
}

#[test]
fn malformed_matching_header_fails_the_lookup() {
    // A matching vendor header without the double-space name separator
    // stops the scan with no result.
    let db = "1002 AMD\n";
    let name = lookup(db, &identity("1002", "67df"), None);
    assert_eq!(name, None);
}

#[test]
fn empty_database_finds_nothing() {
    assert_eq!(lookup("", &identity("1002", "67df"), None), None);
}

#[test]
fn later_device_header_clears_the_device_match() {
    // A device header is re-evaluated on every level-1 line: a later,
    // non-matching device under the same vendor clears the match, so only
    // a device standing matched at end of file (or a subsystem
    // short-circuit) yields a name.
    let db = "1002  AMD\n\t67df  Radeon RX 580\n\t67e0  Other Device\n";
    assert_eq!(lookup(db, &identity("1002", "67df"), None), None);

    // The subsystem short-circuit right under the device still answers.
    let db = "1002  AMD\n\t67df  Radeon RX 580\n\t\t1043 04c3  Strix RX580\n\t67e0  Other Device\n";
    let sub = subsystem("1043", "04c3");
    assert_eq!(
        lookup(db, &identity("1002", "67df"), Some(&sub)),
        Some(String::from("Strix RX580"))
    );
}

#[test]
fn database_without_trailing_newline() {
    let db = "1002  AMD\n\t67df  Radeon RX 580";
    let name = lookup(db, &identity("1002", "67df"), None);
    assert_eq!(name, Some(String::from("AMD Radeon RX 580")));
}
