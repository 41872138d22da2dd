//! Tests for the resolution orchestrator: the staleness gate and the
//! end-to-end first-run / second-run scenario.

use rustfetch::cache::{encode_cache, parse_cache, Cache};
use rustfetch::resolve::{resolve_step, ResolveAction, ResolveEvent, ResolveState};

const DB: &str = "1002  AMD\n\t67df  Radeon RX 580\n\t\t1043 04c3  Strix RX580\n";

fn probed_event() -> ResolveEvent {
    ResolveEvent::Probed {
        ids: Some((String::from("1002"), String::from("67df"))),
        subsystem_ids: None,
    }
}

fn record(name: &str, vendor: &str, device: &str) -> Cache {
    Cache {
        gpu_name_pretty: String::from(name),
        gpu_vendor_id: String::from(vendor),
        gpu_device_id: String::from(device),
    }
}

fn done_name(state: ResolveState) -> Option<String> {
    match state {
        ResolveState::Done { name } => name,
        _ => panic!("the resolution should be done"),
    }
}

#[test]
fn staleness_gate_falls_back_to_the_database() {
    // A cache whose stored ids differ from the probed ids must not answer
    // with its stored name: the database fallback is attempted instead.
    let (state, action) = resolve_step(ResolveState::Start, probed_event(), false);
    assert!(matches!(action, ResolveAction::ReadCache));

    let stale = record("Stale Name", "1002", "9999");
    let (state, action) = resolve_step(state, ResolveEvent::CacheRead { record: Some(stale) }, false);
    assert!(matches!(action, ResolveAction::ReadDb));

    let (state, action) = resolve_step(
        state,
        ResolveEvent::DbRead { text: Some(String::from(DB)) },
        false,
    );
    assert!(matches!(action, ResolveAction::Finished));
    let name = done_name(state);
    assert_eq!(name, Some(String::from("AMD Radeon RX 580")));
    assert_ne!(name, Some(String::from("Stale Name")));
}

#[test]
fn fresh_cache_answers_without_the_database() {
    let (state, _) = resolve_step(ResolveState::Start, probed_event(), false);
    let fresh = record("AMD Radeon RX 580 ", "1002", "67df");
    let (state, action) = resolve_step(state, ResolveEvent::CacheRead { record: Some(fresh) }, false);
    assert!(matches!(action, ResolveAction::Finished));
    assert_eq!(done_name(state), Some(String::from("AMD Radeon RX 580 ")));
}

#[test]
fn force_refresh_regenerates_even_a_fresh_cache() {
    let (state, _) = resolve_step(ResolveState::Start, probed_event(), true);
    let fresh = record("AMD Radeon RX 580 ", "1002", "67df");
    let (_, action) = resolve_step(state, ResolveEvent::CacheRead { record: Some(fresh) }, true);
    assert!(matches!(action, ResolveAction::RegenerateCache));
}

#[test]
fn absent_probe_ends_the_resolution() {
    let event = ResolveEvent::Probed { ids: None, subsystem_ids: None };
    let (state, action) = resolve_step(ResolveState::Start, event, false);
    assert!(matches!(action, ResolveAction::Finished));
    assert_eq!(done_name(state), None);
}

#[test]
fn subsystem_ids_are_normalized_before_the_lookup() {
    let event = ResolveEvent::Probed {
        ids: Some((String::from("1002"), String::from("67df"))),
        subsystem_ids: Some((String::from("0x1043"), String::from("0x04C3"))),
    };
    let (state, _) = resolve_step(ResolveState::Start, event, false);
    let stale = record("Stale Name", "9999", "9999");
    let (state, _) = resolve_step(state, ResolveEvent::CacheRead { record: Some(stale) }, false);
    let (state, _) = resolve_step(
        state,
        ResolveEvent::DbRead { text: Some(String::from(DB)) },
        false,
    );
    assert_eq!(done_name(state), Some(String::from("Strix RX580")));
}

#[test]
fn end_to_end_first_and_second_run() {
    // First run: no cache file exists yet.
    let mut cache_file: Option<String> = None;

    let (state, action) = resolve_step(ResolveState::Start, probed_event(), false);
    assert!(matches!(action, ResolveAction::ReadCache));

    let read = cache_file.as_ref().and_then(|text| parse_cache(text));
    assert!(read.is_none());
    let (state, action) = resolve_step(state, ResolveEvent::CacheRead { record: read }, false);
    assert!(matches!(action, ResolveAction::RegenerateCache));

    // The slow enumeration backend answers once, and the record is written.
    let regenerated = record("AMD Radeon RX 580", "1002", "67df");
    cache_file = Some(encode_cache(&regenerated));
    let read = cache_file.as_ref().and_then(|text| parse_cache(text));
    let (state, action) = resolve_step(state, ResolveEvent::CacheRead { record: read }, false);
    assert!(matches!(action, ResolveAction::Finished));
    assert_eq!(done_name(state), Some(String::from("AMD Radeon RX 580")));

    // Second run with identical hardware: the cached name answers, and the
    // slow path is never requested.
    let (state, action) = resolve_step(ResolveState::Start, probed_event(), false);
    assert!(matches!(action, ResolveAction::ReadCache));
    let read = cache_file.as_ref().and_then(|text| parse_cache(text));
    let (state, action) = resolve_step(state, ResolveEvent::CacheRead { record: read }, false);
    assert!(matches!(action, ResolveAction::Finished));
    assert_eq!(done_name(state), Some(String::from("AMD Radeon RX 580")));
}
