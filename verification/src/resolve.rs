//! The resolution orchestrator: the decision core of "get the display name
//! for the GPU". It is a step machine: the caller performs the probing,
//! cache file and database reads and hands their results back as events;
//! every decision between the cached name, a cache regeneration and the
//! database fallback is taken here.

use vstd::prelude::*;

use crate::cache::Cache;
use crate::common::utils::{format_hex, normalize_spec};
use crate::lookup::{lookup, lookup_spec, DeviceIdentity, SubsystemIdentity};

verus! {

/// Where the resolution stands, and what it still waits for.
pub enum ResolveState {
    /// Nothing has happened; the hardware probe comes first.
    Start,
    /// The identity is probed; the cache record is being read.
    AwaitCache { probed: DeviceIdentity, subsystem: Option<SubsystemIdentity> },
    /// The cache was missing, unreadable or explicitly cleared; it is being
    /// regenerated over the slow enumeration backend and re-read.
    AwaitRegen { probed: DeviceIdentity, subsystem: Option<SubsystemIdentity> },
    /// The cache is stale; the database text is being read.
    AwaitDb { probed: DeviceIdentity, subsystem: Option<SubsystemIdentity> },
    /// The resolution is over, with or without a name.
    Done { name: Option<String> },
}

/// What the caller reports back to the machine.
pub enum ResolveEvent {
    /// The probe's result: normalized vendor/device ids, raw subsystem ids.
    Probed { ids: Option<(String, String)>, subsystem_ids: Option<(String, String)> },
    /// A cache read: `None` when the file was missing or did not parse.
    CacheRead { record: Option<Cache> },
    /// A database read: `None` when no database file was readable.
    DbRead { text: Option<String> },
}

/// What the machine asks the caller to do next.
pub enum ResolveAction {
    /// Read and parse the cache file; answer with `CacheRead`.
    ReadCache,
    /// Regenerate the cache over the slow enumeration backend, then re-read
    /// it; answer with `CacheRead`.
    RegenerateCache,
    /// Read the ID database text; answer with `DbRead`.
    ReadDb,
    /// The state is `Done`; there is nothing left to do.
    Finished,
}

/// Whether the event is the answer that the state waits for.
pub open spec fn step_permitted(state: &ResolveState, event: &ResolveEvent) -> bool {
    match (state, event) {
        (ResolveState::Start, ResolveEvent::Probed { .. }) => true,
        (ResolveState::AwaitCache { .. }, ResolveEvent::CacheRead { .. }) => true,
        (ResolveState::AwaitRegen { .. }, ResolveEvent::CacheRead { .. }) => true,
        (ResolveState::AwaitDb { .. }, ResolveEvent::DbRead { .. }) => true,
        _ => false,
    }
}

/// The staleness test: the stored ids equal the probed ids, by direct
/// string comparison of normalized forms.
pub open spec fn cache_matches(rec: &Cache, probed: &DeviceIdentity) -> bool {
    rec.gpu_device_id@ == probed.device_id@ && rec.gpu_vendor_id@ == probed.vendor_id@
}

/// Two identities with the same ids.
pub open spec fn identity_views_match(a: &DeviceIdentity, b: &DeviceIdentity) -> bool {
    a.vendor_id@ == b.vendor_id@ && a.device_id@ == b.device_id@
}

/// Two optional subsystem identities with the same ids.
pub open spec fn sub_views_match(
    a: &Option<SubsystemIdentity>,
    b: &Option<SubsystemIdentity>,
) -> bool {
    match (a, b) {
        (Option::None, Option::None) => true,
        (Option::Some(x), Option::Some(y)) => x.subvendor_id@ == y.subvendor_id@ && x.subdevice_id@
            == y.subdevice_id@,
        _ => false,
    }
}

/// The view of an optional owned subsystem identity.
pub open spec fn osub_view(s: &Option<SubsystemIdentity>) -> Option<(Seq<char>, Seq<char>)> {
    match s {
        Option::None => None,
        Option::Some(x) => Some((x.subvendor_id@, x.subdevice_id@)),
    }
}

/// Decides `cache_matches` executably.
pub fn cache_matches_check(rec: &Cache, probed: &DeviceIdentity) -> (r: bool)
    ensures
        r == cache_matches(rec, probed),
{
    rec.gpu_device_id == probed.device_id && rec.gpu_vendor_id == probed.vendor_id
}

/// One step of the resolution. Every decision of the orchestrator stands
/// in the ensures: an absent probe ends the resolution at once; a missing,
/// unreadable or force-cleared cache is regenerated exactly once; a cache
/// whose stored ids equal the probed ids answers with its stored name; a
/// stale cache never does — the database fallback is attempted instead,
/// and its result, found or not, is final. The fallback never rewrites the
/// cache.
pub fn resolve_step(state: ResolveState, event: ResolveEvent, force_refresh: bool) -> (r: (
    ResolveState,
    ResolveAction,
))
    requires
        step_permitted(&state, &event),
    ensures
        (state matches ResolveState::Start ==> (event matches ResolveEvent::Probed {
            ids,
            subsystem_ids,
        } ==> {
            match ids {
                None => r.0 matches ResolveState::Done { name } && name is None && r.1
                    is Finished,
                Some(vd) => r.0 matches ResolveState::AwaitCache { probed, subsystem } && r.1
                    is ReadCache && probed.vendor_id@ == vd.0@ && probed.device_id@ == vd.1@ && (
                match subsystem_ids {
                    None => subsystem is None,
                    Some(svd) => subsystem matches Some(x) && x.subvendor_id@ == normalize_spec(
                        svd.0@,
                    ) && x.subdevice_id@ == normalize_spec(svd.1@),
                }),
            }
        })),
        (state matches ResolveState::AwaitCache { probed, subsystem } ==> (
        event matches ResolveEvent::CacheRead { record } ==> {
            match record {
                None => r.0 matches ResolveState::AwaitRegen { probed: p2, subsystem: s2 }
                    && identity_views_match(&p2, &probed) && sub_views_match(&s2, &subsystem)
                    && r.1 is RegenerateCache,
                Some(rec) => if force_refresh {
                    r.0 matches ResolveState::AwaitRegen { probed: p2, subsystem: s2 }
                        && identity_views_match(&p2, &probed) && sub_views_match(&s2, &subsystem)
                        && r.1 is RegenerateCache
                } else if cache_matches(&rec, &probed) {
                    r.0 matches ResolveState::Done { name } && (r.1 is Finished && (
                    name matches Some(nm) && nm@ == rec.gpu_name_pretty@))
                } else {
                    // The staleness gate: a stale cache never answers; the
                    // database fallback is attempted.
                    r.0 matches ResolveState::AwaitDb { probed: p2, subsystem: s2 }
                        && identity_views_match(&p2, &probed) && sub_views_match(&s2, &subsystem)
                        && r.1 is ReadDb
                },
            }
        })),
        (state matches ResolveState::AwaitRegen { probed, subsystem } ==> (
        event matches ResolveEvent::CacheRead { record } ==> {
            match record {
                None => r.0 matches ResolveState::AwaitDb { probed: p2, subsystem: s2 }
                    && identity_views_match(&p2, &probed) && sub_views_match(&s2, &subsystem)
                    && r.1 is ReadDb,
                Some(rec) => if cache_matches(&rec, &probed) {
                    r.0 matches ResolveState::Done { name } && (r.1 is Finished && (
                    name matches Some(nm) && nm@ == rec.gpu_name_pretty@))
                } else {
                    r.0 matches ResolveState::AwaitDb { probed: p2, subsystem: s2 }
                        && identity_views_match(&p2, &probed) && sub_views_match(&s2, &subsystem)
                        && r.1 is ReadDb
                },
            }
        })),
        (state matches ResolveState::AwaitDb { probed, subsystem } ==> (
        event matches ResolveEvent::DbRead { text } ==> r.1 is Finished && {
            match text {
                None => r.0 matches ResolveState::Done { name } && name is None,
                Some(t) => r.0 matches ResolveState::Done { name } && (match lookup_spec(
                    t@,
                    probed.vendor_id@,
                    probed.device_id@,
                    osub_view(&subsystem),
                ) {
                    None => name is None,
                    Some(nm) => name matches Some(x) && x@ == nm,
                }),
            }
        })),
{
    match (state, event) {
        (ResolveState::Start, ResolveEvent::Probed { ids, subsystem_ids }) => {
            match ids {
                None => (ResolveState::Done { name: None }, ResolveAction::Finished),
                Some((vendor_id, device_id)) => {
                    let subsystem = match subsystem_ids {
                        None => None,
                        Some((sv, sd)) => Some(
                            SubsystemIdentity {
                                subvendor_id: format_hex(sv.as_str()),
                                subdevice_id: format_hex(sd.as_str()),
                            },
                        ),
                    };
                    (
                        ResolveState::AwaitCache {
                            probed: DeviceIdentity { vendor_id, device_id },
                            subsystem,
                        },
                        ResolveAction::ReadCache,
                    )
                },
            }
        },
        (ResolveState::AwaitCache { probed, subsystem }, ResolveEvent::CacheRead { record }) => {
            match record {
                None => (
                    ResolveState::AwaitRegen { probed, subsystem },
                    ResolveAction::RegenerateCache,
                ),
                Some(rec) => {
                    if force_refresh {
                        (
                            ResolveState::AwaitRegen { probed, subsystem },
                            ResolveAction::RegenerateCache,
                        )
                    } else if cache_matches_check(&rec, &probed) {
                        (
                            ResolveState::Done { name: Some(rec.gpu_name_pretty) },
                            ResolveAction::Finished,
                        )
                    } else {
                        (ResolveState::AwaitDb { probed, subsystem }, ResolveAction::ReadDb)
                    }
                },
            }
        },
        (ResolveState::AwaitRegen { probed, subsystem }, ResolveEvent::CacheRead { record }) => {
            match record {
                None => (ResolveState::AwaitDb { probed, subsystem }, ResolveAction::ReadDb),
                Some(rec) => {
                    if cache_matches_check(&rec, &probed) {
                        (
                            ResolveState::Done { name: Some(rec.gpu_name_pretty) },
                            ResolveAction::Finished,
                        )
                    } else {
                        (ResolveState::AwaitDb { probed, subsystem }, ResolveAction::ReadDb)
                    }
                },
            }
        },
        (ResolveState::AwaitDb { probed, subsystem }, ResolveEvent::DbRead { text }) => {
            match text {
                None => (ResolveState::Done { name: None }, ResolveAction::Finished),
                Some(t) => {
                    let name = lookup(t.as_str(), &probed, subsystem.as_ref());
                    (ResolveState::Done { name }, ResolveAction::Finished)
                },
            }
        },
        _ => {
            proof {
                assert(false);
            }
            (ResolveState::Done { name: None }, ResolveAction::Finished)
        },
    }
}

} // verus!
