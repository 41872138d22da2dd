//! Platform-independent computations over probed system values: uptime
//! formatting and disk usage arithmetic. Reading the raw values is the
//! caller's business; everything here is a function of its arguments.

use vstd::prelude::*;

use crate::text::{chars_to_string, dec_seq, pad2, pad2_vec, push_all, u64_to_dec};

verus! {

/// The uptime display text for a second count: `HHh MMm SSs`, each part
/// zero-padded to two digits, the hour part left out under one hour.
pub open spec fn uptime_text(secs: nat) -> Seq<char> {
    let hours = secs / 3600;
    let minutes = (secs % 3600) / 60;
    let seconds = secs % 60;
    if hours < 1 {
        pad2(dec_seq(minutes)) + seq!['m', ' '] + pad2(dec_seq(seconds)) + seq!['s']
    } else {
        pad2(dec_seq(hours)) + seq!['h', ' '] + pad2(dec_seq(minutes)) + seq!['m', ' '] + pad2(
            dec_seq(seconds),
        ) + seq!['s']
    }
}

/// Renders an uptime, given in seconds, as `HHh MMm SSs` (or `MMm SSs`
/// under one hour).
pub fn get_uptime(uptime_seconds: u64) -> (r: String)
    ensures
        r@ == uptime_text(uptime_seconds as nat),
{
    let hours = uptime_seconds / 3600;
    let minutes = (uptime_seconds % 3600) / 60;
    let seconds = uptime_seconds % 60;
    let mut out: Vec<char> = Vec::new();
    if hours >= 1 {
        let h = pad2_vec(u64_to_dec(hours));
        push_all(&mut out, &h);
        out.push('h');
        out.push(' ');
    }
    let m = pad2_vec(u64_to_dec(minutes));
    push_all(&mut out, &m);
    out.push('m');
    out.push(' ');
    let s = pad2_vec(u64_to_dec(seconds));
    push_all(&mut out, &s);
    out.push('s');
    proof {
        assert(out@ =~= uptime_text(uptime_seconds as nat));
    }
    chars_to_string(&out)
}

/// The disk usage figures for a volume with the given total and available
/// space in bytes: total and used in whole gigabytes beside the used
/// percentage, floored; all zero on a volume reporting no space.
pub fn get_directory_usage(total_space: u64, available_space: u64) -> (r: (u64, u64, u64))
    ensures
        r.0 == total_space / 1_000_000_000,
        r.1 == (if available_space <= total_space {
            (total_space - available_space) as u64
        } else {
            0u64
        }) / 1_000_000_000,
        r.2 == (if total_space == 0 {
            0int
        } else {
            ((if available_space <= total_space {
                total_space - available_space
            } else {
                0
            }) * 100) / total_space as int
        }),
{
    let used = if available_space <= total_space {
        total_space - available_space
    } else {
        0
    };
    let percentage: u64 = if total_space == 0 {
        0
    } else {
        let p = (used as u128 * 100) / total_space as u128;
        proof {
            assert((used as int * 100) / (total_space as int) <= 100) by (nonlinear_arith)
                requires
                    used <= total_space,
                    total_space > 0,
            ;
        }
        p as u64
    };
    (total_space / 1_000_000_000, used / 1_000_000_000, percentage)
}

} // verus!
