//! The Linux computations: distro id extraction from `os-release` text,
//! battery and power figures from their sysfs values, and the two-index
//! GPU probe combination.

use vstd::prelude::*;

use crate::common::utils::{format_hex, get_trimmed, normalize_spec};
use crate::sysinfo::shared::get_directory_usage;
use crate::text::{
    chars_to_string, find_char, find_char_vec, parse_u32, parse_u32_spec, split_lines,
    split_lines_vec, str_to_chars, trim_chars, trim_matching, trim_matching_chars, trim_seq,
};

verus! {

/// A line of `os-release` that assigns the distro id: it starts `ID=`.
pub open spec fn is_id_line(l: Seq<char>) -> bool {
    l.len() >= 3 && l[0] == 'I' && l[1] == 'D' && l[2] == '='
}

/// The first `ID=` line among `lines`, if any.
pub open spec fn find_id_line(lines: Seq<Seq<char>>) -> Option<Seq<char>>
    decreases lines.len(),
{
    if lines.len() == 0 {
        None
    } else if is_id_line(lines[0]) {
        Some(lines[0])
    } else {
        find_id_line(lines.drop_first())
    }
}

/// The id on an `ID=` line: what stands between the first `=` and the
/// next one (or the line's end), with every surrounding quote removed.
pub open spec fn id_value(l: Seq<char>) -> Seq<char> {
    let rest = l.skip(3);
    let v = match find_char(rest, '=') {
        None => rest,
        Some(j) => rest.take(j),
    };
    trim_matching(v, '"')
}

/// The distro id announced by the given `os-release` content: the value of
/// its first `ID=` line, `"unknown"` when the file was unreadable or names
/// none.
pub fn get_distro_id(os_release: Option<&str>) -> (r: String)
    ensures
        r@ == (match os_release {
            None => "unknown"@,
            Some(c) => match find_id_line(split_lines(c@)) {
                None => "unknown"@,
                Some(l) => id_value(l),
            },
        }),
{
    let content = match os_release {
        None => {
            return String::from_str("unknown");
        },
        Some(c) => c,
    };
    let cs = str_to_chars(content);
    let lines = split_lines_vec(&cs);
    let ghost all = split_lines(content@);
    let n = lines.len();
    let mut i: usize = 0;
    proof {
        assert(all.skip(0) =~~= all);
    }
    while i < n
        invariant
            0 <= i <= n,
            n == lines@.len(),
            lines.deep_view() == all,
            find_id_line(all) == find_id_line(all.skip(i as int)),
            all == split_lines(content@),
            (match os_release {
                Some(c) => c@ == content@,
                None => false,
            }),
        decreases n - i,
    {
        let line = &lines[i];
        proof {
            assert(lines.deep_view()[i as int] == lines@[i as int]@);
            assert(all.skip(i as int)[0] == all[i as int]);
            assert(all.skip(i as int).drop_first() =~~= all.skip(i + 1));
        }
        if line.len() >= 3 && line[0] == 'I' && line[1] == 'D' && line[2] == '=' {
            proof {
                assert(is_id_line(line@));
                assert(find_id_line(all.skip(i as int)) == Some(line@));
            }
            let m = line.len();
            let rest = crate::text::copy_range(line, 3, m);
            proof {
                assert(rest@ =~= line@.skip(3));
            }
            let v = match find_char_vec(&rest, '=') {
                None => rest,
                Some(j) => {
                    proof {
                        crate::text::lemma_find_char(rest@, '=');
                    }
                    crate::text::copy_range(&rest, 0, j)
                },
            };
            proof {
                assert(v@ =~= (match find_char(line@.skip(3), '=') {
                    None => line@.skip(3),
                    Some(j) => line@.skip(3).take(j),
                }));
            }
            let out = trim_matching_chars(&v, '"');
            proof {
                assert(find_id_line(all) == Some(line@));
            }
            return chars_to_string(&out);
        }
        i = i + 1;
    }
    proof {
        assert(all.skip(n as int) =~~= Seq::<Seq<char>>::empty());
    }
    String::from_str("unknown")
}

/// The battery capacity and status texts, from the trimmed contents of
/// their sysfs files; an unreadable or empty file reads `"Unavailable"`.
pub fn get_battery(capacity_read: Option<&str>, status_read: Option<&str>) -> (r: (String, String))
    ensures
        r.0@ == (match capacity_read {
            Some(c) => (if trim_seq(c@).len() > 0 {
                trim_seq(c@)
            } else {
                "Unavailable"@
            }),
            None => "Unavailable"@,
        }),
        r.1@ == (match status_read {
            Some(c) => (if trim_seq(c@).len() > 0 {
                trim_seq(c@)
            } else {
                "Unavailable"@
            }),
            None => "Unavailable"@,
        }),
{
    let capacity = match get_trimmed(capacity_read) {
        Ok(v) => v,
        Err(_) => String::from_str("Unavailable"),
    };
    let status = match get_trimmed(status_read) {
        Ok(v) => v,
        Err(_) => String::from_str("Unavailable"),
    };
    (capacity, status)
}

/// The current power draw in watts: the trimmed `power_now` content, which
/// counts microwatts, parsed and scaled down; zero on anything unreadable
/// or non-numeric.
pub fn get_power_draw(power_read: Option<&str>) -> (r: u32)
    ensures
        r == (match power_read {
            Some(c) => (if trim_seq(c@).len() > 0 {
                (match parse_u32_spec(trim_seq(c@)) {
                    Some(v) => v,
                    None => 0u32,
                }) / 1_000_000
            } else {
                0u32
            }),
            None => 0u32,
        }),
{
    match get_trimmed(power_read) {
        Ok(content) => {
            let cs = str_to_chars(content.as_str());
            let v = match parse_u32(&cs) {
                Some(v) => v,
                None => 0,
            };
            v / 1_000_000
        },
        Err(_) => 0,
    }
}

/// The root volume's usage figures; the caller hands in the volume's total
/// and available bytes.
pub fn get_disk_usage(total_space: u64, available_space: u64) -> (r: (u64, u64, u64))
    ensures
        r.0 == total_space / 1_000_000_000,
        r.1 == (if available_space <= total_space {
            (total_space - available_space) as u64
        } else {
            0u64
        }) / 1_000_000_000,
        r.2 == (if total_space == 0 {
            0int
        } else {
            ((if available_space <= total_space {
                total_space - available_space
            } else {
                0
            }) * 100) / total_space as int
        }),
{
    get_directory_usage(total_space, available_space)
}

/// The kernel display text: `Linux` before the version.
pub fn format_kernel_version(kernel_version: &str) -> (r: String)
    ensures
        r@ == "Linux "@ + kernel_version@,
{
    let mut out = String::from_str("Linux ");
    out.append(kernel_version);
    out
}

/// The first line of a read file: its content up to the first newline.
pub open spec fn first_line(s: Seq<char>) -> Seq<char> {
    match find_char(s, '\n') {
        None => s,
        Some(i) => s.take(i),
    }
}

/// The value one sysfs read carries: the first line of its content,
/// trimmed.
pub open spec fn read_value(content: Seq<char>) -> Seq<char> {
    trim_seq(first_line(content))
}

/// An adapter index's probe pair: present only when both of the index's
/// files were readable.
pub open spec fn index_pair(
    vendor_read: Option<&str>,
    device_read: Option<&str>,
) -> Option<(Seq<char>, Seq<char>)> {
    match (vendor_read, device_read) {
        (Option::Some(v), Option::Some(d)) => Some((v@, d@)),
        _ => None,
    }
}

/// Distils one sysfs read executably: first line, trimmed.
fn sysfs_value(content: &str) -> (r: String)
    ensures
        r@ == read_value(content@),
{
    let cs = str_to_chars(content);
    let line = match find_char_vec(&cs, '\n') {
        None => cs,
        Some(i) => {
            proof {
                crate::text::lemma_find_char(cs@, '\n');
            }
            let l = crate::text::copy_range(&cs, 0, i);
            proof {
                assert(l@ =~= content@.take(i as int));
            }
            l
        },
    };
    let t = trim_chars(&line);
    chars_to_string(&t)
}

/// The probed GPU identity: from the first adapter index where both the
/// vendor and the device file are readable — the primary index, else the
/// fallback index — each value being the file's first line, trimmed and
/// normalized. When neither index yields both files, there is no identity;
/// in particular one index's vendor is never paired with the other's
/// device.
pub fn get_gpu_ids(
    vendor_primary: Option<&str>,
    vendor_fallback: Option<&str>,
    device_primary: Option<&str>,
    device_fallback: Option<&str>,
) -> (r: Option<(String, String)>)
    ensures
        (match (
            index_pair(vendor_primary, device_primary),
            index_pair(vendor_fallback, device_fallback),
        ) {
            (Some(p), _) => r matches Some(ids) && ids.0@ == normalize_spec(read_value(p.0))
                && ids.1@ == normalize_spec(read_value(p.1)),
            (None, Some(f)) => r matches Some(ids) && ids.0@ == normalize_spec(read_value(f.0))
                && ids.1@ == normalize_spec(read_value(f.1)),
            (None, None) => r is None,
        }),
{
    let (vendor_read, device_read) = match (vendor_primary, device_primary) {
        (Some(v), Some(d)) => (v, d),
        _ => match (vendor_fallback, device_fallback) {
            (Some(v), Some(d)) => (v, d),
            _ => {
                return None;
            },
        },
    };
    let vendor = sysfs_value(vendor_read);
    let device = sysfs_value(device_read);
    Some((format_hex(vendor.as_str()), format_hex(device.as_str())))
}

/// The probed subsystem identity, from the first adapter index where both
/// subsystem files are readable, under the same two-index strategy; the
/// values are trimmed but not normalized — the orchestrator normalizes
/// them.
pub fn get_gpu_subsystem_ids(
    subvendor_primary: Option<&str>,
    subvendor_fallback: Option<&str>,
    subdevice_primary: Option<&str>,
    subdevice_fallback: Option<&str>,
) -> (r: Option<(String, String)>)
    ensures
        (match (
            index_pair(subvendor_primary, subdevice_primary),
            index_pair(subvendor_fallback, subdevice_fallback),
        ) {
            (Some(p), _) => r matches Some(ids) && ids.0@ == read_value(p.0) && ids.1@
                == read_value(p.1),
            (None, Some(f)) => r matches Some(ids) && ids.0@ == read_value(f.0) && ids.1@
                == read_value(f.1),
            (None, None) => r is None,
        }),
{
    let (subvendor_read, subdevice_read) = match (subvendor_primary, subdevice_primary) {
        (Some(v), Some(d)) => (v, d),
        _ => match (subvendor_fallback, subdevice_fallback) {
            (Some(v), Some(d)) => (v, d),
            _ => {
                return None;
            },
        },
    };
    Some((sysfs_value(subvendor_read), sysfs_value(subdevice_read)))
}

} // verus!
