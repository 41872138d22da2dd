//! The ID database lookup: a line-oriented scan of the hierarchical
//! vendor / device / subsystem text database. Match state is strictly
//! hierarchical: every vendor header re-evaluates the vendor match and
//! unconditionally resets the device match, so a device match can never
//! leak from one vendor block into a later one.

use vstd::prelude::*;

use crate::text::{
    chars_to_string, copy_range, eq_ignore_ascii_case, eq_ignore_case_vec, find_sub, find_sub_vec,
    first_token, first_token_vec, push_all, second_token, second_token_vec, split_lines,
    split_lines_vec, splitn3_rest, splitn3_rest_vec, str_to_chars, trim_chars, trim_seq,
};

verus! {

/// One GPU adapter, named by its normalized vendor and device ids.
pub struct DeviceIdentity {
    pub vendor_id: String,
    pub device_id: String,
}

/// The board-variant ids that disambiguate otherwise-identical devices;
/// absent on platforms that expose no subsystem files.
pub struct SubsystemIdentity {
    pub subvendor_id: String,
    pub subdevice_id: String,
}

/// The view of an optional subsystem identity: the pair of id views.
pub open spec fn sub_view(s: Option<&SubsystemIdentity>) -> Option<(Seq<char>, Seq<char>)> {
    match s {
        None => None,
        Some(ids) => Some((ids.subvendor_id@, ids.subdevice_id@)),
    }
}

/// A database line that carries nothing: a comment or blank line.
pub open spec fn skip_line_db(l: Seq<char>) -> bool {
    (l.len() >= 1 && l[0] == '#') || trim_seq(l).len() == 0
}

/// A level-0 line: a vendor header, with no leading whitespace.
pub open spec fn is_vendor_line(l: Seq<char>) -> bool {
    !(l.len() >= 1 && (l[0] == '\t' || l[0] == ' '))
}

/// A level-1 line: a device header, one leading tab.
pub open spec fn is_device_line(l: Seq<char>) -> bool {
    l.len() >= 1 && l[0] == '\t' && !(l.len() >= 2 && l[1] == '\t')
}

/// A level-2 line: a subsystem entry, two leading tabs.
pub open spec fn is_subsys_line(l: Seq<char>) -> bool {
    l.len() >= 2 && l[0] == '\t' && l[1] == '\t'
}

/// The name on a header line: what follows the first double space, trimmed;
/// `None` on a malformed header without one.
pub open spec fn double_space_name(l: Seq<char>) -> Option<Seq<char>> {
    match find_sub(l, seq![' ', ' ']) {
        None => None,
        Some(i) => Some(trim_seq(l.skip(i + 2))),
    }
}

/// What one database line does to the scan.
pub enum ScanStep {
    /// The scan goes on, with the vendor and device names matched so far.
    Continue(Option<Seq<char>>, Option<Seq<char>>),
    /// A subsystem entry of the highest specificity: its name is the result.
    Found(Seq<char>),
    /// A malformed line at a match point stops the whole lookup.
    Abort,
}

/// One step of the scan: how the line `l` transforms the match state
/// `(stv, std_)` when resolving `(vid, did)` with optional subsystem `sub`.
pub open spec fn scan_line(
    stv: Option<Seq<char>>,
    std_: Option<Seq<char>>,
    l: Seq<char>,
    vid: Seq<char>,
    did: Seq<char>,
    sub: Option<(Seq<char>, Seq<char>)>,
) -> ScanStep {
    if skip_line_db(l) {
        ScanStep::Continue(stv, std_)
    } else if is_vendor_line(l) {
        // A vendor header always resets the device match, and re-evaluates
        // the vendor match against its leading token.
        let tok = first_token(l);
        if tok.len() > 0 {
            if eq_ignore_ascii_case(tok, vid) {
                match double_space_name(l) {
                    None => ScanStep::Abort,
                    Some(nm) => ScanStep::Continue(Some(nm), None),
                }
            } else {
                ScanStep::Continue(None, None)
            }
        } else {
            ScanStep::Continue(stv, None)
        }
    } else if stv is Some && is_device_line(l) {
        let tok = first_token(l);
        if tok.len() > 0 {
            if eq_ignore_ascii_case(tok, did) {
                match double_space_name(l) {
                    None => ScanStep::Abort,
                    Some(nm) => ScanStep::Continue(stv, Some(nm)),
                }
            } else {
                ScanStep::Continue(stv, None)
            }
        } else {
            ScanStep::Continue(stv, std_)
        }
    } else if stv is Some && std_ is Some && is_subsys_line(l) {
        match sub {
            None => ScanStep::Continue(stv, std_),
            Some(ids) => {
                let t = trim_seq(l);
                let t1 = first_token(t);
                let t2 = second_token(t);
                if t1.len() == 0 || t2.len() == 0 {
                    ScanStep::Abort
                } else if eq_ignore_ascii_case(t1, ids.0) && eq_ignore_ascii_case(t2, ids.1) {
                    match splitn3_rest(t) {
                        None => ScanStep::Abort,
                        Some(r3) => {
                            let nm = trim_seq(r3);
                            if nm.len() > 0 {
                                ScanStep::Found(nm)
                            } else {
                                ScanStep::Continue(stv, std_)
                            }
                        },
                    }
                } else {
                    ScanStep::Continue(stv, std_)
                }
            },
        }
    } else {
        ScanStep::Continue(stv, std_)
    }
}

/// The scan over the remaining lines: a subsystem match short-circuits with
/// its name; at end of file a matched vendor and device yield
/// `"<vendor name> <device name>"`, anything less is a failed lookup.
pub open spec fn scan_lines(
    lines: Seq<Seq<char>>,
    vid: Seq<char>,
    did: Seq<char>,
    sub: Option<(Seq<char>, Seq<char>)>,
    stv: Option<Seq<char>>,
    std_: Option<Seq<char>>,
) -> Option<Seq<char>>
    decreases lines.len(),
{
    if lines.len() == 0 {
        match (stv, std_) {
            (Some(v), Some(d)) => Some(v + seq![' '] + d),
            _ => None,
        }
    } else {
        match scan_line(stv, std_, lines[0], vid, did, sub) {
            ScanStep::Found(nm) => Some(nm),
            ScanStep::Abort => None,
            ScanStep::Continue(v2, d2) => scan_lines(lines.drop_first(), vid, did, sub, v2, d2),
        }
    }
}

/// What the database lookup returns on the full text `db`.
pub open spec fn lookup_spec(
    db: Seq<char>,
    vid: Seq<char>,
    did: Seq<char>,
    sub: Option<(Seq<char>, Seq<char>)>,
) -> Option<Seq<char>> {
    scan_lines(split_lines(db), vid, did, sub, None, None)
}

/// The view of an optional character vector.
pub open spec fn ov(o: Option<Vec<char>>) -> Option<Seq<char>> {
    match o {
        None => None,
        Some(v) => Some(v@),
    }
}

/// Resolves `target` (with optional `subsystem`) against the database text
/// `db`: exactly what `lookup_spec` yields — a first-in-file subsystem
/// match short-circuits, else a vendor and device match standing at end of
/// file yields `"<vendor name> <device name>"`, else the lookup fails.
pub fn lookup(db: &str, target: &DeviceIdentity, subsystem: Option<&SubsystemIdentity>) -> (r:
    Option<String>)
    ensures
        match r {
            None => lookup_spec(db@, target.vendor_id@, target.device_id@, sub_view(subsystem))
                is None,
            Some(nm) => lookup_spec(db@, target.vendor_id@, target.device_id@, sub_view(subsystem))
                == Some(nm@),
        },
{
    let cs = str_to_chars(db);
    let lines = split_lines_vec(&cs);
    let ghost all = split_lines(db@);
    let vid = str_to_chars(target.vendor_id.as_str());
    let did = str_to_chars(target.device_id.as_str());
    let sub_ids: Option<(Vec<char>, Vec<char>)> = match subsystem {
        None => None,
        Some(s) => Some(
            (str_to_chars(s.subvendor_id.as_str()), str_to_chars(s.subdevice_id.as_str())),
        ),
    };
    let ghost subv = sub_view(subsystem);
    let mut cur_vendor: Option<Vec<char>> = None;
    let mut cur_device: Option<Vec<char>> = None;
    let n = lines.len();
    let mut i: usize = 0;
    proof {
        assert(all.skip(0) =~~= all);
    }
    while i < n
        invariant
            0 <= i <= n,
            n == lines@.len(),
            lines.deep_view() == all,
            vid@ == target.vendor_id@,
            did@ == target.device_id@,
            subv == sub_view(subsystem),
            subv == (match sub_ids {
                None => None::<(Seq<char>, Seq<char>)>,
                Some(p) => Some((p.0@, p.1@)),
            }),
            lookup_spec(db@, target.vendor_id@, target.device_id@, subv) == scan_lines(
                all.skip(i as int),
                vid@,
                did@,
                subv,
                ov(cur_vendor),
                ov(cur_device),
            ),
        decreases n - i,
    {
        let line = &lines[i];
        let ghost l = all[i as int];
        let ghost stv = ov(cur_vendor);
        let ghost std_ = ov(cur_device);
        let ghost step = scan_line(stv, std_, l, vid@, did@, subv);
        proof {
            assert(lines.deep_view()[i as int] == lines@[i as int]@);
            assert(all.skip(i as int)[0] == l);
            assert(all.skip(i as int).drop_first() =~~= all.skip(i + 1));
        }
        let trimmed = trim_chars(line);
        let is_skip = (line.len() >= 1 && line[0] == '#') || trimmed.len() == 0;
        if is_skip {
            i = i + 1;
            continue ;
        }
        let is_vendor = !(line.len() >= 1 && (line[0] == '\t' || line[0] == ' '));
        let is_device = line.len() >= 1 && line[0] == '\t' && !(line.len() >= 2 && line[1]
            == '\t');
        let is_subsys = line.len() >= 2 && line[0] == '\t' && line[1] == '\t';
        if is_vendor {
            cur_device = None;
            let tok = first_token_vec(line);
            if tok.len() > 0 {
                if eq_ignore_case_vec(&tok, &vid) {
                    let mut two_sp: Vec<char> = Vec::new();
                    two_sp.push(' ');
                    two_sp.push(' ');
                    proof {
                        assert(two_sp@ =~= seq![' ', ' ']);
                    }
                    match find_sub_vec(line, &two_sp) {
                        None => {
                            proof {
                                assert(step is Abort);
                            }
                            return None;
                        },
                        Some(p) => {
                            proof {
                                crate::text::lemma_find_sub(line@, two_sp@);
                            }
                            let m = line.len();
                            let name_part = copy_range(line, p + 2, m);
                            proof {
                                assert(name_part@ =~= l.skip(p + 2));
                            }
                            let nm = trim_chars(&name_part);
                            cur_vendor = Some(nm);
                        },
                    }
                } else {
                    cur_vendor = None;
                }
            }
        } else if cur_vendor.is_some() && is_device {
            let tok = first_token_vec(line);
            if tok.len() > 0 {
                if eq_ignore_case_vec(&tok, &did) {
                    let mut two_sp: Vec<char> = Vec::new();
                    two_sp.push(' ');
                    two_sp.push(' ');
                    proof {
                        assert(two_sp@ =~= seq![' ', ' ']);
                    }
                    match find_sub_vec(line, &two_sp) {
                        None => {
                            proof {
                                assert(step is Abort);
                            }
                            return None;
                        },
                        Some(p) => {
                            proof {
                                crate::text::lemma_find_sub(line@, two_sp@);
                            }
                            let m = line.len();
                            let name_part = copy_range(line, p + 2, m);
                            proof {
                                assert(name_part@ =~= l.skip(p + 2));
                            }
                            let nm = trim_chars(&name_part);
                            cur_device = Some(nm);
                        },
                    }
                } else {
                    cur_device = None;
                }
            }
        } else if cur_vendor.is_some() && cur_device.is_some() && is_subsys {
            match &sub_ids {
                None => {},
                Some(ids) => {
                    let t1 = first_token_vec(&trimmed);
                    let t2 = second_token_vec(&trimmed);
                    if t1.len() == 0 || t2.len() == 0 {
                        proof {
                            assert(step is Abort);
                        }
                        return None;
                    }
                    if eq_ignore_case_vec(&t1, &ids.0) && eq_ignore_case_vec(&t2, &ids.1) {
                        match splitn3_rest_vec(&trimmed) {
                            None => {
                                proof {
                                    assert(step is Abort);
                                }
                                return None;
                            },
                            Some(r3) => {
                                let nm = trim_chars(&r3);
                                if nm.len() > 0 {
                                    proof {
                                        assert(step == ScanStep::Found(nm@));
                                    }
                                    return Some(chars_to_string(&nm));
                                }
                            },
                        }
                    }
                },
            }
        }
        i = i + 1;
    }
    proof {
        assert(all.skip(n as int) =~~= Seq::<Seq<char>>::empty());
    }
    let ghost fv = ov(cur_vendor);
    let ghost fd = ov(cur_device);
    match (cur_vendor, cur_device) {
        (Some(v), Some(d)) => {
            let mut out = v;
            out.push(' ');
            push_all(&mut out, &d);
            proof {
                assert(out@ =~= fv->0 + seq![' '] + fd->0);
            }
            Some(chars_to_string(&out))
        },
        _ => None,
    }
}

/// The hierarchical reset law: a vendor header never carries a device
/// match past itself — whatever the state before it, after the header the
/// device match is clear, so a device matched under an earlier vendor can
/// not combine with a later vendor block.
pub proof fn lemma_vendor_line_resets_device(
    stv: Option<Seq<char>>,
    std_: Option<Seq<char>>,
    l: Seq<char>,
    vid: Seq<char>,
    did: Seq<char>,
    sub: Option<(Seq<char>, Seq<char>)>,
)
    requires
        !skip_line_db(l),
        is_vendor_line(l),
    ensures
        match scan_line(stv, std_, l, vid, did, sub) {
            ScanStep::Continue(_, d2) => d2 is None,
            ScanStep::Found(_) => false,
            ScanStep::Abort => true,
        },
{
    // A non-blank line has a first token: were the token empty, the line
    // would hold nothing but whitespace and so be a blank line.
    crate::text::lemma_leading_spaces_bounds(l);
    let a = crate::text::leading_spaces(l);
    if first_token(l).len() == 0 {
        if a < l.len() {
            assert(l.skip(a).len() > 0);
            assert(l.skip(a)[0] == l[a]);
            assert(!crate::text::is_space_char(l[a]));
            crate::text::lemma_non_space_prefix_bounds(l.skip(a).drop_first());
            assert(crate::text::non_space_prefix(l.skip(a)) >= 1);
            assert(false);
        } else {
            crate::text::lemma_trailing_spaces_bounds(l);
            assert(trim_seq(l).len() == 0);
            assert(false);
        }
    }
}

} // verus!
