//! The persistent GPU identity record: a three-field cache record with a
//! verified text codec. The record is written as three `key = "value"`
//! lines, value strings escaped in the usual backslash style, so a written
//! record always reads back as the identical triple.

use vstd::prelude::*;

use crate::text::{
    chars_to_string, copy_range, find_char, find_char_vec, is_space_char, push_char, split_lines,
    split_lines_vec, str_to_chars, strip_cr, trailing_spaces, trim_chars, trim_seq,
};

verus! {

/// The persisted GPU identity: the pretty adapter name from the slow
/// enumeration backend beside the normalized vendor and device ids it was
/// probed with.
pub struct Cache {
    pub gpu_name_pretty: String,
    pub gpu_vendor_id: String,
    pub gpu_device_id: String,
}

/// Control characters, which the record format never leaves raw in its
/// output.
pub open spec fn is_control_char(c: char) -> bool {
    (c as u32) < 0x20 || c as u32 == 0x7f
}

/// A control character that the codec cannot escape: anything beyond
/// newline, tab and carriage return.
pub open spec fn is_forbidden_char(c: char) -> bool {
    is_control_char(c) && c != '\n' && c != '\t' && c != '\r'
}

/// Whether `s` can be persisted: its control characters are limited to the
/// escapable newline, tab and carriage return.
pub open spec fn text_wf(s: Seq<char>) -> bool {
    forall|i: int| 0 <= i < s.len() ==> !is_forbidden_char(#[trigger] s[i])
}

/// Whether every field of the record can be persisted.
pub open spec fn cache_wf(c: &Cache) -> bool {
    text_wf(c.gpu_name_pretty@) && text_wf(c.gpu_vendor_id@) && text_wf(c.gpu_device_id@)
}

/// Decides `text_wf` executably.
pub fn text_wf_check(s: &str) -> (r: bool)
    ensures
        r == text_wf(s@),
{
    let cs = str_to_chars(s);
    let n = cs.len();
    let mut i: usize = 0;
    while i < n
        invariant
            0 <= i <= n,
            n == cs@.len(),
            cs@ == s@,
            forall|j: int| 0 <= j < i ==> !is_forbidden_char(#[trigger] s@[j]),
        decreases n - i,
    {
        let c = cs[i];
        let u = c as u32;
        if (u < 0x20 || u == 0x7f) && c != '\n' && c != '\t' && c != '\r' {
            return false;
        }
        i = i + 1;
    }
    true
}

/// Decides `cache_wf` executably.
pub fn cache_wf_check(c: &Cache) -> (r: bool)
    ensures
        r == cache_wf(c),
{
    text_wf_check(c.gpu_name_pretty.as_str()) && text_wf_check(c.gpu_vendor_id.as_str())
        && text_wf_check(c.gpu_device_id.as_str())
}

/// One character's escaped form: `"` and `\` get a backslash; newline,
/// tab and carriage return become `\n`, `\t` and `\r`; everything else
/// stands for itself.
pub open spec fn escape_char(c: char) -> Seq<char> {
    if c == '"' || c == '\\' {
        seq!['\\', c]
    } else if c == '\n' {
        seq!['\\', 'n']
    } else if c == '\t' {
        seq!['\\', 't']
    } else if c == '\r' {
        seq!['\\', 'r']
    } else {
        seq![c]
    }
}

/// A field value, escaped character-wise.
pub open spec fn escape_seq(s: Seq<char>) -> Seq<char>
    decreases s.len(),
{
    if s.len() == 0 {
        Seq::empty()
    } else {
        escape_char(s[0]) + escape_seq(s.drop_first())
    }
}

proof fn lemma_escape_push(s: Seq<char>, c: char)
    ensures
        escape_seq(s.push(c)) == escape_seq(s) + escape_char(c),
    decreases s.len(),
{
    let tail = escape_char(c);
    if s.len() == 0 {
        assert(s.push(c).drop_first() =~= Seq::<char>::empty());
        assert(escape_seq(Seq::<char>::empty()) =~= Seq::<char>::empty());
        assert(s.push(c)[0] == c);
        assert(escape_seq(s.push(c)) =~= tail);
        assert(escape_seq(s) + tail =~= tail);
    } else {
        assert(s.push(c).drop_first() =~= s.drop_first().push(c));
        lemma_escape_push(s.drop_first(), c);
        assert(s.push(c)[0] == s[0]);
        assert(escape_char(s[0]) + (escape_seq(s.drop_first()) + tail) =~= (escape_char(s[0])
            + escape_seq(s.drop_first())) + tail);
    }
}

/// Escapes a field value character-wise.
pub fn escape_vec(v: &Vec<char>) -> (r: Vec<char>)
    ensures
        r@ == escape_seq(v@),
{
    let n = v.len();
    let mut r: Vec<char> = Vec::new();
    proof {
        assert(v@.take(0) =~= Seq::<char>::empty());
    }
    let mut i: usize = 0;
    while i < n
        invariant
            0 <= i <= n,
            n == v@.len(),
            r@ == escape_seq(v@.take(i as int)),
        decreases n - i,
    {
        let c = v[i];
        proof {
            assert(v@.take(i + 1) =~= v@.take(i as int).push(c));
            lemma_escape_push(v@.take(i as int), c);
        }
        if c == '"' || c == '\\' {
            r.push('\\');
            r.push(c);
        } else if c == '\n' {
            r.push('\\');
            r.push('n');
        } else if c == '\t' {
            r.push('\\');
            r.push('t');
        } else if c == '\r' {
            r.push('\\');
            r.push('r');
        } else {
            r.push(c);
        }
        i = i + 1;
    }
    proof {
        assert(v@.take(n as int) =~= v@);
    }
    r
}

/// Reads an escaped value up to its closing quote: the decoded value and
/// what follows the quote; `None` when the quote is missing, an escape is
/// unknown, or a raw control character appears.
pub open spec fn unescape_prefix(s: Seq<char>) -> Option<(Seq<char>, Seq<char>)>
    decreases s.len(),
{
    if s.len() == 0 {
        None
    } else if s[0] == '"' {
        Some((Seq::empty(), s.skip(1)))
    } else if s[0] == '\\' {
        if s.len() < 2 {
            None
        } else if s[1] == '"' || s[1] == '\\' {
            match unescape_prefix(s.skip(2)) {
                None => None,
                Some(p) => Some((seq![s[1]] + p.0, p.1)),
            }
        } else if s[1] == 'n' || s[1] == 't' || s[1] == 'r' {
            let decoded = if s[1] == 'n' {
                '\n'
            } else if s[1] == 't' {
                '\t'
            } else {
                '\r'
            };
            match unescape_prefix(s.skip(2)) {
                None => None,
                Some(p) => Some((seq![decoded] + p.0, p.1)),
            }
        } else {
            None
        }
    } else if is_control_char(s[0]) {
        None
    } else {
        match unescape_prefix(s.skip(1)) {
            None => None,
            Some(p) => Some((seq![s[0]] + p.0, p.1)),
        }
    }
}

/// Decoding inverts encoding: an escaped value followed by its closing
/// quote reads back as the value itself.
pub proof fn lemma_unescape_escape(s: Seq<char>, rest: Seq<char>)
    requires
        text_wf(s),
    ensures
        unescape_prefix(escape_seq(s) + seq!['"'] + rest) == Some((s, rest)),
    decreases s.len(),
{
    let t = escape_seq(s) + seq!['"'] + rest;
    if s.len() == 0 {
        assert(t =~= seq!['"'] + rest);
        assert(t[0] == '"');
        assert(t.skip(1) =~= rest);
    } else {
        let s1 = s.drop_first();
        assert(text_wf(s1)) by {
            assert(forall|i: int| 0 <= i < s1.len() ==> s1[i] == s[i + 1]);
        }
        lemma_unescape_escape(s1, rest);
        let t1 = escape_seq(s1) + seq!['"'] + rest;
        if s[0] == '"' || s[0] == '\\' {
            assert(t[0] == '\\' && t[1] == s[0]);
            assert(t.skip(2) =~= t1);
            assert(seq![s[0]] + s1 =~= s);
        } else if s[0] == '\n' || s[0] == '\t' || s[0] == '\r' {
            assert(t[0] == '\\');
            assert(t[1] == 'n' || t[1] == 't' || t[1] == 'r');
            assert(t[1] != '"' && t[1] != '\\');
            assert(t.skip(2) =~= t1);
            assert(seq![s[0]] + s1 =~= s);
        } else {
            assert(t[0] == s[0]);
            assert(!is_forbidden_char(s[0]));
            assert(!is_control_char(t[0]));
            assert(t.skip(1) =~= t1);
            assert(seq![s[0]] + s1 =~= s);
        }
    }
}

proof fn lemma_escape_wf(s: Seq<char>)
    requires
        text_wf(s),
    ensures
        forall|i: int| 0 <= i < escape_seq(s).len() ==> !is_control_char(#[trigger] escape_seq(s)[i]),
    decreases s.len(),
{
    if s.len() > 0 {
        let s1 = s.drop_first();
        assert(text_wf(s1)) by {
            assert(forall|i: int| 0 <= i < s1.len() ==> s1[i] == s[i + 1]);
        }
        lemma_escape_wf(s1);
        let head = escape_char(s[0]);
        assert(!is_control_char('\\'));
        assert forall|i: int| 0 <= i < head.len() implies !is_control_char(head[i]) by {
            assert(!is_forbidden_char(s[0]));
        }
        assert forall|i: int| 0 <= i < escape_seq(s).len() implies !is_control_char(
            escape_seq(s)[i],
        ) by {
            if i < head.len() {
                assert(escape_seq(s)[i] == head[i]);
            } else {
                assert(escape_seq(s)[i] == escape_seq(s1)[i - head.len()]);
            }
        }
    }
}

/// The separator between a key and its opening quote.
pub open spec fn sep_seq() -> Seq<char> {
    " = \""@
}

/// One record line: `key = "value"`, the value escaped.
pub open spec fn kv_line(key: Seq<char>, value: Seq<char>) -> Seq<char> {
    key + sep_seq() + escape_seq(value) + "\""@
}

/// The full record text: one line per field, each `\n`-terminated.
pub open spec fn encode_cache_spec(name: Seq<char>, vendor: Seq<char>, device: Seq<char>) -> Seq<
    char,
> {
    kv_line("gpu_name_pretty"@, name).push('\n') + kv_line("gpu_vendor_id"@, vendor).push('\n')
        + kv_line("gpu_device_id"@, device).push('\n')
}

/// Appends one `key = "value"` line to `out`.
fn append_kv(out: &mut String, key: &str, value: &str)
    requires
        text_wf(value@),
    ensures
        final (out)@ == old(out)@ + kv_line(key@, value@).push('\n'),
{
    out.append(key);
    out.append(" = \"");
    let vchars = str_to_chars(value);
    let escaped = escape_vec(&vchars);
    let escaped_str = chars_to_string(&escaped);
    out.append(escaped_str.as_str());
    out.append("\"");
    push_char(out, '\n');
    proof {
        assert(out@ =~= old(out)@ + kv_line(key@, value@).push('\n'));
    }
}

/// Serializes a record to its three-line text form.
pub fn encode_cache(c: &Cache) -> (r: String)
    requires
        cache_wf(c),
    ensures
        r@ == encode_cache_spec(c.gpu_name_pretty@, c.gpu_vendor_id@, c.gpu_device_id@),
{
    let mut out = String::new();
    append_kv(&mut out, "gpu_name_pretty", c.gpu_name_pretty.as_str());
    append_kv(&mut out, "gpu_vendor_id", c.gpu_vendor_id.as_str());
    append_kv(&mut out, "gpu_device_id", c.gpu_device_id.as_str());
    proof {
        assert(out@ =~= encode_cache_spec(
            c.gpu_name_pretty@,
            c.gpu_vendor_id@,
            c.gpu_device_id@,
        ));
    }
    out
}

/// Whether a record line carries no assignment: blank, or a comment.
pub open spec fn skip_line(line: Seq<char>) -> bool {
    trim_seq(line).len() == 0 || trim_seq(line)[0] == '#'
}

/// Reads one `key = "value"` line: the trimmed key and the decoded value.
/// `None` when the line has no `=`, the value is not a well-formed quoted
/// string, or text follows the closing quote.
pub open spec fn parse_kv(line: Seq<char>) -> Option<(Seq<char>, Seq<char>)> {
    match find_char(line, '=') {
        None => None,
        Some(i) => {
            let key = trim_seq(line.take(i));
            let rest = trim_seq(line.skip(i + 1));
            if rest.len() >= 1 && rest[0] == '"' {
                match unescape_prefix(rest.skip(1)) {
                    None => None,
                    Some(p) => if p.1.len() == 0 {
                        Some((key, p.0))
                    } else {
                        None
                    },
                }
            } else {
                None
            }
        },
    }
}

/// Folds the record lines into the three fields. Each key must be one of
/// the record's own, and appear at most once; all three must be present by
/// the end.
pub open spec fn parse_lines(
    lines: Seq<Seq<char>>,
    acc: (Option<Seq<char>>, Option<Seq<char>>, Option<Seq<char>>),
) -> Option<(Seq<char>, Seq<char>, Seq<char>)>
    decreases lines.len(),
{
    if lines.len() == 0 {
        match acc {
            (Some(n), Some(v), Some(d)) => Some((n, v, d)),
            _ => None,
        }
    } else {
        let line = lines[0];
        if skip_line(line) {
            parse_lines(lines.drop_first(), acc)
        } else {
            match parse_kv(line) {
                None => None,
                Some(kv) => if kv.0 == "gpu_name_pretty"@ {
                    if acc.0 is Some {
                        None
                    } else {
                        parse_lines(lines.drop_first(), (Some(kv.1), acc.1, acc.2))
                    }
                } else if kv.0 == "gpu_vendor_id"@ {
                    if acc.1 is Some {
                        None
                    } else {
                        parse_lines(lines.drop_first(), (acc.0, Some(kv.1), acc.2))
                    }
                } else if kv.0 == "gpu_device_id"@ {
                    if acc.2 is Some {
                        None
                    } else {
                        parse_lines(lines.drop_first(), (acc.0, acc.1, Some(kv.1)))
                    }
                } else {
                    None
                },
            }
        }
    }
}

/// What a record text deserializes to, if anything: the three fields, in
/// declaration order.
pub open spec fn parse_cache_spec(s: Seq<char>) -> Option<(Seq<char>, Seq<char>, Seq<char>)> {
    parse_lines(split_lines(s), (None, None, None))
}

/// A `key = "value"` line built by the encoder parses back to its key and
/// its value, is no blank or comment line, and spans exactly one line.
proof fn lemma_kv_line_parse(key: Seq<char>, val: Seq<char>)
    requires
        key.len() >= 1,
        key[0] != '#',
        forall|j: int|
            0 <= j < key.len() ==> key[j] != '=' && key[j] != '\n' && !is_space_char(#[trigger] key[j]),
        text_wf(val),
    ensures
        parse_kv(kv_line(key, val)) == Some((key, val)),
        !skip_line(kv_line(key, val)),
        forall|j: int| 0 <= j < kv_line(key, val).len() ==> #[trigger] kv_line(key, val)[j] != '\n',
        strip_cr(kv_line(key, val)) == kv_line(key, val),
{
    reveal_strlit(" = \"");
    reveal_strlit("\"");
    let sep = sep_seq();
    let q = "\""@;
    assert(sep.len() == 4 && sep[0] == ' ' && sep[1] == '=' && sep[2] == ' ' && sep[3] == '"');
    assert(q.len() == 1 && q[0] == '"');
    lemma_escape_wf(val);
    let esc = escape_seq(val);
    let line = kv_line(key, val);
    let k = key.len() as int;
    assert(line.len() == k + 4 + esc.len() + 1);
    assert(line[line.len() - 1] == '"');
    assert('\n' as u32 == 0xa && '\r' as u32 == 0xd && !is_space_char('"'));
    // No newline anywhere on the line.
    assert forall|j: int| 0 <= j < line.len() implies #[trigger] line[j] != '\n' by {
        if j < k {
            assert(line[j] == key[j]);
        } else if j < k + 4 {
            assert(line[j] == sep[j - k]);
        } else if j < k + 4 + esc.len() {
            assert(line[j] == esc[j - k - 4]);
            assert(!is_control_char(esc[j - k - 4]));
        } else {
            assert(line[j] == q[j - k - 4 - esc.len()]);
        }
    }
    assert(strip_cr(line) == line);
    // The first `=` of the line is the one of the separator.
    assert(line[k + 1] == '=');
    assert forall|j: int| 0 <= j < k + 1 implies line[j] != '=' by {
        if j < k {
            assert(line[j] == key[j]);
        } else {
            assert(line[j] == sep[0]);
        }
    }
    crate::text::lemma_find_char(line, '=');
    let i = match find_char(line, '=') {
        None => {
            assert(false);
            0int
        },
        Some(i) => {
            if i < k + 1 {
                assert(line[i] != '=');
                assert(false);
            }
            if i > k + 1 {
                assert(false);
            }
            i
        },
    };
    // The key side trims back to the key itself.
    let key_part = line.take(i);
    assert(key_part =~= key + seq![' ']);
    crate::text::lemma_leading_spaces_is(key_part, 0);
    crate::text::lemma_trailing_spaces_is(key_part, 1);
    assert(trim_seq(key_part) =~= key);
    // The value side trims to the quoted escaped value.
    let rest_raw = line.skip(i + 1);
    assert(rest_raw =~= seq![' ', '"'] + esc + q);
    assert(!is_space_char(rest_raw[1]));
    crate::text::lemma_leading_spaces_is(rest_raw, 1);
    assert(!is_space_char(rest_raw[rest_raw.len() - 1]));
    crate::text::lemma_trailing_spaces_is(rest_raw, 0);
    let rest = trim_seq(rest_raw);
    assert(rest =~= seq!['"'] + esc + q);
    assert(rest[0] == '"');
    assert(rest.skip(1) =~= esc + seq!['"'] + Seq::<char>::empty());
    lemma_unescape_escape(val, Seq::<char>::empty());
    assert(parse_kv(line) == Some((key, val)));
    // The line is no blank or comment line.
    crate::text::lemma_leading_spaces_is(line, 0);
    crate::text::lemma_trailing_spaces_bounds(line);
    assert(trailing_spaces(line) == 0) by {
        if trailing_spaces(line) > 0 {
            assert(is_space_char(line[line.len() - 1]));
        }
    }
    assert(trim_seq(line) =~= line);
    assert(trim_seq(line)[0] == key[0]);
}

/// Writing a record and reading it back yields the identical triple: the
/// round-trip law of the cache codec, for every record whose fields are
/// free of control characters.
pub proof fn lemma_cache_round_trip(name: Seq<char>, vendor: Seq<char>, device: Seq<char>)
    requires
        text_wf(name),
        text_wf(vendor),
        text_wf(device),
    ensures
        parse_cache_spec(encode_cache_spec(name, vendor, device)) == Some(
            (name, vendor, device),
        ),
{
    reveal_strlit("gpu_name_pretty");
    reveal_strlit("gpu_vendor_id");
    reveal_strlit("gpu_device_id");
    let k1 = "gpu_name_pretty"@;
    let k2 = "gpu_vendor_id"@;
    let k3 = "gpu_device_id"@;
    assert(k1.len() == 15 && k2.len() == 13 && k3.len() == 13);
    assert(k1[0] == 'g' && k2[0] == 'g' && k3[0] == 'g');
    assert(k2[4] == 'v' && k3[4] == 'd');
    assert(k2 != k3);
    assert(forall|j: int|
        0 <= j < k1.len() ==> k1[j] != '=' && k1[j] != '\n' && !is_space_char(#[trigger] k1[j]));
    assert(forall|j: int|
        0 <= j < k2.len() ==> k2[j] != '=' && k2[j] != '\n' && !is_space_char(#[trigger] k2[j]));
    assert(forall|j: int|
        0 <= j < k3.len() ==> k3[j] != '=' && k3[j] != '\n' && !is_space_char(#[trigger] k3[j]));
    lemma_kv_line_parse(k1, name);
    lemma_kv_line_parse(k2, vendor);
    lemma_kv_line_parse(k3, device);
    let l1 = kv_line(k1, name);
    let l2 = kv_line(k2, vendor);
    let l3 = kv_line(k3, device);
    let e = encode_cache_spec(name, vendor, device);
    // The text splits into exactly the three encoded lines.
    let rest2 = l3 + seq!['\n'] + Seq::<char>::empty();
    let rest1 = l2 + seq!['\n'] + rest2;
    assert(e =~= l1 + seq!['\n'] + rest1);
    crate::text::lemma_split_lines_step(l1, rest1);
    crate::text::lemma_split_lines_step(l2, rest2);
    crate::text::lemma_split_lines_step(l3, Seq::<char>::empty());
    assert(split_lines(Seq::<char>::empty()) =~~= Seq::<Seq<char>>::empty());
    let lines = split_lines(e);
    assert(lines =~~= seq![l1, l2, l3]);
    // The fold fills the three fields in turn.
    let acc0 = (None::<Seq<char>>, None::<Seq<char>>, None::<Seq<char>>);
    let acc1 = (Some(name), None::<Seq<char>>, None::<Seq<char>>);
    let acc2 = (Some(name), Some(vendor), None::<Seq<char>>);
    let acc3 = (Some(name), Some(vendor), Some(device));
    assert(seq![l1, l2, l3].drop_first() =~~= seq![l2, l3]);
    assert(seq![l2, l3].drop_first() =~~= seq![l3]);
    assert(seq![l3].drop_first() =~~= Seq::<Seq<char>>::empty());
    assert(parse_lines(seq![l1, l2, l3], acc0) == parse_lines(seq![l2, l3], acc1));
    assert(parse_lines(seq![l2, l3], acc1) == parse_lines(seq![l3], acc2));
    assert(parse_lines(seq![l3], acc2) == parse_lines(Seq::<Seq<char>>::empty(), acc3));
    assert(parse_lines(Seq::<Seq<char>>::empty(), acc3) == Some((name, vendor, device)));
}

/// The view of an optional owned string.
pub open spec fn opt_view(o: Option<String>) -> Option<Seq<char>> {
    match o {
        None => None,
        Some(s) => Some(s@),
    }
}

/// Deserializes a record text. Exactly the texts that `parse_cache_spec`
/// accepts yield a record, with exactly its fields.
pub fn parse_cache(s: &str) -> (r: Option<Cache>)
    ensures
        match r {
            None => parse_cache_spec(s@) is None,
            Some(c) => parse_cache_spec(s@) == Some(
                (c.gpu_name_pretty@, c.gpu_vendor_id@, c.gpu_device_id@),
            ),
        },
{
    let cs = str_to_chars(s);
    let lines = split_lines_vec(&cs);
    let ghost all_lines = split_lines(s@);
    let mut name: Option<String> = None;
    let mut vendor: Option<String> = None;
    let mut device: Option<String> = None;
    let n = lines.len();
    let mut i: usize = 0;
    proof {
        assert(all_lines.skip(0) =~~= all_lines);
    }
    while i < n
        invariant
            0 <= i <= n,
            n == lines@.len(),
            lines.deep_view() == all_lines,
            parse_cache_spec(s@) == parse_lines(
                all_lines.skip(i as int),
                (opt_view(name), opt_view(vendor), opt_view(device)),
            ),
        decreases n - i,
    {
        let line = &lines[i];
        proof {
            assert(lines.deep_view()[i as int] == lines@[i as int]@);
            assert(all_lines.skip(i as int)[0] == all_lines[i as int]);
            assert(all_lines.skip(i as int).drop_first() =~~= all_lines.skip(i + 1));
        }
        let trimmed = trim_chars(line);
        if trimmed.len() == 0 || trimmed[0] == '#' {
            i = i + 1;
            continue ;
        }
        let eq_pos = match find_char_vec(line, '=') {
            None => {
                return None;
            },
            Some(p) => p,
        };
        proof {
            crate::text::lemma_find_char(line@, '=');
        }
        let m = line.len();
        let key_part = copy_range(line, 0, eq_pos);
        let key_trimmed = trim_chars(&key_part);
        let rest_part = copy_range(line, eq_pos + 1, m);
        let rest_trimmed = trim_chars(&rest_part);
        proof {
            assert(key_part@ =~= line@.take(eq_pos as int));
            assert(rest_part@ =~= line@.skip(eq_pos + 1));
        }
        if rest_trimmed.len() == 0 {
            return None;
        }
        if rest_trimmed[0] != '"' {
            return None;
        }
        let value = match unescape_exact(&rest_trimmed) {
            None => {
                return None;
            },
            Some(v) => v,
        };
        let key_str = chars_to_string(&key_trimmed);
        let value_str = chars_to_string(&value);
        let name_key = String::from_str("gpu_name_pretty");
        let vendor_key = String::from_str("gpu_vendor_id");
        let device_key = String::from_str("gpu_device_id");
        if key_str == name_key {
            if name.is_some() {
                return None;
            }
            name = Some(value_str);
        } else if key_str == vendor_key {
            if vendor.is_some() {
                return None;
            }
            vendor = Some(value_str);
        } else if key_str == device_key {
            if device.is_some() {
                return None;
            }
            device = Some(value_str);
        } else {
            return None;
        }
        i = i + 1;
    }
    proof {
        assert(all_lines.skip(n as int) =~~= Seq::<Seq<char>>::empty());
    }
    match (name, vendor, device) {
        (Some(n_v), Some(v_v), Some(d_v)) => Some(
            Cache { gpu_name_pretty: n_v, gpu_vendor_id: v_v, gpu_device_id: d_v },
        ),
        _ => None,
    }
}

/// Builds the record that a cache regeneration writes, out of what the
/// slow enumeration backend and the hardware probe returned: a missing
/// value becomes the empty string.
pub fn get_default_values(
    gpu_name_pretty: Option<String>,
    gpu_ids: Option<(String, String)>,
) -> (r: Cache)
    ensures
        r.gpu_name_pretty@ == (match gpu_name_pretty {
            Some(n) => n@,
            None => Seq::<char>::empty(),
        }),
        (match gpu_ids {
            Some(ids) => r.gpu_vendor_id@ == ids.0@ && r.gpu_device_id@ == ids.1@,
            None => r.gpu_vendor_id@ == Seq::<char>::empty() && r.gpu_device_id@
                == Seq::<char>::empty(),
        }),
{
    let gpu_name = match gpu_name_pretty {
        Some(gpu) => gpu,
        None => String::new(),
    };
    let (gpu_vendor, gpu_device) = match gpu_ids {
        Some(ids) => ids,
        None => (String::new(), String::new()),
    };
    Cache { gpu_name_pretty: gpu_name, gpu_vendor_id: gpu_vendor, gpu_device_id: gpu_device }
}

/// Relies on `dirs::cache_dir`: the platform's per-user cache directory,
/// which depends on the environment; `None` when it cannot be determined.
/// The path is handed on as a string, `None` also when it is not valid
/// UTF-8.
#[verifier::external_body]
fn platform_cache_dir() -> (r: Option<String>) {
    dirs::cache_dir().and_then(|p| p.into_os_string().into_string().ok())
}

/// The cache file path under `base`: `rustfetch/cache.toml` inside it, or
/// plain `cache.toml` in the working directory when no base is known.
pub fn cache_path_for(base: Option<String>) -> (r: String)
    ensures
        r@ == (match base {
            Some(b) => b@ + "/rustfetch/cache.toml"@,
            None => "cache.toml"@,
        }),
{
    match base {
        None => String::from_str("cache.toml"),
        Some(b) => {
            let mut p = b;
            p.append("/rustfetch/cache.toml");
            p
        },
    }
}

/// The cache file location: `rustfetch/cache.toml` under the platform's
/// cache directory, with the working directory as fallback.
pub fn get_cache_path() -> (r: String)
    ensures
        r@ == "cache.toml"@ || (exists|b: Seq<char>| r@ == b + "/rustfetch/cache.toml"@),
{
    let base = platform_cache_dir();
    let ghost base_view = base;
    let r = cache_path_for(base);
    proof {
        if base_view is Some {
            let b = base_view->0@;
            assert(r@ == b + "/rustfetch/cache.toml"@);
        }
    }
    r
}

/// Decodes a quoted value that must use the whole of `rest` after its
/// opening quote: `rest[0]` is the opening quote, the closing quote must be
/// the final character.
fn unescape_exact(rest: &Vec<char>) -> (r: Option<Vec<char>>)
    requires
        rest@.len() >= 1,
        rest@[0] == '"',
    ensures
        match r {
            Some(v) => unescape_prefix(rest@.skip(1)) == Some((v@, Seq::<char>::empty())),
            None => match unescape_prefix(rest@.skip(1)) {
                None => true,
                Some(p) => p.1.len() != 0,
            },
        },
{
    let n = rest.len();
    let mut out: Vec<char> = Vec::new();
    let mut i: usize = 1;
    while i < n
        invariant
            1 <= i <= n,
            n == rest@.len(),
            unescape_prefix(rest@.skip(1)) == (match unescape_prefix(rest@.skip(i as int)) {
                None => None::<(Seq<char>, Seq<char>)>,
                Some(p) => Some((out@ + p.0, p.1)),
            }),
        decreases n - i,
    {
        let ghost si = rest@.skip(i as int);
        proof {
            assert(si[0] == rest@[i as int]);
        }
        let c = rest[i];
        if c == '"' {
            proof {
                assert(si.skip(1) =~= rest@.skip(i + 1));
            }
            if i + 1 == n {
                proof {
                    assert(rest@.skip(i + 1) =~= Seq::<char>::empty());
                    assert(out@ + Seq::<char>::empty() =~= out@);
                }
                return Some(out);
            } else {
                proof {
                    assert(rest@.skip(i + 1).len() > 0);
                }
                return None;
            }
        } else if c == '\\' {
            if i + 1 >= n {
                return None;
            }
            let c2 = rest[i + 1];
            proof {
                assert(si[1] == rest@[i + 1]);
            }
            if c2 == '"' || c2 == '\\' {
                proof {
                    assert(si.skip(2) =~= rest@.skip(i + 2));
                    assert forall|p0: Seq<char>| out@ + (seq![c2] + p0) =~= (out@.push(c2))
                        + p0 by {}
                }
                out.push(c2);
                i = i + 2;
            } else if c2 == 'n' || c2 == 't' || c2 == 'r' {
                let decoded = if c2 == 'n' {
                    '\n'
                } else if c2 == 't' {
                    '\t'
                } else {
                    '\r'
                };
                proof {
                    assert(si.skip(2) =~= rest@.skip(i + 2));
                    assert forall|p0: Seq<char>| out@ + (seq![decoded] + p0) =~= (
                    out@.push(decoded)) + p0 by {}
                }
                out.push(decoded);
                i = i + 2;
            } else {
                return None;
            }
        } else {
            let u = c as u32;
            if u < 0x20 || u == 0x7f {
                return None;
            }
            proof {
                assert(!is_control_char(si[0]));
                assert(si.skip(1) =~= rest@.skip(i + 1));
                assert forall|p0: Seq<char>| out@ + (seq![c] + p0) =~= (out@.push(c)) + p0 by {}
            }
            out.push(c);
            i = i + 1;
        }
    }
    proof {
        assert(rest@.skip(n as int) =~= Seq::<char>::empty());
    }
    None
}

} // verus!
