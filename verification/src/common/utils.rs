//! Pure helpers shared across all platforms: the hexadecimal identifier
//! normaliser and the GPU / CPU model-name cleanup functions.

use vstd::prelude::*;

use crate::text::{
    chars_to_string, copy_range, find_char, find_char_vec, find_sub, find_sub_vec, lower_char,
    lower_seq, rfind_char, rfind_char_vec, str_to_chars, to_lower, trim_chars, trim_seq,
};

verus! {

/// `s` without every leading case-insensitive `0x` prefix.
pub open spec fn strip_hex_prefix(s: Seq<char>) -> Seq<char>
    decreases s.len(),
{
    if s.len() >= 2 && s[0] == '0' && (s[1] == 'x' || s[1] == 'X') {
        strip_hex_prefix(s.skip(2))
    } else {
        s
    }
}

/// The canonical form of a hexadecimal identifier: the radix prefix
/// stripped, the rest lower-cased.
pub open spec fn normalize_spec(s: Seq<char>) -> Seq<char> {
    lower_seq(strip_hex_prefix(s))
}

/// Whether `s` already is in canonical form.
pub open spec fn is_normalized(s: Seq<char>) -> bool {
    normalize_spec(s) == s
}

/// Normalizes a hexadecimal identifier: strips a leading case-insensitive
/// `0x` radix prefix and lower-cases the remainder, so that `"0xF89"`
/// becomes `"f89"`.
pub fn format_hex(id: &str) -> (r: String)
    ensures
        r@ == normalize_spec(id@),
        is_normalized(r@),
{
    proof {
        lemma_normalize_idempotent(id@);
    }
    let s = str_to_chars(id);
    let n = s.len();
    let mut i: usize = 0;
    proof {
        assert(s@.skip(0) =~= s@);
    }
    while n - i >= 2 && s[i] == '0' && (s[i + 1] == 'x' || s[i + 1] == 'X')
        invariant
            0 <= i <= n,
            n == s@.len(),
            strip_hex_prefix(s@) == strip_hex_prefix(s@.skip(i as int)),
        decreases n - i,
    {
        proof {
            let t = s@.skip(i as int);
            assert(t[0] == s@[i as int] && t[1] == s@[i + 1]);
            assert(t.skip(2) =~= s@.skip(i + 2));
        }
        i = i + 2;
    }
    proof {
        let t = s@.skip(i as int);
        assert(!(t.len() >= 2 && t[0] == '0' && (t[1] == 'x' || t[1] == 'X'))) by {
            if t.len() >= 2 {
                assert(t[0] == s@[i as int] && t[1] == s@[i + 1]);
            }
        }
        assert(strip_hex_prefix(s@) == t);
    }
    let mut out: Vec<char> = Vec::new();
    let mut j: usize = i;
    while j < n
        invariant
            i <= j <= n,
            n == s@.len(),
            out@ == lower_seq(s@.skip(i as int).take(j - i)),
        decreases n - j,
    {
        proof {
            let t = s@.skip(i as int);
            assert(t.take(j + 1 - i) =~= t.take(j - i).push(s@[j as int]));
            assert(lower_seq(t.take(j - i).push(s@[j as int])) =~= lower_seq(
                t.take(j - i),
            ).push(lower_char(s@[j as int])));
        }
        out.push(to_lower(s[j]));
        j = j + 1;
    }
    proof {
        assert(s@.skip(i as int).take(n - i) =~= s@.skip(i as int));
    }
    chars_to_string(&out)
}

proof fn lemma_lower_char_val(c: char)
    ensures
        0x41 <= c as u32 <= 0x5a ==> lower_char(c) as u32 == c as u32 + 0x20,
        !(0x41 <= c as u32 <= 0x5a) ==> lower_char(c) == c,
{
    if 0x41 <= c as u32 && c as u32 <= 0x5a {
        let b = c as u8;
        assert(b as u32 == c as u32);
        assert(((b + 0x20) as char) as u32 == b as u32 + 0x20);
    }
}

proof fn lemma_lower_char_idempotent(c: char)
    ensures
        lower_char(lower_char(c)) == lower_char(c),
{
    lemma_lower_char_val(c);
    lemma_lower_char_val(lower_char(c));
}

proof fn lemma_lower_seq_idempotent(s: Seq<char>)
    ensures
        lower_seq(lower_seq(s)) == lower_seq(s),
{
    assert forall|i: int| 0 <= i < s.len() implies lower_seq(lower_seq(s))[i] == lower_seq(
        s,
    )[i] by {
        lemma_lower_char_idempotent(s[i]);
    }
    assert(lower_seq(lower_seq(s)) =~= lower_seq(s));
}

/// Normalization is idempotent: applying it to an already-normalized
/// identifier changes nothing, so canonical forms are fixed points.
pub proof fn lemma_normalize_idempotent(s: Seq<char>)
    ensures
        normalize_spec(normalize_spec(s)) == normalize_spec(s),
        is_normalized(normalize_spec(s)),
{
    let t = strip_hex_prefix(s);
    lemma_strip_hex_prefix_fixpoint(s);
    let u = lower_seq(t);
    assert(strip_hex_prefix(u) == u) by {
        if u.len() >= 2 && u[0] == '0' && (u[1] == 'x' || u[1] == 'X') {
            assert(u[0] == lower_char(t[0]) && u[1] == lower_char(t[1]));
            lemma_lower_char_val(t[0]);
            lemma_lower_char_val(t[1]);
            assert(t[0] == '0');
            if u[1] == 'x' {
                assert(lower_char(t[1]) as u32 == 0x78);
                if 0x41 <= t[1] as u32 <= 0x5a {
                    assert(t[1] as u32 == 0x58);
                    vstd::utf8::char_u32_cast(t[1], 0x58);
                    vstd::utf8::char_u32_cast('X', 0x58);
                    assert(t[1] == 'X');
                } else {
                    assert(t[1] == 'x');
                }
            } else {
                assert(lower_char(t[1]) as u32 == 0x58);
                if 0x41 <= t[1] as u32 <= 0x5a {
                    assert(t[1] as u32 == 0x38);
                    assert(false);
                } else {
                    assert(t[1] == 'X');
                }
            }
            // `t` itself would then carry a radix prefix, though it is a
            // fixed point of the stripping: impossible.
            lemma_strip_hex_prefix_len(t.skip(2));
            assert(false);
        }
    }
    lemma_lower_seq_idempotent(t);
}

proof fn lemma_strip_hex_prefix_len(s: Seq<char>)
    ensures
        strip_hex_prefix(s).len() <= s.len(),
    decreases s.len(),
{
    if s.len() >= 2 && s[0] == '0' && (s[1] == 'x' || s[1] == 'X') {
        lemma_strip_hex_prefix_len(s.skip(2));
    }
}

proof fn lemma_strip_hex_prefix_fixpoint(s: Seq<char>)
    ensures
        strip_hex_prefix(strip_hex_prefix(s)) == strip_hex_prefix(s),
    decreases s.len(),
{
    if s.len() >= 2 && s[0] == '0' && (s[1] == 'x' || s[1] == 'X') {
        lemma_strip_hex_prefix_fixpoint(s.skip(2));
    }
}

/// What remains of a GPU model name after cutting it at the first opening
/// parenthesis, driver remarks and all.
pub open spec fn strip_gpu_name_spec(s: Seq<char>) -> Seq<char> {
    match find_char(s, '(') {
        None => s,
        Some(i) => s.take(i),
    }
}

/// Truncates an adapter name such as `"AMD Radeon RX 580 (RADV POLARIS)"`
/// at the first opening parenthesis, leaving `"AMD Radeon RX 580 "`.
pub fn strip_gpu_name(gpu_name: &str) -> (r: String)
    ensures
        r@ == strip_gpu_name_spec(gpu_name@),
{
    let s = str_to_chars(gpu_name);
    match find_char_vec(&s, '(') {
        None => chars_to_string(&s),
        Some(i) => {
            proof {
                crate::text::lemma_find_char(s@, '(');
                assert(s@.subrange(0, i as int) =~= s@.take(i as int));
            }
            let t = copy_range(&s, 0, i);
            chars_to_string(&t)
        },
    }
}

/// Distils the content of a single-line file, handed in as `Some` when the
/// file was readable: the content is trimmed, and an unreadable file or one
/// holding only whitespace is an error.
pub fn get_trimmed(content: Option<&str>) -> (r: Result<String, String>)
    ensures
        match content {
            Some(c) => ({
                let t = trim_seq(c@);
                if t.len() > 0 {
                    r matches Ok(s) && s@ == t
                } else {
                    r matches Err(m) && m@ == "File content is empty"@
                }
            }),
            None => r matches Err(m) && m@ == "Failed to read file"@,
        },
{
    match content {
        None => Err(String::from_str("Failed to read file")),
        Some(c) => {
            let cs = str_to_chars(c);
            let t = trim_chars(&cs);
            if t.len() == 0 {
                Err(String::from_str("File content is empty"))
            } else {
                Ok(chars_to_string(&t))
            }
        },
    }
}

/// The value that a key/separator query extracts from file content: on the
/// first line holding `key` as a substring and a `sep` occurrence, what
/// follows the first `sep` — trimmed, except that a value quoted after
/// trimming is returned as the untrimmed text minus its first and last
/// character; `"Null"` when no line matches.
pub open spec fn kv_value_spec(lines: Seq<Seq<char>>, key: Seq<char>, sep: Seq<char>) -> Seq<char>
    decreases lines.len(),
{
    if lines.len() == 0 {
        "Null"@
    } else {
        let l = lines[0];
        if find_sub(l, key) is Some {
            match find_sub(l, sep) {
                Some(i) => {
                    let value = l.skip(i + sep.len());
                    let trimmed = trim_seq(value);
                    if trimmed.len() > 1 && trimmed[0] == '"' && trimmed[trimmed.len() - 1] == '"' {
                        value.subrange(1, value.len() - 1)
                    } else {
                        trimmed
                    }
                },
                None => kv_value_spec(lines.drop_first(), key, sep),
            }
        } else {
            kv_value_spec(lines.drop_first(), key, sep)
        }
    }
}

/// Extracts a value from key/separator file content, such as the
/// `PRETTY_NAME` of an `os-release` file: the first line holding `key`
/// yields what follows the first `separator` on it, trimmed and unquoted;
/// `"Null"` when no line has both.
pub fn get_value_from_file(content: &str, key: &str, separator: &str) -> (r: String)
    ensures
        r@ == kv_value_spec(crate::text::split_lines(content@), key@, separator@),
{
    let cs = str_to_chars(content);
    let lines = crate::text::split_lines_vec(&cs);
    let ghost all = crate::text::split_lines(content@);
    let key_cs = str_to_chars(key);
    let sep_cs = str_to_chars(separator);
    let n = lines.len();
    let mut i: usize = 0;
    proof {
        assert(all.skip(0) =~~= all);
    }
    while i < n
        invariant
            0 <= i <= n,
            n == lines@.len(),
            lines.deep_view() == all,
            all == crate::text::split_lines(content@),
            key_cs@ == key@,
            sep_cs@ == separator@,
            kv_value_spec(all, key@, separator@) == kv_value_spec(
                all.skip(i as int),
                key@,
                separator@,
            ),
        decreases n - i,
    {
        let line = &lines[i];
        proof {
            assert(lines.deep_view()[i as int] == lines@[i as int]@);
            assert(all.skip(i as int)[0] == all[i as int]);
            assert(all.skip(i as int).drop_first() =~~= all.skip(i + 1));
        }
        if find_sub_vec(line, &key_cs).is_some() {
            if let Some(p) = find_sub_vec(line, &sep_cs) {
                proof {
                    crate::text::lemma_find_sub(line@, sep_cs@);
                }
                let m = line.len();
                let value = copy_range(line, p + sep_cs.len(), m);
                proof {
                    assert(value@ =~= line@.skip(p + separator@.len()));
                }
                let trimmed = trim_chars(&value);
                if trimmed.len() > 1 && trimmed[0] == '"' && trimmed[trimmed.len() - 1] == '"' {
                    proof {
                        crate::text::lemma_leading_spaces_bounds(value@);
                        crate::text::lemma_trailing_spaces_bounds(value@);
                    }
                    let inner = copy_range(&value, 1, value.len() - 1);
                    return chars_to_string(&inner);
                } else {
                    return chars_to_string(&trimmed);
                }
            }
        }
        i = i + 1;
    }
    proof {
        assert(all.skip(n as int) =~~= Seq::<Seq<char>>::empty());
    }
    String::from_str("Null")
}

/// The pattern `" with "`, as in `"... with 3D V-Cache"`.
pub open spec fn with_pattern() -> Seq<char> {
    seq![' ', 'w', 'i', 't', 'h', ' ']
}

/// The pattern `" @ "`, as in `"... @ 3.04Ghz"`.
pub open spec fn at_pattern() -> Seq<char> {
    seq![' ', '@', ' ']
}

/// The pattern `"-Core"`, as in `"... 6-Core Processor"`.
pub open spec fn core_pattern() -> Seq<char> {
    seq!['-', 'C', 'o', 'r', 'e']
}

/// The cut position for a CPU brand string: the earliest of the `" with "`
/// marker, the `" @ "` marker, and the space that precedes a `"-Core"`
/// suffix; the whole string where none occurs.
pub open spec fn strip_cpu_end(s: Seq<char>) -> int {
    let e0 = s.len() as int;
    let e1 = match find_sub(s, with_pattern()) {
        None => e0,
        Some(i) => if i < e0 {
            i
        } else {
            e0
        },
    };
    let e2 = match find_sub(s, at_pattern()) {
        None => e1,
        Some(i) => if i < e1 {
            i
        } else {
            e1
        },
    };
    match find_sub(s, core_pattern()) {
        None => e2,
        Some(p) => match rfind_char(s.take(p), ' ') {
            None => e2,
            Some(sp) => if sp < e2 {
                sp
            } else {
                e2
            },
        },
    }
}

/// What remains of a CPU brand string after cutting marketing suffixes:
/// the prefix up to `strip_cpu_end`, trimmed.
pub open spec fn strip_cpu_name_spec(s: Seq<char>) -> Seq<char> {
    trim_seq(s.take(strip_cpu_end(s)))
}

/// Cuts a CPU brand string such as `"Ryzen 5 5600X 6-Core Processor"` down
/// to the model name, here `"Ryzen 5 5600X"`: everything from the first
/// `" with "` or `" @ "` marker on is dropped, as is a trailing
/// `"N-Core ..."` remark, and the result is trimmed.
pub fn strip_cpu_name(full_name: &str) -> (r: String)
    ensures
        r@ == strip_cpu_name_spec(full_name@),
{
    let s = str_to_chars(full_name);
    let n = s.len();
    let mut end: usize = n;

    let mut with_pat: Vec<char> = Vec::new();
    with_pat.push(' ');
    with_pat.push('w');
    with_pat.push('i');
    with_pat.push('t');
    with_pat.push('h');
    with_pat.push(' ');
    proof {
        assert(with_pat@ =~= with_pattern());
    }
    if let Some(p) = find_sub_vec(&s, &with_pat) {
        if p < end {
            end = p;
        }
    }
    proof {
        assert(end == ({
            let e0 = s@.len() as int;
            match find_sub(s@, with_pattern()) {
                None => e0,
                Some(i) => if i < e0 {
                    i
                } else {
                    e0
                },
            }
        })) by {
            crate::text::lemma_find_sub(s@, with_pattern());
        }
    }

    let mut at_pat: Vec<char> = Vec::new();
    at_pat.push(' ');
    at_pat.push('@');
    at_pat.push(' ');
    proof {
        assert(at_pat@ =~= at_pattern());
    }
    if let Some(p) = find_sub_vec(&s, &at_pat) {
        if p < end {
            end = p;
        }
    }

    let mut core_pat: Vec<char> = Vec::new();
    core_pat.push('-');
    core_pat.push('C');
    core_pat.push('o');
    core_pat.push('r');
    core_pat.push('e');
    proof {
        assert(core_pat@ =~= core_pattern());
    }
    if let Some(p) = find_sub_vec(&s, &core_pat) {
        proof {
            crate::text::lemma_find_sub(s@, core_pattern());
        }
        let prefix = copy_range(&s, 0, p);
        proof {
            assert(prefix@ =~= s@.take(p as int));
        }
        if let Some(sp) = rfind_char_vec(&prefix, ' ') {
            if sp < end {
                end = sp;
            }
        }
    }

    let cut = copy_range(&s, 0, end);
    proof {
        assert(cut@ =~= s@.take(strip_cpu_end(s@)));
    }
    let trimmed = trim_chars(&cut);
    chars_to_string(&trimmed)
}

} // verus!
